//! Automatic HTTPS: the ACME settings, encryption of stored private keys,
//! the HTTP-01 challenge answers, certificate paths and renewal, and the
//! decisions of ordering a certificate. The ACME protocol messages, key
//! generation and the network are the server's part.

use vstd::prelude::*;
use vstd::string::StringSliceAdditionalSpecFns;
use crate::caching::{sha256, sha256_of};
use crate::location::is_prefix_of;
use crate::text::{
    chars_of, chars_slice, chars_split, join, push_joined, push_str, split, str_eq, str_starts_with, string_of,
    to_lowercase, to_owned, unicode_lower,
};
use crate::http_proxy::{strip_all, strip_all_exec};

verus! {

// ---------------------------------------------------------------------------
// Settings
// ---------------------------------------------------------------------------

/// The DNS provider that answers DNS-01 challenges.
#[derive(Debug, Clone)]
pub struct DnsChallengeConfig {
    pub provider: String,
    pub api_token: String,
}

/// Automatic HTTPS settings.
#[derive(Debug, Clone)]
pub struct AutoHttpsConfig {
    pub enabled: bool,
    pub email: String,
    /// The ACME directory; empty for Let's Encrypt's production directory.
    pub acme_ca: String,
    /// Where certificates are kept, one directory per domain (`~/` expands).
    pub cert_storage: String,
    /// Renew a certificate this many days before it expires.
    pub renew_before_days: u32,
    /// A hex key (64 digits) that stored private keys are encrypted with.
    pub encryption_key: Option<String>,
    pub dns_challenge: DnsChallengeConfig,
}

// ---------------------------------------------------------------------------
// Encrypted private keys
// ---------------------------------------------------------------------------

pub open spec fn hex_digit_value(b: u8) -> Option<u8> {
    if 48 <= b <= 57 {
        Some((b - 48) as u8)
    } else if 65 <= b <= 70 {
        Some((b - 55) as u8)
    } else if 97 <= b <= 102 {
        Some((b - 87) as u8)
    } else {
        None
    }
}

/// The bytes that hexadecimal text denotes: an even number of digits, either
/// case, two per byte.
pub open spec fn hex_decoded(t: Seq<u8>) -> Option<Seq<u8>>
    decreases t.len(),
{
    if t.len() == 0 {
        Some(Seq::empty())
    } else if t.len() < 2 {
        None
    } else {
        match (hex_digit_value(t[0]), hex_digit_value(t[1]), hex_decoded(t.skip(2))) {
            (Some(h), Some(l), Some(rest)) => Some(seq![(h * 16 + l) as u8] + rest),
            _ => None,
        }
    }
}

/// The text of `hex::FromHexError` for undecodable text.
pub uninterp spec fn hex_error_text(t: Seq<u8>) -> Seq<char>;

/// `hex::decode`. Trusted: decodable text gives its bytes as `hex_decoded`
/// says (the crate's `val` and `FromHex`); otherwise the error's text,
/// named `hex_error_text`.
#[verifier::external_body]
fn hex_decode(s: &str) -> (r: Result<Vec<u8>, String>)
    ensures
        match hex_decoded(s.spec_bytes()) {
            Some(b) => r matches Ok(v) && v@ == b,
            None => r matches Err(t) && t@ == hex_error_text(s.spec_bytes()),
        },
{
    hex::decode(s).map_err(|e| e.to_string())
}

/// Twelve random bytes (`rand::thread_rng().fill_bytes`). Trusted: only the
/// length; the bytes are random.
#[verifier::external_body]
fn random_nonce() -> (r: Vec<u8>)
    ensures
        r@.len() == 12,
{
    let mut b = [0u8; 12];
    rand::RngCore::fill_bytes(&mut rand::thread_rng(), &mut b);
    b.to_vec()
}

/// AES-256-GCM sealing of a plaintext under a key and nonce: the ciphertext
/// with its tag, or none where the plaintext is too long.
pub uninterp spec fn aes_gcm_sealed(key: Seq<u8>, nonce: Seq<u8>, plaintext: Seq<u8>) -> Option<Seq<u8>>;

/// AES-256-GCM opening: the plaintext, or none where the tag does not check.
pub uninterp spec fn aes_gcm_opened(key: Seq<u8>, nonce: Seq<u8>, ciphertext: Seq<u8>) -> Option<Seq<u8>>;

/// `Aes256Gcm::new(key).encrypt(nonce, plaintext)`. Trusted: the result is
/// named `aes_gcm_sealed`; a failure's text is `aead::Error` (the crate's
/// `Display`).
#[verifier::external_body]
fn aes_gcm_encrypt(key: &[u8], nonce: &[u8], plaintext: &[u8]) -> (r: Result<Vec<u8>, String>)
    requires
        key@.len() == 32,
        nonce@.len() == 12,
    ensures
        match aes_gcm_sealed(key@, nonce@, plaintext@) {
            Some(c) => r matches Ok(v) && v@ == c,
            None => r matches Err(t) && t@ == "aead::Error"@,
        },
{
    let cipher = <aes_gcm::Aes256Gcm as aes_gcm::aead::KeyInit>::new(aes_gcm::Key::<aes_gcm::Aes256Gcm>::from_slice(key));
    aes_gcm::aead::Aead::encrypt(&cipher, aes_gcm::Nonce::from_slice(nonce), plaintext).map_err(|e| e.to_string())
}

/// `Aes256Gcm::new(key).decrypt(nonce, ciphertext)`. Trusted: the result is
/// named `aes_gcm_opened`, and a ciphertext sealed from a plaintext under the
/// same key and nonce opens to it (the AEAD's promise); a failure's text is
/// `aead::Error`.
#[verifier::external_body]
fn aes_gcm_decrypt(key: &[u8], nonce: &[u8], ciphertext: &[u8]) -> (r: Result<Vec<u8>, String>)
    requires
        key@.len() == 32,
        nonce@.len() == 12,
    ensures
        match aes_gcm_opened(key@, nonce@, ciphertext@) {
            Some(p) => r matches Ok(v) && v@ == p,
            None => r matches Err(t) && t@ == "aead::Error"@,
        },
        r matches Ok(v) ==> forall|p: Seq<u8>|
            #[trigger] aes_gcm_sealed(key@, nonce@, p) == Some(ciphertext@) ==> v@ == p,
        r is Err ==> forall|p: Seq<u8>| #[trigger] aes_gcm_sealed(key@, nonce@, p) != Some(ciphertext@),
{
    let cipher = <aes_gcm::Aes256Gcm as aes_gcm::aead::KeyInit>::new(aes_gcm::Key::<aes_gcm::Aes256Gcm>::from_slice(key));
    aes_gcm::aead::Aead::decrypt(&cipher, aes_gcm::Nonce::from_slice(nonce), ciphertext).map_err(|e| e.to_string())
}

/// The text of `std::string::FromUtf8Error` for bytes that are not UTF-8.
pub uninterp spec fn utf8_error_text(b: Seq<u8>) -> Seq<char>;

/// `String::from_utf8`. Trusted: well-formed UTF-8 decodes (vstd's model);
/// otherwise the error's text, named `utf8_error_text`.
#[verifier::external_body]
fn string_from_utf8(b: Vec<u8>) -> (r: Result<String, String>)
    ensures
        r is Ok <==> vstd::utf8::valid_utf8(b@),
        r matches Ok(s) ==> s@ == vstd::utf8::decode_utf8(b@),
        r matches Err(t) ==> t@ == utf8_error_text(b@),
{
    String::from_utf8(b).map_err(|e| e.to_string())
}

pub open spec fn key_length_error() -> Seq<char> {
    "Encryption key must be exactly 32 bytes (64 hex characters)"@
}

/// The key a hex text gives: an error text where it is no hex or not 32
/// bytes long.
pub open spec fn pem_key(hex_key: Seq<u8>) -> Result<Seq<u8>, Seq<char>> {
    match hex_decoded(hex_key) {
        None => Err("Key parse err: "@ + hex_error_text(hex_key)),
        Some(k) => if k.len() != 32 {
            Err(key_length_error())
        } else {
            Ok(k)
        },
    }
}

fn decode_key(hex_key: &str) -> (r: Result<Vec<u8>, String>)
    ensures
        match pem_key(hex_key.spec_bytes()) {
            Ok(k) => r matches Ok(v) && v@ == k,
            Err(t) => r matches Err(e) && e@ == t,
        },
{
    match hex_decode(hex_key) {
        Ok(k) => {
            if k.len() != 32 {
                Err(to_owned("Encryption key must be exactly 32 bytes (64 hex characters)"))
            } else {
                Ok(k)
            }
        },
        Err(e) => {
            let mut m = to_owned("Key parse err: ");
            push_str(&mut m, e.as_str());
            Err(m)
        },
    }
}

/// What sealing a text under a key and nonce stores: the nonce followed by
/// the ciphertext, or none where sealing fails.
pub open spec fn sealed_output(k: Seq<u8>, n: Seq<u8>, p: Seq<u8>) -> Option<Seq<u8>> {
    match aes_gcm_sealed(k, n, p) {
        Some(c) => Some(n + c),
        None => None,
    }
}

/// Encrypts a PEM text with the hex key: a random 12-byte nonce followed by
/// the AES-256-GCM ciphertext of the text; it fails exactly where sealing
/// under that nonce fails.
pub fn encrypt_pem(pem: &str, hex_key: &str) -> (r: Result<Vec<u8>, String>)
    ensures
        match pem_key(hex_key.spec_bytes()) {
            Err(t) => r matches Err(e) && e@ == t,
            Ok(k) => exists|n: Seq<u8>|
                n.len() == 12 && match (r, #[trigger] sealed_output(k, n, pem.spec_bytes())) {
                    (Ok(out), Some(o)) => out@ == o,
                    (Err(e), None) => e@ == "Encryption failed: aead::Error"@,
                    _ => false,
                },
        },
{
    let key = match decode_key(hex_key) {
        Ok(k) => k,
        Err(e) => return Err(e),
    };
    let nonce = random_nonce();
    match aes_gcm_encrypt(key.as_slice(), nonce.as_slice(), pem.as_bytes()) {
        Ok(ct) => {
            let mut out = nonce;
            let ghost n = out@;
            let mut i: usize = 0;
            while i < ct.len()
                invariant
                    i <= ct@.len(),
                    n.len() == 12,
                    out@ == n + ct@.take(i as int),
                decreases ct@.len() - i,
            {
                out.push(ct[i]);
                assert(ct@.take(i + 1) =~= ct@.take(i as int).push(ct@[i as int]));
                i += 1;
            }
            assert(ct@.take(ct@.len() as int) =~= ct@);
            assert(out@ =~= n + ct@);
            assert(sealed_output(key@, n, pem.spec_bytes()) == Some(out@));
            Ok(out)
        },
        Err(e) => {
            let mut m = to_owned("Encryption failed: ");
            push_str(&mut m, e.as_str());
            proof {
                reveal_strlit("Encryption failed: ");
                reveal_strlit("aead::Error");
                reveal_strlit("Encryption failed: aead::Error");
                assert(m@ =~= "Encryption failed: aead::Error"@);
                assert(sealed_output(key@, nonce@, pem.spec_bytes()) is None);
            }
            Err(m)
        },
    }
}

/// What decrypting stored bytes with a key gives.
pub open spec fn decrypted_pem(data: Seq<u8>, k: Seq<u8>) -> Result<Seq<char>, Seq<char>> {
    if data.len() < 12 {
        Err("Encrypted data too short"@)
    } else {
        match aes_gcm_opened(k, data.take(12), data.skip(12)) {
            None => Err("Decryption failed: aead::Error"@),
            Some(p) => if vstd::utf8::valid_utf8(p) {
                Ok(vstd::utf8::decode_utf8(p))
            } else {
                Err(utf8_error_text(p))
            },
        }
    }
}

/// Decrypts bytes made by `encrypt_pem` with the same hex key.
pub fn decrypt_pem(data: &[u8], hex_key: &str) -> (r: Result<String, String>)
    ensures
        match pem_key(hex_key.spec_bytes()) {
            Err(t) => r matches Err(e) && e@ == t,
            Ok(k) => match (r, decrypted_pem(data@, k)) {
                (Ok(s), Ok(t)) => s@ == t,
                (Err(e), Err(t)) => e@ == t,
                _ => false,
            },
        },
        forall|k: Seq<u8>, p: Seq<u8>|
            pem_key(hex_key.spec_bytes()) == Ok::<Seq<u8>, Seq<char>>(k) && data@.len() >= 12
                && #[trigger] aes_gcm_sealed(k, data@.take(12), p) == Some(data@.skip(12))
                && vstd::utf8::valid_utf8(p) ==> (r matches Ok(s) && s@ == vstd::utf8::decode_utf8(p)),
{
    let key = match decode_key(hex_key) {
        Ok(k) => k,
        Err(e) => return Err(e),
    };
    if data.len() < 12 {
        return Err(to_owned("Encrypted data too short"));
    }
    let mut nonce12: Vec<u8> = Vec::new();
    let mut ct: Vec<u8> = Vec::new();
    let mut i: usize = 0;
    while i < data.len()
        invariant
            i <= data@.len(),
            data@.len() >= 12,
            nonce12@ == data@.take(if i < 12 { i as int } else { 12 }),
            ct@ == if i < 12 { Seq::<u8>::empty() } else { data@.subrange(12, i as int) },
        decreases data@.len() - i,
    {
        if i < 12 {
            nonce12.push(data[i]);
            assert(data@.take(i + 1) =~= data@.take(i as int).push(data@[i as int]));
        } else {
            ct.push(data[i]);
            assert(data@.subrange(12, i + 1) =~= data@.subrange(12, i as int).push(data@[i as int]));
        }
        i += 1;
    }
    assert(ct@ =~= data@.skip(12));
    match aes_gcm_decrypt(key.as_slice(), nonce12.as_slice(), ct.as_slice()) {
        Ok(p) => string_from_utf8(p),
        Err(e) => {
            let mut m = to_owned("Decryption failed: ");
            push_str(&mut m, e.as_str());
            proof {
                reveal_strlit("Decryption failed: ");
                reveal_strlit("aead::Error");
                reveal_strlit("Decryption failed: aead::Error");
                assert(m@ =~= "Decryption failed: aead::Error"@);
            }
            Err(m)
        },
    }
}

// ---------------------------------------------------------------------------
// Paths
// ---------------------------------------------------------------------------

/// `Path::join`: an absolute `b` replaces `a`; otherwise one `/` between.
pub open spec fn path_join(a: Seq<char>, b: Seq<char>) -> Seq<char> {
    if b.len() > 0 && b[0] == '/' {
        b
    } else if a.len() == 0 {
        b
    } else if a.last() == '/' {
        a + b
    } else {
        a + "/"@ + b
    }
}

pub fn join_path(a: &str, b: &str) -> (r: String)
    ensures
        r@ == path_join(a@, b@),
{
    let bc = chars_of(b);
    let ac = chars_of(a);
    if bc.len() > 0 && bc[0] == '/' {
        return to_owned(b);
    }
    if ac.len() == 0 {
        return to_owned(b);
    }
    let mut r = to_owned(a);
    if ac[ac.len() - 1] != '/' {
        push_str(&mut r, "/");
    }
    push_str(&mut r, b);
    r
}

/// `~/` at the start of a path stands for the home directory, where known.
pub open spec fn home_expanded(path: Seq<char>, home: Option<Seq<char>>) -> Seq<char> {
    match home {
        Some(h) => if is_prefix_of("~/"@, path) {
            path_join(h, path.skip(2))
        } else {
            path
        },
        None => path,
    }
}

/// Expands a leading `~/` with the home directory (the `HOME` setting).
pub fn expand_home(path: &str, home: Option<&str>) -> (r: String)
    ensures
        r@ == home_expanded(path@, match home {
            Some(h) => Some(h@),
            None => None,
        }),
{
    proof {
        reveal_strlit("~/");
    }
    match home {
        Some(h) => {
            if str_starts_with(path, "~/") {
                let cs = chars_of(path);
                let rest = string_of(chars_slice(cs.as_slice(), 2, cs.len()).as_slice());
                assert(rest@ =~= path@.skip(2));
                join_path(h, rest.as_str())
            } else {
                to_owned(path)
            }
        },
        None => to_owned(path),
    }
}

/// Where a domain's certificate files live.
pub struct CertPaths {
    pub domain_dir: String,
    pub cert: String,
    pub key: String,
    pub ocsp: String,
}

pub open spec fn cert_paths_of(dir: Seq<char>) -> (Seq<char>, Seq<char>, Seq<char>) {
    (path_join(dir, "fullchain.pem"@), path_join(dir, "privkey.pem"@), path_join(dir, "ocsp.der"@))
}

fn cert_paths(dir: String) -> (r: CertPaths)
    ensures
        r.domain_dir@ == dir@,
        (r.cert@, r.key@, r.ocsp@) == cert_paths_of(dir@),
{
    let cert = join_path(dir.as_str(), "fullchain.pem");
    let key = join_path(dir.as_str(), "privkey.pem");
    let ocsp = join_path(dir.as_str(), "ocsp.der");
    CertPaths { domain_dir: dir, cert, key, ocsp }
}

// ---------------------------------------------------------------------------
// Certificates
// ---------------------------------------------------------------------------

/// The first PEM block of bytes: its decoded contents and how many bytes it
/// took, or none where there is no (valid) block.
pub uninterp spec fn pem_block(b: Seq<u8>) -> Option<(Seq<u8>, nat)>;

/// `x509_parser::pem::parse_x509_pem`. Trusted: the result is named
/// `pem_block`; a block takes at least one byte and no more than there are
/// (the crate reads a `BEGIN` line and slices the rest off the input).
#[verifier::external_body]
fn pem_next(b: &[u8]) -> (r: Option<(Vec<u8>, usize)>)
    ensures
        match (r, pem_block(b@)) {
            (Some((c, n)), Some((d, m))) => c@ == d && n == m && 0 < n <= b@.len(),
            (None, None) => true,
            _ => false,
        },
{
    match x509_parser::pem::parse_x509_pem(b) {
        Ok((rest, pem)) => Some((pem.contents, b.len() - rest.len())),
        Err(_) => None,
    }
}

/// The expiry (`notAfter`, Unix seconds) of a DER certificate, or none
/// where it does not parse.
pub uninterp spec fn cert_not_after(der: Seq<u8>) -> Option<i64>;

/// `x509_parser::parse_x509_certificate`, then `validity().not_after`'s
/// timestamp. Trusted: the result is named `cert_not_after`.
#[verifier::external_body]
fn der_not_after(der: &[u8]) -> (r: Option<i64>)
    ensures
        r == cert_not_after(der@),
{
    match x509_parser::parse_x509_certificate(der) {
        Ok((_, cert)) => Some(cert.validity().not_after.timestamp()),
        Err(_) => None,
    }
}

/// The expiry of the first certificate in PEM bytes.
pub open spec fn first_cert_expiry(pem: Seq<u8>) -> Option<i64> {
    match pem_block(pem) {
        Some((der, _)) => cert_not_after(der),
        None => None,
    }
}

pub fn read_cert_expiry(pem: &[u8]) -> (r: Option<i64>)
    ensures
        r == first_cert_expiry(pem@),
{
    match pem_next(pem) {
        Some((der, _)) => der_not_after(der.as_slice()),
        None => None,
    }
}

/// Whole days from `now` (seconds and nanoseconds since the epoch) until
/// `expiry`, or none once it has passed.
pub open spec fn days_left(expiry: u64, now_secs: u64, now_nanos: u32) -> Option<int> {
    let e = expiry as int * 1000000000;
    let n = now_secs as int * 1000000000 + now_nanos as int;
    if e >= n {
        Some(((e - n) / 1000000000) / 86400)
    } else {
        None
    }
}

/// Whether a certificate expiring at `expiry` needs no renewal yet: more than
/// `renew_before_days` whole days are left.
pub open spec fn cert_fresh(expiry: u64, now_secs: u64, now_nanos: u32, renew_before_days: u32) -> bool {
    match days_left(expiry, now_secs, now_nanos) {
        Some(d) => d > renew_before_days,
        None => false,
    }
}

pub fn is_cert_fresh(expiry: u64, now_secs: u64, now_nanos: u32, renew_before_days: u32) -> (r: bool)
    requires
        now_nanos < 1000000000,
    ensures
        r == cert_fresh(expiry, now_secs, now_nanos, renew_before_days),
{
    let e: u128 = expiry as u128 * 1000000000;
    let n: u128 = now_secs as u128 * 1000000000 + now_nanos as u128;
    if e >= n {
        let days = ((e - n) / 1000000000) / 86400;
        days > renew_before_days as u128
    } else {
        false
    }
}

// ---------------------------------------------------------------------------
// The manager
// ---------------------------------------------------------------------------

/// The ACME manager: its settings, the key authorizations of pending HTTP-01
/// challenges by token, and the domains whose certificate is being issued.
pub struct AcmeManager {
    pub config: AutoHttpsConfig,
    http_challenges: Vec<(String, String)>,
    in_flight: Vec<String>,
}

pub open spec fn pairs_of(es: Seq<(String, String)>) -> Seq<(Seq<char>, Seq<char>)> {
    es.map_values(|e: (String, String)| (e.0@, e.1@))
}

pub open spec fn challenge_prefix() -> Seq<char> {
    "/.well-known/acme-challenge/"@
}

/// The key authorization a request path asks for.
pub open spec fn challenge_answer(cs: Seq<(Seq<char>, Seq<char>)>, path: Seq<char>) -> Option<Seq<char>> {
    if is_prefix_of(challenge_prefix(), path) {
        match crate::discovery::name_pos(cs, path.skip(challenge_prefix().len() as int)) {
            Some(i) => Some(cs[i].1),
            None => None,
        }
    } else {
        None
    }
}

impl AcmeManager {
    pub closed spec fn spec_challenges(&self) -> Seq<(Seq<char>, Seq<char>)> {
        pairs_of(self.http_challenges@)
    }

    pub closed spec fn spec_in_flight(&self) -> Seq<Seq<char>> {
        self.in_flight@.map_values(|d: String| d@)
    }

    pub closed spec fn spec_config(&self) -> AutoHttpsConfig {
        self.config
    }

    pub fn new(config: AutoHttpsConfig) -> (r: Self)
        ensures
            r.spec_config() == config,
            r.spec_challenges().len() == 0,
            r.spec_in_flight().len() == 0,
    {
        let r = AcmeManager { config, http_challenges: Vec::new(), in_flight: Vec::new() };
        assert(r.spec_challenges() =~= Seq::<(Seq<char>, Seq<char>)>::empty());
        assert(r.spec_in_flight() =~= Seq::<Seq<char>>::empty());
        r
    }

    fn find_token(&self, token: &str) -> (r: Option<usize>)
        ensures
            match r {
                Some(i) => crate::discovery::name_pos(self.spec_challenges(), token@) == Some(i as int)
                    && i < self.http_challenges@.len(),
                None => crate::discovery::name_pos(self.spec_challenges(), token@) is None,
            },
    {
        let ghost cs = self.spec_challenges();
        proof {
            crate::discovery::lemma_name_pos(cs, token@);
        }
        let mut i: usize = 0;
        while i < self.http_challenges.len()
            invariant
                i <= self.http_challenges@.len(),
                cs == self.spec_challenges(),
                cs.len() == self.http_challenges@.len(),
                forall|j: int| 0 <= j < i ==> cs[j].0 != token@,
                crate::discovery::name_pos(cs, token@) matches Some(p) ==> 0 <= p < cs.len() && cs[p].0
                    == token@ && forall|j: int| 0 <= j < p ==> cs[j].0 != token@,
                crate::discovery::name_pos(cs, token@) is None ==> forall|j: int|
                    0 <= j < cs.len() ==> cs[j].0 != token@,
            decreases self.http_challenges@.len() - i,
        {
            assert(cs[i as int] == (self.http_challenges@[i as int].0@, self.http_challenges@[i as int].1@));
            if str_eq(self.http_challenges[i].0.as_str(), token) {
                return Some(i);
            }
            i += 1;
        }
        None
    }

    /// The key authorization for an HTTP-01 challenge path
    /// (`/.well-known/acme-challenge/<token>`), where one is pending.
    pub fn check_http_challenge(&self, path: &str) -> (r: Option<String>)
        ensures
            match (r, challenge_answer(self.spec_challenges(), path@)) {
                (Some(a), Some(b)) => a@ == b,
                (None, None) => true,
                _ => false,
            },
    {
        proof {
            reveal_strlit("/.well-known/acme-challenge/");
        }
        if !str_starts_with(path, "/.well-known/acme-challenge/") {
            return None;
        }
        let cs = chars_of(path);
        let token = string_of(chars_slice(cs.as_slice(), 28, cs.len()).as_slice());
        assert(token@ =~= path@.skip(28));
        match self.find_token(token.as_str()) {
            Some(i) => {
                assert(self.spec_challenges()[i as int].1 == self.http_challenges@[i as int].1@);
                Some(to_owned(self.http_challenges[i].1.as_str()))
            },
            None => None,
        }
    }

    /// Records the key authorization of an HTTP-01 challenge (replacing one
    /// for the same token).
    pub fn register_http_challenge(&mut self, token: &str, key_auth: &str)
        ensures
            final(self).spec_challenges() == crate::discovery::named_insert(
                old(self).spec_challenges(),
                token@,
                key_auth@,
            ),
            final(self).spec_in_flight() == old(self).spec_in_flight(),
            final(self).spec_config() == old(self).spec_config(),
    {
        let ghost cs = self.spec_challenges();
        match self.find_token(token) {
            Some(i) => {
                self.http_challenges.set(i, (to_owned(token), to_owned(key_auth)));
                assert(self.spec_challenges() =~= cs.update(i as int, (token@, key_auth@)));
            },
            None => {
                self.http_challenges.push((to_owned(token), to_owned(key_auth)));
                assert(self.spec_challenges() =~= cs.push((token@, key_auth@)));
            },
        }
    }

    /// Forgets all pending challenges.
    pub fn clear_http_challenges(&mut self)
        ensures
            final(self).spec_challenges().len() == 0,
            final(self).spec_in_flight() == old(self).spec_in_flight(),
            final(self).spec_config() == old(self).spec_config(),
    {
        self.http_challenges = Vec::new();
        assert(self.spec_challenges() =~= Seq::<(Seq<char>, Seq<char>)>::empty());
    }

    /// Takes on issuing for a domain: true when no issuance for it is under
    /// way (it is then recorded), false when the caller is to wait for the
    /// one that is.
    pub fn begin_issuance(&mut self, domain: &str) -> (r: bool)
        ensures
            r == !old(self).spec_in_flight().contains(domain@),
            r ==> final(self).spec_in_flight() == old(self).spec_in_flight().push(domain@),
            !r ==> final(self).spec_in_flight() == old(self).spec_in_flight(),
            final(self).spec_challenges() == old(self).spec_challenges(),
            final(self).spec_config() == old(self).spec_config(),
    {
        let ghost ds = self.spec_in_flight();
        let mut i: usize = 0;
        while i < self.in_flight.len()
            invariant
                i <= self.in_flight@.len(),
                ds == self.spec_in_flight(),
                ds.len() == self.in_flight@.len(),
                forall|j: int| 0 <= j < i ==> ds[j] != domain@,
            decreases self.in_flight@.len() - i,
        {
            assert(ds[i as int] == self.in_flight@[i as int]@);
            if str_eq(self.in_flight[i].as_str(), domain) {
                assert(ds.contains(domain@));
                return false;
            }
            i += 1;
        }
        self.in_flight.push(to_owned(domain));
        assert(self.spec_in_flight() =~= ds.push(domain@));
        true
    }

    /// Ends issuing for a domain; answers whether it was under way.
    pub fn end_issuance(&mut self, domain: &str) -> (r: bool)
        ensures
            r == old(self).spec_in_flight().contains(domain@),
            final(self).spec_in_flight() == old(self).spec_in_flight().filter(|d: Seq<char>| d != domain@),
            final(self).spec_challenges() == old(self).spec_challenges(),
            final(self).spec_config() == old(self).spec_config(),
    {
        let ghost ds = self.spec_in_flight();
        let mut kept: Vec<String> = Vec::new();
        let mut found = false;
        let mut i: usize = 0;
        while i < self.in_flight.len()
            invariant
                i <= self.in_flight@.len(),
                ds == self.spec_in_flight(),
                ds.len() == self.in_flight@.len(),
                kept@.map_values(|d: String| d@) == ds.take(i as int).filter(|d: Seq<char>| d != domain@),
                found == ds.take(i as int).contains(domain@),
            decreases self.in_flight@.len() - i,
        {
            assert(ds.take(i + 1).drop_last() =~= ds.take(i as int));
            assert(ds.take(i + 1).last() == self.in_flight@[i as int]@);
            proof {
                let pred = |d: Seq<char>| d != domain@;
                assert(ds.take(i + 1) =~= ds.take(i as int) + seq![ds[i as int]]);
                Seq::filter_distributes_over_add(ds.take(i as int), seq![ds[i as int]], pred);
                assert(seq![ds[i as int]].filter(pred) =~= (if ds[i as int] != domain@ {
                    seq![ds[i as int]]
                } else {
                    Seq::<Seq<char>>::empty()
                })) by {
                    reveal_with_fuel(Seq::filter, 2);
                }
            }
            let ghost before = kept@;
            if str_eq(self.in_flight[i].as_str(), domain) {
                found = true;
            } else {
                kept.push(to_owned(self.in_flight[i].as_str()));
                assert(kept@.map_values(|d: String| d@) =~= before.map_values(|d: String| d@).push(
                    self.in_flight@[i as int]@,
                ));
            }
            assert(ds.take(i + 1).contains(domain@) == (ds.take(i as int).contains(domain@) || ds[i as int] == domain@)) by {
                if ds[i as int] == domain@ {
                    assert(ds.take(i + 1)[i as int] == domain@);
                }
                if ds.take(i + 1).contains(domain@) {
                    let k = choose|k: int| 0 <= k < i + 1 && #[trigger] ds.take(i + 1)[k] == domain@;
                    if k < i {
                        assert(ds.take(i as int)[k] == domain@);
                    }
                }
            }
            i += 1;
        }
        assert(ds.take(ds.len() as int) =~= ds);
        self.in_flight = kept;
        found
    }
}

// ---------------------------------------------------------------------------
// Challenge values
// ---------------------------------------------------------------------------

pub open spec fn b64url_char(v: int) -> char {
    if v < 26 {
        ('A' as int + v) as char
    } else if v < 52 {
        ('a' as int + v - 26) as char
    } else if v < 62 {
        ('0' as int + v - 52) as char
    } else if v == 62 {
        '-'
    } else {
        '_'
    }
}

/// URL-safe base64 without padding: three bytes become four characters; a
/// last one or two bytes become two or three.
pub open spec fn base64url_text(b: Seq<u8>) -> Seq<char>
    decreases b.len(),
{
    if b.len() == 0 {
        Seq::empty()
    } else if b.len() == 1 {
        seq![b64url_char(b[0] as int / 4), b64url_char((b[0] as int % 4) * 16)]
    } else if b.len() == 2 {
        seq![
            b64url_char(b[0] as int / 4),
            b64url_char((b[0] as int % 4) * 16 + b[1] as int / 16),
            b64url_char((b[1] as int % 16) * 4),
        ]
    } else {
        seq![
            b64url_char(b[0] as int / 4),
            b64url_char((b[0] as int % 4) * 16 + b[1] as int / 16),
            b64url_char((b[1] as int % 16) * 4 + b[2] as int / 64),
            b64url_char(b[2] as int % 64),
        ] + base64url_text(b.skip(3))
    }
}

/// `URL_SAFE_NO_PAD.encode`. Trusted: the text is `base64url_text` of the
/// bytes (RFC 4648's URL-safe alphabet, no padding).
#[verifier::external_body]
fn base64url_encode(b: &[u8]) -> (r: String)
    ensures
        r@ == base64url_text(b@),
{
    base64::Engine::encode(&base64::engine::general_purpose::URL_SAFE_NO_PAD, b)
}

/// The TXT record of a DNS-01 challenge: the URL-safe base64 of the SHA-256
/// of the key authorization.
pub fn dns_txt_value(key_auth: &str) -> (r: String)
    ensures
        r@ == base64url_text(sha256_of(key_auth.spec_bytes())),
{
    let d = sha256(key_auth.as_bytes());
    base64url_encode(d.as_slice())
}

/// The value of a TLS-ALPN-01 certificate's `acmeIdentifier`: the SHA-256 of
/// the key authorization.
pub fn alpn_identifier(key_auth: &str) -> (r: Vec<u8>)
    ensures
        r@ == sha256_of(key_auth.spec_bytes()),
{
    sha256(key_auth.as_bytes())
}

/// The names a Cloudflare zone is looked up by, longest first: the domain
/// (without a leading `*.`) and each parent with at least two labels.
pub open spec fn zone_candidates_of(parts: Seq<Seq<char>>) -> Seq<Seq<char>>
    decreases parts.len(),
{
    if parts.len() < 2 {
        Seq::empty()
    } else {
        seq![join(parts, "."@)] + zone_candidates_of(parts.drop_first())
    }
}

pub open spec fn challenge_domain(domain: Seq<char>) -> Seq<char> {
    strip_all(domain, "*."@)
}

pub fn zone_candidates(domain: &str) -> (r: Vec<String>)
    ensures
        r@.map_values(|z: String| z@) == zone_candidates_of(split(challenge_domain(domain@), '.')),
{
    proof {
        reveal_strlit("*.");
    }
    let trimmed = crate::http_proxy::strip_all_exec(domain, "*.");
    let tc = chars_of(trimmed.as_str());
    let parts = chars_split(tc.as_slice(), '.');
    let ghost ps = parts@.map_values(|x: Vec<char>| x@);
    assert(ps =~= split(tc@, '.'));
    assert(tc@ == challenge_domain(domain@));
    let mut out: Vec<String> = Vec::new();
    let mut i: usize = 0;
    let n = parts.len();
    assert(ps.skip(0) =~= ps);
    while i < n && n - i > 1
        invariant
            n == parts@.len(),
            i <= n,
            ps == parts@.map_values(|x: Vec<char>| x@),
            zone_candidates_of(ps) == out@.map_values(|z: String| z@) + zone_candidates_of(ps.skip(i as int)),
        decreases n - i,
    {
        let mut rest: Vec<Vec<char>> = Vec::new();
        let mut k = i;
        while k < n
            invariant
                i <= k <= n == parts@.len(),
                rest@.map_values(|x: Vec<char>| x@) == ps.subrange(i as int, k as int),
                ps == parts@.map_values(|x: Vec<char>| x@),
            decreases n - k,
        {
            let ghost before = rest@;
            let piece = chars_slice(parts[k].as_slice(), 0, parts[k].len());
            assert(piece@ =~= parts@[k as int]@);
            rest.push(piece);
            proof {
                assert(rest@.map_values(|x: Vec<char>| x@) =~= ps.subrange(i as int, k + 1)) by {
                    assert(ps[k as int] == parts@[k as int]@);
                    assert(rest@.last()@ == parts@[k as int]@);
                    assert(rest@.map_values(|x: Vec<char>| x@) =~= before.map_values(|x: Vec<char>| x@).push(
                        ps[k as int],
                    ));
                }
            }
            k += 1;
        }
        assert(ps.subrange(i as int, n as int) =~= ps.skip(i as int));
        let mut z = String::new();
        push_joined(&mut z, &rest, ".");
        let ghost before = out@;
        out.push(z);
        proof {
            assert(ps.skip(i as int).drop_first() =~= ps.skip(i + 1));
            assert(out@.map_values(|z: String| z@) =~= before.map_values(|z: String| z@).push(
                join(ps.skip(i as int), "."@),
            ));
        }
        i += 1;
    }
    assert(zone_candidates_of(ps.skip(i as int)) =~= Seq::<Seq<char>>::empty());
    out
}

// ---------------------------------------------------------------------------
// Making sure a domain has a certificate
// ---------------------------------------------------------------------------

/// The directory of a domain's certificate files.
pub open spec fn domain_dir_of(storage: Seq<char>, domain: Seq<char>, home: Option<Seq<char>>) -> Seq<char> {
    path_join(home_expanded(storage, home), domain)
}

pub open spec fn opt_view(o: Option<&str>) -> Option<Seq<char>> {
    match o {
        Some(h) => Some(h@),
        None => None,
    }
}

/// Where a certificate check stands.
#[derive(PartialEq, Eq, Structural)]
pub enum EnsureStage {
    LocalFiles,
    Certificate,
    Waiting,
    Issuing,
    Done,
}

/// What the server does next for a certificate check.
pub enum EnsureAction {
    /// Nothing more: the certificate is there (or automatic HTTPS is off).
    Done,
    /// Tell whether the certificate and key files exist.
    CheckLocalFiles { cert: String, key: String },
    /// Make a self-signed certificate for a local name and store it there
    /// (the key as `self_signed_key_bytes` gives it).
    CreateSelfSigned { domain: String, domain_dir: String, cert: String, key: String },
    /// Read the certificate file, if there is one.
    ReadCertificate { cert: String },
    /// Wait until the issuance under way ends.
    WaitForIssuance,
    /// Issue a certificate for these domains.
    Issue { domains: Vec<String> },
    /// Wake those waiting for this issuance.
    NotifyWaiters,
}

/// A certificate check for one domain.
pub struct EnsureFlow {
    pub stage: EnsureStage,
    pub domain: String,
    pub paths: CertPaths,
}

impl EnsureFlow {
    /// Starts a check: nothing while automatic HTTPS is off; `localhost` and
    /// `127.0.0.1` get a self-signed certificate where theirs is missing;
    /// other domains have their certificate read.
    pub fn start(manager: &AcmeManager, domain: &str, home: Option<&str>) -> (r: (EnsureFlow, EnsureAction))
        ensures
            r.0.domain@ == domain@,
            r.0.paths.domain_dir@ == domain_dir_of(manager.spec_config().cert_storage@, domain@, opt_view(home)),
            (r.0.paths.cert@, r.0.paths.key@, r.0.paths.ocsp@) == cert_paths_of(r.0.paths.domain_dir@),
            !manager.spec_config().enabled ==> r.0.stage == EnsureStage::Done && r.1 is Done,
            manager.spec_config().enabled && (domain@ == "localhost"@ || domain@ == "127.0.0.1"@) ==> r.0.stage
                == EnsureStage::LocalFiles && (r.1 matches EnsureAction::CheckLocalFiles { cert, key }
                && cert@ == r.0.paths.cert@ && key@ == r.0.paths.key@),
            manager.spec_config().enabled && !(domain@ == "localhost"@ || domain@ == "127.0.0.1"@) ==> r.0.stage
                == EnsureStage::Certificate && (r.1 matches EnsureAction::ReadCertificate { cert }
                && cert@ == r.0.paths.cert@),
    {
        let dir = expand_home(manager.config.cert_storage.as_str(), home);
        let domain_dir = join_path(dir.as_str(), domain);
        let paths = cert_paths(domain_dir);
        if !manager.config.enabled {
            return (EnsureFlow { stage: EnsureStage::Done, domain: to_owned(domain), paths }, EnsureAction::Done);
        }
        if str_eq(domain, "localhost") || str_eq(domain, "127.0.0.1") {
            let action = EnsureAction::CheckLocalFiles { cert: to_owned(paths.cert.as_str()), key: to_owned(paths.key.as_str()) };
            return (EnsureFlow { stage: EnsureStage::LocalFiles, domain: to_owned(domain), paths }, action);
        }
        let action = EnsureAction::ReadCertificate { cert: to_owned(paths.cert.as_str()) };
        (EnsureFlow { stage: EnsureStage::Certificate, domain: to_owned(domain), paths }, action)
    }

    /// Whether a local name's files exist: both there ends the check;
    /// otherwise a self-signed certificate is made.
    pub fn on_local_files(&mut self, cert_exists: bool, key_exists: bool) -> (r: EnsureAction)
        requires
            old(self).stage == EnsureStage::LocalFiles,
        ensures
            final(self).stage == EnsureStage::Done,
            cert_exists && key_exists ==> r is Done,
            !(cert_exists && key_exists) ==> (r matches EnsureAction::CreateSelfSigned { domain, domain_dir, cert, key }
                && domain@ == old(self).domain@ && domain_dir@ == old(self).paths.domain_dir@ && cert@
                == old(self).paths.cert@ && key@ == old(self).paths.key@),
    {
        self.stage = EnsureStage::Done;
        if cert_exists && key_exists {
            return EnsureAction::Done;
        }
        EnsureAction::CreateSelfSigned {
            domain: to_owned(self.domain.as_str()),
            domain_dir: to_owned(self.paths.domain_dir.as_str()),
            cert: to_owned(self.paths.cert.as_str()),
            key: to_owned(self.paths.key.as_str()),
        }
    }

    /// The certificate file's bytes (none where it does not exist) and the
    /// time now: a certificate with more than `renew_before_days` left ends
    /// the check; otherwise this check issues one, unless an issuance for
    /// the domain is under way, which it then waits for.
    pub fn on_certificate(
        &mut self,
        manager: &mut AcmeManager,
        pem: Option<Vec<u8>>,
        now_secs: u64,
        now_nanos: u32,
    ) -> (r: EnsureAction)
        requires
            old(self).stage == EnsureStage::Certificate,
            now_nanos < 1000000000,
            pem matches Some(b) ==> (first_cert_expiry(b@) matches Some(e) ==> e >= 0),
        ensures
            ({
                let fresh = pem matches Some(b) && first_cert_expiry(b@) matches Some(e) && cert_fresh(
                    e as u64,
                    now_secs,
                    now_nanos,
                    old(manager).spec_config().renew_before_days,
                );
                let waiting = old(manager).spec_in_flight().contains(old(self).domain@);
                &&& fresh ==> final(self).stage == EnsureStage::Done && r is Done && *final(manager)
                    == *old(manager)
                &&& !fresh && waiting ==> final(self).stage == EnsureStage::Waiting && r is WaitForIssuance
                    && final(manager).spec_in_flight() == old(manager).spec_in_flight()
                &&& !fresh && !waiting ==> final(self).stage == EnsureStage::Issuing && (r matches EnsureAction::Issue {
                    domains,
                } && domains@.len() == 1 && domains@[0]@ == old(self).domain@) && final(manager).spec_in_flight()
                    == old(manager).spec_in_flight().push(old(self).domain@)
            }),
            final(manager).spec_config() == old(manager).spec_config(),
            final(manager).spec_challenges() == old(manager).spec_challenges(),
            final(self).domain == old(self).domain,
    {
        let fresh = match &pem {
            Some(b) => match read_cert_expiry(b.as_slice()) {
                Some(e) => is_cert_fresh(e as u64, now_secs, now_nanos, manager.config.renew_before_days),
                None => false,
            },
            None => false,
        };
        if fresh {
            self.stage = EnsureStage::Done;
            return EnsureAction::Done;
        }
        if manager.begin_issuance(self.domain.as_str()) {
            self.stage = EnsureStage::Issuing;
            let mut domains: Vec<String> = Vec::new();
            domains.push(to_owned(self.domain.as_str()));
            EnsureAction::Issue { domains }
        } else {
            self.stage = EnsureStage::Waiting;
            EnsureAction::WaitForIssuance
        }
    }

    /// `on_certificate`, or none (and nothing changes) where the stored
    /// certificate expires before the epoch, a time the check cannot take.
    pub fn on_certificate_checked(
        &mut self,
        manager: &mut AcmeManager,
        pem: Option<Vec<u8>>,
        now_secs: u64,
        now_nanos: u32,
    ) -> (r: Option<EnsureAction>)
        requires
            old(self).stage == EnsureStage::Certificate,
            now_nanos < 1000000000,
        ensures
            r is None <==> (pem matches Some(b) && first_cert_expiry(b@) matches Some(e) && e < 0),
            r is None ==> *final(self) == *old(self) && *final(manager) == *old(manager),
            r matches Some(a) ==> ({
                let fresh = pem matches Some(b) && first_cert_expiry(b@) matches Some(e) && cert_fresh(
                    e as u64,
                    now_secs,
                    now_nanos,
                    old(manager).spec_config().renew_before_days,
                );
                let waiting = old(manager).spec_in_flight().contains(old(self).domain@);
                &&& fresh ==> final(self).stage == EnsureStage::Done && a is Done && *final(manager)
                    == *old(manager)
                &&& !fresh && waiting ==> final(self).stage == EnsureStage::Waiting && a is WaitForIssuance
                    && final(manager).spec_in_flight() == old(manager).spec_in_flight()
                &&& !fresh && !waiting ==> final(self).stage == EnsureStage::Issuing && (a matches EnsureAction::Issue {
                    domains,
                } && domains@.len() == 1 && domains@[0]@ == old(self).domain@) && final(manager).spec_in_flight()
                    == old(manager).spec_in_flight().push(old(self).domain@)
            }),
            r is Some ==> final(manager).spec_config() == old(manager).spec_config()
                && final(manager).spec_challenges() == old(manager).spec_challenges() && final(self).domain
                == old(self).domain,
    {
        let negative = match &pem {
            Some(b) => match read_cert_expiry(b.as_slice()) {
                Some(e) => e < 0,
                None => false,
            },
            None => false,
        };
        if negative {
            return None;
        }
        Some(self.on_certificate(manager, pem, now_secs, now_nanos))
    }

    /// The issuance this check led has ended: it is no longer under way and
    /// its waiters are woken.
    pub fn on_issued(&mut self, manager: &mut AcmeManager) -> (r: EnsureAction)
        requires
            old(self).stage == EnsureStage::Issuing,
        ensures
            final(self).stage == EnsureStage::Done,
            r is NotifyWaiters,
            final(manager).spec_in_flight() == old(manager).spec_in_flight().filter(|d: Seq<char>| d != old(self).domain@),
            final(manager).spec_config() == old(manager).spec_config(),
            final(manager).spec_challenges() == old(manager).spec_challenges(),
    {
        manager.end_issuance(self.domain.as_str());
        self.stage = EnsureStage::Done;
        EnsureAction::NotifyWaiters
    }
}

/// The stored bytes of a self-signed certificate's key: encrypted with the
/// configured key where that works, else the PEM text itself.
pub fn self_signed_key_bytes(config: &AutoHttpsConfig, key_pem: &str) -> (r: Vec<u8>)
    ensures
        match config.encryption_key {
            Some(k) => match pem_key(vstd::utf8::encode_utf8(k@)) {
                Ok(kb) => exists|n: Seq<u8>|
                    n.len() == 12 && r@ == match #[trigger] sealed_output(kb, n, key_pem.spec_bytes()) {
                        Some(o) => o,
                        None => key_pem.spec_bytes(),
                    },
                Err(_) => r@ == key_pem.spec_bytes(),
            },
            None => r@ == key_pem.spec_bytes(),
        },
{
    match &config.encryption_key {
        Some(k) => {
            let r = encrypt_pem(key_pem, k.as_str());
            proof {
                if let Ok(kb) = pem_key(vstd::utf8::encode_utf8(k@)) {
                    let n = choose|n: Seq<u8>|
                        n.len() == 12 && match (r, #[trigger] sealed_output(kb, n, key_pem.spec_bytes())) {
                            (Ok(out), Some(o)) => out@ == o,
                            (Err(e), None) => e@ == "Encryption failed: aead::Error"@,
                            _ => false,
                        };
                    assert(n.len() == 12 && sealed_output(kb, n, key_pem.spec_bytes()) is Some == r is Ok);
                }
            }
            match r {
                Ok(b) => b,
                Err(_) => vstd::slice::slice_to_vec(key_pem.as_bytes()),
            }
        },
        None => vstd::slice::slice_to_vec(key_pem.as_bytes()),
    }
}

// ---------------------------------------------------------------------------
// Ordering a certificate
// ---------------------------------------------------------------------------

/// The states of an ACME order.
#[derive(Debug, Clone, Copy, PartialEq, Eq, Structural)]
pub enum OrderStatus {
    Pending,
    Ready,
    Processing,
    Valid,
    Invalid,
}

pub open spec fn order_status_name(s: OrderStatus) -> Seq<char> {
    match s {
        OrderStatus::Pending => "Pending"@,
        OrderStatus::Ready => "Ready"@,
        OrderStatus::Processing => "Processing"@,
        OrderStatus::Valid => "Valid"@,
        OrderStatus::Invalid => "Invalid"@,
    }
}

fn status_name(s: OrderStatus) -> (r: &'static str)
    ensures
        r@ == order_status_name(s),
{
    match s {
        OrderStatus::Pending => "Pending",
        OrderStatus::Ready => "Ready",
        OrderStatus::Processing => "Processing",
        OrderStatus::Valid => "Valid",
        OrderStatus::Invalid => "Invalid",
    }
}

/// The challenge kinds this manager can answer.
#[derive(Debug, Clone, Copy, PartialEq, Eq, Structural)]
pub enum ChallengeType {
    Http01,
    Dns01,
    TlsAlpn01,
}

/// Where an order stands.
#[derive(PartialEq, Eq, Structural)]
pub enum IssueStage {
    Order,
    Authorizations,
    Challenge(ChallengeType),
    ChallengeReady,
    Ready,
    Certificate,
    Done,
}

/// What the server does next for an order.
pub enum IssueAction {
    /// Nothing more (automatic HTTPS is off, or all is stored).
    Done,
    /// The order failed with this message.
    Fail(String),
    /// Create the account (with these contacts, at this directory, or at
    /// Let's Encrypt's production directory) and the order.
    CreateOrder { contact: Vec<String>, directory_url: Option<String>, domains: Vec<String> },
    /// Report the next authorization, or that there are no more.
    NextAuthorization,
    /// Fetch this challenge's token and key authorization.
    AnswerChallenge(ChallengeType),
    /// Publish the DNS-01 TXT record through Cloudflare (the zone is the
    /// first candidate Cloudflare knows), wait for it to spread, and set the
    /// challenge ready.
    PublishDnsRecord { zone_candidates: Vec<String>, record_name: String, content: String, api_token: String },
    /// Stage a TLS-ALPN-01 certificate for the domain with this
    /// `acmeIdentifier`, and set the challenge ready.
    StageAlpnCertificate { domain: String, identifier: Vec<u8> },
    /// Set the challenge ready.
    SetReady,
    /// Wait for the order to become ready (clearing staged ALPN certificates).
    PollReady,
    /// Send the CSR for these domains and fetch the certificate.
    Finalize { domains: Vec<String> },
    /// Store the certificate chain and key (creating the directory), then
    /// fetch and store the OCSP response.
    Persist { paths: CertPaths, cert_pem: String, key_bytes: Vec<u8> },
}

/// An order for some domains.
pub struct IssueFlow {
    pub stage: IssueStage,
    pub domains: Vec<String>,
}

pub open spec fn contact_of(email: Seq<char>) -> Seq<Seq<char>> {
    if email.len() == 0 {
        Seq::empty()
    } else {
        seq!["mailto:"@ + email]
    }
}

pub open spec fn strings_view(v: Seq<String>) -> Seq<Seq<char>> {
    v.map_values(|s: String| s@)
}

fn copy_strings(v: &Vec<String>) -> (r: Vec<String>)
    ensures
        strings_view(r@) == strings_view(v@),
{
    let mut out: Vec<String> = Vec::new();
    let mut i: usize = 0;
    while i < v.len()
        invariant
            i <= v@.len(),
            strings_view(out@) == strings_view(v@.take(i as int)),
        decreases v@.len() - i,
    {
        let ghost before = out@;
        out.push(to_owned(v[i].as_str()));
        assert(strings_view(out@) =~= strings_view(before).push(v@[i as int]@));
        assert(v@.take(i + 1) =~= v@.take(i as int).push(v@[i as int]));
        assert(strings_view(v@.take(i + 1)) =~= strings_view(v@.take(i as int)).push(v@[i as int]@));
        i += 1;
    }
    assert(v@.take(v@.len() as int) =~= v@);
    out
}

/// Whether DNS-01 challenges are answered: the provider is Cloudflare (any
/// case) and an API token is set.
pub open spec fn uses_cloudflare(c: AutoHttpsConfig) -> bool {
    unicode_lower(c.dns_challenge.provider@) == "cloudflare"@ && c.dns_challenge.api_token@.len() > 0
}

/// The challenge an authorization is answered with: DNS-01 where Cloudflare
/// is set up and it is offered, else TLS-ALPN-01, else HTTP-01.
pub open spec fn chosen_challenge(c: AutoHttpsConfig, offered: Seq<ChallengeType>) -> Option<ChallengeType> {
    if offered.contains(ChallengeType::Dns01) && uses_cloudflare(c) {
        Some(ChallengeType::Dns01)
    } else if offered.contains(ChallengeType::TlsAlpn01) {
        Some(ChallengeType::TlsAlpn01)
    } else if offered.contains(ChallengeType::Http01) {
        Some(ChallengeType::Http01)
    } else {
        None
    }
}

fn offers(offered: &[ChallengeType], t: ChallengeType) -> (r: bool)
    ensures
        r == offered@.contains(t),
{
    let mut i: usize = 0;
    while i < offered.len()
        invariant
            i <= offered@.len(),
            forall|j: int| 0 <= j < i ==> offered@[j] != t,
        decreases offered@.len() - i,
    {
        if offered[i] == t {
            assert(offered@[i as int] == t);
            return true;
        }
        i += 1;
    }
    false
}

impl IssueFlow {
    /// Starts an order: nothing while automatic HTTPS is off; otherwise the
    /// account (contact `mailto:<email>` where an email is set) and order.
    pub fn start(manager: &AcmeManager, domains: Vec<String>) -> (r: (IssueFlow, IssueAction))
        ensures
            strings_view(r.0.domains@) == strings_view(domains@),
            !manager.spec_config().enabled ==> r.0.stage == IssueStage::Done && r.1 is Done,
            manager.spec_config().enabled ==> r.0.stage == IssueStage::Order && (r.1 matches IssueAction::CreateOrder {
                contact,
                directory_url,
                domains: ds,
            } && strings_view(contact@) == contact_of(manager.spec_config().email@) && (if manager.spec_config().acme_ca@.len()
                == 0 {
                directory_url is None
            } else {
                directory_url matches Some(u) && u@ == manager.spec_config().acme_ca@
            }) && strings_view(ds@) == strings_view(domains@)),
    {
        if !manager.config.enabled {
            return (IssueFlow { stage: IssueStage::Done, domains }, IssueAction::Done);
        }
        let mut contact: Vec<String> = Vec::new();
        if manager.config.email.unicode_len() > 0 {
            let mut c = to_owned("mailto:");
            push_str(&mut c, manager.config.email.as_str());
            contact.push(c);
        }
        assert(strings_view(contact@) =~= contact_of(manager.config.email@));
        let directory_url = if manager.config.acme_ca.unicode_len() == 0 {
            None
        } else {
            Some(to_owned(manager.config.acme_ca.as_str()))
        };
        let ds = copy_strings(&domains);
        (IssueFlow { stage: IssueStage::Order, domains }, IssueAction::CreateOrder { contact, directory_url, domains: ds })
    }

    /// The new order's status: a pending or ready order goes on to its
    /// authorizations; any other fails.
    pub fn on_order(&mut self, status: OrderStatus) -> (r: IssueAction)
        requires
            old(self).stage == IssueStage::Order,
        ensures
            final(self).domains == old(self).domains,
            (status == OrderStatus::Pending || status == OrderStatus::Ready) ==> final(self).stage
                == IssueStage::Authorizations && r is NextAuthorization,
            !(status == OrderStatus::Pending || status == OrderStatus::Ready) ==> final(self).stage
                == IssueStage::Done && (r matches IssueAction::Fail(m) && m@ == "Order status is "@
                + order_status_name(status)),
    {
        if status == OrderStatus::Pending || status == OrderStatus::Ready {
            self.stage = IssueStage::Authorizations;
            return IssueAction::NextAuthorization;
        }
        self.stage = IssueStage::Done;
        let mut m = to_owned("Order status is ");
        push_str(&mut m, status_name(status));
        IssueAction::Fail(m)
    }

    /// An authorization: a valid one needs nothing; otherwise the chosen
    /// challenge is answered, and none offered fails the order.
    pub fn on_authorization(&mut self, manager: &AcmeManager, valid: bool, offered: &[ChallengeType]) -> (r: IssueAction)
        requires
            old(self).stage == IssueStage::Authorizations,
            old(self).domains@.len() > 0,
        ensures
            final(self).domains == old(self).domains,
            valid ==> final(self).stage == IssueStage::Authorizations && r is NextAuthorization,
            !valid ==> match chosen_challenge(manager.spec_config(), offered@) {
                Some(t) => final(self).stage == IssueStage::Challenge(t) && r == IssueAction::AnswerChallenge(t),
                None => final(self).stage == IssueStage::Done && (r matches IssueAction::Fail(m) && m@
                    == "No supported challenge (HTTP-01 or TLS-ALPN-01) found for domain "@ + old(self).domains@[0]@),
            },
    {
        if valid {
            return IssueAction::NextAuthorization;
        }
        let provider = to_lowercase(manager.config.dns_challenge.provider.as_str());
        let cloudflare = str_eq(provider.as_str(), "cloudflare") && manager.config.dns_challenge.api_token.unicode_len() > 0;
        let t = if offers(offered, ChallengeType::Dns01) && cloudflare {
            ChallengeType::Dns01
        } else if offers(offered, ChallengeType::TlsAlpn01) {
            ChallengeType::TlsAlpn01
        } else if offers(offered, ChallengeType::Http01) {
            ChallengeType::Http01
        } else {
            self.stage = IssueStage::Done;
            let mut m = to_owned("No supported challenge (HTTP-01 or TLS-ALPN-01) found for domain ");
            push_str(&mut m, self.domains[0].as_str());
            return IssueAction::Fail(m);
        };
        self.stage = IssueStage::Challenge(t);
        IssueAction::AnswerChallenge(t)
    }

    /// The challenge's token and key authorization: DNS-01 publishes the
    /// TXT record `_acme-challenge.<domain>`; TLS-ALPN-01 stages a
    /// certificate; HTTP-01 records the answer for the token.
    pub fn on_key_authorization(&mut self, manager: &mut AcmeManager, token: &str, key_auth: &str) -> (r: IssueAction)
        requires
            old(self).stage is Challenge,
            old(self).domains@.len() > 0,
        ensures
            final(self).stage == IssueStage::ChallengeReady,
            final(self).domains == old(self).domains,
            final(manager).spec_config() == old(manager).spec_config(),
            final(manager).spec_in_flight() == old(manager).spec_in_flight(),
            ({
                let d = old(self).domains@[0]@;
                match old(self).stage {
                    IssueStage::Challenge(ChallengeType::Dns01) => (r matches IssueAction::PublishDnsRecord {
                        zone_candidates,
                        record_name,
                        content,
                        api_token,
                    } && strings_view(zone_candidates@) == zone_candidates_of(split(challenge_domain(d), '.'))
                        && record_name@ == "_acme-challenge."@ + challenge_domain(d) && content@ == base64url_text(
                        sha256_of(key_auth.spec_bytes()),
                    ) && api_token@ == old(manager).spec_config().dns_challenge.api_token@)
                        && final(manager).spec_challenges() == old(manager).spec_challenges(),
                    IssueStage::Challenge(ChallengeType::TlsAlpn01) => (r matches IssueAction::StageAlpnCertificate {
                        domain,
                        identifier,
                    } && domain@ == d && identifier@ == sha256_of(key_auth.spec_bytes()))
                        && final(manager).spec_challenges() == old(manager).spec_challenges(),
                    _ => r is SetReady && final(manager).spec_challenges() == crate::discovery::named_insert(
                        old(manager).spec_challenges(),
                        token@,
                        key_auth@,
                    ),
                }
            }),
    {
        let t = match self.stage {
            IssueStage::Challenge(t) => t,
            _ => ChallengeType::Http01,
        };
        self.stage = IssueStage::ChallengeReady;
        match t {
            ChallengeType::Dns01 => {
                proof {
                    reveal_strlit("*.");
                }
                let cd = strip_all_exec(self.domains[0].as_str(), "*.");
                let mut record_name = to_owned("_acme-challenge.");
                push_str(&mut record_name, cd.as_str());
                IssueAction::PublishDnsRecord {
                    zone_candidates: zone_candidates(self.domains[0].as_str()),
                    record_name,
                    content: dns_txt_value(key_auth),
                    api_token: to_owned(manager.config.dns_challenge.api_token.as_str()),
                }
            },
            ChallengeType::TlsAlpn01 => IssueAction::StageAlpnCertificate {
                domain: to_owned(self.domains[0].as_str()),
                identifier: alpn_identifier(key_auth),
            },
            ChallengeType::Http01 => {
                manager.register_http_challenge(token, key_auth);
                IssueAction::SetReady
            },
        }
    }

    /// The challenge was set ready: on to the next authorization.
    pub fn on_challenge_ready(&mut self) -> (r: IssueAction)
        requires
            old(self).stage == IssueStage::ChallengeReady,
        ensures
            final(self).stage == IssueStage::Authorizations,
            final(self).domains == old(self).domains,
            r is NextAuthorization,
    {
        self.stage = IssueStage::Authorizations;
        IssueAction::NextAuthorization
    }

    /// All authorizations are answered: wait for the order.
    pub fn on_authorizations_done(&mut self) -> (r: IssueAction)
        requires
            old(self).stage == IssueStage::Authorizations,
        ensures
            final(self).stage == IssueStage::Ready,
            final(self).domains == old(self).domains,
            r is PollReady,
    {
        self.stage = IssueStage::Ready;
        IssueAction::PollReady
    }

    /// The order's status after polling: the HTTP-01 answers are dropped; a
    /// ready or valid order is finalized, an invalid or other one fails.
    pub fn on_ready(&mut self, manager: &mut AcmeManager, status: OrderStatus) -> (r: IssueAction)
        requires
            old(self).stage == IssueStage::Ready,
        ensures
            final(self).domains == old(self).domains,
            final(manager).spec_challenges().len() == 0,
            final(manager).spec_config() == old(manager).spec_config(),
            final(manager).spec_in_flight() == old(manager).spec_in_flight(),
            status == OrderStatus::Invalid ==> final(self).stage == IssueStage::Done && (r matches IssueAction::Fail(m)
                && m@ == "Order became invalid during readiness check"@),
            (status == OrderStatus::Ready || status == OrderStatus::Valid) ==> final(self).stage
                == IssueStage::Certificate && (r matches IssueAction::Finalize { domains } && strings_view(
                domains@,
            ) == strings_view(old(self).domains@)),
            (status == OrderStatus::Pending || status == OrderStatus::Processing) ==> final(self).stage
                == IssueStage::Done && (r matches IssueAction::Fail(m) && m@
                == "Order did not reach Ready/Valid state: "@ + order_status_name(status)),
    {
        manager.clear_http_challenges();
        if status == OrderStatus::Invalid {
            self.stage = IssueStage::Done;
            return IssueAction::Fail(to_owned("Order became invalid during readiness check"));
        }
        if status != OrderStatus::Ready && status != OrderStatus::Valid {
            self.stage = IssueStage::Done;
            let mut m = to_owned("Order did not reach Ready/Valid state: ");
            push_str(&mut m, status_name(status));
            return IssueAction::Fail(m);
        }
        self.stage = IssueStage::Certificate;
        IssueAction::Finalize { domains: copy_strings(&self.domains) }
    }

    /// The issued chain and its key: both are stored in the first domain's
    /// directory (the key encrypted where a key is configured; a failed
    /// encryption fails the order).
    pub fn on_certificate(
        &mut self,
        manager: &AcmeManager,
        cert_pem: String,
        key_pem: &str,
        home: Option<&str>,
    ) -> (r: IssueAction)
        requires
            old(self).stage == IssueStage::Certificate,
            old(self).domains@.len() > 0,
        ensures
            final(self).stage == IssueStage::Done,
            ({
                let dir = home_expanded(
                    path_join(manager.spec_config().cert_storage@, old(self).domains@[0]@),
                    opt_view(home),
                );
                match manager.spec_config().encryption_key {
                    Some(k) => match pem_key(vstd::utf8::encode_utf8(k@)) {
                        Err(t) => r matches IssueAction::Fail(m) && m@ == t,
                        Ok(kb) => exists|n: Seq<u8>|
                            n.len() == 12 && match #[trigger] sealed_output(kb, n, key_pem.spec_bytes()) {
                                Some(o) => r matches IssueAction::Persist { paths, cert_pem: c, key_bytes }
                                    && paths.domain_dir@ == dir && (paths.cert@, paths.key@, paths.ocsp@)
                                    == cert_paths_of(dir) && c@ == cert_pem@ && key_bytes@ == o,
                                None => r matches IssueAction::Fail(m) && m@ == "Encryption failed: aead::Error"@,
                            },
                    },
                    None => r matches IssueAction::Persist { paths, cert_pem: c, key_bytes } && paths.domain_dir@
                        == dir && (paths.cert@, paths.key@, paths.ocsp@) == cert_paths_of(dir) && c@ == cert_pem@
                        && key_bytes@ == key_pem.spec_bytes(),
                }
            }),
    {
        self.stage = IssueStage::Done;
        let joined = join_path(manager.config.cert_storage.as_str(), self.domains[0].as_str());
        let dir = expand_home(joined.as_str(), home);
        let paths = cert_paths(dir);
        let key_bytes = match &manager.config.encryption_key {
            Some(k) => {
                let sealed = encrypt_pem(key_pem, k.as_str());
                proof {
                    if let Ok(kb) = pem_key(vstd::utf8::encode_utf8(k@)) {
                        let n = choose|n: Seq<u8>|
                            n.len() == 12 && match (sealed, #[trigger] sealed_output(kb, n, key_pem.spec_bytes())) {
                                (Ok(out), Some(o)) => out@ == o,
                                (Err(e), None) => e@ == "Encryption failed: aead::Error"@,
                                _ => false,
                            };
                        assert(n.len() == 12 && sealed_output(kb, n, key_pem.spec_bytes()) is Some == sealed is Ok);
                    }
                }
                match sealed {
                    Ok(b) => b,
                    Err(e) => return IssueAction::Fail(e),
                }
            },
            None => vstd::slice::slice_to_vec(key_pem.as_bytes()),
        };
        IssueAction::Persist { paths, cert_pem, key_bytes }
    }
}

impl AcmeManager {
    /// Whether the stored certificate chain of a domain is to be renewed:
    /// its first certificate parses and has no more than
    /// `renew_before_days` whole days left (or has expired).
    pub fn renewal_due(&self, pem: &[u8], now_secs: u64, now_nanos: u32) -> (r: bool)
        requires
            now_nanos < 1000000000,
            first_cert_expiry(pem@) matches Some(e) ==> e >= 0,
        ensures
            r == (first_cert_expiry(pem@) matches Some(e) && !cert_fresh(
                e as u64,
                now_secs,
                now_nanos,
                self.spec_config().renew_before_days,
            )),
    {
        match read_cert_expiry(pem) {
            Some(e) => !is_cert_fresh(e as u64, now_secs, now_nanos, self.config.renew_before_days),
            None => false,
        }
    }

    /// `renewal_due`, or none where the certificate expires before the
    /// epoch (a time the check cannot take).
    pub fn check_renewal(&self, pem: &[u8], now_secs: u64, now_nanos: u32) -> (r: Option<bool>)
        requires
            now_nanos < 1000000000,
        ensures
            match first_cert_expiry(pem@) {
                Some(e) => if e < 0 {
                    r is None
                } else {
                    r == Some(!cert_fresh(e as u64, now_secs, now_nanos, self.spec_config().renew_before_days))
                },
                None => r == Some(false),
            },
    {
        match read_cert_expiry(pem) {
            Some(e) => {
                if e < 0 {
                    None
                } else {
                    Some(self.renewal_due(pem, now_secs, now_nanos))
                }
            },
            None => Some(self.renewal_due(pem, now_secs, now_nanos)),
        }
    }
}

// ---------------------------------------------------------------------------
// OCSP stapling
// ---------------------------------------------------------------------------

/// The PEM blocks of a chain, in order, while they parse.
pub open spec fn pem_blocks(b: Seq<u8>) -> Seq<Seq<u8>>
    decreases b.len(),
{
    match pem_block(b) {
        None => Seq::empty(),
        Some((c, n)) => if 0 < n < b.len() {
            seq![c] + pem_blocks(b.skip(n as int))
        } else {
            seq![c]
        },
    }
}

/// A leaf certificate's serial and the access descriptions of its
/// Authority Information Access extension (method OID, URI if the location
/// is one), or the parser's error.
pub uninterp spec fn leaf_fields(der: Seq<u8>) -> Result<(Seq<u8>, Seq<(Seq<char>, Option<Seq<char>>)>), Seq<char>>;

/// `X509Certificate::from_der`, then `raw_serial` and the access
/// descriptions of `get_extension_unique(OID_PKIX_AUTHORITY_INFO_ACCESS)`
/// (none where that fails or is absent). Trusted: the result is named
/// `leaf_fields`; an error is the parser's `Debug` text.
#[verifier::external_body]
fn leaf_info(der: &[u8]) -> (r: Result<(Vec<u8>, Vec<(String, Option<String>)>), String>)
    ensures
        match (r, leaf_fields(der@)) {
            (Ok((s, ds)), Ok((t, es))) => s@ == t && descs_view(ds@) == es,
            (Err(e), Err(f)) => e@ == f,
            _ => false,
        },
{
    let (_, cert) = x509_parser::parse_x509_certificate(der).map_err(|e| format!("{:?}", e))?;
    let descs = match cert.get_extension_unique(&x509_parser::oid_registry::OID_PKIX_AUTHORITY_INFO_ACCESS) {
        Ok(Some(ext)) => match ext.parsed_extension() {
            x509_parser::extensions::ParsedExtension::AuthorityInfoAccess(aia) => aia.accessdescs.iter().map(|a| (
                a.access_method.to_id_string(),
                match &a.access_location { x509_parser::extensions::GeneralName::URI(u) => Some(u.to_string()), _ => None },
            )).collect(),
            _ => Vec::new(),
        },
        _ => Vec::new(),
    };
    Ok((cert.raw_serial().to_vec(), descs))
}

/// The step of building an OCSP request that failed.
#[derive(Debug, Clone, Copy, PartialEq, Eq, Structural)]
pub enum OcspStep {
    Issuer,
    Serial,
    CertId,
    Encode,
}

/// The DER OCSP request (SHA-1 `CertID`) for a serial under an issuer, or
/// the step that failed and the error's text.
pub uninterp spec fn ocsp_request_der(issuer_der: Seq<u8>, serial: Seq<u8>) -> Result<Seq<u8>, (OcspStep, Seq<char>)>;

/// `Certificate::from_der`, `SerialNumber::new`,
/// `Request::from_issuer::<Sha1>`, `OcspRequestBuilder::with_request` /
/// `build` and `to_der`. Trusted: the result is named `ocsp_request_der`.
#[verifier::external_body]
fn build_ocsp_request(issuer_der: &[u8], serial: &[u8]) -> (r: Result<Vec<u8>, (OcspStep, String)>)
    ensures
        match (r, ocsp_request_der(issuer_der@, serial@)) {
            (Ok(b), Ok(c)) => b@ == c,
            (Err((k, t)), Err((j, u))) => k == j && t@ == u,
            _ => false,
        },
{
    let issuer = <x509_cert::Certificate as x509_cert::der::Decode>::from_der(issuer_der).map_err(|e| (OcspStep::Issuer, e.to_string()))?;
    let serial = x509_cert::serial_number::SerialNumber::new(serial).map_err(|e| (OcspStep::Serial, e.to_string()))?;
    let request = x509_ocsp::Request::from_issuer::<sha1::Sha1>(&issuer, serial).map_err(|e| (OcspStep::CertId, e.to_string()))?;
    let built = x509_ocsp::builder::OcspRequestBuilder::default().with_request(request).build();
    <x509_ocsp::OcspRequest as x509_cert::der::Encode>::to_der(&built).map_err(|e| (OcspStep::Encode, e.to_string()))
}

/// The access method of OCSP responders (`id-ad-ocsp`).
pub open spec fn ocsp_method() -> Seq<char> {
    "1.3.6.1.5.5.7.48.1"@
}

/// The responder URL among access descriptions: the last OCSP one that is
/// a URI.
pub open spec fn responder_url(ds: Seq<(Seq<char>, Option<Seq<char>>)>) -> Option<Seq<char>>
    decreases ds.len(),
{
    if ds.len() == 0 {
        None
    } else if ds.last().0 == ocsp_method() && ds.last().1 is Some {
        ds.last().1
    } else {
        responder_url(ds.drop_last())
    }
}

pub open spec fn ocsp_step_message(k: OcspStep) -> Seq<char> {
    match k {
        OcspStep::Issuer => "Failed to parse issuer der for x509-ocsp: "@,
        OcspStep::Serial => "Invalid serial: "@,
        OcspStep::CertId => "Failed to construct CertID: "@,
        OcspStep::Encode => "Failed to encode OcspRequest: "@,
    }
}

/// What to send for an OCSP staple of a PEM chain: the responder URL from
/// the leaf's AIA extension and the DER request for the leaf's serial under
/// the second certificate.
pub open spec fn ocsp_query_of(chain: Seq<u8>) -> Result<(Seq<char>, Seq<u8>), Seq<char>> {
    let pems = pem_blocks(chain);
    if pems.len() < 2 {
        Err("Certificate chain must contain at least leaf and issuer to fetch OCSP"@)
    } else {
        match leaf_fields(pems[0]) {
            Err(e) => Err("X509 leaf parsing failed: "@ + e),
            Ok((serial, ds)) => match responder_url(ds) {
                None => Err("No OCSP Responder URL found in AIA extension"@),
                Some(url) => match ocsp_request_der(pems[1], serial) {
                    Ok(req) => Ok((url, req)),
                    Err((k, t)) => Err(ocsp_step_message(k) + t),
                },
            },
        }
    }
}

fn step_message(k: OcspStep) -> (r: &'static str)
    ensures
        r@ == ocsp_step_message(k),
{
    match k {
        OcspStep::Issuer => "Failed to parse issuer der for x509-ocsp: ",
        OcspStep::Serial => "Invalid serial: ",
        OcspStep::CertId => "Failed to construct CertID: ",
        OcspStep::Encode => "Failed to encode OcspRequest: ",
    }
}

/// The view of access descriptions that `responder_url` reads.
pub open spec fn descs_view(descs: Seq<(String, Option<String>)>) -> Seq<(Seq<char>, Option<Seq<char>>)> {
    descs.map_values(|d: (String, Option<String>)| (d.0@, match d.1 { Some(u) => Some(u@), None => None }))
}

fn find_responder(descs: &Vec<(String, Option<String>)>) -> (r: Option<String>)
    ensures
        match (r, responder_url(descs_view(descs@))) {
            (Some(u), Some(v)) => u@ == v,
            (None, None) => true,
            _ => false,
        },
{
    let ghost dv = descs_view(descs@);
    let mut i: usize = descs.len();
    proof {
        reveal_strlit("1.3.6.1.5.5.7.48.1");
    }
    assert(dv.take(i as int) =~= dv);
    while i > 0
        invariant
            i <= descs@.len(),
            dv == descs_view(descs@),
            responder_url(dv) == responder_url(dv.take(i as int)),
        decreases i,
    {
        assert(dv.take(i as int).last() == dv[i - 1]);
        assert(dv.take(i as int).drop_last() =~= dv.take(i - 1));
        if str_eq(descs[i - 1].0.as_str(), "1.3.6.1.5.5.7.48.1") {
            match &descs[i - 1].1 {
                Some(u) => {
                    return Some(to_owned(u.as_str()));
                },
                None => {},
            }
        }
        i -= 1;
    }
    assert(dv.take(0) =~= Seq::<(Seq<char>, Option<Seq<char>>)>::empty());
    None
}

/// The OCSP request for a PEM chain (leaf first, then its issuer).
pub fn ocsp_query(chain_pem: &str) -> (r: Result<(String, Vec<u8>), String>)
    ensures
        match (r, ocsp_query_of(chain_pem.spec_bytes())) {
            (Ok((u, b)), Ok((v, c))) => u@ == v && b@ == c,
            (Err(e), Err(f)) => e@ == f,
            _ => false,
        },
{
    let bytes = chain_pem.as_bytes();
    let ghost all = bytes@;
    let total: usize = bytes.len();
    let mut pems: Vec<Vec<u8>> = Vec::new();
    let mut pos: usize = 0;
    assert(all.skip(0) =~= all);
    assert(pems@.map_values(|p: Vec<u8>| p@) + pem_blocks(all.skip(0)) =~= pem_blocks(all));
    loop
        invariant_except_break
            pos <= all.len(),
            all == bytes@,
            total == all.len(),
            pems@.map_values(|p: Vec<u8>| p@) + pem_blocks(all.skip(pos as int)) == pem_blocks(all),
        ensures
            pems@.map_values(|p: Vec<u8>| p@) == pem_blocks(all),
        decreases all.len() - pos,
    {
        let rest = crate::text::bytes_from(bytes, pos);
        assert(rest@ == all.skip(pos as int));
        assert(rest@.len() == all.len() - pos);
        let ghost before = pems@.map_values(|p: Vec<u8>| p@);
        let rs = rest.as_slice();
        assert(rs@ == rest@);
        match pem_next(rs) {
            Some((der, n)) => {
                assert(0 < n <= rest.len());
                pems.push(der);
                assert(pems@.map_values(|p: Vec<u8>| p@) =~= before.push(der@));
                if n == rest.len() {
                    assert(pem_blocks(all.skip(pos as int)) =~= seq![der@]);
                    assert(pems@.map_values(|p: Vec<u8>| p@) =~= before + seq![der@]);
                    break;
                }
                assert(pem_blocks(rest@) == seq![der@] + pem_blocks(rest@.skip(n as int)));
                assert(all.skip(pos as int).skip(n as int) =~= all.skip(pos + n));
                assert(before.push(der@) + pem_blocks(all.skip(pos + n)) =~= before + (seq![der@]
                    + pem_blocks(all.skip(pos + n))));
                pos = pos + n;
            },
            None => {
                assert(pem_blocks(all.skip(pos as int)) =~= Seq::<Seq<u8>>::empty());
                assert(pems@.map_values(|p: Vec<u8>| p@) =~= before + Seq::<Seq<u8>>::empty());
                break;
            },
        }
    }
    if pems.len() < 2 {
        return Err(to_owned("Certificate chain must contain at least leaf and issuer to fetch OCSP"));
    }
    let (serial, descs) = match leaf_info(pems[0].as_slice()) {
        Ok(v) => v,
        Err(e) => {
            let mut m = to_owned("X509 leaf parsing failed: ");
            push_str(&mut m, e.as_str());
            return Err(m);
        },
    };
    let url = find_responder(&descs);
    let url = match url {
        Some(u) => u,
        None => return Err(to_owned("No OCSP Responder URL found in AIA extension")),
    };
    match build_ocsp_request(pems[1].as_slice(), serial.as_slice()) {
        Ok(req) => Ok((url, req)),
        Err((k, t)) => {
            let mut m = to_owned(step_message(k));
            push_str(&mut m, t.as_str());
            Err(m)
        },
    }
}

} // verus!
