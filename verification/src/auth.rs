//! HTTP Basic authentication against bcrypt hashes.

use base64::Engine;
use vstd::prelude::*;
use crate::cgi::{chars_of_bytes, header_value_text, visible_ascii};
use crate::discovery::{name_pos, named_insert};
use crate::net::str_from_utf8;
use crate::rewrite::valid_header_text;
use crate::text::{chars_of, chars_split_once, push_str, split_once, str_eq, str_starts_with, string_of};

verus! {

#[verifier::external_type_specification]
#[verifier::external_body]
pub struct ExBase64DecodeError(base64::DecodeError);

#[verifier::external_type_specification]
#[verifier::external_body]
pub struct ExBcryptError(bcrypt::BcryptError);

/// What the standard base64 engine decodes a text to (`None` where it
/// refuses the text).
pub uninterp spec fn base64_decoded(text: Seq<char>) -> Option<Seq<u8>>;

/// Whether a password matches a bcrypt hash (`None` where the hash is
/// malformed).
pub uninterp spec fn bcrypt_matches(password: Seq<char>, hash: Seq<char>) -> Option<bool>;

/// `base64::engine::general_purpose::STANDARD.decode`. Trusted: the result
/// is named `base64_decoded` of the text; the alphabet and padding rules
/// are not stated.
#[verifier::external_body]
fn base64_decode(text: &str) -> (r: Result<Vec<u8>, base64::DecodeError>)
    ensures
        match r {
            Ok(v) => base64_decoded(text@) == Some(v@),
            Err(_) => base64_decoded(text@) is None,
        },
{
    base64::engine::general_purpose::STANDARD.decode(text)
}

/// `bcrypt::verify`. Trusted: the answer is named `bcrypt_matches` of the
/// password and hash (the salt and cost come from the hash); the algorithm
/// is not stated.
#[verifier::external_body]
fn bcrypt_verify(password: &str, hash: &str) -> (r: Result<bool, bcrypt::BcryptError>)
    ensures
        match r {
            Ok(b) => bcrypt_matches(password@, hash@) == Some(b),
            Err(_) => bcrypt_matches(password@, hash@) is None,
        },
{
    bcrypt::verify(password, hash)
}

pub struct BasicAuthConfig {
    /// (user name, bcrypt hash), one entry per user.
    pub users: Vec<(String, String)>,
    pub realm: String,
}

pub open spec fn users_view(v: Seq<(String, String)>) -> Seq<(Seq<char>, Seq<char>)> {
    v.map_values(|p: (String, String)| (p.0@, p.1@))
}

/// Whether an `Authorization` value (raw bytes) proves a known user: it is
/// visible ASCII, starts with `Basic `, the rest decodes (base64) to UTF-8
/// `user:password`, the user is listed and the password matches the hash.
pub open spec fn authorized(users: Seq<(Seq<char>, Seq<char>)>, auth: Option<Seq<u8>>) -> bool {
    match auth {
        Some(b) => {
            let s = chars_of_bytes(b);
            visible_ascii(b) && s.len() >= 6 && s.take(6) == "Basic "@ && match base64_decoded(s.skip(6)) {
                Some(d) => vstd::utf8::valid_utf8(d) && match split_once(vstd::utf8::decode_utf8(d), ':') {
                    Some((user, pass)) => match name_pos(users, user) {
                        Some(i) => bcrypt_matches(pass, users[i].1) == Some(true),
                        None => false,
                    },
                    None => false,
                },
                None => false,
            }
        },
        None => false,
    }
}

impl BasicAuthConfig {
    pub fn new(realm: &str) -> (r: Self)
        ensures
            r.users@.len() == 0,
            r.realm@ == realm@,
    {
        BasicAuthConfig { users: Vec::new(), realm: crate::text::to_owned(realm) }
    }

    /// Sets the hash of a user (replacing an earlier one).
    pub fn add_user(&mut self, username: &str, hash: &str)
        ensures
            users_view(final(self).users@) == named_insert(users_view(old(self).users@), username@, hash@),
            final(self).realm == old(self).realm,
    {
        let ghost us = users_view(self.users@);
        proof {
            crate::discovery::lemma_name_pos(us, username@);
        }
        let mut i: usize = 0;
        while i < self.users.len()
            invariant
                i <= self.users@.len(),
                us == users_view(self.users@),
                self.users == old(self).users,
                self.realm == old(self).realm,
                forall|j: int| 0 <= j < i ==> us[j].0 != username@,
                name_pos(us, username@) matches Some(p) ==> 0 <= p < us.len() && us[p].0 == username@
                    && forall|j: int| 0 <= j < p ==> us[j].0 != username@,
                name_pos(us, username@) is None ==> forall|j: int| 0 <= j < us.len() ==> us[j].0 != username@,
            decreases self.users@.len() - i,
        {
            assert(us[i as int] == (self.users@[i as int].0@, self.users@[i as int].1@));
            if str_eq(self.users[i].0.as_str(), username) {
                self.users.set(i, (crate::text::to_owned(username), crate::text::to_owned(hash)));
                assert(users_view(self.users@) =~= us.update(i as int, (username@, hash@)));
                return;
            }
            i += 1;
        }
        self.users.push((crate::text::to_owned(username), crate::text::to_owned(hash)));
        assert(users_view(self.users@) =~= us.push((username@, hash@)));
    }

    fn find_user(&self, user: &str) -> (r: Option<usize>)
        ensures
            match r {
                Some(i) => name_pos(users_view(self.users@), user@) == Some(i as int) && i < self.users@.len(),
                None => name_pos(users_view(self.users@), user@) is None,
            },
    {
        let ghost us = users_view(self.users@);
        proof {
            crate::discovery::lemma_name_pos(us, user@);
        }
        let mut i: usize = 0;
        while i < self.users.len()
            invariant
                i <= self.users@.len(),
                us == users_view(self.users@),
                forall|j: int| 0 <= j < i ==> us[j].0 != user@,
                name_pos(us, user@) matches Some(p) ==> 0 <= p < us.len() && us[p].0 == user@
                    && forall|j: int| 0 <= j < p ==> us[j].0 != user@,
                name_pos(us, user@) is None ==> forall|j: int| 0 <= j < us.len() ==> us[j].0 != user@,
            decreases self.users@.len() - i,
        {
            assert(us[i as int].0 == self.users@[i as int].0@);
            if str_eq(self.users[i].0.as_str(), user) {
                return Some(i);
            }
            i += 1;
        }
        None
    }

    /// Whether the request's `Authorization` value (raw bytes, if the
    /// request has one) proves a known user.
    pub fn check_auth(&self, authorization: Option<&[u8]>) -> (r: bool)
        ensures
            r == authorized(
                users_view(self.users@),
                match authorization {
                    Some(b) => Some(b@),
                    None => None,
                },
            ),
    {
        let raw = match authorization {
            Some(b) => b,
            None => return false,
        };
        let auth_str = match header_value_text(raw) {
            Some(s) => s,
            None => return false,
        };
        proof {
            reveal_strlit("Basic ");
        }
        if !str_starts_with(auth_str.as_str(), "Basic ") {
            return false;
        }
        let cs = chars_of(auth_str.as_str());
        let encoded = string_of(crate::text::chars_slice(cs.as_slice(), 6, cs.len()).as_slice());
        assert(encoded@ =~= auth_str@.skip(6));
        let decoded = match base64_decode(encoded.as_str()) {
            Ok(d) => d,
            Err(_) => return false,
        };
        let cred = match str_from_utf8(decoded.as_slice()) {
            Some(s) => s,
            None => return false,
        };
        let ccs = chars_of(cred);
        let (user, pass) = match chars_split_once(ccs.as_slice(), ':') {
            Some(p) => p,
            None => return false,
        };
        let user_s = string_of(user.as_slice());
        let pass_s = string_of(pass.as_slice());
        let i = match self.find_user(user_s.as_str()) {
            Some(i) => i,
            None => return false,
        };
        assert(users_view(self.users@)[i as int].1 == self.users@[i as int].1@);
        match bcrypt_verify(pass_s.as_str(), self.users[i].1.as_str()) {
            Ok(valid) => valid,
            Err(_) => false,
        }
    }
}

/// The challenge of a 401 response.
#[derive(Debug, Clone, PartialEq, Eq)]
pub struct Unauthorized {
    pub status: u16,
    pub www_authenticate: String,
}

/// The 401 response that asks for Basic credentials of a realm.
pub fn create_401_response(realm: &str) -> (r: Unauthorized)
    requires
        valid_header_text(realm@),
    ensures
        r.status == 401,
        r.www_authenticate@ == "Basic realm=\""@ + realm@ + "\""@,
{
    let mut h = crate::text::to_owned("Basic realm=\"");
    push_str(&mut h, realm);
    push_str(&mut h, "\"");
    Unauthorized { status: 401, www_authenticate: h }
}

} // verus!
