//! The post-quantum proxy's key exchange on a fresh connection: the server
//! sends its public key framed by its length, reads the client's ciphertext
//! length (refusing more than `MAX_CIPHERTEXT_LEN` bytes) and then the
//! ciphertext. The key material itself is the crypto layer's part.

use vstd::prelude::*;
use crate::config::ProxyConfig;
use crate::net::{be_bytes, be_value, push_be, read_be};

verus! {

/// The most ciphertext bytes a client may announce.
pub const MAX_CIPHERTEXT_LEN: usize = 10000;

/// The PQC proxy server: the proxy's settings.
pub struct PqcProxyServer {
    pub config: ProxyConfig,
}

impl PqcProxyServer {
    pub fn new(config: ProxyConfig) -> (r: Self)
        ensures
            r.config == config,
    {
        PqcProxyServer { config }
    }
}

/// Where an exchange stands.
#[derive(PartialEq, Eq, Structural)]
pub enum HandshakePhase {
    /// The framed public key is being written.
    SendingKey,
    /// The four bytes of the ciphertext length are awaited.
    ReadingLength,
    /// That many ciphertext bytes are awaited.
    ReadingCiphertext(usize),
    /// The ciphertext is in; the crypto layer completes the exchange.
    Done,
    /// The exchange was abandoned.
    Refused,
}

/// What the server does next on the connection.
#[derive(Debug, PartialEq, Eq)]
pub enum HandshakeAction {
    /// Write these bytes.
    Write(Vec<u8>),
    /// Read exactly this many bytes.
    ReadExact(usize),
    /// Complete the exchange with this ciphertext.
    Complete(Vec<u8>),
    /// Close the connection: the announced ciphertext is too large.
    TooLarge(u32),
}

pub struct HandshakeFlow {
    pub phase: HandshakePhase,
}

/// The public key framed for the wire: its length as four big-endian bytes
/// (the low 32 bits), then the key.
pub open spec fn key_frame(pk: Seq<u8>) -> Seq<u8> {
    be_bytes(pk.len() % 0x1_0000_0000, 4) + pk
}

impl HandshakeFlow {
    /// Starts an exchange with the server's public key.
    pub fn start(pk: &[u8]) -> (r: (HandshakeFlow, HandshakeAction))
        ensures
            r.0.phase == HandshakePhase::SendingKey,
            r.1 matches HandshakeAction::Write(b) && b@ == key_frame(pk@),
    {
        let mut frame: Vec<u8> = Vec::new();
        let n = pk.len() as u64 % 0x1_0000_0000;
        push_be(&mut frame, n as u128, 4);
        let ghost head = frame@;
        let mut i: usize = 0;
        while i < pk.len()
            invariant
                i <= pk@.len(),
                frame@ == head + pk@.take(i as int),
            decreases pk@.len() - i,
        {
            frame.push(pk[i]);
            assert(pk@.take(i + 1) =~= pk@.take(i as int).push(pk@[i as int]));
            i += 1;
        }
        assert(pk@.take(pk@.len() as int) =~= pk@);
        (HandshakeFlow { phase: HandshakePhase::SendingKey }, HandshakeAction::Write(frame))
    }

    /// The key was written: the ciphertext length comes next.
    pub fn on_key_sent(&mut self) -> (r: HandshakeAction)
        requires
            old(self).phase == HandshakePhase::SendingKey,
        ensures
            final(self).phase == HandshakePhase::ReadingLength,
            r == HandshakeAction::ReadExact(4),
    {
        self.phase = HandshakePhase::ReadingLength;
        HandshakeAction::ReadExact(4)
    }

    /// The four length bytes: a length over `MAX_CIPHERTEXT_LEN` ends the
    /// exchange; otherwise that many bytes are read.
    pub fn on_length(&mut self, bytes: &[u8]) -> (r: HandshakeAction)
        requires
            old(self).phase == HandshakePhase::ReadingLength,
            bytes@.len() == 4,
        ensures
            be_value(bytes@) > MAX_CIPHERTEXT_LEN ==> final(self).phase == HandshakePhase::Refused && r
                == HandshakeAction::TooLarge(be_value(bytes@) as u32),
            be_value(bytes@) <= MAX_CIPHERTEXT_LEN ==> final(self).phase == HandshakePhase::ReadingCiphertext(
                be_value(bytes@) as usize,
            ) && r == HandshakeAction::ReadExact(be_value(bytes@) as usize),
    {
        let v = read_be(bytes, 0, 4);
        assert(bytes@.subrange(0, 4) =~= bytes@);
        proof {
            crate::net::lemma_be_value_bound(bytes@);
        }
        if v > MAX_CIPHERTEXT_LEN as u128 {
            self.phase = HandshakePhase::Refused;
            HandshakeAction::TooLarge(v as u32)
        } else {
            let n = v as usize;
            self.phase = HandshakePhase::ReadingCiphertext(n);
            HandshakeAction::ReadExact(n)
        }
    }

    /// The ciphertext: the exchange is completed with it.
    pub fn on_ciphertext(&mut self, bytes: Vec<u8>) -> (r: HandshakeAction)
        requires
            old(self).phase matches HandshakePhase::ReadingCiphertext(n) && bytes@.len() == n,
        ensures
            final(self).phase == HandshakePhase::Done,
            r matches HandshakeAction::Complete(b) && b@ == bytes@,
    {
        self.phase = HandshakePhase::Done;
        HandshakeAction::Complete(bytes)
    }
}

} // verus!
