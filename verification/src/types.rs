//! Errors, keys and addresses that the handshakes share.

use crate::bytes::{le_bytes, same, write_le};
use vstd::prelude::*;
use vstd::string::StringExecFns;

verus! {

/// A pre-shared key.
pub type Psk = [u8; 32];

/// A request to the configuration that cannot be met.
#[derive(Debug)]
pub struct ConfigError(String);

impl ConfigError {
    /// The reason.
    pub closed spec fn view(&self) -> Seq<char> {
        self.0@
    }

    /// An error for the given reason.
    pub fn new(s: &str) -> (r: Self)
        ensures
            r@ == s@,
    {
        ConfigError(String::from_str(s))
    }

    /// The reason.
    pub fn description(&self) -> (r: &str)
        ensures
            r@ == self@,
    {
        self.0.as_str()
    }

    /// The error as it is shown to a reader.
    pub fn message(&self) -> (r: String)
        ensures
            r@ == "ConfigError("@ + self@ + ")"@,
    {
        String::from_str("ConfigError(").concat(self.0.as_str()).concat(")")
    }
}

/// Why a handshake message was refused.
#[derive(Clone, Copy, Debug, PartialEq, Eq, Structural)]
pub enum HandshakeError {
    DecryptionFailure,
    UnknownPublicKey,
    UnknownReceiverId,
    InvalidMessageFormat,
    InvalidSharedSecret,
    OldTimestamp,
    InvalidState,
    InvalidMac1,
    RateLimited,
    InitiationFlood,
    InvalidHashSize,
    InvalidMode,
    InvalidEpoch,
    InvalidTi,
    InvalidTr,
    InvalidConfirm,
    RatchetStateMissing,
    InvalidRatchetKid,
}

impl HandshakeError {
    /// What the error says to a reader.
    pub open spec fn text(self) -> Seq<char> {
        match self {
            HandshakeError::DecryptionFailure => "Failed to AEAD:OPEN"@,
            HandshakeError::UnknownPublicKey => "Unknown public key"@,
            HandshakeError::UnknownReceiverId => "Receiver id not allocated to any handshake"@,
            HandshakeError::InvalidMessageFormat => "Invalid handshake message format"@,
            HandshakeError::InvalidSharedSecret => "Zero shared secret"@,
            HandshakeError::OldTimestamp => "Timestamp is less/equal to the newest"@,
            HandshakeError::InvalidState => "Message does not apply to handshake state"@,
            HandshakeError::InvalidMac1 => "Message has invalid mac1 field"@,
            HandshakeError::RateLimited => "Message was dropped by rate limiter"@,
            HandshakeError::InitiationFlood => "Message was dropped because of initiation flood"@,
            HandshakeError::InvalidHashSize => "Hash size invalid for initiation message creation"@,
            HandshakeError::InvalidMode => "Unknown handshake mode"@,
            HandshakeError::InvalidEpoch => "Message does not apply to the ratchet epoch"@,
            HandshakeError::InvalidTi => "Invalid proof in initiation"@,
            HandshakeError::InvalidTr => "Invalid proof in response"@,
            HandshakeError::InvalidConfirm => "Invalid confirmation in response"@,
            HandshakeError::RatchetStateMissing => "Ratchet key missing"@,
            HandshakeError::InvalidRatchetKid => "Unknown ratchet key identifier"@,
        }
    }

    /// What the error says to a reader.
    pub fn message(&self) -> (r: &'static str)
        ensures
            r@ == self.text(),
    {
        match self {
            HandshakeError::DecryptionFailure => "Failed to AEAD:OPEN",
            HandshakeError::UnknownPublicKey => "Unknown public key",
            HandshakeError::UnknownReceiverId => "Receiver id not allocated to any handshake",
            HandshakeError::InvalidMessageFormat => "Invalid handshake message format",
            HandshakeError::InvalidSharedSecret => "Zero shared secret",
            HandshakeError::OldTimestamp => "Timestamp is less/equal to the newest",
            HandshakeError::InvalidState => "Message does not apply to handshake state",
            HandshakeError::InvalidMac1 => "Message has invalid mac1 field",
            HandshakeError::RateLimited => "Message was dropped by rate limiter",
            HandshakeError::InitiationFlood => "Message was dropped because of initiation flood",
            HandshakeError::InvalidHashSize => "Hash size invalid for initiation message creation",
            HandshakeError::InvalidMode => "Unknown handshake mode",
            HandshakeError::InvalidEpoch => "Message does not apply to the ratchet epoch",
            HandshakeError::InvalidTi => "Invalid proof in initiation",
            HandshakeError::InvalidTr => "Invalid proof in response",
            HandshakeError::InvalidConfirm => "Invalid confirmation in response",
            HandshakeError::RatchetStateMissing => "Ratchet key missing",
            HandshakeError::InvalidRatchetKid => "Unknown ratchet key identifier",
        }
    }

    /// What all these errors have in common.
    pub fn description(&self) -> (r: &'static str)
        ensures
            r@ == "Generic Handshake Error"@,
    {
        "Generic Handshake Error"
    }
}

/// A key encapsulation mechanism whose sizes are not those of the messages.
#[derive(Clone, Copy, Debug, PartialEq, Eq, Structural)]
pub enum PQError {
    InvalidEphemeralKemPublicKeySize,
    InvalidEphemeralKemSecretKeySize,
    InvalidEphemeralKemCiphertextSize,
    InvalidEphemeralKemSecretSize,
    InvalidStaticKemPublicKeySize,
    InvalidStaticKemSecretKeySize,
    InvalidStaticKemCiphertextSize,
    InvalidStaticKemSecretSize,
}

impl PQError {
    /// What the error says to a reader.
    pub open spec fn text(self) -> Seq<char> {
        match self {
            PQError::InvalidEphemeralKemPublicKeySize => "Invalid Ephemeral Kem public key size, check liboqs version and update the constant var SIZE_EPHEMERAL_KEM_PUB_KEY accordingly"@,
            PQError::InvalidEphemeralKemSecretKeySize => "Invalid Ephemeral Kem secret key size, check liboqs version and update the constant var SIZE_EPHEMERAL_KEM_SECRET_KEY accordingly"@,
            PQError::InvalidEphemeralKemCiphertextSize => "Invalid Ephemeral Kem ciphertext size, check liboqs version and update the constant var SIZE_EPHEMERAL_KEM_CIPHERTEXT accordingly"@,
            PQError::InvalidEphemeralKemSecretSize => "Invalid Ephemeral Kem secret size, check liboqs version and update the constant var SIZE_EPHEMERAL_KEM_SHARED_SECRET accordingly"@,
            PQError::InvalidStaticKemPublicKeySize => "Invalid Static Kem public key size, check liboqs version and update the constant var SIZE_STATIC_KEM_PUB_KEY accordingly"@,
            PQError::InvalidStaticKemSecretKeySize => "Invalid Static Kem secret key size, check liboqs version and update the constant var SIZE_STATIC_KEM_SECRET_KEY accordingly"@,
            PQError::InvalidStaticKemCiphertextSize => "Invalid Static Kem ciphertext size, check liboqs version and update the constant var SIZE_STATIC_KEM_CIPHERTEXT accordingly"@,
            PQError::InvalidStaticKemSecretSize => "Invalid Static Kem secret size, check liboqs version and update the constant var SIZE_STATIC_KEM_SHARED_SECRET accordingly"@,
        }
    }

    /// What the error says to a reader.
    pub fn message(&self) -> (r: &'static str)
        ensures
            r@ == self.text(),
    {
        match self {
            PQError::InvalidEphemeralKemPublicKeySize => "Invalid Ephemeral Kem public key size, check liboqs version and update the constant var SIZE_EPHEMERAL_KEM_PUB_KEY accordingly",
            PQError::InvalidEphemeralKemSecretKeySize => "Invalid Ephemeral Kem secret key size, check liboqs version and update the constant var SIZE_EPHEMERAL_KEM_SECRET_KEY accordingly",
            PQError::InvalidEphemeralKemCiphertextSize => "Invalid Ephemeral Kem ciphertext size, check liboqs version and update the constant var SIZE_EPHEMERAL_KEM_CIPHERTEXT accordingly",
            PQError::InvalidEphemeralKemSecretSize => "Invalid Ephemeral Kem secret size, check liboqs version and update the constant var SIZE_EPHEMERAL_KEM_SHARED_SECRET accordingly",
            PQError::InvalidStaticKemPublicKeySize => "Invalid Static Kem public key size, check liboqs version and update the constant var SIZE_STATIC_KEM_PUB_KEY accordingly",
            PQError::InvalidStaticKemSecretKeySize => "Invalid Static Kem secret key size, check liboqs version and update the constant var SIZE_STATIC_KEM_SECRET_KEY accordingly",
            PQError::InvalidStaticKemCiphertextSize => "Invalid Static Kem ciphertext size, check liboqs version and update the constant var SIZE_STATIC_KEM_CIPHERTEXT accordingly",
            PQError::InvalidStaticKemSecretSize => "Invalid Static Kem secret size, check liboqs version and update the constant var SIZE_STATIC_KEM_SHARED_SECRET accordingly",
        }
    }

    /// What all these errors have in common.
    pub fn description(&self) -> (r: &'static str)
        ensures
            r@ == "Generic PQ Error"@,
    {
        "Generic PQ Error"
    }
}

/// A transport key and the index of the session that it is used in.
#[derive(Clone, Copy, Debug, PartialEq, Eq)]
pub struct Key {
    pub key: [u8; 32],
    pub id: u32,
}

/// The transport keys that a handshake leaves behind.
#[derive(Clone, Copy, Debug, PartialEq, Eq)]
pub struct KeyPair {
    /// When the pair was derived.
    pub birth: u64,
    /// Did this side start the handshake? The pair of the side that did not is unconfirmed.
    pub initiator: bool,
    pub send: Key,
    pub recv: Key,
}

/// Is what one side sends with what the other receives with, under matching indices?
pub open spec fn fit_together(pair_i: KeyPair, pair_r: KeyPair) -> bool {
    &&& pair_i.initiator
    &&& !pair_r.initiator
    &&& pair_i.send.key@ == pair_r.recv.key@
    &&& pair_i.recv.key@ == pair_r.send.key@
    &&& pair_i.send.id == pair_r.recv.id
    &&& pair_i.recv.id == pair_r.send.id
}

impl KeyPair {
    /// The index under which this side receives.
    pub fn local_id(&self) -> (r: u32)
        ensures
            r == self.recv.id,
    {
        self.recv.id
    }
}

/// What became of a handshake message: the peer it concerns, by the hash of that peer's
/// static keys; a message to send; the keys of a handshake that succeeded.
pub struct Output {
    pub peer: Option<[u8; 32]>,
    pub reply: Option<Vec<u8>>,
    pub keys: Option<KeyPair>,
}

impl Output {
    /// Nothing to report and nothing to send.
    pub open spec fn is_nothing(self) -> bool {
        self.peer is None && self.reply is None && self.keys is None
    }

    pub fn nothing() -> (r: Self)
        ensures
            r.is_nothing(),
    {
        Output { peer: None, reply: None, keys: None }
    }

    /// A message to send and nothing else.
    pub fn reply(bytes: Vec<u8>) -> (r: Self)
        ensures
            r.peer is None,
            r.reply == Some(bytes),
            r.keys is None,
    {
        Output { peer: None, reply: Some(bytes), keys: None }
    }
}

/// An internet address.
#[derive(Clone, Copy, Debug, PartialEq, Eq)]
pub enum IpAddr {
    V4([u8; 4]),
    V6([u8; 16]),
}

impl IpAddr {
    /// The octets of the address, in network order.
    pub open spec fn octets(self) -> Seq<u8> {
        match self {
            IpAddr::V4(a) => a@,
            IpAddr::V6(a) => a@,
        }
    }

    /// Is it the same address?
    pub fn is(&self, other: &IpAddr) -> (r: bool)
        ensures
            r == (*self == *other),
    {
        match (self, other) {
            (IpAddr::V4(a), IpAddr::V4(b)) => {
                let r = same(a, b);
                assert(r ==> *a =~= *b);
                r
            },
            (IpAddr::V6(a), IpAddr::V6(b)) => {
                let r = same(a, b);
                assert(r ==> *a =~= *b);
                r
            },
            _ => false,
        }
    }
}

/// An internet address and a port.
#[derive(Clone, Copy, Debug, PartialEq, Eq)]
pub struct SocketAddr {
    pub ip: IpAddr,
    pub port: u16,
}

impl SocketAddr {
    /// The address as a cookie binds it: the octets, then the port in little endian.
    pub open spec fn mac_bytes(self) -> Seq<u8> {
        self.ip.octets() + le_bytes(self.port as nat, 2)
    }
}

/// The address as a cookie binds it: the octets, then the port in little endian.
pub fn addr_to_mac_bytes(addr: &SocketAddr) -> (r: Vec<u8>)
    ensures
        r@ == addr.mac_bytes(),
{
    let mut v: Vec<u8> = Vec::new();
    match &addr.ip {
        IpAddr::V4(a) => v.extend_from_slice(a),
        IpAddr::V6(a) => v.extend_from_slice(a),
    }
    let port: [u8; 2] = write_le(addr.port as u64);
    v.extend_from_slice(&port);
    assert(v@ =~= addr.mac_bytes());
    v
}

/// No two errors of a handshake read the same.
pub proof fn law_errors_are_told_apart(a: HandshakeError, b: HandshakeError)
    ensures
        a.text() == b.text() ==> a == b,
{
    reveal_strlit("Failed to AEAD:OPEN");
    reveal_strlit("Unknown public key");
    reveal_strlit("Receiver id not allocated to any handshake");
    reveal_strlit("Invalid handshake message format");
    reveal_strlit("Zero shared secret");
    reveal_strlit("Timestamp is less/equal to the newest");
    reveal_strlit("Message does not apply to handshake state");
    reveal_strlit("Message has invalid mac1 field");
    reveal_strlit("Message was dropped by rate limiter");
    reveal_strlit("Message was dropped because of initiation flood");
    reveal_strlit("Hash size invalid for initiation message creation");
    reveal_strlit("Unknown handshake mode");
    reveal_strlit("Message does not apply to the ratchet epoch");
    reveal_strlit("Invalid proof in initiation");
    reveal_strlit("Invalid proof in response");
    reveal_strlit("Invalid confirmation in response");
    reveal_strlit("Ratchet key missing");
    reveal_strlit("Unknown ratchet key identifier");
    assert("Failed to AEAD:OPEN"@.len() == 19);
    assert("Unknown public key"@.len() == 18);
    assert("Receiver id not allocated to any handshake"@.len() == 42);
    assert("Invalid handshake message format"@.len() == 32);
    assert("Zero shared secret"@.len() == 18);
    assert("Timestamp is less/equal to the newest"@.len() == 37);
    assert("Message does not apply to handshake state"@.len() == 41);
    assert("Message has invalid mac1 field"@.len() == 30);
    assert("Message was dropped by rate limiter"@.len() == 35);
    assert("Message was dropped because of initiation flood"@.len() == 47);
    assert("Hash size invalid for initiation message creation"@.len() == 49);
    assert("Unknown handshake mode"@.len() == 22);
    assert("Message does not apply to the ratchet epoch"@.len() == 43);
    assert("Invalid proof in initiation"@.len() == 27);
    assert("Invalid proof in response"@.len() == 25);
    assert("Invalid confirmation in response"@.len() == 32);
    assert("Ratchet key missing"@.len() == 19);
    assert("Unknown ratchet key identifier"@.len() == 30);
    assert("Failed to AEAD:OPEN"@[0]
        != "Ratchet key missing"@[0]);
    assert("Unknown public key"@[0]
        != "Zero shared secret"@[0]);
    assert("Invalid handshake message format"@[8]
        != "Invalid confirmation in response"@[8]);
    assert("Message has invalid mac1 field"@[0]
        != "Unknown ratchet key identifier"@[0]);
}

} // verus!
