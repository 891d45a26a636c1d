//! What the handshakes are built from.

use crate::binding::{kdf_met, law_derived_keys_bind, told_apart};
use crate::bytes::{take, zeros};
use crate::crypto::{
    apply_chacha20, chacha20, chacha20poly1305_open, chacha20poly1305_seal, ct_eq, dh_agrees, kdf1,
    kdf1_spec, open, seal, x25519, StaticSecret, ZERO_NONCE,
};
use crate::types::HandshakeError;
use vstd::prelude::*;

verus! {

/// The chaining key before the first message: the hash of the construction's name.
pub const INITIAL_CK: [u8; 32] = [
    0x60, 0xe2, 0x6d, 0xae, 0xf3, 0x27, 0xef, 0xc0, 0x2e, 0xc3, 0x35, 0xe2, 0xa0, 0x25, 0xd2, 0xd0,
    0x16, 0xeb, 0x42, 0x06, 0xf8, 0x72, 0x77, 0xf5, 0x2d, 0x38, 0xd1, 0x98, 0x8b, 0x78, 0xcd, 0x36,
];

/// The transcript hash before the first message: the hash of the initial chaining key and
/// the identifier.
pub const INITIAL_HS: [u8; 32] = [
    0x22, 0x11, 0xb3, 0x61, 0x08, 0x1a, 0xc5, 0x66, 0x69, 0x12, 0x43, 0xdb, 0x45, 0x8a, 0xd5, 0x32,
    0x2d, 0x9c, 0x6c, 0x66, 0x22, 0x93, 0xe8, 0xb7, 0x0e, 0xe1, 0x9c, 0x65, 0xba, 0x07, 0x9e, 0xf3,
];

/// The key that hides a static ciphertext, from a Diffie-Hellman secret.
pub open spec fn hiding_key(dh: Seq<u8>) -> Seq<u8> {
    kdf1_spec(zeros(32), dh)
}

/// The shared secret of a secret and a public key, unless it is zero.
pub fn shared_secret(sk: &StaticSecret, pk: &[u8; 32]) -> (r: Result<[u8; 32], HandshakeError>)
    ensures
        match r {
            Ok(ss) => ss@ == x25519(sk@, pk@) && ss@ != zeros(32) && dh_agrees(ss@, sk@, pk@)
                && sk@.len() == 32,
            Err(e) => x25519(sk@, pk@) == zeros(32) && e == HandshakeError::InvalidSharedSecret,
        },
{
    let ss = sk.agree(pk);
    let none: [u8; 32] = [0u8; 32];
    assert(none@ =~= zeros(32));
    if ct_eq(&ss, &none) {
        Err(HandshakeError::InvalidSharedSecret)
    } else {
        Ok(ss)
    }
}

/// Is the secret zero?
pub(crate) fn is_zero(ss: &[u8; 32]) -> (r: bool)
    ensures
        r == (ss@ == zeros(32)),
{
    let none: [u8; 32] = [0u8; 32];
    assert(none@ =~= zeros(32));
    ct_eq(ss, &none)
}

/// Encrypts a field of a message.
pub(crate) fn seal_field<const N: usize>(key: &[u8; 32], aad: &[u8], plain: &[u8]) -> (r: [u8; N])
    requires
        plain@.len() + 16 == N,
        N < 0x1_0000,
    ensures
        r@ == chacha20poly1305_seal(key@, ZERO_NONCE@, aad@, plain@),
        chacha20poly1305_open(key@, ZERO_NONCE@, aad@, r@) == Some(plain@),
{
    let sealed = seal(key, &ZERO_NONCE, aad, plain);
    assert(sealed@.subrange(0, N as int) =~= sealed@);
    take(&sealed, 0)
}

/// Decrypts a field of a message.
pub(crate) fn open_field<const N: usize>(key: &[u8; 32], aad: &[u8], sealed: &[u8]) -> (r: Result<
    [u8; N],
    HandshakeError,
>)
    requires
        sealed@.len() == N + 16,
    ensures
        match r {
            Ok(plain) => chacha20poly1305_open(key@, ZERO_NONCE@, aad@, sealed@) == Some(plain@),
            Err(e) => chacha20poly1305_open(key@, ZERO_NONCE@, aad@, sealed@) is None && e
                == HandshakeError::DecryptionFailure,
        },
{
    match open(key, &ZERO_NONCE, aad, sealed) {
        Ok(plain) => {
            assert(plain@.subrange(0, N as int) =~= plain@);
            Ok(take(&plain, 0))
        },
        Err(_) => Err(HandshakeError::DecryptionFailure),
    }
}

/// Hides or uncovers a static ciphertext with the key that a Diffie-Hellman secret gives.
pub(crate) fn hide_ciphertext(dh: &[u8; 32], ct: &[u8; 156]) -> (r: [u8; 156])
    ensures
        r@ == chacha20(hiding_key(dh@), ZERO_NONCE@, ct@),
        chacha20(hiding_key(dh@), ZERO_NONCE@, r@) == ct@,
{
    let none: [u8; 32] = [0u8; 32];
    assert(none@ =~= zeros(32));
    let k = kdf1(&none, dh);
    let out = apply_chacha20(&k, &ZERO_NONCE, ct);
    assert(out@.subrange(0, 156) =~= out@);
    take(&out, 0)
}

/// Different secrets hide ciphertexts with different keys.
pub proof fn law_hiding_keys_bind(met: Set<Seq<u8>>, dh: Seq<u8>, other: Seq<u8>)
    requires
        told_apart(met),
        kdf_met(met, zeros(32), dh),
        kdf_met(met, zeros(32), other),
        hiding_key(dh) == hiding_key(other),
    ensures
        dh == other,
{
    law_derived_keys_bind(met, zeros(32), dh, zeros(32), other);
}

} // verus!
