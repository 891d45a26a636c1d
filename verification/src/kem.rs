//! Sizes of the key encapsulation mechanisms.
//!
//! The ephemeral and the ratchet keys are ML-KEM-512, the static ones Classic McEliece
//! 460896. The encapsulations themselves are performed by the caller, who hands in what
//! came out.

use crate::types::PQError;
use vstd::prelude::*;

verus! {

pub const SIZE_EPHEMERAL_KEM_PUB_KEY: usize = 800;

pub const SIZE_EPHEMERAL_KEM_SECRET_KEY: usize = 1632;

pub const SIZE_EPHEMERAL_KEM_CIPHERTEXT: usize = 768;

pub const SIZE_EPHEMERAL_KEM_SHARED_SECRET: usize = 32;

pub const SIZE_RATCHET_KEM_PUB_KEY: usize = 800;

pub const SIZE_RATCHET_KEM_SECRET_KEY: usize = 1632;

pub const SIZE_RATCHET_KEM_CIPHERTEXT: usize = 768;

pub const SIZE_RATCHET_KEM_SHARED_SECRET: usize = 32;

pub const SIZE_STATIC_KEM_PUB_KEY: usize = 524160;

pub const SIZE_STATIC_KEM_SECRET_KEY: usize = 13608;

pub const SIZE_STATIC_KEM_CIPHERTEXT: usize = 156;

pub const SIZE_STATIC_KEM_SHARED_SECRET: usize = 32;

/// Length of a ratchet key identifier.
pub const SIZE_KID: usize = 16;

/// The lengths that an implementation of a mechanism works with.
#[derive(Clone, Copy, Debug)]
pub struct KemLengths {
    pub public_key: usize,
    pub secret_key: usize,
    pub ciphertext: usize,
    pub shared_secret: usize,
}

/// Does the ephemeral mechanism work with the lengths of the messages? The first length
/// that differs is reported.
pub fn check_ephemeral_kem_sizes(lengths: &KemLengths) -> (r: Result<(), PQError>)
    ensures
        r == (if lengths.public_key != SIZE_EPHEMERAL_KEM_PUB_KEY {
            Err::<(), PQError>(PQError::InvalidEphemeralKemPublicKeySize)
        } else if lengths.secret_key != SIZE_EPHEMERAL_KEM_SECRET_KEY {
            Err(PQError::InvalidEphemeralKemSecretKeySize)
        } else if lengths.ciphertext != SIZE_EPHEMERAL_KEM_CIPHERTEXT {
            Err(PQError::InvalidEphemeralKemCiphertextSize)
        } else if lengths.shared_secret != SIZE_EPHEMERAL_KEM_SHARED_SECRET {
            Err(PQError::InvalidEphemeralKemSecretSize)
        } else {
            Ok(())
        }),
{
    if SIZE_EPHEMERAL_KEM_PUB_KEY != lengths.public_key {
        return Err(PQError::InvalidEphemeralKemPublicKeySize);
    }
    if SIZE_EPHEMERAL_KEM_SECRET_KEY != lengths.secret_key {
        return Err(PQError::InvalidEphemeralKemSecretKeySize);
    }
    if SIZE_EPHEMERAL_KEM_CIPHERTEXT != lengths.ciphertext {
        return Err(PQError::InvalidEphemeralKemCiphertextSize);
    }
    if SIZE_EPHEMERAL_KEM_SHARED_SECRET != lengths.shared_secret {
        return Err(PQError::InvalidEphemeralKemSecretSize);
    }
    Ok(())
}

/// Does the static mechanism work with the lengths of the messages? The first length that
/// differs is reported.
pub fn check_static_kem_sizes(lengths: &KemLengths) -> (r: Result<(), PQError>)
    ensures
        r == (if lengths.public_key != SIZE_STATIC_KEM_PUB_KEY {
            Err::<(), PQError>(PQError::InvalidStaticKemPublicKeySize)
        } else if lengths.secret_key != SIZE_STATIC_KEM_SECRET_KEY {
            Err(PQError::InvalidStaticKemSecretKeySize)
        } else if lengths.ciphertext != SIZE_STATIC_KEM_CIPHERTEXT {
            Err(PQError::InvalidStaticKemCiphertextSize)
        } else if lengths.shared_secret != SIZE_STATIC_KEM_SHARED_SECRET {
            Err(PQError::InvalidStaticKemSecretSize)
        } else {
            Ok(())
        }),
{
    if SIZE_STATIC_KEM_PUB_KEY != lengths.public_key {
        return Err(PQError::InvalidStaticKemPublicKeySize);
    }
    if SIZE_STATIC_KEM_SECRET_KEY != lengths.secret_key {
        return Err(PQError::InvalidStaticKemSecretKeySize);
    }
    if SIZE_STATIC_KEM_CIPHERTEXT != lengths.ciphertext {
        return Err(PQError::InvalidStaticKemCiphertextSize);
    }
    if SIZE_STATIC_KEM_SHARED_SECRET != lengths.shared_secret {
        return Err(PQError::InvalidStaticKemSecretSize);
    }
    Ok(())
}

/// The sizes are those of ML-KEM-512 and of Classic McEliece 460896.
pub proof fn law_sizes()
    ensures
        SIZE_EPHEMERAL_KEM_PUB_KEY == 800,
        SIZE_EPHEMERAL_KEM_SECRET_KEY == 1632,
        SIZE_EPHEMERAL_KEM_CIPHERTEXT == 768,
        SIZE_EPHEMERAL_KEM_SHARED_SECRET == 32,
        SIZE_RATCHET_KEM_PUB_KEY == SIZE_EPHEMERAL_KEM_PUB_KEY,
        SIZE_RATCHET_KEM_SECRET_KEY == SIZE_EPHEMERAL_KEM_SECRET_KEY,
        SIZE_RATCHET_KEM_CIPHERTEXT == SIZE_EPHEMERAL_KEM_CIPHERTEXT,
        SIZE_RATCHET_KEM_SHARED_SECRET == SIZE_EPHEMERAL_KEM_SHARED_SECRET,
        SIZE_STATIC_KEM_PUB_KEY == 524160,
        SIZE_STATIC_KEM_SECRET_KEY == 13608,
        SIZE_STATIC_KEM_CIPHERTEXT == 156,
        SIZE_STATIC_KEM_SHARED_SECRET == 32,
        SIZE_KID == 16,
{
}

} // verus!
