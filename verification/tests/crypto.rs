//! The primitives, against known values.

use hybrid_wireguard::crypto::{hash1, hash2, hash3, kdf1, kdf2, kdf3, StaticSecret};
use hybrid_wireguard::exchange::{shared_secret, INITIAL_CK, INITIAL_HS};
use hybrid_wireguard::kem::{check_ephemeral_kem_sizes, check_static_kem_sizes, KemLengths};
use hybrid_wireguard::types::{HandshakeError, PQError};

const IDENTIFIER: &[u8] = b"WireGuard v1 zx2c4 Jason@zx2c4.com";
const CONSTRUCTION: &[u8] = b"Noise_IKpsk2_25519_ChaChaPoly_BLAKE2s";

/* Sanity check precomputed initial chain key
 */
#[test]
fn precomputed_chain_key() {
    assert_eq!(INITIAL_CK[..], hash1(CONSTRUCTION)[..]);
}

/* Sanity check precomputed initial hash transcript
 */
#[test]
fn precomputed_hash() {
    assert_eq!(INITIAL_HS[..], hash2(&INITIAL_CK, IDENTIFIER)[..]);
}

/* Sanity check the HKDF functions
 *
 * Test vectors generated using WireGuard-Go
 */
#[test]
fn hkdf() {
    let tests: Vec<(Vec<u8>, Vec<u8>, [u8; 32], [u8; 32], [u8; 32])> = vec![
        (
            vec![],
            vec![],
            [
                0x83, 0x87, 0xb4, 0x6b, 0xf4, 0x3e, 0xcc, 0xfc, 0xf3, 0x49, 0x55, 0x2a, 0x09, 0x5d,
                0x83, 0x15, 0xc4, 0x05, 0x5b, 0xeb, 0x90, 0x20, 0x8f, 0xb1, 0xbe, 0x23, 0xb8, 0x94,
                0xbc, 0x2e, 0xd5, 0xd0,
            ],
            [
                0x58, 0xa0, 0xe5, 0xf6, 0xfa, 0xef, 0xcc, 0xf4, 0x80, 0x7b, 0xff, 0x1f, 0x05, 0xfa,
                0x8a, 0x92, 0x17, 0x94, 0x57, 0x62, 0x04, 0x0b, 0xce, 0xc2, 0xf4, 0xb4, 0xa6, 0x2b,
                0xdf, 0xe0, 0xe8, 0x6e,
            ],
            [
                0x0c, 0xe6, 0xea, 0x98, 0xec, 0x54, 0x8f, 0x8e, 0x28, 0x1e, 0x93, 0xe3, 0x2d, 0xb6,
                0x56, 0x21, 0xc4, 0x5e, 0xb1, 0x8d, 0xc6, 0xf0, 0xa7, 0xad, 0x94, 0x17, 0x86, 0x10,
                0xa2, 0xf7, 0x33, 0x8e,
            ],
        ),
        (
            vec![0xde, 0xad, 0xbe, 0xef],
            vec![],
            [
                0x55, 0x32, 0x9d, 0xc8, 0x0e, 0x69, 0x0f, 0xd8, 0x6b, 0xd9, 0x66, 0x1f, 0x08, 0x51,
                0xc9, 0xb3, 0x68, 0x6d, 0xf2, 0xb1, 0xfd, 0xa0, 0x34, 0x7b, 0xc3, 0xd2, 0x79, 0x58,
                0x25, 0x4b, 0x32, 0xc6,
            ],
            [
                0x8d, 0xfc, 0x6d, 0x33, 0xa8, 0x11, 0x8f, 0xfe, 0x40, 0x8b, 0x31, 0xdd, 0xac, 0x25,
                0xf7, 0x2a, 0xee, 0x91, 0x15, 0xa4, 0x5b, 0x69, 0xba, 0x17, 0x6a, 0xd0, 0x12, 0xb2,
                0x43, 0x83, 0x4f, 0xee,
            ],
            [
                0xd6, 0x9e, 0x85, 0x2a, 0x28, 0x96, 0x56, 0x9e, 0xa5, 0x4a, 0x67, 0x96, 0x9a, 0xa1,
                0x80, 0x02, 0x87, 0x92, 0x1d, 0xac, 0x53, 0xce, 0x6d, 0xb4, 0xb4, 0xe1, 0x21, 0x92,
                0xf2, 0x63, 0xc4, 0xc4,
            ],
        ),
    ];

    for (key, input, t0, t1, t2) in &tests {
        let tt0 = kdf1(key, input);
        assert_eq!(tt0[..], t0[..]);

        let (tt0, tt1) = kdf2(key, input);
        assert_eq!(tt0[..], t0[..]);
        assert_eq!(tt1[..], t1[..]);

        let (tt0, tt1, tt2) = kdf3(key, input);
        assert_eq!(tt0[..], t0[..]);
        assert_eq!(tt1[..], t1[..]);
        assert_eq!(tt2[..], t2[..]);
    }
}

#[test]
fn crypto_params_check_sizes() {
    let ephemeral =
        KemLengths { public_key: 800, secret_key: 1632, ciphertext: 768, shared_secret: 32 };
    let fixed =
        KemLengths { public_key: 524160, secret_key: 13608, ciphertext: 156, shared_secret: 32 };
    check_static_kem_sizes(&fixed).unwrap();
    check_ephemeral_kem_sizes(&ephemeral).unwrap();
}

#[test]
fn wrong_sizes_are_reported() {
    let e = KemLengths { public_key: 800, secret_key: 1632, ciphertext: 768, shared_secret: 32 };
    let f =
        KemLengths { public_key: 524160, secret_key: 13608, ciphertext: 156, shared_secret: 32 };
    let eph = |l: KemLengths| check_ephemeral_kem_sizes(&l).unwrap_err();
    let fix = |l: KemLengths| check_static_kem_sizes(&l).unwrap_err();
    assert_eq!(eph(KemLengths { public_key: 1, ..e }), PQError::InvalidEphemeralKemPublicKeySize);
    assert_eq!(eph(KemLengths { secret_key: 1, ..e }), PQError::InvalidEphemeralKemSecretKeySize);
    assert_eq!(eph(KemLengths { ciphertext: 1, ..e }), PQError::InvalidEphemeralKemCiphertextSize);
    assert_eq!(eph(KemLengths { shared_secret: 1, ..e }), PQError::InvalidEphemeralKemSecretSize);
    assert_eq!(fix(KemLengths { public_key: 1, ..f }), PQError::InvalidStaticKemPublicKeySize);
    assert_eq!(fix(KemLengths { secret_key: 1, ..f }), PQError::InvalidStaticKemSecretKeySize);
    assert_eq!(fix(KemLengths { ciphertext: 1, ..f }), PQError::InvalidStaticKemCiphertextSize);
    assert_eq!(fix(KemLengths { shared_secret: 1, ..f }), PQError::InvalidStaticKemSecretSize);
    assert!(PQError::InvalidStaticKemSecretSize.message().contains("SIZE_STATIC_KEM_SHARED_SECRET"));
}

#[test]
fn blake2s_of_abc() {
    let expected = [
        0x50, 0x8c, 0x5e, 0x8c, 0x32, 0x7c, 0x14, 0xe2, 0xe1, 0xa7, 0x2b, 0xa3, 0x4e, 0xeb, 0x45,
        0x2f, 0x37, 0x45, 0x8b, 0x20, 0x9e, 0xd6, 0x3a, 0x29, 0x4d, 0x99, 0x9b, 0x4c, 0x86, 0x67,
        0x59, 0x82,
    ];
    assert_eq!(hash1(b"abc"), expected);
    assert_eq!(hash2(b"a", b"bc"), expected);
    assert_eq!(hash3(b"a", b"b", b"c"), expected);
}

#[test]
fn x25519_known_answer() {
    let alice = StaticSecret::from_bytes(&[
        0x77, 0x07, 0x6d, 0x0a, 0x73, 0x18, 0xa5, 0x7d, 0x3c, 0x16, 0xc1, 0x72, 0x51, 0xb2, 0x66,
        0x45, 0xdf, 0x4c, 0x2f, 0x87, 0xeb, 0xc0, 0x99, 0x2a, 0xb1, 0x77, 0xfb, 0xa5, 0x1d, 0xb9,
        0x2c, 0x2a,
    ]);
    let bob = StaticSecret::from_bytes(&[
        0x5d, 0xab, 0x08, 0x7e, 0x62, 0x4a, 0x8a, 0x4b, 0x79, 0xe1, 0x7f, 0x8b, 0x83, 0x80, 0x0e,
        0xe6, 0x6f, 0x3b, 0xb1, 0x29, 0x26, 0x18, 0xb6, 0xfd, 0x1c, 0x2f, 0x8b, 0x27, 0xff, 0x88,
        0xe0, 0xeb,
    ]);
    let expected = [
        0x4a, 0x5d, 0x9d, 0x5b, 0xa4, 0xce, 0x2d, 0xe1, 0x72, 0x8e, 0x3b, 0xf4, 0x80, 0x35, 0x0f,
        0x25, 0xe0, 0x7e, 0x21, 0xc9, 0x47, 0xd1, 0x9e, 0x33, 0x76, 0xf0, 0x9b, 0x3c, 0x1e, 0x16,
        0x17, 0x42,
    ];
    assert_eq!(alice.agree(&bob.public()), expected);
    assert_eq!(bob.agree(&alice.public()), expected);
    assert_eq!(alice.duplicate().public(), alice.public());
    assert_eq!(alice.to_bytes()[0], 0x70);
    assert_eq!(alice.to_bytes()[31], 0x6a);
}

#[test]
fn zero_shared_secret_is_refused() {
    let sk = StaticSecret::from_bytes(&[5u8; 32]);
    assert_eq!(shared_secret(&sk, &[0u8; 32]).err(), Some(HandshakeError::InvalidSharedSecret));
    let pk = sk.public();
    assert_eq!(shared_secret(&sk, &pk).unwrap(), sk.agree(&pk));
}

fn hmac_by_definition(key: &[u8], data: &[u8]) -> [u8; 32] {
    let key = if key.len() <= 64 { key.to_vec() } else { hash1(key).to_vec() };
    let (mut inner, mut outer) = ([0x36u8; 64], [0x5cu8; 64]);
    for (i, b) in key.iter().enumerate() {
        inner[i] ^= b;
        outer[i] ^= b;
    }
    hash2(&outer, &hash2(&inner, data))
}

#[test]
fn keys_are_derived_with_hmac() {
    for len in [0usize, 1, 32, 63, 64, 65, 200] {
        let key: Vec<u8> = (0..len).map(|i| i as u8).collect();
        let first = hmac_by_definition(&hmac_by_definition(&key, b"input"), &[1]);
        assert_eq!(kdf1(&key, b"input"), first);
    }
}
