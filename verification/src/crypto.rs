//! The cryptographic primitives of the handshakes.
//!
//! Hashing, message authentication, encryption and the Diffie-Hellman function come
//! from outside crates. What each of those calls returns is named here by a function
//! without a body; everything built on top of them is verified.

use crate::bytes::{join, join3, join4, zeros};
use aead::{Aead, NewAead, Payload};
use blake2::digest::{Update, VariableOutput};
use blake2::Digest;
use chacha20::cipher::{KeyIvInit, StreamCipher};
use clear_on_drop::clear::Clear;
use generic_array::GenericArray;
use hmac::{Mac, NewMac};
use subtle::ConstantTimeEq;
use vstd::prelude::*;

verus! {

/// Length of a hash, of a symmetric key and of a chaining key.
pub const SIZE_HASH: usize = 32;

/// Length of an X25519 key.
pub const SIZE_X25519_POINT: usize = 32;

/// Length of a pre-shared key.
pub const SIZE_PSK: usize = 32;

/// Length of a keyed BLAKE2s tag.
pub const SIZE_MAC: usize = 16;

/// Length of a Poly1305 tag.
pub const SIZE_TAG: usize = 16;

/// Length of a ChaCha20 nonce.
pub const SIZE_NONCE: usize = 12;

/// Length of an XChaCha20 nonce.
pub const SIZE_XNONCE: usize = 24;

/// The nonce of every AEAD and stream encryption of a handshake: each key is used once.
pub const ZERO_NONCE: [u8; 12] = [0, 0, 0, 0, 0, 0, 0, 0, 0, 0, 0, 0];

// ---------------------------------------------------------------------------
// Outside functions
// ---------------------------------------------------------------------------

/// The 32-byte BLAKE2s hash of `data`.
pub uninterp spec fn blake2s(data: Seq<u8>) -> Seq<u8>;

/// `blake2::Blake2s`, fed `data` and finalized: the digest is [`blake2s`] of `data`.
#[verifier::external_body]
pub(crate) fn hash(data: &[u8]) -> (r: [u8; 32])
    ensures
        r@ == blake2s(data@),
{
    let mut state = blake2::Blake2s::new();
    Digest::update(&mut state, data);
    state.finalize().into()
}

/// The 16-byte BLAKE2s tag of `data` under `key`.
pub uninterp spec fn blake2s_mac(key: Seq<u8>, data: Seq<u8>) -> Seq<u8>;

/// `blake2::VarBlake2s::new_keyed` with 16 bytes of output, fed `data` and finalized: the
/// tag is [`blake2s_mac`] of key and data. The outside function panics on a key of more
/// than 32 bytes.
#[verifier::external_body]
pub(crate) fn mac(key: &[u8], data: &[u8]) -> (r: [u8; 16])
    requires
        key@.len() <= 32,
    ensures
        r@ == blake2s_mac(key@, data@),
{
    let mut tag = [0u8; 16];
    let mut state = blake2::VarBlake2s::new_keyed(key, 16);
    Update::update(&mut state, data);
    state.finalize_variable(|out| tag.copy_from_slice(out));
    tag
}

/// A block of 64 bytes with a key in it, which is hashed first if it is longer than that: the
/// bytes of the key combined with `pad`, and `pad` itself after them.
pub open spec fn hmac_block(key: Seq<u8>, pad: u8) -> Seq<u8> {
    let k = if key.len() <= 64 {
        key
    } else {
        blake2s(key)
    };
    Seq::new(
        64,
        |i: int|
            if i < k.len() {
                k[i] ^ pad
            } else {
                pad
            },
    )
}

/// The 32-byte HMAC-BLAKE2s of `data` under `key`: the hash of the outer block and of the
/// hash of the inner block and the data.
#[verifier::opaque]
pub open spec fn hmac_blake2s(key: Seq<u8>, data: Seq<u8>) -> Seq<u8> {
    blake2s(hmac_block(key, 0x5c) + blake2s(hmac_block(key, 0x36) + data))
}

/// `hmac::Hmac<blake2::Blake2s>` with a key of any length, fed `data` and finalized: the
/// code is [`hmac_blake2s`] of key and data.
#[verifier::external_body]
pub(crate) fn hmac(key: &[u8], data: &[u8]) -> (r: [u8; 32])
    ensures
        r@ == hmac_blake2s(key@, data@),
{
    let mut state = hmac::Hmac::<blake2::Blake2s>::new_varkey(key).unwrap();
    Mac::update(&mut state, data);
    state.finalize().into_bytes().into()
}

/// `hkdf::Hkdf<blake2::Blake2s>`, extract with `salt` and expand to 32 bytes with `info`.
/// One block is expanded: the HMAC, under the extracted key, of `info` and the block
/// number one; the extracted key is the HMAC of `ikm` under `salt`.
#[verifier::external_body]
pub(crate) fn hkdf(salt: &[u8], ikm: &[u8], info: &[u8]) -> (r: [u8; 32])
    ensures
        r@ == hkdf_blake2s(salt@, ikm@, info@),
{
    let mut okm = [0u8; 32];
    hkdf::Hkdf::<blake2::Blake2s>::new(Some(salt), ikm).expand(info, &mut okm).unwrap();
    okm
}

/// HKDF-BLAKE2s with 32 bytes of output.
pub open spec fn hkdf_blake2s(salt: Seq<u8>, ikm: Seq<u8>, info: Seq<u8>) -> Seq<u8> {
    hmac_blake2s(hmac_blake2s(salt, ikm), info + seq![1u8])
}

/// `aead::Error`: an encryption that failed to open.
#[verifier::external_type_specification]
#[verifier::external_body]
pub struct ExAeadError(aead::Error);

/// What ChaCha20-Poly1305 makes of a plaintext: the ciphertext and its tag.
pub uninterp spec fn chacha20poly1305_seal(
    key: Seq<u8>,
    nonce: Seq<u8>,
    aad: Seq<u8>,
    plain: Seq<u8>,
) -> Seq<u8>;

/// What ChaCha20-Poly1305 makes of a ciphertext: the plaintext, if the tag is right.
pub uninterp spec fn chacha20poly1305_open(
    key: Seq<u8>,
    nonce: Seq<u8>,
    aad: Seq<u8>,
    sealed: Seq<u8>,
) -> Option<Seq<u8>>;

/// `ChaCha20Poly1305::encrypt`. The result is [`chacha20poly1305_seal`] of the arguments,
/// is 16 bytes longer than the plaintext, and opens to the plaintext. The outside function
/// refuses a plaintext of 64 * (2^32 - 1) bytes or more.
#[verifier::external_body]
pub(crate) fn seal(key: &[u8; 32], nonce: &[u8; 12], aad: &[u8], plain: &[u8]) -> (r: Vec<u8>)
    requires
        plain@.len() < 64 * 0xffff_ffff,
    ensures
        r@ == chacha20poly1305_seal(key@, nonce@, aad@, plain@),
        r@.len() == plain@.len() + 16,
        chacha20poly1305_open(key@, nonce@, aad@, r@) == Some(plain@),
{
    chacha20poly1305::ChaCha20Poly1305::new(GenericArray::from_slice(key))
        .encrypt(GenericArray::from_slice(nonce), Payload { msg: plain, aad })
        .unwrap()
}

/// `ChaCha20Poly1305::decrypt`. What comes out is [`chacha20poly1305_open`] of the
/// arguments, an error standing for `None`; a plaintext is 16 bytes shorter than what was
/// opened.
#[verifier::external_body]
pub(crate) fn open(key: &[u8; 32], nonce: &[u8; 12], aad: &[u8], sealed: &[u8]) -> (r: Result<
    Vec<u8>,
    aead::Error,
>)
    ensures
        match r {
            Ok(plain) => chacha20poly1305_open(key@, nonce@, aad@, sealed@) == Some(plain@)
                && sealed@.len() == plain@.len() + 16,
            Err(_) => chacha20poly1305_open(key@, nonce@, aad@, sealed@) is None,
        },
{
    chacha20poly1305::ChaCha20Poly1305::new(GenericArray::from_slice(key))
        .decrypt(GenericArray::from_slice(nonce), Payload { msg: sealed, aad })
}

/// What XChaCha20-Poly1305 makes of a plaintext: the ciphertext and its tag.
pub uninterp spec fn xchacha20poly1305_seal(
    key: Seq<u8>,
    nonce: Seq<u8>,
    aad: Seq<u8>,
    plain: Seq<u8>,
) -> Seq<u8>;

/// What XChaCha20-Poly1305 makes of a ciphertext: the plaintext, if the tag is right.
pub uninterp spec fn xchacha20poly1305_open(
    key: Seq<u8>,
    nonce: Seq<u8>,
    aad: Seq<u8>,
    sealed: Seq<u8>,
) -> Option<Seq<u8>>;

/// `XChaCha20Poly1305::encrypt`. The result is [`xchacha20poly1305_seal`] of the
/// arguments, is 16 bytes longer than the plaintext, and opens to the plaintext. The
/// outside function refuses a plaintext of 64 * (2^32 - 1) bytes or more.
#[verifier::external_body]
pub(crate) fn xseal(key: &[u8; 32], nonce: &[u8; 24], aad: &[u8], plain: &[u8]) -> (r: Vec<u8>)
    requires
        plain@.len() < 64 * 0xffff_ffff,
    ensures
        r@ == xchacha20poly1305_seal(key@, nonce@, aad@, plain@),
        r@.len() == plain@.len() + 16,
        xchacha20poly1305_open(key@, nonce@, aad@, r@) == Some(plain@),
{
    chacha20poly1305::XChaCha20Poly1305::new(GenericArray::from_slice(key))
        .encrypt(GenericArray::from_slice(nonce), Payload { msg: plain, aad })
        .unwrap()
}

/// `XChaCha20Poly1305::decrypt`. What comes out is [`xchacha20poly1305_open`] of the
/// arguments, an error standing for `None`; a plaintext is 16 bytes shorter than what was
/// opened.
#[verifier::external_body]
pub(crate) fn xopen(key: &[u8; 32], nonce: &[u8; 24], aad: &[u8], sealed: &[u8]) -> (r: Result<
    Vec<u8>,
    aead::Error,
>)
    ensures
        match r {
            Ok(plain) => xchacha20poly1305_open(key@, nonce@, aad@, sealed@) == Some(plain@)
                && sealed@.len() == plain@.len() + 16,
            Err(_) => xchacha20poly1305_open(key@, nonce@, aad@, sealed@) is None,
        },
{
    chacha20poly1305::XChaCha20Poly1305::new(GenericArray::from_slice(key))
        .decrypt(GenericArray::from_slice(nonce), Payload { msg: sealed, aad })
}

/// `data` combined with the ChaCha20 key stream.
pub uninterp spec fn chacha20(key: Seq<u8>, nonce: Seq<u8>, data: Seq<u8>) -> Seq<u8>;

/// `ChaCha20::apply_keystream` from the start of the stream. The result is [`chacha20`] of
/// the arguments and as long as `data`; the same stream turns it back into `data`. The
/// outside function panics at the end of the stream, after 2^32 blocks of 64 bytes.
#[verifier::external_body]
pub(crate) fn apply_chacha20(key: &[u8; 32], nonce: &[u8; 12], data: &[u8]) -> (r: Vec<u8>)
    requires
        data@.len() < 64 * 0xffff_ffff,
    ensures
        r@ == chacha20(key@, nonce@, data@),
        r@.len() == data@.len(),
        chacha20(key@, nonce@, r@) == data@,
{
    let mut out = data.to_vec();
    chacha20::ChaCha20::new(key.into(), nonce.into()).apply_keystream(&mut out);
    out
}

/// The X25519 shared secret of a secret scalar and a public key.
pub uninterp spec fn x25519(secret: Seq<u8>, public: Seq<u8>) -> Seq<u8>;

/// The X25519 public key of a secret scalar.
pub uninterp spec fn x25519_public(secret: Seq<u8>) -> Seq<u8>;

/// `x25519_dalek::StaticSecret::diffie_hellman`: the result is [`x25519`] of the secret
/// and the public key. Both sides of an exchange arrive at it: if the public key is that
/// of some other secret, that secret and the public key of this one give the same.
#[verifier::external_body]
pub(crate) fn diffie_hellman(secret: &[u8; 32], public: &[u8; 32]) -> (r: [u8; 32])
    ensures
        r@ == x25519(secret@, public@),
        dh_agrees(r@, secret@, public@),
{
    x25519_dalek::StaticSecret::from(*secret)
        .diffie_hellman(&x25519_dalek::PublicKey::from(*public))
        .to_bytes()
}

/// `shared` is also what the owner of `public` computes from the public key of `secret`.
pub open spec fn dh_agrees(shared: Seq<u8>, secret: Seq<u8>, public: Seq<u8>) -> bool {
    forall|other: Seq<u8>|
        other.len() == 32 && public == #[trigger] x25519_public(other) ==> x25519(
            other,
            x25519_public(secret),
        ) == shared
}

/// `x25519_dalek::PublicKey::from(&StaticSecret)`: the result is [`x25519_public`] of the
/// secret.
#[verifier::external_body]
pub(crate) fn public_key(secret: &[u8; 32]) -> (r: [u8; 32])
    ensures
        r@ == x25519_public(secret@),
{
    x25519_dalek::PublicKey::from(&x25519_dalek::StaticSecret::from(*secret)).to_bytes()
}

/// `x25519_dalek::StaticSecret::from` and `to_bytes`: the three lowest bits of the first
/// byte and the highest of the last are cleared, the second highest of the last is set.
#[verifier::external_body]
pub(crate) fn clamp(bytes: &[u8; 32]) -> (r: [u8; 32])
    ensures
        r@ == clamped(bytes@),
{
    x25519_dalek::StaticSecret::from(*bytes).to_bytes()
}

/// A scalar as X25519 uses it.
pub open spec fn clamped(s: Seq<u8>) -> Seq<u8> {
    s.update(0, s[0] & 248).update(31, (s[31] & 127) | 64)
}

/// `subtle::ConstantTimeEq::ct_eq` on byte slices: are they the same?
#[verifier::external_body]
pub(crate) fn ct_eq(a: &[u8], b: &[u8]) -> (r: bool)
    ensures
        r == (a@ == b@),
{
    a.ct_eq(b).into()
}

/// `clear_on_drop::clear::Clear::clear` on a byte slice: every byte is zero afterwards.
#[verifier::external_body]
pub(crate) fn clear(bytes: &mut [u8])
    ensures
        final(bytes)@ == zeros(old(bytes)@.len()),
{
    bytes.clear();
}

// ---------------------------------------------------------------------------
// Hashes of several parts
// ---------------------------------------------------------------------------

/// The hash of `a`.
pub fn hash1(a: &[u8]) -> (r: [u8; 32])
    ensures
        r@ == blake2s(a@),
{
    hash(a)
}

/// The hash of two parts, one after the other.
pub fn hash2(a: &[u8], b: &[u8]) -> (r: [u8; 32])
    ensures
        r@ == blake2s(a@ + b@),
{
    hash(&join(a, b))
}

/// The hash of three parts, one after the other.
pub fn hash3(a: &[u8], b: &[u8], c: &[u8]) -> (r: [u8; 32])
    ensures
        r@ == blake2s(a@ + b@ + c@),
{
    hash(&join3(a, b, c))
}

/// The hash of four parts, one after the other.
pub fn hash4(a: &[u8], b: &[u8], c: &[u8], d: &[u8]) -> (r: [u8; 32])
    ensures
        r@ == blake2s(a@ + b@ + c@ + d@),
{
    hash(&join4(a, b, c, d))
}

/// The hash of five parts, one after the other.
pub fn hash5(a: &[u8], b: &[u8], c: &[u8], d: &[u8], e: &[u8]) -> (r: [u8; 32])
    ensures
        r@ == blake2s(a@ + b@ + c@ + d@ + e@),
{
    hash(&join(&join4(a, b, c, d), e))
}

/// The hash of six parts, one after the other.
pub fn hash6(a: &[u8], b: &[u8], c: &[u8], d: &[u8], e: &[u8], f: &[u8]) -> (r: [u8; 32])
    ensures
        r@ == blake2s(a@ + b@ + c@ + d@ + e@ + f@),
{
    hash(&join3(&join4(a, b, c, d), e, f))
}

/// The hash of seven parts, one after the other.
pub fn hash7(a: &[u8], b: &[u8], c: &[u8], d: &[u8], e: &[u8], f: &[u8], g: &[u8]) -> (r: [u8;
    32])
    ensures
        r@ == blake2s(a@ + b@ + c@ + d@ + e@ + f@ + g@),
{
    hash(&join4(&join4(a, b, c, d), e, f, g))
}

// ---------------------------------------------------------------------------
// Key derivation
// ---------------------------------------------------------------------------

/// One key from a chaining key and an input.
pub open spec fn kdf1_spec(key: Seq<u8>, input: Seq<u8>) -> Seq<u8> {
    hmac_blake2s(hmac_blake2s(key, input), seq![1u8])
}

/// Two keys from a chaining key and an input; the first is that of [`kdf1_spec`].
pub open spec fn kdf2_spec(key: Seq<u8>, input: Seq<u8>) -> (Seq<u8>, Seq<u8>) {
    let t1 = kdf1_spec(key, input);
    (t1, hmac_blake2s(hmac_blake2s(key, input), t1 + seq![2u8]))
}

/// Three keys from a chaining key and an input; the first two are those of [`kdf2_spec`].
pub open spec fn kdf3_spec(key: Seq<u8>, input: Seq<u8>) -> (Seq<u8>, Seq<u8>, Seq<u8>) {
    let (t1, t2) = kdf2_spec(key, input);
    (t1, t2, hmac_blake2s(hmac_blake2s(key, input), t2 + seq![3u8]))
}

/// Derives one key.
pub fn kdf1(key: &[u8], input: &[u8]) -> (r: [u8; 32])
    ensures
        r@ == kdf1_spec(key@, input@),
{
    let mut t0 = hmac(key, input);
    let one: [u8; 1] = [1];
    assert(one@ =~= seq![1u8]);
    let t1 = hmac(&t0, &one);
    clear(&mut t0);
    t1
}

/// Derives two keys.
pub fn kdf2(key: &[u8], input: &[u8]) -> (r: ([u8; 32], [u8; 32]))
    ensures
        (r.0@, r.1@) == kdf2_spec(key@, input@),
{
    let mut t0 = hmac(key, input);
    let one: [u8; 1] = [1];
    let two: [u8; 1] = [2];
    assert(one@ =~= seq![1u8]);
    assert(two@ =~= seq![2u8]);
    let t1 = hmac(&t0, &one);
    let t2 = hmac(&t0, &join(&t1, &two));
    clear(&mut t0);
    (t1, t2)
}

/// Derives three keys.
pub fn kdf3(key: &[u8], input: &[u8]) -> (r: ([u8; 32], [u8; 32], [u8; 32]))
    ensures
        (r.0@, r.1@, r.2@) == kdf3_spec(key@, input@),
{
    let mut t0 = hmac(key, input);
    let one: [u8; 1] = [1];
    let two: [u8; 1] = [2];
    let three: [u8; 1] = [3];
    assert(one@ =~= seq![1u8]);
    assert(two@ =~= seq![2u8]);
    assert(three@ =~= seq![3u8]);
    let t1 = hmac(&t0, &one);
    let t2 = hmac(&t0, &join(&t1, &two));
    let t3 = hmac(&t0, &join(&t2, &three));
    clear(&mut t0);
    (t1, t2, t3)
}

// ---------------------------------------------------------------------------
// Diffie-Hellman keys
// ---------------------------------------------------------------------------

/// A secret X25519 scalar, as X25519 uses it.
pub struct StaticSecret {
    bytes: [u8; 32],
}

impl StaticSecret {
    /// The scalar's bytes.
    pub closed spec fn view(&self) -> Seq<u8> {
        self.bytes@
    }

    /// The secret that 32 bytes stand for.
    pub fn from_bytes(bytes: &[u8; 32]) -> (r: Self)
        ensures
            r@ == clamped(bytes@),
            r@.len() == 32,
    {
        StaticSecret { bytes: clamp(bytes) }
    }

    /// The scalar's bytes.
    pub fn to_bytes(&self) -> (r: [u8; 32])
        ensures
            r@ == self@,
            r@.len() == 32,
    {
        self.bytes
    }

    /// The public key of the secret.
    pub fn public(&self) -> (r: [u8; 32])
        ensures
            r@ == x25519_public(self@),
            self@.len() == 32,
    {
        public_key(&self.bytes)
    }

    /// The shared secret with the owner of `public`, whatever it is.
    pub fn agree(&self, public: &[u8; 32]) -> (r: [u8; 32])
        ensures
            r@ == x25519(self@, public@),
            dh_agrees(r@, self@, public@),
            self@.len() == 32,
    {
        diffie_hellman(&self.bytes, public)
    }

    /// A second copy of the secret.
    pub fn duplicate(&self) -> (r: Self)
        ensures
            r == *self,
    {
        StaticSecret { bytes: self.bytes }
    }
}

} // verus!
