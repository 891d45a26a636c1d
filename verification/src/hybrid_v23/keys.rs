//! The static keys of a device.

use crate::binding::{kdf_met, law_derived_keys_bind, lemma_joined, told_apart};
use crate::bytes::join;
use crate::crypto::{blake2s, hash1, hash2, kdf1, kdf1_spec, x25519_public, StaticSecret};
use crate::hybrid_v23::peer::key_hash;
use vstd::prelude::*;

verus! {

/// "hybrid-wireguard-cookie-root-v1"
pub const LABEL_COOKIE_ROOT: [u8; 31] = [
    0x68, 0x79, 0x62, 0x72, 0x69, 0x64, 0x2d, 0x77, 0x69, 0x72, 0x65, 0x67, 0x75, 0x61, 0x72, 0x64,
    0x2d, 0x63, 0x6f, 0x6f, 0x6b, 0x69, 0x65, 0x2d, 0x72, 0x6f, 0x6f, 0x74, 0x2d, 0x76, 0x31,
];

/// The static keys of a device and what follows from them.
pub struct KeyState {
    pub sk: StaticSecret,
    pub pk: [u8; 32],
    pub sk_pq: Vec<u8>,
    pub pk_pq: Vec<u8>,
    pub pk_hash: [u8; 32],
    pub cookie_root_secret: [u8; 32],
}

/// The secret from which the secrets behind the cookies stem.
pub open spec fn cookie_root(sk: Seq<u8>, sk_pq: Seq<u8>) -> Seq<u8> {
    kdf1_spec(blake2s(LABEL_COOKIE_ROOT@), sk + sk_pq)
}

/// The secret from which the secrets behind the cookies stem.
pub fn derive_cookie_root_secret(sk: &StaticSecret, sk_pq: &[u8]) -> (r: [u8; 32])
    ensures
        r@ == cookie_root(sk@, sk_pq@),
{
    let scalar = sk.to_bytes();
    let material = join(&scalar, sk_pq);
    kdf1(&hash1(&LABEL_COOKIE_ROOT), &material)
}

impl KeyState {
    /// Do the public keys and the hashes belong to the secret keys?
    pub open spec fn wf(&self) -> bool {
        &&& self.pk@ == x25519_public(self.sk@)
        &&& self.pk_hash@ == key_hash(self.pk@, self.pk_pq@)
        &&& self.cookie_root_secret@ == cookie_root(self.sk@, self.sk_pq@)
        &&& self.sk@.len() == 32
    }

    pub fn new(sk: StaticSecret, sk_pq: Vec<u8>, pk_pq: Vec<u8>) -> (r: Self)
        ensures
            r.wf(),
            r.sk == sk,
            r.sk_pq == sk_pq,
            r.pk_pq == pk_pq,
    {
        let pk = sk.public();
        let cookie_root_secret = derive_cookie_root_secret(&sk, &sk_pq);
        KeyState { pk, pk_hash: hash2(&pk, &pk_pq), sk, sk_pq, pk_pq, cookie_root_secret }
    }
}

/// The root of the cookies binds both secret keys of the device.
pub proof fn law_cookie_root_binds(
    met: Set<Seq<u8>>,
    sk: Seq<u8>,
    sk_pq: Seq<u8>,
    other: Seq<u8>,
    other_pq: Seq<u8>,
)
    requires
        told_apart(met),
        sk.len() == other.len(),
        kdf_met(met, blake2s(LABEL_COOKIE_ROOT@), sk + sk_pq),
        kdf_met(met, blake2s(LABEL_COOKIE_ROOT@), other + other_pq),
        cookie_root(sk, sk_pq) == cookie_root(other, other_pq),
    ensures
        sk == other,
        sk_pq == other_pq,
{
    let root = blake2s(LABEL_COOKIE_ROOT@);
    law_derived_keys_bind(met, root, sk + sk_pq, root, other + other_pq);
    lemma_joined(sk, sk_pq, other, other_pq);
}

} // verus!
