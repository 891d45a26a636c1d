//! The static keys of a device.

use crate::crypto::{hash2, x25519_public, StaticSecret};
use crate::hybrid_v23::peer::key_hash;
use vstd::prelude::*;

verus! {

/// The static keys of a device and what follows from them.
pub struct KeyState {
    pub sk: StaticSecret,
    pub pk: [u8; 32],
    pub sk_pq: Vec<u8>,
    pub pk_pq: Vec<u8>,
    pub pk_hash: [u8; 32],
}

impl KeyState {
    /// Do the public keys and their hash belong to the secret keys?
    pub open spec fn wf(&self) -> bool {
        &&& self.pk@ == x25519_public(self.sk@)
        &&& self.pk_hash@ == key_hash(self.pk@, self.pk_pq@)
        &&& self.sk@.len() == 32
    }

    pub fn new(sk: StaticSecret, sk_pq: Vec<u8>, pk_pq: Vec<u8>) -> (r: Self)
        ensures
            r.wf(),
            r.sk == sk,
            r.sk_pq == sk_pq,
            r.pk_pq == pk_pq,
    {
        let pk = sk.public();
        KeyState { pk, pk_hash: hash2(&pk, &pk_pq), sk, sk_pq, pk_pq }
    }
}

} // verus!
