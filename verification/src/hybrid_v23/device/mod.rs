//! A device: its keys, its peers and the handshakes with them.

use crate::assoc::Assoc;
use crate::bytes::{same, zeros};
use crate::crypto::{blake2s, clear, dh_agrees, hash2, x25519, StaticSecret};
use crate::hybrid_v23::dos::{DosView, GradientDosChecker};
use crate::hybrid_v23::keys::KeyState;
use crate::hybrid_v23::peer::{key_hash, Peer, State};
use crate::hybrid_v23::ratchet::RatchetState;
use crate::hybrid_v23::ri_proof::epoch_key;
use crate::hybrid_v23::sessions::{SessionView, Sessions};
use crate::macs::{Generator, Validator, LABEL_COOKIE, LABEL_MAC1};
use crate::ratelimiter::{Bucket, RateLimiter};
use crate::types::{ConfigError, IpAddr, Psk, SocketAddr};
use vstd::prelude::*;

pub mod handshake;

verus! {

/// More peers than this cannot be added.
pub const MAX_PEER_PER_DEVICE: usize = 0x10_0000;

/// A device: its keys, its peers and the handshakes with them. `O` is what the owner of the
/// device associates with a peer.
pub struct Device<O> {
    keyst: Option<KeyState>,
    sessions: Sessions,
    pk_map: Assoc<[u8; 32], Peer<O>>,
    limiter: RateLimiter,
    pub gradient_dos_checker: GradientDosChecker,
    device_validator: Option<Validator>,
    ri_key: Option<[u8; 8]>,
}

/// A device, with maps for its tables.
pub ghost struct DeviceView<O> {
    pub keys: Option<KeyState>,
    pub sessions: SessionView,
    /// The peers, by the hashes of their static keys.
    pub peers: Map<[u8; 32], Peer<O>>,
    pub limits: Map<IpAddr, Bucket>,
    pub dos: DosView,
    pub validator: Option<Validator>,
    pub ri_key: Option<[u8; 8]>,
}

impl<O> DeviceView<O> {
    /// The device with another state of a peer.
    pub open spec fn with_peer(self, pk_hash: [u8; 32], peer: Peer<O>) -> Self {
        DeviceView { peers: self.peers.insert(pk_hash, peer), ..self }
    }

    /// The device after the failure of a handshake that came from `src`.
    pub open spec fn blaming(self, src: Option<SocketAddr>, now: u64) -> Self {
        match src {
            Some(addr) => DeviceView { dos: self.dos.failure(addr.ip, now), ..self },
            None => self,
        }
    }

    /// The device after a session was given up.
    pub open spec fn releasing(self, id: u32) -> Self {
        DeviceView {
            sessions: self.sessions.freed(id),
            dos: self.dos.released(id),
            ..self
        }
    }

    /// The device after a session was given up, if there was one.
    pub open spec fn releasing_if(self, id: Option<u32>) -> Self {
        match id {
            Some(id) => self.releasing(id),
            None => self,
        }
    }

    /// The device after some sessions were given up, one after the other.
    pub open spec fn releasing_all(self, ids: Seq<u32>) -> Self
        decreases ids.len(),
    {
        if ids.len() == 0 {
            self
        } else {
            self.releasing_all(ids.drop_last()).releasing(ids.last())
        }
    }

    /// Is it the index of a session in which some peer waits for a response?
    pub open spec fn waits(self, id: u32) -> bool {
        exists|k: [u8; 32]| #[trigger]
            self.peers.contains_key(k) && self.peers[k].state.local_id() == Some(id)
    }

    /// The rendezvous key in use with a peer.
    pub open spec fn effective_key(self, peer: Peer<O>) -> Seq<u8> {
        epoch_key(self.ri_key, peer.ratchet.k_ri@)
    }

    /// Has every peer the Diffie-Hellman secret that belongs to the device's key, and no
    /// handshake going on? A peer with the keys of the device itself has none.
    pub open spec fn is_rekeyed(self, before: Self) -> bool {
        &&& self.peers.dom() == before.peers.dom()
        &&& forall|k: [u8; 32]| #[trigger]
            self.peers.contains_key(k) ==> {
                let peer = self.peers[k];
                &&& peer == (Peer { ss: peer.ss, state: State::Reset, ..before.peers[k] })
                &&& match self.keys {
                    Some(keyst) => if keyst.pk_hash == k {
                        peer.ss@ == zeros(32)
                    } else {
                        peer.ss@ == x25519(keyst.sk@, peer.pk@) && dh_agrees(
                            peer.ss@,
                            keyst.sk@,
                            peer.pk@,
                        )
                    },
                    None => peer.ss@ == zeros(32),
                }
            }
    }
}

impl<O> Device<O> {
    pub closed spec fn view(&self) -> DeviceView<O> {
        DeviceView {
            keys: self.keyst,
            sessions: self.sessions@,
            peers: self.pk_map@,
            limits: self.limiter@,
            dos: self.gradient_dos_checker@,
            validator: self.device_validator,
            ri_key: self.ri_key,
        }
    }

    /// The tables are consistent, the keys belong together, every peer is known by the hash
    /// of its keys, and there is a validator as soon as there are keys.
    pub closed spec fn wf(&self) -> bool {
        &&& self.pk_map.wf()
        &&& self.sessions@.wf()
        &&& self.limiter.wf()
        &&& self.gradient_dos_checker.wf()
        &&& self.keyst matches Some(keyst) ==> keyst.wf()
        &&& self.keyst is Some <==> self.device_validator is Some
        &&& forall|k: [u8; 32]| #[trigger]
            self.pk_map@.contains_key(k) ==> self.pk_map@[k].pk_hash == k
    }

    /// What the invariant says of what can be seen from outside.
    pub proof fn lemma_wf(&self)
        requires
            self.wf(),
        ensures
            self@.sessions.wf(),
            self@.keys matches Some(keyst) ==> keyst.wf(),
            self@.keys is Some <==> self@.validator is Some,
            forall|k: [u8; 32]| #[trigger]
                self@.peers.contains_key(k) ==> self@.peers[k].pk_hash == k,
    {
    }

    /// A device without keys and without peers.
    pub fn new(now: u64) -> (r: Self)
        ensures
            r.wf(),
            r@ == (DeviceView::<O> {
                keys: None,
                sessions: SessionView::empty(),
                peers: Map::empty(),
                limits: Map::empty(),
                dos: DosView::fresh(now),
                validator: None,
                ri_key: None,
            }),
    {
        Device {
            keyst: None,
            sessions: Sessions::new(),
            pk_map: Assoc::new(),
            limiter: RateLimiter::new(),
            gradient_dos_checker: GradientDosChecker::new(now),
            device_validator: None,
            ri_key: None,
        }
    }

    /// Forgets all peers and sessions.
    pub fn clear(&mut self)
        requires
            old(self).wf(),
        ensures
            final(self).wf(),
            final(self)@ == (DeviceView {
                sessions: SessionView::empty(),
                peers: Map::empty(),
                ..old(self)@
            }),
    {
        self.sessions.clear();
        self.pk_map = Assoc::new();
    }

    /// The hash of a pair of static keys, by which a peer is known.
    pub fn hash_static_keys(pk: &[u8; 32], pk_pq: &[u8]) -> (r: [u8; 32])
        ensures
            r@ == key_hash(pk@, pk_pq@),
    {
        hash2(pk, pk_pq)
    }

    /// How many peers there are.
    pub fn len(&self) -> (r: usize)
        requires
            self.wf(),
        ensures
            r == self@.peers.dom().len(),
            self@.peers.dom().finite(),
    {
        proof {
            self.pk_map.lemma_len();
        }
        self.pk_map.entries.len()
    }

    /// All peers: the hashes of their keys and what is associated with them.
    pub fn iter<'a>(&'a self) -> (r: Vec<(&'a [u8; 32], &'a O)>)
        requires
            self.wf(),
        ensures
            r@.len() == self@.peers.dom().len(),
            forall|i: int|
                0 <= i < r@.len() ==> self@.peers.contains_key(*(#[trigger] r@[i]).0)
                    && self@.peers[*r@[i].0].opaque == *r@[i].1,
            forall|i: int, j: int| 0 <= i < j < r@.len() ==> *r@[i].0 != *r@[j].0,
    {
        let mut out: Vec<(&'a [u8; 32], &'a O)> = Vec::new();
        let mut i: usize = 0;
        while i < self.pk_map.entries.len()
            invariant
                self.wf(),
                i <= self.pk_map.entries@.len(),
                out@.len() == i,
                forall|j: int|
                    0 <= j < i ==> *(#[trigger] out@[j]).0 == self.pk_map.entries@[j].0 && *out@[j].1
                        == self.pk_map.entries@[j].1.opaque,
            decreases self.pk_map.entries@.len() - i,
        {
            out.push((&self.pk_map.entries[i].0, &self.pk_map.entries[i].1.opaque));
            i += 1;
        }
        proof {
            self.pk_map.lemma_len();
            assert forall|j: int| 0 <= j < out@.len() implies self@.peers.contains_key(
                *(#[trigger] out@[j]).0,
            ) && self@.peers[*out@[j].0].opaque == *out@[j].1 by {
                self.pk_map.lemma_at(j);
            }
        }
        out
    }

    /// What is associated with a peer.
    pub fn get(&self, pk_hash: &[u8; 32]) -> (r: Option<&O>)
        requires
            self.wf(),
        ensures
            match r {
                Some(opaque) => self@.peers.contains_key(*pk_hash) && *opaque
                    == self@.peers[*pk_hash].opaque,
                None => !self@.peers.contains_key(*pk_hash),
            },
    {
        match self.pk_map.find(pk_hash) {
            Some(i) => Some(&self.pk_map.entries[i].1.opaque),
            None => None,
        }
    }

    pub fn contains_key(&self, pk_hash: &[u8; 32]) -> (r: bool)
        requires
            self.wf(),
        ensures
            r == self@.peers.contains_key(*pk_hash),
    {
        self.pk_map.find(pk_hash).is_some()
    }

    /// Uses the given rendezvous key, or none but those that the handshakes lead to.
    pub fn set_ri_key(&mut self, ri_key: Option<[u8; 8]>)
        requires
            old(self).wf(),
        ensures
            final(self).wf(),
            final(self)@ == (DeviceView { ri_key, ..old(self)@ }),
    {
        self.ri_key = ri_key;
    }

    pub fn get_ri_key(&self) -> (r: Option<[u8; 8]>)
        ensures
            r == self@.ri_key,
    {
        self.ri_key
    }

    /// Gives up a session, if there is one with this index.
    fn release_any(&mut self, id: u32)
        requires
            old(self).wf(),
        ensures
            final(self).wf(),
            final(self)@ == old(self)@.releasing(id),
    {
        self.gradient_dos_checker.release_half_open(id);
        self.sessions.free(id);
    }

    /// Is there a session with this index?
    pub fn is_allocated(&self, id: u32) -> (r: bool)
        ensures
            r == self@.sessions.peers.contains_key(id),
    {
        self.sessions.peer_of_index(id).is_some()
    }

    /// Gives up a session.
    pub fn release(&mut self, id: u32)
        requires
            old(self).wf(),
            old(self)@.sessions.peers.contains_key(id),
        ensures
            final(self).wf(),
            final(self)@ == old(self)@.releasing(id),
    {
        self.release_any(id);
    }

    /// Recomputes the Diffie-Hellman secrets of all peers and gives up their handshakes.
    /// Returns the indices of the sessions of those handshakes.
    fn update_ss(&mut self) -> (r: Vec<u32>)
        requires
            old(self).wf(),
        ensures
            final(self).wf(),
            final(self)@.is_rekeyed(old(self)@),
            final(self)@ == (DeviceView { peers: final(self)@.peers, ..old(self)@ }),
            forall|id: u32| r@.contains(id) <==> old(self)@.waits(id),
    {
        let mut ids: Vec<u32> = Vec::new();
        let mut i: usize = 0;
        let ghost start = self.pk_map.entries@;
        while i < self.pk_map.entries.len()
            invariant
                i <= self.pk_map.entries@.len(),
                self.pk_map.entries@.len() == start.len(),
                start == old(self).pk_map.entries@,
                *self == (Device { pk_map: self.pk_map, ..*old(self) }),
                old(self).wf(),
                forall|j: int| i <= j < start.len() ==> self.pk_map.entries@[j] == start[j],
                forall|j: int|
                    0 <= j < start.len() ==> (#[trigger] self.pk_map.entries@[j]).0 == start[j].0,
                forall|j: int|
                    0 <= j < i ==> {
                        let peer = (#[trigger] self.pk_map.entries@[j]).1;
                        &&& peer == (Peer { ss: peer.ss, state: State::Reset, ..start[j].1 })
                        &&& match self.keyst {
                            Some(keyst) => if keyst.pk_hash == start[j].0 {
                                peer.ss@ == zeros(32)
                            } else {
                                peer.ss@ == x25519(keyst.sk@, peer.pk@) && dh_agrees(
                                    peer.ss@,
                                    keyst.sk@,
                                    peer.pk@,
                                )
                            },
                            None => peer.ss@ == zeros(32),
                        }
                    },
                forall|id: u32| #[trigger]
                    ids@.contains(id) <==> exists|j: int|
                        0 <= j < i && (#[trigger] start[j]).1.state.local_id() == Some(id),
            decreases self.pk_map.entries@.len() - i,
        {
            let ghost before_ids = ids@;
            match &self.keyst {
                Some(key) => {
                    if same(&key.pk_hash, &self.pk_map.entries[i].0) {
                        assert(key.pk_hash =~= start[i as int].0);
                        clear(&mut self.pk_map.entries[i].1.ss);
                    } else {
                        let pk = self.pk_map.entries[i].1.pk;
                        self.pk_map.entries[i].1.ss = key.sk.agree(&pk);
                    }
                },
                None => {
                    clear(&mut self.pk_map.entries[i].1.ss);
                },
            }
            if let Some(id) = self.pk_map.entries[i].1.reset_state() {
                ids.push(id);
                assert(ids@[before_ids.len() as int] == id);
            }
            proof {
                assert forall|id: u32| #[trigger] ids@.contains(id) <==> exists|j: int|
                    0 <= j < i + 1 && (#[trigger] start[j]).1.state.local_id() == Some(id) by {
                    if ids@.contains(id) {
                        if before_ids.contains(id) {
                        } else {
                            assert(start[i as int].1.state.local_id() == Some(id));
                        }
                    }
                    if exists|j: int|
                        0 <= j < i + 1 && (#[trigger] start[j]).1.state.local_id() == Some(id) {
                        let j = choose|j: int|
                            0 <= j < i + 1 && (#[trigger] start[j]).1.state.local_id() == Some(id);
                        if j < i {
                            assert(before_ids.contains(id));
                            let n = choose|n: int| 0 <= n < before_ids.len() && before_ids[n] == id;
                            assert(ids@[n] == id);
                        }
                    }
                }
            }
            i += 1;
        }
        proof {
            self.lemma_rekeyed(*old(self));
            assert forall|id: u32| ids@.contains(id) <==> old(self)@.waits(id) by {
                if ids@.contains(id) {
                    let j = choose|j: int|
                        0 <= j < i && (#[trigger] start[j]).1.state.local_id() == Some(id);
                    old(self).pk_map.lemma_at(j);
                    assert(old(self)@.peers.contains_key(start[j].0));
                }
                if old(self)@.waits(id) {
                    let k = choose|k: [u8; 32]| #[trigger]
                        old(self)@.peers.contains_key(k) && old(self)@.peers[k].state.local_id()
                            == Some(id);
                    old(self).pk_map.lemma_key(k);
                    let j = old(self).pk_map.index_of(k);
                    assert(start[j].1.state.local_id() == Some(id));
                }
            }
        }
        ids
    }

    /// Changed entries are changed peers.
    proof fn lemma_rekeyed(self, before: Self)
        requires
            before.wf(),
            self == (Device { pk_map: self.pk_map, ..before }),
            self.pk_map.entries@.len() == before.pk_map.entries@.len(),
            forall|j: int|
                0 <= j < before.pk_map.entries@.len() ==> {
                    let peer = (#[trigger] self.pk_map.entries@[j]).1;
                    &&& self.pk_map.entries@[j].0 == before.pk_map.entries@[j].0
                    &&& peer == (Peer {
                        ss: peer.ss,
                        state: State::Reset,
                        ..before.pk_map.entries@[j].1
                    })
                    &&& match self.keyst {
                        Some(keyst) => if keyst.pk_hash == before.pk_map.entries@[j].0 {
                            peer.ss@ == zeros(32)
                        } else {
                            peer.ss@ == x25519(keyst.sk@, peer.pk@) && dh_agrees(
                                peer.ss@,
                                keyst.sk@,
                                peer.pk@,
                            )
                        },
                        None => peer.ss@ == zeros(32),
                    }
                },
        ensures
            self.wf(),
            self@.is_rekeyed(before@),
    {
        assert(self.pk_map.wf());
        assert forall|k: [u8; 32]| self@.peers.contains_key(k) <==> before@.peers.contains_key(k) by {
            if self@.peers.contains_key(k) {
                let j = self.pk_map.index_of(k);
                assert(before.pk_map.at(j, k));
            }
            if before@.peers.contains_key(k) {
                let j = before.pk_map.index_of(k);
                assert(self.pk_map.at(j, k));
            }
        }
        assert(self@.peers.dom() =~= before@.peers.dom());
        assert forall|k: [u8; 32]| #[trigger] self@.peers.contains_key(k) implies {
            let peer = self@.peers[k];
            &&& peer == (Peer { ss: peer.ss, state: State::Reset, ..before@.peers[k] })
            &&& match self@.keys {
                Some(keyst) => if keyst.pk_hash == k {
                    peer.ss@ == zeros(32)
                } else {
                    peer.ss@ == x25519(keyst.sk@, peer.pk@) && dh_agrees(
                        peer.ss@,
                        keyst.sk@,
                        peer.pk@,
                    )
                },
                None => peer.ss@ == zeros(32),
            }
        } by {
            self.pk_map.lemma_key(k);
            let j = self.pk_map.index_of(k);
            before.pk_map.lemma_at(j);
            assert(self.pk_map.entries@[j].0 == before.pk_map.entries@[j].0);
        }
        assert forall|k: [u8; 32]| #[trigger] self.pk_map@.contains_key(k) implies self.pk_map@[k].pk_hash
            == k by {
            assert(self@.peers.contains_key(k));
            assert(before.pk_map@.contains_key(k));
        }
    }
}

/// Is it the validator of a device with these keys?
pub open spec fn is_device_validator(v: Validator, keyst: KeyState) -> bool {
    &&& v.mac1_key@ == blake2s(LABEL_MAC1@ + zeros(32))
    &&& v.cookie_key@ == blake2s(LABEL_COOKIE@ + keyst.pk_hash@)
    &&& v.root == keyst.cookie_root_secret
    &&& v.secret@ == zeros(32)
    &&& v.birth is None
}

impl<O> DeviceView<O> {
    /// The device without a peer that has the keys of the device itself.
    pub open spec fn without_self(self) -> Self {
        match self.keys {
            Some(keyst) => DeviceView { peers: self.peers.remove(keyst.pk_hash), ..self },
            None => self,
        }
    }

    /// Is it what a device with keys makes of a new peer?
    pub open spec fn is_added(self, pk: [u8; 32], pk_pq: Seq<u8>, opaque: O, peer: Peer<O>) -> bool {
        let keyst = self.keys->0;
        &&& peer.is_new(keyst.pk@, keyst.pk_pq@, keyst.cookie_root_secret@)
        &&& peer.pk == pk
        &&& peer.pk_pq@ == pk_pq
        &&& peer.ss@ == x25519(keyst.sk@, pk@)
        &&& dh_agrees(peer.ss@, keyst.sk@, pk@)
        &&& peer.opaque == opaque
    }

    /// Does the device follow from another one by a change of keys? All Diffie-Hellman
    /// secrets belong to the new keys, all handshakes and their sessions are given up, and
    /// a peer with the keys of the device itself is gone.
    pub open spec fn follows_key_change(self, before: Self, rekeyed: Self, ids: Seq<u32>) -> bool {
        &&& rekeyed.is_rekeyed(
            DeviceView { keys: self.keys, validator: self.validator, ..before },
        )
        &&& rekeyed == (DeviceView {
            keys: self.keys,
            validator: self.validator,
            peers: rekeyed.peers,
            ..before
        })
        &&& forall|id: u32| ids.contains(id) <==> before.waits(id)
        &&& self == rekeyed.releasing_all(ids).without_self()
    }
}

impl<O> Device<O> {
    /// Uses other static keys from now on, or none.
    pub fn set_sk(&mut self, sk: Option<(StaticSecret, Vec<u8>, Vec<u8>)>)
        requires
            old(self).wf(),
        ensures
            final(self).wf(),
            match sk {
                Some((scalar, sk_pq, pk_pq)) => final(self)@.keys matches Some(keyst)
                    && keyst.wf() && keyst.sk == scalar && keyst.sk_pq == sk_pq && keyst.pk_pq
                    == pk_pq && is_device_validator(final(self)@.validator->0, keyst),
                None => final(self)@.keys is None,
            },
            exists|rekeyed: DeviceView<O>, ids: Seq<u32>| #[trigger]
                final(self)@.follows_key_change(old(self)@, rekeyed, ids),
    {
        self.keyst = match sk {
            Some((scalar, sk_pq, pk_pq)) => Some(KeyState::new(scalar, sk_pq, pk_pq)),
            None => None,
        };
        self.device_validator = match &self.keyst {
            Some(keyst) => Some(Validator::new_device(&keyst.pk_hash, &keyst.cookie_root_secret)),
            None => None,
        };
        let ghost keyed = *self;
        let ids = self.update_ss();
        let ghost rekeyed = *self;
        let mut i: usize = 0;
        assert(rekeyed@.releasing_all(ids@.take(0)) == rekeyed@);
        while i < ids.len()
            invariant
                i <= ids@.len(),
                self.wf(),
                self@ == rekeyed@.releasing_all(ids@.take(i as int)),
                self.keyst == keyed.keyst,
            decreases ids@.len() - i,
        {
            assert(ids@.take(i + 1).drop_last() =~= ids@.take(i as int));
            let ghost before = *self;
            self.release_any(ids[i]);
            assert(self@.keys == before@.keys);
            i += 1;
        }
        assert(ids@.take(i as int) =~= ids@);
        let ghost released = *self;
        match &self.keyst {
            Some(keyst) => {
                let _ = self.pk_map.remove(&keyst.pk_hash);
            },
            None => {},
        }
        proof {
            assert forall|id: u32| ids@.contains(id) <==> old(self)@.waits(id) by {
                assert(keyed@.waits(id) <==> old(self)@.waits(id)) by {
                    assert(keyed@.peers == old(self)@.peers);
                    if keyed@.waits(id) {
                        let k = choose|k: [u8; 32]| #[trigger]
                            keyed@.peers.contains_key(k) && keyed@.peers[k].state.local_id()
                                == Some(id);
                        assert(old(self)@.peers.contains_key(k));
                    }
                    if old(self)@.waits(id) {
                        let k = choose|k: [u8; 32]| #[trigger]
                            old(self)@.peers.contains_key(k) && old(
                                self,
                            )@.peers[k].state.local_id() == Some(id);
                        assert(keyed@.peers.contains_key(k));
                    }
                }
            }
            lemma_releasing_all_keys(rekeyed@, ids@);
            assert(self@.follows_key_change(old(self)@, rekeyed@, ids@));
        }
    }

    /// The static keys of the device: the scalar and both key encapsulation keys.
    pub fn get_sk(&self) -> (r: Option<(&StaticSecret, &Vec<u8>, &Vec<u8>)>)
        ensures
            match self@.keys {
                Some(keyst) => r == Some((&keyst.sk, &keyst.sk_pq, &keyst.pk_pq)),
                None => r is None,
            },
    {
        match &self.keyst {
            Some(keyst) => Some((&keyst.sk, &keyst.sk_pq, &keyst.pk_pq)),
            None => None,
        }
    }

    /// Why a peer cannot be added.
    pub open spec fn add_failure(device: DeviceView<O>, pk_hash: Seq<u8>) -> Option<Seq<char>> {
        if device.peers.dom().len() >= MAX_PEER_PER_DEVICE {
            Some("Too many peers for device"@)
        } else {
            match device.keys {
                Some(keyst) => if keyst.pk_hash@ == pk_hash {
                    Some("Public key of peer matches the device"@)
                } else {
                    None
                },
                None => Some("Device key not set"@),
            }
        }
    }

    /// Adds a peer with the given static keys. A peer with the same keys is replaced.
    pub fn add(&mut self, pk: &[u8; 32], pk_pq: &[u8], opaque: O) -> (r: Result<(), ConfigError>)
        requires
            old(self).wf(),
        ensures
            final(self).wf(),
            match r {
                Ok(_) => Self::add_failure(old(self)@, key_hash(pk@, pk_pq@)) is None && exists|
                    peer: Peer<O>,
                |
                    #[trigger]
                    old(self)@.is_added(*pk, pk_pq@, opaque, peer) && final(self)@ == old(
                        self,
                    )@.with_peer(peer.pk_hash, peer),
                Err(e) => Self::add_failure(old(self)@, key_hash(pk@, pk_pq@)) == Some(e@)
                    && final(self)@ == old(self)@,
            },
    {
        if self.len() >= MAX_PEER_PER_DEVICE {
            return Err(ConfigError::new("Too many peers for device"));
        }
        let pk_hash = Self::hash_static_keys(pk, pk_pq);
        match &self.keyst {
            Some(keyst) => {
                if same(&pk_hash, &keyst.pk_hash) {
                    return Err(ConfigError::new("Public key of peer matches the device"));
                }
                let mut owned: Vec<u8> = Vec::new();
                owned.extend_from_slice(pk_pq);
                assert(owned@ =~= pk_pq@);
                let peer = Peer::new(
                    *pk,
                    owned,
                    &keyst.pk,
                    &keyst.pk_pq,
                    &keyst.cookie_root_secret,
                    keyst.sk.agree(pk),
                    opaque,
                );
                assert(peer.pk_hash =~= pk_hash);
                assert(old(self)@.is_added(*pk, pk_pq@, opaque, peer));
                let _ = self.pk_map.insert(pk_hash, peer);
                Ok(())
            },
            None => Err(ConfigError::new("Device key not set")),
        }
    }

    /// Removes a peer and its sessions.
    pub fn remove(&mut self, pk_hash: &[u8; 32]) -> (r: Result<(), ConfigError>)
        requires
            old(self).wf(),
        ensures
            final(self).wf(),
            match r {
                Ok(_) => old(self)@.peers.contains_key(*pk_hash) && final(self)@ == (DeviceView {
                    peers: old(self)@.peers.remove(*pk_hash),
                    sessions: old(self)@.sessions.without_peer(*pk_hash),
                    ..old(self)@
                }),
                Err(e) => !old(self)@.peers.contains_key(*pk_hash) && e@
                    == "Public key not in device"@ && final(self)@ == old(self)@,
            },
    {
        match self.pk_map.remove(pk_hash) {
            Some(_) => {
                self.sessions.remove_peer(pk_hash);
                Ok(())
            },
            None => {
                assert(self@.peers =~= old(self)@.peers);
                Err(ConfigError::new("Public key not in device"))
            },
        }
    }

    /// A changed entry is a changed peer.
    proof fn lemma_peer_changed(self, before: Self, i: int, pk_hash: [u8; 32])
        requires
            before.wf(),
            before.pk_map.at(i, pk_hash),
            self.pk_map.entries@.len() == before.pk_map.entries@.len(),
            self.pk_map.entries@[i].0 == pk_hash,
            self.pk_map.entries@[i].1.pk_hash == before.pk_map.entries@[i].1.pk_hash,
            forall|j: int|
                0 <= j < before.pk_map.entries@.len() && j != i ==> self.pk_map.entries@[j]
                    == before.pk_map.entries@[j],
        ensures
            self.pk_map.wf(),
            self.pk_map@ == before.pk_map@.insert(pk_hash, self.pk_map.entries@[i].1),
            forall|k: [u8; 32]| #[trigger]
                self.pk_map@.contains_key(k) ==> self.pk_map@[k].pk_hash == k,
    {
        self.pk_map.lemma_update(before.pk_map, i);
        before.pk_map.lemma_at(i);
        assert(before.pk_map@.contains_key(pk_hash));
    }

    /// Uses another pre-shared key with a peer.
    pub fn set_psk(&mut self, pk_hash: &[u8; 32], psk: Psk) -> (r: Result<(), ConfigError>)
        requires
            old(self).wf(),
        ensures
            final(self).wf(),
            match r {
                Ok(_) => {
                    let after = final(self)@.peers[*pk_hash];
                    &&& old(self)@.peers.contains_key(*pk_hash)
                    &&& is_given_psk(old(self)@.peers[*pk_hash], after, psk)
                    &&& final(self)@ == old(self)@.with_peer(*pk_hash, after)
                },
                Err(e) => !old(self)@.peers.contains_key(*pk_hash) && e@ == "No such public key"@
                    && final(self)@ == old(self)@,
            },
    {
        match self.pk_map.find(pk_hash) {
            Some(i) => {
                self.pk_map.entries[i].1.set_psk(psk);
                proof {
                    self.lemma_peer_changed(*old(self), i as int, *pk_hash);
                }
                Ok(())
            },
            None => Err(ConfigError::new("No such public key")),
        }
    }

    /// The pre-shared key of a peer.
    pub fn get_psk(&self, pk_hash: &[u8; 32]) -> (r: Result<Psk, ConfigError>)
        requires
            self.wf(),
        ensures
            match r {
                Ok(psk) => self@.peers.contains_key(*pk_hash) && psk == self@.peers[*pk_hash].psk,
                Err(e) => !self@.peers.contains_key(*pk_hash) && e@ == "No such public key"@,
            },
    {
        match self.pk_map.find(pk_hash) {
            Some(i) => Ok(self.pk_map.entries[i].1.psk),
            None => Err(ConfigError::new("No such public key")),
        }
    }

    /// Forgets the ratchet key of a peer. The next handshake with it is a recovery.
    pub fn forget_remote_ratchet(&mut self, pk_hash: &[u8; 32]) -> (r: Result<(), ConfigError>)
        requires
            old(self).wf(),
        ensures
            final(self).wf(),
            match r {
                Ok(_) => {
                    &&& old(self)@.peers.contains_key(*pk_hash)
                    &&& final(self)@ == old(self)@.with_peer(
                        *pk_hash,
                        forgetting(old(self)@.peers[*pk_hash]),
                    )
                },
                Err(e) => !old(self)@.peers.contains_key(*pk_hash) && e@ == "No such public key"@
                    && final(self)@ == old(self)@,
            },
    {
        match self.pk_map.find(pk_hash) {
            Some(i) => {
                self.pk_map.entries[i].1.ratchet.remote_pub = None;
                self.pk_map.entries[i].1.ratchet.remote_kid = None;
                proof {
                    self.lemma_peer_changed(*old(self), i as int, *pk_hash);
                }
                Ok(())
            },
            None => Err(ConfigError::new("No such public key")),
        }
    }
}

/// Is it the peer after it was given another pre-shared key?
pub open spec fn is_given_psk<O>(before: Peer<O>, after: Peer<O>, psk: Psk) -> bool {
    &&& after.psk == psk
    &&& after.macs.mac1_key@ == blake2s(LABEL_MAC1@ + psk@)
    &&& after.macs_validator.mac1_key@ == blake2s(LABEL_MAC1@ + psk@)
    &&& after.ratchet.is_fresh(before.own_pk_hash@, before.pk_hash@, psk@)
    &&& after == (Peer {
        psk,
        macs: Generator { mac1_key: after.macs.mac1_key, ..before.macs },
        macs_validator: Validator {
            mac1_key: after.macs_validator.mac1_key,
            ..before.macs_validator
        },
        ratchet: after.ratchet,
        ..before
    })
}

/// The peer after its ratchet key was forgotten.
pub open spec fn forgetting<O>(peer: Peer<O>) -> Peer<O> {
    Peer {
        ratchet: RatchetState { remote_pub: None, remote_kid: None, ..peer.ratchet },
        ..peer
    }
}

/// Giving up sessions leaves everything else as it is.
pub proof fn lemma_releasing_all_keys<O>(device: DeviceView<O>, ids: Seq<u32>)
    ensures
        device.releasing_all(ids) == (DeviceView {
            sessions: device.releasing_all(ids).sessions,
            dos: device.releasing_all(ids).dos,
            ..device
        }),
    decreases ids.len(),
{
    if ids.len() > 0 {
        lemma_releasing_all_keys(device, ids.drop_last());
    }
}

} // verus!
