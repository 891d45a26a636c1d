//! What a device keeps about a peer.

use crate::binding::{lemma_hash, lemma_joined, told_apart};
use crate::bytes::zeros;
use crate::crypto::{blake2s, clear, hash2, hash4, StaticSecret};
use crate::hybrid_v23::messages::SessionId;
use crate::hybrid_v23::ratchet::RatchetState;
use crate::macs::{elapsed, elapsed_spec, Generator, Validator, LABEL_COOKIE, LABEL_MAC1};
use crate::types::{HandshakeError, Psk};
use vstd::prelude::*;

verus! {

/// How far apart two initiations of a peer must be, in nanoseconds.
pub const TIME_BETWEEN_INITIATIONS: u64 = 20_000_000;

/// Where a handshake that this side has started stands.
pub enum State {
    Reset,
    InitiationSent {
        local: u32,
        local_sid: SessionId,
        mode: u32,
        epoch: u64,
        eph_sk: StaticSecret,
        eph_sk_pq: [u8; 1632],
        eph_pk_pq: [u8; 800],
        rk: [u8; 32],
        k_ri: [u8; 32],
        ss_r: [u8; 32],
        hs: [u8; 32],
        ck: [u8; 32],
    },
}

impl State {
    /// The index of the session that waits for a response.
    pub open spec fn local_id(self) -> Option<u32> {
        match self {
            State::InitiationSent { local, .. } => Some(local),
            State::Reset => None,
        }
    }

    /// Goes back to the start, overwrites the keys and returns the index of the session
    /// that waited for a response.
    pub fn reset(&mut self) -> (r: Option<u32>)
        ensures
            r == old(self).local_id(),
            *final(self) is Reset,
    {
        let mut taken = State::Reset;
        std::mem::swap(self, &mut taken);
        match taken {
            State::InitiationSent {
                local,
                mut hs,
                mut ck,
                mut rk,
                mut k_ri,
                mut ss_r,
                ..
            } => {
                clear(&mut hs);
                clear(&mut ck);
                clear(&mut rk);
                clear(&mut k_ri);
                clear(&mut ss_r);
                Some(local)
            },
            State::Reset => None,
        }
    }
}

/// What a device keeps about a peer.
pub struct Peer<O> {
    /// What the owner of the device associates with the peer.
    pub opaque: O,
    pub state: State,
    pub last_initiation_consumption: Option<u64>,
    pub macs: Generator,
    pub macs_validator: Validator,
    /// Diffie-Hellman of the two static keys.
    pub ss: [u8; 32],
    pub psk: Psk,
    pub pk: [u8; 32],
    pub pk_pq: Vec<u8>,
    pub pk_hash: [u8; 32],
    pub own_pk_hash: [u8; 32],
    pub hash_static_pq_send: [u8; 32],
    pub hash_static_pq_recv: [u8; 32],
    pub h_id_send: [u8; 32],
    pub h_id_recv: [u8; 32],
    pub ratchet: RatchetState,
    /// The counter of the last initiation sent.
    pub k_send: u128,
    /// The counter of the last initiation accepted.
    pub k_recv: u128,
}

/// The hash of a pair of static keys, by which a peer is known.
pub open spec fn key_hash(pk: Seq<u8>, pk_pq: Seq<u8>) -> Seq<u8> {
    blake2s(pk + pk_pq)
}

impl<O> Peer<O> {
    /// Do the identity hashes of the peer belong to its keys and to those of the device?
    pub open spec fn identifies(self, own_pk: Seq<u8>, own_pk_pq: Seq<u8>) -> bool {
        &&& self.pk_hash@ == key_hash(self.pk@, self.pk_pq@)
        &&& self.own_pk_hash@ == key_hash(own_pk, own_pk_pq)
        &&& self.hash_static_pq_send@ == blake2s(own_pk_pq + self.pk_pq@)
        &&& self.hash_static_pq_recv@ == blake2s(self.pk_pq@ + own_pk_pq)
        &&& self.h_id_send@ == blake2s(own_pk + own_pk_pq + self.pk@ + self.pk_pq@)
        &&& self.h_id_recv@ == blake2s(self.pk@ + self.pk_pq@ + own_pk + own_pk_pq)
    }

    /// A peer that was just added, without a pre-shared key.
    pub open spec fn is_new(self, own_pk: Seq<u8>, own_pk_pq: Seq<u8>, root: Seq<u8>) -> bool {
        &&& self.identifies(own_pk, own_pk_pq)
        &&& self.state is Reset
        &&& self.last_initiation_consumption is None
        &&& self.macs.mac1_key@ == blake2s(LABEL_MAC1@ + zeros(32))
        &&& self.macs.cookie_key@ == blake2s(LABEL_COOKIE@ + self.pk_hash@)
        &&& self.macs.last_mac1 is None
        &&& self.macs.cookie is None
        &&& self.macs_validator.mac1_key@ == blake2s(LABEL_MAC1@ + zeros(32))
        &&& self.macs_validator.cookie_key@ == blake2s(LABEL_COOKIE@ + self.own_pk_hash@)
        &&& self.macs_validator.root@ == root
        &&& self.macs_validator.secret@ == zeros(32)
        &&& self.macs_validator.birth is None
        &&& self.psk@ == zeros(32)
        &&& self.ratchet.is_fresh(self.own_pk_hash@, self.pk_hash@, self.psk@)
        &&& self.k_send == 0
        &&& self.k_recv == 0
    }

    /// A new peer with the given static keys. `ss` is the Diffie-Hellman secret of the
    /// device's and the peer's static keys.
    pub fn new(
        pk: [u8; 32],
        pk_pq: Vec<u8>,
        own_pk: &[u8; 32],
        own_pk_pq: &[u8],
        own_cookie_root_secret: &[u8; 32],
        ss: [u8; 32],
        opaque: O,
    ) -> (r: Self)
        ensures
            r.pk == pk,
            r.pk_pq == pk_pq,
            r.ss == ss,
            r.opaque == opaque,
            r.is_new(own_pk@, own_pk_pq@, own_cookie_root_secret@),
    {
        let peer_pk_hash = hash2(&pk, &pk_pq);
        let own_pk_hash = hash2(own_pk, own_pk_pq);
        let zero_psk: Psk = [0u8; 32];
        assert(zero_psk@ =~= zeros(32));
        let hash_static_pq_send = hash2(own_pk_pq, &pk_pq);
        let hash_static_pq_recv = hash2(&pk_pq, own_pk_pq);
        let h_id_send = hash4(own_pk, own_pk_pq, &pk, &pk_pq);
        let h_id_recv = hash4(&pk, &pk_pq, own_pk, own_pk_pq);
        Peer {
            opaque,
            macs: Generator::new(&zero_psk, &peer_pk_hash),
            macs_validator: Validator::new(&zero_psk, &own_pk_hash, own_cookie_root_secret),
            state: State::Reset,
            last_initiation_consumption: None,
            ss,
            hash_static_pq_send,
            hash_static_pq_recv,
            h_id_send,
            h_id_recv,
            ratchet: RatchetState::new(&own_pk_hash, &peer_pk_hash, &zero_psk),
            psk: zero_psk,
            pk_hash: peer_pk_hash,
            own_pk_hash,
            pk,
            pk_pq,
            k_send: 0,
            k_recv: 0,
        }
    }

    /// Uses another pre-shared key from now on. The ratchet starts over.
    pub fn set_psk(&mut self, psk: Psk)
        ensures
            final(self).psk == psk,
            final(self).macs.mac1_key@ == blake2s(LABEL_MAC1@ + psk@),
            final(self).macs_validator.mac1_key@ == blake2s(LABEL_MAC1@ + psk@),
            final(self).ratchet.is_fresh(old(self).own_pk_hash@, old(self).pk_hash@, psk@),
            *final(self) == (Peer {
                psk,
                macs: Generator { mac1_key: final(self).macs.mac1_key, ..old(self).macs },
                macs_validator: Validator {
                    mac1_key: final(self).macs_validator.mac1_key,
                    ..old(self).macs_validator
                },
                ratchet: final(self).ratchet,
                ..*old(self)
            }),
    {
        self.macs.set_mac1_key(&psk);
        self.macs_validator.set_mac1_key(&psk);
        self.psk = psk;
        self.ratchet.reset(&self.own_pk_hash, &self.pk_hash, &self.psk);
    }

    /// Gives up a handshake that this side has started. The index of its session is
    /// returned.
    pub fn reset_state(&mut self) -> (r: Option<u32>)
        ensures
            r == old(self).state.local_id(),
            *final(self) == (Peer { state: State::Reset, ..*old(self) }),
    {
        self.state.reset()
    }

    /// Is an initiation with counter `k` to be accepted at the time `now`? The counter must
    /// be above the last accepted one, and the last accepted one must be long enough ago.
    pub open spec fn replay_verdict(self, k: u128, now: u64) -> Result<(), HandshakeError> {
        if k <= self.k_recv {
            Err(HandshakeError::OldTimestamp)
        } else if self.last_initiation_consumption matches Some(last) && elapsed_spec(last, now)
            < TIME_BETWEEN_INITIATIONS {
            Err(HandshakeError::InitiationFlood)
        } else {
            Ok(())
        }
    }

    /// The peer after an initiation with counter `k` was accepted.
    pub open spec fn after_initiation(self, k: u128, now: u64) -> Self {
        Peer {
            state: State::Reset,
            k_recv: k,
            last_initiation_consumption: Some(now),
            ..self
        }
    }

    /// Accepts an initiation with counter `k` or refuses it. An accepted initiation ends a
    /// handshake that this side has started; the index of its session is returned.
    pub fn check_replay_flood(&mut self, k_received: u128, now: u64) -> (r: Result<
        Option<u32>,
        HandshakeError,
    >)
        ensures
            match old(self).replay_verdict(k_received, now) {
                Ok(_) => r == Ok::<Option<u32>, HandshakeError>(old(self).state.local_id())
                    && *final(self) == old(self).after_initiation(k_received, now),
                Err(e) => r == Err::<Option<u32>, HandshakeError>(e) && *final(self) == *old(self),
            },
    {
        if k_received <= self.k_recv {
            return Err(HandshakeError::OldTimestamp);
        }
        if let Some(last) = self.last_initiation_consumption {
            if elapsed(last, now) < TIME_BETWEEN_INITIATIONS {
                return Err(HandshakeError::InitiationFlood);
            }
        }
        let local = self.state.reset();
        self.k_recv = k_received;
        self.last_initiation_consumption = Some(now);
        Ok(local)
    }
}

/// No counter is accepted twice: once `k` was accepted, neither it nor a smaller one is.
pub proof fn law_counter_accepted_once<O>(peer: Peer<O>, k: u128, now: u64, later: Peer<O>, k2: u128, now2: u64)
    requires
        peer.replay_verdict(k, now) is Ok,
        later.k_recv >= peer.after_initiation(k, now).k_recv,
        k2 <= k,
    ensures
        later.replay_verdict(k2, now2) == Err::<(), HandshakeError>(HandshakeError::OldTimestamp),
{
}

/// An initiation is taken up if and only if its counter is larger than all before it, and the
/// last one was taken up 20 ms ago or more. What was refused leaves no trace; what was taken up
/// sets the counter and the time, and ends the handshake that the device itself had begun.
pub proof fn law_initiations_come_one_by_one<O>(peer: Peer<O>, k: u128, now: u64, later: u64)
    ensures
        k <= peer.k_recv ==> peer.replay_verdict(k, now) == Err::<(), HandshakeError>(
            HandshakeError::OldTimestamp,
        ),
        k > peer.k_recv && peer.last_initiation_consumption is None ==> peer.replay_verdict(
            k,
            now,
        ) is Ok,
        ({
            let after = peer.after_initiation(k, now);
            &&& after.k_recv == k
            &&& after.k_send == peer.k_send
            &&& after.state is Reset
            &&& after.psk == peer.psk
            &&& after.replay_verdict(k, later) == Err::<(), HandshakeError>(
                HandshakeError::OldTimestamp,
            )
            &&& k < u128::MAX ==> (after.replay_verdict((k + 1) as u128, later) is Ok <==> later
                >= now + 20_000_000)
            &&& k < u128::MAX && later < now + 20_000_000 ==> after.replay_verdict(
                (k + 1) as u128,
                later,
            ) == Err::<(), HandshakeError>(HandshakeError::InitiationFlood)
        }),
{
}

/// The hash that names a peer binds both of its public keys.
pub proof fn law_names_bind_the_keys(
    met: Set<Seq<u8>>,
    pk: Seq<u8>,
    pk_pq: Seq<u8>,
    other: Seq<u8>,
    other_pq: Seq<u8>,
)
    requires
        told_apart(met),
        pk.len() == other.len(),
        met.contains(pk + pk_pq),
        met.contains(other + other_pq),
        key_hash(pk, pk_pq) == key_hash(other, other_pq),
    ensures
        pk == other,
        pk_pq == other_pq,
{
    lemma_hash(met, pk + pk_pq, other + other_pq);
    lemma_joined(pk, pk_pq, other, other_pq);
}

/// The hash of the identities binds the keys of both sides and which side is which: two
/// devices with the same one have the same keys, and look at the same peer.
pub proof fn law_identities_bind_both_sides<O>(
    met: Set<Seq<u8>>,
    peer: Peer<O>,
    own_pk: Seq<u8>,
    own_pk_pq: Seq<u8>,
    other: Peer<O>,
    other_pk: Seq<u8>,
    other_pk_pq: Seq<u8>,
)
    requires
        told_apart(met),
        peer.identifies(own_pk, own_pk_pq),
        other.identifies(other_pk, other_pk_pq),
        own_pk.len() == 32,
        other_pk.len() == 32,
        own_pk_pq.len() == peer.pk_pq@.len(),
        other_pk_pq.len() == own_pk_pq.len(),
        other.pk_pq@.len() == own_pk_pq.len(),
        met.contains(own_pk + own_pk_pq + peer.pk@ + peer.pk_pq@),
        met.contains(other_pk + other_pk_pq + other.pk@ + other.pk_pq@),
        met.contains(peer.pk@ + peer.pk_pq@ + own_pk + own_pk_pq),
        met.contains(other.pk@ + other.pk_pq@ + other_pk + other_pk_pq),
        met.contains(own_pk_pq + peer.pk_pq@),
        met.contains(other_pk_pq + other.pk_pq@),
        met.contains(peer.pk_pq@ + own_pk_pq),
        met.contains(other.pk_pq@ + other_pk_pq),
    ensures
        peer.h_id_send@ == other.h_id_send@ ==> own_pk == other_pk && own_pk_pq == other_pk_pq
            && peer.pk@ == other.pk@ && peer.pk_pq@ == other.pk_pq@,
        peer.h_id_recv@ == other.h_id_recv@ ==> own_pk == other_pk && own_pk_pq == other_pk_pq
            && peer.pk@ == other.pk@ && peer.pk_pq@ == other.pk_pq@,
        peer.h_id_send@ == other.h_id_recv@ ==> own_pk == other.pk@ && own_pk_pq == other.pk_pq@
            && peer.pk@ == other_pk && peer.pk_pq@ == other_pk_pq,
        peer.hash_static_pq_send@ == other.hash_static_pq_send@ ==> own_pk_pq == other_pk_pq
            && peer.pk_pq@ == other.pk_pq@,
        peer.hash_static_pq_send@ == other.hash_static_pq_recv@ ==> own_pk_pq == other.pk_pq@
            && peer.pk_pq@ == other_pk_pq,
{
    let (p, q) = (peer.pk_pq@, other.pk_pq@);
    if peer.h_id_send@ == other.h_id_send@ {
        lemma_four(met, own_pk, own_pk_pq, peer.pk@, p, other_pk, other_pk_pq, other.pk@, q);
    }
    if peer.h_id_recv@ == other.h_id_recv@ {
        lemma_four(met, peer.pk@, p, own_pk, own_pk_pq, other.pk@, q, other_pk, other_pk_pq);
    }
    if peer.h_id_send@ == other.h_id_recv@ {
        lemma_four(met, own_pk, own_pk_pq, peer.pk@, p, other.pk@, q, other_pk, other_pk_pq);
    }
    if peer.hash_static_pq_send@ == other.hash_static_pq_send@ {
        lemma_hash(met, own_pk_pq + p, other_pk_pq + q);
        lemma_joined(own_pk_pq, p, other_pk_pq, q);
    }
    if peer.hash_static_pq_send@ == other.hash_static_pq_recv@ {
        lemma_hash(met, own_pk_pq + p, q + other_pk_pq);
        lemma_joined(own_pk_pq, p, q, other_pk_pq);
    }
}

proof fn lemma_four(
    met: Set<Seq<u8>>,
    a: Seq<u8>,
    b: Seq<u8>,
    c: Seq<u8>,
    d: Seq<u8>,
    e: Seq<u8>,
    f: Seq<u8>,
    g: Seq<u8>,
    h: Seq<u8>,
)
    requires
        told_apart(met),
        met.contains(a + b + c + d),
        met.contains(e + f + g + h),
        a.len() == e.len(),
        b.len() == f.len(),
        c.len() == g.len(),
        blake2s(a + b + c + d) == blake2s(e + f + g + h),
    ensures
        a == e,
        b == f,
        c == g,
        d == h,
{
    lemma_hash(met, a + b + c + d, e + f + g + h);
    lemma_joined(a + b + c, d, e + f + g, h);
    lemma_joined(a + b, c, e + f, g);
    lemma_joined(a, b, e, f);
}

} // verus!
