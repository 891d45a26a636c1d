//! What a device keeps about a peer.

use crate::binding::{lemma_hash, lemma_joined, told_apart};
use crate::bytes::zeros;
use crate::crypto::{blake2s, clear, hash1, hash2};
use crate::hybrid_v1::peer::{is_new_generator, is_new_validator, new_validator};
use crate::macs::{elapsed, elapsed_spec, Generator, Validator};
use crate::types::{HandshakeError, Psk};
use vstd::prelude::*;

verus! {

/// How far apart two initiations of a peer must be, in nanoseconds.
pub const TIME_BETWEEN_INITIATIONS: u64 = 20_000_000;

/// Where a handshake that this side has started stands.
pub enum State {
    Reset,
    InitiationSent {
        local: u32,
        eph_sk_pq: [u8; 1632],
        hs: [u8; 32],
        ck: [u8; 32],
    },
}

impl State {
    /// The index of the session that waits for a response.
    pub open spec fn local_id(self) -> Option<u32> {
        match self {
            State::InitiationSent { local, .. } => Some(local),
            State::Reset => None,
        }
    }

    /// Goes back to the start, overwrites the keys and returns the index of the session
    /// that waited for a response.
    pub fn reset(&mut self) -> (r: Option<u32>)
        ensures
            r == old(self).local_id(),
            *final(self) is Reset,
    {
        let mut taken = State::Reset;
        std::mem::swap(self, &mut taken);
        match taken {
            State::InitiationSent { local, mut hs, mut ck, .. } => {
                clear(&mut hs);
                clear(&mut ck);
                Some(local)
            },
            State::Reset => None,
        }
    }
}

/// What a device keeps about a peer.
pub struct Peer<O> {
    /// What the owner of the device associates with the peer.
    pub opaque: O,
    pub state: State,
    pub last_initiation_consumption: Option<u64>,
    pub macs: Generator,
    pub macs_validator: Validator,
    pub psk: Psk,
    pub pk_pq: Vec<u8>,
    pub pk_hash: [u8; 32],
    pub hash_static_pq_send: [u8; 32],
    pub hash_static_pq_recv: [u8; 32],
    /// The counter of the last initiation sent.
    pub k_send: u128,
    /// The counter of the last initiation accepted.
    pub k_recv: u128,
}

impl<O> Peer<O> {
    /// Do the identity hashes of the peer belong to its keys and to those of the device?
    pub open spec fn identifies(self, own_pk_pq: Seq<u8>) -> bool {
        &&& self.pk_hash@ == blake2s(self.pk_pq@)
        &&& self.hash_static_pq_send@ == blake2s(own_pk_pq + self.pk_pq@)
        &&& self.hash_static_pq_recv@ == blake2s(self.pk_pq@ + own_pk_pq)
    }

    /// A peer that was just added, without a pre-shared key.
    pub open spec fn is_new(self, own_pk_pq: Seq<u8>) -> bool {
        &&& self.identifies(own_pk_pq)
        &&& self.state is Reset
        &&& self.last_initiation_consumption is None
        &&& is_new_generator(self.macs, zeros(32))
        &&& is_new_validator(self.macs_validator, zeros(32))
        &&& self.psk@ == zeros(32)
        &&& self.k_send == 0
        &&& self.k_recv == 0
    }

    /// A new peer with the given static key, for a device with the static key `own_pk_pq`.
    pub fn new(pk_pq: Vec<u8>, own_pk_pq: &[u8], opaque: O) -> (r: Self)
        ensures
            r.pk_pq == pk_pq,
            r.opaque == opaque,
            r.is_new(own_pk_pq@),
    {
        let pk_hash = hash1(&pk_pq);
        let zero_psk: Psk = [0u8; 32];
        assert(zero_psk@ =~= zeros(32));
        let hash_static_pq_send = hash2(own_pk_pq, &pk_pq);
        let hash_static_pq_recv = hash2(&pk_pq, own_pk_pq);
        Peer {
            opaque,
            macs: Generator::new(&zero_psk, &zero_psk),
            macs_validator: new_validator(&zero_psk),
            state: State::Reset,
            last_initiation_consumption: None,
            hash_static_pq_send,
            hash_static_pq_recv,
            psk: zero_psk,
            pk_hash,
            pk_pq,
            k_send: 0,
            k_recv: 0,
        }
    }

    /// Uses another pre-shared key from now on. Cookies are forgotten.
    pub fn set_psk(&mut self, psk: Psk)
        ensures
            is_new_generator(final(self).macs, psk@),
            is_new_validator(final(self).macs_validator, psk@),
            *final(self) == (Peer {
                psk,
                macs: final(self).macs,
                macs_validator: final(self).macs_validator,
                ..*old(self)
            }),
    {
        self.psk = psk;
        self.macs = Generator::new(&psk, &psk);
        self.macs_validator = new_validator(&psk);
    }

    /// Gives up a handshake that this side has started. The index of its session is
    /// returned.
    pub fn reset_state(&mut self) -> (r: Option<u32>)
        ensures
            r == old(self).state.local_id(),
            *final(self) == (Peer { state: State::Reset, ..*old(self) }),
    {
        self.state.reset()
    }

    /// Is an initiation with counter `k` to be accepted at the time `now`? The counter must
    /// be above the last accepted one, and the last accepted one must be long enough ago.
    pub open spec fn replay_verdict(self, k: u128, now: u64) -> Result<(), HandshakeError> {
        if k <= self.k_recv {
            Err(HandshakeError::OldTimestamp)
        } else if self.last_initiation_consumption matches Some(last) && elapsed_spec(last, now)
            < TIME_BETWEEN_INITIATIONS {
            Err(HandshakeError::InitiationFlood)
        } else {
            Ok(())
        }
    }

    /// The peer after an initiation with counter `k` was accepted.
    pub open spec fn after_initiation(self, k: u128, now: u64) -> Self {
        Peer {
            state: State::Reset,
            k_recv: k,
            last_initiation_consumption: Some(now),
            ..self
        }
    }

    /// Accepts an initiation with counter `k` or refuses it. An accepted initiation ends a
    /// handshake that this side has started; the index of its session is returned.
    pub fn check_replay_flood(&mut self, k_received: u128, now: u64) -> (r: Result<
        Option<u32>,
        HandshakeError,
    >)
        ensures
            match old(self).replay_verdict(k_received, now) {
                Ok(_) => r == Ok::<Option<u32>, HandshakeError>(old(self).state.local_id())
                    && *final(self) == old(self).after_initiation(k_received, now),
                Err(e) => r == Err::<Option<u32>, HandshakeError>(e) && *final(self) == *old(self),
            },
    {
        if k_received <= self.k_recv {
            return Err(HandshakeError::OldTimestamp);
        }
        if let Some(last) = self.last_initiation_consumption {
            if elapsed(last, now) < TIME_BETWEEN_INITIATIONS {
                return Err(HandshakeError::InitiationFlood);
            }
        }
        let local = self.state.reset();
        self.k_recv = k_received;
        self.last_initiation_consumption = Some(now);
        Ok(local)
    }
}

/// No counter is accepted twice: once `k` was accepted, neither it nor a smaller one is.
pub proof fn law_counter_accepted_once<O>(
    peer: Peer<O>,
    k: u128,
    now: u64,
    later: Peer<O>,
    k2: u128,
    now2: u64,
)
    requires
        peer.replay_verdict(k, now) is Ok,
        later.k_recv >= peer.after_initiation(k, now).k_recv,
        k2 <= k,
    ensures
        later.replay_verdict(k2, now2) == Err::<(), HandshakeError>(HandshakeError::OldTimestamp),
{
}

/// An initiation is taken up if and only if its counter is larger than all before it, and the
/// last one was taken up 20 ms ago or more. What was refused leaves no trace; what was taken up
/// sets the counter and the time, and ends the handshake that the device itself had begun.
pub proof fn law_initiations_come_one_by_one<O>(peer: Peer<O>, k: u128, now: u64, later: u64)
    ensures
        k <= peer.k_recv ==> peer.replay_verdict(k, now) == Err::<(), HandshakeError>(
            HandshakeError::OldTimestamp,
        ),
        k > peer.k_recv && peer.last_initiation_consumption is None ==> peer.replay_verdict(
            k,
            now,
        ) is Ok,
        ({
            let after = peer.after_initiation(k, now);
            &&& after.k_recv == k
            &&& after.k_send == peer.k_send
            &&& after.state is Reset
            &&& after.psk == peer.psk
            &&& after.replay_verdict(k, later) == Err::<(), HandshakeError>(
                HandshakeError::OldTimestamp,
            )
            &&& k < u128::MAX ==> (after.replay_verdict((k + 1) as u128, later) is Ok <==> later
                >= now + 20_000_000)
            &&& k < u128::MAX && later < now + 20_000_000 ==> after.replay_verdict(
                (k + 1) as u128,
                later,
            ) == Err::<(), HandshakeError>(HandshakeError::InitiationFlood)
        }),
{
}

/// The hashes of the encapsulation keys bind both of them and which side is which, and the hash
/// that names a peer binds its keys.
pub proof fn law_hashes_bind_both_sides<O>(
    met: Set<Seq<u8>>,
    peer: Peer<O>,
    own: Seq<u8>,
    other: Peer<O>,
    own2: Seq<u8>,
)
    requires
        told_apart(met),
        peer.identifies(own),
        other.identifies(own2),
        own.len() == own2.len(),
        peer.pk_pq@.len() == own.len(),
        other.pk_pq@.len() == own.len(),
        met.contains(own + peer.pk_pq@),
        met.contains(own2 + other.pk_pq@),
        met.contains(peer.pk_pq@ + own),
        met.contains(other.pk_pq@ + own2),
        met.contains(peer.pk_pq@),
        met.contains(other.pk_pq@),
    ensures
        peer.hash_static_pq_send@ == other.hash_static_pq_send@ ==> own == own2 && peer.pk_pq@
            == other.pk_pq@,
        peer.hash_static_pq_recv@ == other.hash_static_pq_recv@ ==> own == own2 && peer.pk_pq@
            == other.pk_pq@,
        peer.hash_static_pq_send@ == other.hash_static_pq_recv@ ==> own == other.pk_pq@
            && peer.pk_pq@ == own2,
        peer.pk_hash@ == other.pk_hash@ ==> peer.pk_pq@ == other.pk_pq@,
{
    let (p, q) = (peer.pk_pq@, other.pk_pq@);
    if peer.hash_static_pq_send@ == other.hash_static_pq_send@ {
        lemma_hash(met, own + p, own2 + q);
        lemma_joined(own, p, own2, q);
    }
    if peer.hash_static_pq_recv@ == other.hash_static_pq_recv@ {
        lemma_hash(met, p + own, q + own2);
        lemma_joined(p, own, q, own2);
    }
    if peer.hash_static_pq_send@ == other.hash_static_pq_recv@ {
        lemma_hash(met, own + p, q + own2);
        lemma_joined(own, p, q, own2);
    }
    if peer.pk_hash@ == other.pk_hash@ {
        lemma_hash(met, peer.pk_pq@, other.pk_pq@);
    }
}

} // verus!
