//! The recovery ratchet of a peer: two root keys that every handshake replaces, and the
//! key encapsulation keys that the next handshake may use.

use crate::binding::{lemma_hash, lemma_joined, told_apart};
use crate::bytes::{same, zeros};
use crate::crypto::{blake2s, clear, hash4};
use crate::hybrid_v23::messages::{MODE_BOOTSTRAP, MODE_RATCHET, MODE_RESYNC};
use crate::types::{HandshakeError, Psk};
use vstd::prelude::*;

verus! {

/// "hybrid-wireguard-v2.3-rk"
pub const LABEL_RK: [u8; 24] = [
    0x68, 0x79, 0x62, 0x72, 0x69, 0x64, 0x2d, 0x77, 0x69, 0x72, 0x65, 0x67, 0x75, 0x61, 0x72, 0x64,
    0x2d, 0x76, 0x32, 0x2e, 0x33, 0x2d, 0x72, 0x6b,
];

/// "hybrid-wireguard-v2.3-kri"
pub const LABEL_KRI: [u8; 25] = [
    0x68, 0x79, 0x62, 0x72, 0x69, 0x64, 0x2d, 0x77, 0x69, 0x72, 0x65, 0x67, 0x75, 0x61, 0x72, 0x64,
    0x2d, 0x76, 0x32, 0x2e, 0x33, 0x2d, 0x6b, 0x72, 0x69,
];

/// Byte strings in lexicographic order.
pub open spec fn lex_le(a: Seq<u8>, b: Seq<u8>) -> bool
    decreases a.len(),
{
    if a.len() == 0 {
        true
    } else if b.len() == 0 {
        false
    } else if a[0] != b[0] {
        a[0] < b[0]
    } else {
        lex_le(a.drop_first(), b.drop_first())
    }
}

/// The order is total, and two strings in both orders are the same.
pub proof fn lemma_lex_le_total(a: Seq<u8>, b: Seq<u8>)
    ensures
        lex_le(a, b) || lex_le(b, a),
        lex_le(a, b) && lex_le(b, a) ==> a == b,
    decreases a.len(),
{
    if a.len() == 0 || b.len() == 0 {
        if lex_le(a, b) && lex_le(b, a) {
            assert(a =~= b);
        }
    } else if a[0] == b[0] {
        lemma_lex_le_total(a.drop_first(), b.drop_first());
        if a.drop_first() == b.drop_first() {
            assert(a =~= seq![a[0]] + a.drop_first());
            assert(b =~= seq![b[0]] + b.drop_first());
        }
    }
}

/// Is `a` at most `b` in lexicographic order?
pub(crate) fn lex_at_most(a: &[u8; 32], b: &[u8; 32]) -> (r: bool)
    ensures
        r == lex_le(a@, b@),
{
    let mut i: usize = 0;
    assert(a@.skip(0) =~= a@);
    assert(b@.skip(0) =~= b@);
    while i < 32
        invariant
            i <= 32,
            lex_le(a@, b@) == lex_le(a@.skip(i as int), b@.skip(i as int)),
        decreases 32 - i,
    {
        proof {
            assert(a@.skip(i as int).drop_first() =~= a@.skip(i + 1));
            assert(b@.skip(i as int).drop_first() =~= b@.skip(i + 1));
        }
        if a[i] != b[i] {
            return a[i] < b[i];
        }
        i += 1;
    }
    true
}

/// A root key of two peers: the hash of a label, both key hashes, the smaller one first,
/// and the pre-shared key.
pub open spec fn root(label: Seq<u8>, own: Seq<u8>, peer: Seq<u8>, psk: Seq<u8>) -> Seq<u8> {
    if lex_le(own, peer) {
        blake2s(label + own + peer + psk)
    } else {
        blake2s(label + peer + own + psk)
    }
}

/// Both peers derive the same root keys.
pub proof fn law_root_symmetric(label: Seq<u8>, own: Seq<u8>, peer: Seq<u8>, psk: Seq<u8>)
    ensures
        root(label, own, peer, psk) == root(label, peer, own, psk),
{
    lemma_lex_le_total(own, peer);
}

/// What the initiator of a handshake takes from its ratchet.
#[derive(Clone, Copy)]
pub struct InitiationRatchet {
    pub mode: u32,
    pub epoch: u64,
    pub rk: [u8; 32],
    pub k_ri: [u8; 32],
    pub remote_kid: [u8; 16],
    pub remote_pub: Option<[u8; 800]>,
}

/// Which of the responder's ratchets an initiation applies to.
#[derive(Clone, Copy, Debug, PartialEq, Eq, Structural)]
pub enum ResponseRatchetSlot {
    Current,
    Pending,
}

/// What the responder of a handshake takes from its ratchet.
#[derive(Clone, Copy)]
pub struct ResponseRatchet {
    pub slot: ResponseRatchetSlot,
    pub mode: u32,
    pub epoch: u64,
    pub rk: [u8; 32],
    pub k_ri: [u8; 32],
    pub local_kid: Option<[u8; 16]>,
    pub local_secret: Option<[u8; 1632]>,
}

/// The ratchet that a responder has offered and the initiator has not used yet.
#[derive(Clone, Copy)]
pub struct PendingResponderRatchet {
    pub epoch: u64,
    pub rk: [u8; 32],
    pub k_ri: [u8; 32],
    pub local_kid: [u8; 16],
    pub local_secret: [u8; 1632],
}

impl PendingResponderRatchet {
    /// Overwrites the keys.
    pub fn clear(&mut self)
        ensures
            final(self).epoch == old(self).epoch,
            final(self).local_kid == old(self).local_kid,
            final(self).rk@ == zeros(32),
            final(self).k_ri@ == zeros(32),
            final(self).local_secret@ == zeros(1632),
    {
        clear(&mut self.rk);
        clear(&mut self.k_ri);
        clear(&mut self.local_secret);
    }
}

/// The ratchet that one peer keeps for another.
pub struct RatchetState {
    pub epoch: u64,
    pub rk: [u8; 32],
    pub k_ri: [u8; 32],
    pub remote_kid: Option<[u8; 16]>,
    pub remote_pub: Option<[u8; 800]>,
    pub local_kid: Option<[u8; 16]>,
    pub local_secret: Option<[u8; 1632]>,
    pub pending_local: Option<PendingResponderRatchet>,
}

impl RatchetState {
    /// A ratchet before the first handshake, with the root keys of the two peers.
    pub open spec fn is_fresh(self, own: Seq<u8>, peer: Seq<u8>, psk: Seq<u8>) -> bool {
        &&& self.epoch == 0
        &&& self.rk@ == root(LABEL_RK@, own, peer, psk)
        &&& self.k_ri@ == root(LABEL_KRI@, own, peer, psk)
        &&& self.remote_kid is None
        &&& self.remote_pub is None
        &&& self.local_kid is None
        &&& self.local_secret is None
        &&& self.pending_local is None
    }

    fn derive_root(label: &[u8], own_pk_hash: &[u8; 32], peer_pk_hash: &[u8; 32], psk: &Psk) -> (r:
        [u8; 32])
        ensures
            r@ == root(label@, own_pk_hash@, peer_pk_hash@, psk@),
    {
        if lex_at_most(own_pk_hash, peer_pk_hash) {
            hash4(label, own_pk_hash, peer_pk_hash, psk)
        } else {
            hash4(label, peer_pk_hash, own_pk_hash, psk)
        }
    }

    /// The ratchet of two peers before their first handshake.
    pub fn new(own_pk_hash: &[u8; 32], peer_pk_hash: &[u8; 32], psk: &Psk) -> (r: Self)
        ensures
            r.is_fresh(own_pk_hash@, peer_pk_hash@, psk@),
    {
        RatchetState {
            epoch: 0,
            rk: Self::derive_root(&LABEL_RK, own_pk_hash, peer_pk_hash, psk),
            k_ri: Self::derive_root(&LABEL_KRI, own_pk_hash, peer_pk_hash, psk),
            remote_kid: None,
            remote_pub: None,
            local_kid: None,
            local_secret: None,
            pending_local: None,
        }
    }

    /// Starts over, as if no handshake had taken place.
    pub fn reset(&mut self, own_pk_hash: &[u8; 32], peer_pk_hash: &[u8; 32], psk: &Psk)
        ensures
            final(self).is_fresh(own_pk_hash@, peer_pk_hash@, psk@),
    {
        if let Some(mut secret) = self.local_secret.take() {
            clear(&mut secret);
        }
        if let Some(mut pending) = self.pending_local.take() {
            pending.clear();
        }
        self.epoch = 0;
        self.rk = Self::derive_root(&LABEL_RK, own_pk_hash, peer_pk_hash, psk);
        self.k_ri = Self::derive_root(&LABEL_KRI, own_pk_hash, peer_pk_hash, psk);
        self.remote_kid = None;
        self.remote_pub = None;
        self.local_kid = None;
    }

    /// The mode in which a handshake is started: with the other side's ratchet key if it
    /// is known, else from nothing before the first handshake and as a recovery after it.
    pub open spec fn initiation_mode(self) -> u32 {
        if self.remote_kid is Some && self.remote_pub is Some {
            MODE_RATCHET
        } else if self.epoch == 0 {
            MODE_BOOTSTRAP
        } else {
            MODE_RESYNC
        }
    }

    /// What a handshake is started with.
    pub fn initiation_snapshot(&self) -> (r: InitiationRatchet)
        ensures
            r.mode == self.initiation_mode(),
            r.epoch == self.epoch,
            r.rk == self.rk,
            r.k_ri == self.k_ri,
            r.mode == MODE_RATCHET ==> Some(r.remote_kid) == self.remote_kid && r.remote_pub
                == self.remote_pub,
            r.mode != MODE_RATCHET ==> r.remote_kid@ == zeros(16) && r.remote_pub is None,
    {
        if let (Some(kid), Some(pubkey)) = (self.remote_kid, self.remote_pub) {
            InitiationRatchet {
                mode: MODE_RATCHET,
                epoch: self.epoch,
                rk: self.rk,
                k_ri: self.k_ri,
                remote_kid: kid,
                remote_pub: Some(pubkey),
            }
        } else {
            let none: [u8; 16] = [0u8; 16];
            assert(none@ =~= zeros(16));
            InitiationRatchet {
                mode: if self.epoch == 0 {
                    MODE_BOOTSTRAP
                } else {
                    MODE_RESYNC
                },
                epoch: self.epoch,
                rk: self.rk,
                k_ri: self.k_ri,
                remote_kid: none,
                remote_pub: None,
            }
        }
    }

    /// Which ratchet an initiation applies to. A first handshake is possible in epoch zero
    /// only; a recovery needs the epoch of the current or of the pending ratchet; a
    /// ratcheted handshake needs that and the identifier of that ratchet's key.
    pub open spec fn accepted_slot(self, mode: u32, epoch: u64, kid: Seq<u8>) -> Result<
        ResponseRatchetSlot,
        HandshakeError,
    > {
        if mode == MODE_BOOTSTRAP {
            if epoch == 0 && self.epoch == 0 {
                Ok(ResponseRatchetSlot::Current)
            } else {
                Err(HandshakeError::InvalidEpoch)
            }
        } else if mode != MODE_RESYNC && mode != MODE_RATCHET {
            Err(HandshakeError::InvalidMode)
        } else if epoch == self.epoch {
            if mode == MODE_RATCHET && !(self.local_kid matches Some(k) && k@ == kid) {
                Err(HandshakeError::InvalidRatchetKid)
            } else {
                Ok(ResponseRatchetSlot::Current)
            }
        } else if self.pending_local matches Some(p) && p.epoch == epoch {
            if mode == MODE_RATCHET && self.pending_local->0.local_kid@ != kid {
                Err(HandshakeError::InvalidRatchetKid)
            } else {
                Ok(ResponseRatchetSlot::Pending)
            }
        } else {
            Err(HandshakeError::InvalidEpoch)
        }
    }

    /// What a handshake in the given mode and epoch takes from a slot.
    pub open spec fn slot_ratchet(self, slot: ResponseRatchetSlot, mode: u32, epoch: u64) -> (
    ResponseRatchet) {
        match slot {
            ResponseRatchetSlot::Current => ResponseRatchet {
                slot,
                mode,
                epoch,
                rk: self.rk,
                k_ri: self.k_ri,
                local_kid: if mode == MODE_RATCHET {
                    self.local_kid
                } else {
                    None
                },
                local_secret: if mode == MODE_RATCHET {
                    self.local_secret
                } else {
                    None
                },
            },
            ResponseRatchetSlot::Pending => ResponseRatchet {
                slot,
                mode,
                epoch,
                rk: self.pending_local->0.rk,
                k_ri: self.pending_local->0.k_ri,
                local_kid: Some(self.pending_local->0.local_kid),
                local_secret: Some(self.pending_local->0.local_secret),
            },
        }
    }

    /// What an initiation is answered with, or why it is refused.
    pub open spec fn response_spec(self, mode: u32, epoch: u64, kid: Seq<u8>) -> Result<
        ResponseRatchet,
        HandshakeError,
    > {
        match self.accepted_slot(mode, epoch, kid) {
            Ok(slot) => Ok(self.slot_ratchet(slot, mode, epoch)),
            Err(e) => Err(e),
        }
    }

    /// What an initiation is answered with, or why it is refused.
    pub fn response_snapshot(&self, mode: u32, epoch: u64, kid: &[u8; 16]) -> (r: Result<
        ResponseRatchet,
        HandshakeError,
    >)
        ensures
            r == self.response_spec(mode, epoch, kid@),
    {
        if mode == MODE_BOOTSTRAP {
            if epoch != 0 || self.epoch != 0 {
                return Err(HandshakeError::InvalidEpoch);
            }
            Ok(
                ResponseRatchet {
                    slot: ResponseRatchetSlot::Current,
                    mode,
                    epoch,
                    rk: self.rk,
                    k_ri: self.k_ri,
                    local_kid: None,
                    local_secret: None,
                },
            )
        } else if mode == MODE_RESYNC {
            if epoch == self.epoch {
                Ok(
                    ResponseRatchet {
                        slot: ResponseRatchetSlot::Current,
                        mode,
                        epoch,
                        rk: self.rk,
                        k_ri: self.k_ri,
                        local_kid: None,
                        local_secret: None,
                    },
                )
            } else if let Some(pending) = &self.pending_local {
                if epoch != pending.epoch {
                    return Err(HandshakeError::InvalidEpoch);
                }
                Ok(
                    ResponseRatchet {
                        slot: ResponseRatchetSlot::Pending,
                        mode,
                        epoch,
                        rk: pending.rk,
                        k_ri: pending.k_ri,
                        local_kid: Some(pending.local_kid),
                        local_secret: Some(pending.local_secret),
                    },
                )
            } else {
                Err(HandshakeError::InvalidEpoch)
            }
        } else if mode == MODE_RATCHET {
            if epoch == self.epoch {
                match &self.local_kid {
                    None => Err(HandshakeError::InvalidRatchetKid),
                    Some(expected) => {
                        if !same(expected, kid) {
                            return Err(HandshakeError::InvalidRatchetKid);
                        }
                        Ok(
                            ResponseRatchet {
                                slot: ResponseRatchetSlot::Current,
                                mode,
                                epoch,
                                rk: self.rk,
                                k_ri: self.k_ri,
                                local_kid: Some(*expected),
                                local_secret: self.local_secret,
                            },
                        )
                    },
                }
            } else if let Some(pending) = &self.pending_local {
                if epoch != pending.epoch {
                    return Err(HandshakeError::InvalidEpoch);
                }
                if !same(&pending.local_kid, kid) {
                    return Err(HandshakeError::InvalidRatchetKid);
                }
                Ok(
                    ResponseRatchet {
                        slot: ResponseRatchetSlot::Pending,
                        mode,
                        epoch,
                        rk: pending.rk,
                        k_ri: pending.k_ri,
                        local_kid: Some(pending.local_kid),
                        local_secret: Some(pending.local_secret),
                    },
                )
            } else {
                Err(HandshakeError::InvalidEpoch)
            }
        } else {
            Err(HandshakeError::InvalidMode)
        }
    }

    /// The ratchet after a handshake that this side started: the next epoch and root keys,
    /// and the key that the other side offered.
    pub open spec fn committed(
        self,
        next_epoch: u64,
        next_pub: [u8; 800],
        next_kid: [u8; 16],
        next_rk: [u8; 32],
        next_k_ri: [u8; 32],
    ) -> Self {
        RatchetState {
            epoch: next_epoch,
            rk: next_rk,
            k_ri: next_k_ri,
            remote_pub: Some(next_pub),
            remote_kid: Some(next_kid),
            ..self
        }
    }

    /// Moves on after a handshake that this side started.
    pub fn commit_initiator(
        &mut self,
        next_epoch: u64,
        next_pub: [u8; 800],
        next_kid: [u8; 16],
        next_rk: [u8; 32],
        next_k_ri: [u8; 32],
    )
        ensures
            *final(self) == old(self).committed(next_epoch, next_pub, next_kid, next_rk, next_k_ri),
    {
        self.epoch = next_epoch;
        self.rk = next_rk;
        self.k_ri = next_k_ri;
        self.remote_pub = Some(next_pub);
        self.remote_kid = Some(next_kid);
    }

    /// The ratchet after a handshake that the other side started. What was accepted from
    /// the pending slot becomes current; what is offered becomes pending.
    pub open spec fn staged(self, accepted: ResponseRatchet, offer: PendingResponderRatchet) -> Self {
        match accepted.slot {
            ResponseRatchetSlot::Current => RatchetState { pending_local: Some(offer), ..self },
            ResponseRatchetSlot::Pending => RatchetState {
                epoch: accepted.epoch,
                rk: accepted.rk,
                k_ri: accepted.k_ri,
                local_kid: accepted.local_kid,
                local_secret: accepted.local_secret,
                pending_local: Some(offer),
                ..self
            },
        }
    }

    /// Moves on after a handshake that the other side started.
    pub fn stage_responder(
        &mut self,
        accepted: &ResponseRatchet,
        next_epoch: u64,
        next_secret: [u8; 1632],
        next_kid: [u8; 16],
        next_rk: [u8; 32],
        next_k_ri: [u8; 32],
    )
        ensures
            *final(self) == old(self).staged(
                *accepted,
                (PendingResponderRatchet {
                    epoch: next_epoch,
                    rk: next_rk,
                    k_ri: next_k_ri,
                    local_kid: next_kid,
                    local_secret: next_secret,
                }),
            ),
    {
        if matches!(accepted.slot, ResponseRatchetSlot::Pending) {
            if let Some(mut stale) = self.local_secret.take() {
                clear(&mut stale);
            }
            self.epoch = accepted.epoch;
            self.rk = accepted.rk;
            self.k_ri = accepted.k_ri;
            self.local_kid = accepted.local_kid;
            self.local_secret = accepted.local_secret;
            if let Some(mut pending) = self.pending_local.take() {
                pending.clear();
            }
        }
        if let Some(mut stale) = self.pending_local.take() {
            stale.clear();
        }
        self.pending_local = Some(
            PendingResponderRatchet {
                epoch: next_epoch,
                rk: next_rk,
                k_ri: next_k_ri,
                local_kid: next_kid,
                local_secret: next_secret,
            },
        );
    }
}

/// An initiation that was answered may be repeated when the answer is lost: whatever was
/// offered in the answer, the same mode, epoch and key identifier are accepted again, with
/// the same root keys and the same ratchet secret.
pub proof fn law_retry_is_accepted(
    ratchet: RatchetState,
    mode: u32,
    epoch: u64,
    kid: Seq<u8>,
    offer: PendingResponderRatchet,
)
    requires
        ratchet.response_spec(mode, epoch, kid) is Ok,
    ensures
        ({
            let first = ratchet.response_spec(mode, epoch, kid)->Ok_0;
            let again = ratchet.staged(first, offer).response_spec(mode, epoch, kid);
            &&& again matches Ok(second)
            &&& second.slot == ResponseRatchetSlot::Current
            &&& second.mode == first.mode
            &&& second.epoch == first.epoch
            &&& second.rk == first.rk
            &&& second.k_ri == first.k_ri
            &&& mode == MODE_RATCHET ==> second.local_kid == first.local_kid && second.local_secret
                == first.local_secret
        }),
{
}

/// After a completed handshake the two ratchets are in step: the initiator that committed
/// what the responder offered starts the next handshake in ratchet mode, in the offered
/// epoch and with the offered key, and the responder accepts it with the same root keys
/// and the secret of the offered key.
pub proof fn law_next_handshake_is_accepted(
    initiator: RatchetState,
    responder: RatchetState,
    mode: u32,
    epoch: u64,
    kid: Seq<u8>,
    offer: PendingResponderRatchet,
    offered_pub: [u8; 800],
)
    requires
        responder.response_spec(mode, epoch, kid) is Ok,
        offer.epoch == epoch + 1,
    ensures
        ({
            let accepted = responder.response_spec(mode, epoch, kid)->Ok_0;
            let next_i = initiator.committed(
                offer.epoch,
                offered_pub,
                offer.local_kid,
                offer.rk,
                offer.k_ri,
            );
            let next_r = responder.staged(accepted, offer);
            &&& next_i.initiation_mode() == MODE_RATCHET
            &&& next_i.epoch == offer.epoch
            &&& next_i.remote_kid == Some(offer.local_kid)
            &&& next_i.remote_pub == Some(offered_pub)
            &&& next_r.response_spec(MODE_RATCHET, next_i.epoch, offer.local_kid@) matches Ok(
                next,
            )
            &&& next.rk == next_i.rk
            &&& next.k_ri == next_i.k_ri
            &&& next.local_secret == Some(offer.local_secret)
        }),
{
}

/// An initiator that has lost the other side's ratchet key recovers: its next handshake is
/// started as a recovery in the same epoch, and the responder accepts it with the same
/// root keys.
pub proof fn law_recovery_is_accepted(
    initiator: RatchetState,
    responder: RatchetState,
    mode: u32,
    epoch: u64,
    kid: Seq<u8>,
    offer: PendingResponderRatchet,
    offered_pub: [u8; 800],
    any_kid: Seq<u8>,
)
    requires
        responder.response_spec(mode, epoch, kid) is Ok,
        offer.epoch == epoch + 1,
    ensures
        ({
            let accepted = responder.response_spec(mode, epoch, kid)->Ok_0;
            let next_i = initiator.committed(
                offer.epoch,
                offered_pub,
                offer.local_kid,
                offer.rk,
                offer.k_ri,
            );
            let forgetful = RatchetState { remote_kid: None, remote_pub: None, ..next_i };
            let next_r = responder.staged(accepted, offer);
            &&& forgetful.initiation_mode() == MODE_RESYNC
            &&& next_r.response_spec(MODE_RESYNC, forgetful.epoch, any_kid) matches Ok(next)
            &&& next.rk == forgetful.rk
            &&& next.k_ri == forgetful.k_ri
        }),
{
}

/// Are the ratchets of an initiator and of a responder in step? The initiator's is the
/// responder's current one, or the one that the responder has offered and does not use yet.
pub open spec fn in_step(initiator: RatchetState, responder: RatchetState) -> bool {
    &&& initiator.remote_kid is Some <==> initiator.remote_pub is Some
    &&& if responder.epoch == initiator.epoch {
        &&& responder.rk@ == initiator.rk@
        &&& responder.k_ri@ == initiator.k_ri@
        &&& initiator.remote_kid matches Some(kid) ==> {
            &&& responder.local_secret is Some
            &&& responder.local_kid matches Some(local)
            &&& local@ == kid@
        }
    } else {
        &&& initiator.epoch > 0
        &&& responder.pending_local matches Some(pending)
        &&& pending.epoch == initiator.epoch
        &&& pending.rk@ == initiator.rk@
        &&& pending.k_ri@ == initiator.k_ri@
        &&& initiator.remote_kid matches Some(kid) ==> pending.local_kid@ == kid@
    }
}

/// The key identifier that a handshake is started with.
pub open spec fn sent_kid(ratchet: RatchetState) -> Seq<u8> {
    if ratchet.initiation_mode() == MODE_RATCHET {
        ratchet.remote_kid->0@
    } else {
        zeros(16)
    }
}

/// While two ratchets are in step, the responder accepts what the initiator starts, with the
/// same root keys, and has the secret of the key that is used.
pub proof fn law_in_step_is_accepted(initiator: RatchetState, responder: RatchetState)
    requires
        in_step(initiator, responder),
    ensures
        responder.response_spec(
            initiator.initiation_mode(),
            initiator.epoch,
            sent_kid(initiator),
        ) matches Ok(ratchet) && ratchet.rk@ == initiator.rk@ && ratchet.k_ri@ == initiator.k_ri@
            && ratchet.epoch == initiator.epoch && ratchet.mode == initiator.initiation_mode() && (
        ratchet.mode == MODE_RATCHET ==> ratchet.local_secret is Some),
{
}

/// Two ratchets stay in step when the responder answers, whether or not the answer arrives,
/// when the initiator takes over what was offered, and when it forgets the ratchet key.
pub proof fn law_ratchets_stay_in_step(
    initiator: RatchetState,
    responder: RatchetState,
    offer: PendingResponderRatchet,
    offered_pub: [u8; 800],
    taken_kid: [u8; 16],
    taken_rk: [u8; 32],
    taken_k_ri: [u8; 32],
)
    requires
        in_step(initiator, responder),
        offer.epoch == initiator.epoch + 1,
        taken_kid@ == offer.local_kid@,
        taken_rk@ == offer.rk@,
        taken_k_ri@ == offer.k_ri@,
    ensures
        ({
            let accepted = responder.response_spec(
                initiator.initiation_mode(),
                initiator.epoch,
                sent_kid(initiator),
            )->Ok_0;
            let answered = responder.staged(accepted, offer);
            let completed = initiator.committed(
                offer.epoch,
                offered_pub,
                taken_kid,
                taken_rk,
                taken_k_ri,
            );
            let forgetful = RatchetState { remote_kid: None, remote_pub: None, ..initiator };
            &&& in_step(initiator, answered)
            &&& in_step(completed, answered)
            &&& in_step(forgetful, responder)
        }),
{
}

/// Two ratchets that start over with the same pre-shared key are in step.
pub proof fn law_fresh_ratchets_are_in_step(
    initiator: RatchetState,
    responder: RatchetState,
    own: Seq<u8>,
    peer: Seq<u8>,
    psk: Seq<u8>,
)
    requires
        initiator.is_fresh(own, peer, psk),
        responder.is_fresh(peer, own, psk),
    ensures
        in_step(initiator, responder),
{
    law_root_symmetric(LABEL_RK@, own, peer, psk);
    law_root_symmetric(LABEL_KRI@, own, peer, psk);
}

/// The roots of a fresh ratchet bind the pre-shared key and the two sides, and the two roots
/// are not the same.
pub proof fn law_roots_bind(
    met: Set<Seq<u8>>,
    own: Seq<u8>,
    peer: Seq<u8>,
    psk: Seq<u8>,
    own2: Seq<u8>,
    peer2: Seq<u8>,
    psk2: Seq<u8>,
)
    requires
        told_apart(met),
        own.len() == 32,
        peer.len() == 32,
        psk.len() == 32,
        own2.len() == 32,
        peer2.len() == 32,
        psk2.len() == 32,
        forall|label: Seq<u8>|
            label == LABEL_RK@ || label == LABEL_KRI@ ==> met.contains(
                #[trigger] root_in(label, own, peer, psk),
            ) && met.contains(root_in(label, own2, peer2, psk2)),
    ensures
        root(LABEL_RK@, own, peer, psk) == root(LABEL_RK@, own2, peer2, psk2) ==> psk == psk2 && (
        own == own2 && peer == peer2 || own == peer2 && peer == own2),
        root(LABEL_KRI@, own, peer, psk) == root(LABEL_KRI@, own2, peer2, psk2) ==> psk == psk2
            && (own == own2 && peer == peer2 || own == peer2 && peer == own2),
        root(LABEL_RK@, own, peer, psk) != root(LABEL_KRI@, own2, peer2, psk2),
{
    assert(met.contains(root_in(LABEL_RK@, own, peer, psk)));
    assert(met.contains(root_in(LABEL_KRI@, own, peer, psk)));
    lemma_root(met, LABEL_RK@, own, peer, psk, own2, peer2, psk2);
    lemma_root(met, LABEL_KRI@, own, peer, psk, own2, peer2, psk2);
    if root(LABEL_RK@, own, peer, psk) == root(LABEL_KRI@, own2, peer2, psk2) {
        let (a, b) = (root_in(LABEL_RK@, own, peer, psk), root_in(LABEL_KRI@, own2, peer2, psk2));
        lemma_hash(met, a, b);
        assert(a.len() == 120 && b.len() == 121);
    }
}

/// What is hashed to a root: the smaller of the two names first.
pub open spec fn root_in(label: Seq<u8>, own: Seq<u8>, peer: Seq<u8>, psk: Seq<u8>) -> Seq<u8> {
    if lex_le(own, peer) {
        label + own + peer + psk
    } else {
        label + peer + own + psk
    }
}

proof fn lemma_root(
    met: Set<Seq<u8>>,
    label: Seq<u8>,
    own: Seq<u8>,
    peer: Seq<u8>,
    psk: Seq<u8>,
    own2: Seq<u8>,
    peer2: Seq<u8>,
    psk2: Seq<u8>,
)
    requires
        told_apart(met),
        own.len() == 32,
        peer.len() == 32,
        own2.len() == 32,
        peer2.len() == 32,
        met.contains(root_in(label, own, peer, psk)),
        met.contains(root_in(label, own2, peer2, psk2)),
    ensures
        root(label, own, peer, psk) == root(label, own2, peer2, psk2) ==> psk == psk2 && (own
            == own2 && peer == peer2 || own == peer2 && peer == own2),
{
    if root(label, own, peer, psk) == root(label, own2, peer2, psk2) {
        let (a, b) = if lex_le(own, peer) {
            (own, peer)
        } else {
            (peer, own)
        };
        let (c, d) = if lex_le(own2, peer2) {
            (own2, peer2)
        } else {
            (peer2, own2)
        };
        lemma_hash(met, label + a + b + psk, label + c + d + psk2);
        lemma_joined(label + a + b, psk, label + c + d, psk2);
        lemma_joined(label + a, b, label + c, d);
        lemma_joined(label, a, label, c);
    }
}

/// Which mode an initiation has: one if the key of the peer for this epoch is known, else zero
/// in the first epoch and two in any other.
pub proof fn law_modes(ratchet: RatchetState)
    ensures
        ratchet.remote_kid is Some && ratchet.remote_pub is Some <==> ratchet.initiation_mode()
            == 1,
        ratchet.initiation_mode() == 0 ==> ratchet.epoch == 0,
        ratchet.initiation_mode() == 2 ==> ratchet.epoch != 0,
        ratchet.initiation_mode() <= 2,
{
}

/// An initiation is answered for the epoch of the ratchet or for the one that was offered, and
/// for no other: the first mode in epoch zero only, the ratcheted mode only with the key that
/// is named, and an unknown mode never. The answer uses the roots of that epoch.
pub proof fn law_answered_epochs(ratchet: RatchetState, mode: u32, epoch: u64, kid: Seq<u8>)
    ensures
        mode > 2 ==> ratchet.response_spec(mode, epoch, kid) == Err::<
            ResponseRatchet,
            HandshakeError,
        >(HandshakeError::InvalidMode),
        mode == 0 ==> (ratchet.response_spec(mode, epoch, kid) is Ok <==> epoch == 0
            && ratchet.epoch == 0),
        mode <= 2 && epoch != ratchet.epoch && !(ratchet.pending_local is Some
            && ratchet.pending_local->0.epoch == epoch) ==> ratchet.response_spec(mode, epoch, kid)
            == Err::<ResponseRatchet, HandshakeError>(HandshakeError::InvalidEpoch),
        mode == 2 && epoch == ratchet.epoch ==> ratchet.response_spec(mode, epoch, kid) is Ok,
        mode == 1 && epoch == ratchet.epoch ==> (ratchet.response_spec(mode, epoch, kid) is Ok
            <==> ratchet.local_kid is Some && ratchet.local_kid->0@ == kid),
        mode == 1 && epoch == ratchet.epoch && !(ratchet.local_kid is Some
            && ratchet.local_kid->0@ == kid) ==> ratchet.response_spec(mode, epoch, kid) == Err::<
            ResponseRatchet,
            HandshakeError,
        >(HandshakeError::InvalidRatchetKid),
        ratchet.response_spec(mode, epoch, kid) matches Ok(r) ==> {
            &&& r.mode == mode
            &&& r.epoch == epoch
            &&& if epoch == ratchet.epoch {
                r.rk == ratchet.rk && r.k_ri == ratchet.k_ri
            } else {
                &&& ratchet.pending_local matches Some(p)
                &&& r.rk == p.rk
                &&& r.k_ri == p.k_ri
                &&& r.local_secret == Some(p.local_secret)
                &&& mode == 1 ==> p.local_kid@ == kid
            }
            &&& mode == 1 && epoch == ratchet.epoch ==> r.local_secret == ratchet.local_secret
        },
{
}

/// Completing a handshake moves the initiator to the next epoch with the new roots and the
/// new key of the peer, and leaves what it offered itself alone. Answering one moves the
/// responder only if the initiation was for the offered epoch, and then to just that; in any
/// case there is one offer afterwards, the new one.
pub proof fn law_ratchet_moves(
    ratchet: RatchetState,
    epoch: u64,
    key: [u8; 800],
    kid: [u8; 16],
    rk: [u8; 32],
    k_ri: [u8; 32],
    accepted: ResponseRatchet,
    offer: PendingResponderRatchet,
)
    ensures
        ({
            let after = ratchet.committed(epoch, key, kid, rk, k_ri);
            &&& after.epoch == epoch
            &&& after.rk == rk
            &&& after.k_ri == k_ri
            &&& after.remote_pub == Some(key)
            &&& after.remote_kid == Some(kid)
            &&& after.local_kid == ratchet.local_kid
            &&& after.local_secret == ratchet.local_secret
            &&& after.pending_local == ratchet.pending_local
        }),
        ({
            let after = ratchet.staged(accepted, offer);
            let moved = accepted.slot == ResponseRatchetSlot::Pending;
            &&& after.pending_local == Some(offer)
            &&& after.remote_pub == ratchet.remote_pub
            &&& after.remote_kid == ratchet.remote_kid
            &&& after.epoch == (if moved {
                accepted.epoch
            } else {
                ratchet.epoch
            })
            &&& after.rk == (if moved {
                accepted.rk
            } else {
                ratchet.rk
            })
            &&& after.k_ri == (if moved {
                accepted.k_ri
            } else {
                ratchet.k_ri
            })
            &&& after.local_secret == (if moved {
                accepted.local_secret
            } else {
                ratchet.local_secret
            })
            &&& after.local_kid == (if moved {
                accepted.local_kid
            } else {
                ratchet.local_kid
            })
        }),
{
}

/// Of two names the one that is smaller at the first place where they differ goes first into
/// a root, whichever side it belongs to.
pub proof fn law_smaller_name_goes_first(
    label: Seq<u8>,
    a: Seq<u8>,
    b: Seq<u8>,
    psk: Seq<u8>,
    i: int,
)
    requires
        0 <= i < a.len(),
        i < b.len(),
        a.take(i) == b.take(i),
        a[i] < b[i],
    ensures
        root(label, a, b, psk) == blake2s(label + a + b + psk),
        root(label, b, a, psk) == blake2s(label + a + b + psk),
{
    lemma_lex_less(a, b, i);
}

proof fn lemma_lex_less(a: Seq<u8>, b: Seq<u8>, i: int)
    requires
        0 <= i < a.len(),
        i < b.len(),
        a.take(i) == b.take(i),
        a[i] < b[i],
    ensures
        lex_le(a, b),
        !lex_le(b, a),
    decreases i,
{
    if i > 0 {
        assert(a.take(i)[0] == a[0] && b.take(i)[0] == b[0]);
        assert(a.drop_first().take(i - 1) =~= a.take(i).drop_first());
        assert(b.drop_first().take(i - 1) =~= b.take(i).drop_first());
        lemma_lex_less(a.drop_first(), b.drop_first(), i - 1);
    }
}

} // verus!
