//! Starting handshakes and taking in handshake messages.
//!
//! A message is taken in step by step. Where a key encapsulation is needed, a step ends with
//! what has to be decapsulated; the caller does that and goes on with the next step.

use crate::bytes::{read_le, take};
use crate::crypto::{xchacha20poly1305_open, xchacha20poly1305_seal};
use crate::hybrid_v23::device::{Device, DeviceView};
use crate::hybrid_v23::dos::{timeout_spec, DosView, PrecheckDecision, HALF_OPEN_REAP_INTERVAL};
use crate::hybrid_v23::ip_state::LAST_TIME;
use crate::hybrid_v23::messages::{
    session_index, CookieReply, Initiation, MacsFooter, NoiseInitiation, NoiseResponse, Response,
    SessionId, MODE_RATCHET, TYPE_COOKIE_REPLY, TYPE_INITIATION, TYPE_RESPONSE,
};
use crate::hybrid_v23::noise;
use crate::hybrid_v23::noise::{
    acceptance_verdict, identity_verdict, initiation_failure, initiation_opens, initiator_keys,
    is_committed, is_first_stage, is_initiation, is_initiator_pair, is_offer, is_responder_pair,
    is_response, is_response_stage, is_second_stage, is_temporary_state, known_mode,
    names_initiator, ratchet_secret_missing, remembers, rendezvous_ok, responder_keys,
    response_fails, response_hash_ok, response_mismatch, response_opens, response_verdict,
    FirstStage, InitiationInputs, Initiator, ResponseInputs, ResponseStage, SecondStage,
    TemporaryState,
};
use crate::hybrid_v23::peer::{Peer, State};
use crate::hybrid_v23::ri_proof::ri_key_for_epoch;
use crate::hybrid_v23::runtime::RuntimeReading;
use crate::hybrid_v23::sessions::{index_of, law_free_undoes_allocate, law_freed_all};
use crate::macs::{elapsed_spec, Generator, Validator};
use crate::ratelimiter::allow_spec;
use crate::types::{HandshakeError, Output, SocketAddr};
use vstd::prelude::*;

verus! {

// ---------------------------------------------------------------------------
// Starting a handshake
// ---------------------------------------------------------------------------

/// What has to be encapsulated before a handshake can be started: the static key of the
/// peer, and its ratchet key where one is known. `sent` initiations were sent so far.
pub struct InitiationPlan<'a> {
    pub static_key: &'a Vec<u8>,
    pub ratchet_key: Option<[u8; 800]>,
    pub sent: u128,
}

/// Was a message with these bytes returned?
pub open spec fn is_message(r: Result<Option<Vec<u8>>, HandshakeError>, bytes: Seq<u8>) -> bool {
    r matches Ok(Some(v)) && v@ == bytes
}

/// Is `msg` the initiation for a peer, and `after` the peer that waits for the response?
pub open spec fn is_begun<O>(
    device: DeviceView<O>,
    peer: Peer<O>,
    after: Peer<O>,
    sid: SessionId,
    inputs: InitiationInputs,
    msg: Initiation,
    now: u64,
) -> bool {
    let own = device.keys->0.pk_hash@;
    let ri_key = device.effective_key(peer);
    &&& initiation_failure(peer, inputs) is None
    &&& is_initiation(own, peer, sid, ri_key, inputs, msg.noise)
    &&& initiation_opens(own, peer, ri_key, inputs, msg.noise)
    &&& remembers(after.state, peer, sid, inputs, msg.noise)
    &&& msg.macs.f_mac1@ == peer.macs.mac1(msg.noise.bytes())
    &&& msg.macs.f_mac2@ == peer.macs.mac2(msg.noise.bytes(), now)
    &&& after == (Peer {
        state: after.state,
        k_send: (peer.k_send + 1) as u128,
        macs: peer.macs.after_generate(msg.macs.f_mac1, now),
        ..peer
    })
}

/// What becomes of the start of a handshake with a peer, in a session with the identifier
/// `sid`. Where that identifier is in use, nothing happens.
pub open spec fn begin_step<O>(
    before: DeviceView<O>,
    after: DeviceView<O>,
    k: [u8; 32],
    sid: SessionId,
    inputs: InitiationInputs,
    now: u64,
    r: Result<Option<Vec<u8>>, HandshakeError>,
) -> bool {
    let peer = before.peers[k];
    if before.keys is None || !before.peers.contains_key(k) {
        r == Err::<Option<Vec<u8>>, HandshakeError>(HandshakeError::UnknownPublicKey) && after
            == before
    } else if !before.sessions.is_free(sid) {
        r == Ok::<Option<Vec<u8>>, HandshakeError>(None) && after == before
    } else {
        match initiation_failure(peer, inputs) {
            Some(e) => r == Err::<Option<Vec<u8>>, HandshakeError>(e) && after == (DeviceView {
                dos: before.dos.released(index_of(sid)),
                ..before
            }),
            None => exists|msg: Initiation| #[trigger]
                is_begun(before, peer, after.peers[k], sid, inputs, msg, now) && is_message(
                    r,
                    msg.bytes(),
                ) && after == (DeviceView {
                    sessions: before.sessions.allocated(sid, k),
                    ..before.with_peer(k, after.peers[k])
                }),
        }
    }
}

impl<O> Device<O> {
    /// What has to be encapsulated before a handshake with a peer can be started.
    pub fn plan_initiation<'a>(&'a self, pk_hash: &[u8; 32]) -> (r: Result<
        InitiationPlan<'a>,
        HandshakeError,
    >)
        requires
            self.wf(),
        ensures
            match r {
                Ok(plan) => self@.keys is Some && self@.peers.contains_key(*pk_hash)
                    && *plan.static_key == self@.peers[*pk_hash].pk_pq && plan.sent
                    == self@.peers[*pk_hash].k_send && (
                if self@.peers[*pk_hash].ratchet.remote_kid is Some {
                    plan.ratchet_key == self@.peers[*pk_hash].ratchet.remote_pub
                } else {
                    plan.ratchet_key is None
                }),
                Err(e) => (self@.keys is None || !self@.peers.contains_key(*pk_hash)) && e
                    == HandshakeError::UnknownPublicKey,
            },
    {
        if self.keyst.is_none() {
            return Err(HandshakeError::UnknownPublicKey);
        }
        match self.pk_map.find(pk_hash) {
            Some(i) => {
                let peer = &self.pk_map.entries[i].1;
                let ratchet_key = peer.ratchet.initiation_snapshot().remote_pub;
                Ok(InitiationPlan { static_key: &peer.pk_pq, ratchet_key, sent: peer.k_send })
            },
            None => Err(HandshakeError::UnknownPublicKey),
        }
    }

    /// Starts a handshake with a peer, in a session with the identifier `sid`. Where that
    /// identifier is in use, nothing happens and nothing is returned.
    pub fn begin(
        &mut self,
        pk_hash: &[u8; 32],
        sid: SessionId,
        inputs: &InitiationInputs,
        now: u64,
    ) -> (r: Result<Option<Vec<u8>>, HandshakeError>)
        requires
            old(self).wf(),
            inputs.wf(),
            old(self)@.peers.contains_key(*pk_hash) ==> old(self)@.peers[*pk_hash].k_send
                < u128::MAX,
        ensures
            final(self).wf(),
            begin_step(old(self)@, final(self)@, *pk_hash, sid, *inputs, now, r),
    {
        let i = match self.pk_map.find(pk_hash) {
            Some(i) => i,
            None => return Err(HandshakeError::UnknownPublicKey),
        };
        let keyst = match &self.keyst {
            Some(keyst) => keyst,
            None => return Err(HandshakeError::UnknownPublicKey),
        };
        let ghost peer = self.pk_map.entries@[i as int].1;
        let hash = self.pk_map.entries[i].1.pk_hash;
        if !self.sessions.allocate(sid, hash) {
            return Ok(None);
        }
        let ri_key = ri_key_for_epoch(self.ri_key, &self.pk_map.entries[i].1.ratchet.k_ri);
        match noise::create_initiation(
            keyst,
            &mut self.pk_map.entries[i].1,
            sid,
            &ri_key,
            inputs,
        ) {
            Ok(noise_part) => {
                let inner = noise_part.as_bytes();
                let macs = self.pk_map.entries[i].1.macs.generate(&inner, now);
                let msg = Initiation { noise: noise_part, macs };
                proof {
                    self.lemma_peer_changed(*old(self), i as int, *pk_hash);
                    assert(is_begun(
                        old(self)@,
                        peer,
                        self.pk_map.entries@[i as int].1,
                        sid,
                        *inputs,
                        msg,
                        now,
                    ));
                }
                assert(self@.peers == old(self)@.peers.insert(*pk_hash, self@.peers[*pk_hash]));
                assert(self@.sessions == old(self)@.sessions.allocated(sid, *pk_hash));
                Ok(Some(msg.as_bytes()))
            },
            Err(e) => {
                proof {
                    self.lemma_peer_changed(*old(self), i as int, *pk_hash);
                    assert(self.pk_map@ =~= old(self).pk_map@);
                    law_free_undoes_allocate(old(self)@.sessions, sid, *pk_hash);
                }
                self.release_any(session_index(&sid));
                assert(self@.sessions == old(self)@.sessions);
                assert(self@.dos == old(self)@.dos.released(index_of(sid)));
                assert(self@.peers == old(self)@.peers);
                Err(e)
            },
        }
    }
}

// ---------------------------------------------------------------------------
// Taking in a message
// ---------------------------------------------------------------------------

/// The random numbers that the first step of taking in a message may use: for the decision
/// on a challenge, for the encryption of a cookie, and for the secret behind the cookies.
pub struct ProcessDraws {
    pub challenge: u32,
    pub nonce: [u8; 24],
    pub fresh: [u8; 32],
}

/// An initiation whose static ciphertext has to be decapsulated.
pub struct PendingInitiation {
    pub msg: Initiation,
    pub src: Option<SocketAddr>,
    pub stage: FirstStage,
}

/// An initiation that was accepted. In ratchet mode its ratchet ciphertext has to be
/// decapsulated.
pub struct AcceptedInitiation {
    pub pk_hash: [u8; 32],
    pub src: Option<SocketAddr>,
    pub stage: SecondStage,
}

/// A response whose ciphertexts have to be decapsulated.
pub struct PendingResponse {
    pub msg: NoiseResponse,
    pub pk_hash: [u8; 32],
    pub ri_key: [u8; 8],
    pub stage: ResponseStage,
}

/// Where the first step of taking in a message ends.
pub enum Step {
    Done(Output),
    Initiation(PendingInitiation),
    Response(PendingResponse),
}

/// Did the step end with nothing to do?
pub open spec fn is_quiet(r: Result<Step, HandshakeError>) -> bool {
    r matches Ok(Step::Done(out)) && out.is_nothing()
}

/// Did the step fail with this error?
pub open spec fn is_failure<T>(r: Result<T, HandshakeError>, e: HandshakeError) -> bool {
    r == Err::<T, HandshakeError>(e)
}

/// Did the step end with a message to send, and nothing else?
pub open spec fn is_reply(r: Result<Step, HandshakeError>, bytes: Seq<u8>) -> bool {
    &&& r matches Ok(Step::Done(out))
    &&& out.peer is None
    &&& out.keys is None
    &&& out.reply matches Some(v)
    &&& v@ == bytes
}

/// Is it the reply that hands out the cookie of `src` to the sender of a message, and
/// `after` the validator that made it?
pub open spec fn is_cookie_reply(
    reply: CookieReply,
    before: Validator,
    after: Validator,
    receiver: SessionId,
    src: SocketAddr,
    macs: MacsFooter,
    draws: ProcessDraws,
    now: u64,
) -> bool {
    &&& after.is_refreshed(before, draws.fresh@, now)
    &&& reply.f_type == TYPE_COOKIE_REPLY
    &&& reply.f_receiver == receiver
    &&& reply.f_nonce == draws.nonce
    &&& reply.f_cookie@ == xchacha20poly1305_seal(
        before.cookie_key@,
        draws.nonce@,
        macs.f_mac1@,
        after.tau(src),
    )
    &&& xchacha20poly1305_open(
        before.cookie_key@,
        draws.nonce@,
        macs.f_mac1@,
        reply.f_cookie@,
    ) == Some(after.tau(src))
}

/// Makes the reply that hands out the cookie of `src` to the sender of a message.
fn create_cookie_reply(
    validator: &mut Validator,
    receiver: &SessionId,
    src: &SocketAddr,
    macs: &MacsFooter,
    draws: &ProcessDraws,
    now: u64,
) -> (r: CookieReply)
    ensures
        is_cookie_reply(
            r,
            *old(validator),
            *final(validator),
            *receiver,
            *src,
            *macs,
            *draws,
            now,
        ),
{
    let f_cookie = validator.seal_cookie(src, &macs.f_mac1, &draws.nonce, &draws.fresh, now);
    CookieReply { f_type: TYPE_COOKIE_REPLY, f_receiver: *receiver, f_nonce: draws.nonce, f_cookie }
}

/// Whether an initiation may go on to the expensive part.
pub enum Gate {
    Drop,
    Challenge,
    Pass,
}

impl<O> DeviceView<O> {
    /// Does an initiation carry a valid cookie for its source?
    pub open spec fn cookie_ok(self, msg: Initiation, src: SocketAddr, now: u64) -> bool {
        self.validator matches Some(v) && v.mac2_ok(msg.noise.bytes(), src, msg.macs, now)
    }

    /// Whether an initiation may go on, and what is known of its source afterwards. One with
    /// a source needs a valid cookie for it.
    pub open spec fn gate(self, msg: Initiation, src: Option<SocketAddr>, draw: u32, now: u64) -> (
        DosView,
        Gate,
    ) {
        match src {
            None => (self.dos, Gate::Pass),
            Some(addr) => {
                let cookie = self.cookie_ok(msg, addr, now);
                let (dos, decision) = self.dos.precheck_spec(addr.ip, cookie, draw, now);
                if decision == PrecheckDecision::Drop {
                    (dos, Gate::Drop)
                } else if decision == PrecheckDecision::Challenge || !cookie {
                    (dos, Gate::Challenge)
                } else {
                    (dos, Gate::Pass)
                }
            },
        }
    }

    /// The peer of a session identifier.
    pub open spec fn peer_of_sid(self, sid: SessionId) -> Option<[u8; 32]> {
        if self.sessions.sid_peers.contains_key(sid) && self.peers.contains_key(
            self.sessions.sid_peers[sid],
        ) {
            Some(self.sessions.sid_peers[sid])
        } else {
            None
        }
    }

    /// May a source send another message, and which limits hold afterwards?
    pub open spec fn limit(self, src: Option<SocketAddr>, now: u64) -> (Self, bool) {
        match src {
            Some(addr) => {
                let (limits, allowed) = allow_spec(self.limits, addr.ip, now);
                (DeviceView { limits, ..self }, allowed)
            },
            None => (self, true),
        }
    }
}

/// Why the public part of an initiation is refused.
pub open spec fn public_failure(sk: Seq<u8>, msg: NoiseInitiation) -> Option<HandshakeError> {
    if !known_mode(msg.f_mode) {
        Some(HandshakeError::InvalidMode)
    } else if crate::crypto::x25519(sk, msg.f_ephemeral@) == crate::bytes::zeros(32) {
        Some(HandshakeError::InvalidSharedSecret)
    } else {
        None
    }
}

/// What the first step makes of an initiation.
pub open spec fn initiation_step<O>(
    before: DeviceView<O>,
    after: DeviceView<O>,
    msg: Initiation,
    src: Option<SocketAddr>,
    draws: ProcessDraws,
    now: u64,
    r: Result<Step, HandshakeError>,
) -> bool {
    let (dos, gate) = before.gate(msg, src, draws.challenge, now);
    let gated = DeviceView { dos, ..before };
    match gate {
        Gate::Drop => is_quiet(r) && after == gated,
        Gate::Challenge => {
            &&& after.validator is Some
            &&& after == (DeviceView { validator: after.validator, ..gated })
            &&& exists|reply: CookieReply| #[trigger]
                is_cookie_reply(
                    reply,
                    before.validator->0,
                    after.validator->0,
                    msg.noise.f_sender,
                    src->0,
                    msg.macs,
                    draws,
                    now,
                ) && is_reply(r, reply.bytes())
        },
        Gate::Pass => match public_failure(before.keys->0.sk@, msg.noise) {
            Some(e) => is_failure(r, e) && after == gated.blaming(src, now),
            None => {
                &&& after == gated
                &&& r matches Ok(Step::Initiation(pending))
                &&& pending.msg == msg
                &&& pending.src == src
                &&& is_first_stage(pending.stage, before.keys->0, msg.noise)
            },
        },
    }
}

/// What the first step makes of a response.
pub open spec fn response_step<O>(
    before: DeviceView<O>,
    after: DeviceView<O>,
    msg: Response,
    src: Option<SocketAddr>,
    draws: ProcessDraws,
    now: u64,
    r: Result<Step, HandshakeError>,
) -> bool {
    match before.peer_of_sid(msg.noise.f_receiver) {
        None => is_failure(r, HandshakeError::UnknownReceiverId) && after == before,
        Some(k) => {
            let peer = before.peers[k];
            let inner = msg.noise.bytes();
            let (limited, allowed) = before.limit(src, now);
            if !response_hash_ok(msg.noise) {
                is_failure(r, HandshakeError::DecryptionFailure) && after == before
            } else if !peer.macs_validator.mac1_ok(inner, msg.macs) {
                is_failure(r, HandshakeError::InvalidMac1) && after == before
            } else if src is Some && !peer.macs_validator.mac2_ok(inner, src->0, msg.macs, now) {
                &&& after == before.with_peer(
                    k,
                    Peer { macs_validator: after.peers[k].macs_validator, ..peer },
                )
                &&& exists|reply: CookieReply| #[trigger]
                    is_cookie_reply(
                        reply,
                        peer.macs_validator,
                        after.peers[k].macs_validator,
                        msg.noise.f_sender,
                        src->0,
                        msg.macs,
                        draws,
                        now,
                    ) && is_reply(r, reply.bytes())
            } else if !allowed {
                is_failure(r, HandshakeError::RateLimited) && after == limited
            } else {
                match response_mismatch(peer.state, msg.noise) {
                    Some(e) => is_failure(r, e) && after == limited,
                    None => {
                        &&& after == limited
                        &&& r matches Ok(Step::Response(pending))
                        &&& pending.msg == msg.noise
                        &&& pending.pk_hash == k
                        &&& pending.ri_key@ == before.effective_key(peer)
                        &&& is_response_stage(
                            pending.stage,
                            before.keys->0,
                            peer.state,
                            msg.noise,
                        )
                    },
                }
            }
        },
    }
}

/// What the first step makes of a cookie reply.
pub open spec fn cookie_step<O>(
    before: DeviceView<O>,
    after: DeviceView<O>,
    msg: CookieReply,
    now: u64,
    r: Result<Step, HandshakeError>,
) -> bool {
    match before.peer_of_sid(msg.f_receiver) {
        None => is_failure(r, HandshakeError::UnknownReceiverId) && after == before,
        Some(k) => {
            let peer = before.peers[k];
            match peer.macs.opened(msg.f_nonce@, msg.f_cookie@) {
                Some(value) => {
                    &&& is_quiet(r)
                    &&& after.peers[k].macs.cookie matches Some(cookie)
                    &&& cookie.birth == now
                    &&& cookie.value@ == value
                    &&& after == before.with_peer(
                        k,
                        Peer { macs: Generator { cookie: Some(cookie), ..peer.macs }, ..peer },
                    )
                },
                None => is_failure(
                    r,
                    if peer.macs.last_mac1 is None {
                        HandshakeError::InvalidState
                    } else {
                        HandshakeError::DecryptionFailure
                    },
                ) && after == before,
            }
        },
    }
}

impl<O> Device<O> {
    /// Where the peer of a session identifier stands.
    fn lookup_sid(&self, sid: &SessionId) -> (r: Result<usize, HandshakeError>)
        requires
            self.wf(),
        ensures
            match r {
                Ok(i) => self@.peer_of_sid(*sid) matches Some(k) && self.pk_map.at(i as int, k)
                    && self@.peers[k] == self.pk_map.entries@[i as int].1,
                Err(e) => self@.peer_of_sid(*sid) is None && e
                    == HandshakeError::UnknownReceiverId,
            },
    {
        match self.sessions.peer_of_sid(sid) {
            Some(pk_hash) => match self.pk_map.find(&pk_hash) {
                Some(i) => Ok(i),
                None => Err(HandshakeError::UnknownReceiverId),
            },
            None => Err(HandshakeError::UnknownReceiverId),
        }
    }

    /// Blames the source of a handshake that failed.
    fn blame(&mut self, src: Option<SocketAddr>, now: u64)
        requires
            old(self).wf(),
        ensures
            final(self).wf(),
            final(self)@ == old(self)@.blaming(src, now),
    {
        if let Some(addr) = src {
            self.gradient_dos_checker.record_failure(addr.ip, now);
        }
    }

    /// The first step of taking in an initiation.
    fn process_initiation(
        &mut self,
        msg: Initiation,
        src: Option<SocketAddr>,
        draws: &ProcessDraws,
        now: u64,
    ) -> (r: Result<Step, HandshakeError>)
        requires
            old(self).wf(),
            old(self)@.keys is Some,
        ensures
            final(self).wf(),
            initiation_step(old(self)@, final(self)@, msg, src, *draws, now, r),
    {
        if let Some(addr) = src {
            let inner = msg.noise.as_bytes();
            let cookie_valid = match &self.device_validator {
                Some(validator) => validator.check_mac2(&inner, &addr, &msg.macs, now),
                None => false,
            };
            let decision = self.gradient_dos_checker.precheck(
                &addr,
                cookie_valid,
                draws.challenge,
                now,
            );
            match decision {
                PrecheckDecision::Drop => {
                    return Ok(Step::Done(Output::nothing()));
                },
                PrecheckDecision::Challenge => {},
                PrecheckDecision::Allow => {},
            }
            let challenged = match decision {
                PrecheckDecision::Challenge => true,
                _ => !cookie_valid,
            };
            if challenged {
                if let Some(validator) = &mut self.device_validator {
                    let reply = create_cookie_reply(
                        validator,
                        &msg.noise.f_sender,
                        &addr,
                        &msg.macs,
                        draws,
                        now,
                    );
                    assert(is_cookie_reply(
                        reply,
                        old(self)@.validator->0,
                        self@.validator->0,
                        msg.noise.f_sender,
                        addr,
                        msg.macs,
                        *draws,
                        now,
                    ));
                    return Ok(Step::Done(Output::reply(reply.as_bytes())));
                }
                return Ok(Step::Done(Output::nothing()));
            }
        }
        match &self.keyst {
            Some(keyst) => match noise::consume_initiation_first_part(keyst, &msg.noise) {
                Ok(stage) => Ok(Step::Initiation(PendingInitiation { msg, src, stage })),
                Err(e) => {
                    self.blame(src, now);
                    Err(e)
                },
            },
            None => Ok(Step::Done(Output::nothing())),
        }
    }

    /// The first step of taking in a response.
    fn process_response(
        &mut self,
        msg: Response,
        src: Option<SocketAddr>,
        draws: &ProcessDraws,
        now: u64,
    ) -> (r: Result<Step, HandshakeError>)
        requires
            old(self).wf(),
            old(self)@.keys is Some,
        ensures
            final(self).wf(),
            response_step(old(self)@, final(self)@, msg, src, *draws, now, r),
    {
        let i = match self.lookup_sid(&msg.noise.f_receiver) {
            Ok(i) => i,
            Err(e) => return Err(e),
        };
        let ghost k = self@.peer_of_sid(msg.noise.f_receiver)->0;
        match noise::verify_response_hash(&msg.noise) {
            Ok(_) => {},
            Err(e) => return Err(e),
        }
        let inner = msg.noise.as_bytes();
        match self.pk_map.entries[i].1.macs_validator.check_mac1(&inner, &msg.macs) {
            Ok(_) => {},
            Err(e) => return Err(e),
        }
        if let Some(addr) = src {
            if !self.pk_map.entries[i].1.macs_validator.check_mac2(&inner, &addr, &msg.macs, now) {
                let reply = create_cookie_reply(
                    &mut self.pk_map.entries[i].1.macs_validator,
                    &msg.noise.f_sender,
                    &addr,
                    &msg.macs,
                    draws,
                    now,
                );
                proof {
                    self.lemma_peer_changed(*old(self), i as int, k);
                }
                return Ok(Step::Done(Output::reply(reply.as_bytes())));
            }
            if !self.limiter.allow(&addr.ip, now) {
                return Err(HandshakeError::RateLimited);
            }
        }
        let peer = &self.pk_map.entries[i].1;
        let ri_key = ri_key_for_epoch(self.ri_key, &peer.ratchet.k_ri);
        let pk_hash = self.pk_map.entries[i].0;
        match &self.keyst {
            Some(keyst) => match noise::consume_response_first_part(keyst, &msg.noise, peer) {
                Ok(stage) => Ok(
                    Step::Response(PendingResponse { msg: msg.noise, pk_hash, ri_key, stage }),
                ),
                Err(e) => Err(e),
            },
            None => Ok(Step::Done(Output::nothing())),
        }
    }

    /// Takes in a cookie reply.
    fn process_cookie_reply(&mut self, msg: CookieReply, now: u64) -> (r: Result<
        Step,
        HandshakeError,
    >)
        requires
            old(self).wf(),
        ensures
            final(self).wf(),
            cookie_step(old(self)@, final(self)@, msg, now, r),
    {
        let i = match self.lookup_sid(&msg.f_receiver) {
            Ok(i) => i,
            Err(e) => return Err(e),
        };
        let ghost k = self@.peer_of_sid(msg.f_receiver)->0;
        match self.pk_map.entries[i].1.macs.process(&msg.f_nonce, &msg.f_cookie, now) {
            Ok(_) => {
                proof {
                    self.lemma_peer_changed(*old(self), i as int, k);
                }
                Ok(Step::Done(Output::nothing()))
            },
            Err(e) => {
                proof {
                    self.lemma_peer_changed(*old(self), i as int, k);
                    assert(self.pk_map@ =~= old(self).pk_map@);
                }
                Err(e)
            },
        }
    }
}

/// Does the device follow from another one by what is done before every message? The load
/// is read if it is time for that, and handshakes that were answered and have timed out are
/// given up if it is time for that; `ids` are the indices of their sessions.
pub open spec fn is_housekept<O>(
    before: DeviceView<O>,
    after: DeviceView<O>,
    reading: RuntimeReading,
    ids: Seq<u32>,
    now: u64,
) -> bool {
    let read = before.dos.read(reading, now);
    &&& if elapsed_spec(read.last_reap, now) < HALF_OPEN_REAP_INTERVAL {
        ids == Seq::<u32>::empty() && after.dos == read
    } else {
        let searched = (DosView { last_reap: now, ..read }).sampled(now);
        let timeout = timeout_spec(searched.share(0, now));
        &&& ids.no_duplicates()
        &&& forall|id: u32| #[trigger] ids.contains(id) <==> searched.overdue(id, timeout, now)
        &&& after.dos == searched.reaped(ids, now)
    }
    &&& after == (DeviceView {
        dos: after.dos,
        sessions: before.sessions.freed_all(ids),
        ..before
    })
}

impl<O> DeviceView<O> {
    /// Is the session with this index given up before a message, because the handshake in it
    /// was answered and has timed out?
    pub open spec fn reaps(self, reading: RuntimeReading, id: u32, now: u64) -> bool {
        let read = self.dos.read(reading, now);
        let searched = (DosView { last_reap: now, ..read }).sampled(now);
        &&& elapsed_spec(read.last_reap, now) >= HALF_OPEN_REAP_INTERVAL
        &&& searched.overdue(id, timeout_spec(searched.share(0, now)), now)
    }
}

/// What is done before every message gives up no session but those in which a handshake was
/// answered and has timed out.
pub proof fn law_housekeeping_keeps_sessions<O>(
    before: DeviceView<O>,
    after: DeviceView<O>,
    reading: RuntimeReading,
    ids: Seq<u32>,
    now: u64,
    sid: SessionId,
)
    requires
        before.sessions.wf(),
        is_housekept(before, after, reading, ids, now),
        !before.reaps(reading, index_of(sid), now),
    ensures
        after.sessions.wf(),
        after.sessions.sid_peers.contains_key(sid) <==> before.sessions.sid_peers.contains_key(sid),
        after.peer_of_sid(sid) == before.peer_of_sid(sid),
{
    law_freed_all(before.sessions, ids, sid);
}

/// The message with the given bytes.
pub open spec fn initiation_of(bytes: Seq<u8>) -> Initiation {
    choose|msg: Initiation| msg.bytes() == bytes
}

/// The message with the given bytes.
pub open spec fn response_of(bytes: Seq<u8>) -> Response {
    choose|msg: Response| msg.bytes() == bytes
}

/// The message with the given bytes.
pub open spec fn cookie_reply_of(bytes: Seq<u8>) -> CookieReply {
    choose|msg: CookieReply| msg.bytes() == bytes
}

/// A message is the one with its bytes.
pub proof fn law_message_of_bytes(init: Initiation, resp: Response, cookie: CookieReply)
    ensures
        initiation_of(init.bytes()) == init,
        response_of(resp.bytes()) == resp,
        cookie_reply_of(cookie.bytes()) == cookie,
{
    initiation_of(init.bytes()).lemma_injective(init);
    response_of(resp.bytes()).lemma_injective(resp);
    cookie_reply_of(cookie.bytes()).lemma_injective(cookie);
}

/// What the first step makes of a message, once the house is kept: it goes by the first
/// four bytes.
pub open spec fn message_step<O>(
    before: DeviceView<O>,
    after: DeviceView<O>,
    msg: Seq<u8>,
    src: Option<SocketAddr>,
    draws: ProcessDraws,
    now: u64,
    r: Result<Step, HandshakeError>,
) -> bool {
    if Initiation::recognizes(msg) {
        initiation_step(before, after, initiation_of(msg), src, draws, now, r)
    } else if Response::recognizes(msg) {
        response_step(before, after, response_of(msg), src, draws, now, r)
    } else if CookieReply::recognizes(msg) {
        cookie_step(before, after, cookie_reply_of(msg), now, r)
    } else {
        is_failure(r, HandshakeError::InvalidMessageFormat) && after == before
    }
}

/// What the first step makes of a message. One that is too short, and any message to a device
/// without keys, changes nothing.
pub open spec fn process_step<O>(
    before: DeviceView<O>,
    after: DeviceView<O>,
    msg: Seq<u8>,
    src: Option<SocketAddr>,
    reading: RuntimeReading,
    draws: ProcessDraws,
    now: u64,
    r: Result<Step, HandshakeError>,
) -> bool {
    if msg.len() < 4 {
        is_failure(r, HandshakeError::InvalidMessageFormat) && after == before
    } else if before.keys is None {
        is_quiet(r) && after == before
    } else {
        exists|kept: DeviceView<O>, ids: Seq<u32>| #[trigger]
            is_housekept(before, kept, reading, ids, now) && message_step(
                kept,
                after,
                msg,
                src,
                draws,
                now,
                r,
            )
    }
}

impl<O> Device<O> {
    /// What is done before every message.
    fn keep_house(&mut self, reading: &RuntimeReading, now: u64) -> (ids: Ghost<Seq<u32>>)
        requires
            old(self).wf(),
            now <= LAST_TIME,
        ensures
            final(self).wf(),
            is_housekept(old(self)@, final(self)@, *reading, ids@, now),
    {
        self.gradient_dos_checker.sample_runtime_metrics(reading, now);
        let ids = self.gradient_dos_checker.reap_expired_half_open(now);
        self.sessions.free_all(&ids);
        Ghost(ids@)
    }

    /// The first step of taking in a message. `src` is where it came from; one that came
    /// from the network has a source. `reading` is needed where a new reading of the load is
    /// due.
    pub fn process(
        &mut self,
        msg: &[u8],
        src: Option<SocketAddr>,
        reading: &RuntimeReading,
        draws: &ProcessDraws,
        now: u64,
    ) -> (r: Result<Step, HandshakeError>)
        requires
            old(self).wf(),
            now <= LAST_TIME,
        ensures
            final(self).wf(),
            process_step(old(self)@, final(self)@, msg@, src, *reading, *draws, now, r),
    {
        if msg.len() < 4 {
            return Err(HandshakeError::InvalidMessageFormat);
        }
        if self.keyst.is_none() {
            return Ok(Step::Done(Output::nothing()));
        }
        let ids = self.keep_house(reading, now);
        let ghost kept = self@;
        assert(is_housekept(old(self)@, kept, *reading, ids@, now));
        let head: [u8; 4] = take(msg, 0);
        let kind = read_le(&head);
        if kind == TYPE_INITIATION as u64 {
            match Initiation::parse(msg) {
                Ok(parsed) => {
                    proof {
                        law_message_of_bytes(parsed, response_of(msg@), cookie_reply_of(msg@));
                    }
                    self.process_initiation(parsed, src, draws, now)
                },
                Err(e) => Err(e),
            }
        } else if kind == TYPE_RESPONSE as u64 {
            match Response::parse(msg) {
                Ok(parsed) => {
                    proof {
                        law_message_of_bytes(initiation_of(msg@), parsed, cookie_reply_of(msg@));
                    }
                    self.process_response(parsed, src, draws, now)
                },
                Err(e) => Err(e),
            }
        } else if kind == TYPE_COOKIE_REPLY as u64 {
            match CookieReply::parse(msg) {
                Ok(parsed) => {
                    proof {
                        law_message_of_bytes(initiation_of(msg@), response_of(msg@), parsed);
                    }
                    self.process_cookie_reply(parsed, now)
                },
                Err(e) => Err(e),
            }
        } else {
            Err(HandshakeError::InvalidMessageFormat)
        }
    }
}

/// Before an initiation with a source reaches the expensive part it must carry a valid cookie
/// for that source: without one, nothing is ever handed out for decapsulation.
pub proof fn law_cookie_before_decapsulation<O>(
    before: DeviceView<O>,
    after: DeviceView<O>,
    bytes: Seq<u8>,
    src: SocketAddr,
    reading: RuntimeReading,
    draws: ProcessDraws,
    now: u64,
    r: Result<Step, HandshakeError>,
)
    requires
        process_step(before, after, bytes, Some(src), reading, draws, now, r),
        r matches Ok(Step::Initiation(_)),
    ensures
        r matches Ok(Step::Initiation(pending)) && pending.msg == initiation_of(bytes)
            && pending.src == Some(src) && before.cookie_ok(pending.msg, src, now),
{
}

// ---------------------------------------------------------------------------
// Accepting an initiation
// ---------------------------------------------------------------------------

/// What becomes of an initiation once its sender is named. It is refused if the sender is no
/// peer, if the ratchet does not match, if the first tag is wrong, if the source sends too
/// often, or if it is not acceptable as such; a failure is blamed on the source. An accepted
/// one is counted, and a handshake that this side has started is given up.
pub open spec fn named_step<O>(
    before: DeviceView<O>,
    after: DeviceView<O>,
    pending: PendingInitiation,
    who: Initiator,
    now: u64,
    unix_secs: u64,
    r: Result<AcceptedInitiation, HandshakeError>,
) -> bool {
    let msg = pending.msg.noise;
    let src = pending.src;
    let peer = before.peers[who.pk_hash];
    let (limited, allowed) = before.limit(src, now);
    if !before.peers.contains_key(who.pk_hash) {
        is_failure(r, HandshakeError::UnknownPublicKey) && after == before.blaming(src, now)
    } else {
        match peer.ratchet.response_spec(msg.f_mode, msg.f_epoch, msg.f_ratchet_kid@) {
            Err(e) => is_failure(r, e) && after == before.blaming(src, now),
            Ok(ratchet) => if !peer.macs_validator.mac1_ok(msg.bytes(), pending.msg.macs) {
                is_failure(r, HandshakeError::InvalidMac1) && after == before.blaming(src, now)
            } else if !allowed {
                is_failure(r, HandshakeError::RateLimited) && after == limited.blaming(src, now)
            } else {
                match acceptance_verdict(peer, who, msg, ratchet, before.ri_key, now, unix_secs) {
                    Err(e) => is_failure(r, e) && after == limited.blaming(src, now),
                    Ok(k) => {
                        let accepted = limited.with_peer(
                            who.pk_hash,
                            peer.after_initiation(k, now),
                        ).releasing_if(peer.state.local_id());
                        if ratchet_secret_missing(ratchet) {
                            is_failure(r, HandshakeError::RatchetStateMissing) && after
                                == accepted.blaming(src, now)
                        } else {
                            &&& after == accepted
                            &&& r matches Ok(initiation)
                            &&& initiation.pk_hash == who.pk_hash
                            &&& initiation.src == src
                            &&& is_second_stage(
                                initiation.stage,
                                peer,
                                who,
                                msg,
                                ratchet,
                                before.ri_key,
                            )
                        }
                    },
                }
            },
        }
    }
}

/// What becomes of an initiation, with the secret that its static ciphertext was decapsulated
/// to. If no sender can be named, the source is blamed.
pub open spec fn acceptance_step<O>(
    before: DeviceView<O>,
    after: DeviceView<O>,
    pending: PendingInitiation,
    shk: Option<[u8; 32]>,
    now: u64,
    unix_secs: u64,
    r: Result<AcceptedInitiation, HandshakeError>,
) -> bool {
    let stage = pending.stage;
    match identity_verdict(stage.ck@, stage.hs@, stage.dh@, pending.msg.noise, shk) {
        Err(e) => is_failure(r, e) && after == before.blaming(pending.src, now),
        Ok(plain) => exists|who: Initiator| #[trigger]
            names_initiator(stage, pending.msg.noise, shk->0@, plain, who) && named_step(
                before,
                after,
                pending,
                who,
                now,
                unix_secs,
                r,
            ),
    }
}

impl<O> Device<O> {
    /// Accepts or refuses an initiation, with the secret that its static ciphertext was
    /// decapsulated to.
    pub fn accept_initiation(
        &mut self,
        pending: &PendingInitiation,
        shk: Option<[u8; 32]>,
        now: u64,
        unix_secs: u64,
    ) -> (r: Result<AcceptedInitiation, HandshakeError>)
        requires
            old(self).wf(),
        ensures
            final(self).wf(),
            acceptance_step(old(self)@, final(self)@, *pending, shk, now, unix_secs, r),
    {
        let msg = &pending.msg.noise;
        let src = pending.src;
        let who = match noise::identify_initiator(&pending.stage, msg, shk) {
            Ok(who) => who,
            Err(e) => {
                self.blame(src, now);
                return Err(e);
            },
        };
        let ghost plain = identity_verdict(
            pending.stage.ck@,
            pending.stage.hs@,
            pending.stage.dh@,
            pending.msg.noise,
            shk,
        )->Ok_0;
        assert(names_initiator(pending.stage, pending.msg.noise, shk->0@, plain, who));
        let i = match self.pk_map.find(&who.pk_hash) {
            Some(i) => i,
            None => {
                self.blame(src, now);
                return Err(HandshakeError::UnknownPublicKey);
            },
        };
        let ratchet = match self.pk_map.entries[i].1.ratchet.response_snapshot(
            msg.f_mode,
            msg.f_epoch,
            &msg.f_ratchet_kid,
        ) {
            Ok(ratchet) => ratchet,
            Err(e) => {
                self.blame(src, now);
                return Err(e);
            },
        };
        let inner = msg.as_bytes();
        match self.pk_map.entries[i].1.macs_validator.check_mac1(&inner, &pending.msg.macs) {
            Ok(_) => {},
            Err(e) => {
                self.blame(src, now);
                return Err(e);
            },
        }
        if let Some(addr) = src {
            if !self.limiter.allow(&addr.ip, now) {
                self.blame(src, now);
                return Err(HandshakeError::RateLimited);
            }
        }
        let ghost limited = *self;
        let ri_key = self.ri_key;
        let (local, outcome) = noise::consume_initiation_second_part(
            &mut self.pk_map.entries[i].1,
            &who,
            msg,
            ratchet,
            ri_key,
            now,
            unix_secs,
        );
        proof {
            self.lemma_peer_changed(limited, i as int, who.pk_hash);
            if local is None && self.pk_map.entries@[i as int].1
                == limited.pk_map.entries@[i as int].1 {
                assert(self.pk_map@ =~= limited.pk_map@);
            }
        }
        if let Some(id) = local {
            self.release_any(id);
        }
        match outcome {
            Ok(stage) => Ok(AcceptedInitiation { pk_hash: who.pk_hash, src, stage }),
            Err(e) => {
                self.blame(src, now);
                Err(e)
            },
        }
    }
}

/// An initiation is accepted once. When the same message comes again, it is refused, as long
/// as the device keeps the peer and the secrets it shares with it: accepting an initiation
/// leaves its counter behind, and counters only grow. The second message changes no peer. If
/// the ratchet still answers it, its first tag is right, its source may send and its
/// rendezvous proof is still valid, it is refused for its old counter.
pub proof fn law_initiation_is_accepted_once<O>(
    before: DeviceView<O>,
    after: DeviceView<O>,
    pending: PendingInitiation,
    who: Initiator,
    now: u64,
    unix_secs: u64,
    r: Result<AcceptedInitiation, HandshakeError>,
    later: DeviceView<O>,
    later_after: DeviceView<O>,
    again: PendingInitiation,
    later_now: u64,
    later_unix_secs: u64,
    later_r: Result<AcceptedInitiation, HandshakeError>,
)
    requires
        named_step(before, after, pending, who, now, unix_secs, r),
        r is Ok,
        later.peers.contains_key(who.pk_hash),
        later.peers[who.pk_hash].k_recv >= after.peers[who.pk_hash].k_recv,
        ({
            let peer = before.peers[who.pk_hash];
            let kept = later.peers[who.pk_hash];
            &&& kept.ss@ == peer.ss@
            &&& kept.psk@ == peer.psk@
            &&& kept.hash_static_pq_recv@ == peer.hash_static_pq_recv@
            &&& kept.h_id_recv@ == peer.h_id_recv@
        }),
        again.msg.noise == pending.msg.noise,
        named_step(later, later_after, again, who, later_now, later_unix_secs, later_r),
    ensures
        later_r is Err,
        after.peers[who.pk_hash].k_recv > before.peers[who.pk_hash].k_recv,
        later_after.peers == later.peers,
        ({
            let kept = later.peers[who.pk_hash];
            let msg = again.msg.noise;
            &&& kept.ratchet.response_spec(
                msg.f_mode,
                msg.f_epoch,
                msg.f_ratchet_kid@,
            ) matches Ok(ratchet)
            &&& kept.macs_validator.mac1_ok(msg.bytes(), again.msg.macs)
            &&& later.limit(again.src, later_now).1
            &&& rendezvous_ok(kept, who, ratchet, later.ri_key, later_unix_secs)
        }) ==> is_failure(later_r, HandshakeError::OldTimestamp),
{
}

// ---------------------------------------------------------------------------
// Answering an initiation
// ---------------------------------------------------------------------------

/// Is the output the answer to an accepted initiation, `resp` the message in it, and `after`
/// the peer that was answered?
pub open spec fn is_answer<O>(
    peer: Peer<O>,
    after: Peer<O>,
    sid: SessionId,
    state: TemporaryState,
    inputs: ResponseInputs,
    resp: Response,
    out: Output,
    now: u64,
) -> bool {
    &&& is_response(peer, sid, state, inputs, resp.noise)
    &&& response_opens(peer, state, inputs, resp.noise)
    &&& resp.macs.f_mac1@ == peer.macs.mac1(resp.noise.bytes())
    &&& resp.macs.f_mac2@ == peer.macs.mac2(resp.noise.bytes(), now)
    &&& after.ratchet.pending_local matches Some(offer)
    &&& is_offer(offer, peer, state, inputs, resp.noise)
    &&& after == (Peer {
        ratchet: peer.ratchet.staged(state.ratchet, offer),
        macs: peer.macs.after_generate(resp.macs.f_mac1, now),
        ..peer
    })
    &&& out.peer == Some(peer.pk_hash)
    &&& out.reply matches Some(bytes)
    &&& bytes@ == resp.bytes()
    &&& out.keys matches Some(pair)
    &&& is_responder_pair(
        pair,
        responder_keys(peer, state, inputs, resp.noise).ck,
        sid,
        state.sender,
        now,
    )
}

/// What becomes of an accepted initiation once its ratchet is tied in. In a session whose
/// identifier is in use nothing happens. Where no response is possible the session is given
/// up and the source is blamed; else the peer is answered, and until the session is used the
/// handshake counts as half open.
pub open spec fn answer_step<O>(
    before: DeviceView<O>,
    after: DeviceView<O>,
    accepted: AcceptedInitiation,
    state: TemporaryState,
    sid: SessionId,
    inputs: ResponseInputs,
    now: u64,
    r: Result<Option<Output>, HandshakeError>,
) -> bool {
    let k = accepted.pk_hash;
    let peer = before.peers[k];
    let opened = DeviceView {
        sessions: before.sessions.allocated(sid, k),
        dos: match accepted.src {
            Some(addr) => before.dos.registered(index_of(sid), addr.ip, now),
            None => before.dos,
        },
        ..before
    };
    if !before.sessions.is_free(sid) {
        r == Ok::<Option<Output>, HandshakeError>(None) && after == before
    } else if response_fails(peer, state, inputs) {
        is_failure(r, HandshakeError::InvalidSharedSecret) && after == opened.releasing(
            index_of(sid),
        ).blaming(accepted.src, now)
    } else {
        &&& after == (DeviceView {
            dos: match accepted.src {
                Some(addr) => opened.dos.success(addr.ip, now),
                None => opened.dos,
            },
            ..opened.with_peer(k, after.peers[k])
        })
        &&& r matches Ok(Some(out))
        &&& exists|resp: Response| #[trigger]
            is_answer(peer, after.peers[k], sid, state, inputs, resp, out, now)
    }
}

/// What becomes of an accepted initiation, with the secret that its ratchet ciphertext was
/// decapsulated to.
pub open spec fn reply_step<O>(
    before: DeviceView<O>,
    after: DeviceView<O>,
    accepted: AcceptedInitiation,
    shared: Option<[u8; 32]>,
    sid: SessionId,
    inputs: ResponseInputs,
    now: u64,
    r: Result<Option<Output>, HandshakeError>,
) -> bool {
    let blamed = before.blaming(accepted.src, now);
    if !before.peers.contains_key(accepted.pk_hash) {
        is_failure(r, HandshakeError::UnknownPublicKey) && after == blamed
    } else if accepted.stage.ratchet.mode == MODE_RATCHET && shared is None {
        is_failure(r, HandshakeError::DecryptionFailure) && after == blamed
    } else {
        exists|state: TemporaryState| #[trigger]
            is_temporary_state(state, accepted.stage, shared) && answer_step(
                before,
                after,
                accepted,
                state,
                sid,
                inputs,
                now,
                r,
            )
    }
}

impl<O> Device<O> {
    /// Answers an accepted initiation in a session with the identifier `sid`. `shared` is the
    /// secret that the ratchet ciphertext was decapsulated to. Where the identifier is in
    /// use, nothing happens and nothing is returned.
    pub fn respond(
        &mut self,
        accepted: &AcceptedInitiation,
        shared: Option<[u8; 32]>,
        sid: SessionId,
        inputs: &ResponseInputs,
        now: u64,
    ) -> (r: Result<Option<Output>, HandshakeError>)
        requires
            old(self).wf(),
            inputs.wf(),
            accepted.stage.ratchet.epoch < u64::MAX,
        ensures
            final(self).wf(),
            reply_step(old(self)@, final(self)@, *accepted, shared, sid, *inputs, now, r),
    {
        let src = accepted.src;
        let i = match self.pk_map.find(&accepted.pk_hash) {
            Some(i) => i,
            None => {
                self.blame(src, now);
                return Err(HandshakeError::UnknownPublicKey);
            },
        };
        let state = match noise::finish_initiation(&accepted.stage, shared) {
            Ok(state) => state,
            Err(e) => {
                self.blame(src, now);
                return Err(e);
            },
        };
        assert(is_temporary_state(state, accepted.stage, shared));
        let ghost peer = self.pk_map.entries@[i as int].1;
        if !self.sessions.allocate(sid, accepted.pk_hash) {
            return Ok(None);
        }
        let local = session_index(&sid);
        if let Some(addr) = src {
            self.gradient_dos_checker.register_half_open(local, addr.ip, now);
        }
        let ghost opened = *self;
        match noise::create_response(&mut self.pk_map.entries[i].1, sid, &state, inputs, now) {
            Ok((noise_part, pair)) => {
                if let Some(addr) = src {
                    self.gradient_dos_checker.record_success(addr.ip, now);
                }
                let inner = noise_part.as_bytes();
                let macs = self.pk_map.entries[i].1.macs.generate(&inner, now);
                let resp = Response { noise: noise_part, macs };
                let out = Output {
                    peer: Some(self.pk_map.entries[i].1.pk_hash),
                    reply: Some(resp.as_bytes()),
                    keys: Some(pair),
                };
                proof {
                    self.lemma_peer_changed(opened, i as int, accepted.pk_hash);
                    assert(is_answer(
                        peer,
                        self@.peers[accepted.pk_hash],
                        sid,
                        state,
                        *inputs,
                        resp,
                        out,
                        now,
                    ));
                }
                Ok(Some(out))
            },
            Err(e) => {
                proof {
                    self.lemma_peer_changed(opened, i as int, accepted.pk_hash);
                    assert(self.pk_map@ =~= opened.pk_map@);
                }
                self.release_any(local);
                self.blame(src, now);
                Err(e)
            },
        }
    }
}

// ---------------------------------------------------------------------------
// Completing a handshake
// ---------------------------------------------------------------------------

/// What becomes of a response once its ciphertexts are decapsulated.
pub open spec fn completion_step<O>(
    before: DeviceView<O>,
    after: DeviceView<O>,
    pending: PendingResponse,
    shk_master: Option<[u8; 32]>,
    shk_static: Option<[u8; 32]>,
    now: u64,
    unix_secs: u64,
    r: Result<Output, HandshakeError>,
) -> bool {
    let k = pending.pk_hash;
    let peer = before.peers[k];
    if !before.peers.contains_key(k) {
        is_failure(r, HandshakeError::UnknownReceiverId) && after == before
    } else {
        match response_verdict(
            peer,
            pending.stage,
            pending.msg,
            pending.ri_key@,
            shk_master,
            shk_static,
            unix_secs,
        ) {
            Err(e) => is_failure(r, e) && after == before,
            Ok(plain) => {
                let keys = initiator_keys(
                    peer,
                    pending.stage,
                    pending.msg,
                    shk_master->0@,
                    shk_static->0@,
                );
                let ratchet = after.peers[k].ratchet;
                &&& is_committed(peer.ratchet, ratchet, pending.stage, keys, pending.msg, plain)
                &&& after == before.with_peer(k, Peer { state: State::Reset, ratchet, ..peer })
                &&& r matches Ok(out)
                &&& out.peer == Some(k)
                &&& out.reply is None
                &&& out.keys matches Some(pair)
                &&& is_initiator_pair(
                    pair,
                    keys.ck,
                    pending.stage.local,
                    pending.msg.f_sender,
                    now,
                )
            },
        }
    }
}

impl<O> Device<O> {
    /// Completes a handshake with the response to it, and with the secrets that the
    /// ciphertexts in the response were decapsulated to.
    pub fn complete(
        &mut self,
        pending: &PendingResponse,
        shk_master: Option<[u8; 32]>,
        shk_static: Option<[u8; 32]>,
        now: u64,
        unix_secs: u64,
    ) -> (r: Result<Output, HandshakeError>)
        requires
            old(self).wf(),
            pending.stage.epoch < u64::MAX,
        ensures
            final(self).wf(),
            completion_step(
                old(self)@,
                final(self)@,
                *pending,
                shk_master,
                shk_static,
                now,
                unix_secs,
                r,
            ),
    {
        let i = match self.pk_map.find(&pending.pk_hash) {
            Some(i) => i,
            None => return Err(HandshakeError::UnknownReceiverId),
        };
        let outcome = noise::consume_response(
            &mut self.pk_map.entries[i].1,
            &pending.stage,
            &pending.msg,
            &pending.ri_key,
            shk_master,
            shk_static,
            now,
            unix_secs,
        );
        proof {
            self.lemma_peer_changed(*old(self), i as int, pending.pk_hash);
        }
        match outcome {
            Ok(pair) => Ok(
                Output { peer: Some(pending.pk_hash), reply: None, keys: Some(pair) },
            ),
            Err(e) => {
                assert(self.pk_map@ =~= old(self).pk_map@);
                Err(e)
            },
        }
    }
}

/// A response is accepted once. A handshake that is completed waits for nothing more: until
/// the device starts another handshake with the peer, no response to it is looked into, and
/// one that was looked into before completes nothing.
pub proof fn law_response_is_accepted_once<O>(
    before: DeviceView<O>,
    after: DeviceView<O>,
    pending: PendingResponse,
    shk_master: Option<[u8; 32]>,
    shk_static: Option<[u8; 32]>,
    now: u64,
    unix_secs: u64,
    r: Result<Output, HandshakeError>,
    later: DeviceView<O>,
    msg: Response,
    src: Option<SocketAddr>,
    draws: ProcessDraws,
    later_found: DeviceView<O>,
    later_step: Result<Step, HandshakeError>,
    again: PendingResponse,
    later_master: Option<[u8; 32]>,
    later_static: Option<[u8; 32]>,
    later_after: DeviceView<O>,
    later_now: u64,
    later_unix_secs: u64,
    later_r: Result<Output, HandshakeError>,
)
    requires
        completion_step(before, after, pending, shk_master, shk_static, now, unix_secs, r),
        r is Ok,
        later.peers.contains_key(pending.pk_hash),
        later.peers[pending.pk_hash].state == after.peers[pending.pk_hash].state,
        response_step(later, later_found, msg, src, draws, later_now, later_step),
        later.peer_of_sid(msg.noise.f_receiver) == Some(pending.pk_hash),
        again.pk_hash == pending.pk_hash,
        completion_step(
            later,
            later_after,
            again,
            later_master,
            later_static,
            later_now,
            later_unix_secs,
            later_r,
        ),
    ensures
        !(later_step matches Ok(Step::Response(_))),
        later_r is Err,
{
}

} // verus!
