//! Starting handshakes and taking in handshake messages.
//!
//! A message is taken in step by step. Where a key encapsulation is needed, a step ends with
//! what has to be decapsulated; the caller does that and goes on with the next step.

use crate::bytes::{read_le, take};
use crate::crypto::{xchacha20poly1305_open, xchacha20poly1305_seal};
use crate::hybrid_v1::device::{Device, DeviceView};
use crate::hybrid_v1::messages::{
    CookieReply, Initiation, NoiseResponse, Response, TYPE_COOKIE_REPLY, TYPE_INITIATION,
    TYPE_RESPONSE,
};
use crate::hybrid_v1::noise;
use crate::hybrid_v1::noise::{
    acceptance_verdict, initiation_fails, initiation_opens, initiator_keys, is_first_stage,
    is_initiation, is_initiator_pair, is_responder_pair, is_response, is_response_stage,
    is_temporary_state, names_initiator, received_identity, remembers, responder_keys,
    response_failure, response_fails, response_opens, response_refusal, FirstStage,
    InitiationInputs, Initiator, ResponseInputs, ResponseStage, TemporaryState,
};
use crate::hybrid_v1::peer::{Peer, State};
use crate::hybrid_v23::messages::MacsFooter;
use crate::macs::{Generator, Validator};
use crate::ratelimiter::allow_spec;
use crate::session_table::index_get;
use crate::types::{HandshakeError, Output, SocketAddr};
use vstd::prelude::*;

verus! {

// ---------------------------------------------------------------------------
// Starting a handshake
// ---------------------------------------------------------------------------

/// Did the step fail with this error?
pub open spec fn is_failure<T>(r: Result<T, HandshakeError>, e: HandshakeError) -> bool {
    r == Err::<T, HandshakeError>(e)
}

/// Is `msg` the initiation for a peer, and `after` the peer that waits for the response?
pub open spec fn is_begun<O>(
    own_pk_hash: Seq<u8>,
    peer: Peer<O>,
    after: Peer<O>,
    id: u32,
    inputs: InitiationInputs,
    msg: Initiation,
    now: u64,
) -> bool {
    &&& is_initiation(own_pk_hash, peer, id, inputs, msg.noise)
    &&& initiation_opens(own_pk_hash, peer, inputs, msg.noise)
    &&& remembers(after.state, peer, id, inputs, msg.noise)
    &&& msg.macs.f_mac1@ == peer.macs.mac1(msg.noise.bytes())
    &&& msg.macs.f_mac2@ == peer.macs.mac2(msg.noise.bytes(), now)
    &&& after == (Peer {
        state: after.state,
        k_send: (peer.k_send + 1) as u128,
        macs: peer.macs.after_generate(msg.macs.f_mac1, now),
        ..peer
    })
}

/// Was a message with these bytes returned?
pub open spec fn is_message(r: Result<Option<Vec<u8>>, HandshakeError>, bytes: Seq<u8>) -> bool {
    r matches Ok(Some(v)) && v@ == bytes
}

/// What has to be encapsulated before a handshake can be started: the static key of the
/// peer. `sent` initiations were sent so far.
pub struct InitiationPlan<'a> {
    pub static_key: &'a Vec<u8>,
    pub sent: u128,
}

/// What becomes of the start of a handshake with a peer, in a session with the index `id`.
/// Where that index is in use, nothing happens; it stays taken where no initiation is possible.
pub open spec fn begin_step<O>(
    before: DeviceView<O>,
    after: DeviceView<O>,
    k: [u8; 32],
    id: u32,
    inputs: InitiationInputs,
    now: u64,
    r: Result<Option<Vec<u8>>, HandshakeError>,
) -> bool {
    let peer = before.peers[k];
    let opened = DeviceView { ids: before.ids.insert(id, k), ..before };
    if before.keys is None || !before.peers.contains_key(k) {
        is_failure(r, HandshakeError::UnknownPublicKey) && after == before
    } else if before.ids.contains_key(id) {
        r == Ok::<Option<Vec<u8>>, HandshakeError>(None) && after == before
    } else if initiation_fails(peer, inputs) {
        is_failure(r, HandshakeError::InvalidSharedSecret) && after == opened
    } else {
        exists|msg: Initiation| #[trigger]
            is_begun(before.keys->0.pk_hash@, peer, after.peers[k], id, inputs, msg, now)
                && is_message(r, msg.bytes()) && after == opened.with_peer(k, after.peers[k])
    }
}

impl<O> Device<O> {
    /// What has to be encapsulated before a handshake with a peer can be started.
    pub fn plan_initiation<'a>(&'a self, pk_hash: &[u8; 32]) -> (r: Result<
        InitiationPlan<'a>,
        HandshakeError,
    >)
        requires
            self.wf(),
        ensures
            match r {
                Ok(plan) => self@.keys is Some && self@.peers.contains_key(*pk_hash)
                    && *plan.static_key == self@.peers[*pk_hash].pk_pq && plan.sent
                    == self@.peers[*pk_hash].k_send,
                Err(e) => (self@.keys is None || !self@.peers.contains_key(*pk_hash)) && e
                    == HandshakeError::UnknownPublicKey,
            },
    {
        if self.keyst.is_none() {
            return Err(HandshakeError::UnknownPublicKey);
        }
        match self.pk_map.find(pk_hash) {
            Some(i) => {
                let peer = &self.pk_map.entries[i].1;
                Ok(InitiationPlan { static_key: &peer.pk_pq, sent: peer.k_send })
            },
            None => Err(HandshakeError::UnknownPublicKey),
        }
    }

    /// Starts a handshake with a peer, in a session with the index `id`. Where that index is
    /// in use, nothing happens and nothing is returned. The index stays taken where no
    /// initiation is possible.
    pub fn begin(
        &mut self,
        pk_hash: &[u8; 32],
        id: u32,
        inputs: &InitiationInputs,
        now: u64,
    ) -> (r: Result<Option<Vec<u8>>, HandshakeError>)
        requires
            old(self).wf(),
            old(self)@.peers.contains_key(*pk_hash) ==> old(self)@.peers[*pk_hash].k_send
                < u128::MAX,
        ensures
            final(self).wf(),
            begin_step(old(self)@, final(self)@, *pk_hash, id, *inputs, now, r),
    {
        let i = match self.pk_map.find(pk_hash) {
            Some(i) => i,
            None => return Err(HandshakeError::UnknownPublicKey),
        };
        if self.keyst.is_none() {
            return Err(HandshakeError::UnknownPublicKey);
        }
        let hash = self.pk_map.entries[i].1.pk_hash;
        if !self.allocate(id, hash) {
            return Ok(None);
        }
        let ghost opened = *self;
        let ghost peer = self.pk_map.entries@[i as int].1;
        let keyst = self.keyst.as_ref().unwrap();
        match noise::create_initiation(keyst, &mut self.pk_map.entries[i].1, id, inputs) {
            Ok(noise_part) => {
                let inner = noise_part.as_bytes();
                let macs = self.pk_map.entries[i].1.macs.generate(&inner, now);
                let msg = Initiation { noise: noise_part, macs };
                proof {
                    self.lemma_peer_changed(opened, i as int, *pk_hash);
                    assert(is_begun(
                        old(self)@.keys->0.pk_hash@,
                        peer,
                        self@.peers[*pk_hash],
                        id,
                        *inputs,
                        msg,
                        now,
                    ));
                }
                Ok(Some(msg.as_bytes()))
            },
            Err(e) => {
                proof {
                    self.lemma_peer_changed(opened, i as int, *pk_hash);
                    assert(self.pk_map@ =~= opened.pk_map@);
                }
                Err(e)
            },
        }
    }
}

// ---------------------------------------------------------------------------
// Taking in a message
// ---------------------------------------------------------------------------

/// The random numbers that a cookie reply may use: for the encryption of the cookie, and for
/// the secret behind the cookies.
pub struct CookieDraws {
    pub nonce: [u8; 24],
    pub fresh: [u8; 32],
}

/// An initiation whose static ciphertext has to be decapsulated.
pub struct PendingInitiation {
    pub msg: Initiation,
    pub src: Option<SocketAddr>,
    pub stage: FirstStage,
}

/// An initiation that was accepted.
pub struct AcceptedInitiation {
    pub pk_hash: [u8; 32],
    pub state: TemporaryState,
}

/// A response whose ciphertexts have to be decapsulated.
pub struct PendingResponse {
    pub msg: NoiseResponse,
    pub pk_hash: [u8; 32],
    pub stage: ResponseStage,
}

/// Where a step of taking in a message ends.
pub enum Step {
    Done(Output),
    Initiation(PendingInitiation),
    Accepted(AcceptedInitiation),
    Response(PendingResponse),
}

/// Did the step end with nothing to do?
pub open spec fn is_quiet(r: Result<Step, HandshakeError>) -> bool {
    r matches Ok(Step::Done(out)) && out.is_nothing()
}

/// Did the step end with a message to send, and nothing else?
pub open spec fn is_reply(r: Result<Step, HandshakeError>, bytes: Seq<u8>) -> bool {
    &&& r matches Ok(Step::Done(out))
    &&& out.peer is None
    &&& out.keys is None
    &&& out.reply matches Some(v)
    &&& v@ == bytes
}

/// Is it the reply that hands out the cookie of `src` to the sender of a message, and
/// `after` the validator that made it?
pub open spec fn is_cookie_reply(
    reply: CookieReply,
    before: Validator,
    after: Validator,
    receiver: u32,
    src: SocketAddr,
    macs: MacsFooter,
    draws: CookieDraws,
    now: u64,
) -> bool {
    &&& after.is_refreshed(before, draws.fresh@, now)
    &&& reply.f_type == TYPE_COOKIE_REPLY
    &&& reply.f_receiver == receiver
    &&& reply.f_nonce == draws.nonce
    &&& reply.f_cookie@ == xchacha20poly1305_seal(
        before.cookie_key@,
        draws.nonce@,
        macs.f_mac1@,
        after.tau(src),
    )
    &&& xchacha20poly1305_open(
        before.cookie_key@,
        draws.nonce@,
        macs.f_mac1@,
        reply.f_cookie@,
    ) == Some(after.tau(src))
}

/// Makes the reply that hands out the cookie of `src` to the sender of a message.
fn create_cookie_reply(
    validator: &mut Validator,
    receiver: u32,
    src: &SocketAddr,
    macs: &MacsFooter,
    draws: &CookieDraws,
    now: u64,
) -> (r: CookieReply)
    ensures
        is_cookie_reply(
            r,
            *old(validator),
            *final(validator),
            receiver,
            *src,
            *macs,
            *draws,
            now,
        ),
{
    let f_cookie = validator.seal_cookie(src, &macs.f_mac1, &draws.nonce, &draws.fresh, now);
    CookieReply { f_type: TYPE_COOKIE_REPLY, f_receiver: receiver, f_nonce: draws.nonce, f_cookie }
}

/// What the tags of a message and the rate of its source lead to, before its contents are
/// looked at.
pub enum Admission {
    Refused(HandshakeError),
    Challenged(Vec<u8>),
    Admitted,
}

impl<O> DeviceView<O> {
    /// The peer of a session index.
    pub open spec fn peer_of_id(self, id: u32) -> Option<[u8; 32]> {
        if self.ids.contains_key(id) && self.peers.contains_key(self.ids[id]) {
            Some(self.ids[id])
        } else {
            None
        }
    }

    /// May a source send another message, and which limits hold afterwards?
    pub open spec fn limit(self, src: Option<SocketAddr>, now: u64) -> (Self, bool) {
        match src {
            Some(addr) => {
                let (limits, allowed) = allow_spec(self.limits, addr.ip, now);
                (DeviceView { limits, ..self }, allowed)
            },
            None => (self, true),
        }
    }
}

/// What becomes of a message from a peer, by its tags and its source: the first tag must be
/// right; a message with a source needs a valid cookie for it, or one is handed out, and the
/// source must not send too often.
pub open spec fn admission_step<O>(
    before: DeviceView<O>,
    after: DeviceView<O>,
    k: [u8; 32],
    inner: Seq<u8>,
    macs: MacsFooter,
    sender: u32,
    src: Option<SocketAddr>,
    draws: CookieDraws,
    now: u64,
    r: Admission,
) -> bool {
    let peer = before.peers[k];
    let (limited, allowed) = before.limit(src, now);
    if !peer.macs_validator.mac1_ok(inner, macs) {
        r == Admission::Refused(HandshakeError::InvalidMac1) && after == before
    } else if src is Some && !peer.macs_validator.mac2_ok(inner, src->0, macs, now) {
        &&& after == before.with_peer(
            k,
            Peer { macs_validator: after.peers[k].macs_validator, ..peer },
        )
        &&& r matches Admission::Challenged(bytes)
        &&& exists|reply: CookieReply| #[trigger]
            is_cookie_reply(
                reply,
                peer.macs_validator,
                after.peers[k].macs_validator,
                sender,
                src->0,
                macs,
                draws,
                now,
            ) && bytes@ == reply.bytes()
    } else if !allowed {
        r == Admission::Refused(HandshakeError::RateLimited) && after == limited
    } else {
        r is Admitted && after == limited
    }
}

/// How a step ends that the admission ends.
pub open spec fn ends_with(admission: Admission, r: Result<Step, HandshakeError>) -> bool {
    match admission {
        Admission::Refused(e) => is_failure(r, e),
        Admission::Challenged(bytes) => is_reply(r, bytes@),
        Admission::Admitted => false,
    }
}

/// What the first step makes of an initiation.
pub open spec fn initiation_step<O>(
    device: DeviceView<O>,
    msg: Initiation,
    src: Option<SocketAddr>,
    r: Result<Step, HandshakeError>,
) -> bool {
    if crate::crypto::x25519(device.keys->0.sk@, msg.noise.f_ephemeral@) == crate::bytes::zeros(
        32,
    ) {
        is_failure(r, HandshakeError::InvalidSharedSecret)
    } else {
        &&& r matches Ok(Step::Initiation(pending))
        &&& pending.msg == msg
        &&& pending.src == src
        &&& is_first_stage(pending.stage, device.keys->0, msg.noise)
    }
}

/// What an admitted response leads to.
pub open spec fn admitted_response_step<O>(
    device: DeviceView<O>,
    k: [u8; 32],
    msg: NoiseResponse,
    r: Result<Step, HandshakeError>,
) -> bool {
    let peer = device.peers[k];
    match response_refusal(device.keys->0, peer.state, msg) {
        Some(e) => is_failure(r, e),
        None => {
            &&& r matches Ok(Step::Response(pending))
            &&& pending.msg == msg
            &&& pending.pk_hash == k
            &&& is_response_stage(pending.stage, device.keys->0, peer.state, msg)
        },
    }
}

/// What the first step makes of a response.
pub open spec fn response_step<O>(
    before: DeviceView<O>,
    after: DeviceView<O>,
    msg: Response,
    src: Option<SocketAddr>,
    draws: CookieDraws,
    now: u64,
    r: Result<Step, HandshakeError>,
) -> bool {
    match before.peer_of_id(msg.noise.f_receiver) {
        None => is_failure(r, HandshakeError::UnknownReceiverId) && after == before,
        Some(k) => exists|admission: Admission| #[trigger]
            admission_step(
                before,
                after,
                k,
                msg.noise.bytes(),
                msg.macs,
                msg.noise.f_sender,
                src,
                draws,
                now,
                admission,
            ) && if admission is Admitted {
                admitted_response_step(after, k, msg.noise, r)
            } else {
                ends_with(admission, r)
            },
    }
}

/// What the first step makes of a cookie reply.
pub open spec fn cookie_step<O>(
    before: DeviceView<O>,
    after: DeviceView<O>,
    msg: CookieReply,
    now: u64,
    r: Result<Step, HandshakeError>,
) -> bool {
    match before.peer_of_id(msg.f_receiver) {
        None => is_failure(r, HandshakeError::UnknownReceiverId) && after == before,
        Some(k) => {
            let peer = before.peers[k];
            match peer.macs.opened(msg.f_nonce@, msg.f_cookie@) {
                Some(value) => {
                    &&& is_quiet(r)
                    &&& after.peers[k].macs.cookie matches Some(cookie)
                    &&& cookie.birth == now
                    &&& cookie.value@ == value
                    &&& after == before.with_peer(
                        k,
                        Peer { macs: Generator { cookie: Some(cookie), ..peer.macs }, ..peer },
                    )
                },
                None => is_failure(
                    r,
                    if peer.macs.last_mac1 is None {
                        HandshakeError::InvalidState
                    } else {
                        HandshakeError::DecryptionFailure
                    },
                ) && after == before,
            }
        },
    }
}

/// The message with the given bytes.
pub open spec fn initiation_of(bytes: Seq<u8>) -> Initiation {
    choose|msg: Initiation| msg.bytes() == bytes
}

/// The message with the given bytes.
pub open spec fn response_of(bytes: Seq<u8>) -> Response {
    choose|msg: Response| msg.bytes() == bytes
}

/// The message with the given bytes.
pub open spec fn cookie_reply_of(bytes: Seq<u8>) -> CookieReply {
    choose|msg: CookieReply| msg.bytes() == bytes
}

/// A message is the one with its bytes.
pub proof fn law_message_of_bytes(init: Initiation, resp: Response, cookie: CookieReply)
    ensures
        initiation_of(init.bytes()) == init,
        response_of(resp.bytes()) == resp,
        cookie_reply_of(cookie.bytes()) == cookie,
{
    initiation_of(init.bytes()).lemma_injective(init);
    response_of(resp.bytes()).lemma_injective(resp);
    cookie_reply_of(cookie.bytes()).lemma_injective(cookie);
}

/// What the first step makes of a message: it goes by the first four bytes.
pub open spec fn message_step<O>(
    before: DeviceView<O>,
    after: DeviceView<O>,
    msg: Seq<u8>,
    src: Option<SocketAddr>,
    draws: CookieDraws,
    now: u64,
    r: Result<Step, HandshakeError>,
) -> bool {
    if msg.len() < 4 {
        is_failure(r, HandshakeError::InvalidMessageFormat) && after == before
    } else if before.keys is None {
        is_quiet(r) && after == before
    } else if Initiation::recognizes(msg) {
        initiation_step(before, initiation_of(msg), src, r) && after == before
    } else if Response::recognizes(msg) {
        response_step(before, after, response_of(msg), src, draws, now, r)
    } else if CookieReply::recognizes(msg) {
        cookie_step(before, after, cookie_reply_of(msg), now, r)
    } else {
        is_failure(r, HandshakeError::InvalidMessageFormat) && after == before
    }
}

impl<O> Device<O> {
    /// Where the peer of a session index stands.
    fn lookup_id(&self, id: u32) -> (r: Result<usize, HandshakeError>)
        requires
            self.wf(),
        ensures
            match r {
                Ok(i) => self@.peer_of_id(id) matches Some(k) && self.pk_map.at(i as int, k)
                    && self@.peers[k] == self.pk_map.entries@[i as int].1,
                Err(e) => self@.peer_of_id(id) is None && e == HandshakeError::UnknownReceiverId,
            },
    {
        match index_get(&self.id_map, id) {
            Some(pk_hash) => match self.pk_map.find(&pk_hash) {
                Some(i) => Ok(i),
                None => Err(HandshakeError::UnknownReceiverId),
            },
            None => Err(HandshakeError::UnknownReceiverId),
        }
    }

    /// Admits a message from a peer or not.
    fn check_tags(
        &mut self,
        i: usize,
        k: Ghost<[u8; 32]>,
        inner: &[u8],
        macs: &MacsFooter,
        sender: u32,
        src: Option<SocketAddr>,
        draws: &CookieDraws,
        now: u64,
    ) -> (r: Admission)
        requires
            old(self).wf(),
            old(self).pk_map.at(i as int, k@),
            old(self)@.peers[k@] == old(self).pk_map.entries@[i as int].1,
        ensures
            final(self).wf(),
            admission_step(
                old(self)@,
                final(self)@,
                k@,
                inner@,
                *macs,
                sender,
                src,
                *draws,
                now,
                r,
            ),
            final(self).keyst == old(self).keyst,
            r is Admitted ==> final(self).pk_map == old(self).pk_map,
    {
        match self.pk_map.entries[i].1.macs_validator.check_mac1(inner, macs) {
            Ok(_) => {},
            Err(e) => return Admission::Refused(e),
        }
        if let Some(addr) = src {
            if !self.pk_map.entries[i].1.macs_validator.check_mac2(inner, &addr, macs, now) {
                let reply = create_cookie_reply(
                    &mut self.pk_map.entries[i].1.macs_validator,
                    sender,
                    &addr,
                    macs,
                    draws,
                    now,
                );
                proof {
                    self.lemma_peer_changed(*old(self), i as int, k@);
                }
                return Admission::Challenged(reply.as_bytes());
            }
            if !self.limiter.allow(&addr.ip, now) {
                return Admission::Refused(HandshakeError::RateLimited);
            }
        }
        Admission::Admitted
    }

    /// The first step of taking in a response.
    fn process_response(
        &mut self,
        msg: Response,
        src: Option<SocketAddr>,
        draws: &CookieDraws,
        now: u64,
    ) -> (r: Result<Step, HandshakeError>)
        requires
            old(self).wf(),
            old(self)@.keys is Some,
        ensures
            final(self).wf(),
            response_step(old(self)@, final(self)@, msg, src, *draws, now, r),
    {
        let i = match self.lookup_id(msg.noise.f_receiver) {
            Ok(i) => i,
            Err(e) => return Err(e),
        };
        let ghost k = self@.peer_of_id(msg.noise.f_receiver)->0;
        let inner = msg.noise.as_bytes();
        match self.check_tags(i, Ghost(k), &inner, &msg.macs, msg.noise.f_sender, src, draws, now) {
            Admission::Refused(e) => return Err(e),
            Admission::Challenged(bytes) => return Ok(Step::Done(Output::reply(bytes))),
            Admission::Admitted => {},
        }
        let pk_hash = self.pk_map.entries[i].0;
        let keyst = self.keyst.as_ref().unwrap();
        match noise::consume_response_first_part(keyst, &msg.noise, &self.pk_map.entries[i].1) {
            Ok(stage) => Ok(Step::Response(PendingResponse { msg: msg.noise, pk_hash, stage })),
            Err(e) => Err(e),
        }
    }

    /// Takes in a cookie reply.
    fn process_cookie_reply(&mut self, msg: CookieReply, now: u64) -> (r: Result<
        Step,
        HandshakeError,
    >)
        requires
            old(self).wf(),
        ensures
            final(self).wf(),
            cookie_step(old(self)@, final(self)@, msg, now, r),
    {
        let i = match self.lookup_id(msg.f_receiver) {
            Ok(i) => i,
            Err(e) => return Err(e),
        };
        let ghost k = self@.peer_of_id(msg.f_receiver)->0;
        let outcome = self.pk_map.entries[i].1.macs.process(&msg.f_nonce, &msg.f_cookie, now);
        proof {
            self.lemma_peer_changed(*old(self), i as int, k);
        }
        match outcome {
            Ok(_) => Ok(Step::Done(Output::nothing())),
            Err(e) => {
                assert(self.pk_map@ =~= old(self).pk_map@);
                Err(e)
            },
        }
    }

    /// The first step of taking in a message. `src` is where it came from, if the device is
    /// under load.
    pub fn process(
        &mut self,
        msg: &[u8],
        src: Option<SocketAddr>,
        draws: &CookieDraws,
        now: u64,
    ) -> (r: Result<Step, HandshakeError>)
        requires
            old(self).wf(),
        ensures
            final(self).wf(),
            message_step(old(self)@, final(self)@, msg@, src, *draws, now, r),
    {
        if msg.len() < 4 {
            return Err(HandshakeError::InvalidMessageFormat);
        }
        let keyst = match &self.keyst {
            Some(keyst) => keyst,
            None => return Ok(Step::Done(Output::nothing())),
        };
        let head: [u8; 4] = take(msg, 0);
        let kind = read_le(&head);
        if kind == TYPE_INITIATION as u64 {
            let parsed = match Initiation::parse(msg) {
                Ok(parsed) => parsed,
                Err(e) => return Err(e),
            };
            proof {
                law_message_of_bytes(parsed, response_of(msg@), cookie_reply_of(msg@));
            }
            match noise::consume_initiation_first_part(keyst, &parsed.noise) {
                Ok(stage) => Ok(Step::Initiation(PendingInitiation { msg: parsed, src, stage })),
                Err(e) => Err(e),
            }
        } else if kind == TYPE_RESPONSE as u64 {
            let parsed = match Response::parse(msg) {
                Ok(parsed) => parsed,
                Err(e) => return Err(e),
            };
            proof {
                law_message_of_bytes(initiation_of(msg@), parsed, cookie_reply_of(msg@));
            }
            self.process_response(parsed, src, draws, now)
        } else if kind == TYPE_COOKIE_REPLY as u64 {
            let parsed = match CookieReply::parse(msg) {
                Ok(parsed) => parsed,
                Err(e) => return Err(e),
            };
            proof {
                law_message_of_bytes(initiation_of(msg@), response_of(msg@), parsed);
            }
            self.process_cookie_reply(parsed, now)
        } else {
            Err(HandshakeError::InvalidMessageFormat)
        }
    }
}

// ---------------------------------------------------------------------------
// Accepting and answering an initiation
// ---------------------------------------------------------------------------

/// What becomes of an admitted initiation whose sender is named.
pub open spec fn admitted_initiation_step<O>(
    before: DeviceView<O>,
    after: DeviceView<O>,
    msg: Initiation,
    who: Initiator,
    now: u64,
    r: Result<Step, HandshakeError>,
) -> bool {
    let peer = before.peers[who.pk_hash];
    match acceptance_verdict(peer, who, msg.noise, now) {
        Ok(count) => {
            &&& after == before.with_peer(who.pk_hash, peer.after_initiation(count, now))
            &&& r matches Ok(Step::Accepted(accepted))
            &&& accepted.pk_hash == who.pk_hash
            &&& is_temporary_state(accepted.state, peer, who, msg.noise)
        },
        Err(e) => {
            &&& is_failure(r, e)
            &&& after == if e == HandshakeError::InvalidSharedSecret {
                before
            } else {
                before.with_peer(who.pk_hash, Peer { state: State::Reset, ..peer })
            }
        },
    }
}

/// What becomes of an initiation once its sender is named.
pub open spec fn named_step<O>(
    before: DeviceView<O>,
    after: DeviceView<O>,
    pending: PendingInitiation,
    who: Initiator,
    draws: CookieDraws,
    now: u64,
    r: Result<Step, HandshakeError>,
) -> bool {
    if !before.peers.contains_key(who.pk_hash) {
        is_failure(r, HandshakeError::UnknownPublicKey) && after == before
    } else {
        exists|admitted: DeviceView<O>, admission: Admission| #[trigger]
            admission_step(
                before,
                admitted,
                who.pk_hash,
                pending.msg.noise.bytes(),
                pending.msg.macs,
                pending.msg.noise.f_sender,
                pending.src,
                draws,
                now,
                admission,
            ) && if admission is Admitted {
                admitted_initiation_step(admitted, after, pending.msg, who, now, r)
            } else {
                ends_with(admission, r) && after == admitted
            }
    }
}

/// What becomes of an initiation, with the secret that its static ciphertext was
/// decapsulated to.
pub open spec fn acceptance_step<O>(
    before: DeviceView<O>,
    after: DeviceView<O>,
    pending: PendingInitiation,
    shk: Seq<u8>,
    draws: CookieDraws,
    now: u64,
    r: Result<Step, HandshakeError>,
) -> bool {
    match received_identity(pending.stage, pending.msg.noise, shk) {
        None => is_failure(r, HandshakeError::DecryptionFailure) && after == before,
        Some(_) => exists|who: Initiator| #[trigger]
            names_initiator(pending.stage, pending.msg.noise, shk, who) && named_step(
                before,
                after,
                pending,
                who,
                draws,
                now,
                r,
            ),
    }
}

impl<O> Device<O> {
    /// Accepts or refuses an initiation, with the secret that its static ciphertext was
    /// decapsulated to, or hands out a cookie.
    pub fn accept_initiation(
        &mut self,
        pending: &PendingInitiation,
        shk: &[u8; 32],
        draws: &CookieDraws,
        now: u64,
    ) -> (r: Result<Step, HandshakeError>)
        requires
            old(self).wf(),
        ensures
            final(self).wf(),
            acceptance_step(old(self)@, final(self)@, *pending, shk@, *draws, now, r),
    {
        let msg = &pending.msg.noise;
        let who = match noise::identify_initiator(&pending.stage, msg, shk) {
            Ok(who) => who,
            Err(e) => return Err(e),
        };
        assert(names_initiator(pending.stage, pending.msg.noise, shk@, who));
        let i = match self.pk_map.find(&who.pk_hash) {
            Some(i) => i,
            None => return Err(HandshakeError::UnknownPublicKey),
        };
        let inner = msg.as_bytes();
        let admission = self.check_tags(
            i,
            Ghost(who.pk_hash),
            &inner,
            &pending.msg.macs,
            msg.f_sender,
            pending.src,
            draws,
            now,
        );
        let ghost admitted = *self;
        assert(admission_step(
            old(self)@,
            admitted@,
            who.pk_hash,
            pending.msg.noise.bytes(),
            pending.msg.macs,
            pending.msg.noise.f_sender,
            pending.src,
            *draws,
            now,
            admission,
        ));
        match admission {
            Admission::Refused(e) => return Err(e),
            Admission::Challenged(bytes) => return Ok(Step::Done(Output::reply(bytes))),
            Admission::Admitted => {},
        }
        let outcome = noise::consume_initiation_second_part(
            &mut self.pk_map.entries[i].1,
            &who,
            msg,
            now,
        );
        proof {
            self.lemma_peer_changed(admitted, i as int, who.pk_hash);
            if self.pk_map.entries@[i as int].1 == admitted.pk_map.entries@[i as int].1 {
                assert(self.pk_map@ =~= admitted.pk_map@);
            }
            assert(admitted@.peers[who.pk_hash] == admitted.pk_map.entries@[i as int].1);
        }
        match outcome {
            Ok(state) => Ok(
                Step::Accepted(AcceptedInitiation { pk_hash: who.pk_hash, state }),
            ),
            Err(e) => Err(e),
        }
    }
}

/// Is the output the answer to an accepted initiation, `resp` the message in it, and `after`
/// the peer that was answered?
pub open spec fn is_answer<O>(
    peer: Peer<O>,
    after: Peer<O>,
    id: u32,
    state: TemporaryState,
    inputs: ResponseInputs,
    resp: Response,
    out: Output,
    now: u64,
) -> bool {
    &&& is_response(peer, id, state, inputs, resp.noise)
    &&& response_opens(peer, state, inputs, resp.noise)
    &&& resp.macs.f_mac1@ == peer.macs.mac1(resp.noise.bytes())
    &&& resp.macs.f_mac2@ == peer.macs.mac2(resp.noise.bytes(), now)
    &&& after == (Peer { macs: peer.macs.after_generate(resp.macs.f_mac1, now), ..peer })
    &&& out.peer == Some(peer.pk_hash)
    &&& out.reply matches Some(bytes)
    &&& bytes@ == resp.bytes()
    &&& out.keys matches Some(pair)
    &&& is_responder_pair(
        pair,
        responder_keys(peer, state, inputs, resp.noise).ck,
        id,
        state.sender,
        now,
    )
}

/// What answering an accepted initiation leads to, in a session with the index `id`.
pub open spec fn reply_step<O>(
    before: DeviceView<O>,
    after: DeviceView<O>,
    accepted: AcceptedInitiation,
    id: u32,
    inputs: ResponseInputs,
    now: u64,
    r: Result<Option<Output>, HandshakeError>,
) -> bool {
    let k = accepted.pk_hash;
    let peer = before.peers[k];
    let opened = DeviceView { ids: before.ids.insert(id, k), ..before };
    if !before.peers.contains_key(k) {
        is_failure(r, HandshakeError::UnknownPublicKey) && after == before
    } else if before.ids.contains_key(id) {
        r == Ok::<Option<Output>, HandshakeError>(None) && after == before
    } else if response_fails(peer, accepted.state, inputs) {
        is_failure(r, HandshakeError::InvalidSharedSecret) && after == before
    } else {
        &&& after == opened.with_peer(k, after.peers[k])
        &&& r matches Ok(Some(out))
        &&& exists|resp: Response| #[trigger]
            is_answer(peer, after.peers[k], id, accepted.state, inputs, resp, out, now)
    }
}

/// What a response leads to, with the secrets that its ciphertexts were decapsulated to.
pub open spec fn completion_step<O>(
    before: DeviceView<O>,
    after: DeviceView<O>,
    pending: PendingResponse,
    shk_ee: Seq<u8>,
    shk_se: Seq<u8>,
    now: u64,
    r: Result<Output, HandshakeError>,
) -> bool {
    let k = pending.pk_hash;
    let peer = before.peers[k];
    if !before.peers.contains_key(k) {
        is_failure(r, HandshakeError::UnknownReceiverId) && after == before
    } else {
        match response_failure(peer, pending.stage, pending.msg, shk_ee, shk_se) {
            Some(e) => is_failure(r, e) && after == before,
            None => {
                &&& after == before.with_peer(k, Peer { state: State::Reset, ..peer })
                &&& r matches Ok(out)
                &&& out.peer == Some(k)
                &&& out.reply is None
                &&& out.keys matches Some(pair)
                &&& is_initiator_pair(
                    pair,
                    initiator_keys(peer, pending.stage, pending.msg, shk_ee, shk_se).ck,
                    pending.stage.local,
                    pending.msg.f_sender,
                    now,
                )
            },
        }
    }
}

impl<O> Device<O> {
    /// Answers an accepted initiation in a session with the index `id`. Where that index is
    /// in use, nothing happens and nothing is returned; where no response is possible, it is
    /// given up.
    pub fn respond(
        &mut self,
        accepted: &AcceptedInitiation,
        id: u32,
        inputs: &ResponseInputs,
        now: u64,
    ) -> (r: Result<Option<Output>, HandshakeError>)
        requires
            old(self).wf(),
        ensures
            final(self).wf(),
            reply_step(old(self)@, final(self)@, *accepted, id, *inputs, now, r),
    {
        let i = match self.pk_map.find(&accepted.pk_hash) {
            Some(i) => i,
            None => return Err(HandshakeError::UnknownPublicKey),
        };
        let ghost peer = self.pk_map.entries@[i as int].1;
        if !self.allocate(id, accepted.pk_hash) {
            return Ok(None);
        }
        let ghost opened = *self;
        match noise::create_response(
            &self.pk_map.entries[i].1,
            id,
            &accepted.state,
            inputs,
            now,
        ) {
            Ok((noise_part, pair)) => {
                let inner = noise_part.as_bytes();
                let macs = self.pk_map.entries[i].1.macs.generate(&inner, now);
                let resp = Response { noise: noise_part, macs };
                let out = Output {
                    peer: Some(self.pk_map.entries[i].1.pk_hash),
                    reply: Some(resp.as_bytes()),
                    keys: Some(pair),
                };
                proof {
                    self.lemma_peer_changed(opened, i as int, accepted.pk_hash);
                    assert(is_answer(
                        peer,
                        self@.peers[accepted.pk_hash],
                        id,
                        accepted.state,
                        *inputs,
                        resp,
                        out,
                        now,
                    ));
                }
                Ok(Some(out))
            },
            Err(e) => {
                self.release_any(id);
                assert(self@.ids =~= old(self)@.ids);
                Err(e)
            },
        }
    }

    /// Completes a handshake with the response to it, and with the secrets that the
    /// ciphertexts in the response were decapsulated to.
    pub fn complete(
        &mut self,
        pending: &PendingResponse,
        shk_ee: &[u8; 32],
        shk_se: &[u8; 32],
        now: u64,
    ) -> (r: Result<Output, HandshakeError>)
        requires
            old(self).wf(),
        ensures
            final(self).wf(),
            completion_step(old(self)@, final(self)@, *pending, shk_ee@, shk_se@, now, r),
    {
        let i = match self.pk_map.find(&pending.pk_hash) {
            Some(i) => i,
            None => return Err(HandshakeError::UnknownReceiverId),
        };
        let outcome = noise::consume_response(
            &mut self.pk_map.entries[i].1,
            &pending.stage,
            &pending.msg,
            shk_ee,
            shk_se,
            now,
        );
        proof {
            self.lemma_peer_changed(*old(self), i as int, pending.pk_hash);
        }
        match outcome {
            Ok(pair) => Ok(
                Output { peer: Some(pending.pk_hash), reply: None, keys: Some(pair) },
            ),
            Err(e) => {
                assert(self.pk_map@ =~= old(self).pk_map@);
                Err(e)
            },
        }
    }
}

/// An initiation is accepted once. When the same message comes again, it is refused or
/// answered with a cookie, as long as the device keeps the peer and the secrets it shares
/// with it: accepting an initiation leaves its counter behind, and counters only grow. The
/// second message moves no counter of a peer: it can change the secret behind the cookies, and
/// end a handshake that this side has started. If its tags are right and its source may send,
/// it is refused for its old counter.
pub proof fn law_initiation_is_accepted_once<O>(
    before: DeviceView<O>,
    after: DeviceView<O>,
    pending: PendingInitiation,
    who: Initiator,
    draws: CookieDraws,
    now: u64,
    r: Result<Step, HandshakeError>,
    later: DeviceView<O>,
    later_after: DeviceView<O>,
    again: PendingInitiation,
    later_draws: CookieDraws,
    later_now: u64,
    later_r: Result<Step, HandshakeError>,
)
    requires
        named_step(before, after, pending, who, draws, now, r),
        r matches Ok(Step::Accepted(_)),
        later.peers.contains_key(who.pk_hash),
        later.peers[who.pk_hash].k_recv >= after.peers[who.pk_hash].k_recv,
        ({
            let peer = before.peers[who.pk_hash];
            let kept = later.peers[who.pk_hash];
            &&& kept.ss@ == peer.ss@
            &&& kept.psk@ == peer.psk@
            &&& kept.hash_static_pq_recv@ == peer.hash_static_pq_recv@
        }),
        again.msg.noise == pending.msg.noise,
        named_step(later, later_after, again, who, later_draws, later_now, later_r),
    ensures
        !(later_r matches Ok(Step::Accepted(_))),
        after.peers[who.pk_hash].k_recv > before.peers[who.pk_hash].k_recv,
        later_after.peers == later.peers.insert(
            who.pk_hash,
            Peer {
                macs_validator: later_after.peers[who.pk_hash].macs_validator,
                state: later_after.peers[who.pk_hash].state,
                ..later.peers[who.pk_hash]
            },
        ),
        later_after.peers[who.pk_hash].state is Reset || later_after.peers[who.pk_hash].state
            == later.peers[who.pk_hash].state,
        ({
            let kept = later.peers[who.pk_hash];
            let inner = again.msg.noise.bytes();
            let macs = again.msg.macs;
            &&& kept.macs_validator.mac1_ok(inner, macs)
            &&& again.src matches Some(addr) ==> kept.macs_validator.mac2_ok(
                inner,
                addr,
                macs,
                later_now,
            )
            &&& later.limit(again.src, later_now).1
        }) ==> is_failure(later_r, HandshakeError::OldTimestamp),
{
    let peers = later.peers.insert(who.pk_hash, later.peers[who.pk_hash]);
    assert(peers =~= later.peers);
}

/// A response is accepted once. A handshake that is completed waits for nothing more: until
/// the device starts another handshake with the peer, no response to it is looked into, and
/// one that was looked into before completes nothing.
pub proof fn law_response_is_accepted_once<O>(
    before: DeviceView<O>,
    after: DeviceView<O>,
    pending: PendingResponse,
    shk_ee: Seq<u8>,
    shk_se: Seq<u8>,
    now: u64,
    r: Result<Output, HandshakeError>,
    later: DeviceView<O>,
    msg: Response,
    src: Option<SocketAddr>,
    draws: CookieDraws,
    later_found: DeviceView<O>,
    later_step: Result<Step, HandshakeError>,
    again: PendingResponse,
    later_ee: Seq<u8>,
    later_se: Seq<u8>,
    later_after: DeviceView<O>,
    later_now: u64,
    later_r: Result<Output, HandshakeError>,
)
    requires
        completion_step(before, after, pending, shk_ee, shk_se, now, r),
        r is Ok,
        later.peers.contains_key(pending.pk_hash),
        later.peers[pending.pk_hash].state == after.peers[pending.pk_hash].state,
        response_step(later, later_found, msg, src, draws, later_now, later_step),
        later.peer_of_id(msg.noise.f_receiver) == Some(pending.pk_hash),
        again.pk_hash == pending.pk_hash,
        completion_step(later, later_after, again, later_ee, later_se, later_now, later_r),
    ensures
        !(later_step matches Ok(Step::Response(_))),
        later_r is Err,
{
}

} // verus!
