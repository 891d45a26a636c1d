//! Cookies between two devices: whoever is challenged and takes in the cookie is let in with
//! the next message.

use crate::hybrid_v23::device::handshake::{
    answer_step, begin_step, cookie_reply_of, cookie_step, initiation_of, is_answer, is_begun,
    is_cookie_reply, is_housekept, is_message, is_quiet, is_reply, law_housekeeping_keeps_sessions,
    law_message_of_bytes, message_step, process_step, reply_step, response_of, AcceptedInitiation,
    ProcessDraws, Step,
};
use crate::hybrid_v23::device::{is_device_validator, DeviceView};
use crate::hybrid_v23::dos::{law_cookie_is_honoured, HALF_OPEN_QUOTA_HARD};
use crate::hybrid_v23::keys::KeyState;
use crate::hybrid_v23::messages::{
    CookieReply, Initiation, Response, SessionId, TYPE_COOKIE_REPLY, TYPE_RESPONSE,
};
use crate::hybrid_v23::noise::{
    is_temporary_state, InitiationInputs, ResponseInputs, TemporaryState,
};
use crate::hybrid_v23::peer::Peer;
use crate::hybrid_v23::runtime::RuntimeReading;
use crate::hybrid_v23::sessions::index_of;
use crate::macs::{elapsed_spec, Generator, Validator, COOKIE_UPDATE_INTERVAL};
use crate::types::{HandshakeError, Output, SocketAddr};
use vstd::prelude::*;

verus! {

/// A message that was sent, and what its sender keeps about the peer it was sent to.
pub ghost struct Sent<O> {
    /// The hash of the static keys of the peer.
    pub k: [u8; 32],
    pub sid: SessionId,
    pub after: DeviceView<O>,
    pub bytes: Seq<u8>,
}

/// Taking in a message.
pub ghost struct Taking<O> {
    pub before: DeviceView<O>,
    pub after: DeviceView<O>,
    pub src: Option<SocketAddr>,
    pub reading: RuntimeReading,
    pub draws: ProcessDraws,
    pub now: u64,
    pub r: Result<Step, HandshakeError>,
}

impl<O> Taking<O> {
    /// Was the message with these bytes processed?
    pub open spec fn takes(self, bytes: Seq<u8>) -> bool {
        process_step(
            self.before,
            self.after,
            bytes,
            self.src,
            self.reading,
            self.draws,
            self.now,
            self.r,
        )
    }

    /// What was sent in reply.
    pub open spec fn reply(self) -> Option<Seq<u8>> {
        match self.r {
            Ok(Step::Done(Output { reply: Some(bytes), .. })) => Some(bytes@),
            _ => None,
        }
    }

    /// Does the device still know the session of a message that was sent, and wait for the
    /// reply to it?
    pub open spec fn expects_reply_to(self, sent: Sent<O>) -> bool {
        &&& self.before.keys is Some
        &&& self.before.sessions.wf()
        &&& self.before.peer_of_sid(sent.sid) == Some(sent.k)
        &&& self.before.peers[sent.k].macs == sent.after.peers[sent.k].macs
        &&& !self.before.reaps(self.reading, index_of(sent.sid), self.now)
    }
}

/// A cookie that opens is taken in.
proof fn lemma_cookie_taken<O>(taking: Taking<O>, sent: Sent<O>, reply: CookieReply, value: Seq<u8>)
    requires
        taking.expects_reply_to(sent),
        taking.takes(reply.bytes()),
        reply.f_type == TYPE_COOKIE_REPLY,
        reply.f_receiver == sent.sid,
        taking.before.peers[sent.k].macs.opened(reply.f_nonce@, reply.f_cookie@) == Some(value),
    ensures
        is_quiet(taking.r),
        taking.after.peers[sent.k].macs.cookie matches Some(cookie) && cookie.value@ == value
            && cookie.birth == taking.now,
        taking.after.peers[sent.k].macs == (Generator {
            cookie: taking.after.peers[sent.k].macs.cookie,
            ..taking.before.peers[sent.k].macs
        }),
{
    let bytes = reply.bytes();
    reply.lemma_bytes_len();
    reply.lemma_recognizes();
    law_message_of_bytes(initiation_of(bytes), response_of(bytes), reply);
    assert(!Initiation::recognizes(bytes));
    assert(!Response::recognizes(bytes));
    let (kept, ids) = choose|kept: DeviceView<O>, ids: Seq<u32>| #[trigger]
        is_housekept(taking.before, kept, taking.reading, ids, taking.now) && message_step(
            kept,
            taking.after,
            bytes,
            taking.src,
            taking.draws,
            taking.now,
            taking.r,
        );
    law_housekeeping_keeps_sessions(
        taking.before,
        kept,
        taking.reading,
        ids,
        taking.now,
        sent.sid,
    );
    assert(cookie_step(kept, taking.after, reply, taking.now, taking.r));
}

/// The cookie key of a peer belongs to the device that the peer stands for: what one device
/// seals for another one, that one can open.
pub proof fn law_cookie_keys_agree<A, B>(
    device: DeviceView<A>,
    other: DeviceView<B>,
    peer: Peer<A>,
    of_device: Peer<B>,
    keys: KeyState,
    other_keys: KeyState,
)
    requires
        keys.wf(),
        other_keys.wf(),
        device.keys == Some(keys),
        other.keys == Some(other_keys),
        device.is_added(other_keys.pk, other_keys.pk_pq@, peer.opaque, peer),
        other.is_added(keys.pk, keys.pk_pq@, of_device.opaque, of_device),
        other.validator matches Some(v) && is_device_validator(v, other_keys),
    ensures
        peer.macs.cookie_key == other.validator->0.cookie_key,
        peer.macs.cookie_key == of_device.macs_validator.cookie_key,
{
    assert(peer.macs.cookie_key =~= other.validator->0.cookie_key);
    assert(peer.macs.cookie_key =~= of_device.macs_validator.cookie_key);
}

/// A cookie that a device has taken in lets its next initiation in. The device starts a
/// handshake and is challenged; it takes in the cookie, and starts another handshake while
/// the cookie is in use. When that initiation arrives from the same address, while the secret
/// behind the cookies is in use, it carries a valid cookie. It is not challenged again, and
/// goes on to the expensive part unless the address is banned or has left too many handshakes
/// half open.
pub proof fn law_cookie_admits_initiation<A, B>(
    initiator: DeviceView<A>,
    inputs: InitiationInputs,
    began: u64,
    first: Result<Option<Vec<u8>>, HandshakeError>,
    sent: Sent<A>,
    challenge: Taking<B>,
    src: SocketAddr,
    cookie: Taking<A>,
    again: DeviceView<A>,
    inputs2: InitiationInputs,
    began2: u64,
    second: Result<Option<Vec<u8>>, HandshakeError>,
    sent2: Sent<A>,
    later: DeviceView<B>,
    draw: u32,
    now: u64,
)
    requires
        // the first initiation
        begin_step(initiator, sent.after, sent.k, sent.sid, inputs, began, first),
        is_message(first, sent.bytes),
        // the challenge
        initiator.peers[sent.k].macs.cookie_key == challenge.before.validator->0.cookie_key,
        challenge.src == Some(src),
        challenge.takes(sent.bytes),
        challenge.reply() is Some,
        // the cookie
        cookie.expects_reply_to(sent),
        cookie.takes(challenge.reply()->0),
        // the second initiation
        again.peers[sent.k].macs == cookie.after.peers[sent.k].macs,
        sent2.k == sent.k,
        begin_step(again, sent2.after, sent2.k, sent2.sid, inputs2, began2, second),
        is_message(second, sent2.bytes),
        elapsed_spec(cookie.now, began2) <= COOKIE_UPDATE_INTERVAL,
        // its arrival
        later.validator == challenge.after.validator,
        later.validator->0.has_secret(now),
    ensures
        is_quiet(cookie.r),
        later.cookie_ok(initiation_of(sent2.bytes), src, now),
        !(later.gate(initiation_of(sent2.bytes), Some(src), draw, now).1 is Challenge),
        ({
            let state = later.dos.without_idle(now).state_of(src.ip, now);
            !state.banned(now) && state.half_open < HALF_OPEN_QUOTA_HARD
        }) ==> later.gate(initiation_of(sent2.bytes), Some(src), draw, now).1 is Pass,
{
    let k = sent.k;
    let msg = choose|msg: Initiation| #[trigger]
        is_begun(initiator, initiator.peers[k], sent.after.peers[k], sent.sid, inputs, msg, began)
            && is_message(first, msg.bytes());
    msg.lemma_bytes_len();
    msg.lemma_recognizes();
    law_message_of_bytes(msg, response_of(sent.bytes), cookie_reply_of(sent.bytes));
    let (kept, ids) = choose|kept: DeviceView<B>, ids: Seq<u32>| #[trigger]
        is_housekept(challenge.before, kept, challenge.reading, ids, challenge.now)
            && message_step(
            kept,
            challenge.after,
            sent.bytes,
            challenge.src,
            challenge.draws,
            challenge.now,
            challenge.r,
        );
    assert(kept.gate(msg, challenge.src, challenge.draws.challenge, challenge.now).1 is Challenge);
    let reply = choose|reply: CookieReply| #[trigger]
        is_cookie_reply(
            reply,
            kept.validator->0,
            challenge.after.validator->0,
            msg.noise.f_sender,
            src,
            msg.macs,
            challenge.draws,
            challenge.now,
        ) && is_reply(challenge.r, reply.bytes());
    assert(is_reply(challenge.r, reply.bytes()));
    lemma_cookie_taken(cookie, sent, reply, challenge.after.validator->0.tau(src));
    let msg2 = choose|msg: Initiation| #[trigger]
        is_begun(again, again.peers[k], sent2.after.peers[k], sent2.sid, inputs2, msg, began2)
            && is_message(second, msg.bytes());
    law_message_of_bytes(msg2, response_of(sent.bytes), cookie_reply_of(sent.bytes));
    law_cookie_is_honoured(later.dos, src.ip, draw, now);
}

/// A cookie that a device has taken in lets its next response in. The device answers and is
/// challenged; it takes in the cookie, and answers another initiation while the cookie is in
/// use. When that response arrives from the same address, while the secret behind the cookies
/// is in use, it carries a valid cookie.
pub proof fn law_cookie_admits_response<A, B>(
    responder: DeviceView<B>,
    accepted: AcceptedInitiation,
    shared: Option<[u8; 32]>,
    inputs: ResponseInputs,
    answered: u64,
    first: Result<Option<Output>, HandshakeError>,
    sent: Sent<B>,
    challenge: Taking<A>,
    src: SocketAddr,
    cookie: Taking<B>,
    again: DeviceView<B>,
    accepted2: AcceptedInitiation,
    shared2: Option<[u8; 32]>,
    inputs2: ResponseInputs,
    answered2: u64,
    second: Result<Option<Output>, HandshakeError>,
    sent2: Sent<B>,
    k: [u8; 32],
    validator: Validator,
    now: u64,
)
    requires
        // the first response
        reply_step(
            responder,
            sent.after,
            accepted,
            shared,
            sent.sid,
            inputs,
            answered,
            first,
        ),
        accepted.pk_hash == sent.k,
        first matches Ok(Some(Output { reply: Some(bytes), .. })) && bytes@ == sent.bytes,
        // the challenge
        challenge.before.peer_of_sid(response_of(sent.bytes).noise.f_receiver) == Some(k),
        challenge.before.sessions.wf(),
        !challenge.before.reaps(
            challenge.reading,
            index_of(response_of(sent.bytes).noise.f_receiver),
            challenge.now,
        ),
        responder.peers[sent.k].macs.cookie_key
            == challenge.before.peers[k].macs_validator.cookie_key,
        challenge.src == Some(src),
        challenge.takes(sent.bytes),
        challenge.reply() is Some,
        // the cookie
        cookie.expects_reply_to(sent),
        cookie.takes(challenge.reply()->0),
        // the second response
        again.peers[sent.k].macs == cookie.after.peers[sent.k].macs,
        accepted2.pk_hash == sent.k,
        reply_step(
            again,
            sent2.after,
            accepted2,
            shared2,
            sent2.sid,
            inputs2,
            answered2,
            second,
        ),
        second matches Ok(Some(Output { reply: Some(bytes), .. })) && bytes@ == sent2.bytes,
        elapsed_spec(cookie.now, answered2) <= COOKIE_UPDATE_INTERVAL,
        // its arrival
        validator == challenge.after.peers[k].macs_validator,
        validator.has_secret(now),
    ensures
        is_quiet(cookie.r),
        validator.mac2_ok(
            response_of(sent2.bytes).noise.bytes(),
            src,
            response_of(sent2.bytes).macs,
            now,
        ),
{
    let j = sent.k;
    let resp = lemma_answer(responder, accepted, shared, inputs, answered, first, sent);
    resp.lemma_bytes_len();
    resp.lemma_recognizes();
    let sid = resp.noise.f_receiver;
    let (kept, ids) = choose|kept: DeviceView<A>, ids: Seq<u32>| #[trigger]
        is_housekept(challenge.before, kept, challenge.reading, ids, challenge.now)
            && message_step(
            kept,
            challenge.after,
            sent.bytes,
            challenge.src,
            challenge.draws,
            challenge.now,
            challenge.r,
        );
    law_housekeeping_keeps_sessions(
        challenge.before,
        kept,
        challenge.reading,
        ids,
        challenge.now,
        sid,
    );
    assert(!Initiation::recognizes(sent.bytes));
    let reply = choose|reply: CookieReply| #[trigger]
        is_cookie_reply(
            reply,
            kept.peers[k].macs_validator,
            challenge.after.peers[k].macs_validator,
            resp.noise.f_sender,
            src,
            resp.macs,
            challenge.draws,
            challenge.now,
        ) && is_reply(challenge.r, reply.bytes());
    assert(is_reply(challenge.r, reply.bytes()));
    lemma_cookie_taken(cookie, sent, reply, validator.tau(src));
    let resp2 = lemma_answer(again, accepted2, shared2, inputs2, answered2, second, sent2);
}

/// What an answer is, to the peer it goes to.
proof fn lemma_answer<O>(
    before: DeviceView<O>,
    accepted: AcceptedInitiation,
    shared: Option<[u8; 32]>,
    inputs: ResponseInputs,
    now: u64,
    r: Result<Option<Output>, HandshakeError>,
    sent: Sent<O>,
) -> (resp: Response)
    requires
        reply_step(before, sent.after, accepted, shared, sent.sid, inputs, now, r),
        r matches Ok(Some(Output { reply: Some(bytes), .. })) && bytes@ == sent.bytes,
    ensures
        ({
            let k = accepted.pk_hash;
            let macs = before.peers[k].macs;
            &&& resp == response_of(sent.bytes)
            &&& resp.bytes() == sent.bytes
            &&& resp.noise.f_type == TYPE_RESPONSE
            &&& resp.noise.f_sender == sent.sid
            &&& resp.macs.f_mac1@ == macs.mac1(resp.noise.bytes())
            &&& resp.macs.f_mac2@ == macs.mac2(resp.noise.bytes(), now)
            &&& sent.after.peers[k].macs == macs.after_generate(resp.macs.f_mac1, now)
        }),
{
    let k = accepted.pk_hash;
    let state = choose|state: TemporaryState| #[trigger]
        is_temporary_state(state, accepted.stage, shared) && answer_step(
            before,
            sent.after,
            accepted,
            state,
            sent.sid,
            inputs,
            now,
            r,
        );
    let resp = choose|resp: Response| #[trigger]
        is_answer(
            before.peers[k],
            sent.after.peers[k],
            sent.sid,
            state,
            inputs,
            resp,
            r->Ok_0->0,
            now,
        );
    law_message_of_bytes(initiation_of(sent.bytes), resp, cookie_reply_of(sent.bytes));
    resp
}

} // verus!
