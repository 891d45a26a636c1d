//! Cookies between two devices: whoever is challenged and takes in the cookie is let in with
//! the next message.

use crate::hybrid_v1::device::handshake::{
    acceptance_step, admission_step, admitted_initiation_step, admitted_response_step, begin_step,
    cookie_reply_of, cookie_step, ends_with, initiation_of, is_answer, is_begun, is_cookie_reply,
    is_message, is_quiet, law_message_of_bytes, message_step, named_step, reply_step, response_of,
    AcceptedInitiation, Admission, CookieDraws, PendingInitiation, Step,
};
use crate::hybrid_v1::device::DeviceView;
use crate::hybrid_v1::messages::{
    CookieReply, Initiation, Response, TYPE_COOKIE_REPLY, TYPE_RESPONSE,
};
use crate::hybrid_v1::noise::{names_initiator, InitiationInputs, Initiator, ResponseInputs};
use crate::hybrid_v1::peer::{is_new_generator, is_new_validator};
use crate::hybrid_v23::messages::MacsFooter;
use crate::macs::{elapsed_spec, Generator, Validator, COOKIE_UPDATE_INTERVAL};
use crate::types::{HandshakeError, Output, Psk, SocketAddr};
use vstd::prelude::*;

verus! {

/// A message that was sent, and what its sender keeps about the peer it was sent to.
pub ghost struct Sent<O> {
    /// The hash of the static keys of the peer.
    pub k: [u8; 32],
    pub id: u32,
    pub after: DeviceView<O>,
    pub bytes: Seq<u8>,
}

/// Taking in a message.
pub ghost struct Taking<O> {
    pub before: DeviceView<O>,
    pub after: DeviceView<O>,
    pub src: Option<SocketAddr>,
    pub draws: CookieDraws,
    pub now: u64,
    pub r: Result<Step, HandshakeError>,
}

/// What was sent in reply.
pub open spec fn replied(r: Result<Step, HandshakeError>) -> Option<Seq<u8>> {
    match r {
        Ok(Step::Done(Output { reply: Some(bytes), .. })) => Some(bytes@),
        _ => None,
    }
}

impl<O> Taking<O> {
    /// Was the message with these bytes processed?
    pub open spec fn takes(self, bytes: Seq<u8>) -> bool {
        message_step(
            self.before,
            self.after,
            bytes,
            self.src,
            self.draws,
            self.now,
            self.r,
        )
    }

    /// Does the device still know the session of a message that was sent, and wait for the
    /// reply to it?
    pub open spec fn expects_reply_to(self, sent: Sent<O>) -> bool {
        &&& self.before.keys is Some
        &&& self.before.peer_of_id(sent.id) == Some(sent.k)
        &&& self.before.peers[sent.k].macs == sent.after.peers[sent.k].macs
    }
}

/// A cookie that opens is taken in.
proof fn lemma_cookie_taken<O>(taking: Taking<O>, sent: Sent<O>, reply: CookieReply, value: Seq<u8>)
    requires
        taking.expects_reply_to(sent),
        taking.takes(reply.bytes()),
        reply.f_type == TYPE_COOKIE_REPLY,
        reply.f_receiver == sent.id,
        taking.before.peers[sent.k].macs.opened(reply.f_nonce@, reply.f_cookie@) == Some(value),
    ensures
        is_quiet(taking.r),
        taking.after.peers[sent.k].macs.cookie matches Some(cookie) && cookie.value@ == value
            && cookie.birth == taking.now,
        taking.after.peers[sent.k].macs == (Generator {
            cookie: taking.after.peers[sent.k].macs.cookie,
            ..taking.before.peers[sent.k].macs
        }),
{
    let bytes = reply.bytes();
    reply.lemma_bytes_len();
    reply.lemma_recognizes();
    law_message_of_bytes(initiation_of(bytes), response_of(bytes), reply);
    assert(!Initiation::recognizes(bytes));
    assert(!Response::recognizes(bytes));
    assert(cookie_step(taking.before, taking.after, reply, taking.now, taking.r));
}

/// Two peers that stand for each other, with the same pre-shared key, have the same cookie
/// key: what one device seals for the other, that one can open.
pub proof fn law_cookie_keys_agree(generator: Generator, validator: Validator, psk: Psk)
    requires
        is_new_generator(generator, psk@),
        is_new_validator(validator, psk@),
    ensures
        generator.cookie_key == validator.cookie_key,
{
    assert(generator.cookie_key =~= validator.cookie_key);
}

/// What a message with a source that gets a reply instead of being admitted leads to.
proof fn lemma_challenged<O>(
    before: DeviceView<O>,
    after: DeviceView<O>,
    k: [u8; 32],
    inner: Seq<u8>,
    macs: MacsFooter,
    sender: u32,
    src: SocketAddr,
    draws: CookieDraws,
    now: u64,
    admission: Admission,
) -> (reply: CookieReply)
    requires
        admission_step(
            before,
            after,
            k,
            inner,
            macs,
            sender,
            Some(src),
            draws,
            now,
            admission,
        ),
        admission is Challenged,
    ensures
        is_cookie_reply(
            reply,
            before.peers[k].macs_validator,
            after.peers[k].macs_validator,
            sender,
            src,
            macs,
            draws,
            now,
        ),
        admission matches Admission::Challenged(bytes) && bytes@ == reply.bytes(),
{
    choose|reply: CookieReply| #[trigger]
        is_cookie_reply(
            reply,
            before.peers[k].macs_validator,
            after.peers[k].macs_validator,
            sender,
            src,
            macs,
            draws,
            now,
        ) && (admission->Challenged_0)@ == reply.bytes()
}

/// A cookie that a device has taken in lets its next initiation in. The device starts a
/// handshake and is challenged; it takes in the cookie, and starts another handshake while
/// the cookie is in use. When that initiation arrives from the same address, while the secret
/// behind the cookies is in use, it carries a valid cookie. `j` is the hash of the device's
/// own static keys.
pub proof fn law_cookie_admits_initiation<A, B>(
    initiator: DeviceView<A>,
    inputs: InitiationInputs,
    began: u64,
    first: Result<Option<Vec<u8>>, HandshakeError>,
    sent: Sent<A>,
    j: [u8; 32],
    responder: DeviceView<B>,
    pending: PendingInitiation,
    shk: Seq<u8>,
    src: SocketAddr,
    draws: CookieDraws,
    challenged: u64,
    challenging: DeviceView<B>,
    challenge: Result<Step, HandshakeError>,
    cookie: Taking<A>,
    again: DeviceView<A>,
    inputs2: InitiationInputs,
    began2: u64,
    second: Result<Option<Vec<u8>>, HandshakeError>,
    sent2: Sent<A>,
    validator: Validator,
    now: u64,
)
    requires
        // the first initiation
        begin_step(initiator, sent.after, sent.k, sent.id, inputs, began, first),
        is_message(first, sent.bytes),
        // the challenge
        initiator.peers[sent.k].macs.cookie_key == responder.peers[j].macs_validator.cookie_key,
        pending.msg == initiation_of(sent.bytes),
        pending.src == Some(src),
        forall|who: Initiator| #[trigger]
            names_initiator(pending.stage, pending.msg.noise, shk, who) ==> who.pk_hash == j,
        acceptance_step(responder, challenging, pending, shk, draws, challenged, challenge),
        replied(challenge) is Some,
        // the cookie
        cookie.expects_reply_to(sent),
        cookie.takes(replied(challenge)->0),
        // the second initiation
        again.peers[sent.k].macs == cookie.after.peers[sent.k].macs,
        sent2.k == sent.k,
        begin_step(again, sent2.after, sent2.k, sent2.id, inputs2, began2, second),
        is_message(second, sent2.bytes),
        elapsed_spec(cookie.now, began2) <= COOKIE_UPDATE_INTERVAL,
        // its arrival
        validator == challenging.peers[j].macs_validator,
        validator.has_secret(now),
    ensures
        is_quiet(cookie.r),
        validator.mac2_ok(
            initiation_of(sent2.bytes).noise.bytes(),
            src,
            initiation_of(sent2.bytes).macs,
            now,
        ),
{
    let k = sent.k;
    let own = initiator.keys->0.pk_hash@;
    let msg = choose|msg: Initiation| #[trigger]
        is_begun(own, initiator.peers[k], sent.after.peers[k], sent.id, inputs, msg, began)
            && is_message(first, msg.bytes());
    law_message_of_bytes(msg, response_of(sent.bytes), cookie_reply_of(sent.bytes));
    let who = choose|who: Initiator| #[trigger]
        names_initiator(pending.stage, pending.msg.noise, shk, who) && named_step(
            responder,
            challenging,
            pending,
            who,
            draws,
            challenged,
            challenge,
        );
    assert(who.pk_hash == j);
    let (admitted, admission) = choose|admitted: DeviceView<B>, admission: Admission| #[trigger]
        admission_step(
            responder,
            admitted,
            j,
            msg.noise.bytes(),
            msg.macs,
            msg.noise.f_sender,
            pending.src,
            draws,
            challenged,
            admission,
        ) && if admission is Admitted {
            admitted_initiation_step(
                admitted,
                challenging,
                pending.msg,
                who,
                challenged,
                challenge,
            )
        } else {
            ends_with(admission, challenge) && challenging
                == admitted
        };
    let reply = lemma_challenged(
        responder,
        admitted,
        j,
        msg.noise.bytes(),
        msg.macs,
        msg.noise.f_sender,
        src,
        draws,
        challenged,
        admission,
    );
    lemma_cookie_taken(cookie, sent, reply, validator.tau(src));
    let own2 = again.keys->0.pk_hash@;
    let msg2 = choose|msg: Initiation| #[trigger]
        is_begun(own2, again.peers[k], sent2.after.peers[k], sent2.id, inputs2, msg, began2)
            && is_message(second, msg.bytes());
    law_message_of_bytes(msg2, response_of(sent.bytes), cookie_reply_of(sent.bytes));
}

/// A cookie that a device has taken in lets its next response in. The device answers and is
/// challenged; it takes in the cookie, and answers another initiation while the cookie is in
/// use. When that response arrives from the same address, while the secret behind the cookies
/// is in use, it carries a valid cookie.
pub proof fn law_cookie_admits_response<A, B>(
    responder: DeviceView<B>,
    accepted: AcceptedInitiation,
    inputs: ResponseInputs,
    answered: u64,
    first: Result<Option<Output>, HandshakeError>,
    sent: Sent<B>,
    challenge: Taking<A>,
    src: SocketAddr,
    cookie: Taking<B>,
    again: DeviceView<B>,
    accepted2: AcceptedInitiation,
    inputs2: ResponseInputs,
    answered2: u64,
    second: Result<Option<Output>, HandshakeError>,
    sent2: Sent<B>,
    k: [u8; 32],
    validator: Validator,
    now: u64,
)
    requires
        // the first response
        reply_step(responder, sent.after, accepted, sent.id, inputs, answered, first),
        accepted.pk_hash == sent.k,
        first matches Ok(Some(Output { reply: Some(bytes), .. })) && bytes@ == sent.bytes,
        // the challenge
        challenge.before.peer_of_id(response_of(sent.bytes).noise.f_receiver) == Some(k),
        responder.peers[sent.k].macs.cookie_key
            == challenge.before.peers[k].macs_validator.cookie_key,
        challenge.src == Some(src),
        challenge.takes(sent.bytes),
        replied(challenge.r) is Some,
        // the cookie
        cookie.expects_reply_to(sent),
        cookie.takes(replied(challenge.r)->0),
        // the second response
        again.peers[sent.k].macs == cookie.after.peers[sent.k].macs,
        accepted2.pk_hash == sent.k,
        reply_step(again, sent2.after, accepted2, sent2.id, inputs2, answered2, second),
        second matches Ok(Some(Output { reply: Some(bytes), .. })) && bytes@ == sent2.bytes,
        elapsed_spec(cookie.now, answered2) <= COOKIE_UPDATE_INTERVAL,
        // its arrival
        validator == challenge.after.peers[k].macs_validator,
        validator.has_secret(now),
    ensures
        is_quiet(cookie.r),
        validator.mac2_ok(
            response_of(sent2.bytes).noise.bytes(),
            src,
            response_of(sent2.bytes).macs,
            now,
        ),
{
    let resp = lemma_answer(responder, accepted, inputs, answered, first, sent);
    resp.lemma_bytes_len();
    resp.lemma_recognizes();
    assert(!Initiation::recognizes(sent.bytes));
    let admission = choose|admission: Admission| #[trigger]
        admission_step(
            challenge.before,
            challenge.after,
            k,
            resp.noise.bytes(),
            resp.macs,
            resp.noise.f_sender,
            challenge.src,
            challenge.draws,
            challenge.now,
            admission,
        ) && if admission is Admitted {
            admitted_response_step(
                challenge.after,
                k,
                resp.noise,
                challenge.r,
            )
        } else {
            ends_with(admission, challenge.r)
        };
    let reply = lemma_challenged(
        challenge.before,
        challenge.after,
        k,
        resp.noise.bytes(),
        resp.macs,
        resp.noise.f_sender,
        src,
        challenge.draws,
        challenge.now,
        admission,
    );
    lemma_cookie_taken(cookie, sent, reply, validator.tau(src));
    let resp2 = lemma_answer(again, accepted2, inputs2, answered2, second, sent2);
}

/// What an answer is, to the peer it goes to.
proof fn lemma_answer<O>(
    before: DeviceView<O>,
    accepted: AcceptedInitiation,
    inputs: ResponseInputs,
    now: u64,
    r: Result<Option<Output>, HandshakeError>,
    sent: Sent<O>,
) -> (resp: Response)
    requires
        reply_step(before, sent.after, accepted, sent.id, inputs, now, r),
        r matches Ok(Some(Output { reply: Some(bytes), .. })) && bytes@ == sent.bytes,
    ensures
        ({
            let k = accepted.pk_hash;
            let macs = before.peers[k].macs;
            &&& resp == response_of(sent.bytes)
            &&& resp.bytes() == sent.bytes
            &&& resp.noise.f_type == TYPE_RESPONSE
            &&& resp.noise.f_sender == sent.id
            &&& resp.macs.f_mac1@ == macs.mac1(resp.noise.bytes())
            &&& resp.macs.f_mac2@ == macs.mac2(resp.noise.bytes(), now)
            &&& sent.after.peers[k].macs == macs.after_generate(resp.macs.f_mac1, now)
        }),
{
    let k = accepted.pk_hash;
    let resp = choose|resp: Response| #[trigger]
        is_answer(
            before.peers[k],
            sent.after.peers[k],
            sent.id,
            accepted.state,
            inputs,
            resp,
            r->Ok_0->0,
            now,
        );
    law_message_of_bytes(initiation_of(sent.bytes), resp, cookie_reply_of(sent.bytes));
    resp
}

} // verus!
