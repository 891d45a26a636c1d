//! A handshake between two devices, from the first message to the keys on both sides.

use crate::bytes::{be_bytes, lemma_be_value_of_bytes, lemma_pow256, zeros};
use crate::crypto::{dh_agrees, x25519, x25519_public};
use crate::hybrid_v23::agreement::{
    is_made_for, law_added_peers_are_mirrored, law_initiation_is_accepted,
    law_initiation_is_identified, law_response_is_accepted, law_session_keys_agree,
    law_states_agree, mirrored,
};
use crate::hybrid_v23::device::handshake::{
    acceptance_step, answer_step, begin_step, completion_step, cookie_reply_of, initiation_of,
    is_answer, is_begun, is_housekept, is_message, law_housekeeping_keeps_sessions,
    law_message_of_bytes, message_step, named_step, process_step, reply_step, response_of,
    response_step, AcceptedInitiation, ProcessDraws, Step,
};
use crate::hybrid_v23::device::{is_given_psk, DeviceView};
use crate::hybrid_v23::dos::{law_cookie_is_honoured, HALF_OPEN_QUOTA_HARD};
use crate::hybrid_v23::messages::{Initiation, Response, SessionId, MODE_RATCHET};
use crate::hybrid_v23::noise::{
    identity_verdict, initiation_failure, is_first_stage, is_second_stage, is_temporary_state,
    known_mode, names_initiator, ratchet_secret_missing, received_counter, response_fails,
    InitiationInputs, Initiator, ResponseInputs, TemporaryState,
};
use crate::hybrid_v23::peer::{Peer, State};
use crate::hybrid_v23::ratchet::{
    in_step, law_fresh_ratchets_are_in_step, law_in_step_is_accepted,
    law_ratchets_stay_in_step, sent_kid, ResponseRatchet,
};
use crate::hybrid_v23::ri_proof::{epoch_key, MAX_CLOCK_SKEW};
use crate::hybrid_v23::runtime::RuntimeReading;
use crate::hybrid_v23::sessions::{index_of, law_allocated};
use crate::types::{fit_together, HandshakeError, Output, Psk, SocketAddr};
use vstd::prelude::*;

verus! {

/// A handshake between two devices: what each of them was before and after every call, what
/// the calls were made with, and what they returned.
pub ghost struct Run<A, B> {
    pub initiator: DeviceView<A>,
    pub responder: DeviceView<B>,
    /// The hashes of the static keys of the initiator and of the responder.
    pub hash_i: [u8; 32],
    pub hash_r: [u8; 32],
    /// Starting the handshake.
    pub sid_i: SessionId,
    pub inputs_i: InitiationInputs,
    pub began: u64,
    pub begun: DeviceView<A>,
    pub first: Result<Option<Vec<u8>>, HandshakeError>,
    /// Taking in the initiation. On the network it has a source.
    pub src_r: Option<SocketAddr>,
    pub reading_r: RuntimeReading,
    pub draws_r: ProcessDraws,
    pub now_r: u64,
    pub unix_r: u64,
    pub taken: DeviceView<B>,
    pub pending: Result<Step, HandshakeError>,
    pub accepting: DeviceView<B>,
    pub accepted: Result<AcceptedInitiation, HandshakeError>,
    /// Answering it.
    pub shared: Option<[u8; 32]>,
    pub sid_r: SessionId,
    pub inputs_r: ResponseInputs,
    pub answered: DeviceView<B>,
    pub answer: Result<Option<Output>, HandshakeError>,
    /// Taking in the response. On the network it has a source.
    pub src_i: Option<SocketAddr>,
    pub reading_i: RuntimeReading,
    pub draws_i: ProcessDraws,
    pub now_i: u64,
    pub unix_i: u64,
    pub found: DeviceView<A>,
    pub resumed: Result<Step, HandshakeError>,
    pub completed: DeviceView<A>,
    pub outcome: Result<Output, HandshakeError>,
}

impl<A, B> Run<A, B> {
    /// What the initiator keeps about the responder.
    pub open spec fn of_responder(self) -> Peer<A> {
        self.initiator.peers[self.hash_r]
    }

    /// What the responder keeps about the initiator.
    pub open spec fn of_initiator(self) -> Peer<B> {
        self.responder.peers[self.hash_i]
    }

    /// What the initiator keeps about the responder while it waits for the response.
    pub open spec fn waiting(self) -> Peer<A> {
        self.begun.peers[self.hash_r]
    }

    /// The initiation.
    pub open spec fn msg(self) -> Initiation {
        initiation_of((self.first->Ok_0)->0@)
    }

    /// The response.
    pub open spec fn reply(self) -> Response {
        response_of((self.answer->Ok_0)->0.reply->0@)
    }

    /// Do the two devices know each other, with the same secrets on both sides?
    pub open spec fn acquainted(self) -> bool {
        let of_r = self.of_responder();
        let of_i = self.of_initiator();
        &&& self.initiator.keys matches Some(keys_i)
        &&& self.responder.keys matches Some(keys_r)
        &&& keys_i.wf()
        &&& keys_r.wf()
        &&& self.initiator.sessions.wf()
        &&& self.initiator.peers.contains_key(self.hash_r)
        &&& self.responder.peers.contains_key(self.hash_i)
        &&& keys_i.pk_hash == self.hash_i
        &&& keys_r.pk_hash == self.hash_r
        &&& of_r.pk_hash == self.hash_r
        &&& of_i.pk_hash == self.hash_i
        &&& of_r.pk == keys_r.pk
        &&& of_i.pk == keys_i.pk
        &&& mirrored(of_r, of_i)
        &&& of_r.ss@ != zeros(32)
        &&& of_r.macs.mac1_key@ == of_i.macs_validator.mac1_key@
        &&& of_i.macs.mac1_key@ == of_r.macs_validator.mac1_key@
        &&& self.initiator.ri_key == self.responder.ri_key
    }

    /// Was every call made with what the one before it returned? The initiator begins, the
    /// responder processes the bytes it gets, accepts and responds, and the initiator
    /// processes the bytes of the response and completes the handshake. What was encapsulated
    /// on one side is decapsulated on the other.
    pub open spec fn steps(self) -> bool {
        &&& begin_step(
            self.initiator,
            self.begun,
            self.hash_r,
            self.sid_i,
            self.inputs_i,
            self.began,
            self.first,
        )
        &&& self.first matches Ok(Some(bytes)) ==> process_step(
            self.responder,
            self.taken,
            bytes@,
            self.src_r,
            self.reading_r,
            self.draws_r,
            self.now_r,
            self.pending,
        )
        &&& self.pending matches Ok(Step::Initiation(pending)) ==> acceptance_step(
            self.taken,
            self.accepting,
            pending,
            Some(self.inputs_i.static_secret),
            self.now_r,
            self.unix_r,
            self.accepted,
        )
        &&& self.of_responder().ratchet.initiation_mode() == MODE_RATCHET ==> self.shared == Some(
            self.inputs_i.ratchet->0.secret,
        )
        &&& self.accepted matches Ok(accepted) ==> reply_step(
            self.accepting,
            self.answered,
            accepted,
            self.shared,
            self.sid_r,
            self.inputs_r,
            self.now_r,
            self.answer,
        )
        &&& self.answer matches Ok(Some(Output { reply: Some(bytes), .. })) ==> process_step(
            self.begun,
            self.found,
            bytes@,
            self.src_i,
            self.reading_i,
            self.draws_i,
            self.now_i,
            self.resumed,
        )
        &&& self.resumed matches Ok(Step::Response(pending)) ==> completion_step(
            self.found,
            self.completed,
            pending,
            Some(self.inputs_r.shk_master),
            Some(self.inputs_r.shk_static),
            self.now_i,
            self.unix_i,
            self.outcome,
        )
    }

    /// The ratchet that the responder takes up for the initiation.
    pub open spec fn ratchet(self) -> Result<ResponseRatchet, HandshakeError> {
        let sent = self.of_responder().ratchet;
        self.of_initiator().ratchet.response_spec(
            sent.initiation_mode(),
            sent.epoch,
            sent_kid(sent),
        )
    }

    /// Are the ratchets of the two devices in step before the handshake?
    pub open spec fn in_step(self) -> bool {
        in_step(self.of_responder().ratchet, self.of_initiator().ratchet)
    }

    /// Can an initiation be made?
    pub open spec fn can_begin(self) -> bool {
        &&& initiation_failure(self.of_responder(), self.inputs_i) is None
        &&& self.initiator.sessions.is_free(self.sid_i)
    }

    /// Can more handshakes be counted?
    pub open spec fn countable(self) -> bool {
        &&& self.of_responder().k_send < u128::MAX
        &&& self.of_responder().ratchet.epoch < u64::MAX
    }

    /// Has the initiator begun and the responder answered?
    pub open spec fn is_answered(self) -> bool {
        &&& self.first matches Ok(Some(_))
        &&& self.pending matches Ok(Step::Initiation(_))
        &&& self.accepted is Ok
        &&& self.answer matches Ok(Some(_))
    }

    /// Is the initiation let through to the expensive part? Without a source it always is;
    /// with one it needs a valid cookie, and the source must not be dropped.
    pub open spec fn is_let_through(self) -> bool {
        forall|kept: DeviceView<B>, ids: Seq<u32>| #[trigger]
            is_housekept(self.responder, kept, self.reading_r, ids, self.now_r) ==> kept.gate(
                self.msg(),
                self.src_r,
                self.draws_r.challenge,
                self.now_r,
            ).1 is Pass
    }

    /// Is the answer taken in? The initiator's session is not given up because an earlier
    /// handshake in a session with its index has timed out, and its clock is close to that of
    /// the responder. An answer with a source carries a valid cookie for it, and the source
    /// does not send too often.
    pub open spec fn is_taken_in(self) -> bool {
        &&& !self.begun.reaps(self.reading_i, index_of(self.sid_i), self.now_i)
        &&& self.unix_i - self.inputs_r.unix_secs <= MAX_CLOCK_SKEW
        &&& self.inputs_r.unix_secs - self.unix_i <= MAX_CLOCK_SKEW
        &&& self.src_i matches Some(addr) ==> self.waiting().macs_validator.mac2_ok(
            self.reply().noise.bytes(),
            addr,
            self.reply().macs,
            self.now_i,
        )
        &&& self.begun.limit(self.src_i, self.now_i).1
    }

    /// Does nothing stand in the way of an initiation that is let through? An initiation can
    /// be made, its source does not send too often, the responder's session identifier is
    /// free, the answer is taken in, the ratchets are in step, the counter is new, no other
    /// initiation came just before, the clocks are close, and no Diffie-Hellman secret is
    /// zero.
    pub open spec fn is_acceptable(self) -> bool {
        &&& self.can_begin()
        &&& self.countable()
        &&& self.is_taken_in()
        &&& self.responder.limit(self.src_r, self.now_r).1
        &&& self.accepting.sessions.is_free(self.sid_r)
        &&& self.ratchet() matches Ok(ratchet)
        &&& ratchet.rk@ == self.of_responder().ratchet.rk@
        &&& ratchet.k_ri@ == self.of_responder().ratchet.k_ri@
        &&& !ratchet_secret_missing(ratchet)
        &&& self.of_initiator().replay_verdict(
            (self.of_responder().k_send + 1) as u128,
            self.now_r,
        ) is Ok
        &&& self.unix_r - self.inputs_i.unix_secs <= MAX_CLOCK_SKEW
        &&& self.inputs_i.unix_secs - self.unix_r <= MAX_CLOCK_SKEW
        &&& x25519(self.inputs_r.scalar(), self.of_initiator().pk@) != zeros(32)
        &&& x25519(self.inputs_r.scalar(), x25519_public(self.inputs_i.scalar())) != zeros(32)
    }

    /// Does nothing stand in the way of the handshake?
    pub open spec fn unhindered(self) -> bool {
        self.is_let_through() && self.is_acceptable()
    }

    /// Are the two messages of their proper lengths, do both sides end up with keys, and do
    /// these fit together?
    pub open spec fn succeeds(self) -> bool {
        &&& self.first matches Ok(Some(m1))
        &&& m1@.len() == 2004
        &&& self.answer matches Ok(Some(out_r))
        &&& out_r.peer == Some(self.hash_i)
        &&& out_r.reply matches Some(m2)
        &&& m2@.len() == 2012
        &&& out_r.keys matches Some(pair_r)
        &&& self.outcome matches Ok(out_i)
        &&& out_i.peer == Some(self.hash_r)
        &&& out_i.reply is None
        &&& out_i.keys matches Some(pair_i)
        &&& fit_together(pair_i, pair_r)
    }
}

/// Two devices that have added each other, and were given the same pre-shared key for each
/// other then, know each other and have their ratchets in step, unless their Diffie-Hellman
/// secret is zero or they were given different rendezvous keys.
pub proof fn law_added_devices_are_acquainted<A, B>(
    run: Run<A, B>,
    added_r: Peer<A>,
    added_i: Peer<B>,
    psk: Psk,
)
    requires
        run.initiator.keys matches Some(keys_i) && run.responder.keys matches Some(keys_r)
            && keys_i.wf() && keys_r.wf() && run.hash_i == keys_i.pk_hash && run.hash_r
            == keys_r.pk_hash && run.initiator.sessions.wf() && run.initiator.is_added(
            keys_r.pk,
            keys_r.pk_pq@,
            added_r.opaque,
            added_r,
        ) && run.responder.is_added(keys_i.pk, keys_i.pk_pq@, added_i.opaque, added_i),
        run.initiator.peers.contains_key(run.hash_r),
        run.responder.peers.contains_key(run.hash_i),
        is_given_psk(added_r, run.of_responder(), psk),
        is_given_psk(added_i, run.of_initiator(), psk),
        added_r.ss@ != zeros(32),
        run.initiator.ri_key == run.responder.ri_key,
    ensures
        run.acquainted(),
        run.in_step(),
{
    let keys_i = run.initiator.keys->0;
    let keys_r = run.responder.keys->0;
    let of_r = run.of_responder();
    law_added_peers_are_mirrored(keys_i, keys_r, of_r, run.of_initiator());
    law_fresh_ratchets_are_in_step(
        of_r.ratchet,
        run.of_initiator().ratchet,
        of_r.own_pk_hash@,
        of_r.pk_hash@,
        psk@,
    );
    assert(of_r.pk_hash =~= run.hash_r);
    assert(run.of_initiator().pk_hash =~= run.hash_i);
}

/// The initiator begins.
proof fn lemma_begun<A, B>(run: Run<A, B>)
    requires
        run.acquainted(),
        run.steps(),
        run.can_begin(),
    ensures
        run.first matches Ok(Some(bytes)) && bytes@ == run.msg().bytes() && bytes@.len() == 2004
            && Initiation::recognizes(bytes@),
        is_begun(
            run.initiator,
            run.of_responder(),
            run.waiting(),
            run.sid_i,
            run.inputs_i,
            run.msg(),
            run.began,
        ),
        run.begun == (DeviceView {
            sessions: run.initiator.sessions.allocated(run.sid_i, run.hash_r),
            ..run.initiator.with_peer(run.hash_r, run.waiting())
        }),
{
    let msg = choose|msg: Initiation| #[trigger]
        is_begun(
            run.initiator,
            run.of_responder(),
            run.waiting(),
            run.sid_i,
            run.inputs_i,
            msg,
            run.began,
        ) && is_message(run.first, msg.bytes()) && run.begun == (DeviceView {
            sessions: run.initiator.sessions.allocated(run.sid_i, run.hash_r),
            ..run.initiator.with_peer(run.hash_r, run.waiting())
        });
    law_message_of_bytes(msg, run.reply(), cookie_reply_of(Seq::empty()));
    msg.lemma_bytes_len();
    msg.lemma_recognizes();
}

/// An initiation without a source is let through. So is one with a valid cookie for its
/// source, unless the source is banned or has left too many handshakes half open.
pub proof fn law_valid_cookie_is_let_through<A, B>(run: Run<A, B>)
    ensures
        run.src_r is None ==> run.is_let_through(),
        run.src_r matches Some(addr) && run.responder.cookie_ok(run.msg(), addr, run.now_r) && (
        forall|kept: DeviceView<B>, ids: Seq<u32>| #[trigger]
            is_housekept(run.responder, kept, run.reading_r, ids, run.now_r) ==> {
                let state = kept.dos.without_idle(run.now_r).state_of(addr.ip, run.now_r);
                !state.banned(run.now_r) && state.half_open < HALF_OPEN_QUOTA_HARD
            }) ==> run.is_let_through(),
{
    if let Some(addr) = run.src_r {
        assert forall|kept: DeviceView<B>, ids: Seq<u32>| #[trigger]
            is_housekept(run.responder, kept, run.reading_r, ids, run.now_r) && ({
                let state = kept.dos.without_idle(run.now_r).state_of(addr.ip, run.now_r);
                !state.banned(run.now_r) && state.half_open < HALF_OPEN_QUOTA_HARD
            }) && run.responder.cookie_ok(run.msg(), addr, run.now_r) implies kept.gate(
            run.msg(),
            run.src_r,
            run.draws_r.challenge,
            run.now_r,
        ).1 is Pass by {
            law_cookie_is_honoured(kept.dos, addr.ip, run.draws_r.challenge, run.now_r);
        }
    }
}

/// An initiation that is let through passes the first step at the responder.
proof fn lemma_let_through<A, B>(run: Run<A, B>)
    requires
        run.acquainted(),
        run.steps(),
        run.can_begin(),
        run.is_let_through(),
    ensures
        run.pending matches Ok(Step::Initiation(_)),
{
    lemma_begun(run);
    let keys_r = run.responder.keys->0;
    let dh = x25519(run.inputs_i.scalar(), run.of_responder().pk@);
    assert(dh_agrees(dh, run.inputs_i.scalar(), run.of_responder().pk@));
    assert(x25519(keys_r.sk@, run.msg().noise.f_ephemeral@) == dh);
    assert(known_mode(run.msg().noise.f_mode));
}

/// What the responder is after an initiation that has passed the first step.
proof fn lemma_passed<A, B>(run: Run<A, B>)
    requires
        run.acquainted(),
        run.steps(),
        run.can_begin(),
        run.pending matches Ok(Step::Initiation(_)),
    ensures
        run.taken.peers == run.responder.peers,
        run.taken.keys == run.responder.keys,
        run.taken.ri_key == run.responder.ri_key,
        run.taken.limits == run.responder.limits,
        run.pending matches Ok(Step::Initiation(pending)) && pending.msg == run.msg() && pending.src
            == run.src_r && is_first_stage(
            pending.stage,
            run.responder.keys->0,
            run.msg().noise,
        ),
{
    lemma_begun(run);
}

/// The responder learns who it comes from.
proof fn lemma_identified<A, B>(run: Run<A, B>) -> (r: (Initiator, Seq<u8>))
    requires
        run.acquainted(),
        run.steps(),
        run.can_begin(),
        run.pending matches Ok(Step::Initiation(_)),
    ensures
        ({
            let (who, plain) = r;
            let pending = run.pending->Ok_0->Initiation_0;
            let stage = pending.stage;
            let secret = Some(run.inputs_i.static_secret);
            &&& identity_verdict(stage.ck@, stage.hs@, stage.dh@, run.msg().noise, secret) == Ok::<
                Seq<u8>,
                HandshakeError,
            >(plain)
            &&& names_initiator(
                stage,
                run.msg().noise,
                run.inputs_i.static_secret@,
                plain,
                who,
            )
            &&& named_step(
                run.taken,
                run.accepting,
                pending,
                who,
                run.now_r,
                run.unix_r,
                run.accepted,
            )
            &&& who.pk_hash == run.hash_i
            &&& who.ri.ts == run.inputs_i.unix_secs
        }),
{
    lemma_begun(run);
    lemma_passed(run);
    let pending = run.pending->Ok_0->Initiation_0;
    let stage = pending.stage;
    let of_r = run.of_responder();
    law_initiation_is_identified(
        run.initiator.keys->0,
        run.responder.keys->0,
        of_r,
        run.sid_i,
        run.initiator.effective_key(of_r),
        run.inputs_i,
        run.msg().noise,
        stage,
    );
    let secret = Some(run.inputs_i.static_secret);
    let plain = identity_verdict(stage.ck@, stage.hs@, stage.dh@, run.msg().noise, secret)->Ok_0;
    let who = choose|who: Initiator|
        #[trigger] names_initiator(
            stage,
            run.msg().noise,
            run.inputs_i.static_secret@,
            plain,
            who,
        ) && named_step(
            run.taken,
            run.accepting,
            pending,
            who,
            run.now_r,
            run.unix_r,
            run.accepted,
        );
    assert(who.pk_hash =~= run.hash_i);
    (who, plain)
}

/// The responder accepts it.
proof fn lemma_accepted<A, B>(run: Run<A, B>) -> (r: (Initiator, Seq<u8>))
    requires
        run.acquainted(),
        run.steps(),
        run.is_acceptable(),
        run.pending matches Ok(Step::Initiation(_)),
    ensures
        ({
            let (who, plain) = r;
            let of_i = run.of_initiator();
            let k = (run.of_responder().k_send + 1) as u128;
            &&& run.pending matches Ok(Step::Initiation(pending))
            &&& names_initiator(
                pending.stage,
                run.msg().noise,
                run.inputs_i.static_secret@,
                plain,
                who,
            )
            &&& run.accepted matches Ok(accepted)
            &&& accepted.pk_hash == run.hash_i
            &&& accepted.src == run.src_r
            &&& is_second_stage(
                accepted.stage,
                of_i,
                who,
                run.msg().noise,
                run.ratchet()->Ok_0,
                run.responder.ri_key,
            )
            &&& run.accepting.peers.contains_key(run.hash_i)
            &&& run.accepting.peers[run.hash_i] == of_i.after_initiation(k, run.now_r)
        }),
{
    lemma_begun(run);
    lemma_passed(run);
    let (who, plain) = lemma_identified(run);
    let pending = run.pending->Ok_0->Initiation_0;
    law_initiation_is_accepted(
        run.initiator.keys->0,
        run.responder.keys->0,
        run.of_responder(),
        run.of_initiator(),
        run.sid_i,
        run.inputs_i,
        run.msg().noise,
        pending.stage,
        plain,
        who,
        run.ratchet()->Ok_0,
        run.responder.ri_key,
        run.now_r,
        run.unix_r,
    );
    (who, plain)
}

/// The responder answers it, in the state that the initiator remembers.
proof fn lemma_answered<A, B>(run: Run<A, B>) -> (state: TemporaryState)
    requires
        run.acquainted(),
        run.steps(),
        run.is_acceptable(),
        run.pending matches Ok(Step::Initiation(_)),
    ensures
        run.accepting.peers.contains_key(run.hash_i),
        run.answer matches Ok(Some(out)) && is_answer(
            run.accepting.peers[run.hash_i],
            run.answered.peers[run.hash_i],
            run.sid_r,
            state,
            run.inputs_r,
            run.reply(),
            out,
            run.now_r,
        ),
        run.accepting.peers[run.hash_i] == run.of_initiator().after_initiation(
            (run.of_responder().k_send + 1) as u128,
            run.now_r,
        ),
        !response_fails(run.accepting.peers[run.hash_i], state, run.inputs_r),
        run.waiting().state matches State::InitiationSent { hs, ck, ss_r, .. } && state.hs@ == hs@
            && state.ck@ == ck@ && state.ss_r@ == ss_r@,
        state.sender == run.sid_i,
        state.eph_pk@ == run.msg().noise.f_ephemeral@,
        state.eph_pk_pq == run.inputs_i.eph_pk_pq,
        state.ri_key@ == epoch_key(run.initiator.ri_key, run.of_responder().ratchet.k_ri@),
        run.ratchet() == Ok::<ResponseRatchet, HandshakeError>(state.ratchet),
        state.ratchet.mode == run.msg().noise.f_mode,
        state.ratchet.epoch == run.msg().noise.f_epoch,
{
    let (who, plain) = lemma_accepted(run);
    lemma_begun(run);
    lemma_passed(run);
    let pending = run.pending->Ok_0->Initiation_0;
    let accepted = run.accepted->Ok_0;
    let state = choose|state: TemporaryState| #[trigger]
        is_temporary_state(state, accepted.stage, run.shared) && answer_step(
            run.accepting,
            run.answered,
            accepted,
            state,
            run.sid_r,
            run.inputs_r,
            run.now_r,
            run.answer,
        );
    assert(run.ratchet()->Ok_0.mode == run.msg().noise.f_mode);
    law_states_agree(
        run.initiator.keys->0,
        run.responder.keys->0,
        run.of_responder(),
        run.of_initiator(),
        run.sid_i,
        run.inputs_i,
        run.msg().noise,
        run.waiting().state,
        pending.stage,
        plain,
        who,
        run.ratchet()->Ok_0,
        run.responder.ri_key,
        accepted.stage,
        run.shared,
        state,
    );
    let peer = run.accepting.peers[run.hash_i];
    let after = run.answered.peers[run.hash_i];
    let out = run.answer->Ok_0->0;
    let reply = choose|reply: Response| #[trigger]
        is_answer(peer, after, run.sid_r, state, run.inputs_r, reply, out, run.now_r);
    law_message_of_bytes(run.msg(), reply, cookie_reply_of(Seq::empty()));
    state
}

/// The initiator looks into the response.
proof fn lemma_resumed<A, B>(run: Run<A, B>)
    requires
        run.acquainted(),
        run.steps(),
        run.is_acceptable(),
        run.pending matches Ok(Step::Initiation(_)),
    ensures
        run.answer matches Ok(Some(Output { reply: Some(bytes), .. })) && bytes@.len() == 2012,
        exists|kept: DeviceView<A>| #[trigger]
            response_step(
                kept,
                run.found,
                run.reply(),
                run.src_i,
                run.draws_i,
                run.now_i,
                run.resumed,
            ) && kept.peers == run.begun.peers && kept.keys == run.begun.keys && kept.ri_key
                == run.begun.ri_key && kept.limits == run.begun.limits && kept.peer_of_sid(
                run.sid_i,
            ) == Some(run.hash_r),
{
    lemma_begun(run);
    let state = lemma_answered(run);
    run.reply().lemma_bytes_len();
    run.reply().lemma_recognizes();
    let bytes = (run.answer->Ok_0)->0.reply->0@;
    assert(!Initiation::recognizes(bytes));
    let (kept, ids) = choose|kept: DeviceView<A>, ids: Seq<u32>| #[trigger]
        is_housekept(run.begun, kept, run.reading_i, ids, run.now_i) && message_step(
            kept,
            run.found,
            bytes,
            run.src_i,
            run.draws_i,
            run.now_i,
            run.resumed,
        );
    law_allocated(run.initiator.sessions, run.sid_i, run.hash_r);
    law_housekeeping_keeps_sessions(
        run.begun,
        kept,
        run.reading_i,
        ids,
        run.now_i,
        run.sid_i,
    );
    assert(run.begun.peer_of_sid(run.sid_i) == Some(run.hash_r));
    assert(response_step(
        kept,
        run.found,
        run.reply(),
        run.src_i,
        run.draws_i,
        run.now_i,
        run.resumed,
    ));
}

/// The initiator completes the handshake.
proof fn lemma_completes<A, B>(run: Run<A, B>)
    requires
        run.acquainted(),
        run.steps(),
        run.is_acceptable(),
        run.pending matches Ok(Step::Initiation(_)),
    ensures
        run.succeeds(),
        run.answered.peers[run.hash_i].ratchet.pending_local matches Some(offer) && {
            let ratchet = run.completed.peers[run.hash_r].ratchet;
            &&& ratchet.epoch == offer.epoch
            &&& ratchet.epoch == run.msg().noise.f_epoch + 1
            &&& ratchet.rk@ == offer.rk@
            &&& ratchet.k_ri@ == offer.k_ri@
            &&& ratchet.remote_kid matches Some(kid)
            &&& kid@ == offer.local_kid@
            &&& ratchet.remote_pub matches Some(key)
            &&& key@ == run.inputs_r.next_pub@
        },
{
    let state = lemma_answered(run);
    let keys_i = run.initiator.keys->0;
    let of_i = run.accepting.peers[run.hash_i];
    let out_r = run.answer->Ok_0->0;
    let offer = run.answered.peers[run.hash_i].ratchet.pending_local->0;
    lemma_begun(run);
    lemma_resumed(run);
    let kept = choose|kept: DeviceView<A>| #[trigger]
        response_step(
            kept,
            run.found,
            run.reply(),
            run.src_i,
            run.draws_i,
            run.now_i,
            run.resumed,
        ) && kept.peers == run.begun.peers && kept.keys == run.begun.keys && kept.ri_key
            == run.begun.ri_key && kept.limits == run.begun.limits && kept.peer_of_sid(run.sid_i)
            == Some(run.hash_r);
    let pending = run.resumed->Ok_0->Response_0;
    let stage = pending.stage;
    assert(is_made_for(
        keys_i,
        run.waiting(),
        of_i,
        state,
        run.inputs_r,
        run.sid_r,
        run.reply().noise,
        offer,
        stage,
    ));
    law_response_is_accepted(
        keys_i,
        run.waiting(),
        of_i,
        state,
        run.inputs_r,
        run.sid_r,
        run.reply().noise,
        offer,
        stage,
        run.unix_i,
    );
    law_session_keys_agree(
        keys_i,
        run.waiting(),
        of_i,
        state,
        run.inputs_r,
        run.sid_r,
        run.reply().noise,
        offer,
        stage,
        run.now_i,
        run.now_r,
        run.outcome->Ok_0.keys->0,
        out_r.keys->0,
        run.completed.peers[run.hash_r].ratchet,
    );
}

/// A handshake between two devices that know each other succeeds, if nothing stands in the
/// way and the bytes that one side sends are processed by the other, with or without sources:
/// both sides end up with keys, and what one side sends with is what the other receives with.
/// The initiator's ratchet has then moved on to what the responder has staged.
pub proof fn law_handshake_completes<A, B>(run: Run<A, B>)
    requires
        run.acquainted(),
        run.steps(),
        run.unhindered(),
    ensures
        run.succeeds(),
        run.answered.peers[run.hash_i].ratchet.pending_local matches Some(offer) && {
            let ratchet = run.completed.peers[run.hash_r].ratchet;
            &&& ratchet.epoch == offer.epoch
            &&& ratchet.epoch == run.msg().noise.f_epoch + 1
            &&& ratchet.rk@ == offer.rk@
            &&& ratchet.k_ri@ == offer.k_ri@
            &&& ratchet.remote_kid matches Some(kid)
            &&& kid@ == offer.local_kid@
            &&& ratchet.remote_pub matches Some(key)
            &&& key@ == run.inputs_r.next_pub@
        },
{
    lemma_let_through(run);
    lemma_completes(run);
}

/// A completed handshake leaves two devices ready for the next one: they know each other, the
/// initiator starts it in the next epoch with the ratchet key that the responder has offered,
/// the responder has the secret of that key and the same root keys, and its counter is the
/// one that the initiator counts on from.
pub proof fn law_next_handshake_is_ready<A, B>(run: Run<A, B>, next: Run<A, B>)
    requires
        run.acquainted(),
        run.steps(),
        run.unhindered(),
        next.hash_i == run.hash_i,
        next.hash_r == run.hash_r,
        next.initiator.keys == run.initiator.keys,
        next.responder.keys == run.responder.keys,
        next.initiator.ri_key == next.responder.ri_key,
        next.initiator.sessions.wf(),
        next.initiator.peers.contains_key(run.hash_r),
        next.responder.peers.contains_key(run.hash_i),
        next.of_responder() == run.completed.peers[run.hash_r],
        next.of_initiator() == run.answered.peers[run.hash_i],
    ensures
        next.acquainted(),
        next.of_responder().ratchet.initiation_mode() == MODE_RATCHET,
        next.of_responder().ratchet.epoch == run.of_responder().ratchet.epoch + 1,
        next.of_responder().ratchet.remote_pub == Some(run.inputs_r.next_pub),
        next.ratchet() matches Ok(ratchet) && ratchet.rk@ == next.of_responder().ratchet.rk@
            && ratchet.k_ri@ == next.of_responder().ratchet.k_ri@ && ratchet.local_secret == Some(
            run.inputs_r.next_secret,
        ),
        next.of_initiator().k_recv == next.of_responder().k_send,
{
    lemma_let_through(run);
    lemma_completes(run);
    lemma_begun(run);
    let state = lemma_answered(run);
    lemma_resumed(run);
    assert(next.of_responder().ratchet.remote_pub->0 =~= run.inputs_r.next_pub);
    assert(run.of_initiator().ratchet.response_spec(
        run.msg().noise.f_mode,
        run.msg().noise.f_epoch,
        run.msg().noise.f_ratchet_kid@,
    ) == Ok::<ResponseRatchet, HandshakeError>(state.ratchet));
}

/// The answer leaves a ratchet for the next epoch with the responder.
proof fn lemma_staged<A, B>(run: Run<A, B>)
    requires
        run.acquainted(),
        run.steps(),
        run.in_step(),
        run.countable(),
        run.is_answered(),
    ensures
        run.answered.peers[run.hash_i].ratchet.pending_local matches Some(offer) && offer.epoch
            == run.of_responder().ratchet.epoch + 1 && run.answered.peers[run.hash_i].ratchet
            == run.of_initiator().ratchet.staged(run.ratchet()->Ok_0, offer),
{
    lemma_begun(run);
    lemma_passed(run);
    let (who, plain) = lemma_identified(run);
    let accepted = run.accepted->Ok_0;
    law_in_step_is_accepted(run.of_responder().ratchet, run.of_initiator().ratchet);
    let state = choose|state: TemporaryState| #[trigger]
        is_temporary_state(state, accepted.stage, run.shared) && answer_step(
            run.accepting,
            run.answered,
            accepted,
            state,
            run.sid_r,
            run.inputs_r,
            run.now_r,
            run.answer,
        );
    let peer = run.accepting.peers[run.hash_i];
    assert(peer.ratchet == run.of_initiator().ratchet);
    assert(state.ratchet == run.ratchet()->Ok_0);
    let after = run.answered.peers[run.hash_i];
    let out = run.answer->Ok_0->0;
    let reply = choose|reply: Response| #[trigger]
        is_answer(peer, after, run.sid_r, state, run.inputs_r, reply, out, run.now_r);
    assert(is_answer(peer, after, run.sid_r, state, run.inputs_r, reply, out, run.now_r));
}

/// Where the responder has answered, nothing stands in the way of an answer that is taken in.
proof fn lemma_acceptable<A, B>(run: Run<A, B>)
    requires
        run.acquainted(),
        run.steps(),
        run.in_step(),
        run.countable(),
        run.is_answered(),
        run.is_taken_in(),
    ensures
        run.is_acceptable(),
{
    lemma_begun(run);
    lemma_passed(run);
    let (who, plain) = lemma_identified(run);
    let of_r = run.of_responder();
    let of_i = run.of_initiator();
    let accepted = run.accepted->Ok_0;
    law_in_step_is_accepted(of_r.ratchet, of_i.ratchet);
    lemma_pow256();
    lemma_be_value_of_bytes((of_r.k_send + 1) as nat, 16);
    assert(received_counter(of_i, who, run.msg().noise) == Some(
        be_bytes((of_r.k_send + 1) as nat, 16),
    ));
    let state = choose|state: TemporaryState| #[trigger]
        is_temporary_state(state, accepted.stage, run.shared) && answer_step(
            run.accepting,
            run.answered,
            accepted,
            state,
            run.sid_r,
            run.inputs_r,
            run.now_r,
            run.answer,
        );
    assert(!response_fails(run.accepting.peers[run.hash_i], state, run.inputs_r));
}

/// A handshake that the responder has answered completes when the answer is taken in, with or
/// without sources, and the ratchets stay in step. They stay in step as well when the answer
/// is lost.
pub proof fn law_answered_handshake_completes<A, B>(run: Run<A, B>)
    requires
        run.acquainted(),
        run.steps(),
        run.in_step(),
        run.countable(),
        run.is_answered(),
    ensures
        in_step(run.of_responder().ratchet, run.answered.peers[run.hash_i].ratchet),
        run.is_taken_in() ==> run.succeeds() && in_step(
            run.completed.peers[run.hash_r].ratchet,
            run.answered.peers[run.hash_i].ratchet,
        ),
{
    lemma_staged(run);
    let sent = run.of_responder().ratchet;
    let offer = run.answered.peers[run.hash_i].ratchet.pending_local->0;
    law_ratchets_stay_in_step(
        sent,
        run.of_initiator().ratchet,
        offer,
        run.inputs_r.next_pub,
        offer.local_kid,
        offer.rk,
        offer.k_ri,
    );
    if run.is_taken_in() {
        lemma_acceptable(run);
        lemma_completes(run);
        lemma_begun(run);
        assert(run.msg().noise.f_epoch == sent.epoch);
    }
}

} // verus!
