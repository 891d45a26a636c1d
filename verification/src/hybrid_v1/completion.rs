//! A handshake between two devices, from the first message to the keys on both sides.

use crate::bytes::{lemma_be_value_of_bytes, lemma_pow256, zeros};
use crate::crypto::{dh_agrees, x25519, x25519_public};
use crate::hybrid_v1::agreement::{
    law_added_peers_are_mirrored, law_initiation_is_accepted, law_initiation_is_identified,
    law_session_keys_agree, law_states_agree, mirrored,
};
use crate::hybrid_v1::device::handshake::{
    acceptance_step, begin_step, completion_step, cookie_reply_of, initiation_of, is_answer,
    is_begun, is_message, law_message_of_bytes, message_step, named_step, reply_step, response_of,
    AcceptedInitiation, CookieDraws, PendingInitiation, Step,
};
use crate::hybrid_v1::device::DeviceView;
use crate::hybrid_v1::messages::{Initiation, Response};
use crate::hybrid_v1::noise::{
    acceptance_verdict, initiation_fails, is_first_stage, is_temporary_state, names_initiator,
    response_fails, InitiationInputs, Initiator, ResponseInputs,
};
use crate::hybrid_v1::peer::{is_new_generator, is_new_validator, Peer, State};
use crate::types::{fit_together, HandshakeError, Output, Psk, SocketAddr};
use vstd::prelude::*;

verus! {

/// A handshake between two devices: what each of them was before and after every call, what
/// the calls were made with, and what they returned.
pub ghost struct Run<A, B> {
    pub initiator: DeviceView<A>,
    pub responder: DeviceView<B>,
    /// The hashes of the static keys of the initiator and of the responder.
    pub hash_i: [u8; 32],
    pub hash_r: [u8; 32],
    /// Starting the handshake.
    pub id_i: u32,
    pub inputs_i: InitiationInputs,
    pub began: u64,
    pub begun: DeviceView<A>,
    pub first: Result<Option<Vec<u8>>, HandshakeError>,
    /// Taking in the initiation. Under load it has a source.
    pub src_r: Option<SocketAddr>,
    pub draws_r: CookieDraws,
    pub now_r: u64,
    pub taken: DeviceView<B>,
    pub pending: Result<Step, HandshakeError>,
    pub accepting: DeviceView<B>,
    pub accepted: Result<Step, HandshakeError>,
    /// Answering it.
    pub id_r: u32,
    pub inputs_r: ResponseInputs,
    pub answered: DeviceView<B>,
    pub answer: Result<Option<Output>, HandshakeError>,
    /// Taking in the response. Under load it has a source.
    pub src_i: Option<SocketAddr>,
    pub draws_i: CookieDraws,
    pub now_i: u64,
    pub found: DeviceView<A>,
    pub resumed: Result<Step, HandshakeError>,
    pub completed: DeviceView<A>,
    pub outcome: Result<Output, HandshakeError>,
}

impl<A, B> Run<A, B> {
    /// What the initiator keeps about the responder.
    pub open spec fn of_responder(self) -> Peer<A> {
        self.initiator.peers[self.hash_r]
    }

    /// What the responder keeps about the initiator.
    pub open spec fn of_initiator(self) -> Peer<B> {
        self.responder.peers[self.hash_i]
    }

    /// What the initiator keeps about the responder while it waits for the response.
    pub open spec fn waiting(self) -> Peer<A> {
        self.begun.peers[self.hash_r]
    }

    /// The initiation.
    pub open spec fn msg(self) -> Initiation {
        initiation_of((self.first->Ok_0)->0@)
    }

    /// The response.
    pub open spec fn reply(self) -> Response {
        response_of((self.answer->Ok_0)->0.reply->0@)
    }

    /// Do the two devices know each other, with the same secrets on both sides?
    pub open spec fn acquainted(self) -> bool {
        let of_r = self.of_responder();
        let of_i = self.of_initiator();
        &&& self.initiator.keys matches Some(keys_i)
        &&& self.responder.keys matches Some(keys_r)
        &&& keys_i.wf()
        &&& keys_r.wf()
        &&& self.initiator.peers.contains_key(self.hash_r)
        &&& self.responder.peers.contains_key(self.hash_i)
        &&& keys_i.pk_hash == self.hash_i
        &&& keys_r.pk_hash == self.hash_r
        &&& of_r.pk_hash == self.hash_r
        &&& of_i.pk_hash == self.hash_i
        &&& of_r.pk == keys_r.pk
        &&& of_i.pk == keys_i.pk
        &&& mirrored(of_r, of_i)
        &&& of_r.macs.mac1_key@ == of_i.macs_validator.mac1_key@
        &&& of_i.macs.mac1_key@ == of_r.macs_validator.mac1_key@
    }

    /// Was every call made with what the one before it returned? The initiator begins, the
    /// responder processes the bytes it gets, accepts and responds, and the initiator
    /// processes the bytes of the response and completes the handshake. What was encapsulated
    /// on one side is decapsulated on the other.
    pub open spec fn steps(self) -> bool {
        &&& begin_step(
            self.initiator,
            self.begun,
            self.hash_r,
            self.id_i,
            self.inputs_i,
            self.began,
            self.first,
        )
        &&& self.first matches Ok(Some(bytes)) ==> message_step(
            self.responder,
            self.taken,
            bytes@,
            self.src_r,
            self.draws_r,
            self.now_r,
            self.pending,
        )
        &&& self.pending matches Ok(Step::Initiation(pending)) ==> acceptance_step(
            self.taken,
            self.accepting,
            pending,
            self.inputs_i.static_secret@,
            self.draws_r,
            self.now_r,
            self.accepted,
        )
        &&& self.accepted matches Ok(Step::Accepted(accepted)) ==> reply_step(
            self.accepting,
            self.answered,
            accepted,
            self.id_r,
            self.inputs_r,
            self.now_r,
            self.answer,
        )
        &&& self.answer matches Ok(Some(Output { reply: Some(bytes), .. })) ==> message_step(
            self.begun,
            self.found,
            bytes@,
            self.src_i,
            self.draws_i,
            self.now_i,
            self.resumed,
        )
        &&& self.resumed matches Ok(Step::Response(pending)) ==> completion_step(
            self.found,
            self.completed,
            pending,
            self.inputs_r.eph_secret@,
            self.inputs_r.static_secret@,
            self.now_i,
            self.outcome,
        )
    }

    /// Can an initiation be made?
    pub open spec fn can_begin(self) -> bool {
        &&& !self.initiator.ids.contains_key(self.id_i)
        &&& !initiation_fails(self.of_responder(), self.inputs_i)
    }

    /// Has the initiator begun and the responder answered?
    pub open spec fn is_answered(self) -> bool {
        &&& self.first matches Ok(Some(_))
        &&& self.pending matches Ok(Step::Initiation(_))
        &&& self.accepted matches Ok(Step::Accepted(_))
        &&& self.answer matches Ok(Some(_))
    }

    /// Is the initiation admitted? One with a source carries a valid cookie for it, and the
    /// source does not send too often.
    pub open spec fn is_admitted(self) -> bool {
        &&& self.src_r matches Some(addr) ==> self.of_initiator().macs_validator.mac2_ok(
            self.msg().noise.bytes(),
            addr,
            self.msg().macs,
            self.now_r,
        )
        &&& self.responder.limit(self.src_r, self.now_r).1
    }

    /// Is the answer taken in? One with a source carries a valid cookie for it, and the source
    /// does not send too often.
    pub open spec fn is_taken_in(self) -> bool {
        &&& self.src_i matches Some(addr) ==> self.waiting().macs_validator.mac2_ok(
            self.reply().noise.bytes(),
            addr,
            self.reply().macs,
            self.now_i,
        )
        &&& self.begun.limit(self.src_i, self.now_i).1
    }

    /// Does nothing stand in the way? An initiation can be made, it is admitted, the counter is
    /// new, no other initiation came just before, the responder's session index is free, the
    /// answer is taken in, and no Diffie-Hellman secret is zero.
    pub open spec fn unhindered(self) -> bool {
        &&& self.can_begin()
        &&& self.is_admitted()
        &&& self.is_taken_in()
        &&& self.of_responder().k_send < u128::MAX
        &&& self.of_initiator().replay_verdict(
            (self.of_responder().k_send + 1) as u128,
            self.now_r,
        ) is Ok
        &&& !self.accepting.ids.contains_key(self.id_r)
        &&& x25519(self.inputs_r.scalar(), self.of_initiator().pk@) != zeros(32)
        &&& x25519(self.inputs_r.scalar(), x25519_public(self.inputs_i.scalar())) != zeros(32)
    }

    /// Are the two messages of their proper lengths, do both sides end up with keys, and do
    /// these fit together?
    pub open spec fn succeeds(self) -> bool {
        &&& self.first matches Ok(Some(m1))
        &&& m1@.len() == 1108
        &&& self.answer matches Ok(Some(out_r))
        &&& out_r.peer == Some(self.hash_i)
        &&& out_r.reply matches Some(m2)
        &&& m2@.len() == 1016
        &&& out_r.keys matches Some(pair_r)
        &&& self.outcome matches Ok(out_i)
        &&& out_i.peer == Some(self.hash_r)
        &&& out_i.reply is None
        &&& out_i.keys matches Some(pair_i)
        &&& fit_together(pair_i, pair_r)
    }
}

/// Two devices that have added each other, and were given the same pre-shared key for each
/// other then, know each other.
pub proof fn law_added_devices_are_acquainted<A, B>(
    run: Run<A, B>,
    added_r: Peer<A>,
    added_i: Peer<B>,
    psk: Psk,
)
    requires
        run.initiator.keys matches Some(keys_i) && run.responder.keys matches Some(keys_r)
            && keys_i.wf() && keys_r.wf() && run.hash_i == keys_i.pk_hash && run.hash_r
            == keys_r.pk_hash && run.initiator.is_added(
            keys_r.pk,
            keys_r.pk_pq@,
            added_r.opaque,
            added_r,
        ) && run.responder.is_added(keys_i.pk, keys_i.pk_pq@, added_i.opaque, added_i),
        run.initiator.peers.contains_key(run.hash_r),
        run.responder.peers.contains_key(run.hash_i),
        has_psk(run.of_responder(), added_r, psk),
        has_psk(run.of_initiator(), added_i, psk),
    ensures
        run.acquainted(),
{
    let keys_i = run.initiator.keys->0;
    let keys_r = run.responder.keys->0;
    law_added_peers_are_mirrored(keys_i, keys_r, run.of_responder(), run.of_initiator());
    assert(run.of_responder().pk_hash =~= run.hash_r);
    assert(run.of_initiator().pk_hash =~= run.hash_i);
}

/// Is it the peer `added` after it was given a pre-shared key?
pub open spec fn has_psk<O>(peer: Peer<O>, added: Peer<O>, psk: Psk) -> bool {
    &&& is_new_generator(peer.macs, psk@)
    &&& is_new_validator(peer.macs_validator, psk@)
    &&& peer == (Peer {
        psk,
        macs: peer.macs,
        macs_validator: peer.macs_validator,
        ..added
    })
}

/// The initiator begins.
proof fn lemma_begun<A, B>(run: Run<A, B>)
    requires
        run.acquainted(),
        run.steps(),
        run.can_begin(),
    ensures
        run.first matches Ok(Some(bytes)) && bytes@ == run.msg().bytes() && bytes@.len() == 1108
            && Initiation::recognizes(bytes@),
        is_begun(
            run.hash_i@,
            run.of_responder(),
            run.waiting(),
            run.id_i,
            run.inputs_i,
            run.msg(),
            run.began,
        ),
        run.begun == (DeviceView {
            ids: run.initiator.ids.insert(run.id_i, run.hash_r),
            ..run.initiator
        }).with_peer(run.hash_r, run.waiting()),
{
    let opened = DeviceView {
        ids: run.initiator.ids.insert(run.id_i, run.hash_r),
        ..run.initiator
    };
    let msg = choose|msg: Initiation| #[trigger]
        is_begun(
            run.initiator.keys->0.pk_hash@,
            run.of_responder(),
            run.waiting(),
            run.id_i,
            run.inputs_i,
            msg,
            run.began,
        ) && is_message(run.first, msg.bytes()) && run.begun == opened.with_peer(
            run.hash_r,
            run.waiting(),
        );
    law_message_of_bytes(msg, run.reply(), cookie_reply_of(Seq::empty()));
    msg.lemma_bytes_len();
    msg.lemma_recognizes();
}

/// The responder learns who the initiation comes from.
proof fn lemma_identified<A, B>(run: Run<A, B>) -> (who: Initiator)
    requires
        run.acquainted(),
        run.steps(),
        run.can_begin(),
    ensures
        run.taken == run.responder,
        run.pending matches Ok(Step::Initiation(pending)) && pending.msg == run.msg() && pending.src
            == run.src_r && is_first_stage(
            pending.stage,
            run.responder.keys->0,
            run.msg().noise,
        ) && names_initiator(
            pending.stage,
            run.msg().noise,
            run.inputs_i.static_secret@,
            who,
        ) && named_step(
            run.responder,
            run.accepting,
            pending,
            who,
            run.draws_r,
            run.now_r,
            run.accepted,
        ),
        who.pk_hash == run.hash_i,
{
    lemma_begun(run);
    let keys_r = run.responder.keys->0;
    let of_r = run.of_responder();
    let dh = x25519(run.inputs_i.scalar(), of_r.pk@);
    assert(dh_agrees(dh, run.inputs_i.scalar(), of_r.pk@));
    assert(x25519(keys_r.sk@, run.msg().noise.f_ephemeral@) == dh);
    let pending: PendingInitiation = run.pending->Ok_0->Initiation_0;
    let stage = pending.stage;
    let secret = run.inputs_i.static_secret@;
    law_initiation_is_identified(
        run.initiator.keys->0,
        keys_r,
        of_r,
        run.id_i,
        run.inputs_i,
        run.msg().noise,
        stage,
    );
    let who = choose|who: Initiator|
        #[trigger] names_initiator(stage, run.msg().noise, secret, who) && named_step(
            run.taken,
            run.accepting,
            pending,
            who,
            run.draws_r,
            run.now_r,
            run.accepted,
        );
    assert(who.pk_hash =~= run.hash_i);
    who
}

/// The responder accepts the initiation, in the state that the initiator remembers.
proof fn lemma_accepted<A, B>(run: Run<A, B>) -> (accepted: AcceptedInitiation)
    requires
        run.acquainted(),
        run.steps(),
        run.unhindered(),
    ensures
        run.accepted == Ok::<Step, HandshakeError>(Step::Accepted(accepted)),
        accepted.pk_hash == run.hash_i,
        run.accepting.peers.contains_key(run.hash_i),
        run.accepting.peers[run.hash_i] == run.of_initiator().after_initiation(
            (run.of_responder().k_send + 1) as u128,
            run.now_r,
        ),
        accepted.state.sender == run.id_i,
        accepted.state.eph_pk == run.msg().noise.f_ephemeral,
        run.waiting().state matches State::InitiationSent { hs, ck, .. }
            && accepted.state.hs@ == hs@ && accepted.state.ck@ == ck@,
{
    lemma_begun(run);
    let who = lemma_identified(run);
    let keys_i = run.initiator.keys->0;
    let keys_r = run.responder.keys->0;
    let of_r = run.of_responder();
    let of_i = run.of_initiator();
    let stage = (run.pending->Ok_0->Initiation_0).stage;
    law_initiation_is_accepted(
        keys_i,
        keys_r,
        of_r,
        of_i,
        run.id_i,
        run.inputs_i,
        run.msg().noise,
        stage,
        who,
        run.now_r,
    );
    let accepted = run.accepted->Ok_0->Accepted_0;
    assert(is_temporary_state(accepted.state, of_i, who, run.msg().noise));
    law_states_agree(
        keys_i,
        keys_r,
        of_r,
        of_i,
        run.id_i,
        run.inputs_i,
        run.msg().noise,
        run.waiting().state,
        stage,
        who,
        accepted.state,
    );
    accepted
}

/// A handshake between two devices that know each other succeeds, if nothing stands in the
/// way and the bytes that one side sends are processed by the other, with or without sources:
/// both sides end up with keys, and what one side sends with is what the other receives with.
pub proof fn law_handshake_completes<A, B>(run: Run<A, B>)
    requires
        run.acquainted(),
        run.steps(),
        run.unhindered(),
    ensures
        run.succeeds(),
{
    lemma_begun(run);
    let accepted = lemma_accepted(run);
    let state = accepted.state;
    let keys_i = run.initiator.keys->0;
    let of_i = run.accepting.peers[run.hash_i];
    assert(!response_fails(of_i, state, run.inputs_r));
    let out_r = run.answer->Ok_0->0;
    let after = run.answered.peers[run.hash_i];
    let reply = choose|reply: Response| #[trigger]
        is_answer(of_i, after, run.id_r, state, run.inputs_r, reply, out_r, run.now_r);
    law_message_of_bytes(run.msg(), reply, cookie_reply_of(Seq::empty()));
    reply.lemma_bytes_len();
    reply.lemma_recognizes();
    assert(!Initiation::recognizes(reply.bytes()));
    assert(run.begun.peer_of_id(reply.noise.f_receiver) == Some(run.hash_r));
    let dh_se = x25519(run.inputs_r.scalar(), of_i.pk@);
    assert(x25519(keys_i.sk@, run.reply().noise.f_ephemeral@) == dh_se);
    let pending = run.resumed->Ok_0->Response_0;
    law_session_keys_agree(
        keys_i,
        run.waiting(),
        of_i,
        state,
        run.inputs_r,
        run.id_r,
        run.reply().noise,
        pending.stage,
        run.now_i,
        run.now_r,
        run.outcome->Ok_0.keys->0,
        out_r.keys->0,
    );
}

/// A handshake that the responder has answered completes when the answer is taken in, with or
/// without sources: the initiator ends up with the keys that fit those of the responder.
pub proof fn law_answered_handshake_completes<A, B>(run: Run<A, B>)
    requires
        run.acquainted(),
        run.steps(),
        run.of_responder().k_send < u128::MAX,
        run.is_answered(),
        run.is_taken_in(),
    ensures
        run.succeeds(),
{
    lemma_begun(run);
    let who = lemma_identified(run);
    let of_r = run.of_responder();
    let of_i = run.of_initiator();
    lemma_pow256();
    lemma_be_value_of_bytes((of_r.k_send + 1) as nat, 16);
    assert(acceptance_verdict(of_i, who, run.msg().noise, run.now_r) == (match of_i.replay_verdict(
        (of_r.k_send + 1) as u128,
        run.now_r,
    ) {
        Ok(_) => Ok::<u128, HandshakeError>((of_r.k_send + 1) as u128),
        Err(e) => Err(e),
    }));
    law_handshake_completes(run);
}

} // verus!
