//! What the two sides of a handshake agree on.

use crate::bytes::{lemma_be_value_of_bytes, lemma_pow256, zeros};
use crate::crypto::{dh_agrees, x25519, x25519_public};
use crate::hybrid_v23::keys::KeyState;
use crate::hybrid_v23::messages::{
    session_index_spec, NoiseInitiation, NoiseResponse, SessionId, MODE_RATCHET,
};
use crate::hybrid_v23::noise::{
    acceptance_verdict, confirmation, identity_verdict, initiation_opens, initiator_keys,
    is_committed, is_first_stage, is_initiation, is_initiator_pair, is_offer, is_responder_pair,
    is_response, is_response_stage, is_second_stage, is_temporary_state, known_mode,
    names_initiator, remembers, responder_keys, response_fails, response_mismatch, response_opens,
    response_verdict, sent_keys, sent_proof, FirstStage, InitiationInputs, Initiator,
    ResponseInputs, ResponseStage, SecondStage, TemporaryState,
};
use crate::hybrid_v23::payload::{
    identity_hash, identity_proof, law_confirm_round_trip, law_identity_round_trip,
};
use crate::hybrid_v23::peer::{Peer, State};
use crate::hybrid_v23::ratchet::{PendingResponderRatchet, RatchetState, ResponseRatchet};
use crate::hybrid_v23::ri_proof::{
    epoch_key, generated, law_generated_is_valid, secret_spec, MAX_CLOCK_SKEW,
};
use crate::hybrid_v23::schedule::kid_spec;
use crate::types::{HandshakeError, KeyPair};
use vstd::prelude::*;

verus! {

/// Two peers that hold each other's keys and the same long-term secrets. The first one is
/// what the initiator keeps about the responder, the second one what the responder keeps
/// about the initiator.
pub open spec fn mirrored<A, B>(of_responder: Peer<A>, of_initiator: Peer<B>) -> bool {
    &&& of_responder.ss@ == of_initiator.ss@
    &&& of_responder.psk@ == of_initiator.psk@
    &&& of_responder.hash_static_pq_send@ == of_initiator.hash_static_pq_recv@
    &&& of_responder.h_id_send@ == of_initiator.h_id_recv@
}

/// Two devices that have added each other, with the same pre-shared key, hold the same
/// long-term secrets, in both directions.
pub proof fn law_added_peers_are_mirrored<A, B>(
    keys_i: KeyState,
    keys_r: KeyState,
    of_responder: Peer<A>,
    of_initiator: Peer<B>,
)
    requires
        keys_i.wf(),
        keys_r.wf(),
        of_responder.identifies(keys_i.pk@, keys_i.pk_pq@),
        of_initiator.identifies(keys_r.pk@, keys_r.pk_pq@),
        of_responder.pk@ == keys_r.pk@,
        of_responder.pk_pq@ == keys_r.pk_pq@,
        of_initiator.pk@ == keys_i.pk@,
        of_initiator.pk_pq@ == keys_i.pk_pq@,
        of_responder.ss@ == x25519(keys_i.sk@, keys_r.pk@),
        dh_agrees(of_responder.ss@, keys_i.sk@, keys_r.pk@),
        of_initiator.ss@ == x25519(keys_r.sk@, keys_i.pk@),
        of_responder.psk@ == of_initiator.psk@,
    ensures
        mirrored(of_responder, of_initiator),
        mirrored(of_initiator, of_responder),
        of_responder.pk_hash@ == keys_r.pk_hash@,
        of_initiator.pk_hash@ == keys_i.pk_hash@,
{
}

/// The responder that an initiation was made for identifies its sender: it decapsulates the
/// ciphertext that was encapsulated, and with the secret behind it decrypts the hash of the
/// initiator's keys and the initiator's proof.
pub proof fn law_initiation_is_identified<A>(
    keys_i: KeyState,
    keys_r: KeyState,
    of_responder: Peer<A>,
    sid: SessionId,
    ri_key: Seq<u8>,
    inputs: InitiationInputs,
    msg: NoiseInitiation,
    stage: FirstStage,
)
    requires
        keys_r.wf(),
        of_responder.pk@ == keys_r.pk@,
        of_responder.pk_hash@ == keys_r.pk_hash@,
        is_initiation(keys_i.pk_hash@, of_responder, sid, ri_key, inputs, msg),
        initiation_opens(keys_i.pk_hash@, of_responder, ri_key, inputs, msg),
        is_first_stage(stage, keys_r, msg),
    ensures
        known_mode(msg.f_mode),
        x25519(keys_r.sk@, msg.f_ephemeral@) == x25519(inputs.scalar(), of_responder.pk@),
        stage.static_ct@ == inputs.static_ct@,
        ({
            let verdict = identity_verdict(
                stage.ck@,
                stage.hs@,
                stage.dh@,
                msg,
                Some(inputs.static_secret),
            );
            let keys = sent_keys(of_responder, inputs, msg);
            &&& verdict matches Ok(plain)
            &&& identity_hash(plain) == keys_i.pk_hash@
            &&& identity_proof(plain) == sent_proof(keys, ri_key, inputs)
        }),
{
    let keys = sent_keys(of_responder, inputs, msg);
    law_identity_round_trip(keys_i.pk_hash, sent_proof(keys, ri_key, inputs));
}

/// The responder accepts the initiation that was made for it, with the initiator's counter:
/// the long-term secrets are the same on both sides and not zero, the ratchets are in step,
/// the clocks are close, the counter is new and no other initiation came just before.
pub proof fn law_initiation_is_accepted<A, B>(
    keys_i: KeyState,
    keys_r: KeyState,
    of_responder: Peer<A>,
    of_initiator: Peer<B>,
    sid: SessionId,
    inputs: InitiationInputs,
    msg: NoiseInitiation,
    stage: FirstStage,
    plain: Seq<u8>,
    who: Initiator,
    ratchet: ResponseRatchet,
    manual: Option<[u8; 8]>,
    now: u64,
    unix_secs: u64,
)
    requires
        keys_r.wf(),
        of_responder.pk@ == keys_r.pk@,
        of_responder.pk_hash@ == keys_r.pk_hash@,
        mirrored(of_responder, of_initiator),
        of_responder.ss@ != zeros(32),
        of_responder.k_send < u128::MAX,
        is_initiation(
            keys_i.pk_hash@,
            of_responder,
            sid,
            epoch_key(manual, of_responder.ratchet.k_ri@),
            inputs,
            msg,
        ),
        initiation_opens(
            keys_i.pk_hash@,
            of_responder,
            epoch_key(manual, of_responder.ratchet.k_ri@),
            inputs,
            msg,
        ),
        is_first_stage(stage, keys_r, msg),
        identity_verdict(stage.ck@, stage.hs@, stage.dh@, msg, Some(inputs.static_secret)) == Ok::<
            Seq<u8>,
            HandshakeError,
        >(plain),
        names_initiator(stage, msg, inputs.static_secret@, plain, who),
        ratchet.k_ri@ == of_responder.ratchet.k_ri@,
        unix_secs - inputs.unix_secs <= MAX_CLOCK_SKEW,
        inputs.unix_secs - unix_secs <= MAX_CLOCK_SKEW,
        of_initiator.replay_verdict((of_responder.k_send + 1) as u128, now) is Ok,
    ensures
        acceptance_verdict(of_initiator, who, msg, ratchet, manual, now, unix_secs) == Ok::<
            u128,
            HandshakeError,
        >((of_responder.k_send + 1) as u128),
{
    let ri_key = epoch_key(manual, of_responder.ratchet.k_ri@);
    let keys = sent_keys(of_responder, inputs, msg);
    law_initiation_is_identified(keys_i, keys_r, of_responder, sid, ri_key, inputs, msg, stage);
    law_generated_is_valid(
        inputs.ri_draw,
        inputs.decoys@,
        inputs.unix_secs,
        ri_key,
        secret_spec(ri_key, keys.ck, keys.hs_identity),
        unix_secs,
    );
    lemma_pow256();
    lemma_be_value_of_bytes((of_responder.k_send + 1) as nat, 16);
}

/// After an initiation both sides hold the same: once the responder has accepted it, and
/// has decapsulated what was encapsulated for its ratchet key, its chaining key, transcript
/// hash and ratchet secret are those that the initiator remembers.
pub proof fn law_states_agree<A, B>(
    keys_i: KeyState,
    keys_r: KeyState,
    of_responder: Peer<A>,
    of_initiator: Peer<B>,
    sid: SessionId,
    inputs: InitiationInputs,
    msg: NoiseInitiation,
    waiting: State,
    stage: FirstStage,
    plain: Seq<u8>,
    who: Initiator,
    ratchet: ResponseRatchet,
    manual: Option<[u8; 8]>,
    second: SecondStage,
    shared: Option<[u8; 32]>,
    state: TemporaryState,
)
    requires
        keys_r.wf(),
        of_responder.pk@ == keys_r.pk@,
        of_responder.pk_hash@ == keys_r.pk_hash@,
        mirrored(of_responder, of_initiator),
        is_initiation(
            keys_i.pk_hash@,
            of_responder,
            sid,
            epoch_key(manual, of_responder.ratchet.k_ri@),
            inputs,
            msg,
        ),
        initiation_opens(
            keys_i.pk_hash@,
            of_responder,
            epoch_key(manual, of_responder.ratchet.k_ri@),
            inputs,
            msg,
        ),
        remembers(waiting, of_responder, sid, inputs, msg),
        is_first_stage(stage, keys_r, msg),
        names_initiator(stage, msg, inputs.static_secret@, plain, who),
        of_initiator.ratchet.response_spec(msg.f_mode, msg.f_epoch, msg.f_ratchet_kid@) == Ok::<
            ResponseRatchet,
            HandshakeError,
        >(ratchet),
        ratchet.rk@ == of_responder.ratchet.rk@,
        ratchet.k_ri@ == of_responder.ratchet.k_ri@,
        is_second_stage(second, of_initiator, who, msg, ratchet, manual),
        msg.f_mode == MODE_RATCHET ==> shared == Some(inputs.ratchet->0.secret),
        is_temporary_state(state, second, shared),
    ensures
        waiting matches State::InitiationSent { hs, ck, ss_r, .. } && state.hs@ == hs@ && state.ck@
            == ck@ && state.ss_r@ == ss_r@,
        state.sender == sid,
        state.eph_pk@ == msg.f_ephemeral@,
        state.eph_pk_pq == inputs.eph_pk_pq,
        state.ri_key@ == epoch_key(manual, of_responder.ratchet.k_ri@),
        state.ratchet == ratchet,
        ratchet.mode == msg.f_mode,
        ratchet.epoch == msg.f_epoch,
{
}

/// Is it a response that was made for an initiator that waits for it, in a state that both
/// sides hold? `offer` is the ratchet of the next epoch on the responder's side.
pub open spec fn is_made_for<A, B>(
    keys_i: KeyState,
    of_responder: Peer<A>,
    of_initiator: Peer<B>,
    state: TemporaryState,
    inputs: ResponseInputs,
    sid_r: SessionId,
    msg: NoiseResponse,
    offer: PendingResponderRatchet,
    stage: ResponseStage,
) -> bool {
    // the response that the responder made
    &&& of_initiator.pk@ == keys_i.pk@
    &&& of_responder.psk@ == of_initiator.psk@
    &&& state.ratchet.epoch < u64::MAX
    &&& !response_fails(of_initiator, state, inputs)
    &&& is_response(of_initiator, sid_r, state, inputs, msg)
    &&& response_opens(of_initiator, state, inputs, msg)
    &&& is_offer(offer, of_initiator, state, inputs, msg)
    // the initiator that waits for it
    &&& keys_i.wf()
    &&& is_response_stage(stage, keys_i, of_responder.state, msg)
    &&& stage.local == session_index_spec(stage.local_sid@)
    &&& stage.eph_sk@.len() == 32
    // what both hold after the initiation
    &&& stage.ck@ == state.ck@
    &&& stage.hs@ == state.hs@
    &&& stage.ss_r@ == state.ss_r@
    &&& stage.rk@ == state.ratchet.rk@
    &&& stage.k_ri@ == state.ratchet.k_ri@
    &&& stage.eph_pk_pq@ == state.eph_pk_pq@
    &&& state.eph_pk@ == x25519_public(stage.eph_sk@)
}

/// An initiator that waits for the response to its initiation accepts the response that was
/// made for it, with the secrets that were encapsulated, while the clocks are close.
pub proof fn law_response_is_accepted<A, B>(
    keys_i: KeyState,
    of_responder: Peer<A>,
    of_initiator: Peer<B>,
    state: TemporaryState,
    inputs: ResponseInputs,
    sid_r: SessionId,
    msg: NoiseResponse,
    offer: PendingResponderRatchet,
    stage: ResponseStage,
    unix_secs: u64,
)
    requires
        is_made_for(keys_i, of_responder, of_initiator, state, inputs, sid_r, msg, offer, stage),
        unix_secs - inputs.unix_secs <= MAX_CLOCK_SKEW,
        inputs.unix_secs - unix_secs <= MAX_CLOCK_SKEW,
    ensures
        stage.hidden matches Some((_, ct)) && ct@ == inputs.static_ct@,
        response_mismatch(of_responder.state, msg) is None,
        response_verdict(
            of_responder,
            stage,
            msg,
            state.ri_key@,
            Some(inputs.shk_master),
            Some(inputs.shk_static),
            unix_secs,
        ) == Ok::<Seq<u8>, HandshakeError>(
            confirmation(responder_keys(of_initiator, state, inputs, msg), state, inputs),
        ),
{
    let r_keys = responder_keys(of_initiator, state, inputs, msg);
    let i_keys = initiator_keys(of_responder, stage, msg, inputs.shk_master@, inputs.shk_static@);
    assert(x25519(keys_i.sk@, msg.f_ephemeral@) == x25519(inputs.scalar(), of_initiator.pk@));
    assert(x25519(stage.eph_sk@, msg.f_ephemeral@) == x25519(inputs.scalar(), state.eph_pk@));
    assert(i_keys == r_keys);
    let secret = secret_spec(state.ri_key@, r_keys.ck, r_keys.h7);
    let ri = generated(inputs.ri_draw, inputs.decoys@, inputs.unix_secs, state.ri_key@, secret);
    law_generated_is_valid(
        inputs.ri_draw,
        inputs.decoys@,
        inputs.unix_secs,
        state.ri_key@,
        secret,
        unix_secs,
    );
    law_confirm_round_trip(offer.epoch, ri, inputs.next_pub, offer.local_kid);
}

/// Both sides of a completed handshake hold the same keys. What one side sends with is what
/// the other receives with, under matching session indices. The response confirms the next
/// epoch and the identifier of the next ratchet key, and the ratchets of both sides move on
/// to the same epoch, root keys and key identifier.
pub proof fn law_session_keys_agree<A, B>(
    keys_i: KeyState,
    of_responder: Peer<A>,
    of_initiator: Peer<B>,
    state: TemporaryState,
    inputs: ResponseInputs,
    sid_r: SessionId,
    msg: NoiseResponse,
    offer: PendingResponderRatchet,
    stage: ResponseStage,
    now_i: u64,
    now_r: u64,
    pair_i: KeyPair,
    pair_r: KeyPair,
    committed: RatchetState,
)
    requires
        is_made_for(keys_i, of_responder, of_initiator, state, inputs, sid_r, msg, offer, stage),
        is_responder_pair(
            pair_r,
            responder_keys(of_initiator, state, inputs, msg).ck,
            sid_r,
            state.sender,
            now_r,
        ),
        ({
            let keys = initiator_keys(
                of_responder,
                stage,
                msg,
                inputs.shk_master@,
                inputs.shk_static@,
            );
            let plain = confirmation(
                responder_keys(of_initiator, state, inputs, msg),
                state,
                inputs,
            );
            &&& is_initiator_pair(pair_i, keys.ck, stage.local, msg.f_sender, now_i)
            &&& is_committed(of_responder.ratchet, committed, stage, keys, msg, plain)
        }),
    ensures
        pair_i.send.key@ == pair_r.recv.key@,
        pair_i.recv.key@ == pair_r.send.key@,
        pair_i.send.id == pair_r.recv.id,
        pair_i.recv.id == pair_r.send.id,
        committed.epoch == offer.epoch,
        committed.epoch == msg.f_epoch + 1,
        committed.rk@ == offer.rk@,
        committed.k_ri@ == offer.k_ri@,
        committed.remote_kid matches Some(kid) && kid@ == offer.local_kid@ && kid@ == kid_spec(
            state.ratchet.rk@,
            committed.epoch,
            inputs.next_pub@,
        ),
        committed.remote_pub matches Some(key) && key@ == inputs.next_pub@,
{
    let r_keys = responder_keys(of_initiator, state, inputs, msg);
    let i_keys = initiator_keys(of_responder, stage, msg, inputs.shk_master@, inputs.shk_static@);
    assert(x25519(keys_i.sk@, msg.f_ephemeral@) == x25519(inputs.scalar(), of_initiator.pk@));
    assert(x25519(stage.eph_sk@, msg.f_ephemeral@) == x25519(inputs.scalar(), state.eph_pk@));
    assert(i_keys == r_keys);
    let ri = generated(
        inputs.ri_draw,
        inputs.decoys@,
        inputs.unix_secs,
        state.ri_key@,
        secret_spec(state.ri_key@, r_keys.ck, r_keys.h7),
    );
    law_confirm_round_trip(offer.epoch, ri, inputs.next_pub, offer.local_kid);
}

} // verus!
