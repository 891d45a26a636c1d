//! What the two sides of a handshake agree on.

use crate::bytes::{lemma_be_value_of_bytes, lemma_pow256, zeros};
use crate::crypto::{dh_agrees, x25519, x25519_public};
use crate::hybrid_v1::keys::KeyState;
use crate::hybrid_v1::messages::{NoiseInitiation, NoiseResponse};
use crate::hybrid_v1::noise::{
    acceptance_verdict, initiation_fails, initiation_opens, initiator_keys, is_first_stage,
    is_initiation, is_initiator_pair, is_responder_pair, is_response, is_response_stage,
    is_temporary_state, names_initiator, received_identity, remembers, responder_keys,
    response_failure, response_fails, response_opens, response_refusal, FirstStage,
    InitiationInputs, Initiator, ResponseInputs, ResponseStage, TemporaryState,
};
use crate::hybrid_v1::peer::{Peer, State};
use crate::types::{HandshakeError, KeyPair};
use vstd::prelude::*;

verus! {

/// Two peers that hold each other's keys and the same long-term secrets. The first one is
/// what the initiator keeps about the responder, the second one what the responder keeps
/// about the initiator.
pub open spec fn mirrored<A, B>(of_responder: Peer<A>, of_initiator: Peer<B>) -> bool {
    &&& of_responder.ss@ == of_initiator.ss@
    &&& of_responder.psk@ == of_initiator.psk@
    &&& of_responder.hash_static_pq_send@ == of_initiator.hash_static_pq_recv@
}

/// Two devices that have added each other, with the same pre-shared key, hold the same
/// long-term secrets, in both directions.
pub proof fn law_added_peers_are_mirrored<A, B>(
    keys_i: KeyState,
    keys_r: KeyState,
    of_responder: Peer<A>,
    of_initiator: Peer<B>,
)
    requires
        keys_i.wf(),
        keys_r.wf(),
        of_responder.identifies(keys_i.pk_pq@),
        of_initiator.identifies(keys_r.pk_pq@),
        of_responder.pk@ == keys_r.pk@,
        of_responder.pk_pq@ == keys_r.pk_pq@,
        of_initiator.pk@ == keys_i.pk@,
        of_initiator.pk_pq@ == keys_i.pk_pq@,
        of_responder.ss@ == x25519(keys_i.sk@, keys_r.pk@),
        dh_agrees(of_responder.ss@, keys_i.sk@, keys_r.pk@),
        of_initiator.ss@ == x25519(keys_r.sk@, keys_i.pk@),
        of_responder.psk@ == of_initiator.psk@,
    ensures
        mirrored(of_responder, of_initiator),
        mirrored(of_initiator, of_responder),
        of_responder.pk_hash@ == keys_r.pk_hash@,
        of_initiator.pk_hash@ == keys_i.pk_hash@,
{
}

/// The responder that an initiation was made for decapsulates the ciphertext that was
/// encapsulated, and identifies the sender with the secret behind it.
pub proof fn law_initiation_is_identified<A>(
    keys_i: KeyState,
    keys_r: KeyState,
    of_responder: Peer<A>,
    local: u32,
    inputs: InitiationInputs,
    msg: NoiseInitiation,
    stage: FirstStage,
)
    requires
        keys_r.wf(),
        of_responder.pk@ == keys_r.pk@,
        of_responder.pk_hash@ == keys_r.pk_hash@,
        !initiation_fails(of_responder, inputs),
        is_initiation(keys_i.pk_hash@, of_responder, local, inputs, msg),
        initiation_opens(keys_i.pk_hash@, of_responder, inputs, msg),
        is_first_stage(stage, keys_r, msg),
    ensures
        x25519(keys_r.sk@, msg.f_ephemeral@) != zeros(32),
        stage.static_ct@ == inputs.static_ct@,
        received_identity(stage, msg, inputs.static_secret@) == Some(keys_i.pk_hash@),
{
    assert(x25519(keys_r.sk@, msg.f_ephemeral@) == x25519(inputs.scalar(), of_responder.pk@));
}

/// The responder that an initiation was made for accepts it with the sender's counter, if
/// that counter is new and no other initiation came just before.
pub proof fn law_initiation_is_accepted<A, B>(
    keys_i: KeyState,
    keys_r: KeyState,
    of_responder: Peer<A>,
    of_initiator: Peer<B>,
    local: u32,
    inputs: InitiationInputs,
    msg: NoiseInitiation,
    stage: FirstStage,
    who: Initiator,
    now: u64,
)
    requires
        keys_r.wf(),
        of_responder.pk@ == keys_r.pk@,
        of_responder.pk_hash@ == keys_r.pk_hash@,
        mirrored(of_responder, of_initiator),
        of_responder.k_send < u128::MAX,
        !initiation_fails(of_responder, inputs),
        is_initiation(keys_i.pk_hash@, of_responder, local, inputs, msg),
        initiation_opens(keys_i.pk_hash@, of_responder, inputs, msg),
        is_first_stage(stage, keys_r, msg),
        names_initiator(stage, msg, inputs.static_secret@, who),
        of_initiator.replay_verdict((of_responder.k_send + 1) as u128, now) is Ok,
    ensures
        acceptance_verdict(of_initiator, who, msg, now) == Ok::<u128, HandshakeError>(
            (of_responder.k_send + 1) as u128,
        ),
{
    assert(x25519(keys_r.sk@, msg.f_ephemeral@) == x25519(inputs.scalar(), of_responder.pk@));
    lemma_pow256();
    lemma_be_value_of_bytes((of_responder.k_send + 1) as nat, 16);
}

/// Once an initiation is accepted, the responder holds the chaining key and the transcript
/// hash that the initiator remembers.
pub proof fn law_states_agree<A, B>(
    keys_i: KeyState,
    keys_r: KeyState,
    of_responder: Peer<A>,
    of_initiator: Peer<B>,
    local: u32,
    inputs: InitiationInputs,
    msg: NoiseInitiation,
    waiting: State,
    stage: FirstStage,
    who: Initiator,
    state: TemporaryState,
)
    requires
        keys_r.wf(),
        of_responder.pk@ == keys_r.pk@,
        of_responder.pk_hash@ == keys_r.pk_hash@,
        mirrored(of_responder, of_initiator),
        is_initiation(keys_i.pk_hash@, of_responder, local, inputs, msg),
        initiation_opens(keys_i.pk_hash@, of_responder, inputs, msg),
        remembers(waiting, of_responder, local, inputs, msg),
        is_first_stage(stage, keys_r, msg),
        names_initiator(stage, msg, inputs.static_secret@, who),
        is_temporary_state(state, of_initiator, who, msg),
    ensures
        waiting matches State::InitiationSent { hs, ck, .. } && state.hs@ == hs@ && state.ck@
            == ck@,
        state.sender == local,
        state.eph_pk@ == x25519_public(inputs.scalar()),
{
    assert(x25519(keys_r.sk@, msg.f_ephemeral@) == x25519(inputs.scalar(), of_responder.pk@));
}

/// Both sides of a completed handshake hold the same keys. An initiator that waits for the
/// response to its initiation accepts the response that was made for it, with the secrets
/// that were encapsulated. What one side sends with is what the other receives with, under
/// matching session indices.
pub proof fn law_session_keys_agree<A, B>(
    keys_i: KeyState,
    of_responder: Peer<A>,
    of_initiator: Peer<B>,
    state: TemporaryState,
    inputs: ResponseInputs,
    local_r: u32,
    msg: NoiseResponse,
    stage: ResponseStage,
    now_i: u64,
    now_r: u64,
    pair_i: KeyPair,
    pair_r: KeyPair,
)
    requires
        keys_i.wf(),
        of_initiator.pk@ == keys_i.pk@,
        of_responder.psk@ == of_initiator.psk@,
        // the response that the responder made
        !response_fails(of_initiator, state, inputs),
        is_response(of_initiator, local_r, state, inputs, msg),
        response_opens(of_initiator, state, inputs, msg),
        is_responder_pair(
            pair_r,
            responder_keys(of_initiator, state, inputs, msg).ck,
            local_r,
            state.sender,
            now_r,
        ),
        // the initiator that waits for it, and what both hold after the initiation
        is_response_stage(stage, keys_i, of_responder.state, msg),
        stage.eph_sk@.len() == 32,
        stage.local == state.sender,
        stage.ck@ == state.ck@,
        stage.hs@ == state.hs@,
        state.eph_pk@ == x25519_public(stage.eph_sk@),
        // what the initiator makes of it
        is_initiator_pair(
            pair_i,
            initiator_keys(
                of_responder,
                stage,
                msg,
                inputs.eph_secret@,
                inputs.static_secret@,
            ).ck,
            stage.local,
            msg.f_sender,
            now_i,
        ),
    ensures
        response_refusal(keys_i, of_responder.state, msg) is None,
        stage.static_ct@ == inputs.static_ct@,
        response_failure(
            of_responder,
            stage,
            msg,
            inputs.eph_secret@,
            inputs.static_secret@,
        ) is None,
        pair_i.send.key@ == pair_r.recv.key@,
        pair_i.recv.key@ == pair_r.send.key@,
        pair_i.send.id == pair_r.recv.id,
        pair_i.recv.id == pair_r.send.id,
{
    assert(x25519(keys_i.sk@, msg.f_ephemeral@) == x25519(inputs.scalar(), of_initiator.pk@));
    assert(x25519(stage.eph_sk@, msg.f_ephemeral@) == x25519(inputs.scalar(), state.eph_pk@));
    assert(initiator_keys(
        of_responder,
        stage,
        msg,
        inputs.eph_secret@,
        inputs.static_secret@,
    ) == responder_keys(of_initiator, state, inputs, msg));
}

} // verus!
