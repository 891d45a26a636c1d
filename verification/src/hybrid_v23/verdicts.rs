//! What has to hold of a message that is accepted, and what its fields show.

use crate::binding::told_apart;
use crate::bytes::{
    be_bytes, le_bytes, le_value, lemma_be_value_of_bytes, lemma_le_value_of_bytes, lemma_pow256,
    zeros,
};
use crate::crypto::{
    chacha20, chacha20poly1305_open, chacha20poly1305_seal, kdf2_spec, x25519, ZERO_NONCE,
};
use crate::exchange::hiding_key;
use crate::hybrid_v23::device::handshake::public_failure;
use crate::hybrid_v23::messages::{NoiseInitiation, NoiseResponse, RiProof, SessionId};
use crate::hybrid_v23::noise::{
    acceptance_verdict, confirmation, identity_verdict, initiation_failure, initiator_keys,
    is_initiation, is_response, is_second_stage, names_initiator, received_counter, rendezvous_ok,
    responder_keys, response_fails, response_mismatch, response_verdict, sent_keys, sent_proof,
    FirstStage, InitiationInputs, Initiator, ResponseInputs, ResponseStage, SecondStage,
    TemporaryState,
};
use crate::hybrid_v23::payload::{
    confirm_plain, identity_plain, law_confirm_round_trip, law_identity_round_trip,
};
use crate::hybrid_v23::peer::{Peer, State};
use crate::hybrid_v23::ratchet::ResponseRatchet;
use crate::hybrid_v23::ri_proof::{
    epoch_key, generated, law_proof_is_for_its_secret, law_proof_secret_binds, secret_spec,
    targets_told_apart,
};
use crate::hybrid_v23::schedule::kid_spec;
use crate::types::HandshakeError;
use vstd::prelude::*;

verus! {

/// The identity that is sealed in an initiation: the hash of the sender's keys, its proof of
/// the rendezvous, the version 2.3 in four bytes and four unused ones.
pub proof fn law_identity_layout(pk_hash: [u8; 32], ri: RiProof)
    ensures
        identity_plain(pk_hash@, ri).len() == 72,
        identity_plain(pk_hash@, ri).subrange(0, 32) == pk_hash@,
        identity_plain(pk_hash@, ri).subrange(32, 64) == ri.bytes(),
        identity_plain(pk_hash@, ri).subrange(64, 72) == seq![3u8, 0, 2, 0, 0, 0, 0, 0],
{
    let s = identity_plain(pk_hash@, ri);
    law_identity_round_trip(pk_hash, ri);
    ri.lemma_bytes_len();
    reveal_with_fuel(le_bytes, 5);
    assert(le_bytes(0x0002_0003, 4) =~= seq![3u8, 0, 2, 0]);
    assert(le_bytes(0, 4) =~= seq![0u8, 0, 0, 0]);
    assert(s.subrange(0, 32) =~= pk_hash@);
    assert(s.subrange(32, 64) =~= ri.bytes());
    assert(s.subrange(64, 72) =~= seq![3u8, 0, 2, 0, 0, 0, 0, 0]);
}

/// The confirmation that is sealed in a response: the next epoch, the proof, the next key and
/// its name, the version 2.3 in four bytes and four unused ones.
pub proof fn law_confirmation_layout(
    epoch: u64,
    ri: RiProof,
    next_pub: [u8; 800],
    kid: [u8; 16],
)
    ensures
        ({
            let s = confirm_plain(epoch, ri, next_pub@, kid@);
            &&& s.len() == 864
            &&& le_value(s.subrange(0, 8)) == epoch
            &&& s.subrange(8, 40) == ri.bytes()
            &&& s.subrange(40, 840) == next_pub@
            &&& s.subrange(840, 856) == kid@
            &&& s.subrange(856, 864) == seq![3u8, 0, 2, 0, 0, 0, 0, 0]
        }),
{
    let s = confirm_plain(epoch, ri, next_pub@, kid@);
    law_confirm_round_trip(epoch, ri, next_pub, kid);
    ri.lemma_bytes_len();
    lemma_pow256();
    lemma_le_value_of_bytes(epoch as nat, 8);
    reveal_with_fuel(le_bytes, 5);
    assert(le_bytes(0x0002_0003, 4) =~= seq![3u8, 0, 2, 0]);
    assert(le_bytes(0, 4) =~= seq![0u8, 0, 0, 0]);
    assert(s.subrange(0, 8) =~= le_bytes(epoch as nat, 8));
    assert(s.subrange(8, 40) =~= ri.bytes());
    assert(s.subrange(40, 840) =~= next_pub@);
    assert(s.subrange(840, 856) =~= kid@);
    assert(s.subrange(856, 864) =~= seq![3u8, 0, 2, 0, 0, 0, 0, 0]);
}

proof fn lemma_version(s: Seq<u8>)
    requires
        s.len() == 4,
        le_value(s) == 0x0002_0003,
    ensures
        s == seq![3u8, 0, 2, 0],
{
    reveal_with_fuel(le_value, 5);
    assert(s.drop_first().drop_first().drop_first().drop_first() =~= Seq::empty());
    assert(le_value(s) == s[0] + 0x100 * s[1] + 0x1_0000 * s[2] + 0x100_0000 * s[3]);
    assert(s =~= seq![3u8, 0, 2, 0]);
}

/// An initiation with a mode above two is refused for its mode, and one whose exchange on the
/// curve is zero for that.
pub proof fn law_first_look(sk: Seq<u8>, msg: NoiseInitiation)
    ensures
        msg.f_mode > 2 ==> public_failure(sk, msg) == Some(HandshakeError::InvalidMode),
        msg.f_mode <= 2 && x25519(sk, msg.f_ephemeral@) == zeros(32) ==> public_failure(sk, msg)
            == Some(HandshakeError::InvalidSharedSecret),
        msg.f_mode <= 2 && x25519(sk, msg.f_ephemeral@) != zeros(32) ==> public_failure(sk, msg)
            is None,
{
}

/// The sender of an initiation is named only by an identity of the version 2.3 that opens with
/// the decapsulated secret; without that secret nobody is.
pub proof fn law_named_initiators(
    stage: FirstStage,
    msg: NoiseInitiation,
    shk: Option<[u8; 32]>,
    who: Initiator,
)
    ensures
        shk is None ==> identity_verdict(stage.ck@, stage.hs@, stage.dh@, msg, shk) == Err::<
            Seq<u8>,
            HandshakeError,
        >(HandshakeError::DecryptionFailure),
        identity_verdict(stage.ck@, stage.hs@, stage.dh@, msg, shk) matches Ok(plain) ==> {
            &&& plain.len() == 72 ==> plain.subrange(64, 68) == seq![3u8, 0, 2, 0]
            &&& shk is Some
            &&& exists|key: Seq<u8>, hs: Seq<u8>| #[trigger]
                chacha20poly1305_open(key, ZERO_NONCE@, hs, msg.f_identity@) == Some(plain)
            &&& names_initiator(stage, msg, shk->0@, plain, who) ==> who.pk_hash@
                == plain.subrange(0, 32)
        },
{
    if let Ok(plain) = identity_verdict(stage.ck@, stage.hs@, stage.dh@, msg, shk) {
        if plain.len() == 72 {
            lemma_version(plain.subrange(64, 68));
        }
        let (_, key, hs) = crate::hybrid_v23::schedule::static_part(
            stage.ck@,
            stage.hs@,
            msg,
            stage.dh@,
            shk->0@,
        );
        assert(chacha20poly1305_open(key, ZERO_NONCE@, hs, msg.f_identity@) == Some(plain));
    }
}

/// An initiation that is accepted shows a proof that is no more than two minutes off, and a
/// counter that opens and is larger than all before, 20 ms or more after the last one.
pub proof fn law_accepted_is_genuine<O>(
    peer: Peer<O>,
    who: Initiator,
    msg: NoiseInitiation,
    ratchet: ResponseRatchet,
    manual: Option<[u8; 8]>,
    now: u64,
    unix_secs: u64,
)
    ensures
        acceptance_verdict(peer, who, msg, ratchet, manual, now, unix_secs) matches Ok(k) ==> {
            &&& peer.ss@ != zeros(32)
            &&& who.ri.reserved@ == zeros(6)
            &&& unix_secs <= who.ri.ts + 120
            &&& who.ri.ts <= unix_secs + 120
            &&& 0 < who.ri.delta < 10_000
            &&& k > peer.k_recv
            &&& peer.last_initiation_consumption matches Some(last) ==> now >= last + 20_000_000
            &&& exists|key: Seq<u8>, hs: Seq<u8>| #[trigger]
                chacha20poly1305_open(key, ZERO_NONCE@, hs, msg.f_timestamp@) is Some
        },
        peer.ss@ == zeros(32) ==> acceptance_verdict(
            peer,
            who,
            msg,
            ratchet,
            manual,
            now,
            unix_secs,
        ) == Err::<u128, HandshakeError>(HandshakeError::InvalidSharedSecret),
{
    if acceptance_verdict(peer, who, msg, ratchet, manual, now, unix_secs) is Ok {
        assert(received_counter(peer, who, msg) is Some);
    }
}

/// A response that is taken up confirms the next epoch in the version 2.3, shows a proof that
/// is no more than two minutes off, and comes while it is still waited for.
pub proof fn law_taken_up_is_genuine<O>(
    peer: Peer<O>,
    stage: ResponseStage,
    msg: NoiseResponse,
    ri_key: Seq<u8>,
    shk_master: Option<[u8; 32]>,
    shk_static: Option<[u8; 32]>,
    unix_secs: u64,
)
    ensures
        response_verdict(peer, stage, msg, ri_key, shk_master, shk_static, unix_secs) matches Ok(
            plain,
        ) ==> {
            let ri = crate::hybrid_v23::payload::ri_of(plain.subrange(8, 40));
            &&& shk_master is Some
            &&& shk_static is Some
            &&& le_value(plain.subrange(0, 8)) == stage.epoch + 1
            &&& plain.len() == 864 ==> plain.subrange(856, 860) == seq![3u8, 0, 2, 0]
            &&& unix_secs <= ri.ts + 120
            &&& ri.ts <= unix_secs + 120
            &&& 0 < ri.delta < 10_000
            &&& peer.state is InitiationSent
            &&& peer.state->eph_sk@ == stage.eph_sk@
            &&& x25519(stage.eph_sk@, msg.f_ephemeral@) != zeros(32)
            &&& stage.hidden is Some
        },
        shk_master is None ==> response_verdict(
            peer,
            stage,
            msg,
            ri_key,
            shk_master,
            shk_static,
            unix_secs,
        ) == Err::<Seq<u8>, HandshakeError>(HandshakeError::DecryptionFailure),
{
    if let Ok(plain) = response_verdict(
        peer,
        stage,
        msg,
        ri_key,
        shk_master,
        shk_static,
        unix_secs,
    ) {
        if plain.len() == 864 {
            lemma_version(plain.subrange(856, 860));
        }
    }
}

/// A response is looked at only by a peer that waits, and if it names the session, the mode and
/// the epoch of the initiation.
pub proof fn law_responses_match(state: State, msg: NoiseResponse)
    ensures
        state is Reset ==> response_mismatch(state, msg) == Some(HandshakeError::InvalidState),
        state is InitiationSent && state->local_sid@ != msg.f_receiver@ ==> response_mismatch(
            state,
            msg,
        ) == Some(HandshakeError::UnknownReceiverId),
        state is InitiationSent && state->local_sid@ == msg.f_receiver@ && (state->mode
            != msg.f_mode || state->epoch != msg.f_epoch) ==> response_mismatch(state, msg) == Some(
            HandshakeError::InvalidEpoch,
        ),
        state is InitiationSent && state->local_sid@ == msg.f_receiver@ && state->mode == msg.f_mode
            && state->epoch == msg.f_epoch ==> response_mismatch(state, msg) is None,
{
}

/// An initiation cannot be made with a zero secret, nor without the encapsulation that a
/// ratcheted one needs.
pub proof fn law_failing_initiations<O>(peer: Peer<O>, inputs: InitiationInputs)
    ensures
        initiation_failure(peer, inputs) is None <==> {
            &&& peer.ss@ != zeros(32)
            &&& x25519(inputs.scalar(), peer.pk@) != zeros(32)
            &&& peer.ratchet.remote_kid is Some && peer.ratchet.remote_pub is Some
                ==> inputs.ratchet is Some
        },
{
}

/// No two different ones of these keys, transcripts and plaintexts are sealed to the same.
pub open spec fn seals_told_apart(met: Set<(Seq<u8>, Seq<u8>, Seq<u8>)>) -> bool {
    forall|a: (Seq<u8>, Seq<u8>, Seq<u8>), b: (Seq<u8>, Seq<u8>, Seq<u8>)| #[trigger]
        met.contains(a) && #[trigger] met.contains(b) && chacha20poly1305_seal(
            a.0,
            ZERO_NONCE@,
            a.1,
            a.2,
        ) == chacha20poly1305_seal(b.0, ZERO_NONCE@, b.1, b.2) ==> a == b
}

/// No two different ones of these keys hide a ciphertext in the same way.
pub open spec fn masks_told_apart(met: Set<Seq<u8>>, ct: Seq<u8>) -> bool {
    forall|a: Seq<u8>, b: Seq<u8>| #[trigger]
        met.contains(a) && #[trigger] met.contains(b) && chacha20(a, ZERO_NONCE@, ct) == chacha20(
            b,
            ZERO_NONCE@,
            ct,
        ) ==> a == b
}

/// The sealed fields of two initiations are the same only if they hold the same, under the same
/// key and behind the same transcript: who sent it and with which proof, and which counter.
pub proof fn law_sealed_fields_of_initiations<A, B>(
    met: Set<(Seq<u8>, Seq<u8>, Seq<u8>)>,
    own: [u8; 32],
    peer: Peer<A>,
    sid: SessionId,
    ri_key: Seq<u8>,
    inputs: InitiationInputs,
    msg: NoiseInitiation,
    own2: [u8; 32],
    peer2: Peer<B>,
    sid2: SessionId,
    ri_key2: Seq<u8>,
    inputs2: InitiationInputs,
    msg2: NoiseInitiation,
)
    requires
        seals_told_apart(met),
        peer.k_send < u128::MAX,
        peer2.k_send < u128::MAX,
        is_initiation(own@, peer, sid, ri_key, inputs, msg),
        is_initiation(own2@, peer2, sid2, ri_key2, inputs2, msg2),
        ({
            let (k, l) = (sent_keys(peer, inputs, msg), sent_keys(peer2, inputs2, msg2));
            let p = identity_plain(own@, sent_proof(k, ri_key, inputs));
            let q = identity_plain(own2@, sent_proof(l, ri_key2, inputs2));
            &&& met.contains((k.key, k.hs_identity, p))
            &&& met.contains((l.key, l.hs_identity, q))
            &&& met.contains(
                (k.key_counter, k.hs_counter, be_bytes((peer.k_send + 1) as nat, 16)),
            )
            &&& met.contains(
                (l.key_counter, l.hs_counter, be_bytes((peer2.k_send + 1) as nat, 16)),
            )
        }),
    ensures
        ({
            let (k, l) = (sent_keys(peer, inputs, msg), sent_keys(peer2, inputs2, msg2));
            &&& msg.f_identity@ == msg2.f_identity@ ==> {
                &&& own@ == own2@
                &&& k.key == l.key
                &&& k.hs_identity == l.hs_identity
                &&& sent_proof(k, ri_key, inputs) == sent_proof(l, ri_key2, inputs2)
            }
            &&& msg.f_timestamp@ == msg2.f_timestamp@ ==> {
                &&& peer.k_send == peer2.k_send
                &&& k.key_counter == l.key_counter
                &&& k.hs_counter == l.hs_counter
            }
        }),
{
    let (k, l) = (sent_keys(peer, inputs, msg), sent_keys(peer2, inputs2, msg2));
    let p = sent_proof(k, ri_key, inputs);
    let q = sent_proof(l, ri_key2, inputs2);
    let a = (k.key, k.hs_identity, identity_plain(own@, p));
    let b = (l.key, l.hs_identity, identity_plain(own2@, q));
    assert(met.contains(a) && met.contains(b));
    law_identity_round_trip(own, p);
    law_identity_round_trip(own2, q);
    let c = (k.key_counter, k.hs_counter, be_bytes((peer.k_send + 1) as nat, 16));
    let d = (l.key_counter, l.hs_counter, be_bytes((peer2.k_send + 1) as nat, 16));
    assert(met.contains(c) && met.contains(d));
    lemma_pow256();
    lemma_be_value_of_bytes((peer.k_send + 1) as nat, 16);
    lemma_be_value_of_bytes((peer2.k_send + 1) as nat, 16);
}

/// A static ciphertext travels hidden: two initiations, or two responses, show the same bytes
/// for one ciphertext only if their exchanges on the curve hide it with the same key.
pub proof fn law_static_ciphertexts_are_hidden<A, B>(
    met: Set<Seq<u8>>,
    peer: Peer<A>,
    own: Seq<u8>,
    sid: SessionId,
    ri_key: Seq<u8>,
    inputs: InitiationInputs,
    msg: NoiseInitiation,
    other: Peer<B>,
    other_sid: SessionId,
    state: TemporaryState,
    answer: ResponseInputs,
    resp: NoiseResponse,
)
    requires
        is_initiation(own, peer, sid, ri_key, inputs, msg),
        is_response(other, other_sid, state, answer, resp),
        inputs.static_ct@ == answer.static_ct@,
        masks_told_apart(met, inputs.static_ct@),
        met.contains(hiding_key(x25519(inputs.scalar(), peer.pk@))),
        met.contains(hiding_key(x25519(answer.scalar(), other.pk@))),
        msg.f_static_ct_pq@ == resp.f_static_ct_pq@,
    ensures
        hiding_key(x25519(inputs.scalar(), peer.pk@)) == hiding_key(
            x25519(answer.scalar(), other.pk@),
        ),
{
    let a = hiding_key(x25519(inputs.scalar(), peer.pk@));
    let b = hiding_key(x25519(answer.scalar(), other.pk@));
    assert(met.contains(a) && met.contains(b));
}

/// The confirmations of two responses are the same only if they hold the same, under the same
/// key and behind the same transcript: the next epoch, the proof, the next key and its name.
pub proof fn law_sealed_fields_of_responses<A, B>(
    met: Set<(Seq<u8>, Seq<u8>, Seq<u8>)>,
    peer: Peer<A>,
    sid: SessionId,
    state: TemporaryState,
    inputs: ResponseInputs,
    msg: NoiseResponse,
    kid: [u8; 16],
    peer2: Peer<B>,
    sid2: SessionId,
    state2: TemporaryState,
    inputs2: ResponseInputs,
    msg2: NoiseResponse,
    kid2: [u8; 16],
)
    requires
        seals_told_apart(met),
        state.ratchet.epoch < u64::MAX,
        state2.ratchet.epoch < u64::MAX,
        is_response(peer, sid, state, inputs, msg),
        is_response(peer2, sid2, state2, inputs2, msg2),
        kid@ == kid_spec(state.ratchet.rk@, (state.ratchet.epoch + 1) as u64, inputs.next_pub@),
        kid2@ == kid_spec(
            state2.ratchet.rk@,
            (state2.ratchet.epoch + 1) as u64,
            inputs2.next_pub@,
        ),
        ({
            let k = responder_keys(peer, state, inputs, msg);
            let l = responder_keys(peer2, state2, inputs2, msg2);
            &&& met.contains((k.key, k.hs, confirmation(k, state, inputs)))
            &&& met.contains((l.key, l.hs, confirmation(l, state2, inputs2)))
        }),
        msg.f_confirm@ == msg2.f_confirm@,
    ensures
        responder_keys(peer, state, inputs, msg).key == responder_keys(
            peer2,
            state2,
            inputs2,
            msg2,
        ).key,
        responder_keys(peer, state, inputs, msg).hs == responder_keys(
            peer2,
            state2,
            inputs2,
            msg2,
        ).hs,
        state.ratchet.epoch == state2.ratchet.epoch,
        inputs.next_pub@ == inputs2.next_pub@,
        kid@ == kid2@,
{
    let k = responder_keys(peer, state, inputs, msg);
    let l = responder_keys(peer2, state2, inputs2, msg2);
    let a = (k.key, k.hs, confirmation(k, state, inputs));
    let b = (l.key, l.hs, confirmation(l, state2, inputs2));
    assert(met.contains(a) && met.contains(b));
    let ri = generated(
        inputs.ri_draw,
        inputs.decoys@,
        inputs.unix_secs,
        state.ri_key@,
        secret_spec(state.ri_key@, k.ck, k.h7),
    );
    let ri2 = generated(
        inputs2.ri_draw,
        inputs2.decoys@,
        inputs2.unix_secs,
        state2.ri_key@,
        secret_spec(state2.ri_key@, l.ck, l.h7),
    );
    law_confirm_round_trip((state.ratchet.epoch + 1) as u64, ri, inputs.next_pub, kid);
    law_confirm_round_trip((state2.ratchet.epoch + 1) as u64, ri2, inputs2.next_pub, kid2);
}

/// What a responder keeps of an accepted initiation is what the message said, and the roots of
/// the epoch that it is for.
pub proof fn law_second_stage<O>(
    stage: SecondStage,
    peer: Peer<O>,
    who: Initiator,
    msg: NoiseInitiation,
    ratchet: ResponseRatchet,
    manual: Option<[u8; 8]>,
)
    requires
        is_second_stage(stage, peer, who, msg, ratchet, manual),
    ensures
        stage.sender == msg.f_sender,
        stage.eph_pk == msg.f_ephemeral,
        stage.eph_pk_pq == msg.f_ephemeral_pq,
        stage.ratchet_ct == msg.f_ratchet_ct,
        stage.h_id == peer.h_id_recv,
        stage.ratchet == ratchet,
        manual is Some ==> stage.ri_key@ == manual->0@,
{
}

/// A response cannot be made if one of its exchanges on the curve is zero, and else it can.
pub proof fn law_failing_responses<O>(peer: Peer<O>, state: TemporaryState, inputs: ResponseInputs)
    ensures
        response_fails(peer, state, inputs) <==> x25519(inputs.scalar(), peer.pk@) == zeros(32)
            || x25519(inputs.scalar(), state.eph_pk@) == zeros(32),
{
}

/// The proof in an initiation is accepted only by a responder that has come to the same
/// chaining key and transcript as the one who made it.
pub proof fn law_rendezvous_binds<A, B>(
    targets: Set<Seq<u8>>,
    met: Set<Seq<u8>>,
    of_responder: Peer<A>,
    inputs: InitiationInputs,
    msg: NoiseInitiation,
    of_initiator: Peer<B>,
    who: Initiator,
    ratchet: ResponseRatchet,
    manual: Option<[u8; 8]>,
    unix_secs: u64,
)
    requires
        ({
            let ri_key = epoch_key(manual, ratchet.k_ri@);
            let k = sent_keys(of_responder, inputs, msg);
            let (ck, _) = received_identity_keys(of_initiator, who);
            let (s, t) = (
                secret_spec(ri_key, k.ck, k.hs_identity),
                secret_spec(ri_key, ck, who.hs@),
            );
            &&& who.ri == sent_proof(k, ri_key, inputs)
            &&& targets_told_apart(targets)
            &&& targets.contains(ri_key + s)
            &&& targets.contains(ri_key + t)
            &&& told_apart(met)
            &&& met.contains(ri_key + k.ck + k.hs_identity)
            &&& met.contains(ri_key + ck + who.hs@)
            &&& k.ck.len() == 32
            &&& ck.len() == 32
        }),
        rendezvous_ok(of_initiator, who, ratchet, manual, unix_secs),
    ensures
        received_identity_keys(of_initiator, who).0 == sent_keys(of_responder, inputs, msg).ck,
        who.hs@ == sent_keys(of_responder, inputs, msg).hs_identity,
{
    let ri_key = epoch_key(manual, ratchet.k_ri@);
    let k = sent_keys(of_responder, inputs, msg);
    let (ck, _) = received_identity_keys(of_initiator, who);
    let (s, t) = (secret_spec(ri_key, k.ck, k.hs_identity), secret_spec(ri_key, ck, who.hs@));
    law_proof_is_for_its_secret(
        targets,
        inputs.ri_draw,
        inputs.decoys@,
        inputs.unix_secs,
        ri_key,
        s,
        t,
        unix_secs,
    );
    law_proof_secret_binds(met, ri_key, k.ck, k.hs_identity, ri_key, ck, who.hs@);
}

/// What a responder derives once it knows who sent an initiation.
pub open spec fn received_identity_keys<O>(peer: Peer<O>, who: Initiator) -> (Seq<u8>, Seq<u8>) {
    kdf2_spec(
        who.ck@,
        peer.ss@ + peer.hash_static_pq_recv@ + peer.h_id_recv@ + peer.psk@,
    )
}

/// The proof in a response is accepted only by an initiator that has come to the same chaining
/// key and transcript as the one who made it.
pub proof fn law_response_proof_binds<A, B>(
    targets: Set<Seq<u8>>,
    met: Set<Seq<u8>>,
    of_responder: Peer<A>,
    stage: ResponseStage,
    msg: NoiseResponse,
    shk_master: [u8; 32],
    shk_static: [u8; 32],
    unix_secs: u64,
    of_initiator: Peer<B>,
    state: TemporaryState,
    inputs: ResponseInputs,
    kid: [u8; 16],
)
    requires
        state.ratchet.epoch < u64::MAX,
        kid@ == kid_spec(state.ratchet.rk@, (state.ratchet.epoch + 1) as u64, inputs.next_pub@),
        ({
            let k = responder_keys(of_initiator, state, inputs, msg);
            let l = initiator_keys(of_responder, stage, msg, shk_master@, shk_static@);
            let ri_key = state.ri_key@;
            let (s, t) = (secret_spec(ri_key, k.ck, k.h7), secret_spec(ri_key, l.ck, l.h7));
            &&& response_verdict(
                of_responder,
                stage,
                msg,
                ri_key,
                Some(shk_master),
                Some(shk_static),
                unix_secs,
            ) == Ok::<Seq<u8>, HandshakeError>(confirmation(k, state, inputs))
            &&& targets_told_apart(targets)
            &&& targets.contains(ri_key + s)
            &&& targets.contains(ri_key + t)
            &&& told_apart(met)
            &&& met.contains(ri_key + k.ck + k.h7)
            &&& met.contains(ri_key + l.ck + l.h7)
            &&& k.ck.len() == 32
            &&& l.ck.len() == 32
        }),
    ensures
        ({
            let k = responder_keys(of_initiator, state, inputs, msg);
            let l = initiator_keys(of_responder, stage, msg, shk_master@, shk_static@);
            k.ck == l.ck && k.h7 == l.h7
        }),
{
    let k = responder_keys(of_initiator, state, inputs, msg);
    let l = initiator_keys(of_responder, stage, msg, shk_master@, shk_static@);
    let ri_key = state.ri_key@;
    let (s, t) = (secret_spec(ri_key, k.ck, k.h7), secret_spec(ri_key, l.ck, l.h7));
    let ri = generated(inputs.ri_draw, inputs.decoys@, inputs.unix_secs, ri_key, s);
    law_confirm_round_trip((state.ratchet.epoch + 1) as u64, ri, inputs.next_pub, kid);
    law_proof_is_for_its_secret(
        targets,
        inputs.ri_draw,
        inputs.decoys@,
        inputs.unix_secs,
        ri_key,
        s,
        t,
        unix_secs,
    );
    law_proof_secret_binds(met, ri_key, k.ck, k.h7, ri_key, l.ck, l.h7);
}

} // verus!
