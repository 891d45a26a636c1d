//! What has to hold of a message that is accepted, and what its fields show.

use crate::bytes::{be_bytes, lemma_be_value_of_bytes, lemma_pow256, zeros};
use crate::crypto::{chacha20poly1305_open, x25519, ZERO_NONCE};
use crate::exchange::hiding_key;
use crate::hybrid_v1::keys::KeyState;
use crate::hybrid_v1::messages::{NoiseInitiation, NoiseResponse};
use crate::hybrid_v1::noise::{
    acceptance_verdict, initiation_fails, initiator_keys, is_initiation, is_response,
    responder_keys, response_fails, response_failure, response_refusal, sent_keys, InitiationInputs,
    Initiator, ResponseInputs, ResponseStage, TemporaryState,
};
use crate::hybrid_v1::peer::Peer;
use crate::hybrid_v23::verdicts::{masks_told_apart, seals_told_apart};
use crate::types::HandshakeError;
use vstd::prelude::*;

verus! {

/// An initiation that is accepted shows a counter that opens and is larger than all before,
/// 20 ms or more after the last one.
pub proof fn law_accepted_is_genuine<O>(
    peer: Peer<O>,
    who: Initiator,
    msg: NoiseInitiation,
    now: u64,
)
    ensures
        acceptance_verdict(peer, who, msg, now) matches Ok(k) ==> {
            &&& peer.ss@ != zeros(32)
            &&& k > peer.k_recv
            &&& peer.last_initiation_consumption matches Some(last) ==> now >= last + 20_000_000
            &&& exists|key: Seq<u8>, hs: Seq<u8>| #[trigger]
                chacha20poly1305_open(key, ZERO_NONCE@, hs, msg.f_timestamp@) is Some
        },
        peer.ss@ == zeros(32) ==> acceptance_verdict(peer, who, msg, now) == Err::<
            u128,
            HandshakeError,
        >(HandshakeError::InvalidSharedSecret),
{
}

/// A response is looked at only by a peer that waits, and if no exchange on the curve is zero.
/// It is taken up only if its empty field opens and it is still waited for.
pub proof fn law_taken_up_is_genuine<O>(
    keyst: KeyState,
    peer: Peer<O>,
    stage: ResponseStage,
    msg: NoiseResponse,
    shk_ee: Seq<u8>,
    shk_se: Seq<u8>,
)
    ensures
        peer.state is Reset ==> response_refusal(keyst, peer.state, msg) == Some(
            HandshakeError::InvalidState,
        ),
        peer.state is InitiationSent ==> (response_refusal(keyst, peer.state, msg) is None <==> {
            &&& x25519(peer.state->eph_sk@, msg.f_ephemeral@) != zeros(32)
            &&& x25519(keyst.sk@, msg.f_ephemeral@) != zeros(32)
        }),
        response_failure(peer, stage, msg, shk_ee, shk_se) is None ==> {
            &&& peer.state is InitiationSent
            &&& peer.state->eph_sk@ == stage.eph_sk@
            &&& exists|key: Seq<u8>, hs: Seq<u8>| #[trigger]
                chacha20poly1305_open(key, ZERO_NONCE@, hs, msg.f_empty@) is Some
        },
{
    let keys = initiator_keys(peer, stage, msg, shk_ee, shk_se);
    if response_failure(peer, stage, msg, shk_ee, shk_se) is None {
        assert(chacha20poly1305_open(keys.key, ZERO_NONCE@, keys.hs, msg.f_empty@) is Some);
    }
}

/// The sealed fields of two initiations are the same only if they hold the same, under the same
/// key and behind the same transcript: who sent it, and which counter.
pub proof fn law_sealed_fields_of_initiations<A, B>(
    met: Set<(Seq<u8>, Seq<u8>, Seq<u8>)>,
    own: Seq<u8>,
    peer: Peer<A>,
    local: u32,
    inputs: InitiationInputs,
    msg: NoiseInitiation,
    own2: Seq<u8>,
    peer2: Peer<B>,
    local2: u32,
    inputs2: InitiationInputs,
    msg2: NoiseInitiation,
)
    requires
        seals_told_apart(met),
        peer.k_send < u128::MAX,
        peer2.k_send < u128::MAX,
        is_initiation(own, peer, local, inputs, msg),
        is_initiation(own2, peer2, local2, inputs2, msg2),
        ({
            let (k, l) = (sent_keys(peer, inputs, msg), sent_keys(peer2, inputs2, msg2));
            &&& met.contains((k.key_identity, k.hs_identity, own))
            &&& met.contains((l.key_identity, l.hs_identity, own2))
            &&& met.contains(
                (k.key_counter, k.hs_counter, be_bytes((peer.k_send + 1) as nat, 16)),
            )
            &&& met.contains(
                (l.key_counter, l.hs_counter, be_bytes((peer2.k_send + 1) as nat, 16)),
            )
        }),
    ensures
        ({
            let (k, l) = (sent_keys(peer, inputs, msg), sent_keys(peer2, inputs2, msg2));
            &&& msg.f_static@ == msg2.f_static@ ==> {
                &&& own == own2
                &&& k.key_identity == l.key_identity
                &&& k.hs_identity == l.hs_identity
            }
            &&& msg.f_timestamp@ == msg2.f_timestamp@ ==> {
                &&& peer.k_send == peer2.k_send
                &&& k.key_counter == l.key_counter
                &&& k.hs_counter == l.hs_counter
            }
        }),
{
    let (k, l) = (sent_keys(peer, inputs, msg), sent_keys(peer2, inputs2, msg2));
    let a = (k.key_identity, k.hs_identity, own);
    let b = (l.key_identity, l.hs_identity, own2);
    assert(met.contains(a) && met.contains(b));
    let c = (k.key_counter, k.hs_counter, be_bytes((peer.k_send + 1) as nat, 16));
    let d = (l.key_counter, l.hs_counter, be_bytes((peer2.k_send + 1) as nat, 16));
    assert(met.contains(c) && met.contains(d));
    lemma_pow256();
    lemma_be_value_of_bytes((peer.k_send + 1) as nat, 16);
    lemma_be_value_of_bytes((peer2.k_send + 1) as nat, 16);
}

/// A static ciphertext travels hidden: an initiation and a response show the same bytes for one
/// ciphertext only if their exchanges on the curve hide it with the same key. And the empty
/// fields of two responses are the same only under the same key and transcript.
pub proof fn law_fields_of_responses<A, B>(
    seals: Set<(Seq<u8>, Seq<u8>, Seq<u8>)>,
    masks: Set<Seq<u8>>,
    own: Seq<u8>,
    peer: Peer<A>,
    local: u32,
    inputs: InitiationInputs,
    msg: NoiseInitiation,
    a: Peer<B>,
    id: u32,
    state: TemporaryState,
    answer: ResponseInputs,
    resp: NoiseResponse,
    b: Peer<B>,
    id2: u32,
    state2: TemporaryState,
    answer2: ResponseInputs,
    resp2: NoiseResponse,
)
    requires
        is_initiation(own, peer, local, inputs, msg),
        is_response(a, id, state, answer, resp),
        is_response(b, id2, state2, answer2, resp2),
        seals_told_apart(seals),
        masks_told_apart(masks, inputs.static_ct@),
        masks.contains(hiding_key(x25519(inputs.scalar(), peer.pk@))),
        masks.contains(hiding_key(x25519(answer.scalar(), a.pk@))),
        ({
            let (k, l) = (
                responder_keys(a, state, answer, resp),
                responder_keys(b, state2, answer2, resp2),
            );
            &&& seals.contains((k.key, k.hs, Seq::empty()))
            &&& seals.contains((l.key, l.hs, Seq::empty()))
        }),
    ensures
        inputs.static_ct@ == answer.static_ct@ && msg.f_static_ct_pq@ == resp.f_static_ct_pq@
            ==> hiding_key(x25519(inputs.scalar(), peer.pk@)) == hiding_key(
            x25519(answer.scalar(), a.pk@),
        ),
        resp.f_empty@ == resp2.f_empty@ ==> {
            let (k, l) = (
                responder_keys(a, state, answer, resp),
                responder_keys(b, state2, answer2, resp2),
            );
            k.key == l.key && k.hs == l.hs
        },
{
    let x = hiding_key(x25519(inputs.scalar(), peer.pk@));
    let y = hiding_key(x25519(answer.scalar(), a.pk@));
    assert(masks.contains(x) && masks.contains(y));
    let k = responder_keys(a, state, answer, resp);
    let l = responder_keys(b, state2, answer2, resp2);
    let p = (k.key, k.hs, Seq::<u8>::empty());
    let q = (l.key, l.hs, Seq::<u8>::empty());
    assert(seals.contains(p) && seals.contains(q));
}

/// A message cannot be made if one of its exchanges is zero, and else it can.
pub proof fn law_failing_messages<O>(
    peer: Peer<O>,
    inputs: InitiationInputs,
    state: TemporaryState,
    answer: ResponseInputs,
)
    ensures
        initiation_fails(peer, inputs) <==> peer.ss@ == zeros(32) || x25519(
            inputs.scalar(),
            peer.pk@,
        ) == zeros(32),
        response_fails(peer, state, answer) <==> x25519(answer.scalar(), peer.pk@) == zeros(32)
            || x25519(answer.scalar(), state.eph_pk@) == zeros(32),
{
}

} // verus!
