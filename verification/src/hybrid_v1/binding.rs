//! What the keys of a handshake depend on: whoever ends with the same key has put in the same
//! secrets and seen the same messages.
//!
//! Each statement is about two derivations, and holds as long as no hash collision is met
//! among the inputs that they hash.

use crate::binding::{
    kdf_met, law_derived_keys_bind, lemma_hash, lemma_joined, lemma_joined_end, lemma_kdf_len,
    told_apart,
};
use crate::bytes::zeros;
use crate::crypto::{
    blake2s, chacha20poly1305_open, kdf1_spec, kdf2_spec, kdf3_spec, x25519, ZERO_NONCE,
};
use crate::exchange::{INITIAL_CK, INITIAL_HS};
use crate::hybrid_v1::messages::{NoiseInitiation, NoiseResponse};
use crate::hybrid_v1::noise::{
    acceptance_verdict, initiator_keys, is_initiator_pair, is_responder_pair, received_identity,
    remembers, responder_keys, response_failure, response_keys, sent_keys, transport_keys,
    FirstStage, InitiationInputs, Initiator, ResponseInputs, ResponseKeys, ResponseSecrets,
    ResponseStage, TemporaryState,
};
use crate::hybrid_v1::peer::{Peer, State};
use crate::types::{HandshakeError, KeyPair};
use vstd::prelude::*;

verus! {

/// Does a ciphertext open under this key and with this transcript at most?
pub open spec fn opens_only_with(key: Seq<u8>, hs: Seq<u8>, ct: Seq<u8>) -> bool {
    forall|k: Seq<u8>, h: Seq<u8>| #[trigger]
        chacha20poly1305_open(k, ZERO_NONCE@, h, ct) is Some ==> k == key && h == hs
}

/// A chaining key, a transcript hash and the secrets of a response, with what was received.
pub ghost struct ResponseCase {
    pub ck: Seq<u8>,
    pub hs: Seq<u8>,
    pub msg: NoiseResponse,
    pub secrets: ResponseSecrets,
}

impl ResponseCase {
    pub open spec fn sized(self) -> bool {
        &&& self.ck.len() == 32
        &&& self.hs.len() == 32
        &&& self.secrets.dh_ee.len() == 32
        &&& self.secrets.shk_ee.len() == 32
        &&& self.secrets.dh_se.len() == 32
        &&& self.secrets.shk_se.len() == 32
        &&& self.secrets.psk.len() == 32
    }

    pub open spec fn keys(self) -> ResponseKeys {
        response_keys(self.ck, self.hs, self.msg, self.secrets)
    }

    pub open spec fn sent(self) -> Seq<u8> {
        self.msg.f_ephemeral@ + self.msg.f_ephemeral_ct_pq@
    }

    pub open spec fn seen(self) -> Seq<u8> {
        self.hs + self.msg.f_ephemeral@ + self.msg.f_ephemeral_ct_pq@
    }

    pub open spec fn ck1(self) -> Seq<u8> {
        kdf1_spec(self.ck, self.sent())
    }

    pub open spec fn ck2(self) -> Seq<u8> {
        kdf1_spec(self.ck1(), self.secrets.dh_ee + self.secrets.shk_ee)
    }

    pub open spec fn ck3(self) -> Seq<u8> {
        kdf1_spec(self.ck2(), self.secrets.dh_se + self.secrets.shk_se)
    }

    /// Are all inputs that its keys and its transcript hash among `met`?
    pub open spec fn met(self, met: Set<Seq<u8>>) -> bool {
        &&& kdf_met(met, self.ck, self.sent())
        &&& kdf_met(met, self.ck1(), self.secrets.dh_ee + self.secrets.shk_ee)
        &&& kdf_met(met, self.ck2(), self.secrets.dh_se + self.secrets.shk_se)
        &&& kdf_met(met, self.ck3(), self.secrets.psk)
        &&& met.contains(self.seen())
        &&& met.contains(blake2s(self.seen()) + kdf3_spec(self.ck3(), self.secrets.psk).1)
    }

    /// Did the same go into two chaining keys?
    pub open spec fn agrees(self, other: ResponseCase) -> bool {
        &&& self.ck == other.ck
        &&& self.msg.f_ephemeral@ == other.msg.f_ephemeral@
        &&& self.msg.f_ephemeral_ct_pq@ == other.msg.f_ephemeral_ct_pq@
        &&& self.secrets == other.secrets
    }
}

proof fn lemma_chain(met: Set<Seq<u8>>, a: ResponseCase, b: ResponseCase)
    requires
        told_apart(met),
        a.sized(),
        b.sized(),
        a.met(met),
        b.met(met),
    ensures
        a.ck3().len() == 32,
        b.ck3().len() == 32,
        a.ck3() == b.ck3() && a.secrets.psk == b.secrets.psk ==> a.agrees(b),
{
    let (s, t) = (a.secrets, b.secrets);
    lemma_kdf_len(met, a.ck, a.sent());
    lemma_kdf_len(met, b.ck, b.sent());
    lemma_kdf_len(met, a.ck1(), s.dh_ee + s.shk_ee);
    lemma_kdf_len(met, b.ck1(), t.dh_ee + t.shk_ee);
    lemma_kdf_len(met, a.ck2(), s.dh_se + s.shk_se);
    lemma_kdf_len(met, b.ck2(), t.dh_se + t.shk_se);
    law_derived_keys_bind(met, a.ck2(), s.dh_se + s.shk_se, b.ck2(), t.dh_se + t.shk_se);
    law_derived_keys_bind(met, a.ck1(), s.dh_ee + s.shk_ee, b.ck1(), t.dh_ee + t.shk_ee);
    law_derived_keys_bind(met, a.ck, a.sent(), b.ck, b.sent());
    if a.ck3() == b.ck3() {
        lemma_joined(s.dh_se, s.shk_se, t.dh_se, t.shk_se);
        lemma_joined(s.dh_ee, s.shk_ee, t.dh_ee, t.shk_ee);
        lemma_joined(
            a.msg.f_ephemeral@,
            a.msg.f_ephemeral_ct_pq@,
            b.msg.f_ephemeral@,
            b.msg.f_ephemeral_ct_pq@,
        );
    }
}

/// Two responses end with the same chaining key, the same key for the empty field or the same
/// transcript only if the same secrets went in: both exchanges on the curve, both
/// decapsulated secrets and the pre-shared key.
pub proof fn law_response_keys_bind_secrets(met: Set<Seq<u8>>, a: ResponseCase, b: ResponseCase)
    requires
        told_apart(met),
        a.sized(),
        b.sized(),
        a.met(met),
        b.met(met),
    ensures
        a.keys().ck.len() == 32,
        a.keys().ck == b.keys().ck ==> a.agrees(b),
        a.keys().key == b.keys().key ==> a.agrees(b),
        a.keys().hs == b.keys().hs ==> a.agrees(b) && a.hs == b.hs,
        // a chaining key is no key for a message
        a.keys().ck != b.keys().key,
{
    let (s, t) = (a.secrets, b.secrets);
    let (tau_a, tau_b) = (kdf3_spec(a.ck3(), s.psk).1, kdf3_spec(b.ck3(), t.psk).1);
    lemma_chain(met, a, b);
    lemma_kdf_len(met, a.ck3(), s.psk);
    lemma_kdf_len(met, b.ck3(), t.psk);
    law_derived_keys_bind(met, a.ck3(), s.psk, b.ck3(), t.psk);
    if a.keys().hs == b.keys().hs {
        lemma_hash(met, blake2s(a.seen()) + tau_a, blake2s(b.seen()) + tau_b);
        lemma_joined_end(blake2s(a.seen()), tau_a, blake2s(b.seen()), tau_b);
        lemma_hash(met, a.seen(), b.seen());
        lemma_joined(
            a.hs + a.msg.f_ephemeral@,
            a.msg.f_ephemeral_ct_pq@,
            b.hs + b.msg.f_ephemeral@,
            b.msg.f_ephemeral_ct_pq@,
        );
        lemma_joined(a.hs, a.msg.f_ephemeral@, b.hs, b.msg.f_ephemeral@);
    }
}

/// Handshakes with different final chaining keys have different transport keys, in both
/// directions, and the key of one direction is never that of the other.
pub proof fn law_transport_keys_bind(met: Set<Seq<u8>>, ck: Seq<u8>, other: Seq<u8>)
    requires
        told_apart(met),
        ck.len() == 32,
        other.len() == 32,
        kdf_met(met, ck, Seq::empty()),
        kdf_met(met, other, Seq::empty()),
    ensures
        transport_keys(ck).0 == transport_keys(other).0 ==> ck == other,
        transport_keys(ck).1 == transport_keys(other).1 ==> ck == other,
        transport_keys(ck).0 != transport_keys(other).1,
{
    law_derived_keys_bind(met, ck, Seq::empty(), other, Seq::empty());
}

/// What the initiator puts into the keys of a response.
pub open spec fn initiator_case<O>(
    peer: Peer<O>,
    stage: ResponseStage,
    msg: NoiseResponse,
    shk_ee: Seq<u8>,
    shk_se: Seq<u8>,
) -> ResponseCase {
    ResponseCase {
        ck: stage.ck@,
        hs: stage.hs@,
        msg,
        secrets: ResponseSecrets {
            dh_ee: stage.dh_ee@,
            shk_ee,
            dh_se: stage.dh_se@,
            shk_se,
            psk: peer.psk@,
        },
    }
}

/// What the responder puts into the keys of a response.
pub open spec fn responder_case<O>(
    peer: Peer<O>,
    state: TemporaryState,
    inputs: ResponseInputs,
    msg: NoiseResponse,
) -> ResponseCase {
    ResponseCase {
        ck: state.ck@,
        hs: state.hs@,
        msg,
        secrets: ResponseSecrets {
            dh_ee: x25519(inputs.scalar(), state.eph_pk@),
            shk_ee: inputs.eph_secret@,
            dh_se: x25519(inputs.scalar(), peer.pk@),
            shk_se: inputs.static_secret@,
            psk: peer.psk@,
        },
    }
}

/// The pairs of two sides share the key of a direction only if the same secrets went into
/// both: the decapsulated ones, the exchanges on the curve, the pre-shared key and the
/// chaining key of the initiation. The two directions never share a key.
pub proof fn law_session_keys_bind_secrets<A, B>(
    met: Set<Seq<u8>>,
    of_responder: Peer<A>,
    stage: ResponseStage,
    msg: NoiseResponse,
    shk_ee: Seq<u8>,
    shk_se: Seq<u8>,
    of_initiator: Peer<B>,
    state: TemporaryState,
    inputs: ResponseInputs,
    sent: NoiseResponse,
    pair: KeyPair,
    local: u32,
    sender: u32,
    now: u64,
    other: KeyPair,
    other_local: u32,
    other_sender: u32,
    other_now: u64,
)
    requires
        ({
            let a = initiator_case(of_responder, stage, msg, shk_ee, shk_se);
            let b = responder_case(of_initiator, state, inputs, sent);
            &&& told_apart(met)
            &&& a.sized()
            &&& b.sized()
            &&& a.met(met)
            &&& b.met(met)
            &&& kdf_met(met, a.keys().ck, Seq::empty())
            &&& kdf_met(met, b.keys().ck, Seq::empty())
        }),
        is_initiator_pair(
            pair,
            initiator_keys(of_responder, stage, msg, shk_ee, shk_se).ck,
            local,
            sender,
            now,
        ),
        is_responder_pair(
            other,
            responder_keys(of_initiator, state, inputs, sent).ck,
            other_local,
            other_sender,
            other_now,
        ),
    ensures
        pair.send.key@ == other.recv.key@ || pair.recv.key@ == other.send.key@ ==> {
            &&& shk_ee == inputs.eph_secret@
            &&& shk_se == inputs.static_secret@
            &&& of_responder.psk@ == of_initiator.psk@
            &&& stage.ck@ == state.ck@
            &&& stage.dh_ee@ == x25519(inputs.scalar(), state.eph_pk@)
            &&& stage.dh_se@ == x25519(inputs.scalar(), of_initiator.pk@)
            &&& msg.f_ephemeral@ == sent.f_ephemeral@
            &&& msg.f_ephemeral_ct_pq@ == sent.f_ephemeral_ct_pq@
        },
        pair.send.key@ != other.send.key@,
        pair.recv.key@ != other.recv.key@,
        pair.send.key@ != pair.recv.key@,
        other.send.key@ != other.recv.key@,
{
    let a = initiator_case(of_responder, stage, msg, shk_ee, shk_se);
    let b = responder_case(of_initiator, state, inputs, sent);
    law_response_keys_bind_secrets(met, a, b);
    law_response_keys_bind_secrets(met, b, a);
    law_transport_keys_bind(met, a.keys().ck, b.keys().ck);
    law_transport_keys_bind(met, b.keys().ck, a.keys().ck);
    law_transport_keys_bind(met, a.keys().ck, a.keys().ck);
    law_transport_keys_bind(met, b.keys().ck, b.keys().ck);
}

/// A response whose empty field opens under the key of its maker only is refused, as one that
/// cannot be decrypted, with any secret other than those it was made with.
pub proof fn law_response_with_other_secrets_is_refused<A, B>(
    met: Set<Seq<u8>>,
    of_responder: Peer<A>,
    stage: ResponseStage,
    msg: NoiseResponse,
    shk_ee: Seq<u8>,
    shk_se: Seq<u8>,
    of_initiator: Peer<B>,
    state: TemporaryState,
    inputs: ResponseInputs,
)
    requires
        ({
            let a = initiator_case(of_responder, stage, msg, shk_ee, shk_se);
            let b = responder_case(of_initiator, state, inputs, msg);
            &&& told_apart(met)
            &&& a.sized()
            &&& b.sized()
            &&& a.met(met)
            &&& b.met(met)
        }),
        ({
            let keys = responder_keys(of_initiator, state, inputs, msg);
            opens_only_with(keys.key, keys.hs, msg.f_empty@)
        }),
        ({
            ||| shk_ee != inputs.eph_secret@
            ||| shk_se != inputs.static_secret@
            ||| of_responder.psk@ != of_initiator.psk@
            ||| stage.ck@ != state.ck@
            ||| stage.hs@ != state.hs@
            ||| stage.dh_ee@ != x25519(inputs.scalar(), state.eph_pk@)
            ||| stage.dh_se@ != x25519(inputs.scalar(), of_initiator.pk@)
        }),
    ensures
        response_failure(of_responder, stage, msg, shk_ee, shk_se) == Some(
            HandshakeError::DecryptionFailure,
        ),
{
    let a = initiator_case(of_responder, stage, msg, shk_ee, shk_se);
    let b = responder_case(of_initiator, state, inputs, msg);
    law_response_keys_bind_secrets(met, a, b);
}

/// All that goes into the chaining key of an initiation.
pub ghost struct InitiationCase {
    pub pk_hash_r: Seq<u8>,
    pub msg: NoiseInitiation,
    pub dh: Seq<u8>,
    pub shk: Seq<u8>,
    pub ss: Seq<u8>,
    pub hash_static_pq: Seq<u8>,
    pub psk: Seq<u8>,
}

/// What an initiator puts in.
pub open spec fn initiation_case<O>(
    peer: Peer<O>,
    inputs: InitiationInputs,
    msg: NoiseInitiation,
) -> InitiationCase {
    InitiationCase {
        pk_hash_r: peer.pk_hash@,
        msg,
        dh: x25519(inputs.scalar(), peer.pk@),
        shk: inputs.static_secret@,
        ss: peer.ss@,
        hash_static_pq: peer.hash_static_pq_send@,
        psk: peer.psk@,
    }
}

impl InitiationCase {
    pub open spec fn sized(self) -> bool {
        &&& self.pk_hash_r.len() == 32
        &&& self.dh.len() == 32
        &&& self.shk.len() == 32
        &&& self.ss.len() == 32
        &&& self.hash_static_pq.len() == 32
        &&& self.psk.len() == 32
    }

    pub open spec fn eph(self) -> Seq<u8> {
        self.msg.f_ephemeral@ + self.msg.f_ephemeral_pq@
    }

    pub open spec fn ck0(self) -> Seq<u8> {
        kdf1_spec(INITIAL_CK@, self.eph())
    }

    pub open spec fn ck1(self) -> Seq<u8> {
        kdf2_spec(self.ck0(), self.dh + self.shk).0
    }

    pub open spec fn mixed(self) -> Seq<u8> {
        self.ss + self.hash_static_pq + self.psk
    }

    pub open spec fn hs0(self) -> Seq<u8> {
        blake2s(INITIAL_HS@ + self.pk_hash_r)
    }

    pub open spec fn hs1(self) -> Seq<u8> {
        blake2s(self.hs0() + self.msg.f_ephemeral@ + self.msg.f_ephemeral_pq@)
    }

    pub open spec fn hs2(self) -> Seq<u8> {
        blake2s(self.hs1() + self.msg.f_static@)
    }

    /// Are all inputs that its keys and its transcript hash among `met`?
    pub open spec fn met(self, met: Set<Seq<u8>>) -> bool {
        &&& kdf_met(met, INITIAL_CK@, self.eph())
        &&& kdf_met(met, self.ck0(), self.dh + self.shk)
        &&& kdf_met(met, self.ck1(), self.mixed())
        &&& met.contains(INITIAL_HS@ + self.pk_hash_r)
        &&& met.contains(self.hs0() + self.msg.f_ephemeral@ + self.msg.f_ephemeral_pq@)
        &&& met.contains(self.hs1() + self.msg.f_static@)
        &&& met.contains(self.hs2() + self.msg.f_timestamp@)
    }

    pub open spec fn same_ephemerals(self, other: InitiationCase) -> bool {
        &&& self.msg.f_ephemeral@ == other.msg.f_ephemeral@
        &&& self.msg.f_ephemeral_pq@ == other.msg.f_ephemeral_pq@
    }

    pub open spec fn same_static(self, other: InitiationCase) -> bool {
        &&& self.same_ephemerals(other)
        &&& self.dh == other.dh
        &&& self.shk == other.shk
    }

    pub open spec fn same_identities(self, other: InitiationCase) -> bool {
        &&& self.same_static(other)
        &&& self.ss == other.ss
        &&& self.hash_static_pq == other.hash_static_pq
        &&& self.psk == other.psk
    }
}

proof fn lemma_initiation_chain(met: Set<Seq<u8>>, a: InitiationCase, b: InitiationCase)
    requires
        told_apart(met),
        a.sized(),
        b.sized(),
        a.met(met),
        b.met(met),
    ensures
        ({
            let (x, y) = (a.dh + a.shk, b.dh + b.shk);
            let (k, l) = (kdf2_spec(a.ck0(), x), kdf2_spec(b.ck0(), y));
            &&& k.0 == l.0 ==> a.same_static(b)
            &&& k.1 == l.1 ==> a.same_static(b)
        }),
        ({
            let (k, l) = (kdf2_spec(a.ck1(), a.mixed()), kdf2_spec(b.ck1(), b.mixed()));
            &&& k.0 == l.0 ==> a.same_identities(b)
            &&& k.1 == l.1 ==> a.same_identities(b)
        }),
{
    lemma_kdf_len(met, INITIAL_CK@, a.eph());
    lemma_kdf_len(met, INITIAL_CK@, b.eph());
    lemma_kdf_len(met, a.ck0(), a.dh + a.shk);
    lemma_kdf_len(met, b.ck0(), b.dh + b.shk);
    law_derived_keys_bind(met, INITIAL_CK@, a.eph(), INITIAL_CK@, b.eph());
    law_derived_keys_bind(met, a.ck0(), a.dh + a.shk, b.ck0(), b.dh + b.shk);
    law_derived_keys_bind(met, a.ck1(), a.mixed(), b.ck1(), b.mixed());
    if a.eph() == b.eph() {
        lemma_joined(
            a.msg.f_ephemeral@,
            a.msg.f_ephemeral_pq@,
            b.msg.f_ephemeral@,
            b.msg.f_ephemeral_pq@,
        );
    }
    if a.dh + a.shk == b.dh + b.shk {
        lemma_joined(a.dh, a.shk, b.dh, b.shk);
    }
    if a.mixed() == b.mixed() {
        lemma_joined(a.ss + a.hash_static_pq, a.psk, b.ss + b.hash_static_pq, b.psk);
        lemma_joined(a.ss, a.hash_static_pq, b.ss, b.hash_static_pq);
    }
}

proof fn lemma_initiation_transcript(met: Set<Seq<u8>>, a: InitiationCase, b: InitiationCase)
    requires
        told_apart(met),
        a.met(met),
        b.met(met),
    ensures
        a.hs1() == b.hs1() ==> a.pk_hash_r == b.pk_hash_r && a.same_ephemerals(b),
        a.hs2() == b.hs2() ==> a.hs1() == b.hs1() && a.msg.f_static@ == b.msg.f_static@,
        blake2s(a.hs2() + a.msg.f_timestamp@) == blake2s(b.hs2() + b.msg.f_timestamp@)
            ==> a.hs2() == b.hs2() && a.msg.f_timestamp@ == b.msg.f_timestamp@,
{
    let (m, n) = (a.msg, b.msg);
    if blake2s(a.hs2() + m.f_timestamp@) == blake2s(b.hs2() + n.f_timestamp@) {
        lemma_hash(met, a.hs2() + m.f_timestamp@, b.hs2() + n.f_timestamp@);
        lemma_joined_end(a.hs2(), m.f_timestamp@, b.hs2(), n.f_timestamp@);
    }
    if a.hs2() == b.hs2() {
        lemma_hash(met, a.hs1() + m.f_static@, b.hs1() + n.f_static@);
        lemma_joined_end(a.hs1(), m.f_static@, b.hs1(), n.f_static@);
    }
    if a.hs1() == b.hs1() {
        let (x, y) = (a.hs0() + m.f_ephemeral@, b.hs0() + n.f_ephemeral@);
        lemma_hash(met, x + m.f_ephemeral_pq@, y + n.f_ephemeral_pq@);
        lemma_joined_end(x, m.f_ephemeral_pq@, y, n.f_ephemeral_pq@);
        lemma_joined_end(a.hs0(), m.f_ephemeral@, b.hs0(), n.f_ephemeral@);
        lemma_hash(met, INITIAL_HS@ + a.pk_hash_r, INITIAL_HS@ + b.pk_hash_r);
        lemma_joined(INITIAL_HS@, a.pk_hash_r, INITIAL_HS@, b.pk_hash_r);
    }
}

/// The keys of an initiation bind what goes into them. The key of the identity binds the
/// ephemeral keys and the two secrets of the static keys; the next keys bind the exchange of
/// the static keys, the hash of the encapsulation keys and the pre-shared key as well; the
/// transcript binds the responder and every field before it.
pub proof fn law_initiation_keys_bind<A, B>(
    met: Set<Seq<u8>>,
    peer: Peer<A>,
    inputs: InitiationInputs,
    msg: NoiseInitiation,
    other: Peer<B>,
    other_inputs: InitiationInputs,
    other_msg: NoiseInitiation,
)
    requires
        ({
            let a = initiation_case(peer, inputs, msg);
            let b = initiation_case(other, other_inputs, other_msg);
            &&& told_apart(met)
            &&& a.sized()
            &&& b.sized()
            &&& a.met(met)
            &&& b.met(met)
        }),
    ensures
        ({
            let a = initiation_case(peer, inputs, msg);
            let b = initiation_case(other, other_inputs, other_msg);
            let k = sent_keys(peer, inputs, msg);
            let l = sent_keys(other, other_inputs, other_msg);
            &&& k.key_identity == l.key_identity ==> a.same_static(b)
            &&& k.ck == l.ck ==> a.same_identities(b)
            &&& k.key_counter == l.key_counter ==> a.same_identities(b)
            &&& k.hs_identity == l.hs_identity ==> a.same_ephemerals(b) && a.pk_hash_r
                == b.pk_hash_r
            &&& k.hs_counter == l.hs_counter ==> k.hs_identity == l.hs_identity && msg.f_static@
                == other_msg.f_static@
            &&& k.hs == l.hs ==> k.hs_counter == l.hs_counter && msg.f_timestamp@
                == other_msg.f_timestamp@
        }),
{
    let a = initiation_case(peer, inputs, msg);
    let b = initiation_case(other, other_inputs, other_msg);
    lemma_initiation_chain(met, a, b);
    lemma_initiation_transcript(met, a, b);
}

/// Two initiators wait in the same state only if they put in the same secrets and sent the
/// same fields to the same responder.
pub proof fn law_waiting_states_bind<A, B>(
    met: Set<Seq<u8>>,
    peer: Peer<A>,
    local: u32,
    inputs: InitiationInputs,
    msg: NoiseInitiation,
    state: State,
    other: Peer<B>,
    other_local: u32,
    other_inputs: InitiationInputs,
    other_msg: NoiseInitiation,
    other_state: State,
)
    requires
        ({
            let a = initiation_case(peer, inputs, msg);
            let b = initiation_case(other, other_inputs, other_msg);
            &&& told_apart(met)
            &&& a.sized()
            &&& b.sized()
            &&& a.met(met)
            &&& b.met(met)
        }),
        remembers(state, peer, local, inputs, msg),
        remembers(other_state, other, other_local, other_inputs, other_msg),
    ensures
        state->ck@ == other_state->ck@ ==> {
            &&& inputs.static_secret@ == other_inputs.static_secret@
            &&& peer.ss@ == other.ss@
            &&& peer.hash_static_pq_send@ == other.hash_static_pq_send@
            &&& peer.psk@ == other.psk@
            &&& msg.f_ephemeral@ == other_msg.f_ephemeral@
            &&& msg.f_ephemeral_pq@ == other_msg.f_ephemeral_pq@
        },
        state->hs@ == other_state->hs@ ==> {
            &&& peer.pk_hash@ == other.pk_hash@
            &&& msg.f_ephemeral@ == other_msg.f_ephemeral@
            &&& msg.f_ephemeral_pq@ == other_msg.f_ephemeral_pq@
            &&& msg.f_static@ == other_msg.f_static@
            &&& msg.f_timestamp@ == other_msg.f_timestamp@
        },
{
    law_initiation_keys_bind(met, peer, inputs, msg, other, other_inputs, other_msg);
}

/// An initiation whose counter opens under the key of its maker only is refused, as one that
/// cannot be decrypted, by a responder with another pre-shared key, another exchange of the
/// static keys, another hash of the encapsulation keys or another chaining key.
pub proof fn law_initiation_with_other_secrets_is_refused<A, B>(
    met: Set<Seq<u8>>,
    of_responder: Peer<A>,
    inputs: InitiationInputs,
    msg: NoiseInitiation,
    of_initiator: Peer<B>,
    who: Initiator,
    now: u64,
)
    requires
        ({
            let a = initiation_case(of_responder, inputs, msg);
            let mixed = of_initiator.ss@ + of_initiator.hash_static_pq_recv@ + of_initiator.psk@;
            &&& told_apart(met)
            &&& a.sized()
            &&& a.met(met)
            &&& kdf_met(met, who.ck@, mixed)
        }),
        ({
            let keys = sent_keys(of_responder, inputs, msg);
            opens_only_with(keys.key_counter, keys.hs_counter, msg.f_timestamp@)
        }),
        of_initiator.ss@ != zeros(32),
        ({
            ||| of_initiator.ss@ != of_responder.ss@
            ||| of_initiator.psk@ != of_responder.psk@
            ||| of_initiator.hash_static_pq_recv@ != of_responder.hash_static_pq_send@
            ||| who.ck@ != initiation_case(of_responder, inputs, msg).ck1()
        }),
    ensures
        acceptance_verdict(of_initiator, who, msg, now) == Err::<u128, HandshakeError>(
            HandshakeError::DecryptionFailure,
        ),
{
    let a = initiation_case(of_responder, inputs, msg);
    let x = of_initiator.ss@ + of_initiator.hash_static_pq_recv@;
    let y = of_responder.ss@ + of_responder.hash_static_pq_send@;
    lemma_kdf_len(met, a.ck0(), a.dh + a.shk);
    law_derived_keys_bind(met, a.ck1(), a.mixed(), who.ck@, x + of_initiator.psk@);
    if y + of_responder.psk@ == x + of_initiator.psk@ {
        lemma_joined(y, of_responder.psk@, x, of_initiator.psk@);
        lemma_joined(
            of_responder.ss@,
            of_responder.hash_static_pq_send@,
            of_initiator.ss@,
            of_initiator.hash_static_pq_recv@,
        );
    }
}

/// An initiation whose identity opens under the key of its maker only does not name its maker
/// to a responder with another decapsulated secret or another exchange on the curve.
pub proof fn law_identity_needs_the_secrets<A>(
    met: Set<Seq<u8>>,
    of_responder: Peer<A>,
    inputs: InitiationInputs,
    msg: NoiseInitiation,
    stage: FirstStage,
    shk: Seq<u8>,
)
    requires
        ({
            let a = initiation_case(of_responder, inputs, msg);
            &&& told_apart(met)
            &&& a.sized()
            &&& a.met(met)
            &&& shk.len() == 32
            &&& kdf_met(met, stage.ck@, stage.dh@ + shk)
        }),
        ({
            let keys = sent_keys(of_responder, inputs, msg);
            opens_only_with(keys.key_identity, keys.hs_identity, msg.f_static@)
        }),
        ({
            ||| shk != inputs.static_secret@
            ||| stage.dh@ != x25519(inputs.scalar(), of_responder.pk@)
        }),
    ensures
        received_identity(stage, msg, shk) is None,
{
    let a = initiation_case(of_responder, inputs, msg);
    lemma_kdf_len(met, INITIAL_CK@, a.eph());
    law_derived_keys_bind(met, a.ck0(), a.dh + a.shk, stage.ck@, stage.dh@ + shk);
    if a.dh + a.shk == stage.dh@ + shk {
        lemma_joined(a.dh, a.shk, stage.dh@, shk);
    }
}

} // verus!
