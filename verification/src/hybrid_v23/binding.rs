//! What the keys of a handshake depend on: whoever ends with the same key has put in the same
//! secrets and seen the same messages.
//!
//! Each statement is about two derivations, and holds as long as no hash collision is met
//! among the inputs that they hash.

use crate::binding::{
    hkdf_met, hmac_met, kdf_met, law_derived_keys_bind, law_expanded_keys_bind, lemma_hash,
    lemma_hash_len, lemma_hmac, lemma_hmac_len, lemma_joined, lemma_joined_end, lemma_kdf_len,
    lemma_le_bytes_bind, lemma_le_words, tags_told_apart, told_apart,
};
use crate::bytes::{le_bytes, zeros};
use crate::crypto::{
    blake2s, chacha20poly1305_open, hkdf_blake2s, hmac_blake2s, kdf1_spec, kdf2_spec, kdf3_spec,
    x25519, ZERO_NONCE,
};
use crate::exchange::{INITIAL_CK, INITIAL_HS};
use crate::hybrid_v23::keys::KeyState;
use crate::hybrid_v23::messages::{NoiseInitiation, NoiseResponse, SessionId};
use crate::hybrid_v23::noise::{
    acceptance_verdict, initiation_keys, initiator_keys, is_committed, is_initiation,
    is_initiator_pair, is_responder_pair, is_response, is_temporary_state, remembers,
    response_transcript, response_verdict, sent_ratchet_secret, InitiationInputs, InitiationKeys,
    Initiator, ResponseInputs, ResponseStage, SecondStage, TemporaryState,
};
use crate::hybrid_v23::peer::{Peer, State};
use crate::hybrid_v23::ratchet::{RatchetState, ResponseRatchet};
use crate::hybrid_v23::schedule::{
    kid_spec, next_roots, output_key, ratchet_material, response_keys, transport_keys, ResponseKeys,
    ResponseSecrets, LABEL_AUTH_I, LABEL_AUTH_R, LABEL_KEM_R, LABEL_KID, LABEL_PROTOCOL,
    LABEL_RECOVERY, LABEL_RI_RATCHET, LABEL_SESSION, LABEL_SESSION_KEY, LABEL_SHK2, LABEL_SHK_EE,
    LABEL_TRANSPORT,
};
use crate::types::{HandshakeError, KeyPair};
use vstd::prelude::*;

verus! {

impl ResponseSecrets {
    /// Has every secret its size?
    pub open spec fn sized(self) -> bool {
        &&& self.dh_ee.len() == 32
        &&& self.dh_se.len() == 32
        &&& self.shk_master.len() == 32
        &&& self.shk_static.len() == 32
        &&& self.psk.len() == 32
    }
}

/// Are all inputs that the keys of a response hash among `met`?
pub open spec fn response_met(
    met: Set<Seq<u8>>,
    ck: Seq<u8>,
    hs: Seq<u8>,
    msg: NoiseResponse,
    eph_pk_pq: Seq<u8>,
    s: ResponseSecrets,
) -> bool {
    let salt = msg.f_receiver@ + msg.f_sender@ + eph_pk_pq + msg.f_hash_ephemeral_pq@;
    let raw = hkdf_blake2s(salt, s.shk_master, LABEL_SHK2@);
    let shk_ee = hkdf_blake2s(salt, s.shk_master, LABEL_SHK_EE@);
    let sent = msg.f_ephemeral@ + msg.f_ephemeral_ct_pq@ + msg.f_hash_ephemeral_pq@;
    let seen = hs + msg.f_ephemeral@ + msg.f_ephemeral_ct_pq@ + msg.f_static_ct_pq@
        + msg.f_hash_ephemeral_pq@;
    let ck1 = kdf1_spec(ck, sent);
    let ck2 = kdf1_spec(ck1, s.dh_ee + blake2s(raw + shk_ee));
    let ck3 = kdf1_spec(ck2, s.dh_se + blake2s(s.shk_static + shk_ee));
    let h7 = blake2s(blake2s(seen) + shk_ee);
    &&& hkdf_met(met, salt, s.shk_master, LABEL_SHK2@)
    &&& hkdf_met(met, salt, s.shk_master, LABEL_SHK_EE@)
    &&& met.contains(raw + shk_ee)
    &&& met.contains(s.shk_static + shk_ee)
    &&& met.contains(seen)
    &&& met.contains(blake2s(seen) + shk_ee)
    &&& kdf_met(met, ck, sent)
    &&& kdf_met(met, ck1, s.dh_ee + blake2s(raw + shk_ee))
    &&& kdf_met(met, ck2, s.dh_se + blake2s(s.shk_static + shk_ee))
    &&& kdf_met(met, ck3, s.psk)
    &&& met.contains(h7 + kdf3_spec(ck3, s.psk).1)
}

/// Have two responses the same fields that go into the chaining key?
pub open spec fn same_exchange(a: NoiseResponse, b: NoiseResponse) -> bool {
    &&& a.f_receiver@ == b.f_receiver@
    &&& a.f_sender@ == b.f_sender@
    &&& a.f_ephemeral@ == b.f_ephemeral@
    &&& a.f_ephemeral_ct_pq@ == b.f_ephemeral_ct_pq@
    &&& a.f_hash_ephemeral_pq@ == b.f_hash_ephemeral_pq@
}

proof fn lemma_salts(a: NoiseResponse, x: Seq<u8>, b: NoiseResponse, y: Seq<u8>)
    requires
        x.len() == 800,
        y.len() == 800,
        a.f_receiver@ + a.f_sender@ + x + a.f_hash_ephemeral_pq@ == b.f_receiver@ + b.f_sender@ + y
            + b.f_hash_ephemeral_pq@,
    ensures
        a.f_receiver@ == b.f_receiver@,
        a.f_sender@ == b.f_sender@,
        x == y,
        a.f_hash_ephemeral_pq@ == b.f_hash_ephemeral_pq@,
{
    lemma_joined(
        a.f_receiver@ + a.f_sender@ + x,
        a.f_hash_ephemeral_pq@,
        b.f_receiver@ + b.f_sender@ + y,
        b.f_hash_ephemeral_pq@,
    );
    lemma_joined(a.f_receiver@ + a.f_sender@, x, b.f_receiver@ + b.f_sender@, y);
    lemma_joined(a.f_receiver@, a.f_sender@, b.f_receiver@, b.f_sender@);
}

/// A chaining key, a transcript hash and the secrets of a response, with what was received.
pub ghost struct ResponseCase {
    pub ck: Seq<u8>,
    pub hs: Seq<u8>,
    pub msg: NoiseResponse,
    pub eph_pk_pq: Seq<u8>,
    pub secrets: ResponseSecrets,
}

impl ResponseCase {
    pub open spec fn sized(self) -> bool {
        &&& self.ck.len() == 32
        &&& self.hs.len() == 32
        &&& self.eph_pk_pq.len() == 800
        &&& self.secrets.sized()
    }

    /// Are all inputs that its keys hash among `met`?
    pub open spec fn met(self, met: Set<Seq<u8>>) -> bool {
        response_met(met, self.ck, self.hs, self.msg, self.eph_pk_pq, self.secrets)
    }

    pub open spec fn keys(self) -> ResponseKeys {
        response_keys(self.ck, self.hs, self.msg, self.eph_pk_pq, self.secrets)
    }

    /// Did the same go into two chaining keys?
    pub open spec fn agrees(self, other: ResponseCase) -> bool {
        &&& self.ck == other.ck
        &&& same_exchange(self.msg, other.msg)
        &&& self.eph_pk_pq == other.eph_pk_pq
        &&& self.secrets == other.secrets
    }

    /// Did the same go into two transcripts?
    pub open spec fn saw_the_same(self, other: ResponseCase) -> bool {
        &&& self.hs == other.hs
        &&& self.msg.f_ephemeral@ == other.msg.f_ephemeral@
        &&& self.msg.f_ephemeral_ct_pq@ == other.msg.f_ephemeral_ct_pq@
        &&& self.msg.f_static_ct_pq@ == other.msg.f_static_ct_pq@
        &&& self.msg.f_hash_ephemeral_pq@ == other.msg.f_hash_ephemeral_pq@
    }
}

proof fn lemma_master_binds(met: Set<Seq<u8>>, a: ResponseCase, b: ResponseCase, label: Seq<u8>)
    requires
        told_apart(met),
        a.sized(),
        b.sized(),
        ({
            let salt_a = a.msg.f_receiver@ + a.msg.f_sender@ + a.eph_pk_pq
                + a.msg.f_hash_ephemeral_pq@;
            let salt_b = b.msg.f_receiver@ + b.msg.f_sender@ + b.eph_pk_pq
                + b.msg.f_hash_ephemeral_pq@;
            &&& hkdf_met(met, salt_a, a.secrets.shk_master, label)
            &&& hkdf_met(met, salt_b, b.secrets.shk_master, label)
            &&& hkdf_blake2s(salt_a, a.secrets.shk_master, label) == hkdf_blake2s(
                salt_b,
                b.secrets.shk_master,
                label,
            )
        }),
    ensures
        a.secrets.shk_master == b.secrets.shk_master,
        a.msg.f_receiver@ == b.msg.f_receiver@,
        a.msg.f_sender@ == b.msg.f_sender@,
        a.eph_pk_pq == b.eph_pk_pq,
        a.msg.f_hash_ephemeral_pq@ == b.msg.f_hash_ephemeral_pq@,
{
    let salt_a = a.msg.f_receiver@ + a.msg.f_sender@ + a.eph_pk_pq + a.msg.f_hash_ephemeral_pq@;
    let salt_b = b.msg.f_receiver@ + b.msg.f_sender@ + b.eph_pk_pq + b.msg.f_hash_ephemeral_pq@;
    law_expanded_keys_bind(
        met,
        salt_a,
        a.secrets.shk_master,
        label,
        salt_b,
        b.secrets.shk_master,
        label,
    );
    lemma_salts(a.msg, a.eph_pk_pq, b.msg, b.eph_pk_pq);
}

proof fn lemma_third_chain(met: Set<Seq<u8>>, a: ResponseCase, b: ResponseCase)
    requires
        told_apart(met),
        a.sized(),
        b.sized(),
        a.met(met),
        b.met(met),
        third_chain(a) == third_chain(b),
        a.secrets.psk == b.secrets.psk,
    ensures
        a.agrees(b),
{
    let salt_a = a.msg.f_receiver@ + a.msg.f_sender@ + a.eph_pk_pq + a.msg.f_hash_ephemeral_pq@;
    let salt_b = b.msg.f_receiver@ + b.msg.f_sender@ + b.eph_pk_pq + b.msg.f_hash_ephemeral_pq@;
    let raw_a = hkdf_blake2s(salt_a, a.secrets.shk_master, LABEL_SHK2@);
    let raw_b = hkdf_blake2s(salt_b, b.secrets.shk_master, LABEL_SHK2@);
    let ee_a = hkdf_blake2s(salt_a, a.secrets.shk_master, LABEL_SHK_EE@);
    let ee_b = hkdf_blake2s(salt_b, b.secrets.shk_master, LABEL_SHK_EE@);
    let sent_a = a.msg.f_ephemeral@ + a.msg.f_ephemeral_ct_pq@ + a.msg.f_hash_ephemeral_pq@;
    let sent_b = b.msg.f_ephemeral@ + b.msg.f_ephemeral_ct_pq@ + b.msg.f_hash_ephemeral_pq@;
    let shk2_a = blake2s(raw_a + ee_a);
    let shk2_b = blake2s(raw_b + ee_b);
    let shk3_a = blake2s(a.secrets.shk_static + ee_a);
    let shk3_b = blake2s(b.secrets.shk_static + ee_b);
    let ck1_a = kdf1_spec(a.ck, sent_a);
    let ck1_b = kdf1_spec(b.ck, sent_b);
    let ck2_a = kdf1_spec(ck1_a, a.secrets.dh_ee + shk2_a);
    let ck2_b = kdf1_spec(ck1_b, b.secrets.dh_ee + shk2_b);
    lemma_kdf_len(met, a.ck, sent_a);
    lemma_kdf_len(met, b.ck, sent_b);
    lemma_kdf_len(met, ck1_a, a.secrets.dh_ee + shk2_a);
    lemma_kdf_len(met, ck1_b, b.secrets.dh_ee + shk2_b);
    law_derived_keys_bind(
        met,
        ck2_a,
        a.secrets.dh_se + shk3_a,
        ck2_b,
        b.secrets.dh_se + shk3_b,
    );
    lemma_joined(a.secrets.dh_se, shk3_a, b.secrets.dh_se, shk3_b);
    law_derived_keys_bind(
        met,
        ck1_a,
        a.secrets.dh_ee + shk2_a,
        ck1_b,
        b.secrets.dh_ee + shk2_b,
    );
    lemma_joined(a.secrets.dh_ee, shk2_a, b.secrets.dh_ee, shk2_b);
    law_derived_keys_bind(met, a.ck, sent_a, b.ck, sent_b);
    lemma_joined(
        a.msg.f_ephemeral@ + a.msg.f_ephemeral_ct_pq@,
        a.msg.f_hash_ephemeral_pq@,
        b.msg.f_ephemeral@ + b.msg.f_ephemeral_ct_pq@,
        b.msg.f_hash_ephemeral_pq@,
    );
    lemma_joined(
        a.msg.f_ephemeral@,
        a.msg.f_ephemeral_ct_pq@,
        b.msg.f_ephemeral@,
        b.msg.f_ephemeral_ct_pq@,
    );
    lemma_hash(met, a.secrets.shk_static + ee_a, b.secrets.shk_static + ee_b);
    lemma_joined(a.secrets.shk_static, ee_a, b.secrets.shk_static, ee_b);
    lemma_master_binds(met, a, b, LABEL_SHK_EE@);
}

/// The chaining key of a response before the pre-shared key goes in.
spec fn third_chain(a: ResponseCase) -> Seq<u8> {
    let salt = a.msg.f_receiver@ + a.msg.f_sender@ + a.eph_pk_pq + a.msg.f_hash_ephemeral_pq@;
    let raw = hkdf_blake2s(salt, a.secrets.shk_master, LABEL_SHK2@);
    let shk_ee = hkdf_blake2s(salt, a.secrets.shk_master, LABEL_SHK_EE@);
    let sent = a.msg.f_ephemeral@ + a.msg.f_ephemeral_ct_pq@ + a.msg.f_hash_ephemeral_pq@;
    let ck1 = kdf1_spec(a.ck, sent);
    let ck2 = kdf1_spec(ck1, a.secrets.dh_ee + blake2s(raw + shk_ee));
    kdf1_spec(ck2, a.secrets.dh_se + blake2s(a.secrets.shk_static + shk_ee))
}

/// Two responses end with the same chaining key, or with the same key for the confirmation,
/// only if the same secrets went in: both exchanges on the curve, both decapsulated secrets
/// and the pre-shared key. The same transcript binds all of that too, and what was sent
/// before. The hash of the first half and the secret for the next root bind the master secret.
pub proof fn law_response_keys_bind_secrets(met: Set<Seq<u8>>, a: ResponseCase, b: ResponseCase)
    requires
        told_apart(met),
        a.sized(),
        b.sized(),
        a.met(met),
        b.met(met),
    ensures
        a.keys().ck == b.keys().ck ==> a.agrees(b),
        a.keys().key == b.keys().key ==> a.agrees(b),
        a.keys().hs == b.keys().hs ==> a.agrees(b) && a.saw_the_same(b),
        a.keys().h7 == b.keys().h7 ==> a.secrets.shk_master == b.secrets.shk_master
            && a.saw_the_same(b),
        a.keys().shk2 == b.keys().shk2 ==> a.secrets.shk_master == b.secrets.shk_master,
        // a chaining key is no key for a message
        a.keys().ck != b.keys().key,
{
    let salt_a = a.msg.f_receiver@ + a.msg.f_sender@ + a.eph_pk_pq + a.msg.f_hash_ephemeral_pq@;
    let salt_b = b.msg.f_receiver@ + b.msg.f_sender@ + b.eph_pk_pq + b.msg.f_hash_ephemeral_pq@;
    let raw_a = hkdf_blake2s(salt_a, a.secrets.shk_master, LABEL_SHK2@);
    let raw_b = hkdf_blake2s(salt_b, b.secrets.shk_master, LABEL_SHK2@);
    let ee_a = hkdf_blake2s(salt_a, a.secrets.shk_master, LABEL_SHK_EE@);
    let ee_b = hkdf_blake2s(salt_b, b.secrets.shk_master, LABEL_SHK_EE@);
    let seen_a = a.hs + a.msg.f_ephemeral@ + a.msg.f_ephemeral_ct_pq@ + a.msg.f_static_ct_pq@
        + a.msg.f_hash_ephemeral_pq@;
    let seen_b = b.hs + b.msg.f_ephemeral@ + b.msg.f_ephemeral_ct_pq@ + b.msg.f_static_ct_pq@
        + b.msg.f_hash_ephemeral_pq@;
    let h7_a = blake2s(blake2s(seen_a) + ee_a);
    let h7_b = blake2s(blake2s(seen_b) + ee_b);
    let (x, y) = (third_chain(a), third_chain(b));
    assert(x.len() == 32 && y.len() == 32) by {
        reveal(told_apart);
        reveal(hmac_blake2s);
    }
    lemma_hash_len(met, seen_a);
    lemma_hash_len(met, seen_b);
    assert(raw_a.len() == 32 && raw_b.len() == 32) by {
        lemma_hmac_len(met, hmac_blake2s(salt_a, a.secrets.shk_master), LABEL_SHK2@ + seq![1u8]);
        lemma_hmac_len(met, hmac_blake2s(salt_b, b.secrets.shk_master), LABEL_SHK2@ + seq![1u8]);
    }
    lemma_hash_len(met, blake2s(seen_a) + ee_a);
    lemma_hash_len(met, blake2s(seen_b) + ee_b);
    lemma_kdf_len(met, x, a.secrets.psk);
    lemma_kdf_len(met, y, b.secrets.psk);
    let (tau_a, tau_b) = (kdf3_spec(x, a.secrets.psk).1, kdf3_spec(y, b.secrets.psk).1);
    law_derived_keys_bind(met, x, a.secrets.psk, y, b.secrets.psk);
    if a.keys().hs == b.keys().hs {
        lemma_hash(met, h7_a + tau_a, h7_b + tau_b);
        lemma_joined(h7_a, tau_a, h7_b, tau_b);
    }
    if x == y && a.secrets.psk == b.secrets.psk {
        lemma_third_chain(met, a, b);
    }
    if h7_a == h7_b {
        lemma_hash(met, blake2s(seen_a) + ee_a, blake2s(seen_b) + ee_b);
        lemma_joined(blake2s(seen_a), ee_a, blake2s(seen_b), ee_b);
        lemma_master_binds(met, a, b, LABEL_SHK_EE@);
        lemma_hash(met, seen_a, seen_b);
        lemma_seen(a, b);
    }
    if a.keys().shk2 == b.keys().shk2 {
        lemma_hash(met, raw_a + ee_a, raw_b + ee_b);
        lemma_joined(raw_a, ee_a, raw_b, ee_b);
        lemma_master_binds(met, a, b, LABEL_SHK2@);
    }
}

proof fn lemma_seen(a: ResponseCase, b: ResponseCase)
    requires
        a.sized(),
        b.sized(),
        a.hs + a.msg.f_ephemeral@ + a.msg.f_ephemeral_ct_pq@ + a.msg.f_static_ct_pq@
            + a.msg.f_hash_ephemeral_pq@ == b.hs + b.msg.f_ephemeral@ + b.msg.f_ephemeral_ct_pq@
            + b.msg.f_static_ct_pq@ + b.msg.f_hash_ephemeral_pq@,
    ensures
        a.saw_the_same(b),
{
    let (m, n) = (a.msg, b.msg);
    let a3 = a.hs + m.f_ephemeral@ + m.f_ephemeral_ct_pq@;
    let b3 = b.hs + n.f_ephemeral@ + n.f_ephemeral_ct_pq@;
    lemma_joined(
        a3 + m.f_static_ct_pq@,
        m.f_hash_ephemeral_pq@,
        b3 + n.f_static_ct_pq@,
        n.f_hash_ephemeral_pq@,
    );
    lemma_joined(a3, m.f_static_ct_pq@, b3, n.f_static_ct_pq@);
    lemma_joined(
        a.hs + m.f_ephemeral@,
        m.f_ephemeral_ct_pq@,
        b.hs + n.f_ephemeral@,
        n.f_ephemeral_ct_pq@,
    );
    lemma_joined(a.hs, m.f_ephemeral@, b.hs, n.f_ephemeral@);
}

/// Handshakes with different final chaining keys have different transport keys, in both
/// directions, and the key of one direction is never that of the other.
pub proof fn law_transport_keys_bind(met: Set<Seq<u8>>, ck: Seq<u8>, other: Seq<u8>)
    requires
        told_apart(met),
        ck.len() == 32,
        other.len() == 32,
        kdf_met(met, ck, LABEL_TRANSPORT@),
        kdf_met(met, other, LABEL_TRANSPORT@),
    ensures
        transport_keys(ck).0 == transport_keys(other).0 ==> ck == other,
        transport_keys(ck).1 == transport_keys(other).1 ==> ck == other,
        transport_keys(ck).0 != transport_keys(other).1,
{
    law_derived_keys_bind(met, ck, LABEL_TRANSPORT@, other, LABEL_TRANSPORT@);
}

/// The pairs of two handshakes, whichever side they belong to, share the key of a direction
/// only if the same secrets went into both.
pub proof fn law_session_keys_bind_secrets(
    met: Set<Seq<u8>>,
    a: ResponseCase,
    b: ResponseCase,
    pair: KeyPair,
    local: u32,
    sender: SessionId,
    now: u64,
    other: KeyPair,
    other_sid: SessionId,
    other_sender: SessionId,
    other_now: u64,
)
    requires
        told_apart(met),
        a.sized(),
        b.sized(),
        a.met(met),
        b.met(met),
        kdf_met(met, a.keys().ck, LABEL_TRANSPORT@),
        kdf_met(met, b.keys().ck, LABEL_TRANSPORT@),
        is_initiator_pair(pair, a.keys().ck, local, sender, now),
        is_responder_pair(other, b.keys().ck, other_sid, other_sender, other_now),
    ensures
        pair.send.key@ == other.recv.key@ ==> a.agrees(b),
        pair.recv.key@ == other.send.key@ ==> a.agrees(b),
        pair.send.key@ != other.send.key@,
        pair.recv.key@ != other.recv.key@,
        pair.send.key@ != pair.recv.key@,
        other.send.key@ != other.recv.key@,
{
    lemma_response_ck_len(met, a);
    lemma_response_ck_len(met, b);
    law_response_keys_bind_secrets(met, a, b);
    law_transport_keys_bind(met, a.keys().ck, b.keys().ck);
    law_transport_keys_bind(met, a.keys().ck, a.keys().ck);
    law_transport_keys_bind(met, b.keys().ck, b.keys().ck);
    law_transport_keys_bind(met, b.keys().ck, a.keys().ck);
}

proof fn lemma_response_ck_len(met: Set<Seq<u8>>, a: ResponseCase)
    requires
        told_apart(met),
    ensures
        a.keys().ck.len() == 32,
        a.keys().key.len() == 32,
{
    reveal(told_apart);
    reveal(hmac_blake2s);
}

/// What the initiator puts into the keys of a response.
pub open spec fn initiator_case<O>(
    peer: Peer<O>,
    stage: ResponseStage,
    msg: NoiseResponse,
    shk_master: Seq<u8>,
    shk_static: Seq<u8>,
) -> ResponseCase {
    ResponseCase {
        ck: stage.ck@,
        hs: stage.hs@,
        msg,
        eph_pk_pq: stage.eph_pk_pq@,
        secrets: ResponseSecrets {
            dh_ee: x25519(stage.eph_sk@, msg.f_ephemeral@),
            dh_se: (stage.hidden->0).0@,
            shk_master,
            shk_static,
            psk: peer.psk@,
        },
    }
}

/// What the responder puts into the keys of a response.
pub open spec fn responder_case<O>(
    peer: Peer<O>,
    state: TemporaryState,
    inputs: ResponseInputs,
    msg: NoiseResponse,
) -> ResponseCase {
    ResponseCase {
        ck: state.ck@,
        hs: state.hs@,
        msg,
        eph_pk_pq: state.eph_pk_pq@,
        secrets: ResponseSecrets {
            dh_ee: x25519(inputs.scalar(), state.eph_pk@),
            dh_se: x25519(inputs.scalar(), peer.pk@),
            shk_master: inputs.shk_master@,
            shk_static: inputs.shk_static@,
            psk: peer.psk@,
        },
    }
}

/// What the tag of a response covers besides its label.
pub open spec fn tag_met(met: Set<Seq<u8>>, a: ResponseCase) -> bool {
    &&& met.contains(a.keys().hs + a.msg.f_confirm@)
    &&& hmac_met(met, a.keys().key, LABEL_AUTH_R@ + blake2s(a.keys().hs + a.msg.f_confirm@))
}

/// A response is taken up only with the secrets that it was made with. With another
/// decapsulated secret, another pre-shared key, another chaining key or another transcript it
/// is refused: as one that cannot be decrypted, unless its confirmation happens to open, to
/// something with another version or epoch.
pub proof fn law_response_with_other_secrets_is_refused<A, B>(
    met: Set<Seq<u8>>,
    of_responder: Peer<A>,
    stage: ResponseStage,
    of_initiator: Peer<B>,
    sid: SessionId,
    state: TemporaryState,
    inputs: ResponseInputs,
    msg: NoiseResponse,
    ri_key: Seq<u8>,
    shk_master: [u8; 32],
    shk_static: [u8; 32],
    unix_secs: u64,
)
    requires
        ({
            let a = initiator_case(of_responder, stage, msg, shk_master@, shk_static@);
            let b = responder_case(of_initiator, state, inputs, msg);
            &&& told_apart(met)
            &&& a.sized()
            &&& b.sized()
            &&& a.met(met)
            &&& b.met(met)
            &&& tag_met(met, a)
            &&& tag_met(met, b)
        }),
        is_response(of_initiator, sid, state, inputs, msg),
        stage.hidden is Some,
        x25519(stage.eph_sk@, msg.f_ephemeral@) != zeros(32),
        ({
            ||| shk_master@ != inputs.shk_master@
            ||| shk_static@ != inputs.shk_static@
            ||| of_responder.psk@ != of_initiator.psk@
            ||| stage.ck@ != state.ck@
            ||| stage.hs@ != state.hs@
            ||| stage.eph_pk_pq@ != state.eph_pk_pq@
            ||| (stage.hidden->0).0@ != x25519(inputs.scalar(), of_initiator.pk@)
            ||| x25519(stage.eph_sk@, msg.f_ephemeral@) != x25519(inputs.scalar(), state.eph_pk@)
        }),
    ensures
        ({
            let verdict = response_verdict(
                of_responder,
                stage,
                msg,
                ri_key,
                Some(shk_master),
                Some(shk_static),
                unix_secs,
            );
            let a = initiator_case(of_responder, stage, msg, shk_master@, shk_static@);
            let opened = chacha20poly1305_open(
                a.keys().key,
                ZERO_NONCE@,
                a.keys().hs,
                msg.f_confirm@,
            );
            &&& verdict matches Err(e)
            &&& e == HandshakeError::DecryptionFailure || e == HandshakeError::InvalidConfirm
                && opened is Some
        }),
{
    let a = initiator_case(of_responder, stage, msg, shk_master@, shk_static@);
    let b = responder_case(of_initiator, state, inputs, msg);
    let x = blake2s(a.keys().hs + msg.f_confirm@);
    let y = blake2s(b.keys().hs + msg.f_confirm@);
    lemma_response_ck_len(met, a);
    lemma_response_ck_len(met, b);
    law_response_keys_bind_secrets(met, a, b);
    if msg.f_auth@ == hmac_blake2s(a.keys().key, LABEL_AUTH_R@ + x) {
        lemma_hmac(met, a.keys().key, LABEL_AUTH_R@ + x, b.keys().key, LABEL_AUTH_R@ + y);
        lemma_joined(LABEL_AUTH_R@, x, LABEL_AUTH_R@, y);
        lemma_hash(met, a.keys().hs + msg.f_confirm@, b.keys().hs + msg.f_confirm@);
        lemma_joined_end(a.keys().hs, msg.f_confirm@, b.keys().hs, msg.f_confirm@);
    }
}

/// Of the responses that are taken up with the same secrets, and that agree in all that is
/// before the tag, there is one tag.
pub proof fn law_response_tag_is_determined<O>(
    peer: Peer<O>,
    stage: ResponseStage,
    msg: NoiseResponse,
    other: NoiseResponse,
    ri_key: Seq<u8>,
    shk_master: Option<[u8; 32]>,
    shk_static: Option<[u8; 32]>,
    unix_secs: u64,
)
    requires
        other == (NoiseResponse { f_auth: other.f_auth, ..msg }),
        response_verdict(peer, stage, msg, ri_key, shk_master, shk_static, unix_secs) is Ok,
        response_verdict(peer, stage, other, ri_key, shk_master, shk_static, unix_secs) is Ok,
    ensures
        msg.f_auth@ == other.f_auth@,
{
    assert(initiator_keys(peer, stage, msg, shk_master->0@, shk_static->0@) == initiator_keys(
        peer,
        stage,
        other,
        shk_master->0@,
        shk_static->0@,
    ));
}

/// Of the initiations that are accepted of one initiator, and that agree in all that is before
/// the tag, there is one tag.
pub proof fn law_initiation_tag_is_determined<O>(
    peer: Peer<O>,
    who: Initiator,
    msg: NoiseInitiation,
    other: NoiseInitiation,
    ratchet: ResponseRatchet,
    manual: Option<[u8; 8]>,
    now: u64,
    unix_secs: u64,
)
    requires
        msg.f_identity@ == other.f_identity@,
        msg.f_timestamp@ == other.f_timestamp@,
        acceptance_verdict(peer, who, msg, ratchet, manual, now, unix_secs) is Ok,
        acceptance_verdict(peer, who, other, ratchet, manual, now, unix_secs) is Ok,
    ensures
        msg.f_auth@ == other.f_auth@,
{
}

/// A responder that accepts an initiation shares the secrets of the one who made it: the
/// chaining key, the transcript, the exchange of the static keys, the hash of the identities
/// and the pre-shared key.
pub proof fn law_accepted_initiation_shares_secrets<A, B>(
    met: Set<Seq<u8>>,
    keys_i: KeyState,
    of_responder: Peer<A>,
    of_initiator: Peer<B>,
    sid: SessionId,
    ri_key: Seq<u8>,
    inputs: InitiationInputs,
    msg: NoiseInitiation,
    who: Initiator,
    ratchet: ResponseRatchet,
    manual: Option<[u8; 8]>,
    now: u64,
    unix_secs: u64,
)
    requires
        told_apart(met),
        is_initiation(keys_i.pk_hash@, of_responder, sid, ri_key, inputs, msg),
        acceptance_verdict(of_initiator, who, msg, ratchet, manual, now, unix_secs) is Ok,
        ({
            let i = initiation_case(of_responder, inputs, msg);
            let r = InitiationTail {
                ck: who.ck@,
                hs: who.hs@,
                msg,
                ss: of_initiator.ss@,
                hash_static_pq: of_initiator.hash_static_pq_recv@,
                h_id: of_initiator.h_id_recv@,
                psk: of_initiator.psk@,
            };
            &&& i.tail().met(met)
            &&& r.met(met)
        }),
    ensures
        who.ck@ == initiation_case(of_responder, inputs, msg).tail().ck,
        who.hs@ == initiation_case(of_responder, inputs, msg).tail().hs,
        of_initiator.ss@ == of_responder.ss@,
        of_initiator.psk@ == of_responder.psk@,
        of_initiator.h_id_recv@ == of_responder.h_id_send@,
        of_initiator.hash_static_pq_recv@ == of_responder.hash_static_pq_send@,
{
    let i = initiation_case(of_responder, inputs, msg).tail();
    let r = InitiationTail {
        ck: who.ck@,
        hs: who.hs@,
        msg,
        ss: of_initiator.ss@,
        hash_static_pq: of_initiator.hash_static_pq_recv@,
        h_id: of_initiator.h_id_recv@,
        psk: of_initiator.psk@,
    };
    assert(i.ck.len() == 32 && i.hs.len() == 32) by {
        reveal(told_apart);
        reveal(hmac_blake2s);
    }
    lemma_tail(met, i, r);
}

/// The second half of an initiation: the identities and the pre-shared key are mixed in, and
/// the sealed fields go into the transcript.
pub ghost struct InitiationTail {
    pub ck: Seq<u8>,
    pub hs: Seq<u8>,
    pub msg: NoiseInitiation,
    pub ss: Seq<u8>,
    pub hash_static_pq: Seq<u8>,
    pub h_id: Seq<u8>,
    pub psk: Seq<u8>,
}

impl InitiationTail {
    pub open spec fn mixed(self) -> Seq<u8> {
        self.ss + self.hash_static_pq + self.h_id + self.psk
    }

    pub open spec fn hs_counter(self) -> Seq<u8> {
        blake2s(self.hs + self.msg.f_identity@)
    }

    pub open spec fn hs_auth(self) -> Seq<u8> {
        blake2s(self.hs_counter() + self.msg.f_timestamp@)
    }

    pub open spec fn sized(self) -> bool {
        &&& self.ck.len() == 32
        &&& self.hs.len() == 32
        &&& self.ss.len() == 32
        &&& self.hash_static_pq.len() == 32
        &&& self.h_id.len() == 32
        &&& self.psk.len() == 32
    }

    /// Are all inputs that its keys, its transcript and its tag hash among `met`?
    pub open spec fn met(self, met: Set<Seq<u8>>) -> bool {
        &&& kdf_met(met, self.ck, self.mixed())
        &&& met.contains(self.hs + self.msg.f_identity@)
        &&& met.contains(self.hs_counter() + self.msg.f_timestamp@)
        &&& met.contains(self.hs_auth() + self.msg.f_auth@)
        &&& hmac_met(met, kdf2_spec(self.ck, self.mixed()).1, LABEL_AUTH_I@ + self.hs_auth())
    }
}

proof fn lemma_mixed(a: InitiationTail, b: InitiationTail)
    requires
        a.sized(),
        b.sized(),
        a.mixed() == b.mixed(),
    ensures
        a.ss == b.ss,
        a.hash_static_pq == b.hash_static_pq,
        a.h_id == b.h_id,
        a.psk == b.psk,
{
    lemma_joined(
        a.ss + a.hash_static_pq + a.h_id,
        a.psk,
        b.ss + b.hash_static_pq + b.h_id,
        b.psk,
    );
    lemma_joined(a.ss + a.hash_static_pq, a.h_id, b.ss + b.hash_static_pq, b.h_id);
    lemma_joined(a.ss, a.hash_static_pq, b.ss, b.hash_static_pq);
}

proof fn lemma_tail(met: Set<Seq<u8>>, a: InitiationTail, b: InitiationTail)
    requires
        told_apart(met),
        a.sized(),
        b.sized(),
        a.met(met),
        b.met(met),
        hmac_blake2s(kdf2_spec(a.ck, a.mixed()).1, LABEL_AUTH_I@ + a.hs_auth()) == hmac_blake2s(
            kdf2_spec(b.ck, b.mixed()).1,
            LABEL_AUTH_I@ + b.hs_auth(),
        ),
    ensures
        a.ck == b.ck,
        a.hs == b.hs,
        a.mixed() == b.mixed(),
        a.ss == b.ss,
        a.hash_static_pq == b.hash_static_pq,
        a.h_id == b.h_id,
        a.psk == b.psk,
{
    lemma_kdf_len(met, a.ck, a.mixed());
    lemma_kdf_len(met, b.ck, b.mixed());
    lemma_hmac(
        met,
        kdf2_spec(a.ck, a.mixed()).1,
        LABEL_AUTH_I@ + a.hs_auth(),
        kdf2_spec(b.ck, b.mixed()).1,
        LABEL_AUTH_I@ + b.hs_auth(),
    );
    law_derived_keys_bind(met, a.ck, a.mixed(), b.ck, b.mixed());
    lemma_mixed(a, b);
    lemma_joined(LABEL_AUTH_I@, a.hs_auth(), LABEL_AUTH_I@, b.hs_auth());
    lemma_hash(met, a.hs_counter() + a.msg.f_timestamp@, b.hs_counter() + b.msg.f_timestamp@);
    lemma_joined_end(a.hs_counter(), a.msg.f_timestamp@, b.hs_counter(), b.msg.f_timestamp@);
    lemma_hash(met, a.hs + a.msg.f_identity@, b.hs + b.msg.f_identity@);
    lemma_joined_end(a.hs, a.msg.f_identity@, b.hs, b.msg.f_identity@);
}

/// All that goes into the chaining key of an initiation.
pub ghost struct InitiationCase {
    pub pk_hash_r: Seq<u8>,
    pub msg: NoiseInitiation,
    pub dh: Seq<u8>,
    pub shk: Seq<u8>,
    pub ss: Seq<u8>,
    pub hash_static_pq: Seq<u8>,
    pub h_id: Seq<u8>,
    pub psk: Seq<u8>,
    pub rk: Seq<u8>,
    pub k_ri: Seq<u8>,
    pub ss_r: Seq<u8>,
}

/// What an initiator puts in.
pub open spec fn initiation_case<O>(
    peer: Peer<O>,
    inputs: InitiationInputs,
    msg: NoiseInitiation,
) -> InitiationCase {
    InitiationCase {
        pk_hash_r: peer.pk_hash@,
        msg,
        dh: x25519(inputs.scalar(), peer.pk@),
        shk: inputs.static_secret@,
        ss: peer.ss@,
        hash_static_pq: peer.hash_static_pq_send@,
        h_id: peer.h_id_send@,
        psk: peer.psk@,
        rk: peer.ratchet.rk@,
        k_ri: peer.ratchet.k_ri@,
        ss_r: sent_ratchet_secret(peer, inputs),
    }
}

impl InitiationCase {
    pub open spec fn sized(self) -> bool {
        &&& self.pk_hash_r.len() == 32
        &&& self.dh.len() == 32
        &&& self.shk.len() == 32
        &&& self.ss.len() == 32
        &&& self.hash_static_pq.len() == 32
        &&& self.h_id.len() == 32
        &&& self.psk.len() == 32
        &&& self.rk.len() == 32
        &&& self.k_ri.len() == 32
        &&& self.ss_r.len() == 32
    }

    pub open spec fn keys(self) -> InitiationKeys {
        initiation_keys(
            self.pk_hash_r,
            self.msg,
            self.dh,
            self.shk,
            self.ss,
            self.hash_static_pq,
            self.h_id,
            self.psk,
        )
    }

    /// Mode and epoch as they are hashed.
    pub open spec fn me(self) -> Seq<u8> {
        le_bytes(self.msg.f_mode as nat, 4) + le_bytes(self.msg.f_epoch as nat, 8)
    }

    pub open spec fn eph(self) -> Seq<u8> {
        self.msg.f_ephemeral@ + self.msg.f_ephemeral_pq@
    }

    pub open spec fn ratchet_in(self) -> Seq<u8> {
        LABEL_KEM_R@ + self.me() + self.msg.f_ratchet_kid@ + self.msg.f_ratchet_ct@
    }

    pub open spec fn ck2(self) -> Seq<u8> {
        kdf1_spec(kdf1_spec(INITIAL_CK@, self.me()), self.eph())
    }

    pub open spec fn ck3(self) -> Seq<u8> {
        kdf1_spec(self.ck2(), blake2s(self.ratchet_in()))
    }

    pub open spec fn hs1_in(self) -> Seq<u8> {
        INITIAL_HS@ + LABEL_PROTOCOL@ + self.pk_hash_r + self.me()
    }

    pub open spec fn hs2_in(self) -> Seq<u8> {
        blake2s(self.hs1_in()) + self.msg.f_ephemeral@ + self.msg.f_ephemeral_pq@
    }

    pub open spec fn hs3_in(self) -> Seq<u8> {
        blake2s(self.hs2_in()) + self.msg.f_ratchet_kid@ + self.msg.f_ratchet_ct@
    }

    pub open spec fn hs4_in(self) -> Seq<u8> {
        blake2s(self.hs3_in()) + self.msg.f_static_ct_pq@
    }

    pub open spec fn tail(self) -> InitiationTail {
        InitiationTail {
            ck: kdf2_spec(self.ck3(), self.dh + self.shk).0,
            hs: blake2s(self.hs4_in()),
            msg: self.msg,
            ss: self.ss,
            hash_static_pq: self.hash_static_pq,
            h_id: self.h_id,
            psk: self.psk,
        }
    }

    pub open spec fn material_in(self) -> Seq<u8> {
        LABEL_SESSION@ + self.rk + self.k_ri + self.ss_r + self.h_id + self.keys().hs + self.me()
    }

    /// The chaining key that the two sides hold once the initiation is through.
    pub open spec fn chain(self) -> Seq<u8> {
        kdf1_spec(
            self.keys().ck,
            ratchet_material(
                self.rk,
                self.k_ri,
                self.ss_r,
                self.h_id,
                self.keys().hs,
                self.msg.f_mode,
                self.msg.f_epoch,
            ),
        )
    }

    /// Are all inputs that its keys and its transcript hash among `met`?
    pub open spec fn met(self, met: Set<Seq<u8>>) -> bool {
        &&& kdf_met(met, INITIAL_CK@, self.me())
        &&& kdf_met(met, kdf1_spec(INITIAL_CK@, self.me()), self.eph())
        &&& met.contains(self.ratchet_in())
        &&& kdf_met(met, self.ck2(), blake2s(self.ratchet_in()))
        &&& kdf_met(met, self.ck3(), self.dh + self.shk)
        &&& met.contains(self.hs1_in())
        &&& met.contains(self.hs2_in())
        &&& met.contains(self.hs3_in())
        &&& met.contains(self.hs4_in())
        &&& self.tail().met(met)
        &&& met.contains(self.material_in())
        &&& kdf_met(met, self.keys().ck, blake2s(self.material_in()))
    }

    /// Do two initiations have the same fields that go into the first keys?
    pub open spec fn same_start(self, other: InitiationCase) -> bool {
        &&& self.msg.f_mode == other.msg.f_mode
        &&& self.msg.f_epoch == other.msg.f_epoch
        &&& self.msg.f_ephemeral@ == other.msg.f_ephemeral@
        &&& self.msg.f_ephemeral_pq@ == other.msg.f_ephemeral_pq@
        &&& self.msg.f_ratchet_kid@ == other.msg.f_ratchet_kid@
        &&& self.msg.f_ratchet_ct@ == other.msg.f_ratchet_ct@
    }

    /// Do two initiations have the same secrets of the static keys?
    pub open spec fn same_static(self, other: InitiationCase) -> bool {
        &&& self.same_start(other)
        &&& self.dh == other.dh
        &&& self.shk == other.shk
    }

    pub open spec fn same_identities(self, other: InitiationCase) -> bool {
        &&& self.same_static(other)
        &&& self.ss == other.ss
        &&& self.hash_static_pq == other.hash_static_pq
        &&& self.h_id == other.h_id
        &&& self.psk == other.psk
    }

    /// Do two initiations go to the same responder, with the same fields that are hashed?
    pub open spec fn same_transcript(self, other: InitiationCase) -> bool {
        &&& self.same_start(other)
        &&& self.pk_hash_r == other.pk_hash_r
        &&& self.msg.f_static_ct_pq@ == other.msg.f_static_ct_pq@
        &&& self.msg.f_identity@ == other.msg.f_identity@
        &&& self.msg.f_timestamp@ == other.msg.f_timestamp@
        &&& self.msg.f_auth@ == other.msg.f_auth@
    }
}

proof fn lemma_me(a: InitiationCase, b: InitiationCase)
    ensures
        a.me().len() == 12,
        b.me().len() == 12,
        a.me() == b.me() ==> a.msg.f_mode == b.msg.f_mode && a.msg.f_epoch == b.msg.f_epoch,
{
    lemma_le_words(a.msg.f_mode, a.msg.f_epoch);
    lemma_le_words(b.msg.f_mode, b.msg.f_epoch);
    if a.me() == b.me() {
        lemma_joined(
            le_bytes(a.msg.f_mode as nat, 4),
            le_bytes(a.msg.f_epoch as nat, 8),
            le_bytes(b.msg.f_mode as nat, 4),
            le_bytes(b.msg.f_epoch as nat, 8),
        );
        lemma_le_bytes_bind(a.msg.f_mode as nat, b.msg.f_mode as nat, 4);
        lemma_le_bytes_bind(a.msg.f_epoch as nat, b.msg.f_epoch as nat, 8);
    }
}

proof fn lemma_start(met: Set<Seq<u8>>, a: InitiationCase, b: InitiationCase)
    requires
        told_apart(met),
        a.met(met),
        b.met(met),
    ensures
        a.ck3().len() == 32,
        b.ck3().len() == 32,
        a.ck3() == b.ck3() ==> a.same_start(b),
{
    let (c1, d1) = (kdf1_spec(INITIAL_CK@, a.me()), kdf1_spec(INITIAL_CK@, b.me()));
    lemma_me(a, b);
    lemma_kdf_len(met, INITIAL_CK@, a.me());
    lemma_kdf_len(met, INITIAL_CK@, b.me());
    lemma_kdf_len(met, c1, a.eph());
    lemma_kdf_len(met, d1, b.eph());
    lemma_kdf_len(met, a.ck2(), blake2s(a.ratchet_in()));
    lemma_kdf_len(met, b.ck2(), blake2s(b.ratchet_in()));
    law_derived_keys_bind(met, a.ck2(), blake2s(a.ratchet_in()), b.ck2(), blake2s(b.ratchet_in()));
    law_derived_keys_bind(met, c1, a.eph(), d1, b.eph());
    law_derived_keys_bind(met, INITIAL_CK@, a.me(), INITIAL_CK@, b.me());
    if a.ck3() == b.ck3() {
        lemma_joined(
            a.msg.f_ephemeral@,
            a.msg.f_ephemeral_pq@,
            b.msg.f_ephemeral@,
            b.msg.f_ephemeral_pq@,
        );
        lemma_hash(met, a.ratchet_in(), b.ratchet_in());
        lemma_joined(
            LABEL_KEM_R@ + a.me() + a.msg.f_ratchet_kid@,
            a.msg.f_ratchet_ct@,
            LABEL_KEM_R@ + b.me() + b.msg.f_ratchet_kid@,
            b.msg.f_ratchet_ct@,
        );
        lemma_joined_end(
            LABEL_KEM_R@ + a.me(),
            a.msg.f_ratchet_kid@,
            LABEL_KEM_R@ + b.me(),
            b.msg.f_ratchet_kid@,
        );
    }
}

proof fn lemma_first_transcript(met: Set<Seq<u8>>, a: InitiationCase, b: InitiationCase)
    requires
        told_apart(met),
        a.sized(),
        b.sized(),
        a.met(met),
        b.met(met),
        blake2s(a.hs4_in()) == blake2s(b.hs4_in()),
    ensures
        a.same_start(b),
        a.pk_hash_r == b.pk_hash_r,
        a.msg.f_static_ct_pq@ == b.msg.f_static_ct_pq@,
{
    let (m, n) = (a.msg, b.msg);
    let (h1, g1) = (blake2s(a.hs1_in()), blake2s(b.hs1_in()));
    let (h2, g2) = (blake2s(a.hs2_in()), blake2s(b.hs2_in()));
    let (h3, g3) = (blake2s(a.hs3_in()), blake2s(b.hs3_in()));
    lemma_hash_len(met, a.hs1_in());
    lemma_hash_len(met, b.hs1_in());
    lemma_hash_len(met, a.hs2_in());
    lemma_hash_len(met, b.hs2_in());
    lemma_hash_len(met, a.hs3_in());
    lemma_hash_len(met, b.hs3_in());
    lemma_hash(met, a.hs4_in(), b.hs4_in());
    lemma_joined(h3, m.f_static_ct_pq@, g3, n.f_static_ct_pq@);
    lemma_hash(met, a.hs3_in(), b.hs3_in());
    lemma_joined(h2 + m.f_ratchet_kid@, m.f_ratchet_ct@, g2 + n.f_ratchet_kid@, n.f_ratchet_ct@);
    lemma_joined(h2, m.f_ratchet_kid@, g2, n.f_ratchet_kid@);
    lemma_hash(met, a.hs2_in(), b.hs2_in());
    lemma_joined(h1 + m.f_ephemeral@, m.f_ephemeral_pq@, g1 + n.f_ephemeral@, n.f_ephemeral_pq@);
    lemma_joined(h1, m.f_ephemeral@, g1, n.f_ephemeral@);
    lemma_hash(met, a.hs1_in(), b.hs1_in());
    lemma_me(a, b);
    lemma_joined(
        INITIAL_HS@ + LABEL_PROTOCOL@ + a.pk_hash_r,
        a.me(),
        INITIAL_HS@ + LABEL_PROTOCOL@ + b.pk_hash_r,
        b.me(),
    );
    lemma_joined(
        INITIAL_HS@ + LABEL_PROTOCOL@,
        a.pk_hash_r,
        INITIAL_HS@ + LABEL_PROTOCOL@,
        b.pk_hash_r,
    );
}

/// The keys of an initiation bind what goes into them. The key of the identity binds the
/// fields before it and the two secrets of the static keys; the next keys bind the
/// identities and the pre-shared key as well; the transcript binds the responder and every
/// field; the chaining key at the end binds all of it, and the roots and the secret of the
/// ratchet.
pub proof fn law_initiation_keys_bind(met: Set<Seq<u8>>, a: InitiationCase, b: InitiationCase)
    requires
        told_apart(met),
        a.sized(),
        b.sized(),
        a.met(met),
        b.met(met),
    ensures
        a.keys().key == b.keys().key ==> a.same_static(b),
        a.keys().ck == b.keys().ck ==> a.same_identities(b),
        a.keys().key_counter == b.keys().key_counter ==> a.same_identities(b),
        a.keys().hs_identity == b.keys().hs_identity ==> a.same_start(b) && a.pk_hash_r
            == b.pk_hash_r && a.msg.f_static_ct_pq@ == b.msg.f_static_ct_pq@,
        a.keys().hs_counter == b.keys().hs_counter ==> a.msg.f_identity@ == b.msg.f_identity@
            && a.keys().hs_identity == b.keys().hs_identity,
        a.keys().hs_auth == b.keys().hs_auth ==> a.msg.f_timestamp@ == b.msg.f_timestamp@
            && a.keys().hs_counter == b.keys().hs_counter,
        a.keys().hs == b.keys().hs ==> a.same_transcript(b),
        a.chain() == b.chain() ==> a.same_identities(b) && a.same_transcript(b) && a.rk == b.rk
            && a.k_ri == b.k_ri && a.ss_r == b.ss_r,
{
    let (x, y) = (a.tail(), b.tail());
    lemma_start(met, a, b);
    lemma_kdf_len(met, a.ck3(), a.dh + a.shk);
    lemma_kdf_len(met, b.ck3(), b.dh + b.shk);
    lemma_kdf_len(met, x.ck, x.mixed());
    lemma_kdf_len(met, y.ck, y.mixed());
    law_derived_keys_bind(met, a.ck3(), a.dh + a.shk, b.ck3(), b.dh + b.shk);
    law_derived_keys_bind(met, x.ck, x.mixed(), y.ck, y.mixed());
    if a.dh + a.shk == b.dh + b.shk {
        lemma_joined(a.dh, a.shk, b.dh, b.shk);
    }
    lemma_hash_len(met, a.hs4_in());
    lemma_hash_len(met, b.hs4_in());
    if x.mixed() == y.mixed() {
        lemma_mixed(x, y);
    }
    if x.hs == y.hs {
        lemma_first_transcript(met, a, b);
    }
    if x.hs_counter() == y.hs_counter() {
        lemma_hash(met, x.hs + a.msg.f_identity@, y.hs + b.msg.f_identity@);
        lemma_joined(x.hs, a.msg.f_identity@, y.hs, b.msg.f_identity@);
    }
    if x.hs_auth() == y.hs_auth() {
        lemma_hash(met, x.hs_counter() + a.msg.f_timestamp@, y.hs_counter() + b.msg.f_timestamp@);
        lemma_joined_end(x.hs_counter(), a.msg.f_timestamp@, y.hs_counter(), b.msg.f_timestamp@);
    }
    if a.keys().hs == b.keys().hs {
        lemma_hash(met, x.hs_auth() + a.msg.f_auth@, y.hs_auth() + b.msg.f_auth@);
        lemma_joined_end(x.hs_auth(), a.msg.f_auth@, y.hs_auth(), b.msg.f_auth@);
    }
    law_derived_keys_bind(
        met,
        a.keys().ck,
        blake2s(a.material_in()),
        b.keys().ck,
        blake2s(b.material_in()),
    );
    if a.chain() == b.chain() {
        lemma_hash(met, a.material_in(), b.material_in());
        lemma_hash_len(met, x.hs_auth() + a.msg.f_auth@);
        lemma_hash_len(met, y.hs_auth() + b.msg.f_auth@);
        lemma_material(a, b);
    }
}

proof fn lemma_material(a: InitiationCase, b: InitiationCase)
    requires
        a.sized(),
        b.sized(),
        a.keys().hs.len() == b.keys().hs.len(),
        a.material_in() == b.material_in(),
    ensures
        a.rk == b.rk,
        a.k_ri == b.k_ri,
        a.ss_r == b.ss_r,
        a.keys().hs == b.keys().hs,
{
    let l = LABEL_SESSION@;
    lemma_me(a, b);
    lemma_joined(
        l + a.rk + a.k_ri + a.ss_r + a.h_id + a.keys().hs,
        a.me(),
        l + b.rk + b.k_ri + b.ss_r + b.h_id + b.keys().hs,
        b.me(),
    );
    lemma_joined(
        l + a.rk + a.k_ri + a.ss_r + a.h_id,
        a.keys().hs,
        l + b.rk + b.k_ri + b.ss_r + b.h_id,
        b.keys().hs,
    );
    lemma_joined(l + a.rk + a.k_ri + a.ss_r, a.h_id, l + b.rk + b.k_ri + b.ss_r, b.h_id);
    lemma_joined(l + a.rk + a.k_ri, a.ss_r, l + b.rk + b.k_ri, b.ss_r);
    lemma_joined(l + a.rk, a.k_ri, l + b.rk, b.k_ri);
    lemma_joined(l, a.rk, l, b.rk);
}

/// Two initiators wait with the same chaining key only if they put in the same secrets and
/// sent the same message to the same responder.
pub proof fn law_waiting_states_bind<A, B>(
    met: Set<Seq<u8>>,
    peer: Peer<A>,
    sid: SessionId,
    inputs: InitiationInputs,
    msg: NoiseInitiation,
    state: State,
    other: Peer<B>,
    other_sid: SessionId,
    other_inputs: InitiationInputs,
    other_msg: NoiseInitiation,
    other_state: State,
)
    requires
        told_apart(met),
        initiation_case(peer, inputs, msg).sized(),
        initiation_case(other, other_inputs, other_msg).sized(),
        initiation_case(peer, inputs, msg).met(met),
        initiation_case(other, other_inputs, other_msg).met(met),
        remembers(state, peer, sid, inputs, msg),
        remembers(other_state, other, other_sid, other_inputs, other_msg),
        state->ck@ == other_state->ck@,
    ensures
        peer.pk_hash@ == other.pk_hash@,
        peer.ss@ == other.ss@,
        peer.psk@ == other.psk@,
        peer.ratchet.rk@ == other.ratchet.rk@,
        peer.ratchet.k_ri@ == other.ratchet.k_ri@,
        peer.h_id_send@ == other.h_id_send@,
        inputs.static_secret@ == other_inputs.static_secret@,
        sent_ratchet_secret(peer, inputs) == sent_ratchet_secret(other, other_inputs),
        peer.ratchet.initiation_mode() == 1 && other.ratchet.initiation_mode() == 1
            ==> inputs.ratchet->0.secret@ == other_inputs.ratchet->0.secret@,
        initiation_case(peer, inputs, msg).same_transcript(
            initiation_case(other, other_inputs, other_msg),
        ),
{
    law_initiation_keys_bind(
        met,
        initiation_case(peer, inputs, msg),
        initiation_case(other, other_inputs, other_msg),
    );
}

/// The next roots bind the old ones, the key of the session, the secrets, the transcript, the
/// name of the next key and the epoch.
pub proof fn law_next_roots_bind(met: Set<Seq<u8>>, a: RootCase, b: RootCase)
    requires
        told_apart(met),
        a.sized(),
        b.sized(),
        a.met(met),
        b.met(met),
    ensures
        a.roots().0 == b.roots().0 ==> a.rk == b.rk && a.k_out == b.k_out && a.ss_r == b.ss_r
            && a.ss_i == b.ss_i && a.th == b.th && a.epoch == b.epoch,
        a.roots().1 == b.roots().1 ==> a.k_ri == b.k_ri && a.k_out == b.k_out && a.th == b.th
            && a.kid == b.kid && a.epoch == b.epoch,
        a.roots().0 != b.roots().1,
{
    let (r, i) = (LABEL_RECOVERY@, LABEL_RI_RATCHET@);
    let (e, f) = (le_bytes(a.epoch as nat, 8), le_bytes(b.epoch as nat, 8));
    lemma_le_words(0, a.epoch);
    lemma_le_words(0, b.epoch);
    if e == f {
        lemma_le_bytes_bind(a.epoch as nat, b.epoch as nat, 8);
    }
    if a.roots().0 == b.roots().0 {
        lemma_hash(met, a.recovery_in(), b.recovery_in());
        lemma_joined(
            r + a.rk + a.k_out + a.ss_r + a.ss_i + a.th,
            e,
            r + b.rk + b.k_out + b.ss_r + b.ss_i + b.th,
            f,
        );
        lemma_joined(
            r + a.rk + a.k_out + a.ss_r + a.ss_i,
            a.th,
            r + b.rk + b.k_out + b.ss_r + b.ss_i,
            b.th,
        );
        lemma_joined(r + a.rk + a.k_out + a.ss_r, a.ss_i, r + b.rk + b.k_out + b.ss_r, b.ss_i);
        lemma_joined(r + a.rk + a.k_out, a.ss_r, r + b.rk + b.k_out, b.ss_r);
        lemma_joined(r + a.rk, a.k_out, r + b.rk, b.k_out);
        lemma_joined(r, a.rk, r, b.rk);
    }
    if a.roots().1 == b.roots().1 {
        lemma_hash(met, a.rendezvous_in(), b.rendezvous_in());
        lemma_joined(
            i + a.k_ri + a.k_out + a.th + a.kid,
            e,
            i + b.k_ri + b.k_out + b.th + b.kid,
            f,
        );
        lemma_joined(i + a.k_ri + a.k_out + a.th, a.kid, i + b.k_ri + b.k_out + b.th, b.kid);
        lemma_joined(i + a.k_ri + a.k_out, a.th, i + b.k_ri + b.k_out, b.th);
        lemma_joined(i + a.k_ri, a.k_out, i + b.k_ri, b.k_out);
        lemma_joined(i, a.k_ri, i, b.k_ri);
    }
    if a.roots().0 == b.roots().1 {
        lemma_hash(met, a.recovery_in(), b.rendezvous_in());
        assert(a.recovery_in().len() != b.rendezvous_in().len());
    }
}

/// All that goes into the next roots.
pub ghost struct RootCase {
    pub rk: Seq<u8>,
    pub k_ri: Seq<u8>,
    pub k_out: Seq<u8>,
    pub ss_r: Seq<u8>,
    pub ss_i: Seq<u8>,
    pub th: Seq<u8>,
    pub kid: Seq<u8>,
    pub epoch: u64,
}

impl RootCase {
    pub open spec fn sized(self) -> bool {
        &&& self.rk.len() == 32
        &&& self.k_ri.len() == 32
        &&& self.k_out.len() == 32
        &&& self.ss_r.len() == 32
        &&& self.ss_i.len() == 32
        &&& self.th.len() == 32
        &&& self.kid.len() == 16
    }

    pub open spec fn roots(self) -> (Seq<u8>, Seq<u8>) {
        next_roots(
            self.rk,
            self.k_ri,
            self.k_out,
            self.ss_r,
            self.ss_i,
            self.th,
            self.kid,
            self.epoch,
        )
    }

    pub open spec fn recovery_in(self) -> Seq<u8> {
        LABEL_RECOVERY@ + self.rk + self.k_out + self.ss_r + self.ss_i + self.th + le_bytes(
            self.epoch as nat,
            8,
        )
    }

    pub open spec fn rendezvous_in(self) -> Seq<u8> {
        LABEL_RI_RATCHET@ + self.k_ri + self.k_out + self.th + self.kid + le_bytes(
            self.epoch as nat,
            8,
        )
    }

    pub open spec fn met(self, met: Set<Seq<u8>>) -> bool {
        met.contains(self.recovery_in()) && met.contains(self.rendezvous_in())
    }
}

/// The key that a session hands to its roots binds the chaining key and the transcript.
pub proof fn law_output_key_binds(
    met: Set<Seq<u8>>,
    ck: Seq<u8>,
    hs: Seq<u8>,
    ck2: Seq<u8>,
    hs2: Seq<u8>,
)
    requires
        told_apart(met),
        ck.len() == ck2.len(),
        met.contains(LABEL_SESSION_KEY@ + ck + hs),
        met.contains(LABEL_SESSION_KEY@ + ck2 + hs2),
        output_key(ck, hs) == output_key(ck2, hs2),
    ensures
        ck == ck2,
        hs == hs2,
{
    let l = LABEL_SESSION_KEY@;
    lemma_hash(met, l + ck + hs, l + ck2 + hs2);
    lemma_joined(l + ck, hs, l + ck2, hs2);
    lemma_joined(l, ck, l, ck2);
}

/// The name of a key of the ratchet binds the root, the epoch and the key.
pub proof fn law_kid_binds(
    met: Set<Seq<u8>>,
    tags: Set<(Seq<u8>, Seq<u8>)>,
    rk: Seq<u8>,
    epoch: u64,
    pubkey: Seq<u8>,
    rk2: Seq<u8>,
    epoch2: u64,
    pubkey2: Seq<u8>,
)
    requires
        told_apart(met),
        tags_told_apart(tags),
        met.contains(pubkey),
        met.contains(pubkey2),
        tags.contains((rk, LABEL_KID@ + le_bytes(epoch as nat, 8) + blake2s(pubkey))),
        tags.contains((rk2, LABEL_KID@ + le_bytes(epoch2 as nat, 8) + blake2s(pubkey2))),
        kid_spec(rk, epoch, pubkey) == kid_spec(rk2, epoch2, pubkey2),
    ensures
        rk == rk2,
        epoch == epoch2,
        pubkey == pubkey2,
{
    let l = LABEL_KID@;
    let (e, f) = (le_bytes(epoch as nat, 8), le_bytes(epoch2 as nat, 8));
    let a = (rk, l + e + blake2s(pubkey));
    let b = (rk2, l + f + blake2s(pubkey2));
    assert(tags.contains(a) && tags.contains(b));
    assert(a == b);
    lemma_le_words(0, epoch);
    lemma_le_words(0, epoch2);
    lemma_joined(l + e, blake2s(pubkey), l + f, blake2s(pubkey2));
    lemma_joined(l, e, l, f);
    lemma_le_bytes_bind(epoch as nat, epoch2 as nat, 8);
    lemma_hash(met, pubkey, pubkey2);
}

/// The transcript of a response binds its confirmation and its tag.
pub proof fn law_response_transcript_binds(
    met: Set<Seq<u8>>,
    a: ResponseKeys,
    msg: NoiseResponse,
    b: ResponseKeys,
    other: NoiseResponse,
)
    requires
        told_apart(met),
        a.hs.len() == 32,
        b.hs.len() == 32,
        met.contains(a.hs + msg.f_confirm@),
        met.contains(b.hs + other.f_confirm@),
        met.contains(blake2s(a.hs + msg.f_confirm@) + msg.f_auth@),
        met.contains(blake2s(b.hs + other.f_confirm@) + other.f_auth@),
        response_transcript(a, msg).1 == response_transcript(b, other).1,
    ensures
        a.hs == b.hs,
        msg.f_confirm@ == other.f_confirm@,
        msg.f_auth@ == other.f_auth@,
{
    let (x, y) = (blake2s(a.hs + msg.f_confirm@), blake2s(b.hs + other.f_confirm@));
    lemma_hash(met, x + msg.f_auth@, y + other.f_auth@);
    lemma_joined_end(x, msg.f_auth@, y, other.f_auth@);
    lemma_hash(met, a.hs + msg.f_confirm@, b.hs + other.f_confirm@);
    lemma_joined(a.hs, msg.f_confirm@, b.hs, other.f_confirm@);
}

/// What goes into the next roots of an initiator.
pub open spec fn root_case(
    stage: ResponseStage,
    keys: ResponseKeys,
    msg: NoiseResponse,
    kid: Seq<u8>,
    epoch: u64,
) -> RootCase {
    let hs = blake2s(blake2s(keys.hs + msg.f_confirm@) + msg.f_auth@);
    RootCase {
        rk: stage.rk@,
        k_ri: stage.k_ri@,
        k_out: blake2s(LABEL_SESSION_KEY@ + keys.ck + hs),
        ss_r: stage.ss_r@,
        ss_i: keys.shk2,
        th: hs,
        kid,
        epoch,
    }
}

/// Two initiators that have completed a handshake hold the same recovery root only if they held
/// the same one before, and had the same session, secrets and transcript; and the same
/// rendezvous root only if the same holds of that one, and the next key has the same name.
pub proof fn law_committed_roots_bind(
    met: Set<Seq<u8>>,
    before: RatchetState,
    after: RatchetState,
    stage: ResponseStage,
    keys: ResponseKeys,
    msg: NoiseResponse,
    plain: Seq<u8>,
    before2: RatchetState,
    after2: RatchetState,
    stage2: ResponseStage,
    keys2: ResponseKeys,
    msg2: NoiseResponse,
    plain2: Seq<u8>,
)
    requires
        told_apart(met),
        is_committed(before, after, stage, keys, msg, plain),
        is_committed(before2, after2, stage2, keys2, msg2, plain2),
        keys.ck.len() == 32,
        keys2.ck.len() == 32,
        keys.shk2.len() == 32,
        keys2.shk2.len() == 32,
        ({
            let a = root_case(stage, keys, msg, after.remote_kid->0@, after.epoch);
            let b = root_case(stage2, keys2, msg2, after2.remote_kid->0@, after2.epoch);
            &&& a.met(met)
            &&& b.met(met)
            &&& met.contains(LABEL_SESSION_KEY@ + keys.ck + a.th)
            &&& met.contains(LABEL_SESSION_KEY@ + keys2.ck + b.th)
        }),
    ensures
        ({
            let a = root_case(stage, keys, msg, after.remote_kid->0@, after.epoch);
            let b = root_case(stage2, keys2, msg2, after2.remote_kid->0@, after2.epoch);
            &&& after.rk@ == after2.rk@ ==> {
                &&& stage.rk@ == stage2.rk@
                &&& stage.ss_r@ == stage2.ss_r@
                &&& keys.shk2 == keys2.shk2
                &&& keys.ck == keys2.ck
                &&& a.th == b.th
                &&& after.epoch == after2.epoch
            }
            &&& after.k_ri@ == after2.k_ri@ ==> {
                &&& stage.k_ri@ == stage2.k_ri@
                &&& keys.ck == keys2.ck
                &&& a.th == b.th
                &&& after.remote_kid->0@ == after2.remote_kid->0@
                &&& after.epoch == after2.epoch
            }
        }),
{
    let a = root_case(stage, keys, msg, after.remote_kid->0@, after.epoch);
    let b = root_case(stage2, keys2, msg2, after2.remote_kid->0@, after2.epoch);
    lemma_hash_len(met, LABEL_SESSION_KEY@ + keys.ck + a.th);
    lemma_hash_len(met, LABEL_SESSION_KEY@ + keys2.ck + b.th);
    lemma_hash_len(met, blake2s(keys.hs + msg.f_confirm@) + msg.f_auth@);
    lemma_hash_len(met, blake2s(keys2.hs + msg2.f_confirm@) + msg2.f_auth@);
    assert((after.rk@, after.k_ri@) == a.roots());
    assert((after2.rk@, after2.k_ri@) == b.roots());
    law_next_roots_bind(met, a, b);
    if a.k_out == b.k_out {
        law_output_key_binds(met, keys.ck, a.th, keys2.ck, b.th);
    }
}

/// What goes into the chaining key of a responder once an initiation is through.
pub open spec fn answering_met(
    met: Set<Seq<u8>>,
    stage: SecondStage,
    secret: Seq<u8>,
) -> bool {
    let material = answering_in(stage, secret);
    met.contains(material) && kdf_met(met, stage.ck@, blake2s(material))
}

pub open spec fn answering_in(stage: SecondStage, secret: Seq<u8>) -> Seq<u8> {
    LABEL_SESSION@ + stage.ratchet.rk@ + stage.ratchet.k_ri@ + secret + stage.h_id@ + stage.hs@ + (
    le_bytes(stage.ratchet.mode as nat, 4) + le_bytes(stage.ratchet.epoch as nat, 8))
}

/// Two responders go on with the same chaining key only if they took up the same initiation
/// with the same roots and, for a ratcheted one, the same decapsulated secret.
pub proof fn law_answering_states_bind(
    met: Set<Seq<u8>>,
    stage: SecondStage,
    shared: [u8; 32],
    state: TemporaryState,
    stage2: SecondStage,
    shared2: [u8; 32],
    state2: TemporaryState,
)
    requires
        told_apart(met),
        stage.ratchet.mode == 1,
        stage2.ratchet.mode == 1,
        is_temporary_state(state, stage, Some(shared)),
        is_temporary_state(state2, stage2, Some(shared2)),
        answering_met(met, stage, shared@),
        answering_met(met, stage2, shared2@),
        state.ck@ == state2.ck@,
    ensures
        shared@ == shared2@,
        stage.ck@ == stage2.ck@,
        stage.hs@ == stage2.hs@,
        stage.h_id@ == stage2.h_id@,
        stage.ratchet.rk@ == stage2.ratchet.rk@,
        stage.ratchet.k_ri@ == stage2.ratchet.k_ri@,
        stage.ratchet.epoch == stage2.ratchet.epoch,
        state.ss_r@ == shared@,
{
    let l = LABEL_SESSION@;
    let (r, q) = (stage.ratchet, stage2.ratchet);
    let (x, y) = (answering_in(stage, shared@), answering_in(stage2, shared2@));
    let m = le_bytes(r.mode as nat, 4) + le_bytes(r.epoch as nat, 8);
    let n = le_bytes(q.mode as nat, 4) + le_bytes(q.epoch as nat, 8);
    law_derived_keys_bind(met, stage.ck@, blake2s(x), stage2.ck@, blake2s(y));
    lemma_hash(met, x, y);
    lemma_le_words(r.mode, r.epoch);
    lemma_le_words(q.mode, q.epoch);
    let (a4, b4) = (l + r.rk@ + r.k_ri@ + shared@, l + q.rk@ + q.k_ri@ + shared2@);
    lemma_joined(a4 + stage.h_id@ + stage.hs@, m, b4 + stage2.h_id@ + stage2.hs@, n);
    lemma_joined(a4 + stage.h_id@, stage.hs@, b4 + stage2.h_id@, stage2.hs@);
    lemma_joined(a4, stage.h_id@, b4, stage2.h_id@);
    lemma_joined(l + r.rk@ + r.k_ri@, shared@, l + q.rk@ + q.k_ri@, shared2@);
    lemma_joined(l + r.rk@, r.k_ri@, l + q.rk@, q.k_ri@);
    lemma_joined(l, r.rk@, l, q.rk@);
    lemma_joined(
        le_bytes(r.mode as nat, 4),
        le_bytes(r.epoch as nat, 8),
        le_bytes(q.mode as nat, 4),
        le_bytes(q.epoch as nat, 8),
    );
    lemma_le_bytes_bind(r.epoch as nat, q.epoch as nat, 8);
}

} // verus!
