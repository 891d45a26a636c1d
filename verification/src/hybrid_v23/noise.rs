//! The two messages of a handshake: how they are made and how they are taken in.
//!
//! The key encapsulations are not performed here. Where one is needed, a function ends
//! with what has to be decapsulated, and the next one takes up the result; what has to be
//! encapsulated for a message is handed in when the message is made.

use crate::bytes::{be_bytes, be_value, read_be, write_be, zeros};
use crate::crypto::{
    blake2s, chacha20, chacha20poly1305_open, chacha20poly1305_seal, clamped, ct_eq, dh_agrees,
    hash1, hash2, kdf2_spec, x25519, x25519_public, StaticSecret, ZERO_NONCE,
};
use crate::exchange::{
    hide_ciphertext, hiding_key, is_zero, open_field, seal_field, shared_secret,
};
use crate::hybrid_v23::keys::KeyState;
use crate::hybrid_v23::messages::{
    session_index, session_index_spec, NoiseInitiation, NoiseResponse, RiProof, SessionId,
    MODE_BOOTSTRAP, MODE_RATCHET, MODE_RESYNC, PROTOCOL_VERSION_V2_3, TYPE_INITIATION,
    TYPE_RESPONSE,
};
use crate::hybrid_v23::payload::{
    confirm_epoch, confirm_kid, confirm_plain, confirm_proof, confirm_pub, confirm_version,
    identity_hash, identity_plain, identity_proof, identity_version, pack_confirm_plain,
    pack_identity_plain, unpack_confirm_plain, unpack_identity_plain,
};
use crate::hybrid_v23::peer::{Peer, State};
use crate::hybrid_v23::ratchet::{PendingResponderRatchet, RatchetState, ResponseRatchet};
use crate::hybrid_v23::ri_proof::{
    epoch_key, generate_ri_proof, generated, ri_key_for_epoch, ri_secret, secret_spec, valid,
    verify_ri_proof, Decoys,
};
use crate::hybrid_v23::schedule::{
    absorb_identity_part, absorb_public_part, absorb_response, absorb_static_part, auth_spec,
    auth_tag, derive_kid, derive_next_roots, derive_output_key, derive_transport_keys,
    identity_part, kid_spec, mix_v23_material, next_roots, output_key, public_part,
    ratchet_material, response_keys, static_part, transport_keys, ResponseKeys, ResponseSecrets,
    LABEL_AUTH_I, LABEL_AUTH_R, LABEL_TRANSPORT,
};
use crate::types::{HandshakeError, Key, KeyPair};
use vstd::prelude::*;

verus! {

// ---------------------------------------------------------------------------
// Making an initiation
// ---------------------------------------------------------------------------

/// An encapsulation for the ratchet key of the other side.
pub struct RatchetEncapsulation {
    pub ct: [u8; 768],
    pub secret: [u8; 32],
}

/// What an initiation is made with: random numbers, ephemeral keys, the encapsulations for
/// the responder's keys, and the time in seconds.
pub struct InitiationInputs {
    pub eph_sk: [u8; 32],
    pub eph_pk_pq: [u8; 800],
    pub eph_sk_pq: [u8; 1632],
    /// For the ratchet key of the responder, where one is known.
    pub ratchet: Option<RatchetEncapsulation>,
    pub static_ct: [u8; 156],
    pub static_secret: [u8; 32],
    pub ri_draw: u32,
    pub decoys: Decoys,
    pub unix_secs: u64,
}

impl InitiationInputs {
    pub open spec fn wf(&self) -> bool {
        self.decoys.wf() && self.decoys.complete()
    }

    /// The ephemeral scalar.
    pub open spec fn scalar(&self) -> Seq<u8> {
        clamped(self.eph_sk@)
    }
}

/// Why no initiation can be made for a peer.
pub open spec fn initiation_failure<O>(peer: Peer<O>, inputs: InitiationInputs) -> Option<
    HandshakeError,
> {
    if peer.ss@ == zeros(32) {
        Some(HandshakeError::InvalidSharedSecret)
    } else if peer.ratchet.initiation_mode() == MODE_RATCHET && inputs.ratchet is None {
        Some(HandshakeError::RatchetStateMissing)
    } else if x25519(inputs.scalar(), peer.pk@) == zeros(32) {
        Some(HandshakeError::InvalidSharedSecret)
    } else {
        None
    }
}

/// The secret of the ratchet key, or zeros where none is used.
pub open spec fn sent_ratchet_secret<O>(peer: Peer<O>, inputs: InitiationInputs) -> Seq<u8> {
    if peer.ratchet.initiation_mode() == MODE_RATCHET {
        inputs.ratchet->0.secret@
    } else {
        zeros(32)
    }
}

/// The keys and hashes of an initiation as it develops.
pub ghost struct InitiationKeys {
    /// The key of the identity.
    pub key: Seq<u8>,
    /// The transcript hash that the identity is bound to.
    pub hs_identity: Seq<u8>,
    /// The chaining key after the long-term secrets.
    pub ck: Seq<u8>,
    /// The key of the counter.
    pub key_counter: Seq<u8>,
    /// The transcript hash that the counter is bound to.
    pub hs_counter: Seq<u8>,
    /// The transcript hash that the authentication tag is bound to.
    pub hs_auth: Seq<u8>,
    /// The transcript hash of the whole message.
    pub hs: Seq<u8>,
}

/// The keys and hashes of an initiation, from the secrets that both sides know.
pub open spec fn initiation_keys(
    pk_hash_r: Seq<u8>,
    msg: NoiseInitiation,
    dh: Seq<u8>,
    shk: Seq<u8>,
    ss: Seq<u8>,
    hash_static_pq: Seq<u8>,
    h_id: Seq<u8>,
    psk: Seq<u8>,
) -> InitiationKeys {
    let (ck0, hs0) = public_part(pk_hash_r, msg);
    let (ck1, key, hs1) = static_part(ck0, hs0, msg, dh, shk);
    let (ck2, key_counter) = identity_part(ck1, ss, hash_static_pq, h_id, psk);
    let hs2 = blake2s(hs1 + msg.f_identity@);
    let hs3 = blake2s(hs2 + msg.f_timestamp@);
    InitiationKeys {
        key,
        hs_identity: hs1,
        ck: ck2,
        key_counter,
        hs_counter: hs2,
        hs_auth: hs3,
        hs: blake2s(hs3 + msg.f_auth@),
    }
}

/// The keys and hashes of the initiation that was made for a peer.
pub open spec fn sent_keys<O>(peer: Peer<O>, inputs: InitiationInputs, msg: NoiseInitiation) -> (
InitiationKeys) {
    initiation_keys(
        peer.pk_hash@,
        msg,
        x25519(inputs.scalar(), peer.pk@),
        inputs.static_secret@,
        peer.ss@,
        peer.hash_static_pq_send@,
        peer.h_id_send@,
        peer.psk@,
    )
}

/// The proof in an initiation.
pub open spec fn sent_proof(keys: InitiationKeys, ri_key: Seq<u8>, inputs: InitiationInputs) -> (
RiProof) {
    generated(
        inputs.ri_draw,
        inputs.decoys@,
        inputs.unix_secs,
        ri_key,
        secret_spec(ri_key, keys.ck, keys.hs_identity),
    )
}

/// Is `msg` the initiation for a peer?
pub open spec fn is_initiation<O>(
    own_pk_hash: Seq<u8>,
    peer: Peer<O>,
    local_sid: SessionId,
    ri_key: Seq<u8>,
    inputs: InitiationInputs,
    msg: NoiseInitiation,
) -> bool {
    let keys = sent_keys(peer, inputs, msg);
    let ratcheted = peer.ratchet.initiation_mode() == MODE_RATCHET;
    &&& msg.f_type == TYPE_INITIATION
    &&& msg.f_mode == peer.ratchet.initiation_mode()
    &&& msg.f_epoch == peer.ratchet.epoch
    &&& msg.f_sender == local_sid
    &&& msg.f_ephemeral@ == x25519_public(inputs.scalar())
    &&& msg.f_ephemeral_pq == inputs.eph_pk_pq
    &&& msg.f_ratchet_kid@ == (if ratcheted {
        peer.ratchet.remote_kid->0@
    } else {
        zeros(16)
    })
    &&& msg.f_ratchet_ct@ == (if ratcheted {
        inputs.ratchet->0.ct@
    } else {
        zeros(768)
    })
    &&& msg.f_static_ct_pq@ == chacha20(
        hiding_key(x25519(inputs.scalar(), peer.pk@)),
        ZERO_NONCE@,
        inputs.static_ct@,
    )
    &&& msg.f_identity@ == chacha20poly1305_seal(
        keys.key,
        ZERO_NONCE@,
        keys.hs_identity,
        identity_plain(own_pk_hash, sent_proof(keys, ri_key, inputs)),
    )
    &&& msg.f_timestamp@ == chacha20poly1305_seal(
        keys.key_counter,
        ZERO_NONCE@,
        keys.hs_counter,
        be_bytes((peer.k_send + 1) as nat, 16),
    )
    &&& msg.f_auth@ == auth_spec(keys.key_counter, LABEL_AUTH_I@, keys.hs_auth)
}

/// What the other side can do with an initiation: uncover the static ciphertext, decrypt
/// identity and counter, and arrive at the same Diffie-Hellman secret.
pub open spec fn initiation_opens<O>(
    own_pk_hash: Seq<u8>,
    peer: Peer<O>,
    ri_key: Seq<u8>,
    inputs: InitiationInputs,
    msg: NoiseInitiation,
) -> bool {
    let dh = x25519(inputs.scalar(), peer.pk@);
    let keys = sent_keys(peer, inputs, msg);
    &&& dh_agrees(dh, inputs.scalar(), peer.pk@)
    &&& chacha20(hiding_key(dh), ZERO_NONCE@, msg.f_static_ct_pq@) == inputs.static_ct@
    &&& chacha20poly1305_open(keys.key, ZERO_NONCE@, keys.hs_identity, msg.f_identity@) == Some(
        identity_plain(own_pk_hash, sent_proof(keys, ri_key, inputs)),
    )
    &&& chacha20poly1305_open(keys.key_counter, ZERO_NONCE@, keys.hs_counter, msg.f_timestamp@)
        == Some(be_bytes((peer.k_send + 1) as nat, 16))
}

/// The chaining key after an initiation, with the ratchet tied in.
pub open spec fn sent_ck<O>(peer: Peer<O>, inputs: InitiationInputs, msg: NoiseInitiation) -> Seq<u8> {
    let keys = sent_keys(peer, inputs, msg);
    crate::crypto::kdf1_spec(
        keys.ck,
        ratchet_material(
            peer.ratchet.rk@,
            peer.ratchet.k_ri@,
            sent_ratchet_secret(peer, inputs),
            peer.h_id_send@,
            keys.hs,
            msg.f_mode,
            msg.f_epoch,
        ),
    )
}

/// Does a peer remember the initiation that was made for it?
pub open spec fn remembers<O>(
    state: State,
    peer: Peer<O>,
    local_sid: SessionId,
    inputs: InitiationInputs,
    msg: NoiseInitiation,
) -> bool {
    &&& state matches State::InitiationSent {
        local,
        local_sid: sid,
        mode,
        epoch,
        eph_sk,
        eph_sk_pq,
        eph_pk_pq,
        rk,
        k_ri,
        ss_r,
        hs,
        ck,
    }
    &&& local == session_index_spec(local_sid@)
    &&& sid == local_sid
    &&& mode == msg.f_mode
    &&& epoch == msg.f_epoch
    &&& eph_sk@ == inputs.scalar()
    &&& eph_sk_pq == inputs.eph_sk_pq
    &&& eph_pk_pq == inputs.eph_pk_pq
    &&& rk == peer.ratchet.rk
    &&& k_ri == peer.ratchet.k_ri
    &&& ss_r@ == sent_ratchet_secret(peer, inputs)
    &&& hs@ == sent_keys(peer, inputs, msg).hs
    &&& ck@ == sent_ck(peer, inputs, msg)
}

/// Makes an initiation for a peer. The peer counts it and waits for the response.
pub fn create_initiation<O>(
    keyst: &KeyState,
    peer: &mut Peer<O>,
    local_sid: SessionId,
    ri_key: &[u8; 8],
    inputs: &InitiationInputs,
) -> (r: Result<NoiseInitiation, HandshakeError>)
    requires
        inputs.wf(),
        old(peer).k_send < u128::MAX,
    ensures
        match r {
            Ok(msg) => initiation_failure(*old(peer), *inputs) is None && is_initiation(
                keyst.pk_hash@,
                *old(peer),
                local_sid,
                ri_key@,
                *inputs,
                msg,
            ) && initiation_opens(keyst.pk_hash@, *old(peer), ri_key@, *inputs, msg) && remembers(
                final(peer).state,
                *old(peer),
                local_sid,
                *inputs,
                msg,
            ) && *final(peer) == (Peer {
                state: final(peer).state,
                k_send: (old(peer).k_send + 1) as u128,
                ..*old(peer)
            }),
            Err(e) => initiation_failure(*old(peer), *inputs) == Some(e) && *final(peer)
                == *old(peer),
        },
{
    if is_zero(&peer.ss) {
        return Err(HandshakeError::InvalidSharedSecret);
    }
    let ratchet = peer.ratchet.initiation_snapshot();
    let mut msg = NoiseInitiation::default();
    msg.f_type = TYPE_INITIATION;
    msg.f_mode = ratchet.mode;
    msg.f_epoch = ratchet.epoch;
    msg.f_sender = local_sid;
    let eph_sk = StaticSecret::from_bytes(&inputs.eph_sk);
    msg.f_ephemeral = eph_sk.public();
    msg.f_ephemeral_pq = inputs.eph_pk_pq;
    let mut ss_r: [u8; 32] = [0u8; 32];
    assert(ss_r@ =~= zeros(32));
    msg.f_ratchet_kid = ratchet.remote_kid;
    if ratchet.remote_pub.is_some() {
        match &inputs.ratchet {
            Some(encapsulation) => {
                msg.f_ratchet_ct = encapsulation.ct;
                ss_r = encapsulation.secret;
            },
            None => return Err(HandshakeError::RatchetStateMissing),
        }
    }
    let dh = shared_secret(&eph_sk, &peer.pk)?;
    msg.f_static_ct_pq = hide_ciphertext(&dh, &inputs.static_ct);
    let (ck0, hs0) = absorb_public_part(&peer.pk_hash, &msg);
    let (ck1, key, hs1) = absorb_static_part(&ck0, &hs0, &msg, &dh, &inputs.static_secret);
    let (ck2, key2) = absorb_identity_part(
        &ck1,
        &peer.ss,
        &peer.hash_static_pq_send,
        &peer.h_id_send,
        &peer.psk,
    );
    let ri_i_secret = ri_secret(ri_key, &ck2, &hs1);
    let ri_i = generate_ri_proof(
        inputs.ri_draw,
        &inputs.decoys,
        inputs.unix_secs,
        ri_key,
        &ri_i_secret,
    );
    let identity = pack_identity_plain(&keyst.pk_hash, &ri_i);
    msg.f_identity = seal_field(&key, &hs1, &identity);
    let hs2 = hash2(&hs1, &msg.f_identity);
    let counter: u128 = peer.k_send + 1;
    let counter_bytes: [u8; 16] = write_be(counter);
    msg.f_timestamp = seal_field(&key2, &hs2, &counter_bytes);
    let hs3 = hash2(&hs2, &msg.f_timestamp);
    msg.f_auth = auth_tag(&key2, &LABEL_AUTH_I, &hs3);
    let hs = hash2(&hs3, &msg.f_auth);
    let ck = mix_v23_material(
        &ck2,
        &ratchet.rk,
        &ratchet.k_ri,
        &ss_r,
        &peer.h_id_send,
        &hs,
        ratchet.mode,
        ratchet.epoch,
    );
    peer.k_send = counter;
    peer.state = State::InitiationSent {
        hs,
        ck,
        mode: ratchet.mode,
        epoch: ratchet.epoch,
        rk: ratchet.rk,
        k_ri: ratchet.k_ri,
        ss_r,
        eph_sk,
        eph_sk_pq: inputs.eph_sk_pq,
        eph_pk_pq: inputs.eph_pk_pq,
        local: session_index(&local_sid),
        local_sid,
    };
    Ok(msg)
}

// ---------------------------------------------------------------------------
// Taking in an initiation
// ---------------------------------------------------------------------------

/// An initiation before its static ciphertext is decapsulated.
pub struct FirstStage {
    pub ck: [u8; 32],
    pub hs: [u8; 32],
    /// Diffie-Hellman of the initiator's ephemeral and the device's static key.
    pub dh: [u8; 32],
    /// The ciphertext to be decapsulated with the device's static key.
    pub static_ct: [u8; 156],
}

pub open spec fn known_mode(mode: u32) -> bool {
    mode == MODE_BOOTSTRAP || mode == MODE_RATCHET || mode == MODE_RESYNC
}

/// Does a stage hold what the public part of an initiation gives?
pub open spec fn is_first_stage(stage: FirstStage, keyst: KeyState, msg: NoiseInitiation) -> bool {
    &&& (stage.ck@, stage.hs@) == public_part(keyst.pk_hash@, msg)
    &&& stage.dh@ == x25519(keyst.sk@, msg.f_ephemeral@)
    &&& stage.static_ct@ == chacha20(hiding_key(stage.dh@), ZERO_NONCE@, msg.f_static_ct_pq@)
}

/// Takes in the part of an initiation that anybody can read and uncovers the static
/// ciphertext.
pub fn consume_initiation_first_part(keyst: &KeyState, msg: &NoiseInitiation) -> (r: Result<
    FirstStage,
    HandshakeError,
>)
    ensures
        match r {
            Ok(stage) => known_mode(msg.f_mode) && x25519(keyst.sk@, msg.f_ephemeral@) != zeros(32)
                && is_first_stage(stage, *keyst, *msg),
            Err(e) => if !known_mode(msg.f_mode) {
                e == HandshakeError::InvalidMode
            } else {
                e == HandshakeError::InvalidSharedSecret && x25519(keyst.sk@, msg.f_ephemeral@)
                    == zeros(32)
            },
        },
{
    if !matches!(msg.f_mode, MODE_BOOTSTRAP | MODE_RATCHET | MODE_RESYNC) {
        return Err(HandshakeError::InvalidMode);
    }
    let (ck, hs) = absorb_public_part(&keyst.pk_hash, msg);
    let dh = shared_secret(&keyst.sk, &msg.f_ephemeral)?;
    let static_ct = hide_ciphertext(&dh, &msg.f_static_ct_pq);
    Ok(FirstStage { ck, hs, dh, static_ct })
}

/// Who an initiation comes from.
pub struct Initiator {
    pub pk_hash: [u8; 32],
    pub ri: RiProof,
    pub ck: [u8; 32],
    pub hs: [u8; 32],
}

/// The identity in an initiation, where it decrypts and names the right version.
pub open spec fn identity_verdict(
    ck: Seq<u8>,
    hs: Seq<u8>,
    dh: Seq<u8>,
    msg: NoiseInitiation,
    shk: Option<[u8; 32]>,
) -> Result<Seq<u8>, HandshakeError> {
    match shk {
        None => Err(HandshakeError::DecryptionFailure),
        Some(shk) => {
            let (_, key, hs1) = static_part(ck, hs, msg, dh, shk@);
            match chacha20poly1305_open(key, ZERO_NONCE@, hs1, msg.f_identity@) {
                None => Err(HandshakeError::DecryptionFailure),
                Some(plain) => if identity_version(plain) == PROTOCOL_VERSION_V2_3 {
                    Ok(plain)
                } else {
                    Err(HandshakeError::InvalidMessageFormat)
                },
            }
        },
    }
}

/// Is `who` the sender that the identity of an initiation names?
pub open spec fn names_initiator(
    stage: FirstStage,
    msg: NoiseInitiation,
    shk: Seq<u8>,
    plain: Seq<u8>,
    who: Initiator,
) -> bool {
    let (ck, _, hs) = static_part(stage.ck@, stage.hs@, msg, stage.dh@, shk);
    &&& who.pk_hash@ == identity_hash(plain)
    &&& who.ri == identity_proof(plain)
    &&& who.ck@ == ck
    &&& who.hs@ == hs
}

/// Decrypts the identity of an initiation, with the secret that the static ciphertext was
/// decapsulated to.
pub fn identify_initiator(stage: &FirstStage, msg: &NoiseInitiation, shk: Option<[u8; 32]>) -> (r:
    Result<Initiator, HandshakeError>)
    ensures
        match identity_verdict(stage.ck@, stage.hs@, stage.dh@, *msg, shk) {
            Ok(plain) => r matches Ok(who) && names_initiator(*stage, *msg, shk->0@, plain, who),
            Err(e) => r matches Err(f) && f == e,
        },
{
    let shk = match shk {
        Some(shk) => shk,
        None => return Err(HandshakeError::DecryptionFailure),
    };
    let (ck, key, hs) = absorb_static_part(&stage.ck, &stage.hs, msg, &stage.dh, &shk);
    let plain: [u8; 72] = match open_field(&key, &hs, &msg.f_identity) {
        Ok(plain) => plain,
        Err(e) => return Err(e),
    };
    match unpack_identity_plain(&plain) {
        Ok((pk_hash, ri)) => Ok(Initiator { pk_hash, ri, ck, hs }),
        Err(e) => Err(e),
    }
}

/// An initiation that was accepted, before its ratchet ciphertext is decapsulated.
pub struct SecondStage {
    pub sender: SessionId,
    pub eph_pk: [u8; 32],
    pub eph_pk_pq: [u8; 800],
    pub hs: [u8; 32],
    pub ck: [u8; 32],
    pub h_id: [u8; 32],
    pub ratchet: ResponseRatchet,
    pub ratchet_ct: [u8; 768],
    pub ri_key: [u8; 8],
}

/// The counter that an initiation carries, with the key and hash that protect it.
pub open spec fn received_counter<O>(peer: Peer<O>, who: Initiator, msg: NoiseInitiation) -> Option<
    Seq<u8>,
> {
    let (_, key) = identity_part(
        who.ck@,
        peer.ss@,
        peer.hash_static_pq_recv@,
        peer.h_id_recv@,
        peer.psk@,
    );
    chacha20poly1305_open(
        key,
        ZERO_NONCE@,
        blake2s(who.hs@ + msg.f_identity@),
        msg.f_timestamp@,
    )
}

/// Is the rendezvous proof of an initiation valid at this time?
pub open spec fn rendezvous_ok<O>(
    peer: Peer<O>,
    who: Initiator,
    ratchet: ResponseRatchet,
    manual: Option<[u8; 8]>,
    unix_secs: u64,
) -> bool {
    let ri_key = epoch_key(manual, ratchet.k_ri@);
    let (ck, _) = identity_part(
        who.ck@,
        peer.ss@,
        peer.hash_static_pq_recv@,
        peer.h_id_recv@,
        peer.psk@,
    );
    valid(ri_key, secret_spec(ri_key, ck, who.hs@), who.ri, unix_secs)
}

/// What becomes of an initiation whose sender is known: it is accepted, with the counter it
/// carries, or refused.
pub open spec fn acceptance_verdict<O>(
    peer: Peer<O>,
    who: Initiator,
    msg: NoiseInitiation,
    ratchet: ResponseRatchet,
    manual: Option<[u8; 8]>,
    now: u64,
    unix_secs: u64,
) -> Result<u128, HandshakeError> {
    let (_, key) = identity_part(
        who.ck@,
        peer.ss@,
        peer.hash_static_pq_recv@,
        peer.h_id_recv@,
        peer.psk@,
    );
    let hs2 = blake2s(who.hs@ + msg.f_identity@);
    let hs3 = blake2s(hs2 + msg.f_timestamp@);
    if peer.ss@ == zeros(32) {
        Err(HandshakeError::InvalidSharedSecret)
    } else if !rendezvous_ok(peer, who, ratchet, manual, unix_secs) {
        Err(HandshakeError::InvalidTi)
    } else {
        match received_counter(peer, who, msg) {
            None => Err(HandshakeError::DecryptionFailure),
            Some(plain) => if msg.f_auth@ != auth_spec(key, LABEL_AUTH_I@, hs3) {
                Err(HandshakeError::DecryptionFailure)
            } else {
                match peer.replay_verdict(be_value(plain) as u128, now) {
                    Ok(_) => Ok(be_value(plain) as u128),
                    Err(e) => Err(e),
                }
            },
        }
    }
}

/// Is the secret that a ratcheted handshake needs missing?
pub open spec fn ratchet_secret_missing(ratchet: ResponseRatchet) -> bool {
    ratchet.mode == MODE_RATCHET && ratchet.local_secret is None
}

/// Does a stage hold what an accepted initiation gives?
pub open spec fn is_second_stage<O>(
    stage: SecondStage,
    peer: Peer<O>,
    who: Initiator,
    msg: NoiseInitiation,
    ratchet: ResponseRatchet,
    manual: Option<[u8; 8]>,
) -> bool {
    let (ck, _) = identity_part(
        who.ck@,
        peer.ss@,
        peer.hash_static_pq_recv@,
        peer.h_id_recv@,
        peer.psk@,
    );
    let hs2 = blake2s(who.hs@ + msg.f_identity@);
    let hs3 = blake2s(hs2 + msg.f_timestamp@);
    &&& stage.sender == msg.f_sender
    &&& stage.eph_pk == msg.f_ephemeral
    &&& stage.eph_pk_pq == msg.f_ephemeral_pq
    &&& stage.hs@ == blake2s(hs3 + msg.f_auth@)
    &&& stage.ck@ == ck
    &&& stage.h_id == peer.h_id_recv
    &&& stage.ratchet == ratchet
    &&& stage.ratchet_ct == msg.f_ratchet_ct
    &&& stage.ri_key@ == epoch_key(manual, ratchet.k_ri@)
}

/// Accepts or refuses an initiation whose sender is known. An accepted one is counted and
/// ends a handshake that this side has started; the index of its session is returned.
pub fn consume_initiation_second_part<O>(
    peer: &mut Peer<O>,
    who: &Initiator,
    msg: &NoiseInitiation,
    ratchet: ResponseRatchet,
    manual_ri_key: Option<[u8; 8]>,
    now: u64,
    unix_secs: u64,
) -> (r: (Option<u32>, Result<SecondStage, HandshakeError>))
    ensures
        match acceptance_verdict(*old(peer), *who, *msg, ratchet, manual_ri_key, now, unix_secs) {
            Err(e) => r.0 is None && r.1 == Err::<SecondStage, HandshakeError>(e) && *final(peer)
                == *old(peer),
            Ok(k) => r.0 == old(peer).state.local_id() && *final(peer) == old(
                peer,
            ).after_initiation(k, now) && if ratchet_secret_missing(ratchet) {
                r.1 == Err::<SecondStage, HandshakeError>(HandshakeError::RatchetStateMissing)
            } else {
                r.1 matches Ok(stage) && is_second_stage(
                    stage,
                    *old(peer),
                    *who,
                    *msg,
                    ratchet,
                    manual_ri_key,
                )
            },
        },
{
    let ri_key = ri_key_for_epoch(manual_ri_key, &ratchet.k_ri);
    if is_zero(&peer.ss) {
        return (None, Err(HandshakeError::InvalidSharedSecret));
    }
    let (ck, key) = absorb_identity_part(
        &who.ck,
        &peer.ss,
        &peer.hash_static_pq_recv,
        &peer.h_id_recv,
        &peer.psk,
    );
    let ri_i_secret = ri_secret(&ri_key, &ck, &who.hs);
    match verify_ri_proof(&ri_key, &ri_i_secret, &who.ri, unix_secs, HandshakeError::InvalidTi) {
        Ok(_) => {},
        Err(e) => return (None, Err(e)),
    }
    let hs2 = hash2(&who.hs, &msg.f_identity);
    let k_received: [u8; 16] = match open_field(&key, &hs2, &msg.f_timestamp) {
        Ok(plain) => plain,
        Err(e) => return (None, Err(e)),
    };
    let hs3 = hash2(&hs2, &msg.f_timestamp);
    let expected_auth = auth_tag(&key, &LABEL_AUTH_I, &hs3);
    if !ct_eq(&expected_auth, &msg.f_auth) {
        return (None, Err(HandshakeError::DecryptionFailure));
    }
    let local = match peer.check_replay_flood(read_be(&k_received), now) {
        Ok(local) => local,
        Err(e) => return (None, Err(e)),
    };
    let hs = hash2(&hs3, &msg.f_auth);
    if ratchet.mode == MODE_RATCHET && ratchet.local_secret.is_none() {
        return (local, Err(HandshakeError::RatchetStateMissing));
    }
    (
        local,
        Ok(
            SecondStage {
                sender: msg.f_sender,
                eph_pk: msg.f_ephemeral,
                eph_pk_pq: msg.f_ephemeral_pq,
                hs,
                ck,
                h_id: peer.h_id_recv,
                ratchet,
                ratchet_ct: msg.f_ratchet_ct,
                ri_key,
            },
        ),
    )
}

/// What a response is made from.
pub struct TemporaryState {
    pub sender: SessionId,
    pub eph_pk: [u8; 32],
    pub eph_pk_pq: [u8; 800],
    pub hs: [u8; 32],
    pub ck: [u8; 32],
    pub ratchet: ResponseRatchet,
    pub ss_r: [u8; 32],
    pub ri_key: [u8; 8],
}

/// The secret of the ratchet key on the responder's side, or zeros where none is used.
pub open spec fn received_ratchet_secret(ratchet: ResponseRatchet, shared: Option<[u8; 32]>) -> Seq<
    u8,
> {
    if ratchet.mode == MODE_RATCHET {
        shared->0@
    } else {
        zeros(32)
    }
}

/// Does the state hold what an accepted initiation and its ratchet secret give?
pub open spec fn is_temporary_state(
    state: TemporaryState,
    stage: SecondStage,
    shared: Option<[u8; 32]>,
) -> bool {
    &&& state.sender == stage.sender
    &&& state.eph_pk == stage.eph_pk
    &&& state.eph_pk_pq == stage.eph_pk_pq
    &&& state.hs == stage.hs
    &&& state.ratchet == stage.ratchet
    &&& state.ri_key == stage.ri_key
    &&& state.ss_r@ == received_ratchet_secret(stage.ratchet, shared)
    &&& state.ck@ == crate::crypto::kdf1_spec(
        stage.ck@,
        ratchet_material(
            stage.ratchet.rk@,
            stage.ratchet.k_ri@,
            received_ratchet_secret(stage.ratchet, shared),
            stage.h_id@,
            stage.hs@,
            stage.ratchet.mode,
            stage.ratchet.epoch,
        ),
    )
}

/// Ties the ratchet in, with the secret that the ratchet ciphertext was decapsulated to.
/// Only a ratcheted handshake has one.
pub fn finish_initiation(stage: &SecondStage, shared: Option<[u8; 32]>) -> (r: Result<
    TemporaryState,
    HandshakeError,
>)
    ensures
        match r {
            Ok(state) => !(stage.ratchet.mode == MODE_RATCHET && shared is None)
                && is_temporary_state(state, *stage, shared),
            Err(e) => stage.ratchet.mode == MODE_RATCHET && shared is None && e
                == HandshakeError::DecryptionFailure,
        },
{
    let mut ss_r: [u8; 32] = [0u8; 32];
    assert(ss_r@ =~= zeros(32));
    if stage.ratchet.mode == MODE_RATCHET {
        match shared {
            Some(secret) => ss_r = secret,
            None => return Err(HandshakeError::DecryptionFailure),
        }
    }
    let ck = mix_v23_material(
        &stage.ck,
        &stage.ratchet.rk,
        &stage.ratchet.k_ri,
        &ss_r,
        &stage.h_id,
        &stage.hs,
        stage.ratchet.mode,
        stage.ratchet.epoch,
    );
    Ok(
        TemporaryState {
            sender: stage.sender,
            eph_pk: stage.eph_pk,
            eph_pk_pq: stage.eph_pk_pq,
            hs: stage.hs,
            ck,
            ratchet: stage.ratchet,
            ss_r,
            ri_key: stage.ri_key,
        },
    )
}

// ---------------------------------------------------------------------------
// Making a response
// ---------------------------------------------------------------------------

/// What a response is made with: random numbers, the encapsulations for the initiator's
/// keys, the ratchet key of the next epoch, and the time in seconds.
pub struct ResponseInputs {
    pub eph_sk: [u8; 32],
    pub eph_ct: [u8; 768],
    pub shk_master: [u8; 32],
    pub static_ct: [u8; 156],
    pub shk_static: [u8; 32],
    pub next_pub: [u8; 800],
    pub next_secret: [u8; 1632],
    pub ri_draw: u32,
    pub decoys: Decoys,
    pub unix_secs: u64,
}

impl ResponseInputs {
    pub open spec fn wf(&self) -> bool {
        self.decoys.wf() && self.decoys.complete()
    }

    /// The ephemeral scalar.
    pub open spec fn scalar(&self) -> Seq<u8> {
        clamped(self.eph_sk@)
    }
}

/// Is no response possible, because a Diffie-Hellman secret is zero?
pub open spec fn response_fails<O>(peer: Peer<O>, state: TemporaryState, inputs: ResponseInputs) -> bool {
    x25519(inputs.scalar(), peer.pk@) == zeros(32) || x25519(inputs.scalar(), state.eph_pk@)
        == zeros(32)
}

/// The secrets of a response on the responder's side.
pub open spec fn responder_secrets<O>(
    peer: Peer<O>,
    state: TemporaryState,
    inputs: ResponseInputs,
) -> ResponseSecrets {
    ResponseSecrets {
        dh_ee: x25519(inputs.scalar(), state.eph_pk@),
        dh_se: x25519(inputs.scalar(), peer.pk@),
        shk_master: inputs.shk_master@,
        shk_static: inputs.shk_static@,
        psk: peer.psk@,
    }
}

/// The keys of a response on the responder's side.
pub open spec fn responder_keys<O>(
    peer: Peer<O>,
    state: TemporaryState,
    inputs: ResponseInputs,
    msg: NoiseResponse,
) -> ResponseKeys {
    response_keys(
        state.ck@,
        state.hs@,
        msg,
        state.eph_pk_pq@,
        responder_secrets(peer, state, inputs),
    )
}

/// The transcript hash after the confirmation, and after the whole response.
pub open spec fn response_transcript(keys: ResponseKeys, msg: NoiseResponse) -> (Seq<u8>, Seq<u8>) {
    let hs1 = blake2s(keys.hs + msg.f_confirm@);
    (hs1, blake2s(hs1 + msg.f_auth@))
}

/// What a response confirms.
pub open spec fn confirmation(
    keys: ResponseKeys,
    state: TemporaryState,
    inputs: ResponseInputs,
) -> Seq<u8> {
    let next_epoch = (state.ratchet.epoch + 1) as u64;
    confirm_plain(
        next_epoch,
        generated(
            inputs.ri_draw,
            inputs.decoys@,
            inputs.unix_secs,
            state.ri_key@,
            secret_spec(state.ri_key@, keys.ck, keys.h7),
        ),
        inputs.next_pub@,
        kid_spec(state.ratchet.rk@, next_epoch, inputs.next_pub@),
    )
}

/// Is `msg` the response to an initiation?
pub open spec fn is_response<O>(
    peer: Peer<O>,
    local_sid: SessionId,
    state: TemporaryState,
    inputs: ResponseInputs,
    msg: NoiseResponse,
) -> bool {
    let keys = responder_keys(peer, state, inputs, msg);
    &&& msg.f_type == TYPE_RESPONSE
    &&& msg.f_mode == state.ratchet.mode
    &&& msg.f_epoch == state.ratchet.epoch
    &&& msg.f_sender == local_sid
    &&& msg.f_receiver == state.sender
    &&& msg.f_ephemeral@ == x25519_public(inputs.scalar())
    &&& msg.f_ephemeral_ct_pq == inputs.eph_ct
    &&& msg.f_hash_ephemeral_pq@ == blake2s(inputs.eph_ct@)
    &&& msg.f_static_ct_pq@ == chacha20(
        hiding_key(x25519(inputs.scalar(), peer.pk@)),
        ZERO_NONCE@,
        inputs.static_ct@,
    )
    &&& msg.f_confirm@ == chacha20poly1305_seal(
        keys.key,
        ZERO_NONCE@,
        keys.hs,
        confirmation(keys, state, inputs),
    )
    &&& msg.f_auth@ == auth_spec(keys.key, LABEL_AUTH_R@, response_transcript(keys, msg).0)
}

/// What the other side can do with a response: uncover the static ciphertext, decrypt the
/// confirmation, and arrive at the same Diffie-Hellman secrets.
pub open spec fn response_opens<O>(
    peer: Peer<O>,
    state: TemporaryState,
    inputs: ResponseInputs,
    msg: NoiseResponse,
) -> bool {
    let keys = responder_keys(peer, state, inputs, msg);
    let dh_se = x25519(inputs.scalar(), peer.pk@);
    &&& dh_agrees(dh_se, inputs.scalar(), peer.pk@)
    &&& dh_agrees(x25519(inputs.scalar(), state.eph_pk@), inputs.scalar(), state.eph_pk@)
    &&& chacha20(hiding_key(dh_se), ZERO_NONCE@, msg.f_static_ct_pq@) == inputs.static_ct@
    &&& chacha20poly1305_open(keys.key, ZERO_NONCE@, keys.hs, msg.f_confirm@) == Some(
        confirmation(keys, state, inputs),
    )
}

/// The root keys that a response leads to.
pub open spec fn responder_roots<O>(
    peer: Peer<O>,
    state: TemporaryState,
    inputs: ResponseInputs,
    msg: NoiseResponse,
) -> (Seq<u8>, Seq<u8>) {
    let keys = responder_keys(peer, state, inputs, msg);
    let hs = response_transcript(keys, msg).1;
    let next_epoch = (state.ratchet.epoch + 1) as u64;
    next_roots(
        state.ratchet.rk@,
        state.ratchet.k_ri@,
        output_key(keys.ck, hs),
        state.ss_r@,
        keys.shk2,
        hs,
        kid_spec(state.ratchet.rk@, next_epoch, inputs.next_pub@),
        next_epoch,
    )
}

/// Does `offer` hold the ratchet of the next epoch?
pub open spec fn is_offer<O>(
    offer: PendingResponderRatchet,
    peer: Peer<O>,
    state: TemporaryState,
    inputs: ResponseInputs,
    msg: NoiseResponse,
) -> bool {
    &&& offer.epoch == state.ratchet.epoch + 1
    &&& (offer.rk@, offer.k_ri@) == responder_roots(peer, state, inputs, msg)
    &&& offer.local_kid@ == kid_spec(state.ratchet.rk@, offer.epoch, inputs.next_pub@)
    &&& offer.local_secret == inputs.next_secret
}

/// Are these the responder's transport keys?
pub open spec fn is_responder_pair(
    pair: KeyPair,
    ck: Seq<u8>,
    local_sid: SessionId,
    sender: SessionId,
    now: u64,
) -> bool {
    &&& pair.birth == now
    &&& !pair.initiator
    &&& (pair.recv.key@, pair.send.key@) == transport_keys(ck)
    &&& pair.send.id == session_index_spec(sender@)
    &&& pair.recv.id == session_index_spec(local_sid@)
}

/// Makes the response to an initiation. The ratchet of the peer moves on.
pub fn create_response<O>(
    peer: &mut Peer<O>,
    local_sid: SessionId,
    state: &TemporaryState,
    inputs: &ResponseInputs,
    now: u64,
) -> (r: Result<(NoiseResponse, KeyPair), HandshakeError>)
    requires
        inputs.wf(),
        state.ratchet.epoch < u64::MAX,
    ensures
        match r {
            Ok((msg, pair)) => !response_fails(*old(peer), *state, *inputs) && is_response(
                *old(peer),
                local_sid,
                *state,
                *inputs,
                msg,
            ) && response_opens(*old(peer), *state, *inputs, msg) && is_responder_pair(
                pair,
                responder_keys(*old(peer), *state, *inputs, msg).ck,
                local_sid,
                state.sender,
                now,
            ) && (pair.recv.key@, pair.send.key@) == kdf2_spec(
                responder_keys(*old(peer), *state, *inputs, msg).ck,
                LABEL_TRANSPORT@,
            ) && final(peer).ratchet.pending_local is Some && is_offer(
                final(peer).ratchet.pending_local->0,
                *old(peer),
                *state,
                *inputs,
                msg,
            ) && *final(peer) == (Peer {
                ratchet: old(peer).ratchet.staged(
                    state.ratchet,
                    final(peer).ratchet.pending_local->0,
                ),
                ..*old(peer)
            }),
            Err(e) => response_fails(*old(peer), *state, *inputs) && e
                == HandshakeError::InvalidSharedSecret && *final(peer) == *old(peer),
        },
{
    let mut msg = NoiseResponse::default();
    msg.f_type = TYPE_RESPONSE;
    msg.f_mode = state.ratchet.mode;
    msg.f_epoch = state.ratchet.epoch;
    msg.f_sender = local_sid;
    msg.f_receiver = state.sender;
    let eph_sk = StaticSecret::from_bytes(&inputs.eph_sk);
    msg.f_ephemeral = eph_sk.public();
    msg.f_ephemeral_ct_pq = inputs.eph_ct;
    msg.f_hash_ephemeral_pq = hash1(&msg.f_ephemeral_ct_pq);
    let dh_se = shared_secret(&eph_sk, &peer.pk)?;
    msg.f_static_ct_pq = hide_ciphertext(&dh_se, &inputs.static_ct);
    let dh_ee = shared_secret(&eph_sk, &state.eph_pk)?;
    let keys = absorb_response(
        &state.ck,
        &state.hs,
        &msg,
        &state.eph_pk_pq,
        &dh_ee,
        &dh_se,
        &inputs.shk_master,
        &inputs.shk_static,
        &peer.psk,
    );
    let next_epoch: u64 = state.ratchet.epoch + 1;
    let next_kid = derive_kid(&state.ratchet.rk, next_epoch, &inputs.next_pub);
    let ri_r_secret = ri_secret(&state.ri_key, &keys.ck, &keys.h7);
    let ri_r = generate_ri_proof(
        inputs.ri_draw,
        &inputs.decoys,
        inputs.unix_secs,
        &state.ri_key,
        &ri_r_secret,
    );
    let plain = pack_confirm_plain(next_epoch, &ri_r, &inputs.next_pub, &next_kid);
    msg.f_confirm = seal_field(&keys.key, &keys.hs, &plain);
    let hs1 = hash2(&keys.hs, &msg.f_confirm);
    msg.f_auth = auth_tag(&keys.key, &LABEL_AUTH_R, &hs1);
    let hs = hash2(&hs1, &msg.f_auth);
    let k_out = derive_output_key(&keys.ck, &hs);
    let (next_rk, next_k_ri) = derive_next_roots(
        &state.ratchet.rk,
        &state.ratchet.k_ri,
        &k_out,
        &state.ss_r,
        &keys.shk2,
        &hs,
        &next_kid,
        next_epoch,
    );
    assert(responder_keys(*old(peer), *state, *inputs, msg) == keys@);
    peer.ratchet.stage_responder(
        &state.ratchet,
        next_epoch,
        inputs.next_secret,
        next_kid,
        next_rk,
        next_k_ri,
    );
    let (key_recv, key_send) = derive_transport_keys(&keys.ck);
    let pair = KeyPair {
        birth: now,
        initiator: false,
        send: Key { id: session_index(&state.sender), key: key_send },
        recv: Key { id: session_index(&local_sid), key: key_recv },
    };
    Ok((msg, pair))
}

// ---------------------------------------------------------------------------
// Taking in a response
// ---------------------------------------------------------------------------

/// Does the hash in a response belong to the ciphertext in it?
pub open spec fn response_hash_ok(msg: NoiseResponse) -> bool {
    msg.f_hash_ephemeral_pq@ == blake2s(msg.f_ephemeral_ct_pq@)
}

/// Accepts a response whose hash belongs to its ciphertext.
pub fn verify_response_hash(msg: &NoiseResponse) -> (r: Result<(), HandshakeError>)
    ensures
        r == (if response_hash_ok(*msg) {
            Ok::<(), HandshakeError>(())
        } else {
            Err(HandshakeError::DecryptionFailure)
        }),
{
    let expected = hash1(&msg.f_ephemeral_ct_pq);
    if !ct_eq(&msg.f_hash_ephemeral_pq, &expected) {
        return Err(HandshakeError::DecryptionFailure);
    }
    Ok(())
}

/// A response before its ciphertexts are decapsulated, with what the peer remembers of the
/// initiation.
pub struct ResponseStage {
    pub local: u32,
    pub local_sid: SessionId,
    pub epoch: u64,
    pub eph_sk: StaticSecret,
    /// The key to decapsulate the ephemeral ciphertext with.
    pub eph_sk_pq: [u8; 1632],
    pub eph_pk_pq: [u8; 800],
    pub rk: [u8; 32],
    pub k_ri: [u8; 32],
    pub ss_r: [u8; 32],
    pub hs: [u8; 32],
    pub ck: [u8; 32],
    /// Diffie-Hellman of the responder's ephemeral and the device's static key, unless it
    /// is zero, and the ciphertext to be decapsulated with the device's static key.
    pub hidden: Option<([u8; 32], [u8; 156])>,
}

/// Why a response does not belong to what the peer waits for.
pub open spec fn response_mismatch(state: State, msg: NoiseResponse) -> Option<HandshakeError> {
    match state {
        State::Reset => Some(HandshakeError::InvalidState),
        State::InitiationSent { local_sid, mode, epoch, .. } => if local_sid@ != msg.f_receiver@ {
            Some(HandshakeError::UnknownReceiverId)
        } else if msg.f_mode != mode || msg.f_epoch != epoch {
            Some(HandshakeError::InvalidEpoch)
        } else {
            None
        },
    }
}

/// Does a stage hold what the peer remembers and what the response hides?
pub open spec fn is_response_stage(
    stage: ResponseStage,
    keyst: KeyState,
    state: State,
    msg: NoiseResponse,
) -> bool {
    let dh = x25519(keyst.sk@, msg.f_ephemeral@);
    &&& state == (State::InitiationSent {
        local: stage.local,
        local_sid: stage.local_sid,
        mode: msg.f_mode,
        epoch: stage.epoch,
        eph_sk: stage.eph_sk,
        eph_sk_pq: stage.eph_sk_pq,
        eph_pk_pq: stage.eph_pk_pq,
        rk: stage.rk,
        k_ri: stage.k_ri,
        ss_r: stage.ss_r,
        hs: stage.hs,
        ck: stage.ck,
    })
    &&& stage.epoch == msg.f_epoch
    &&& stage.local_sid == msg.f_receiver
    &&& (stage.hidden is None <==> dh == zeros(32))
    &&& stage.hidden matches Some((d, ct)) ==> d@ == dh && ct@ == chacha20(
        hiding_key(dh),
        ZERO_NONCE@,
        msg.f_static_ct_pq@,
    )
}

/// Takes up what the peer remembers of the initiation, if the response belongs to it, and
/// uncovers the static ciphertext.
pub fn consume_response_first_part<O>(keyst: &KeyState, msg: &NoiseResponse, peer: &Peer<O>) -> (r:
    Result<ResponseStage, HandshakeError>)
    ensures
        match r {
            Ok(stage) => response_mismatch(peer.state, *msg) is None && is_response_stage(
                stage,
                *keyst,
                peer.state,
                *msg,
            ),
            Err(e) => response_mismatch(peer.state, *msg) == Some(e),
        },
{
    match &peer.state {
        State::Reset => Err(HandshakeError::InvalidState),
        State::InitiationSent {
            local,
            local_sid,
            mode,
            epoch,
            eph_sk,
            eph_sk_pq,
            eph_pk_pq,
            rk,
            k_ri,
            ss_r,
            hs,
            ck,
        } => {
            if !ct_eq(local_sid, &msg.f_receiver) {
                return Err(HandshakeError::UnknownReceiverId);
            }
            if msg.f_mode != *mode || msg.f_epoch != *epoch {
                return Err(HandshakeError::InvalidEpoch);
            }
            assert(*local_sid =~= msg.f_receiver);
            let hidden = match shared_secret(&keyst.sk, &msg.f_ephemeral) {
                Ok(dh) => {
                    let ct = hide_ciphertext(&dh, &msg.f_static_ct_pq);
                    Some((dh, ct))
                },
                Err(_) => None,
            };
            Ok(
                ResponseStage {
                    local: *local,
                    local_sid: *local_sid,
                    epoch: *epoch,
                    eph_sk: eph_sk.duplicate(),
                    eph_sk_pq: *eph_sk_pq,
                    eph_pk_pq: *eph_pk_pq,
                    rk: *rk,
                    k_ri: *k_ri,
                    ss_r: *ss_r,
                    hs: *hs,
                    ck: *ck,
                    hidden,
                },
            )
        },
    }
}

/// The secrets of a response on the initiator's side.
pub open spec fn initiator_secrets<O>(
    peer: Peer<O>,
    stage: ResponseStage,
    msg: NoiseResponse,
    shk_master: Seq<u8>,
    shk_static: Seq<u8>,
) -> ResponseSecrets {
    ResponseSecrets {
        dh_ee: x25519(stage.eph_sk@, msg.f_ephemeral@),
        dh_se: (stage.hidden->0).0@,
        shk_master,
        shk_static,
        psk: peer.psk@,
    }
}

/// The keys of a response on the initiator's side.
pub open spec fn initiator_keys<O>(
    peer: Peer<O>,
    stage: ResponseStage,
    msg: NoiseResponse,
    shk_master: Seq<u8>,
    shk_static: Seq<u8>,
) -> ResponseKeys {
    response_keys(
        stage.ck@,
        stage.hs@,
        msg,
        stage.eph_pk_pq@,
        initiator_secrets(peer, stage, msg, shk_master, shk_static),
    )
}

/// Does the peer still wait for the response to the same initiation?
pub open spec fn still_waits(state: State, stage: ResponseStage) -> bool {
    state matches State::InitiationSent { eph_sk, eph_sk_pq, .. } && eph_sk@ == stage.eph_sk@
        && eph_sk_pq@ == stage.eph_sk_pq@
}

/// What becomes of a response: it is accepted, with what it confirms, or refused.
pub open spec fn response_verdict<O>(
    peer: Peer<O>,
    stage: ResponseStage,
    msg: NoiseResponse,
    ri_key: Seq<u8>,
    shk_master: Option<[u8; 32]>,
    shk_static: Option<[u8; 32]>,
    unix_secs: u64,
) -> Result<Seq<u8>, HandshakeError> {
    if shk_master is None {
        Err(HandshakeError::DecryptionFailure)
    } else if stage.hidden is None {
        Err(HandshakeError::InvalidSharedSecret)
    } else if shk_static is None {
        Err(HandshakeError::DecryptionFailure)
    } else if x25519(stage.eph_sk@, msg.f_ephemeral@) == zeros(32) {
        Err(HandshakeError::InvalidSharedSecret)
    } else {
        let keys = initiator_keys(peer, stage, msg, shk_master->0@, shk_static->0@);
        match chacha20poly1305_open(keys.key, ZERO_NONCE@, keys.hs, msg.f_confirm@) {
            None => Err(HandshakeError::DecryptionFailure),
            Some(plain) => if confirm_version(plain) != PROTOCOL_VERSION_V2_3 || confirm_epoch(plain)
                != stage.epoch + 1 {
                Err(HandshakeError::InvalidConfirm)
            } else if msg.f_auth@ != auth_spec(
                keys.key,
                LABEL_AUTH_R@,
                response_transcript(keys, msg).0,
            ) {
                Err(HandshakeError::DecryptionFailure)
            } else if !valid(
                ri_key,
                secret_spec(ri_key, keys.ck, keys.h7),
                confirm_proof(plain),
                unix_secs,
            ) {
                Err(HandshakeError::InvalidTr)
            } else if !still_waits(peer.state, stage) {
                Err(HandshakeError::InvalidState)
            } else {
                Ok(plain)
            },
        }
    }
}

/// Are these the initiator's transport keys?
pub open spec fn is_initiator_pair(
    pair: KeyPair,
    ck: Seq<u8>,
    local: u32,
    sender: SessionId,
    now: u64,
) -> bool {
    &&& pair.birth == now
    &&& pair.initiator
    &&& (pair.send.key@, pair.recv.key@) == transport_keys(ck)
    &&& pair.send.id == session_index_spec(sender@)
    &&& pair.recv.id == local
}

/// The root keys that an accepted response leads to.
pub open spec fn initiator_roots(
    stage: ResponseStage,
    keys: ResponseKeys,
    msg: NoiseResponse,
    plain: Seq<u8>,
) -> (Seq<u8>, Seq<u8>) {
    let hs = response_transcript(keys, msg).1;
    next_roots(
        stage.rk@,
        stage.k_ri@,
        output_key(keys.ck, hs),
        stage.ss_r@,
        keys.shk2,
        hs,
        confirm_kid(plain),
        confirm_epoch(plain) as u64,
    )
}

/// Has the ratchet moved on to what an accepted response confirms?
pub open spec fn is_committed(
    before: RatchetState,
    after: RatchetState,
    stage: ResponseStage,
    keys: ResponseKeys,
    msg: NoiseResponse,
    plain: Seq<u8>,
) -> bool {
    &&& after.remote_pub is Some
    &&& after.remote_kid is Some
    &&& after == before.committed(
        confirm_epoch(plain) as u64,
        after.remote_pub->0,
        after.remote_kid->0,
        after.rk,
        after.k_ri,
    )
    &&& after.remote_pub->0@ == confirm_pub(plain)
    &&& after.remote_kid->0@ == confirm_kid(plain)
    &&& (after.rk@, after.k_ri@) == initiator_roots(stage, keys, msg, plain)
}

/// Accepts or refuses a response, with the secrets that its ciphertexts were decapsulated
/// to. An accepted one ends the handshake, and the ratchet of the peer moves on.
pub fn consume_response<O>(
    peer: &mut Peer<O>,
    stage: &ResponseStage,
    msg: &NoiseResponse,
    ri_key: &[u8; 8],
    shk_master: Option<[u8; 32]>,
    shk_static: Option<[u8; 32]>,
    now: u64,
    unix_secs: u64,
) -> (r: Result<KeyPair, HandshakeError>)
    requires
        stage.epoch < u64::MAX,
    ensures
        match response_verdict(
            *old(peer),
            *stage,
            *msg,
            ri_key@,
            shk_master,
            shk_static,
            unix_secs,
        ) {
            Ok(plain) => {
                let keys = initiator_keys(
                    *old(peer),
                    *stage,
                    *msg,
                    shk_master->0@,
                    shk_static->0@,
                );
                &&& r matches Ok(pair)
                &&& is_initiator_pair(pair, keys.ck, stage.local, msg.f_sender, now)
                &&& (pair.send.key@, pair.recv.key@) == kdf2_spec(keys.ck, LABEL_TRANSPORT@)
                &&& is_committed(
                    old(peer).ratchet,
                    final(peer).ratchet,
                    *stage,
                    keys,
                    *msg,
                    plain,
                )
                &&& *final(peer) == (Peer {
                    state: State::Reset,
                    ratchet: final(peer).ratchet,
                    ..*old(peer)
                })
            },
            Err(e) => r == Err::<KeyPair, HandshakeError>(e) && *final(peer) == *old(peer),
        },
{
    let shk_master = match shk_master {
        Some(secret) => secret,
        None => return Err(HandshakeError::DecryptionFailure),
    };
    let dh_se = match stage.hidden {
        Some((dh, _)) => dh,
        None => return Err(HandshakeError::InvalidSharedSecret),
    };
    let shk_static = match shk_static {
        Some(secret) => secret,
        None => return Err(HandshakeError::DecryptionFailure),
    };
    let dh_ee = match shared_secret(&stage.eph_sk, &msg.f_ephemeral) {
        Ok(dh) => dh,
        Err(e) => return Err(e),
    };
    let keys = absorb_response(
        &stage.ck,
        &stage.hs,
        msg,
        &stage.eph_pk_pq,
        &dh_ee,
        &dh_se,
        &shk_master,
        &shk_static,
        &peer.psk,
    );
    let plain: [u8; 864] = match open_field(&keys.key, &keys.hs, &msg.f_confirm) {
        Ok(plain) => plain,
        Err(e) => return Err(e),
    };
    let confirm = match unpack_confirm_plain(&plain) {
        Ok(confirm) => confirm,
        Err(e) => return Err(e),
    };
    if confirm.next_epoch != stage.epoch + 1 {
        return Err(HandshakeError::InvalidConfirm);
    }
    let hs1 = hash2(&keys.hs, &msg.f_confirm);
    let expected_auth = auth_tag(&keys.key, &LABEL_AUTH_R, &hs1);
    if !ct_eq(&expected_auth, &msg.f_auth) {
        return Err(HandshakeError::DecryptionFailure);
    }
    let hs = hash2(&hs1, &msg.f_auth);
    let ri_r_secret = ri_secret(ri_key, &keys.ck, &keys.h7);
    match verify_ri_proof(ri_key, &ri_r_secret, &confirm.ri, unix_secs, HandshakeError::InvalidTr) {
        Ok(_) => {},
        Err(e) => return Err(e),
    }
    let k_out = derive_output_key(&keys.ck, &hs);
    let (next_rk, next_k_ri) = derive_next_roots(
        &stage.rk,
        &stage.k_ri,
        &k_out,
        &stage.ss_r,
        &keys.shk2,
        &hs,
        &confirm.next_kid,
        confirm.next_epoch,
    );
    let (key_send, key_recv) = derive_transport_keys(&keys.ck);
    let update = match &peer.state {
        State::InitiationSent { eph_sk, eph_sk_pq, .. } => {
            let same_dh = ct_eq(&eph_sk.to_bytes(), &stage.eph_sk.to_bytes());
            let same_kem = ct_eq(eph_sk_pq, &stage.eph_sk_pq);
            same_dh && same_kem
        },
        State::Reset => false,
    };
    if update {
        let _ = peer.state.reset();
        peer.ratchet.commit_initiator(
            confirm.next_epoch,
            confirm.next_pub,
            confirm.next_kid,
            next_rk,
            next_k_ri,
        );
        Ok(
            KeyPair {
                birth: now,
                initiator: true,
                send: Key { id: session_index(&msg.f_sender), key: key_send },
                recv: Key { id: stage.local, key: key_recv },
            },
        )
    } else {
        Err(HandshakeError::InvalidState)
    }
}

} // verus!
