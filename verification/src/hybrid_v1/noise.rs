//! The two messages of a handshake: how they are made and how they are taken in.
//!
//! The key encapsulations are not performed here. Where one is needed, a function ends
//! with what has to be decapsulated, and the next one takes up the result; what has to be
//! encapsulated for a message is handed in when the message is made.

use crate::bytes::{be_bytes, be_value, join, join3, read_be, write_be, zeros};
use crate::crypto::{
    blake2s, chacha20, chacha20poly1305_open, chacha20poly1305_seal, clamped, ct_eq, dh_agrees,
    hash2, hash3, kdf1, kdf1_spec, kdf2, kdf2_spec, kdf3, kdf3_spec, x25519, x25519_public,
    StaticSecret, ZERO_NONCE,
};
use crate::exchange::{
    hide_ciphertext, hiding_key, is_zero, open_field, seal_field, shared_secret, INITIAL_CK,
    INITIAL_HS,
};
use crate::hybrid_v1::keys::KeyState;
use crate::hybrid_v1::messages::{NoiseInitiation, NoiseResponse, TYPE_INITIATION, TYPE_RESPONSE};
use crate::hybrid_v1::peer::{Peer, State};
use crate::types::{HandshakeError, Key, KeyPair};
use vstd::prelude::*;

verus! {

// ---------------------------------------------------------------------------
// The key schedule
// ---------------------------------------------------------------------------

/// Chaining key and transcript hash after the responder's identity and the ephemeral keys.
pub open spec fn public_part(pk_hash_r: Seq<u8>, msg: NoiseInitiation) -> (Seq<u8>, Seq<u8>) {
    (
        kdf1_spec(INITIAL_CK@, msg.f_ephemeral@ + msg.f_ephemeral_pq@),
        blake2s(blake2s(INITIAL_HS@ + pk_hash_r) + msg.f_ephemeral@ + msg.f_ephemeral_pq@),
    )
}

/// Chaining key and transcript hash after the responder's identity and the ephemeral keys.
fn absorb_public_part(pk_hash_r: &[u8; 32], msg: &NoiseInitiation) -> (r: ([u8; 32], [u8; 32]))
    ensures
        (r.0@, r.1@) == public_part(pk_hash_r@, *msg),
{
    let hs = hash2(&INITIAL_HS, pk_hash_r);
    let ck = kdf1(&INITIAL_CK, &join(&msg.f_ephemeral, &msg.f_ephemeral_pq));
    (ck, hash3(&hs, &msg.f_ephemeral, &msg.f_ephemeral_pq))
}

/// Chaining key and key of the identity after the static encapsulation.
pub open spec fn static_part(ck: Seq<u8>, dh: Seq<u8>, shk: Seq<u8>) -> (Seq<u8>, Seq<u8>) {
    kdf2_spec(ck, dh + shk)
}

/// Chaining key and key of the counter after the long-term secrets of the two peers.
pub open spec fn identity_part(
    ck: Seq<u8>,
    ss: Seq<u8>,
    hash_static_pq: Seq<u8>,
    psk: Seq<u8>,
) -> (Seq<u8>, Seq<u8>) {
    kdf2_spec(ck, ss + hash_static_pq + psk)
}

/// What a response adds to the shared secrets of a handshake.
pub ghost struct ResponseSecrets {
    /// Diffie-Hellman of the two ephemeral keys.
    pub dh_ee: Seq<u8>,
    /// Secret of the ephemeral encapsulation.
    pub shk_ee: Seq<u8>,
    /// Diffie-Hellman of the responder's ephemeral and the initiator's static key.
    pub dh_se: Seq<u8>,
    /// Secret of the static encapsulation.
    pub shk_se: Seq<u8>,
    pub psk: Seq<u8>,
}

/// The keys that a response is protected with.
pub ghost struct ResponseKeys {
    /// The final chaining key.
    pub ck: Seq<u8>,
    /// The key of the confirmation.
    pub key: Seq<u8>,
    /// The transcript hash that the confirmation is bound to.
    pub hs: Seq<u8>,
}

/// The keys of a response, from the state after the initiation.
pub open spec fn response_keys(
    ck: Seq<u8>,
    hs: Seq<u8>,
    msg: NoiseResponse,
    secrets: ResponseSecrets,
) -> ResponseKeys {
    let ck1 = kdf1_spec(ck, msg.f_ephemeral@ + msg.f_ephemeral_ct_pq@);
    let hs1 = blake2s(hs + msg.f_ephemeral@ + msg.f_ephemeral_ct_pq@);
    let ck2 = kdf1_spec(ck1, secrets.dh_ee + secrets.shk_ee);
    let ck3 = kdf1_spec(ck2, secrets.dh_se + secrets.shk_se);
    let (ck4, tau, key) = kdf3_spec(ck3, secrets.psk);
    ResponseKeys { ck: ck4, key, hs: blake2s(hs1 + tau) }
}

/// The keys of a response, from the state after the initiation.
fn absorb_response(
    ck: &[u8; 32],
    hs: &[u8; 32],
    msg: &NoiseResponse,
    dh_ee: &[u8; 32],
    shk_ee: &[u8; 32],
    dh_se: &[u8; 32],
    shk_se: &[u8; 32],
    psk: &[u8; 32],
) -> (r: ([u8; 32], [u8; 32], [u8; 32]))
    ensures
        (ResponseKeys { ck: r.0@, key: r.1@, hs: r.2@ }) == response_keys(
            ck@,
            hs@,
            *msg,
            (ResponseSecrets {
                dh_ee: dh_ee@,
                shk_ee: shk_ee@,
                dh_se: dh_se@,
                shk_se: shk_se@,
                psk: psk@,
            }),
        ),
{
    let ck1 = kdf1(ck, &join(&msg.f_ephemeral, &msg.f_ephemeral_ct_pq));
    let hs1 = hash3(hs, &msg.f_ephemeral, &msg.f_ephemeral_ct_pq);
    let ck2 = kdf1(&ck1, &join(dh_ee, shk_ee));
    let ck3 = kdf1(&ck2, &join(dh_se, shk_se));
    let (ck4, tau, key) = kdf3(&ck3, psk);
    (ck4, key, hash2(&hs1, &tau))
}

/// The transport keys: from the initiator to the responder, and back.
pub open spec fn transport_keys(ck: Seq<u8>) -> (Seq<u8>, Seq<u8>) {
    kdf2_spec(ck, Seq::empty())
}

/// The transport keys: from the initiator to the responder, and back.
fn derive_transport_keys(ck: &[u8; 32]) -> (r: ([u8; 32], [u8; 32]))
    ensures
        (r.0@, r.1@) == transport_keys(ck@),
{
    let nothing: [u8; 0] = [];
    assert(nothing@ =~= Seq::empty());
    kdf2(ck, &nothing)
}

// ---------------------------------------------------------------------------
// Making an initiation
// ---------------------------------------------------------------------------

/// What an initiation is made with: random numbers and the encapsulation for the peer's
/// static key.
pub struct InitiationInputs {
    pub eph_sk: [u8; 32],
    pub eph_pk_pq: [u8; 800],
    pub eph_sk_pq: [u8; 1632],
    pub static_ct: [u8; 156],
    pub static_secret: [u8; 32],
}

impl InitiationInputs {
    /// The ephemeral scalar.
    pub open spec fn scalar(&self) -> Seq<u8> {
        clamped(self.eph_sk@)
    }
}

/// Is no initiation possible, because a Diffie-Hellman secret is zero?
pub open spec fn initiation_fails<O>(peer: Peer<O>, inputs: InitiationInputs) -> bool {
    peer.ss@ == zeros(32) || x25519(inputs.scalar(), peer.pk@) == zeros(32)
}

/// The keys of an initiation on its way: chaining key, key and hash of the identity, then
/// chaining key, key and hash of the counter, and the hash of the whole.
pub ghost struct InitiationKeys {
    pub key_identity: Seq<u8>,
    pub hs_identity: Seq<u8>,
    pub ck: Seq<u8>,
    pub key_counter: Seq<u8>,
    pub hs_counter: Seq<u8>,
    pub hs: Seq<u8>,
}

/// The keys of the initiation for a peer.
pub open spec fn sent_keys<O>(peer: Peer<O>, inputs: InitiationInputs, msg: NoiseInitiation) -> InitiationKeys {
    let (ck0, hs0) = public_part(peer.pk_hash@, msg);
    let dh = x25519(inputs.scalar(), peer.pk@);
    let (ck1, key1) = static_part(ck0, dh, inputs.static_secret@);
    let (ck2, key2) = identity_part(ck1, peer.ss@, peer.hash_static_pq_send@, peer.psk@);
    let hs2 = blake2s(hs0 + msg.f_static@);
    InitiationKeys {
        key_identity: key1,
        hs_identity: hs0,
        ck: ck2,
        key_counter: key2,
        hs_counter: hs2,
        hs: blake2s(hs2 + msg.f_timestamp@),
    }
}

/// Is `msg` the initiation for a peer in the session with index `local`?
pub open spec fn is_initiation<O>(
    own_pk_hash: Seq<u8>,
    peer: Peer<O>,
    local: u32,
    inputs: InitiationInputs,
    msg: NoiseInitiation,
) -> bool {
    let keys = sent_keys(peer, inputs, msg);
    &&& msg.f_type == TYPE_INITIATION
    &&& msg.f_sender == local
    &&& msg.f_ephemeral@ == x25519_public(inputs.scalar())
    &&& msg.f_ephemeral_pq == inputs.eph_pk_pq
    &&& msg.f_static_ct_pq@ == chacha20(
        hiding_key(x25519(inputs.scalar(), peer.pk@)),
        ZERO_NONCE@,
        inputs.static_ct@,
    )
    &&& msg.f_static@ == chacha20poly1305_seal(
        keys.key_identity,
        ZERO_NONCE@,
        keys.hs_identity,
        own_pk_hash,
    )
    &&& msg.f_timestamp@ == chacha20poly1305_seal(
        keys.key_counter,
        ZERO_NONCE@,
        keys.hs_counter,
        be_bytes((peer.k_send + 1) as nat, 16),
    )
}

/// What the other side can do with an initiation: arrive at the same Diffie-Hellman secret,
/// uncover the static ciphertext, and decrypt the identity and the counter.
pub open spec fn initiation_opens<O>(
    own_pk_hash: Seq<u8>,
    peer: Peer<O>,
    inputs: InitiationInputs,
    msg: NoiseInitiation,
) -> bool {
    let keys = sent_keys(peer, inputs, msg);
    let dh = x25519(inputs.scalar(), peer.pk@);
    &&& dh_agrees(dh, inputs.scalar(), peer.pk@)
    &&& chacha20(hiding_key(dh), ZERO_NONCE@, msg.f_static_ct_pq@) == inputs.static_ct@
    &&& chacha20poly1305_open(keys.key_identity, ZERO_NONCE@, keys.hs_identity, msg.f_static@)
        == Some(own_pk_hash)
    &&& chacha20poly1305_open(
        keys.key_counter,
        ZERO_NONCE@,
        keys.hs_counter,
        msg.f_timestamp@,
    ) == Some(be_bytes((peer.k_send + 1) as nat, 16))
}

/// Does the state hold what the response to an initiation needs?
pub open spec fn remembers<O>(
    state: State,
    peer: Peer<O>,
    local_id: u32,
    inputs: InitiationInputs,
    msg: NoiseInitiation,
) -> bool {
    let keys = sent_keys(peer, inputs, msg);
    &&& state matches State::InitiationSent { local, eph_sk, eph_sk_pq, hs, ck }
    &&& local == local_id
    &&& eph_sk@ == inputs.scalar()
    &&& eph_sk@.len() == 32
    &&& eph_sk_pq == inputs.eph_sk_pq
    &&& hs@ == keys.hs
    &&& ck@ == keys.ck
}

/// Makes an initiation for a peer. The peer counts it and waits for the response.
pub fn create_initiation<O>(
    keyst: &KeyState,
    peer: &mut Peer<O>,
    local: u32,
    inputs: &InitiationInputs,
) -> (r: Result<NoiseInitiation, HandshakeError>)
    requires
        old(peer).k_send < u128::MAX,
    ensures
        match r {
            Ok(msg) => !initiation_fails(*old(peer), *inputs) && is_initiation(
                keyst.pk_hash@,
                *old(peer),
                local,
                *inputs,
                msg,
            ) && initiation_opens(keyst.pk_hash@, *old(peer), *inputs, msg) && remembers(
                final(peer).state,
                *old(peer),
                local,
                *inputs,
                msg,
            ) && *final(peer) == (Peer {
                state: final(peer).state,
                k_send: (old(peer).k_send + 1) as u128,
                ..*old(peer)
            }),
            Err(e) => initiation_fails(*old(peer), *inputs) && e
                == HandshakeError::InvalidSharedSecret && *final(peer) == *old(peer),
        },
{
    if is_zero(&peer.ss) {
        return Err(HandshakeError::InvalidSharedSecret);
    }
    let mut msg = NoiseInitiation::default();
    msg.f_type = TYPE_INITIATION;
    msg.f_sender = local;
    let eph_sk = StaticSecret::from_bytes(&inputs.eph_sk);
    msg.f_ephemeral = eph_sk.public();
    msg.f_ephemeral_pq = inputs.eph_pk_pq;
    let dh = shared_secret(&eph_sk, &peer.pk)?;
    msg.f_static_ct_pq = hide_ciphertext(&dh, &inputs.static_ct);
    let (ck0, hs0) = absorb_public_part(&peer.pk_hash, &msg);
    let (ck1, key) = kdf2(&ck0, &join(&dh, &inputs.static_secret));
    msg.f_static = seal_field(&key, &hs0, &keyst.pk_hash);
    let hs2 = hash2(&hs0, &msg.f_static);
    let (ck, key2) = kdf2(&ck1, &join3(&peer.ss, &peer.hash_static_pq_send, &peer.psk));
    let counter: u128 = peer.k_send + 1;
    let counter_bytes: [u8; 16] = write_be(counter);
    msg.f_timestamp = seal_field(&key2, &hs2, &counter_bytes);
    let hs = hash2(&hs2, &msg.f_timestamp);
    peer.k_send = counter;
    peer.state = State::InitiationSent { hs, ck, eph_sk, eph_sk_pq: inputs.eph_sk_pq, local };
    Ok(msg)
}

// ---------------------------------------------------------------------------
// Taking in an initiation
// ---------------------------------------------------------------------------

/// An initiation before its static ciphertext is decapsulated.
pub struct FirstStage {
    pub ck: [u8; 32],
    pub hs: [u8; 32],
    /// Diffie-Hellman of the initiator's ephemeral and the device's static key.
    pub dh: [u8; 32],
    /// The ciphertext to be decapsulated with the device's static key.
    pub static_ct: [u8; 156],
}

/// Does a stage hold what the public part of an initiation gives?
pub open spec fn is_first_stage(stage: FirstStage, keyst: KeyState, msg: NoiseInitiation) -> bool {
    &&& (stage.ck@, stage.hs@) == public_part(keyst.pk_hash@, msg)
    &&& stage.dh@ == x25519(keyst.sk@, msg.f_ephemeral@)
    &&& stage.static_ct@ == chacha20(hiding_key(stage.dh@), ZERO_NONCE@, msg.f_static_ct_pq@)
}

/// Takes in the part of an initiation that anybody can read and uncovers the static
/// ciphertext.
pub fn consume_initiation_first_part(keyst: &KeyState, msg: &NoiseInitiation) -> (r: Result<
    FirstStage,
    HandshakeError,
>)
    ensures
        match r {
            Ok(stage) => x25519(keyst.sk@, msg.f_ephemeral@) != zeros(32) && is_first_stage(
                stage,
                *keyst,
                *msg,
            ),
            Err(e) => x25519(keyst.sk@, msg.f_ephemeral@) == zeros(32) && e
                == HandshakeError::InvalidSharedSecret,
        },
{
    let (ck, hs) = absorb_public_part(&keyst.pk_hash, msg);
    let dh = shared_secret(&keyst.sk, &msg.f_ephemeral)?;
    let static_ct = hide_ciphertext(&dh, &msg.f_static_ct_pq);
    Ok(FirstStage { ck, hs, dh, static_ct })
}

/// The sender of an initiation, by the hash of its static keys.
pub struct Initiator {
    pub pk_hash: [u8; 32],
    pub ck: [u8; 32],
    pub hs: [u8; 32],
}

/// What the identity in an initiation decrypts to.
pub open spec fn received_identity(stage: FirstStage, msg: NoiseInitiation, shk: Seq<u8>) -> Option<
    Seq<u8>,
> {
    let (_, key) = static_part(stage.ck@, stage.dh@, shk);
    chacha20poly1305_open(key, ZERO_NONCE@, stage.hs@, msg.f_static@)
}

/// Is `who` the sender that an initiation names?
pub open spec fn names_initiator(
    stage: FirstStage,
    msg: NoiseInitiation,
    shk: Seq<u8>,
    who: Initiator,
) -> bool {
    &&& received_identity(stage, msg, shk) == Some(who.pk_hash@)
    &&& who.ck@ == static_part(stage.ck@, stage.dh@, shk).0
    &&& who.hs@ == stage.hs@
}

/// Decrypts the identity in an initiation, with the secret that the static ciphertext was
/// decapsulated to.
pub fn identify_initiator(stage: &FirstStage, msg: &NoiseInitiation, shk: &[u8; 32]) -> (r: Result<
    Initiator,
    HandshakeError,
>)
    ensures
        match r {
            Ok(who) => names_initiator(*stage, *msg, shk@, who),
            Err(e) => received_identity(*stage, *msg, shk@) is None && e
                == HandshakeError::DecryptionFailure,
        },
{
    let (ck, key) = kdf2(&stage.ck, &join(&stage.dh, shk));
    match open_field(&key, &stage.hs, &msg.f_static) {
        Ok(pk_hash) => Ok(Initiator { pk_hash, ck, hs: stage.hs }),
        Err(e) => Err(e),
    }
}

/// What a response is made from.
pub struct TemporaryState {
    pub sender: u32,
    pub eph_pk: [u8; 32],
    pub eph_pk_pq: [u8; 800],
    pub hs: [u8; 32],
    pub ck: [u8; 32],
}

/// The chaining key and the key of the counter on the responder's side.
pub open spec fn received_keys<O>(peer: Peer<O>, who: Initiator) -> (Seq<u8>, Seq<u8>) {
    identity_part(who.ck@, peer.ss@, peer.hash_static_pq_recv@, peer.psk@)
}

/// What becomes of an initiation whose sender is known: it is accepted, with the counter it
/// carries, or refused.
pub open spec fn acceptance_verdict<O>(
    peer: Peer<O>,
    who: Initiator,
    msg: NoiseInitiation,
    now: u64,
) -> Result<u128, HandshakeError> {
    let (_, key) = received_keys(peer, who);
    if peer.ss@ == zeros(32) {
        Err(HandshakeError::InvalidSharedSecret)
    } else {
        match chacha20poly1305_open(
            key,
            ZERO_NONCE@,
            blake2s(who.hs@ + msg.f_static@),
            msg.f_timestamp@,
        ) {
            None => Err(HandshakeError::DecryptionFailure),
            Some(plain) => match peer.replay_verdict(be_value(plain) as u128, now) {
                Ok(_) => Ok(be_value(plain) as u128),
                Err(e) => Err(e),
            },
        }
    }
}

/// Does the state hold what an accepted initiation gives?
pub open spec fn is_temporary_state<O>(
    state: TemporaryState,
    peer: Peer<O>,
    who: Initiator,
    msg: NoiseInitiation,
) -> bool {
    &&& state.sender == msg.f_sender
    &&& state.eph_pk == msg.f_ephemeral
    &&& state.eph_pk_pq == msg.f_ephemeral_pq
    &&& state.hs@ == blake2s(blake2s(who.hs@ + msg.f_static@) + msg.f_timestamp@)
    &&& state.ck@ == received_keys(peer, who).0
}

/// Accepts or refuses an initiation whose sender is known. An accepted one is counted. Unless
/// the long-term secret is zero, a handshake that this side has started is given up either
/// way; its session is not closed.
pub fn consume_initiation_second_part<O>(
    peer: &mut Peer<O>,
    who: &Initiator,
    msg: &NoiseInitiation,
    now: u64,
) -> (r: Result<TemporaryState, HandshakeError>)
    ensures
        match acceptance_verdict(*old(peer), *who, *msg, now) {
            Ok(k) => r matches Ok(state) && is_temporary_state(state, *old(peer), *who, *msg)
                && *final(peer) == old(peer).after_initiation(k, now),
            Err(e) => r == Err::<TemporaryState, HandshakeError>(e) && *final(peer) == (if old(
                peer,
            ).ss@ == zeros(32) {
                *old(peer)
            } else {
                Peer { state: State::Reset, ..*old(peer) }
            }),
        },
{
    if is_zero(&peer.ss) {
        return Err(HandshakeError::InvalidSharedSecret);
    }
    let _ = peer.state.reset();
    let hs2 = hash2(&who.hs, &msg.f_static);
    let (ck, key) = kdf2(&who.ck, &join3(&peer.ss, &peer.hash_static_pq_recv, &peer.psk));
    let k_received: [u8; 16] = match open_field(&key, &hs2, &msg.f_timestamp) {
        Ok(plain) => plain,
        Err(e) => return Err(e),
    };
    match peer.check_replay_flood(read_be(&k_received), now) {
        Ok(_) => {},
        Err(e) => return Err(e),
    }
    let hs = hash2(&hs2, &msg.f_timestamp);
    Ok(
        TemporaryState {
            sender: msg.f_sender,
            eph_pk: msg.f_ephemeral,
            eph_pk_pq: msg.f_ephemeral_pq,
            hs,
            ck,
        },
    )
}

// ---------------------------------------------------------------------------
// Making a response
// ---------------------------------------------------------------------------

/// What a response is made with: random numbers and the encapsulations for the initiator's
/// keys.
pub struct ResponseInputs {
    pub eph_sk: [u8; 32],
    pub eph_ct: [u8; 768],
    pub eph_secret: [u8; 32],
    pub static_ct: [u8; 156],
    pub static_secret: [u8; 32],
}

impl ResponseInputs {
    /// The ephemeral scalar.
    pub open spec fn scalar(&self) -> Seq<u8> {
        clamped(self.eph_sk@)
    }
}

/// Is no response possible, because a Diffie-Hellman secret is zero?
pub open spec fn response_fails<O>(peer: Peer<O>, state: TemporaryState, inputs: ResponseInputs) -> bool {
    x25519(inputs.scalar(), peer.pk@) == zeros(32) || x25519(inputs.scalar(), state.eph_pk@)
        == zeros(32)
}

/// The keys of a response on the responder's side.
pub open spec fn responder_keys<O>(
    peer: Peer<O>,
    state: TemporaryState,
    inputs: ResponseInputs,
    msg: NoiseResponse,
) -> ResponseKeys {
    response_keys(
        state.ck@,
        state.hs@,
        msg,
        ResponseSecrets {
            dh_ee: x25519(inputs.scalar(), state.eph_pk@),
            shk_ee: inputs.eph_secret@,
            dh_se: x25519(inputs.scalar(), peer.pk@),
            shk_se: inputs.static_secret@,
            psk: peer.psk@,
        },
    )
}

/// Is `msg` the response to an initiation?
pub open spec fn is_response<O>(
    peer: Peer<O>,
    local: u32,
    state: TemporaryState,
    inputs: ResponseInputs,
    msg: NoiseResponse,
) -> bool {
    let keys = responder_keys(peer, state, inputs, msg);
    &&& msg.f_type == TYPE_RESPONSE
    &&& msg.f_sender == local
    &&& msg.f_receiver == state.sender
    &&& msg.f_ephemeral@ == x25519_public(inputs.scalar())
    &&& msg.f_ephemeral_ct_pq == inputs.eph_ct
    &&& msg.f_static_ct_pq@ == chacha20(
        hiding_key(x25519(inputs.scalar(), peer.pk@)),
        ZERO_NONCE@,
        inputs.static_ct@,
    )
    &&& msg.f_empty@ == chacha20poly1305_seal(keys.key, ZERO_NONCE@, keys.hs, Seq::empty())
}

/// What the other side can do with a response: arrive at the same Diffie-Hellman secrets,
/// uncover the static ciphertext, and confirm the keys.
pub open spec fn response_opens<O>(
    peer: Peer<O>,
    state: TemporaryState,
    inputs: ResponseInputs,
    msg: NoiseResponse,
) -> bool {
    let keys = responder_keys(peer, state, inputs, msg);
    let dh_se = x25519(inputs.scalar(), peer.pk@);
    &&& dh_agrees(dh_se, inputs.scalar(), peer.pk@)
    &&& dh_agrees(x25519(inputs.scalar(), state.eph_pk@), inputs.scalar(), state.eph_pk@)
    &&& chacha20(hiding_key(dh_se), ZERO_NONCE@, msg.f_static_ct_pq@) == inputs.static_ct@
    &&& chacha20poly1305_open(keys.key, ZERO_NONCE@, keys.hs, msg.f_empty@) == Some(
        Seq::<u8>::empty(),
    )
}

/// Are these the responder's transport keys?
pub open spec fn is_responder_pair(
    pair: KeyPair,
    ck: Seq<u8>,
    local: u32,
    sender: u32,
    now: u64,
) -> bool {
    &&& pair.birth == now
    &&& !pair.initiator
    &&& (pair.recv.key@, pair.send.key@) == transport_keys(ck)
    &&& pair.send.id == sender
    &&& pair.recv.id == local
}

/// Makes the response to an initiation.
pub fn create_response<O>(
    peer: &Peer<O>,
    local: u32,
    state: &TemporaryState,
    inputs: &ResponseInputs,
    now: u64,
) -> (r: Result<(NoiseResponse, KeyPair), HandshakeError>)
    ensures
        match r {
            Ok((msg, pair)) => !response_fails(*peer, *state, *inputs) && is_response(
                *peer,
                local,
                *state,
                *inputs,
                msg,
            ) && response_opens(*peer, *state, *inputs, msg) && is_responder_pair(
                pair,
                responder_keys(*peer, *state, *inputs, msg).ck,
                local,
                state.sender,
                now,
            ) && (pair.recv.key@, pair.send.key@) == kdf2_spec(
                responder_keys(*peer, *state, *inputs, msg).ck,
                Seq::empty(),
            ),
            Err(e) => response_fails(*peer, *state, *inputs) && e
                == HandshakeError::InvalidSharedSecret,
        },
{
    let mut msg = NoiseResponse::default();
    msg.f_type = TYPE_RESPONSE;
    msg.f_sender = local;
    msg.f_receiver = state.sender;
    let eph_sk = StaticSecret::from_bytes(&inputs.eph_sk);
    msg.f_ephemeral = eph_sk.public();
    msg.f_ephemeral_ct_pq = inputs.eph_ct;
    let dh_se = shared_secret(&eph_sk, &peer.pk)?;
    msg.f_static_ct_pq = hide_ciphertext(&dh_se, &inputs.static_ct);
    let dh_ee = shared_secret(&eph_sk, &state.eph_pk)?;
    let (ck, key, hs) = absorb_response(
        &state.ck,
        &state.hs,
        &msg,
        &dh_ee,
        &inputs.eph_secret,
        &dh_se,
        &inputs.static_secret,
        &peer.psk,
    );
    let nothing: [u8; 0] = [];
    assert(nothing@ =~= Seq::empty());
    msg.f_empty = seal_field(&key, &hs, &nothing);
    let (key_recv, key_send) = derive_transport_keys(&ck);
    let pair = KeyPair {
        birth: now,
        initiator: false,
        send: Key { id: state.sender, key: key_send },
        recv: Key { id: local, key: key_recv },
    };
    Ok((msg, pair))
}

// ---------------------------------------------------------------------------
// Taking in a response
// ---------------------------------------------------------------------------

/// A response before its ciphertexts are decapsulated, with what the peer remembers of the
/// initiation.
pub struct ResponseStage {
    pub local: u32,
    pub eph_sk: StaticSecret,
    /// The key to decapsulate the ephemeral ciphertext with.
    pub eph_sk_pq: [u8; 1632],
    pub hs: [u8; 32],
    pub ck: [u8; 32],
    /// Diffie-Hellman of the two ephemeral keys.
    pub dh_ee: [u8; 32],
    /// Diffie-Hellman of the responder's ephemeral and the device's static key.
    pub dh_se: [u8; 32],
    /// The ciphertext to be decapsulated with the device's static key.
    pub static_ct: [u8; 156],
}

/// Why a response is refused before its ciphertexts are looked at.
pub open spec fn response_refusal(keyst: KeyState, state: State, msg: NoiseResponse) -> Option<
    HandshakeError,
> {
    match state {
        State::Reset => Some(HandshakeError::InvalidState),
        State::InitiationSent { eph_sk, .. } => if x25519(eph_sk@, msg.f_ephemeral@) == zeros(32)
            || x25519(keyst.sk@, msg.f_ephemeral@) == zeros(32) {
            Some(HandshakeError::InvalidSharedSecret)
        } else {
            None
        },
    }
}

/// Does a stage hold what the peer remembers and what the response hides?
pub open spec fn is_response_stage(
    stage: ResponseStage,
    keyst: KeyState,
    state: State,
    msg: NoiseResponse,
) -> bool {
    &&& state == (State::InitiationSent {
        local: stage.local,
        eph_sk: stage.eph_sk,
        eph_sk_pq: stage.eph_sk_pq,
        hs: stage.hs,
        ck: stage.ck,
    })
    &&& stage.dh_ee@ == x25519(stage.eph_sk@, msg.f_ephemeral@)
    &&& stage.dh_se@ == x25519(keyst.sk@, msg.f_ephemeral@)
    &&& stage.static_ct@ == chacha20(hiding_key(stage.dh_se@), ZERO_NONCE@, msg.f_static_ct_pq@)
}

/// Takes up what the peer remembers of the initiation and uncovers the static ciphertext.
pub fn consume_response_first_part<O>(keyst: &KeyState, msg: &NoiseResponse, peer: &Peer<O>) -> (r:
    Result<ResponseStage, HandshakeError>)
    ensures
        match r {
            Ok(stage) => response_refusal(*keyst, peer.state, *msg) is None && is_response_stage(
                stage,
                *keyst,
                peer.state,
                *msg,
            ),
            Err(e) => response_refusal(*keyst, peer.state, *msg) == Some(e),
        },
{
    match &peer.state {
        State::Reset => Err(HandshakeError::InvalidState),
        State::InitiationSent { local, eph_sk, eph_sk_pq, hs, ck } => {
            let dh_ee = shared_secret(eph_sk, &msg.f_ephemeral)?;
            let dh_se = shared_secret(&keyst.sk, &msg.f_ephemeral)?;
            let static_ct = hide_ciphertext(&dh_se, &msg.f_static_ct_pq);
            Ok(
                ResponseStage {
                    local: *local,
                    eph_sk: eph_sk.duplicate(),
                    eph_sk_pq: *eph_sk_pq,
                    hs: *hs,
                    ck: *ck,
                    dh_ee,
                    dh_se,
                    static_ct,
                },
            )
        },
    }
}

/// The keys of a response on the initiator's side.
pub open spec fn initiator_keys<O>(
    peer: Peer<O>,
    stage: ResponseStage,
    msg: NoiseResponse,
    shk_ee: Seq<u8>,
    shk_se: Seq<u8>,
) -> ResponseKeys {
    response_keys(
        stage.ck@,
        stage.hs@,
        msg,
        ResponseSecrets {
            dh_ee: stage.dh_ee@,
            shk_ee,
            dh_se: stage.dh_se@,
            shk_se,
            psk: peer.psk@,
        },
    )
}

/// Does the peer still wait for the response to the same initiation?
pub open spec fn still_waits(state: State, stage: ResponseStage) -> bool {
    state matches State::InitiationSent { eph_sk, eph_sk_pq, .. } && eph_sk@ == stage.eph_sk@
        && eph_sk_pq@ == stage.eph_sk_pq@
}

/// Why a response is refused.
pub open spec fn response_failure<O>(
    peer: Peer<O>,
    stage: ResponseStage,
    msg: NoiseResponse,
    shk_ee: Seq<u8>,
    shk_se: Seq<u8>,
) -> Option<HandshakeError> {
    let keys = initiator_keys(peer, stage, msg, shk_ee, shk_se);
    if chacha20poly1305_open(keys.key, ZERO_NONCE@, keys.hs, msg.f_empty@) is None {
        Some(HandshakeError::DecryptionFailure)
    } else if !still_waits(peer.state, stage) {
        Some(HandshakeError::InvalidState)
    } else {
        None
    }
}

/// Are these the initiator's transport keys?
pub open spec fn is_initiator_pair(
    pair: KeyPair,
    ck: Seq<u8>,
    local: u32,
    sender: u32,
    now: u64,
) -> bool {
    &&& pair.birth == now
    &&& pair.initiator
    &&& (pair.send.key@, pair.recv.key@) == transport_keys(ck)
    &&& pair.send.id == sender
    &&& pair.recv.id == local
}

/// Accepts or refuses a response, with the secrets that its ciphertexts were decapsulated
/// to. An accepted one ends the handshake.
pub fn consume_response<O>(
    peer: &mut Peer<O>,
    stage: &ResponseStage,
    msg: &NoiseResponse,
    shk_ee: &[u8; 32],
    shk_se: &[u8; 32],
    now: u64,
) -> (r: Result<KeyPair, HandshakeError>)
    ensures
        match response_failure(*old(peer), *stage, *msg, shk_ee@, shk_se@) {
            None => r matches Ok(pair) && is_initiator_pair(
                pair,
                initiator_keys(*old(peer), *stage, *msg, shk_ee@, shk_se@).ck,
                stage.local,
                msg.f_sender,
                now,
            ) && (pair.send.key@, pair.recv.key@) == kdf2_spec(
                initiator_keys(*old(peer), *stage, *msg, shk_ee@, shk_se@).ck,
                Seq::empty(),
            ) && *final(peer) == (Peer { state: State::Reset, ..*old(peer) }),
            Some(e) => r == Err::<KeyPair, HandshakeError>(e) && *final(peer) == *old(peer),
        },
{
    let (ck, key, hs) = absorb_response(
        &stage.ck,
        &stage.hs,
        msg,
        &stage.dh_ee,
        shk_ee,
        &stage.dh_se,
        shk_se,
        &peer.psk,
    );
    let opened: Result<[u8; 0], HandshakeError> = open_field(&key, &hs, &msg.f_empty);
    match opened {
        Ok(_) => {},
        Err(e) => return Err(e),
    }
    let (key_send, key_recv) = derive_transport_keys(&ck);
    let update = match &peer.state {
        State::InitiationSent { eph_sk, eph_sk_pq, .. } => {
            let same_dh = ct_eq(&eph_sk.to_bytes(), &stage.eph_sk.to_bytes());
            let same_kem = ct_eq(eph_sk_pq, &stage.eph_sk_pq);
            same_dh && same_kem
        },
        State::Reset => false,
    };
    if update {
        let _ = peer.state.reset();
        Ok(
            KeyPair {
                birth: now,
                initiator: true,
                send: Key { id: msg.f_sender, key: key_send },
                recv: Key { id: stage.local, key: key_recv },
            },
        )
    } else {
        Err(HandshakeError::InvalidState)
    }
}

} // verus!
