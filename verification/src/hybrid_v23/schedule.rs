//! The key schedule: how the chaining key and the transcript hash develop.
//!
//! Both sides of a handshake go through the same functions, each with its own view of the
//! shared secrets.

use crate::bytes::{join, join3, join4, le_bytes, write_le};
use crate::crypto::{
    blake2s, blake2s_mac, hash1, hash2, hash3, hash4, hash5, hash6, hash7, hkdf,
    hkdf_blake2s, hmac, hmac_blake2s, kdf1, kdf1_spec, kdf2, kdf2_spec, kdf3, kdf3_spec, mac,
};
use crate::exchange::{INITIAL_CK, INITIAL_HS};
use crate::hybrid_v23::messages::{NoiseInitiation, NoiseResponse};
use vstd::prelude::*;

verus! {

/// "Hybrid-WireGuard-v2.3"
pub const LABEL_PROTOCOL: [u8; 21] = [
    0x48, 0x79, 0x62, 0x72, 0x69, 0x64, 0x2d, 0x57, 0x69, 0x72, 0x65, 0x47, 0x75, 0x61, 0x72, 0x64,
    0x2d, 0x76, 0x32, 0x2e, 0x33,
];

/// "kem-r-public"
pub const LABEL_KEM_R: [u8; 12] = [0x6b, 0x65, 0x6d, 0x2d, 0x72, 0x2d, 0x70, 0x75, 0x62, 0x6c, 0x69, 0x63];

/// "hybrid-wireguard-v2.3-session-key"
pub const LABEL_SESSION: [u8; 33] = [
    0x68, 0x79, 0x62, 0x72, 0x69, 0x64, 0x2d, 0x77, 0x69, 0x72, 0x65, 0x67, 0x75, 0x61, 0x72, 0x64,
    0x2d, 0x76, 0x32, 0x2e, 0x33, 0x2d, 0x73, 0x65, 0x73, 0x73, 0x69, 0x6f, 0x6e, 0x2d, 0x6b, 0x65,
    0x79,
];

/// "auth_i"
pub const LABEL_AUTH_I: [u8; 6] = [0x61, 0x75, 0x74, 0x68, 0x5f, 0x69];

/// "auth_r"
pub const LABEL_AUTH_R: [u8; 6] = [0x61, 0x75, 0x74, 0x68, 0x5f, 0x72];

/// "kid"
pub const LABEL_KID: [u8; 3] = [0x6b, 0x69, 0x64];

/// "recovery-ratchet"
pub const LABEL_RECOVERY: [u8; 16] = [
    0x72, 0x65, 0x63, 0x6f, 0x76, 0x65, 0x72, 0x79, 0x2d, 0x72, 0x61, 0x74, 0x63, 0x68, 0x65, 0x74,
];

/// "ri-ratchet"
pub const LABEL_RI_RATCHET: [u8; 10] = [0x72, 0x69, 0x2d, 0x72, 0x61, 0x74, 0x63, 0x68, 0x65, 0x74];

/// "session-key"
pub const LABEL_SESSION_KEY: [u8; 11] = [0x73, 0x65, 0x73, 0x73, 0x69, 0x6f, 0x6e, 0x2d, 0x6b, 0x65, 0x79];

/// "transport"
pub const LABEL_TRANSPORT: [u8; 9] = [0x74, 0x72, 0x61, 0x6e, 0x73, 0x70, 0x6f, 0x72, 0x74];

/// "hybrid-wg-shk2"
pub const LABEL_SHK2: [u8; 14] = [
    0x68, 0x79, 0x62, 0x72, 0x69, 0x64, 0x2d, 0x77, 0x67, 0x2d, 0x73, 0x68, 0x6b, 0x32,
];

/// "hybrid-wg-shk-ee"
pub const LABEL_SHK_EE: [u8; 16] = [
    0x68, 0x79, 0x62, 0x72, 0x69, 0x64, 0x2d, 0x77, 0x67, 0x2d, 0x73, 0x68, 0x6b, 0x2d, 0x65, 0x65,
];

/// Mode and epoch as they enter the transcript.
pub open spec fn mode_epoch(mode: u32, epoch: u64) -> Seq<u8> {
    le_bytes(mode as nat, 4) + le_bytes(epoch as nat, 8)
}

/// Mode and epoch as they enter the transcript.
pub fn mode_epoch_bytes(mode: u32, epoch: u64) -> (r: Vec<u8>)
    ensures
        r@ == mode_epoch(mode, epoch),
{
    let m: [u8; 4] = write_le(mode as u64);
    let e: [u8; 8] = write_le(epoch);
    join(&m, &e)
}

/// The identifier of a ratchet key: a tag under the root key.
pub open spec fn kid_spec(rk: Seq<u8>, epoch: u64, pubkey: Seq<u8>) -> Seq<u8> {
    blake2s_mac(rk, LABEL_KID@ + le_bytes(epoch as nat, 8) + blake2s(pubkey))
}

/// The identifier of a ratchet key.
pub fn derive_kid(rk: &[u8; 32], epoch: u64, pubkey: &[u8; 800]) -> (r: [u8; 16])
    ensures
        r@ == kid_spec(rk@, epoch, pubkey@),
{
    let pub_hash = hash1(pubkey);
    let e: [u8; 8] = write_le(epoch);
    mac(rk, &join3(&LABEL_KID, &e, &pub_hash))
}

/// The authentication tag of a message.
pub open spec fn auth_spec(key: Seq<u8>, label: Seq<u8>, hs: Seq<u8>) -> Seq<u8> {
    hmac_blake2s(key, label + hs)
}

/// The authentication tag of a message.
pub fn auth_tag(key: &[u8; 32], label: &[u8], hs: &[u8; 32]) -> (r: [u8; 32])
    ensures
        r@ == auth_spec(key@, label@, hs@),
{
    hmac(key, &join(label, hs))
}

/// What ties the ratchet into the session: root keys, ratchet secret, identities,
/// transcript, mode and epoch.
pub open spec fn ratchet_material(
    rk: Seq<u8>,
    k_ri: Seq<u8>,
    ss_r: Seq<u8>,
    h_id: Seq<u8>,
    hs: Seq<u8>,
    mode: u32,
    epoch: u64,
) -> Seq<u8> {
    blake2s(LABEL_SESSION@ + rk + k_ri + ss_r + h_id + hs + mode_epoch(mode, epoch))
}

/// The chaining key with the ratchet tied in.
pub fn mix_v23_material(
    ck: &[u8; 32],
    rk: &[u8; 32],
    k_ri: &[u8; 32],
    ss_r: &[u8; 32],
    h_id: &[u8; 32],
    hs: &[u8; 32],
    mode: u32,
    epoch: u64,
) -> (r: [u8; 32])
    ensures
        r@ == kdf1_spec(ck@, ratchet_material(rk@, k_ri@, ss_r@, h_id@, hs@, mode, epoch)),
{
    let me = mode_epoch_bytes(mode, epoch);
    let material = hash7(&LABEL_SESSION, rk, k_ri, ss_r, h_id, hs, &me);
    kdf1(ck, &material)
}

/// The root keys of the next epoch.
pub open spec fn next_roots(
    rk: Seq<u8>,
    k_ri: Seq<u8>,
    k_out: Seq<u8>,
    ss_r: Seq<u8>,
    ss_i: Seq<u8>,
    th: Seq<u8>,
    next_kid: Seq<u8>,
    next_epoch: u64,
) -> (Seq<u8>, Seq<u8>) {
    let e = le_bytes(next_epoch as nat, 8);
    (
        blake2s(LABEL_RECOVERY@ + rk + k_out + ss_r + ss_i + th + e),
        blake2s(LABEL_RI_RATCHET@ + k_ri + k_out + th + next_kid + e),
    )
}

/// The root keys of the next epoch.
pub fn derive_next_roots(
    rk: &[u8; 32],
    k_ri: &[u8; 32],
    k_out: &[u8; 32],
    ss_r: &[u8; 32],
    ss_i: &[u8; 32],
    th: &[u8; 32],
    next_kid: &[u8; 16],
    next_epoch: u64,
) -> (r: ([u8; 32], [u8; 32]))
    ensures
        (r.0@, r.1@) == next_roots(rk@, k_ri@, k_out@, ss_r@, ss_i@, th@, next_kid@, next_epoch),
{
    let e: [u8; 8] = write_le(next_epoch);
    (
        hash7(&LABEL_RECOVERY, rk, k_out, ss_r, ss_i, th, &e),
        hash6(&LABEL_RI_RATCHET, k_ri, k_out, th, next_kid, &e),
    )
}

/// Chaining key and transcript hash after the fields of an initiation that anybody can
/// read: the responder's identity, mode and epoch, the ephemeral keys, and the use of the
/// ratchet key.
pub open spec fn public_part(pk_hash_r: Seq<u8>, msg: NoiseInitiation) -> (Seq<u8>, Seq<u8>) {
    let me = mode_epoch(msg.f_mode, msg.f_epoch);
    let hs1 = blake2s(INITIAL_HS@ + LABEL_PROTOCOL@ + pk_hash_r + me);
    let ck1 = kdf1_spec(INITIAL_CK@, me);
    let ck2 = kdf1_spec(ck1, msg.f_ephemeral@ + msg.f_ephemeral_pq@);
    let hs2 = blake2s(hs1 + msg.f_ephemeral@ + msg.f_ephemeral_pq@);
    let mix = blake2s(LABEL_KEM_R@ + me + msg.f_ratchet_kid@ + msg.f_ratchet_ct@);
    (kdf1_spec(ck2, mix), blake2s(hs2 + msg.f_ratchet_kid@ + msg.f_ratchet_ct@))
}

/// Chaining key and transcript hash after the public fields of an initiation.
pub fn absorb_public_part(pk_hash_r: &[u8; 32], msg: &NoiseInitiation) -> (r: ([u8; 32], [u8; 32]))
    ensures
        (r.0@, r.1@) == public_part(pk_hash_r@, *msg),
{
    let me = mode_epoch_bytes(msg.f_mode, msg.f_epoch);
    let hs1 = hash4(&INITIAL_HS, &LABEL_PROTOCOL, pk_hash_r, &me);
    let ck1 = kdf1(&INITIAL_CK, &me);
    let ck2 = kdf1(&ck1, &join(&msg.f_ephemeral, &msg.f_ephemeral_pq));
    let hs2 = hash3(&hs1, &msg.f_ephemeral, &msg.f_ephemeral_pq);
    let mix = hash4(&LABEL_KEM_R, &me, &msg.f_ratchet_kid, &msg.f_ratchet_ct);
    (kdf1(&ck2, &mix), hash3(&hs2, &msg.f_ratchet_kid, &msg.f_ratchet_ct))
}

/// Chaining key, key of the identity, and transcript hash after the static encapsulation.
pub open spec fn static_part(ck: Seq<u8>, hs: Seq<u8>, msg: NoiseInitiation, dh: Seq<u8>, shk: Seq<u8>) -> (
    Seq<u8>,
    Seq<u8>,
    Seq<u8>,
) {
    let (ck3, key) = kdf2_spec(ck, dh + shk);
    (ck3, key, blake2s(hs + msg.f_static_ct_pq@))
}

/// Chaining key, key of the identity, and transcript hash after the static encapsulation.
pub fn absorb_static_part(
    ck: &[u8; 32],
    hs: &[u8; 32],
    msg: &NoiseInitiation,
    dh: &[u8; 32],
    shk: &[u8; 32],
) -> (r: ([u8; 32], [u8; 32], [u8; 32]))
    ensures
        (r.0@, r.1@, r.2@) == static_part(ck@, hs@, *msg, dh@, shk@),
{
    let (ck3, key) = kdf2(ck, &join(dh, shk));
    (ck3, key, hash2(hs, &msg.f_static_ct_pq))
}

/// Chaining key and key of the counter after the long-term secrets of the two peers.
pub open spec fn identity_part(
    ck: Seq<u8>,
    ss: Seq<u8>,
    hash_static_pq: Seq<u8>,
    h_id: Seq<u8>,
    psk: Seq<u8>,
) -> (Seq<u8>, Seq<u8>) {
    kdf2_spec(ck, ss + hash_static_pq + h_id + psk)
}

/// Chaining key and key of the counter after the long-term secrets of the two peers.
pub fn absorb_identity_part(
    ck: &[u8; 32],
    ss: &[u8; 32],
    hash_static_pq: &[u8; 32],
    h_id: &[u8; 32],
    psk: &[u8; 32],
) -> (r: ([u8; 32], [u8; 32]))
    ensures
        (r.0@, r.1@) == identity_part(ck@, ss@, hash_static_pq@, h_id@, psk@),
{
    kdf2(ck, &join4(ss, hash_static_pq, h_id, psk))
}

/// What a response adds to the shared secrets of a handshake.
pub ghost struct ResponseSecrets {
    /// Diffie-Hellman of the two ephemeral keys.
    pub dh_ee: Seq<u8>,
    /// Diffie-Hellman of the responder's ephemeral and the initiator's static key.
    pub dh_se: Seq<u8>,
    /// Secret of the ephemeral encapsulation.
    pub shk_master: Seq<u8>,
    /// Secret of the static encapsulation.
    pub shk_static: Seq<u8>,
    pub psk: Seq<u8>,
}

/// The keys that a response is protected with.
pub ghost struct ResponseKeys {
    /// The final chaining key.
    pub ck: Seq<u8>,
    /// The key of the confirmation.
    pub key: Seq<u8>,
    /// The transcript hash that the proof is bound to.
    pub h7: Seq<u8>,
    /// The transcript hash that the confirmation is bound to.
    pub hs: Seq<u8>,
    /// The ephemeral contribution to the next root key.
    pub shk2: Seq<u8>,
}

/// The salt under which the ephemeral secret is split: both session identifiers, the
/// initiator's ephemeral key and the hash of the responder's ciphertext.
pub open spec fn split_salt(msg: NoiseResponse, eph_pk_pq: Seq<u8>) -> Seq<u8> {
    msg.f_receiver@ + msg.f_sender@ + eph_pk_pq + msg.f_hash_ephemeral_pq@
}

/// The keys of a response, from the state after the initiation.
pub open spec fn response_keys(
    ck: Seq<u8>,
    hs: Seq<u8>,
    msg: NoiseResponse,
    eph_pk_pq: Seq<u8>,
    secrets: ResponseSecrets,
) -> ResponseKeys {
    let salt = split_salt(msg, eph_pk_pq);
    let shk2_raw = hkdf_blake2s(salt, secrets.shk_master, LABEL_SHK2@);
    let shk_ee = hkdf_blake2s(salt, secrets.shk_master, LABEL_SHK_EE@);
    let shk2 = blake2s(shk2_raw + shk_ee);
    let shk3 = blake2s(secrets.shk_static + shk_ee);
    let ck1 = kdf1_spec(
        ck,
        msg.f_ephemeral@ + msg.f_ephemeral_ct_pq@ + msg.f_hash_ephemeral_pq@,
    );
    let hs1 = blake2s(
        hs + msg.f_ephemeral@ + msg.f_ephemeral_ct_pq@ + msg.f_static_ct_pq@
            + msg.f_hash_ephemeral_pq@,
    );
    let ck2 = kdf1_spec(ck1, secrets.dh_ee + shk2);
    let ck3 = kdf1_spec(ck2, secrets.dh_se + shk3);
    let h7 = blake2s(hs1 + shk_ee);
    let (ck4, tau, key) = kdf3_spec(ck3, secrets.psk);
    ResponseKeys { ck: ck4, key, h7, hs: blake2s(h7 + tau), shk2 }
}

/// The keys of a response as bytes.
pub struct ResponseKeyBytes {
    pub ck: [u8; 32],
    pub key: [u8; 32],
    pub h7: [u8; 32],
    pub hs: [u8; 32],
    pub shk2: [u8; 32],
}

impl ResponseKeyBytes {
    pub open spec fn view(&self) -> ResponseKeys {
        ResponseKeys {
            ck: self.ck@,
            key: self.key@,
            h7: self.h7@,
            hs: self.hs@,
            shk2: self.shk2@,
        }
    }
}

/// The keys of a response, from the state after the initiation.
pub fn absorb_response(
    ck: &[u8; 32],
    hs: &[u8; 32],
    msg: &NoiseResponse,
    eph_pk_pq: &[u8; 800],
    dh_ee: &[u8; 32],
    dh_se: &[u8; 32],
    shk_master: &[u8; 32],
    shk_static: &[u8; 32],
    psk: &[u8; 32],
) -> (r: ResponseKeyBytes)
    ensures
        r@ == response_keys(
            ck@,
            hs@,
            *msg,
            eph_pk_pq@,
            (ResponseSecrets {
                dh_ee: dh_ee@,
                dh_se: dh_se@,
                shk_master: shk_master@,
                shk_static: shk_static@,
                psk: psk@,
            }),
        ),
{
    let salt = join4(&msg.f_receiver, &msg.f_sender, eph_pk_pq, &msg.f_hash_ephemeral_pq);
    let shk2_raw = hkdf(&salt, shk_master, &LABEL_SHK2);
    let shk_ee = hkdf(&salt, shk_master, &LABEL_SHK_EE);
    let shk2 = hash2(&shk2_raw, &shk_ee);
    let shk3 = hash2(shk_static, &shk_ee);
    let ck1 = kdf1(
        ck,
        &join3(&msg.f_ephemeral, &msg.f_ephemeral_ct_pq, &msg.f_hash_ephemeral_pq),
    );
    let hs1 = hash5(
        hs,
        &msg.f_ephemeral,
        &msg.f_ephemeral_ct_pq,
        &msg.f_static_ct_pq,
        &msg.f_hash_ephemeral_pq,
    );
    let ck2 = kdf1(&ck1, &join(dh_ee, &shk2));
    let ck3 = kdf1(&ck2, &join(dh_se, &shk3));
    let h7 = hash2(&hs1, &shk_ee);
    let (ck4, tau, key) = kdf3(&ck3, psk);
    ResponseKeyBytes { ck: ck4, key, h7, hs: hash2(&h7, &tau), shk2 }
}

/// The secret that the next root keys take from a finished handshake.
pub open spec fn output_key(ck: Seq<u8>, hs: Seq<u8>) -> Seq<u8> {
    blake2s(LABEL_SESSION_KEY@ + ck + hs)
}

/// The secret that the next root keys take from a finished handshake.
pub fn derive_output_key(ck: &[u8; 32], hs: &[u8; 32]) -> (r: [u8; 32])
    ensures
        r@ == output_key(ck@, hs@),
{
    hash3(&LABEL_SESSION_KEY, ck, hs)
}

/// The transport keys: from the initiator to the responder, and back.
pub open spec fn transport_keys(ck: Seq<u8>) -> (Seq<u8>, Seq<u8>) {
    kdf2_spec(ck, LABEL_TRANSPORT@)
}

/// The transport keys: from the initiator to the responder, and back.
pub fn derive_transport_keys(ck: &[u8; 32]) -> (r: ([u8; 32], [u8; 32]))
    ensures
        (r.0@, r.1@) == transport_keys(ck@),
{
    kdf2(ck, &LABEL_TRANSPORT)
}

} // verus!
