//! What the encrypted fields of the messages hold.

use crate::bytes::{
    le_bytes, le_value, lemma_le_bytes_len, lemma_le_value_of_bytes, lemma_pow256, read_le, take,
    write_le,
};
use crate::hybrid_v23::messages::{RiProof, PROTOCOL_VERSION_V2_3};
use crate::types::HandshakeError;
use vstd::prelude::*;

verus! {

/// The identity of the initiator: the hash of its static keys and a proof.
pub open spec fn identity_plain(pk_hash: Seq<u8>, ri: RiProof) -> Seq<u8> {
    pk_hash + ri.bytes() + le_bytes(PROTOCOL_VERSION_V2_3 as nat, 4) + le_bytes(0, 4)
}

/// The confirmation of the responder: the next epoch, a proof, and the ratchet key of the
/// next epoch with its identifier.
pub open spec fn confirm_plain(next_epoch: u64, ri: RiProof, next_pub: Seq<u8>, next_kid: Seq<u8>) -> (
Seq<u8>) {
    le_bytes(next_epoch as nat, 8) + ri.bytes() + next_pub + next_kid + le_bytes(
        PROTOCOL_VERSION_V2_3 as nat,
        4,
    ) + le_bytes(0, 4)
}

/// The proof as it stands in a field.
pub fn pack_ri_proof(ri: &RiProof) -> (r: [u8; 32])
    ensures
        r@ == ri.bytes(),
{
    let bytes = ri.as_bytes();
    assert(bytes@.subrange(0, 32) =~= bytes@);
    take(&bytes, 0)
}

/// The proof that stands in a field.
pub fn unpack_ri_proof(src: &[u8; 32]) -> (r: RiProof)
    ensures
        r.bytes() == src@,
{
    assert(src@.subrange(0, 32) =~= src@);
    RiProof::read(src, 0)
}

pub fn pack_identity_plain(pk_hash: &[u8; 32], ri: &RiProof) -> (r: [u8; 72])
    ensures
        r@ == identity_plain(pk_hash@, *ri),
{
    let version: [u8; 4] = write_le(PROTOCOL_VERSION_V2_3 as u64);
    let rest: [u8; 4] = write_le(0);
    let proof_bytes = pack_ri_proof(ri);
    let mut out: Vec<u8> = Vec::new();
    out.extend_from_slice(pk_hash);
    out.extend_from_slice(&proof_bytes);
    out.extend_from_slice(&version);
    out.extend_from_slice(&rest);
    assert(out@ =~= identity_plain(pk_hash@, *ri));
    assert(out@.subrange(0, 72) =~= out@);
    take(&out, 0)
}

/// The proof with the given bytes.
pub open spec fn ri_of(s: Seq<u8>) -> RiProof {
    choose|ri: RiProof| ri.bytes() == s
}

pub proof fn lemma_ri_of(ri: RiProof)
    ensures
        ri_of(ri.bytes()) == ri,
{
    ri_of(ri.bytes()).lemma_injective(ri);
}

/// The key hash that an identity names.
pub open spec fn identity_hash(plain: Seq<u8>) -> Seq<u8> {
    plain.subrange(0, 32)
}

/// The proof that an identity carries.
pub open spec fn identity_proof(plain: Seq<u8>) -> RiProof {
    ri_of(plain.subrange(32, 64))
}

/// The protocol version that an identity names.
pub open spec fn identity_version(plain: Seq<u8>) -> nat {
    le_value(plain.subrange(64, 68))
}

pub fn unpack_identity_plain(plain: &[u8; 72]) -> (r: Result<([u8; 32], RiProof), HandshakeError>)
    ensures
        match r {
            Ok((pk_hash, ri)) => identity_version(plain@) == PROTOCOL_VERSION_V2_3 && pk_hash@
                == identity_hash(plain@) && ri == identity_proof(plain@),
            Err(e) => identity_version(plain@) != PROTOCOL_VERSION_V2_3 && e
                == HandshakeError::InvalidMessageFormat,
        },
{
    let pk_hash: [u8; 32] = take(plain, 0);
    let ri = RiProof::read(plain, 32);
    proof {
        lemma_ri_of(ri);
    }
    let version_bytes: [u8; 4] = take(plain, 64);
    let version = read_le(&version_bytes);
    if version != PROTOCOL_VERSION_V2_3 as u64 {
        return Err(HandshakeError::InvalidMessageFormat);
    }
    Ok((pk_hash, ri))
}

pub fn pack_confirm_plain(
    next_epoch: u64,
    ri: &RiProof,
    next_pub: &[u8; 800],
    next_kid: &[u8; 16],
) -> (r: [u8; 864])
    ensures
        r@ == confirm_plain(next_epoch, *ri, next_pub@, next_kid@),
{
    let epoch: [u8; 8] = write_le(next_epoch);
    let version: [u8; 4] = write_le(PROTOCOL_VERSION_V2_3 as u64);
    let rest: [u8; 4] = write_le(0);
    let proof_bytes = pack_ri_proof(ri);
    let mut out: Vec<u8> = Vec::new();
    out.extend_from_slice(&epoch);
    out.extend_from_slice(&proof_bytes);
    out.extend_from_slice(next_pub);
    out.extend_from_slice(next_kid);
    out.extend_from_slice(&version);
    out.extend_from_slice(&rest);
    assert(out@ =~= confirm_plain(next_epoch, *ri, next_pub@, next_kid@));
    assert(out@.subrange(0, 864) =~= out@);
    take(&out, 0)
}

/// What a confirmation says: next epoch, proof, next ratchet key and its identifier.
pub struct Confirm {
    pub next_epoch: u64,
    pub ri: RiProof,
    pub next_pub: [u8; 800],
    pub next_kid: [u8; 16],
}

/// The epoch that a confirmation announces.
pub open spec fn confirm_epoch(plain: Seq<u8>) -> nat {
    le_value(plain.subrange(0, 8))
}

/// The proof that a confirmation carries.
pub open spec fn confirm_proof(plain: Seq<u8>) -> RiProof {
    ri_of(plain.subrange(8, 40))
}

/// The ratchet key that a confirmation offers.
pub open spec fn confirm_pub(plain: Seq<u8>) -> Seq<u8> {
    plain.subrange(40, 840)
}

/// The identifier of the ratchet key that a confirmation offers.
pub open spec fn confirm_kid(plain: Seq<u8>) -> Seq<u8> {
    plain.subrange(840, 856)
}

/// The protocol version that a confirmation names.
pub open spec fn confirm_version(plain: Seq<u8>) -> nat {
    le_value(plain.subrange(856, 860))
}

pub fn unpack_confirm_plain(plain: &[u8; 864]) -> (r: Result<Confirm, HandshakeError>)
    ensures
        match r {
            Ok(confirm) => confirm_version(plain@) == PROTOCOL_VERSION_V2_3 && confirm.next_epoch
                == confirm_epoch(plain@) && confirm.ri == confirm_proof(plain@)
                && confirm.next_pub@ == confirm_pub(plain@) && confirm.next_kid@ == confirm_kid(
                plain@,
            ),
            Err(e) => confirm_version(plain@) != PROTOCOL_VERSION_V2_3 && e
                == HandshakeError::InvalidConfirm,
        },
{
    let epoch_bytes: [u8; 8] = take(plain, 0);
    let next_epoch = read_le(&epoch_bytes);
    let ri = RiProof::read(plain, 8);
    proof {
        lemma_ri_of(ri);
    }
    let next_pub: [u8; 800] = take(plain, 40);
    let next_kid: [u8; 16] = take(plain, 840);
    let version_bytes: [u8; 4] = take(plain, 856);
    let version = read_le(&version_bytes);
    if version != PROTOCOL_VERSION_V2_3 as u64 {
        return Err(HandshakeError::InvalidConfirm);
    }
    Ok(Confirm { next_epoch, ri, next_pub, next_kid })
}

/// An identity that was packed is read back as it was.
pub proof fn law_identity_round_trip(pk_hash: [u8; 32], ri: RiProof)
    ensures
        identity_plain(pk_hash@, ri).len() == 72,
        identity_version(identity_plain(pk_hash@, ri)) == PROTOCOL_VERSION_V2_3,
        identity_hash(identity_plain(pk_hash@, ri)) == pk_hash@,
        identity_proof(identity_plain(pk_hash@, ri)) == ri,
{
    let plain = identity_plain(pk_hash@, ri);
    ri.lemma_bytes_len();
    lemma_pow256();
    lemma_le_bytes_len(PROTOCOL_VERSION_V2_3 as nat, 4);
    lemma_le_bytes_len(0, 4);
    lemma_le_value_of_bytes(PROTOCOL_VERSION_V2_3 as nat, 4);
    assert(plain.subrange(64, 68) =~= le_bytes(PROTOCOL_VERSION_V2_3 as nat, 4));
    assert(plain.subrange(0, 32) =~= pk_hash@);
    assert(plain.subrange(32, 64) =~= ri.bytes());
    lemma_ri_of(ri);
}

/// A confirmation that was packed is read back as it was.
pub proof fn law_confirm_round_trip(
    next_epoch: u64,
    ri: RiProof,
    next_pub: [u8; 800],
    next_kid: [u8; 16],
)
    ensures
        ({
            let plain = confirm_plain(next_epoch, ri, next_pub@, next_kid@);
            &&& plain.len() == 864
            &&& confirm_version(plain) == PROTOCOL_VERSION_V2_3
            &&& confirm_epoch(plain) == next_epoch
            &&& confirm_proof(plain) == ri
            &&& confirm_pub(plain) == next_pub@
            &&& confirm_kid(plain) == next_kid@
        }),
{
    let plain = confirm_plain(next_epoch, ri, next_pub@, next_kid@);
    ri.lemma_bytes_len();
    lemma_pow256();
    lemma_le_bytes_len(PROTOCOL_VERSION_V2_3 as nat, 4);
    lemma_le_bytes_len(0, 4);
    lemma_le_bytes_len(next_epoch as nat, 8);
    lemma_le_value_of_bytes(PROTOCOL_VERSION_V2_3 as nat, 4);
    lemma_le_value_of_bytes(next_epoch as nat, 8);
    assert(plain.subrange(856, 860) =~= le_bytes(PROTOCOL_VERSION_V2_3 as nat, 4));
    assert(plain.subrange(0, 8) =~= le_bytes(next_epoch as nat, 8));
    assert(plain.subrange(8, 40) =~= ri.bytes());
    assert(plain.subrange(40, 840) =~= next_pub@);
    assert(plain.subrange(840, 856) =~= next_kid@);
    lemma_ri_of(ri);
}

} // verus!
