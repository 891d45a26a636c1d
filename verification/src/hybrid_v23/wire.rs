//! Where each field of a message lies on the wire.

use crate::bytes::{le_bytes, le_value, lemma_le_value_of_bytes, lemma_pow256};
use crate::hybrid_v23::messages::{
    CookieReply, Initiation, MacsFooter, NoiseInitiation, NoiseResponse, Response, RiProof,
};
use vstd::prelude::*;

verus! {

/// The layout of an initiation on the wire.
pub proof fn law_layout_of_an_initiation(m: NoiseInitiation)
    ensures
        m.bytes().len() == 1972,
        le_value(m.bytes().subrange(0, 4)) == m.f_type,
        le_value(m.bytes().subrange(4, 8)) == m.f_mode,
        le_value(m.bytes().subrange(8, 16)) == m.f_epoch,
        m.bytes().subrange(16, 48) == m.f_sender@,
        m.bytes().subrange(48, 80) == m.f_ephemeral@,
        m.bytes().subrange(80, 880) == m.f_ephemeral_pq@,
        m.bytes().subrange(880, 896) == m.f_ratchet_kid@,
        m.bytes().subrange(896, 1664) == m.f_ratchet_ct@,
        m.bytes().subrange(1664, 1820) == m.f_static_ct_pq@,
        m.bytes().subrange(1820, 1908) == m.f_identity@,
        m.bytes().subrange(1908, 1940) == m.f_timestamp@,
        m.bytes().subrange(1940, 1972) == m.f_auth@,
{
    let s = m.bytes();
    lemma_pow256();
    lemma_le_value_of_bytes(m.f_type as nat, 4);
    lemma_le_value_of_bytes(m.f_mode as nat, 4);
    lemma_le_value_of_bytes(m.f_epoch as nat, 8);
    assert(s.subrange(0, 4) =~= le_bytes(m.f_type as nat, 4));
    assert(s.subrange(4, 8) =~= le_bytes(m.f_mode as nat, 4));
    assert(s.subrange(8, 16) =~= le_bytes(m.f_epoch as nat, 8));
    assert(s.subrange(16, 48) =~= m.f_sender@);
    assert(s.subrange(48, 80) =~= m.f_ephemeral@);
    assert(s.subrange(80, 880) =~= m.f_ephemeral_pq@);
    assert(s.subrange(880, 896) =~= m.f_ratchet_kid@);
    assert(s.subrange(896, 1664) =~= m.f_ratchet_ct@);
    assert(s.subrange(1664, 1820) =~= m.f_static_ct_pq@);
    assert(s.subrange(1820, 1908) =~= m.f_identity@);
    assert(s.subrange(1908, 1940) =~= m.f_timestamp@);
    assert(s.subrange(1940, 1972) =~= m.f_auth@);
}

/// The layout of a response on the wire.
pub proof fn law_layout_of_a_response(m: NoiseResponse)
    ensures
        m.bytes().len() == 1980,
        le_value(m.bytes().subrange(0, 4)) == m.f_type,
        le_value(m.bytes().subrange(4, 8)) == m.f_mode,
        le_value(m.bytes().subrange(8, 16)) == m.f_epoch,
        m.bytes().subrange(16, 48) == m.f_sender@,
        m.bytes().subrange(48, 80) == m.f_receiver@,
        m.bytes().subrange(80, 112) == m.f_ephemeral@,
        m.bytes().subrange(112, 880) == m.f_ephemeral_ct_pq@,
        m.bytes().subrange(880, 1036) == m.f_static_ct_pq@,
        m.bytes().subrange(1036, 1068) == m.f_hash_ephemeral_pq@,
        m.bytes().subrange(1068, 1948) == m.f_confirm@,
        m.bytes().subrange(1948, 1980) == m.f_auth@,
{
    let s = m.bytes();
    lemma_pow256();
    lemma_le_value_of_bytes(m.f_type as nat, 4);
    lemma_le_value_of_bytes(m.f_mode as nat, 4);
    lemma_le_value_of_bytes(m.f_epoch as nat, 8);
    assert(s.subrange(0, 4) =~= le_bytes(m.f_type as nat, 4));
    assert(s.subrange(4, 8) =~= le_bytes(m.f_mode as nat, 4));
    assert(s.subrange(8, 16) =~= le_bytes(m.f_epoch as nat, 8));
    assert(s.subrange(16, 48) =~= m.f_sender@);
    assert(s.subrange(48, 80) =~= m.f_receiver@);
    assert(s.subrange(80, 112) =~= m.f_ephemeral@);
    assert(s.subrange(112, 880) =~= m.f_ephemeral_ct_pq@);
    assert(s.subrange(880, 1036) =~= m.f_static_ct_pq@);
    assert(s.subrange(1036, 1068) =~= m.f_hash_ephemeral_pq@);
    assert(s.subrange(1068, 1948) =~= m.f_confirm@);
    assert(s.subrange(1948, 1980) =~= m.f_auth@);
}

/// The layout of a cookie reply on the wire.
pub proof fn law_layout_of_a_cookie_reply(m: CookieReply)
    ensures
        m.bytes().len() == 92,
        le_value(m.bytes().subrange(0, 4)) == m.f_type,
        m.bytes().subrange(4, 36) == m.f_receiver@,
        m.bytes().subrange(36, 60) == m.f_nonce@,
        m.bytes().subrange(60, 92) == m.f_cookie@,
{
    let s = m.bytes();
    lemma_pow256();
    lemma_le_value_of_bytes(m.f_type as nat, 4);
    assert(s.subrange(0, 4) =~= le_bytes(m.f_type as nat, 4));
    assert(s.subrange(4, 36) =~= m.f_receiver@);
    assert(s.subrange(36, 60) =~= m.f_nonce@);
    assert(s.subrange(60, 92) =~= m.f_cookie@);
}

/// The layout of the tags on the wire.
pub proof fn law_layout_of_the_tags(m: MacsFooter)
    ensures
        m.bytes().len() == 32,
        m.bytes().subrange(0, 16) == m.f_mac1@,
        m.bytes().subrange(16, 32) == m.f_mac2@,
{
    let s = m.bytes();
    lemma_pow256();
    assert(s.subrange(0, 16) =~= m.f_mac1@);
    assert(s.subrange(16, 32) =~= m.f_mac2@);
}

/// The layout of a rendezvous proof on the wire.
pub proof fn law_layout_of_a_rendezvous_proof(m: RiProof)
    ensures
        m.bytes().len() == 32,
        le_value(m.bytes().subrange(0, 8)) == m.f,
        le_value(m.bytes().subrange(8, 16)) == m.a,
        le_value(m.bytes().subrange(16, 18)) == m.delta,
        le_value(m.bytes().subrange(18, 26)) == m.ts,
        m.bytes().subrange(26, 32) == m.reserved@,
{
    let s = m.bytes();
    lemma_pow256();
    lemma_le_value_of_bytes(m.f as nat, 8);
    lemma_le_value_of_bytes(m.a as nat, 8);
    lemma_le_value_of_bytes(m.delta as nat, 2);
    lemma_le_value_of_bytes(m.ts as nat, 8);
    assert(s.subrange(0, 8) =~= le_bytes(m.f as nat, 8));
    assert(s.subrange(8, 16) =~= le_bytes(m.a as nat, 8));
    assert(s.subrange(16, 18) =~= le_bytes(m.delta as nat, 2));
    assert(s.subrange(18, 26) =~= le_bytes(m.ts as nat, 8));
    assert(s.subrange(26, 32) =~= m.reserved@);
}

/// A message is followed by its two tags of 16 bytes each.
pub proof fn law_tags_follow_the_message(i: Initiation, r: Response)
    ensures
        i.bytes().len() == 2004,
        i.bytes().subrange(0, 1972) == i.noise.bytes(),
        i.bytes().subrange(1972, 1988) == i.macs.f_mac1@,
        i.bytes().subrange(1988, 2004) == i.macs.f_mac2@,
        r.bytes().len() == 2012,
        r.bytes().subrange(0, 1980) == r.noise.bytes(),
        r.bytes().subrange(1980, 1996) == r.macs.f_mac1@,
        r.bytes().subrange(1996, 2012) == r.macs.f_mac2@,
{
    i.noise.lemma_bytes_len();
    r.noise.lemma_bytes_len();
    i.macs.lemma_bytes_len();
    r.macs.lemma_bytes_len();
    assert(i.bytes().subrange(0, 1972) =~= i.noise.bytes());
    assert(i.bytes().subrange(1972, 1988) =~= i.macs.f_mac1@);
    assert(i.bytes().subrange(1988, 2004) =~= i.macs.f_mac2@);
    assert(r.bytes().subrange(0, 1980) =~= r.noise.bytes());
    assert(r.bytes().subrange(1980, 1996) =~= r.macs.f_mac1@);
    assert(r.bytes().subrange(1996, 2012) =~= r.macs.f_mac2@);
}

/// A message is told by its length and by its first four bytes: one, two or three, least
/// significant byte first. So no message is taken for one of another kind.
pub proof fn law_messages_are_told_apart(s: Seq<u8>)
    ensures
        Initiation::recognizes(s) <==> s.len() == 2004 && s.subrange(0, 4) == seq![1u8, 0, 0, 0],
        Response::recognizes(s) <==> s.len() == 2012 && s.subrange(0, 4) == seq![2u8, 0, 0, 0],
        CookieReply::recognizes(s) <==> s.len() == 92 && s.subrange(0, 4) == seq![3u8, 0, 0, 0],
{
    if s.len() >= 4 {
        let t = s.subrange(0, 4);
        reveal_with_fuel(le_value, 5);
        assert(t.drop_first().drop_first().drop_first().drop_first() =~= Seq::empty());
        assert(le_value(t) == t[0] + 0x100 * t[1] + 0x1_0000 * t[2] + 0x100_0000 * t[3]);
        if le_value(t) == 1 {
            assert(t =~= seq![1u8, 0, 0, 0]);
        }
        if le_value(t) == 2 {
            assert(t =~= seq![2u8, 0, 0, 0]);
        }
        if le_value(t) == 3 {
            assert(t =~= seq![3u8, 0, 0, 0]);
        }
    }
}

} // verus!
