//! Where each field of a message lies on the wire.

use crate::bytes::{le_bytes, le_value, lemma_le_value_of_bytes, lemma_pow256};
use crate::hybrid_v1::messages::{CookieReply, Initiation, NoiseInitiation, NoiseResponse, Response};
use vstd::prelude::*;

verus! {

/// The layout of an initiation on the wire.
pub proof fn law_layout_of_an_initiation(m: NoiseInitiation)
    ensures
        m.bytes().len() == 1076,
        le_value(m.bytes().subrange(0, 4)) == m.f_type,
        le_value(m.bytes().subrange(4, 8)) == m.f_sender,
        m.bytes().subrange(8, 40) == m.f_ephemeral@,
        m.bytes().subrange(40, 840) == m.f_ephemeral_pq@,
        m.bytes().subrange(840, 996) == m.f_static_ct_pq@,
        m.bytes().subrange(996, 1044) == m.f_static@,
        m.bytes().subrange(1044, 1076) == m.f_timestamp@,
{
    let s = m.bytes();
    lemma_pow256();
    lemma_le_value_of_bytes(m.f_type as nat, 4);
    lemma_le_value_of_bytes(m.f_sender as nat, 4);
    assert(s.subrange(0, 4) =~= le_bytes(m.f_type as nat, 4));
    assert(s.subrange(4, 8) =~= le_bytes(m.f_sender as nat, 4));
    assert(s.subrange(8, 40) =~= m.f_ephemeral@);
    assert(s.subrange(40, 840) =~= m.f_ephemeral_pq@);
    assert(s.subrange(840, 996) =~= m.f_static_ct_pq@);
    assert(s.subrange(996, 1044) =~= m.f_static@);
    assert(s.subrange(1044, 1076) =~= m.f_timestamp@);
}

/// The layout of a response on the wire.
pub proof fn law_layout_of_a_response(m: NoiseResponse)
    ensures
        m.bytes().len() == 984,
        le_value(m.bytes().subrange(0, 4)) == m.f_type,
        le_value(m.bytes().subrange(4, 8)) == m.f_sender,
        le_value(m.bytes().subrange(8, 12)) == m.f_receiver,
        m.bytes().subrange(12, 44) == m.f_ephemeral@,
        m.bytes().subrange(44, 812) == m.f_ephemeral_ct_pq@,
        m.bytes().subrange(812, 968) == m.f_static_ct_pq@,
        m.bytes().subrange(968, 984) == m.f_empty@,
{
    let s = m.bytes();
    lemma_pow256();
    lemma_le_value_of_bytes(m.f_type as nat, 4);
    lemma_le_value_of_bytes(m.f_sender as nat, 4);
    lemma_le_value_of_bytes(m.f_receiver as nat, 4);
    assert(s.subrange(0, 4) =~= le_bytes(m.f_type as nat, 4));
    assert(s.subrange(4, 8) =~= le_bytes(m.f_sender as nat, 4));
    assert(s.subrange(8, 12) =~= le_bytes(m.f_receiver as nat, 4));
    assert(s.subrange(12, 44) =~= m.f_ephemeral@);
    assert(s.subrange(44, 812) =~= m.f_ephemeral_ct_pq@);
    assert(s.subrange(812, 968) =~= m.f_static_ct_pq@);
    assert(s.subrange(968, 984) =~= m.f_empty@);
}

/// The layout of a cookie reply on the wire.
pub proof fn law_layout_of_a_cookie_reply(m: CookieReply)
    ensures
        m.bytes().len() == 64,
        le_value(m.bytes().subrange(0, 4)) == m.f_type,
        le_value(m.bytes().subrange(4, 8)) == m.f_receiver,
        m.bytes().subrange(8, 32) == m.f_nonce@,
        m.bytes().subrange(32, 64) == m.f_cookie@,
{
    let s = m.bytes();
    lemma_pow256();
    lemma_le_value_of_bytes(m.f_type as nat, 4);
    lemma_le_value_of_bytes(m.f_receiver as nat, 4);
    assert(s.subrange(0, 4) =~= le_bytes(m.f_type as nat, 4));
    assert(s.subrange(4, 8) =~= le_bytes(m.f_receiver as nat, 4));
    assert(s.subrange(8, 32) =~= m.f_nonce@);
    assert(s.subrange(32, 64) =~= m.f_cookie@);
}

/// A message is followed by its two tags of 16 bytes each.
pub proof fn law_tags_follow_the_message(i: Initiation, r: Response)
    ensures
        i.bytes().len() == 1108,
        i.bytes().subrange(0, 1076) == i.noise.bytes(),
        i.bytes().subrange(1076, 1092) == i.macs.f_mac1@,
        i.bytes().subrange(1092, 1108) == i.macs.f_mac2@,
        r.bytes().len() == 1016,
        r.bytes().subrange(0, 984) == r.noise.bytes(),
        r.bytes().subrange(984, 1000) == r.macs.f_mac1@,
        r.bytes().subrange(1000, 1016) == r.macs.f_mac2@,
{
    i.noise.lemma_bytes_len();
    r.noise.lemma_bytes_len();
    i.macs.lemma_bytes_len();
    r.macs.lemma_bytes_len();
    assert(i.bytes().subrange(0, 1076) =~= i.noise.bytes());
    assert(i.bytes().subrange(1076, 1092) =~= i.macs.f_mac1@);
    assert(i.bytes().subrange(1092, 1108) =~= i.macs.f_mac2@);
    assert(r.bytes().subrange(0, 984) =~= r.noise.bytes());
    assert(r.bytes().subrange(984, 1000) =~= r.macs.f_mac1@);
    assert(r.bytes().subrange(1000, 1016) =~= r.macs.f_mac2@);
}

/// A message is told by its length and by its first four bytes: one, two or three, least
/// significant byte first. So no message is taken for one of another kind.
pub proof fn law_messages_are_told_apart(s: Seq<u8>)
    ensures
        Initiation::recognizes(s) <==> s.len() == 1108 && s.subrange(0, 4) == seq![1u8, 0, 0, 0],
        Response::recognizes(s) <==> s.len() == 1016 && s.subrange(0, 4) == seq![2u8, 0, 0, 0],
        CookieReply::recognizes(s) <==> s.len() == 64 && s.subrange(0, 4) == seq![3u8, 0, 0, 0],
{
    if s.len() >= 4 {
        let t = s.subrange(0, 4);
        reveal_with_fuel(le_value, 5);
        assert(t.drop_first().drop_first().drop_first().drop_first() =~= Seq::empty());
        assert(le_value(t) == t[0] + 0x100 * t[1] + 0x1_0000 * t[2] + 0x100_0000 * t[3]);
        if le_value(t) == 1 {
            assert(t =~= seq![1u8, 0, 0, 0]);
        }
        if le_value(t) == 2 {
            assert(t =~= seq![2u8, 0, 0, 0]);
        }
        if le_value(t) == 3 {
            assert(t =~= seq![3u8, 0, 0, 0]);
        }
    }
}

} // verus!
