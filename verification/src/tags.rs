//! What the tags of a message and the cookies show of its sender.

use crate::binding::{
    kdf_met, law_derived_keys_bind, lemma_hash, lemma_joined, tags_told_apart, told_apart,
};
use crate::bytes::{le_bytes, lemma_le_bytes_len, lemma_le_value_of_bytes, lemma_pow256, zeros};
use crate::crypto::{blake2s, xchacha20poly1305_open};
use crate::hybrid_v23::messages::MacsFooter;
use crate::macs::{Generator, Validator, LABEL_COOKIE, LABEL_MAC1};
use crate::types::{IpAddr, SocketAddr};
use vstd::prelude::*;

verus! {

/// The bytes of an address are its own: 4 or 16 bytes of the address, then the two bytes of
/// the port, least significant first. Two addresses with the same bytes are the same.
pub proof fn law_address_bytes_bind(a: SocketAddr, b: SocketAddr)
    ensures
        a.ip is V4 ==> a.mac_bytes().len() == 6,
        a.ip is V6 ==> a.mac_bytes().len() == 18,
        a.mac_bytes().take(a.mac_bytes().len() - 2) == a.ip.octets(),
        a.mac_bytes()[a.mac_bytes().len() - 2] == a.port % 256,
        a.mac_bytes()[a.mac_bytes().len() - 1] == a.port / 256,
        a.mac_bytes() == b.mac_bytes() ==> a == b,
{
    let (x, y) = (le_bytes(a.port as nat, 2), le_bytes(b.port as nat, 2));
    lemma_le_bytes_len(a.port as nat, 2);
    lemma_le_bytes_len(b.port as nat, 2);
    reveal_with_fuel(le_bytes, 3);
    assert(x[0] == a.port % 256);
    assert(x[1] == a.port / 256);
    let s = a.mac_bytes();
    assert(s.take(s.len() - 2) =~= a.ip.octets());
    assert(s[s.len() - 2] == x[0]);
    assert(s[s.len() - 1] == x[1]);
    if a.mac_bytes() == b.mac_bytes() {
        assert(a.ip.octets().len() == b.ip.octets().len());
        lemma_joined(a.ip.octets(), x, b.ip.octets(), y);
        lemma_pow256();
        lemma_le_value_of_bytes(a.port as nat, 2);
        lemma_le_value_of_bytes(b.port as nat, 2);
        match (a.ip, b.ip) {
            (IpAddr::V4(p), IpAddr::V4(q)) => assert(p =~= q),
            (IpAddr::V6(p), IpAddr::V6(q)) => assert(p =~= q),
            _ => {},
        }
    }
}

/// A message that carries the tags of a sender passes the check of the first tag where the key
/// is the same, and only there; and no other message passes it with these tags.
pub proof fn law_first_tag_shows_the_key(
    tags: Set<(Seq<u8>, Seq<u8>)>,
    sender: Generator,
    receiver: Validator,
    inner: Seq<u8>,
    other: Seq<u8>,
    macs: MacsFooter,
)
    requires
        tags_told_apart(tags),
        tags.contains((sender.mac1_key@, inner)),
        tags.contains((receiver.mac1_key@, other)),
        macs.f_mac1@ == sender.mac1(inner),
    ensures
        receiver.mac1_ok(other, macs) <==> receiver.mac1_key@ == sender.mac1_key@ && other == inner,
{
    let a = (sender.mac1_key@, inner);
    let b = (receiver.mac1_key@, other);
    assert(tags.contains(a) && tags.contains(b));
}

/// The key of the first tag shows the pre-shared key, and the key of the cookies the identity.
pub proof fn law_tag_keys_bind(
    met: Set<Seq<u8>>,
    sender: Generator,
    receiver: Validator,
    psk: Seq<u8>,
    identity: Seq<u8>,
    other_psk: Seq<u8>,
    other_identity: Seq<u8>,
)
    requires
        told_apart(met),
        met.contains(LABEL_MAC1@ + psk),
        met.contains(LABEL_MAC1@ + other_psk),
        met.contains(LABEL_COOKIE@ + identity),
        met.contains(LABEL_COOKIE@ + other_identity),
        sender.mac1_key@ == blake2s(LABEL_MAC1@ + psk),
        receiver.mac1_key@ == blake2s(LABEL_MAC1@ + other_psk),
        sender.cookie_key@ == blake2s(LABEL_COOKIE@ + identity),
        receiver.cookie_key@ == blake2s(LABEL_COOKIE@ + other_identity),
    ensures
        sender.mac1_key@ == receiver.mac1_key@ <==> psk == other_psk,
        sender.cookie_key@ == receiver.cookie_key@ <==> identity == other_identity,
{
    if sender.mac1_key@ == receiver.mac1_key@ {
        lemma_hash(met, LABEL_MAC1@ + psk, LABEL_MAC1@ + other_psk);
        lemma_joined(LABEL_MAC1@, psk, LABEL_MAC1@, other_psk);
    }
    if sender.cookie_key@ == receiver.cookie_key@ {
        lemma_hash(met, LABEL_COOKIE@ + identity, LABEL_COOKIE@ + other_identity);
        lemma_joined(LABEL_COOKIE@, identity, LABEL_COOKIE@, other_identity);
    }
}

/// The cookie of one address is not that of another, and one that was made with another
/// secret is not the same.
pub proof fn law_cookies_bind_the_address(
    tags: Set<(Seq<u8>, Seq<u8>)>,
    a: Validator,
    src: SocketAddr,
    b: Validator,
    other: SocketAddr,
)
    requires
        tags_told_apart(tags),
        tags.contains((a.secret@, src.mac_bytes())),
        tags.contains((b.secret@, other.mac_bytes())),
        a.tau(src) == b.tau(other),
    ensures
        src == other,
        a.secret@ == b.secret@,
{
    let x = (a.secret@, src.mac_bytes());
    let y = (b.secret@, other.mac_bytes());
    assert(tags.contains(x) && tags.contains(y));
    law_address_bytes_bind(src, other);
}

/// A message that passes the check of the second tag was made by one that holds the cookie of
/// the address that it came from: with another cookie, for another message, with another
/// first tag or from another address it does not pass.
pub proof fn law_second_tag_shows_the_address(
    tags: Set<(Seq<u8>, Seq<u8>)>,
    sender: Generator,
    sent: u64,
    inner: Seq<u8>,
    receiver: Validator,
    src: SocketAddr,
    other: Seq<u8>,
    macs: MacsFooter,
    now: u64,
)
    requires
        tags_told_apart(tags),
        sender.has_cookie(sent),
        macs.f_mac1@ == sender.mac1(inner),
        macs.f_mac2@ == sender.mac2(inner, sent),
        tags.contains((sender.cookie->0.value@, inner + sender.mac1(inner))),
        tags.contains((receiver.tau(src), other + macs.f_mac1@)),
        receiver.mac2_ok(other, src, macs, now),
    ensures
        sender.cookie->0.value@ == receiver.tau(src),
        other == inner,
{
    let x = (sender.cookie->0.value@, inner + sender.mac1(inner));
    let y = (receiver.tau(src), other + macs.f_mac1@);
    assert(tags.contains(x) && tags.contains(y));
    assert(inner + macs.f_mac1@ == other + macs.f_mac1@);
    assert((inner + macs.f_mac1@).len() == inner.len() + 16);
    assert((other + macs.f_mac1@).len() == other.len() + 16);
    lemma_joined(inner, macs.f_mac1@, other, macs.f_mac1@);
}

/// A cookie serves for two minutes after it came, and the secret behind the cookies is used
/// for just under two minutes. Without a cookie the second tag is zero, and without a secret
/// no second tag passes.
pub proof fn law_cookies_last_two_minutes(
    sender: Generator,
    receiver: Validator,
    inner: Seq<u8>,
    src: SocketAddr,
    macs: MacsFooter,
    mac1: [u8; 16],
    now: u64,
)
    ensures
        sender.cookie matches Some(c) ==> (sender.has_cookie(now) <==> now <= c.birth
            + 120_000_000_000),
        sender.cookie is None ==> !sender.has_cookie(now),
        !sender.has_cookie(now) ==> sender.mac2(inner, now) == zeros(16),
        receiver.birth matches Some(b) ==> (receiver.has_secret(now) <==> now < b
            + 120_000_000_000),
        receiver.birth is None ==> !receiver.has_secret(now),
        !receiver.has_secret(now) ==> !receiver.mac2_ok(inner, src, macs, now),
        sender.after_generate(mac1, now).last_mac1 == Some(mac1),
        sender.after_generate(mac1, now).mac1_key == sender.mac1_key,
        sender.after_generate(mac1, now).cookie_key == sender.cookie_key,
        sender.has_cookie(now) ==> sender.after_generate(mac1, now).cookie == sender.cookie,
        !sender.has_cookie(now) ==> sender.after_generate(mac1, now).cookie is None,
{
}

/// A secret that is still in use stays. One that is not is replaced by one that depends on the
/// root and on what was drawn, and serves from now on.
pub proof fn law_secrets_are_replaced(
    met: Set<Seq<u8>>,
    before: Validator,
    after: Validator,
    fresh: Seq<u8>,
    other: Validator,
    renewed: Validator,
    drawn: Seq<u8>,
    now: u64,
)
    requires
        after.is_refreshed(before, fresh, now),
        renewed.is_refreshed(other, drawn, now),
        told_apart(met),
        kdf_met(met, before.root@, fresh),
        kdf_met(met, other.root@, drawn),
    ensures
        after.has_secret(now),
        after.root == before.root,
        after.mac1_key == before.mac1_key,
        after.cookie_key == before.cookie_key,
        before.has_secret(now) ==> after == before,
        !before.has_secret(now) ==> after.birth == Some(now),
        !before.has_secret(now) && !other.has_secret(now) && after.secret@ == renewed.secret@
            ==> before.root@ == other.root@ && fresh == drawn,
{
    law_derived_keys_bind(met, before.root@, fresh, other.root@, drawn);
}

/// A reply to another message is not taken for one to the last: a cookie that opens with the
/// first tag of one message only is not opened by a sender whose last tag is another, or that
/// has sent none.
pub proof fn law_replies_are_to_the_last_message(
    sender: Generator,
    nonce: Seq<u8>,
    sealed: Seq<u8>,
    mac1: Seq<u8>,
)
    requires
        forall|ad: Seq<u8>| #[trigger]
            xchacha20poly1305_open(sender.cookie_key@, nonce, ad, sealed) is Some ==> ad == mac1,
    ensures
        sender.opened(nonce, sealed) is Some ==> sender.last_mac1 is Some && sender.last_mac1->0@
            == mac1,
        sender.last_mac1 is None ==> sender.opened(nonce, sealed) is None,
{
}

} // verus!
