//! What the lines of a transcript bring about.

use crate::bytes::zeros;
use crate::decimal::{decimal, law_decimal_round_trip};
use crate::hybrid_v23::peer::key_hash;
use crate::types::IpAddr;
use crate::uapi::encoding::{from_hex, is_hex, law_hex_round_trip, to_hex};
use crate::uapi::set::{
    line, peer_of, prefix_of, private_key_of, slash_at, Addresses, ChangeView, ConfigError,
    LineOutcome, PeerView, Present,
};
use vstd::prelude::*;
use vstd::utf8::encode_utf8;

verus! {

/// Is the protocol version of a peer one that is supported? None said is one.
pub open spec fn version_ok<E>(peer: PeerView<E>, supported: usize) -> bool {
    match peer.protocol_version {
        Some(v) => 1 <= v <= supported,
        None => true,
    }
}

/// When a peer ends that is not removed and whose version is supported, all that was said
/// about it takes effect: an endpoint, a pre-shared key, an interval and each network are set
/// whether or not only an update was asked for, and the peer is added unless it was. Nothing
/// that was not said takes effect.
pub proof fn law_all_that_was_said_takes_effect<E>(peer: PeerView<E>, supported: usize)
    requires
        !peer.remove,
        version_ok(peer, supported),
    ensures
        peer.changes(supported) is Ok,
        ({
            let c = peer.changes(supported)->Ok_0;
            let hash = key_hash(peer.public_key, peer.public_key_pq);
            &&& peer.endpoint matches Some(e) ==> c.contains(ChangeView::SetEndpoint(hash, e))
            &&& peer.preshared_key matches Some(k) ==> c.contains(
                ChangeView::SetPresharedKey(hash, k),
            )
            &&& peer.persistent_keepalive_interval matches Some(n) ==> c.contains(
                ChangeView::SetPersistentKeepaliveInterval(hash, n),
            )
            &&& peer.replace_allowed_ips ==> c.contains(ChangeView::ReplaceAllowedIps(hash))
            &&& forall|i: int|
                0 <= i < peer.allowed_ips.len() ==> c.contains(
                    ChangeView::AddAllowedIp(
                        hash,
                        (#[trigger] peer.allowed_ips[i]).0,
                        peer.allowed_ips[i].1,
                    ),
                )
            &&& c.contains(ChangeView::AddPeer(peer.public_key, peer.public_key_pq, hash))
                <==> !peer.update_only
        }),
        forall|i: int|
            0 <= i < peer.changes(supported)->Ok_0.len() ==> was_said(
                peer,
                #[trigger] peer.changes(supported)->Ok_0[i],
            ),
{
    let c = peer.changes(supported)->Ok_0;
    let hash = peer.hash();
    let a = if peer.update_only {
        Seq::<ChangeView<E>>::empty()
    } else {
        seq![ChangeView::AddPeer(peer.public_key, peer.public_key_pq, hash)]
    };
    let r = if peer.replace_allowed_ips {
        seq![ChangeView::<E>::ReplaceAllowedIps(hash)]
    } else {
        Seq::empty()
    };
    let n = peer.allowed_ips.len() as int;
    let p: int = if peer.preshared_key is Some {
        1
    } else {
        0
    };
    let k: int = if peer.persistent_keepalive_interval is Some {
        1
    } else {
        0
    };
    let e: int = if peer.endpoint is Some {
        1
    } else {
        0
    };
    let base = a.len() + r.len();
    assert(c.len() == base + n + p + k + e);
    if !peer.update_only {
        assert(c[0] == ChangeView::<E>::AddPeer(peer.public_key, peer.public_key_pq, hash));
    }
    if peer.replace_allowed_ips {
        assert(c[a.len() as int] == ChangeView::<E>::ReplaceAllowedIps(hash));
    }
    assert forall|i: int| 0 <= i < n implies c.contains(
        ChangeView::AddAllowedIp(
            hash,
            (#[trigger] peer.allowed_ips[i]).0,
            peer.allowed_ips[i].1,
        ),
    ) by {
        assert(c[base + i] == ChangeView::<E>::AddAllowedIp(
            hash,
            peer.allowed_ips[i].0,
            peer.allowed_ips[i].1,
        ));
    }
    if p == 1 {
        assert(c[base + n] == ChangeView::<E>::SetPresharedKey(hash, peer.preshared_key->0));
    }
    if k == 1 {
        assert(c[base + n + p] == ChangeView::<E>::SetPersistentKeepaliveInterval(
            hash,
            peer.persistent_keepalive_interval->0,
        ));
    }
    if e == 1 {
        assert(c[base + n + p + k] == ChangeView::<E>::SetEndpoint(hash, peer.endpoint->0));
    }
    assert forall|i: int| 0 <= i < c.len() implies was_said(peer, #[trigger] c[i]) by {
        if base <= i < base + n {
            let net = peer.allowed_ips[i - base];
            assert(peer.allowed_ips.contains(net));
            assert(c[i] == ChangeView::<E>::AddAllowedIp(hash, net.0, net.1));
        }
    }
    if peer.update_only && c.contains(
        ChangeView::AddPeer(peer.public_key, peer.public_key_pq, hash),
    ) {
        let i = choose|i: int|
            0 <= i < c.len() && c[i] == ChangeView::<E>::AddPeer(
                peer.public_key,
                peer.public_key_pq,
                hash,
            );
        assert(was_said(peer, c[i]));
    }
}

/// Is this a change that was asked for of this peer?
pub open spec fn was_said<E>(peer: PeerView<E>, change: ChangeView<E>) -> bool {
    let hash = key_hash(peer.public_key, peer.public_key_pq);
    match change {
        ChangeView::AddPeer(pk, pk_pq, h) => !peer.update_only && pk == peer.public_key && pk_pq
            == peer.public_key_pq && h == hash,
        ChangeView::ReplaceAllowedIps(h) => peer.replace_allowed_ips && h == hash,
        ChangeView::AddAllowedIp(h, ip, cidr) => h == hash && peer.allowed_ips.contains((ip, cidr)),
        ChangeView::SetPresharedKey(h, psk) => h == hash && peer.preshared_key == Some(psk),
        ChangeView::SetPersistentKeepaliveInterval(h, secs) => h == hash
            && peer.persistent_keepalive_interval == Some(secs),
        ChangeView::SetEndpoint(h, endpoint) => h == hash && peer.endpoint == Some(endpoint),
        _ => false,
    }
}

/// That only an update was asked for decides on nothing but whether the peer is added: the
/// changes are the same but for that one, which comes first.
pub proof fn law_update_only_decides_on_adding<E>(peer: PeerView<E>, supported: usize)
    requires
        !peer.remove,
        version_ok(peer, supported),
    ensures
        ({
            let update = PeerView { update_only: true, ..peer };
            let create = PeerView { update_only: false, ..peer };
            let hash = key_hash(peer.public_key, peer.public_key_pq);
            &&& update.changes(supported) is Ok
            &&& create.changes(supported) is Ok
            &&& create.changes(supported)->Ok_0 == seq![
                ChangeView::AddPeer(peer.public_key, peer.public_key_pq, hash),
            ] + update.changes(supported)->Ok_0
        }),
{
    let update = PeerView { update_only: true, ..peer };
    let create = PeerView { update_only: false, ..peer };
    let hash = key_hash(peer.public_key, peer.public_key_pq);
    assert(create.changes(supported)->Ok_0 =~= seq![
        ChangeView::AddPeer(peer.public_key, peer.public_key_pq, hash),
    ] + update.changes(supported)->Ok_0);
}

/// One more setting is one more change, and leaves the others and their order as they are.
pub proof fn law_settings_add_up<E>(peer: PeerView<E>, supported: usize, ip: IpAddr, cidr: u32)
    requires
        !peer.remove,
        version_ok(peer, supported),
    ensures
        ({
            let hash = key_hash(peer.public_key, peer.public_key_pq);
            let bare = PeerView {
                preshared_key: None,
                persistent_keepalive_interval: None,
                endpoint: None,
                ..peer
            };
            let more = PeerView { allowed_ips: peer.allowed_ips.push((ip, cidr)), ..bare };
            let c = bare.changes(supported)->Ok_0;
            &&& more.changes(supported)->Ok_0 == c.push(ChangeView::AddAllowedIp(hash, ip, cidr))
            &&& peer.changes(supported)->Ok_0.take(c.len() as int) == c
            &&& peer.changes(supported)->Ok_0.len() == c.len() + (if peer.preshared_key is Some {
                1int
            } else {
                0
            }) + (if peer.persistent_keepalive_interval is Some {
                1int
            } else {
                0
            }) + (if peer.endpoint is Some {
                1int
            } else {
                0
            })
        }),
{
    let hash = key_hash(peer.public_key, peer.public_key_pq);
    let bare = PeerView {
        preshared_key: None,
        persistent_keepalive_interval: None,
        endpoint: None,
        ..peer
    };
    let more = PeerView { allowed_ips: peer.allowed_ips.push((ip, cidr)), ..bare };
    let c = bare.changes(supported)->Ok_0;
    assert(more.changes(supported)->Ok_0 =~= c.push(ChangeView::AddAllowedIp(hash, ip, cidr)));
    assert(peer.changes(supported)->Ok_0.take(c.len() as int) =~= c);
}

/// A peer that is removed is removed, whatever else was said about it, and nothing else
/// happens.
pub proof fn law_removal_is_all<E>(peer: PeerView<E>, supported: usize)
    requires
        peer.remove,
    ensures
        peer.changes(supported) == Ok::<Seq<ChangeView<E>>, ConfigError>(
            seq![ChangeView::RemovePeer(key_hash(peer.public_key, peer.public_key_pq))],
        ),
{
}

/// A peer fails to take effect only for its version: none below one, and none above the
/// supported one.
pub proof fn law_versions<E>(peer: PeerView<E>, supported: usize)
    ensures
        peer.changes(supported) is Err <==> !peer.remove && !version_ok(peer, supported),
        peer.changes(supported) is Err ==> peer.changes(supported)->Err_0
            == ConfigError::UnsupportedProtocolVersion,
{
}

/// A fresh peer has nothing said about it: when it ends at once, it is added, and that is all.
pub proof fn law_fresh_peer_is_added<E>(pk: Seq<u8>, pk_pq: Seq<u8>, supported: usize)
    ensures
        PeerView::<E>::fresh(pk, pk_pq).changes(supported) == Ok::<
            Seq<ChangeView<E>>,
            ConfigError,
        >(seq![ChangeView::AddPeer(pk, pk_pq, key_hash(pk, pk_pq))]),
{
    let c = PeerView::<E>::fresh(pk, pk_pq).changes(supported)->Ok_0;
    assert(c =~= seq![ChangeView::<E>::AddPeer(pk, pk_pq, key_hash(pk, pk_pq))]);
}

/// No two keys of lines about a peer are the same.
proof fn lemma_peer_keys()
    ensures
        "public_key"@ != ""@,
        "public_key"@ != "remove"@,
        "public_key"@ != "update_only"@,
        "public_key"@ != "preshared_key"@,
        "public_key"@ != "endpoint"@,
        "public_key"@ != "persistent_keepalive_interval"@,
        "public_key"@ != "replace_allowed_ips"@,
        "public_key"@ != "allowed_ip"@,
        "public_key"@ != "protocol_version"@,
        ""@ != "remove"@,
        ""@ != "update_only"@,
        ""@ != "preshared_key"@,
        ""@ != "endpoint"@,
        ""@ != "persistent_keepalive_interval"@,
        ""@ != "replace_allowed_ips"@,
        ""@ != "allowed_ip"@,
        ""@ != "protocol_version"@,
        "remove"@ != "update_only"@,
        "remove"@ != "preshared_key"@,
        "remove"@ != "endpoint"@,
        "remove"@ != "persistent_keepalive_interval"@,
        "remove"@ != "replace_allowed_ips"@,
        "remove"@ != "allowed_ip"@,
        "remove"@ != "protocol_version"@,
        "update_only"@ != "preshared_key"@,
        "update_only"@ != "endpoint"@,
        "update_only"@ != "persistent_keepalive_interval"@,
        "update_only"@ != "replace_allowed_ips"@,
        "update_only"@ != "allowed_ip"@,
        "update_only"@ != "protocol_version"@,
        "preshared_key"@ != "endpoint"@,
        "preshared_key"@ != "persistent_keepalive_interval"@,
        "preshared_key"@ != "replace_allowed_ips"@,
        "preshared_key"@ != "allowed_ip"@,
        "preshared_key"@ != "protocol_version"@,
        "endpoint"@ != "persistent_keepalive_interval"@,
        "endpoint"@ != "replace_allowed_ips"@,
        "endpoint"@ != "allowed_ip"@,
        "endpoint"@ != "protocol_version"@,
        "persistent_keepalive_interval"@ != "replace_allowed_ips"@,
        "persistent_keepalive_interval"@ != "allowed_ip"@,
        "persistent_keepalive_interval"@ != "protocol_version"@,
        "replace_allowed_ips"@ != "allowed_ip"@,
        "replace_allowed_ips"@ != "protocol_version"@,
        "allowed_ip"@ != "protocol_version"@,
{
    reveal_strlit("public_key");
    reveal_strlit("");
    reveal_strlit("remove");
    reveal_strlit("update_only");
    reveal_strlit("preshared_key");
    reveal_strlit("endpoint");
    reveal_strlit("persistent_keepalive_interval");
    reveal_strlit("replace_allowed_ips");
    reveal_strlit("allowed_ip");
    reveal_strlit("protocol_version");
    assert("public_key"@.len() == 10);
    assert(""@.len() == 0);
    assert("remove"@.len() == 6);
    assert("update_only"@.len() == 11);
    assert("preshared_key"@.len() == 13);
    assert("endpoint"@.len() == 8);
    assert("persistent_keepalive_interval"@.len() == 29);
    assert("replace_allowed_ips"@.len() == 19);
    assert("allowed_ip"@.len() == 10);
    assert("protocol_version"@.len() == 16);
    assert("public_key"@[0] != "allowed_ip"@[0]);
}

/// No two keys of lines about the interface are the same.
proof fn lemma_interface_keys()
    ensures
        "private_key"@ != "listen_port"@,
        "private_key"@ != "fwmark"@,
        "private_key"@ != "ri_key"@,
        "private_key"@ != "replace_peers"@,
        "private_key"@ != "public_key"@,
        "private_key"@ != ""@,
        "listen_port"@ != "fwmark"@,
        "listen_port"@ != "ri_key"@,
        "listen_port"@ != "replace_peers"@,
        "listen_port"@ != "public_key"@,
        "listen_port"@ != ""@,
        "fwmark"@ != "ri_key"@,
        "fwmark"@ != "replace_peers"@,
        "fwmark"@ != "public_key"@,
        "fwmark"@ != ""@,
        "ri_key"@ != "replace_peers"@,
        "ri_key"@ != "public_key"@,
        "ri_key"@ != ""@,
        "replace_peers"@ != "public_key"@,
        "replace_peers"@ != ""@,
        "public_key"@ != ""@,
{
    reveal_strlit("private_key");
    reveal_strlit("listen_port");
    reveal_strlit("fwmark");
    reveal_strlit("ri_key");
    reveal_strlit("replace_peers");
    reveal_strlit("public_key");
    reveal_strlit("");
    assert("private_key"@.len() == 11);
    assert("listen_port"@.len() == 11);
    assert("fwmark"@.len() == 6);
    assert("ri_key"@.len() == 6);
    assert("replace_peers"@.len() == 13);
    assert("public_key"@.len() == 10);
    assert(""@.len() == 0);
    assert("private_key"@[0] != "listen_port"@[0]);
    assert("fwmark"@[0] != "ri_key"@[0]);
}

/// Lines about a peer whose values can be read say what they say, of one setting each, and
/// leave the rest of what was said as it is. Numbers are decimal, keys are hexadecimal.
pub proof fn law_lines_set_one_setting<E>(
    peer: PeerView<E>,
    value: Seq<char>,
    present: Present,
    addresses: Addresses<E>,
    n: nat,
    data: Seq<u8>,
)
    requires
        n <= u64::MAX,
    ensures
        line(Some(peer), "remove"@, value, present, addresses) == LineOutcome::said(
            PeerView { remove: true, ..peer },
        ),
        line(Some(peer), "update_only"@, value, present, addresses) == LineOutcome::said(
            PeerView { update_only: true, ..peer },
        ),
        encode_utf8(value) == to_hex(data) && data.len() == 32 ==> line(
            Some(peer),
            "preshared_key"@,
            value,
            present,
            addresses,
        ) == LineOutcome::said(PeerView { preshared_key: Some(data), ..peer }),
        addresses.endpoint is Some ==> line(Some(peer), "endpoint"@, value, present, addresses)
            == LineOutcome::said(PeerView { endpoint: addresses.endpoint, ..peer }),
        encode_utf8(value) == decimal(n) ==> line(
            Some(peer),
            "persistent_keepalive_interval"@,
            value,
            present,
            addresses,
        ) == LineOutcome::said(
            PeerView { persistent_keepalive_interval: Some(n as u64), ..peer },
        ),
        encode_utf8(value) == decimal(n) && n <= usize::MAX ==> line(
            Some(peer),
            "protocol_version"@,
            value,
            present,
            addresses,
        ) == LineOutcome::said(PeerView { protocol_version: Some(n as usize), ..peer }),
{
    lemma_peer_keys();
    law_decimal_round_trip(n, u64::MAX as nat);
    if n <= usize::MAX {
        law_decimal_round_trip(n, usize::MAX as nat);
    }
    law_hex_round_trip(data);
}

/// A network is an address, a slash and a decimal number, and is added behind those that were
/// named before.
pub proof fn law_network_line<E>(
    peer: PeerView<E>,
    value: Seq<char>,
    present: Present,
    addresses: Addresses<E>,
    address: Seq<u8>,
    cidr: u32,
)
    requires
        encode_utf8(value) == address + seq![0x2fu8] + decimal(cidr as nat),
        forall|i: int| 0 <= i < address.len() ==> address[i] != 0x2f,
    ensures
        slash_at(encode_utf8(value)) == address.len(),
        prefix_of(encode_utf8(value)) == Some(cidr as nat),
        addresses.network matches Some(ip) ==> line(
            Some(peer),
            "allowed_ip"@,
            value,
            present,
            addresses,
        ) == LineOutcome::said(
            PeerView { allowed_ips: peer.allowed_ips.push((ip, cidr)), ..peer },
        ),
        addresses.network is None ==> line(Some(peer), "allowed_ip"@, value, present, addresses)
            == LineOutcome::refused(Some(peer), ConfigError::InvalidAllowedIp),
{
    let bytes = encode_utf8(value);
    lemma_peer_keys();
    lemma_slash(bytes, address.len() as int);
    assert(bytes.skip(address.len() as int + 1) =~= decimal(cidr as nat));
    law_decimal_round_trip(cidr as nat, u32::MAX as nat);
}

proof fn lemma_slash(s: Seq<u8>, n: int)
    requires
        0 <= n <= s.len(),
        forall|i: int| 0 <= i < n ==> s[i] != 0x2f,
        n < s.len() ==> s[n] == 0x2f,
    ensures
        slash_at(s) == n,
    decreases n,
{
    if n > 0 {
        assert forall|i: int| 0 <= i < n - 1 implies s.drop_first()[i] != 0x2f by {
            assert(s.drop_first()[i] == s[i + 1]);
        }
        lemma_slash(s.drop_first(), n - 1);
    }
}

/// A line that is refused changes nothing and leaves the peer as it was, and a key that no
/// line has is refused as such.
pub proof fn law_refused_lines_change_nothing<E>(
    peer: PeerView<E>,
    key: Seq<char>,
    value: Seq<char>,
    present: Present,
    addresses: Addresses<E>,
)
    ensures
        ({
            let r = line(Some(peer), key, value, present, addresses);
            let bytes = encode_utf8(value);
            &&& r.result is Err ==> r.peer == Some(peer)
            &&& r.result is Err && key != "public_key"@ ==> r.changes.len() == 0
            &&& key == "preshared_key"@ && (!is_hex(bytes) || from_hex(bytes).len() != 32)
                ==> r.result == Err::<(), ConfigError>(ConfigError::InvalidHexValue)
            &&& key == "endpoint"@ && addresses.endpoint is None ==> r.result == Err::<
                (),
                ConfigError,
            >(ConfigError::InvalidSocketAddr)
        }),
        ({
            let r = line::<E>(None, key, value, present, addresses);
            &&& r.result is Err ==> r.peer is None && r.changes.len() == 0
            &&& key == ""@ ==> r.result is Ok && r.peer is None && r.changes.len() == 0
        }),
{
    lemma_peer_keys();
    lemma_interface_keys();
}

/// Lines with a key that is not known are refused, about the interface as about a peer.
pub proof fn law_unknown_keys_are_refused<E>(
    peer: PeerView<E>,
    key: Seq<char>,
    value: Seq<char>,
    present: Present,
    addresses: Addresses<E>,
)
    ensures
        ({
            ||| key == "public_key"@
            ||| key == ""@
            ||| key == "remove"@
            ||| key == "update_only"@
            ||| key == "preshared_key"@
            ||| key == "endpoint"@
            ||| key == "persistent_keepalive_interval"@
            ||| key == "replace_allowed_ips"@
            ||| key == "allowed_ip"@
            ||| key == "protocol_version"@
            ||| line(Some(peer), key, value, present, addresses) == LineOutcome::refused(
                Some(peer),
                ConfigError::InvalidKey,
            )
        }),
        ({
            ||| key == "private_key"@
            ||| key == "listen_port"@
            ||| key == "fwmark"@
            ||| key == "ri_key"@
            ||| key == "replace_peers"@
            ||| key == "public_key"@
            ||| key == ""@
            ||| line::<E>(None, key, value, present, addresses) == LineOutcome::<E>::refused(
                None,
                ConfigError::InvalidKey,
            )
        }),
{
}

/// A public key of 32 bytes and the encapsulation key behind it begin a peer with these keys,
/// of which nothing is said yet.
pub proof fn law_public_key_begins_a_peer<E>(pk: Seq<u8>, pk_pq: Seq<u8>)
    requires
        pk.len() == 32,
        pk_pq.len() == 524160,
    ensures
        peer_of::<E>(to_hex(pk + pk_pq)) matches Some(peer) && {
            &&& peer.public_key == pk
            &&& peer.public_key_pq == pk_pq
            &&& !peer.update_only
            &&& !peer.remove
            &&& !peer.replace_allowed_ips
            &&& peer.allowed_ips.len() == 0
            &&& peer.preshared_key is None
            &&& peer.persistent_keepalive_interval is None
            &&& peer.protocol_version is None
            &&& peer.endpoint is None
        },
{
    law_hex_round_trip(pk + pk_pq);
    assert((pk + pk_pq).take(32) =~= pk);
    assert((pk + pk_pq).skip(32) =~= pk_pq);
}

/// A private key holds the secret key of the curve, the secret encapsulation key and the
/// public one, in this order; one of zeros alone takes the key away.
pub proof fn law_private_key_has_three_parts(sk: Seq<u8>, sk_pq: Seq<u8>, pk_pq: Seq<u8>)
    requires
        sk.len() == 32,
        sk_pq.len() == 13608,
        pk_pq.len() == 524160,
    ensures
        sk + sk_pq + pk_pq != zeros(537800) ==> private_key_of(to_hex(sk + sk_pq + pk_pq)) == Ok::<
            Option<(Seq<u8>, Seq<u8>, Seq<u8>)>,
            ConfigError,
        >(Some((sk, sk_pq, pk_pq))),
        sk + sk_pq + pk_pq == zeros(537800) ==> private_key_of(to_hex(sk + sk_pq + pk_pq)) == Ok::<
            Option<(Seq<u8>, Seq<u8>, Seq<u8>)>,
            ConfigError,
        >(None),
{
    let all = sk + sk_pq + pk_pq;
    law_hex_round_trip(all);
    assert(all.take(32) =~= sk);
    assert(all.subrange(32, 13640) =~= sk_pq);
    assert(all.skip(13640) =~= pk_pq);
}

/// Lines about the interface whose values can be read set the port, the mark and the
/// rendezvous key; a mark of zero and a key of zeros take them away, and a port above the
/// largest one is refused.
pub proof fn law_interface_lines<E>(
    value: Seq<char>,
    present: Present,
    addresses: Addresses<E>,
    n: nat,
    data: Seq<u8>,
)
    ensures
        encode_utf8(value) == decimal(n) && n <= 65535 ==> line::<E>(
            None,
            "listen_port"@,
            value,
            present,
            addresses,
        ) == LineOutcome::<E>::change(ChangeView::SetListenPort(n as u16)),
        encode_utf8(value) == decimal(n) && n > 65535 ==> line::<E>(
            None,
            "listen_port"@,
            value,
            present,
            addresses,
        ) == LineOutcome::<E>::refused(None, ConfigError::InvalidPortNumber),
        encode_utf8(value) == decimal(n) && 0 < n <= 0xffff_ffff ==> line::<E>(
            None,
            "fwmark"@,
            value,
            present,
            addresses,
        ) == LineOutcome::<E>::change(ChangeView::SetFwmark(Some(n as u32))),
        encode_utf8(value) == decimal(0) ==> line::<E>(None, "fwmark"@, value, present, addresses)
            == LineOutcome::<E>::change(ChangeView::SetFwmark(None)),
        encode_utf8(value) == decimal(n) && n > 0xffff_ffff ==> line::<E>(
            None,
            "fwmark"@,
            value,
            present,
            addresses,
        ) == LineOutcome::<E>::refused(None, ConfigError::InvalidFwmark),
        encode_utf8(value) == to_hex(data) && data.len() == 8 && data != zeros(8) ==> line::<E>(
            None,
            "ri_key"@,
            value,
            present,
            addresses,
        ) == LineOutcome::<E>::change(ChangeView::SetRiKey(Some(data))),
        encode_utf8(value) == to_hex(zeros(8)) ==> line::<E>(
            None,
            "ri_key"@,
            value,
            present,
            addresses,
        ) == LineOutcome::<E>::change(ChangeView::SetRiKey(None)),
        encode_utf8(value) == to_hex(data) && data.len() != 8 ==> line::<E>(
            None,
            "ri_key"@,
            value,
            present,
            addresses,
        ) == LineOutcome::<E>::refused(None, ConfigError::InvalidHexValue),
{
    lemma_interface_keys();
    law_hex_round_trip(data);
    law_hex_round_trip(zeros(8));
    law_decimal_round_trip(n, n);
    law_decimal_round_trip(0, 0);
}

/// Replacing the peers removes each one that is there, in order, and nothing else; any value
/// but `true` is refused.
pub proof fn law_replace_peers<E>(value: Seq<char>, present: Present, addresses: Addresses<E>)
    ensures
        ({
            let r = line::<E>(None, "replace_peers"@, value, present, addresses);
            if value == "true"@ {
                &&& r.result is Ok
                &&& r.peer is None
                &&& r.changes.len() == present.peers@.len()
                &&& forall|i: int|
                    0 <= i < present.peers@.len() ==> #[trigger] r.changes[i] == ChangeView::<
                        E,
                    >::RemovePeer(
                        key_hash(
                            present.peers@[i].public_key@,
                            present.peers@[i].public_key_pq@,
                        ),
                    )
            } else {
                r == LineOutcome::<E>::refused(None, ConfigError::UnsupportedValue)
            }
        }),
{
    lemma_interface_keys();
}

/// The next public key, or an empty key, ends a peer: what was said about it takes effect, and
/// after a public key that can be read the next peer begins.
pub proof fn law_peer_ends<E>(
    peer: PeerView<E>,
    value: Seq<char>,
    present: Present,
    addresses: Addresses<E>,
)
    requires
        peer.remove || version_ok(peer, present.protocol_version),
    ensures
        ({
            let r = line(Some(peer), ""@, value, present, addresses);
            &&& r.result is Ok
            &&& r.changes == peer.changes(present.protocol_version)->Ok_0
        }),
        ({
            let r = line(Some(peer), "public_key"@, value, present, addresses);
            &&& r.changes == peer.changes(present.protocol_version)->Ok_0
            &&& match peer_of::<E>(encode_utf8(value)) {
                Some(next) => r.result is Ok && r.peer == Some(next),
                None => r.result == Err::<(), ConfigError>(ConfigError::InvalidHexValue) && r.peer
                    == Some(peer),
            }
        }),
{
    lemma_peer_keys();
}

} // verus!
