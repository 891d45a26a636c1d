//! The text of a configuration, read back.

use crate::decimal::{decimal, law_decimal_round_trip, unsigned_value};
use crate::uapi::encoding::{from_hex, law_hex_round_trip, to_hex};
use crate::uapi::get::{
    interface_text, line, network_text, networks_text, number_line, peer_text, peers_text,
    settings_text, Configuration, PeerState,
};
use vstd::prelude::*;
use vstd::utf8::*;

verus! {

/// Where a byte occurs first, or the length where it does not.
pub open spec fn first(s: Seq<u8>, b: u8) -> nat
    decreases s.len(),
{
    if s.len() == 0 || s[0] == b {
        0
    } else {
        1 + first(s.drop_first(), b)
    }
}

proof fn lemma_first(s: Seq<u8>, b: u8, n: int)
    requires
        0 <= n <= s.len(),
        forall|i: int| 0 <= i < n ==> s[i] != b,
        n < s.len() ==> s[n] == b,
    ensures
        first(s, b) == n,
    decreases n,
{
    if n > 0 {
        assert forall|i: int| 0 <= i < n - 1 implies s.drop_first()[i] != b by {
            assert(s.drop_first()[i] == s[i + 1]);
        }
        lemma_first(s.drop_first(), b, n - 1);
    }
}

/// What a reader knows of a peer.
pub ghost struct PeerReading {
    pub public_key: Seq<u8>,
    pub preshared_key: Option<Seq<u8>>,
    pub rx_bytes: Option<nat>,
    pub tx_bytes: Option<nat>,
    pub persistent_keepalive_interval: Option<nat>,
    pub last_handshake_sec: Option<nat>,
    pub last_handshake_nsec: Option<nat>,
    pub endpoint: Option<Seq<u8>>,
    pub allowed_ips: Seq<(Seq<u8>, Option<nat>)>,
}

/// What a reader knows of a configuration.
pub ghost struct Reading {
    pub private_key: Option<Seq<u8>>,
    pub listen_port: Option<nat>,
    pub fwmark: Option<nat>,
    pub peers: Seq<PeerReading>,
}

impl PeerReading {
    /// A peer of which the key has been read.
    pub open spec fn begun(public_key: Seq<u8>) -> Self {
        PeerReading {
            public_key,
            preshared_key: None,
            rx_bytes: None,
            tx_bytes: None,
            persistent_keepalive_interval: None,
            last_handshake_sec: None,
            last_handshake_nsec: None,
            endpoint: None,
            allowed_ips: Seq::empty(),
        }
    }

    /// After one more line of the peer: numbers are read as decimal numbers, keys as
    /// hexadecimal digits, and a network as an address, a slash and a decimal number.
    #[verifier::opaque]
    pub open spec fn after(self, key: Seq<char>, value: Seq<u8>) -> Self {
        let number = unsigned_value(value, u64::MAX as nat);
        let slash = first(value, 0x2f);
        if key == "preshared_key"@ {
            PeerReading { preshared_key: Some(from_hex(value)), ..self }
        } else if key == "rx_bytes"@ {
            PeerReading { rx_bytes: number, ..self }
        } else if key == "tx_bytes"@ {
            PeerReading { tx_bytes: number, ..self }
        } else if key == "persistent_keepalive_interval"@ {
            PeerReading { persistent_keepalive_interval: number, ..self }
        } else if key == "last_handshake_time_sec"@ {
            PeerReading { last_handshake_sec: number, ..self }
        } else if key == "last_handshake_time_nsec"@ {
            PeerReading { last_handshake_nsec: number, ..self }
        } else if key == "endpoint"@ {
            PeerReading { endpoint: Some(value), ..self }
        } else if key == "allowed_ip"@ {
            PeerReading {
                allowed_ips: self.allowed_ips.push(
                    (
                        value.take(slash as int),
                        unsigned_value(value.skip(slash as int + 1), u32::MAX as nat),
                    ),
                ),
                ..self
            }
        } else {
            self
        }
    }
}

impl Reading {
    /// What is known before the first line.
    pub open spec fn nothing() -> Self {
        Reading { private_key: None, listen_port: None, fwmark: None, peers: Seq::empty() }
    }

    /// After one more line. A public key begins a peer, and what follows is about it.
    #[verifier::opaque]
    pub open spec fn after(self, key: Seq<char>, value: Seq<u8>) -> Self {
        if key == "private_key"@ {
            Reading { private_key: Some(from_hex(value)), ..self }
        } else if key == "listen_port"@ {
            Reading { listen_port: unsigned_value(value, u16::MAX as nat), ..self }
        } else if key == "fwmark"@ {
            Reading { fwmark: unsigned_value(value, u32::MAX as nat), ..self }
        } else if key == "public_key"@ {
            Reading { peers: self.peers.push(PeerReading::begun(from_hex(value))), ..self }
        } else if self.peers.len() > 0 {
            self.with_last(self.peers.last().after(key, value))
        } else {
            self
        }
    }

    pub open spec fn with_last(self, peer: PeerReading) -> Self {
        Reading { peers: self.peers.drop_last().push(peer), ..self }
    }

    /// After a text: it is read line by line, and each line is parted at its first `=`.
    pub open spec fn after_text(self, text: Seq<u8>) -> Self
        decreases text.len(),
    {
        let end = first(text, 0x0a);
        let line = text.take(end as int);
        let mark = first(line, 0x3d);
        if end >= text.len() {
            self
        } else {
            self.after(decode_utf8(line.take(mark as int)), line.skip(mark as int + 1)).after_text(
                text.skip(end as int + 1),
            )
        }
    }
}

/// Does the key of a line consist of small letters and underscores?
spec fn plain_key(key: Seq<char>) -> bool {
    forall|i: int|
        0 <= i < key.len() ==> 'A' <= #[trigger] key[i] <= '\u{7f}'
}

/// Is the text free of line ends?
pub open spec fn on_one_line(text: Seq<u8>) -> bool {
    forall|i: int| 0 <= i < text.len() ==> #[trigger] text[i] != 0x0a
}

proof fn lemma_line(from: Reading, key: Seq<char>, value: Seq<u8>, rest: Seq<u8>)
    requires
        plain_key(key),
        on_one_line(value),
    ensures
        from.after_text(line(key, value) + rest) == from.after(key, value).after_text(rest),
{
    reveal(line);
    let k = encode_utf8(key);
    let text = line(key, value) + rest;
    assert(is_ascii_chars(key));
    is_ascii_chars_encode_utf8(key);
    assert forall|i: int| 0 <= i < k.len() implies #[trigger] k[i] != 0x3d && k[i] != 0x0a by {
        assert(key[i] as u8 == k[i]);
        assert('A' <= key[i] <= '\u{7f}');
    }
    let n = k.len() + 1 + value.len();
    let body = k + seq![0x3du8] + value;
    assert(text.take(n as int) =~= body);
    assert forall|i: int| 0 <= i < n implies text[i] != 0x0a by {
        assert(text[i] == body[i]);
        if i < k.len() {
            assert(body[i] == k[i]);
        } else if i > k.len() {
            assert(body[i] == value[i - k.len() - 1]);
        }
    }
    lemma_first(text, 0x0a, n as int);
    assert forall|i: int| 0 <= i < k.len() implies body[i] != 0x3d by {
        assert(body[i] == k[i]);
    }
    lemma_first(body, 0x3d, k.len() as int);
    assert(body.take(k.len() as int) =~= k);
    assert(body.skip(k.len() as int + 1) =~= value);
    assert(text.skip(n as int + 1) =~= rest);
    encode_utf8_decode_utf8(key);
}

proof fn lemma_hex_on_one_line(data: Seq<u8>)
    ensures
        on_one_line(to_hex(data)),
{
    let text = to_hex(data);
    assert forall|i: int| 0 <= i < text.len() implies #[trigger] text[i] != 0x0a by {
        assert(0 <= data[i / 2] as int / 16 < 16);
        assert(0 <= data[i / 2] as int % 16 < 16);
    }
}

proof fn lemma_decimal_is_digits(n: nat)
    ensures
        forall|i: int| 0 <= i < decimal(n).len() ==> 0x30 <= #[trigger] decimal(n)[i] <= 0x39,
    decreases n,
{
    if n >= 10 {
        let front = decimal(n / 10);
        lemma_decimal_is_digits(n / 10);
        assert forall|i: int| 0 <= i < decimal(n).len() implies 0x30 <= #[trigger] decimal(n)[i]
            <= 0x39 by {
            if i < front.len() {
                assert(decimal(n)[i] == front[i]);
            }
        }
    }
}

proof fn lemma_number_line(from: Reading, key: Seq<char>, n: nat, rest: Seq<u8>)
    requires
        plain_key(key),
    ensures
        from.after_text(number_line(key, n) + rest) == from.after(key, decimal(n)).after_text(rest),
{
    lemma_decimal_is_digits(n);
    lemma_line(from, key, decimal(n), rest);
}

proof fn lemma_hex_line(from: Reading, key: Seq<char>, data: Seq<u8>, rest: Seq<u8>)
    requires
        plain_key(key),
    ensures
        from.after_text(line(key, to_hex(data)) + rest) == from.after(key, to_hex(data)).after_text(
            rest,
        ),
        from_hex(to_hex(data)) == data,
{
    lemma_hex_on_one_line(data);
    law_hex_round_trip(data);
    lemma_line(from, key, to_hex(data), rest);
}

/// The keys of the lines are plain, and no two are the same.
proof fn lemma_keys()
    ensures
        plain_key("private_key"@),
        plain_key("listen_port"@),
        plain_key("fwmark"@),
        plain_key("public_key"@),
        plain_key("preshared_key"@),
        plain_key("rx_bytes"@),
        plain_key("tx_bytes"@),
        plain_key("persistent_keepalive_interval"@),
        plain_key("last_handshake_time_sec"@),
        plain_key("last_handshake_time_nsec"@),
        plain_key("endpoint"@),
        plain_key("allowed_ip"@),
        "private_key"@ != "listen_port"@,
        "private_key"@ != "fwmark"@,
        "private_key"@ != "public_key"@,
        "private_key"@ != "preshared_key"@,
        "private_key"@ != "rx_bytes"@,
        "private_key"@ != "tx_bytes"@,
        "private_key"@ != "persistent_keepalive_interval"@,
        "private_key"@ != "last_handshake_time_sec"@,
        "private_key"@ != "last_handshake_time_nsec"@,
        "private_key"@ != "endpoint"@,
        "private_key"@ != "allowed_ip"@,
        "listen_port"@ != "fwmark"@,
        "listen_port"@ != "public_key"@,
        "listen_port"@ != "preshared_key"@,
        "listen_port"@ != "rx_bytes"@,
        "listen_port"@ != "tx_bytes"@,
        "listen_port"@ != "persistent_keepalive_interval"@,
        "listen_port"@ != "last_handshake_time_sec"@,
        "listen_port"@ != "last_handshake_time_nsec"@,
        "listen_port"@ != "endpoint"@,
        "listen_port"@ != "allowed_ip"@,
        "fwmark"@ != "public_key"@,
        "fwmark"@ != "preshared_key"@,
        "fwmark"@ != "rx_bytes"@,
        "fwmark"@ != "tx_bytes"@,
        "fwmark"@ != "persistent_keepalive_interval"@,
        "fwmark"@ != "last_handshake_time_sec"@,
        "fwmark"@ != "last_handshake_time_nsec"@,
        "fwmark"@ != "endpoint"@,
        "fwmark"@ != "allowed_ip"@,
        "public_key"@ != "preshared_key"@,
        "public_key"@ != "rx_bytes"@,
        "public_key"@ != "tx_bytes"@,
        "public_key"@ != "persistent_keepalive_interval"@,
        "public_key"@ != "last_handshake_time_sec"@,
        "public_key"@ != "last_handshake_time_nsec"@,
        "public_key"@ != "endpoint"@,
        "public_key"@ != "allowed_ip"@,
        "preshared_key"@ != "rx_bytes"@,
        "preshared_key"@ != "tx_bytes"@,
        "preshared_key"@ != "persistent_keepalive_interval"@,
        "preshared_key"@ != "last_handshake_time_sec"@,
        "preshared_key"@ != "last_handshake_time_nsec"@,
        "preshared_key"@ != "endpoint"@,
        "preshared_key"@ != "allowed_ip"@,
        "rx_bytes"@ != "tx_bytes"@,
        "rx_bytes"@ != "persistent_keepalive_interval"@,
        "rx_bytes"@ != "last_handshake_time_sec"@,
        "rx_bytes"@ != "last_handshake_time_nsec"@,
        "rx_bytes"@ != "endpoint"@,
        "rx_bytes"@ != "allowed_ip"@,
        "tx_bytes"@ != "persistent_keepalive_interval"@,
        "tx_bytes"@ != "last_handshake_time_sec"@,
        "tx_bytes"@ != "last_handshake_time_nsec"@,
        "tx_bytes"@ != "endpoint"@,
        "tx_bytes"@ != "allowed_ip"@,
        "persistent_keepalive_interval"@ != "last_handshake_time_sec"@,
        "persistent_keepalive_interval"@ != "last_handshake_time_nsec"@,
        "persistent_keepalive_interval"@ != "endpoint"@,
        "persistent_keepalive_interval"@ != "allowed_ip"@,
        "last_handshake_time_sec"@ != "last_handshake_time_nsec"@,
        "last_handshake_time_sec"@ != "endpoint"@,
        "last_handshake_time_sec"@ != "allowed_ip"@,
        "last_handshake_time_nsec"@ != "endpoint"@,
        "last_handshake_time_nsec"@ != "allowed_ip"@,
        "endpoint"@ != "allowed_ip"@,
{
    reveal_strlit("private_key");
    reveal_strlit("listen_port");
    reveal_strlit("fwmark");
    reveal_strlit("public_key");
    reveal_strlit("preshared_key");
    reveal_strlit("rx_bytes");
    reveal_strlit("tx_bytes");
    reveal_strlit("persistent_keepalive_interval");
    reveal_strlit("last_handshake_time_sec");
    reveal_strlit("last_handshake_time_nsec");
    reveal_strlit("endpoint");
    reveal_strlit("allowed_ip");
    assert("private_key"@.len() == 11);
    assert("listen_port"@.len() == 11);
    assert("fwmark"@.len() == 6);
    assert("public_key"@.len() == 10);
    assert("preshared_key"@.len() == 13);
    assert("rx_bytes"@.len() == 8);
    assert("tx_bytes"@.len() == 8);
    assert("persistent_keepalive_interval"@.len() == 29);
    assert("last_handshake_time_sec"@.len() == 23);
    assert("last_handshake_time_nsec"@.len() == 24);
    assert("endpoint"@.len() == 8);
    assert("allowed_ip"@.len() == 10);
    assert("private_key"@[0] != "listen_port"@[0]);
    assert("public_key"@[0] != "allowed_ip"@[0]);
    assert("rx_bytes"@[0] != "tx_bytes"@[0]);
    assert("rx_bytes"@[0] != "endpoint"@[0]);
    assert("tx_bytes"@[0] != "endpoint"@[0]);
}

/// What is to be read of a peer.
pub open spec fn peer_reading(peer: PeerState) -> PeerReading {
    PeerReading {
        public_key: peer.public_key_pq@,
        preshared_key: Some(peer.preshared_key@),
        rx_bytes: Some(peer.rx_bytes as nat),
        tx_bytes: Some(peer.tx_bytes as nat),
        persistent_keepalive_interval: Some(peer.persistent_keepalive_interval as nat),
        last_handshake_sec: match peer.last_handshake_time {
            Some((secs, _)) => Some(secs as nat),
            None => None,
        },
        last_handshake_nsec: match peer.last_handshake_time {
            Some((_, nsecs)) => Some(nsecs as nat),
            None => None,
        },
        endpoint: match peer.endpoint {
            Some(endpoint) => Some(endpoint@),
            None => None,
        },
        allowed_ips: Seq::new(
            peer.allowed_ips@.len(),
            |i: int| (peer.allowed_ips@[i].0@, Some(peer.allowed_ips@[i].1 as nat)),
        ),
    }
}

/// Do the addresses of a peer fit on a line, and do those of its networks hold no slash?
pub open spec fn plain_addresses(peer: PeerState) -> bool {
    &&& peer.endpoint matches Some(endpoint) ==> on_one_line(endpoint@)
    &&& forall|i: int|
        0 <= i < peer.allowed_ips@.len() ==> plain_network(#[trigger] peer.allowed_ips@[i])
}

pub open spec fn plain_network(network: (Vec<u8>, u32)) -> bool {
    forall|j: int|
        0 <= j < network.0@.len() ==> #[trigger] network.0@[j] != 0x0a && network.0@[j] != 0x2f
}

spec fn read_networks(networks: Seq<(Vec<u8>, u32)>) -> Seq<(Seq<u8>, Option<nat>)> {
    Seq::new(networks.len(), |i: int| (networks[i].0@, Some(networks[i].1 as nat)))
}

proof fn lemma_network(from: Reading, network: (Vec<u8>, u32), rest: Seq<u8>)
    requires
        from.peers.len() > 0,
        plain_network(network),
    ensures
        ({
            let p = from.peers.last();
            from.after_text(line("allowed_ip"@, network_text(network)) + rest) == from.with_last(
                PeerReading {
                    allowed_ips: p.allowed_ips.push((network.0@, Some(network.1 as nat))),
                    ..p
                },
            ).after_text(rest)
        }),
{
    let value = network_text(network);
    let n = network.0@.len() as int;
    reveal(PeerReading::after);
    reveal(Reading::after);
    lemma_keys();
    lemma_decimal_is_digits(network.1 as nat);
    law_decimal_round_trip(network.1 as nat, u32::MAX as nat);
    assert(on_one_line(value)) by {
        assert forall|i: int| 0 <= i < value.len() implies #[trigger] value[i] != 0x0a by {
            if i < n {
                assert(value[i] == network.0@[i]);
            } else if i > n {
                assert(value[i] == decimal(network.1 as nat)[i - n - 1]);
            }
        }
    }
    assert forall|i: int| 0 <= i < n implies value[i] != 0x2f by {
        assert(value[i] == network.0@[i]);
    }
    lemma_first(value, 0x2f, n);
    assert(value.take(n) =~= network.0@);
    assert(value.skip(n + 1) =~= decimal(network.1 as nat));
    lemma_line(from, "allowed_ip"@, value, rest);
}

proof fn lemma_networks(from: Reading, networks: Seq<(Vec<u8>, u32)>, rest: Seq<u8>)
    requires
        from.peers.len() > 0,
        forall|i: int| 0 <= i < networks.len() ==> plain_network(#[trigger] networks[i]),
    ensures
        ({
            let p = from.peers.last();
            from.after_text(networks_text(networks) + rest) == from.with_last(
                PeerReading { allowed_ips: p.allowed_ips + read_networks(networks), ..p },
            ).after_text(rest)
        }),
    decreases networks.len(),
{
    let p = from.peers.last();
    if networks.len() == 0 {
        assert(networks_text(networks) + rest =~= rest);
        assert(p.allowed_ips + read_networks(networks) =~= p.allowed_ips);
        assert(from.peers.drop_last().push(p) =~= from.peers);
    } else {
        let front = networks.drop_last();
        let last = line("allowed_ip"@, network_text(networks.last()));
        assert forall|i: int| 0 <= i < front.len() implies plain_network(#[trigger] front[i]) by {
            assert(front[i] == networks[i]);
        }
        assert(plain_network(networks[networks.len() - 1]));
        assert(networks_text(networks) + rest =~= networks_text(front) + (last + rest));
        lemma_networks(from, front, last + rest);
        let q = PeerReading { allowed_ips: p.allowed_ips + read_networks(front), ..p };
        let mid = from.with_last(q);
        assert(mid.peers.last() == q);
        assert(mid.peers.drop_last() =~= from.peers.drop_last());
        lemma_network(mid, networks.last(), rest);
        let entry = (networks.last().0@, Some(networks.last().1 as nat));
        assert(q.allowed_ips.push(entry) =~= p.allowed_ips + read_networks(networks));
    }
}

/// Puts the last peer in place of the one before.
proof fn lemma_with_last(from: Reading, p: PeerReading, q: PeerReading)
    requires
        from.peers.len() > 0,
    ensures
        from.with_last(p).with_last(q) == from.with_last(q),
        from.with_last(p).peers.last() == p,
        from.with_last(p).peers.len() == from.peers.len(),
{
    assert(from.with_last(p).peers.drop_last() =~= from.peers.drop_last());
}

/// One numeric line about the last peer.
proof fn lemma_peer_number(from: Reading, key: Seq<char>, n: nat, rest: Seq<u8>)
    requires
        from.peers.len() > 0,
        plain_key(key),
        key != "private_key"@,
        key != "listen_port"@,
        key != "fwmark"@,
        key != "public_key"@,
        n <= u64::MAX,
    ensures
        from.after_text(number_line(key, n) + rest) == from.with_last(
            from.peers.last().after(key, decimal(n)),
        ).after_text(rest),
{
    reveal(Reading::after);
    lemma_number_line(from, key, n, rest);
}

/// What one line says of a peer.
proof fn lemma_after(p: PeerReading, n: nat, data: Seq<u8>)
    requires
        n <= u64::MAX,
    ensures
        p.after("preshared_key"@, to_hex(data)) == (PeerReading { preshared_key: Some(data), ..p }),
        p.after("rx_bytes"@, decimal(n)) == (PeerReading { rx_bytes: Some(n), ..p }),
        p.after("tx_bytes"@, decimal(n)) == (PeerReading { tx_bytes: Some(n), ..p }),
        p.after("persistent_keepalive_interval"@, decimal(n)) == (PeerReading {
            persistent_keepalive_interval: Some(n),
            ..p
        }),
        p.after("last_handshake_time_sec"@, decimal(n)) == (PeerReading {
            last_handshake_sec: Some(n),
            ..p
        }),
        p.after("last_handshake_time_nsec"@, decimal(n)) == (PeerReading {
            last_handshake_nsec: Some(n),
            ..p
        }),
        p.after("endpoint"@, data) == (PeerReading { endpoint: Some(data), ..p }),
{
    reveal(PeerReading::after);
    lemma_keys();
    law_decimal_round_trip(n, u64::MAX as nat);
    law_hex_round_trip(data);
}

/// The first lines about a peer.
spec fn head_text(peer: PeerState) -> Seq<u8> {
    line("public_key"@, to_hex(peer.public_key_pq@)) + line(
        "preshared_key"@,
        to_hex(peer.preshared_key@),
    ) + number_line("rx_bytes"@, peer.rx_bytes as nat) + number_line(
        "tx_bytes"@,
        peer.tx_bytes as nat,
    ) + number_line(
        "persistent_keepalive_interval"@,
        peer.persistent_keepalive_interval as nat,
    )
}

/// What is read of the first lines.
spec fn head_reading(peer: PeerState) -> PeerReading {
    PeerReading {
        last_handshake_sec: None,
        last_handshake_nsec: None,
        endpoint: None,
        allowed_ips: Seq::empty(),
        ..peer_reading(peer)
    }
}

proof fn lemma_public_key(from: Reading, data: Seq<u8>, rest: Seq<u8>)
    ensures
        from.after_text(line("public_key"@, to_hex(data)) + rest) == (Reading {
            peers: from.peers.push(PeerReading::begun(data)),
            ..from
        }).after_text(rest),
{
    reveal(Reading::after);
    lemma_keys();
    lemma_hex_line(from, "public_key"@, data, rest);
}

/// One line of text about the last peer.
proof fn lemma_peer_text(from: Reading, key: Seq<char>, value: Seq<u8>, rest: Seq<u8>)
    requires
        from.peers.len() > 0,
        plain_key(key),
        on_one_line(value),
        key != "private_key"@,
        key != "listen_port"@,
        key != "fwmark"@,
        key != "public_key"@,
    ensures
        from.after_text(line(key, value) + rest) == from.with_last(
            from.peers.last().after(key, value),
        ).after_text(rest),
{
    reveal(Reading::after);
    lemma_line(from, key, value, rest);
}

proof fn lemma_head(from: Reading, peer: PeerState, rest: Seq<u8>)
    ensures
        from.after_text(head_text(peer) + rest) == (Reading {
            peers: from.peers.push(head_reading(peer)),
            ..from
        }).after_text(rest),
{
    lemma_keys();
    let l1 = line("public_key"@, to_hex(peer.public_key_pq@));
    let l2 = line("preshared_key"@, to_hex(peer.preshared_key@));
    let (rx, tx) = (peer.rx_bytes as nat, peer.tx_bytes as nat);
    let keepalive = peer.persistent_keepalive_interval as nat;
    let l3 = number_line("rx_bytes"@, rx);
    let l4 = number_line("tx_bytes"@, tx);
    let l5 = number_line("persistent_keepalive_interval"@, keepalive);
    let r5 = l5 + rest;
    let r4 = l4 + r5;
    let r3 = l3 + r4;
    let r2 = l2 + r3;
    assert(head_text(peer) + rest =~= l1 + r2);
    lemma_public_key(from, peer.public_key_pq@, r2);
    let p1 = PeerReading::begun(peer.public_key_pq@);
    let s1 = Reading { peers: from.peers.push(p1), ..from };
    assert(s1.peers.last() == p1);
    lemma_hex_on_one_line(peer.preshared_key@);
    lemma_peer_text(s1, "preshared_key"@, to_hex(peer.preshared_key@), r3);
    lemma_after(p1, 0, peer.preshared_key@);
    let p2 = PeerReading { preshared_key: Some(peer.preshared_key@), ..p1 };
    lemma_with_last(s1, p2, p2);
    lemma_peer_number(s1.with_last(p2), "rx_bytes"@, rx, r4);
    lemma_after(p2, rx, Seq::empty());
    let p3 = PeerReading { rx_bytes: Some(rx), ..p2 };
    lemma_with_last(s1, p2, p3);
    lemma_with_last(s1, p3, p3);
    lemma_peer_number(s1.with_last(p3), "tx_bytes"@, tx, r5);
    lemma_after(p3, tx, Seq::empty());
    let p4 = PeerReading { tx_bytes: Some(tx), ..p3 };
    lemma_with_last(s1, p3, p4);
    lemma_with_last(s1, p4, p4);
    lemma_peer_number(s1.with_last(p4), "persistent_keepalive_interval"@, keepalive, rest);
    lemma_after(p4, keepalive, Seq::empty());
    let p5 = PeerReading { persistent_keepalive_interval: Some(keepalive), ..p4 };
    lemma_with_last(s1, p4, p5);
    assert(p5 == head_reading(peer));
    assert(s1.peers.drop_last() =~= from.peers);
}

proof fn lemma_settings(from: Reading, peer: PeerState, rest: Seq<u8>)
    requires
        plain_addresses(peer),
    ensures
        ({
            let none = PeerReading { allowed_ips: Seq::empty(), ..peer_reading(peer) };
            from.after_text(settings_text(peer) + rest) == (Reading {
                peers: from.peers.push(none),
                ..from
            }).after_text(rest)
        }),
{
    lemma_keys();
    let l6 = match peer.last_handshake_time {
        Some((secs, nsecs)) => number_line("last_handshake_time_sec"@, secs as nat) + number_line(
            "last_handshake_time_nsec"@,
            nsecs as nat,
        ),
        None => Seq::empty(),
    };
    let l7 = match peer.endpoint {
        Some(endpoint) => line("endpoint"@, endpoint@),
        None => Seq::empty(),
    };
    let r7 = l7 + rest;
    let r6 = l6 + r7;
    assert(settings_text(peer) + rest =~= head_text(peer) + r6);
    lemma_head(from, peer, r6);
    let p5 = head_reading(peer);
    let s = Reading { peers: from.peers.push(p5), ..from };
    assert(s.peers.last() == p5);
    let p6 = PeerReading {
        last_handshake_sec: peer_reading(peer).last_handshake_sec,
        last_handshake_nsec: peer_reading(peer).last_handshake_nsec,
        ..p5
    };
    lemma_with_last(s, p6, p6);
    match peer.last_handshake_time {
        Some((secs, nsecs)) => {
            let a = number_line("last_handshake_time_sec"@, secs as nat);
            let b = number_line("last_handshake_time_nsec"@, nsecs as nat);
            assert(r6 =~= a + (b + r7));
            lemma_peer_number(s, "last_handshake_time_sec"@, secs as nat, b + r7);
            lemma_after(p5, secs as nat, Seq::empty());
            let q = PeerReading { last_handshake_sec: Some(secs as nat), ..p5 };
            lemma_with_last(s, q, p6);
            lemma_peer_number(s.with_last(q), "last_handshake_time_nsec"@, nsecs as nat, r7);
            lemma_after(q, nsecs as nat, Seq::empty());
        },
        None => {
            assert(r6 =~= r7);
            assert(s.peers.drop_last().push(p5) =~= s.peers);
        },
    }
    let p7 = PeerReading { endpoint: peer_reading(peer).endpoint, ..p6 };
    lemma_with_last(s, p6, p7);
    match peer.endpoint {
        Some(endpoint) => {
            lemma_peer_text(s.with_last(p6), "endpoint"@, endpoint@, rest);
            lemma_after(p6, 0, endpoint@);
        },
        None => {
            assert(r7 =~= rest);
        },
    }
    assert(s.peers.drop_last() =~= from.peers);
    assert(p7 == PeerReading { allowed_ips: Seq::empty(), ..peer_reading(peer) });
}

proof fn lemma_peer(from: Reading, peer: PeerState, rest: Seq<u8>)
    requires
        plain_addresses(peer),
    ensures
        from.after_text(peer_text(peer) + rest) == (Reading {
            peers: from.peers.push(peer_reading(peer)),
            ..from
        }).after_text(rest),
{
    let networks = networks_text(peer.allowed_ips@);
    let none = PeerReading { allowed_ips: Seq::empty(), ..peer_reading(peer) };
    let mid = Reading { peers: from.peers.push(none), ..from };
    assert(peer_text(peer) + rest =~= settings_text(peer) + (networks + rest));
    lemma_settings(from, peer, networks + rest);
    assert(mid.peers.last() == none);
    lemma_networks(mid, peer.allowed_ips@, rest);
    assert(Seq::empty() + read_networks(peer.allowed_ips@) =~= peer_reading(peer).allowed_ips);
    assert(mid.peers.drop_last() =~= from.peers);
}

/// The peers in the order of the text: the last one first.
pub open spec fn peer_readings(peers: Seq<PeerState>) -> Seq<PeerReading> {
    Seq::new(peers.len(), |i: int| peer_reading(peers[peers.len() - 1 - i]))
}

proof fn lemma_peers(from: Reading, peers: Seq<PeerState>)
    requires
        forall|i: int| 0 <= i < peers.len() ==> plain_addresses(#[trigger] peers[i]),
    ensures
        from.after_text(peers_text(peers)) == (Reading {
            peers: from.peers + peer_readings(peers),
            ..from
        }),
    decreases peers.len(),
{
    if peers.len() == 0 {
        assert(from.peers + peer_readings(peers) =~= from.peers);
    } else {
        let front = peers.drop_last();
        assert forall|i: int| 0 <= i < front.len() implies plain_addresses(#[trigger] front[i]) by {
            assert(front[i] == peers[i]);
        }
        assert(plain_addresses(peers[peers.len() - 1]));
        lemma_peer(from, peers.last(), peers_text(front));
        let mid = Reading { peers: from.peers.push(peer_reading(peers.last())), ..from };
        lemma_peers(mid, front);
        assert(mid.peers + peer_readings(front) =~= from.peers + peer_readings(peers));
    }
}

/// The text of a configuration says all of it: whoever reads it line by line finds the keys,
/// the port, the mark, and of each peer its keys, its counters, its interval, the time of its
/// last handshake, its endpoint and its networks, as they are. The addresses have to be such
/// as fit on a line.
pub proof fn law_text_is_read_back(config: Configuration)
    requires
        forall|i: int|
            0 <= i < config.peers@.len() ==> plain_addresses(#[trigger] config.peers@[i]),
    ensures
        ({
            let n = config.peers@.len();
            let text = interface_text(config) + peers_text(config.peers@);
            let found = Reading::nothing().after_text(text);
            &&& found.private_key == (match config.private_key {
                Some(key) => Some(key.sk_pq@ + key.pk_pq@),
                None => None,
            })
            &&& found.listen_port == (match config.listen_port {
                Some(port) => Some(port as nat),
                None => None,
            })
            &&& found.fwmark == (match config.fwmark {
                Some(mark) => Some(mark as nat),
                None => None,
            })
            &&& found.peers.len() == n
            &&& forall|i: int|
                0 <= i < n ==> #[trigger] found.peers[n - 1 - i] == peer_reading(config.peers@[i])
        }),
{
    reveal(Reading::after);
    lemma_keys();
    let l1 = match config.private_key {
        Some(key) => line("private_key"@, to_hex(key.sk_pq@ + key.pk_pq@)),
        None => Seq::empty(),
    };
    let l2 = match config.listen_port {
        Some(port) => number_line("listen_port"@, port as nat),
        None => Seq::empty(),
    };
    let l3 = match config.fwmark {
        Some(mark) => number_line("fwmark"@, mark as nat),
        None => Seq::empty(),
    };
    let rest = peers_text(config.peers@);
    let r3 = l3 + rest;
    let r2 = l2 + r3;
    let text = interface_text(config) + rest;
    assert(text =~= l1 + r2);
    let s0 = Reading::nothing();
    let s1 = Reading {
        private_key: match config.private_key {
            Some(key) => Some(key.sk_pq@ + key.pk_pq@),
            None => None,
        },
        ..s0
    };
    match config.private_key {
        Some(key) => lemma_hex_line(s0, "private_key"@, key.sk_pq@ + key.pk_pq@, r2),
        None => assert(text =~= r2),
    }
    let s2 = Reading {
        listen_port: match config.listen_port {
            Some(port) => Some(port as nat),
            None => None,
        },
        ..s1
    };
    match config.listen_port {
        Some(port) => {
            lemma_number_line(s1, "listen_port"@, port as nat, r3);
            law_decimal_round_trip(port as nat, u16::MAX as nat);
        },
        None => assert(r2 =~= r3),
    }
    let s3 = Reading {
        fwmark: match config.fwmark {
            Some(mark) => Some(mark as nat),
            None => None,
        },
        ..s2
    };
    match config.fwmark {
        Some(mark) => {
            lemma_number_line(s2, "fwmark"@, mark as nat, rest);
            law_decimal_round_trip(mark as nat, u32::MAX as nat);
        },
        None => assert(r3 =~= rest),
    }
    lemma_peers(s3, config.peers@);
    let found = s0.after_text(text);
    let n = config.peers@.len();
    assert forall|i: int| 0 <= i < n implies #[trigger] found.peers[n - 1 - i] == peer_reading(
        config.peers@[i],
    ) by {
        assert(n - 1 - (n - 1 - i) == i);
    }
}

/// Configurations that differ in anything have different texts: a key, the port, the mark,
/// the number of peers, or any setting of one of them.
pub proof fn law_texts_tell_configurations_apart(a: Configuration, b: Configuration)
    requires
        forall|i: int| 0 <= i < a.peers@.len() ==> plain_addresses(#[trigger] a.peers@[i]),
        forall|i: int| 0 <= i < b.peers@.len() ==> plain_addresses(#[trigger] b.peers@[i]),
        interface_text(a) + peers_text(a.peers@) == interface_text(b) + peers_text(b.peers@),
    ensures
        a.listen_port == b.listen_port,
        a.fwmark == b.fwmark,
        a.private_key is Some <==> b.private_key is Some,
        a.private_key is Some ==> a.private_key->0.sk_pq@ + a.private_key->0.pk_pq@
            == b.private_key->0.sk_pq@ + b.private_key->0.pk_pq@,
        a.peers@.len() == b.peers@.len(),
        forall|i: int|
            0 <= i < a.peers@.len() ==> {
                let p = #[trigger] a.peers@[i];
                let q = b.peers@[i];
                &&& p.public_key_pq@ == q.public_key_pq@
                &&& p.preshared_key@ == q.preshared_key@
                &&& p.rx_bytes == q.rx_bytes
                &&& p.tx_bytes == q.tx_bytes
                &&& p.persistent_keepalive_interval == q.persistent_keepalive_interval
                &&& p.last_handshake_time == q.last_handshake_time
                &&& p.endpoint is Some <==> q.endpoint is Some
                &&& p.endpoint is Some ==> p.endpoint->0@ == q.endpoint->0@
                &&& p.allowed_ips@.len() == q.allowed_ips@.len()
            },
{
    law_text_is_read_back(a);
    law_text_is_read_back(b);
    let n = a.peers@.len();
    let found = Reading::nothing().after_text(interface_text(a) + peers_text(a.peers@));
    assert forall|i: int| 0 <= i < n implies {
        let p = #[trigger] a.peers@[i];
        let q = b.peers@[i];
        &&& p.public_key_pq@ == q.public_key_pq@
        &&& p.preshared_key@ == q.preshared_key@
        &&& p.rx_bytes == q.rx_bytes
        &&& p.tx_bytes == q.tx_bytes
        &&& p.persistent_keepalive_interval == q.persistent_keepalive_interval
        &&& p.last_handshake_time == q.last_handshake_time
        &&& p.endpoint is Some <==> q.endpoint is Some
        &&& p.endpoint is Some ==> p.endpoint->0@ == q.endpoint->0@
        &&& p.allowed_ips@.len() == q.allowed_ips@.len()
    } by {
        let p = a.peers@[i];
        let q = b.peers@[i];
        assert(found.peers[n - 1 - i] == peer_reading(p));
        assert(found.peers[n - 1 - i] == peer_reading(q));
        assert(peer_reading(p).allowed_ips.len() == peer_reading(q).allowed_ips.len());
        assert(peer_reading(p).rx_bytes == peer_reading(q).rx_bytes);
    }
}

} // verus!
