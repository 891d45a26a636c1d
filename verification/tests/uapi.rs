//! The configuration protocol.

use hybrid_wireguard::crypto::hash2;
use hybrid_wireguard::types::IpAddr;
use hybrid_wireguard::uapi::get::{serialize, Configuration, PeerState, PrivateKey};
use hybrid_wireguard::uapi::set::{
    address_len, Addresses, Change, ConfigError, LineEffect, LineParser, PeerKeys, Present,
};

type Endpoint = u64;

const PUB: usize = 524160;
const SEC: usize = 13608;

fn present() -> Present {
    Present { protocol_version: 1, peers: Vec::new() }
}

fn line(parser: &mut LineParser<Endpoint>, key: &str, value: &str) -> LineEffect<Endpoint> {
    parser.parse_line(key, value, &present(), &Addresses { endpoint: None, network: None })
}

/// A line that must be accepted and change nothing yet.
fn say(parser: &mut LineParser<Endpoint>, key: &str, value: &str) {
    let effect = line(parser, key, value);
    assert_eq!(effect.result, Ok(()));
    assert!(effect.changes.is_empty());
}

fn refused(parser: &mut LineParser<Endpoint>, key: &str, value: &str) -> ConfigError {
    let effect = line(parser, key, value);
    assert!(effect.changes.is_empty());
    effect.result.unwrap_err()
}

fn hex_of(bytes: &[u8]) -> String {
    bytes.iter().map(|b| format!("{:02x}", b)).collect()
}

fn public_key(first: u8) -> (String, [u8; 32]) {
    let mut data = vec![0u8; 32 + PUB];
    data[0] = first;
    data[40] = 7;
    (hex_of(&data), hash2(&data[..32], &data[32..]))
}

#[test]
fn interface_settings() {
    let mut parser = LineParser::new();
    let effect = line(&mut parser, "listen_port", "51820");
    assert!(matches!(effect.changes[..], [Change::SetListenPort(51820)]));
    assert_eq!(refused(&mut parser, "listen_port", "65536"), ConfigError::InvalidPortNumber);
    assert_eq!(refused(&mut parser, "listen_port", "-1"), ConfigError::InvalidPortNumber);
    assert_eq!(refused(&mut parser, "listen_port", ""), ConfigError::InvalidPortNumber);
    let effect = line(&mut parser, "fwmark", "0");
    assert!(matches!(effect.changes[..], [Change::SetFwmark(None)]));
    let effect = line(&mut parser, "fwmark", "+4294967295");
    assert!(matches!(effect.changes[..], [Change::SetFwmark(Some(u32::MAX))]));
    assert_eq!(refused(&mut parser, "fwmark", "0x10"), ConfigError::InvalidFwmark);
    let effect = line(&mut parser, "ri_key", "00000000000000Ff");
    assert!(matches!(effect.changes[..], [Change::SetRiKey(Some([0, 0, 0, 0, 0, 0, 0, 0xff]))]));
    let effect = line(&mut parser, "ri_key", "0000000000000000");
    assert!(matches!(effect.changes[..], [Change::SetRiKey(None)]));
    assert_eq!(refused(&mut parser, "ri_key", "00000000000000"), ConfigError::InvalidHexValue);
    assert_eq!(refused(&mut parser, "remove", "true"), ConfigError::InvalidKey);
    say(&mut parser, "", "");
}

#[test]
fn replace_peers_removes_all() {
    let mut parser: LineParser<Endpoint> = LineParser::new();
    let present = Present {
        protocol_version: 1,
        peers: vec![
            PeerKeys { public_key: [1u8; 32], public_key_pq: vec![1, 2] },
            PeerKeys { public_key: [2u8; 32], public_key_pq: vec![3] },
        ],
    };
    let none = Addresses { endpoint: None, network: None };
    let effect = parser.parse_line("replace_peers", "true", &present, &none);
    assert_eq!(effect.changes.len(), 2);
    assert!(matches!(effect.changes[0], Change::RemovePeer(h) if h == hash2(&[1u8; 32], &[1, 2])));
    assert!(matches!(effect.changes[1], Change::RemovePeer(h) if h == hash2(&[2u8; 32], &[3])));
    let effect = parser.parse_line("replace_peers", "false", &present, &none);
    assert_eq!(effect.result, Err(ConfigError::UnsupportedValue));
}

#[test]
fn private_keys() {
    let mut parser = LineParser::new();
    let mut data = vec![0u8; 32 + SEC + PUB];
    let effect = line(&mut parser, "private_key", &hex_of(&data));
    assert!(matches!(effect.changes[..], [Change::SetPrivateKey(None)]));
    data[1] = 1;
    data[32] = 2;
    data[32 + SEC] = 3;
    let effect = line(&mut parser, "private_key", &hex_of(&data));
    match &effect.changes[..] {
        [Change::SetPrivateKey(Some(key))] => {
            assert_eq!(key.sk[..2], [0, 1]);
            assert_eq!((key.sk_pq.len(), key.sk_pq[0]), (SEC, 2));
            assert_eq!((key.pk_pq.len(), key.pk_pq[0]), (PUB, 3));
        },
        _ => panic!("a private key was expected"),
    }
    let short = &hex_of(&data)[2..];
    assert_eq!(refused(&mut parser, "private_key", short), ConfigError::InvalidHexValue);
    let odd = &hex_of(&data)[1..];
    assert_eq!(refused(&mut parser, "private_key", odd), ConfigError::InvalidHexValue);
    assert_eq!(refused(&mut parser, "private_key", "zz"), ConfigError::InvalidHexValue);
}

#[test]
fn a_peer_takes_effect_at_its_end() {
    let mut parser = LineParser::new();
    let (key, hash) = public_key(1);
    say(&mut parser, "public_key", &key);
    say(&mut parser, "preshared_key", &"ab".repeat(32));
    say(&mut parser, "persistent_keepalive_interval", "25");
    say(&mut parser, "protocol_version", "1");
    let net = Addresses { endpoint: None, network: Some(IpAddr::V4([10, 0, 0, 0])) };
    let effect = parser.parse_line("allowed_ip", "10.0.0.0/8", &present(), &net);
    assert_eq!(effect.result, Ok(()));
    let end = Addresses { endpoint: Some(42), network: None };
    let effect = parser.parse_line("endpoint", "192.0.2.1:1", &present(), &end);
    assert_eq!(effect.result, Ok(()));

    let (next, next_hash) = public_key(2);
    let effect = line(&mut parser, "public_key", &next);
    assert_eq!(effect.result, Ok(()));
    assert_eq!(effect.changes.len(), 5);
    match &effect.changes[0] {
        Change::AddPeer(keys, h) => {
            assert_eq!(*h, hash);
            assert_eq!(keys.public_key[0], 1);
            assert_eq!(keys.public_key_pq.len(), PUB);
        },
        _ => panic!("a peer was expected"),
    }
    assert!(matches!(
        effect.changes[1],
        Change::AddAllowedIp(h, IpAddr::V4([10, 0, 0, 0]), 8) if h == hash
    ));
    assert!(matches!(effect.changes[2], Change::SetPresharedKey(h, p) if h == hash && p == [0xab; 32]));
    assert!(matches!(
        effect.changes[3],
        Change::SetPersistentKeepaliveInterval(h, 25) if h == hash
    ));
    assert!(matches!(effect.changes[4], Change::SetEndpoint(h, 42) if h == hash));

    say(&mut parser, "update_only", "true");
    say(&mut parser, "replace_allowed_ips", "true");
    let effect = line(&mut parser, "", "");
    assert_eq!(effect.changes.len(), 1);
    assert!(matches!(effect.changes[0], Change::ReplaceAllowedIps(h) if h == next_hash));
}

#[test]
fn unsupported_protocol_version_commits_nothing() {
    for version in ["0", "2"] {
        let mut parser = LineParser::new();
        let (key, _) = public_key(1);
        say(&mut parser, "public_key", &key);
        say(&mut parser, "preshared_key", &"ab".repeat(32));
        say(&mut parser, "protocol_version", version);
        assert_eq!(refused(&mut parser, "", ""), ConfigError::UnsupportedProtocolVersion);
        assert_eq!(
            refused(&mut parser, "public_key", &key),
            ConfigError::UnsupportedProtocolVersion
        );
        say(&mut parser, "remove", "true");
        assert!(matches!(line(&mut parser, "", "").changes[..], [Change::RemovePeer(_)]));
    }
    let mut parser = LineParser::new();
    say(&mut parser, "public_key", &public_key(1).0);
    assert_eq!(
        refused(&mut parser, "protocol_version", "one"),
        ConfigError::UnsupportedProtocolVersion
    );
}

#[test]
fn replace_allowed_ips_forgets_and_clears() {
    let mut parser = LineParser::new();
    say(&mut parser, "public_key", &public_key(1).0);
    let old = Addresses { endpoint: None, network: Some(IpAddr::V4([10, 0, 0, 0])) };
    let new = Addresses { endpoint: None, network: Some(IpAddr::V4([10, 1, 0, 0])) };
    parser.parse_line("allowed_ip", "10.0.0.0/8", &present(), &old);
    say(&mut parser, "replace_allowed_ips", "true");
    parser.parse_line("allowed_ip", "10.1.0.0/16", &present(), &new);
    let changes = line(&mut parser, "", "").changes;
    assert!(matches!(
        changes[..],
        [
            Change::AddPeer(..),
            Change::ReplaceAllowedIps(_),
            Change::AddAllowedIp(_, IpAddr::V4([10, 1, 0, 0]), 16)
        ]
    ));
}

#[test]
fn malformed_peer_lines_are_refused() {
    let mut parser = LineParser::new();
    assert_eq!(refused(&mut parser, "public_key", "abc"), ConfigError::InvalidHexValue);
    assert_eq!(refused(&mut parser, "public_key", "abcd"), ConfigError::InvalidHexValue);
    say(&mut parser, "public_key", &public_key(1).0);
    assert_eq!(refused(&mut parser, "preshared_key", "abcd"), ConfigError::InvalidHexValue);
    assert_eq!(refused(&mut parser, "endpoint", "nowhere"), ConfigError::InvalidSocketAddr);
    assert_eq!(
        refused(&mut parser, "persistent_keepalive_interval", "18446744073709551616"),
        ConfigError::InvalidKeepaliveInterval
    );
    assert_eq!(refused(&mut parser, "allowed_ip", "10.0.0.0/8"), ConfigError::InvalidAllowedIp);
    let net = Addresses { endpoint: None, network: Some(IpAddr::V4([10, 0, 0, 0])) };
    for value in ["10.0.0.0", "10.0.0.0/", "10.0.0.0/x", "10.0.0.0/8/8"] {
        let effect = parser.parse_line("allowed_ip", value, &present(), &net);
        assert_eq!(effect.result, Err(ConfigError::InvalidAllowedIp));
    }
    assert_eq!(refused(&mut parser, "listen_port", "1"), ConfigError::InvalidKey);
    // the peer before a malformed one takes effect all the same, and stays
    let effect = line(&mut parser, "public_key", "abcd");
    assert_eq!(effect.result, Err(ConfigError::InvalidHexValue));
    assert!(matches!(effect.changes[..], [Change::AddPeer(..)]));
    assert!(matches!(line(&mut parser, "", "").changes[..], [Change::AddPeer(..)]));
}

#[test]
fn the_address_of_a_network_ends_at_the_slash() {
    assert_eq!(address_len("10.0.0.0/8"), 8);
    assert_eq!(address_len("::1"), 3);
    assert_eq!(address_len("/8"), 0);
}

#[test]
fn a_configuration_as_text() {
    let mut pk = vec![0u8; PUB];
    pk[0] = 0xAB;
    let peer = |rx: u64| PeerState {
        public_key_pq: pk.clone(),
        preshared_key: [0x0f; 32],
        rx_bytes: rx,
        tx_bytes: 18446744073709551615,
        persistent_keepalive_interval: 0,
        last_handshake_time: Some((12, 34)),
        endpoint: Some(b"192.0.2.1:51820".to_vec()),
        allowed_ips: vec![(b"10.0.0.0".to_vec(), 8), (b"::".to_vec(), 0)],
    };
    let config = Configuration {
        private_key: Some(PrivateKey { sk_pq: vec![1u8; SEC], pk_pq: vec![2u8; PUB] }),
        listen_port: Some(51820),
        fwmark: None,
        peers: vec![peer(1), PeerState { last_handshake_time: None, endpoint: None, allowed_ips: vec![], ..peer(2) }],
    };
    let text = String::from_utf8(serialize(&config)).unwrap();
    let lines: Vec<&str> = text.split('\n').collect();
    assert_eq!(lines[0], format!("private_key={}{}", "01".repeat(SEC), "02".repeat(PUB)));
    assert_eq!(lines[1], "listen_port=51820");
    assert_eq!(lines[2], format!("public_key=ab{}", "00".repeat(PUB - 1)));
    assert_eq!(lines[3], format!("preshared_key={}", "0f".repeat(32)));
    assert_eq!(lines[4], "rx_bytes=2");
    assert_eq!(lines[5], "tx_bytes=18446744073709551615");
    assert_eq!(lines[6], "persistent_keepalive_interval=0");
    assert_eq!(lines[7], lines[2]);
    assert_eq!(lines[9], "rx_bytes=1");
    assert_eq!(
        lines[12..],
        [
            "last_handshake_time_sec=12",
            "last_handshake_time_nsec=34",
            "endpoint=192.0.2.1:51820",
            "allowed_ip=10.0.0.0/8",
            "allowed_ip=::/0",
            ""
        ]
    );
}
