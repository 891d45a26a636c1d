//! The configuration as text.

use crate::bytes::join;
use crate::decimal::{decimal, push_decimal};
use crate::kem::{SIZE_STATIC_KEM_PUB_KEY, SIZE_STATIC_KEM_SECRET_KEY};
use crate::types::Psk;
use crate::uapi::encoding::{encode_hex, to_hex};
use vstd::prelude::*;
use vstd::utf8::*;

verus! {

/// The static keys of the device itself.
pub struct PrivateKey {
    pub sk_pq: Vec<u8>,
    pub pk_pq: Vec<u8>,
}

/// The configuration and the state of a peer. Addresses are given as text.
pub struct PeerState {
    pub public_key_pq: Vec<u8>,
    pub preshared_key: Psk,
    pub rx_bytes: u64,
    pub tx_bytes: u64,
    pub persistent_keepalive_interval: u64,
    /// Seconds and nanoseconds.
    pub last_handshake_time: Option<(u64, u64)>,
    pub endpoint: Option<Vec<u8>>,
    pub allowed_ips: Vec<(Vec<u8>, u32)>,
}

/// A configuration.
pub struct Configuration {
    pub private_key: Option<PrivateKey>,
    pub listen_port: Option<u16>,
    pub fwmark: Option<u32>,
    pub peers: Vec<PeerState>,
}

impl Configuration {
    /// Do the keys have the lengths of the static mechanism?
    pub open spec fn wf(&self) -> bool {
        &&& self.private_key matches Some(key) ==> key.sk_pq@.len() == SIZE_STATIC_KEM_SECRET_KEY
            && key.pk_pq@.len() == SIZE_STATIC_KEM_PUB_KEY
        &&& forall|i: int|
            0 <= i < self.peers@.len() ==> (#[trigger] self.peers@[i]).public_key_pq@.len()
                == SIZE_STATIC_KEM_PUB_KEY
    }
}

/// A line of text.
#[verifier::opaque]
pub open spec fn line(key: Seq<char>, value: Seq<u8>) -> Seq<u8> {
    encode_utf8(key) + seq![0x3du8] + value + seq![0x0au8]
}

/// A line with a number.
pub open spec fn number_line(key: Seq<char>, n: nat) -> Seq<u8> {
    line(key, decimal(n))
}

/// Appends a line of text.
fn push_line(out: &mut Vec<u8>, key: &str, value: &[u8])
    ensures
        final(out)@ == old(out)@ + line(key@, value@),
{
    out.extend_from_slice(key.as_bytes());
    out.push(0x3d);
    out.extend_from_slice(value);
    out.push(0x0a);
    proof {
        reveal(line);
        assert(out@ =~= old(out)@ + line(key@, value@));
    }
}

/// Appends a line with a number.
fn push_number_line(out: &mut Vec<u8>, key: &str, n: u64)
    ensures
        final(out)@ == old(out)@ + number_line(key@, n as nat),
{
    let mut value: Vec<u8> = Vec::new();
    push_decimal(&mut value, n);
    assert(value@ =~= decimal(n as nat));
    push_line(out, key, &value);
}

/// The lines about the interface: those settings that there are.
pub open spec fn interface_text(config: Configuration) -> Seq<u8> {
    (match config.private_key {
        Some(key) => line("private_key"@, to_hex(key.sk_pq@ + key.pk_pq@)),
        None => Seq::empty(),
    }) + (match config.listen_port {
        Some(port) => number_line("listen_port"@, port as nat),
        None => Seq::empty(),
    }) + (match config.fwmark {
        Some(mark) => number_line("fwmark"@, mark as nat),
        None => Seq::empty(),
    })
}

/// A network as text.
pub open spec fn network_text(network: (Vec<u8>, u32)) -> Seq<u8> {
    network.0@ + seq![0x2fu8] + decimal(network.1 as nat)
}

/// The lines about the networks of a peer.
pub open spec fn networks_text(networks: Seq<(Vec<u8>, u32)>) -> Seq<u8>
    decreases networks.len(),
{
    if networks.len() == 0 {
        Seq::empty()
    } else {
        networks_text(networks.drop_last()) + line("allowed_ip"@, network_text(networks.last()))
    }
}

/// The lines about a peer, but those about its networks.
pub open spec fn settings_text(peer: PeerState) -> Seq<u8> {
    line("public_key"@, to_hex(peer.public_key_pq@)) + line(
        "preshared_key"@,
        to_hex(peer.preshared_key@),
    ) + number_line("rx_bytes"@, peer.rx_bytes as nat) + number_line(
        "tx_bytes"@,
        peer.tx_bytes as nat,
    ) + number_line(
        "persistent_keepalive_interval"@,
        peer.persistent_keepalive_interval as nat,
    ) + (match peer.last_handshake_time {
        Some((secs, nsecs)) => number_line("last_handshake_time_sec"@, secs as nat) + number_line(
            "last_handshake_time_nsec"@,
            nsecs as nat,
        ),
        None => Seq::empty(),
    }) + (match peer.endpoint {
        Some(endpoint) => line("endpoint"@, endpoint@),
        None => Seq::empty(),
    })
}

/// The lines about a peer.
pub open spec fn peer_text(peer: PeerState) -> Seq<u8> {
    settings_text(peer) + networks_text(peer.allowed_ips@)
}

/// The lines about all peers, the last one first.
pub open spec fn peers_text(peers: Seq<PeerState>) -> Seq<u8>
    decreases peers.len(),
{
    if peers.len() == 0 {
        Seq::empty()
    } else {
        peer_text(peers.last()) + peers_text(peers.drop_last())
    }
}

/// Appends the lines about a peer, but those about its networks.
fn push_settings(out: &mut Vec<u8>, peer: &PeerState)
    requires
        peer.public_key_pq@.len() == SIZE_STATIC_KEM_PUB_KEY,
    ensures
        final(out)@ == old(out)@ + settings_text(*peer),
{
    push_line(out, "public_key", &encode_hex(&peer.public_key_pq));
    push_line(out, "preshared_key", &encode_hex(&peer.preshared_key));
    push_number_line(out, "rx_bytes", peer.rx_bytes);
    push_number_line(out, "tx_bytes", peer.tx_bytes);
    push_number_line(out, "persistent_keepalive_interval", peer.persistent_keepalive_interval);
    if let Some((secs, nsecs)) = peer.last_handshake_time {
        push_number_line(out, "last_handshake_time_sec", secs);
        push_number_line(out, "last_handshake_time_nsec", nsecs);
    }
    if let Some(endpoint) = &peer.endpoint {
        push_line(out, "endpoint", endpoint);
    }
    assert(out@ =~= old(out)@ + settings_text(*peer));
}

/// Appends the lines about a peer.
fn push_peer(out: &mut Vec<u8>, peer: &PeerState)
    requires
        peer.public_key_pq@.len() == SIZE_STATIC_KEM_PUB_KEY,
    ensures
        final(out)@ == old(out)@ + peer_text(*peer),
{
    push_settings(out, peer);
    let ghost start = out@;
    let mut i: usize = 0;
    assert(peer.allowed_ips@.take(0) =~= Seq::empty());
    assert(start + networks_text(peer.allowed_ips@.take(0)) =~= start);
    while i < peer.allowed_ips.len()
        invariant
            i <= peer.allowed_ips@.len(),
            out@ == start + networks_text(peer.allowed_ips@.take(i as int)),
        decreases peer.allowed_ips@.len() - i,
    {
        let ghost next = peer.allowed_ips@.take(i + 1);
        assert(next.drop_last() =~= peer.allowed_ips@.take(i as int));
        let slash: [u8; 1] = [0x2f];
        let mut value: Vec<u8> = join(&peer.allowed_ips[i].0, &slash);
        push_decimal(&mut value, peer.allowed_ips[i].1 as u64);
        assert(value@ =~= network_text(peer.allowed_ips@[i as int]));
        push_line(out, "allowed_ip", &value);
        assert(out@ =~= start + networks_text(next));
        i += 1;
    }
    assert(peer.allowed_ips@.take(i as int) =~= peer.allowed_ips@);
    assert(out@ =~= old(out)@ + peer_text(*peer));
}

/// The configuration as text: the interface, then the peers, the last one first.
pub fn serialize(config: &Configuration) -> (r: Vec<u8>)
    requires
        config.wf(),
    ensures
        r@ == interface_text(*config) + peers_text(config.peers@),
{
    let mut out: Vec<u8> = Vec::new();
    if let Some(key) = &config.private_key {
        push_line(&mut out, "private_key", &encode_hex(&join(&key.sk_pq, &key.pk_pq)));
    }
    if let Some(port) = config.listen_port {
        push_number_line(&mut out, "listen_port", port as u64);
    }
    if let Some(mark) = config.fwmark {
        push_number_line(&mut out, "fwmark", mark as u64);
    }
    let ghost start = interface_text(*config);
    assert(out@ =~= start);
    let mut i: usize = config.peers.len();
    assert(config.peers@.take(i as int) =~= config.peers@);
    while i > 0
        invariant
            config.wf(),
            i <= config.peers@.len(),
            out@ + peers_text(config.peers@.take(i as int)) == start + peers_text(config.peers@),
        decreases i,
    {
        let ghost rest = config.peers@.take(i as int);
        let ghost before = out@;
        i -= 1;
        assert(rest.drop_last() =~= config.peers@.take(i as int));
        push_peer(&mut out, &config.peers[i]);
        assert(out@ + peers_text(rest.drop_last()) =~= before + (peer_text(rest.last())
            + peers_text(rest.drop_last())));
    }
    assert(out@ + peers_text(config.peers@.take(0)) =~= out@);
    out
}

} // verus!
