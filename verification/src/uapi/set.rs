//! Changes of the configuration, line by line.
//!
//! A transcript consists of lines with a key and a value. The first lines concern the
//! interface; from the first public key on, lines concern peers. What is said about a peer
//! takes effect all at once, when the next peer begins or the transcript ends.

use crate::bytes::{take, zeros};
use crate::crypto::{ct_eq, hash2};
use crate::decimal::{parse_unsigned, unsigned_value};
use crate::hybrid_v23::peer::key_hash;
use crate::kem::SIZE_STATIC_KEM_SECRET_KEY;
use crate::types::{IpAddr, Psk};
use crate::uapi::encoding::{decode_hex, from_hex, is_hex, is_text};
use vstd::prelude::*;
use vstd::utf8::*;

verus! {

/// Why a line is refused.
#[derive(Clone, Copy, Debug, PartialEq, Eq, Structural)]
pub enum ConfigError {
    InvalidHexValue,
    InvalidPortNumber,
    InvalidFwmark,
    InvalidKey,
    InvalidSocketAddr,
    InvalidKeepaliveInterval,
    InvalidAllowedIp,
    UnsupportedValue,
    UnsupportedProtocolVersion,
}

/// The static keys of a peer.
pub struct PeerKeys {
    pub public_key: [u8; 32],
    pub public_key_pq: Vec<u8>,
}

/// The static keys of the device itself.
pub struct PrivateKey {
    pub sk: [u8; 32],
    pub sk_pq: Vec<u8>,
    pub pk_pq: Vec<u8>,
}

/// What a line needs to know of the present configuration.
pub struct Present {
    pub protocol_version: usize,
    pub peers: Vec<PeerKeys>,
}

/// What the value of a line reads as: the whole of it as an endpoint, the part before the
/// first slash as an internet address.
pub struct Addresses<E> {
    pub endpoint: Option<E>,
    pub network: Option<IpAddr>,
}

/// A change of the configuration. Peers go by the hashes of their static keys.
pub enum Change<E> {
    SetPrivateKey(Option<PrivateKey>),
    SetListenPort(u16),
    SetFwmark(Option<u32>),
    SetRiKey(Option<[u8; 8]>),
    AddPeer(PeerKeys, [u8; 32]),
    RemovePeer([u8; 32]),
    ReplaceAllowedIps([u8; 32]),
    AddAllowedIp([u8; 32], IpAddr, u32),
    SetPresharedKey([u8; 32], Psk),
    SetPersistentKeepaliveInterval([u8; 32], u64),
    SetEndpoint([u8; 32], E),
}

/// A change of the configuration, with sequences for bytes.
pub ghost enum ChangeView<E> {
    SetPrivateKey(Option<(Seq<u8>, Seq<u8>, Seq<u8>)>),
    SetListenPort(u16),
    SetFwmark(Option<u32>),
    SetRiKey(Option<Seq<u8>>),
    AddPeer(Seq<u8>, Seq<u8>, Seq<u8>),
    RemovePeer(Seq<u8>),
    ReplaceAllowedIps(Seq<u8>),
    AddAllowedIp(Seq<u8>, IpAddr, u32),
    SetPresharedKey(Seq<u8>, Seq<u8>),
    SetPersistentKeepaliveInterval(Seq<u8>, u64),
    SetEndpoint(Seq<u8>, E),
}

impl<E> Change<E> {
    pub open spec fn view(&self) -> ChangeView<E> {
        match *self {
            Change::SetPrivateKey(key) => ChangeView::SetPrivateKey(
                match key {
                    Some(k) => Some((k.sk@, k.sk_pq@, k.pk_pq@)),
                    None => None,
                },
            ),
            Change::SetListenPort(port) => ChangeView::SetListenPort(port),
            Change::SetFwmark(mark) => ChangeView::SetFwmark(mark),
            Change::SetRiKey(key) => ChangeView::SetRiKey(
                match key {
                    Some(k) => Some(k@),
                    None => None,
                },
            ),
            Change::AddPeer(keys, hash) => ChangeView::AddPeer(
                keys.public_key@,
                keys.public_key_pq@,
                hash@,
            ),
            Change::RemovePeer(hash) => ChangeView::RemovePeer(hash@),
            Change::ReplaceAllowedIps(hash) => ChangeView::ReplaceAllowedIps(hash@),
            Change::AddAllowedIp(hash, ip, cidr) => ChangeView::AddAllowedIp(hash@, ip, cidr),
            Change::SetPresharedKey(hash, psk) => ChangeView::SetPresharedKey(hash@, psk@),
            Change::SetPersistentKeepaliveInterval(hash, secs) =>
                ChangeView::SetPersistentKeepaliveInterval(hash@, secs),
            Change::SetEndpoint(hash, endpoint) => ChangeView::SetEndpoint(hash@, endpoint),
        }
    }
}

/// What changes amount to.
pub open spec fn change_views<E>(changes: Seq<Change<E>>) -> Seq<ChangeView<E>> {
    changes.map_values(|c: Change<E>| c@)
}

/// What was said about a peer.
pub struct ParsedPeer<E> {
    pub public_key: [u8; 32],
    pub public_key_pq: Vec<u8>,
    pub update_only: bool,
    pub allowed_ips: Vec<(IpAddr, u32)>,
    pub remove: bool,
    pub preshared_key: Option<Psk>,
    pub replace_allowed_ips: bool,
    pub persistent_keepalive_interval: Option<u64>,
    pub protocol_version: Option<usize>,
    pub endpoint: Option<E>,
}

/// What was said about a peer, with sequences for bytes.
#[verifier::ext_equal]
pub ghost struct PeerView<E> {
    pub public_key: Seq<u8>,
    pub public_key_pq: Seq<u8>,
    pub update_only: bool,
    pub allowed_ips: Seq<(IpAddr, u32)>,
    pub remove: bool,
    pub preshared_key: Option<Seq<u8>>,
    pub replace_allowed_ips: bool,
    pub persistent_keepalive_interval: Option<u64>,
    pub protocol_version: Option<usize>,
    pub endpoint: Option<E>,
}

impl<E> PeerView<E> {
    /// A peer about which nothing was said yet.
    pub open spec fn fresh(public_key: Seq<u8>, public_key_pq: Seq<u8>) -> Self {
        PeerView {
            public_key,
            public_key_pq,
            update_only: false,
            allowed_ips: Seq::empty(),
            remove: false,
            preshared_key: None,
            replace_allowed_ips: false,
            persistent_keepalive_interval: None,
            protocol_version: None,
            endpoint: None,
        }
    }

    /// The hash by which the peer is known.
    pub open spec fn hash(self) -> Seq<u8> {
        key_hash(self.public_key, self.public_key_pq)
    }

    /// The changes that what was said about a peer amounts to: its removal; or, unless the
    /// protocol version is unsupported, its addition, the removal of its networks, new
    /// networks, and its other settings, in this order.
    pub open spec fn changes(self, supported: usize) -> Result<Seq<ChangeView<E>>, ConfigError> {
        let hash = self.hash();
        if self.remove {
            Ok(seq![ChangeView::RemovePeer(hash)])
        } else if self.protocol_version matches Some(v) && (v == 0 || v > supported) {
            Err(ConfigError::UnsupportedProtocolVersion)
        } else {
            Ok(
                (if self.update_only {
                    Seq::<ChangeView<E>>::empty()
                } else {
                    seq![ChangeView::AddPeer(self.public_key, self.public_key_pq, hash)]
                }) + (if self.replace_allowed_ips {
                    seq![ChangeView::<E>::ReplaceAllowedIps(hash)]
                } else {
                    Seq::empty()
                }) + self.allowed_ips.map_values(
                    |n: (IpAddr, u32)| ChangeView::<E>::AddAllowedIp(hash, n.0, n.1),
                ) + (match self.preshared_key {
                    Some(psk) => seq![ChangeView::<E>::SetPresharedKey(hash, psk)],
                    None => Seq::empty(),
                }) + (match self.persistent_keepalive_interval {
                    Some(secs) => seq![
                        ChangeView::<E>::SetPersistentKeepaliveInterval(hash, secs),
                    ],
                    None => Seq::empty(),
                }) + (match self.endpoint {
                    Some(endpoint) => seq![ChangeView::SetEndpoint(hash, endpoint)],
                    None => Seq::empty(),
                }),
            )
        }
    }
}

impl<E> ParsedPeer<E> {
    pub open spec fn view(&self) -> PeerView<E> {
        PeerView {
            public_key: self.public_key@,
            public_key_pq: self.public_key_pq@,
            update_only: self.update_only,
            allowed_ips: self.allowed_ips@,
            remove: self.remove,
            preshared_key: match self.preshared_key {
                Some(psk) => Some(psk@),
                None => None,
            },
            replace_allowed_ips: self.replace_allowed_ips,
            persistent_keepalive_interval: self.persistent_keepalive_interval,
            protocol_version: self.protocol_version,
            endpoint: self.endpoint,
        }
    }
}

/// A copy of bytes.
fn copied(bytes: &[u8]) -> (r: Vec<u8>)
    ensures
        r@ == bytes@,
{
    let mut r: Vec<u8> = Vec::new();
    r.extend_from_slice(bytes);
    assert(r@ =~= bytes@);
    r
}

proof fn lemma_views_push<E>(changes: Seq<Change<E>>, change: Change<E>)
    ensures
        change_views(changes.push(change)) == change_views(changes).push(change@),
{
    assert(change_views(changes.push(change)) =~= change_views(changes).push(change@));
}

impl<E: Copy> ParsedPeer<E> {
    /// The changes that what was said about a peer amounts to.
    fn flush(&self, supported: usize) -> (r: Result<Vec<Change<E>>, ConfigError>)
        ensures
            match self@.changes(supported) {
                Ok(changes) => r matches Ok(v) && change_views(v@) == changes,
                Err(e) => r == Err::<Vec<Change<E>>, ConfigError>(e),
            },
    {
        let hash = hash2(&self.public_key, &self.public_key_pq);
        let mut out: Vec<Change<E>> = Vec::new();
        assert(change_views(out@) =~= Seq::empty());
        if self.remove {
            proof {
                lemma_views_push(out@, Change::RemovePeer(hash));
            }
            out.push(Change::RemovePeer(hash));
            assert(change_views(out@) =~= seq![ChangeView::RemovePeer(hash@)]);
            return Ok(out);
        }
        if let Some(version) = self.protocol_version {
            if version == 0 || version > supported {
                return Err(ConfigError::UnsupportedProtocolVersion);
            }
        }
        if !self.update_only {
            let keys = PeerKeys {
                public_key: self.public_key,
                public_key_pq: copied(&self.public_key_pq),
            };
            proof {
                lemma_views_push(out@, Change::AddPeer(keys, hash));
            }
            out.push(Change::AddPeer(keys, hash));
        }
        let ghost added = change_views(out@);
        if self.replace_allowed_ips {
            proof {
                lemma_views_push(out@, Change::ReplaceAllowedIps(hash));
            }
            out.push(Change::ReplaceAllowedIps(hash));
        }
        let ghost replaced = change_views(out@);
        let ghost networks = self.allowed_ips@.map_values(
            |n: (IpAddr, u32)| ChangeView::<E>::AddAllowedIp(hash@, n.0, n.1),
        );
        let mut i: usize = 0;
        assert(replaced + networks.take(0) =~= replaced);
        while i < self.allowed_ips.len()
            invariant
                i <= self.allowed_ips@.len(),
                networks == self.allowed_ips@.map_values(
                    |n: (IpAddr, u32)| ChangeView::<E>::AddAllowedIp(hash@, n.0, n.1),
                ),
                change_views(out@) == replaced + networks.take(i as int),
            decreases self.allowed_ips@.len() - i,
        {
            let (ip, cidr) = self.allowed_ips[i];
            proof {
                lemma_views_push(out@, Change::AddAllowedIp(hash, ip, cidr));
                assert(networks.take(i + 1) =~= networks.take(i as int).push(networks[i as int]));
                assert(replaced + networks.take(i + 1) =~= (replaced + networks.take(
                    i as int,
                )).push(networks[i as int]));
            }
            out.push(Change::AddAllowedIp(hash, ip, cidr));
            i += 1;
        }
        assert(networks.take(i as int) =~= networks);
        if let Some(psk) = self.preshared_key {
            proof {
                lemma_views_push(out@, Change::SetPresharedKey(hash, psk));
            }
            out.push(Change::SetPresharedKey(hash, psk));
        }
        if let Some(secs) = self.persistent_keepalive_interval {
            proof {
                lemma_views_push(out@, Change::SetPersistentKeepaliveInterval(hash, secs));
            }
            out.push(Change::SetPersistentKeepaliveInterval(hash, secs));
        }
        if let Some(endpoint) = self.endpoint {
            proof {
                lemma_views_push(out@, Change::SetEndpoint(hash, endpoint));
            }
            out.push(Change::SetEndpoint(hash, endpoint));
        }
        assert(change_views(out@) =~= self@.changes(supported)->Ok_0);
        Ok(out)
    }
}

/// Length of a public key in a transcript: both keys, one after the other.
pub const SIZE_PUBLIC_KEY: usize = 524192;

/// Length of a private key in a transcript: the scalar and both key encapsulation keys.
pub const SIZE_PRIVATE_KEY: usize = 537800;

/// The peer that a public key begins.
pub open spec fn peer_of<E>(value: Seq<u8>) -> Option<PeerView<E>> {
    let data = from_hex(value);
    if is_hex(value) && data.len() == SIZE_PUBLIC_KEY {
        Some(PeerView::fresh(data.take(32), data.skip(32)))
    } else {
        None
    }
}

/// The private key that a value writes; zeros stand for none.
pub open spec fn private_key_of(value: Seq<u8>) -> Result<
    Option<(Seq<u8>, Seq<u8>, Seq<u8>)>,
    ConfigError,
> {
    let data = from_hex(value);
    if !is_hex(value) || data.len() != SIZE_PRIVATE_KEY {
        Err(ConfigError::InvalidHexValue)
    } else if data == zeros(SIZE_PRIVATE_KEY as nat) {
        Ok(None)
    } else {
        Ok(
            Some(
                (
                    data.take(32),
                    data.subrange(32, 32 + SIZE_STATIC_KEM_SECRET_KEY),
                    data.skip(32 + SIZE_STATIC_KEM_SECRET_KEY),
                ),
            ),
        )
    }
}

/// How many bytes there are before the first slash.
pub open spec fn slash_at(value: Seq<u8>) -> nat
    decreases value.len(),
{
    if value.len() == 0 || value[0] == 0x2f {
        0
    } else {
        1 + slash_at(value.drop_first())
    }
}

/// The length of a network's prefix: the number behind the first slash.
pub open spec fn prefix_of(value: Seq<u8>) -> Option<nat> {
    let n = slash_at(value);
    if n < value.len() {
        unsigned_value(value.skip(n as int + 1), u32::MAX as nat)
    } else {
        None
    }
}

/// How many bytes of a value there are before the first slash: the text of the address of a
/// network.
pub fn address_len(value: &str) -> (r: usize)
    ensures
        r == slash_at(encode_utf8(value@)),
        r <= encode_utf8(value@).len(),
{
    find_slash(value.as_bytes())
}

fn find_slash(value: &[u8]) -> (r: usize)
    ensures
        r == slash_at(value@),
        r <= value@.len(),
{
    let mut i: usize = 0;
    assert(value@.skip(0) =~= value@);
    while i < value.len() && value[i] != 0x2f
        invariant
            i <= value@.len(),
            slash_at(value@) == i + slash_at(value@.skip(i as int)),
        decreases value@.len() - i,
    {
        assert(value@.skip(i as int).drop_first() =~= value@.skip(i + 1));
        i += 1;
    }
    i
}

/// What a line leads to: the peer that lines are about from now on, if any, the changes to
/// be made, and whether the line was accepted.
pub ghost struct LineOutcome<E> {
    pub peer: Option<PeerView<E>>,
    pub changes: Seq<ChangeView<E>>,
    pub result: Result<(), ConfigError>,
}

impl<E> LineOutcome<E> {
    /// The line is refused and changes nothing.
    pub open spec fn refused(peer: Option<PeerView<E>>, e: ConfigError) -> Self {
        LineOutcome { peer, changes: Seq::empty(), result: Err(e) }
    }

    /// The line makes one change.
    pub open spec fn change(change: ChangeView<E>) -> Self {
        LineOutcome { peer: None, changes: seq![change], result: Ok(()) }
    }

    /// The line says something about the peer.
    pub open spec fn said(peer: PeerView<E>) -> Self {
        LineOutcome { peer: Some(peer), changes: Seq::empty(), result: Ok(()) }
    }

    /// A new peer begins, after the changes that the one before amounts to.
    pub open spec fn begins(
        before: Option<PeerView<E>>,
        changes: Seq<ChangeView<E>>,
        value: Seq<u8>,
    ) -> Self {
        match peer_of(value) {
            Some(peer) => LineOutcome { peer: Some(peer), changes, result: Ok(()) },
            None => LineOutcome {
                peer: before,
                changes,
                result: Err(ConfigError::InvalidHexValue),
            },
        }
    }
}

/// The removal of all peers.
pub open spec fn removals<E>(peers: Seq<PeerKeys>) -> Seq<ChangeView<E>> {
    peers.map_values(
        |p: PeerKeys| ChangeView::<E>::RemovePeer(key_hash(p.public_key@, p.public_key_pq@)),
    )
}

/// What a line about the interface leads to.
pub open spec fn interface_line<E>(
    key: Seq<char>,
    value: Seq<char>,
    present: Present,
) -> LineOutcome<E> {
    let bytes = encode_utf8(value);
    if key == "private_key"@ {
        match private_key_of(bytes) {
            Ok(private) => LineOutcome::change(ChangeView::SetPrivateKey(private)),
            Err(e) => LineOutcome::refused(None, e),
        }
    } else if key == "listen_port"@ {
        match unsigned_value(bytes, u16::MAX as nat) {
            Some(port) => LineOutcome::change(ChangeView::SetListenPort(port as u16)),
            None => LineOutcome::refused(None, ConfigError::InvalidPortNumber),
        }
    } else if key == "fwmark"@ {
        match unsigned_value(bytes, u32::MAX as nat) {
            Some(mark) => LineOutcome::change(
                ChangeView::SetFwmark(
                    if mark == 0 {
                        None
                    } else {
                        Some(mark as u32)
                    },
                ),
            ),
            None => LineOutcome::refused(None, ConfigError::InvalidFwmark),
        }
    } else if key == "ri_key"@ {
        let data = from_hex(bytes);
        if is_hex(bytes) && data.len() == 8 {
            LineOutcome::change(
                ChangeView::SetRiKey(
                    if data == zeros(8) {
                        None
                    } else {
                        Some(data)
                    },
                ),
            )
        } else {
            LineOutcome::refused(None, ConfigError::InvalidHexValue)
        }
    } else if key == "replace_peers"@ {
        if value == "true"@ {
            LineOutcome { peer: None, changes: removals(present.peers@), result: Ok(()) }
        } else {
            LineOutcome::refused(None, ConfigError::UnsupportedValue)
        }
    } else if key == "public_key"@ {
        LineOutcome::begins(None, Seq::empty(), bytes)
    } else if key == ""@ {
        LineOutcome { peer: None, changes: Seq::empty(), result: Ok(()) }
    } else {
        LineOutcome::refused(None, ConfigError::InvalidKey)
    }
}

/// What a line about a peer leads to.
pub open spec fn peer_line<E>(
    peer: PeerView<E>,
    key: Seq<char>,
    value: Seq<char>,
    present: Present,
    addresses: Addresses<E>,
) -> LineOutcome<E> {
    let bytes = encode_utf8(value);
    if key == "public_key"@ {
        match peer.changes(present.protocol_version) {
            Ok(changes) => LineOutcome::begins(Some(peer), changes, bytes),
            Err(e) => LineOutcome::refused(Some(peer), e),
        }
    } else if key == ""@ {
        match peer.changes(present.protocol_version) {
            Ok(changes) => LineOutcome { peer: Some(peer), changes, result: Ok(()) },
            Err(e) => LineOutcome::refused(Some(peer), e),
        }
    } else if key == "remove"@ {
        LineOutcome::said(PeerView { remove: true, ..peer })
    } else if key == "update_only"@ {
        LineOutcome::said(PeerView { update_only: true, ..peer })
    } else if key == "preshared_key"@ {
        if is_hex(bytes) && from_hex(bytes).len() == 32 {
            LineOutcome::said(PeerView { preshared_key: Some(from_hex(bytes)), ..peer })
        } else {
            LineOutcome::refused(Some(peer), ConfigError::InvalidHexValue)
        }
    } else if key == "endpoint"@ {
        match addresses.endpoint {
            Some(_) => LineOutcome::said(PeerView { endpoint: addresses.endpoint, ..peer }),
            None => LineOutcome::refused(Some(peer), ConfigError::InvalidSocketAddr),
        }
    } else if key == "persistent_keepalive_interval"@ {
        match unsigned_value(bytes, u64::MAX as nat) {
            Some(secs) => LineOutcome::said(
                PeerView { persistent_keepalive_interval: Some(secs as u64), ..peer },
            ),
            None => LineOutcome::refused(Some(peer), ConfigError::InvalidKeepaliveInterval),
        }
    } else if key == "replace_allowed_ips"@ {
        LineOutcome::said(
            PeerView { replace_allowed_ips: true, allowed_ips: Seq::empty(), ..peer },
        )
    } else if key == "allowed_ip"@ {
        match (addresses.network, prefix_of(bytes)) {
            (Some(ip), Some(cidr)) => LineOutcome::said(
                PeerView { allowed_ips: peer.allowed_ips.push((ip, cidr as u32)), ..peer },
            ),
            _ => LineOutcome::refused(Some(peer), ConfigError::InvalidAllowedIp),
        }
    } else if key == "protocol_version"@ {
        match unsigned_value(bytes, usize::MAX as nat) {
            Some(version) => LineOutcome::said(
                PeerView { protocol_version: Some(version as usize), ..peer },
            ),
            None => LineOutcome::refused(Some(peer), ConfigError::UnsupportedProtocolVersion),
        }
    } else {
        LineOutcome::refused(Some(peer), ConfigError::InvalidKey)
    }
}

/// What a line leads to.
pub open spec fn line<E>(
    peer: Option<PeerView<E>>,
    key: Seq<char>,
    value: Seq<char>,
    present: Present,
    addresses: Addresses<E>,
) -> LineOutcome<E> {
    match peer {
        Some(peer) => peer_line(peer, key, value, present, addresses),
        None => interface_line(key, value, present),
    }
}

/// What lines are about.
pub enum ParserState<E> {
    Peer(ParsedPeer<E>),
    Interface,
}

/// Reads a transcript line by line. `E` is what an endpoint is.
pub struct LineParser<E> {
    pub state: ParserState<E>,
}

/// What to do about a line: the changes to be made, in order, and whether the line was
/// accepted. Changes are made even if it was not.
pub struct LineEffect<E> {
    pub changes: Vec<Change<E>>,
    pub result: Result<(), ConfigError>,
}

impl<E> LineEffect<E> {
    fn nothing() -> (r: Self)
        ensures
            change_views(r.changes@) == Seq::<ChangeView<E>>::empty(),
            r.result == Ok::<(), ConfigError>(()),
    {
        let r = LineEffect { changes: Vec::new(), result: Ok(()) };
        assert(change_views(r.changes@) =~= Seq::empty());
        r
    }

    fn refused(e: ConfigError) -> (r: Self)
        ensures
            change_views(r.changes@) == Seq::<ChangeView<E>>::empty(),
            r.result == Err::<(), ConfigError>(e),
    {
        let r = LineEffect { changes: Vec::new(), result: Err(e) };
        assert(change_views(r.changes@) =~= Seq::empty());
        r
    }

    fn change(change: Change<E>) -> (r: Self)
        ensures
            change_views(r.changes@) == seq![change@],
            r.result == Ok::<(), ConfigError>(()),
    {
        let mut changes: Vec<Change<E>> = Vec::new();
        changes.push(change);
        assert(change_views(changes@) =~= seq![change@]);
        LineEffect { changes, result: Ok(()) }
    }
}

/// The peer that a public key begins.
fn new_peer<E>(value: &[u8]) -> (r: Result<ParsedPeer<E>, ConfigError>)
    ensures
        match peer_of::<E>(value@) {
            Some(peer) => r matches Ok(p) && p@ == peer,
            None => r == Err::<ParsedPeer<E>, ConfigError>(ConfigError::InvalidHexValue),
        },
{
    match decode_hex(value) {
        Ok(data) => {
            if data.len() != SIZE_PUBLIC_KEY {
                return Err(ConfigError::InvalidHexValue);
            }
            let public_key: [u8; 32] = take(&data, 0);
            let rest = data.as_slice();
            let public_key_pq = copied(vstd::slice::slice_subrange(rest, 32, SIZE_PUBLIC_KEY));
            let peer = ParsedPeer {
                public_key,
                public_key_pq,
                remove: false,
                update_only: false,
                allowed_ips: Vec::new(),
                preshared_key: None,
                replace_allowed_ips: false,
                persistent_keepalive_interval: None,
                protocol_version: None,
                endpoint: None,
            };
            assert(public_key@ =~= data@.take(32));
            assert(public_key_pq@ =~= data@.skip(32));
            assert(peer@ =~= PeerView::fresh(data@.take(32), data@.skip(32)));
            Ok(peer)
        },
        Err(_) => Err(ConfigError::InvalidHexValue),
    }
}

/// The private key that a value writes.
fn read_private_key(value: &[u8]) -> (r: Result<Option<PrivateKey>, ConfigError>)
    ensures
        match private_key_of(value@) {
            Ok(Some((sk, sk_pq, pk_pq))) => r matches Ok(Some(key)) && key.sk@ == sk
                && key.sk_pq@ == sk_pq && key.pk_pq@ == pk_pq,
            Ok(None) => r matches Ok(None),
            Err(e) => r == Err::<Option<PrivateKey>, ConfigError>(e),
        },
{
    match decode_hex(value) {
        Ok(data) => {
            if data.len() != SIZE_PRIVATE_KEY {
                return Err(ConfigError::InvalidHexValue);
            }
            let none: Vec<u8> = vec![0u8; SIZE_PRIVATE_KEY];
            assert(none@ =~= zeros(SIZE_PRIVATE_KEY as nat));
            if ct_eq(&data, &none) {
                return Ok(None);
            }
            let sk: [u8; 32] = take(&data, 0);
            let all = data.as_slice();
            let middle: usize = 32 + SIZE_STATIC_KEM_SECRET_KEY;
            let sk_pq = copied(vstd::slice::slice_subrange(all, 32, middle));
            let pk_pq = copied(vstd::slice::slice_subrange(all, middle, SIZE_PRIVATE_KEY));
            assert(sk@ =~= data@.take(32));
            assert(pk_pq@ =~= data@.skip(32 + SIZE_STATIC_KEM_SECRET_KEY));
            Ok(Some(PrivateKey { sk, sk_pq, pk_pq }))
        },
        Err(_) => Err(ConfigError::InvalidHexValue),
    }
}

/// The bytes that a value of fixed length writes.
fn read_bytes<const N: usize>(value: &[u8]) -> (r: Option<[u8; N]>)
    ensures
        match r {
            Some(data) => is_hex(value@) && data@ == from_hex(value@),
            None => !(is_hex(value@) && from_hex(value@).len() == N),
        },
{
    match decode_hex(value) {
        Ok(data) => {
            if data.len() != N {
                return None;
            }
            assert(data@.subrange(0, N as int) =~= data@);
            Some(take(&data, 0))
        },
        Err(_) => None,
    }
}

/// The removal of all peers.
fn remove_all<E>(peers: &Vec<PeerKeys>) -> (r: Vec<Change<E>>)
    ensures
        change_views(r@) == removals::<E>(peers@),
{
    let mut out: Vec<Change<E>> = Vec::new();
    let mut i: usize = 0;
    assert(change_views(out@) =~= removals::<E>(peers@).take(0));
    while i < peers.len()
        invariant
            i <= peers@.len(),
            change_views(out@) == removals::<E>(peers@).take(i as int),
        decreases peers@.len() - i,
    {
        let hash = hash2(&peers[i].public_key, &peers[i].public_key_pq);
        proof {
            let all = removals::<E>(peers@);
            lemma_views_push(out@, Change::RemovePeer(hash));
            assert(all.take(i + 1) =~= all.take(i as int).push(all[i as int]));
        }
        out.push(Change::RemovePeer(hash));
        i += 1;
    }
    assert(removals::<E>(peers@).take(i as int) =~= removals::<E>(peers@));
    out
}

impl<E> LineParser<E> {
    /// The peer that lines are about, if they are about one.
    pub open spec fn view(&self) -> Option<PeerView<E>> {
        match self.state {
            ParserState::Peer(peer) => Some(peer@),
            ParserState::Interface => None,
        }
    }

    /// At the start of a transcript lines are about the interface.
    pub fn new() -> (r: Self)
        ensures
            r@ is None,
    {
        LineParser { state: ParserState::Interface }
    }

    /// Reads a line about the interface.
    fn parse_interface_line(&mut self, key: &str, value: &str, present: &Present) -> (r: LineEffect<
        E,
    >)
        requires
            old(self)@ is None,
        ensures
            ({
                let outcome = interface_line::<E>(key@, value@, *present);
                &&& final(self)@ == outcome.peer
                &&& change_views(r.changes@) == outcome.changes
                &&& r.result == outcome.result
            }),
    {
        let bytes = value.as_bytes();
        if is_text(key, "private_key") {
            match read_private_key(bytes) {
                Ok(private) => LineEffect::change(Change::SetPrivateKey(private)),
                Err(e) => LineEffect::refused(e),
            }
        } else if is_text(key, "listen_port") {
            match parse_unsigned(bytes, u16::MAX as u64) {
                Some(port) => LineEffect::change(Change::SetListenPort(port as u16)),
                None => LineEffect::refused(ConfigError::InvalidPortNumber),
            }
        } else if is_text(key, "fwmark") {
            match parse_unsigned(bytes, u32::MAX as u64) {
                Some(mark) => LineEffect::change(
                    Change::SetFwmark(
                        if mark == 0 {
                            None
                        } else {
                            Some(mark as u32)
                        },
                    ),
                ),
                None => LineEffect::refused(ConfigError::InvalidFwmark),
            }
        } else if is_text(key, "ri_key") {
            let read: Option<[u8; 8]> = read_bytes(bytes);
            match read {
                Some(ri_key) => {
                    let none: [u8; 8] = [0u8; 8];
                    assert(none@ =~= zeros(8));
                    LineEffect::change(
                        Change::SetRiKey(
                            if ct_eq(&ri_key, &none) {
                                None
                            } else {
                                Some(ri_key)
                            },
                        ),
                    )
                },
                None => LineEffect::refused(ConfigError::InvalidHexValue),
            }
        } else if is_text(key, "replace_peers") {
            if is_text(value, "true") {
                LineEffect { changes: remove_all(&present.peers), result: Ok(()) }
            } else {
                LineEffect::refused(ConfigError::UnsupportedValue)
            }
        } else if is_text(key, "public_key") {
            match new_peer(bytes) {
                Ok(peer) => {
                    self.state = ParserState::Peer(peer);
                    LineEffect::nothing()
                },
                Err(e) => LineEffect::refused(e),
            }
        } else if is_text(key, "") {
            LineEffect::nothing()
        } else {
            LineEffect::refused(ConfigError::InvalidKey)
        }
    }
}

/// Takes in what a line says about a peer: all lines about a peer but those that end it.
fn say<E: Copy>(peer: &mut ParsedPeer<E>, key: &str, value: &str, addresses: &Addresses<E>) -> (r:
    Result<(), ConfigError>)
    requires
        key@ != "public_key"@,
        key@ != ""@,
    ensures
        forall|present: Present|
            {
                let outcome = #[trigger] peer_line(old(peer)@, key@, value@, present, *addresses);
                &&& outcome.peer == Some(final(peer)@)
                &&& outcome.changes == Seq::<ChangeView<E>>::empty()
                &&& outcome.result == r
            },
{
    let bytes = value.as_bytes();
    if is_text(key, "remove") {
        peer.remove = true;
        Ok(())
    } else if is_text(key, "update_only") {
        peer.update_only = true;
        Ok(())
    } else if is_text(key, "preshared_key") {
        let read: Option<Psk> = read_bytes(bytes);
        match read {
            Some(psk) => {
                peer.preshared_key = Some(psk);
                Ok(())
            },
            None => Err(ConfigError::InvalidHexValue),
        }
    } else if is_text(key, "endpoint") {
        match addresses.endpoint {
            Some(endpoint) => {
                peer.endpoint = Some(endpoint);
                Ok(())
            },
            None => Err(ConfigError::InvalidSocketAddr),
        }
    } else if is_text(key, "persistent_keepalive_interval") {
        match parse_unsigned(bytes, u64::MAX) {
            Some(secs) => {
                peer.persistent_keepalive_interval = Some(secs);
                Ok(())
            },
            None => Err(ConfigError::InvalidKeepaliveInterval),
        }
    } else if is_text(key, "replace_allowed_ips") {
        peer.replace_allowed_ips = true;
        peer.allowed_ips.clear();
        Ok(())
    } else if is_text(key, "allowed_ip") {
        let n = find_slash(bytes);
        let cidr = if n < bytes.len() {
            parse_unsigned(vstd::slice::slice_subrange(bytes, n + 1, bytes.len()), u32::MAX as u64)
        } else {
            None
        };
        assert(n < bytes@.len() ==> bytes@.subrange(n + 1, bytes@.len() as int) =~= bytes@.skip(
            n + 1,
        ));
        match (addresses.network, cidr) {
            (Some(ip), Some(cidr)) => {
                peer.allowed_ips.push((ip, cidr as u32));
                Ok(())
            },
            _ => Err(ConfigError::InvalidAllowedIp),
        }
    } else if is_text(key, "protocol_version") {
        match parse_unsigned(bytes, usize::MAX as u64) {
            Some(version) => {
                peer.protocol_version = Some(version as usize);
                Ok(())
            },
            None => Err(ConfigError::UnsupportedProtocolVersion),
        }
    } else {
        Err(ConfigError::InvalidKey)
    }
}

impl<E: Copy> LineParser<E> {
    /// Reads a line. An empty key ends the transcript.
    pub fn parse_line(
        &mut self,
        key: &str,
        value: &str,
        present: &Present,
        addresses: &Addresses<E>,
    ) -> (r: LineEffect<E>)
        ensures
            ({
                let outcome = line(old(self)@, key@, value@, *present, *addresses);
                &&& final(self)@ == outcome.peer
                &&& change_views(r.changes@) == outcome.changes
                &&& r.result == outcome.result
            }),
    {
        proof {
            reveal_strlit("public_key");
            reveal_strlit("");
            assert("public_key"@.len() != ""@.len());
        }
        let ends = is_text(key, "public_key") || is_text(key, "");
        let changes = match &self.state {
            ParserState::Interface => return self.parse_interface_line(key, value, present),
            ParserState::Peer(peer) => {
                if ends {
                    match peer.flush(present.protocol_version) {
                        Ok(changes) => changes,
                        Err(e) => return LineEffect::refused(e),
                    }
                } else {
                    Vec::new()
                }
            },
        };
        if !ends {
            let result = match &mut self.state {
                ParserState::Peer(peer) => say(peer, key, value, addresses),
                ParserState::Interface => Ok(()),
            };
            assert(peer_line(old(self)@->0, key@, value@, *present, *addresses).result == result);
            assert(change_views(changes@) =~= Seq::empty());
            return LineEffect { changes, result };
        }
        if is_text(key, "") {
            return LineEffect { changes, result: Ok(()) };
        }
        match new_peer(value.as_bytes()) {
            Ok(next) => {
                self.state = ParserState::Peer(next);
                LineEffect { changes, result: Ok(()) }
            },
            Err(e) => LineEffect { changes, result: Err(e) },
        }
    }
}

/// Nothing that was said about a peer takes effect before its protocol version is checked:
/// if that is unsupported, the line that ends the peer is refused and changes nothing.
pub proof fn law_unsupported_version_changes_nothing<E>(
    peer: PeerView<E>,
    key: Seq<char>,
    value: Seq<char>,
    present: Present,
    addresses: Addresses<E>,
)
    requires
        key == "public_key"@ || key == ""@,
        !peer.remove,
        peer.protocol_version is Some,
        peer.protocol_version->0 == 0 || peer.protocol_version->0 > present.protocol_version,
    ensures
        line(Some(peer), key, value, present, addresses) == LineOutcome::refused(
            Some(peer),
            ConfigError::UnsupportedProtocolVersion,
        ),
{
}

/// What is said about a peer changes nothing until the peer ends.
pub proof fn law_changes_wait_for_the_end<E>(
    peer: PeerView<E>,
    key: Seq<char>,
    value: Seq<char>,
    present: Present,
    addresses: Addresses<E>,
)
    requires
        key != "public_key"@,
        key != ""@,
    ensures
        line(Some(peer), key, value, present, addresses).changes == Seq::<ChangeView<E>>::empty(),
        line(Some(peer), key, value, present, addresses).peer is Some,
{
}

/// When the networks of a peer are replaced, those that were named before are forgotten.
pub proof fn law_named_networks_are_forgotten<E>(
    peer: PeerView<E>,
    value: Seq<char>,
    present: Present,
    addresses: Addresses<E>,
)
    ensures
        line(Some(peer), "replace_allowed_ips"@, value, present, addresses) == LineOutcome::said(
            PeerView { replace_allowed_ips: true, allowed_ips: Seq::empty(), ..peer },
        ),
{
    reveal_strlit("replace_allowed_ips");
    reveal_strlit("public_key");
    reveal_strlit("");
    reveal_strlit("remove");
    reveal_strlit("update_only");
    reveal_strlit("preshared_key");
    reveal_strlit("endpoint");
    reveal_strlit("persistent_keepalive_interval");
    assert("replace_allowed_ips"@.len() == 19);
    assert("public_key"@.len() == 10);
    assert(""@.len() == 0);
    assert("remove"@.len() == 6);
    assert("update_only"@.len() == 11);
    assert("preshared_key"@.len() == 13);
    assert("endpoint"@.len() == 8);
    assert("persistent_keepalive_interval"@.len() == 29);
}

/// When the networks of a peer are replaced, the old ones are removed before any new one is
/// added.
pub proof fn law_networks_are_replaced<E>(peer: PeerView<E>, supported: usize, i: int)
    requires
        !peer.remove,
        peer.replace_allowed_ips,
        peer.changes(supported) is Ok,
        0 <= i < peer.changes(supported)->Ok_0.len(),
        peer.changes(supported)->Ok_0[i] is AddAllowedIp,
    ensures
        exists|j: int|
            0 <= j < i && #[trigger] peer.changes(supported)->Ok_0[j] == ChangeView::<
                E,
            >::ReplaceAllowedIps(peer.hash()),
{
    let changes = peer.changes(supported)->Ok_0;
    let hash = peer.hash();
    if peer.update_only {
        assert(changes[0] == ChangeView::<E>::ReplaceAllowedIps(hash));
    } else {
        assert(changes[0] == ChangeView::<E>::AddPeer(peer.public_key, peer.public_key_pq, hash));
        assert(changes[1] == ChangeView::<E>::ReplaceAllowedIps(hash));
    }
}

/// A key that is not written in hexadecimal digits, or does not have the length of its kind,
/// is refused: no peer begins and no key is set.
pub proof fn law_malformed_keys_are_refused<E>(value: Seq<char>, present: Present)
    ensures
        !is_hex(encode_utf8(value)) || from_hex(encode_utf8(value)).len() != SIZE_PUBLIC_KEY
            ==> interface_line::<E>("public_key"@, value, present) == LineOutcome::<E>::refused(
            None,
            ConfigError::InvalidHexValue,
        ),
        !is_hex(encode_utf8(value)) || from_hex(encode_utf8(value)).len() != SIZE_PRIVATE_KEY
            ==> interface_line::<E>("private_key"@, value, present) == LineOutcome::<E>::refused(
            None,
            ConfigError::InvalidHexValue,
        ),
{
    reveal_strlit("public_key");
    reveal_strlit("private_key");
    reveal_strlit("listen_port");
    reveal_strlit("fwmark");
    reveal_strlit("ri_key");
    reveal_strlit("replace_peers");
    assert("public_key"@.len() == 10);
    assert("private_key"@.len() == 11);
    assert("listen_port"@.len() == 11);
    assert("fwmark"@.len() == 6);
    assert("ri_key"@.len() == 6);
    assert("replace_peers"@.len() == 13);
}

} // verus!
