//! The transport manager: peer bookkeeping, dial arbitration and
//! deduplication, transport selection and event reconciliation.

use vstd::prelude::*;
use crate::address::{
    ip_of, ip_segment, ip_protocol, is_peer_multihash, IpAddress, Multiaddr, MultiaddrView, MultihashView, PeerId, Protocol, ProtocolView, SocketAddress,
};
use crate::error::{result_view, AddressError, Error, ErrorView};
use crate::peers::{
    record_or_empty, record_wf, with_address, ConnectionId, SubstreamId, PeerRecord, PeerStateView, PeerTable, PendingTable,
    PeerState,
};

verus! {

/// Transport kinds the manager can dispatch to.
#[derive(Debug, Clone, Copy, PartialEq, Eq, Structural, Hash)]
pub enum SupportedTransport {
    Tcp,
    Quic,
    WebRtc,
    WebSocket,
}

/// How an address to be dialed is read.
#[derive(Debug)]
pub enum DialTarget {
    /// The address starts with a symbolic host that must be resolved first.
    Symbolic,
    /// The address names an endpoint, a transport kind and a peer.
    Remote { endpoint: SocketAddress, transport: SupportedTransport, peer: PeerId },
}

/// Abstract value of a [`DialTarget`].
pub enum DialTargetView {
    Symbolic,
    Remote { endpoint: SocketAddress, transport: SupportedTransport, peer: MultihashView },
}

impl View for DialTarget {
    type V = DialTargetView;

    open spec fn view(&self) -> DialTargetView {
        match self {
            DialTarget::Symbolic => DialTargetView::Symbolic,
            DialTarget::Remote { endpoint, transport, peer } => DialTargetView::Remote {
                endpoint: *endpoint,
                transport: *transport,
                peer: peer@,
            },
        }
    }
}

/// Whether a segment is a symbolic host.
pub open spec fn is_symbolic(p: ProtocolView) -> bool {
    p is Dns || p is Dns4 || p is Dns6
}

/// Whether a segment is a literal network-layer endpoint.
pub open spec fn is_ip(p: ProtocolView) -> bool {
    p is Ip4 || p is Ip6
}

/// The peer identity expected at position `i`, dialed over `transport`;
/// `missing` when no identity segment stands there.
pub open spec fn remote_at(
    a: MultiaddrView,
    i: int,
    endpoint: SocketAddress,
    transport: SupportedTransport,
    missing: ErrorView,
) -> Result<DialTargetView, ErrorView> {
    if i < a.len() && a[i] is P2p {
        if is_peer_multihash(a[i]->P2p_0) {
            Ok(DialTargetView::Remote { endpoint, transport, peer: a[i]->P2p_0 })
        } else {
            Err(ErrorView::InvalidData)
        }
    } else {
        Err(missing)
    }
}

/// How the manager reads an address to be dialed: the first segment is a
/// literal endpoint or a symbolic host; after an endpoint comes `tcp`,
/// optionally `ws`, or `udp` and `quic-v1`, and then the peer identity.
pub open spec fn dial_target_of(a: MultiaddrView) -> Result<DialTargetView, ErrorView> {
    let unsupported = ErrorView::TransportNotSupported(a);
    if a.len() == 0 {
        Err(unsupported)
    } else if is_symbolic(a[0]) {
        Ok(DialTargetView::Symbolic)
    } else if !is_ip(a[0]) || a.len() < 2 {
        Err(unsupported)
    } else if a[1] is Tcp {
        let tcp = SocketAddress { ip: ip_of(a[0]), port: a[1]->Tcp_0 };
        if a.len() > 2 && a[2] is Ws {
            remote_at(a, 3, tcp, SupportedTransport::WebSocket, unsupported)
        } else {
            remote_at(a, 2, tcp, SupportedTransport::Tcp, unsupported)
        }
    } else if a[1] is Udp {
        let udp = SocketAddress { ip: ip_of(a[0]), port: a[1]->Udp_0 };
        if a.len() > 2 && a[2] is QuicV1 {
            remote_at(a, 3, udp, SupportedTransport::Quic, ErrorView::AddressError(AddressError::PeerIdMissing))
        } else {
            Err(unsupported)
        }
    } else {
        Err(unsupported)
    }
}

/// Reads the peer identity at `index`, as [`remote_at`] states.
fn peer_at(
    address: &Multiaddr,
    index: usize,
    endpoint: SocketAddress,
    transport: SupportedTransport,
    missing: Error,
) -> (r: Result<DialTarget, Error>)
    ensures
        result_view(r) == remote_at(address@, index as int, endpoint, transport, missing@),
{
    if index < address.len() {
        if let Protocol::P2p(hash) = address.get(index) {
            return match PeerId::from_multihash(hash.duplicate()) {
                Ok(peer) => Ok(DialTarget::Remote { endpoint, transport, peer }),
                Err(_) => Err(Error::InvalidData),
            };
        }
    }
    Err(missing)
}

/// Decomposes an address to be dialed into its transport kind and peer,
/// or reports that its host must be resolved first.
pub fn dial_target(address: &Multiaddr) -> (r: Result<DialTarget, Error>)
    ensures
        result_view(r) == dial_target_of(address@),
{
    let n = address.len();
    if n == 0 {
        return Err(Error::TransportNotSupported(address.duplicate()));
    }
    match address.get(0) {
        Protocol::Dns(_) | Protocol::Dns4(_) | Protocol::Dns6(_) => {
            return Ok(DialTarget::Symbolic);
        },
        _ => {},
    }
    let ip = match address.get(0) {
        Protocol::Ip4(a) => IpAddress::V4(*a),
        Protocol::Ip6(a) => IpAddress::V6(*a),
        _ => {
            return Err(Error::TransportNotSupported(address.duplicate()));
        },
    };
    if n < 2 {
        return Err(Error::TransportNotSupported(address.duplicate()));
    }
    match address.get(1) {
        Protocol::Tcp(port) => {
            let endpoint = SocketAddress { ip, port: *port };
            if n > 2 && matches!(address.get(2), Protocol::Ws(_)) {
                peer_at(
                    address,
                    3,
                    endpoint,
                    SupportedTransport::WebSocket,
                    Error::TransportNotSupported(address.duplicate()),
                )
            } else {
                peer_at(
                    address,
                    2,
                    endpoint,
                    SupportedTransport::Tcp,
                    Error::TransportNotSupported(address.duplicate()),
                )
            }
        },
        Protocol::Udp(port) => {
            let endpoint = SocketAddress { ip, port: *port };
            if n > 2 && matches!(address.get(2), Protocol::QuicV1) {
                peer_at(
                    address,
                    3,
                    endpoint,
                    SupportedTransport::Quic,
                    Error::AddressError(AddressError::PeerIdMissing),
                )
            } else {
                Err(Error::TransportNotSupported(address.duplicate()))
            }
        },
        _ => Err(Error::TransportNotSupported(address.duplicate())),
    }
}


/// Transport manager configuration.
#[derive(Debug, Clone, Copy)]
pub struct Config {
    /// Maximum connections.
    pub max_connections: usize,
}

/// How a protocol frames its messages.
#[derive(Debug, Clone, Copy, PartialEq, Eq, Structural)]
pub enum ProtocolCodec {
    /// Fixed-size payloads of this many bytes.
    Identity(usize),
    /// Payloads prefixed by their length as an unsigned varint, with an
    /// optional upper bound on that length.
    UnsignedVarint(Option<usize>),
}

/// What the manager keeps of a registered protocol.
#[derive(Debug)]
pub struct ProtocolContext {
    /// Codec used by the protocol.
    pub codec: ProtocolCodec,
    /// Fallback names for the protocol.
    pub fallback_names: Vec<String>,
}

/// Request handed to the manager by a protocol or an outside caller.
#[derive(Debug)]
pub enum InnerTransportManagerCommand {
    /// Dial peer.
    DialPeer { peer: PeerId },
    /// Dial address.
    DialAddress { address: Multiaddr },
}

/// Command the manager sends to a transport.
#[derive(Debug)]
pub enum TransportManagerCommand {
    /// Dial the remote peer at `address`.
    Dial { address: Multiaddr, connection: ConnectionId },
}

/// What the caller of a dial has to do next.
#[derive(Debug)]
pub enum DialAction {
    /// Nothing: the peer is being dialed or is connected.
    Skip,
    /// Resolve the symbolic host of `address`, then dial the result.
    Resolve { connection: ConnectionId, address: Multiaddr },
    /// Hand `command` to the transport of kind `transport`.
    Dial { transport: SupportedTransport, command: TransportManagerCommand },
}

/// Abstract value of a [`DialAction`].
pub enum DialActionView {
    Skip,
    Resolve { connection: usize, address: MultiaddrView },
    Dial { transport: SupportedTransport, address: MultiaddrView, connection: usize },
}

impl View for DialAction {
    type V = DialActionView;

    open spec fn view(&self) -> DialActionView {
        match self {
            DialAction::Skip => DialActionView::Skip,
            DialAction::Resolve { connection, address } => DialActionView::Resolve {
                connection: connection.0,
                address: address@,
            },
            DialAction::Dial { transport, command } => match command {
                TransportManagerCommand::Dial { address, connection } => DialActionView::Dial {
                    transport: *transport,
                    address: address@,
                    connection: connection.0,
                },
            },
        }
    }
}

/// Events reported by transports and handed on by the manager.
#[derive(Debug)]
pub enum TransportManagerEvent {
    /// Connection established to remote peer.
    ConnectionEstablished { peer: PeerId, connection: ConnectionId, address: Multiaddr },
    /// Connection closed to remote peer.
    ConnectionClosed { peer: PeerId, connection: ConnectionId },
    /// Failed to dial remote peer.
    DialFailure { connection: ConnectionId, address: Multiaddr, error: Error },
}

/// Abstract value of a [`TransportManagerEvent`].
pub enum TransportManagerEventView {
    ConnectionEstablished { peer: MultihashView, connection: usize, address: MultiaddrView },
    ConnectionClosed { peer: MultihashView, connection: usize },
    DialFailure { connection: usize, address: MultiaddrView, error: ErrorView },
}

impl View for TransportManagerEvent {
    type V = TransportManagerEventView;

    open spec fn view(&self) -> TransportManagerEventView {
        match self {
            TransportManagerEvent::ConnectionEstablished { peer, connection, address } =>
                TransportManagerEventView::ConnectionEstablished {
                peer: peer@,
                connection: connection.0,
                address: address@,
            },
            TransportManagerEvent::ConnectionClosed { peer, connection } =>
                TransportManagerEventView::ConnectionClosed { peer: peer@, connection: connection.0 },
            TransportManagerEvent::DialFailure { connection, address, error } =>
                TransportManagerEventView::DialFailure {
                connection: connection.0,
                address: address@,
                error: error@,
            },
        }
    }
}

/// A registered protocol: its main name, codec and fallback names.
pub struct RegisteredProtocol {
    pub name: Seq<char>,
    pub codec: ProtocolCodec,
    pub fallback_names: Seq<Seq<char>>,
}

/// The abstract value of a registered protocol's row.
pub open spec fn registered_view(p: (String, ProtocolContext)) -> RegisteredProtocol {
    RegisteredProtocol {
        name: p.0@,
        codec: p.1.codec,
        fallback_names: p.1.fallback_names@.map_values(|n: String| n@),
    }
}

/// Abstract state of the [`TransportManager`].
pub struct ManagerView {
    /// Identity of this node.
    pub local_peer: MultihashView,
    /// What is known of each peer.
    pub peers: Map<MultihashView, PeerRecord>,
    /// Dials in flight: connection to peer.
    pub pending: Map<usize, MultihashView>,
    /// Addresses this node listens at.
    pub listen_addresses: Seq<MultiaddrView>,
    /// Registered transport kinds, in order of registration.
    pub transports: Seq<SupportedTransport>,
    /// Registered protocols, in order of registration.
    pub protocols: Seq<RegisteredProtocol>,
    /// Every registered protocol name, main and fallback.
    pub protocol_names: Seq<Seq<char>>,
    /// The connection identifier the next attempt gets.
    pub next_connection_id: usize,
    /// The substream identifier the next substream gets.
    pub next_substream_id: usize,
}

/// The state after `a` is dialed from state `s`, and what the caller is
/// told: a listen address is a self-dial; a symbolic host is resolved
/// first; a kind without a registered transport is refused; a peer that is
/// connected or being dialed is left alone; any other peer is moved to
/// `Dialing(a)`, learns `a`, and a fresh connection is dispatched.
pub open spec fn dial_address_step(s: ManagerView, a: MultiaddrView) -> (ManagerView, Result<
    DialActionView,
    ErrorView,
>) {
    if s.listen_addresses.contains(a) {
        (s, Err(ErrorView::TriedToDialSelf))
    } else {
        match dial_target_of(a) {
            Err(e) => (s, Err(e)),
            Ok(DialTargetView::Symbolic) => (
                ManagerView { next_connection_id: (s.next_connection_id + 1) as usize, ..s },
                Ok(DialActionView::Resolve { connection: s.next_connection_id, address: a }),
            ),
            Ok(DialTargetView::Remote { endpoint, transport, peer }) => {
                if !s.transports.contains(transport) {
                    (s, Err(ErrorView::TransportNotSupported(a)))
                } else if s.peers.contains_key(peer) && !(s.peers[peer].state is Disconnected) {
                    (s, Ok(DialActionView::Skip))
                } else {
                    (
                        ManagerView {
                            peers: s.peers.insert(
                                peer,
                                PeerRecord {
                                    state: PeerStateView::Dialing(a),
                                    addresses: with_address(record_or_empty(s.peers, peer).addresses, a),
                                },
                            ),
                            pending: s.pending.insert(s.next_connection_id, peer),
                            next_connection_id: (s.next_connection_id + 1) as usize,
                            ..s
                        },
                        Ok(
                            DialActionView::Dial {
                                transport,
                                address: a,
                                connection: s.next_connection_id,
                            },
                        ),
                    )
                }
            },
        }
    }
}

/// Whether dialing `a` from state `s` hands out a connection identifier:
/// for a symbolic host, and for a dispatched dial.
pub open spec fn dial_address_mints(s: ManagerView, a: MultiaddrView) -> bool {
    &&& !s.listen_addresses.contains(a)
    &&& match dial_target_of(a) {
        Ok(DialTargetView::Symbolic) => true,
        Ok(DialTargetView::Remote { transport, peer, .. }) => s.transports.contains(transport) && !(
        s.peers.contains_key(peer) && !(s.peers[peer].state is Disconnected)),
        Err(_) => false,
    }
}

/// Whether dialing peer `p` from state `s` hands out a connection
/// identifier: the dial of its last known address does.
pub open spec fn dial_mints(s: ManagerView, p: MultihashView) -> bool {
    &&& p != s.local_peer
    &&& s.peers.contains_key(p)
    &&& s.peers[p].state is Disconnected
    &&& s.peers[p].addresses.len() > 0
    &&& dial_address_mints(
        ManagerView {
            peers: s.peers.insert(
                p,
                PeerRecord { addresses: s.peers[p].addresses.drop_last(), ..s.peers[p] },
            ),
            ..s
        },
        s.peers[p].addresses.last(),
    )
}

/// The state after peer `p` is dialed from state `s`, and what the caller
/// is told: this node itself and unknown peers are refused; a connected
/// peer is reported; a peer being dialed is left alone; otherwise the last
/// known address is taken off the peer's list and dialed. A dial that
/// dispatches puts it back; so does one that first resolves its host.
pub open spec fn dial_step(s: ManagerView, p: MultihashView) -> (ManagerView, Result<
    DialActionView,
    ErrorView,
>) {
    if p == s.local_peer {
        (s, Err(ErrorView::TriedToDialSelf))
    } else if !s.peers.contains_key(p) {
        (s, Err(ErrorView::PeerDoesntExist(p)))
    } else if s.peers[p].state is Connected {
        (s, Err(ErrorView::AlreadyConnected))
    } else if s.peers[p].state is Dialing {
        (s, Ok(DialActionView::Skip))
    } else if s.peers[p].addresses.len() == 0 {
        (s, Err(ErrorView::NoAddressAvailable(p)))
    } else {
        let r = s.peers[p];
        let (t, result) = dial_address_step(
            ManagerView {
                peers: s.peers.insert(p, PeerRecord { addresses: r.addresses.drop_last(), ..r }),
                ..s
            },
            r.addresses.last(),
        );
        if result matches Ok(DialActionView::Resolve { .. }) {
            (ManagerView { peers: s.peers, ..t }, result)
        } else {
            (t, result)
        }
    }
}

/// The state after the manager takes in event `e`: an established
/// connection ends its dial and makes the peer connected at its address;
/// a closed connection leaves the peer disconnected; a failed dial ends
/// its dial and leaves the dialed peer disconnected.
pub open spec fn event_step(s: ManagerView, e: TransportManagerEventView) -> ManagerView {
    match e {
        TransportManagerEventView::ConnectionEstablished { peer, connection, address } => ManagerView {
            pending: s.pending.remove(connection),
            peers: s.peers.insert(
                peer,
                PeerRecord {
                    state: PeerStateView::Connected(address),
                    addresses: with_address(record_or_empty(s.peers, peer).addresses, address),
                },
            ),
            ..s
        },
        TransportManagerEventView::ConnectionClosed { peer, .. } => ManagerView {
            peers: if s.peers.contains_key(peer) {
                s.peers.insert(peer, PeerRecord { state: PeerStateView::Disconnected, ..s.peers[peer] })
            } else {
                s.peers
            },
            ..s
        },
        TransportManagerEventView::DialFailure { connection, .. } => if s.pending.contains_key(
            connection,
        ) {
            let peer = s.pending[connection];
            ManagerView {
                pending: s.pending.remove(connection),
                peers: if s.peers.contains_key(peer) {
                    s.peers.insert(peer, PeerRecord { state: PeerStateView::Disconnected, ..s.peers[peer] })
                } else {
                    s.peers
                },
                ..s
            }
        } else {
            s
        },
    }
}


/// The first address of `ips` of the IPv6 family when `v6`, else of the
/// IPv4 family.
pub open spec fn first_of_family(ips: Seq<IpAddress>, v6: bool) -> Option<IpAddress>
    decreases ips.len(),
{
    if ips.len() == 0 {
        None
    } else if (ips[0] is V6) == v6 {
        Some(ips[0])
    } else {
        first_of_family(ips.drop_first(), v6)
    }
}

/// The literal endpoint a symbolic host is replaced with: for `dns4` and
/// `dns6` the first result, when it is of that family; for `dns` the first
/// IPv6 result, else the first IPv4 result.
pub open spec fn resolved_ip(host: ProtocolView, ips: Seq<IpAddress>) -> Option<IpAddress> {
    match host {
        ProtocolView::Dns4(_) => if ips.len() > 0 && ips[0] is V4 {
            Some(ips[0])
        } else {
            None
        },
        ProtocolView::Dns6(_) => if ips.len() > 0 && ips[0] is V6 {
            Some(ips[0])
        } else {
            None
        },
        _ => match first_of_family(ips, true) {
            Some(ip) => Some(ip),
            None => first_of_family(ips, false),
        },
    }
}

/// The address to dial once the symbolic host of `a` is resolved to
/// `result` (`None` when the lookup failed): the chosen endpoint in place
/// of the host, every other segment kept in order.
pub open spec fn resolved_address(a: MultiaddrView, result: Option<Seq<IpAddress>>) -> Result<
    MultiaddrView,
    ErrorView,
> {
    match result {
        None => Err(ErrorView::DnsAddressResolutionFailed),
        Some(ips) => match resolved_ip(a[0], ips) {
            None => Err(ErrorView::TransportNotSupported(a)),
            Some(ip) => Ok(seq![ip_segment(ip)] + a.drop_first()),
        },
    }
}

/// Finds the first address of a family; see [`first_of_family`].
fn find_first_of_family(ips: &Vec<IpAddress>, v6: bool) -> (r: Option<IpAddress>)
    ensures
        r == first_of_family(ips@, v6),
{
    let mut i: usize = 0;
    assert(ips@.subrange(0, ips@.len() as int) =~= ips@);
    while i < ips.len()
        invariant
            i <= ips@.len(),
            first_of_family(ips@, v6) == first_of_family(ips@.subrange(i as int, ips@.len() as int), v6),
        decreases ips@.len() - i,
    {
        let ghost rest = ips@.subrange(i as int, ips@.len() as int);
        assert(rest[0] == ips@[i as int]);
        let is_v6 = match ips[i] {
            IpAddress::V6(_) => true,
            IpAddress::V4(_) => false,
        };
        if is_v6 == v6 {
            return Some(ips[i]);
        }
        assert(rest.drop_first() =~= ips@.subrange(i + 1, ips@.len() as int));
        i = i + 1;
    }
    None
}

/// The peer an address names in its last segment, when that segment is a
/// valid peer identity.
pub open spec fn peer_of(a: MultiaddrView) -> Option<MultihashView> {
    if a.len() > 0 && a.last() is P2p && is_peer_multihash(a.last()->P2p_0) {
        Some(a.last()->P2p_0)
    } else {
        None
    }
}

/// The peer that a failed dial of `address` was meant to reach, so that
/// every registered protocol can be told; see [`peer_of`].
pub fn dial_failure_peer(address: &Multiaddr) -> (r: Option<PeerId>)
    ensures
        match r {
            Some(p) => peer_of(address@) == Some(p@),
            None => peer_of(address@) is None,
        },
{
    let n = address.len();
    if n == 0 {
        return None;
    }
    match address.get(n - 1) {
        Protocol::P2p(hash) => match PeerId::from_multihash(hash.duplicate()) {
            Ok(peer) => Some(peer),
            Err(_) => None,
        },
        _ => None,
    }
}

/// The first of `candidates` that is among `names`.
pub open spec fn first_registered(names: Seq<Seq<char>>, candidates: Seq<Seq<char>>) -> Option<
    Seq<char>,
>
    decreases candidates.len(),
{
    if candidates.len() == 0 {
        None
    } else if names.contains(candidates[0]) {
        Some(candidates[0])
    } else {
        first_registered(names, candidates.drop_first())
    }
}

/// The name that keeps `protocol` with `fallbacks` from being registered
/// next to `names`: the protocol's own name first, then the first fallback
/// name already taken; `None` when there is no clash.
pub open spec fn registration_conflict(
    names: Seq<Seq<char>>,
    protocol: Seq<char>,
    fallbacks: Seq<Seq<char>>,
) -> Option<Seq<char>> {
    if names.contains(protocol) {
        Some(protocol)
    } else {
        first_registered(names, fallbacks)
    }
}

/// Whether `address` is among `addresses`.
fn contains_address(addresses: &Vec<Multiaddr>, address: &Multiaddr) -> (r: bool)
    ensures
        r == addresses@.map_values(|a: Multiaddr| a@).contains(address@),
{
    let ghost v = addresses@.map_values(|a: Multiaddr| a@);
    let mut i: usize = 0;
    while i < addresses.len()
        invariant
            i <= addresses@.len(),
            v == addresses@.map_values(|a: Multiaddr| a@),
            forall|j: int| 0 <= j < i ==> v[j] != address@,
        decreases addresses@.len() - i,
    {
        if addresses[i] == *address {
            assert(v[i as int] == address@);
            return true;
        }
        i = i + 1;
    }
    false
}

/// Whether `name` is among `names`.
fn contains_name(names: &Vec<String>, name: &String) -> (r: bool)
    ensures
        r == names@.map_values(|n: String| n@).contains(name@),
{
    let ghost v = names@.map_values(|n: String| n@);
    let mut i: usize = 0;
    while i < names.len()
        invariant
            i <= names@.len(),
            v == names@.map_values(|n: String| n@),
            forall|j: int| 0 <= j < i ==> v[j] != name@,
        decreases names@.len() - i,
    {
        if names[i] == *name {
            assert(v[i as int] == name@);
            return true;
        }
        i = i + 1;
    }
    false
}

/// Whether `kind` is among `kinds`.
fn contains_transport(kinds: &Vec<SupportedTransport>, kind: SupportedTransport) -> (r: bool)
    ensures
        r == kinds@.contains(kind),
{
    let mut i: usize = 0;
    while i < kinds.len()
        invariant
            i <= kinds@.len(),
            forall|j: int| 0 <= j < i ==> kinds@[j] != kind,
        decreases kinds@.len() - i,
    {
        if kinds[i] == kind {
            return true;
        }
        i = i + 1;
    }
    false
}

/// The connection manager: owns peer bookkeeping and arbitrates dials.
pub struct TransportManager {
    local_peer_id: PeerId,
    protocols: Vec<(String, ProtocolContext)>,
    protocol_names: Vec<String>,
    listen_addresses: Vec<Multiaddr>,
    next_connection_id: usize,
    next_substream_id: usize,
    transports: Vec<SupportedTransport>,
    peers: PeerTable,
    pending_connections: PendingTable,
}

impl View for TransportManager {
    type V = ManagerView;

    closed spec fn view(&self) -> ManagerView {
        ManagerView {
            local_peer: self.local_peer_id@,
            peers: self.peers@,
            pending: self.pending_connections@,
            listen_addresses: self.listen_addresses@.map_values(|a: Multiaddr| a@),
            transports: self.transports@,
            protocols: self.protocols@.map_values(|p: (String, ProtocolContext)| registered_view(p)),
            protocol_names: self.protocol_names@.map_values(|n: String| n@),
            next_connection_id: self.next_connection_id,
            next_substream_id: self.next_substream_id,
        }
    }
}

/// The manager's invariant, stated on its abstract state: every dial in
/// flight was given an identifier below the next one to be handed out, and
/// a peer in state `Dialing` has a dial in flight.
pub open spec fn manager_inv(s: ManagerView) -> bool {
    &&& forall|c: usize| #[trigger] s.pending.contains_key(c) ==> c < s.next_connection_id
    &&& forall|p: MultihashView| #[trigger]
        s.peers.contains_key(p) && s.peers[p].state is Dialing ==> exists|c: usize|
            #[trigger] s.pending.contains_key(c) && s.pending[c] == p
}

/// A state the manager can be in: its invariant holds and every peer
/// record is consistent.
pub open spec fn valid_state(s: ManagerView) -> bool {
    &&& manager_inv(s)
    &&& forall|p: MultihashView| #[trigger] s.peers.contains_key(p) ==> record_wf(s.peers[p])
}

/// The invariant survives a step that hands out no identifier backwards,
/// keeps every dial in flight, and moves no peer into `Dialing`.
proof fn lemma_inv_kept(s: ManagerView, t: ManagerView)
    requires
        manager_inv(s),
        s.next_connection_id <= t.next_connection_id,
        forall|c: usize| #[trigger] t.pending.contains_key(c) ==> s.pending.contains_key(c),
        forall|c: usize| #[trigger]
            s.pending.contains_key(c) ==> t.pending.contains_key(c) && t.pending[c] == s.pending[c],
        forall|p: MultihashView| #[trigger]
            t.peers.contains_key(p) && t.peers[p].state is Dialing ==> s.peers.contains_key(p)
                && s.peers[p].state is Dialing,
    ensures
        manager_inv(t),
{
    assert forall|p: MultihashView| #[trigger]
        t.peers.contains_key(p) && t.peers[p].state is Dialing implies exists|c: usize|
            #[trigger] t.pending.contains_key(c) && t.pending[c] == p by {
        let c = choose|c: usize| #[trigger] s.pending.contains_key(c) && s.pending[c] == p;
        assert(t.pending.contains_key(c) && t.pending[c] == p);
    }
}

impl TransportManager {
    /// Both tables are well formed and the invariant holds of the abstract
    /// state.
    pub closed spec fn wf(&self) -> bool {
        &&& self.peers.wf()
        &&& self.pending_connections.wf()
        &&& manager_inv(self@)
    }

    /// The abstract state of a well-formed manager is a valid state.
    pub proof fn lemma_valid_state(&self)
        requires
            self.wf(),
        ensures
            valid_state(self@),
    {
        self.peers.lemma_records_wf();
    }

    /// A manager for the node with identity `local_peer_id`, with no
    /// protocol, transport, listen address or peer.
    pub fn new(local_peer_id: PeerId) -> (r: TransportManager)
        ensures
            r.wf(),
            r@ == (ManagerView {
                local_peer: local_peer_id@,
                peers: Map::empty(),
                pending: Map::empty(),
                listen_addresses: Seq::empty(),
                transports: Seq::empty(),
                protocols: Seq::empty(),
                protocol_names: Seq::empty(),
                next_connection_id: 0,
                next_substream_id: 0,
            }),
    {
        let r = TransportManager {
            local_peer_id,
            protocols: Vec::new(),
            protocol_names: Vec::new(),
            listen_addresses: Vec::new(),
            next_connection_id: 0,
            next_substream_id: 0,
            transports: Vec::new(),
            peers: PeerTable::new(),
            pending_connections: PendingTable::new(),
        };
        assert(r@.listen_addresses =~= Seq::empty());
        assert(r@.protocols =~= Seq::empty());
        assert(r@.protocol_names =~= Seq::empty());
        r
    }

    /// Whether a fresh connection identifier can still be handed out.
    pub fn connection_ids_left(&self) -> (r: bool)
        ensures
            r == (self@.next_connection_id < usize::MAX),
    {
        self.next_connection_id < usize::MAX
    }

    /// Hands out a fresh connection identifier.
    pub fn next_connection_id(&mut self) -> (r: ConnectionId)
        requires
            old(self).wf(),
            old(self)@.next_connection_id < usize::MAX,
        ensures
            final(self).wf(),
            r.0 == old(self)@.next_connection_id,
            final(self)@ == (ManagerView {
                next_connection_id: (old(self)@.next_connection_id + 1) as usize,
                ..old(self)@
            }),
    {
        let connection = ConnectionId(self.next_connection_id);
        self.next_connection_id = self.next_connection_id + 1;
        proof {
            lemma_inv_kept(old(self)@, self@);
        }
        connection
    }

    /// Whether a fresh substream identifier can still be handed out.
    pub fn substream_ids_left(&self) -> (r: bool)
        ensures
            r == (self@.next_substream_id < usize::MAX),
    {
        self.next_substream_id < usize::MAX
    }

    /// Hands out a fresh substream identifier.
    pub fn next_substream_id(&mut self) -> (r: SubstreamId)
        requires
            old(self).wf(),
            old(self)@.next_substream_id < usize::MAX,
        ensures
            final(self).wf(),
            r.0 == old(self)@.next_substream_id,
            final(self)@ == (ManagerView {
                next_substream_id: (old(self)@.next_substream_id + 1) as usize,
                ..old(self)@
            }),
    {
        let substream = SubstreamId(self.next_substream_id);
        self.next_substream_id = self.next_substream_id + 1;
        proof {
            lemma_inv_kept(old(self)@, self@);
        }
        substream
    }

    /// Dials `address`; see [`dial_address_step`].
    pub fn dial_address(&mut self, address: Multiaddr) -> (r: Result<DialAction, Error>)
        requires
            old(self).wf(),
            dial_address_mints(old(self)@, address@) ==> old(self)@.next_connection_id < usize::MAX,
        ensures
            final(self).wf(),
            (final(self)@, result_view(r)) == dial_address_step(old(self)@, address@),
    {
        if contains_address(&self.listen_addresses, &address) {
            return Err(Error::TriedToDialSelf);
        }
        match dial_target(&address) {
            Err(e) => Err(e),
            Ok(DialTarget::Symbolic) => {
                let connection = self.next_connection_id();
                Ok(DialAction::Resolve { connection, address })
            },
            Ok(DialTarget::Remote { endpoint: _, transport, peer }) => {
                if !contains_transport(&self.transports, transport) {
                    return Err(Error::TransportNotSupported(address));
                }
                if let Some(context) = self.peers.get(&peer) {
                    match context.state() {
                        PeerState::Disconnected => {},
                        _ => {
                            return Ok(DialAction::Skip);
                        },
                    }
                }
                let ghost s0 = self@;
                let connection = self.next_connection_id();
                self.pending_connections.insert(connection.0, peer.duplicate());
                self.peers.enter_state(
                    peer,
                    PeerState::Dialing(address.duplicate()),
                    address.duplicate(),
                );
                proof {
                    let t = self@;
                    let c = connection.0;
                    assert(t.pending.contains_key(c) && t.pending[c] == peer@);
                    assert forall|q: MultihashView| #[trigger]
                        t.peers.contains_key(q) && t.peers[q].state is Dialing implies exists|d: usize|
                            #[trigger] t.pending.contains_key(d) && t.pending[d] == q by {
                        if q != peer@ {
                            let d = choose|d: usize| #[trigger] s0.pending.contains_key(d) && s0.pending[d] == q;
                            assert(t.pending.contains_key(d) && t.pending[d] == q);
                        }
                    }
                }
                Ok(DialAction::Dial { transport, command: TransportManagerCommand::Dial { address, connection } })
            },
        }
    }

    /// Dials peer `peer` at one of its known addresses; see [`dial_step`].
    pub fn dial(&mut self, peer: &PeerId) -> (r: Result<DialAction, Error>)
        requires
            old(self).wf(),
            dial_mints(old(self)@, peer@) ==> old(self)@.next_connection_id < usize::MAX,
        ensures
            final(self).wf(),
            (final(self)@, result_view(r)) == dial_step(old(self)@, peer@),
    {
        if *peer == self.local_peer_id {
            return Err(Error::TriedToDialSelf);
        }
        match self.peers.get(peer) {
            None => {
                return Err(Error::PeerDoesntExist(peer.duplicate()));
            },
            Some(context) => match context.state() {
                PeerState::Connected(_) => {
                    return Err(Error::AlreadyConnected);
                },
                PeerState::Dialing(_) => {
                    return Ok(DialAction::Skip);
                },
                PeerState::Disconnected => {},
            },
        }
        let ghost s0 = self@;
        let popped = self.peers.pop_address(peer);
        proof {
            lemma_inv_kept(s0, self@);
            if s0.peers[peer@].addresses.len() > 0 {
                let r = s0.peers[peer@];
                assert(self@ == (ManagerView {
                    peers: s0.peers.insert(peer@, PeerRecord { addresses: r.addresses.drop_last(), ..r }),
                    ..s0
                }));
            }
        }
        match popped {
            None => Err(Error::NoAddressAvailable(peer.duplicate())),
            Some(address) => {
                let kept = address.duplicate();
                let result = self.dial_address(address);
                if let Ok(DialAction::Resolve { .. }) = &result {
                    let ghost s1 = self@;
                    let ghost a = kept@;
                    let ghost rec = s0.peers[peer@];
                    let mut again: Vec<Multiaddr> = Vec::new();
                    again.push(kept);
                    self.peers.add_known_addresses(peer, again);
                    proof {
                        let more = again@.map_values(|m: Multiaddr| m@);
                        assert(more =~= seq![a]);
                        assert(more.drop_last() =~= Seq::<MultiaddrView>::empty());
                        assert(s1.peers == s0.peers.insert(
                            peer@,
                            PeerRecord { addresses: rec.addresses.drop_last(), ..rec },
                        ));
                        old(self).lemma_valid_state();
                        assert(s0 == old(self)@);
                        assert(s0.peers.contains_key(peer@));
                        assert(record_wf(rec));
                        let dl = rec.addresses.drop_last();
                        assert(a == rec.addresses.last());
                        assert(!dl.contains(a)) by {
                            if dl.contains(a) {
                                let k = choose|k: int| 0 <= k < dl.len() && dl[k] == a;
                                assert(rec.addresses[k] == rec.addresses[rec.addresses.len() - 1]);
                            }
                        }
                        assert(crate::peers::with_addresses(dl, more.drop_last()) == dl);
                        assert(more.last() == a);
                        assert(crate::peers::with_addresses(dl, more) == with_address(dl, a));
                        assert(dl.push(a) =~= rec.addresses);
                        assert(self@.peers =~= s0.peers);
                        lemma_inv_kept(s1, self@);
                    }
                }
                result
            },
        }
    }

    /// Takes in an event reported by a transport, updates the peer's
    /// bookkeeping as [`event_step`] states, and hands the event on.
    pub fn on_transport_manager_event(&mut self, event: TransportManagerEvent) -> (r:
        TransportManagerEvent)
        requires
            old(self).wf(),
            event@ matches TransportManagerEventView::ConnectionEstablished { peer, connection, .. }
                ==> (old(self)@.pending.contains_key(connection) ==> old(self)@.pending[connection]
                == peer),
        ensures
            final(self).wf(),
            final(self)@ == event_step(old(self)@, event@),
            r@ == event@,
    {
        let ghost s0 = self@;
        match &event {
            TransportManagerEvent::DialFailure { connection, .. } => {
                if let Some(peer) = self.pending_connections.remove(connection.0) {
                    self.peers.set_disconnected(&peer);
                    proof {
                        let t = self@;
                        assert forall|q: MultihashView| #[trigger]
                            t.peers.contains_key(q) && t.peers[q].state is Dialing implies exists|d: usize|
                                #[trigger] t.pending.contains_key(d) && t.pending[d] == q by {
                            let d = choose|d: usize| #[trigger] s0.pending.contains_key(d) && s0.pending[d] == q;
                            assert(d != connection.0);
                            assert(t.pending.contains_key(d) && t.pending[d] == q);
                        }
                    }
                } else {
                    assert(self.pending_connections@ =~= old(self).pending_connections@);
                }
            },
            TransportManagerEvent::ConnectionEstablished { peer, connection, address } => {
                let _ = self.pending_connections.remove(connection.0);
                self.peers.enter_state(
                    peer.duplicate(),
                    PeerState::Connected(address.duplicate()),
                    address.duplicate(),
                );
                proof {
                    let t = self@;
                    assert forall|q: MultihashView| #[trigger]
                        t.peers.contains_key(q) && t.peers[q].state is Dialing implies exists|d: usize|
                            #[trigger] t.pending.contains_key(d) && t.pending[d] == q by {
                        let d = choose|d: usize| #[trigger] s0.pending.contains_key(d) && s0.pending[d] == q;
                        assert(d != connection.0);
                        assert(t.pending.contains_key(d) && t.pending[d] == q);
                    }
                }
            },
            TransportManagerEvent::ConnectionClosed { peer, .. } => {
                self.peers.set_disconnected(peer);
                proof {
                    lemma_inv_kept(s0, self@);
                }
            },
        }
        assert forall|c: usize| #[trigger] self@.pending.contains_key(c) implies c < self@.next_connection_id by {
            assert(old(self)@.pending.contains_key(c));
        }
        event
    }

    /// The name that keeps `protocol` with `fallback_names` from being
    /// registered, if any; see [`registration_conflict`]. Registering a
    /// name twice is a configuration error.
    pub fn protocol_conflict(&self, protocol: &String, fallback_names: &Vec<String>) -> (r: Option<
        String,
    >)
        ensures
            match r {
                Some(name) => registration_conflict(
                    self@.protocol_names,
                    protocol@,
                    fallback_names@.map_values(|n: String| n@),
                ) == Some(name@),
                None => registration_conflict(
                    self@.protocol_names,
                    protocol@,
                    fallback_names@.map_values(|n: String| n@),
                ) is None,
            },
    {
        let ghost names = self@.protocol_names;
        let ghost fallbacks = fallback_names@.map_values(|n: String| n@);
        if contains_name(&self.protocol_names, protocol) {
            return Some(protocol.clone());
        }
        let mut i: usize = 0;
        assert(fallbacks.subrange(0, fallbacks.len() as int) =~= fallbacks);
        while i < fallback_names.len()
            invariant
                i <= fallback_names@.len(),
                fallbacks == fallback_names@.map_values(|n: String| n@),
                first_registered(names, fallbacks) == first_registered(
                    names,
                    fallbacks.subrange(i as int, fallbacks.len() as int),
                ),
                !names.contains(protocol@),
                names == self@.protocol_names,
            decreases fallback_names@.len() - i,
        {
            let ghost rest = fallbacks.subrange(i as int, fallbacks.len() as int);
            assert(rest[0] == fallback_names@[i as int]@);
            if contains_name(&self.protocol_names, &fallback_names[i]) {
                return Some(fallback_names[i].clone());
            }
            assert(rest.drop_first() =~= fallbacks.subrange(i + 1, fallbacks.len() as int));
            i = i + 1;
        }
        assert(fallbacks.subrange(i as int, fallbacks.len() as int) =~= Seq::<Seq<char>>::empty());
        None
    }

    /// Registers protocol `protocol` with its fallback names and codec; no
    /// name of it may be registered already.
    pub fn register_protocol(&mut self, protocol: String, fallback_names: Vec<String>, codec: ProtocolCodec)
        requires
            old(self).wf(),
            registration_conflict(
                old(self)@.protocol_names,
                protocol@,
                fallback_names@.map_values(|n: String| n@),
            ) is None,
        ensures
            final(self).wf(),
            final(self)@ == (ManagerView {
                protocols: old(self)@.protocols.push(
                    RegisteredProtocol {
                        name: protocol@,
                        codec,
                        fallback_names: fallback_names@.map_values(|n: String| n@),
                    },
                ),
                protocol_names: old(self)@.protocol_names.push(protocol@) + fallback_names@.map_values(
                    |n: String| n@,
                ),
                ..old(self)@
            }),
    {
        let mut more: Vec<String> = Vec::new();
        more.push(protocol.clone());
        let mut k: usize = 0;
        while k < fallback_names.len()
            invariant
                k <= fallback_names@.len(),
                more@.len() == 1 + k,
                more@[0]@ == protocol@,
                forall|j: int| 0 <= j < k ==> more@[1 + j]@ == fallback_names@[j]@,
            decreases fallback_names@.len() - k,
        {
            more.push(fallback_names[k].clone());
            k = k + 1;
        }
        self.protocol_names.append(&mut more);
        assert(self@.protocol_names =~= old(self)@.protocol_names.push(protocol@) + fallback_names@.map_values(|n: String| n@));
        let ghost protocols0 = self@.protocols;
        let ghost entry = RegisteredProtocol {
            name: protocol@,
            codec,
            fallback_names: fallback_names@.map_values(|n: String| n@),
        };
        self.protocols.push((protocol, ProtocolContext { codec, fallback_names }));
        assert(self@.protocols =~= protocols0.push(entry));
        proof {
            lemma_inv_kept(old(self)@, self@);
        }
    }

    /// Whether transport kind `transport` is registered. Registering a kind
    /// twice is a configuration error.
    pub fn is_transport_registered(&self, transport: SupportedTransport) -> (r: bool)
        ensures
            r == self@.transports.contains(transport),
    {
        contains_transport(&self.transports, transport)
    }

    /// Registers a transport kind that is not registered yet.
    pub fn register_transport(&mut self, transport: SupportedTransport)
        requires
            old(self).wf(),
            !old(self)@.transports.contains(transport),
        ensures
            final(self).wf(),
            final(self)@ == (ManagerView {
                transports: old(self)@.transports.push(transport),
                ..old(self)@
            }),
    {
        self.transports.push(transport);
        proof {
            lemma_inv_kept(old(self)@, self@);
        }
    }

    /// Registers a local listen address, both as given and with this node's
    /// identity appended.
    pub fn register_listen_address(&mut self, address: Multiaddr)
        requires
            old(self).wf(),
        ensures
            final(self).wf(),
            final(self)@ == (ManagerView {
                listen_addresses: with_address(
                    with_address(old(self)@.listen_addresses, address@),
                    address@.push(ProtocolView::P2p(old(self)@.local_peer)),
                ),
                ..old(self)@
            }),
    {
        let with_peer = address.duplicate().with(Protocol::P2p(self.local_peer_id.as_multihash().duplicate()));
        self.add_listen_address(address);
        self.add_listen_address(with_peer);
    }

    fn add_listen_address(&mut self, address: Multiaddr)
        requires
            old(self).wf(),
        ensures
            final(self).wf(),
            final(self)@ == (ManagerView {
                listen_addresses: with_address(old(self)@.listen_addresses, address@),
                ..old(self)@
            }),
    {
        if !contains_address(&self.listen_addresses, &address) {
            let ghost before = self@.listen_addresses;
            self.listen_addresses.push(address);
            assert(self@.listen_addresses =~= before.push(address@));
        }
        proof {
            lemma_inv_kept(old(self)@, self@);
        }
    }

    /// The address to dial once the symbolic host of `address` is resolved;
    /// see [`resolved_address`].
    pub fn on_resolved_dns_address(&self, address: &Multiaddr, result: Option<Vec<IpAddress>>) -> (r:
        Result<Multiaddr, Error>)
        requires
            result is Some ==> address@.len() > 0 && is_symbolic(address@[0]),
        ensures
            result_view(r) == resolved_address(
                address@,
                match result {
                    Some(ips) => Some(ips@),
                    None => None,
                },
            ),
    {
        let ips = match result {
            None => {
                return Err(Error::DnsAddressResolutionFailed);
            },
            Some(ips) => ips,
        };
        let chosen = match address.get(0) {
            Protocol::Dns4(_) => if ips.len() > 0 && matches!(ips[0], IpAddress::V4(_)) {
                Some(ips[0])
            } else {
                None
            },
            Protocol::Dns6(_) => if ips.len() > 0 && matches!(ips[0], IpAddress::V6(_)) {
                Some(ips[0])
            } else {
                None
            },
            _ => match find_first_of_family(&ips, true) {
                Some(ip) => Some(ip),
                None => find_first_of_family(&ips, false),
            },
        };
        let ip = match chosen {
            None => {
                return Err(Error::TransportNotSupported(address.duplicate()));
            },
            Some(ip) => ip,
        };
        let mut resolved = Multiaddr::empty().with(ip_protocol(ip));
        let mut i: usize = 1;
        while i < address.len()
            invariant
                1 <= i <= address@.len(),
                resolved@ == seq![ip_segment(ip)] + address@.subrange(1, i as int),
            decreases address@.len() - i,
        {
            resolved.push(address.get(i).duplicate());
            i = i + 1;
            assert(resolved@ =~= seq![ip_segment(ip)] + address@.subrange(1, i as int));
        }
        assert(address@.subrange(1, i as int) =~= address@.drop_first());
        Ok(resolved)
    }

    /// Identity of this node.
    pub fn local_peer_id(&self) -> (r: &PeerId)
        ensures
            r@ == self@.local_peer,
    {
        &self.local_peer_id
    }

    /// Main names of the registered protocols.
    pub fn protocols(&self) -> (r: Vec<String>)
        ensures
            r@.map_values(|n: String| n@) == self@.protocols.map_values(|p: RegisteredProtocol| p.name),
    {
        let mut names: Vec<String> = Vec::new();
        let mut i: usize = 0;
        while i < self.protocols.len()
            invariant
                i <= self.protocols@.len(),
                names@.len() == i,
                forall|j: int| 0 <= j < i ==> names@[j]@ == self.protocols@[j].0@,
            decreases self.protocols@.len() - i,
        {
            names.push(self.protocols[i].0.clone());
            i = i + 1;
        }
        assert(names@.map_values(|n: String| n@) =~= self@.protocols.map_values(|p: RegisteredProtocol| p.name));
        names
    }

    /// What is known of each peer.
    pub fn peers(&self) -> (r: &PeerTable)
        requires
            self.wf(),
        ensures
            r.wf(),
            r@ == self@.peers,
    {
        &self.peers
    }

    /// Dials in flight.
    pub fn pending_connections(&self) -> (r: &PendingTable)
        requires
            self.wf(),
        ensures
            r.wf(),
            r@ == self@.pending,
    {
        &self.pending_connections
    }

    /// Adds addresses under which `peer` is known.
    pub fn add_known_address(&mut self, peer: &PeerId, addresses: Vec<Multiaddr>)
        requires
            old(self).wf(),
        ensures
            final(self).wf(),
            final(self)@ == (ManagerView {
                peers: old(self)@.peers.insert(
                    peer@,
                    PeerRecord {
                        addresses: crate::peers::with_addresses(
                            record_or_empty(old(self)@.peers, peer@).addresses,
                            addresses@.map_values(|a: Multiaddr| a@),
                        ),
                        ..record_or_empty(old(self)@.peers, peer@)
                    },
                ),
                ..old(self)@
            }),
    {
        self.peers.add_known_addresses(peer, addresses);
        proof {
            lemma_inv_kept(old(self)@, self@);
        }
    }
}


/// Exactly one dial in flight targets peer `p`.
pub open spec fn exactly_one_pending(pending: Map<usize, MultihashView>, p: MultihashView) -> bool {
    exists|c: usize|
        #[trigger] pending.contains_key(c) && pending[c] == p && forall|d: usize|
            #[trigger] pending.contains_key(d) && pending[d] == p ==> d == c
}

/// A peer with no known address cannot be dialed by identity: the dial
/// reports that no address is available and changes nothing.
pub proof fn lemma_dial_without_addresses(s: ManagerView, p: MultihashView)
    requires
        valid_state(s),
        p != s.local_peer,
        s.peers.contains_key(p),
        s.peers[p].addresses.len() == 0,
    ensures
        dial_step(s, p) == (s, Err::<DialActionView, ErrorView>(ErrorView::NoAddressAvailable(p))),
{
    assert(record_wf(s.peers[p]));
    if let PeerStateView::Connected(a) = s.peers[p].state {
        assert(s.peers[p].addresses.contains(a));
    }
    if let PeerStateView::Dialing(a) = s.peers[p].state {
        assert(s.peers[p].addresses.contains(a));
    }
}

/// Dialing a connected peer by identity reports that it is connected and
/// leaves the dials in flight, and all else, as they were.
pub proof fn lemma_dial_connected_peer(s: ManagerView, p: MultihashView)
    requires
        p != s.local_peer,
        s.peers.contains_key(p),
        s.peers[p].state is Connected,
    ensures
        dial_step(s, p) == (s, Err::<DialActionView, ErrorView>(ErrorView::AlreadyConnected)),
        dial_step(s, p).0.pending == s.pending,
{
}

/// Two dials of one peer, at any two of its addresses, before any outcome
/// arrives: the first dispatches a connection, the second is skipped, and
/// exactly one dial of that peer is in flight afterwards. The peer's state,
/// not the address, gates dialing.
pub proof fn lemma_dial_peer_twice(s: ManagerView, a1: MultiaddrView, a2: MultiaddrView)
    requires
        valid_state(s),
        s.next_connection_id < usize::MAX,
        !s.listen_addresses.contains(a1),
        !s.listen_addresses.contains(a2),
        dial_target_of(a1) is Ok,
        dial_target_of(a1)->Ok_0 is Remote,
        dial_target_of(a2) is Ok,
        dial_target_of(a2)->Ok_0 is Remote,
        dial_target_of(a1)->Ok_0->Remote_peer == dial_target_of(a2)->Ok_0->Remote_peer,
        s.transports.contains(dial_target_of(a1)->Ok_0->Remote_transport),
        s.transports.contains(dial_target_of(a2)->Ok_0->Remote_transport),
        !s.peers.contains_key(dial_target_of(a1)->Ok_0->Remote_peer) || s.peers[dial_target_of(
            a1,
        )->Ok_0->Remote_peer].state is Disconnected,
        forall|c: usize| #[trigger]
            s.pending.contains_key(c) ==> s.pending[c] != dial_target_of(a1)->Ok_0->Remote_peer,
    ensures
        ({
            let p = dial_target_of(a1)->Ok_0->Remote_peer;
            let (s1, r1) = dial_address_step(s, a1);
            let (s2, r2) = dial_address_step(s1, a2);
            &&& r1 is Ok && r1->Ok_0 is Dial
            &&& r2 == Ok::<DialActionView, ErrorView>(DialActionView::Skip)
            &&& exactly_one_pending(s2.pending, p)
        }),
{
    let p = dial_target_of(a1)->Ok_0->Remote_peer;
    let (s1, r1) = dial_address_step(s, a1);
    let c = s.next_connection_id;
    assert(s1.pending == s.pending.insert(c, p));
    assert(s1.peers.contains_key(p));
    assert(s1.peers[p].state is Dialing);
    assert(!s1.listen_addresses.contains(a2));
    assert(s1.transports == s.transports);
    let (s2, r2) = dial_address_step(s1, a2);
    assert(s2 == s1);
    assert(s2.pending.contains_key(c) && s2.pending[c] == p);
    assert forall|d: usize| #[trigger] s2.pending.contains_key(d) && s2.pending[d] == p implies d == c by {
        if d != c {
            assert(s.pending.contains_key(d));
        }
    }
}

/// Dialing one address twice before any outcome arrives leaves exactly one
/// dial of its peer in flight.
pub proof fn lemma_dial_address_twice(s: ManagerView, a: MultiaddrView)
    requires
        valid_state(s),
        s.next_connection_id < usize::MAX,
        !s.listen_addresses.contains(a),
        dial_target_of(a) is Ok,
        dial_target_of(a)->Ok_0 is Remote,
        s.transports.contains(dial_target_of(a)->Ok_0->Remote_transport),
        !s.peers.contains_key(dial_target_of(a)->Ok_0->Remote_peer) || s.peers[dial_target_of(
            a,
        )->Ok_0->Remote_peer].state is Disconnected,
        forall|c: usize| #[trigger]
            s.pending.contains_key(c) ==> s.pending[c] != dial_target_of(a)->Ok_0->Remote_peer,
    ensures
        exactly_one_pending(
            dial_address_step(dial_address_step(s, a).0, a).0.pending,
            dial_target_of(a)->Ok_0->Remote_peer,
        ),
{
    lemma_dial_peer_twice(s, a, a);
}

/// An address whose transport kind has no registered transport is refused
/// as unsupported, and no dial is put in flight.
pub proof fn lemma_dial_unregistered_transport(s: ManagerView, a: MultiaddrView)
    requires
        !s.listen_addresses.contains(a),
        dial_target_of(a) is Ok,
        dial_target_of(a)->Ok_0 is Remote,
        !s.transports.contains(dial_target_of(a)->Ok_0->Remote_transport),
    ensures
        dial_address_step(s, a) == (s, Err::<DialActionView, ErrorView>(
            ErrorView::TransportNotSupported(a),
        )),
        dial_address_step(s, a).0.pending == s.pending,
{
}

/// Dialing an address of a peer that is neither connected nor being dialed,
/// over a registered transport, dispatches one command carrying the address
/// unchanged under a fresh connection, and puts exactly that dial in flight.
pub proof fn lemma_dial_dispatches_address(s: ManagerView, a: MultiaddrView)
    requires
        !s.listen_addresses.contains(a),
        dial_target_of(a) is Ok,
        dial_target_of(a)->Ok_0 is Remote,
        s.transports.contains(dial_target_of(a)->Ok_0->Remote_transport),
        !s.peers.contains_key(dial_target_of(a)->Ok_0->Remote_peer) || s.peers[dial_target_of(
            a,
        )->Ok_0->Remote_peer].state is Disconnected,
    ensures
        dial_address_step(s, a).1 == Ok::<DialActionView, ErrorView>(
            DialActionView::Dial {
                transport: dial_target_of(a)->Ok_0->Remote_transport,
                address: a,
                connection: s.next_connection_id,
            },
        ),
        dial_address_step(s, a).0.pending == s.pending.insert(
            s.next_connection_id,
            dial_target_of(a)->Ok_0->Remote_peer,
        ),
{
}

/// Dialing one of this node's own listen addresses is refused as a
/// self-dial.
pub proof fn lemma_dial_listen_address(s: ManagerView, a: MultiaddrView)
    requires
        s.listen_addresses.contains(a),
    ensures
        dial_address_step(s, a) == (s, Err::<DialActionView, ErrorView>(ErrorView::TriedToDialSelf)),
{
}

/// The address that names `peer` at `endpoint` over `transport`:
/// `ip/tcp/p2p` or `ip/udp/quic-v1/p2p`.
pub open spec fn remote_multiaddr(
    endpoint: SocketAddress,
    transport: SupportedTransport,
    peer: MultihashView,
) -> MultiaddrView {
    if transport is Quic {
        seq![
            ip_segment(endpoint.ip),
            ProtocolView::Udp(endpoint.port),
            ProtocolView::QuicV1,
            ProtocolView::P2p(peer),
        ]
    } else {
        seq![ip_segment(endpoint.ip), ProtocolView::Tcp(endpoint.port), ProtocolView::P2p(peer)]
    }
}

/// Writes the address that names `peer` at `endpoint` over `transport`.
pub fn remote_address(endpoint: SocketAddress, transport: SupportedTransport, peer: &PeerId) -> (r:
    Multiaddr)
    requires
        transport is Tcp || transport is Quic,
    ensures
        r@ == remote_multiaddr(endpoint, transport, peer@),
{
    let hash = Protocol::P2p(peer.as_multihash().duplicate());
    let r = match transport {
        SupportedTransport::Quic => Multiaddr::empty().with(ip_protocol(endpoint.ip)).with(
            Protocol::Udp(endpoint.port),
        ).with(Protocol::QuicV1).with(hash),
        _ => Multiaddr::empty().with(ip_protocol(endpoint.ip)).with(Protocol::Tcp(endpoint.port)).with(
            hash,
        ),
    };
    assert(r@ =~= remote_multiaddr(endpoint, transport, peer@));
    r
}

/// Reading an `ip/tcp/p2p` or `ip/udp/quic-v1/p2p` address and writing its
/// parts back gives the address read.
pub proof fn lemma_dial_target_round_trip(a: MultiaddrView)
    requires
        dial_target_of(a) is Ok,
        dial_target_of(a)->Ok_0 is Remote,
        (dial_target_of(a)->Ok_0->Remote_transport is Tcp && a.len() == 3) || (dial_target_of(
            a,
        )->Ok_0->Remote_transport is Quic && a.len() == 4),
    ensures
        remote_multiaddr(
            dial_target_of(a)->Ok_0->Remote_endpoint,
            dial_target_of(a)->Ok_0->Remote_transport,
            dial_target_of(a)->Ok_0->Remote_peer,
        ) == a,
{
    let t = dial_target_of(a)->Ok_0;
    assert(ip_segment(ip_of(a[0])) == a[0]);
    assert(remote_multiaddr(t->Remote_endpoint, t->Remote_transport, t->Remote_peer) =~= a);
}

/// Writing an address from an endpoint, a `tcp` or `quic-v1` transport and
/// a peer, and reading it back, gives those parts.
pub proof fn lemma_remote_multiaddr_round_trip(
    endpoint: SocketAddress,
    transport: SupportedTransport,
    peer: MultihashView,
)
    requires
        transport is Tcp || transport is Quic,
        is_peer_multihash(peer),
    ensures
        dial_target_of(remote_multiaddr(endpoint, transport, peer)) == Ok::<DialTargetView, ErrorView>(
            DialTargetView::Remote { endpoint, transport, peer },
        ),
{
    let a = remote_multiaddr(endpoint, transport, peer);
    assert(ip_of(ip_segment(endpoint.ip)) == endpoint.ip);
    assert(a[0] == ip_segment(endpoint.ip));
}

} // verus!
