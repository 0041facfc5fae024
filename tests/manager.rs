use litep2p_core::address::{IpAddress, Multiaddr, Multihash, PeerId, Protocol, SocketAddress};
use litep2p_core::error::{AddressError, Error};
use litep2p_core::manager::{
    dial_failure_peer, remote_address, DialAction, DialTarget, ProtocolCodec, SupportedTransport,
    TransportManager, TransportManagerCommand, TransportManagerEvent,
};
use litep2p_core::peers::{ConnectionId, PeerState};

fn peer(seed: u8) -> PeerId {
    PeerId::from_multihash(Multihash::new(0x12, vec![seed; 32])).unwrap()
}

fn ip4() -> u32 {
    0x7f00_0001u32
}

fn ip6() -> u128 {
    1u128
}

fn tcp_address(ip: Protocol, peer: &PeerId) -> Multiaddr {
    Multiaddr::empty()
        .with(ip)
        .with(Protocol::Tcp(8888))
        .with(Protocol::P2p(peer.as_multihash().clone()))
}

fn manager() -> TransportManager {
    TransportManager::new(peer(0))
}

/// Registers a protocol; a name registered twice is a configuration error.
fn register_protocol(manager: &mut TransportManager, name: &str, fallbacks: &[&str]) {
    let protocol = String::from(name);
    let fallback_names: Vec<String> = fallbacks.iter().map(|f| String::from(*f)).collect();
    if let Some(clash) = manager.protocol_conflict(&protocol, &fallback_names) {
        panic!("duplicate protocol name: {clash}");
    }
    manager.register_protocol(protocol, fallback_names, ProtocolCodec::UnsignedVarint(None));
}

/// Registers a transport; a kind registered twice is a configuration error.
fn register_transport(manager: &mut TransportManager, transport: SupportedTransport) {
    if manager.is_transport_registered(transport) {
        panic!("duplicate transport: {transport:?}");
    }
    manager.register_transport(transport);
}

#[test]
#[should_panic]
fn duplicate_protocol() {
    let mut manager = manager();

    register_protocol(&mut manager, "/notif/1", &[]);
    register_protocol(&mut manager, "/notif/1", &[]);
}

#[test]
#[should_panic]
fn fallback_protocol_as_duplicate_main_protocol() {
    let mut manager = manager();

    register_protocol(&mut manager, "/notif/1", &[]);
    register_protocol(&mut manager, "/notif/2", &["/notif/2/new", "/notif/1"]);
}

#[test]
#[should_panic]
fn duplicate_fallback_protocol() {
    let mut manager = manager();

    register_protocol(&mut manager, "/notif/1", &["/notif/1/new", "/notif/1"]);
    register_protocol(&mut manager, "/notif/2", &["/notif/2/new", "/notif/1/new"]);
}

#[test]
#[should_panic]
fn duplicate_transport() {
    let mut manager = manager();

    register_transport(&mut manager, SupportedTransport::Tcp);
    register_transport(&mut manager, SupportedTransport::Tcp);
}

#[test]
fn name_clashes_are_found() {
    let mut manager = manager();
    register_protocol(&mut manager, "/notif/1", &["/notif/1/new"]);
    assert_eq!(
        manager.protocol_conflict(&String::from("/notif/1"), &Vec::new()),
        Some(String::from("/notif/1"))
    );
    assert_eq!(
        manager.protocol_conflict(
            &String::from("/notif/2"),
            &vec![String::from("/notif/2/new"), String::from("/notif/1/new"), String::from("/notif/1")],
        ),
        Some(String::from("/notif/1/new"))
    );
    assert_eq!(
        manager.protocol_conflict(&String::from("/notif/2"), &vec![String::from("/notif/2/new")]),
        None
    );
    assert!(!manager.is_transport_registered(SupportedTransport::Tcp));
    register_transport(&mut manager, SupportedTransport::Tcp);
    assert!(manager.is_transport_registered(SupportedTransport::Tcp));
    assert!(!manager.is_transport_registered(SupportedTransport::Quic));
    assert_eq!(manager.protocols(), vec![String::from("/notif/1")]);
}

#[test]
fn tried_to_self_using_peer_id() {
    let local = peer(7);
    let mut manager = TransportManager::new(local.clone());

    assert!(manager.dial(&local).is_err());
    assert!(matches!(manager.dial(&local), Err(Error::TriedToDialSelf)));
}

#[test]
fn try_to_dial_over_disabled_transport() {
    let mut manager = manager();
    register_transport(&mut manager, SupportedTransport::Tcp);

    let address = Multiaddr::empty()
        .with(Protocol::Ip4(ip4()))
        .with(Protocol::Udp(8888))
        .with(Protocol::QuicV1)
        .with(Protocol::P2p(peer(3).as_multihash().clone()));

    assert!(std::matches!(
        manager.dial_address(address),
        Err(Error::TransportNotSupported(_))
    ));
    assert_eq!(manager.pending_connections().len(), 0);
}

#[test]
fn successful_dial_reported_to_transport_manager() {
    let mut manager = manager();
    register_transport(&mut manager, SupportedTransport::Tcp);

    let peer = peer(1);
    let dial_address = tcp_address(Protocol::Ip4(ip4()), &peer);

    let action = manager.dial_address(dial_address.clone());
    assert!(action.is_ok());
    assert!(manager.pending_connections().len() != 0);

    match action {
        Ok(DialAction::Dial {
            transport,
            command: TransportManagerCommand::Dial { address, connection },
        }) => {
            assert_eq!(transport, SupportedTransport::Tcp);
            assert_eq!(address, dial_address);
            assert_eq!(connection, ConnectionId(0usize));
        }
        _ => panic!("invalid command received"),
    }
    assert_eq!(manager.pending_connections().get(0), Some(&peer));

    let event = manager.on_transport_manager_event(TransportManagerEvent::ConnectionEstablished {
        peer: peer.clone(),
        connection: ConnectionId(0usize),
        address: dial_address.clone(),
    });
    assert!(matches!(event, TransportManagerEvent::ConnectionEstablished { .. }));
    assert_eq!(manager.pending_connections().len(), 0);
    let context = manager.peers().get(&peer).unwrap();
    match context.state() {
        PeerState::Connected(address) => assert_eq!(*address, dial_address),
        other => panic!("unexpected state: {other:?}"),
    }
    assert_eq!(context.address_count(), 1);
    assert_eq!(*context.address(0), dial_address);
}

#[test]
fn try_to_dial_same_peer_twice() {
    let mut manager = manager();
    register_transport(&mut manager, SupportedTransport::Tcp);

    let peer = peer(2);
    let dial_address = tcp_address(Protocol::Ip4(ip4()), &peer);

    assert!(manager.dial_address(dial_address.clone()).is_ok());
    assert_eq!(manager.pending_connections().len(), 1);

    assert!(manager.dial_address(dial_address.clone()).is_ok());
    assert_eq!(manager.pending_connections().len(), 1);
}

#[test]
fn try_to_dial_same_peer_twice_diffrent_address() {
    let mut manager = manager();
    register_transport(&mut manager, SupportedTransport::Tcp);

    let peer = peer(2);

    assert!(manager.dial_address(tcp_address(Protocol::Ip4(ip4()), &peer)).is_ok());
    assert_eq!(manager.pending_connections().len(), 1);

    assert!(matches!(
        manager.dial_address(tcp_address(Protocol::Ip6(ip6()), &peer)),
        Ok(DialAction::Skip)
    ));
    assert_eq!(manager.pending_connections().len(), 1);
}

#[test]
fn dial_non_existent_peer() {
    let mut manager = manager();
    register_transport(&mut manager, SupportedTransport::Tcp);

    assert!(manager.dial(&peer(9)).is_err());
    assert!(matches!(manager.dial(&peer(9)), Err(Error::PeerDoesntExist(_))));
}

#[test]
fn dial_non_peer_with_no_known_addresses() {
    let mut manager = manager();
    register_transport(&mut manager, SupportedTransport::Tcp);

    let peer = peer(4);
    manager.add_known_address(&peer, Vec::new());

    assert!(manager.dial(&peer).is_err());
    assert!(matches!(manager.dial(&peer), Err(Error::NoAddressAvailable(p)) if p == peer));
}

#[test]
fn dial_connected_peer_is_reported() {
    let mut manager = manager();
    register_transport(&mut manager, SupportedTransport::Tcp);
    let peer = peer(5);
    let address = tcp_address(Protocol::Ip4(ip4()), &peer);
    manager.on_transport_manager_event(TransportManagerEvent::ConnectionEstablished {
        peer: peer.clone(),
        connection: ConnectionId(42),
        address,
    });
    assert!(matches!(manager.dial(&peer), Err(Error::AlreadyConnected)));
    assert_eq!(manager.pending_connections().len(), 0);
}

#[test]
fn dial_known_peer_uses_last_address() {
    let mut manager = manager();
    register_transport(&mut manager, SupportedTransport::Tcp);
    let peer = peer(6);
    let first = tcp_address(Protocol::Ip4(ip4()), &peer);
    let second = tcp_address(Protocol::Ip6(ip6()), &peer);
    manager.add_known_address(&peer, vec![first.clone(), second.clone(), first.clone()]);
    assert_eq!(manager.peers().get(&peer).unwrap().address_count(), 2);

    match manager.dial(&peer) {
        Ok(DialAction::Dial { command: TransportManagerCommand::Dial { address, connection }, .. }) => {
            assert_eq!(address, second);
            assert_eq!(connection, ConnectionId(0));
        }
        other => panic!("unexpected result: {other:?}"),
    }
    assert!(matches!(manager.dial(&peer), Ok(DialAction::Skip)));
    assert_eq!(manager.pending_connections().len(), 1);
}

#[test]
fn dial_failure_resets_peer() {
    let mut manager = manager();
    register_transport(&mut manager, SupportedTransport::Tcp);
    let peer = peer(8);
    let address = tcp_address(Protocol::Ip4(ip4()), &peer);
    assert!(manager.dial_address(address.clone()).is_ok());
    manager.on_transport_manager_event(TransportManagerEvent::DialFailure {
        connection: ConnectionId(0),
        address: address.clone(),
        error: Error::InvalidData,
    });
    assert_eq!(manager.pending_connections().len(), 0);
    let context = manager.peers().get(&peer).unwrap();
    assert!(matches!(context.state(), PeerState::Disconnected));
    assert_eq!(context.address_count(), 1);
    assert!(matches!(manager.dial_address(address), Ok(DialAction::Dial { .. })));
}

#[test]
fn connection_closed_keeps_addresses() {
    let mut manager = manager();
    let peer = peer(10);
    let address = tcp_address(Protocol::Ip4(ip4()), &peer);
    manager.on_transport_manager_event(TransportManagerEvent::ConnectionEstablished {
        peer: peer.clone(),
        connection: ConnectionId(3),
        address: address.clone(),
    });
    manager.on_transport_manager_event(TransportManagerEvent::ConnectionClosed {
        peer: peer.clone(),
        connection: ConnectionId(3),
    });
    let context = manager.peers().get(&peer).unwrap();
    assert!(matches!(context.state(), PeerState::Disconnected));
    assert_eq!(*context.address(0), address);
}

#[test]
fn dial_listen_address_is_self_dial() {
    let mut manager = manager();
    register_transport(&mut manager, SupportedTransport::Tcp);
    let listen = Multiaddr::empty().with(Protocol::Ip4(ip4())).with(Protocol::Tcp(8888));
    manager.register_listen_address(listen.clone());
    let with_peer = listen.clone().with(Protocol::P2p(peer(0).as_multihash().clone()));
    assert!(matches!(manager.dial_address(listen), Err(Error::TriedToDialSelf)));
    assert!(matches!(manager.dial_address(with_peer), Err(Error::TriedToDialSelf)));
    assert_eq!(manager.pending_connections().len(), 0);
}

#[test]
fn dial_symbolic_host_asks_for_resolution() {
    let mut manager = manager();
    let address = Multiaddr::empty()
        .with(Protocol::Dns(String::from("example.com")))
        .with(Protocol::Tcp(8888))
        .with(Protocol::P2p(peer(1).as_multihash().clone()));
    match manager.dial_address(address.clone()) {
        Ok(DialAction::Resolve { connection, address: resolved }) => {
            assert_eq!(connection, ConnectionId(0));
            assert_eq!(resolved, address);
        }
        other => panic!("unexpected result: {other:?}"),
    }
    assert_eq!(manager.pending_connections().len(), 0);
}

#[test]
fn dns_prefers_ipv6_and_keeps_other_segments() {
    let manager = manager();
    let p = peer(1);
    let address = Multiaddr::empty()
        .with(Protocol::Dns(String::from("example.com")))
        .with(Protocol::Tcp(8888))
        .with(Protocol::P2p(p.as_multihash().clone()));
    let resolved = manager
        .on_resolved_dns_address(&address, Some(vec![IpAddress::V4(ip4()), IpAddress::V6(ip6())]))
        .unwrap();
    assert_eq!(resolved, tcp_address(Protocol::Ip6(ip6()), &p));

    let only_v4 = manager
        .on_resolved_dns_address(&address, Some(vec![IpAddress::V4(ip4())]))
        .unwrap();
    assert_eq!(only_v4, tcp_address(Protocol::Ip4(ip4()), &p));
}

#[test]
fn dns_family_must_match() {
    let manager = manager();
    let address = Multiaddr::empty().with(Protocol::Dns4(String::from("example.com"))).with(Protocol::Tcp(1));
    assert!(matches!(
        manager.on_resolved_dns_address(&address, Some(vec![IpAddress::V6(ip6())])),
        Err(Error::TransportNotSupported(_))
    ));
    assert!(matches!(
        manager.on_resolved_dns_address(&address, Some(vec![IpAddress::V6(ip6()), IpAddress::V4(ip4())])),
        Err(Error::TransportNotSupported(_))
    ));
    assert_eq!(
        manager.on_resolved_dns_address(&address, Some(vec![IpAddress::V4(ip4()), IpAddress::V6(ip6())])).unwrap(),
        Multiaddr::empty().with(Protocol::Ip4(ip4())).with(Protocol::Tcp(1))
    );
    let v6 = Multiaddr::empty().with(Protocol::Dns6(String::from("example.com"))).with(Protocol::Tcp(1));
    assert!(matches!(
        manager.on_resolved_dns_address(&v6, Some(vec![IpAddress::V4(ip4()), IpAddress::V6(ip6())])),
        Err(Error::TransportNotSupported(_))
    ));
    assert_eq!(
        manager.on_resolved_dns_address(&v6, Some(vec![IpAddress::V6(ip6()), IpAddress::V4(ip4())])).unwrap(),
        Multiaddr::empty().with(Protocol::Ip6(ip6())).with(Protocol::Tcp(1))
    );
    assert!(matches!(
        manager.on_resolved_dns_address(&address, None),
        Err(Error::DnsAddressResolutionFailed)
    ));
    assert!(matches!(
        manager.on_resolved_dns_address(&address, Some(Vec::new())),
        Err(Error::TransportNotSupported(_))
    ));
}

#[test]
fn quic_without_peer_is_missing_peer_id() {
    let mut manager = manager();
    register_transport(&mut manager, SupportedTransport::Quic);
    let address = Multiaddr::empty().with(Protocol::Ip4(ip4())).with(Protocol::Udp(1)).with(Protocol::QuicV1);
    assert!(matches!(
        manager.dial_address(address),
        Err(Error::AddressError(AddressError::PeerIdMissing))
    ));
}

#[test]
fn malformed_peer_identity_is_invalid_data() {
    let mut manager = manager();
    register_transport(&mut manager, SupportedTransport::Tcp);
    let address = Multiaddr::empty()
        .with(Protocol::Ip4(ip4()))
        .with(Protocol::Tcp(1))
        .with(Protocol::P2p(Multihash::new(0x55, vec![1, 2, 3])));
    assert!(matches!(manager.dial_address(address), Err(Error::InvalidData)));
}

#[test]
fn websocket_address_selects_websocket() {
    let p = peer(1);
    let address = Multiaddr::empty()
        .with(Protocol::Ip4(ip4()))
        .with(Protocol::Tcp(1))
        .with(Protocol::Ws(String::from("/")))
        .with(Protocol::P2p(p.as_multihash().clone()));
    match litep2p_core::manager::dial_target(&address) {
        Ok(DialTarget::Remote { endpoint, transport, peer }) => {
            assert_eq!(transport, SupportedTransport::WebSocket);
            assert_eq!(endpoint, SocketAddress { ip: IpAddress::V4(ip4()), port: 1 });
            assert_eq!(peer, p);
        }
        other => panic!("unexpected result: {other:?}"),
    }
}

#[test]
fn supported_addresses_round_trip() {
    let p = peer(1);
    let quic = Multiaddr::empty()
        .with(Protocol::Ip4(ip4()))
        .with(Protocol::Udp(8888))
        .with(Protocol::QuicV1)
        .with(Protocol::P2p(p.as_multihash().clone()));
    for address in [tcp_address(Protocol::Ip4(ip4()), &p), tcp_address(Protocol::Ip6(ip6()), &p), quic] {
        match litep2p_core::manager::dial_target(&address) {
            Ok(DialTarget::Remote { endpoint, transport, peer }) => {
                assert_eq!(remote_address(endpoint, transport, &peer), address);
            }
            other => panic!("unexpected result: {other:?}"),
        }
    }
}

#[test]
fn dial_failure_peer_comes_from_last_segment() {
    let p = peer(1);
    assert_eq!(dial_failure_peer(&tcp_address(Protocol::Ip4(ip4()), &p)), Some(p));
    let bare = Multiaddr::empty().with(Protocol::Ip4(ip4())).with(Protocol::Tcp(1));
    assert_eq!(dial_failure_peer(&bare), None);
}

#[test]
fn handle_checks_dial_requests() {
    let mut manager = manager();
    register_transport(&mut manager, SupportedTransport::Tcp);
    let p = peer(1);
    assert!(matches!(manager.peers().check_dial_request(&p), Err(Error::PeerDoesntExist(_))));
    manager.add_known_address(&p, Vec::new());
    assert!(matches!(manager.peers().check_dial_request(&p), Err(Error::NoAddressAvailable(_))));
    manager.add_known_address(&p, vec![tcp_address(Protocol::Ip4(ip4()), &p)]);
    assert!(matches!(manager.peers().check_dial_request(&p), Ok(true)));
    assert!(manager.dial(&p).is_ok());
    assert!(matches!(manager.peers().check_dial_request(&p), Ok(false)));
}

#[test]
fn dial_through_symbolic_host_keeps_the_address() {
    let mut manager = manager();
    let p = peer(11);
    let address = Multiaddr::empty()
        .with(Protocol::Dns(String::from("example.com")))
        .with(Protocol::Tcp(8888))
        .with(Protocol::P2p(p.as_multihash().clone()));
    manager.add_known_address(&p, vec![address.clone()]);
    assert!(matches!(manager.dial(&p), Ok(DialAction::Resolve { .. })));
    let context = manager.peers().get(&p).unwrap();
    assert!(matches!(context.state(), PeerState::Disconnected));
    assert_eq!(context.address_count(), 1);
    assert_eq!(*context.address(0), address);
}

#[test]
fn substream_ids_are_fresh() {
    let mut manager = manager();
    assert!(manager.substream_ids_left());
    assert_eq!(manager.next_substream_id().0, 0);
    assert_eq!(manager.next_substream_id().0, 1);
    assert_eq!(manager.next_connection_id(), ConnectionId(0));
}
