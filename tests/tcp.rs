use litep2p_core::address::{IpAddress, Multiaddr, Multihash, PeerId, Protocol, SocketAddress};
use litep2p_core::error::{AddressError, Error};
use litep2p_core::tcp::get_socket_address;

/// `12D3KooWT2ouvz5uMmCvHJGzAGRHiqDts5hzXR7NdoQ27pGdzp9Q`: an inlined key.
fn remote_peer_hash() -> Multihash {
    Multihash::new(
        0x00,
        vec![
            8, 1, 18, 32, 255, 198, 193, 201, 34, 180, 200, 181, 214, 37, 43, 162, 211, 222, 98, 244,
            186, 82, 90, 54, 245, 229, 136, 242, 84, 173, 109, 248, 183, 244, 92, 203,
        ],
    )
}

fn loopback6() -> Protocol {
    Protocol::Ip6(1u128)
}

fn loopback4() -> Protocol {
    Protocol::Ip4(0x7f00_0001u32)
}

#[test]
fn parse_multiaddresses() {
    assert!(get_socket_address(&Multiaddr::empty().with(loopback6()).with(Protocol::Tcp(8888))).is_ok());
    assert!(get_socket_address(&Multiaddr::empty().with(loopback4()).with(Protocol::Tcp(8888))).is_ok());
    assert!(get_socket_address(
        &Multiaddr::empty()
            .with(loopback6())
            .with(Protocol::Tcp(8888))
            .with(Protocol::P2p(remote_peer_hash()))
    )
    .is_ok());
    assert!(get_socket_address(
        &Multiaddr::empty()
            .with(loopback4())
            .with(Protocol::Tcp(8888))
            .with(Protocol::P2p(remote_peer_hash()))
    )
    .is_ok());
    assert!(get_socket_address(
        &Multiaddr::empty()
            .with(loopback6())
            .with(Protocol::Udp(8888))
            .with(Protocol::P2p(remote_peer_hash()))
    )
    .is_err());
    assert!(get_socket_address(
        &Multiaddr::empty()
            .with(loopback4())
            .with(Protocol::Udp(8888))
            .with(Protocol::P2p(remote_peer_hash()))
    )
    .is_err());
}

#[test]
fn socket_address_parts() {
    let (socket, peer) = get_socket_address(
        &Multiaddr::empty()
            .with(loopback4())
            .with(Protocol::Tcp(8888))
            .with(Protocol::P2p(remote_peer_hash())),
    )
    .unwrap();
    assert_eq!(
        socket,
        SocketAddress { ip: IpAddress::V4(0x7f00_0001u32), port: 8888 }
    );
    assert_eq!(peer, Some(PeerId::from_multihash(remote_peer_hash()).unwrap()));

    let (_, none) =
        get_socket_address(&Multiaddr::empty().with(loopback6()).with(Protocol::Tcp(1))).unwrap();
    assert_eq!(none, None);
}

#[test]
fn socket_address_errors() {
    assert!(matches!(
        get_socket_address(&Multiaddr::empty().with(Protocol::Tcp(1))),
        Err(Error::AddressError(AddressError::InvalidProtocol))
    ));
    assert!(matches!(
        get_socket_address(
            &Multiaddr::empty().with(loopback4()).with(Protocol::Tcp(1)).with(Protocol::QuicV1)
        ),
        Err(Error::AddressError(AddressError::InvalidProtocol))
    ));
    assert!(matches!(
        get_socket_address(
            &Multiaddr::empty()
                .with(loopback4())
                .with(Protocol::Tcp(1))
                .with(Protocol::P2p(Multihash::new(0x00, vec![0; 43])))
        ),
        Err(Error::InvalidData)
    ));
}

#[test]
fn textual_peer_identity_matches_its_bytes() {
    let text: multiaddr::Multiaddr =
        "/ip4/127.0.0.1/tcp/8888/p2p/12D3KooWT2ouvz5uMmCvHJGzAGRHiqDts5hzXR7NdoQ27pGdzp9Q"
            .parse()
            .expect("valid multiaddress");
    match text.iter().last() {
        Some(multiaddr::Protocol::P2p(hash)) => {
            let expected = remote_peer_hash();
            assert_eq!(hash.code(), expected.code);
            assert_eq!(hash.digest(), &expected.digest[..]);
        }
        other => panic!("unexpected segment: {other:?}"),
    }
}
