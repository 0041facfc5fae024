//! Address handling of the TCP transport.

use vstd::prelude::*;
use crate::address::{
    ip_of, is_peer_multihash, IpAddress, Multiaddr, MultiaddrView, MultihashView, PeerId, Protocol,
    SocketAddress,
};
use crate::error::{AddressError, Error, ErrorView};
use crate::manager::is_ip;

verus! {

/// The abstract value of an optional peer identity.
pub open spec fn peer_view(p: Option<PeerId>) -> Option<MultihashView> {
    match p {
        Some(p) => Some(p@),
        None => None,
    }
}

/// What the TCP transport reads from an address: an `ip4` or `ip6`
/// endpoint, a `tcp` port, and optionally the peer identity after them.
pub open spec fn socket_address_of(a: MultiaddrView) -> Result<
    (SocketAddress, Option<MultihashView>),
    ErrorView,
> {
    let invalid = ErrorView::AddressError(AddressError::InvalidProtocol);
    if a.len() < 2 || !is_ip(a[0]) || !(a[1] is Tcp) {
        Err(invalid)
    } else {
        let socket = SocketAddress { ip: ip_of(a[0]), port: a[1]->Tcp_0 };
        if a.len() == 2 {
            Ok((socket, None))
        } else if a[2] is P2p {
            if is_peer_multihash(a[2]->P2p_0) {
                Ok((socket, Some(a[2]->P2p_0)))
            } else {
                Err(ErrorView::InvalidData)
            }
        } else {
            Err(invalid)
        }
    }
}

/// Extracts the socket address and, if present, the peer identity from an
/// address the TCP transport is to connect to; see [`socket_address_of`].
pub fn get_socket_address(address: &Multiaddr) -> (r: Result<(SocketAddress, Option<PeerId>), Error>)
    ensures
        match r {
            Ok((socket, peer)) => socket_address_of(address@) == Ok::<
                (SocketAddress, Option<MultihashView>),
                ErrorView,
            >((socket, peer_view(peer))),
            Err(e) => socket_address_of(address@) == Err::<
                (SocketAddress, Option<MultihashView>),
                ErrorView,
            >(e@),
        },
{
    if address.len() < 2 {
        return Err(Error::AddressError(AddressError::InvalidProtocol));
    }
    let ip = match address.get(0) {
        Protocol::Ip6(a) => IpAddress::V6(*a),
        Protocol::Ip4(a) => IpAddress::V4(*a),
        _ => {
            return Err(Error::AddressError(AddressError::InvalidProtocol));
        },
    };
    let socket = match address.get(1) {
        Protocol::Tcp(port) => SocketAddress { ip, port: *port },
        _ => {
            return Err(Error::AddressError(AddressError::InvalidProtocol));
        },
    };
    if address.len() == 2 {
        return Ok((socket, None));
    }
    match address.get(2) {
        Protocol::P2p(hash) => match PeerId::from_multihash(hash.duplicate()) {
            Ok(peer) => Ok((socket, Some(peer))),
            Err(_) => Err(Error::InvalidData),
        },
        _ => Err(Error::AddressError(AddressError::InvalidProtocol)),
    }
}

} // verus!
