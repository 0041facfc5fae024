//! Errors returned to callers of the transport core.

use vstd::prelude::*;
use crate::address::{Multiaddr, MultiaddrView, MultihashView, PeerId};
use crate::negotiation::Stage;

verus! {

/// What is wrong with an address.
#[derive(Debug, Clone, Copy, PartialEq, Eq, Structural)]
pub enum AddressError {
    /// The address carries no peer identity where one is required.
    PeerIdMissing,
    /// A segment stands where the address stack does not allow it.
    InvalidProtocol,
}

/// Errors of the transport core.
#[derive(Debug, Clone)]
pub enum Error {
    /// The peer is already connected.
    AlreadyConnected,
    /// The peer is known but no address of it is left to dial.
    NoAddressAvailable(PeerId),
    /// Nothing is known of the peer.
    PeerDoesntExist(PeerId),
    /// The dial would reach this node itself.
    TriedToDialSelf,
    /// No registered transport can dial the address.
    TransportNotSupported(Multiaddr),
    /// A peer identity in the address is malformed.
    InvalidData,
    /// The address is malformed.
    AddressError(AddressError),
    /// A symbolic host could not be resolved.
    DnsAddressResolutionFailed,
    /// The raw connection to the remote could not be opened.
    ConnectFailed,
    /// The connection negotiation failed at this stage.
    NegotiationFailed(Stage),
}

/// Abstract value of an [`Error`].
pub enum ErrorView {
    AlreadyConnected,
    NoAddressAvailable(MultihashView),
    PeerDoesntExist(MultihashView),
    TriedToDialSelf,
    TransportNotSupported(MultiaddrView),
    InvalidData,
    AddressError(AddressError),
    DnsAddressResolutionFailed,
    ConnectFailed,
    NegotiationFailed(Stage),
}

impl View for Error {
    type V = ErrorView;

    open spec fn view(&self) -> ErrorView {
        match self {
            Error::AlreadyConnected => ErrorView::AlreadyConnected,
            Error::NoAddressAvailable(p) => ErrorView::NoAddressAvailable(p@),
            Error::PeerDoesntExist(p) => ErrorView::PeerDoesntExist(p@),
            Error::TriedToDialSelf => ErrorView::TriedToDialSelf,
            Error::TransportNotSupported(a) => ErrorView::TransportNotSupported(a@),
            Error::InvalidData => ErrorView::InvalidData,
            Error::AddressError(e) => ErrorView::AddressError(*e),
            Error::DnsAddressResolutionFailed => ErrorView::DnsAddressResolutionFailed,
            Error::ConnectFailed => ErrorView::ConnectFailed,
            Error::NegotiationFailed(stage) => ErrorView::NegotiationFailed(*stage),
        }
    }
}

/// The abstract value of a result, taken on either side.
pub open spec fn result_view<T: View, E: View>(r: Result<T, E>) -> Result<T::V, E::V> {
    match r {
        Ok(t) => Ok(t@),
        Err(e) => Err(e@),
    }
}

} // verus!
