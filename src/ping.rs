//! Bookkeeping of the ping protocol: which peers are connected and which
//! outbound substreams are being opened to them.

use vstd::prelude::*;
use core::time::Duration;
use crate::address::{MultihashView, PeerId};
use crate::peers::{PeerSet, PendingTable, SubstreamId};

verus! {

/// Events emitted by the ping protocol.
#[derive(Debug)]
pub enum PingEvent {
    /// Ping time with remote peer.
    Ping {
        /// Peer ID.
        peer: PeerId,
        /// Measured ping time with the peer.
        ping: Duration,
    },
}

/// Abstract state of [`Ping`].
pub struct PingView {
    /// Connected peers.
    pub peers: Set<MultihashView>,
    /// Outbound substreams being opened: substream to peer.
    pub pending_opens: Map<usize, MultihashView>,
}

/// Ping protocol state.
pub struct Ping {
    max_failures: usize,
    peers: PeerSet,
    pending_opens: PendingTable,
}

impl View for Ping {
    type V = PingView;

    closed spec fn view(&self) -> PingView {
        PingView { peers: self.peers@, pending_opens: self.pending_opens@ }
    }
}

impl Ping {
    /// The peer set and the table of pending opens are well formed.
    pub closed spec fn wf(&self) -> bool {
        self.peers.wf() && self.pending_opens.wf()
    }

    /// Ping state with no peer, giving up on a peer after `max_failures`
    /// failed pings.
    pub fn new(max_failures: usize) -> (r: Ping)
        ensures
            r.wf(),
            r@ == (PingView { peers: Set::empty(), pending_opens: Map::empty() }),
            r.max_failures() == max_failures,
    {
        Ping { max_failures, peers: PeerSet::new(), pending_opens: PendingTable::new() }
    }

    /// Maximum failures before the peer is considered unreachable.
    pub closed spec fn max_failures(&self) -> usize {
        self.max_failures
    }

    /// Records a connection to `peer` and the outbound substream opened to it.
    pub fn on_connection_established(&mut self, peer: PeerId, substream: SubstreamId)
        requires
            old(self).wf(),
        ensures
            final(self).wf(),
            final(self)@ == (PingView {
                peers: old(self)@.peers.insert(peer@),
                pending_opens: old(self)@.pending_opens.insert(substream.0, peer@),
            }),
    {
        let _ = self.pending_opens.remove(substream.0);
        self.pending_opens.insert(substream.0, peer.duplicate());
        self.peers.insert(peer);
        assert(self@.pending_opens =~= old(self)@.pending_opens.insert(substream.0, peer@));
    }

    /// Forgets a peer whose connection closed.
    pub fn on_connection_closed(&mut self, peer: &PeerId)
        requires
            old(self).wf(),
        ensures
            final(self).wf(),
            final(self)@ == (PingView { peers: old(self)@.peers.remove(peer@), ..old(self)@ }),
    {
        self.peers.remove(peer);
    }

    /// An outbound substream was opened: ends its pending open and hands
    /// back the peer it was opened to, if it was pending.
    pub fn on_outbound_substream(&mut self, substream: SubstreamId) -> (r: Option<PeerId>)
        requires
            old(self).wf(),
        ensures
            final(self).wf(),
            final(self)@ == (PingView {
                pending_opens: old(self)@.pending_opens.remove(substream.0),
                ..old(self)@
            }),
            r is Some <==> old(self)@.pending_opens.contains_key(substream.0),
            r matches Some(p) ==> p@ == old(self)@.pending_opens[substream.0],
    {
        self.pending_opens.remove(substream.0)
    }

    /// Whether `peer` is connected.
    pub fn is_connected(&self, peer: &PeerId) -> (r: bool)
        requires
            self.wf(),
        ensures
            r == self@.peers.contains(peer@),
    {
        self.peers.contains(peer)
    }
}

} // verus!
