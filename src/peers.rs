//! Peer bookkeeping: for each known peer its connection state and the
//! addresses it is known under, and the table of attempts in flight.

use vstd::prelude::*;
use crate::address::{Multiaddr, MultiaddrView, MultihashView, PeerId};
use crate::error::{result_view, Error, ErrorView};
use std::collections::HashMap;

verus! {

broadcast use vstd::std_specs::hash::group_hash_axioms;

/// Process-local identifier of one dial or accept attempt.
#[derive(Debug, Clone, Copy, PartialEq, Eq, Structural, Hash)]
pub struct ConnectionId(pub usize);

/// Process-local identifier of one logical stream over a connection.
#[derive(Debug, Clone, Copy, PartialEq, Eq, Structural, Hash)]
pub struct SubstreamId(pub usize);

/// Connection state of a peer.
#[derive(Debug)]
pub enum PeerState {
    /// Connected to the peer at this address.
    Connected(Multiaddr),
    /// The peer is being dialed at this address.
    Dialing(Multiaddr),
    /// Not connected to the peer.
    Disconnected,
}

/// Abstract value of a [`PeerState`].
pub enum PeerStateView {
    Connected(MultiaddrView),
    Dialing(MultiaddrView),
    Disconnected,
}

impl View for PeerState {
    type V = PeerStateView;

    open spec fn view(&self) -> PeerStateView {
        match self {
            PeerState::Connected(a) => PeerStateView::Connected(a@),
            PeerState::Dialing(a) => PeerStateView::Dialing(a@),
            PeerState::Disconnected => PeerStateView::Disconnected,
        }
    }
}

/// What is known of one peer.
pub struct PeerRecord {
    pub state: PeerStateView,
    pub addresses: Seq<MultiaddrView>,
}

/// The addresses once `a` is known too: a set kept in order of arrival.
pub open spec fn with_address(addresses: Seq<MultiaddrView>, a: MultiaddrView) -> Seq<MultiaddrView> {
    if addresses.contains(a) {
        addresses
    } else {
        addresses.push(a)
    }
}

/// A record is consistent: no address is listed twice, and the address a
/// peer is connected or being dialed at is among its known addresses.
pub open spec fn record_wf(r: PeerRecord) -> bool {
    &&& r.addresses.no_duplicates()
    &&& (r.state matches PeerStateView::Connected(a) ==> r.addresses.contains(a))
    &&& (r.state matches PeerStateView::Dialing(a) ==> r.addresses.contains(a))
}

proof fn lemma_with_address_no_duplicates(addresses: Seq<MultiaddrView>, a: MultiaddrView)
    requires
        addresses.no_duplicates(),
    ensures
        with_address(addresses, a).no_duplicates(),
        with_address(addresses, a).contains(a),
        forall|b: MultiaddrView| addresses.contains(b) ==> with_address(addresses, a).contains(b),
{
    if !addresses.contains(a) {
        let s = addresses.push(a);
        assert forall|i: int, j: int| 0 <= i < s.len() && 0 <= j < s.len() && i != j implies s[i]
            != s[j] by {
            if i == addresses.len() as int {
                assert(!addresses.contains(a));
            } else if j == addresses.len() as int {
                assert(!addresses.contains(a));
            }
        }
        assert(s[addresses.len() as int] == a);
        assert forall|b: MultiaddrView| addresses.contains(b) implies s.contains(b) by {
            let k = choose|k: int| 0 <= k < addresses.len() && addresses[k] == b;
            assert(s[k] == b);
        }
    }
}

/// Bookkeeping of one peer.
#[derive(Debug)]
pub struct PeerContext {
    state: PeerState,
    addresses: Vec<Multiaddr>,
}

impl View for PeerContext {
    type V = PeerRecord;

    closed spec fn view(&self) -> PeerRecord {
        PeerRecord { state: self.state@, addresses: self.addresses@.map_values(|a: Multiaddr| a@) }
    }
}

/// A copy of a list of addresses.
fn duplicate_addresses(addresses: &Vec<Multiaddr>) -> (r: Vec<Multiaddr>)
    ensures
        r@.map_values(|a: Multiaddr| a@) == addresses@.map_values(|a: Multiaddr| a@),
{
    let mut copy: Vec<Multiaddr> = Vec::new();
    let mut j: usize = 0;
    while j < addresses.len()
        invariant
            j <= addresses@.len(),
            copy@.len() == j,
            forall|k: int| 0 <= k < j ==> copy@[k]@ == addresses@[k]@,
        decreases addresses@.len() - j,
    {
        copy.push(addresses[j].duplicate());
        j = j + 1;
    }
    assert(copy@.map_values(|a: Multiaddr| a@) =~= addresses@.map_values(|a: Multiaddr| a@));
    copy
}

/// Adds `address` to `addresses` unless it is there already.
fn insert_address(addresses: &mut Vec<Multiaddr>, address: Multiaddr)
    ensures
        final(addresses)@.map_values(|a: Multiaddr| a@) == with_address(
            old(addresses)@.map_values(|a: Multiaddr| a@),
            address@,
        ),
{
    let ghost before = addresses@.map_values(|a: Multiaddr| a@);
    let mut i: usize = 0;
    while i < addresses.len()
        invariant
            i <= addresses@.len(),
            addresses@.map_values(|a: Multiaddr| a@) == before,
            forall|j: int| 0 <= j < i ==> before[j] != address@,
        decreases addresses@.len() - i,
    {
        if addresses[i] == address {
            assert(before[i as int] == address@);
            return;
        }
        i = i + 1;
    }
    assert(!before.contains(address@));
    addresses.push(address);
    assert(addresses@.map_values(|a: Multiaddr| a@) =~= before.push(address@));
}

impl PeerContext {
    /// The state of the peer.
    pub fn state(&self) -> (r: &PeerState)
        ensures
            r@ == self@.state,
    {
        &self.state
    }

    /// Number of known addresses.
    pub fn address_count(&self) -> (r: usize)
        ensures
            r == self@.addresses.len(),
    {
        self.addresses.len()
    }

    /// The known address at `index`.
    pub fn address(&self, index: usize) -> (r: &Multiaddr)
        requires
            index < self@.addresses.len(),
        ensures
            r@ == self@.addresses[index as int],
    {
        &self.addresses[index]
    }
}


/// The addresses once every address of `more` is known too, in order.
pub open spec fn with_addresses(addresses: Seq<MultiaddrView>, more: Seq<MultiaddrView>) -> Seq<
    MultiaddrView,
>
    decreases more.len(),
{
    if more.len() == 0 {
        addresses
    } else {
        with_address(with_addresses(addresses, more.drop_last()), more.last())
    }
}

/// The record of `peer` in `peers`, or a record of a disconnected peer with
/// no known address when there is none.
pub open spec fn record_or_empty(peers: Map<MultihashView, PeerRecord>, peer: MultihashView) -> PeerRecord {
    if peers.contains_key(peer) {
        peers[peer]
    } else {
        PeerRecord { state: PeerStateView::Disconnected, addresses: Seq::empty() }
    }
}

/// What a request to dial peer `p` finds in `peers` before it is handed to
/// the manager: `Ok(true)` when the request is to be sent, `Ok(false)` when
/// the peer is being dialed already.
pub open spec fn dial_request_check(peers: Map<MultihashView, PeerRecord>, p: MultihashView) -> Result<
    bool,
    ErrorView,
> {
    if !peers.contains_key(p) {
        Err(ErrorView::PeerDoesntExist(p))
    } else if peers[p].state is Connected {
        Err(ErrorView::AlreadyConnected)
    } else if peers[p].state is Dialing {
        Ok(false)
    } else if peers[p].addresses.len() == 0 {
        Err(ErrorView::NoAddressAvailable(p))
    } else {
        Ok(true)
    }
}

/// A request to dial a known peer with no known address is refused: no
/// address is available.
pub proof fn lemma_request_without_addresses(peers: Map<MultihashView, PeerRecord>, p: MultihashView)
    requires
        peers.contains_key(p),
        record_wf(peers[p]),
        peers[p].addresses.len() == 0,
    ensures
        dial_request_check(peers, p) == Err::<bool, ErrorView>(ErrorView::NoAddressAvailable(p)),
{
    if let PeerStateView::Connected(a) = peers[p].state {
        assert(peers[p].addresses.contains(a));
    }
    if let PeerStateView::Dialing(a) = peers[p].state {
        assert(peers[p].addresses.contains(a));
    }
}

/// A request to dial a connected peer is refused as already connected, so
/// it never reaches the manager.
pub proof fn lemma_request_connected(peers: Map<MultihashView, PeerRecord>, p: MultihashView)
    requires
        peers.contains_key(p),
        peers[p].state is Connected,
    ensures
        dial_request_check(peers, p) == Err::<bool, ErrorView>(ErrorView::AlreadyConnected),
{
}

/// One row of the peer table.
#[derive(Debug)]
struct PeerEntry {
    peer: PeerId,
    context: PeerContext,
}

/// Every known peer with its bookkeeping, keyed by peer identity.
pub struct PeerTable {
    entries: Vec<PeerEntry>,
    records: Ghost<Map<MultihashView, PeerRecord>>,
}

impl View for PeerTable {
    type V = Map<MultihashView, PeerRecord>;

    closed spec fn view(&self) -> Map<MultihashView, PeerRecord> {
        self.records@
    }
}

impl PeerTable {
    /// The rows agree with the map, each peer has one row, and each record
    /// is consistent.
    pub closed spec fn wf(&self) -> bool {
        &&& forall|i: int|
            0 <= i < self.entries@.len() ==> #[trigger] self.records@.contains_key(
                self.entries@[i].peer@,
            ) && self.records@[self.entries@[i].peer@] == self.entries@[i].context@
        &&& forall|k: MultihashView| #[trigger]
            self.records@.contains_key(k) ==> exists|i: int|
                0 <= i < self.entries@.len() && self.entries@[i].peer@ == k
        &&& forall|i: int, j: int|
            0 <= i < self.entries@.len() && 0 <= j < self.entries@.len() && i != j
                ==> self.entries@[i].peer@ != self.entries@[j].peer@
        &&& forall|k: MultihashView| #[trigger]
            self.records@.contains_key(k) ==> record_wf(self.records@[k])
    }

    /// A table that knows no peer.
    pub fn new() -> (r: PeerTable)
        ensures
            r.wf(),
            r@ == Map::<MultihashView, PeerRecord>::empty(),
    {
        PeerTable { entries: Vec::new(), records: Ghost(Map::empty()) }
    }

    /// The row of `peer`, if there is one.
    fn find(&self, peer: &PeerId) -> (r: Option<usize>)
        requires
            self.wf(),
        ensures
            r matches Some(i) ==> i < self.entries@.len() && self.entries@[i as int].peer@ == peer@,
            r is None <==> !self@.contains_key(peer@),
    {
        let mut i: usize = 0;
        while i < self.entries.len()
            invariant
                self.wf(),
                i <= self.entries@.len(),
                forall|j: int| 0 <= j < i ==> self.entries@[j].peer@ != peer@,
            decreases self.entries@.len() - i,
        {
            if self.entries[i].peer == *peer {
                assert(self.records@.contains_key(self.entries@[i as int].peer@));
                return Some(i);
            }
            i = i + 1;
        }
        proof {
            if self@.contains_key(peer@) {
                let j = choose|j: int| 0 <= j < self.entries@.len() && self.entries@[j].peer@ == peer@;
                assert(self.entries@[j].peer@ == peer@);
            }
        }
        None
    }

    /// The bookkeeping of `peer`, if it is known.
    pub fn get(&self, peer: &PeerId) -> (r: Option<&PeerContext>)
        requires
            self.wf(),
        ensures
            r is Some <==> self@.contains_key(peer@),
            r matches Some(c) ==> c@ == self@[peer@],
    {
        match self.find(peer) {
            Some(i) => {
                assert(self.records@.contains_key(self.entries@[i as int].peer@));
                Some(&self.entries[i].context)
            },
            None => None,
        }
    }

    /// Checks a request to dial `peer`; see [`dial_request_check`].
    pub fn check_dial_request(&self, peer: &PeerId) -> (r: Result<bool, Error>)
        requires
            self.wf(),
        ensures
            result_view(r) == dial_request_check(self@, peer@),
    {
        match self.get(peer) {
            None => Err(Error::PeerDoesntExist(peer.duplicate())),
            Some(context) => match context.state() {
                PeerState::Connected(_) => Err(Error::AlreadyConnected),
                PeerState::Dialing(_) => Ok(false),
                PeerState::Disconnected => if context.address_count() == 0 {
                    Err(Error::NoAddressAvailable(peer.duplicate()))
                } else {
                    Ok(true)
                },
            },
        }
    }

    /// Every record of a well-formed table is consistent.
    pub proof fn lemma_records_wf(&self)
        requires
            self.wf(),
        ensures
            forall|k: MultihashView| #[trigger] self@.contains_key(k) ==> record_wf(self@[k]),
    {
    }

    /// Number of known peers.
    pub fn len(&self) -> (r: usize)
        requires
            self.wf(),
        ensures
            r == self@.dom().len(),
    {
        proof {
            self.lemma_len();
        }
        self.entries.len()
    }

    /// Adds a row for a peer the table does not know.
    fn push_row(&mut self, peer: PeerId, context: PeerContext)
        requires
            old(self).wf(),
            !old(self)@.contains_key(peer@),
            record_wf(context@),
        ensures
            final(self).wf(),
            final(self)@ == old(self)@.insert(peer@, context@),
    {
        let ghost key = peer@;
        let ghost value = context@;
        self.entries.push(PeerEntry { peer, context });
        self.records = Ghost(self.records@.insert(key, value));
        let ghost n = self.entries@.len() - 1;
        assert(self.entries@[n].peer@ == key);
        assert forall|i: int| 0 <= i < self.entries@.len() implies #[trigger] self.records@.contains_key(
                self.entries@[i].peer@,
            ) && self.records@[self.entries@[i].peer@] == self.entries@[i].context@ by {
            if i < n {
                assert(old(self).records@.contains_key(old(self).entries@[i].peer@));
            }
        }
        assert forall|q: MultihashView| #[trigger] self.records@.contains_key(q) implies exists|j: int|
                0 <= j < self.entries@.len() && self.entries@[j].peer@ == q by {
            if q == key {
                assert(self.entries@[n].peer@ == q);
            } else {
                assert(old(self).records@.contains_key(q));
                let j = choose|j: int| 0 <= j < old(self).entries@.len() && old(self).entries@[j].peer@ == q;
                assert(self.entries@[j].peer@ == q);
            }
        }
        assert forall|i: int, j: int|
            0 <= i < self.entries@.len() && 0 <= j < self.entries@.len() && i != j
                implies self.entries@[i].peer@ != self.entries@[j].peer@ by {
            if i == n {
                assert(old(self).records@.contains_key(old(self).entries@[j].peer@));
            } else if j == n {
                assert(old(self).records@.contains_key(old(self).entries@[i].peer@));
            }
        }
        assert forall|q: MultihashView| #[trigger] self.records@.contains_key(q) implies record_wf(self.records@[q]) by {
            if q != key {
                assert(old(self).records@.contains_key(q));
            }
        }
    }

    /// Moves `peer` into a state that carries `address`, adding the
    /// address to its known addresses; a peer not known so far is added.
    pub(crate) fn enter_state(&mut self, peer: PeerId, state: PeerState, address: Multiaddr)
        requires
            old(self).wf(),
            state@ == PeerStateView::Connected(address@) || state@ == PeerStateView::Dialing(address@),
        ensures
            final(self).wf(),
            final(self)@ == old(self)@.insert(
                peer@,
                PeerRecord {
                    state: state@,
                    addresses: with_address(record_or_empty(old(self)@, peer@).addresses, address@),
                },
            ),
    {
        let ghost a = address@;
        let ghost st = state@;
        let ghost base = record_or_empty(self@, peer@).addresses;
        match self.find(&peer) {
            Some(i) => {
                proof {
                    assert(self.records@.contains_key(self.entries@[i as int].peer@));
                    lemma_with_address_no_duplicates(base, a);
                }
                let ghost before = *self;
                self.entries[i].context.state = state;
                insert_address(&mut self.entries[i].context.addresses, address);
                let ghost value = self.entries@[i as int].context@;
                self.records = Ghost(self.records@.insert(peer@, value));
                proof {
                    assert(value.addresses == with_address(base, a));
                    PeerTable::lemma_row_update(before, *self, i as int);
                }
            },
            None => {
                let mut addresses: Vec<Multiaddr> = Vec::new();
                insert_address(&mut addresses, address);
                proof {
                    assert(Seq::<Multiaddr>::empty().map_values(|m: Multiaddr| m@) =~= Seq::<MultiaddrView>::empty());
                    lemma_with_address_no_duplicates(Seq::empty(), a);
                }
                self.push_row(peer, PeerContext { state, addresses });
            },
        }
    }

    /// Marks a known peer as disconnected, keeping its addresses.
    pub(crate) fn set_disconnected(&mut self, peer: &PeerId)
        requires
            old(self).wf(),
        ensures
            final(self).wf(),
            final(self)@ == (if old(self)@.contains_key(peer@) {
                old(self)@.insert(
                    peer@,
                    PeerRecord { state: PeerStateView::Disconnected, ..old(self)@[peer@] },
                )
            } else {
                old(self)@
            }),
    {
        if let Some(i) = self.find(peer) {
            proof {
                assert(self.records@.contains_key(self.entries@[i as int].peer@));
            }
            let ghost before = *self;
            self.entries[i].context.state = PeerState::Disconnected;
            let ghost value = self.entries@[i as int].context@;
            self.records = Ghost(self.records@.insert(peer@, value));
            proof {
                PeerTable::lemma_row_update(before, *self, i as int);
            }
        }
    }

    /// Takes the last known address of a disconnected peer off its list.
    pub(crate) fn pop_address(&mut self, peer: &PeerId) -> (r: Option<Multiaddr>)
        requires
            old(self).wf(),
            old(self)@.contains_key(peer@),
            old(self)@[peer@].state is Disconnected,
        ensures
            final(self).wf(),
            old(self)@[peer@].addresses.len() == 0 ==> r is None && final(self)@ == old(self)@,
            old(self)@[peer@].addresses.len() > 0 ==> (r matches Some(a) && a@
                == old(self)@[peer@].addresses.last() && final(self)@ == old(self)@.insert(
                peer@,
                PeerRecord {
                    addresses: old(self)@[peer@].addresses.drop_last(),
                    ..old(self)@[peer@]
                },
            )),
    {
        let i = self.find(peer).unwrap();
        proof {
            assert(self.records@.contains_key(self.entries@[i as int].peer@));
        }
        let ghost before = *self;
        let ghost addrs = self@[peer@].addresses;
        if self.entries[i].context.addresses.len() == 0 {
            return None;
        }
        let popped = self.entries[i].context.addresses.pop();
        let ghost value = self.entries@[i as int].context@;
        proof {
            assert(value.addresses =~= addrs.drop_last());
            assert(record_wf(value)) by {
                assert forall|x: int, y: int| 0 <= x < value.addresses.len() && 0 <= y < value.addresses.len() && x != y implies value.addresses[x] != value.addresses[y] by {
                    assert(value.addresses[x] == addrs[x]);
                    assert(value.addresses[y] == addrs[y]);
                }
            }
        }
        self.records = Ghost(self.records@.insert(peer@, value));
        proof {
            PeerTable::lemma_row_update(before, *self, i as int);
        }
        popped
    }

    /// Adds addresses under which `peer` is known; a peer not known so far
    /// is added, disconnected.
    pub fn add_known_addresses(&mut self, peer: &PeerId, addresses: Vec<Multiaddr>)
        requires
            old(self).wf(),
        ensures
            final(self).wf(),
            final(self)@ == old(self)@.insert(
                peer@,
                PeerRecord {
                    addresses: with_addresses(
                        record_or_empty(old(self)@, peer@).addresses,
                        addresses@.map_values(|a: Multiaddr| a@),
                    ),
                    ..record_or_empty(old(self)@, peer@)
                },
            ),
    {
        let ghost more = addresses@.map_values(|a: Multiaddr| a@);
        let ghost base = record_or_empty(self@, peer@);
        let ghost_index = match self.find(peer) {
            Some(i) => {
                proof {
                    assert(self.records@.contains_key(self.entries@[i as int].peer@));
                }
                Some(i)
            },
            None => None,
        };
        let mut known: Vec<Multiaddr> = match ghost_index {
            Some(i) => duplicate_addresses(&self.entries[i].context.addresses),
            None => {
                proof {
                    assert(Seq::<Multiaddr>::empty().map_values(|m: Multiaddr| m@) =~= Seq::<MultiaddrView>::empty());
                }
                Vec::new()
            },
        };
        assert(known@.map_values(|a: Multiaddr| a@) == base.addresses);
        let mut k: usize = 0;
        while k < addresses.len()
            invariant
                k <= addresses@.len(),
                more == addresses@.map_values(|a: Multiaddr| a@),
                base.addresses.no_duplicates(),
                known@.map_values(|a: Multiaddr| a@) == with_addresses(base.addresses, more.subrange(0, k as int)),
                known@.map_values(|a: Multiaddr| a@).no_duplicates(),
                forall|b: MultiaddrView| base.addresses.contains(b) ==> known@.map_values(|a: Multiaddr| a@).contains(b),
            decreases addresses@.len() - k,
        {
            let ghost prev = known@.map_values(|a: Multiaddr| a@);
            insert_address(&mut known, addresses[k].duplicate());
            proof {
                lemma_with_address_no_duplicates(prev, more[k as int]);
                assert(more.subrange(0, k + 1).drop_last() =~= more.subrange(0, k as int));
            }
            k = k + 1;
        }
        assert(more.subrange(0, k as int) =~= more);
        proof {
            assert(base.addresses.no_duplicates()) by {
                if self@.contains_key(peer@) {
                    assert(record_wf(self@[peer@]));
                }
            }
        }
        let ghost value = PeerRecord { addresses: known@.map_values(|a: Multiaddr| a@), ..base };
        assert(record_wf(value)) by {
            if self@.contains_key(peer@) {
                assert(record_wf(self@[peer@]));
            }
        }
        match ghost_index {
            Some(i) => {
                let ghost before = *self;
                self.entries[i].context.addresses = known;
                self.records = Ghost(self.records@.insert(peer@, value));
                proof {
                    PeerTable::lemma_row_update(before, *self, i as int);
                }
            },
            None => {
                self.push_row(
                    peer.duplicate(),
                    PeerContext { state: PeerState::Disconnected, addresses: known },
                );
            },
        }
    }

    proof fn lemma_len(&self)
        requires
            self.wf(),
        ensures
            self.entries@.len() == self@.dom().len(),
            self@.dom().finite(),
        decreases self.entries@.len(),
    {
        let keys = self.entries@.map_values(|e: PeerEntry| e.peer@);
        assert(keys.no_duplicates());
        assert(keys.to_set() =~= self@.dom()) by {
            assert forall|k: MultihashView| keys.to_set().contains(k) implies self@.dom().contains(k) by {
                let i = choose|i: int| 0 <= i < keys.len() && keys[i] == k;
                assert(self.records@.contains_key(self.entries@[i].peer@));
            }
            assert forall|k: MultihashView| self@.dom().contains(k) implies keys.to_set().contains(k) by {
                assert(self.records@.contains_key(k));
                let i = choose|i: int| 0 <= i < self.entries@.len() && self.entries@[i].peer@ == k;
                assert(keys[i] == k);
            }
        }
        keys.unique_seq_to_set();
    }

    /// Rewriting row `i` in place, with the map updated at its peer to the
    /// row's new bookkeeping, keeps the table well formed.
    proof fn lemma_row_update(
        old_table: PeerTable,
        new_table: PeerTable,
        i: int,
    )
        requires
            old_table.wf(),
            0 <= i < old_table.entries@.len(),
            new_table.entries@.len() == old_table.entries@.len(),
            forall|j: int| 0 <= j < old_table.entries@.len() && j != i ==> new_table.entries@[j] == old_table.entries@[j],
            new_table.entries@[i].peer@ == old_table.entries@[i].peer@,
            new_table.records@ == old_table.records@.insert(old_table.entries@[i].peer@, new_table.entries@[i].context@),
            record_wf(new_table.entries@[i].context@),
        ensures
            new_table.wf(),
    {
        let k = old_table.entries@[i].peer@;
        assert forall|j: int| 0 <= j < new_table.entries@.len() implies #[trigger] new_table.records@.contains_key(
                new_table.entries@[j].peer@,
            ) && new_table.records@[new_table.entries@[j].peer@] == new_table.entries@[j].context@ by {
            if j != i {
                assert(old_table.records@.contains_key(old_table.entries@[j].peer@));
            }
        }
        assert forall|q: MultihashView| #[trigger] new_table.records@.contains_key(q) implies exists|j: int|
                0 <= j < new_table.entries@.len() && new_table.entries@[j].peer@ == q by {
            if q == k {
                assert(new_table.entries@[i].peer@ == q);
            } else {
                assert(old_table.records@.contains_key(q));
                let j = choose|j: int| 0 <= j < old_table.entries@.len() && old_table.entries@[j].peer@ == q;
                assert(new_table.entries@[j].peer@ == q);
            }
        }
        assert forall|q: MultihashView| #[trigger] new_table.records@.contains_key(q) implies record_wf(new_table.records@[q]) by {
            if q != k {
                assert(old_table.records@.contains_key(q));
            }
        }
    }
}


/// Attempts whose outcome has not arrived yet, each under the identifier it
/// was minted with, with the peer it targets.
pub struct PendingTable {
    attempts: HashMap<usize, PeerId>,
}

impl View for PendingTable {
    type V = Map<usize, MultihashView>;

    closed spec fn view(&self) -> Map<usize, MultihashView> {
        self.attempts@.map_values(|p: PeerId| p@)
    }
}

impl PendingTable {
    /// The table of a well-formed owner; the map needs no further invariant.
    pub closed spec fn wf(&self) -> bool {
        true
    }

    /// Nothing in flight.
    pub fn new() -> (r: PendingTable)
        ensures
            r.wf(),
            r@ == Map::<usize, MultihashView>::empty(),
    {
        let r = PendingTable { attempts: HashMap::new() };
        assert(r@ =~= Map::<usize, MultihashView>::empty());
        r
    }

    /// Number of attempts in flight.
    pub fn len(&self) -> (r: usize)
        requires
            self.wf(),
        ensures
            r == self@.dom().len(),
    {
        assert(self@.dom() =~= self.attempts@.dom());
        self.attempts.len()
    }

    /// The peer targeted by attempt `id`, if it is in flight.
    pub fn get(&self, id: usize) -> (r: Option<&PeerId>)
        requires
            self.wf(),
        ensures
            r is Some <==> self@.contains_key(id),
            r matches Some(p) ==> p@ == self@[id],
    {
        self.attempts.get(&id)
    }

    /// Records an attempt under an identifier not in flight.
    pub(crate) fn insert(&mut self, id: usize, peer: PeerId)
        requires
            old(self).wf(),
            !old(self)@.contains_key(id),
        ensures
            final(self).wf(),
            final(self)@ == old(self)@.insert(id, peer@),
    {
        let ghost value = peer@;
        self.attempts.insert(id, peer);
        assert(self@ =~= old(self)@.insert(id, value));
    }

    /// Removes attempt `id`, handing back its peer.
    pub(crate) fn remove(&mut self, id: usize) -> (r: Option<PeerId>)
        requires
            old(self).wf(),
        ensures
            final(self).wf(),
            final(self)@ == old(self)@.remove(id),
            r is Some <==> old(self)@.contains_key(id),
            r matches Some(p) ==> p@ == old(self)@[id],
    {
        let r = self.attempts.remove(&id);
        assert(self@ =~= old(self)@.remove(id));
        r
    }
}

/// A set of peers.
pub struct PeerSet {
    members: Vec<PeerId>,
    set: Ghost<Set<MultihashView>>,
}

impl View for PeerSet {
    type V = Set<MultihashView>;

    closed spec fn view(&self) -> Set<MultihashView> {
        self.set@
    }
}

impl PeerSet {
    /// Each member is listed once and the list agrees with the set.
    pub closed spec fn wf(&self) -> bool {
        &&& forall|i: int| 0 <= i < self.members@.len() ==> #[trigger] self.set@.contains(self.members@[i]@)
        &&& forall|k: MultihashView| #[trigger]
            self.set@.contains(k) ==> exists|i: int| 0 <= i < self.members@.len() && self.members@[i]@ == k
        &&& forall|i: int, j: int|
            0 <= i < self.members@.len() && 0 <= j < self.members@.len() && i != j
                ==> self.members@[i]@ != self.members@[j]@
    }

    /// The empty set.
    pub fn new() -> (r: PeerSet)
        ensures
            r.wf(),
            r@ == Set::<MultihashView>::empty(),
    {
        PeerSet { members: Vec::new(), set: Ghost(Set::empty()) }
    }

    fn find(&self, peer: &PeerId) -> (r: Option<usize>)
        requires
            self.wf(),
        ensures
            r matches Some(i) ==> i < self.members@.len() && self.members@[i as int]@ == peer@,
            r is None <==> !self@.contains(peer@),
    {
        let mut i: usize = 0;
        while i < self.members.len()
            invariant
                self.wf(),
                i <= self.members@.len(),
                forall|j: int| 0 <= j < i ==> self.members@[j]@ != peer@,
            decreases self.members@.len() - i,
        {
            if self.members[i] == *peer {
                assert(self.set@.contains(self.members@[i as int]@));
                return Some(i);
            }
            i = i + 1;
        }
        None
    }

    /// Whether `peer` is a member.
    pub fn contains(&self, peer: &PeerId) -> (r: bool)
        requires
            self.wf(),
        ensures
            r == self@.contains(peer@),
    {
        self.find(peer).is_some()
    }

    /// Adds `peer`.
    pub fn insert(&mut self, peer: PeerId)
        requires
            old(self).wf(),
        ensures
            final(self).wf(),
            final(self)@ == old(self)@.insert(peer@),
    {
        if self.find(&peer).is_some() {
            assert(self.set@ =~= self.set@.insert(peer@));
            return;
        }
        let ghost key = peer@;
        self.members.push(peer);
        self.set = Ghost(self.set@.insert(key));
        let ghost n = self.members@.len() - 1;
        assert forall|k: MultihashView| #[trigger] self.set@.contains(k) implies exists|i: int|
                0 <= i < self.members@.len() && self.members@[i]@ == k by {
            if k == key {
                assert(self.members@[n]@ == k);
            } else {
                assert(old(self).set@.contains(k));
                let j = choose|j: int| 0 <= j < old(self).members@.len() && old(self).members@[j]@ == k;
                assert(self.members@[j]@ == k);
            }
        }
        assert forall|i: int| 0 <= i < self.members@.len() implies #[trigger] self.set@.contains(self.members@[i]@) by {
            if i < n {
                assert(old(self).set@.contains(old(self).members@[i]@));
            }
        }
        assert forall|i: int, j: int|
            0 <= i < self.members@.len() && 0 <= j < self.members@.len() && i != j
                implies self.members@[i]@ != self.members@[j]@ by {
            if i == n {
                assert(old(self).set@.contains(old(self).members@[j]@));
            } else if j == n {
                assert(old(self).set@.contains(old(self).members@[i]@));
            }
        }
    }

    /// Removes `peer`.
    pub fn remove(&mut self, peer: &PeerId)
        requires
            old(self).wf(),
        ensures
            final(self).wf(),
            final(self)@ == old(self)@.remove(peer@),
    {
        match self.find(peer) {
            None => {
                assert(self.set@ =~= self.set@.remove(peer@));
            },
            Some(i) => {
                self.members.remove(i);
                self.set = Ghost(self.set@.remove(peer@));
                let ghost o = old(self).members@;
                let ghost e = self.members@;
                assert forall|j: int| 0 <= j < e.len() implies e[j] == (if j < i { o[j] } else { o[j + 1] }) by {}
                assert forall|j: int| 0 <= j < e.len() implies #[trigger] self.set@.contains(e[j]@) by {
                    let k = if j < i { j } else { j + 1 };
                    assert(old(self).set@.contains(o[k]@));
                    assert(o[k]@ != o[i as int]@);
                }
                assert forall|q: MultihashView| #[trigger] self.set@.contains(q) implies exists|j: int|
                        0 <= j < e.len() && e[j]@ == q by {
                    assert(old(self).set@.contains(q));
                    let k = choose|k: int| 0 <= k < o.len() && o[k]@ == q;
                    assert(k != i);
                    if k < i {
                        assert(e[k]@ == q);
                    } else {
                        assert(e[k - 1]@ == q);
                    }
                }
                assert forall|x: int, y: int|
                    0 <= x < e.len() && 0 <= y < e.len() && x != y implies e[x]@ != e[y]@ by {
                    let kx = if x < i { x } else { x + 1 };
                    let ky = if y < i { y } else { y + 1 };
                    assert(e[x] == o[kx]);
                    assert(e[y] == o[ky]);
                }
            },
        }
    }
}

} // verus!
