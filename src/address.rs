//! Self-describing network addresses and peer identities.

use vstd::prelude::*;

verus! {

/// Multihash code of the identity hash function.
pub const IDENTITY_CODE: u64 = 0x00;

/// Multihash code of SHA2-256.
pub const SHA2_256_CODE: u64 = 0x12;

/// Longest public key that may be inlined into a peer identity.
pub const MAX_INLINE_KEY_LENGTH: usize = 42;

/// A self-describing hash: the hash function's code and the digest.
#[derive(Debug, Clone)]
pub struct Multihash {
    pub code: u64,
    pub digest: Vec<u8>,
}

/// Abstract value of a [`Multihash`].
pub struct MultihashView {
    pub code: u64,
    pub digest: Seq<u8>,
}

impl View for Multihash {
    type V = MultihashView;

    open spec fn view(&self) -> MultihashView {
        MultihashView { code: self.code, digest: self.digest@ }
    }
}

/// Compares two byte vectors element by element.
pub fn bytes_equal(a: &Vec<u8>, b: &Vec<u8>) -> (r: bool)
    ensures
        r == (a@ == b@),
{
    if a.len() != b.len() {
        return false;
    }
    let mut i: usize = 0;
    while i < a.len()
        invariant
            a@.len() == b@.len(),
            i <= a@.len(),
            forall|j: int| 0 <= j < i ==> a@[j] == b@[j],
        decreases a@.len() - i,
    {
        if a[i] != b[i] {
            return false;
        }
        i = i + 1;
    }
    assert(a@ =~= b@);
    true
}

impl Multihash {
    pub fn new(code: u64, digest: Vec<u8>) -> (r: Multihash)
        ensures
            r@ == (MultihashView { code, digest: digest@ }),
    {
        Multihash { code, digest }
    }

    /// A copy with the same code and digest.
    pub fn duplicate(&self) -> (r: Multihash)
        ensures
            r@ == self@,
    {
        let mut digest: Vec<u8> = Vec::new();
        let mut i: usize = 0;
        while i < self.digest.len()
            invariant
                i <= self.digest@.len(),
                digest@ == self.digest@.subrange(0, i as int),
            decreases self.digest@.len() - i,
        {
            digest.push(self.digest[i]);
            i = i + 1;
            assert(digest@ =~= self.digest@.subrange(0, i as int));
        }
        assert(digest@ =~= self.digest@);
        Multihash { code: self.code, digest }
    }
}

impl PartialEq for Multihash {
    fn eq(&self, other: &Multihash) -> (r: bool) {
        self.code == other.code && bytes_equal(&self.digest, &other.digest)
    }
}

impl vstd::std_specs::cmp::PartialEqSpecImpl for Multihash {
    open spec fn obeys_eq_spec() -> bool {
        true
    }

    open spec fn eq_spec(&self, other: &Multihash) -> bool {
        self@ == other@
    }
}


/// Whether a multihash may stand for a peer identity: a SHA2-256 hash of
/// the public key, or the key itself inlined when it is short enough.
pub open spec fn is_peer_multihash(m: MultihashView) -> bool {
    m.code == SHA2_256_CODE || (m.code == IDENTITY_CODE && m.digest.len() <= MAX_INLINE_KEY_LENGTH)
}

/// Identity of a peer, derived from its public key and held as a multihash.
#[derive(Debug, Clone)]
pub struct PeerId {
    multihash: Multihash,
}

impl View for PeerId {
    type V = MultihashView;

    closed spec fn view(&self) -> MultihashView {
        self.multihash@
    }
}

impl PeerId {
    /// Takes a multihash as a peer identity; hands it back when its code or
    /// length cannot name a peer.
    pub fn from_multihash(multihash: Multihash) -> (r: Result<PeerId, Multihash>)
        ensures
            is_peer_multihash(multihash@) ==> (r is Ok && r->Ok_0@ == multihash@),
            !is_peer_multihash(multihash@) ==> (r is Err && r->Err_0@ == multihash@),
    {
        if multihash.code == SHA2_256_CODE || (multihash.code == IDENTITY_CODE
            && multihash.digest.len() <= MAX_INLINE_KEY_LENGTH) {
            Ok(PeerId { multihash })
        } else {
            Err(multihash)
        }
    }

    /// The multihash this identity is held as.
    pub fn as_multihash(&self) -> (r: &Multihash)
        ensures
            r@ == self@,
    {
        &self.multihash
    }

    /// A copy naming the same peer.
    pub fn duplicate(&self) -> (r: PeerId)
        ensures
            r@ == self@,
    {
        PeerId { multihash: self.multihash.duplicate() }
    }
}

impl PartialEq for PeerId {
    fn eq(&self, other: &PeerId) -> (r: bool) {
        self.multihash == other.multihash
    }
}

impl vstd::std_specs::cmp::PartialEqSpecImpl for PeerId {
    open spec fn obeys_eq_spec() -> bool {
        true
    }

    open spec fn eq_spec(&self, other: &PeerId) -> bool {
        self@ == other@
    }
}


/// A literal network-layer endpoint.
#[derive(Debug, Clone, Copy, PartialEq, Eq, Structural)]
pub enum IpAddress {
    /// IPv4 address, most significant octet first.
    V4(u32),
    /// IPv6 address, most significant octet first.
    V6(u128),
}

/// A literal endpoint with a port.
#[derive(Debug, Clone, Copy, PartialEq, Eq, Structural)]
pub struct SocketAddress {
    pub ip: IpAddress,
    pub port: u16,
}

/// One segment of a [`Multiaddr`].
#[derive(Debug, Clone)]
pub enum Protocol {
    Ip4(u32),
    Ip6(u128),
    Dns(String),
    Dns4(String),
    Dns6(String),
    Tcp(u16),
    Udp(u16),
    QuicV1,
    Ws(String),
    Wss(String),
    P2p(Multihash),
    /// A segment this core does not interpret, in its textual form.
    Other(String),
}

/// Abstract value of a [`Protocol`] segment.
pub enum ProtocolView {
    Ip4(u32),
    Ip6(u128),
    Dns(Seq<char>),
    Dns4(Seq<char>),
    Dns6(Seq<char>),
    Tcp(u16),
    Udp(u16),
    QuicV1,
    Ws(Seq<char>),
    Wss(Seq<char>),
    P2p(MultihashView),
    Other(Seq<char>),
}

impl View for Protocol {
    type V = ProtocolView;

    open spec fn view(&self) -> ProtocolView {
        match self {
            Protocol::Ip4(a) => ProtocolView::Ip4(*a),
            Protocol::Ip6(a) => ProtocolView::Ip6(*a),
            Protocol::Dns(h) => ProtocolView::Dns(h@),
            Protocol::Dns4(h) => ProtocolView::Dns4(h@),
            Protocol::Dns6(h) => ProtocolView::Dns6(h@),
            Protocol::Tcp(p) => ProtocolView::Tcp(*p),
            Protocol::Udp(p) => ProtocolView::Udp(*p),
            Protocol::QuicV1 => ProtocolView::QuicV1,
            Protocol::Ws(s) => ProtocolView::Ws(s@),
            Protocol::Wss(s) => ProtocolView::Wss(s@),
            Protocol::P2p(m) => ProtocolView::P2p(m@),
            Protocol::Other(s) => ProtocolView::Other(s@),
        }
    }
}

impl Protocol {
    /// A copy of the segment.
    pub fn duplicate(&self) -> (r: Protocol)
        ensures
            r@ == self@,
    {
        match self {
            Protocol::Ip4(a) => Protocol::Ip4(*a),
            Protocol::Ip6(a) => Protocol::Ip6(*a),
            Protocol::Dns(h) => Protocol::Dns(h.clone()),
            Protocol::Dns4(h) => Protocol::Dns4(h.clone()),
            Protocol::Dns6(h) => Protocol::Dns6(h.clone()),
            Protocol::Tcp(p) => Protocol::Tcp(*p),
            Protocol::Udp(p) => Protocol::Udp(*p),
            Protocol::QuicV1 => Protocol::QuicV1,
            Protocol::Ws(s) => Protocol::Ws(s.clone()),
            Protocol::Wss(s) => Protocol::Wss(s.clone()),
            Protocol::P2p(m) => Protocol::P2p(m.duplicate()),
            Protocol::Other(s) => Protocol::Other(s.clone()),
        }
    }
}

impl PartialEq for Protocol {
    fn eq(&self, other: &Protocol) -> (r: bool) {
        match (self, other) {
            (Protocol::Ip4(a), Protocol::Ip4(b)) => *a == *b,
            (Protocol::Ip6(a), Protocol::Ip6(b)) => *a == *b,
            (Protocol::Dns(a), Protocol::Dns(b)) => *a == *b,
            (Protocol::Dns4(a), Protocol::Dns4(b)) => *a == *b,
            (Protocol::Dns6(a), Protocol::Dns6(b)) => *a == *b,
            (Protocol::Tcp(a), Protocol::Tcp(b)) => *a == *b,
            (Protocol::Udp(a), Protocol::Udp(b)) => *a == *b,
            (Protocol::QuicV1, Protocol::QuicV1) => true,
            (Protocol::Ws(a), Protocol::Ws(b)) => *a == *b,
            (Protocol::Wss(a), Protocol::Wss(b)) => *a == *b,
            (Protocol::P2p(a), Protocol::P2p(b)) => *a == *b,
            (Protocol::Other(a), Protocol::Other(b)) => *a == *b,
            _ => false,
        }
    }
}

impl vstd::std_specs::cmp::PartialEqSpecImpl for Protocol {
    open spec fn obeys_eq_spec() -> bool {
        true
    }

    open spec fn eq_spec(&self, other: &Protocol) -> bool {
        self@ == other@
    }
}

/// The endpoint that an `ip4` or `ip6` segment names.
pub open spec fn ip_of(p: ProtocolView) -> IpAddress {
    match p {
        ProtocolView::Ip6(a) => IpAddress::V6(a),
        ProtocolView::Ip4(a) => IpAddress::V4(a),
        _ => IpAddress::V4(0),
    }
}

/// The segment that names an endpoint.
pub open spec fn ip_segment(ip: IpAddress) -> ProtocolView {
    match ip {
        IpAddress::V4(a) => ProtocolView::Ip4(a),
        IpAddress::V6(a) => ProtocolView::Ip6(a),
    }
}

/// The segment that names `ip`.
pub fn ip_protocol(ip: IpAddress) -> (r: Protocol)
    ensures
        r@ == ip_segment(ip),
{
    match ip {
        IpAddress::V4(a) => Protocol::Ip4(a),
        IpAddress::V6(a) => Protocol::Ip6(a),
    }
}

/// Abstract value of a [`Multiaddr`]: its segments in order.
pub type MultiaddrView = Seq<ProtocolView>;

/// An ordered, self-describing stack of address segments.
#[derive(Debug, Clone)]
pub struct Multiaddr {
    protocols: Vec<Protocol>,
}

impl View for Multiaddr {
    type V = MultiaddrView;

    closed spec fn view(&self) -> MultiaddrView {
        self.protocols@.map_values(|p: Protocol| p@)
    }
}

impl Multiaddr {
    /// The address with no segments.
    pub fn empty() -> (r: Multiaddr)
        ensures
            r@ == Seq::<ProtocolView>::empty(),
    {
        let r = Multiaddr { protocols: Vec::new() };
        assert(r@ =~= Seq::<ProtocolView>::empty());
        r
    }

    /// Appends a segment.
    pub fn push(&mut self, protocol: Protocol)
        ensures
            final(self)@ == old(self)@.push(protocol@),
    {
        self.protocols.push(protocol);
        assert(self@ =~= old(self)@.push(protocol@));
    }

    /// The address with one more segment at its end.
    pub fn with(self, protocol: Protocol) -> (r: Multiaddr)
        ensures
            r@ == self@.push(protocol@),
    {
        let mut r = self;
        r.push(protocol);
        r
    }

    /// Number of segments.
    pub fn len(&self) -> (r: usize)
        ensures
            r == self@.len(),
    {
        self.protocols.len()
    }

    /// The segment at `index`.
    pub fn get(&self, index: usize) -> (r: &Protocol)
        requires
            index < self@.len(),
        ensures
            r@ == self@[index as int],
    {
        &self.protocols[index]
    }

    /// A copy of the address.
    pub fn duplicate(&self) -> (r: Multiaddr)
        ensures
            r@ == self@,
    {
        let mut r = Multiaddr::empty();
        let mut i: usize = 0;
        while i < self.protocols.len()
            invariant
                i <= self@.len(),
                r@ == self@.subrange(0, i as int),
            decreases self@.len() - i,
        {
            r.push(self.protocols[i].duplicate());
            i = i + 1;
            assert(r@ =~= self@.subrange(0, i as int));
        }
        assert(r@ =~= self@);
        r
    }
}

impl PartialEq for Multiaddr {
    fn eq(&self, other: &Multiaddr) -> (r: bool) {
        if self.protocols.len() != other.protocols.len() {
            return false;
        }
        let mut i: usize = 0;
        while i < self.protocols.len()
            invariant
                self@.len() == other@.len(),
                i <= self@.len(),
                forall|j: int| 0 <= j < i ==> self@[j] == other@[j],
            decreases self@.len() - i,
        {
            if self.protocols[i] != other.protocols[i] {
                assert(self@[i as int] == self.protocols@[i as int]@);
                assert(other@[i as int] == other.protocols@[i as int]@);
                return false;
            }
            i = i + 1;
        }
        assert(self@ =~= other@);
        true
    }
}

impl vstd::std_specs::cmp::PartialEqSpecImpl for Multiaddr {
    open spec fn obeys_eq_spec() -> bool {
        true
    }

    open spec fn eq_spec(&self, other: &Multiaddr) -> bool {
        self@ == other@
    }
}

} // verus!
