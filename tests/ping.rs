use litep2p_core::address::{Multihash, PeerId};
use litep2p_core::peers::SubstreamId;
use litep2p_core::ping::Ping;

fn peer(seed: u8) -> PeerId {
    PeerId::from_multihash(Multihash::new(0x12, vec![seed; 32])).unwrap()
}

#[test]
fn ping_tracks_peers_and_substreams() {
    let mut ping = Ping::new(3);
    let a = peer(1);
    ping.on_connection_established(a.clone(), SubstreamId(7));
    assert!(ping.is_connected(&a));
    assert_eq!(ping.on_outbound_substream(SubstreamId(7)), Some(a.clone()));
    assert_eq!(ping.on_outbound_substream(SubstreamId(7)), None);
    ping.on_connection_closed(&a);
    assert!(!ping.is_connected(&a));
}
