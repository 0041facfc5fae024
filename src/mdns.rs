//! Configuration of multicast DNS discovery.

use vstd::prelude::*;
use core::time::Duration;

verus! {

/// mDNS configuration.
#[derive(Debug)]
pub struct Config {
    /// How often the network should be queried for new peers.
    pub query_interval: Duration,
}

} // verus!
