//! Transport and connection-establishment core of a peer-to-peer stack:
//! address decomposition, peer bookkeeping, dial arbitration with
//! deduplication, DNS result selection and the connection negotiation
//! pipeline, each stated and proved as a state transition.

pub mod address;
pub mod error;
pub mod manager;
pub mod peers;
pub mod tcp;
pub mod codec;
pub mod ping;
pub mod mdns;
pub mod negotiation;
