//! The beacon that announces a peer on the local network.

use vstd::prelude::*;

verus! {

/// Multicast group of the beacons, as an IPv4 address in network order.
pub const MULTICAST_GROUP: [u8; 4] = [224, 0, 1, 1];

/// UDP port of the beacons.
pub const DISCOVERY_PORT: u16 = 10020;

/// Seconds between two beacons.
pub const BEACON_INTERVAL_SECS: u64 = 2;

/// Size of the buffer a beacon is received into; a beacon is never longer.
pub const DISCOVERY_BUFFER_LEN: usize = 1024;

/// A beacon: the sender's id and name, and the port its responder listens on.
#[derive(Debug)]
pub struct DiscoveryMessage {
    pub id: String,
    pub name: String,
    pub service_port: u16,
}

impl DiscoveryMessage {
    pub fn new(id: String, name: String, service_port: u16) -> (r: DiscoveryMessage)
        ensures
            r.id == id,
            r.name == name,
            r.service_port == service_port,
    {
        DiscoveryMessage { id, name, service_port }
    }
}

} // verus!
