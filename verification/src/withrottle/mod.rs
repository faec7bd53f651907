//! WiThrottle protocol: line builders, parser, and session adapter.

use crate::caps::{withrottle_caps, withrottle_info, Probe, ProtocolInfo};
use vstd::prelude::*;

pub mod adapter;
pub mod parser;
pub mod protocol;

verus! {

/// mDNS PTR name advertised by WiThrottle stations.
pub const MDNS_SERVICE: &'static str = "_withrottle._tcp.local";

/// Marker type that carries WiThrottle's protocol description.
pub struct WiThrottle;

impl WiThrottle {
    pub fn info() -> (i: ProtocolInfo)
        ensures
            i == (ProtocolInfo {
                caps: withrottle_caps(),
                probe: Probe::NoProbe,
                display_name: "WiThrottle",
                glyph: 'W',
            }),
    {
        withrottle_info()
    }
}

} // verus!
