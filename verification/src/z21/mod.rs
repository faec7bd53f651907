//! Z21 LAN protocol: UDP X-BUS adapter.

use crate::caps::{z21_caps, z21_info, Probe, ProtocolInfo};
use vstd::prelude::*;

pub mod adapter;

verus! {

/// mDNS PTR name advertised by Z21 stations.
pub const MDNS_SERVICE: &'static str = "_z21._udp.local";

/// Marker type that carries Z21's protocol description.
pub struct Z21;

impl Z21 {
    pub fn info() -> (i: ProtocolInfo)
        ensures
            i == (ProtocolInfo { caps: z21_caps(), probe: Probe::NoProbe, display_name: "Z21", glyph: 'Z' }),
    {
        z21_info()
    }
}

} // verus!
