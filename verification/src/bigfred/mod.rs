//! BigFred protocol: WiThrottle drive traffic plus handset pairing.

use crate::caps::{bigfred_caps, bigfred_info, bigfred_probe, ProtocolInfo};
use vstd::prelude::*;

pub mod adapter;
pub mod pairing_http;

verus! {

/// Marker type that carries BigFred's protocol description.
pub struct BigFred;

impl BigFred {
    pub fn info() -> (i: ProtocolInfo)
        ensures
            i == (ProtocolInfo {
                caps: bigfred_caps(),
                probe: bigfred_probe(),
                display_name: "BigFred",
                glyph: 'B',
            }),
    {
        bigfred_info()
    }
}

} // verus!
