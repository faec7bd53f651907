//! Shared network logic: mDNS, session status, roaming.

pub mod mdns;
pub mod net_status;
pub mod roam;

pub use mdns::{
    build_ota_announce, build_ptr_query, collect_ota_hosts, collect_servers, sort_bigfred_first,
    OtaHost, WitServer,
};
pub use roam::{BssCandidate, RoamAction, RoamEngine};
