use longfred_proto::caps::{LocoSource, LocoSourceMask};
use longfred_proto::catalog::{neighbour_index, resolve_effective, resolve_effective_caps, source_available, Catalog, LocoCatalog};
use longfred_proto::command::Protocol;
use longfred_proto::model::RosterEntry;
use longfred_proto::persist::StaticRosterEntry;

fn live(name: &str, address: i32, length: char) -> RosterEntry {
    RosterEntry { name: name.as_bytes().to_vec(), address, length }
}

fn stat(addr: &str, name: &str) -> StaticRosterEntry {
    StaticRosterEntry { addr: addr.as_bytes().to_vec(), name: name.as_bytes().to_vec() }
}

#[test]
fn for_source_picks_the_named_catalogue() {
    let live = [live("A", 3, 'S')];
    let st = [stat("L1", "Pacific")];
    let c = Catalog::for_source(LocoSource::ServerRoster, &live, &st);
    assert_eq!(c.source(), LocoSource::ServerRoster);
    assert_eq!(c.entry(0).unwrap().addr, b"S3".to_vec());
    let c = Catalog::for_source(LocoSource::StaticRoster, &live, &st);
    assert_eq!(c.entry(0).unwrap().name, b"Pacific".to_vec());
    let c = Catalog::for_source(LocoSource::AddressOnly, &live, &st);
    assert!(!c.allows_pick());
}

#[test]
fn catalogue_lengths_and_out_of_range_entries() {
    let live = [live("A", 3, 'S'), live("B", 1234, 'L')];
    let st = [stat("L1", "")];
    let c = Catalog::for_source(LocoSource::ServerRoster, &live, &st);
    assert_eq!(c.len(), 2);
    assert_eq!(c.entry(1).unwrap().addr, b"L1234".to_vec());
    assert!(c.entry(2).is_none());
    let c = Catalog::for_source(LocoSource::StaticRoster, &live, &st);
    assert_eq!(c.len(), 1);
    assert_eq!(c.entry(0).unwrap().name, b"L1".to_vec());
    let c = Catalog::for_source(LocoSource::AddressOnly, &live, &st);
    assert_eq!(c.len(), 0);
    assert!(c.entry(0).is_none());
}

#[test]
fn wit_auto_waits_then_honours_live_roster() {
    let caps = Protocol::WiThrottle.caps();
    let pref = LocoSource::ServerRoster;
    assert_eq!(resolve_effective_caps(pref, caps, 0, 1, false), LocoSource::ServerRoster);
    assert_eq!(resolve_effective_caps(pref, caps, 1, 1, true), LocoSource::ServerRoster);
    assert_eq!(resolve_effective_caps(pref, caps, 0, 1, true), LocoSource::AddressOnly);
}

#[test]
fn fallback_is_address_only_not_static() {
    let caps = Protocol::WiThrottle.caps();
    assert_eq!(resolve_effective_caps(LocoSource::ServerRoster, caps, 0, 1, true), LocoSource::AddressOnly);
    assert_eq!(resolve_effective_caps(LocoSource::StaticRoster, caps, 5, 0, true), LocoSource::AddressOnly);
}

#[test]
fn z21_auto_falls_back_immediately() {
    let caps = Protocol::Z21.caps();
    assert_eq!(resolve_effective_caps(LocoSource::ServerRoster, caps, 0, 2, false), LocoSource::AddressOnly);
    assert_eq!(resolve_effective_caps(LocoSource::StaticRoster, caps, 0, 2, true), LocoSource::StaticRoster);
}

#[test]
fn disconnected_mask_cannot_honour_server_roster() {
    assert_eq!(
        resolve_effective(LocoSource::ServerRoster, LocoSourceMask::shared(), 0, 0, true),
        LocoSource::AddressOnly
    );
}

#[test]
fn resolved_source_is_always_available() {
    for pref in [LocoSource::ServerRoster, LocoSource::StaticRoster, LocoSource::AddressOnly] {
        for (live, st) in [(0usize, 0usize), (0, 3), (2, 0), (4, 4)] {
            let r = resolve_effective(pref, LocoSourceMask::all(), live, st, true);
            assert!(source_available(r, live, st));
            assert!(r == pref || r == LocoSource::AddressOnly);
        }
    }
}

#[test]
fn neighbour_index_wraps_and_starts_from_ends() {
    assert_eq!(neighbour_index(0, None, true), None);
    assert_eq!(neighbour_index(3, None, true), Some(0));
    assert_eq!(neighbour_index(3, None, false), Some(2));
    assert_eq!(neighbour_index(3, Some(0), true), Some(1));
    assert_eq!(neighbour_index(3, Some(2), true), Some(0));
    assert_eq!(neighbour_index(3, Some(0), false), Some(2));
    assert_eq!(neighbour_index(3, Some(99), true), Some(0));
}

#[test]
fn neighbour_next_then_prev_returns_home() {
    for len in 1..6usize {
        for i in 0..len {
            let n = neighbour_index(len, Some(i), true).unwrap();
            assert_eq!(neighbour_index(len, Some(n), false), Some(i));
        }
    }
}
