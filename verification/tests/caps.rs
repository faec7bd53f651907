use longfred_proto::bigfred::BigFred;
use longfred_proto::caps::{http_probe_matches, LocoSource, Probe, Transport};
use longfred_proto::command::Protocol;
use longfred_proto::withrottle::WiThrottle;
use longfred_proto::z21::Z21;

#[test]
fn every_protocol_includes_shared_loco_sources() {
    for p in Protocol::ALL {
        let caps = p.caps();
        assert!(caps.supports_source(LocoSource::StaticRoster), "{p:?} missing StaticRoster");
        assert!(caps.supports_source(LocoSource::AddressOnly), "{p:?} missing AddressOnly");
    }
}

#[test]
fn caps_z21_has_no_server_roster() {
    assert!(!Protocol::Z21.caps().supports_source(LocoSource::ServerRoster));
    assert!(Protocol::WiThrottle.caps().supports_source(LocoSource::ServerRoster));
    assert!(Protocol::BigFred.caps().supports_source(LocoSource::ServerRoster));
}

#[test]
fn caps_only_bigfred_pairs_and_probes() {
    assert!(!Protocol::WiThrottle.caps().supports_pairing());
    assert!(!Protocol::Z21.caps().supports_pairing());
    assert!(Protocol::BigFred.caps().supports_pairing());
    assert_eq!(Protocol::WiThrottle.probe(), Probe::NoProbe);
    assert_eq!(Protocol::Z21.probe(), Probe::NoProbe);
    assert_eq!(
        Protocol::BigFred.probe(),
        Probe::HttpGet { port: 8080, path: "/api/v1/version", expect: "\"product\":\"bigfred\"" }
    );
}

#[test]
fn caps_bigfred_is_withrottle_plus_pairing() {
    let w = Protocol::WiThrottle.caps();
    let b = Protocol::BigFred.caps();
    assert_eq!(w.loco_sources, b.loco_sources);
    assert_eq!(w.transport, b.transport);
    assert_eq!(w.mdns_service, b.mdns_service);
    assert!(b.pairing && !w.pairing);
}

#[test]
fn http_probe_requires_200_and_product_in_body() {
    let expect = br#""product":"bigfred""#;
    assert!(http_probe_matches(
        b"HTTP/1.1 200 OK\r\nContent-Type: application/json\r\n\r\n{\"product\":\"bigfred\"}",
        expect
    ));
    assert!(!http_probe_matches(b"HTTP/1.1 404 Not Found\r\n\r\n{\"product\":\"bigfred\"}", expect));
    assert!(!http_probe_matches(
        b"HTTP/1.1 200 OK\r\nX-Product: \"product\":\"bigfred\"\r\n\r\n{}",
        expect
    ));
}

#[test]
fn http_probe_accepts_http10_and_rejects_empty_expectation() {
    assert!(http_probe_matches(b"HTTP/1.0 200 OK\r\n\r\nxx-bigfred-xx", b"bigfred"));
    assert!(!http_probe_matches(b"HTTP/1.1 200 OK\r\n\r\nanything", b""));
    assert!(!http_probe_matches(b"HTTP/1.1 200 OK\r\nno blank line", b"OK"));
}

#[test]
fn mod_only_bigfred_pairs_and_probes() {
    let info = BigFred::info();
    assert!(info.caps.supports_pairing());
    assert_eq!(
        info.probe,
        Probe::HttpGet { port: 8080, path: "/api/v1/version", expect: "\"product\":\"bigfred\"" }
    );
    assert_eq!(info.display_name, "BigFred");
    assert_eq!(info.glyph, 'B');
}

#[test]
fn mod_bigfred_is_withrottle_plus_pairing() {
    let w = WiThrottle::info().caps;
    let b = BigFred::info().caps;
    assert_eq!(w.loco_sources, b.loco_sources);
    assert_eq!(w.transport, b.transport);
    assert_eq!(w.mdns_service, b.mdns_service);
    assert!(b.pairing && !w.pairing);
    assert!(!b.supports_steal());
    assert!(w.supports_steal());
    assert!(b.supports_source(LocoSource::ServerRoster));
}

#[test]
fn mod_z21_has_no_server_roster() {
    let caps = Z21::info().caps;
    assert!(!caps.supports_source(LocoSource::ServerRoster));
    assert!(caps.supports_source(LocoSource::StaticRoster));
    assert!(caps.supports_source(LocoSource::AddressOnly));
    assert!(!caps.supports_steal());
    assert!(!caps.supports_pairing());
    assert_eq!(Z21::info().probe, Probe::NoProbe);
    assert_eq!(Z21::info().display_name, "Z21");
    assert_eq!(Z21::info().glyph, 'Z');
    assert_eq!(caps.mdns_service, longfred_proto::z21::MDNS_SERVICE);
    assert_eq!(caps.transport, Transport::Udp);
}

#[test]
fn withrottle_caps() {
    let caps = WiThrottle::info().caps;
    assert!(caps.supports_source(LocoSource::ServerRoster));
    assert!(caps.supports_source(LocoSource::StaticRoster));
    assert!(caps.supports_source(LocoSource::AddressOnly));
    assert!(caps.supports_steal());
    assert!(!caps.supports_pairing());
    assert_eq!(WiThrottle::info().probe, Probe::NoProbe);
    assert_eq!(WiThrottle::info().display_name, "WiThrottle");
    assert_eq!(WiThrottle::info().glyph, 'W');
    assert_eq!(caps.mdns_service, longfred_proto::withrottle::MDNS_SERVICE);
}

#[test]
fn protocol_info_matches_marker_types() {
    assert_eq!(Protocol::WiThrottle.info(), WiThrottle::info());
    assert_eq!(Protocol::Z21.info(), Z21::info());
    assert_eq!(Protocol::BigFred.info(), BigFred::info());
    assert_eq!(Protocol::Z21.display_name(), "Z21");
}
