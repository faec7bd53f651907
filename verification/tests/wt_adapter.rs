use longfred_proto::adapter::{Adapter, WireBuf};
use longfred_proto::withrottle::parser::line_ok;
use longfred_proto::command::{ClientCommand, LocoId};
use longfred_proto::events::ServerEvent;
use longfred_proto::withrottle::adapter::WtAdapter;

#[test]
fn handshake_identifies_device_before_sending_name() {
    let mut adapter = WtAdapter::new("WiFred", "device-1", 10, false, true);
    let mut out = WireBuf::new();
    let mut events = Vec::new();
    adapter.on_connect(&mut out, &mut events);
    assert_eq!(core::str::from_utf8(out.as_slice()), Ok("HUdevice-1\r\nNWiFred\r\n*+\r\n"));
}

#[test]
fn function_commands_use_absolute_force_form() {
    let mut adapter = WtAdapter::new("", "", 10, false, true);
    let mut out = WireBuf::new();
    let mut events = Vec::new();
    adapter.encode(&ClientCommand::SetFunction { throttle: 0, func: 5, on: true, all: true }, &mut out, &mut events);
    assert_eq!(core::str::from_utf8(out.as_slice()), Ok("M0A*<;>f15\r\n"));
}

#[test]
fn disconnect_sends_quit() {
    let mut adapter = WtAdapter::new("", "", 10, false, true);
    let mut out = WireBuf::new();
    adapter.on_disconnect(&mut out);
    assert_eq!(core::str::from_utf8(out.as_slice()), Ok("Q\r\n"));
}

#[test]
fn add_speed_and_release_lines() {
    let mut adapter = WtAdapter::new("", "", 10, false, false);
    let mut out = WireBuf::new();
    let mut events = Vec::new();
    adapter.encode(
        &ClientCommand::AddLoco { throttle: 1, loco: LocoId { addr: 341, long: true }, name: b"Big Boy".to_vec() },
        &mut out,
        &mut events,
    );
    adapter.encode(&ClientCommand::SetSpeed { throttle: 1, speed: 10 }, &mut out, &mut events);
    adapter.encode(&ClientCommand::ReleaseThrottle { throttle: 1 }, &mut out, &mut events);
    assert_eq!(core::str::from_utf8(&out), Ok("M1+L341<;>Big Boy\r\nM1A*<;>V10\r\nM1-*<;>r\r\n"));
}

#[test]
fn decode_splits_lines_and_keeps_partial_tail() {
    let mut adapter = WtAdapter::new("", "", 10, false, false);
    let mut events = Vec::new();
    adapter.decode(b"PPA1\r\nVN2.", &mut events);
    assert_eq!(events.len(), 1);
    adapter.decode(b"0\n", &mut events);
    assert_eq!(events.len(), 2);
    assert!(matches!(events[1], ServerEvent::Version(_)));
}

#[test]
fn line_and_data_checks_match_what_the_parser_takes() {
    assert!(line_ok(b"VN2.0"));
    assert!(line_ok(b"RL1]\\[A}|{3}|{L"));
    assert!(!line_ok(b"RL2]\\[A}|{3"));
    assert!(!line_ok(b"M0A*<;>F"));
    assert!(line_ok(b"M0A*<;>F1"));
    assert!(!line_ok(b"M0L1<;>]a\xc3\xa9"));
    assert!(line_ok(b"M0L1<;>]\\[Light]\\[Bell"));

    let a = Adapter::Wt(WtAdapter::new("h", "id", 10, false, false));
    assert!(a.accepts(b"VN2.0\n*10\n"));
    assert!(!a.accepts(b"VN2.0\nM0A*<;>F\n"));
    assert!(a.accepts(b"M0A*<;>F"));
    assert!(Adapter::Z21(longfred_proto::z21::adapter::Z21Adapter::new()).accepts(b"\x00\x01"));
}
