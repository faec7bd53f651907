use longfred_proto::adapter::WireBuf;
use longfred_proto::bigfred::adapter::BigFredAdapter;
use longfred_proto::command::ClientCommand;
use longfred_proto::events::ServerEvent;

fn adapter() -> BigFredAdapter {
    BigFredAdapter::new("Handset", "4242", 10, false, true)
}

fn format_func(func: u8) -> String {
    let mut out = String::new();
    out.push((b'0' + func) as char);
    out.push('\r');
    out.push('\n');
    out
}

#[test]
fn pair_acquires_sentinel_then_sends_momentary_digits() {
    let mut adapter = adapter();
    let mut out = WireBuf::new();
    let mut events = Vec::new();
    adapter.encode(&ClientCommand::Pair { code: b"120945".to_vec() }, &mut out, &mut events);
    assert!(core::str::from_utf8(&out).is_ok_and(|s| s.contains("M0+S3")));
    let expected = [(1, true), (1, false), (2, true), (2, false)];
    for (func, on) in expected {
        let mut out = WireBuf::new();
        assert!(adapter.poll(&mut out, &mut events));
        let marker = if on { "F1" } else { "F0" };
        let suffix = format_func(func);
        assert!(core::str::from_utf8(&out).is_ok_and(|s| s.contains(marker) && s.ends_with(suffix.as_str())));
    }
}

#[test]
fn decode_does_not_truncate_multi_event_roster_line() {
    let mut adapter = adapter();
    let mut wire = String::from("RL17");
    for address in 1..=17 {
        wire.push_str(&format!("]\\[A}}|{{{address}}}|{{S"));
    }
    wire.push('\n');
    let mut events = Vec::new();
    adapter.decode(wire.as_bytes(), &mut events);
    assert_eq!(events.len(), 18);
}

#[test]
fn sentinel_and_success_become_typed_events() {
    let mut adapter = adapter();
    let mut events = Vec::new();
    adapter.decode(b"RL1]\\[Pair with BigFred}|{3}|{S\r\nHmPaired as ops\r\n", &mut events);
    assert!(events.iter().any(|e| *e == ServerEvent::PairingRequired));
    assert!(events.iter().any(|e| matches!(e, ServerEvent::PairingSucceeded(user) if user.as_slice() == b"ops")));
}

#[test]
fn invalid_code_fails_without_wire_output() {
    let mut adapter = adapter();
    let mut out = WireBuf::new();
    let mut events = Vec::new();
    adapter.encode(&ClientCommand::Pair { code: b"12x".to_vec() }, &mut out, &mut events);
    assert!(out.is_empty());
    assert!(events.iter().any(|e| *e == ServerEvent::PairingFailed));
}

#[test]
fn pairing_success_releases_sentinel_on_next_poll() {
    let mut adapter = adapter();
    let mut events = Vec::new();
    adapter.decode(b"HmPaired as ops\n", &mut events);
    let mut out = WireBuf::new();
    assert!(adapter.poll(&mut out, &mut events));
    assert_eq!(core::str::from_utf8(&out), Ok("M0-*<;>r\r\n"));
    let mut out = WireBuf::new();
    assert!(!adapter.poll(&mut out, &mut events));
}

#[test]
fn heartbeat_period_is_at_least_one_second() {
    let mut adapter = adapter();
    assert_eq!(adapter.tick_period_s(), 10);
    adapter.set_heartbeat_period(0);
    assert_eq!(adapter.tick_period_s(), 1);
}
