use longfred_proto::adapter::WireBuf;
use longfred_proto::command::{ClientCommand, LocoId};
use longfred_proto::events::ServerEvent;
use longfred_proto::model::{Direction, TrackPower};
use longfred_proto::z21::adapter::{
    addr_bytes, decode_db3, decode_function_bits, encode_db3, put_xbus, steps_db0, xor_sum, Slot, Z21Adapter,
};

fn slot(addr: u16, speed: u8) -> Slot {
    Slot { throttle: 0, addr, long: false, steps: 128, speed, dir: Direction::Forward, funcs: 0 }
}

#[test]
fn addr_bytes_short_and_long() {
    assert_eq!(addr_bytes(3, false), [0x00, 0x03]);
    assert_eq!(addr_bytes(31, false), [0x00, 0x1F]);
    assert_eq!(addr_bytes(128, false), [0xC0, 0x80]);
    assert_eq!(addr_bytes(9999, true), [0xC0 | 0x27, 0x0F]);
}

#[test]
fn drive_stop_rev_128_golden() {
    let mut out = WireBuf::new();
    put_xbus(&mut out, &[0xE4, steps_db0(128), 0x00, 0x1F, encode_db3(0, Direction::Reverse, 128)]);
    assert_eq!(out.as_slice(), &[0x0A, 0x00, 0x40, 0x00, 0xE4, 0x13, 0x00, 0x1F, 0x00, 0xE8]);
}

#[test]
fn encode_db3_128_forward_speed() {
    assert_eq!(encode_db3(0, Direction::Forward, 128), 0x80);
    assert_eq!(encode_db3(50, Direction::Forward, 128), 0x80 | 51);
    assert_eq!(encode_db3(10, Direction::Reverse, 128), 11);
}

#[test]
fn decode_db3_roundtrip_128() {
    for speed in [0u8, 10, 50, 126] {
        for forward in [true, false] {
            let dir = if forward { Direction::Forward } else { Direction::Reverse };
            let db3 = encode_db3(speed, dir, 128);
            let (got_speed, got_dir) = decode_db3(0x13, db3);
            assert_eq!(got_speed, speed, "speed {speed}");
            assert_eq!(got_dir, dir);
        }
    }
}

#[test]
fn set_function_packet() {
    let mut out = WireBuf::new();
    put_xbus(&mut out, &[0xE4, 0xF8, 0x00, 0x1F, 0x40 | 5]);
    assert_eq!(out[9], 0xE4 ^ 0xF8 ^ 0x00 ^ 0x1F ^ 0x45);
    assert_eq!(xor_sum(&[0xE4, 0xF8, 0x00, 0x1F, 0x45]), out[9]);
}

#[test]
fn loco_info_decodes_functions_f0_through_f31() {
    let x = [0xEF, 0x00, 0x03, 0x04, 0x80, 0x10 | 0x01 | 0x08, 0x81, 0x00, 0x80, 0x04];
    let (states, present) = decode_function_bits(&x);
    for func in [0u8, 1, 4, 5, 12, 28, 31] {
        assert_ne!(states & (1u32 << func), 0, "F{func}");
    }
    assert_eq!(present, u32::MAX);
}

#[test]
fn loco_info_ignores_smartsearch_and_double_traction_bits() {
    let x = [0xEF, 0x00, 0x03, 0x04, 0x80, 0x60];
    let (states, present) = decode_function_bits(&x);
    assert_eq!(states, 0);
    assert_eq!(present, 0x1F);
}

#[test]
fn estop_clears_cached_speed_and_sends_spec_plus_drive_fallback() {
    let mut adapter = Z21Adapter::new();
    adapter.locos.push(slot(31, 50));
    let mut out = WireBuf::new();
    let mut events = Vec::new();
    adapter.encode(&ClientCommand::EStop { throttle: 0 }, &mut out, &mut events);
    assert_eq!(adapter.locos[0].speed, 0);
    assert_eq!(&out[..8], &[0x08, 0x00, 0x40, 0x00, 0x92, 0x00, 0x1F, 0x8D]);
    assert_eq!(out[12], 0xE4);
    assert_eq!(out[16] & 0x7F, 1);
}

#[test]
fn estop_burst_fits_all_sixteen_locomotives() {
    let mut adapter = Z21Adapter::new();
    for addr in 1..=16 {
        adapter.locos.push(slot(addr, 50));
    }
    let mut out = WireBuf::new();
    let mut events = Vec::new();
    adapter.encode(&ClientCommand::EStop { throttle: 0 }, &mut out, &mut events);
    assert_eq!(out.len(), 16 * (8 + 10));
}

#[test]
fn split_datagram_two_frames() {
    let mut adapter = Z21Adapter::new();
    adapter.locos.push(slot(31, 0));
    let mut events = Vec::new();
    let mut pkt = WireBuf::new();
    put_xbus(&mut pkt, &[0x61, 0x01]);
    put_xbus(&mut pkt, &[0xEF, 0x00, 0x1F, 0x13, 0x80 | 40, 0x00]);
    adapter.decode(pkt.as_slice(), &mut events);
    assert!(events.iter().any(|e| matches!(e, ServerEvent::TrackPower(TrackPower::On))));
    assert!(events.iter().any(|e| matches!(e, ServerEvent::Speed { speed: 39, .. })));
}

#[test]
fn add_loco_emits_address_added() {
    let mut adapter = Z21Adapter::new();
    let mut out = WireBuf::new();
    let mut events = Vec::new();
    adapter.encode(
        &ClientCommand::AddLoco { throttle: 0, loco: LocoId { addr: 31, long: false }, name: Vec::new() },
        &mut out,
        &mut events,
    );
    assert!(!out.is_empty());
    assert!(events.iter().any(|e| matches!(e, ServerEvent::AddressAdded { .. })));
}

#[test]
fn add_loco_deduplicates_same_throttle_and_address() {
    let mut adapter = Z21Adapter::new();
    let mut out = WireBuf::new();
    let mut events = Vec::new();
    let command = ClientCommand::AddLoco { throttle: 0, loco: LocoId { addr: 31, long: false }, name: Vec::new() };
    adapter.encode(&command, &mut out, &mut events);
    adapter.encode(&command, &mut out, &mut events);
    assert_eq!(adapter.locos.len(), 1);
}

#[test]
fn status_changed_updates_track_power() {
    let mut adapter = Z21Adapter::new();
    let mut packet = WireBuf::new();
    put_xbus(&mut packet, &[0x62, 0x22, 0x02]);
    let mut events = Vec::new();
    adapter.decode(packet.as_slice(), &mut events);
    assert_eq!(events.first(), Some(&ServerEvent::TrackPower(TrackPower::Off)));
}

#[test]
fn release_throttle_forgets_its_locos() {
    let mut adapter = Z21Adapter::new();
    adapter.locos.push(slot(31, 0));
    adapter.locos.push(Slot { throttle: 1, ..slot(40, 0) });
    let mut out = WireBuf::new();
    let mut events = Vec::new();
    adapter.encode(&ClientCommand::ReleaseThrottle { throttle: 0 }, &mut out, &mut events);
    assert_eq!(adapter.locos.len(), 1);
    assert_eq!(adapter.locos[0].addr, 40);
    assert!(events.iter().any(|e| matches!(e, ServerEvent::AddressRemoved { .. })));
}

#[test]
fn steps_codes() {
    assert_eq!(steps_db0(14), 0x10);
    assert_eq!(steps_db0(28), 0x12);
    assert_eq!(steps_db0(128), 0x13);
}
