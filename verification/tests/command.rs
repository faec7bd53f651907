use longfred_proto::command::{LocoId, Protocol};

#[test]
fn loco_id_parse_short_long() {
    assert_eq!(LocoId::parse("S31"), Some(LocoId { addr: 31, long: false }));
    assert_eq!(LocoId::parse("L341"), Some(LocoId { addr: 341, long: true }));
    assert_eq!(LocoId::parse("200"), Some(LocoId { addr: 200, long: true }));
}

#[test]
fn loco_id_to_wire() {
    assert_eq!(LocoId::parse("S3").unwrap().to_wire(), b"S3".to_vec());
    assert_eq!(LocoId::parse("L341").unwrap().to_wire(), b"L341".to_vec());
}

#[test]
fn loco_id_parse_rejects_garbage_and_overflow() {
    assert_eq!(LocoId::parse(""), None);
    assert_eq!(LocoId::parse("S"), None);
    assert_eq!(LocoId::parse("Sx1"), None);
    assert_eq!(LocoId::parse("70000"), None);
    assert_eq!(LocoId::parse("s7"), Some(LocoId { addr: 7, long: false }));
    assert_eq!(LocoId::parse("l7"), Some(LocoId { addr: 7, long: true }));
    assert_eq!(LocoId::parse("127"), Some(LocoId { addr: 127, long: false }));
    assert_eq!(LocoId::parse("+12"), Some(LocoId { addr: 12, long: false }));
}

#[test]
fn loco_id_wire_roundtrip() {
    for addr in [0u16, 1, 9, 10, 99, 127, 128, 9999, 10239, 65535] {
        for long in [false, true] {
            let id = LocoId { addr, long };
            let w = id.to_wire();
            let s = core::str::from_utf8(&w).unwrap();
            assert_eq!(LocoId::parse(s), Some(id));
        }
    }
}

#[test]
fn protocol_code_roundtrip() {
    for p in Protocol::ALL {
        assert_eq!(Protocol::from_u8(p.as_u8()), Some(p));
    }
    assert_eq!(Protocol::from_u8(200), None);
}
