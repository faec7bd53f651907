use longfred_proto::model::{opposite, throttle_char, throttle_index, track_power_on, Direction, ThrottleSlot, TrackPower};

#[test]
fn new_throttle_slot_has_no_loco_name() {
    assert!(ThrottleSlot::new(4).name.is_empty());
}

#[test]
fn new_throttle_slot_is_stopped_forward_without_locos() {
    let s = ThrottleSlot::new(4);
    assert_eq!(s.speed, 0);
    assert_eq!(s.direction, Direction::Forward);
    assert!(!s.has_loco());
    assert_eq!(s.speed_step, 4);
    assert_eq!(s.throttle_char(3), '3');
}

#[test]
fn wire_chars_roundtrip() {
    for i in 0..9usize {
        assert_eq!(throttle_index(throttle_char(i)), Some(i));
    }
    assert_eq!(throttle_index('9'), None);
    assert_eq!(throttle_index('x'), None);
    assert_eq!(Direction::from_wire('0'), Direction::Reverse);
    assert_eq!(Direction::from_wire('7'), Direction::Forward);
    assert_eq!(Direction::Reverse.to_wire(), '0');
    assert_eq!(TrackPower::from_wire('1'), TrackPower::On);
    assert_eq!(TrackPower::from_wire('2'), TrackPower::Unknown);
    assert_eq!(TrackPower::Unknown.to_wire(), "0");
    assert_eq!(opposite(opposite(Direction::Forward)), Direction::Forward);
    assert!(track_power_on(TrackPower::On));
    assert!(!track_power_on(TrackPower::Unknown));
}
