use longfred_proto::events::ServerEvent;
use longfred_proto::model::Direction;
use longfred_proto::withrottle::parser::parse;
use longfred_proto::withrottle::protocol as p;

#[test]
fn handshake_name() {
    assert_eq!(p::handshake_name("WiFred"), b"NWiFred".to_vec());
}

#[test]
fn handshake_id() {
    assert_eq!(p::handshake_id("1234"), b"HU1234".to_vec());
}

#[test]
fn quit_cmd() {
    assert_eq!(p::quit(), b"Q".to_vec());
}

#[test]
fn heartbeat() {
    assert_eq!(p::heartbeat(), b"*".to_vec());
}

#[test]
fn dead_man_switch_enable() {
    assert_eq!(p::dead_man_switch_enable(true), b"*+".to_vec());
    assert_eq!(p::dead_man_switch_enable(false), b"*-".to_vec());
}

#[test]
fn protocol_speed() {
    assert_eq!(p::set_speed('T', 0), b"MTA*<;>V0".to_vec());
    assert_eq!(p::set_speed('T', 1), b"MTA*<;>V2".to_vec());
    assert_eq!(p::set_speed('T', 63), b"MTA*<;>V63".to_vec());
}

#[test]
fn speed_steps() {
    assert_eq!(p::set_speed_steps('T', 1), b"MTA*<;>s1".to_vec());
}

#[test]
fn direction() {
    assert_eq!(p::set_direction('T', "*", Direction::Reverse), b"MTA*<;>R0".to_vec());
    assert_eq!(p::set_direction('T', "L341", Direction::Forward), b"MTAL341<;>R1".to_vec());
}

#[test]
fn function() {
    assert_eq!(p::set_function('T', "L341", 8, true, false), b"MTAL341<;>F18".to_vec());
    assert_eq!(p::set_function('T', "L341", 8, true, true), b"MTAL341<;>f18".to_vec());
    assert_eq!(p::set_function('0', "*", 1, true, false), b"M0A*<;>F11".to_vec());
    assert_eq!(p::set_function('0', "*", 1, false, false), b"M0A*<;>F01".to_vec());
}

#[test]
fn estop() {
    assert_eq!(p::estop('T', "*"), b"MTA*<;>X".to_vec());
}

#[test]
fn power() {
    assert_eq!(p::track_power(true), b"PPA1".to_vec());
    assert_eq!(p::track_power(false), b"PPA0".to_vec());
}

#[test]
fn add_loco() {
    assert_eq!(p::add_loco('T', "L341", "Big Boy"), b"MT+L341<;>Big Boy".to_vec());
}

#[test]
fn release_loco() {
    assert_eq!(p::release_loco('T', "L341"), b"MT-L341<;>r".to_vec());
}

#[test]
fn steal_loco() {
    assert_eq!(p::steal_loco('T', "L341"), b"MTSL341<;>L341".to_vec());
}

#[test]
fn heartbeat_send_period_is_half_advertised_timeout() {
    assert_eq!(p::heartbeat_send_period_s(10), 5);
    assert_eq!(p::heartbeat_send_period_s(1), 1);
    assert_eq!(p::heartbeat_send_period_s(2), 1);
}

#[test]
fn heartbeat_enable_and_raw_commands() {
    assert_eq!(p::heartbeat_enable(true), b"*+".to_vec());
    assert_eq!(p::send_raw("PPA1"), b"PPA1".to_vec());
}

#[test]
fn speed_and_parse_agree() {
    for s in [0u8, 2, 63, 126] {
        assert_eq!(parse(&p::set_speed('T', s)), vec![ServerEvent::Speed { throttle: 'T', speed: s }]);
    }
    assert_eq!(parse(&p::set_speed('3', 1)), vec![ServerEvent::Speed { throttle: '3', speed: 2 }]);
}
