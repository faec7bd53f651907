use longfred_proto::menu::{finish_menu, parse_ip_endpoint, step_pw_char, MenuFinish, PW_BLANK_CHAR};

#[test]
fn menu_acquire_addr() {
    let f = finish_menu("1222");
    assert!(matches!(f, MenuFinish::AcquireAddr(ref a) if a.as_slice() == b"222"));
}

#[test]
fn menu_roster_list() {
    assert_eq!(finish_menu("1"), MenuFinish::RosterList);
}

#[test]
fn menu_turnout_list_throw() {
    assert_eq!(finish_menu("5"), MenuFinish::TurnoutList { throw: true });
}

#[test]
fn menu_other_commands() {
    assert_eq!(finish_menu(""), MenuFinish::Nothing);
    assert_eq!(finish_menu("0"), MenuFinish::FunctionList);
    assert_eq!(finish_menu("012"), MenuFinish::FunctionPress(12));
    assert_eq!(finish_menu("0x"), MenuFinish::Nothing);
    assert_eq!(finish_menu("2"), MenuFinish::ReleaseAll);
    assert_eq!(finish_menu("3"), MenuFinish::DirectionToggle);
    assert_eq!(finish_menu("4"), MenuFinish::SpeedMultiplier);
    assert_eq!(finish_menu("6"), MenuFinish::TurnoutList { throw: false });
    assert_eq!(finish_menu("512"), MenuFinish::TurnoutThrowAddr(b"12".to_vec()));
    assert_eq!(finish_menu("634"), MenuFinish::TurnoutCloseAddr(b"34".to_vec()));
    assert_eq!(finish_menu("7"), MenuFinish::RouteList);
    assert_eq!(finish_menu("79"), MenuFinish::RouteAddr(b"9".to_vec()));
    assert_eq!(finish_menu("8"), MenuFinish::PowerToggle);
    assert_eq!(finish_menu("9"), MenuFinish::Nothing);
}

#[test]
fn ip_endpoint() {
    let (ip, port) = parse_ip_endpoint("19216800400102560").unwrap();
    assert_eq!(ip, [192, 168, 4, 1]);
    assert_eq!(port, 2560);
}

#[test]
fn ip_endpoint_rejects_bad_input() {
    assert_eq!(parse_ip_endpoint("1921680040010256"), None);
    assert_eq!(parse_ip_endpoint("25616800400102560"), None);
    assert_eq!(parse_ip_endpoint("19216800400199999"), None);
    assert_eq!(parse_ip_endpoint("1921680040010256x"), None);
}

#[test]
fn pw_char_step() {
    assert_eq!(step_pw_char(PW_BLANK_CHAR, true), b'B');
    assert_eq!(step_pw_char(b'A', false), b'B');
}

#[test]
fn pw_char_step_wraps_and_undoes() {
    assert_eq!(step_pw_char(PW_BLANK_CHAR, false), b'@');
    assert_eq!(step_pw_char(32, true), 126);
    assert_eq!(step_pw_char(126, false), 32);
    for c in 32u8..=126 {
        assert_eq!(step_pw_char(step_pw_char(c, true), false), c);
        assert_eq!(step_pw_char(step_pw_char(c, false), true), c);
    }
}
