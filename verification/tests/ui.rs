use longfred_proto::ui::led::{blink_half_period_ms, led_levels, LedEvent, LedLevels, LedMode, LedState};
use longfred_proto::ui::keyboard::{format_grouped_ip, KeyboardAction, KeyboardMode};
use longfred_proto::ui::text_entry::{KeyboardConfig, TextKeyboard};
use longfred_proto::ui::menu::{
    parse_ip_digits, push_ip_digits, push_port_digits, write_ip_line, write_mac, write_u16_padded,
};
use longfred_proto::ui::view::{push_oled, GridView, UiView, LINE_LEN};
use longfred_proto::action::Action;
use longfred_proto::model::Direction;
use longfred_proto::ui::headless_shell::HeadlessShell;
use longfred_proto::ui::input::{InputEvent, NavDir};
use longfred_proto::ui::menu::{Intent, Screen};
use longfred_proto::ui::grid::{build_grid, GridTexts, ListRow, ViewInputs};
use longfred_proto::ui::diag::{diag_lines, BatteryReading, DiagInputs, PingStatus, StationNet, WifiLinkInfo};
use longfred_proto::ui::nav_profile::{active, LongFredNav, MarkwtechNav, NavAction, NavProfile};

#[test]
fn headless_passes_only_drive_events() {
    assert!(HeadlessShell::should_pass(&InputEvent::SpeedAbsolute(5)));
    assert!(HeadlessShell::should_pass(&InputEvent::EStop));
    assert!(HeadlessShell::should_pass(&InputEvent::EnterProgrammingMode));
    assert!(!HeadlessShell::should_pass(&InputEvent::Menu));
    assert!(!HeadlessShell::should_pass(&InputEvent::Nav(NavDir::Up)));
    assert!(!HeadlessShell::should_pass(&InputEvent::Digit('1')));
}

#[test]
fn headless_maps_drive_events_to_intents() {
    let mut shell = HeadlessShell::new();
    assert_eq!(shell.handle(InputEvent::DirectionSet(Direction::Forward)), Intent::Action(Action::DirectionForward));
    assert_eq!(shell.handle(InputEvent::DirectionSet(Direction::Reverse)), Intent::Action(Action::DirectionReverse));
    assert_eq!(shell.handle(InputEvent::DirectionToggle), Intent::Action(Action::DirectionToggle));
    assert_eq!(shell.handle(InputEvent::FnPress(7)), Intent::Function(7));
    assert_eq!(shell.handle(InputEvent::FnRelease(7)), Intent::Idle);
    assert_eq!(shell.handle(InputEvent::Stop), Intent::Action(Action::EStop));
    assert_eq!(shell.handle(InputEvent::LocoSlot(2, true)), Intent::Action(Action::Throttle(2)));
    assert_eq!(shell.handle(InputEvent::LocoSlot(2, false)), Intent::Idle);
    assert_eq!(shell.handle(InputEvent::SpeedAbsolute(40)), Intent::Idle);
    assert_eq!(shell.handle(InputEvent::Menu), Intent::Idle);
}

#[test]
fn longfred_profile_maps_joystick() {
    let p = active();
    assert_eq!(p.map(InputEvent::Nav(NavDir::Up), false), Some(NavAction::ListPrev));
    assert_eq!(p.map(InputEvent::Nav(NavDir::Up), true), Some(NavAction::CharCycle(-1)));
    assert_eq!(p.map(InputEvent::Nav(NavDir::Down), true), Some(NavAction::CharCycle(1)));
    assert_eq!(p.map(InputEvent::Nav(NavDir::Left), true), Some(NavAction::CursorMove(-1)));
    assert_eq!(
        p.map(InputEvent::Nav(NavDir::Right), false),
        Some(NavAction::PassThrough(InputEvent::Nav(NavDir::Right)))
    );
    assert_eq!(p.map(InputEvent::OkButton, false), Some(NavAction::Select));
    assert_eq!(p.map(InputEvent::Back, false), Some(NavAction::Cancel));
    assert_eq!(p.map(InputEvent::Stop, false), Some(NavAction::PassThrough(InputEvent::Stop)));
    assert_eq!(LongFredNav.map(InputEvent::Digit('4'), true), Some(NavAction::Digit('4')));
}

#[test]
fn markwtech_profile_maps_encoder_and_keypad() {
    let p = MarkwtechNav;
    assert_eq!(p.map(InputEvent::EncoderClockwise, false), Some(NavAction::ListNext));
    assert_eq!(p.map(InputEvent::EncoderCounterClockwise, true), Some(NavAction::CharCycle(-1)));
    assert_eq!(p.map(InputEvent::Digit('#'), false), Some(NavAction::Select));
    assert_eq!(p.map(InputEvent::Digit('*'), true), Some(NavAction::Cancel));
    assert_eq!(p.map(InputEvent::Digit('*'), false), Some(NavAction::MenuEnter));
    assert_eq!(p.map(InputEvent::Digit('7'), false), Some(NavAction::Digit('7')));
    assert_eq!(p.map(InputEvent::Back, false), Some(NavAction::Select));
    assert_eq!(p.map(InputEvent::EStop, false), Some(NavAction::PassThrough(InputEvent::EStop)));
}

#[test]
fn push_oled_folds_and_truncates() {
    let mut line = Vec::new();
    push_oled(&mut line, "Łódź ✓");
    assert_eq!(line.as_slice(), b"Lodz ?");
    let mut line = Vec::new();
    push_oled(&mut line, "0123456789abcdefghijKLMNOP");
    assert_eq!(line.len(), LINE_LEN);
    assert_eq!(line.as_slice(), b"0123456789abcdefghijK");
    push_oled(&mut line, "more");
    assert_eq!(line.len(), LINE_LEN);
}

#[test]
fn grid_set_extends_and_replaces() {
    let mut g = GridView::new();
    g.set(2, "Zażółć", true);
    assert_eq!(g.lines.len(), 3);
    assert_eq!(g.invert, vec![false, false, true]);
    assert_eq!(g.lines[2].as_slice(), b"Zazolc");
    g.set(0, "x", false);
    assert_eq!(g.lines[0].as_slice(), b"x");
    g.set(12, "ignored", true);
    assert_eq!(g.lines.len(), 3);
    assert!(matches!(UiView::default(), UiView::Grid(v) if v.lines.is_empty() && v.foot_line));
}

#[test]
fn ip_editor_digits_roundtrip() {
    let mut buf = Vec::new();
    push_ip_digits(&mut buf, [192, 168, 4, 1]);
    assert_eq!(buf.as_slice(), b"192168004001");
    let s = core::str::from_utf8(&buf).unwrap();
    assert_eq!(parse_ip_digits(s), Some([192, 168, 4, 1]));
    assert_eq!(parse_ip_digits("19216800400"), None);
    assert_eq!(parse_ip_digits("256168004001"), None);
}

#[test]
fn led_presenter_blinks_by_mode() {
    let mut s = LedState::new(0);
    assert_eq!(s.step(LedEvent::Tick, 499), LedLevels { stop: false, forward: false, reverse: false });
    assert_eq!(s.step(LedEvent::Tick, 500), LedLevels { stop: true, forward: false, reverse: false });
    assert_eq!(s.step(LedEvent::ModeChanged(LedMode::Pairing), 600), LedLevels { stop: false, forward: false, reverse: true });
    assert_eq!(s.step(LedEvent::Tick, 850), LedLevels { stop: false, forward: true, reverse: false });
    assert_eq!(s.step(LedEvent::ModeChanged(LedMode::DriveReverse), 900), LedLevels { stop: false, forward: false, reverse: true });
    assert_eq!(s.step(LedEvent::ModeChanged(LedMode::EStop), 1000), LedLevels { stop: true, forward: false, reverse: false });
    assert_eq!(s.step(LedEvent::Tick, 1250), LedLevels { stop: true, forward: true, reverse: false });
    assert_eq!(blink_half_period_ms(LedMode::DriveForward), 1000);
    assert_eq!(led_levels(LedMode::Disconnect, true), LedLevels { stop: true, forward: false, reverse: false });
}

#[test]
fn grouped_ip_shows_slot_after_digits() {
    assert_eq!(format_grouped_ip("192168001", 9, '_', false), b"192.168.001._".to_vec());
    assert_eq!(format_grouped_ip("192168001010", 12, '_', false), b"192.168.001.010_".to_vec());
    assert_eq!(format_grouped_ip("", 0, '_', false), b"_".to_vec());
    assert_eq!(format_grouped_ip("1921", 10, '_', false), b"192.1_".to_vec());
}

#[test]
fn grouped_ip_inserts_slot_at_cursor() {
    assert_eq!(format_grouped_ip("192168001010", 3, '_', false), b"192._16.800.1010".to_vec());
}

#[test]
fn grouped_ip_with_port_is_windowed_around_the_slot() {
    assert_eq!(
        format_grouped_ip("19216800101008080", 17, '_', true),
        b"92.168.001.010:08080_".to_vec()
    );
    assert_eq!(
        format_grouped_ip("19216800101008080", 2, '5', true),
        b"195.216.800.101:00808".to_vec()
    );
}

#[test]
fn menu_line_writers() {
    let mut line: Vec<u8> = Vec::new();
    write_mac(&mut line, [0x24, 0x0a, 0xc4, 0xff, 0x00, 0x9b]);
    assert_eq!(line, b"24:0a:c4:ff:00:9b".to_vec());
    write_mac(&mut line, [1, 2, 3, 4, 5, 6]);
    assert_eq!(line, b"24:0a:c4:ff:00:9b01:0".to_vec());
    assert_eq!(line.len(), LINE_LEN);

    let mut ip: Vec<u8> = Vec::new();
    write_ip_line(&mut ip, [192, 168, 4, 1]);
    assert_eq!(ip, b"192.168.004.001".to_vec());

    let mut n: Vec<u8> = b"ID ".to_vec();
    assert_eq!(write_u16_padded(&mut n, 42), Ok(()));
    assert_eq!(n, b"ID 0042".to_vec());
    let mut big: Vec<u8> = Vec::new();
    assert_eq!(write_u16_padded(&mut big, 65535), Ok(()));
    assert_eq!(big, b"5535".to_vec());

    let mut net: Vec<u8> = b"192168004001".to_vec();
    push_port_digits(&mut net, 12090);
    assert_eq!(net, b"19216800400112090".to_vec());
    push_port_digits(&mut net, 1);
    assert_eq!(net.len(), 17);
}

fn menu_at(screen: longfred_proto::ui::menu::Screen) -> longfred_proto::ui::menu_fsm::MenuFsm {
    longfred_proto::ui::menu_fsm::MenuFsm {
        screen,
        list: longfred_proto::ui::menu_fsm::ListPos { page: 0, cursor: 0 },
        fn_page: 0,
        list_num: Vec::new(),
        selected_from_scan: false,
        server_entry_from_list: false,
        boot_language: false,
    }
}

fn list_inputs(count: usize, prev: usize, next: bool) -> longfred_proto::ui::menu_fsm::ListInputs {
    longfred_proto::ui::menu_fsm::ListInputs {
        count,
        prev_page_count: prev,
        has_next_page: next,
        roster_spans_pages: false,
        choice_step: longfred_proto::ui::menu_fsm::ListPos { page: 7, cursor: 3 },
    }
}

#[test]
fn menu_back_leads_to_parent_screens() {
    let mut m = menu_at(Screen::Extras);
    m.list.page = 2;
    m.list.cursor = 1;
    assert_eq!(m.on_back(false), Intent::Idle);
    assert_eq!(m.screen, Screen::Menu);
    assert_eq!((m.list.page, m.list.cursor), (0, 0));
    assert_eq!(m.on_back(false), Intent::Idle);
    assert_eq!(m.screen, Screen::Throttle);

    let mut fw = menu_at(Screen::FirmwareUpdate);
    assert_eq!(fw.on_back(false), Intent::SetHttpOta(false));
    assert_eq!(fw.screen, Screen::Extras);

    let mut typed = menu_at(Screen::Menu);
    typed.list_num = b"12".to_vec();
    assert_eq!(typed.on_back(false), Intent::Idle);
    assert!(typed.list_num.is_empty());
    assert_eq!(typed.screen, Screen::Menu);

    let mut scan = menu_at(Screen::SsidScan);
    scan.on_back(true);
    assert_eq!(scan.screen, Screen::SsidScan);
    scan.on_back(false);
    assert_eq!(scan.screen, Screen::SsidList);

    let mut entry = menu_at(Screen::ServerEntry);
    entry.server_entry_from_list = true;
    entry.on_back(false);
    assert_eq!(entry.screen, Screen::ServerList);
    assert!(!entry.server_entry_from_list);
    entry.screen = Screen::ServerEntry;
    entry.on_back(false);
    assert_eq!(entry.screen, Screen::ServerProto);

    let mut lang = menu_at(Screen::Language);
    lang.boot_language = true;
    lang.on_back(false);
    assert_eq!(lang.screen, Screen::Language);

    let mut pw = menu_at(Screen::Password);
    pw.selected_from_scan = true;
    pw.on_back(false);
    assert_eq!(pw.screen, Screen::SsidScan);
}

#[test]
fn menu_extras_entries() {
    let mut m = menu_at(Screen::Extras);
    m.list.cursor = 2;
    assert_eq!(m.ok_extras(0), Intent::HashFunctionsToggle);
    assert_eq!(m.screen, Screen::Throttle);
    let mut m = menu_at(Screen::Extras);
    m.list.cursor = 1;
    assert_eq!(m.ok_extras(3), Intent::Action(Action::MaxThrottleIncrease));
    let mut m = menu_at(Screen::Extras);
    m.list.page = 2;
    m.list.cursor = 4;
    assert_eq!(m.ok_extras(6), Intent::Idle);
    assert_eq!(m.screen, Screen::Diagnostics);
    assert_eq!(m.list.page, 0);
    let mut m = menu_at(Screen::Extras);
    assert_eq!(m.ok_extras(11), Intent::Idle);
    assert_eq!(m.screen, Screen::Extras);
}

#[test]
fn menu_list_navigation_wraps_and_pages() {
    let mut m = menu_at(Screen::RosterList);
    m.list_nav(NavDir::Up, &list_inputs(4, 0, false));
    assert_eq!(m.list.cursor, 3);
    m.list_nav(NavDir::Down, &list_inputs(4, 0, true));
    assert_eq!((m.list.page, m.list.cursor), (1, 0));
    m.list_nav(NavDir::Up, &list_inputs(2, 5, false));
    assert_eq!((m.list.page, m.list.cursor), (0, 4));
    m.list_nav(NavDir::Left, &list_inputs(5, 0, true));
    assert_eq!((m.list.page, m.list.cursor), (0, 4));
    m.list_nav(NavDir::Right, &list_inputs(5, 0, true));
    assert_eq!((m.list.page, m.list.cursor), (1, 0));

    let mut f = menu_at(Screen::FunctionList);
    f.list_nav(NavDir::Down, &list_inputs(1, 0, true));
    assert_eq!((f.fn_page, f.list.page, f.list.cursor), (1, 1, 0));
    f.list_nav(NavDir::Up, &list_inputs(1, 6, true));
    assert_eq!((f.fn_page, f.list.page, f.list.cursor), (0, 0, 5));

    let mut c = menu_at(Screen::Menu);
    c.list_nav(NavDir::Down, &list_inputs(0, 0, false));
    assert_eq!((c.list.page, c.list.cursor), (7, 3));
    let mut e = menu_at(Screen::Extras);
    e.list_nav(NavDir::Down, &list_inputs(0, 0, false));
    assert_eq!((e.list.page, e.list.cursor), (0, 0));
}

fn diag_inputs() -> longfred_proto::ui::diag::DiagInputs {
    DiagInputs {
        na: b"n/a".to_vec(),
        timeout_text: b"timeout".to_vec(),
        battery: Some(BatteryReading { percent: 87, millivolts: 4012, raw: 2301 }),
        factor_text: b"2.0".to_vec(),
        app_name: b"LongFred".to_vec(),
        fw_version: b"0.3.1".to_vec(),
        board_id: b"longfred".to_vec(),
        board_mcu: b"ESP32-C6".to_vec(),
        protocol: Some(longfred_proto::command::Protocol::Z21),
        wifi: Some(WifiLinkInfo { rssi: -61, channel: 6, ssid: b"layout".to_vec(), bssid: [0xaa, 0xbb, 0xcc, 0x01, 0x02, 0x03] }),
        station: Some(StationNet { ip: [192, 168, 4, 20], prefix: 24, gateway: None, mac: [0x24, 0x0a, 0xc4, 0, 0, 1] }),
        endpoint: Some(([192, 168, 4, 1], 12090)),
        ping: PingStatus::Ms(14),
    }
}

#[test]
fn diagnostics_pages() {
    let d = diag_inputs();
    assert_eq!(
        diag_lines(0, &d),
        vec![b"87%".to_vec(), b"4012 mV".to_vec(), b"ADC 2301".to_vec(), b"factor 2.0".to_vec(), b"3.2-4.2 V".to_vec()]
    );
    assert_eq!(diag_lines(1, &d), vec![b"LongFred".to_vec(), b"0.3.1".to_vec()]);
    assert_eq!(diag_lines(2, &d), vec![b"longfred".to_vec(), b"ESP32-C6".to_vec(), b"Z21".to_vec()]);
    assert_eq!(diag_lines(3, &d), vec![b"RSSI -61 dB".to_vec(), b"ch 6".to_vec()]);
    assert_eq!(
        diag_lines(4, &d),
        vec![
            b"layout".to_vec(),
            b"192.168.004.020/24".to_vec(),
            b"n/a".to_vec(),
            b"STA 24:0a:c4:00:00:01".to_vec(),
            b"AP aa:bb:cc:01:02:03".to_vec(),
        ]
    );
    assert_eq!(diag_lines(5, &d), vec![b"192.168.004.001:12090".to_vec(), b"14 ms".to_vec()]);
    let mut off = diag_inputs();
    off.battery = None;
    off.wifi = None;
    off.station = None;
    off.endpoint = None;
    off.protocol = None;
    off.ping = PingStatus::Timeout;
    assert_eq!(diag_lines(0, &off)[0], b"n/a".to_vec());
    assert_eq!(diag_lines(2, &off)[2], b"n/a".to_vec());
    assert_eq!(diag_lines(3, &off), vec![b"n/a".to_vec()]);
    assert_eq!(diag_lines(4, &off), vec![b"n/a".to_vec(), b"n/a".to_vec(), b"AP n/a".to_vec()]);
    assert_eq!(diag_lines(9, &off), vec![b"n/a".to_vec(), b"timeout".to_vec()]);
}

fn grid_texts() -> GridTexts<'static> {
    GridTexts {
        app_name: "LongFred",
        fw_version: "0.3.1",
        msg_booting: "booting...",
        msg_scanning_wifi: "msg_scanning_wifi",
        hint_scanning_wifi: "hint_scanning_wifi",
        msg_enter_password: "msg_enter_password",
        hint_enter_password: "hint_enter_password",
        msg_select_proto: "Protocol",
        proto_wit: "WiThrottle",
        proto_z21: "Z21",
        hint_proto: "OK pick",
        msg_enter_server_ip: "msg_enter_server_ip",
        hint_wit_entry: "hint_wit_entry",
        msg_trying_connect: "msg_trying_connect",
        msg_wifi_fail_1: "msg_wifi_fail_1",
        msg_wifi_fail_2: "msg_wifi_fail_2",
        hint_wifi_fail: "hint_wifi_fail",
        menu_extras: "Extras",
        msg_fw_update: "msg_fw_update",
        msg_fw_no_ip: "msg_fw_no_ip",
        msg_fw_http_on: "msg_fw_http_on",
        msg_fw_http_off: "msg_fw_http_off",
        msg_fw_updating: "msg_fw_updating",
        hint_fw_update: "hint_fw_update",
        msg_net_config: "Network",
        msg_net_static: "static",
        msg_net_dhcp: "DHCP",
        hint_net_config: "OK edit",
        hint_net_edit: "hint_net_edit",
        msg_device: "Device",
        msg_device_name: "name",
        msg_device_id: "ID",
        device_name_id: "Name / ID",
        device_new_id: "New ID",
        hint_device: "OK select",
        msg_device_name_edit: "msg_device_name_edit",
        hint_device_name_edit: "hint_device_name_edit",
        msg_device_id_edit: "msg_device_id_edit",
        hint_device_id_edit: "hint_device_id_edit",
        menu_locos: "menu_locos",
        menu_fn: "menu_fn",
        diag_battery: "diag_battery",
        diag_version: "diag_version",
        diag_software: "diag_software",
        diag_range: "diag_range",
        diag_wifi: "Wi-Fi",
        diag_ping: "diag_ping",
    }
}

fn view_inputs<'a>(rows: Vec<ListRow<'a>>) -> ViewInputs<'a> {
    ViewInputs {
        texts: grid_texts(),
        has_keypad: true,
        kbd_uppercase: true,
        password_preview: "secr_",
        ip_formatted: "192.168._",
        selected_ssid: "layout",
        sta_ipv4: Some([192, 168, 4, 20]),
        http_ota: false,
        http_ota_busy: false,
        network: None,
        device_name: "Łódź",
        device_id: 1234,
        list_rows: rows,
        broadcast: None,
    }
}

fn line_text(g: &GridView, i: usize) -> Vec<u8> {
    g.lines[i].clone()
}

#[test]
fn grid_shows_fixed_screens() {
    let mut m = menu_at(Screen::Splash);
    let g = build_grid(&m, &view_inputs(Vec::new()));
    assert_eq!(line_text(&g, 0), b"LongFred".to_vec());
    assert_eq!(line_text(&g, 1), b"0.3.1".to_vec());
    assert_eq!(line_text(&g, 5), b"booting...".to_vec());
    assert!(g.foot_line);
    assert_eq!(g.caps, None);

    m.screen = Screen::Device;
    m.list.cursor = 2;
    let g = build_grid(&m, &view_inputs(Vec::new()));
    assert_eq!(line_text(&g, 1), b"name Lodz".to_vec());
    assert_eq!(line_text(&g, 2), b"ID 1234".to_vec());
    assert_eq!(g.invert, vec![false, false, false, false, true, false]);

    let mut low = view_inputs(Vec::new());
    low.device_id = 7;
    let g = build_grid(&m, &low);
    assert_eq!(line_text(&g, 2), b"ID ----".to_vec());

    m.screen = Screen::IpConfig;
    let mut net = view_inputs(Vec::new());
    let g = build_grid(&m, &net);
    assert_eq!(line_text(&g, 1), b"DHCP".to_vec());
    net.network = Some(longfred_proto::persist::StaticIpConfig {
        dhcp: false, ip: [10, 0, 0, 7], prefix_len: 24, gateway: None, dns: None,
    });
    let g = build_grid(&m, &net);
    assert_eq!(line_text(&g, 1), b"static 010.000.000.007".to_vec()[..21].to_vec());

    m.screen = Screen::Password;
    let g = build_grid(&m, &view_inputs(Vec::new()));
    assert_eq!(g.caps, Some(true));
    assert_eq!(line_text(&g, 2), b"secr_".to_vec());

    m.screen = Screen::ServerProto;
    m.list.cursor = 1;
    let g = build_grid(&m, &view_inputs(Vec::new()));
    assert_eq!(g.invert, vec![false, false, true, false, false, false]);
}

#[test]
fn grid_places_list_rows_and_overlays() {
    let mut m = menu_at(Screen::Extras);
    let rows = vec![
        ListRow { idx: 1, text: "1 Network", invert: true },
        ListRow { idx: 2, text: "2 Device", invert: false },
    ];
    let mut c = view_inputs(rows);
    c.broadcast = Some("power off");
    let g = build_grid(&m, &c);
    assert_eq!(line_text(&g, 0), b"Extras".to_vec());
    assert_eq!(line_text(&g, 1), b"1 Network".to_vec());
    assert_eq!(line_text(&g, 2), b"2 Device".to_vec());
    assert_eq!(line_text(&g, 5), b"power off".to_vec());
    assert_eq!(g.invert[1], true);

    m.list_num = b"12".to_vec();
    let g = build_grid(&m, &view_inputs(Vec::new()));
    assert_eq!(line_text(&g, 0), b"12".to_vec());

    let mut d = menu_at(Screen::Diagnostics);
    d.list.page = 4;
    let g = build_grid(&d, &view_inputs(vec![ListRow { idx: 1, text: "layout", invert: false }]));
    assert!(!g.foot_line);
    assert_eq!(line_text(&g, 0), b"Wi-Fi".to_vec());
    assert_eq!(line_text(&g, 1), b"layout".to_vec());

    let t = menu_at(Screen::Throttle);
    let g = build_grid(&t, &view_inputs(vec![ListRow { idx: 1, text: "x", invert: false }]));
    assert!(g.lines.is_empty());
}

#[test]
fn menu_entries_and_menu_key() {
    let mut fw = menu_at(Screen::FirmwareUpdate);
    fw.list_num = b"3".to_vec();
    fw.list.cursor = 4;
    assert_eq!(fw.on_menu_key(), Intent::SetHttpOta(false));
    assert_eq!(fw.screen, Screen::Menu);
    assert!(fw.list_num.is_empty());
    assert_eq!((fw.list.page, fw.list.cursor), (0, 0));
    assert_eq!(menu_at(Screen::Throttle).on_menu_key(), Intent::Idle);

    let mut m = menu_at(Screen::Menu);
    m.fn_page = 3;
    assert_eq!(m.ok_menu(0), Intent::Idle);
    assert_eq!((m.screen, m.fn_page), (Screen::FunctionList, 0));
    let mut m = menu_at(Screen::Menu);
    assert_eq!(m.ok_menu(3), Intent::Action(Action::PowerToggle));
    assert_eq!(m.screen, Screen::Throttle);

    let mut d = menu_at(Screen::DirectCommands);
    assert_eq!(d.ok_direct(4), Intent::Action(Action::EStop));
    assert_eq!(d.screen, Screen::DirectCommands);
    assert_eq!(d.ok_direct(5), Intent::Idle);
    assert_eq!(d.screen, Screen::Throttle);

    let mut l = menu_at(Screen::Language);
    l.boot_language = true;
    assert_eq!(l.ok_language(1), Intent::SetLanguage(longfred_proto::persist::Language::Pl));
    assert!(!l.boot_language);
    assert_eq!(l.screen, Screen::Language);
    assert_eq!(l.ok_language(2), Intent::SetLanguage(longfred_proto::persist::Language::De));
    assert_eq!(l.screen, Screen::Extras);
    assert_eq!(l.ok_language(3), Intent::Idle);

    let mut f = menu_at(Screen::FunctionList);
    f.list.cursor = 4;
    assert_eq!(f.ok_fn_list(10), Intent::Function(14));
    assert_eq!(f.ok_fn_list(30), Intent::Function(31));
}

fn kbd_config() -> KeyboardConfig {
    KeyboardConfig {
        text_charset: vec!['a', 'b', 'c'],
        digit_charset: "0123456789".chars().collect(),
        multitap: vec![vec![' ', '0'], vec!['1'], vec!['a', 'b', 'c', '2']],
        idle_commit_ms: 1000,
    }
}

#[test]
fn text_entry_multitap_and_idle_commit() {
    let cfg = kbd_config();
    let mut k: TextKeyboard<8> = TextKeyboard::new(KeyboardMode::Text);
    assert_eq!(k.key_press(2, &cfg, 0), KeyboardAction::Changed);
    assert_eq!(k.pending(), Some('a'));
    assert_eq!(k.key_press(2, &cfg, 100), KeyboardAction::Changed);
    assert_eq!(k.pending(), Some('b'));
    k.tick(500, &cfg);
    assert_eq!(k.pending(), Some('b'));
    k.tick(1200, &cfg);
    assert_eq!(k.pending(), None);
    assert_eq!(k.buffer, vec!['b']);
    assert_eq!(k.cursor(), 1);
    assert_eq!(k.key_press(1, &cfg, 1300), KeyboardAction::Committed);
    assert_eq!(k.buffer, vec!['b', '1']);
    assert_eq!(k.case_toggle(), KeyboardAction::Changed);
    assert_eq!(k.key_press(2, &cfg, 1400), KeyboardAction::Changed);
    assert_eq!(k.slot_char(), 'A');
    assert_eq!(k.preview(), b"b1A".to_vec());
    assert_eq!(k.value_preview(), vec!['b', '1', 'A']);
    assert_eq!(k.nav_left(), KeyboardAction::CancelPending);
    assert_eq!(k.nav_left(), KeyboardAction::Backspace);
    assert_eq!(k.buffer, vec!['b']);
    assert_eq!(k.key_press(12, &cfg, 1500), KeyboardAction::Unchanged);
}

#[test]
fn text_entry_cycle_and_commit() {
    let cfg = kbd_config();
    let mut k: TextKeyboard<8> = TextKeyboard::new(KeyboardMode::Text);
    assert_eq!(k.char_cycle(1, &cfg, 0), KeyboardAction::Changed);
    assert_eq!(k.pending(), Some('b'));
    assert_eq!(k.char_cycle(-2, &cfg, 10), KeyboardAction::Changed);
    assert_eq!(k.pending(), Some('c'));
    assert_eq!(k.char_cycle(0, &cfg, 20), KeyboardAction::Unchanged);
    assert_eq!(k.ok(), KeyboardAction::Committed);
    assert_eq!(k.buffer, vec!['c']);
    assert_eq!(k.ok(), KeyboardAction::Unchanged);
    assert_eq!(k.nav_down(&cfg, 30), KeyboardAction::Changed);
    assert_eq!(k.nav_right(), KeyboardAction::Committed);
    assert_eq!(k.buffer.len(), 2);
    assert_eq!(k.nav_right(), KeyboardAction::Unchanged);
}

#[test]
fn text_entry_digits_load_and_limits() {
    let mut d: TextKeyboard<4> = TextKeyboard::new(KeyboardMode::Digits);
    for key in [5u8, 6, 7, 8] {
        assert_eq!(d.fn_press(key), KeyboardAction::Committed);
    }
    assert_eq!(d.buffer, vec!['5', '6', '7', '8']);
    assert_eq!(d.fn_press(9), KeyboardAction::Unchanged);
    assert_eq!(d.fn_press(10), KeyboardAction::Unchanged);

    let mut t: TextKeyboard<8> = TextKeyboard::new(KeyboardMode::Text);
    t.load("hello world");
    assert_eq!(t.buffer.iter().collect::<String>(), "hello wo");
    assert_eq!(t.cursor(), 8);
    t.set_max_len(3);
    t.load("abcdef");
    assert_eq!(t.buffer.iter().collect::<String>(), "abc");
    t.set_max_len(20);
    t.load("żółw");
    assert_eq!(t.cursor(), 7);
    assert_eq!(t.preview(), b"zolw_".to_vec());
    assert_eq!(t.nav_left(), KeyboardAction::Backspace);
    assert_eq!(t.cursor(), 6);
    t.clear();
    assert!(t.buffer.is_empty());
    assert_eq!(t.fn_press(3), KeyboardAction::Unchanged);
}
