use longfred_proto::persist::{PersistRecord, RosterMode, StaticRosterEntry, MAX_BIGFRED_LOGIN_LEN, MAX_WIFI_HOSTNAME_LEN};
use longfred_proto::provisioning::{
    apply_settings_put, ApplyError, BigfredPut, RosterEntriesView, RosterEntryPut, RosterModeName, SettingsGet, SettingsPut,
    WifiPut,
};

#[test]
fn deserialize_partial_put() {
    let put = SettingsPut {
        wifi: Some(WifiPut { ssid: Some("Net"), password: Some("pw"), hostname: None }),
        programming_mode: Some(true),
        ..Default::default()
    };
    let mut rec = PersistRecord::default();
    assert!(apply_settings_put(&mut rec, &put).is_ok());
    assert_eq!(rec.find_password("Net"), Some(&b"pw"[..]));
    assert!(rec.programming_mode);
    assert!(rec.static_roster.is_empty());
}

#[test]
fn deserialize_and_apply_roster() {
    let mut put = SettingsPut {
        roster_mode: Some(RosterModeName::Static),
        bigfred: Some(BigfredPut { login: Some("ops"), pin: Some("1234") }),
        ..Default::default()
    };
    put.roster[0] = Some(RosterEntryPut { addr: "S42", name: Some("Switch") });
    put.roster[1] = Some(RosterEntryPut { addr: "L7", name: None });
    let mut rec = PersistRecord::default();
    assert!(apply_settings_put(&mut rec, &put).is_ok());
    assert_eq!(rec.roster_mode, RosterMode::Static);
    assert_eq!(rec.static_roster.len(), 2);
    assert_eq!(rec.static_roster[0].addr.as_slice(), b"S42");
    assert_eq!(rec.static_roster[0].name.as_slice(), b"Switch");
    assert_eq!(rec.static_roster[1].addr.as_slice(), b"L7");
    assert!(rec.static_roster[1].name.is_empty());
    assert_eq!(rec.bigfred_login.as_slice(), b"ops");
    assert_eq!(rec.bigfred_pin.as_slice(), b"1234");
}

#[test]
fn apply_wifi_password() {
    let put = SettingsPut {
        wifi: Some(WifiPut { ssid: Some("Club"), password: Some("x"), hostname: None }),
        ..Default::default()
    };
    let mut rec = PersistRecord::default();
    assert!(apply_settings_put(&mut rec, &put).is_ok());
    assert_eq!(rec.find_password("Club"), Some(&b"x"[..]));
}

#[test]
fn put_missing_fields_noop() {
    let put = SettingsPut::default();
    let mut rec = PersistRecord::default();
    rec.bigfred_login = b"keep".to_vec();
    rec.programming_mode = true;
    let before = rec.clone();
    assert!(apply_settings_put(&mut rec, &put).is_ok());
    assert_eq!(rec.bigfred_login.as_slice(), b"keep");
    assert!(rec.programming_mode);
    assert_eq!(rec, before);
}

#[test]
fn apply_too_long_hostname_returns_typed_error() {
    let long = "x".repeat(MAX_WIFI_HOSTNAME_LEN + 1);
    let put = SettingsPut {
        wifi: Some(WifiPut { ssid: None, password: None, hostname: Some(&long) }),
        ..Default::default()
    };
    let mut rec = PersistRecord::default();
    assert_eq!(apply_settings_put(&mut rec, &put), Err(ApplyError::HostnameTooLong));
}

#[test]
fn apply_too_long_login_returns_typed_error() {
    let long = "x".repeat(MAX_BIGFRED_LOGIN_LEN + 1);
    let put = SettingsPut { bigfred: Some(BigfredPut { login: Some(&long), pin: None }), ..Default::default() };
    let mut rec = PersistRecord::default();
    assert_eq!(apply_settings_put(&mut rec, &put), Err(ApplyError::LoginTooLong));
}

#[test]
fn apply_other_errors_and_partial_updates() {
    let put = SettingsPut { bigfred: Some(BigfredPut { login: Some("ok"), pin: Some("12345678901234567") }), ..Default::default() };
    let mut rec = PersistRecord::default();
    assert_eq!(apply_settings_put(&mut rec, &put), Err(ApplyError::PinTooLong));
    assert_eq!(rec.bigfred_login.as_slice(), b"ok");
    assert!(rec.bigfred_pin.is_empty());

    let mut put = SettingsPut { programming_mode: Some(true), ..Default::default() };
    put.roster[0] = Some(RosterEntryPut { addr: "L1", name: None });
    put.roster[3] = Some(RosterEntryPut { addr: "L123456789", name: None });
    let mut rec = PersistRecord::default();
    assert_eq!(apply_settings_put(&mut rec, &put), Err(ApplyError::RosterAddrTooLong));
    assert!(rec.programming_mode);
    assert_eq!(rec.static_roster.len(), 1);

    let long_name = "n".repeat(33);
    let mut put = SettingsPut::default();
    put.roster[0] = Some(RosterEntryPut { addr: "L1", name: Some(&long_name) });
    let mut rec = PersistRecord::default();
    assert_eq!(apply_settings_put(&mut rec, &put), Err(ApplyError::RosterNameTooLong));
    assert!(rec.static_roster.is_empty());
}

#[test]
fn roster_mode_names_convert_both_ways() {
    assert_eq!(RosterModeName::from(RosterMode::Auto), RosterModeName::Auto);
    assert_eq!(RosterModeName::from(RosterMode::Static), RosterModeName::Static);
    assert_eq!(RosterMode::from(RosterModeName::Static), RosterMode::Static);
    assert_eq!(RosterMode::from(RosterModeName::Auto), RosterMode::Auto);
}

#[test]
fn settings_view_of_populated_record() {
    let mut rec = PersistRecord::default();
    rec.device.name = b"Pilot".to_vec();
    rec.device.id = 4242;
    rec.wifi_hostname = b"longred_abc123".to_vec();
    rec.set_password("Home", "secret");
    rec.bigfred_login = b"bob".to_vec();
    rec.bigfred_pin = b"9999".to_vec();
    rec.programming_mode = true;
    rec.roster_mode = RosterMode::Static;
    rec.static_roster.push(StaticRosterEntry { addr: b"L1".to_vec(), name: b"One".to_vec() });
    rec.static_roster.push(StaticRosterEntry { addr: b"S3".to_vec(), name: Vec::new() });
    let g = SettingsGet::from_record(&rec, "0.1.0");
    assert_eq!(g.device.name, b"Pilot");
    assert_eq!(g.device.id, 4242);
    assert_eq!(g.wifi.hostname, b"longred_abc123");
    assert_eq!(g.wifi.networks.ssids, vec![&b"Home"[..]]);
    assert_eq!(g.wifi.password, b"secret");
    assert_eq!(g.bigfred.login, b"bob");
    assert_eq!(g.bigfred.pin, b"9999");
    assert!(g.bigfred.pin_set);
    assert_eq!(g.roster.mode, RosterModeName::Static);
    assert!(g.programming_mode);
    assert_eq!(g.firmware.version, "0.1.0");
    let entries = g.roster.entries.entry_views();
    assert_eq!(entries.len(), 2);
    assert_eq!(entries[0].addr, b"L1");
    assert_eq!(entries[0].name, Some(&b"One"[..]));
    assert_eq!(entries[1].name, None);
}

#[test]
fn settings_view_of_empty_record() {
    let rec = PersistRecord::default();
    let g = SettingsGet::from_record(&rec, "0.1.0");
    assert!(!g.programming_mode);
    assert_eq!(g.roster.mode, RosterModeName::Auto);
    assert!(!g.bigfred.pin_set);
    assert!(g.wifi.networks.ssids.is_empty());
    assert!(g.wifi.password.is_empty());
    assert!(RosterEntriesView { entries: &rec.static_roster }.entry_views().is_empty());
}
