//! HTTP provisioning settings: the views a GET `/settings` body is built from, and how a
//! decoded PUT body changes the persisted record.
//!
//! JSON encoding and decoding of these shapes is done by the firmware's serde layer.

use crate::persist::{
    MAX_BIGFRED_LOGIN_LEN, MAX_BIGFRED_PIN_LEN, MAX_CREDENTIALS, MAX_LOCO_ADDR_LEN,
    MAX_SAVED_LOCOS, MAX_STATIC_ROSTER_NAME_LEN, MAX_WIFI_HOSTNAME_LEN, PersistRecord,
    RecordModel, RosterMode, StaticRosterEntry, set_password_spec,
};
use vstd::prelude::*;
use vstd::string::StringSliceAdditionalSpecFns;

verus! {

/// Device identity in a GET settings response.
#[derive(Clone, Copy, Debug)]
pub struct DeviceView<'a> {
    pub name: &'a [u8],
    pub id: u16,
}

/// Saved network SSIDs, in the order they were saved.
#[derive(Clone, Debug)]
pub struct NetworksView<'a> {
    pub ssids: Vec<&'a [u8]>,
}

/// Wi-Fi related fields in a GET settings response.
#[derive(Clone, Debug)]
pub struct WifiView<'a> {
    pub hostname: &'a [u8],
    pub networks: NetworksView<'a>,
    /// Password of the most recently saved network (empty when none is saved).
    pub password: &'a [u8],
}

/// BigFred credentials in a GET settings response.
#[derive(Clone, Copy, Debug)]
pub struct BigfredView<'a> {
    pub login: &'a [u8],
    pub pin: &'a [u8],
    pub pin_set: bool,
}

/// One static roster entry for GET; an empty name is left out.
#[derive(Clone, Copy, Debug)]
pub struct RosterEntryView<'a> {
    pub addr: &'a [u8],
    pub name: Option<&'a [u8]>,
}

/// Wire name of a [`RosterMode`].
#[derive(Clone, Copy, Debug, PartialEq, Eq, Structural)]
pub enum RosterModeName {
    Auto,
    Static,
}

/// Roster entries of a GET settings response.
#[derive(Clone, Copy, Debug)]
pub struct RosterEntriesView<'a> {
    pub entries: &'a [StaticRosterEntry],
}

/// Roster section for GET.
#[derive(Clone, Copy, Debug)]
pub struct RosterView<'a> {
    pub mode: RosterModeName,
    pub entries: RosterEntriesView<'a>,
}

/// Firmware identity in a GET settings response.
#[derive(Clone, Copy, Debug)]
pub struct FirmwareView<'a> {
    pub version: &'a str,
}

/// Full GET `/settings` body, borrowing from a [`PersistRecord`].
#[derive(Clone, Debug)]
pub struct SettingsGet<'a> {
    pub device: DeviceView<'a>,
    pub wifi: WifiView<'a>,
    pub bigfred: BigfredView<'a>,
    pub roster: RosterView<'a>,
    pub programming_mode: bool,
    pub firmware: FirmwareView<'a>,
}

pub open spec fn mode_name(m: RosterMode) -> RosterModeName {
    match m {
        RosterMode::Auto => RosterModeName::Auto,
        RosterMode::Static => RosterModeName::Static,
    }
}

pub open spec fn mode_of_name(m: RosterModeName) -> RosterMode {
    match m {
        RosterModeName::Auto => RosterMode::Auto,
        RosterModeName::Static => RosterMode::Static,
    }
}

impl From<RosterMode> for RosterModeName {
    fn from(m: RosterMode) -> (r: Self) {
        match m {
            RosterMode::Auto => RosterModeName::Auto,
            RosterMode::Static => RosterModeName::Static,
        }
    }
}

impl vstd::std_specs::convert::FromSpecImpl<RosterMode> for RosterModeName {
    open spec fn obeys_from_spec() -> bool {
        true
    }

    open spec fn from_spec(m: RosterMode) -> RosterModeName {
        mode_name(m)
    }
}

impl From<RosterModeName> for RosterMode {
    fn from(m: RosterModeName) -> (r: Self) {
        match m {
            RosterModeName::Auto => RosterMode::Auto,
            RosterModeName::Static => RosterMode::Static,
        }
    }
}

impl vstd::std_specs::convert::FromSpecImpl<RosterModeName> for RosterMode {
    open spec fn obeys_from_spec() -> bool {
        true
    }

    open spec fn from_spec(m: RosterModeName) -> RosterMode {
        mode_of_name(m)
    }
}

pub open spec fn entry_view_spec(e: (Seq<u8>, Seq<u8>)) -> (Seq<u8>, Option<Seq<u8>>) {
    (e.0, if e.1.len() == 0 { None } else { Some(e.1) })
}

pub open spec fn entry_view_model(v: RosterEntryView) -> (Seq<u8>, Option<Seq<u8>>) {
    (v.addr@, match v.name {
        Some(n) => Some(n@),
        None => None,
    })
}

impl<'a> RosterEntriesView<'a> {
    /// The entries as written in a GET body: the address, and the name unless it is empty.
    pub fn entry_views(&self) -> (r: Vec<RosterEntryView<'a>>)
        ensures
            r@.map_values(|v: RosterEntryView| entry_view_model(v)) == self.entries@.map_values(
                |e: StaticRosterEntry| entry_view_spec(e@),
            ),
    {
        let mut out: Vec<RosterEntryView<'a>> = Vec::new();
        let mut i: usize = 0;
        while i < self.entries.len()
            invariant
                i <= self.entries@.len(),
                out@.map_values(|v: RosterEntryView| entry_view_model(v)) == self.entries@.take(
                    i as int,
                ).map_values(|e: StaticRosterEntry| entry_view_spec(e@)),
            decreases self.entries@.len() - i,
        {
            let e: &'a StaticRosterEntry = &self.entries[i];
            let name: Option<&'a [u8]> = if e.name.len() == 0 {
                None
            } else {
                Some(e.name.as_slice())
            };
            let v = RosterEntryView { addr: e.addr.as_slice(), name };
            let ghost before = out@;
            out.push(v);
            assert(out@.map_values(|v: RosterEntryView| entry_view_model(v)) =~= before.map_values(
                |v: RosterEntryView| entry_view_model(v),
            ).push(entry_view_model(v)));
            assert(self.entries@.take(i + 1).map_values(|e: StaticRosterEntry| entry_view_spec(e@))
                =~= self.entries@.take(i as int).map_values(
                |e: StaticRosterEntry| entry_view_spec(e@),
            ).push(entry_view_spec(e@)));
            i = i + 1;
        }
        assert(self.entries@.take(i as int) =~= self.entries@);
        out
    }
}

/// Password shown for the Wi-Fi section: the most recently saved network's.
pub open spec fn shown_password(m: RecordModel) -> Seq<u8> {
    if m.credentials.len() > 0 {
        m.credentials.last().1
    } else {
        Seq::empty()
    }
}

/// SSIDs shown for the Wi-Fi section: those of the saved networks, at most
/// [`MAX_CREDENTIALS`].
pub open spec fn shown_ssids(m: RecordModel) -> Seq<Seq<u8>> {
    let n = if m.credentials.len() < MAX_CREDENTIALS { m.credentials.len() as int } else { MAX_CREDENTIALS as int };
    m.credentials.take(n).map_values(|c: (Seq<u8>, Seq<u8>)| c.0)
}

pub open spec fn slices_view(v: Seq<&[u8]>) -> Seq<Seq<u8>> {
    v.map_values(|s: &[u8]| s@)
}

impl<'a> SettingsGet<'a> {
    /// The GET `/settings` view of a record.
    pub fn from_record(rec: &'a PersistRecord, firmware_version: &'a str) -> (g: SettingsGet<'a>)
        ensures
            g.device.name@ == rec@.device_name,
            g.device.id == rec@.device_id,
            g.wifi.hostname@ == rec@.wifi_hostname,
            slices_view(g.wifi.networks.ssids@) == shown_ssids(rec@),
            g.wifi.password@ == shown_password(rec@),
            g.bigfred.login@ == rec@.bigfred_login,
            g.bigfred.pin@ == rec@.bigfred_pin,
            g.bigfred.pin_set == (rec@.bigfred_pin.len() > 0),
            g.roster.mode == mode_name(rec@.roster_mode),
            g.roster.entries.entries@ == rec.static_roster@,
            g.programming_mode == rec@.programming_mode,
            g.firmware.version == firmware_version,
    {
        let n = if rec.credentials.len() < MAX_CREDENTIALS {
            rec.credentials.len()
        } else {
            MAX_CREDENTIALS
        };
        let ghost creds = rec@.credentials;
        let mut ssids: Vec<&'a [u8]> = Vec::new();
        let mut i: usize = 0;
        while i < n
            invariant
                n <= rec.credentials@.len(),
                i <= n,
                creds == rec@.credentials,
                slices_view(ssids@) == creds.take(i as int).map_values(|c: (Seq<u8>, Seq<u8>)| c.0),
            decreases n - i,
        {
            let s: &'a [u8] = rec.credentials[i].ssid.as_slice();
            let ghost before = ssids@;
            ssids.push(s);
            assert(slices_view(ssids@) =~= slices_view(before).push(s@));
            assert(creds.take(i + 1).map_values(|c: (Seq<u8>, Seq<u8>)| c.0) =~= creds.take(
                i as int,
            ).map_values(|c: (Seq<u8>, Seq<u8>)| c.0).push(creds[i as int].0));
            i = i + 1;
        }
        let password: &'a [u8] = match rec.last_credential() {
            Some(c) => c.password.as_slice(),
            None => {
                let empty: &'a [u8] = &[];
                assert(empty@ =~= Seq::<u8>::empty());
                empty
            },
        };
        let mode = match rec.roster_mode {
            RosterMode::Auto => RosterModeName::Auto,
            RosterMode::Static => RosterModeName::Static,
        };
        SettingsGet {
            device: DeviceView { name: rec.device.name.as_slice(), id: rec.device.id },
            wifi: WifiView {
                hostname: rec.wifi_hostname.as_slice(),
                networks: NetworksView { ssids },
                password,
            },
            bigfred: BigfredView {
                login: rec.bigfred_login.as_slice(),
                pin: rec.bigfred_pin.as_slice(),
                pin_set: rec.bigfred_pin.len() > 0,
            },
            roster: RosterView { mode, entries: RosterEntriesView { entries: rec.static_roster.as_slice() } },
            programming_mode: rec.programming_mode,
            firmware: FirmwareView { version: firmware_version },
        }
    }
}

} // verus!

verus! {

/// Optional Wi-Fi fields in a PUT body.
#[derive(Clone, Copy, Debug, Default)]
pub struct WifiPut<'a> {
    pub ssid: Option<&'a str>,
    pub password: Option<&'a str>,
    pub hostname: Option<&'a str>,
}

/// Optional BigFred fields in a PUT body.
#[derive(Clone, Copy, Debug, Default)]
pub struct BigfredPut<'a> {
    pub login: Option<&'a str>,
    pub pin: Option<&'a str>,
}

/// One roster entry in a PUT body.
#[derive(Clone, Copy, Debug)]
pub struct RosterEntryPut<'a> {
    pub addr: &'a str,
    pub name: Option<&'a str>,
}

/// PUT `/settings` body. All fields optional; missing tags leave the record unchanged.
#[derive(Clone, Debug, Default)]
pub struct SettingsPut<'a> {
    pub wifi: Option<WifiPut<'a>>,
    pub bigfred: Option<BigfredPut<'a>>,
    pub programming_mode: Option<bool>,
    pub roster_mode: Option<RosterModeName>,
    /// Up to [`MAX_SAVED_LOCOS`] entries; unused slots are `None`.
    pub roster: [Option<RosterEntryPut<'a>>; MAX_SAVED_LOCOS],
}

/// Error returned by [`apply_settings_put`] when a field exceeds its fixed-capacity
/// storage in [`PersistRecord`].
#[derive(Clone, Copy, Debug, PartialEq, Eq, Structural)]
pub enum ApplyError {
    /// `wifi.hostname` longer than `MAX_WIFI_HOSTNAME_LEN`.
    HostnameTooLong,
    /// `bigfred.login` longer than `MAX_BIGFRED_LOGIN_LEN`.
    LoginTooLong,
    /// `bigfred.pin` longer than `MAX_BIGFRED_PIN_LEN`.
    PinTooLong,
    /// A roster `addr` longer than the entry capacity.
    RosterAddrTooLong,
    /// A roster `name` longer than `MAX_STATIC_ROSTER_NAME_LEN`.
    RosterNameTooLong,
    /// More roster entries than `MAX_SAVED_LOCOS`.
    RosterFull,
}

/// The Wi-Fi section of a PUT: a network is saved when both SSID and password are given;
/// a hostname replaces the stored one, or clears it and fails when it is too long.
pub open spec fn apply_wifi(m: RecordModel, w: WifiPut) -> (RecordModel, Option<ApplyError>) {
    let m1 = if w.ssid is Some && w.password is Some {
        RecordModel {
            credentials: set_password_spec(
                m.credentials,
                w.ssid.unwrap().spec_bytes(),
                w.password.unwrap().spec_bytes(),
            ),
            ..m
        }
    } else {
        m
    };
    match w.hostname {
        None => (m1, None),
        Some(h) => if h.spec_bytes().len() <= MAX_WIFI_HOSTNAME_LEN {
            (RecordModel { wifi_hostname: h.spec_bytes(), ..m1 }, None)
        } else {
            (RecordModel { wifi_hostname: Seq::empty(), ..m1 }, Some(ApplyError::HostnameTooLong))
        },
    }
}

/// The BigFred section of a PUT: login, then PIN, each replacing the stored text, or
/// clearing it and failing when too long.
pub open spec fn apply_bigfred(m: RecordModel, b: BigfredPut) -> (RecordModel, Option<ApplyError>) {
    let (m1, e1) = match b.login {
        None => (m, None),
        Some(l) => if l.spec_bytes().len() <= MAX_BIGFRED_LOGIN_LEN {
            (RecordModel { bigfred_login: l.spec_bytes(), ..m }, None)
        } else {
            (RecordModel { bigfred_login: Seq::empty(), ..m }, Some(ApplyError::LoginTooLong))
        },
    };
    if e1 is Some {
        (m1, e1)
    } else {
        match b.pin {
            None => (m1, None),
            Some(p) => if p.spec_bytes().len() <= MAX_BIGFRED_PIN_LEN {
                (RecordModel { bigfred_pin: p.spec_bytes(), ..m1 }, None)
            } else {
                (RecordModel { bigfred_pin: Seq::empty(), ..m1 }, Some(ApplyError::PinTooLong))
            },
        }
    }
}

/// Roster slots from `i` appended to `acc`; the first entry that does not fit stops the
/// pass with its error.
pub open spec fn roster_fold(slots: Seq<Option<RosterEntryPut>>, i: int, acc: Seq<(Seq<u8>, Seq<u8>)>) -> (
    Seq<(Seq<u8>, Seq<u8>)>,
    Option<ApplyError>,
)
    decreases slots.len() - i,
{
    if i < 0 || i >= slots.len() {
        (acc, None)
    } else {
        match slots[i] {
            None => roster_fold(slots, i + 1, acc),
            Some(e) => {
                let name = match e.name {
                    Some(n) => n.spec_bytes(),
                    None => Seq::empty(),
                };
                if e.addr.spec_bytes().len() > MAX_LOCO_ADDR_LEN {
                    (acc, Some(ApplyError::RosterAddrTooLong))
                } else if name.len() > MAX_STATIC_ROSTER_NAME_LEN {
                    (acc, Some(ApplyError::RosterNameTooLong))
                } else if acc.len() >= MAX_SAVED_LOCOS {
                    (acc, Some(ApplyError::RosterFull))
                } else {
                    roster_fold(slots, i + 1, acc.push((e.addr.spec_bytes(), name)))
                }
            },
        }
    }
}

pub open spec fn has_roster(put: SettingsPut) -> bool {
    exists|i: int| 0 <= i < MAX_SAVED_LOCOS && (#[trigger] put.roster@[i]) is Some
}

/// A PUT applied to a record, section by section (Wi-Fi, BigFred, programming mode,
/// roster mode, roster); the first error stops it, leaving the earlier changes in place.
/// A roster with any entry replaces the stored one.
pub open spec fn apply_put(m: RecordModel, put: SettingsPut) -> (RecordModel, Result<(), ApplyError>) {
    let (m1, e1) = match put.wifi {
        None => (m, None),
        Some(w) => apply_wifi(m, w),
    };
    if e1 is Some {
        (m1, Err(e1.unwrap()))
    } else {
        let (m2, e2) = match put.bigfred {
            None => (m1, None),
            Some(b) => apply_bigfred(m1, b),
        };
        if e2 is Some {
            (m2, Err(e2.unwrap()))
        } else {
            let m3 = match put.programming_mode {
                None => m2,
                Some(p) => RecordModel { programming_mode: p, ..m2 },
            };
            let m4 = match put.roster_mode {
                None => m3,
                Some(r) => RecordModel { roster_mode: mode_of_name(r), ..m3 },
            };
            if has_roster(put) {
                let (entries, e) = roster_fold(put.roster@, 0, Seq::empty());
                (RecordModel { static_roster: entries, ..m4 }, match e {
                    None => Ok(()),
                    Some(x) => Err(x),
                })
            } else {
                (m4, Ok(()))
            }
        }
    }
}

/// Copy of the bytes of a `&str`.
fn str_bytes(s: &str) -> (r: Vec<u8>)
    ensures
        r@ == s.spec_bytes(),
{
    let b = s.as_bytes();
    crate::text::copy_range(b, 0, b.len())
}

/// Stored text for a string field of capacity `cap`: the whole text, or nothing (and
/// `false`) when it does not fit.
fn store_text(s: &str, cap: usize) -> (r: (Vec<u8>, bool))
    ensures
        s.spec_bytes().len() <= cap ==> r.0@ == s.spec_bytes() && r.1,
        s.spec_bytes().len() > cap ==> r.0@ == Seq::<u8>::empty() && !r.1,
{
    let b = s.as_bytes();
    if b.len() <= cap {
        (crate::text::copy_range(b, 0, b.len()), true)
    } else {
        (Vec::new(), false)
    }
}

fn apply_roster(rec: &mut PersistRecord, slots: &[Option<RosterEntryPut>; MAX_SAVED_LOCOS]) -> (r: Option<ApplyError>)
    ensures
        final(rec)@ == (RecordModel { static_roster: roster_fold(slots@, 0, Seq::empty()).0, ..old(rec)@ }),
        r == roster_fold(slots@, 0, Seq::empty()).1,
{
    rec.static_roster = Vec::new();
    let ghost base = *old(rec);
    assert(rec@.static_roster =~= Seq::<(Seq<u8>, Seq<u8>)>::empty());
    let mut i: usize = 0;
    while i < MAX_SAVED_LOCOS
        invariant
            i <= MAX_SAVED_LOCOS,
            slots@.len() == MAX_SAVED_LOCOS,
            base == *old(rec),
            rec@ == (RecordModel { static_roster: rec@.static_roster, ..base@ }),
            roster_fold(slots@, 0, Seq::empty()) == roster_fold(slots@, i as int, rec@.static_roster),
        decreases MAX_SAVED_LOCOS - i,
    {
        match slots[i] {
            None => {},
            Some(e) => {
                assert(slots@[i as int] == Some(e));
                let (addr, ok_addr) = store_text(e.addr, MAX_LOCO_ADDR_LEN);
                if !ok_addr {
                    assert(e.addr.spec_bytes().len() > MAX_LOCO_ADDR_LEN);
                    assert(roster_fold(slots@, i as int, rec@.static_roster) == (rec@.static_roster, Some(ApplyError::RosterAddrTooLong)));
                    return Some(ApplyError::RosterAddrTooLong);
                }
                let (name, ok_name) = match e.name {
                    Some(n) => store_text(n, MAX_STATIC_ROSTER_NAME_LEN),
                    None => (Vec::new(), true),
                };
                if !ok_name {
                    return Some(ApplyError::RosterNameTooLong);
                }
                if rec.static_roster.len() >= MAX_SAVED_LOCOS {
                    assert(rec@.static_roster.len() >= MAX_SAVED_LOCOS);
                    assert(roster_fold(slots@, i as int, rec@.static_roster) == (rec@.static_roster, Some(ApplyError::RosterFull)));
                    return Some(ApplyError::RosterFull);
                }
                let entry = StaticRosterEntry { addr, name };
                let ghost before = rec@.static_roster;
                rec.static_roster.push(entry);
                assert(rec@.static_roster =~= before.push(entry@));
            },
        }
        i = i + 1;
    }
    None
}

fn apply_wifi_exec(rec: &mut PersistRecord, wifi: WifiPut) -> (r: Option<ApplyError>)
    ensures
        (final(rec)@, r) == apply_wifi(old(rec)@, wifi),
{
    match (wifi.ssid, wifi.password) {
        (Some(ssid), Some(password)) => {
            rec.set_password(ssid, password);
        },
        _ => {},
    }
    let ghost m1 = rec@;
    match wifi.hostname {
        None => None,
        Some(host) => {
            let (h, ok) = store_text(host, MAX_WIFI_HOSTNAME_LEN);
            rec.wifi_hostname = h;
            assert(rec@ == (RecordModel { wifi_hostname: h@, ..m1 }));
            if ok {
                None
            } else {
                Some(ApplyError::HostnameTooLong)
            }
        },
    }
}

fn apply_bigfred_exec(rec: &mut PersistRecord, bf: BigfredPut) -> (r: Option<ApplyError>)
    ensures
        (final(rec)@, r) == apply_bigfred(old(rec)@, bf),
{
    match bf.login {
        None => {},
        Some(login) => {
            let (l, ok) = store_text(login, MAX_BIGFRED_LOGIN_LEN);
            rec.bigfred_login = l;
            if !ok {
                return Some(ApplyError::LoginTooLong);
            }
        },
    }
    match bf.pin {
        None => None,
        Some(pin) => {
            let (p, ok) = store_text(pin, MAX_BIGFRED_PIN_LEN);
            rec.bigfred_pin = p;
            if ok {
                None
            } else {
                Some(ApplyError::PinTooLong)
            }
        },
    }
}

/// Applies a PUT body onto a persist record.
///
/// On `Err` the record keeps the changes made before the failing field (callers treat the
/// whole PUT as rejected).
pub fn apply_settings_put(rec: &mut PersistRecord, put: &SettingsPut) -> (r: Result<(), ApplyError>)
    ensures
        final(rec)@ == apply_put(old(rec)@, *put).0,
        r == apply_put(old(rec)@, *put).1,
{
    match put.wifi {
        None => {},
        Some(wifi) => {
            match apply_wifi_exec(rec, wifi) {
                None => {},
                Some(e) => {
                    return Err(e);
                },
            }
        },
    }
    match put.bigfred {
        None => {},
        Some(bf) => {
            match apply_bigfred_exec(rec, bf) {
                None => {},
                Some(e) => {
                    return Err(e);
                },
            }
        },
    }
    match put.programming_mode {
        None => {},
        Some(pm) => {
            rec.programming_mode = pm;
        },
    }
    match put.roster_mode {
        None => {},
        Some(mode) => {
            rec.roster_mode = match mode {
                RosterModeName::Auto => RosterMode::Auto,
                RosterModeName::Static => RosterMode::Static,
            };
        },
    }
    let has_entries = any_roster_entry(put);
    if has_entries {
        match apply_roster(rec, &put.roster) {
            None => {},
            Some(e) => {
                return Err(e);
            },
        }
    }
    Ok(())
}

fn any_roster_entry(put: &SettingsPut) -> (r: bool)
    ensures
        r == has_roster(*put),
{
    let mut has_entries = false;
    let mut i: usize = 0;
    while i < MAX_SAVED_LOCOS
        invariant
            i <= MAX_SAVED_LOCOS,
            put.roster@.len() == MAX_SAVED_LOCOS,
            has_entries <==> exists|j: int| 0 <= j < i && (#[trigger] put.roster@[j]) is Some,
        decreases MAX_SAVED_LOCOS - i,
    {
        if put.roster[i].is_some() {
            has_entries = true;
        }
        i = i + 1;
    }
    has_entries
}

} // verus!

verus! {

/// A PUT body with no section leaves the record unchanged and succeeds.
pub proof fn law_empty_put_keeps_record(m: RecordModel, put: SettingsPut)
    requires
        put.wifi is None,
        put.bigfred is None,
        put.programming_mode is None,
        put.roster_mode is None,
        forall|i: int| 0 <= i < MAX_SAVED_LOCOS ==> (#[trigger] put.roster@[i]) is None,
    ensures
        apply_put(m, put) == (m, Ok::<(), ApplyError>(())),
{
}

/// A successful PUT stores each given field exactly as sent, and a network it saves is found
/// again with its password.
pub proof fn law_put_stores_given_fields(m: RecordModel, put: SettingsPut)
    requires
        apply_put(m, put).1 is Ok,
    ensures
        put.wifi matches Some(w) ==> (w.hostname matches Some(h) ==> apply_put(m, put).0.wifi_hostname
            == h.spec_bytes()),
        put.bigfred matches Some(b) ==> (b.login matches Some(l) ==> apply_put(m, put).0.bigfred_login
            == l.spec_bytes()),
        put.bigfred matches Some(b) ==> (b.pin matches Some(p) ==> apply_put(m, put).0.bigfred_pin
            == p.spec_bytes()),
        put.programming_mode matches Some(p) ==> apply_put(m, put).0.programming_mode == p,
        put.roster_mode matches Some(r) ==> apply_put(m, put).0.roster_mode == mode_of_name(r),
        put.wifi matches Some(w) ==> (w.ssid matches Some(ssid) ==> (w.password matches Some(pw) ==> (
        ssid.spec_bytes().len() <= 32 ==> match crate::persist::find_cred(
            apply_put(m, put).0.credentials,
            ssid.spec_bytes(),
            0,
        ) {
            Some(i) => apply_put(m, put).0.credentials[i].1 == crate::text::fit_bytes(pw.spec_bytes(), 64),
            None => false,
        }))),
{
    let (m1, e1) = match put.wifi {
        None => (m, None),
        Some(w) => apply_wifi(m, w),
    };
    assert(e1 is None);
    let (m2, e2) = match put.bigfred {
        None => (m1, None),
        Some(b) => apply_bigfred(m1, b),
    };
    assert(e2 is None);
    let r = apply_put(m, put).0;
    assert(r.wifi_hostname == m2.wifi_hostname && m2.wifi_hostname == m1.wifi_hostname);
    assert(r.bigfred_login == m2.bigfred_login && r.bigfred_pin == m2.bigfred_pin);
    match put.wifi {
        Some(w) => {
            if w.ssid is Some && w.password is Some && w.ssid.unwrap().spec_bytes().len() <= 32 {
                crate::persist::law_set_then_find_password(m.credentials, w.ssid.unwrap().spec_bytes(), w.password.unwrap().spec_bytes());
            }
        },
        None => {},
    }
    match put.wifi {
        Some(w) => match w.hostname {
            Some(h) => {
                assert(h.spec_bytes().len() <= MAX_WIFI_HOSTNAME_LEN);
                assert(m1.wifi_hostname == h.spec_bytes());
            },
            None => {},
        },
        None => {},
    }
    match put.bigfred {
        Some(b) => {
            let (ma, ea) = match b.login {
                None => (m1, None),
                Some(l) => if l.spec_bytes().len() <= MAX_BIGFRED_LOGIN_LEN {
                    (RecordModel { bigfred_login: l.spec_bytes(), ..m1 }, None)
                } else {
                    (RecordModel { bigfred_login: Seq::empty(), ..m1 }, Some(ApplyError::LoginTooLong))
                },
            };
            assert(ea is None);
            match b.login {
                Some(l) => {
                    assert(ma.bigfred_login == l.spec_bytes());
                },
                None => {},
            }
            assert(m2.bigfred_login == ma.bigfred_login);
        },
        None => {},
    }
}

} // verus!
