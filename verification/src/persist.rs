//! Persistence record serialization (NVS blob layout) and credential store.

use crate::text::{bounded_bytes, bytes_eq, copy_range, dec_digits, fit_bytes, push_decimal};
use vstd::prelude::*;
use vstd::string::StringSliceAdditionalSpecFns;
use vstd::utf8::valid_utf8;

verus! {

pub const MAGIC: u32 = 0x4C46_5031;

pub const VERSION: u16 = 3;

pub const MAX_CREDENTIALS: usize = 8;

pub const MAX_SAVED_LOCOS: usize = 12;

pub const MAX_DEVICE_NAME_LEN: usize = 32;

pub const MAX_WIFI_HOSTNAME_LEN: usize = 16;

pub const MAX_SSID_LEN: usize = 32;

pub const MAX_PASSWORD_LEN: usize = 64;

pub const MAX_LOCO_ADDR_LEN: usize = 8;

pub const MAX_BIGFRED_LOGIN_LEN: usize = 32;

pub const MAX_BIGFRED_PIN_LEN: usize = 16;

pub const MAX_STATIC_ROSTER_NAME_LEN: usize = 32;

pub const WIFI_HOSTNAME_PREFIX: &'static str = "longred_";

pub const WIFI_HOSTNAME_SUFFIX_LEN: usize = 6;

pub const DEVICE_ID_MIN: u16 = 1000;

pub const DEVICE_ID_MAX: u16 = 9999;

pub const TAG_CRED: u8 = 1;

pub const TAG_LOCO: u8 = 2;

pub const TAG_NET: u8 = 3;

pub const TAG_DEV: u8 = 4;

pub const TAG_HOST: u8 = 5;

pub const TAG_LANG: u8 = 6;

/// UI language (stored in NVS).
#[derive(Clone, Copy, PartialEq, Eq, Debug, Structural)]
pub enum Language {
    En,
    Pl,
    De,
}

impl Language {
    pub open spec fn code(self) -> u8 {
        match self {
            Language::En => 0,
            Language::Pl => 1,
            Language::De => 2,
        }
    }

    pub open spec fn from_code(v: u8) -> Option<Language> {
        if v == 0 {
            Some(Language::En)
        } else if v == 1 {
            Some(Language::Pl)
        } else if v == 2 {
            Some(Language::De)
        } else {
            None
        }
    }

    pub fn as_u8(self) -> (r: u8)
        ensures
            r == self.code(),
    {
        match self {
            Language::En => 0,
            Language::Pl => 1,
            Language::De => 2,
        }
    }

    pub fn from_u8(v: u8) -> (r: Option<Language>)
        ensures
            r == Language::from_code(v),
    {
        match v {
            0 => Some(Language::En),
            1 => Some(Language::Pl),
            2 => Some(Language::De),
            _ => None,
        }
    }
}

impl Default for Language {
    fn default() -> (l: Language)
        ensures
            l == Language::En,
    {
        Language::En
    }
}

/// Saved Wi-Fi network: SSID (at most 32 bytes) and password (at most 64 bytes).
#[derive(Clone, PartialEq, Eq, Debug)]
pub struct Credential {
    pub ssid: Vec<u8>,
    pub password: Vec<u8>,
}

impl View for Credential {
    type V = (Seq<u8>, Seq<u8>);

    open spec fn view(&self) -> (Seq<u8>, Seq<u8>) {
        (self.ssid@, self.password@)
    }
}

/// Loco selected on a throttle slot; `addr` holds at most 8 bytes.
#[derive(Clone, PartialEq, Eq, Debug)]
pub struct SavedLoco {
    pub throttle: u8,
    pub slot: u8,
    pub addr: Vec<u8>,
}

impl View for SavedLoco {
    type V = (u8, u8, Seq<u8>);

    open spec fn view(&self) -> (u8, u8, Seq<u8>) {
        (self.throttle, self.slot, self.addr@)
    }
}

/// Client IPv4 configuration (DHCP or static).
#[derive(Clone, Copy, PartialEq, Eq, Debug)]
pub struct StaticIpConfig {
    pub dhcp: bool,
    pub ip: [u8; 4],
    pub prefix_len: u8,
    pub gateway: Option<[u8; 4]>,
    pub dns: Option<[u8; 4]>,
}

impl Default for StaticIpConfig {
    fn default() -> (c: StaticIpConfig)
        ensures
            c.dhcp,
            c.ip@ == seq![0u8, 0u8, 0u8, 0u8],
            c.prefix_len == 24,
            c.gateway is None,
            c.dns is None,
    {
        StaticIpConfig { dhcp: true, ip: [0, 0, 0, 0], prefix_len: 24, gateway: None, dns: None }
    }
}

/// WiThrottle client identity (`N{name}` / `HU{id}`); `id == 0` means not yet assigned.
#[derive(Clone, PartialEq, Eq, Debug)]
pub struct DeviceIdentity {
    pub name: Vec<u8>,
    pub id: u16,
}

pub open spec fn default_device_name() -> Seq<u8> {
    seq![76u8, 111, 110, 103, 70, 114, 101, 100]
}

impl Default for DeviceIdentity {
    fn default() -> (d: DeviceIdentity)
        ensures
            d.name@ == default_device_name(),
            d.id == 0,
    {
        let name: Vec<u8> = vec![76u8, 111, 110, 103, 70, 114, 101, 100];
        assert(name@ =~= default_device_name());
        DeviceIdentity { name, id: 0 }
    }
}

impl DeviceIdentity {
    pub fn empty() -> (d: DeviceIdentity)
        ensures
            d.name@.len() == 0,
            d.id == 0,
    {
        DeviceIdentity { name: Vec::new(), id: 0 }
    }

    /// Decimal text of the id.
    pub fn id_wire(&self) -> (r: Vec<u8>)
        ensures
            r@ == dec_digits(self.id as nat),
    {
        let mut r: Vec<u8> = Vec::new();
        push_decimal(&mut r, self.id as u64);
        assert(r@ =~= dec_digits(self.id as nat));
        r
    }
}

/// How the handset chooses its loco list.
#[derive(Clone, Copy, PartialEq, Eq, Debug, Structural)]
pub enum RosterMode {
    Auto,
    Static,
}

impl Default for RosterMode {
    fn default() -> (m: RosterMode)
        ensures
            m == RosterMode::Auto,
    {
        RosterMode::Auto
    }
}

/// One static roster entry: DCC address text and an optional display name.
#[derive(Clone, PartialEq, Eq, Debug)]
pub struct StaticRosterEntry {
    pub addr: Vec<u8>,
    pub name: Vec<u8>,
}

impl View for StaticRosterEntry {
    type V = (Seq<u8>, Seq<u8>);

    open spec fn view(&self) -> (Seq<u8>, Seq<u8>) {
        (self.addr@, self.name@)
    }
}

impl Default for StaticRosterEntry {
    fn default() -> (e: StaticRosterEntry)
        ensures
            e.addr@.len() == 0,
            e.name@.len() == 0,
    {
        StaticRosterEntry { addr: Vec::new(), name: Vec::new() }
    }
}

impl StaticRosterEntry {
    pub open spec fn display_name_spec(self) -> Seq<u8> {
        if self.name@.len() > 0 {
            self.name@
        } else {
            self.addr@
        }
    }

    /// The name, or the address when no name was given.
    pub fn display_name(&self) -> (r: &[u8])
        ensures
            r@ == self.display_name_spec(),
    {
        if self.name.len() > 0 {
            self.name.as_slice()
        } else {
            self.addr.as_slice()
        }
    }
}

/// Roaming parameters for the Wi-Fi station.
#[derive(Clone, Copy, PartialEq, Eq, Debug)]
pub struct RadioConfig {
    pub roam_enabled: bool,
    /// Roam when RSSI stays below this (dBm).
    pub roam_rssi_threshold: i8,
    /// Consecutive weak samples before a scan.
    pub roam_debounce_samples: u8,
    /// Minimum seconds between scans.
    pub roam_scan_interval_s: u16,
    /// A candidate must beat the current RSSI by this much (dB).
    pub roam_hysteresis_db: u8,
}

impl Default for RadioConfig {
    fn default() -> (c: RadioConfig)
        ensures
            !c.roam_enabled,
            c.roam_rssi_threshold == -75,
            c.roam_debounce_samples == 3,
            c.roam_scan_interval_s == 10,
            c.roam_hysteresis_db == 8,
    {
        RadioConfig {
            roam_enabled: false,
            roam_rssi_threshold: -75,
            roam_debounce_samples: 3,
            roam_scan_interval_s: 10,
            roam_hysteresis_db: 8,
        }
    }
}

/// Map hardware RNG output to the WiThrottle client id range (1000..=9999).
pub fn id_from_entropy(entropy: u32) -> (id: u16)
    ensures
        id == 1000 + entropy % 9000,
        DEVICE_ID_MIN <= id <= DEVICE_ID_MAX,
{
    let span: u32 = (DEVICE_ID_MAX - DEVICE_ID_MIN + 1) as u32;
    DEVICE_ID_MIN + (entropy % span) as u16
}

pub open spec fn hostname_alphabet() -> Seq<u8> {
    seq![
        48u8, 49, 50, 51, 52, 53, 54, 55, 56, 57,
        97, 98, 99, 100, 101, 102, 103, 104, 105, 106, 107, 108, 109,
        110, 111, 112, 113, 114, 115, 116, 117, 118, 119, 120, 121, 122
    ]
}

pub open spec fn hostname_prefix() -> Seq<u8> {
    seq![108u8, 111, 110, 103, 114, 101, 100, 95]
}

/// One step of the hostname generator (32-bit linear congruential).
pub open spec fn lcg_next(state: u32) -> u32 {
    ((state as int * 1664525 + 1013904223) % 0x1_0000_0000) as u32
}

pub open spec fn lcg_iter(state: u32, k: nat) -> u32
    decreases k,
{
    if k == 0 {
        state
    } else {
        lcg_next(lcg_iter(state, (k - 1) as nat))
    }
}

/// Suffix character after `k + 1` generator steps from `entropy`.
pub open spec fn hostname_char(entropy: u32, k: nat) -> u8 {
    hostname_alphabet()[((lcg_iter(entropy, k + 1) / 0x10000) % 36) as int]
}

/// DHCP client hostname: `longred_` and six characters from `[0-9a-z]` drawn from `entropy`.
pub fn wifi_hostname_from_entropy(entropy: u32) -> (r: Vec<u8>)
    ensures
        r@.len() == 14,
        r@.take(8) == hostname_prefix(),
        forall|k: int| 0 <= k < 6 ==> #[trigger] r@[8 + k] == hostname_char(entropy, k as nat),
{
    let alphabet: Vec<u8> = vec![
        48u8, 49, 50, 51, 52, 53, 54, 55, 56, 57,
        97, 98, 99, 100, 101, 102, 103, 104, 105, 106, 107, 108, 109,
        110, 111, 112, 113, 114, 115, 116, 117, 118, 119, 120, 121, 122
    ];
    assert(alphabet@ =~= hostname_alphabet());
    let mut r: Vec<u8> = vec![108u8, 111, 110, 103, 114, 101, 100, 95];
    assert(r@ =~= hostname_prefix());
    let mut state: u32 = entropy;
    let mut k: usize = 0;
    while k < WIFI_HOSTNAME_SUFFIX_LEN
        invariant
            k <= 6,
            alphabet@ == hostname_alphabet(),
            r@.len() == 8 + k,
            r@.take(8) == hostname_prefix(),
            state == lcg_iter(entropy, k as nat),
            forall|j: int| 0 <= j < k ==> #[trigger] r@[8 + j] == hostname_char(entropy, j as nat),
        decreases 6 - k,
    {
        state = state.wrapping_mul(1_664_525).wrapping_add(1_013_904_223);
        assert(state == lcg_next(lcg_iter(entropy, k as nat))) by {
            assert((state as int) == lcg_next(lcg_iter(entropy, k as nat)) as int) by (nonlinear_arith)
                requires
                    state as int == ((((lcg_iter(entropy, k as nat) as int * 1664525)
                        % 0x1_0000_0000) + 1013904223) % 0x1_0000_0000),
            ;
        }
        let idx: usize = ((state >> 16) as usize) % 36;
        assert(idx as int == ((state / 0x10000) % 36) as int) by {
            assert((state >> 16) == state / 0x10000) by (bit_vector);
        }
        r.push(alphabet[idx]);
        assert(r@.take(8) =~= hostname_prefix()) by {
            assert(r@.take(8) =~= r@.take(8 + k as int).take(8));
        }
        k = k + 1;
    }
    r
}

/// Persisted settings: saved networks and locos, network config, identity and handset options.
///
/// The stored blob carries the saved networks, locos, network config, identity, Wi-Fi
/// hostname and language. The handset options `bigfred_login`, `bigfred_pin`,
/// `programming_mode`, `roster_mode` and `static_roster` are set through provisioning but
/// are not part of the blob: a save and reload gives them their defaults.
#[derive(Clone, PartialEq, Eq, Debug)]
pub struct PersistRecord {
    pub credentials: Vec<Credential>,
    pub locos: Vec<SavedLoco>,
    /// `None` = use DHCP (no saved preference).
    pub network: Option<StaticIpConfig>,
    pub device: DeviceIdentity,
    pub wifi_hostname: Vec<u8>,
    pub language: Language,
    pub bigfred_login: Vec<u8>,
    pub bigfred_pin: Vec<u8>,
    pub programming_mode: bool,
    pub roster_mode: RosterMode,
    pub static_roster: Vec<StaticRosterEntry>,
}

/// Abstract contents of a [`PersistRecord`].
pub struct RecordModel {
    pub credentials: Seq<(Seq<u8>, Seq<u8>)>,
    pub locos: Seq<(u8, u8, Seq<u8>)>,
    pub network: Option<StaticIpConfig>,
    pub device_name: Seq<u8>,
    pub device_id: u16,
    pub wifi_hostname: Seq<u8>,
    pub language: Language,
    pub bigfred_login: Seq<u8>,
    pub bigfred_pin: Seq<u8>,
    pub programming_mode: bool,
    pub roster_mode: RosterMode,
    pub static_roster: Seq<(Seq<u8>, Seq<u8>)>,
}

impl View for PersistRecord {
    type V = RecordModel;

    open spec fn view(&self) -> RecordModel {
        RecordModel {
            credentials: self.credentials@.map_values(|c: Credential| c@),
            locos: self.locos@.map_values(|l: SavedLoco| l@),
            network: self.network,
            device_name: self.device.name@,
            device_id: self.device.id,
            wifi_hostname: self.wifi_hostname@,
            language: self.language,
            bigfred_login: self.bigfred_login@,
            bigfred_pin: self.bigfred_pin@,
            programming_mode: self.programming_mode,
            roster_mode: self.roster_mode,
            static_roster: self.static_roster@.map_values(|e: StaticRosterEntry| e@),
        }
    }
}

/// The record a fresh device starts from.
pub open spec fn default_model() -> RecordModel {
    RecordModel {
        credentials: Seq::empty(),
        locos: Seq::empty(),
        network: None,
        device_name: default_device_name(),
        device_id: 0,
        wifi_hostname: Seq::empty(),
        language: Language::En,
        bigfred_login: Seq::empty(),
        bigfred_pin: Seq::empty(),
        programming_mode: false,
        roster_mode: RosterMode::Auto,
        static_roster: Seq::empty(),
    }
}

/// Index of the first credential whose SSID is `ssid`, searching from `i`.
pub open spec fn find_cred(creds: Seq<(Seq<u8>, Seq<u8>)>, ssid: Seq<u8>, i: int) -> Option<int>
    decreases creds.len() - i,
{
    if i < 0 || i >= creds.len() {
        None
    } else if creds[i].0 == ssid {
        Some(i)
    } else {
        find_cred(creds, ssid, i + 1)
    }
}

pub proof fn lemma_find_cred(creds: Seq<(Seq<u8>, Seq<u8>)>, ssid: Seq<u8>, i: int)
    requires
        0 <= i,
    ensures
        match find_cred(creds, ssid, i) {
            Some(k) => i <= k < creds.len() && creds[k].0 == ssid,
            None => forall|j: int| i <= j < creds.len() ==> creds[j].0 != ssid,
        },
    decreases creds.len() - i,
{
    if i < creds.len() && creds[i].0 != ssid {
        lemma_find_cred(creds, ssid, i + 1);
    }
}

/// Credential list after saving `pw` for `ssid`: an existing entry gets the new password;
/// otherwise the network is appended, evicting the oldest entry when the list is full.
pub open spec fn set_password_spec(
    creds: Seq<(Seq<u8>, Seq<u8>)>,
    ssid: Seq<u8>,
    pw: Seq<u8>,
) -> Seq<(Seq<u8>, Seq<u8>)> {
    match find_cred(creds, ssid, 0) {
        Some(i) => creds.update(i, (creds[i].0, fit_bytes(pw, 64))),
        None => {
            let c = (fit_bytes(ssid, 32), fit_bytes(pw, 64));
            if creds.len() < MAX_CREDENTIALS {
                creds.push(c)
            } else {
                creds.drop_first().push(c)
            }
        },
    }
}

impl PersistRecord {
    /// Bounds every stored field within its fixed capacity, and holds UTF-8 text.
    pub open spec fn wf(&self) -> bool {
        &&& self.credentials@.len() <= MAX_CREDENTIALS
        &&& forall|i: int|
            0 <= i < self.credentials@.len() ==> {
                let c = #[trigger] self.credentials@[i];
                &&& c.ssid@.len() <= 32
                &&& c.password@.len() <= 64
                &&& valid_utf8(c.ssid@)
                &&& valid_utf8(c.password@)
            }
        &&& self.locos@.len() <= MAX_SAVED_LOCOS
        &&& forall|i: int|
            0 <= i < self.locos@.len() ==> {
                let l = #[trigger] self.locos@[i];
                l.addr@.len() <= 8 && valid_utf8(l.addr@)
            }
        &&& self.device.name@.len() <= 32 && valid_utf8(self.device.name@)
        &&& self.wifi_hostname@.len() <= 16 && valid_utf8(self.wifi_hostname@)
        &&& self.bigfred_login@.len() <= MAX_BIGFRED_LOGIN_LEN
        &&& self.bigfred_pin@.len() <= MAX_BIGFRED_PIN_LEN
        &&& self.static_roster@.len() <= MAX_SAVED_LOCOS
        &&& forall|i: int|
            0 <= i < self.static_roster@.len() ==> {
                let e = #[trigger] self.static_roster@[i];
                e.addr@.len() <= 8 && e.name@.len() <= MAX_STATIC_ROSTER_NAME_LEN
            }
    }

    pub open spec fn last_credential_spec(&self) -> Option<(Seq<u8>, Seq<u8>)> {
        if self.credentials@.len() > 0 {
            Some(self.credentials@.last()@)
        } else {
            None
        }
    }

    /// Most recently saved network.
    pub fn last_credential(&self) -> (r: Option<&Credential>)
        ensures
            match r {
                Some(c) => self.last_credential_spec() == Some(c@),
                None => self.last_credential_spec() is None,
            },
    {
        let n = self.credentials.len();
        if n > 0 {
            Some(&self.credentials[n - 1])
        } else {
            None
        }
    }

    /// Password saved for `ssid` (first matching entry).
    pub fn find_password(&self, ssid: &str) -> (r: Option<&[u8]>)
        ensures
            match find_cred(self@.credentials, ssid.spec_bytes(), 0) {
                Some(i) => r is Some && r.unwrap()@ == self@.credentials[i].1,
                None => r is None,
            },
    {
        let s = ssid.as_bytes();
        let mut i: usize = 0;
        while i < self.credentials.len()
            invariant
                i <= self.credentials@.len(),
                s@ == ssid.spec_bytes(),
                find_cred(self@.credentials, s@, 0) == find_cred(self@.credentials, s@, i as int),
            decreases self.credentials@.len() - i,
        {
            if bytes_eq(self.credentials[i].ssid.as_slice(), s) {
                return Some(self.credentials[i].password.as_slice());
            }
            i = i + 1;
        }
        None
    }

    /// Replace an existing password or append; evict the oldest when full.
    pub fn set_password(&mut self, ssid: &str, pw: &str)
        ensures
            final(self)@.credentials == set_password_spec(
                old(self)@.credentials,
                ssid.spec_bytes(),
                pw.spec_bytes(),
            ),
            final(self).locos == old(self).locos,
            final(self).network == old(self).network,
            final(self).device == old(self).device,
            final(self).wifi_hostname == old(self).wifi_hostname,
            final(self).language == old(self).language,
            final(self).bigfred_login == old(self).bigfred_login,
            final(self).bigfred_pin == old(self).bigfred_pin,
            final(self).programming_mode == old(self).programming_mode,
            final(self).roster_mode == old(self).roster_mode,
            final(self).static_roster == old(self).static_roster,
    {
        let s = ssid.as_bytes();
        let p = pw.as_bytes();
        let ghost creds0 = self@.credentials;
        let mut i: usize = 0;
        while i < self.credentials.len()
            invariant
                i <= self.credentials@.len(),
                s@ == ssid.spec_bytes(),
                p@ == pw.spec_bytes(),
                *self == *old(self),
                creds0 == old(self)@.credentials,
                find_cred(creds0, s@, 0) == find_cred(creds0, s@, i as int),
            decreases self.credentials@.len() - i,
        {
            if bytes_eq(self.credentials[i].ssid.as_slice(), s) {
                let kept = copy_range(self.credentials[i].ssid.as_slice(), 0, self.credentials[i].ssid.len());
                assert(kept@ =~= creds0[i as int].0);
                let c = Credential { ssid: kept, password: bounded_bytes(p, 64) };
                self.credentials.set(i, c);
                assert(self@.credentials =~= set_password_spec(creds0, s@, p@));
                return;
            }
            i = i + 1;
        }
        let c = Credential { ssid: bounded_bytes(s, 32), password: bounded_bytes(p, 64) };
        if self.credentials.len() >= MAX_CREDENTIALS {
            self.credentials.remove(0);
        }
        self.credentials.push(c);
        assert(self@.credentials =~= set_password_spec(creds0, s@, p@));
    }
}

/// Register update of the reflected CRC-32 (polynomial 0xEDB88320) for one bit.
pub open spec fn crc_bit(c: u32) -> u32 {
    if c & 1 != 0 {
        (c >> 1) ^ 0xEDB8_8320
    } else {
        c >> 1
    }
}

pub open spec fn crc_bits(c: u32, k: nat) -> u32
    decreases k,
{
    if k == 0 {
        c
    } else {
        crc_bits(crc_bit(c), (k - 1) as nat)
    }
}

/// CRC register after `data`, starting from all ones.
pub open spec fn crc_register(data: Seq<u8>) -> u32
    decreases data.len(),
{
    if data.len() == 0 {
        0xFFFF_FFFF
    } else {
        crc_bits(crc_register(data.drop_last()) ^ (data.last() as u32), 8)
    }
}

/// CRC-32 (IEEE 802.3, reflected) of `data`.
pub open spec fn crc32_spec(data: Seq<u8>) -> u32 {
    !crc_register(data)
}

pub fn crc32(data: &[u8]) -> (r: u32)
    ensures
        r == crc32_spec(data@),
{
    let mut crc: u32 = 0xFFFF_FFFF;
    let mut i: usize = 0;
    while i < data.len()
        invariant
            i <= data@.len(),
            crc == crc_register(data@.take(i as int)),
        decreases data@.len() - i,
    {
        assert(data@.take(i + 1).drop_last() =~= data@.take(i as int));
        let ghost start = crc ^ (data[i as int] as u32);
        crc = crc ^ (data[i] as u32);
        let mut k: usize = 0;
        while k < 8
            invariant
                k <= 8,
                crc_bits(crc, (8 - k) as nat) == crc_bits(start, 8),
            decreases 8 - k,
        {
            if crc & 1 != 0 {
                crc = (crc >> 1) ^ 0xEDB8_8320;
            } else {
                crc = crc >> 1;
            }
            k = k + 1;
        }
        i = i + 1;
    }
    assert(data@.take(data@.len() as int) =~= data@);
    !crc
}

} // verus!

verus! {

pub open spec fn le16(v: u16) -> Seq<u8> {
    seq![(v % 256) as u8, (v / 256) as u8]
}

pub open spec fn le32(v: u32) -> Seq<u8> {
    seq![(v % 256) as u8, ((v / 256) % 256) as u8, ((v / 65536) % 256) as u8, (v / 16777216) as u8]
}

/// Little-endian `u16` at `i`.
pub open spec fn rd16(b: Seq<u8>, i: int) -> u16 {
    (b[i] + b[i + 1] * 256) as u16
}

/// Little-endian `u32` at `i`.
pub open spec fn rd32(b: Seq<u8>, i: int) -> u32 {
    (b[i] + b[i + 1] * 256 + b[i + 2] * 65536 + b[i + 3] * 16777216) as u32
}

pub open spec fn enc_cred(c: (Seq<u8>, Seq<u8>)) -> Seq<u8> {
    seq![TAG_CRED, c.0.len() as u8, c.1.len() as u8] + c.0 + c.1
}

pub open spec fn enc_creds(cs: Seq<(Seq<u8>, Seq<u8>)>) -> Seq<u8>
    decreases cs.len(),
{
    if cs.len() == 0 {
        Seq::empty()
    } else {
        enc_creds(cs.drop_last()) + enc_cred(cs.last())
    }
}

pub open spec fn enc_loco(l: (u8, u8, Seq<u8>)) -> Seq<u8> {
    seq![TAG_LOCO, l.0, l.1, l.2.len() as u8] + l.2
}

pub open spec fn enc_locos(ls: Seq<(u8, u8, Seq<u8>)>) -> Seq<u8>
    decreases ls.len(),
{
    if ls.len() == 0 {
        Seq::empty()
    } else {
        enc_locos(ls.drop_last()) + enc_loco(ls.last())
    }
}

pub open spec fn opt_ip(a: Option<[u8; 4]>) -> Seq<u8> {
    match a {
        Some(x) => x@,
        None => seq![0u8, 0u8, 0u8, 0u8],
    }
}

pub open spec fn enc_net(n: StaticIpConfig) -> Seq<u8> {
    seq![TAG_NET, if n.dhcp { 1u8 } else { 0u8 }] + n.ip@ + seq![
        n.prefix_len,
        if n.gateway is Some { 1u8 } else { 0u8 },
    ] + opt_ip(n.gateway) + seq![if n.dns is Some { 1u8 } else { 0u8 }] + opt_ip(n.dns)
}

pub open spec fn enc_head(m: RecordModel) -> Seq<u8> {
    le32(MAGIC) + le16(VERSION) + le16(m.credentials.len() as u16) + le16(m.locos.len() as u16)
}

/// Tagged sections: network if set, device, host name if set, language.
pub open spec fn enc_tags(m: RecordModel) -> Seq<u8> {
    (match m.network {
        Some(n) => enc_net(n),
        None => Seq::empty(),
    }) + (seq![TAG_DEV, m.device_name.len() as u8] + m.device_name + le16(m.device_id)) + (if m.wifi_hostname.len() > 0 {
        seq![TAG_HOST, m.wifi_hostname.len() as u8] + m.wifi_hostname
    } else {
        Seq::empty()
    }) + seq![TAG_LANG, m.language.code()]
}

/// Record body as stored, before the trailing CRC: header, credentials, locos,
/// then the tagged sections.
pub open spec fn enc_body(m: RecordModel) -> Seq<u8> {
    enc_head(m) + enc_creds(m.credentials) + enc_locos(m.locos) + enc_tags(m)
}

/// Full stored blob: body followed by its CRC-32, little-endian.
pub open spec fn encoding(m: RecordModel) -> Seq<u8> {
    enc_body(m) + le32(crc32_spec(enc_body(m)))
}

/// The pieces written one after the other, concatenated.
pub open spec fn cat(cs: Seq<Seq<u8>>) -> Seq<u8>
    decreases cs.len(),
{
    if cs.len() == 0 {
        Seq::empty()
    } else {
        cat(cs.drop_last()) + cs.last()
    }
}

pub open spec fn cred_chunks(c: (Seq<u8>, Seq<u8>)) -> Seq<Seq<u8>> {
    seq![seq![TAG_CRED], seq![c.0.len() as u8], seq![c.1.len() as u8], c.0, c.1]
}

pub open spec fn creds_chunks(cs: Seq<(Seq<u8>, Seq<u8>)>) -> Seq<Seq<u8>>
    decreases cs.len(),
{
    if cs.len() == 0 {
        Seq::empty()
    } else {
        creds_chunks(cs.drop_last()) + cred_chunks(cs.last())
    }
}

pub open spec fn loco_chunks(l: (u8, u8, Seq<u8>)) -> Seq<Seq<u8>> {
    seq![seq![TAG_LOCO], seq![l.0], seq![l.1], seq![l.2.len() as u8], l.2]
}

pub open spec fn locos_chunks(ls: Seq<(u8, u8, Seq<u8>)>) -> Seq<Seq<u8>>
    decreases ls.len(),
{
    if ls.len() == 0 {
        Seq::empty()
    } else {
        locos_chunks(ls.drop_last()) + loco_chunks(ls.last())
    }
}

pub open spec fn net_chunks(n: StaticIpConfig) -> Seq<Seq<u8>> {
    seq![
        seq![TAG_NET],
        seq![if n.dhcp { 1u8 } else { 0u8 }],
        n.ip@,
        seq![n.prefix_len],
        seq![if n.gateway is Some { 1u8 } else { 0u8 }],
        opt_ip(n.gateway),
        seq![if n.dns is Some { 1u8 } else { 0u8 }],
        opt_ip(n.dns),
    ]
}

/// The blob as the pieces it is written in: each field, each length and each text.
pub open spec fn enc_chunks(m: RecordModel) -> Seq<Seq<u8>> {
    seq![le32(MAGIC), le16(VERSION), le16(m.credentials.len() as u16), le16(m.locos.len() as u16)]
        + creds_chunks(m.credentials) + locos_chunks(m.locos) + (match m.network {
        Some(n) => net_chunks(n),
        None => Seq::empty(),
    }) + seq![seq![TAG_DEV], seq![m.device_name.len() as u8], m.device_name, le16(m.device_id)] + (
    if m.wifi_hostname.len() > 0 {
        seq![seq![TAG_HOST], seq![m.wifi_hostname.len() as u8], m.wifi_hostname]
    } else {
        Seq::empty()
    }) + seq![seq![TAG_LANG], seq![m.language.code()], le32(crc32_spec(enc_body(m)))]
}

/// Bytes written before the first piece that does not fit in the `cap` bytes left.
pub open spec fn fit_len(cs: Seq<Seq<u8>>, cap: int) -> int
    decreases cs.len(),
{
    if cs.len() == 0 {
        0
    } else if cs[0].len() <= cap {
        cs[0].len() + fit_len(cs.drop_first(), cap - cs[0].len())
    } else {
        0
    }
}

pub proof fn lemma_cat_concat(a: Seq<Seq<u8>>, b: Seq<Seq<u8>>)
    ensures
        cat(a + b) == cat(a) + cat(b),
    decreases b.len(),
{
    if b.len() == 0 {
        assert(a + b =~= a);
        assert(cat(a) + cat(b) =~= cat(a));
    } else {
        lemma_cat_concat(a, b.drop_last());
        assert((a + b).drop_last() =~= a + b.drop_last());
        assert(cat(a + b) =~= cat(a) + cat(b));
    }
}

proof fn lemma_cat_one(x: Seq<u8>)
    ensures
        cat(seq![x]) == x,
{
    assert(seq![x].drop_last() =~= Seq::<Seq<u8>>::empty());
    assert(cat(Seq::<Seq<u8>>::empty()) =~= Seq::<u8>::empty());
    assert(Seq::<u8>::empty() + x =~= x);
}

proof fn lemma_cat_front(cs: Seq<Seq<u8>>)
    requires
        cs.len() > 0,
    ensures
        cat(cs) == cs[0] + cat(cs.drop_first()),
{
    assert(cs =~= seq![cs[0]] + cs.drop_first());
    lemma_cat_concat(seq![cs[0]], cs.drop_first());
    lemma_cat_one(cs[0]);
}

proof fn lemma_cat_creds(cs: Seq<(Seq<u8>, Seq<u8>)>)
    ensures
        cat(creds_chunks(cs)) == enc_creds(cs),
    decreases cs.len(),
{
    if cs.len() > 0 {
        lemma_cat_creds(cs.drop_last());
        lemma_cat_concat(creds_chunks(cs.drop_last()), cred_chunks(cs.last()));
        let c = cs.last();
        lemma_cat4(seq![TAG_CRED], seq![c.0.len() as u8], seq![c.1.len() as u8], c.0);
        lemma_cat_push(seq![seq![TAG_CRED], seq![c.0.len() as u8], seq![c.1.len() as u8], c.0], c.1);
        assert(seq![seq![TAG_CRED], seq![c.0.len() as u8], seq![c.1.len() as u8], c.0].push(c.1) =~= cred_chunks(c));
        assert(cat(cred_chunks(c)) =~= enc_cred(c));
    } else {
        assert(enc_creds(cs) =~= Seq::<u8>::empty());
    }
}

proof fn lemma_cat_locos(ls: Seq<(u8, u8, Seq<u8>)>)
    ensures
        cat(locos_chunks(ls)) == enc_locos(ls),
    decreases ls.len(),
{
    if ls.len() > 0 {
        lemma_cat_locos(ls.drop_last());
        lemma_cat_concat(locos_chunks(ls.drop_last()), loco_chunks(ls.last()));
        let l = ls.last();
        lemma_cat4(seq![TAG_LOCO], seq![l.0], seq![l.1], seq![l.2.len() as u8]);
        lemma_cat_push(seq![seq![TAG_LOCO], seq![l.0], seq![l.1], seq![l.2.len() as u8]], l.2);
        assert(seq![seq![TAG_LOCO], seq![l.0], seq![l.1], seq![l.2.len() as u8]].push(l.2) =~= loco_chunks(l));
        assert(cat(loco_chunks(l)) =~= enc_loco(l));
    } else {
        assert(enc_locos(ls) =~= Seq::<u8>::empty());
    }
}

proof fn lemma_cat_push(cs: Seq<Seq<u8>>, x: Seq<u8>)
    ensures
        cat(cs.push(x)) == cat(cs) + x,
{
    assert(cs.push(x).drop_last() =~= cs);
}

proof fn lemma_cat_net(n: StaticIpConfig)
    ensures
        cat(net_chunks(n)) == enc_net(n),
{
    let c = net_chunks(n);
    assert(c.take(0) =~= Seq::<Seq<u8>>::empty());
    assert(cat(Seq::<Seq<u8>>::empty()) =~= Seq::<u8>::empty());
    lemma_cat_push(c.take(7), c[7]);
    lemma_cat_push(c.take(6), c[6]);
    lemma_cat_push(c.take(5), c[5]);
    lemma_cat_push(c.take(4), c[4]);
    lemma_cat_push(c.take(3), c[3]);
    lemma_cat_push(c.take(2), c[2]);
    lemma_cat_push(c.take(1), c[1]);
    lemma_cat_push(c.take(0), c[0]);
    assert(c.take(0).push(c[0]) =~= c.take(1));
    assert(c.take(1).push(c[1]) =~= c.take(2));
    assert(c.take(2).push(c[2]) =~= c.take(3));
    assert(c.take(3).push(c[3]) =~= c.take(4));
    assert(c.take(4).push(c[4]) =~= c.take(5));
    assert(c.take(5).push(c[5]) =~= c.take(6));
    assert(c.take(6).push(c[6]) =~= c.take(7));
    assert(c.take(7).push(c[7]) =~= c);
    assert(cat(c) =~= enc_net(n));
}

/// Concatenating up to four pieces.
proof fn lemma_cat4(a: Seq<u8>, b: Seq<u8>, c: Seq<u8>, d: Seq<u8>)
    ensures
        cat(seq![a]) == a,
        cat(seq![a, b]) == a + b,
        cat(seq![a, b, c]) == a + b + c,
        cat(seq![a, b, c, d]) == a + b + c + d,
{
    lemma_cat_one(a);
    lemma_cat_push(seq![a], b);
    assert(seq![a].push(b) =~= seq![a, b]);
    lemma_cat_push(seq![a, b], c);
    assert(seq![a, b].push(c) =~= seq![a, b, c]);
    lemma_cat_push(seq![a, b, c], d);
    assert(seq![a, b, c].push(d) =~= seq![a, b, c, d]);
}

/// The pieces make up the blob.
#[verifier::rlimit(40)]
#[verifier::spinoff_prover]
pub proof fn lemma_cat_enc_chunks(m: RecordModel)
    ensures
        cat(enc_chunks(m)) == encoding(m),
{
    let head = seq![le32(MAGIC), le16(VERSION), le16(m.credentials.len() as u16), le16(m.locos.len() as u16)];
    let cc = creds_chunks(m.credentials);
    let lc = locos_chunks(m.locos);
    let nc: Seq<Seq<u8>> = match m.network {
        Some(n) => net_chunks(n),
        None => Seq::empty(),
    };
    let dc = seq![seq![TAG_DEV], seq![m.device_name.len() as u8], m.device_name, le16(m.device_id)];
    let hc: Seq<Seq<u8>> = if m.wifi_hostname.len() > 0 {
        seq![seq![TAG_HOST], seq![m.wifi_hostname.len() as u8], m.wifi_hostname]
    } else {
        Seq::empty()
    };
    let tc = seq![seq![TAG_LANG], seq![m.language.code()], le32(crc32_spec(enc_body(m)))];
    assert(enc_chunks(m) == head + cc + lc + nc + dc + hc + tc);
    lemma_cat_concat(head + cc + lc + nc + dc + hc, tc);
    lemma_cat_concat(head + cc + lc + nc + dc, hc);
    lemma_cat_concat(head + cc + lc + nc, dc);
    lemma_cat_concat(head + cc + lc, nc);
    lemma_cat_concat(head + cc, lc);
    lemma_cat_concat(head, cc);
    lemma_cat_creds(m.credentials);
    lemma_cat_locos(m.locos);
    lemma_cat4(le32(MAGIC), le16(VERSION), le16(m.credentials.len() as u16), le16(m.locos.len() as u16));
    assert(cat(head) =~= enc_head(m));
    assert(cat(Seq::<Seq<u8>>::empty()) =~= Seq::<u8>::empty());
    match m.network {
        Some(n) => {
            lemma_cat_net(n);
        },
        None => {},
    }
    lemma_cat4(seq![TAG_DEV], seq![m.device_name.len() as u8], m.device_name, le16(m.device_id));
    assert(cat(dc) =~= seq![TAG_DEV, m.device_name.len() as u8] + m.device_name + le16(m.device_id));
    lemma_cat4(seq![TAG_HOST], seq![m.wifi_hostname.len() as u8], m.wifi_hostname, Seq::empty());
    if m.wifi_hostname.len() > 0 {
        assert(cat(hc) =~= seq![TAG_HOST, m.wifi_hostname.len() as u8] + m.wifi_hostname);
    }
    lemma_cat4(seq![TAG_LANG], seq![m.language.code()], le32(crc32_spec(enc_body(m))), Seq::empty());
    assert(cat(tc) =~= seq![TAG_LANG, m.language.code()] + le32(crc32_spec(enc_body(m))));
    assert(cat(enc_chunks(m)) =~= encoding(m));
}

/// `r` lists the lengths of the pieces `cs`.
pub open spec fn lens_match(r: Seq<usize>, cs: Seq<Seq<u8>>) -> bool {
    r.len() == cs.len() && forall|i: int| 0 <= i < r.len() ==> r[i] as int == #[trigger] cs[i].len()
}

proof fn lemma_lens_concat(r: Seq<usize>, a: Seq<Seq<u8>>, t: Seq<usize>, b: Seq<Seq<u8>>)
    requires
        lens_match(r, a),
        lens_match(t, b),
    ensures
        lens_match(r + t, a + b),
{
    assert forall|i: int| 0 <= i < (r + t).len() implies (r + t)[i] as int == #[trigger] (a + b)[i].len() by {
        if i < r.len() {
            assert((r + t)[i] == r[i] && (a + b)[i] == a[i]);
        } else {
            assert((r + t)[i] == t[i - r.len()] && (a + b)[i] == b[i - a.len()]);
        }
    }
}

/// Bytes of the blob written into a buffer of `cap` bytes: every piece up to the first one
/// that does not fit.
pub open spec fn written_len(m: RecordModel, cap: int) -> int {
    fit_len(enc_chunks(m), cap)
}

fn put_u16(out: &mut Vec<u8>, v: u16)
    ensures
        final(out)@ == old(out)@ + le16(v),
{
    out.push((v % 256) as u8);
    out.push((v / 256) as u8);
    assert(out@ =~= old(out)@ + le16(v));
}

fn put_u32(out: &mut Vec<u8>, v: u32)
    ensures
        final(out)@ == old(out)@ + le32(v),
{
    out.push((v % 256) as u8);
    out.push(((v / 256) % 256) as u8);
    out.push(((v / 65536) % 256) as u8);
    out.push((v / 16777216) as u8);
    assert(out@ =~= old(out)@ + le32(v));
}

fn put_ip(out: &mut Vec<u8>, a: &[u8; 4])
    ensures
        final(out)@ == old(out)@ + a@,
{
    crate::text::append_bytes(out, a.as_slice());
}

impl PersistRecord {
    /// The stored blob of this record.
    #[verifier::rlimit(40)]
    pub fn encode_vec(&self) -> (r: Vec<u8>)
        ensures
            r@ == encoding(self@),
    {
        let ghost m = self@;
        let mut out: Vec<u8> = Vec::new();
        put_u32(&mut out, MAGIC);
        put_u16(&mut out, VERSION);
        put_u16(&mut out, self.credentials.len() as u16);
        put_u16(&mut out, self.locos.len() as u16);
        let ghost head = out@;
        assert(head =~= le32(MAGIC) + le16(VERSION) + le16(m.credentials.len() as u16) + le16(
            m.locos.len() as u16,
        ));
        let mut i: usize = 0;
        while i < self.credentials.len()
            invariant
                i <= self.credentials@.len(),
                m == self@,
                out@ == head + enc_creds(m.credentials.take(i as int)),
            decreases self.credentials@.len() - i,
        {
            let c = &self.credentials[i];
            out.push(TAG_CRED);
            out.push(c.ssid.len() as u8);
            out.push(c.password.len() as u8);
            crate::text::append_bytes(&mut out, c.ssid.as_slice());
            crate::text::append_bytes(&mut out, c.password.as_slice());
            assert(m.credentials.take(i + 1).drop_last() =~= m.credentials.take(i as int));
            assert(m.credentials[i as int] == c@);
            assert(out@ =~= head + enc_creds(m.credentials.take(i + 1)));
            i = i + 1;
        }
        assert(m.credentials.take(i as int) =~= m.credentials);
        let ghost head2 = out@;
        let mut j: usize = 0;
        while j < self.locos.len()
            invariant
                j <= self.locos@.len(),
                m == self@,
                out@ == head2 + enc_locos(m.locos.take(j as int)),
            decreases self.locos@.len() - j,
        {
            let l = &self.locos[j];
            out.push(TAG_LOCO);
            out.push(l.throttle);
            out.push(l.slot);
            out.push(l.addr.len() as u8);
            crate::text::append_bytes(&mut out, l.addr.as_slice());
            assert(m.locos.take(j + 1).drop_last() =~= m.locos.take(j as int));
            assert(m.locos[j as int] == l@);
            assert(out@ =~= head2 + enc_locos(m.locos.take(j + 1)));
            j = j + 1;
        }
        assert(m.locos.take(j as int) =~= m.locos);
        let ghost head3 = out@;
        match &self.network {
            Some(n) => {
                out.push(TAG_NET);
                out.push(if n.dhcp {
                    1u8
                } else {
                    0u8
                });
                put_ip(&mut out, &n.ip);
                out.push(n.prefix_len);
                let zero: [u8; 4] = [0, 0, 0, 0];
                assert(zero@ =~= seq![0u8, 0u8, 0u8, 0u8]);
                out.push(if n.gateway.is_some() {
                    1u8
                } else {
                    0u8
                });
                match &n.gateway {
                    Some(g) => put_ip(&mut out, g),
                    None => put_ip(&mut out, &zero),
                }
                out.push(if n.dns.is_some() {
                    1u8
                } else {
                    0u8
                });
                match &n.dns {
                    Some(d) => put_ip(&mut out, d),
                    None => put_ip(&mut out, &zero),
                }
                assert(out@ =~= head3 + enc_net(*n));
            },
            None => {},
        }
        let ghost head4 = out@;
        out.push(TAG_DEV);
        out.push(self.device.name.len() as u8);
        crate::text::append_bytes(&mut out, self.device.name.as_slice());
        put_u16(&mut out, self.device.id);
        assert(out@ =~= head4 + (seq![TAG_DEV, m.device_name.len() as u8] + m.device_name + le16(
            m.device_id,
        )));
        let ghost head5 = out@;
        if self.wifi_hostname.len() > 0 {
            out.push(TAG_HOST);
            out.push(self.wifi_hostname.len() as u8);
            crate::text::append_bytes(&mut out, self.wifi_hostname.as_slice());
        }
        assert(out@ =~= head5 + (if m.wifi_hostname.len() > 0 {
            seq![TAG_HOST, m.wifi_hostname.len() as u8] + m.wifi_hostname
        } else {
            Seq::<u8>::empty()
        }));
        out.push(TAG_LANG);
        out.push(self.language.as_u8());
        assert(out@ =~= enc_body(m)) by {
            assert(head3 =~= enc_head(m) + enc_creds(m.credentials) + enc_locos(m.locos));
            assert(out@ =~= head3 + enc_tags(m));
        }
        let crc = crc32(out.as_slice());
        put_u32(&mut out, crc);
        out
    }

    fn push_lens(out: &mut Vec<usize>, t: &[usize])
        ensures
            final(out)@ == old(out)@ + t@,
    {
        let mut i: usize = 0;
        let n = t.len();
        while i < n
            invariant
                n == t@.len(),
                i <= n,
                out@ == old(out)@ + t@.take(i as int),
            decreases n - i,
        {
            out.push(t[i]);
            assert(t@.take(i + 1) =~= t@.take(i as int).push(t@[i as int]));
            i = i + 1;
        }
        assert(t@.take(n as int) =~= t@);
    }

    /// Lengths of the pieces the blob is written in.
    #[verifier::rlimit(40)]
    fn chunk_lens(&self) -> (r: Vec<usize>)
        ensures
            lens_match(r@, enc_chunks(self@)),
    {
        let ghost m = self@;
        let mut r: Vec<usize> = Vec::new();
        let h: Vec<usize> = vec![4, 2, 2, 2];
        Self::push_lens(&mut r, h.as_slice());
        let ghost head = seq![le32(MAGIC), le16(VERSION), le16(m.credentials.len() as u16), le16(m.locos.len() as u16)];
        assert(lens_match(r@, head));
        let mut i: usize = 0;
        assert(m.credentials.take(0) =~= Seq::<(Seq<u8>, Seq<u8>)>::empty());
        assert(head + creds_chunks(Seq::empty()) =~= head);
        while i < self.credentials.len()
            invariant
                i <= self.credentials@.len(),
                m == self@,
                lens_match(r@, head + creds_chunks(m.credentials.take(i as int))),
            decreases self.credentials@.len() - i,
        {
            let c = &self.credentials[i];
            let t: Vec<usize> = vec![1, 1, 1, c.ssid.len(), c.password.len()];
            assert(m.credentials[i as int] == c@);
            assert(lens_match(t@, cred_chunks(c@)));
            let ghost before = r@;
            Self::push_lens(&mut r, t.as_slice());
            proof {
                lemma_lens_concat(before, head + creds_chunks(m.credentials.take(i as int)), t@, cred_chunks(c@));
                assert(m.credentials.take(i + 1).drop_last() =~= m.credentials.take(i as int));
                assert(head + creds_chunks(m.credentials.take(i + 1)) =~= head + creds_chunks(m.credentials.take(i as int)) + cred_chunks(c@));
            }
            i = i + 1;
        }
        assert(m.credentials.take(i as int) =~= m.credentials);
        let ghost a1 = head + creds_chunks(m.credentials);
        let mut j: usize = 0;
        assert(m.locos.take(0) =~= Seq::<(u8, u8, Seq<u8>)>::empty());
        assert(a1 + locos_chunks(Seq::empty()) =~= a1);
        while j < self.locos.len()
            invariant
                j <= self.locos@.len(),
                m == self@,
                a1 == head + creds_chunks(m.credentials),
                lens_match(r@, a1 + locos_chunks(m.locos.take(j as int))),
            decreases self.locos@.len() - j,
        {
            let l = &self.locos[j];
            let t: Vec<usize> = vec![1, 1, 1, 1, l.addr.len()];
            assert(m.locos[j as int] == l@);
            assert(lens_match(t@, loco_chunks(l@)));
            let ghost before = r@;
            Self::push_lens(&mut r, t.as_slice());
            proof {
                lemma_lens_concat(before, a1 + locos_chunks(m.locos.take(j as int)), t@, loco_chunks(l@));
                assert(m.locos.take(j + 1).drop_last() =~= m.locos.take(j as int));
                assert(a1 + locos_chunks(m.locos.take(j + 1)) =~= a1 + locos_chunks(m.locos.take(j as int)) + loco_chunks(l@));
            }
            j = j + 1;
        }
        assert(m.locos.take(j as int) =~= m.locos);
        let ghost a2 = a1 + locos_chunks(m.locos);
        let ghost nc: Seq<Seq<u8>> = match m.network {
            Some(n) => net_chunks(n),
            None => Seq::empty(),
        };
        let ghost before = r@;
        let t: Vec<usize> = match &self.network {
            Some(_) => vec![1, 1, 4, 1, 1, 4, 1, 4],
            None => Vec::new(),
        };
        assert(lens_match(t@, nc));
        Self::push_lens(&mut r, t.as_slice());
        proof {
            lemma_lens_concat(before, a2, t@, nc);
        }
        let ghost dc = seq![seq![TAG_DEV], seq![m.device_name.len() as u8], m.device_name, le16(m.device_id)];
        let ghost before = r@;
        let t: Vec<usize> = vec![1, 1, self.device.name.len(), 2];
        assert(lens_match(t@, dc));
        Self::push_lens(&mut r, t.as_slice());
        proof {
            lemma_lens_concat(before, a2 + nc, t@, dc);
        }
        let ghost hc: Seq<Seq<u8>> = if m.wifi_hostname.len() > 0 {
            seq![seq![TAG_HOST], seq![m.wifi_hostname.len() as u8], m.wifi_hostname]
        } else {
            Seq::empty()
        };
        let ghost before = r@;
        let t: Vec<usize> = if self.wifi_hostname.len() > 0 {
            vec![1, 1, self.wifi_hostname.len()]
        } else {
            Vec::new()
        };
        assert(lens_match(t@, hc));
        Self::push_lens(&mut r, t.as_slice());
        proof {
            lemma_lens_concat(before, a2 + nc + dc, t@, hc);
        }
        let ghost tc = seq![seq![TAG_LANG], seq![m.language.code()], le32(crc32_spec(enc_body(m)))];
        let ghost before = r@;
        let t: Vec<usize> = vec![1, 1, 4];
        assert(lens_match(t@, tc));
        Self::push_lens(&mut r, t.as_slice());
        proof {
            lemma_lens_concat(before, a2 + nc + dc + hc, t@, tc);
            assert(a2 + nc + dc + hc + tc =~= enc_chunks(m));
        }
        r
    }

    /// Writes the stored blob into `buf` piece by piece (each field, length and text); at
    /// the first piece that does not fit it stops and gives `None`, with the pieces before
    /// it written.
    pub fn encode(&self, buf: &mut [u8]) -> (r: Option<usize>)
        ensures
            final(buf)@.len() == old(buf)@.len(),
            written_len(self@, old(buf)@.len() as int) <= old(buf)@.len(),
            written_len(self@, old(buf)@.len() as int) <= encoding(self@).len(),
            final(buf)@ == encoding(self@).take(written_len(self@, old(buf)@.len() as int)) + old(buf)@.skip(
                written_len(self@, old(buf)@.len() as int),
            ),
            r is Some <==> encoding(self@).len() <= old(buf)@.len(),
            r matches Some(n) ==> n == encoding(self@).len() && written_len(self@, old(buf)@.len() as int) == n,
    {
        let full = self.encode_vec();
        let lens = self.chunk_lens();
        let ghost cs = enc_chunks(self@);
        proof {
            lemma_cat_enc_chunks(self@);
        }
        let cap = buf.len();
        let k = lens.len();
        let mut p: usize = 0;
        let mut i: usize = 0;
        assert(cs.take(0) =~= Seq::<Seq<u8>>::empty());
        assert(cat(Seq::<Seq<u8>>::empty()) =~= Seq::<u8>::empty());
        assert(cs.skip(0) =~= cs);
        while i < k && lens[i] <= cap - p
            invariant
                k == cs.len(),
                cs == enc_chunks(self@),
                lens_match(lens@, cs),
                cap == old(buf)@.len(),
                i <= k,
                p <= cap,
                p == cat(cs.take(i as int)).len(),
                fit_len(cs, cap as int) == p + fit_len(cs.skip(i as int), cap - p),
            decreases k - i,
        {
            proof {
                lemma_cat_push(cs.take(i as int), cs[i as int]);
                assert(cs.take(i as int).push(cs[i as int]) =~= cs.take(i + 1));
                assert(cs.skip(i as int)[0] == cs[i as int]);
                assert(cs.skip(i as int).drop_first() =~= cs.skip(i + 1));
            }
            p = p + lens[i];
            i = i + 1;
        }
        proof {
            if i < k {
                assert(cs.skip(i as int)[0] == cs[i as int]);
            } else {
                assert(cs.skip(i as int).len() == 0);
            }
            assert(cs =~= cs.take(i as int) + cs.skip(i as int));
            lemma_cat_concat(cs.take(i as int), cs.skip(i as int));
            if i < k {
                lemma_cat_front(cs.skip(i as int));
            }
        }
        let n = full.len();
        assert(full@.take(p as int) =~= cat(cs.take(i as int)));
        let mut j: usize = 0;
        while j < p
            invariant
                n == full@.len(),
                p <= n,
                p <= cap,
                buf@.len() == old(buf)@.len(),
                cap == old(buf)@.len(),
                j <= p,
                forall|q: int| 0 <= q < j ==> buf@[q] == full@[q],
                forall|q: int| p <= q < buf@.len() ==> buf@[q] == old(buf)@[q],
            decreases p - j,
        {
            buf[j] = full[j];
            j = j + 1;
        }
        assert(buf@ =~= full@.take(p as int) + old(buf)@.skip(p as int));
        if i == k {
            assert(cs.take(i as int) =~= cs);
            Some(p)
        } else {
            None
        }
    }
}

} // verus!

verus! {

/// One credential section at `off`: tag, the two lengths, SSID and password bytes
/// (both UTF-8). Text longer than its field is stored as empty.
pub open spec fn dec_cred(b: Seq<u8>, off: int) -> Option<((Seq<u8>, Seq<u8>), int)> {
    if 0 <= off && off + 3 <= b.len() && b[off] == TAG_CRED {
        let p0 = off + 3 + b[off + 1];
        let end = p0 + b[off + 2];
        if end <= b.len() && valid_utf8(b.subrange(off + 3, p0)) && valid_utf8(
            b.subrange(p0, end),
        ) {
            Some(((fit_bytes(b.subrange(off + 3, p0), 32), fit_bytes(b.subrange(p0, end), 64)), end))
        } else {
            None
        }
    } else {
        None
    }
}

pub open spec fn dec_creds(b: Seq<u8>, off: int, k: nat) -> Option<(Seq<(Seq<u8>, Seq<u8>)>, int)>
    decreases k,
{
    if k == 0 {
        Some((Seq::empty(), off))
    } else {
        match dec_cred(b, off) {
            Some((c, o)) => match dec_creds(b, o, (k - 1) as nat) {
                Some((cs, o2)) => Some((seq![c] + cs, o2)),
                None => None,
            },
            None => None,
        }
    }
}

/// One saved-loco section at `off`: tag, throttle, slot, address (UTF-8).
pub open spec fn dec_loco(b: Seq<u8>, off: int) -> Option<((u8, u8, Seq<u8>), int)> {
    if 0 <= off && off + 4 <= b.len() && b[off] == TAG_LOCO {
        let end = off + 4 + b[off + 3];
        if end <= b.len() && valid_utf8(b.subrange(off + 4, end)) {
            Some(((b[off + 1], b[off + 2], fit_bytes(b.subrange(off + 4, end), 8)), end))
        } else {
            None
        }
    } else {
        None
    }
}

pub open spec fn dec_locos(b: Seq<u8>, off: int, k: nat) -> Option<(Seq<(u8, u8, Seq<u8>)>, int)>
    decreases k,
{
    if k == 0 {
        Some((Seq::empty(), off))
    } else {
        match dec_loco(b, off) {
            Some((l, o)) => match dec_locos(b, o, (k - 1) as nat) {
                Some((ls, o2)) => Some((seq![l] + ls, o2)),
                None => None,
            },
            None => None,
        }
    }
}

/// The four bytes at `i` as an address.
pub open spec fn ip_at(b: Seq<u8>, i: int) -> [u8; 4] {
    choose|a: [u8; 4]| a@ == b.subrange(i, i + 4)
}

pub proof fn lemma_ip_at(b: Seq<u8>, i: int, a: [u8; 4])
    requires
        a@ == b.subrange(i, i + 4),
    ensures
        ip_at(b, i) == a,
{
    let c = ip_at(b, i);
    assert(c@ == b.subrange(i, i + 4));
    assert(c =~= a) by {
        assert forall|k: int| 0 <= k < 4 implies c[k] == a[k] by {
            assert(c[k] == c@[k]);
            assert(a[k] == a@[k]);
        }
    }
}

/// One tagged section at `off` applied to `m`.
pub open spec fn dec_tag(b: Seq<u8>, off: int, m: RecordModel) -> Option<(RecordModel, int)> {
    if !(0 <= off && off < b.len()) {
        None
    } else if b[off] == TAG_NET {
        if off + 17 <= b.len() {
            Some(
                (
                    RecordModel {
                        network: Some(
                            StaticIpConfig {
                                dhcp: b[off + 1] != 0,
                                ip: ip_at(b, off + 2),
                                prefix_len: b[off + 6],
                                gateway: if b[off + 7] != 0 {
                                    Some(ip_at(b, off + 8))
                                } else {
                                    None
                                },
                                dns: if b[off + 12] != 0 {
                                    Some(ip_at(b, off + 13))
                                } else {
                                    None
                                },
                            },
                        ),
                        ..m
                    },
                    off + 17,
                ),
            )
        } else {
            None
        }
    } else if b[off] == TAG_DEV {
        if off + 2 <= b.len() && off + 2 + b[off + 1] + 2 <= b.len() && valid_utf8(
            b.subrange(off + 2, off + 2 + b[off + 1]),
        ) {
            let e = off + 2 + b[off + 1];
            Some(
                (
                    RecordModel {
                        device_name: fit_bytes(b.subrange(off + 2, e), 32),
                        device_id: rd16(b, e),
                        ..m
                    },
                    e + 2,
                ),
            )
        } else {
            None
        }
    } else if b[off] == TAG_HOST {
        if off + 2 <= b.len() && off + 2 + b[off + 1] <= b.len() && valid_utf8(
            b.subrange(off + 2, off + 2 + b[off + 1]),
        ) {
            let e = off + 2 + b[off + 1];
            Some((RecordModel { wifi_hostname: fit_bytes(b.subrange(off + 2, e), 16), ..m }, e))
        } else {
            None
        }
    } else if b[off] == TAG_LANG {
        if off + 2 <= b.len() {
            match Language::from_code(b[off + 1]) {
                Some(l) => Some((RecordModel { language: l, ..m }, off + 2)),
                None => None,
            }
        } else {
            None
        }
    } else {
        None
    }
}

/// Tagged sections from `off` while before `end`.
pub open spec fn dec_tags(b: Seq<u8>, off: int, end: int, m: RecordModel) -> Option<(RecordModel, int)>
    decreases end - off,
{
    if off >= end {
        Some((m, off))
    } else {
        match dec_tag(b, off, m) {
            Some((m2, o2)) => if o2 > off {
                if o2 >= end {
                    Some((m2, o2))
                } else {
                    dec_tags(b, o2, end, m2)
                }
            } else {
                None
            },
            None => None,
        }
    }
}

pub open spec fn min_nat(a: nat, b: nat) -> nat {
    if a < b {
        a
    } else {
        b
    }
}

/// What a stored blob decodes to. Versions 1 to 3 are read; version 1 has no tagged
/// sections. At most [`MAX_CREDENTIALS`] credentials and [`MAX_SAVED_LOCOS`] locos are
/// kept. The blob must end exactly at its CRC, and the CRC must match.
pub open spec fn decode_spec(b: Seq<u8>) -> Option<RecordModel> {
    if b.len() < 12 || rd32(b, 0) != MAGIC {
        None
    } else {
        let v = rd16(b, 4);
        if v != 1 && v != 2 && v != 3 {
            None
        } else {
            match dec_creds(b, 10, rd16(b, 6) as nat) {
                None => None,
                Some((cs, o1)) => match dec_locos(b, o1, rd16(b, 8) as nat) {
                    None => None,
                    Some((ls, o2)) => {
                        let crc_pos = b.len() - 4;
                        let m0 = RecordModel {
                            credentials: cs.take(min_nat(cs.len(), 8) as int),
                            locos: ls.take(min_nat(ls.len(), 12) as int),
                            ..default_model()
                        };
                        let r = if v >= 2 {
                            dec_tags(b, o2, crc_pos, m0)
                        } else {
                            Some((m0, o2))
                        };
                        match r {
                            None => None,
                            Some((m, off)) => if off != crc_pos {
                                None
                            } else if rd32(b, crc_pos) != crc32_spec(b.take(crc_pos)) {
                                None
                            } else {
                                Some(m)
                            },
                        }
                    },
                },
            }
        }
    }
}

fn rd16_at(b: &[u8], i: usize) -> (r: u16)
    requires
        i + 2 <= b@.len(),
    ensures
        r == rd16(b@, i as int),
{
    (b[i] as u16) + (b[i + 1] as u16) * 256
}

fn rd32_at(b: &[u8], i: usize) -> (r: u32)
    requires
        i + 4 <= b@.len(),
    ensures
        r == rd32(b@, i as int),
{
    (b[i] as u32) + (b[i + 1] as u32) * 256 + (b[i + 2] as u32) * 65536 + (b[i + 3] as u32)
        * 16777216
}

fn ip_from(b: &[u8], i: usize) -> (r: [u8; 4])
    requires
        i + 4 <= b@.len(),
    ensures
        r == ip_at(b@, i as int),
{
    let mut a: [u8; 4] = [0u8; 4];
    a[0] = b[i];
    a[1] = b[i + 1];
    a[2] = b[i + 2];
    a[3] = b[i + 3];
    assert(a@ =~= b@.subrange(i as int, i + 4));
    proof {
        lemma_ip_at(b@, i as int, a);
    }
    a
}

fn dec_cred_exec(b: &[u8], off: usize) -> (r: Option<(Credential, usize)>)
    ensures
        match dec_cred(b@, off as int) {
            Some((c, o)) => r is Some && r.unwrap().0@ == c && r.unwrap().1 == o,
            None => r is None,
        },
        r matches Some((_, o)) ==> off < o <= b@.len(),
{
    let n = b.len();
    if off >= n || n - off < 3 || b[off] != TAG_CRED {
        return None;
    }
    let sl = b[off + 1] as usize;
    let pl = b[off + 2] as usize;
    if n - off - 3 < sl + pl {
        return None;
    }
    let p0 = off + 3 + sl;
    let end = p0 + pl;
    let ssid = &b[off + 3..p0];
    let pw = &b[p0..end];
    if !crate::text::is_utf8(ssid) || !crate::text::is_utf8(pw) {
        return None;
    }
    Some((Credential { ssid: bounded_bytes(ssid, 32), password: bounded_bytes(pw, 64) }, end))
}

fn dec_loco_exec(b: &[u8], off: usize) -> (r: Option<(SavedLoco, usize)>)
    ensures
        match dec_loco(b@, off as int) {
            Some((l, o)) => r is Some && r.unwrap().0@ == l && r.unwrap().1 == o,
            None => r is None,
        },
        r matches Some((_, o)) ==> off < o <= b@.len(),
{
    let n = b.len();
    if off >= n || n - off < 4 || b[off] != TAG_LOCO {
        return None;
    }
    let al = b[off + 3] as usize;
    if n - off - 4 < al {
        return None;
    }
    let end = off + 4 + al;
    let addr = &b[off + 4..end];
    if !crate::text::is_utf8(addr) {
        return None;
    }
    Some((SavedLoco { throttle: b[off + 1], slot: b[off + 2], addr: bounded_bytes(addr, 8) }, end))
}

impl PersistRecord {
    /// Applies the tagged section at `off`; returns the offset after it.
    fn dec_tag_exec(&mut self, b: &[u8], off: usize) -> (r: Option<usize>)
        ensures
            match dec_tag(b@, off as int, old(self)@) {
                Some((m, o)) => r == Some(o as usize) && final(self)@ == m,
                None => r is None,
            },
            r matches Some(o) ==> off < o <= b@.len(),
    {
        let n = b.len();
        if off >= n {
            return None;
        }
        let tag = b[off];
        if tag == TAG_NET {
            if n - off < 17 {
                return None;
            }
            let gateway = if b[off + 7] != 0 {
                Some(ip_from(b, off + 8))
            } else {
                None
            };
            let dns = if b[off + 12] != 0 {
                Some(ip_from(b, off + 13))
            } else {
                None
            };
            self.network = Some(
                StaticIpConfig {
                    dhcp: b[off + 1] != 0,
                    ip: ip_from(b, off + 2),
                    prefix_len: b[off + 6],
                    gateway,
                    dns,
                },
            );
            Some(off + 17)
        } else if tag == TAG_DEV {
            if n - off < 2 {
                return None;
            }
            let nl = b[off + 1] as usize;
            if n - off - 2 < nl + 2 {
                return None;
            }
            let e = off + 2 + nl;
            let name = &b[off + 2..e];
            if !crate::text::is_utf8(name) {
                return None;
            }
            self.device.name = bounded_bytes(name, 32);
            self.device.id = rd16_at(b, e);
            Some(e + 2)
        } else if tag == TAG_HOST {
            if n - off < 2 {
                return None;
            }
            let hl = b[off + 1] as usize;
            if n - off - 2 < hl {
                return None;
            }
            let e = off + 2 + hl;
            let host = &b[off + 2..e];
            if !crate::text::is_utf8(host) {
                return None;
            }
            self.wifi_hostname = bounded_bytes(host, 16);
            Some(e)
        } else if tag == TAG_LANG {
            if n - off < 2 {
                return None;
            }
            match Language::from_u8(b[off + 1]) {
                Some(l) => {
                    self.language = l;
                    Some(off + 2)
                },
                None => None,
            }
        } else {
            None
        }
    }

    pub fn default() -> (r: PersistRecord)
        ensures
            r@ == default_model(),
            r.wf(),
    {
        let r = PersistRecord {
            credentials: Vec::new(),
            locos: Vec::new(),
            network: None,
            device: DeviceIdentity::default(),
            wifi_hostname: Vec::new(),
            language: Language::En,
            bigfred_login: Vec::new(),
            bigfred_pin: Vec::new(),
            programming_mode: false,
            roster_mode: RosterMode::Auto,
            static_roster: Vec::new(),
        };
        assert(r@.credentials =~= Seq::<(Seq<u8>, Seq<u8>)>::empty());
        assert(r@.locos =~= Seq::<(u8, u8, Seq<u8>)>::empty());
        assert(r@.static_roster =~= Seq::<(Seq<u8>, Seq<u8>)>::empty());
        proof {
            crate::text::lemma_ascii_valid_utf8(default_device_name());
            crate::text::lemma_ascii_valid_utf8(Seq::<u8>::empty());
        }
        r
    }

    /// Parses a stored blob.
    pub fn decode(buf: &[u8]) -> (r: Option<PersistRecord>)
        ensures
            match decode_spec(buf@) {
                Some(m) => r is Some && r.unwrap()@ == m,
                None => r is None,
            },
    {
        let n = buf.len();
        if n < 12 || rd32_at(buf, 0) != MAGIC {
            return None;
        }
        let version = rd16_at(buf, 4);
        if version != 1 && version != 2 && version != 3 {
            return None;
        }
        let cred_count = rd16_at(buf, 6);
        let loco_count = rd16_at(buf, 8);
        let mut rec = PersistRecord::default();
        let ghost b = buf@;
        let mut off: usize = 10;
        let ghost mut acc: Seq<(Seq<u8>, Seq<u8>)> = Seq::empty();
        assert(acc.take(0) =~= Seq::<(Seq<u8>, Seq<u8>)>::empty());
        assert(rec@.credentials =~= acc.take(min_nat(acc.len(), 8) as int));
        let mut i: u16 = 0;
        while i < cred_count
            invariant
                b == buf@,
                n == b.len(),
                n >= 12,
                rd32(b, 0) == MAGIC,
                rd16(b, 4) == version,
                version == 1 || version == 2 || version == 3,
                rd16(b, 6) == cred_count,
                rd16(b, 8) == loco_count,
                i <= cred_count,
                acc.len() == i,
                off <= n,
                rec@.credentials == acc.take(min_nat(acc.len(), 8) as int),
                rec@.locos == default_model().locos,
                rec@ == (RecordModel { credentials: rec@.credentials, ..default_model() }),
                dec_creds(b, 10, cred_count as nat) == (match dec_creds(
                    b,
                    off as int,
                    (cred_count - i) as nat,
                ) {
                    Some((cs, o)) => Some((acc + cs, o)),
                    None => None,
                }),
            decreases cred_count - i,
        {
            match dec_cred_exec(buf, off) {
                Some((c, o)) => {
                    let ghost cm = c@;
                    let ghost k = (cred_count - i - 1) as nat;
                    proof {
                        match dec_creds(b, o as int, k) {
                            Some((cs2, o2)) => {
                                assert(acc + (seq![cm] + cs2) =~= acc.push(cm) + cs2);
                            },
                            None => {},
                        }
                    }
                    let ghost before = rec@.credentials;
                    if rec.credentials.len() < MAX_CREDENTIALS {
                        rec.credentials.push(c);
                        assert(rec@.credentials =~= before.push(cm));
                    }
                    proof {
                        acc = acc.push(cm);
                    }
                    assert(rec@.credentials =~= acc.take(min_nat(acc.len(), 8) as int));
                    off = o;
                    if o > n {
                        return None;
                    }
                },
                None => {
                    assert(dec_creds(b, off as int, (cred_count - i) as nat) is None);
                    return None;
                },
            }
            i = i + 1;
        }
        let ghost cs = acc;
        let ghost o1 = off as int;
        assert(dec_creds(b, 10, cred_count as nat) == Some((cs, o1))) by {
            assert(cs + Seq::<(Seq<u8>, Seq<u8>)>::empty() =~= cs);
        }
        let ghost mut lacc: Seq<(u8, u8, Seq<u8>)> = Seq::empty();
        assert(rec@.locos =~= lacc.take(0));
        let mut j: u16 = 0;
        while j < loco_count
            invariant
                b == buf@,
                n == b.len(),
                n >= 12,
                rd32(b, 0) == MAGIC,
                rd16(b, 4) == version,
                version == 1 || version == 2 || version == 3,
                rd16(b, 6) == cred_count,
                rd16(b, 8) == loco_count,
                j <= loco_count,
                lacc.len() == j,
                off <= n,
                dec_creds(b, 10, cred_count as nat) == Some((cs, o1)),
                rec@.credentials == cs.take(min_nat(cs.len(), 8) as int),
                rec@.locos == lacc.take(min_nat(lacc.len(), 12) as int),
                rec@ == (RecordModel {
                    credentials: rec@.credentials,
                    locos: rec@.locos,
                    ..default_model()
                }),
                dec_locos(b, o1, loco_count as nat) == (match dec_locos(
                    b,
                    off as int,
                    (loco_count - j) as nat,
                ) {
                    Some((ls, o)) => Some((lacc + ls, o)),
                    None => None,
                }),
            decreases loco_count - j,
        {
            match dec_loco_exec(buf, off) {
                Some((l, o)) => {
                    let ghost lm = l@;
                    let ghost k = (loco_count - j - 1) as nat;
                    proof {
                        match dec_locos(b, o as int, k) {
                            Some((ls2, o2)) => {
                                assert(lacc + (seq![lm] + ls2) =~= lacc.push(lm) + ls2);
                            },
                            None => {},
                        }
                    }
                    let ghost before = rec@.locos;
                    if rec.locos.len() < MAX_SAVED_LOCOS {
                        rec.locos.push(l);
                        assert(rec@.locos =~= before.push(lm));
                    }
                    proof {
                        lacc = lacc.push(lm);
                    }
                    assert(rec@.locos =~= lacc.take(min_nat(lacc.len(), 12) as int));
                    off = o;
                    if o > n {
                        return None;
                    }
                },
                None => {
                    assert(dec_locos(b, off as int, (loco_count - j) as nat) is None);
                    return None;
                },
            }
            j = j + 1;
        }
        assert(dec_locos(b, o1, loco_count as nat) == Some((lacc, off as int))) by {
            assert(lacc + Seq::<(u8, u8, Seq<u8>)>::empty() =~= lacc);
        }
        let crc_pos = n - 4;
        let ghost o2 = off as int;
        let ghost m0 = rec@;
        assert(m0 == (RecordModel {
            credentials: cs.take(min_nat(cs.len(), 8) as int),
            locos: lacc.take(min_nat(lacc.len(), 12) as int),
            ..default_model()
        }));
        if version >= 2 {
            while off < crc_pos
                invariant
                    b == buf@,
                    n == b.len(),
                    n >= 12,
                    rd32(b, 0) == MAGIC,
                    rd16(b, 4) == version,
                    version == 2 || version == 3,
                    rd16(b, 6) == cred_count,
                    rd16(b, 8) == loco_count,
                    dec_creds(b, 10, cred_count as nat) == Some((cs, o1)),
                    dec_locos(b, o1, loco_count as nat) == Some((lacc, o2)),
                    m0 == (RecordModel {
                        credentials: cs.take(min_nat(cs.len(), 8) as int),
                        locos: lacc.take(min_nat(lacc.len(), 12) as int),
                        ..default_model()
                    }),
                    crc_pos == n - 4,
                    off <= n,
                    dec_tags(b, o2, crc_pos as int, m0) == dec_tags(
                        b,
                        off as int,
                        crc_pos as int,
                        rec@,
                    ),
                decreases n - off,
            {
                match rec.dec_tag_exec(buf, off) {
                    Some(o) => {
                        if o <= off || o > n {
                            return None;
                        }
                        off = o;
                    },
                    None => {
                        assert(dec_tags(b, off as int, crc_pos as int, rec@) is None);
                        return None;
                    },
                }
            }
        }
        if off != crc_pos {
            return None;
        }
        let stored = rd32_at(buf, crc_pos);
        let computed = crc32(&buf[0..crc_pos]);
        assert(buf@.subrange(0, crc_pos as int) =~= b.take(crc_pos as int));
        if stored != computed {
            return None;
        }
        Some(rec)
    }
}

} // verus!

verus! {

pub open spec fn creds_ok(cs: Seq<(Seq<u8>, Seq<u8>)>) -> bool {
    forall|i: int|
        0 <= i < cs.len() ==> {
            let c = #[trigger] cs[i];
            &&& c.0.len() <= 32
            &&& c.1.len() <= 64
            &&& valid_utf8(c.0)
            &&& valid_utf8(c.1)
        }
}

pub open spec fn locos_ok(ls: Seq<(u8, u8, Seq<u8>)>) -> bool {
    forall|i: int|
        0 <= i < ls.len() ==> {
            let l = #[trigger] ls[i];
            l.2.len() <= 8 && valid_utf8(l.2)
        }
}

proof fn lemma_le16(v: u16)
    ensures
        le16(v)[0] + le16(v)[1] * 256 == v,
{
}

proof fn lemma_le32(v: u32)
    ensures
        le32(v)[0] + le32(v)[1] * 256 + le32(v)[2] * 65536 + le32(v)[3] * 16777216 == v,
{
    let x = v as int;
    assert(x == (x / 256) * 256 + x % 256) by (nonlinear_arith);
    assert(x / 256 == ((x / 256) / 256) * 256 + (x / 256) % 256) by (nonlinear_arith);
    assert((x / 256) / 256 == x / 65536) by (nonlinear_arith)
        requires
            x >= 0,
    ;
    assert(x / 65536 == ((x / 65536) / 256) * 256 + (x / 65536) % 256) by (nonlinear_arith);
    assert((x / 65536) / 256 == x / 16777216) by (nonlinear_arith)
        requires
            x >= 0,
    ;
}

proof fn lemma_enc_creds_front(cs: Seq<(Seq<u8>, Seq<u8>)>)
    requires
        cs.len() > 0,
    ensures
        enc_creds(cs) == enc_cred(cs[0]) + enc_creds(cs.drop_first()),
    decreases cs.len(),
{
    if cs.len() == 1 {
        assert(cs.drop_last() =~= Seq::<(Seq<u8>, Seq<u8>)>::empty());
        assert(cs.drop_first() =~= Seq::<(Seq<u8>, Seq<u8>)>::empty());
        assert(enc_creds(cs) =~= enc_cred(cs[0]) + enc_creds(cs.drop_first()));
    } else {
        lemma_enc_creds_front(cs.drop_last());
        assert(cs.drop_first().drop_last() =~= cs.drop_last().drop_first());
        assert(cs.drop_last()[0] == cs[0]);
        assert(cs.drop_first().last() == cs.last());
        assert(enc_creds(cs) =~= enc_cred(cs[0]) + enc_creds(cs.drop_first()));
    }
}

proof fn lemma_enc_locos_front(ls: Seq<(u8, u8, Seq<u8>)>)
    requires
        ls.len() > 0,
    ensures
        enc_locos(ls) == enc_loco(ls[0]) + enc_locos(ls.drop_first()),
    decreases ls.len(),
{
    if ls.len() == 1 {
        assert(ls.drop_last() =~= Seq::<(u8, u8, Seq<u8>)>::empty());
        assert(ls.drop_first() =~= Seq::<(u8, u8, Seq<u8>)>::empty());
        assert(enc_locos(ls) =~= enc_loco(ls[0]) + enc_locos(ls.drop_first()));
    } else {
        lemma_enc_locos_front(ls.drop_last());
        assert(ls.drop_first().drop_last() =~= ls.drop_last().drop_first());
        assert(ls.drop_last()[0] == ls[0]);
        assert(ls.drop_first().last() == ls.last());
        assert(enc_locos(ls) =~= enc_loco(ls[0]) + enc_locos(ls.drop_first()));
    }
}

proof fn lemma_dec_creds(b: Seq<u8>, off: int, cs: Seq<(Seq<u8>, Seq<u8>)>)
    requires
        0 <= off,
        off + enc_creds(cs).len() <= b.len(),
        b.subrange(off, off + enc_creds(cs).len()) == enc_creds(cs),
        creds_ok(cs),
    ensures
        dec_creds(b, off, cs.len()) == Some((cs, off + enc_creds(cs).len())),
    decreases cs.len(),
{
    if cs.len() == 0 {
        assert(cs =~= Seq::<(Seq<u8>, Seq<u8>)>::empty());
    } else {
        lemma_enc_creds_front(cs);
        let c = cs[0];
        let e = enc_cred(c);
        let rest = cs.drop_first();
        let tail = enc_creds(rest);
        assert(b.subrange(off, off + e.len()) =~= e) by {
            assert(b.subrange(off, off + e.len()) =~= b.subrange(off, off + enc_creds(cs).len()).subrange(0, e.len() as int));
        }
        assert(b.subrange(off + e.len(), off + e.len() + tail.len()) =~= tail) by {
            assert(b.subrange(off + e.len(), off + e.len() + tail.len()) =~= b.subrange(
                off,
                off + enc_creds(cs).len(),
            ).subrange(e.len() as int, (e.len() + tail.len()) as int));
        }
        assert(b[off] == e[0]);
        assert(b[off + 1] == e[1]);
        assert(b[off + 2] == e[2]);
        let p0: int = off + 3 + c.0.len();
        assert(b.subrange(off + 3, p0) =~= c.0) by {
            assert(b.subrange(off + 3, p0) =~= e.subrange(3, 3 + c.0.len() as int));
        }
        assert(b.subrange(p0, p0 + c.1.len()) =~= c.1) by {
            assert(b.subrange(p0, p0 + c.1.len()) =~= e.subrange(3 + c.0.len() as int, e.len() as int));
        }
        assert(dec_cred(b, off) == Some((c, off + e.len())));
        assert(creds_ok(rest)) by {
            assert forall|i: int| 0 <= i < rest.len() implies {
                let r = #[trigger] rest[i];
                &&& r.0.len() <= 32
                &&& r.1.len() <= 64
                &&& valid_utf8(r.0)
                &&& valid_utf8(r.1)
            } by {
                assert(rest[i] == cs[i + 1]);
            }
        }
        lemma_dec_creds(b, off + e.len(), rest);
        assert(seq![c] + rest =~= cs);
    }
}

proof fn lemma_dec_locos(b: Seq<u8>, off: int, ls: Seq<(u8, u8, Seq<u8>)>)
    requires
        0 <= off,
        off + enc_locos(ls).len() <= b.len(),
        b.subrange(off, off + enc_locos(ls).len()) == enc_locos(ls),
        locos_ok(ls),
    ensures
        dec_locos(b, off, ls.len()) == Some((ls, off + enc_locos(ls).len())),
    decreases ls.len(),
{
    if ls.len() == 0 {
        assert(ls =~= Seq::<(u8, u8, Seq<u8>)>::empty());
    } else {
        lemma_enc_locos_front(ls);
        let l = ls[0];
        let e = enc_loco(l);
        let rest = ls.drop_first();
        let tail = enc_locos(rest);
        assert(b.subrange(off, off + e.len()) =~= e) by {
            assert(b.subrange(off, off + e.len()) =~= b.subrange(off, off + enc_locos(ls).len()).subrange(0, e.len() as int));
        }
        assert(b.subrange(off + e.len(), off + e.len() + tail.len()) =~= tail) by {
            assert(b.subrange(off + e.len(), off + e.len() + tail.len()) =~= b.subrange(
                off,
                off + enc_locos(ls).len(),
            ).subrange(e.len() as int, (e.len() + tail.len()) as int));
        }
        assert(b[off] == e[0]);
        assert(b[off + 1] == e[1]);
        assert(b[off + 2] == e[2]);
        assert(b[off + 3] == e[3]);
        assert(b.subrange(off + 4, off + 4 + l.2.len() as int) =~= l.2) by {
            assert(b.subrange(off + 4, off + 4 + l.2.len() as int) =~= e.subrange(4, e.len() as int));
        }
        assert(dec_loco(b, off) == Some((l, off + e.len())));
        assert(locos_ok(rest)) by {
            assert forall|i: int| 0 <= i < rest.len() implies {
                let r = #[trigger] rest[i];
                r.2.len() <= 8 && valid_utf8(r.2)
            } by {
                assert(rest[i] == ls[i + 1]);
            }
        }
        lemma_dec_locos(b, off + e.len(), rest);
        assert(seq![l] + rest =~= ls);
    }
}

} // verus!

verus! {

proof fn lemma_slice_of_concat(a: Seq<u8>, x: Seq<u8>, c: Seq<u8>)
    ensures
        (a + x + c).subrange(a.len() as int, (a.len() + x.len()) as int) == x,
        (a + x + c).len() == a.len() + x.len() + c.len(),
{
    assert((a + x + c).subrange(a.len() as int, (a.len() + x.len()) as int) =~= x);
}

proof fn lemma_ip_len(a: [u8; 4])
    ensures
        a@.len() == 4,
        opt_ip(Some(a)).len() == 4,
        opt_ip(None).len() == 4,
{
    vstd::array::array_len_matches_n(&a);
}

proof fn lemma_dec_net(b: Seq<u8>, off: int, n: StaticIpConfig, m: RecordModel)
    requires
        0 <= off,
        off + 17 <= b.len(),
        b.subrange(off, off + 17) == enc_net(n),
    ensures
        dec_tag(b, off, m) == Some((RecordModel { network: Some(n), ..m }, off + 17)),
{
    let e = enc_net(n);
    lemma_ip_len(n.ip);
    match n.gateway {
        Some(x) => lemma_ip_len(x),
        None => {},
    }
    match n.dns {
        Some(x) => lemma_ip_len(x),
        None => {},
    }
    assert forall|j: int| 0 <= j < 17 implies b[off + j] == #[trigger] e[j] by {
        assert(b.subrange(off, off + 17)[j] == b[off + j]);
    }
    let w = b.subrange(off, off + 17);
    assert(b[off] == e[0] && e[0] == TAG_NET);
    assert(b[off + 1] == e[1] && e[1] == (if n.dhcp { 1u8 } else { 0u8 }));
    assert(b[off + 6] == e[6] && e[6] == n.prefix_len);
    assert(b[off + 7] == e[7] && e[7] == (if n.gateway is Some { 1u8 } else { 0u8 }));
    assert(b[off + 12] == e[12] && e[12] == (if n.dns is Some { 1u8 } else { 0u8 }));
    assert(b.subrange(off + 2, off + 6) =~= w.subrange(2, 6));
    assert(e.subrange(2, 6) =~= n.ip@);
    lemma_ip_at(b, off + 2, n.ip);
    match n.gateway {
        Some(x) => {
            assert(b.subrange(off + 8, off + 12) =~= w.subrange(8, 12));
            assert(e.subrange(8, 12) =~= x@);
            lemma_ip_at(b, off + 8, x);
        },
        None => {},
    }
    match n.dns {
        Some(x) => {
            assert(b.subrange(off + 13, off + 17) =~= w.subrange(13, 17));
            assert(e.subrange(13, 17) =~= x@);
            lemma_ip_at(b, off + 13, x);
        },
        None => {},
    }
}

proof fn lemma_dec_dev(b: Seq<u8>, off: int, name: Seq<u8>, id: u16, m: RecordModel)
    requires
        0 <= off,
        name.len() <= 32,
        valid_utf8(name),
        off + name.len() + 4 <= b.len(),
        b.subrange(off, off + name.len() + 4) == seq![TAG_DEV, name.len() as u8] + name + le16(id),
    ensures
        dec_tag(b, off, m) == Some(
            (RecordModel { device_name: name, device_id: id, ..m }, off + name.len() + 4),
        ),
{
    let d = seq![TAG_DEV, name.len() as u8] + name + le16(id);
    let e: int = off + 2 + name.len();
    assert(b[off] == d[0]);
    assert(b[off + 1] == d[1]);
    assert(b.subrange(off + 2, e) =~= name) by {
        assert(b.subrange(off + 2, e) =~= d.subrange(2, 2 + name.len() as int));
    }
    assert(b[e] == d[2 + name.len() as int]);
    assert(b[e + 1] == d[3 + name.len() as int]);
    lemma_le16(id);
}

proof fn lemma_dec_host(b: Seq<u8>, off: int, host: Seq<u8>, m: RecordModel)
    requires
        0 <= off,
        0 < host.len() <= 16,
        valid_utf8(host),
        off + host.len() + 2 <= b.len(),
        b.subrange(off, off + host.len() + 2) == seq![TAG_HOST, host.len() as u8] + host,
    ensures
        dec_tag(b, off, m) == Some((RecordModel { wifi_hostname: host, ..m }, off + host.len() + 2)),
{
    let d = seq![TAG_HOST, host.len() as u8] + host;
    assert(b[off] == d[0]);
    assert(b[off + 1] == d[1]);
    assert(b.subrange(off + 2, off + 2 + host.len() as int) =~= host) by {
        assert(b.subrange(off + 2, off + 2 + host.len() as int) =~= d.subrange(2, d.len() as int));
    }
}

proof fn lemma_dec_lang(b: Seq<u8>, off: int, l: Language, m: RecordModel)
    requires
        0 <= off,
        off + 2 <= b.len(),
        b[off] == TAG_LANG,
        b[off + 1] == l.code(),
    ensures
        dec_tag(b, off, m) == Some((RecordModel { language: l, ..m }, off + 2)),
{
}

pub open spec fn tag_net(m: RecordModel) -> Seq<u8> {
    match m.network {
        Some(n) => enc_net(n),
        None => Seq::empty(),
    }
}

pub open spec fn tag_dev(m: RecordModel) -> Seq<u8> {
    seq![TAG_DEV, m.device_name.len() as u8] + m.device_name + le16(m.device_id)
}

pub open spec fn tag_host(m: RecordModel) -> Seq<u8> {
    if m.wifi_hostname.len() > 0 {
        seq![TAG_HOST, m.wifi_hostname.len() as u8] + m.wifi_hostname
    } else {
        Seq::empty()
    }
}

/// Where each tagged section lies in `b`.
proof fn lemma_tags_slices(b: Seq<u8>, off: int, m: RecordModel)
    requires
        0 <= off,
        off + enc_tags(m).len() <= b.len(),
        b.subrange(off, off + enc_tags(m).len()) == enc_tags(m),
    ensures
        ({
            let t1 = off + tag_net(m).len();
            let t2 = t1 + tag_dev(m).len();
            let t3 = t2 + tag_host(m).len();
            &&& off + enc_tags(m).len() == t3 + 2
            &&& b.subrange(off, t1) == tag_net(m)
            &&& b.subrange(t1, t2) == tag_dev(m)
            &&& b.subrange(t2, t3) == tag_host(m)
            &&& b[t3] == TAG_LANG
            &&& b[t3 + 1] == m.language.code()
        }),
{
    let net = tag_net(m);
    let dev = tag_dev(m);
    let host = tag_host(m);
    let lang = seq![TAG_LANG, m.language.code()];
    let t = enc_tags(m);
    assert(t == net + dev + host + lang);
    let w = b.subrange(off, off + t.len());
    let t1: int = off + net.len();
    let t2: int = t1 + dev.len();
    let t3: int = t2 + host.len();
    assert(b.subrange(off, t1) =~= net) by {
        assert(b.subrange(off, t1) =~= w.subrange(0, net.len() as int));
        lemma_slice_of_concat(Seq::empty(), net, dev + host + lang);
        assert(Seq::<u8>::empty() + net + (dev + host + lang) =~= t);
    }
    assert(b.subrange(t1, t2) =~= dev) by {
        assert(b.subrange(t1, t2) =~= w.subrange(net.len() as int, (net.len() + dev.len()) as int));
        lemma_slice_of_concat(net, dev, host + lang);
        assert(net + dev + (host + lang) =~= t);
    }
    assert(b.subrange(t2, t3) =~= host) by {
        assert(b.subrange(t2, t3) =~= w.subrange(
            (net.len() + dev.len()) as int,
            (net.len() + dev.len() + host.len()) as int,
        ));
        lemma_slice_of_concat(net + dev, host, lang);
        assert(net + dev + host + lang =~= t);
    }
    assert(b[t3] == TAG_LANG && b[t3 + 1] == m.language.code()) by {
        assert(w[t3 - off] == b[t3]);
        assert(w[t3 + 1 - off] == b[t3 + 1]);
        assert(t[t3 - off] == lang[0]);
        assert(t[t3 + 1 - off] == lang[1]);
    }
}

/// The tagged sections of `m`, found at `off`, turn `m0` into `m0` with `m`'s network,
/// device, host name and language.
#[verifier::rlimit(40)]
#[verifier::spinoff_prover]
proof fn lemma_dec_tags_section(b: Seq<u8>, off: int, m: RecordModel, m0: RecordModel)
    requires
        0 <= off,
        off + enc_tags(m).len() <= b.len(),
        b.subrange(off, off + enc_tags(m).len()) == enc_tags(m),
        m.device_name.len() <= 32,
        valid_utf8(m.device_name),
        m.wifi_hostname.len() <= 16,
        valid_utf8(m.wifi_hostname),
    ensures
        dec_tags(b, off, off + enc_tags(m).len(), m0) == Some(
            (
                RecordModel {
                    network: if m.network is Some { m.network } else { m0.network },
                    device_name: m.device_name,
                    device_id: m.device_id,
                    wifi_hostname: if m.wifi_hostname.len() > 0 { m.wifi_hostname } else { m0.wifi_hostname },
                    language: m.language,
                    ..m0
                },
                off + enc_tags(m).len(),
            ),
        ),
{
    lemma_tags_slices(b, off, m);
    let end: int = off + enc_tags(m).len();
    let t1: int = off + tag_net(m).len();
    let t2: int = t1 + tag_dev(m).len();
    let t3: int = t2 + tag_host(m).len();
    let m1 = RecordModel { network: if m.network is Some { m.network } else { m0.network }, ..m0 };
    match m.network {
        Some(n) => {
            lemma_ip_len(n.ip);
            lemma_dec_net(b, off, n, m0);
        },
        None => {
            assert(m1 == m0);
        },
    }
    let m2 = RecordModel { device_name: m.device_name, device_id: m.device_id, ..m1 };
    lemma_dec_dev(b, t1, m.device_name, m.device_id, m1);
    let m3 = RecordModel {
        wifi_hostname: if m.wifi_hostname.len() > 0 { m.wifi_hostname } else { m0.wifi_hostname },
        ..m2
    };
    if m.wifi_hostname.len() > 0 {
        lemma_dec_host(b, t2, m.wifi_hostname, m2);
    } else {
        assert(m3 == m2);
    }
    let m4 = RecordModel { language: m.language, ..m3 };
    lemma_dec_lang(b, t3, m.language, m3);
    if m.network is Some {
        assert(dec_tags(b, off, end, m0) == dec_tags(b, t1, end, m1));
    }
    assert(dec_tags(b, t1, end, m1) == dec_tags(b, t2, end, m2));
    if m.wifi_hostname.len() > 0 {
        assert(dec_tags(b, t2, end, m2) == dec_tags(b, t3, end, m3));
    }
    assert(dec_tags(b, t3, end, m3) == Some((m4, end)));
}

proof fn lemma_wf_sections(rec: PersistRecord)
    requires
        rec.wf(),
    ensures
        creds_ok(rec@.credentials),
        locos_ok(rec@.locos),
{
    let m = rec@;
    assert forall|i: int| 0 <= i < m.credentials.len() implies {
        let c = #[trigger] m.credentials[i];
        &&& c.0.len() <= 32
        &&& c.1.len() <= 64
        &&& valid_utf8(c.0)
        &&& valid_utf8(c.1)
    } by {
        assert(m.credentials[i] == rec.credentials@[i]@);
    }
    assert forall|i: int| 0 <= i < m.locos.len() implies {
        let l = #[trigger] m.locos[i];
        l.2.len() <= 8 && valid_utf8(l.2)
    } by {
        assert(m.locos[i] == rec.locos@[i]@);
    }
}

/// A blob is only accepted with the magic number, a known version (1 to 3) and a CRC-32
/// over everything before it that matches its last four bytes.
pub proof fn law_decode_checks(b: Seq<u8>)
    ensures
        decode_spec(b) is Some ==> {
            &&& b.len() >= 12
            &&& rd32(b, 0) == MAGIC
            &&& 1 <= rd16(b, 4) <= 3
            &&& rd32(b, b.len() - 4) == crc32_spec(b.take(b.len() - 4))
        },
{
}

proof fn lemma_crc_bit_xor(a: u32, b: u32)
    ensures
        crc_bit(a ^ b) == crc_bit(a) ^ crc_bit(b),
        a != b ==> crc_bit(a) != crc_bit(b),
{
    assert(crc_bit(a ^ b) == crc_bit(a) ^ crc_bit(b)) by (bit_vector)
        requires
            crc_bit(a) == (if a & 1 != 0 { (a >> 1) ^ 0xEDB8_8320u32 } else { a >> 1 }),
            crc_bit(b) == (if b & 1 != 0 { (b >> 1) ^ 0xEDB8_8320u32 } else { b >> 1 }),
            crc_bit(a ^ b) == (if (a ^ b) & 1 != 0 { ((a ^ b) >> 1) ^ 0xEDB8_8320u32 } else { (a ^ b) >> 1 }),
    ;
    assert(a != b ==> crc_bit(a) != crc_bit(b)) by (bit_vector)
        requires
            crc_bit(a) == (if a & 1 != 0 { (a >> 1) ^ 0xEDB8_8320u32 } else { a >> 1 }),
            crc_bit(b) == (if b & 1 != 0 { (b >> 1) ^ 0xEDB8_8320u32 } else { b >> 1 }),
    ;
}

/// Eight register steps keep two different registers different.
proof fn lemma_crc_bits_distinct(a: u32, b: u32, k: nat)
    requires
        a != b,
    ensures
        crc_bits(a, k) != crc_bits(b, k),
    decreases k,
{
    if k > 0 {
        lemma_crc_bit_xor(a, b);
        lemma_crc_bits_distinct(crc_bit(a), crc_bit(b), (k - 1) as nat);
    }
}

proof fn lemma_crc_register_take(x: Seq<u8>, i: int)
    requires
        0 <= i < x.len(),
    ensures
        crc_register(x.take(i + 1)) == crc_bits(crc_register(x.take(i)) ^ (x[i] as u32), 8),
{
    assert(x.take(i + 1).drop_last() =~= x.take(i));
    assert(x.take(i + 1).last() == x[i]);
}

/// Two texts of one length that differ in one byte have different CRC registers from that
/// byte on.
proof fn lemma_register_diff(x: Seq<u8>, y: Seq<u8>, j: int, i: int)
    requires
        x.len() == y.len(),
        0 <= j < x.len(),
        x[j] != y[j],
        forall|k: int| 0 <= k < x.len() && k != j ==> x[k] == y[k],
        0 <= i <= x.len(),
    ensures
        i <= j ==> crc_register(x.take(i)) == crc_register(y.take(i)),
        i > j ==> crc_register(x.take(i)) != crc_register(y.take(i)),
    decreases i,
{
    if i == 0 {
        assert(x.take(0) =~= y.take(0));
    } else {
        lemma_register_diff(x, y, j, i - 1);
        lemma_crc_register_take(x, i - 1);
        lemma_crc_register_take(y, i - 1);
        let rx = crc_register(x.take(i - 1));
        let ry = crc_register(y.take(i - 1));
        let bx = x[i - 1];
        let by_ = y[i - 1];
        if i - 1 < j {
            assert(bx == by_);
        } else if i - 1 == j {
            assert((rx ^ (bx as u32)) != (rx ^ (by_ as u32))) by (bit_vector)
                requires
                    bx != by_,
            ;
            lemma_crc_bits_distinct(rx ^ (bx as u32), ry ^ (by_ as u32), 8);
        } else {
            assert(bx == by_);
            assert((rx ^ (bx as u32)) != (ry ^ (bx as u32))) by (bit_vector)
                requires
                    rx != ry,
            ;
            lemma_crc_bits_distinct(rx ^ (bx as u32), ry ^ (by_ as u32), 8);
        }
    }
}

/// CRC-32 tells apart two texts of one length that differ in one byte.
pub proof fn lemma_crc32_one_byte(x: Seq<u8>, y: Seq<u8>, j: int)
    requires
        x.len() == y.len(),
        0 <= j < x.len(),
        x[j] != y[j],
        forall|k: int| 0 <= k < x.len() && k != j ==> x[k] == y[k],
    ensures
        crc32_spec(x) != crc32_spec(y),
{
    lemma_register_diff(x, y, j, x.len() as int);
    assert(x.take(x.len() as int) =~= x);
    assert(y.take(y.len() as int) =~= y);
    let a = crc_register(x);
    let b = crc_register(y);
    assert(!a != !b) by (bit_vector)
        requires
            a != b,
    ;
}

/// A stored blob with any one bit flipped (in the header, the body or the CRC) is refused.
pub proof fn law_single_bit_flip_detected(m: RecordModel, pos: int, bit: u8)
    requires
        0 <= pos < encoding(m).len(),
        bit < 8,
    ensures
        decode_spec(encoding(m).update(pos, encoding(m)[pos] ^ (1u8 << bit))) is None,
{
    let b = encoding(m);
    let body = enc_body(m);
    let crc = crc32_spec(body);
    let v = b[pos];
    let f = v ^ (1u8 << bit);
    let b2 = b.update(pos, f);
    assert(f != v) by (bit_vector)
        requires
            f == v ^ (1u8 << bit),
            bit < 8,
    ;
    let l = b.len() as int;
    assert(b =~= body + le32(crc));
    assert(l == body.len() + 4);
    lemma_le32(crc);
    assert(rd32(b, l - 4) == crc);
    if decode_spec(b2) is Some {
        law_decode_checks(b2);
        if pos < l - 4 {
            assert(b2.take(l - 4) =~= body.update(pos, f));
            assert(rd32(b2, l - 4) == rd32(b, l - 4));
            lemma_crc32_one_byte(body, body.update(pos, f), pos);
        } else {
            assert(b2.take(l - 4) =~= body);
            let k = pos - (l - 4);
            assert(b2[l - 4] == if k == 0 { f } else { b[l - 4] });
            assert(b2[l - 3] == if k == 1 { f } else { b[l - 3] });
            assert(b2[l - 2] == if k == 2 { f } else { b[l - 2] });
            assert(b2[l - 1] == if k == 3 { f } else { b[l - 1] });
            assert(rd32(b2, l - 4) != rd32(b, l - 4));
        }
    }
}

/// Decoding the stored blob of a well-formed record gives the record back. The handset
/// options that the blob does not carry (BigFred login and PIN, programming mode, roster
/// mode and static roster) must hold their defaults.
proof fn lemma_roundtrip_header(rec: PersistRecord)
    requires
        rec.wf(),
    ensures
        ({
            let m = rec@;
            let b = encoding(m);
            &&& rd32(b, 0) == MAGIC
            &&& rd16(b, 4) == 3
            &&& rd16(b, 6) == m.credentials.len()
            &&& rd16(b, 8) == m.locos.len()
            &&& b =~= enc_head(m) + enc_creds(m.credentials) + enc_locos(m.locos) + enc_tags(m) + le32(crc32_spec(enc_body(m)))
        }),
{
    let m = rec@;
    let b = encoding(m);
    let nc = m.credentials.len();
    let nl = m.locos.len();
    let hdr = enc_head(m);
    let ec = enc_creds(m.credentials);
    let el = enc_locos(m.locos);
    let tg = enc_tags(m);
    let tail = le32(crc32_spec(enc_body(m)));
    lemma_wf_sections(rec);
    assert(b =~= hdr + ec + el + tg + tail);
    assert(b.subrange(0, 10) =~= hdr) by {
        lemma_slice_of_concat(Seq::empty(), hdr, ec + el + tg + tail);
        assert(Seq::<u8>::empty() + hdr + (ec + el + tg + tail) =~= b);
    }
    lemma_le32(MAGIC);
    lemma_le16(VERSION);
    lemma_le16(nc as u16);
    lemma_le16(nl as u16);
    assert forall|j: int| 0 <= j < 10 implies b[j] == #[trigger] hdr[j] by {
        assert(b.subrange(0, 10)[j] == b[j]);
    }
}

proof fn lemma_roundtrip_sections(rec: PersistRecord)
    requires
        rec.wf(),
    ensures
        ({
            let m = rec@;
            let b = encoding(m);
            let o1: int = 10 + enc_creds(m.credentials).len() as int;
            let o2: int = o1 + enc_locos(m.locos).len();
            &&& b.subrange(10, o1) =~= enc_creds(m.credentials)
            &&& b.subrange(o1, o2) =~= enc_locos(m.locos)
            &&& b.subrange(o2, b.len() - 4) =~= enc_tags(m)
            &&& b.len() - 4 == o2 + enc_tags(m).len()
        }),
{
    let m = rec@;
    let b = encoding(m);
    let hdr = enc_head(m);
    let ec = enc_creds(m.credentials);
    let el = enc_locos(m.locos);
    let tg = enc_tags(m);
    let tail = le32(crc32_spec(enc_body(m)));
    lemma_roundtrip_header(rec);
    assert(b.subrange(10, 10 + ec.len() as int) =~= ec) by {
        lemma_slice_of_concat(hdr, ec, el + tg + tail);
        assert(hdr + ec + (el + tg + tail) =~= b);
    }
    assert(b.subrange(10 + ec.len() as int, 10 + ec.len() as int + el.len() as int) =~= el) by {
        lemma_slice_of_concat(hdr + ec, el, tg + tail);
        assert(hdr + ec + el + (tg + tail) =~= b);
    }
    assert(b.subrange(10 + ec.len() as int + el.len() as int, b.len() - 4) =~= tg) by {
        lemma_slice_of_concat(hdr + ec + el, tg, tail);
        assert(hdr + ec + el + tg + tail =~= b);
    }
}

/// Decoding the stored blob of a well-formed record gives the record back. The handset
/// options that the blob does not carry (BigFred login and PIN, programming mode, roster
/// mode and static roster) must hold their defaults.
#[verifier::spinoff_prover]
pub proof fn law_persist_roundtrip(rec: PersistRecord)
    requires
        rec.wf(),
        rec.bigfred_login@.len() == 0,
        rec.bigfred_pin@.len() == 0,
        !rec.programming_mode,
        rec.roster_mode == RosterMode::Auto,
        rec.static_roster@.len() == 0,
    ensures
        decode_spec(encoding(rec@)) == Some(rec@),
{
    let m = rec@;
    let body = enc_body(m);
    let crc = crc32_spec(body);
    let b = encoding(m);
    let nc = m.credentials.len();
    let nl = m.locos.len();
    let ec = enc_creds(m.credentials);
    let el = enc_locos(m.locos);
    let tg = enc_tags(m);
    let tail = le32(crc);
    let o1: int = 10 + ec.len() as int;
    let o2: int = o1 + el.len();
    let crc_pos: int = b.len() - 4;
    lemma_roundtrip_header(rec);
    lemma_roundtrip_sections(rec);
    lemma_wf_sections(rec);
    lemma_dec_creds(b, 10, m.credentials);
    lemma_dec_locos(b, o1, m.locos);
    let m0 = RecordModel {
        credentials: m.credentials.take(min_nat(nc, 8) as int),
        locos: m.locos.take(min_nat(nl, 12) as int),
        ..default_model()
    };
    assert(m0.credentials =~= m.credentials);
    assert(m0.locos =~= m.locos);
    lemma_dec_tags_section(b, o2, m, m0);
    assert(m.wifi_hostname.len() == 0 ==> m.wifi_hostname =~= m0.wifi_hostname);
    assert(m.static_roster =~= m0.static_roster);
    assert(m.bigfred_login =~= m0.bigfred_login);
    assert(m.bigfred_pin =~= m0.bigfred_pin);
    assert(rd32(b, crc_pos) == crc && b.take(crc_pos) =~= body) by {
        assert(b =~= body + tail);
        lemma_le32(crc);
    }
}

} // verus!

verus! {

/// Saving a password and then looking the network up gives the saved password (cut to its
/// capacity): for an SSID that fits its field, and whether the network was new, known, or
/// evicted the oldest entry.
pub proof fn law_set_then_find_password(creds: Seq<(Seq<u8>, Seq<u8>)>, ssid: Seq<u8>, pw: Seq<u8>)
    requires
        ssid.len() <= 32,
    ensures
        match find_cred(set_password_spec(creds, ssid, pw), ssid, 0) {
            Some(i) => set_password_spec(creds, ssid, pw)[i].1 == fit_bytes(pw, 64),
            None => false,
        },
{
    lemma_find_cred(creds, ssid, 0);
    let after = set_password_spec(creds, ssid, pw);
    match find_cred(creds, ssid, 0) {
        Some(k) => {
            lemma_find_cred_same_keys(after, creds, ssid, 0);
        },
        None => {
            let last = after.len() - 1;
            assert(after[last].0 == ssid);
            assert forall|j: int| 0 <= j < last implies after[j].0 != ssid by {
                if creds.len() < MAX_CREDENTIALS {
                    assert(after[j] == creds[j]);
                } else {
                    assert(after[j] == creds[j + 1]);
                }
            }
            lemma_find_cred_first(after, ssid, last);
        },
    }
}

/// Saving a password never grows the saved-network list past [`MAX_CREDENTIALS`], and a
/// full list stays full (the oldest entry makes room).
pub proof fn law_saved_networks_bounded(creds: Seq<(Seq<u8>, Seq<u8>)>, ssid: Seq<u8>, pw: Seq<u8>)
    requires
        creds.len() <= MAX_CREDENTIALS,
    ensures
        set_password_spec(creds, ssid, pw).len() <= MAX_CREDENTIALS,
        creds.len() == MAX_CREDENTIALS ==> set_password_spec(creds, ssid, pw).len() == MAX_CREDENTIALS,
        creds.len() < MAX_CREDENTIALS && find_cred(creds, ssid, 0) is None ==> set_password_spec(creds, ssid, pw).len()
            == creds.len() + 1,
{
    lemma_find_cred(creds, ssid, 0);
}

/// The first matching credential is the one `find_cred` returns.
proof fn lemma_find_cred_first(creds: Seq<(Seq<u8>, Seq<u8>)>, ssid: Seq<u8>, k: int)
    requires
        0 <= k < creds.len(),
        creds[k].0 == ssid,
        forall|j: int| 0 <= j < k ==> creds[j].0 != ssid,
    ensures
        find_cred(creds, ssid, 0) == Some(k),
{
    lemma_find_cred(creds, ssid, 0);
    match find_cred(creds, ssid, 0) {
        Some(m) => {
            if m < k {
                assert(creds[m].0 != ssid);
            } else if m > k {
                lemma_find_cred_upto(creds, ssid, 0, k);
            }
        },
        None => {
            assert(creds[k].0 != ssid);
        },
    }
}

proof fn lemma_find_cred_same_keys(a: Seq<(Seq<u8>, Seq<u8>)>, b: Seq<(Seq<u8>, Seq<u8>)>, ssid: Seq<u8>, i: int)
    requires
        a.len() == b.len(),
        forall|j: int| 0 <= j < a.len() ==> a[j].0 == b[j].0,
    ensures
        find_cred(a, ssid, i) == find_cred(b, ssid, i),
    decreases a.len() - i,
{
    if 0 <= i < a.len() && a[i].0 != ssid {
        lemma_find_cred_same_keys(a, b, ssid, i + 1);
    }
}

proof fn lemma_find_cred_upto(creds: Seq<(Seq<u8>, Seq<u8>)>, ssid: Seq<u8>, i: int, k: int)
    requires
        0 <= i <= k < creds.len(),
        creds[k].0 == ssid,
    ensures
        match find_cred(creds, ssid, i) {
            Some(m) => m <= k,
            None => false,
        },
    decreases k - i,
{
    if creds[i].0 != ssid {
        lemma_find_cred_upto(creds, ssid, i + 1, k);
    }
}

} // verus!
