//! Protocol capabilities: ask "can it do X?", never "is it WiThrottle?".

use crate::command::Protocol;
use crate::text::{find_bytes, find_from, is_at, matches_at};
use vstd::prelude::*;

verus! {

/// How the handset obtains locomotives for the current session.
#[derive(Clone, Copy, Debug, PartialEq, Eq, Structural)]
pub enum LocoSource {
    /// Live roster pushed by the station.
    ServerRoster,
    /// Static roster from programming / Soft-AP.
    StaticRoster,
    /// Manual DCC address; no list.
    AddressOnly,
}

impl LocoSource {
    /// Short diagnostics / log label.
    pub fn label(self) -> (s: &'static str)
        ensures
            s == (match self {
                LocoSource::ServerRoster => "server",
                LocoSource::StaticRoster => "static",
                LocoSource::AddressOnly => "address",
            }),
    {
        match self {
            LocoSource::ServerRoster => "server",
            LocoSource::StaticRoster => "static",
            LocoSource::AddressOnly => "address",
        }
    }

    pub open spec fn bit_spec(self) -> u8 {
        match self {
            LocoSource::ServerRoster => 1,
            LocoSource::StaticRoster => 2,
            LocoSource::AddressOnly => 4,
        }
    }

    fn bit(self) -> (b: u8)
        ensures
            b == self.bit_spec(),
    {
        match self {
            LocoSource::ServerRoster => 1,
            LocoSource::StaticRoster => 2,
            LocoSource::AddressOnly => 4,
        }
    }
}

/// Bitmask of [`LocoSource`] values a protocol can honour.
#[derive(Clone, Copy, Debug, PartialEq, Eq, Structural)]
pub struct LocoSourceMask(pub u8);

impl LocoSourceMask {
    pub fn none() -> (m: LocoSourceMask)
        ensures
            m.0 == 0,
    {
        LocoSourceMask(0)
    }

    pub fn server_roster() -> (m: LocoSourceMask)
        ensures
            m.0 == 1,
    {
        LocoSourceMask(1)
    }

    pub fn static_roster() -> (m: LocoSourceMask)
        ensures
            m.0 == 2,
    {
        LocoSourceMask(2)
    }

    pub fn address_only() -> (m: LocoSourceMask)
        ensures
            m.0 == 4,
    {
        LocoSourceMask(4)
    }

    /// Shared by every protocol: static roster and manual address.
    pub fn shared() -> (m: LocoSourceMask)
        ensures
            m.0 == 6,
    {
        LocoSourceMask(6)
    }

    /// WiThrottle / BigFred: live roster plus the shared pair.
    pub fn all() -> (m: LocoSourceMask)
        ensures
            m.0 == 7,
    {
        LocoSourceMask(7)
    }

    /// Whether the mask honours `src`.
    pub open spec fn has(self, src: LocoSource) -> bool {
        self.0 & src.bit_spec() != 0
    }

    pub fn union(self, other: LocoSourceMask) -> (r: LocoSourceMask)
        ensures
            r.0 == self.0 | other.0,
            forall|s: LocoSource| #[trigger] r.has(s) == (self.has(s) || other.has(s)),
    {
        let r = LocoSourceMask(self.0 | other.0);
        assert forall|s: LocoSource| #[trigger] r.has(s) == (self.has(s) || other.has(s)) by {
            let a = self.0;
            let b = other.0;
            let m = s.bit_spec();
            assert((m == 1 || m == 2 || m == 4) ==> (((a | b) & m != 0) == (a & m != 0 || b & m
                != 0))) by (bit_vector);
        }
        r
    }

    pub fn contains(self, src: LocoSource) -> (r: bool)
        ensures
            r == self.has(src),
    {
        self.0 & src.bit() != 0
    }
}

/// TCP vs UDP for the drive session.
#[derive(Clone, Copy, Debug, PartialEq, Eq, Structural)]
pub enum Transport {
    Tcp,
    Udp,
}

/// What to send before the drive session is configured. Firmware executes it.
#[derive(Clone, Copy, Debug, PartialEq, Eq)]
pub enum Probe {
    NoProbe,
    HttpGet {
        port: u16,
        path: &'static str,
        /// Substring that must appear in the HTTP body.
        expect: &'static str,
    },
}

pub open spec fn crlf() -> Seq<u8> {
    seq![13u8, 10u8]
}

pub open spec fn crlfcrlf() -> Seq<u8> {
    seq![13u8, 10u8, 13u8, 10u8]
}

/// `HTTP/1.1 200 ` (`minor` is the byte after the dot).
pub open spec fn status_200(minor: u8) -> Seq<u8> {
    seq![72u8, 84, 84, 80, 47, 49, 46, minor, 32, 50, 48, 48, 32]
}

/// A bounded HTTP probe response matches when its status line starts with
/// `HTTP/1.1 200 ` or `HTTP/1.0 200 ` and `expect` (non-empty) occurs in the body.
pub open spec fn probe_matches_spec(resp: Seq<u8>, expect: Seq<u8>) -> bool {
    match (find_from(resp, crlfcrlf(), 0), find_from(resp, crlf(), 0)) {
        (Some(h), Some(st)) => {
            let status = resp.take(st);
            &&& (is_at(status, status_200(49), 0) || is_at(status, status_200(48), 0))
            &&& expect.len() > 0
            &&& find_from(resp.skip(h + 4), expect, 0) is Some
        },
        _ => false,
    }
}

fn status_prefix(minor: u8) -> (r: Vec<u8>)
    ensures
        r@ == status_200(minor),
{
    let r: Vec<u8> = vec![72u8, 84, 84, 80, 47, 49, 46, minor, 32, 50, 48, 48, 32];
    assert(r@ =~= status_200(minor));
    r
}

/// Validates a bounded HTTP probe response without parsing JSON.
pub fn http_probe_matches(response: &[u8], expect: &[u8]) -> (r: bool)
    ensures
        r == probe_matches_spec(response@, expect@),
{
    let hdr: Vec<u8> = vec![13u8, 10u8, 13u8, 10u8];
    assert(hdr@ =~= crlfcrlf());
    let header_end = match find_bytes(response, hdr.as_slice(), 0) {
        Some(h) => h,
        None => {
            return false;
        },
    };
    let nl: Vec<u8> = vec![13u8, 10u8];
    assert(nl@ =~= crlf());
    let status_end = match find_bytes(response, nl.as_slice(), 0) {
        Some(s) => s,
        None => {
            return false;
        },
    };
    proof {
        crate::text::lemma_find_from_facts(response@, crlfcrlf(), 0);
        crate::text::lemma_find_from_facts(response@, crlf(), 0);
        assert(find_from(response@, crlfcrlf(), 0) == Some(header_end as int));
        assert(find_from(response@, crlf(), 0) == Some(status_end as int));
        assert(header_end + 4 <= response@.len());
    }
    let status = crate::text::copy_range(response, 0, status_end);
    assert(status@ =~= response@.take(status_end as int));
    let p1 = status_prefix(49);
    let p0 = status_prefix(48);
    let ok = matches_at(status.as_slice(), p1.as_slice(), 0) || matches_at(
        status.as_slice(),
        p0.as_slice(),
        0,
    );
    if !ok || expect.len() == 0 {
        return false;
    }
    let n = response.len();
    assert(header_end + 4 <= n);
    let body_start: usize = header_end + 4;
    let body = crate::text::copy_range(response, body_start, response.len());
    assert(body@ =~= response@.skip(header_end + 4));
    find_bytes(body.as_slice(), expect, 0).is_some()
}

/// Closed set of protocol abilities. UI and domain consult this, not protocol identity.
#[derive(Clone, Copy, Debug, PartialEq, Eq)]
pub struct ProtocolCaps {
    pub loco_sources: LocoSourceMask,
    pub steal: bool,
    pub dead_man_switch: bool,
    pub function_labels: bool,
    pub pairing: bool,
    pub transport: Transport,
    pub default_port: u16,
    pub mdns_service: &'static str,
}

impl ProtocolCaps {
    pub fn supports_source(self, src: LocoSource) -> (r: bool)
        ensures
            r == self.loco_sources.has(src),
    {
        self.loco_sources.contains(src)
    }

    pub fn supports_pairing(self) -> (r: bool)
        ensures
            r == self.pairing,
    {
        self.pairing
    }

    pub fn supports_steal(self) -> (r: bool)
        ensures
            r == self.steal,
    {
        self.steal
    }
}

/// Static description of one protocol: capabilities, pre-session probe, labels.
#[derive(Clone, Copy, Debug, PartialEq, Eq)]
pub struct ProtocolInfo {
    pub caps: ProtocolCaps,
    pub probe: Probe,
    pub display_name: &'static str,
    pub glyph: char,
}

pub open spec fn withrottle_caps() -> ProtocolCaps {
    ProtocolCaps {
        loco_sources: LocoSourceMask(7),
        steal: true,
        dead_man_switch: true,
        function_labels: true,
        pairing: false,
        transport: Transport::Tcp,
        default_port: 12090,
        mdns_service: crate::withrottle::MDNS_SERVICE,
    }
}

pub open spec fn z21_caps() -> ProtocolCaps {
    ProtocolCaps {
        loco_sources: LocoSourceMask(6),
        steal: false,
        dead_man_switch: false,
        function_labels: false,
        pairing: false,
        transport: Transport::Udp,
        default_port: 21105,
        mdns_service: crate::z21::MDNS_SERVICE,
    }
}

/// BigFred drives with WiThrottle traffic, pairs handsets, and does not steal locos.
pub open spec fn bigfred_caps() -> ProtocolCaps {
    ProtocolCaps { pairing: true, steal: false, ..withrottle_caps() }
}

pub open spec fn bigfred_probe() -> Probe {
    Probe::HttpGet { port: 8080, path: "/api/v1/version", expect: "\"product\":\"bigfred\"" }
}

pub open spec fn protocol_caps(p: Protocol) -> ProtocolCaps {
    match p {
        Protocol::WiThrottle => withrottle_caps(),
        Protocol::Z21 => z21_caps(),
        Protocol::BigFred => bigfred_caps(),
    }
}

pub fn withrottle_info() -> (i: ProtocolInfo)
    ensures
        i == (ProtocolInfo {
            caps: withrottle_caps(),
            probe: Probe::NoProbe,
            display_name: "WiThrottle",
            glyph: 'W',
        }),
{
    ProtocolInfo {
        caps: ProtocolCaps {
            loco_sources: LocoSourceMask(7),
            steal: true,
            dead_man_switch: true,
            function_labels: true,
            pairing: false,
            transport: Transport::Tcp,
            default_port: 12090,
            mdns_service: crate::withrottle::MDNS_SERVICE,
        },
        probe: Probe::NoProbe,
        display_name: "WiThrottle",
        glyph: 'W',
    }
}

pub fn z21_info() -> (i: ProtocolInfo)
    ensures
        i == (ProtocolInfo { caps: z21_caps(), probe: Probe::NoProbe, display_name: "Z21", glyph: 'Z' }),
{
    ProtocolInfo {
        caps: ProtocolCaps {
            loco_sources: LocoSourceMask(6),
            steal: false,
            dead_man_switch: false,
            function_labels: false,
            pairing: false,
            transport: Transport::Udp,
            default_port: 21105,
            mdns_service: crate::z21::MDNS_SERVICE,
        },
        probe: Probe::NoProbe,
        display_name: "Z21",
        glyph: 'Z',
    }
}

pub fn bigfred_info() -> (i: ProtocolInfo)
    ensures
        i == (ProtocolInfo {
            caps: bigfred_caps(),
            probe: bigfred_probe(),
            display_name: "BigFred",
            glyph: 'B',
        }),
{
    let w = withrottle_info();
    ProtocolInfo {
        caps: ProtocolCaps { pairing: true, steal: false, ..w.caps },
        probe: Probe::HttpGet {
            port: 8080,
            path: "/api/v1/version",
            expect: "\"product\":\"bigfred\"",
        },
        display_name: "BigFred",
        glyph: 'B',
    }
}

impl Protocol {
    /// Every known protocol.
    pub const ALL: [Protocol; 3] = [Protocol::WiThrottle, Protocol::Z21, Protocol::BigFred];

    pub fn info(self) -> (i: ProtocolInfo)
        ensures
            i.caps == protocol_caps(self),
            i.probe == (if self == Protocol::BigFred { bigfred_probe() } else { Probe::NoProbe }),
            i.display_name == (match self {
                Protocol::WiThrottle => "WiThrottle",
                Protocol::Z21 => "Z21",
                Protocol::BigFred => "BigFred",
            }),
            i.glyph == (match self {
                Protocol::WiThrottle => 'W',
                Protocol::Z21 => 'Z',
                Protocol::BigFred => 'B',
            }),
    {
        match self {
            Protocol::WiThrottle => withrottle_info(),
            Protocol::Z21 => z21_info(),
            Protocol::BigFred => bigfred_info(),
        }
    }

    pub fn caps(self) -> (c: ProtocolCaps)
        ensures
            c == protocol_caps(self),
    {
        self.info().caps
    }

    pub fn probe(self) -> (p: Probe)
        ensures
            p == (if self == Protocol::BigFred { bigfred_probe() } else { Probe::NoProbe }),
    {
        self.info().probe
    }

    /// Short OLED / log label.
    pub fn display_name(self) -> (s: &'static str)
        ensures
            s == (match self {
                Protocol::WiThrottle => "WiThrottle",
                Protocol::Z21 => "Z21",
                Protocol::BigFred => "BigFred",
            }),
    {
        self.info().display_name
    }
}

/// Every protocol honours the static roster and manual addresses.
pub proof fn law_shared_sources_everywhere(p: Protocol)
    ensures
        protocol_caps(p).loco_sources.has(LocoSource::StaticRoster),
        protocol_caps(p).loco_sources.has(LocoSource::AddressOnly),
{
    assert(7u8 & 2u8 != 0 && 7u8 & 4u8 != 0 && 6u8 & 2u8 != 0 && 6u8 & 4u8 != 0) by (bit_vector);
}

/// Only stations that push a roster offer one: Z21 has no live roster, the TCP ones do.
pub proof fn law_server_roster_only_tcp(p: Protocol)
    ensures
        protocol_caps(p).loco_sources.has(LocoSource::ServerRoster) == (p != Protocol::Z21),
        protocol_caps(p).transport == (if p == Protocol::Z21 { Transport::Udp } else { Transport::Tcp }),
{
    assert(7u8 & 1u8 != 0 && 6u8 & 1u8 == 0) by (bit_vector);
}

/// BigFred is WiThrottle plus pairing, without stealing; only BigFred pairs or probes.
pub proof fn law_bigfred_is_withrottle_plus_pairing(p: Protocol)
    ensures
        bigfred_caps().loco_sources == withrottle_caps().loco_sources,
        bigfred_caps().transport == withrottle_caps().transport,
        bigfred_caps().mdns_service == withrottle_caps().mdns_service,
        bigfred_caps().default_port == withrottle_caps().default_port,
        bigfred_caps().pairing && !withrottle_caps().pairing,
        protocol_caps(p).pairing == (p == Protocol::BigFred),
{
}

} // verus!
