//! Protocol-agnostic locomotive catalogues (live roster, static list, address-only).

use crate::caps::{LocoSource, LocoSourceMask, ProtocolCaps};
use crate::command::{loco_wire, LocoId};
use crate::model::RosterEntry;
use crate::persist::StaticRosterEntry;
use crate::text::copy_range;
use vstd::prelude::*;

verus! {

/// Wait this long after connect for a live roster burst before treating the server
/// roster as unavailable.
pub const ROSTER_BURST_TIMEOUT_MS: u64 = 3000;

/// One row in a catalogue: display name and WiThrottle address text.
#[derive(Clone, Debug, PartialEq, Eq)]
pub struct LocoRef {
    pub name: Vec<u8>,
    pub addr: Vec<u8>,
}

/// Read-only view of locomotives the UI can pick from.
pub trait LocoCatalog {
    fn len(&self) -> usize;

    fn entry(&self, i: usize) -> Option<LocoRef>;

    fn allows_pick(&self) -> bool;

    fn source(&self) -> LocoSource;
}

/// Address of a live roster entry: negative or out-of-range addresses read as 0; long
/// when the station says `L`/`l` or the address is 128 or more.
pub open spec fn roster_loco(e: RosterEntry) -> LocoId {
    let a: u16 = if 0 <= e.address <= 65535 { e.address as u16 } else { 0 };
    LocoId { addr: a, long: e.length == 'L' || e.length == 'l' || a >= 128 }
}

fn roster_wire_addr(e: &RosterEntry) -> (r: Vec<u8>)
    ensures
        r@ == loco_wire(roster_loco(*e)),
{
    let addr: u16 = if e.address >= 0 && e.address <= 65535 {
        e.address as u16
    } else {
        0
    };
    let long = e.length == 'L' || e.length == 'l' || addr >= 128;
    LocoId { addr, long }.to_wire()
}

/// Live roster from the command station.
#[derive(Clone, Copy, Debug)]
pub struct ServerCatalog<'a> {
    entries: &'a [RosterEntry],
}

impl<'a> ServerCatalog<'a> {
    pub closed spec fn entries_spec(&self) -> Seq<RosterEntry> {
        self.entries@
    }

    pub fn new(entries: &'a [RosterEntry]) -> (c: ServerCatalog<'a>)
        ensures
            c.entries_spec() == entries@,
    {
        ServerCatalog { entries }
    }
}

impl<'a> LocoCatalog for ServerCatalog<'a> {
    fn len(&self) -> (n: usize)
        ensures
            n == self.entries_spec().len(),
    {
        self.entries.len()
    }

    fn entry(&self, i: usize) -> (r: Option<LocoRef>)
        ensures
            match r {
                Some(l) => i < self.entries_spec().len() && l.name@ == self.entries_spec()[i as int].name@
                    && l.addr@ == loco_wire(roster_loco(self.entries_spec()[i as int])),
                None => i >= self.entries_spec().len(),
            },
    {
        if i >= self.entries.len() {
            return None;
        }
        let e = &self.entries[i];
        Some(LocoRef { name: copy_range(e.name.as_slice(), 0, e.name.len()), addr: roster_wire_addr(e) })
    }

    fn allows_pick(&self) -> (r: bool)
        ensures
            r == (self.entries_spec().len() > 0),
    {
        self.entries.len() > 0
    }

    fn source(&self) -> (s: LocoSource)
        ensures
            s == LocoSource::ServerRoster,
    {
        LocoSource::ServerRoster
    }
}

/// Static roster from persistent settings, shared by every protocol.
#[derive(Clone, Copy, Debug)]
pub struct StaticCatalog<'a> {
    entries: &'a [StaticRosterEntry],
}

impl<'a> StaticCatalog<'a> {
    pub closed spec fn entries_spec(&self) -> Seq<StaticRosterEntry> {
        self.entries@
    }

    pub fn new(entries: &'a [StaticRosterEntry]) -> (c: StaticCatalog<'a>)
        ensures
            c.entries_spec() == entries@,
    {
        StaticCatalog { entries }
    }
}

impl<'a> LocoCatalog for StaticCatalog<'a> {
    fn len(&self) -> (n: usize)
        ensures
            n == self.entries_spec().len(),
    {
        self.entries.len()
    }

    fn entry(&self, i: usize) -> (r: Option<LocoRef>)
        ensures
            match r {
                Some(l) => i < self.entries_spec().len() && l.name@
                    == self.entries_spec()[i as int].display_name_spec() && l.addr@
                    == self.entries_spec()[i as int].addr@,
                None => i >= self.entries_spec().len(),
            },
    {
        if i >= self.entries.len() {
            return None;
        }
        let e = &self.entries[i];
        let name = e.display_name();
        Some(
            LocoRef {
                name: copy_range(name, 0, name.len()),
                addr: copy_range(e.addr.as_slice(), 0, e.addr.len()),
            },
        )
    }

    fn allows_pick(&self) -> (r: bool)
        ensures
            r == (self.entries_spec().len() > 0),
    {
        self.entries.len() > 0
    }

    fn source(&self) -> (s: LocoSource)
        ensures
            s == LocoSource::StaticRoster,
    {
        LocoSource::StaticRoster
    }
}

/// Manual DCC address; no list. Shared by every protocol.
#[derive(Clone, Copy, Debug)]
pub struct AddressCatalog;

impl LocoCatalog for AddressCatalog {
    fn len(&self) -> (n: usize)
        ensures
            n == 0,
    {
        0
    }

    fn entry(&self, _i: usize) -> (r: Option<LocoRef>)
        ensures
            r is None,
    {
        None
    }

    fn allows_pick(&self) -> (r: bool)
        ensures
            !r,
    {
        false
    }

    fn source(&self) -> (s: LocoSource)
        ensures
            s == LocoSource::AddressOnly,
    {
        LocoSource::AddressOnly
    }
}

/// Enum dispatch so the UI can hold one catalogue.
#[derive(Clone, Copy, Debug)]
pub enum Catalog<'a> {
    Server(ServerCatalog<'a>),
    Static(StaticCatalog<'a>),
    Address(AddressCatalog),
}

impl<'a> Catalog<'a> {
    /// Catalogue for an already-resolved effective source.
    pub fn for_source(
        source: LocoSource,
        live: &'a [RosterEntry],
        static_roster: &'a [StaticRosterEntry],
    ) -> (c: Catalog<'a>)
        ensures
            match source {
                LocoSource::ServerRoster => c matches Catalog::Server(s) && s.entries_spec() == live@,
                LocoSource::StaticRoster => c matches Catalog::Static(s) && s.entries_spec()
                    == static_roster@,
                LocoSource::AddressOnly => c is Address,
            },
    {
        match source {
            LocoSource::ServerRoster => Catalog::Server(ServerCatalog::new(live)),
            LocoSource::StaticRoster => Catalog::Static(StaticCatalog::new(static_roster)),
            LocoSource::AddressOnly => Catalog::Address(AddressCatalog),
        }
    }
}

impl<'a> LocoCatalog for Catalog<'a> {
    fn len(&self) -> (n: usize)
        ensures
            n == (match self {
                Catalog::Server(c) => c.entries_spec().len(),
                Catalog::Static(c) => c.entries_spec().len(),
                Catalog::Address(_) => 0,
            }),
    {
        match self {
            Catalog::Server(c) => c.len(),
            Catalog::Static(c) => c.len(),
            Catalog::Address(c) => c.len(),
        }
    }

    fn entry(&self, i: usize) -> (r: Option<LocoRef>)
        ensures
            match self {
                Catalog::Server(c) => match r {
                    Some(l) => i < c.entries_spec().len() && l.name@ == c.entries_spec()[i as int].name@
                        && l.addr@ == loco_wire(roster_loco(c.entries_spec()[i as int])),
                    None => i >= c.entries_spec().len(),
                },
                Catalog::Static(c) => match r {
                    Some(l) => i < c.entries_spec().len() && l.name@
                        == c.entries_spec()[i as int].display_name_spec() && l.addr@
                        == c.entries_spec()[i as int].addr@,
                    None => i >= c.entries_spec().len(),
                },
                Catalog::Address(_) => r is None,
            },
    {
        match self {
            Catalog::Server(c) => c.entry(i),
            Catalog::Static(c) => c.entry(i),
            Catalog::Address(c) => c.entry(i),
        }
    }

    fn allows_pick(&self) -> (r: bool)
        ensures
            r == (match self {
                Catalog::Server(c) => c.entries_spec().len() > 0,
                Catalog::Static(c) => c.entries_spec().len() > 0,
                Catalog::Address(_) => false,
            }),
    {
        match self {
            Catalog::Server(c) => c.allows_pick(),
            Catalog::Static(c) => c.allows_pick(),
            Catalog::Address(c) => c.allows_pick(),
        }
    }

    fn source(&self) -> (s: LocoSource)
        ensures
            s == (match self {
                Catalog::Server(_) => LocoSource::ServerRoster,
                Catalog::Static(_) => LocoSource::StaticRoster,
                Catalog::Address(_) => LocoSource::AddressOnly,
            }),
    {
        match self {
            Catalog::Server(c) => c.source(),
            Catalog::Static(c) => c.source(),
            Catalog::Address(c) => c.source(),
        }
    }
}

pub open spec fn source_available_spec(src: LocoSource, live_len: nat, static_len: nat) -> bool {
    match src {
        LocoSource::ServerRoster => live_len > 0,
        LocoSource::StaticRoster => static_len > 0,
        LocoSource::AddressOnly => true,
    }
}

/// Whether `src` currently has data.
pub fn source_available(src: LocoSource, live_len: usize, static_len: usize) -> (r: bool)
    ensures
        r == source_available_spec(src, live_len as nat, static_len as nat),
{
    match src {
        LocoSource::ServerRoster => live_len > 0,
        LocoSource::StaticRoster => static_len > 0,
        LocoSource::AddressOnly => true,
    }
}

/// Effective source for a session: a supported server-roster preference is kept until
/// the roster has settled; after that the preference stands when supported and
/// available, and everything else falls back to manual addresses.
pub open spec fn resolve_spec(
    pref: LocoSource,
    supported: LocoSourceMask,
    live_len: nat,
    static_len: nat,
    live_settled: bool,
) -> LocoSource {
    if pref == LocoSource::ServerRoster && supported.has(pref) && !live_settled {
        pref
    } else if supported.has(pref) && source_available_spec(pref, live_len, static_len) {
        pref
    } else {
        LocoSource::AddressOnly
    }
}

/// Effective source for this session. Fallback is one step to manual addresses.
pub fn resolve_effective(
    pref: LocoSource,
    supported: LocoSourceMask,
    live_len: usize,
    static_len: usize,
    live_settled: bool,
) -> (r: LocoSource)
    ensures
        r == resolve_spec(pref, supported, live_len as nat, static_len as nat, live_settled),
{
    let waiting_for_burst = pref == LocoSource::ServerRoster && supported.contains(pref)
        && !live_settled;
    if waiting_for_burst {
        return pref;
    }
    if supported.contains(pref) && source_available(pref, live_len, static_len) {
        pref
    } else {
        LocoSource::AddressOnly
    }
}

/// [`resolve_effective`] from a protocol's capabilities.
pub fn resolve_effective_caps(
    pref: LocoSource,
    caps: ProtocolCaps,
    live_len: usize,
    static_len: usize,
    live_settled: bool,
) -> (r: LocoSource)
    ensures
        r == resolve_spec(pref, caps.loco_sources, live_len as nat, static_len as nat, live_settled),
{
    resolve_effective(pref, caps.loco_sources, live_len, static_len, live_settled)
}

/// The effective source is either the preference or manual addresses, is always one the
/// protocol supports when it is the preference, and never falls back to the static roster.
pub proof fn law_resolve_is_pref_or_address(
    pref: LocoSource,
    supported: LocoSourceMask,
    live_len: nat,
    static_len: nat,
    live_settled: bool,
)
    ensures
        ({
            let r = resolve_spec(pref, supported, live_len, static_len, live_settled);
            &&& (r == pref || r == LocoSource::AddressOnly)
            &&& (r == pref && pref != LocoSource::AddressOnly ==> supported.has(pref))
            &&& (r == LocoSource::StaticRoster ==> pref == LocoSource::StaticRoster)
        }),
{
}

/// Once settled, a chosen list source always has data to show.
pub proof fn law_resolved_source_available(
    pref: LocoSource,
    supported: LocoSourceMask,
    live_len: nat,
    static_len: nat,
)
    ensures
        source_available_spec(
            resolve_spec(pref, supported, live_len, static_len, true),
            live_len,
            static_len,
        ),
{
}

/// A mask without the server roster never yields it.
pub proof fn law_no_server_roster_without_support(
    pref: LocoSource,
    supported: LocoSourceMask,
    live_len: nat,
    static_len: nat,
    live_settled: bool,
)
    requires
        !supported.has(LocoSource::ServerRoster),
    ensures
        resolve_spec(pref, supported, live_len, static_len, live_settled) != LocoSource::ServerRoster,
{
}

/// Next (`next`) or previous index in a list of `len`; an unknown or out-of-range
/// `current` starts from the first or last entry.
pub open spec fn neighbour_spec(len: nat, current: Option<usize>, next: bool) -> Option<nat> {
    if len == 0 {
        None
    } else {
        match current {
            Some(i) if i < len => if next {
                Some(((i + 1) % (len as int)) as nat)
            } else {
                Some(((i + len - 1) % (len as int)) as nat)
            },
            _ => if next {
                Some(0)
            } else {
                Some((len - 1) as nat)
            },
        }
    }
}

/// Next or previous index in a catalogue. `None` when the list is empty.
pub fn neighbour_index(len: usize, current: Option<usize>, next: bool) -> (r: Option<usize>)
    ensures
        match neighbour_spec(len as nat, current, next) {
            Some(v) => r == Some(v as usize),
            None => r is None,
        },
        r matches Some(v) ==> v < len,
{
    if len == 0 {
        return None;
    }
    let cur = match current {
        Some(i) => if i < len {
            Some(i)
        } else {
            None
        },
        None => None,
    };
    match cur {
        Some(i) => {
            assert(i + 1 < len ==> (i + 1) % (len as int) == i + 1) by (nonlinear_arith);
            assert(i + 1 == len ==> (i + 1) % (len as int) == 0) by (nonlinear_arith)
                requires
                    len > 0,
            ;
            assert(i == 0 ==> (i + len - 1) % (len as int) == len - 1) by (nonlinear_arith)
                requires
                    len > 0,
            ;
            assert(i > 0 ==> (i + len - 1) % (len as int) == i - 1) by (nonlinear_arith)
                requires
                    i < len,
            ;
            if next {
            Some((i + 1) % len)
            } else if i == 0 {
                Some(len - 1)
            } else {
                Some(i - 1)
            }
        },
        None => if next {
            Some(0)
        } else {
            Some(len - 1)
        },
    }
}

/// Stepping forward then back (or back then forward) returns to an in-range index.
pub proof fn law_neighbour_inverse(len: nat, i: usize, next: bool)
    requires
        (i as nat) < len,
    ensures
        ({
            let j = neighbour_spec(len, Some(i), next).unwrap();
            j < len && (j as usize) as nat == j ==> neighbour_spec(len, Some(j as usize), !next)
                == Some(i as nat)
        }),
{
    let j = neighbour_spec(len, Some(i), next).unwrap();
    if next {
        assert(j == (i + 1) % (len as int));
        if i + 1 == len {
            assert(j == 0) by (nonlinear_arith)
                requires
                    j == (i + 1) % (len as int),
                    i + 1 == len,
                    len > 0,
            ;
        } else {
            assert(j == i + 1) by (nonlinear_arith)
                requires
                    j == (i + 1) % (len as int),
                    i + 1 < len,
            ;
        }
        assert(((j as int + len - 1) % (len as int)) == i as int) by (nonlinear_arith)
            requires
                (i + 1 == len && j == 0) || (i + 1 < len && j == i + 1),
                i < len,
        ;
    } else {
        if i == 0 {
            assert(j == len - 1) by (nonlinear_arith)
                requires
                    j == (i + len - 1) % (len as int),
                    i == 0,
                    len > 0,
            ;
        } else {
            assert(j == i - 1) by (nonlinear_arith)
                requires
                    j == (i + len - 1) % (len as int),
                    0 < i < len,
            ;
        }
        assert(((j as int + 1) % (len as int)) == i as int) by (nonlinear_arith)
            requires
                (i == 0 && j == len - 1) || (0 < i && j == i - 1),
                i < len,
        ;
    }
}

} // verus!
