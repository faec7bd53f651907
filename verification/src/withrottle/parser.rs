//! WiThrottle line parser.
//!
//! A line is wire text: one byte per character, as the adapter receives it (each byte read
//! as the character of that code point). Stored texts keep that form and are bounded by
//! the size of their UTF-8 encoding (see [`crate::text::wire_len`]).

use crate::events::{events_view, EventModel, ServerEvent};
use crate::model::{
    entry_sep, entry_sep_bytes, property_sep, property_sep_bytes, segment_sep, segment_sep_bytes,
    Direction, TrackPower, MAX_FUNCTIONS,
};
use crate::text::{
    copy_range, find_bytes, find_from, fit_wire, is_at, matches_at, parse_i32_range, parse_i32_spec,
    parse_unsigned, parse_unsigned_range, trim, trim_range, wire_text,
};
use vstd::prelude::*;

verus! {

/// `AT+CIPSENDBUF=`, a prefix some stations put before lines.
pub open spec fn at_prefix() -> Seq<u8> {
    seq![65u8, 84, 43, 67, 73, 80, 83, 69, 78, 68, 66, 85, 70, 61]
}

pub open spec fn strip_at(w: Seq<u8>) -> Seq<u8>
    decreases w.len(),
{
    if is_at(w, at_prefix(), 0) {
        strip_at(w.skip(14))
    } else {
        w
    }
}

pub open spec fn short(s: Seq<u8>) -> Seq<u8> {
    fit_wire(s, 32)
}

pub open spec fn long(s: Seq<u8>) -> Seq<u8> {
    fit_wire(s, 64)
}

pub open spec fn loco(s: Seq<u8>) -> Seq<u8> {
    fit_wire(s, 12)
}

pub open spec fn two(a: u8, b: u8) -> Seq<u8> {
    seq![a, b]
}

pub open spec fn three(a: u8, b: u8, c: u8) -> Seq<u8> {
    seq![a, b, c]
}

/// `text[from..]` up to the next occurrence of `sep` (or the end).
pub open spec fn upto(text: Seq<u8>, sep: Seq<u8>, from: int) -> int {
    match find_from(text, sep, from) {
        Some(p) => p,
        None => text.len() as int,
    }
}

/// An entry splits into three segments only when it holds two segment separators.
pub open spec fn three_segments_ok(e: Seq<u8>) -> bool {
    find_from(e, segment_sep(), 0) is Some && find_from(e, segment_sep(), upto(e, segment_sep(), 0) + 3) is Some
}

pub open spec fn roster_event(e: Seq<u8>, index: u16) -> EventModel {
    let e0 = upto(e, segment_sep(), 0);
    let s1 = e0 + 3;
    let e1 = upto(e, segment_sep(), s1);
    let s2 = e1 + 3;
    let e2 = upto(e, segment_sep(), s2);
    let addr = e.subrange(s1, e1);
    let len_seg = e.subrange(s2, e2);
    EventModel::RosterEntry {
        index,
        name: short(e.subrange(0, e0)),
        address: match parse_i32_spec(addr) {
            Some(v) => v,
            None => 0,
        },
        length: if len_seg.len() > 0 {
            (len_seg[0] as u32) as char
        } else {
            ' '
        },
    }
}

/// Roster entries `i..count` starting at `start`; stops at an empty entry.
pub open spec fn roster_entries(s: Seq<u8>, start: int, i: int, count: int) -> Seq<EventModel>
    decreases count - i,
{
    if i >= count || start > s.len() {
        Seq::empty()
    } else {
        let end = upto(s, entry_sep(), start);
        if start >= end {
            Seq::empty()
        } else {
            seq![roster_event(s.subrange(start, end), i as u16)] + roster_entries(s, end + 3, i + 1, count)
        }
    }
}

/// Entries that the roster loop visits without slicing past the end of the line.
pub open spec fn roster_ok(s: Seq<u8>, start: int, i: int, count: int) -> bool
    decreases count - i,
{
    if i >= count {
        true
    } else if start > s.len() {
        false
    } else {
        let end = upto(s, entry_sep(), start);
        if start >= end {
            true
        } else {
            three_segments_ok(s.subrange(start, end)) && roster_ok(s, end + 3, i + 1, count)
        }
    }
}

pub open spec fn roster_count(s: Seq<u8>, sep: int) -> u16 {
    match parse_unsigned(s.subrange(0, sep), 65535) {
        Some(v) => v as u16,
        None => 0,
    }
}

/// `RL{count}]\[{name}}|{{address}}|{{length}]\[...`
pub open spec fn roster_list_spec(s: Seq<u8>) -> Seq<EventModel> {
    match find_from(s, entry_sep(), 1) {
        None => Seq::empty(),
        Some(sep) => {
            let count = roster_count(s, sep);
            seq![EventModel::RosterEntriesCount(count)] + roster_entries(s, sep + 3, 0, count as int)
        },
    }
}

pub open spec fn roster_list_ok(s: Seq<u8>) -> bool {
    s.len() > 0 && s[0] < 128 && match find_from(s, entry_sep(), 1) {
        None => true,
        Some(sep) => roster_ok(s, sep + 3, 0, roster_count(s, sep) as int),
    }
}

/// `M{t}A{addr}<;>{action}`: speed (`V1` is the station's emergency stop and reads as 0),
/// direction of the lead (`*`) or of one loco, function state.
pub open spec fn loco_action_spec(t: char, s: Seq<u8>) -> Seq<EventModel> {
    match find_from(s, property_sep(), 0) {
        None => Seq::empty(),
        Some(sep) => {
            let addr = s.subrange(0, sep);
            let act = s.skip(sep + 3);
            if act.len() == 0 {
                Seq::empty()
            } else if act[0] == 86 {
                match parse_unsigned(act.skip(1), 255) {
                    Some(v) => seq![EventModel::Speed { throttle: t, speed: if v == 1 { 0u8 } else { v as u8 } }],
                    None => Seq::empty(),
                }
            } else if act[0] == 82 {
                let dir = Direction::from_wire_spec(if act.len() > 1 { (act[1] as u32) as char } else { '1' });
                if addr == seq![42u8] {
                    seq![EventModel::DirectionLead { throttle: t, dir }]
                } else {
                    seq![EventModel::DirectionLoco { throttle: t, addr: loco(addr), dir }]
                }
            } else if act[0] == 70 {
                match parse_unsigned(act.skip(2), 255) {
                    Some(v) => seq![EventModel::FunctionState { throttle: t, func: v as u8, on: act[1] == 49 }],
                    None => Seq::empty(),
                }
            } else {
                Seq::empty()
            }
        },
    }
}

/// A function action needs its on/off character, and that character must be ASCII.
pub open spec fn loco_action_ok(s: Seq<u8>) -> bool {
    match find_from(s, property_sep(), 0) {
        None => true,
        Some(sep) => {
            let act = s.skip(sep + 3);
            act.len() > 0 && act[0] == 70 ==> act.len() >= 2 && act[1] < 128
        },
    }
}

/// Text after the first `<;>`, or all of `s`.
pub open spec fn label_rest(s: Seq<u8>) -> Seq<u8> {
    match find_from(s, property_sep(), 0) {
        Some(sep) => s.skip(sep + 3),
        None => s,
    }
}

/// Where the first label starts: after `]` and the two characters that follow it in the
/// line's UTF-8 form.
pub open spec fn label_start(r: Seq<u8>) -> int {
    if r.len() >= 2 && r[1] >= 128 {
        2
    } else {
        3
    }
}

/// Labels separated by `]\[`, at most [`MAX_FUNCTIONS`].
pub open spec fn labels_from(r: Seq<u8>, start: int, count: int) -> Seq<Seq<u8>>
    decreases r.len() + 3 - start,
{
    if count >= MAX_FUNCTIONS || start >= r.len() || start < 0 {
        Seq::empty()
    } else {
        let end = upto(r, entry_sep(), start);
        proof {
            crate::text::lemma_find_from_facts(r, entry_sep(), start);
        }
        let label = short(r.subrange(start, end));
        if end >= r.len() {
            seq![label]
        } else {
            seq![label] + labels_from(r, end + 3, count + 1)
        }
    }
}

/// Thirty-two labels, the ones not sent left empty.
pub open spec fn pad_labels(l: Seq<Seq<u8>>) -> Seq<Seq<u8>> {
    Seq::new(MAX_FUNCTIONS as nat, |i: int| if i < l.len() { l[i] } else { Seq::<u8>::empty() })
}

pub open spec fn fn_labels_spec(t: char, s: Seq<u8>) -> Seq<EventModel> {
    let r = label_rest(s);
    if r.len() == 0 || r[0] != 93 {
        Seq::empty()
    } else {
        seq![EventModel::RosterFunctionLabels { throttle: t, labels: pad_labels(labels_from(r, label_start(r), 0)) }]
    }
}

pub open spec fn fn_labels_ok(s: Seq<u8>) -> bool {
    let r = label_rest(s);
    r.len() > 0 && r[0] == 93 ==> !(r.len() >= 3 && r[1] < 128 && r[2] >= 128)
}

/// `M{t}+{addr}<;>{entry}` / `M{t}-{addr}<;>{d|r}`; `s` starts at the sign.
pub open spec fn add_remove_spec(t: char, s: Seq<u8>) -> Seq<EventModel> {
    match find_from(s, property_sep(), 0) {
        None => Seq::empty(),
        Some(sep) => {
            let addr = trim(s.subrange(1, sep));
            let entry = trim(s.skip(sep + 3));
            if s[0] == 43 {
                seq![EventModel::AddressAdded { throttle: t, addr: loco(addr), entry: long(entry) }]
            } else if s[0] == 45 && (entry == seq![100u8] || entry == seq![114u8] || entry == two(100, 10) || entry == two(114, 10)) {
                seq![EventModel::AddressRemoved { throttle: t, addr: loco(addr), entry: long(entry) }]
            } else {
                Seq::empty()
            }
        },
    }
}

/// `M{t}S{addr}<;>{entry}`: the loco is in use elsewhere.
pub open spec fn steal_spec(t: char, s: Seq<u8>) -> Seq<EventModel> {
    match find_from(s, property_sep(), 0) {
        None => Seq::empty(),
        Some(sep) => seq![
            EventModel::StealNeeded {
                throttle: t,
                addr: loco(trim(s.subrange(0, sep))),
                entry: long(trim(s.skip(sep + 3))),
            },
        ],
    }
}

pub open spec fn heartbeat_spec(s: Seq<u8>) -> Seq<EventModel> {
    if s.len() == 0 || s == seq![43u8] || s == seq![45u8] {
        Seq::empty()
    } else {
        match parse_unsigned(s, 0xFFFF_FFFF) {
            Some(v) if v > 0 => seq![EventModel::HeartbeatConfig { seconds: v as u32 }],
            _ => Seq::empty(),
        }
    }
}

pub open spec fn web_port_spec(s: Seq<u8>) -> Seq<EventModel> {
    match parse_unsigned(s, 65535) {
        Some(v) => seq![EventModel::WebPort(v as u16)],
        None => Seq::empty(),
    }
}

/// `M{t}{k}` with an ASCII throttle character.
pub open spec fn is_m(l: Seq<u8>, k: u8) -> bool {
    l.len() > 2 && l[0] == 77 && l[1] < 128 && l[2] == k
}

/// Events of one line (without CR/LF), after stripping `AT+CIPSENDBUF=` prefixes.
/// Turnout and route lists and actions (`PTL`, `PRL`, `PTA`, `PRA`) give none.
pub open spec fn parse_spec(w: Seq<u8>) -> Seq<EventModel> {
    let l = strip_at(w);
    if is_at(l, two(86, 78), 0) {
        seq![EventModel::Version(short(l.skip(2)))]
    } else if is_at(l, two(72, 84), 0) {
        seq![EventModel::ServerType(short(l.skip(2)))]
    } else if is_at(l, two(72, 116), 0) {
        seq![EventModel::ServerDescription(long(l.skip(2)))]
    } else if is_at(l, two(72, 77), 0) {
        seq![EventModel::Alert(long(l.skip(2)))]
    } else if is_at(l, two(72, 109), 0) {
        seq![EventModel::Message(long(l.skip(2)))]
    } else if is_at(l, two(80, 87), 0) {
        web_port_spec(l.skip(2))
    } else if is_at(l, three(80, 80, 65), 0) && l.len() > 3 {
        seq![EventModel::TrackPower(TrackPower::from_wire_spec((l[3] as u32) as char))]
    } else if l.len() > 0 && l[0] == 42 {
        heartbeat_spec(l.skip(1))
    } else if is_at(l, two(82, 76), 0) {
        roster_list_spec(l.skip(2))
    } else if is_at(l, three(80, 84, 76), 0) || is_at(l, three(80, 82, 76), 0) || is_at(
        l,
        three(80, 84, 65),
        0,
    ) || is_at(l, three(80, 82, 65), 0) {
        Seq::empty()
    } else if is_m(l, 65) {
        loco_action_spec((l[1] as u32) as char, l.skip(3))
    } else if is_m(l, 76) {
        fn_labels_spec((l[1] as u32) as char, l.skip(3))
    } else if is_m(l, 43) || is_m(l, 45) {
        add_remove_spec((l[1] as u32) as char, l.skip(2))
    } else if is_m(l, 83) {
        steal_spec((l[1] as u32) as char, l.skip(3))
    } else {
        seq![EventModel::Unknown(long(l))]
    }
}

/// Lines the parser handles without slicing inside a character or past the end: a roster
/// list whose first character is ASCII and whose announced entries each hold three
/// segments, a function action with an ASCII on/off character, and function labels whose
/// first label starts on a character.
pub open spec fn parse_ok(w: Seq<u8>) -> bool {
    let l = strip_at(w);
    if is_at(l, two(86, 78), 0) || is_at(l, two(72, 84), 0) || is_at(l, two(72, 116), 0)
        || is_at(l, two(72, 77), 0) || is_at(l, two(72, 109), 0) || is_at(l, two(80, 87), 0)
        || (is_at(l, three(80, 80, 65), 0) && l.len() > 3) || (l.len() > 0 && l[0] == 42) {
        true
    } else if is_at(l, two(82, 76), 0) {
        roster_list_ok(l.skip(2))
    } else if is_at(l, three(80, 84, 76), 0) || is_at(l, three(80, 82, 76), 0) || is_at(
        l,
        three(80, 84, 65),
        0,
    ) || is_at(l, three(80, 82, 65), 0) {
        true
    } else if is_m(l, 65) {
        loco_action_ok(l.skip(3))
    } else if is_m(l, 76) {
        fn_labels_ok(l.skip(3))
    } else {
        true
    }
}

} // verus!

verus! {

fn find_or_end(s: &[u8], pat: &[u8], from: usize) -> (r: usize)
    requires
        from <= s@.len(),
        pat@.len() > 0,
    ensures
        r as int == upto(s@, pat@, from as int),
        from <= r <= s@.len(),
        r < s@.len() ==> r + pat@.len() <= s@.len(),
{
    proof {
        crate::text::lemma_find_from_facts(s@, pat@, from as int);
    }
    match find_bytes(s, pat, from) {
        Some(p) => p,
        None => s.len(),
    }
}

fn roster_event_exec(e: &[u8], index: u16) -> (ev: ServerEvent)
    requires
        three_segments_ok(e@),
    ensures
        ev@ == roster_event(e@, index),
{
    let seg = segment_sep_bytes();
    proof {
        crate::text::lemma_find_from_facts(e@, segment_sep(), 0);
    }
    let n = e.len();
    let e0 = find_or_end(e, seg.as_slice(), 0);
    assert(e0 + 3 <= n);
    let s1 = e0 + 3;
    proof {
        crate::text::lemma_find_from_facts(e@, segment_sep(), s1 as int);
    }
    let e1 = find_or_end(e, seg.as_slice(), s1);
    assert(e1 + 3 <= n);
    let s2 = e1 + 3;
    let e2 = find_or_end(e, seg.as_slice(), s2);
    let name = wire_text(e, 0, e0, 32);
    let address = match parse_i32_range(e, s1, e1) {
        Some(v) => v,
        None => 0,
    };
    let length = if e2 > s2 {
        e[s2] as char
    } else {
        ' '
    };
    assert(e2 > s2 ==> e@.subrange(s2 as int, e2 as int)[0] == e@[s2 as int]);
    ServerEvent::RosterEntry { index, name, address, length }
}

fn roster_list(s: &[u8]) -> (r: Vec<ServerEvent>)
    requires
        roster_list_ok(s@),
    ensures
        events_view(r@) == roster_list_spec(s@),
{
    let sep_pat = entry_sep_bytes();
    let mut out: Vec<ServerEvent> = Vec::new();
    let sep = match find_bytes(s, sep_pat.as_slice(), 1) {
        Some(p) => p,
        None => {
            assert(events_view(out@) =~= Seq::<EventModel>::empty());
            return out;
        },
    };
    proof {
        crate::text::lemma_find_from_facts(s@, entry_sep(), 1);
    }
    let count: u16 = match parse_unsigned_range(s, 0, sep, 65535) {
        Some(v) => v as u16,
        None => 0,
    };
    out.push(ServerEvent::RosterEntriesCount(count));
    let ghost head = seq![EventModel::RosterEntriesCount(count)];
    assert(events_view(out@) =~= head);
    let n = s.len();
    assert(sep + 3 <= n);
    let mut start: usize = sep + 3;
    let mut i: u16 = 0;
    while i < count
        invariant
            sep_pat@ == entry_sep(),
            start <= s@.len() + 3,
            i <= count,
            roster_ok(s@, start as int, i as int, count as int),
            roster_list_spec(s@) == events_view(out@) + roster_entries(s@, start as int, i as int, count as int),
        decreases count - i,
    {
        let end = find_or_end(s, sep_pat.as_slice(), start);
        if start >= end {
            assert(events_view(out@) + Seq::<EventModel>::empty() =~= events_view(out@));
            return out;
        }
        let n = s.len();
        assert(end < n ==> end + 3 <= n);
        let entry = copy_range(s, start, end);
        assert(entry@ =~= s@.subrange(start as int, end as int));
        let ev = roster_event_exec(entry.as_slice(), i);
        let ghost before = events_view(out@);
        out.push(ev);
        assert(events_view(out@) =~= before.push(ev@));
        assert(before + (seq![ev@] + roster_entries(s@, end + 3, i + 1, count as int)) =~= events_view(out@) + roster_entries(s@, end + 3, i + 1, count as int));
        assert(roster_ok(s@, end + 3, i + 1, count as int));
        if end >= n {
            if i + 1 < count {
                assert(!roster_ok(s@, end + 3, i + 1, count as int));
            }
            assert(i + 1 >= count);
            assert(roster_entries(s@, end + 3, i + 1, count as int) =~= Seq::<EventModel>::empty());
            assert(events_view(out@) + Seq::<EventModel>::empty() =~= events_view(out@));
            return out;
        }
        start = end + 3;
        i = i + 1;
    }
    assert(events_view(out@) + Seq::<EventModel>::empty() =~= events_view(out@));
    out
}

fn loco_action(t: char, s: &[u8]) -> (r: Vec<ServerEvent>)
    requires
        loco_action_ok(s@),
    ensures
        events_view(r@) == loco_action_spec(t, s@),
{
    let mut out: Vec<ServerEvent> = Vec::new();
    let prop = property_sep_bytes();
    let sep = match find_bytes(s, prop.as_slice(), 0) {
        Some(p) => p,
        None => {
            assert(events_view(out@) =~= Seq::<EventModel>::empty());
            return out;
        },
    };
    proof {
        crate::text::lemma_find_from_facts(s@, property_sep(), 0);
    }
    let n = s.len();
    assert(sep + 3 <= n);
    let a0 = sep + 3;
    let ghost act = s@.skip(a0 as int);
    if a0 >= n {
        assert(act.len() == 0);
        assert(events_view(out@) =~= Seq::<EventModel>::empty());
        return out;
    }
    let k = s[a0];
    assert(act[0] == k);
    if k == 86 {
        assert(s@.subrange(a0 + 1, n as int) =~= act.skip(1));
        match parse_unsigned_range(s, a0 + 1, n, 255) {
            Some(v) => {
                let speed: u8 = if v == 1 {
                    0
                } else {
                    v as u8
                };
                out.push(ServerEvent::Speed { throttle: t, speed });
            },
            None => {},
        }
    } else if k == 82 {
        let c: char = if a0 + 1 < n {
            s[a0 + 1] as char
        } else {
            '1'
        };
        let dir = Direction::from_wire(c);
        if sep == 1 && s[0] == 42 {
            assert(s@.subrange(0, sep as int) =~= seq![42u8]);
            out.push(ServerEvent::DirectionLead { throttle: t, dir });
        } else {
            assert(s@.subrange(0, sep as int) != seq![42u8] ==> true);
            assert(sep != 1 || s[0] != 42 ==> s@.subrange(0, sep as int) != seq![42u8]) by {
                if s@.subrange(0, sep as int) == seq![42u8] {
                    assert(s@.subrange(0, sep as int).len() == 1);
                    assert(s@.subrange(0, sep as int)[0] == s@[0]);
                }
            }
            out.push(ServerEvent::DirectionLoco { throttle: t, addr: wire_text(s, 0, sep, 12), dir });
        }
    } else if k == 70 {
        assert(s@.subrange(a0 + 2, n as int) =~= act.skip(2));
        match parse_unsigned_range(s, a0 + 2, n, 255) {
            Some(v) => {
                out.push(ServerEvent::FunctionState { throttle: t, func: v as u8, on: s[a0 + 1] == 49 });
            },
            None => {},
        }
    }
    assert(events_view(out@) =~= loco_action_spec(t, s@));
    out
}

fn fn_labels(t: char, s: &[u8]) -> (r: Vec<ServerEvent>)
    requires
        fn_labels_ok(s@),
    ensures
        events_view(r@) == fn_labels_spec(t, s@),
{
    let mut out: Vec<ServerEvent> = Vec::new();
    let prop = property_sep_bytes();
    let rv = match find_bytes(s, prop.as_slice(), 0) {
        Some(p) => {
            proof {
                crate::text::lemma_find_from_facts(s@, property_sep(), 0);
            }
            copy_range(s, p + 3, s.len())
        },
        None => copy_range(s, 0, s.len()),
    };
    assert(rv@ =~= label_rest(s@));
    let r = rv.as_slice();
    let n = r.len();
    if n == 0 || r[0] != 93 {
        assert(events_view(out@) =~= Seq::<EventModel>::empty());
        return out;
    }
    let sep_pat = entry_sep_bytes();
    let mut start: usize = if n >= 2 && r[1] >= 128 {
        2
    } else {
        3
    };
    let ghost st0 = start as int;
    let mut count: usize = 0;
    let mut list: Vec<Vec<u8>> = Vec::new();
    let mut done = false;
    let ghost mut rem: Seq<Seq<u8>> = labels_from(r@, start as int, 0);
    assert(list@.map_values(|l: Vec<u8>| l@) + rem =~= labels_from(r@, st0, 0));
    while !done && count < MAX_FUNCTIONS && start < n
        invariant
            n == r@.len(),
            sep_pat@ == entry_sep(),
            count <= MAX_FUNCTIONS,
            list@.len() == count,
            start <= n + 3,
            list@.map_values(|l: Vec<u8>| l@) + rem == labels_from(r@, st0, 0),
            !done ==> rem == labels_from(r@, start as int, count as int),
            done ==> rem == Seq::<Seq<u8>>::empty(),
        decreases n + 3 - start + (if done { 0int } else { 1int }),
    {
        let end = find_or_end(r, sep_pat.as_slice(), start);
        let label = wire_text(r, start, end, 32);
        let ghost lv = label@;
        let ghost before = list@.map_values(|l: Vec<u8>| l@);
        list.push(label);
        assert(list@.map_values(|l: Vec<u8>| l@) =~= before.push(lv));
        count = count + 1;
        if end >= n {
            proof {
                assert(rem == seq![lv]);
                assert(before.push(lv) + Seq::<Seq<u8>>::empty() =~= before + rem);
                rem = Seq::empty();
            }
            done = true;
        } else {
            proof {
                let nxt = labels_from(r@, end + 3, count as int);
                assert(rem == seq![lv] + nxt);
                assert(before.push(lv) + nxt =~= before + rem);
                rem = nxt;
            }
            start = end + 3;
        }
    }
    proof {
        if !done {
            assert(rem == Seq::<Seq<u8>>::empty());
        }
        assert(list@.map_values(|l: Vec<u8>| l@) =~= labels_from(r@, st0, 0));
    }
    let ghost lst = labels_from(r@, st0, 0);
    let mut labels: Vec<Vec<u8>> = Vec::new();
    let mut i: usize = 0;
    while i < MAX_FUNCTIONS
        invariant
            i <= MAX_FUNCTIONS,
            list@.map_values(|l: Vec<u8>| l@) == lst,
            labels@.len() == i,
            forall|j: int| 0 <= j < i ==> #[trigger] labels@[j]@ == pad_labels(lst)[j],
        decreases MAX_FUNCTIONS - i,
    {
        if i < list.len() {
            let c = copy_range(list[i].as_slice(), 0, list[i].len());
            assert(c@ == lst[i as int]);
            labels.push(c);
        } else {
            labels.push(Vec::new());
        }
        i = i + 1;
    }
    assert(labels@.map_values(|l: Vec<u8>| l@) =~= pad_labels(lst));
    out.push(ServerEvent::RosterFunctionLabels { throttle: t, labels });
    assert(events_view(out@) =~= fn_labels_spec(t, s@));
    out
}

fn is_one_of_removals(s: &[u8], b0: usize, b1: usize) -> (r: bool)
    requires
        b0 <= b1 <= s@.len(),
    ensures
        r == ({
            let e = s@.subrange(b0 as int, b1 as int);
            e == seq![100u8] || e == seq![114u8] || e == two(100, 10) || e == two(114, 10)
        }),
{
    let ghost e = s@.subrange(b0 as int, b1 as int);
    if b1 - b0 == 1 {
        assert(e.len() == 1 && e[0] == s@[b0 as int]);
        assert(e == seq![s@[b0 as int]]);
        s[b0] == 100 || s[b0] == 114
    } else if b1 - b0 == 2 {
        assert(e == two(s@[b0 as int], s@[b0 + 1]));
        (s[b0] == 100 || s[b0] == 114) && s[b0 + 1] == 10
    } else {
        assert(e.len() != 1 && e.len() != 2);
        false
    }
}

fn add_remove(t: char, s: &[u8]) -> (r: Vec<ServerEvent>)
    requires
        s@.len() > 0,
        s@[0] == 43 || s@[0] == 45,
    ensures
        events_view(r@) == add_remove_spec(t, s@),
{
    let mut out: Vec<ServerEvent> = Vec::new();
    let prop = property_sep_bytes();
    let sep = match find_bytes(s, prop.as_slice(), 0) {
        Some(p) => p,
        None => {
            assert(events_view(out@) =~= Seq::<EventModel>::empty());
            return out;
        },
    };
    proof {
        crate::text::lemma_find_from_facts(s@, property_sep(), 0);
        if sep == 0 {
            assert(s@.subrange(0, 3)[0] == s@[0]);
        }
    }
    let n = s.len();
    let (a0, a1) = trim_range(s, 1, sep);
    let (b0, b1) = trim_range(s, sep + 3, n);
    assert(s@.subrange(sep + 3, n as int) =~= s@.skip(sep + 3));
    if s[0] == 43 {
        out.push(ServerEvent::AddressAdded { throttle: t, addr: wire_text(s, a0, a1, 12), entry: wire_text(s, b0, b1, 64) });
    } else if is_one_of_removals(s, b0, b1) {
        out.push(ServerEvent::AddressRemoved { throttle: t, addr: wire_text(s, a0, a1, 12), entry: wire_text(s, b0, b1, 64) });
    }
    assert(events_view(out@) =~= add_remove_spec(t, s@));
    out
}

fn steal(t: char, s: &[u8]) -> (r: Vec<ServerEvent>)
    ensures
        events_view(r@) == steal_spec(t, s@),
{
    let mut out: Vec<ServerEvent> = Vec::new();
    let prop = property_sep_bytes();
    let sep = match find_bytes(s, prop.as_slice(), 0) {
        Some(p) => p,
        None => {
            assert(events_view(out@) =~= Seq::<EventModel>::empty());
            return out;
        },
    };
    proof {
        crate::text::lemma_find_from_facts(s@, property_sep(), 0);
    }
    let n = s.len();
    let (a0, a1) = trim_range(s, 0, sep);
    let (b0, b1) = trim_range(s, sep + 3, n);
    assert(s@.subrange(sep + 3, n as int) =~= s@.skip(sep + 3));
    out.push(ServerEvent::StealNeeded { throttle: t, addr: wire_text(s, a0, a1, 12), entry: wire_text(s, b0, b1, 64) });
    assert(events_view(out@) =~= steal_spec(t, s@));
    out
}

} // verus!

verus! {

fn starts(l: &[u8], a: u8, b: u8) -> (r: bool)
    ensures
        r == is_at(l@, two(a, b), 0),
{
    let p: Vec<u8> = vec![a, b];
    assert(p@ =~= two(a, b));
    matches_at(l, p.as_slice(), 0)
}

fn starts3(l: &[u8], a: u8, b: u8, c: u8) -> (r: bool)
    ensures
        r == is_at(l@, three(a, b, c), 0),
{
    let p: Vec<u8> = vec![a, b, c];
    assert(p@ =~= three(a, b, c));
    matches_at(l, p.as_slice(), 0)
}

fn one_event(ev: ServerEvent) -> (r: Vec<ServerEvent>)
    ensures
        events_view(r@) == seq![ev@],
{
    let mut r: Vec<ServerEvent> = Vec::new();
    r.push(ev);
    assert(events_view(r@) =~= seq![ev@]);
    r
}

fn no_events() -> (r: Vec<ServerEvent>)
    ensures
        events_view(r@) == Seq::<EventModel>::empty(),
{
    let r: Vec<ServerEvent> = Vec::new();
    assert(events_view(r@) =~= Seq::<EventModel>::empty());
    r
}

fn three_segments_ok_exec(e: &[u8]) -> (r: bool)
    ensures
        r == three_segments_ok(e@),
{
    let seg = segment_sep_bytes();
    let n = e.len();
    match find_bytes(e, seg.as_slice(), 0) {
        None => false,
        Some(p) => {
            proof {
                crate::text::lemma_find_from_facts(e@, segment_sep(), 0);
            }
            assert(upto(e@, segment_sep(), 0) == p);
            assert(is_at(e@, segment_sep(), p as int));
            assert(segment_sep().len() == 3);
            assert(p + 3 <= n);
            find_bytes(e, seg.as_slice(), p + 3).is_some()
        },
    }
}

fn roster_list_ok_exec(s: &[u8]) -> (r: bool)
    ensures
        r == roster_list_ok(s@),
{
    let n = s.len();
    if n == 0 || s[0] >= 128 {
        return false;
    }
    let sep_pat = entry_sep_bytes();
    let sep = match find_bytes(s, sep_pat.as_slice(), 1) {
        Some(p) => p,
        None => {
            return true;
        },
    };
    proof {
        crate::text::lemma_find_from_facts(s@, entry_sep(), 1);
    }
    let count: u16 = match parse_unsigned_range(s, 0, sep, 65535) {
        Some(v) => v as u16,
        None => 0,
    };
    assert(count == roster_count(s@, sep as int));
    let mut start: usize = sep + 3;
    let mut i: u16 = 0;
    while i < count
        invariant
            sep_pat@ == entry_sep(),
            n == s@.len(),
            start <= s@.len() + 3,
            i <= count,
            roster_list_ok(s@) == roster_ok(s@, start as int, i as int, count as int),
        decreases count - i,
    {
        if start > n {
            return false;
        }
        let end = find_or_end(s, sep_pat.as_slice(), start);
        if start >= end {
            return true;
        }
        let entry = copy_range(s, start, end);
        assert(entry@ =~= s@.subrange(start as int, end as int));
        if !three_segments_ok_exec(entry.as_slice()) {
            return false;
        }
        assert(roster_ok(s@, start as int, i as int, count as int) == roster_ok(s@, end + 3, i + 1, count as int));
        if end >= n {
            assert(end + 3 > s@.len());
            assert(i + 1 < count ==> !roster_ok(s@, end + 3, i + 1, count as int));
            return i + 1 >= count;
        }
        assert(end + 3 <= n);
        start = end + 3;
        i = i + 1;
    }
    true
}

fn loco_action_ok_exec(s: &[u8]) -> (r: bool)
    ensures
        r == loco_action_ok(s@),
{
    let prop = property_sep_bytes();
    match find_bytes(s, prop.as_slice(), 0) {
        None => true,
        Some(sep) => {
            proof {
                crate::text::lemma_find_from_facts(s@, property_sep(), 0);
            }
            let n = s.len();
            let a = sep + 3;
            assert(s@.skip(a as int).len() == n - a);
            if a < n && s[a] == 70 {
                assert(s@.skip(a as int)[0] == s@[a as int]);
                if a + 1 < n {
                    assert(s@.skip(a as int)[1] == s@[a + 1]);
                }
                a + 1 < n && s[a + 1] < 128
            } else {
                assert(a < n ==> s@.skip(a as int)[0] == s@[a as int]);
                true
            }
        },
    }
}

fn fn_labels_ok_exec(s: &[u8]) -> (r: bool)
    ensures
        r == fn_labels_ok(s@),
{
    let prop = property_sep_bytes();
    let len = s.len();
    let rv = match find_bytes(s, prop.as_slice(), 0) {
        Some(p) => {
            proof {
                crate::text::lemma_find_from_facts(s@, property_sep(), 0);
            }
            assert(property_sep().len() == 3);
            assert(p + 3 <= len);
            copy_range(s, p + 3, len)
        },
        None => copy_range(s, 0, s.len()),
    };
    assert(rv@ =~= label_rest(s@));
    let n = rv.len();
    if n > 0 && rv[0] == 93 {
        !(n >= 3 && rv[1] < 128 && rv[2] >= 128)
    } else {
        true
    }
}

/// Whether [`parse`] can take this line: its `requires`, tested.
pub fn line_ok(line: &[u8]) -> (r: bool)
    ensures
        r == parse_ok(line@),
{
    let at: Vec<u8> = vec![65u8, 84, 43, 67, 73, 80, 83, 69, 78, 68, 66, 85, 70, 61];
    assert(at@ =~= at_prefix());
    let mut start: usize = 0;
    assert(line@.skip(0) =~= line@);
    while start <= line.len() && matches_at(line, at.as_slice(), start)
        invariant
            at@ == at_prefix(),
            start <= line@.len(),
            strip_at(line@) == strip_at(line@.skip(start as int)),
        decreases line@.len() - start,
    {
        assert(is_at(line@.skip(start as int), at_prefix(), 0)) by {
            assert(line@.skip(start as int).subrange(0, 14) =~= line@.subrange(start as int, start + 14));
        }
        assert(line@.skip(start as int).skip(14) =~= line@.skip(start + 14));
        start = start + 14;
    }
    assert(!is_at(line@.skip(start as int), at_prefix(), 0)) by {
        if is_at(line@.skip(start as int), at_prefix(), 0) {
            assert(line@.skip(start as int).subrange(0, 14) =~= line@.subrange(start as int, start + 14));
        }
    }
    let lv = copy_range(line, start, line.len());
    assert(lv@ =~= strip_at(line@));
    let l = lv.as_slice();
    let n = l.len();
    assert(n >= 2 ==> l@.subrange(2, n as int) =~= l@.skip(2));
    assert(n >= 3 ==> l@.subrange(3, n as int) =~= l@.skip(3));
    if starts(l, 86, 78) || starts(l, 72, 84) || starts(l, 72, 116) || starts(l, 72, 77) || starts(l, 72, 109)
        || starts(l, 80, 87) || (starts3(l, 80, 80, 65) && n > 3) || (n > 0 && l[0] == 42) {
        true
    } else if starts(l, 82, 76) {
        let s = copy_range(l, 2, n);
        roster_list_ok_exec(s.as_slice())
    } else if starts3(l, 80, 84, 76) || starts3(l, 80, 82, 76) || starts3(l, 80, 84, 65) || starts3(l, 80, 82, 65) {
        true
    } else if n > 2 && l[0] == 77 && l[1] < 128 && l[2] == 65 {
        let s = copy_range(l, 3, n);
        loco_action_ok_exec(s.as_slice())
    } else if n > 2 && l[0] == 77 && l[1] < 128 && l[2] == 76 {
        let s = copy_range(l, 3, n);
        fn_labels_ok_exec(s.as_slice())
    } else {
        true
    }
}

/// Parses one line (without CR/LF) into the events it carries; list lines give several.
pub fn parse(line: &[u8]) -> (r: Vec<ServerEvent>)
    requires
        parse_ok(line@),
    ensures
        events_view(r@) == parse_spec(line@),
{
    let at: Vec<u8> = vec![65u8, 84, 43, 67, 73, 80, 83, 69, 78, 68, 66, 85, 70, 61];
    assert(at@ =~= at_prefix());
    let mut start: usize = 0;
    assert(line@.skip(0) =~= line@);
    while start <= line.len() && matches_at(line, at.as_slice(), start)
        invariant
            at@ == at_prefix(),
            start <= line@.len(),
            strip_at(line@) == strip_at(line@.skip(start as int)),
        decreases line@.len() - start,
    {
        assert(is_at(line@.skip(start as int), at_prefix(), 0)) by {
            assert(line@.skip(start as int).subrange(0, 14) =~= line@.subrange(start as int, start + 14));
        }
        assert(line@.skip(start as int).skip(14) =~= line@.skip(start + 14));
        start = start + 14;
    }
    assert(!is_at(line@.skip(start as int), at_prefix(), 0)) by {
        if is_at(line@.skip(start as int), at_prefix(), 0) {
            assert(line@.skip(start as int).subrange(0, 14) =~= line@.subrange(start as int, start + 14));
        }
    }
    let lv = copy_range(line, start, line.len());
    assert(lv@ =~= strip_at(line@));
    let l = lv.as_slice();
    let n = l.len();
    assert(n >= 1 ==> l@.subrange(1, n as int) =~= l@.skip(1));
    assert(n >= 2 ==> l@.subrange(2, n as int) =~= l@.skip(2));
    assert(n >= 3 ==> l@.subrange(3, n as int) =~= l@.skip(3));
    assert(l@.subrange(0, n as int) =~= l@);
    if starts(l, 86, 78) {
        one_event(ServerEvent::Version(wire_text(l, 2, n, 32)))
    } else if starts(l, 72, 84) {
        one_event(ServerEvent::ServerType(wire_text(l, 2, n, 32)))
    } else if starts(l, 72, 116) {
        one_event(ServerEvent::ServerDescription(wire_text(l, 2, n, 64)))
    } else if starts(l, 72, 77) {
        one_event(ServerEvent::Alert(wire_text(l, 2, n, 64)))
    } else if starts(l, 72, 109) {
        one_event(ServerEvent::Message(wire_text(l, 2, n, 64)))
    } else if starts(l, 80, 87) {
        match parse_unsigned_range(l, 2, n, 65535) {
            Some(v) => one_event(ServerEvent::WebPort(v as u16)),
            None => no_events(),
        }
    } else if starts3(l, 80, 80, 65) && n > 3 {
        one_event(ServerEvent::TrackPower(TrackPower::from_wire(l[3] as char)))
    } else if n > 0 && l[0] == 42 {
        let ghost s = l@.skip(1);
        if n == 1 || (n == 2 && (l[1] == 43 || l[1] == 45)) {
            assert(n == 2 ==> s == seq![l@[1]]);
            no_events()
        } else {
            assert(s.len() != 1 || (s != seq![43u8] && s != seq![45u8])) by {
                if s.len() == 1 {
                    assert(s[0] == l@[1]);
                }
            }
            assert(l@.subrange(1, n as int) =~= s);
            match parse_unsigned_range(l, 1, n, 0xFFFF_FFFF) {
                Some(v) => if v > 0 {
                    one_event(ServerEvent::HeartbeatConfig { seconds: v as u32 })
                } else {
                    no_events()
                },
                None => no_events(),
            }
        }
    } else if starts(l, 82, 76) {
        let s = copy_range(l, 2, n);
        roster_list(s.as_slice())
    } else if starts3(l, 80, 84, 76) || starts3(l, 80, 82, 76) || starts3(l, 80, 84, 65) || starts3(
        l,
        80,
        82,
        65,
    ) {
        no_events()
    } else if n > 2 && l[0] == 77 && l[1] < 128 && l[2] == 65 {
        let s = copy_range(l, 3, n);
        loco_action(l[1] as char, s.as_slice())
    } else if n > 2 && l[0] == 77 && l[1] < 128 && l[2] == 76 {
        let s = copy_range(l, 3, n);
        fn_labels(l[1] as char, s.as_slice())
    } else if n > 2 && l[0] == 77 && l[1] < 128 && (l[2] == 43 || l[2] == 45) {
        let s = copy_range(l, 2, n);
        add_remove(l[1] as char, s.as_slice())
    } else if n > 2 && l[0] == 77 && l[1] < 128 && l[2] == 83 {
        let s = copy_range(l, 3, n);
        steal(l[1] as char, s.as_slice())
    } else {
        one_event(ServerEvent::Unknown(wire_text(l, 0, n, 64)))
    }
}

} // verus!

verus! {

proof fn lemma_ascii_char_bytes(t: char)
    requires
        (t as u32) < 128,
    ensures
        crate::withrottle::protocol::ch(t) == seq![t as u8],
        ((t as u8) as u32) as char == t,
{
    let v = t as u32;
    assert(v & 0x7F == v) by (bit_vector)
        requires
            v < 128,
    ;
}

/// A speed the handset sends reads back as the same speed from the station's echo of the
/// line, except 1 (the station's emergency-stop value), which is sent and read as 2.
pub proof fn law_speed_line_reads_back(t: char, speed: u8)
    requires
        (t as u32) < 128,
    ensures
        parse_spec(crate::withrottle::protocol::mta_spec(
            t,
            seq![42u8],
            seq![86u8] + crate::text::dec_digits(crate::withrottle::protocol::wire_speed(speed) as nat),
        )) == seq![EventModel::Speed { throttle: t, speed: crate::withrottle::protocol::wire_speed(speed) }],
{
    let ws = crate::withrottle::protocol::wire_speed(speed);
    let d = crate::text::dec_digits(ws as nat);
    crate::text::lemma_dec_digits_len(ws as nat);
    crate::text::lemma_dec_digits_value(ws as nat);
    lemma_ascii_char_bytes(t);
    let act = seq![86u8] + d;
    let line = crate::withrottle::protocol::mta_spec(t, seq![42u8], act);
    let expect = seq![77u8, t as u8, 65u8, 42u8, 60u8, 59u8, 62u8] + act;
    assert(line =~= expect);
    assert(line.len() < 14);
    assert(!is_at(line, at_prefix(), 0));
    assert(strip_at(line) == line);
    assert(is_m(line, 65));
    let s = line.skip(3);
    assert(s =~= seq![42u8, 60u8, 59u8, 62u8] + act);
    assert(!is_at(s, property_sep(), 0)) by { assert(s.subrange(0, 3)[0] == 42u8); }
    assert(is_at(s, property_sep(), 1)) by { assert(s.subrange(1, 4) =~= property_sep()); }
    assert(find_from(s, property_sep(), 1) == Some(1int));
    assert(find_from(s, property_sep(), 0) == Some(1int));
    assert(s.skip(4) =~= act);
    assert(act.skip(1) =~= d);
    assert(parse_unsigned(d, 255) == Some(ws as nat));
}

/// `find_from` gives the first occurrence: `pat` at `k` and nowhere in `from..k`.
proof fn lemma_find_first_at(s: Seq<u8>, pat: Seq<u8>, from: int, k: int)
    requires
        0 <= from <= k,
        is_at(s, pat, k),
        forall|j: int| from <= j < k ==> !is_at(s, pat, j),
    ensures
        find_from(s, pat, from) == Some(k),
    decreases k - from,
{
    if from < k {
        lemma_find_first_at(s, pat, from + 1, k);
    }
}

/// A function switch sent by the handset (`M{t}A{addr}<;>F{0|1}{func}`) reads back through
/// the line parser as the state of that function on that throttle: the number, the on/off
/// flag and the throttle survive the round trip. The throttle is an ASCII character, the
/// address holds no `<`, and the line fits a command.
pub proof fn law_function_line_reads_back(t: char, addr: Seq<u8>, func: u8, pressed: bool)
    requires
        (t as u32) < 128,
        func < 100,
        forall|i: int| 0 <= i < addr.len() ==> addr[i] != 60u8,
        addr.len() + 12 <= crate::withrottle::protocol::CMD_CAP,
    ensures
        parse_spec(
            crate::withrottle::protocol::mta_spec(
                t,
                addr,
                seq![70u8, if pressed { 49u8 } else { 48u8 }] + crate::withrottle::protocol::two_digit(func),
            ),
        ) == seq![EventModel::FunctionState { throttle: t, func, on: pressed }],
{
    let on: u8 = if pressed { 49u8 } else { 48u8 };
    let digits = crate::withrottle::protocol::two_digit(func);
    let act = seq![70u8, on] + digits;
    crate::withrottle::protocol::law_two_digit_reads_back(func);
    let tb = (t as u32) as u8;
    let v = t as u32;
    assert(crate::withrottle::protocol::ch(t) =~= seq![tb]) by {
        assert((v & 0x7Fu32) as u8 == v as u8) by (bit_vector)
            requires
                v < 128,
        ;
    }
    let line = crate::withrottle::protocol::mta_spec(t, addr, act);
    let l = seq![77u8, tb, 65u8] + addr + property_sep() + act;
    assert(line =~= l);
    assert(!is_at(l, at_prefix(), 0));
    assert(strip_at(l) == l);
    assert(l[0] == 77u8 && l[1] == tb && l[2] == 65u8);
    assert(!is_at(l, two(86, 78), 0) && !is_at(l, two(72, 84), 0) && !is_at(l, two(72, 116), 0));
    assert(!is_at(l, two(72, 77), 0) && !is_at(l, two(72, 109), 0) && !is_at(l, two(80, 87), 0));
    assert(!is_at(l, three(80, 80, 65), 0) && !is_at(l, two(82, 76), 0));
    assert(!is_at(l, three(80, 84, 76), 0) && !is_at(l, three(80, 82, 76), 0));
    assert(!is_at(l, three(80, 84, 65), 0) && !is_at(l, three(80, 82, 65), 0));
    assert(is_m(l, 65));
    let rest = l.skip(3);
    assert(rest =~= addr + property_sep() + act);
    let k = addr.len() as int;
    assert(is_at(rest, property_sep(), k)) by {
        assert(rest.subrange(k, k + 3) =~= property_sep());
    }
    assert forall|j: int| 0 <= j < k implies !is_at(rest, property_sep(), j) by {
        assert(rest[j] == addr[j]);
        if is_at(rest, property_sep(), j) {
            assert(rest.subrange(j, j + 3)[0] == rest[j]);
        }
    }
    lemma_find_first_at(rest, property_sep(), 0, k);
    assert(rest.skip(k + 3) =~= act);
    assert(act.skip(2) =~= digits);
    assert(((tb as u32) as char) == t) by {
        vstd::utf8::char_u32_cast(t, v);
    }
}

} // verus!
