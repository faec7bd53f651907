//! On-screen keyboard modes, the outcome of a keyboard input, and the grouped rendering of
//! the address editor's digits.

use crate::ui::view::{push_oled_chars, pushed_line, Line, LINE_LEN};
use vstd::prelude::*;
use vstd::utf8::{char_is_scalar, encode_scalar, encode_utf8};

verus! {

#[derive(Clone, Copy, PartialEq, Eq, Debug, Structural)]
pub enum KeyboardMode {
    Text,
    Digits,
}

#[derive(Clone, Copy, PartialEq, Eq, Debug, Structural)]
pub enum KeyboardAction {
    /// The input changed nothing.
    Unchanged,
    Changed,
    Committed,
    Backspace,
    CancelPending,
}

/// Length in bytes of the UTF-8 encoding of a text.
pub open spec fn utf8_len(s: Seq<char>) -> nat {
    encode_utf8(s).len()
}

pub(crate) proof fn lemma_encode_concat(a: Seq<char>, b: Seq<char>)
    ensures
        encode_utf8(a + b) == encode_utf8(a) + encode_utf8(b),
    decreases a.len(),
{
    if a.len() == 0 {
        assert(a + b =~= b);
        assert(encode_utf8(a) =~= Seq::<u8>::empty());
        assert(encode_utf8(a) + encode_utf8(b) =~= encode_utf8(b));
    } else {
        lemma_encode_concat(a.drop_first(), b);
        assert((a + b).drop_first() =~= a.drop_first() + b);
        assert((a + b)[0] == a[0]);
        assert(encode_utf8(a + b) =~= encode_scalar(a[0] as u32) + (encode_utf8(a.drop_first()) + encode_utf8(b)));
        assert(encode_utf8(a + b) =~= encode_utf8(a) + encode_utf8(b));
    }
}

pub(crate) proof fn lemma_utf8_len_push(s: Seq<char>, c: char)
    ensures
        utf8_len(s.push(c)) == utf8_len(s) + utf8_len(seq![c]),
        1 <= utf8_len(seq![c]) <= 4,
{
    lemma_encode_concat(s, seq![c]);
    assert(s + seq![c] =~= s.push(c));
    lemma_utf8_len_one(c);
}

proof fn lemma_utf8_len_one(c: char)
    ensures
        1 <= utf8_len(seq![c]) <= 4,
        utf8_len(seq![c]) == encode_scalar(c as u32).len(),
{
    assert(seq![c].drop_first() =~= Seq::<char>::empty());
    assert(encode_utf8(Seq::<char>::empty()) =~= Seq::<u8>::empty());
    assert(encode_utf8(seq![c]) =~= encode_scalar(c as u32) + Seq::<u8>::empty());
}

/// The prefix byte lengths of a text grow strictly with the prefix.
pub(crate) proof fn lemma_prefix_len_increasing(s: Seq<char>, j: int, k: int)
    requires
        0 <= j < k <= s.len(),
    ensures
        utf8_len(s.take(j)) < utf8_len(s.take(k)),
    decreases k - j,
{
    lemma_utf8_len_push(s.take(k - 1), s[k - 1]);
    assert(s.take(k - 1).push(s[k - 1]) =~= s.take(k));
    if j < k - 1 {
        lemma_prefix_len_increasing(s, j, k - 1);
    }
}

/// Byte length of a character's UTF-8 encoding.
pub(crate) fn char_utf8_len(c: char) -> (r: usize)
    ensures
        r == utf8_len(seq![c]),
        1 <= r <= 4,
{
    proof {
        char_is_scalar(c);
        lemma_utf8_len_one(c);
    }
    let v = c as u32;
    if v <= 0x7F {
        1
    } else if v <= 0x7FF {
        2
    } else if v <= 0xFFFF {
        3
    } else {
        4
    }
}

/// Byte capacity of the grouped address text before it is cut to a display line.
pub const GROUPED_CAP: usize = 32;

/// The grouped text after pushing `c`: the character is kept when its encoding still fits.
pub open spec fn cap_push(acc: Seq<char>, c: char) -> Seq<char> {
    if utf8_len(acc) + utf8_len(seq![c]) <= GROUPED_CAP { acc.push(c) } else { acc }
}

/// The grouped text after the `k`-th shown character: a dot before the fourth, seventh and
/// tenth, a colon before the thirteenth when a port follows, then the character itself.
pub open spec fn slot_pushed(acc: Seq<char>, k: int, ch: char, with_port: bool) -> Seq<char> {
    let a = if k == 3 || k == 6 || k == 9 {
        cap_push(acc, '.')
    } else if with_port && k == 12 {
        cap_push(acc, ':')
    } else {
        acc
    };
    cap_push(a, ch)
}

/// The grouped text of a sequence of shown characters.
pub open spec fn grouped(items: Seq<char>, with_port: bool) -> Seq<char>
    decreases items.len(),
{
    if items.len() == 0 {
        Seq::empty()
    } else {
        slot_pushed(grouped(items.drop_last(), with_port), items.len() - 1, items.last(), with_port)
    }
}

/// The characters shown for the digits `d` (`dbytes` bytes long): the caret slot goes
/// before the digit at `cursor`, or after the digits when `cursor` is at least `dbytes`
/// (otherwise it is not shown).
pub open spec fn shown_items(d: Seq<char>, dbytes: int, cursor: int, slot: char) -> Seq<char> {
    if cursor < d.len() {
        d.take(cursor).push(slot) + d.skip(cursor)
    } else if cursor >= dbytes {
        d.push(slot)
    } else {
        d
    }
}

/// Byte offset of the caret slot's group in the grouped text (0 when the slot is not shown).
pub open spec fn grouped_focus(d: Seq<char>, dbytes: int, cursor: int, with_port: bool) -> int {
    if cursor < d.len() {
        utf8_len(grouped(d.take(cursor), with_port)) as int
    } else if cursor >= dbytes {
        utf8_len(grouped(d, with_port)) as int
    } else {
        0
    }
}

/// Some prefix of `s` is exactly `b` bytes long.
pub open spec fn is_boundary(s: Seq<char>, b: int) -> bool {
    exists|a: int| 0 <= a <= s.len() && #[trigger] utf8_len(s.take(a)) == b
}

/// The number of characters in the prefix of `s` that is `b` bytes long.
pub open spec fn boundary_index(s: Seq<char>, b: int) -> int {
    choose|a: int| 0 <= a <= s.len() && #[trigger] utf8_len(s.take(a)) == b
}

/// First byte of the display window: half a line before the focus, kept inside the text.
pub open spec fn window_start(s: Seq<char>, focus: int) -> int {
    let max_start = utf8_len(s) - LINE_LEN;
    let f = if focus >= LINE_LEN / 2 { focus - LINE_LEN / 2 } else { 0 };
    if f < max_start { f } else { max_start }
}

/// The characters shown of a text around `focus`: all of it when it fits a line, else the
/// line-long byte window when that window starts and ends on characters, else the whole
/// text (cut to the line when pushed).
pub open spec fn window_chars(s: Seq<char>, focus: int) -> Seq<char> {
    if utf8_len(s) <= LINE_LEN {
        s
    } else {
        let st = window_start(s, focus);
        if is_boundary(s, st) && is_boundary(s, st + LINE_LEN) {
            s.subrange(boundary_index(s, st), boundary_index(s, st + LINE_LEN))
        } else {
            s
        }
    }
}

/// The display line of the address editor for the digits `d`, `dbytes` bytes long.
pub open spec fn grouped_ip_line(d: Seq<char>, dbytes: int, cursor: int, slot: char, with_port: bool) -> Seq<u8> {
    let full = grouped(shown_items(d, dbytes, cursor, slot), with_port);
    pushed_line(Seq::empty(), window_chars(full, grouped_focus(d, dbytes, cursor, with_port)))
}

fn cap_push_exec(acc: &mut Vec<char>, acc_bytes: &mut usize, c: char)
    requires
        *old(acc_bytes) == utf8_len(old(acc)@),
        utf8_len(old(acc)@) <= GROUPED_CAP,
    ensures
        final(acc)@ == cap_push(old(acc)@, c),
        *final(acc_bytes) == utf8_len(final(acc)@),
        utf8_len(final(acc)@) <= GROUPED_CAP,
{
    let w = char_utf8_len(c);
    if *acc_bytes + w <= GROUPED_CAP {
        proof {
            lemma_utf8_len_push(acc@, c);
        }
        acc.push(c);
        *acc_bytes = *acc_bytes + w;
    }
}

fn push_digit_slot(full: &mut Vec<char>, full_bytes: &mut usize, k: usize, ch: char, with_port: bool)
    requires
        *old(full_bytes) == utf8_len(old(full)@),
        utf8_len(old(full)@) <= GROUPED_CAP,
    ensures
        final(full)@ == slot_pushed(old(full)@, k as int, ch, with_port),
        *final(full_bytes) == utf8_len(final(full)@),
        utf8_len(final(full)@) <= GROUPED_CAP,
{
    if k == 3 || k == 6 || k == 9 {
        cap_push_exec(full, full_bytes, '.');
    } else if with_port && k == 12 {
        cap_push_exec(full, full_bytes, ':');
    }
    cap_push_exec(full, full_bytes, ch);
}

/// The number of leading characters of `s` that make up exactly `b` bytes, if any.
pub(crate) fn boundary_of(s: &Vec<char>, b: usize) -> (r: Option<usize>)
    requires
        utf8_len(s@) <= usize::MAX,
    ensures
        r is Some <==> is_boundary(s@, b as int),
        r is Some ==> r->0 == boundary_index(s@, b as int),
{
    let n = s.len();
    let mut j: usize = 0;
    let mut acc: usize = 0;
    assert(s@.take(0) =~= Seq::<char>::empty());
    while j < n && acc < b
        invariant
            n == s@.len(),
            utf8_len(s@) <= usize::MAX,
            j <= n,
            acc == utf8_len(s@.take(j as int)),
            forall|a: int| 0 <= a < j ==> #[trigger] utf8_len(s@.take(a)) < b,
        decreases n - j,
    {
        let w = char_utf8_len(s[j]);
        proof {
            lemma_utf8_len_push(s@.take(j as int), s@[j as int]);
            assert(s@.take(j as int).push(s@[j as int]) =~= s@.take(j + 1));
            assert(s@.take(n as int) =~= s@);
            if j + 1 < n {
                lemma_prefix_len_increasing(s@, j + 1, n as int);
            }
        }
        acc = acc + w;
        j = j + 1;
    }
    if acc == b {
        proof {
            let a = boundary_index(s@, b as int);
            assert(utf8_len(s@.take(j as int)) == b);
            assert(0 <= a <= s@.len() && utf8_len(s@.take(a)) == b);
            if a < j {
                lemma_prefix_len_increasing(s@, a, j as int);
            } else if a > j {
                lemma_prefix_len_increasing(s@, j as int, a);
            }
        }
        Some(j)
    } else {
        proof {
            assert forall|a: int| 0 <= a <= s@.len() implies #[trigger] utf8_len(s@.take(a)) != b by {
                if a > j {
                    lemma_prefix_len_increasing(s@, j as int, a);
                }
            }
        }
        None
    }
}

/// The display line showing `s` around byte `focus`.
pub(crate) fn window_around(s: &Vec<char>, s_bytes: usize, focus: usize) -> (line: Line)
    requires
        s_bytes == utf8_len(s@),
    ensures
        line@ == pushed_line(Seq::empty(), window_chars(s@, focus as int)),
{
    let mut line: Line = Vec::new();
    let n = s.len();
    assert(s@.subrange(0, n as int) =~= s@);
    if s_bytes <= LINE_LEN {
        push_oled_chars(&mut line, s, 0, n);
        return line;
    }
    let max_start = s_bytes - LINE_LEN;
    let f = if focus >= LINE_LEN / 2 { focus - LINE_LEN / 2 } else { 0 };
    let start = if f < max_start { f } else { max_start };
    let a = boundary_of(s, start);
    let b = boundary_of(s, start + LINE_LEN);
    match (a, b) {
        (Some(i), Some(k)) => {
            proof {
                if i > k {
                    lemma_prefix_len_increasing(s@, k as int, i as int);
                }
            }
            push_oled_chars(&mut line, s, i, k);
        },
        _ => {
            push_oled_chars(&mut line, s, 0, n);
        },
    }
    line
}

proof fn lemma_grouped_push(items: Seq<char>, c: char, with_port: bool)
    ensures
        grouped(items.push(c), with_port) == slot_pushed(grouped(items, with_port), items.len() as int, c, with_port),
        grouped(items.push(c), with_port) == slot_pushed(
            grouped(items, with_port),
            if items.len() < 13 { items.len() as int } else { 13 },
            c,
            with_port,
        ),
{
    assert(items.push(c).drop_last() =~= items);
}

/// The shown-character counter, which only matters up to the port separator.
fn next_shown(k: usize) -> (r: usize)
    ensures
        r == (if k + 1 < 13 { k + 1 } else { 13 }),
{
    if k < 12 { k + 1 } else { 13 }
}

/// Dotted IPv4 address (with `:port` when `with_port`) from the editor's digits, the caret
/// slot shown at `cursor`, windowed to one display line.
pub fn format_grouped_ip(digits: &str, cursor: usize, slot: char, with_port: bool) -> (line: Line)
    ensures
        line@ == grouped_ip_line(digits@, digits.len() as int, cursor as int, slot, with_port),
        line@.len() <= LINE_LEN,
{
    let ghost d = digits@;
    let n = digits.unicode_len();
    let mut full: Vec<char> = Vec::new();
    let mut full_bytes: usize = 0;
    let mut shown: usize = 0;
    let mut focus: usize = 0;
    let ghost mut pre: Seq<char> = Seq::empty();
    assert(encode_utf8(Seq::<char>::empty()) =~= Seq::<u8>::empty());
    assert(d.take(0) =~= Seq::<char>::empty());
    let mut i: usize = 0;
    while i < n
        invariant
            n == d.len(),
            d == digits@,
            i <= n,
            full_bytes == utf8_len(full@),
            utf8_len(full@) <= GROUPED_CAP,
            full@ == grouped(pre, with_port),
            shown == (if pre.len() < 13 { pre.len() } else { 13 }),
            pre == (if cursor < i { d.take(cursor as int).push(slot) + d.subrange(cursor as int, i as int) } else { d.take(i as int) }),
            focus == (if cursor < i { utf8_len(grouped(d.take(cursor as int), with_port)) as int } else { 0 }),
        decreases n - i,
    {
        let c = digits.get_char(i);
        if i == cursor {
            focus = full_bytes;
            proof {
                lemma_grouped_push(pre, slot, with_port);
            }
            push_digit_slot(&mut full, &mut full_bytes, shown, slot, with_port);
            proof {
                pre = pre.push(slot);
            }
            shown = next_shown(shown);
        }
        proof {
            lemma_grouped_push(pre, c, with_port);
        }
        push_digit_slot(&mut full, &mut full_bytes, shown, c, with_port);
        proof {
            pre = pre.push(c);
        }
        shown = next_shown(shown);
        i = i + 1;
        proof {
            if cursor < i {
                assert(pre =~= d.take(cursor as int).push(slot) + d.subrange(cursor as int, i as int));
            } else {
                assert(pre =~= d.take(i as int));
            }
        }
    }
    if cursor >= n && cursor >= digits.len() {
        focus = full_bytes;
        proof {
            lemma_grouped_push(pre, slot, with_port);
        }
        push_digit_slot(&mut full, &mut full_bytes, shown, slot, with_port);
        proof {
            pre = pre.push(slot);
        }
    }
    proof {
        assert(d.take(n as int) =~= d);
        if cursor < n {
            assert(d.subrange(cursor as int, n as int) =~= d.skip(cursor as int));
        }
        assert(pre == shown_items(d, digits.len() as int, cursor as int, slot));
        assert(focus == grouped_focus(d, digits.len() as int, cursor as int, with_port));
    }
    window_around(&full, full_bytes, focus)
}

} // verus!
