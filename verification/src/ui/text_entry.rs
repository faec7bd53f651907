//! The text-entry engine of the handset: a caret slot in the text, T9 multitap on the
//! keypad, a character cycle on the joystick or encoder, and a commit after a pause.

use crate::ui::keyboard::{
    boundary_index, boundary_of, char_utf8_len, is_boundary, lemma_encode_concat, lemma_prefix_len_increasing,
    lemma_utf8_len_push, utf8_len, window_around, window_chars, KeyboardAction, KeyboardMode,
};
use crate::ui::view::{pushed_line, Line};
use vstd::prelude::*;

verus! {

/// The handset's character tables and timing for text entry.
pub struct KeyboardConfig {
    /// Characters the cycle walks through in text mode.
    pub text_charset: Vec<char>,
    /// Characters the cycle walks through in digit mode.
    pub digit_charset: Vec<char>,
    /// Letters of keys 0 to 9 for multitap (an empty group: the key types nothing); the
    /// letter shown after `t` further presses is the group's `t`-th, wrapping around.
    pub multitap: Vec<Vec<char>>,
    /// A pending character is committed after this long without input.
    pub idle_commit_ms: u64,
}

impl KeyboardConfig {
    pub open spec fn wf(&self) -> bool {
        &&& self.text_charset@.len() < 0x8000_0000
        &&& self.digit_charset@.len() < 0x8000_0000
    }
}

/// Abstract state of a [`TextKeyboard`].
pub struct KbView {
    pub mode: KeyboardMode,
    pub buf: Seq<char>,
    pub pending: Option<char>,
    /// Caret position in bytes of the text.
    pub cursor: usize,
    pub max_len: usize,
    pub charset_idx: usize,
    pub last_key: Option<u8>,
    pub tap: u8,
    pub uppercase: bool,
    pub last_edit: Option<u64>,
}

/// A text field of at most `N` bytes with a caret.
pub struct TextKeyboard<const N: usize> {
    pub mode: KeyboardMode,
    pub buffer: Vec<char>,
    /// UTF-8 size of `buffer`.
    pub bytes: usize,
    pub pending: Option<char>,
    pub cursor: usize,
    pub max_len: usize,
    pub charset_idx: usize,
    pub last_key: Option<u8>,
    pub multitap_tap: u8,
    pub uppercase: bool,
    pub last_edit_ms: Option<u64>,
}

impl<const N: usize> View for TextKeyboard<N> {
    type V = KbView;

    open spec fn view(&self) -> KbView {
        KbView {
            mode: self.mode,
            buf: self.buffer@,
            pending: self.pending,
            cursor: self.cursor,
            max_len: self.max_len,
            charset_idx: self.charset_idx,
            last_key: self.last_key,
            tap: self.multitap_tap,
            uppercase: self.uppercase,
            last_edit: self.last_edit_ms,
        }
    }
}

pub open spec fn kcap(s: KbView, n: int) -> int {
    if s.max_len < n { s.max_len as int } else { n }
}

pub open spec fn can_ins(s: KbView, n: int) -> bool {
    utf8_len(s.buf) < kcap(s, n)
}

pub open spec fn ascii_alpha(c: char) -> bool {
    ('a' <= c && c <= 'z') || ('A' <= c && c <= 'Z')
}

pub open spec fn lower(c: char) -> char {
    if 'A' <= c && c <= 'Z' { ((c as u32) + 32) as char } else { c }
}

pub open spec fn upper(c: char) -> char {
    if 'a' <= c && c <= 'z' { ((c as u32) - 32) as char } else { c }
}

/// A letter in the field's case (text mode only).
pub open spec fn case_of(s: KbView, c: char) -> char {
    if s.mode != KeyboardMode::Text || !ascii_alpha(c) {
        c
    } else if s.uppercase {
        upper(c)
    } else {
        lower(c)
    }
}

/// The caret, kept inside the text.
pub open spec fn at_caret(s: KbView) -> int {
    if s.cursor < utf8_len(s.buf) { s.cursor as int } else { utf8_len(s.buf) as int }
}

/// Text `acc` of a fixed-capacity string after appending `t`: whole when it fits in `n`
/// bytes, else not at all.
pub open spec fn cap_put(acc: Seq<char>, t: Seq<char>, n: int) -> Seq<char> {
    if utf8_len(acc) + utf8_len(t) <= n { acc + t } else { acc }
}

/// Inserting `c` at the caret: refused when the field is full or `c` does not fit; the
/// text after the caret is kept when it still fits. `None`: the caret is inside a
/// character (the text cannot be split there).
pub open spec fn insert_spec(s: KbView, c: char, n: int) -> Option<(KbView, bool)> {
    if !can_ins(s, n) {
        Some((s, false))
    } else {
        let i = at_caret(s);
        if !is_boundary(s.buf, i) {
            None
        } else {
            let k = boundary_index(s.buf, i);
            let pre = s.buf.take(k);
            let suf = s.buf.skip(k);
            if utf8_len(pre) + utf8_len(seq![c]) > n {
                Some((s, false))
            } else {
                Some((KbView { buf: cap_put(pre.push(c), suf, n), cursor: (i + 1) as usize, ..s }, true))
            }
        }
    }
}

/// No pending character, no multitap key, no edit time.
pub open spec fn quiet(s: KbView) -> KbView {
    KbView { pending: None, last_key: None, tap: 0, last_edit: None, ..s }
}

/// Commits the pending character (in the field's case) at the caret.
pub open spec fn commit_spec(s: KbView, n: int) -> Option<(KbView, bool)> {
    match s.pending {
        None => Some((s, false)),
        Some(c) => insert_spec(quiet(s), case_of(s, c), n),
    }
}

pub open spec fn committed(r: Option<(KbView, bool)>) -> Option<(KbView, KeyboardAction)> {
    match r {
        None => None,
        Some((s, b)) => Some((s, if b { KeyboardAction::Committed } else { KeyboardAction::Unchanged })),
    }
}

/// The first position of `c` (or of its lower case) in `set` at or after `i`.
pub open spec fn first_match(set: Seq<char>, c: char, i: int) -> Option<int>
    decreases set.len() - i,
{
    if i < 0 || i >= set.len() {
        None
    } else if set[i] == lower(c) || set[i] == c {
        Some(i)
    } else {
        first_match(set, c, i + 1)
    }
}

pub open spec fn charset(s: KbView, cfg: KeyboardConfig) -> Seq<char> {
    if s.mode == KeyboardMode::Text { cfg.text_charset@ } else { cfg.digit_charset@ }
}

/// Cycling the caret slot `delta` places through the mode's character set.
pub open spec fn cycle_spec(s: KbView, delta: i8, cfg: KeyboardConfig, now: u64, n: int) -> (KbView, KeyboardAction) {
    let set = charset(s, cfg);
    if delta == 0 || set.len() == 0 || (s.pending is None && !can_ins(s, n)) {
        (s, KeyboardAction::Unchanged)
    } else {
        let idx: int = match s.pending {
            Some(c) => match first_match(set, c, 0) {
                Some(p) => p,
                None => s.charset_idx as int,
            },
            None => s.charset_idx as int,
        };
        let next = (idx + delta) % (set.len() as int);
        (
            KbView { charset_idx: next as usize, pending: Some(set[next]), last_key: None, last_edit: Some(now), ..s },
            KeyboardAction::Changed,
        )
    }
}

pub open spec fn nav_right_spec(s: KbView, n: int) -> Option<(KbView, KeyboardAction)> {
    if s.pending is Some {
        match commit_spec(s, n) {
            None => None,
            Some((s2, _)) => Some((s2, KeyboardAction::Committed)),
        }
    } else if s.cursor < utf8_len(s.buf) {
        Some((KbView { cursor: (s.cursor + 1) as usize, ..s }, KeyboardAction::Changed))
    } else {
        Some((s, KeyboardAction::Unchanged))
    }
}

pub open spec fn nav_left_spec(s: KbView) -> (KbView, KeyboardAction) {
    if s.pending is Some {
        (quiet(s), KeyboardAction::CancelPending)
    } else if s.cursor == utf8_len(s.buf) && s.buf.len() > 0 {
        (KbView { buf: s.buf.drop_last(), cursor: utf8_len(s.buf.drop_last()) as usize, ..s }, KeyboardAction::Backspace)
    } else if s.cursor > 0 {
        (KbView { cursor: (s.cursor - 1) as usize, ..s }, KeyboardAction::Changed)
    } else {
        (s, KeyboardAction::Unchanged)
    }
}

/// Commits any pending character, then inserts digit `key`.
pub open spec fn digit_spec(s: KbView, key: u8, n: int) -> Option<(KbView, KeyboardAction)> {
    match commit_spec(s, n) {
        None => None,
        Some((s1, _)) => committed(insert_spec(s1, ((48 + key) as u32) as char, n)),
    }
}

pub open spec fn fn_press_spec(s: KbView, key: u8, n: int) -> Option<(KbView, KeyboardAction)> {
    if s.mode == KeyboardMode::Digits && key <= 9 { digit_spec(s, key, n) } else { Some((s, KeyboardAction::Unchanged)) }
}

pub open spec fn group_of(cfg: KeyboardConfig, key: u8) -> Option<Seq<char>> {
    if (key as int) < cfg.multitap@.len() && cfg.multitap@[key as int]@.len() > 0 {
        Some(cfg.multitap@[key as int]@)
    } else {
        None
    }
}

/// T9 multitap on key `key`.
pub open spec fn multitap_spec(s: KbView, key: u8, cfg: KeyboardConfig, now: u64, n: int) -> Option<(KbView, KeyboardAction)> {
    match group_of(cfg, key) {
        None => Some((s, KeyboardAction::Unchanged)),
        Some(g) => if utf8_len(g) == 1 {
            match commit_spec(s, n) {
                None => None,
                Some((s1, _)) => committed(insert_spec(s1, case_of(s1, g[0]), n)),
            }
        } else if s.last_key == Some(key) {
            let t: u8 = if s.tap == 255 { 255 } else { (s.tap + 1) as u8 };
            Some((KbView { tap: t, pending: Some(g[(t as int) % (g.len() as int)]), last_edit: Some(now), ..s }, KeyboardAction::Changed))
        } else {
            match commit_spec(s, n) {
                None => None,
                Some((s1, _)) => if !can_ins(s1, n) {
                    Some((s1, KeyboardAction::Unchanged))
                } else {
                    Some((KbView { last_key: Some(key), tap: 0, pending: Some(g[0]), last_edit: Some(now), ..s1 }, KeyboardAction::Changed))
                },
            }
        },
    }
}

pub open spec fn key_press_spec(s: KbView, key: u8, cfg: KeyboardConfig, now: u64, n: int) -> Option<(KbView, KeyboardAction)> {
    if key > 9 {
        Some((s, KeyboardAction::Unchanged))
    } else if s.mode == KeyboardMode::Digits {
        digit_spec(s, key, n)
    } else {
        multitap_spec(s, key, cfg, now, n)
    }
}

/// After `idle_commit_ms` without input a pending character is committed.
pub open spec fn tick_spec(s: KbView, now: u64, cfg: KeyboardConfig, n: int) -> Option<KbView> {
    match (s.pending, s.last_edit) {
        (Some(_), Some(t)) => if (if now >= t { now - t } else { 0 }) >= cfg.idle_commit_ms {
            match commit_spec(s, n) {
                None => None,
                Some((s2, _)) => Some(s2),
            }
        } else {
            Some(s)
        },
        _ => Some(s),
    }
}

pub open spec fn clear_spec(s: KbView) -> KbView {
    KbView {
        buf: Seq::empty(),
        pending: None,
        cursor: 0,
        charset_idx: 0,
        last_key: None,
        tap: 0,
        uppercase: false,
        last_edit: None,
        ..s
    }
}

/// Loading text: characters are added while the field holds fewer than `ml` bytes, each
/// when it still fits in `n` bytes.
pub open spec fn load_fold(acc: Seq<char>, t: Seq<char>, ml: int, n: int) -> Seq<char>
    decreases t.len(),
{
    if t.len() == 0 || utf8_len(acc) >= ml {
        acc
    } else {
        load_fold(cap_put(acc, seq![t[0]], n), t.drop_first(), ml, n)
    }
}

pub open spec fn load_spec(s: KbView, t: Seq<char>, n: int) -> KbView {
    let b = load_fold(Seq::empty(), t, s.max_len as int, n);
    KbView { buf: b, cursor: utf8_len(b) as usize, ..clear_spec(s) }
}

/// The character in the caret slot: the pending one in the field's case, else `_`.
pub open spec fn slot_of(s: KbView) -> char {
    match s.pending {
        Some(c) => case_of(s, c),
        None => '_',
    }
}

/// Text and pending character without a caret. `None`: the caret is inside a character.
pub open spec fn value_preview_spec(s: KbView, n: int) -> Option<Seq<char>> {
    let i = at_caret(s);
    if !is_boundary(s.buf, i) {
        None
    } else {
        let k = boundary_index(s.buf, i);
        let a = match s.pending {
            Some(c) => cap_put(s.buf.take(k), seq![case_of(s, c)], n),
            None => s.buf.take(k),
        };
        Some(cap_put(a, s.buf.skip(k), n))
    }
}

/// Capacity of the caret preview text before it is cut to a display line.
pub const PREVIEW_CAP: usize = 65;

/// The caret preview line (text before, slot, text after), windowed around the slot.
pub open spec fn preview_spec(s: KbView) -> Option<Seq<u8>> {
    let i = at_caret(s);
    if !is_boundary(s.buf, i) {
        None
    } else {
        let k = boundary_index(s.buf, i);
        let a = cap_put(Seq::empty(), s.buf.take(k), PREVIEW_CAP as int);
        let focus = utf8_len(a);
        let full = cap_put(cap_put(a, seq![slot_of(s)], PREVIEW_CAP as int), s.buf.skip(k), PREVIEW_CAP as int);
        Some(pushed_line(Seq::empty(), window_chars(full, focus as int)))
    }
}

fn copy_chars(dst: &mut Vec<char>, src: &Vec<char>, from: usize, to: usize)
    requires
        from <= to <= src@.len(),
    ensures
        final(dst)@ == old(dst)@ + src@.subrange(from as int, to as int),
{
    let mut j: usize = from;
    while j < to
        invariant
            from <= j <= to <= src@.len(),
            dst@ == old(dst)@ + src@.subrange(from as int, j as int),
        decreases to - j,
    {
        dst.push(src[j]);
        assert(src@.subrange(from as int, j + 1) =~= src@.subrange(from as int, j as int).push(src@[j as int]));
        j = j + 1;
    }
}

proof fn lemma_utf8_split(b: Seq<char>, k: int)
    requires
        0 <= k <= b.len(),
    ensures
        utf8_len(b) == utf8_len(b.take(k)) + utf8_len(b.skip(k)),
{
    lemma_encode_concat(b.take(k), b.skip(k));
    assert(b.take(k) + b.skip(k) =~= b);
}

proof fn lemma_utf8_concat_len(a: Seq<char>, b: Seq<char>)
    ensures
        utf8_len(a + b) == utf8_len(a) + utf8_len(b),
{
    lemma_encode_concat(a, b);
}

proof fn lemma_boundary_take(b: Seq<char>, i: int)
    requires
        is_boundary(b, i),
    ensures
        0 <= boundary_index(b, i) <= b.len(),
        utf8_len(b.take(boundary_index(b, i))) == i,
{
}

/// Appends `t` (`t_bytes` long) to `acc` when it fits in `cap` bytes.
fn cap_put_exec(acc: &mut Vec<char>, acc_bytes: &mut usize, t: &Vec<char>, from: usize, to: usize, t_bytes: usize, cap: usize)
    requires
        from <= to <= t@.len(),
        t_bytes == utf8_len(t@.subrange(from as int, to as int)),
        *old(acc_bytes) == utf8_len(old(acc)@),
        *old(acc_bytes) <= cap,
    ensures
        final(acc)@ == cap_put(old(acc)@, t@.subrange(from as int, to as int), cap as int),
        *final(acc_bytes) == utf8_len(final(acc)@),
        *final(acc_bytes) <= cap,
{
    if t_bytes <= cap - *acc_bytes {
        proof {
            lemma_utf8_concat_len(acc@, t@.subrange(from as int, to as int));
        }
        copy_chars(acc, t, from, to);
        *acc_bytes = *acc_bytes + t_bytes;
    }
}

fn is_ascii_alpha(c: char) -> (r: bool)
    ensures
        r == ascii_alpha(c),
{
    (c >= 'a' && c <= 'z') || (c >= 'A' && c <= 'Z')
}

impl<const N: usize> TextKeyboard<N> {
    pub open spec fn wf(&self) -> bool {
        &&& self.bytes == utf8_len(self.buffer@)
        &&& self.bytes <= N
        &&& self.max_len <= N
        &&& self.charset_idx < 0x8000_0000
    }

    pub fn new(mode: KeyboardMode) -> (k: Self)
        ensures
            k.wf(),
            k@ == (KbView {
                mode,
                buf: Seq::empty(),
                pending: None,
                cursor: 0,
                max_len: N,
                charset_idx: 0,
                last_key: None,
                tap: 0,
                uppercase: false,
                last_edit: None,
            }),
    {
        proof {
            assert(vstd::utf8::encode_utf8(Seq::<char>::empty()) =~= Seq::<u8>::empty());
        }
        TextKeyboard {
            mode,
            buffer: Vec::new(),
            bytes: 0,
            pending: None,
            cursor: 0,
            max_len: N,
            charset_idx: 0,
            last_key: None,
            multitap_tap: 0,
            uppercase: false,
            last_edit_ms: None,
        }
    }

    /// Limits the field to `max_len` bytes (at most `N`).
    pub fn set_max_len(&mut self, max_len: usize)
        requires
            old(self).wf(),
        ensures
            final(self).wf(),
            final(self)@ == (KbView { max_len: if max_len < N { max_len } else { N }, ..old(self)@ }),
    {
        self.max_len = if max_len < N {
            max_len
        } else {
            N
        };
    }

    pub fn clear(&mut self)
        requires
            old(self).wf(),
        ensures
            final(self).wf(),
            final(self)@ == clear_spec(old(self)@),
    {
        self.buffer = Vec::new();
        self.bytes = 0;
        self.pending = None;
        self.cursor = 0;
        self.charset_idx = 0;
        self.last_key = None;
        self.multitap_tap = 0;
        self.uppercase = false;
        self.last_edit_ms = None;
        proof {
            assert(vstd::utf8::encode_utf8(Seq::<char>::empty()) =~= Seq::<u8>::empty());
            assert(self.buffer@ =~= Seq::<char>::empty());
        }
    }

    /// Replaces the text and parks the caret at its end.
    pub fn load(&mut self, s: &str)
        requires
            old(self).wf(),
        ensures
            final(self).wf(),
            final(self)@ == load_spec(old(self)@, s@, N as int),
    {
        self.clear();
        let n = s.unicode_len();
        let mut i: usize = 0;
        assert(s@.skip(0) =~= s@);
        while i < n && self.bytes < self.max_len
            invariant
                n == s@.len(),
                i <= n,
                self.wf(),
                self@ == (KbView { buf: self.buffer@, ..clear_spec(old(self)@) }),
                load_fold(Seq::empty(), s@, self.max_len as int, N as int) == load_fold(self.buffer@, s@.skip(i as int), self.max_len as int, N as int),
            decreases n - i,
        {
            let c = s.get_char(i);
            let w = char_utf8_len(c);
            let ghost acc = self.buffer@;
            proof {
                assert(s@.skip(i as int)[0] == c);
                assert(s@.skip(i as int).drop_first() =~= s@.skip(i + 1));
                lemma_utf8_len_push(self.buffer@, c);
                assert(acc.push(c) =~= acc + seq![c]);
                assert(load_fold(acc, s@.skip(i as int), self.max_len as int, N as int) == load_fold(
                    cap_put(acc, seq![c], N as int),
                    s@.skip(i + 1),
                    self.max_len as int,
                    N as int,
                ));
            }
            if w <= N - self.bytes {
                self.buffer.push(c);
                self.bytes = self.bytes + w;
            }
            assert(self.buffer@ == cap_put(acc, seq![c], N as int));
            i = i + 1;
        }
        proof {
            if i == n {
                assert(s@.skip(i as int).len() == 0);
            }
        }
        self.cursor = self.bytes;
    }

    pub fn cursor(&self) -> (r: usize)
        ensures
            r == self.cursor,
    {
        self.cursor
    }

    fn apply_case(&self, c: char) -> (r: char)
        ensures
            r == case_of(self@, c),
    {
        if self.mode != KeyboardMode::Text || !is_ascii_alpha(c) {
            return c;
        }
        if self.uppercase {
            if c >= 'a' && c <= 'z' {
                let u = ((c as u8) - 32) as char;
                assert(u == upper(c));
                u
            } else {
                c
            }
        } else {
            if c >= 'A' && c <= 'Z' {
                let l = ((c as u8) + 32) as char;
                assert(l == lower(c));
                l
            } else {
                c
            }
        }
    }

    /// The pending character in the field's case.
    pub fn pending(&self) -> (r: Option<char>)
        ensures
            r == (match self.pending {
                Some(c) => Some(case_of(self@, c)),
                None => None,
            }),
    {
        match self.pending {
            Some(c) => Some(self.apply_case(c)),
            None => None,
        }
    }

    pub fn uppercase(&self) -> (r: bool)
        ensures
            r == self.uppercase,
    {
        self.uppercase
    }

    /// The character shown in the caret slot.
    pub fn slot_char(&self) -> (r: char)
        ensures
            r == slot_of(self@),
    {
        match self.pending() {
            Some(c) => c,
            None => '_',
        }
    }

    fn can_insert(&self) -> (r: bool)
        requires
            self.wf(),
        ensures
            r == can_ins(self@, N as int),
    {
        let cap = if self.max_len < N {
            self.max_len
        } else {
            N
        };
        self.bytes < cap
    }

    fn insert_at_cursor(&mut self, c: char) -> (r: bool)
        requires
            old(self).wf(),
            insert_spec(old(self)@, c, N as int) is Some,
        ensures
            final(self).wf(),
            (final(self)@, r) == insert_spec(old(self)@, c, N as int)->0,
    {
        if !self.can_insert() {
            return false;
        }
        let i = if self.cursor < self.bytes {
            self.cursor
        } else {
            self.bytes
        };
        let k = match boundary_of(&self.buffer, i) {
            Some(k) => k,
            None => {
                return false;
            },
        };
        proof {
            lemma_boundary_take(self.buffer@, i as int);
            lemma_utf8_split(self.buffer@, k as int);
        }
        let w = char_utf8_len(c);
        if w > N - i {
            return false;
        }
        let ghost pre = self.buffer@.take(k as int);
        let ghost suf = self.buffer@.skip(k as int);
        let mut nb: Vec<char> = Vec::new();
        let n = self.buffer.len();
        copy_chars(&mut nb, &self.buffer, 0, k);
        assert(self.buffer@.subrange(0, k as int) =~= pre);
        nb.push(c);
        proof {
            lemma_utf8_len_push(pre, c);
            assert(nb@ =~= pre.push(c));
        }
        let suf_bytes = self.bytes - i;
        let mut nbytes = i + w;
        if suf_bytes <= N - nbytes {
            proof {
                lemma_utf8_concat_len(pre.push(c), suf);
            }
            copy_chars(&mut nb, &self.buffer, k, n);
            assert(self.buffer@.subrange(k as int, n as int) =~= suf);
            nbytes = nbytes + suf_bytes;
        }
        self.buffer = nb;
        self.bytes = nbytes;
        self.cursor = i + 1;
        true
    }

    fn commit_pending(&mut self) -> (r: bool)
        requires
            old(self).wf(),
            commit_spec(old(self)@, N as int) is Some,
        ensures
            final(self).wf(),
            (final(self)@, r) == commit_spec(old(self)@, N as int)->0,
    {
        match self.pending {
            None => false,
            Some(c) => {
                let c2 = self.apply_case(c);
                self.pending = None;
                self.last_key = None;
                self.multitap_tap = 0;
                self.last_edit_ms = None;
                self.insert_at_cursor(c2)
            },
        }
    }

    fn clear_pending(&mut self)
        requires
            old(self).wf(),
        ensures
            final(self).wf(),
            final(self)@ == quiet(old(self)@),
    {
        self.pending = None;
        self.last_key = None;
        self.multitap_tap = 0;
        self.last_edit_ms = None;
    }

    /// OK: commits the pending character.
    pub fn ok(&mut self) -> (a: KeyboardAction)
        requires
            old(self).wf(),
            commit_spec(old(self)@, N as int) is Some,
        ensures
            final(self).wf(),
            Some((final(self)@, a)) == committed(commit_spec(old(self)@, N as int)),
    {
        if self.commit_pending() {
            KeyboardAction::Committed
        } else {
            KeyboardAction::Unchanged
        }
    }

    /// Joystick or encoder: cycles the character in the caret slot by `delta`.
    pub fn char_cycle(&mut self, delta: i8, cfg: &KeyboardConfig, now_ms: u64) -> (a: KeyboardAction)
        requires
            old(self).wf(),
            cfg.wf(),
        ensures
            final(self).wf(),
            (final(self)@, a) == cycle_spec(old(self)@, delta, *cfg, now_ms, N as int),
    {
        if delta == 0 {
            return KeyboardAction::Unchanged;
        }
        let set = if self.mode == KeyboardMode::Text {
            &cfg.text_charset
        } else {
            &cfg.digit_charset
        };
        let len = set.len();
        if len == 0 {
            return KeyboardAction::Unchanged;
        }
        if self.pending.is_none() && !self.can_insert() {
            return KeyboardAction::Unchanged;
        }
        let idx: usize = match self.pending {
            Some(c) => match find_first(set, c) {
                Some(p) => p,
                None => self.charset_idx,
            },
            None => self.charset_idx,
        };
        let next = wrap_step(idx, delta, len);
        self.charset_idx = next;
        self.pending = Some(set[next]);
        self.last_key = None;
        self.last_edit_ms = Some(now_ms);
        KeyboardAction::Changed
    }

    pub fn case_toggle(&mut self) -> (a: KeyboardAction)
        requires
            old(self).wf(),
        ensures
            final(self).wf(),
            old(self).mode != KeyboardMode::Text ==> final(self)@ == old(self)@ && a == KeyboardAction::Unchanged,
            old(self).mode == KeyboardMode::Text ==> final(self)@ == (KbView { uppercase: !old(self).uppercase, ..old(self)@ })
                && a == KeyboardAction::Changed,
    {
        if self.mode != KeyboardMode::Text {
            return KeyboardAction::Unchanged;
        }
        self.uppercase = !self.uppercase;
        KeyboardAction::Changed
    }

    pub fn nav_up(&mut self, cfg: &KeyboardConfig, now_ms: u64) -> (a: KeyboardAction)
        requires
            old(self).wf(),
            cfg.wf(),
        ensures
            final(self).wf(),
            (final(self)@, a) == cycle_spec(old(self)@, -1i8, *cfg, now_ms, N as int),
    {
        self.char_cycle(-1, cfg, now_ms)
    }

    pub fn nav_down(&mut self, cfg: &KeyboardConfig, now_ms: u64) -> (a: KeyboardAction)
        requires
            old(self).wf(),
            cfg.wf(),
        ensures
            final(self).wf(),
            (final(self)@, a) == cycle_spec(old(self)@, 1i8, *cfg, now_ms, N as int),
    {
        self.char_cycle(1, cfg, now_ms)
    }

    /// Right: commits the pending character, else moves the caret right.
    pub fn nav_right(&mut self) -> (a: KeyboardAction)
        requires
            old(self).wf(),
            nav_right_spec(old(self)@, N as int) is Some,
        ensures
            final(self).wf(),
            (final(self)@, a) == nav_right_spec(old(self)@, N as int)->0,
    {
        if self.pending.is_some() {
            let _ = self.commit_pending();
            return KeyboardAction::Committed;
        }
        if self.cursor < self.bytes {
            self.cursor = self.cursor + 1;
            return KeyboardAction::Changed;
        }
        KeyboardAction::Unchanged
    }

    /// Left: drops the pending character, else deletes at the end of the text, else moves
    /// the caret left.
    pub fn nav_left(&mut self) -> (a: KeyboardAction)
        requires
            old(self).wf(),
        ensures
            final(self).wf(),
            (final(self)@, a) == nav_left_spec(old(self)@),
    {
        if self.pending.is_some() {
            self.clear_pending();
            return KeyboardAction::CancelPending;
        }
        if self.cursor == self.bytes && self.buffer.len() > 0 {
            let ghost b0 = self.buffer@;
            let c = self.buffer.pop().unwrap();
            proof {
                assert(b0.drop_last().push(c) =~= b0);
                lemma_utf8_len_push(b0.drop_last(), c);
                assert(self.buffer@ =~= b0.drop_last());
            }
            let w = char_utf8_len(c);
            self.bytes = self.bytes - w;
            self.cursor = self.bytes;
            return KeyboardAction::Backspace;
        }
        if self.cursor > 0 {
            self.cursor = self.cursor - 1;
            return KeyboardAction::Changed;
        }
        KeyboardAction::Unchanged
    }

    pub fn back(&mut self) -> (a: KeyboardAction)
        requires
            old(self).wf(),
        ensures
            final(self).wf(),
            (final(self)@, a) == nav_left_spec(old(self)@),
    {
        self.nav_left()
    }

    fn insert_digit_immediate(&mut self, key: u8) -> (a: KeyboardAction)
        requires
            old(self).wf(),
            key <= 9,
            digit_spec(old(self)@, key, N as int) is Some,
        ensures
            final(self).wf(),
            (final(self)@, a) == digit_spec(old(self)@, key, N as int)->0,
    {
        let _ = self.commit_pending();
        let c = (48u8 + key) as char;
        if self.insert_at_cursor(c) {
            KeyboardAction::Committed
        } else {
            KeyboardAction::Unchanged
        }
    }

    /// Phone keypad digit 0 to 9: multitap in text mode, an immediate digit in digit mode.
    pub fn key_press(&mut self, key: u8, cfg: &KeyboardConfig, now_ms: u64) -> (a: KeyboardAction)
        requires
            old(self).wf(),
            key_press_spec(old(self)@, key, *cfg, now_ms, N as int) is Some,
        ensures
            final(self).wf(),
            (final(self)@, a) == key_press_spec(old(self)@, key, *cfg, now_ms, N as int)->0,
    {
        if key > 9 {
            return KeyboardAction::Unchanged;
        }
        match self.mode {
            KeyboardMode::Digits => self.insert_digit_immediate(key),
            KeyboardMode::Text => self.multitap(key, cfg, now_ms),
        }
    }

    /// Function keys F0 to F9 type digits in digit mode.
    pub fn fn_press(&mut self, key: u8) -> (a: KeyboardAction)
        requires
            old(self).wf(),
            fn_press_spec(old(self)@, key, N as int) is Some,
        ensures
            final(self).wf(),
            (final(self)@, a) == fn_press_spec(old(self)@, key, N as int)->0,
    {
        if self.mode == KeyboardMode::Digits && key <= 9 {
            self.insert_digit_immediate(key)
        } else {
            KeyboardAction::Unchanged
        }
    }

    fn multitap(&mut self, key: u8, cfg: &KeyboardConfig, now_ms: u64) -> (a: KeyboardAction)
        requires
            old(self).wf(),
            multitap_spec(old(self)@, key, *cfg, now_ms, N as int) is Some,
        ensures
            final(self).wf(),
            (final(self)@, a) == multitap_spec(old(self)@, key, *cfg, now_ms, N as int)->0,
    {
        let kk = key as usize;
        if kk >= cfg.multitap.len() || cfg.multitap[kk].len() == 0 {
            return KeyboardAction::Unchanged;
        }
        let group = &cfg.multitap[kk];
        let gl = group.len();
        let single = gl == 1 && char_utf8_len(group[0]) == 1;
        proof {
            assert(group@ == group_of(*cfg, key)->0);
            if gl == 1 {
                assert(group@ =~= seq![group@[0]]);
            } else {
                assert(group@ =~= group@.drop_last().push(group@.last()));
                lemma_utf8_len_push(group@.drop_last(), group@.last());
                if gl > 1 {
                    assert(group@.drop_last().len() > 0);
                    assert(group@.drop_last() =~= group@.drop_last().drop_last().push(group@.drop_last().last()));
                    lemma_utf8_len_push(group@.drop_last().drop_last(), group@.drop_last().last());
                }
            }
        }
        assert(single == (utf8_len(group@) == 1));
        if single {
            let _ = self.commit_pending();
            let c = self.apply_case(group[0]);
            if self.insert_at_cursor(c) {
                return KeyboardAction::Committed;
            }
            return KeyboardAction::Unchanged;
        }
        let same = match self.last_key {
            Some(k) => k == key,
            None => false,
        };
        if same {
            self.multitap_tap = if self.multitap_tap == 255 {
                255
            } else {
                self.multitap_tap + 1
            };
        } else {
            let _ = self.commit_pending();
            if !self.can_insert() {
                return KeyboardAction::Unchanged;
            }
            self.last_key = Some(key);
            self.multitap_tap = 0;
        }
        let t = if same {
            self.multitap_tap as usize % gl
        } else {
            0
        };
        self.pending = Some(group[t]);
        self.last_edit_ms = Some(now_ms);
        KeyboardAction::Changed
    }

    /// Commits the pending character once `idle_commit_ms` have passed since the last edit.
    pub fn tick(&mut self, now_ms: u64, cfg: &KeyboardConfig)
        requires
            old(self).wf(),
            tick_spec(old(self)@, now_ms, *cfg, N as int) is Some,
        ensures
            final(self).wf(),
            final(self)@ == tick_spec(old(self)@, now_ms, *cfg, N as int)->0,
    {
        if self.pending.is_none() {
            return;
        }
        let t = match self.last_edit_ms {
            Some(t) => t,
            None => {
                return;
            },
        };
        let since = if now_ms >= t {
            now_ms - t
        } else {
            0
        };
        if since >= cfg.idle_commit_ms {
            let _ = self.commit_pending();
        }
    }

    /// The text with the pending character, without a caret.
    pub fn value_preview(&self) -> (r: Vec<char>)
        requires
            self.wf(),
            value_preview_spec(self@, N as int) is Some,
        ensures
            r@ == value_preview_spec(self@, N as int)->0,
    {
        let i = if self.cursor < self.bytes {
            self.cursor
        } else {
            self.bytes
        };
        let k = match boundary_of(&self.buffer, i) {
            Some(k) => k,
            None => {
                return Vec::new();
            },
        };
        proof {
            lemma_boundary_take(self.buffer@, i as int);
            lemma_utf8_split(self.buffer@, k as int);
        }
        let n = self.buffer.len();
        let mut out: Vec<char> = Vec::new();
        let mut ob: usize = 0;
        proof {
            assert(vstd::utf8::encode_utf8(Seq::<char>::empty()) =~= Seq::<u8>::empty());
        }
        cap_put_exec(&mut out, &mut ob, &self.buffer, 0, k, i, N);
        assert(self.buffer@.subrange(0, k as int) =~= self.buffer@.take(k as int));
        assert(out@ == self.buffer@.take(k as int)) by {
            lemma_utf8_concat_len(Seq::<char>::empty(), self.buffer@.take(k as int));
            assert(Seq::<char>::empty() + self.buffer@.take(k as int) =~= self.buffer@.take(k as int));
        }
        match self.pending {
            Some(c) => {
                let cc = self.apply_case(c);
                let one: Vec<char> = vec![cc];
                let w = char_utf8_len(cc);
                assert(one@.subrange(0, 1) =~= seq![cc]);
                cap_put_exec(&mut out, &mut ob, &one, 0, 1, w, N);
            },
            None => {},
        }
        assert(self.buffer@.subrange(k as int, n as int) =~= self.buffer@.skip(k as int));
        cap_put_exec(&mut out, &mut ob, &self.buffer, k, n, self.bytes - i, N);
        out
    }

    /// The caret preview line: text before the caret, the slot, the text after, windowed
    /// around the slot.
    pub fn preview(&self) -> (r: Line)
        requires
            self.wf(),
            preview_spec(self@) is Some,
        ensures
            r@ == preview_spec(self@)->0,
    {
        let i = if self.cursor < self.bytes {
            self.cursor
        } else {
            self.bytes
        };
        let k = match boundary_of(&self.buffer, i) {
            Some(k) => k,
            None => {
                return Vec::new();
            },
        };
        proof {
            lemma_boundary_take(self.buffer@, i as int);
            lemma_utf8_split(self.buffer@, k as int);
        }
        let n = self.buffer.len();
        let mut full: Vec<char> = Vec::new();
        let mut fb: usize = 0;
        proof {
            assert(vstd::utf8::encode_utf8(Seq::<char>::empty()) =~= Seq::<u8>::empty());
        }
        assert(self.buffer@.subrange(0, k as int) =~= self.buffer@.take(k as int));
        cap_put_exec(&mut full, &mut fb, &self.buffer, 0, k, i, PREVIEW_CAP);
        let focus = fb;
        let sc = self.slot_char();
        let one: Vec<char> = vec![sc];
        let w = char_utf8_len(sc);
        assert(one@.subrange(0, 1) =~= seq![sc]);
        cap_put_exec(&mut full, &mut fb, &one, 0, 1, w, PREVIEW_CAP);
        assert(self.buffer@.subrange(k as int, n as int) =~= self.buffer@.skip(k as int));
        cap_put_exec(&mut full, &mut fb, &self.buffer, k, n, self.bytes - i, PREVIEW_CAP);
        window_around(&full, fb, focus)
    }
}

/// The first position of `c` (or of its lower case) in `set`.
fn find_first(set: &Vec<char>, c: char) -> (r: Option<usize>)
    ensures
        match r {
            Some(p) => first_match(set@, c, 0) == Some(p as int) && p < set@.len(),
            None => first_match(set@, c, 0) is None,
        },
{
    let lc = if c >= 'A' && c <= 'Z' {
        ((c as u8) + 32) as char
    } else {
        c
    };
    assert(lc == lower(c));
    let n = set.len();
    let mut i: usize = 0;
    while i < n
        invariant
            n == set@.len(),
            i <= n,
            lc == lower(c),
            first_match(set@, c, 0) == first_match(set@, c, i as int),
        decreases n - i,
    {
        if set[i] == lc || set[i] == c {
            return Some(i);
        }
        i = i + 1;
    }
    None
}

/// `(idx + delta) mod len`, the non-negative remainder.
fn wrap_step(idx: usize, delta: i8, len: usize) -> (r: usize)
    requires
        idx < 0x8000_0000,
        0 < len < 0x8000_0000,
    ensures
        r as int == (idx + delta) % (len as int),
        r < len,
{
    let t: i64 = idx as i64 + delta as i64;
    if t >= 0 {
        ((t as u64) % (len as u64)) as usize
    } else {
        let a: u64 = ((0i64 - t) as u64) % (len as u64);
        if a == 0 {
            proof {
                let q = (0 - t) / (len as int);
                assert((0 - t) == q * len) by (nonlinear_arith)
                    requires
                        a == (0 - t) % (len as int),
                        a == 0,
                        len > 0,
                        q == (0 - t) / (len as int);
                assert(t == (0 - q) * len) by (nonlinear_arith)
                    requires
                        (0 - t) == q * len;
                vstd::arithmetic::div_mod::lemma_mod_multiples_basic(0 - q, len as int);
            }
            0
        } else {
            proof {
                let q = (0 - t) / (len as int);
                assert((0 - t) == q * len + a) by (nonlinear_arith)
                    requires
                        a == (0 - t) % (len as int),
                        len > 0,
                        q == (0 - t) / (len as int);
                assert(t == (0 - q - 1) * len + (len - a)) by (nonlinear_arith)
                    requires
                        (0 - t) == q * len + a;
                vstd::arithmetic::div_mod::lemma_mod_multiples_vanish(0 - q - 1, len - a, len as int);
                vstd::arithmetic::div_mod::lemma_small_mod((len - a) as nat, len as nat);
            }
            (len as u64 - a) as usize
        }
    }
}

} // verus!
