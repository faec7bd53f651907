//! OLED rendering model consumed by the display presenter (no menu logic).

use vstd::prelude::*;

verus! {

pub const GRID_LINES: usize = 12;

pub const LINE_LEN: usize = 21;

/// One display line: ASCII bytes, at most [`LINE_LEN`].
pub type Line = Vec<u8>;

/// The display font is ASCII-only: Latin letters with diacritics fold to their base letter,
/// printable ASCII stays, everything else shows as `?`.
pub open spec fn oled_char_spec(c: char) -> char {
    if c == 'ą' || c == 'á' || c == 'à' || c == 'â' || c == 'ä' || c == 'ã' { 'a' }
    else if c == 'Ą' || c == 'Á' || c == 'À' || c == 'Â' || c == 'Ä' || c == 'Ã' { 'A' }
    else if c == 'ć' || c == 'č' || c == 'ç' { 'c' }
    else if c == 'Ć' || c == 'Č' || c == 'Ç' { 'C' }
    else if c == 'ę' || c == 'é' || c == 'è' || c == 'ê' || c == 'ë' { 'e' }
    else if c == 'Ę' || c == 'É' || c == 'È' || c == 'Ê' || c == 'Ë' { 'E' }
    else if c == 'ł' { 'l' }
    else if c == 'Ł' { 'L' }
    else if c == 'ń' || c == 'ñ' { 'n' }
    else if c == 'Ń' || c == 'Ñ' { 'N' }
    else if c == 'ó' || c == 'ò' || c == 'ô' || c == 'ö' || c == 'õ' { 'o' }
    else if c == 'Ó' || c == 'Ò' || c == 'Ô' || c == 'Ö' || c == 'Õ' { 'O' }
    else if c == 'ś' || c == 'š' { 's' }
    else if c == 'Ś' || c == 'Š' { 'S' }
    else if c == 'ź' || c == 'ż' || c == 'ž' { 'z' }
    else if c == 'Ź' || c == 'Ż' || c == 'Ž' { 'Z' }
    else if c == 'ü' { 'u' }
    else if c == 'Ü' { 'U' }
    else if c == 'í' || c == 'ì' || c == 'î' || c == 'ï' { 'i' }
    else if c == 'Í' || c == 'Ì' || c == 'Î' || c == 'Ï' { 'I' }
    else if 32 <= c as u32 && c as u32 <= 126 { c }
    else { '?' }
}

fn oled_char(c: char) -> (r: char)
    ensures
        r == oled_char_spec(c),
        (r as u32) < 128,
{
    match c {
        'ą' | 'á' | 'à' | 'â' | 'ä' | 'ã' => 'a',
        'Ą' | 'Á' | 'À' | 'Â' | 'Ä' | 'Ã' => 'A',
        'ć' | 'č' | 'ç' => 'c',
        'Ć' | 'Č' | 'Ç' => 'C',
        'ę' | 'é' | 'è' | 'ê' | 'ë' => 'e',
        'Ę' | 'É' | 'È' | 'Ê' | 'Ë' => 'E',
        'ł' => 'l',
        'Ł' => 'L',
        'ń' | 'ñ' => 'n',
        'Ń' | 'Ñ' => 'N',
        'ó' | 'ò' | 'ô' | 'ö' | 'õ' => 'o',
        'Ó' | 'Ò' | 'Ô' | 'Ö' | 'Õ' => 'O',
        'ś' | 'š' => 's',
        'Ś' | 'Š' => 'S',
        'ź' | 'ż' | 'ž' => 'z',
        'Ź' | 'Ż' | 'Ž' => 'Z',
        'ü' => 'u',
        'Ü' => 'U',
        'í' | 'ì' | 'î' | 'ï' => 'i',
        'Í' | 'Ì' | 'Î' | 'Ï' => 'I',
        _ => {
            if c >= ' ' && c <= '~' {
                c
            } else {
                '?'
            }
        },
    }
}

/// The display bytes of a text: each character folded by [`oled_char_spec`].
pub open spec fn oled_bytes(s: Seq<char>) -> Seq<u8> {
    s.map_values(|c: char| oled_char_spec(c) as u8)
}

/// A line after appending `s`: characters are added while the line has room.
pub open spec fn pushed_line(line: Seq<u8>, s: Seq<char>) -> Seq<u8> {
    let room = if line.len() < LINE_LEN { LINE_LEN - line.len() } else { 0 };
    let k = if s.len() < room { s.len() as int } else { room as int };
    line + oled_bytes(s.take(k))
}

/// Appends `s` to `line` in display characters, stopping when the line is full.
pub fn push_oled(line: &mut Line, s: &str)
    ensures
        final(line)@ == pushed_line(old(line)@, s@),
{
    let n = s.unicode_len();
    let mut i: usize = 0;
    let ghost start = line@;
    while i < n && line.len() < LINE_LEN
        invariant
            n == s@.len(),
            i <= n,
            start == old(line)@,
            line@ == start + oled_bytes(s@.take(i as int)),
            start.len() < LINE_LEN ==> line@.len() == start.len() + i,
            start.len() < LINE_LEN ==> i <= LINE_LEN - start.len(),
            start.len() >= LINE_LEN ==> i == 0,
        decreases n - i,
    {
        let c = oled_char(s.get_char(i));
        let ghost before = line@;
        line.push(c as u8);
        assert(oled_bytes(s@.take(i + 1)) =~= oled_bytes(s@.take(i as int)).push(c as u8));
        assert(line@ =~= start + oled_bytes(s@.take(i + 1)));
        i = i + 1;
    }
    assert(oled_bytes(s@.take(0)) =~= Seq::<u8>::empty());
    assert(start + Seq::<u8>::empty() =~= start);
}

/// Appends the characters `s[from..to]` to `line` in display characters, stopping when the
/// line is full.
pub fn push_oled_chars(line: &mut Line, s: &Vec<char>, from: usize, to: usize)
    requires
        from <= to <= s@.len(),
    ensures
        final(line)@ == pushed_line(old(line)@, s@.subrange(from as int, to as int)),
{
    let ghost sub = s@.subrange(from as int, to as int);
    let ghost start = line@;
    let mut i: usize = from;
    while i < to && line.len() < LINE_LEN
        invariant
            from <= i <= to <= s@.len(),
            sub == s@.subrange(from as int, to as int),
            start == old(line)@,
            line@ == start + oled_bytes(sub.take(i - from)),
            start.len() < LINE_LEN ==> line@.len() == start.len() + (i - from),
            start.len() < LINE_LEN ==> i - from <= LINE_LEN - start.len(),
            start.len() >= LINE_LEN ==> i == from,
        decreases to - i,
    {
        let c = oled_char(s[i]);
        line.push(c as u8);
        assert(sub.take(i - from + 1) =~= sub.take(i - from).push(s@[i as int]));
        assert(oled_bytes(sub.take(i - from + 1)) =~= oled_bytes(sub.take(i - from)).push(c as u8));
        i = i + 1;
    }
    assert(oled_bytes(sub.take(0)) =~= Seq::<u8>::empty());
    assert(start + Seq::<u8>::empty() =~= start);
}

/// A fixed-capacity text buffer after appending the ASCII text `t`: bytes are added while
/// the buffer holds fewer than `cap`.
pub open spec fn capped_append(buf: Seq<u8>, t: Seq<u8>, cap: nat) -> Seq<u8> {
    let room: int = if buf.len() < cap { cap - buf.len() } else { 0 };
    let k: int = if t.len() < room { t.len() as int } else { room };
    buf + t.take(k)
}

/// Appends the ASCII bytes `t` to `buf`, each while `buf` holds fewer than `cap` bytes.
pub fn append_capped(buf: &mut Vec<u8>, t: &[u8], cap: usize)
    ensures
        final(buf)@ == capped_append(old(buf)@, t@, cap as nat),
{
    let n = t.len();
    let mut i: usize = 0;
    let ghost start = buf@;
    while i < n && buf.len() < cap
        invariant
            n == t@.len(),
            i <= n,
            start == old(buf)@,
            buf@ == start + t@.take(i as int),
            start.len() < cap ==> buf@.len() == start.len() + i,
            start.len() < cap ==> i <= cap - start.len(),
            start.len() >= cap ==> i == 0,
        decreases n - i,
    {
        buf.push(t[i]);
        assert(t@.take(i + 1) =~= t@.take(i as int).push(t@[i as int]));
        i = i + 1;
    }
    assert(start + t@.take(0) =~= start);
}

#[derive(Clone, PartialEq, Eq, Debug)]
pub struct GridView {
    pub lines: Vec<Line>,
    pub invert: Vec<bool>,
    pub top_line: bool,
    pub foot_line: bool,
    /// Caps Lock indicator: `Some(true)` = uppercase (arrow up).
    pub caps: Option<bool>,
}

pub open spec fn lines_view(v: Seq<Line>) -> Seq<Seq<u8>> {
    v.map_values(|l: Line| l@)
}

/// Abstract contents of a [`GridView`].
pub struct GridModel {
    pub lines: Seq<Seq<u8>>,
    pub invert: Seq<bool>,
    pub top_line: bool,
    pub foot_line: bool,
    pub caps: Option<bool>,
}

pub open spec fn grid_model(g: GridView) -> GridModel {
    GridModel { lines: lines_view(g.lines@), invert: g.invert@, top_line: g.top_line, foot_line: g.foot_line, caps: g.caps }
}

/// A grid after writing `text` on line `idx` (see [`GridView::set`]).
pub open spec fn grid_set_spec(g: GridModel, idx: int, text: Seq<char>, inv: bool) -> GridModel {
    if idx >= GRID_LINES {
        g
    } else {
        let n0 = g.lines.len();
        let extra = if idx + 1 > n0 { idx + 1 - n0 } else { 0 };
        let lines1 = g.lines + Seq::new(extra as nat, |j: int| Seq::<u8>::empty());
        let inv1 = g.invert + Seq::new(extra as nat, |j: int| false);
        GridModel {
            lines: lines1.update(idx, pushed_line(Seq::empty(), text)),
            invert: if idx < inv1.len() { inv1.update(idx, inv) } else { inv1 },
            ..g
        }
    }
}

impl GridView {
    pub fn new() -> (g: Self)
        ensures
            g.lines@.len() == 0,
            g.invert@.len() == 0,
            !g.top_line,
            g.foot_line,
            g.caps is None,
    {
        GridView { lines: Vec::new(), invert: Vec::new(), top_line: false, foot_line: true, caps: None }
    }

    /// Writes line `idx` (ignored past [`GRID_LINES`]): blank lines are added up to it, its
    /// text is replaced by `text` in display characters, and its highlight is set when the
    /// highlight list reaches it.
    pub fn set(&mut self, idx: usize, text: &str, inv: bool)
        ensures
            idx >= GRID_LINES ==> *final(self) == *old(self),
            idx < GRID_LINES ==> {
                let n0 = old(self).lines@.len();
                let extra = if idx + 1 > n0 { idx + 1 - n0 } else { 0 };
                let lines1 = lines_view(old(self).lines@) + Seq::new(extra as nat, |j: int| Seq::<u8>::empty());
                let inv1 = old(self).invert@ + Seq::new(extra as nat, |j: int| false);
                &&& lines_view(final(self).lines@) == lines1.update(idx as int, pushed_line(Seq::empty(), text@))
                &&& final(self).invert@ == if idx < inv1.len() { inv1.update(idx as int, inv) } else { inv1 }
                &&& final(self).top_line == old(self).top_line
                &&& final(self).foot_line == old(self).foot_line
                &&& final(self).caps == old(self).caps
            },
    {
        if idx >= GRID_LINES {
            return;
        }
        let ghost n0 = self.lines@.len();
        let ghost lv0 = lines_view(self.lines@);
        let ghost iv0 = self.invert@;
        let ghost extra: int = if idx + 1 > n0 { idx + 1 - n0 } else { 0 };
        let mut k: usize = 0;
        while self.lines.len() <= idx
            invariant
                idx < GRID_LINES,
                n0 == old(self).lines@.len(),
                lv0 == lines_view(old(self).lines@),
                iv0 == old(self).invert@,
                extra == (if idx + 1 > n0 { idx + 1 - n0 } else { 0 }),
                self.lines@.len() == n0 + k,
                k <= extra,
                lines_view(self.lines@) == lv0 + Seq::new(k as nat, |j: int| Seq::<u8>::empty()),
                self.invert@ == iv0 + Seq::new(k as nat, |j: int| false),
                self.top_line == old(self).top_line,
                self.foot_line == old(self).foot_line,
                self.caps == old(self).caps,
            decreases idx + 1 - self.lines@.len(),
        {
            let ghost l0 = self.lines@;
            let ghost i0 = self.invert@;
            self.lines.push(Vec::new());
            self.invert.push(false);
            assert(lines_view(self.lines@) =~= lines_view(l0).push(Seq::<u8>::empty()));
            k = k + 1;
            assert(lines_view(self.lines@) =~= lv0 + Seq::new(k as nat, |j: int| Seq::<u8>::empty()));
            assert(self.invert@ =~= iv0 + Seq::new(k as nat, |j: int| false));
        }
        assert(k == extra);
        let mut line: Line = Vec::new();
        push_oled(&mut line, text);
        let ghost lbefore = self.lines@;
        self.lines.set(idx, line);
        assert(lines_view(self.lines@) =~= lines_view(lbefore).update(idx as int, pushed_line(Seq::empty(), text@)));
        if idx < self.invert.len() {
            self.invert.set(idx, inv);
        }
    }
    /// [`GridView::set`] for a text given as characters; the same placement: blank lines are added up to it, its
    /// text is replaced by `text` in display characters, and its highlight is set when the
    /// highlight list reaches it.
    pub fn set_chars(&mut self, idx: usize, text: &Vec<char>, inv: bool)
        ensures
            grid_model(*final(self)) == grid_set_spec(grid_model(*old(self)), idx as int, text@, inv),
            idx >= GRID_LINES ==> *final(self) == *old(self),
            idx < GRID_LINES ==> {
                let n0 = old(self).lines@.len();
                let extra = if idx + 1 > n0 { idx + 1 - n0 } else { 0 };
                let lines1 = lines_view(old(self).lines@) + Seq::new(extra as nat, |j: int| Seq::<u8>::empty());
                let inv1 = old(self).invert@ + Seq::new(extra as nat, |j: int| false);
                &&& lines_view(final(self).lines@) == lines1.update(idx as int, pushed_line(Seq::empty(), text@))
                &&& final(self).invert@ == if idx < inv1.len() { inv1.update(idx as int, inv) } else { inv1 }
                &&& final(self).top_line == old(self).top_line
                &&& final(self).foot_line == old(self).foot_line
                &&& final(self).caps == old(self).caps
            },
    {
        if idx >= GRID_LINES {
            return;
        }
        let ghost n0 = self.lines@.len();
        let ghost lv0 = lines_view(self.lines@);
        let ghost iv0 = self.invert@;
        let ghost extra: int = if idx + 1 > n0 { idx + 1 - n0 } else { 0 };
        let mut k: usize = 0;
        while self.lines.len() <= idx
            invariant
                idx < GRID_LINES,
                n0 == old(self).lines@.len(),
                lv0 == lines_view(old(self).lines@),
                iv0 == old(self).invert@,
                extra == (if idx + 1 > n0 { idx + 1 - n0 } else { 0 }),
                self.lines@.len() == n0 + k,
                k <= extra,
                lines_view(self.lines@) == lv0 + Seq::new(k as nat, |j: int| Seq::<u8>::empty()),
                self.invert@ == iv0 + Seq::new(k as nat, |j: int| false),
                self.top_line == old(self).top_line,
                self.foot_line == old(self).foot_line,
                self.caps == old(self).caps,
            decreases idx + 1 - self.lines@.len(),
        {
            let ghost l0 = self.lines@;
            let ghost i0 = self.invert@;
            self.lines.push(Vec::new());
            self.invert.push(false);
            assert(lines_view(self.lines@) =~= lines_view(l0).push(Seq::<u8>::empty()));
            k = k + 1;
            assert(lines_view(self.lines@) =~= lv0 + Seq::new(k as nat, |j: int| Seq::<u8>::empty()));
            assert(self.invert@ =~= iv0 + Seq::new(k as nat, |j: int| false));
        }
        assert(k == extra);
        let mut line: Line = Vec::new();
        push_oled_chars(&mut line, text, 0, text.len());
        assert(text@.subrange(0, text@.len() as int) =~= text@);
        let ghost lbefore = self.lines@;
        self.lines.set(idx, line);
        assert(lines_view(self.lines@) =~= lines_view(lbefore).update(idx as int, pushed_line(Seq::empty(), text@)));
        if idx < self.invert.len() {
            self.invert.set(idx, inv);
        }
    }
}

/// What the throttle screen shows.
#[derive(Clone, PartialEq, Eq, Debug)]
pub struct ThrottleView {
    pub current: u8,
    pub speed: u8,
    pub forward: bool,
    pub consist_len: u8,
    pub power_on: bool,
    pub heartbeat_on: bool,
    pub functions: u32,
    pub loco: Line,
    pub footer: Line,
    pub next_hint: Line,
    pub battery: Option<u8>,
    pub battery_show_percent: bool,
}

impl Default for ThrottleView {
    fn default() -> (t: Self)
        ensures
            t.current == 0 && t.speed == 0 && t.forward && t.consist_len == 0 && !t.power_on,
            t.heartbeat_on && t.functions == 0 && t.battery is None && !t.battery_show_percent,
            t.loco@.len() == 0 && t.footer@.len() == 0 && t.next_hint@.len() == 0,
    {
        ThrottleView {
            current: 0,
            speed: 0,
            forward: true,
            consist_len: 0,
            power_on: false,
            heartbeat_on: true,
            functions: 0,
            loco: Vec::new(),
            footer: Vec::new(),
            next_hint: Vec::new(),
            battery: None,
            battery_show_percent: false,
        }
    }
}

/// What the display shows.
#[derive(Clone, PartialEq, Eq, Debug)]
pub enum UiView {
    Throttle(ThrottleView),
    Grid(GridView),
    Splash,
    /// Soft-AP wizard page 2: QR code and HTTP URL.
    PairingQr,
}

impl Default for UiView {
    fn default() -> (v: Self)
        ensures
            v matches UiView::Grid(g) && g.lines@.len() == 0 && g.invert@.len() == 0 && !g.top_line && g.foot_line
                && g.caps is None,
    {
        UiView::Grid(GridView::new())
    }
}

} // verus!
