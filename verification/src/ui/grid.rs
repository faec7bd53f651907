//! The menu's text grid: what each menu screen shows on the display lines.

use crate::persist::{StaticIpConfig, DEVICE_ID_MIN};
use crate::ui::keyboard::{char_utf8_len, lemma_encode_concat, lemma_prefix_len_increasing, lemma_utf8_len_push, utf8_len};
use crate::ui::menu::{ip_line_text, u16_padded_text, Screen};
use crate::ui::menu_fsm::{MenuFsm, MenuView};
use crate::ui::view::{grid_model, grid_set_spec, GridModel, GridView, LINE_LEN};
use vstd::prelude::*;

verus! {

/// The texts of the menu screens in the handset's language.
pub struct GridTexts<'a> {
    pub app_name: &'a str,
    pub fw_version: &'a str,
    pub msg_booting: &'a str,
    pub msg_scanning_wifi: &'a str,
    pub hint_scanning_wifi: &'a str,
    pub msg_enter_password: &'a str,
    pub hint_enter_password: &'a str,
    pub msg_select_proto: &'a str,
    pub proto_wit: &'a str,
    pub proto_z21: &'a str,
    pub hint_proto: &'a str,
    pub msg_enter_server_ip: &'a str,
    pub hint_wit_entry: &'a str,
    pub msg_trying_connect: &'a str,
    pub msg_wifi_fail_1: &'a str,
    pub msg_wifi_fail_2: &'a str,
    pub hint_wifi_fail: &'a str,
    pub menu_extras: &'a str,
    pub msg_fw_update: &'a str,
    pub msg_fw_no_ip: &'a str,
    pub msg_fw_http_on: &'a str,
    pub msg_fw_http_off: &'a str,
    pub msg_fw_updating: &'a str,
    pub hint_fw_update: &'a str,
    pub msg_net_config: &'a str,
    pub msg_net_static: &'a str,
    pub msg_net_dhcp: &'a str,
    pub hint_net_config: &'a str,
    pub hint_net_edit: &'a str,
    pub msg_device: &'a str,
    pub msg_device_name: &'a str,
    pub msg_device_id: &'a str,
    pub device_name_id: &'a str,
    pub device_new_id: &'a str,
    pub hint_device: &'a str,
    pub msg_device_name_edit: &'a str,
    pub hint_device_name_edit: &'a str,
    pub msg_device_id_edit: &'a str,
    pub hint_device_id_edit: &'a str,
    pub menu_locos: &'a str,
    pub menu_fn: &'a str,
    pub diag_battery: &'a str,
    pub diag_version: &'a str,
    pub diag_software: &'a str,
    pub diag_range: &'a str,
    pub diag_wifi: &'a str,
    pub diag_ping: &'a str,
}

/// One line that a paged list draws: its row, its text and whether it is highlighted.
pub struct ListRow<'a> {
    pub idx: usize,
    pub text: &'a str,
    pub invert: bool,
}

/// What the grid shows besides the menu state.
pub struct ViewInputs<'a> {
    pub texts: GridTexts<'a>,
    /// The handset has a keypad (then the Caps Lock indicator is shown in text entry).
    pub has_keypad: bool,
    /// Text entry is in upper case.
    pub kbd_uppercase: bool,
    /// Preview line of the text being entered (password, device name).
    pub password_preview: &'a str,
    /// Preview line of the address or number being entered.
    pub ip_formatted: &'a str,
    pub selected_ssid: &'a str,
    /// The station's IPv4 address, if it has one.
    pub sta_ipv4: Option<[u8; 4]>,
    pub http_ota: bool,
    pub http_ota_busy: bool,
    /// The saved network configuration.
    pub network: Option<StaticIpConfig>,
    pub device_name: &'a str,
    pub device_id: u16,
    /// Lines the paged list draws on a list screen (for the diagnostics pages, their text).
    pub list_rows: Vec<ListRow<'a>>,
    /// A message shown over the hint line.
    pub broadcast: Option<&'a str>,
}

/// A display line (at most [`LINE_LEN`] bytes) after writing `t`: whole when it fits, else not at all.
pub open spec fn lput(acc: Seq<char>, t: Seq<char>) -> Seq<char> {
    if utf8_len(acc) + utf8_len(t) <= LINE_LEN { acc + t } else { acc }
}

/// A display line after writing the characters of `t` one by one.
pub open spec fn lput_each(acc: Seq<char>, t: Seq<char>) -> Seq<char>
    decreases t.len(),
{
    if t.len() == 0 {
        acc
    } else {
        lput(lput_each(acc, t.drop_last()), seq![t.last()])
    }
}

/// ASCII bytes as characters.
pub open spec fn ascii_chars(b: Seq<u8>) -> Seq<char> {
    b.map_values(|x: u8| (x as u32) as char)
}

/// `static 192.168.004.020`: the static-address line.
pub open spec fn static_line(label: Seq<char>, ip: Seq<u8>) -> Seq<char> {
    lput_each(lput(lput(Seq::empty(), label), seq![' ']), ascii_chars(ip_line_text(ip)))
}

/// `name {device name}`.
pub open spec fn name_line(label: Seq<char>, name: Seq<char>) -> Seq<char> {
    lput(lput(lput(Seq::empty(), label), seq![' ']), name)
}

/// `ID {four digits}`, or `----` below the first assigned id.
pub open spec fn id_line(label: Seq<char>, id: u16) -> Seq<char> {
    let head = lput(lput(Seq::empty(), label), seq![' ']);
    if id >= DEVICE_ID_MIN {
        lput_each(head, ascii_chars(u16_padded_text(id)))
    } else {
        lput(head, seq!['-', '-', '-', '-'])
    }
}

/// A grid after a sequence of line writes.
pub open spec fn apply_sets(g: GridModel, ops: Seq<(int, Seq<char>, bool)>) -> GridModel
    decreases ops.len(),
{
    if ops.len() == 0 {
        g
    } else {
        let o = ops.last();
        grid_set_spec(apply_sets(g, ops.drop_last()), o.0, o.1, o.2)
    }
}

pub open spec fn rows_ops(rows: Seq<ListRow>) -> Seq<(int, Seq<char>, bool)> {
    rows.map_values(|r: ListRow| (r.idx as int, r.text@, r.invert))
}

/// Screens whose body a paged list draws.
pub open spec fn has_list_rows(s: Screen) -> bool {
    s == Screen::SsidList || s == Screen::SsidScan || s == Screen::ServerList || s == Screen::Menu
        || s == Screen::Extras || s == Screen::RosterList || s == Screen::FunctionList
        || s == Screen::DirectCommands || s == Screen::Language || s == Screen::Diagnostics
}

pub open spec fn diag_title(t: GridTexts, page: usize) -> Seq<char> {
    if page == 0 {
        t.diag_battery@
    } else if page == 1 {
        t.diag_version@
    } else if page == 2 {
        t.diag_software@
    } else if page == 3 {
        t.diag_range@
    } else if page == 4 {
        t.diag_wifi@
    } else {
        t.diag_ping@
    }
}

/// The fixed lines of a screen (before the list rows and the overlays).
pub open spec fn screen_ops(m: MenuView, c: ViewInputs) -> Seq<(int, Seq<char>, bool)> {
    let t = c.texts;
    match m.screen {
        Screen::Splash => seq![(0, t.app_name@, false), (1, t.fw_version@, false), (5, t.msg_booting@, false)],
        Screen::SsidScanning => seq![(0, t.msg_scanning_wifi@, false), (5, t.hint_scanning_wifi@, false)],
        Screen::Password => seq![(0, t.msg_enter_password@, false), (2, c.password_preview@, false), (5, t.hint_enter_password@, false)],
        Screen::ServerProto => seq![
            (0, t.msg_select_proto@, false),
            (1, t.proto_wit@, m.list.cursor == 0),
            (2, t.proto_z21@, m.list.cursor == 1),
            (5, t.hint_proto@, false),
        ],
        Screen::ServerEntry => seq![(0, t.msg_enter_server_ip@, false), (2, c.ip_formatted@, false), (5, t.hint_wit_entry@, false)],
        Screen::Connecting => seq![(1, t.msg_trying_connect@, false), (2, c.selected_ssid@, false)],
        Screen::WifiFailed => seq![(0, t.msg_wifi_fail_1@, false), (1, t.msg_wifi_fail_2@, false), (5, t.hint_wifi_fail@, false)],
        Screen::Extras => seq![(0, t.menu_extras@, false)],
        Screen::FirmwareUpdate => {
            let ip = match c.sta_ipv4 {
                Some(ip) => lput_each(Seq::empty(), ascii_chars(ip_line_text(ip@))),
                None => t.msg_fw_no_ip@,
            };
            let http = if c.http_ota { t.msg_fw_http_on@ } else { t.msg_fw_http_off@ };
            let busy: Seq<(int, Seq<char>, bool)> = if c.http_ota_busy { seq![(3, t.msg_fw_updating@, false)] } else { Seq::empty() };
            seq![(0, t.msg_fw_update@, false), (1, ip, false), (2, http, false)] + busy + seq![(5, t.hint_fw_update@, false)]
        },
        Screen::IpConfig => {
            let l1 = match c.network {
                Some(n) => if !n.dhcp { static_line(t.msg_net_static@, n.ip@) } else { t.msg_net_dhcp@ },
                None => t.msg_net_dhcp@,
            };
            seq![(0, t.msg_net_config@, false), (1, l1, false), (5, t.hint_net_config@, false)]
        },
        Screen::IpEdit => seq![(0, t.msg_net_config@, false), (2, c.ip_formatted@, false), (5, t.hint_net_edit@, false)],
        Screen::Device => seq![
            (0, t.msg_device@, false),
            (1, name_line(t.msg_device_name@, c.device_name@), false),
            (2, id_line(t.msg_device_id@, c.device_id), false),
            (3, t.device_name_id@, m.list.cursor <= 1),
            (4, t.device_new_id@, m.list.cursor == 2),
            (5, t.hint_device@, false),
        ],
        Screen::DeviceNameEdit => seq![(0, t.msg_device_name_edit@, false), (2, c.password_preview@, false), (5, t.hint_device_name_edit@, false)],
        Screen::DeviceIdEdit => seq![(0, t.msg_device_id_edit@, false), (2, c.ip_formatted@, false), (5, t.hint_device_id_edit@, false)],
        Screen::RosterList => seq![(0, t.menu_locos@, false)],
        Screen::FunctionList => seq![(0, t.menu_fn@, false)],
        Screen::Diagnostics => seq![(0, diag_title(t, m.list.page), false)],
        _ => Seq::empty(),
    }
}

/// Every line written for the screen: its fixed lines, the list rows, a typed list number
/// over the title and a broadcast message over the hint line.
pub open spec fn grid_ops(m: MenuView, c: ViewInputs) -> Seq<(int, Seq<char>, bool)> {
    let rows = if has_list_rows(m.screen) { rows_ops(c.list_rows@) } else { Seq::empty() };
    let num: Seq<(int, Seq<char>, bool)> = if m.list_num.len() > 0 { seq![(0, ascii_chars(m.list_num), false)] } else { Seq::empty() };
    let bc: Seq<(int, Seq<char>, bool)> = match c.broadcast {
        Some(b) => seq![(5, b@, false)],
        None => Seq::empty(),
    };
    screen_ops(m, c) + rows + num + bc
}

/// The empty grid of a screen: foot line (none on the diagnostics pages) and the Caps Lock
/// indicator in text entry on keypad handsets.
pub open spec fn grid_start(m: MenuView, c: ViewInputs) -> GridModel {
    GridModel {
        lines: Seq::empty(),
        invert: Seq::empty(),
        top_line: false,
        foot_line: m.screen != Screen::Diagnostics,
        caps: if (m.screen == Screen::Password || m.screen == Screen::DeviceNameEdit) && c.has_keypad {
            Some(c.kbd_uppercase)
        } else {
            None
        },
    }
}

/// The grid a menu screen shows.
pub open spec fn grid_spec(m: MenuView, c: ViewInputs) -> GridModel {
    apply_sets(grid_start(m, c), grid_ops(m, c))
}

fn str_chars(s: &str) -> (r: Vec<char>)
    ensures
        r@ == s@,
{
    let n = s.unicode_len();
    let mut r: Vec<char> = Vec::new();
    let mut i: usize = 0;
    while i < n
        invariant
            n == s@.len(),
            i <= n,
            r@ == s@.take(i as int),
        decreases n - i,
    {
        r.push(s.get_char(i));
        assert(s@.take(i + 1) =~= s@.take(i as int).push(s@[i as int]));
        i = i + 1;
    }
    assert(s@.take(n as int) =~= s@);
    r
}

fn ascii_chars_exec(b: &[u8]) -> (r: Vec<char>)
    ensures
        r@ == ascii_chars(b@),
{
    let n = b.len();
    let mut r: Vec<char> = Vec::new();
    let mut i: usize = 0;
    while i < n
        invariant
            n == b@.len(),
            i <= n,
            r@ == ascii_chars(b@.take(i as int)),
        decreases n - i,
    {
        r.push(b[i] as char);
        assert(ascii_chars(b@.take(i + 1)) =~= ascii_chars(b@.take(i as int)).push((b@[i as int] as u32) as char));
        i = i + 1;
    }
    assert(b@.take(n as int) =~= b@);
    r
}

/// Byte length of `t` when it is at most `limit`, else some value above `limit`.
fn utf8_len_upto(t: &Vec<char>, limit: usize) -> (r: usize)
    requires
        limit <= LINE_LEN,
    ensures
        r <= limit ==> r == utf8_len(t@),
        r > limit ==> utf8_len(t@) > limit,
{
    let n = t.len();
    let mut acc: usize = 0;
    let mut j: usize = 0;
    assert(t@.take(0) =~= Seq::<char>::empty());
    proof {
        lemma_empty_len();
    }
    while j < n && acc <= limit
        invariant
            n == t@.len(),
            j <= n,
            limit <= LINE_LEN,
            acc == utf8_len(t@.take(j as int)),
            acc <= limit + 4,
        decreases n - j,
    {
        let w = char_utf8_len(t[j]);
        proof {
            lemma_utf8_len_push(t@.take(j as int), t@[j as int]);
            assert(t@.take(j as int).push(t@[j as int]) =~= t@.take(j + 1));
        }
        acc = acc + w;
        j = j + 1;
    }
    proof {
        assert(t@.take(n as int) =~= t@);
        if j < n {
            lemma_prefix_len_increasing(t@, j as int, n as int);
        }
    }
    acc
}

proof fn lemma_empty_len()
    ensures
        utf8_len(Seq::<char>::empty()) == 0,
{
    assert(vstd::utf8::encode_utf8(Seq::<char>::empty()) =~= Seq::<u8>::empty());
}

/// A display line being composed, with its byte length.
fn lput_exec(acc: &mut Vec<char>, acc_bytes: &mut usize, t: &Vec<char>)
    requires
        *old(acc_bytes) == utf8_len(old(acc)@),
        utf8_len(old(acc)@) <= LINE_LEN,
    ensures
        final(acc)@ == lput(old(acc)@, t@),
        *final(acc_bytes) == utf8_len(final(acc)@),
        utf8_len(final(acc)@) <= LINE_LEN,
{
    let room = LINE_LEN - *acc_bytes;
    let w = utf8_len_upto(t, room);
    if w <= room {
        proof {
            lemma_encode_concat(acc@, t@);
        }
        let ghost a0 = acc@;
        let n = t.len();
        let mut j: usize = 0;
        while j < n
            invariant
                n == t@.len(),
                j <= n,
                acc@ == a0 + t@.take(j as int),
            decreases n - j,
        {
            acc.push(t[j]);
            assert(t@.take(j + 1) =~= t@.take(j as int).push(t@[j as int]));
            j = j + 1;
        }
        assert(t@.take(n as int) =~= t@);
        *acc_bytes = *acc_bytes + w;
    }
}

fn lput_char(acc: &mut Vec<char>, acc_bytes: &mut usize, c: char)
    requires
        *old(acc_bytes) == utf8_len(old(acc)@),
        utf8_len(old(acc)@) <= LINE_LEN,
    ensures
        final(acc)@ == lput(old(acc)@, seq![c]),
        *final(acc_bytes) == utf8_len(final(acc)@),
        utf8_len(final(acc)@) <= LINE_LEN,
{
    let one: Vec<char> = vec![c];
    assert(one@ =~= seq![c]);
    lput_exec(acc, acc_bytes, &one);
}

fn lput_each_exec(acc: &mut Vec<char>, acc_bytes: &mut usize, t: &Vec<char>)
    requires
        *old(acc_bytes) == utf8_len(old(acc)@),
        utf8_len(old(acc)@) <= LINE_LEN,
    ensures
        final(acc)@ == lput_each(old(acc)@, t@),
        *final(acc_bytes) == utf8_len(final(acc)@),
        utf8_len(final(acc)@) <= LINE_LEN,
{
    let ghost a0 = acc@;
    let n = t.len();
    let mut j: usize = 0;
    assert(t@.take(0) =~= Seq::<char>::empty());
    while j < n
        invariant
            n == t@.len(),
            j <= n,
            *acc_bytes == utf8_len(acc@),
            utf8_len(acc@) <= LINE_LEN,
            acc@ == lput_each(a0, t@.take(j as int)),
        decreases n - j,
    {
        assert(t@.take(j + 1).drop_last() =~= t@.take(j as int));
        lput_char(acc, acc_bytes, t[j]);
        j = j + 1;
    }
    assert(t@.take(n as int) =~= t@);
}

fn empty_line() -> (r: (Vec<char>, usize))
    ensures
        r.0@ == Seq::<char>::empty(),
        r.1 == 0,
        utf8_len(r.0@) == 0,
{
    proof {
        lemma_empty_len();
    }
    (Vec::new(), 0)
}

fn ip_chars(ip: [u8; 4]) -> (r: Vec<char>)
    ensures
        r@ == ascii_chars(ip_line_text(ip@)),
{
    let mut b: Vec<u8> = Vec::new();
    crate::ui::menu::write_ip_line(&mut b, ip);
    assert(b@ =~= ip_line_text(ip@)) by {
        assert(ip_line_text(ip@).len() == 15);
        assert(ip_line_text(ip@).take(15) =~= ip_line_text(ip@));
    }
    ascii_chars_exec(b.as_slice())
}

fn static_line_exec(label: &str, ip: [u8; 4]) -> (r: Vec<char>)
    ensures
        r@ == static_line(label@, ip@),
{
    let (mut l, mut lb) = empty_line();
    let lc = str_chars(label);
    lput_exec(&mut l, &mut lb, &lc);
    lput_char(&mut l, &mut lb, ' ');
    let ipc = ip_chars(ip);
    lput_each_exec(&mut l, &mut lb, &ipc);
    l
}

fn name_line_exec(label: &str, name: &str) -> (r: Vec<char>)
    ensures
        r@ == name_line(label@, name@),
{
    let (mut l, mut lb) = empty_line();
    let lc = str_chars(label);
    lput_exec(&mut l, &mut lb, &lc);
    lput_char(&mut l, &mut lb, ' ');
    let nc = str_chars(name);
    lput_exec(&mut l, &mut lb, &nc);
    l
}

fn id_line_exec(label: &str, id: u16) -> (r: Vec<char>)
    ensures
        r@ == id_line(label@, id),
{
    let (mut l, mut lb) = empty_line();
    let lc = str_chars(label);
    lput_exec(&mut l, &mut lb, &lc);
    lput_char(&mut l, &mut lb, ' ');
    if id >= DEVICE_ID_MIN {
        let mut d: Vec<u8> = Vec::new();
        let _ = crate::ui::menu::write_u16_padded(&mut d, id);
        assert(d@ =~= u16_padded_text(id));
        let dc = ascii_chars_exec(d.as_slice());
        lput_each_exec(&mut l, &mut lb, &dc);
    } else {
        let dashes: Vec<char> = vec!['-', '-', '-', '-'];
        assert(dashes@ =~= seq!['-', '-', '-', '-']);
        lput_exec(&mut l, &mut lb, &dashes);
    }
    l
}

pub open spec fn ops_view(ops: Seq<(usize, Vec<char>, bool)>) -> Seq<(int, Seq<char>, bool)> {
    ops.map_values(|o: (usize, Vec<char>, bool)| (o.0 as int, o.1@, o.2))
}

fn op(ops: &mut Vec<(usize, Vec<char>, bool)>, idx: usize, text: Vec<char>, inv: bool)
    ensures
        ops_view(final(ops)@) == ops_view(old(ops)@).push((idx as int, text@, inv)),
{
    ops.push((idx, text, inv));
    assert(ops_view(ops@) =~= ops_view(old(ops)@).push((idx as int, text@, inv)));
}

fn op_str(ops: &mut Vec<(usize, Vec<char>, bool)>, idx: usize, text: &str, inv: bool)
    ensures
        ops_view(final(ops)@) == ops_view(old(ops)@).push((idx as int, text@, inv)),
{
    let c = str_chars(text);
    op(ops, idx, c, inv);
}

fn screen_ops_exec(m: &MenuFsm, c: &ViewInputs) -> (r: Vec<(usize, Vec<char>, bool)>)
    ensures
        ops_view(r@) == screen_ops(m@, *c),
{
    let t = &c.texts;
    let mut o: Vec<(usize, Vec<char>, bool)> = Vec::new();
    assert(ops_view(o@) =~= Seq::<(int, Seq<char>, bool)>::empty());
    match m.screen {
        Screen::Splash => {
            op_str(&mut o, 0, t.app_name, false);
            op_str(&mut o, 1, t.fw_version, false);
            op_str(&mut o, 5, t.msg_booting, false);
        },
        Screen::SsidScanning => {
            op_str(&mut o, 0, t.msg_scanning_wifi, false);
            op_str(&mut o, 5, t.hint_scanning_wifi, false);
        },
        Screen::Password => {
            op_str(&mut o, 0, t.msg_enter_password, false);
            op_str(&mut o, 2, c.password_preview, false);
            op_str(&mut o, 5, t.hint_enter_password, false);
        },
        Screen::ServerProto => {
            op_str(&mut o, 0, t.msg_select_proto, false);
            op_str(&mut o, 1, t.proto_wit, m.list.cursor == 0);
            op_str(&mut o, 2, t.proto_z21, m.list.cursor == 1);
            op_str(&mut o, 5, t.hint_proto, false);
        },
        Screen::ServerEntry => {
            op_str(&mut o, 0, t.msg_enter_server_ip, false);
            op_str(&mut o, 2, c.ip_formatted, false);
            op_str(&mut o, 5, t.hint_wit_entry, false);
        },
        Screen::Connecting => {
            op_str(&mut o, 1, t.msg_trying_connect, false);
            op_str(&mut o, 2, c.selected_ssid, false);
        },
        Screen::WifiFailed => {
            op_str(&mut o, 0, t.msg_wifi_fail_1, false);
            op_str(&mut o, 1, t.msg_wifi_fail_2, false);
            op_str(&mut o, 5, t.hint_wifi_fail, false);
        },
        Screen::Extras => {
            op_str(&mut o, 0, t.menu_extras, false);
        },
        Screen::FirmwareUpdate => {
            op_str(&mut o, 0, t.msg_fw_update, false);
            match c.sta_ipv4 {
                Some(ip) => {
                    let (mut l, mut lb) = empty_line();
                    let ipc = ip_chars(ip);
                    lput_each_exec(&mut l, &mut lb, &ipc);
                    op(&mut o, 1, l, false);
                },
                None => {
                    op_str(&mut o, 1, t.msg_fw_no_ip, false);
                },
            }
            if c.http_ota {
                op_str(&mut o, 2, t.msg_fw_http_on, false);
            } else {
                op_str(&mut o, 2, t.msg_fw_http_off, false);
            }
            if c.http_ota_busy {
                op_str(&mut o, 3, t.msg_fw_updating, false);
            }
            op_str(&mut o, 5, t.hint_fw_update, false);
        },
        Screen::IpConfig => {
            op_str(&mut o, 0, t.msg_net_config, false);
            match c.network {
                Some(n) => {
                    if !n.dhcp {
                        let l = static_line_exec(t.msg_net_static, n.ip);
                        op(&mut o, 1, l, false);
                    } else {
                        op_str(&mut o, 1, t.msg_net_dhcp, false);
                    }
                },
                None => {
                    op_str(&mut o, 1, t.msg_net_dhcp, false);
                },
            }
            op_str(&mut o, 5, t.hint_net_config, false);
        },
        Screen::IpEdit => {
            op_str(&mut o, 0, t.msg_net_config, false);
            op_str(&mut o, 2, c.ip_formatted, false);
            op_str(&mut o, 5, t.hint_net_edit, false);
        },
        Screen::Device => {
            op_str(&mut o, 0, t.msg_device, false);
            let nl = name_line_exec(t.msg_device_name, c.device_name);
            op(&mut o, 1, nl, false);
            let il = id_line_exec(t.msg_device_id, c.device_id);
            op(&mut o, 2, il, false);
            op_str(&mut o, 3, t.device_name_id, m.list.cursor <= 1);
            op_str(&mut o, 4, t.device_new_id, m.list.cursor == 2);
            op_str(&mut o, 5, t.hint_device, false);
        },
        Screen::DeviceNameEdit => {
            op_str(&mut o, 0, t.msg_device_name_edit, false);
            op_str(&mut o, 2, c.password_preview, false);
            op_str(&mut o, 5, t.hint_device_name_edit, false);
        },
        Screen::DeviceIdEdit => {
            op_str(&mut o, 0, t.msg_device_id_edit, false);
            op_str(&mut o, 2, c.ip_formatted, false);
            op_str(&mut o, 5, t.hint_device_id_edit, false);
        },
        Screen::RosterList => {
            op_str(&mut o, 0, t.menu_locos, false);
        },
        Screen::FunctionList => {
            op_str(&mut o, 0, t.menu_fn, false);
        },
        Screen::Diagnostics => {
            let p = m.list.page;
            let title = if p == 0 {
                t.diag_battery
            } else if p == 1 {
                t.diag_version
            } else if p == 2 {
                t.diag_software
            } else if p == 3 {
                t.diag_range
            } else if p == 4 {
                t.diag_wifi
            } else {
                t.diag_ping
            };
            op_str(&mut o, 0, title, false);
        },
        _ => {},
    }
    assert(ops_view(o@) =~= screen_ops(m@, *c));
    o
}

fn has_list_rows_exec(s: Screen) -> (r: bool)
    ensures
        r == has_list_rows(s),
{
    match s {
        Screen::SsidList | Screen::SsidScan | Screen::ServerList | Screen::Menu | Screen::Extras
        | Screen::RosterList | Screen::FunctionList | Screen::DirectCommands | Screen::Language
        | Screen::Diagnostics => true,
        _ => false,
    }
}

/// The grid the menu shows for its current screen.
pub fn build_grid(m: &MenuFsm, ctx: &ViewInputs) -> (g: GridView)
    ensures
        grid_model(g) == grid_spec(m@, *ctx),
{
    let mut g = GridView::new();
    g.foot_line = true;
    if (m.screen == Screen::Password || m.screen == Screen::DeviceNameEdit) && ctx.has_keypad {
        g.caps = Some(ctx.kbd_uppercase);
    }
    if m.screen == Screen::Diagnostics {
        g.foot_line = false;
    }
    assert(g.lines@ =~= Seq::<crate::ui::view::Line>::empty());
    assert(grid_model(g) == grid_start(m@, *ctx)) by {
        assert(crate::ui::view::lines_view(g.lines@) =~= Seq::<Seq<u8>>::empty());
        assert(g.invert@ =~= Seq::<bool>::empty());
    }
    let mut ops = screen_ops_exec(m, ctx);
    if has_list_rows_exec(m.screen) {
        let n = ctx.list_rows.len();
        let mut k: usize = 0;
        let ghost base = ops_view(ops@);
        while k < n
            invariant
                n == ctx.list_rows@.len(),
                k <= n,
                ops_view(ops@) == base + rows_ops(ctx.list_rows@.take(k as int)),
            decreases n - k,
        {
            let r = &ctx.list_rows[k];
            op_str(&mut ops, r.idx, r.text, r.invert);
            assert(rows_ops(ctx.list_rows@.take(k + 1)) =~= rows_ops(ctx.list_rows@.take(k as int)).push(
                (ctx.list_rows@[k as int].idx as int, ctx.list_rows@[k as int].text@, ctx.list_rows@[k as int].invert),
            ));
            assert(base + rows_ops(ctx.list_rows@.take(k + 1)) =~= (base + rows_ops(ctx.list_rows@.take(k as int))).push(
                (ctx.list_rows@[k as int].idx as int, ctx.list_rows@[k as int].text@, ctx.list_rows@[k as int].invert),
            ));
            k = k + 1;
        }
        assert(ctx.list_rows@.take(n as int) =~= ctx.list_rows@);
    } else {
        assert(ops_view(ops@) =~= ops_view(ops@) + Seq::<(int, Seq<char>, bool)>::empty());
    }
    if m.list_num.len() > 0 {
        let nc = ascii_chars_exec(m.list_num.as_slice());
        op(&mut ops, 0, nc, false);
    }
    match ctx.broadcast {
        Some(b) => {
            op_str(&mut ops, 5, b, false);
        },
        None => {},
    }
    assert(ops_view(ops@) =~= grid_ops(m@, *ctx));
    let ghost g0 = grid_model(g);
    let n = ops.len();
    let mut k: usize = 0;
    assert(ops_view(ops@).take(0) =~= Seq::<(int, Seq<char>, bool)>::empty());
    while k < n
        invariant
            n == ops@.len(),
            k <= n,
            grid_model(g) == apply_sets(g0, ops_view(ops@).take(k as int)),
        decreases n - k,
    {
        assert(ops_view(ops@).take(k + 1).drop_last() =~= ops_view(ops@).take(k as int));
        g.set_chars(ops[k].0, &ops[k].1, ops[k].2);
        k = k + 1;
    }
    assert(ops_view(ops@).take(n as int) =~= ops_view(ops@));
    g
}

} // verus!
