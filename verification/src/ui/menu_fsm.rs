//! Navigation of the handset menu: where Back leads, list cursor and paging, and the
//! choices of the Extras menu.

use crate::action::Action;
use crate::persist::Language;
use crate::ui::input::NavDir;
use crate::ui::menu::{Intent, Screen};
use vstd::prelude::*;

verus! {

/// Position in a paged list: the page shown and the highlighted row on it.
#[derive(Clone, Copy, PartialEq, Eq, Debug, Structural)]
pub struct ListPos {
    pub page: usize,
    pub cursor: usize,
}

/// Navigation state of the menu.
#[derive(Clone, Debug)]
pub struct MenuFsm {
    pub screen: Screen,
    /// Position in the list on screen.
    pub list: ListPos,
    /// Page of the function list.
    pub fn_page: usize,
    /// Digits of a list number being typed (at most three).
    pub list_num: Vec<u8>,
    /// The network being joined was picked from a scan (not from the built-in list).
    pub selected_from_scan: bool,
    /// Manual server entry was opened from the server list.
    pub server_entry_from_list: bool,
    /// The language picker is the first-boot wizard (Back does not leave it).
    pub boot_language: bool,
}

/// Abstract state of a [`MenuFsm`].
pub struct MenuView {
    pub screen: Screen,
    pub list: ListPos,
    pub fn_page: usize,
    pub list_num: Seq<u8>,
    pub selected_from_scan: bool,
    pub server_entry_from_list: bool,
    pub boot_language: bool,
}

impl View for MenuFsm {
    type V = MenuView;

    open spec fn view(&self) -> MenuView {
        MenuView {
            screen: self.screen,
            list: self.list,
            fn_page: self.fn_page,
            list_num: self.list_num@,
            selected_from_scan: self.selected_from_scan,
            server_entry_from_list: self.server_entry_from_list,
            boot_language: self.boot_language,
        }
    }
}

/// What the paged lists report for one navigation step of the list on screen.
#[derive(Clone, Copy, PartialEq, Eq, Debug, Structural)]
pub struct ListInputs {
    /// Rows on the current page.
    pub count: usize,
    /// Rows on the page before the current one.
    pub prev_page_count: usize,
    /// The list has a page after the current one.
    pub has_next_page: bool,
    /// The roster list is longer than its first page.
    pub roster_spans_pages: bool,
    /// Where a choice list (main menu, networks, servers, languages) moves for this step.
    pub choice_step: ListPos,
}

/// Screens whose list scrolls as a choice list (its own paging and wrap-around).
pub open spec fn is_choice_list(s: Screen) -> bool {
    s == Screen::Menu || s == Screen::SsidList || s == Screen::SsidScan || s == Screen::ServerList
        || s == Screen::Language
}

/// Back: a typed list number is dropped first; otherwise each screen leads to its parent.
/// `no_builtin_networks` tells whether the firmware carries no built-in network list.
pub open spec fn back_spec(m: MenuView, no_builtin_networks: bool) -> (MenuView, Intent) {
    let to = |s: Screen| MenuView { screen: s, ..m };
    if m.list_num.len() > 0 {
        (MenuView { list_num: Seq::empty(), ..m }, Intent::Idle)
    } else {
        match m.screen {
            Screen::Throttle => (m, Intent::Idle),
            Screen::Menu => (to(Screen::Throttle), Intent::Idle),
            Screen::Extras => (MenuView { screen: Screen::Menu, list: ListPos { page: 0, cursor: 0 }, ..m }, Intent::Idle),
            Screen::Password => (to(if m.selected_from_scan { Screen::SsidScan } else { Screen::SsidList }), Intent::Idle),
            Screen::SsidScanning => (to(Screen::SsidScan), Intent::Idle),
            Screen::SsidScan => (if no_builtin_networks { m } else { to(Screen::SsidList) }, Intent::Idle),
            Screen::SsidList => (to(Screen::Throttle), Intent::Idle),
            Screen::WifiFailed => (to(Screen::SsidScan), Intent::Idle),
            Screen::ServerList => (to(if no_builtin_networks { Screen::SsidScan } else { Screen::SsidList }), Intent::Idle),
            Screen::ServerProto => (to(Screen::ServerList), Intent::Idle),
            Screen::ServerEntry => if m.server_entry_from_list {
                (MenuView { screen: Screen::ServerList, server_entry_from_list: false, ..m }, Intent::Idle)
            } else {
                (to(Screen::ServerProto), Intent::Idle)
            },
            Screen::IpConfig | Screen::IpEdit | Screen::Device | Screen::DeviceNameEdit
            | Screen::DeviceIdEdit | Screen::Diagnostics => (to(Screen::Extras), Intent::Idle),
            Screen::Language => if m.boot_language { (m, Intent::Idle) } else { (to(Screen::Extras), Intent::Idle) },
            Screen::FirmwareUpdate => (to(Screen::Extras), Intent::SetHttpOta(false)),
            _ => (to(Screen::Throttle), Intent::Idle),
        }
    }
}

/// The Extras entry at `idx`: network and device settings, display and session toggles,
/// throttle limit, sleep, language, firmware update and diagnostics.
pub open spec fn extras_spec(m: MenuView, idx: int) -> (MenuView, Intent) {
    let to = |s: Screen| MenuView { screen: s, ..m };
    let first = |s: Screen| MenuView { screen: s, list: ListPos { cursor: 0, ..m.list }, ..m };
    if idx == 0 {
        (to(Screen::IpConfig), Intent::Idle)
    } else if idx == 1 {
        (first(Screen::Device), Intent::Idle)
    } else if idx == 2 {
        (to(Screen::Throttle), Intent::HashFunctionsToggle)
    } else if idx == 3 {
        (to(Screen::Throttle), Intent::HeartbeatToggle)
    } else if idx == 4 {
        (to(Screen::Throttle), Intent::Action(Action::MaxThrottleIncrease))
    } else if idx == 5 {
        (to(Screen::Throttle), Intent::Action(Action::MaxThrottleDecrease))
    } else if idx == 6 {
        (to(Screen::Throttle), Intent::Sleep)
    } else if idx == 7 {
        (to(Screen::Throttle), Intent::DropBeforeAcquireToggle)
    } else if idx == 8 {
        (first(Screen::Language), Intent::Idle)
    } else if idx == 9 {
        (to(Screen::FirmwareUpdate), Intent::Idle)
    } else if idx == 10 {
        (MenuView { screen: Screen::Diagnostics, list: ListPos { page: 0, ..m.list }, ..m }, Intent::Idle)
    } else {
        (m, Intent::Idle)
    }
}

/// Next page of the list (Right).
pub open spec fn page_next_spec(m: MenuView, inp: ListInputs) -> MenuView {
    if is_choice_list(m.screen) {
        MenuView { list: inp.choice_step, ..m }
    } else if m.screen == Screen::RosterList {
        let page = if inp.has_next_page {
            (m.list.page + 1) as usize
        } else if inp.roster_spans_pages {
            0
        } else {
            m.list.page
        };
        MenuView { list: ListPos { page, cursor: 0 }, ..m }
    } else if m.screen == Screen::FunctionList {
        if inp.has_next_page {
            MenuView { fn_page: (m.fn_page + 1) as usize, list: ListPos { page: (m.fn_page + 1) as usize, cursor: 0 }, ..m }
        } else {
            m
        }
    } else if inp.has_next_page {
        MenuView { list: ListPos { page: (m.list.page + 1) as usize, cursor: 0 }, ..m }
    } else {
        m
    }
}

/// Previous page of the list (Left).
pub open spec fn page_prev_spec(m: MenuView, inp: ListInputs) -> MenuView {
    if is_choice_list(m.screen) {
        MenuView { list: inp.choice_step, ..m }
    } else if m.screen == Screen::FunctionList {
        if m.fn_page > 0 {
            MenuView { fn_page: (m.fn_page - 1) as usize, list: ListPos { page: (m.fn_page - 1) as usize, cursor: 0 }, ..m }
        } else {
            m
        }
    } else if m.list.page > 0 {
        MenuView { list: ListPos { page: (m.list.page - 1) as usize, cursor: 0 }, ..m }
    } else {
        m
    }
}

/// One joystick step in a list. Up and Down move the cursor, wrapping to the neighbouring
/// page (or around the page when there is none); Left and Right turn pages.
pub open spec fn list_nav_spec(m: MenuView, dir: NavDir, inp: ListInputs) -> MenuView {
    let count = inp.count;
    let last_prev: usize = if inp.prev_page_count > 0 { (inp.prev_page_count - 1) as usize } else { 0 };
    if is_choice_list(m.screen) && (dir == NavDir::Up || dir == NavDir::Down) {
        MenuView { list: inp.choice_step, ..m }
    } else if count == 0 {
        m
    } else {
        match dir {
            NavDir::Up => if m.list.cursor == 0 {
                if m.screen == Screen::FunctionList {
                    if m.fn_page > 0 {
                        MenuView { fn_page: (m.fn_page - 1) as usize, list: ListPos { page: (m.fn_page - 1) as usize, cursor: last_prev }, ..m }
                    } else {
                        MenuView { list: ListPos { cursor: (count - 1) as usize, ..m.list }, ..m }
                    }
                } else if m.list.page > 0 {
                    MenuView { list: ListPos { page: (m.list.page - 1) as usize, cursor: last_prev }, ..m }
                } else {
                    MenuView { list: ListPos { cursor: (count - 1) as usize, ..m.list }, ..m }
                }
            } else {
                MenuView { list: ListPos { cursor: (m.list.cursor - 1) as usize, ..m.list }, ..m }
            },
            NavDir::Down => if m.list.cursor + 1 >= count {
                if inp.has_next_page {
                    if m.screen == Screen::FunctionList {
                        MenuView { fn_page: (m.fn_page + 1) as usize, list: ListPos { page: (m.fn_page + 1) as usize, cursor: 0 }, ..m }
                    } else {
                        MenuView { list: ListPos { page: (m.list.page + 1) as usize, cursor: 0 }, ..m }
                    }
                } else {
                    MenuView { list: ListPos { cursor: 0, ..m.list }, ..m }
                }
            } else {
                MenuView { list: ListPos { cursor: (m.list.cursor + 1) as usize, ..m.list }, ..m }
            },
            NavDir::Right => page_next_spec(m, inp),
            NavDir::Left => page_prev_spec(m, inp),
        }
    }
}

/// Menu key: back to the main menu from anywhere, leaving the firmware-update page
/// switches the HTTP update off.
pub open spec fn menu_key_spec(m: MenuView) -> (MenuView, Intent) {
    (
        MenuView { screen: Screen::Menu, list_num: Seq::empty(), list: ListPos { page: 0, cursor: 0 }, ..m },
        if m.screen == Screen::FirmwareUpdate { Intent::SetHttpOta(false) } else { Intent::Idle },
    )
}

/// The main-menu entry at `idx`: function list, roster, speed step, track power, extras.
pub open spec fn main_menu_spec(m: MenuView, idx: int) -> (MenuView, Intent) {
    let m0 = MenuView { list_num: Seq::empty(), ..m };
    let first = ListPos { page: 0, cursor: 0 };
    if idx == 0 {
        (MenuView { screen: Screen::FunctionList, fn_page: 0, list: first, ..m0 }, Intent::Idle)
    } else if idx == 1 {
        (MenuView { screen: Screen::RosterList, list: first, ..m0 }, Intent::Idle)
    } else if idx == 2 {
        (MenuView { screen: Screen::Throttle, ..m0 }, Intent::Action(Action::SpeedMultiplier))
    } else if idx == 3 {
        (MenuView { screen: Screen::Throttle, ..m0 }, Intent::Action(Action::PowerToggle))
    } else if idx == 4 {
        (MenuView { screen: Screen::Extras, list: first, ..m0 }, Intent::Idle)
    } else {
        (m0, Intent::Idle)
    }
}

/// The direct-command entry at `idx`: F0, next throttle, speed step, reverse, emergency
/// stop; the sixth entry goes back to the throttle.
pub open spec fn direct_spec(m: MenuView, idx: int) -> (MenuView, Intent) {
    if idx == 0 {
        (m, Intent::Action(Action::Function(0)))
    } else if idx == 1 {
        (m, Intent::Action(Action::NextThrottle))
    } else if idx == 2 {
        (m, Intent::Action(Action::SpeedMultiplier))
    } else if idx == 3 {
        (m, Intent::Action(Action::DirectionReverse))
    } else if idx == 4 {
        (m, Intent::Action(Action::EStop))
    } else if idx == 5 {
        (MenuView { screen: Screen::Throttle, ..m }, Intent::Idle)
    } else {
        (m, Intent::Idle)
    }
}

/// The language at `idx` (English, Polish, German): set; the first-boot wizard ends, else
/// the picker goes back to Extras.
pub open spec fn language_spec(m: MenuView, idx: int) -> (MenuView, Intent) {
    let lang = if idx == 0 { Language::En } else if idx == 1 { Language::Pl } else { Language::De };
    if idx < 0 || idx > 2 {
        (m, Intent::Idle)
    } else if m.boot_language {
        (MenuView { boot_language: false, ..m }, Intent::SetLanguage(lang))
    } else {
        (MenuView { screen: Screen::Extras, ..m }, Intent::SetLanguage(lang))
    }
}

/// Page counters can still be advanced.
pub open spec fn can_advance(m: MenuView) -> bool {
    m.list.page < usize::MAX && m.fn_page < usize::MAX
}

impl MenuFsm {
    /// Back key. `no_builtin_networks` tells whether the firmware carries no built-in network
    /// list (then the scan is the first Wi-Fi screen).
    pub fn on_back(&mut self, no_builtin_networks: bool) -> (i: Intent)
        ensures
            (final(self)@, i) == back_spec(old(self)@, no_builtin_networks),
    {
        if self.list_num.len() > 0 {
            self.list_num.clear();
            return Intent::Idle;
        }
        match self.screen {
            Screen::Throttle => Intent::Idle,
            Screen::Menu => {
                self.screen = Screen::Throttle;
                Intent::Idle
            },
            Screen::Extras => {
                self.screen = Screen::Menu;
                self.list = ListPos { page: 0, cursor: 0 };
                Intent::Idle
            },
            Screen::Password => {
                self.screen = if self.selected_from_scan {
                    Screen::SsidScan
                } else {
                    Screen::SsidList
                };
                Intent::Idle
            },
            Screen::SsidScanning => {
                self.screen = Screen::SsidScan;
                Intent::Idle
            },
            Screen::SsidScan => {
                if !no_builtin_networks {
                    self.screen = Screen::SsidList;
                }
                Intent::Idle
            },
            Screen::SsidList => {
                self.screen = Screen::Throttle;
                Intent::Idle
            },
            Screen::WifiFailed => {
                self.screen = Screen::SsidScan;
                Intent::Idle
            },
            Screen::ServerList => {
                self.screen = if no_builtin_networks {
                    Screen::SsidScan
                } else {
                    Screen::SsidList
                };
                Intent::Idle
            },
            Screen::ServerProto => {
                self.screen = Screen::ServerList;
                Intent::Idle
            },
            Screen::ServerEntry => {
                if self.server_entry_from_list {
                    self.server_entry_from_list = false;
                    self.screen = Screen::ServerList;
                } else {
                    self.screen = Screen::ServerProto;
                }
                Intent::Idle
            },
            Screen::IpConfig | Screen::IpEdit | Screen::Device | Screen::DeviceNameEdit
            | Screen::DeviceIdEdit | Screen::Diagnostics => {
                self.screen = Screen::Extras;
                Intent::Idle
            },
            Screen::Language => {
                if !self.boot_language {
                    self.screen = Screen::Extras;
                }
                Intent::Idle
            },
            Screen::FirmwareUpdate => {
                self.screen = Screen::Extras;
                Intent::SetHttpOta(false)
            },
            _ => {
                self.screen = Screen::Throttle;
                Intent::Idle
            },
        }
    }

    /// OK on the Extras menu; `page_start` is the index of the first entry on the page shown.
    pub fn ok_extras(&mut self, page_start: usize) -> (i: Intent)
        requires
            page_start + old(self).list.cursor <= usize::MAX,
        ensures
            (final(self)@, i) == extras_spec(old(self)@, page_start + old(self).list.cursor),
    {
        let idx = page_start + self.list.cursor;
        if idx == 0 {
            self.screen = Screen::IpConfig;
            Intent::Idle
        } else if idx == 1 {
            self.screen = Screen::Device;
            self.list.cursor = 0;
            Intent::Idle
        } else if idx == 2 {
            self.screen = Screen::Throttle;
            Intent::HashFunctionsToggle
        } else if idx == 3 {
            self.screen = Screen::Throttle;
            Intent::HeartbeatToggle
        } else if idx == 4 {
            self.screen = Screen::Throttle;
            Intent::Action(Action::MaxThrottleIncrease)
        } else if idx == 5 {
            self.screen = Screen::Throttle;
            Intent::Action(Action::MaxThrottleDecrease)
        } else if idx == 6 {
            self.screen = Screen::Throttle;
            Intent::Sleep
        } else if idx == 7 {
            self.screen = Screen::Throttle;
            Intent::DropBeforeAcquireToggle
        } else if idx == 8 {
            self.screen = Screen::Language;
            self.list.cursor = 0;
            Intent::Idle
        } else if idx == 9 {
            self.screen = Screen::FirmwareUpdate;
            Intent::Idle
        } else if idx == 10 {
            self.screen = Screen::Diagnostics;
            self.list.page = 0;
            Intent::Idle
        } else {
            Intent::Idle
        }
    }

    fn is_choice_list_exec(&self) -> (r: bool)
        ensures
            r == is_choice_list(self.screen),
    {
        match self.screen {
            Screen::Menu | Screen::SsidList | Screen::SsidScan | Screen::ServerList | Screen::Language => true,
            _ => false,
        }
    }

    /// Next page of the list (Right).
    pub fn list_page_next(&mut self, inp: &ListInputs) -> (i: Intent)
        requires
            can_advance(old(self)@),
        ensures
            final(self)@ == page_next_spec(old(self)@, *inp),
            i == Intent::Idle,
    {
        if self.is_choice_list_exec() {
            self.list = inp.choice_step;
            return Intent::Idle;
        }
        if self.screen == Screen::RosterList {
            if inp.has_next_page {
                self.list.page = self.list.page + 1;
            } else if inp.roster_spans_pages {
                self.list.page = 0;
            }
            self.list.cursor = 0;
            return Intent::Idle;
        }
        if self.screen == Screen::FunctionList {
            if inp.has_next_page {
                self.fn_page = self.fn_page + 1;
                self.list.page = self.fn_page;
                self.list.cursor = 0;
            }
            return Intent::Idle;
        }
        if inp.has_next_page {
            self.list.page = self.list.page + 1;
            self.list.cursor = 0;
        }
        Intent::Idle
    }

    /// Previous page of the list (Left).
    pub fn list_page_prev(&mut self, inp: &ListInputs) -> (i: Intent)
        ensures
            final(self)@ == page_prev_spec(old(self)@, *inp),
            i == Intent::Idle,
    {
        if self.is_choice_list_exec() {
            self.list = inp.choice_step;
            return Intent::Idle;
        }
        if self.screen == Screen::FunctionList {
            if self.fn_page > 0 {
                self.fn_page = self.fn_page - 1;
                self.list.page = self.fn_page;
                self.list.cursor = 0;
            }
            return Intent::Idle;
        }
        if self.list.page > 0 {
            self.list.page = self.list.page - 1;
            self.list.cursor = 0;
        }
        Intent::Idle
    }

    /// Menu key.
    pub fn on_menu_key(&mut self) -> (i: Intent)
        ensures
            (final(self)@, i) == menu_key_spec(old(self)@),
    {
        let leave_fw = self.screen == Screen::FirmwareUpdate;
        self.list_num.clear();
        self.screen = Screen::Menu;
        self.list = ListPos { page: 0, cursor: 0 };
        if leave_fw {
            Intent::SetHttpOta(false)
        } else {
            Intent::Idle
        }
    }

    /// OK on the main menu; `idx` is the entry picked.
    pub fn ok_menu(&mut self, idx: usize) -> (i: Intent)
        ensures
            (final(self)@, i) == main_menu_spec(old(self)@, idx as int),
    {
        self.list_num.clear();
        if idx == 0 {
            self.screen = Screen::FunctionList;
            self.fn_page = 0;
            self.list = ListPos { page: 0, cursor: 0 };
            Intent::Idle
        } else if idx == 1 {
            self.screen = Screen::RosterList;
            self.list = ListPos { page: 0, cursor: 0 };
            Intent::Idle
        } else if idx == 2 {
            self.screen = Screen::Throttle;
            Intent::Action(Action::SpeedMultiplier)
        } else if idx == 3 {
            self.screen = Screen::Throttle;
            Intent::Action(Action::PowerToggle)
        } else if idx == 4 {
            self.screen = Screen::Extras;
            self.list = ListPos { page: 0, cursor: 0 };
            Intent::Idle
        } else {
            Intent::Idle
        }
    }

    /// OK on the direct-commands list; `idx` is the entry picked.
    pub fn ok_direct(&mut self, idx: usize) -> (i: Intent)
        ensures
            (final(self)@, i) == direct_spec(old(self)@, idx as int),
    {
        if idx == 0 {
            Intent::Action(Action::Function(0))
        } else if idx == 1 {
            Intent::Action(Action::NextThrottle)
        } else if idx == 2 {
            Intent::Action(Action::SpeedMultiplier)
        } else if idx == 3 {
            Intent::Action(Action::DirectionReverse)
        } else if idx == 4 {
            Intent::Action(Action::EStop)
        } else if idx == 5 {
            self.screen = Screen::Throttle;
            Intent::Idle
        } else {
            Intent::Idle
        }
    }

    /// OK on the language picker; `idx` is the entry picked.
    pub fn ok_language(&mut self, idx: usize) -> (i: Intent)
        ensures
            (final(self)@, i) == language_spec(old(self)@, idx as int),
    {
        let lang = if idx == 0 {
            Language::En
        } else if idx == 1 {
            Language::Pl
        } else if idx == 2 {
            Language::De
        } else {
            return Intent::Idle;
        };
        if self.boot_language {
            self.boot_language = false;
            return Intent::SetLanguage(lang);
        }
        self.screen = Screen::Extras;
        Intent::SetLanguage(lang)
    }

    /// OK on the function list: toggles the function under the cursor (at most F31);
    /// `page_start` is the number of the first function on the page shown.
    pub fn ok_fn_list(&self, page_start: usize) -> (i: Intent)
        requires
            page_start + self.list.cursor <= usize::MAX,
        ensures
            i == Intent::Function(if page_start + self.list.cursor < 31 { (page_start + self.list.cursor) as u8 } else { 31u8 }),
    {
        let idx = page_start + self.list.cursor;
        Intent::Function(if idx < 31 {
            idx as u8
        } else {
            31
        })
    }

    /// One joystick step in the list on screen.
    pub fn list_nav(&mut self, dir: NavDir, inp: &ListInputs) -> (i: Intent)
        requires
            can_advance(old(self)@),
        ensures
            final(self)@ == list_nav_spec(old(self)@, dir, *inp),
            i == Intent::Idle,
    {
        if self.is_choice_list_exec() && (dir == NavDir::Up || dir == NavDir::Down) {
            self.list = inp.choice_step;
            return Intent::Idle;
        }
        let count = inp.count;
        if count == 0 {
            return Intent::Idle;
        }
        let last_prev: usize = if inp.prev_page_count > 0 {
            inp.prev_page_count - 1
        } else {
            0
        };
        match dir {
            NavDir::Up => {
                if self.list.cursor == 0 {
                    if self.screen == Screen::FunctionList {
                        if self.fn_page > 0 {
                            self.fn_page = self.fn_page - 1;
                            self.list.page = self.fn_page;
                            self.list.cursor = last_prev;
                        } else {
                            self.list.cursor = count - 1;
                        }
                    } else if self.list.page > 0 {
                        self.list.page = self.list.page - 1;
                        self.list.cursor = last_prev;
                    } else {
                        self.list.cursor = count - 1;
                    }
                } else {
                    self.list.cursor = self.list.cursor - 1;
                }
                Intent::Idle
            },
            NavDir::Down => {
                if self.list.cursor >= count - 1 {
                    if inp.has_next_page {
                        if self.screen == Screen::FunctionList {
                            self.fn_page = self.fn_page + 1;
                            self.list.page = self.fn_page;
                        } else {
                            self.list.page = self.list.page + 1;
                        }
                    }
                    self.list.cursor = 0;
                } else {
                    self.list.cursor = self.list.cursor + 1;
                }
                Intent::Idle
            },
            NavDir::Right => self.list_page_next(inp),
            NavDir::Left => self.list_page_prev(inp),
        }
    }
}

} // verus!
