//! The state of the user interface, and the layout of its two panels.

use vstd::prelude::*;

use crate::gui::menu::{option_count, options_of, show_options, MenuOption, OptionText, Text};
use crate::logs::{newest_first, Log};
use crate::player::ControlMode;

pub mod menu;

verus! {

/// What the side menu is showing. The menu is in exactly one mode at a time.
#[derive(Clone, Copy, Debug, PartialEq, Eq, Structural)]
pub enum MenuMode {
    Default,
    Interact,
    Inventory,
    Craft,
}

impl Default for MenuMode {
    fn default() -> (mode: Self)
        ensures
            mode == MenuMode::Default,
    {
        MenuMode::Default
    }
}

/// How many columns the screen has.
pub const SCREEN_WIDTH: i32 = 80;

/// How many log entries the log panel shows at most.
pub const LOG_ROWS: usize = 5;

/// The row of the top edge of the log panel.
pub const LOG_TOP: i32 = 43;

/// The column where the side menu starts.
pub const MENU_LEFT: i32 = 60;

/// The index that a selection of `index` comes to among `count` options: the
/// index itself if there is such an option, else the last option, and 0 if
/// there is none.
pub open spec fn clamped(index: usize, count: usize) -> usize {
    if index < count {
        index
    } else if count == 0 {
        0
    } else {
        (count - 1) as usize
    }
}

/// The height of the side menu: it gives room to the log panel while that
/// is shown.
pub open spec fn menu_rows(log_visible: bool) -> i32 {
    if log_visible {
        42
    } else {
        49
    }
}

/// What of the user interface is shown, and what the menu is doing.
#[derive(Clone, Copy, Debug)]
pub struct UserInterfaceState {
    pub log: bool,
    pub menu: bool,
    pub menu_mode: MenuMode,
    pub control_mode: ControlMode,
    pub selected_option: usize,
    pub show_performance_info: bool,
}

impl Default for UserInterfaceState {
    fn default() -> (state: Self)
        ensures
            state == UserInterfaceState::initial(),
    {
        UserInterfaceState {
            log: true,
            menu: true,
            menu_mode: MenuMode::Default,
            control_mode: ControlMode::Default,
            selected_option: 0,
            show_performance_info: true,
        }
    }
}

impl UserInterfaceState {
    /// The state that a game starts in: both panels shown, the menu in its
    /// default mode with its first option selected.
    pub open spec fn initial() -> UserInterfaceState {
        UserInterfaceState {
            log: true,
            menu: true,
            menu_mode: MenuMode::Default,
            control_mode: ControlMode::Default,
            selected_option: 0,
            show_performance_info: true,
        }
    }

    /// The invariant of the state: the selection is an option of the current
    /// mode, or 0 if the mode has none.
    pub open spec fn wf(&self) -> bool {
        if option_count(self.menu_mode) == 0 {
            self.selected_option == 0
        } else {
            self.selected_option < option_count(self.menu_mode)
        }
    }

    /// The starting state, showing performance information or not.
    pub fn new(show_performance_info: bool) -> (state: Self)
        ensures
            state == (UserInterfaceState { show_performance_info, ..Self::initial() }),
            state.wf(),
    {
        UserInterfaceState {
            log: true,
            menu: true,
            menu_mode: MenuMode::Default,
            control_mode: ControlMode::Default,
            selected_option: 0,
            show_performance_info,
        }
    }

    /// Enters `mode`, leaving whatever mode the menu was in. The selection
    /// goes back to the first option, unless `keep_selection` asks to keep
    /// it: then it stays where it was as far as the new mode has that many
    /// options.
    pub fn set_mode(&mut self, mode: MenuMode, keep_selection: bool)
        ensures
            *final(self) == (UserInterfaceState {
                menu_mode: mode,
                selected_option: if keep_selection {
                    clamped(old(self).selected_option, option_count(mode))
                } else {
                    0
                },
                ..*old(self)
            }),
            final(self).wf(),
    {
        let count = option_count(mode);
        self.menu_mode = mode;
        if !keep_selection || count == 0 {
            self.selected_option = 0;
        } else if self.selected_option >= count {
            self.selected_option = count - 1;
        }
    }

    /// Moves the selection to the option `index` of the current mode, or as
    /// near to it as the mode has options.
    pub fn select(&mut self, index: usize)
        ensures
            *final(self) == (UserInterfaceState {
                selected_option: clamped(index, option_count(old(self).menu_mode)),
                ..*old(self)
            }),
            final(self).wf(),
    {
        let count = option_count(self.menu_mode);
        if index < count {
            self.selected_option = index;
        } else if count == 0 {
            self.selected_option = 0;
        } else {
            self.selected_option = count - 1;
        }
    }

    /// Shows the log panel if it is hidden, and hides it if it is shown.
    pub fn toggle_log(&mut self)
        ensures
            *final(self) == (UserInterfaceState { log: !old(self).log, ..*old(self) }),
    {
        self.log = !self.log;
    }

    /// Shows the side menu if it is hidden, and hides it if it is shown.
    pub fn toggle_menu(&mut self)
        ensures
            *final(self) == (UserInterfaceState { menu: !old(self).menu, ..*old(self) }),
    {
        self.menu = !self.menu;
    }

    /// The height of the side menu: 42 rows while the log panel is shown,
    /// 49 while it is not, whatever the mode of the menu.
    pub fn menu_height(&self) -> (rows: i32)
        ensures
            rows == menu_rows(self.log),
            self.log ==> rows == 42,
            !self.log ==> rows == 49,
    {
        if self.log {
            42
        } else {
            49
        }
    }
}

/// A box on the screen: its top left cell, and how far it reaches.
#[derive(Clone, Copy, Debug, PartialEq, Eq, Structural)]
pub struct Frame {
    pub x: i32,
    pub y: i32,
    pub width: i32,
    pub height: i32,
}

/// The log panel as it is to be drawn: its box, and the entries in it from
/// the top row down.
#[derive(Debug)]
pub struct LogPanel {
    pub frame: Frame,
    pub lines: Vec<Text>,
}

/// The side menu as it is to be drawn: its box, its options from the top
/// down, and which of them is selected.
#[derive(Debug)]
pub struct MenuPanel {
    pub frame: Frame,
    pub options: Vec<OptionText>,
    pub selected: usize,
}

/// The box of the log panel: a band across the screen near its bottom.
pub open spec fn log_frame() -> Frame {
    Frame { x: 0, y: LOG_TOP, width: (SCREEN_WIDTH - 1) as i32, height: 6 }
}

/// The box of the side menu: a band down the right of the screen, of the
/// height that the log panel leaves it.
pub open spec fn menu_frame(log_visible: bool) -> Frame {
    Frame { x: MENU_LEFT, y: 0, width: 19, height: menu_rows(log_visible) }
}

/// Whether `lines` show the newest entries of `log`: as many as there are,
/// up to `LOG_ROWS`, the newest in the row below the top edge of the panel
/// and each older one a row further down.
pub open spec fn shows_newest(log: Seq<Seq<char>>, lines: Seq<Text>) -> bool {
    &&& lines.len() == newest_first(log, LOG_ROWS as nat).len()
    &&& forall|i: int|
        0 <= i < lines.len() ==> {
            &&& (#[trigger] lines[i]).x == 2
            &&& lines[i].y == LOG_TOP + 1 + i
            &&& lines[i].text@ == newest_first(log, LOG_ROWS as nat)[i]
        }
}

/// What to draw of the log: nothing while the log panel is hidden, else its
/// box and the newest entries.
pub fn draw_log(ui: &UserInterfaceState, log: &Log) -> (panel: Option<LogPanel>)
    ensures
        panel is Some <==> ui.log,
        panel matches Some(shown) ==> shown.frame == log_frame() && shows_newest(
            log@,
            shown.lines@,
        ),
        panel matches Some(shown) ==> shown.lines.len() == if log@.len() < 5 {
            log@.len()
        } else {
            5
        },
{
    if !ui.log {
        return None;
    }
    let width = SCREEN_WIDTH - 1;
    let frame = Frame { x: 0, y: LOG_TOP, width, height: 6 };
    let mut recent = log.recent(LOG_ROWS);
    let ghost texts = crate::logs::texts(recent@);
    let count = recent.len();
    assert(count == texts.len());
    let mut lines: Vec<Text> = Vec::new();
    let mut y: i32 = LOG_TOP + 1;
    let mut i: usize = 0;
    while i < count
        invariant
            i <= count,
            count <= LOG_ROWS,
            count == recent.len(),
            y == LOG_TOP + 1 + i,
            lines.len() == i,
            texts == crate::logs::texts(recent@),
            forall|k: int|
                0 <= k < i ==> {
                    &&& (#[trigger] lines[k]).x == 2
                    &&& lines[k].y == LOG_TOP + 1 + k
                    &&& lines[k].text@ == texts[k]
                },
        decreases count - i,
    {
        lines.push(Text { x: 2, y, text: recent[i].clone() });
        y += 1;
        i += 1;
    }
    Some(LogPanel { frame, lines })
}

/// What to draw of the side menu: nothing while it is hidden, else its box
/// and the options of the current mode.
pub fn draw_menu(ui: &UserInterfaceState) -> (panel: Option<MenuPanel>)
    ensures
        panel is Some <==> ui.menu,
        panel matches Some(shown) ==> {
            &&& shown.frame == menu_frame(ui.log)
            &&& shown.selected == ui.selected_option
            &&& shown.options.len() == option_count(ui.menu_mode)
            &&& forall|i: int|
                0 <= i < shown.options.len() ==> MenuOption::placed_at(
                    options_of(ui.menu_mode)[i],
                    MENU_LEFT + 2,
                    2 + 2 * i + 1,
                    #[trigger] shown.options[i],
                )
        },
{
    if !ui.menu {
        return None;
    }
    let height = ui.menu_height();
    let frame = Frame { x: MENU_LEFT, y: 0, width: 19, height };
    let options = show_options(ui.menu_mode, MENU_LEFT + 2, 2);
    Some(MenuPanel { frame, options, selected: ui.selected_option })
}

} // verus!
