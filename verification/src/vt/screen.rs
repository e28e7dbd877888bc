//! The screen: two grids, the drawing attributes and the modes, and the control
//! functions that act on them.
use vstd::prelude::*;

use crate::text::{from_utf8_lossy, texts, utf8_lossy};
use crate::vt::attrs::{Attrs, Color, Intensity, Underline};
use crate::vt::cell::{char_width, display_width, Cell};
use crate::vt::grid::{Grid, GridModel, Pos, Size};
use crate::vt::links::{LinkModel, LinkTable};
use crate::vt::sgr::groups;
use crate::vt::tabs::{initial_tab_stops, new_tab_stops, TabStops};

verus! {

/// How many titles the title stack holds.
pub const MAX_TITLE_STACK: usize = 16;

/// Which mouse events an application asked for.
#[derive(Clone, Copy, Debug, PartialEq, Eq, Structural)]
pub enum MouseProtocolMode {
    /// No mouse events.
    Disabled,
    /// Button presses (X10).
    Press,
    /// Button presses and releases (VT200).
    PressRelease,
    /// Presses, releases, and motion between cells while a button is down.
    ButtonMotion,
    /// Presses, releases, and all motion between cells.
    AnyMotion,
}

/// How mouse events are encoded.
#[derive(Clone, Copy, Debug, PartialEq, Eq, Structural)]
pub enum MouseProtocolEncoding {
    /// One printable byte for each number.
    Default,
    /// Numbers as UTF-8.
    Utf8,
    /// Decimal numbers, as in SGR.
    Sgr,
    /// Decimal numbers, as in urxvt.
    Urxvt,
    /// As `Sgr`, with pixel in place of cell coordinates.
    SgrPixels,
}

/// The modes that are on or off.
#[derive(Clone, Copy, Debug, PartialEq, Eq, Structural)]
pub struct Modes {
    pub application_keypad: bool,
    pub application_cursor: bool,
    pub hide_cursor: bool,
    pub alternate_screen: bool,
    pub bracketed_paste: bool,
    pub synchronized_update: bool,
    /// Autowrap is off: text at the right edge stays there.
    pub no_autowrap: bool,
    /// Printed text pushes the rest of the row aside.
    pub insert: bool,
}

impl Modes {
    pub open spec fn off() -> Modes {
        Modes {
            application_keypad: false,
            application_cursor: false,
            hide_cursor: false,
            alternate_screen: false,
            bracketed_paste: false,
            synchronized_update: false,
            no_autowrap: false,
            insert: false,
        }
    }

    /// The modes after a DEC private mode that only switches one of them, or has no effect, was
    /// set or reset. Autowrap and the visible cursor are kept as what turns them off.
    pub open spec fn with_dec_flag(self, mode: u16, on: bool) -> Option<Modes> {
        if mode == 1 {
            Some(Modes { application_cursor: on, ..self })
        } else if mode == 7 {
            Some(Modes { no_autowrap: !on, ..self })
        } else if mode == 25 {
            Some(Modes { hide_cursor: !on, ..self })
        } else if mode == 2004 {
            Some(Modes { bracketed_paste: on, ..self })
        } else if is_ignored_mode(mode) {
            Some(self)
        } else {
            None
        }
    }

    fn set_dec_flag(&mut self, mode: u16, on: bool) -> (known: bool)
        ensures
            known == (old(self).with_dec_flag(mode, on) is Some),
            known ==> *final(self) == old(self).with_dec_flag(mode, on)->Some_0,
            !known ==> *final(self) == *old(self),
    {
        match mode {
            1 => {
                self.application_cursor = on;
            },
            7 => {
                self.no_autowrap = !on;
            },
            25 => {
                self.hide_cursor = !on;
            },
            2004 => {
                self.bracketed_paste = on;
            },
            12 | 1004 | 2031 | 7727 | 80 | 8452 => {},
            _ => {
                return false;
            },
        }
        true
    }

    fn new() -> (r: Modes)
        ensures
            r == Modes::off(),
    {
        Modes {
            application_keypad: false,
            application_cursor: false,
            hide_cursor: false,
            alternate_screen: false,
            bracketed_paste: false,
            synchronized_update: false,
            no_autowrap: false,
            insert: false,
        }
    }
}

/// What a screen holds, mathematically.
pub struct ScreenModel<T> {
    pub grid: GridModel<T>,
    pub alternate_grid: GridModel<T>,
    pub attrs: Attrs,
    pub saved_attrs: Attrs,
    /// The last graphic character drawn, which REP repeats.
    pub last_graphic_char: Option<char>,
    pub tab_stops: Set<u16>,
    pub sync_starts: u32,
    pub sync_ends: u32,
    pub cursor_style: u8,
    pub default_fg: Option<(u8, u8, u8)>,
    pub default_bg: Option<(u8, u8, u8)>,
    pub title: Seq<char>,
    pub title_stack: Seq<Seq<char>>,
    pub links: LinkModel,
    pub modes: Modes,
    pub mouse_protocol_mode: MouseProtocolMode,
    pub mouse_protocol_encoding: MouseProtocolEncoding,
}

impl<T> ScreenModel<T> {
    /// Both grids are well formed and of one size, and the one in use has its rows.
    pub open spec fn wf(self) -> bool {
        &&& self.grid.wf()
        &&& self.alternate_grid.wf()
        &&& self.grid.allocated()
        &&& self.modes.alternate_screen ==> self.alternate_grid.allocated()
        &&& self.grid.size == self.alternate_grid.size
        &&& self.links.wf()
        &&& self.title_stack.len() <= MAX_TITLE_STACK
    }

    /// The grid in use.
    pub open spec fn active(self) -> GridModel<T> {
        if self.modes.alternate_screen {
            self.alternate_grid
        } else {
            self.grid
        }
    }

    /// The screen with another grid in place of the one in use.
    pub open spec fn on_grid(self, grid: GridModel<T>) -> ScreenModel<T> {
        if self.modes.alternate_screen {
            ScreenModel { alternate_grid: grid, ..self }
        } else {
            ScreenModel { grid, ..self }
        }
    }

    /// A screen as it is switched on.
    pub open spec fn fresh(size: Size, scrollback_len: usize) -> ScreenModel<T> {
        ScreenModel {
            grid: GridModel::empty(size, scrollback_len).with_rows(),
            alternate_grid: GridModel::empty(size, 0),
            attrs: Attrs::plain(),
            saved_attrs: Attrs::plain(),
            last_graphic_char: None,
            tab_stops: initial_tab_stops(size.cols),
            sync_starts: 0,
            sync_ends: 0,
            cursor_style: 0,
            default_fg: None,
            default_bg: None,
            title: Seq::empty(),
            title_stack: Seq::empty(),
            links: LinkModel::empty(),
            modes: Modes::off(),
            mouse_protocol_mode: MouseProtocolMode::Disabled,
            mouse_protocol_encoding: MouseProtocolEncoding::Default,
        }
    }

    /// Another size. The columns that come in have the tab stops of a new screen.
    pub open spec fn resized(self, size: Size) -> ScreenModel<T> {
        ScreenModel {
            grid: self.grid.resized(size),
            alternate_grid: self.alternate_grid.resized(size),
            tab_stops: self.tab_stops.union(new_tab_stops(self.grid.size.cols, size.cols)),
            ..self
        }
    }

    /// The character `c` printed. A control character is not drawn, and neither is a
    /// character wider than the screen.
    pub open spec fn printed(self, c: char) -> ScreenModel<T> {
        match display_width(c) {
            None => self,
            Some(width) => {
                let seen = ScreenModel { last_graphic_char: Some(c), ..self };
                if width > self.active().size.cols {
                    seen
                } else {
                    seen.on_grid(
                        self.active().printed(
                            c,
                            width as int,
                            self.attrs,
                            !self.modes.no_autowrap,
                            self.modes.insert,
                        ),
                    )
                }
            },
        }
    }

    /// A character printed `n` times.
    pub open spec fn printed_times(self, c: char, n: nat) -> ScreenModel<T>
        decreases n,
    {
        if n == 0 {
            self
        } else {
            self.printed_times(c, (n - 1) as nat).printed(c)
        }
    }

    /// The first tab stop at or behind `col`, the last column where there is none.
    pub open spec fn stop_from(self, col: int) -> int
        decreases self.active().size.cols - col,
    {
        if col >= self.active().size.cols {
            self.active().size.cols - 1
        } else if self.tab_stops.contains(col as u16) {
            col
        } else {
            self.stop_from(col + 1)
        }
    }

    /// The last tab stop before `col`, the first column where there is none.
    pub open spec fn stop_before(self, col: int) -> int
        decreases col,
    {
        if col <= 0 {
            0
        } else if self.tab_stops.contains((col - 1) as u16) {
            col - 1
        } else {
            self.stop_before(col - 1)
        }
    }

    /// The cursor at the next tab stop.
    pub open spec fn tabbed(self) -> ScreenModel<T> {
        let g = self.active();
        let col = if g.pos.col < g.size.cols {
            g.pos.col as int
        } else {
            g.size.cols - 1
        };
        self.on_grid(g.col_at(self.stop_from(col + 1)))
    }

    pub open spec fn tabbed_times(self, n: nat) -> ScreenModel<T>
        decreases n,
    {
        if n == 0 {
            self
        } else {
            self.tabbed_times((n - 1) as nat).tabbed()
        }
    }

    /// The cursor at the tab stop before.
    pub open spec fn back_tabbed(self) -> ScreenModel<T> {
        self.on_grid(self.active().col_at(self.stop_before(self.active().pos.col as int)))
    }

    pub open spec fn back_tabbed_times(self, n: nat) -> ScreenModel<T>
        decreases n,
    {
        if n == 0 {
            self
        } else {
            self.back_tabbed_times((n - 1) as nat).back_tabbed()
        }
    }

    /// The cursor and the attributes saved.
    pub open spec fn saved(self) -> ScreenModel<T> {
        ScreenModel { saved_attrs: self.attrs, ..self }.on_grid(self.active().cursor_saved())
    }

    /// The cursor and the attributes as they were saved.
    pub open spec fn restored(self) -> ScreenModel<T> {
        ScreenModel { attrs: self.saved_attrs, ..self }.on_grid(
            self.active().cursor_restored(),
        )
    }

    /// The alternate screen in use, the one that was in use viewed without scrollback.
    pub open spec fn in_alternate(self) -> ScreenModel<T> {
        let left = self.on_grid(self.active().viewing(0));
        ScreenModel {
            modes: Modes { alternate_screen: true, ..self.modes },
            alternate_grid: left.alternate_grid.with_rows(),
            ..left
        }
    }

    /// The cursor saved and the alternate screen in use, emptied.
    pub open spec fn in_cleared_alternate(self) -> ScreenModel<T> {
        let s = self.saved();
        ScreenModel { alternate_grid: s.alternate_grid.reset(), ..s }.in_alternate()
    }

    pub open spec fn in_primary(self) -> ScreenModel<T> {
        ScreenModel { modes: Modes { alternate_screen: false, ..self.modes }, ..self }
    }

    /// A soft reset: attributes, saved cursor, margins, and the modes that govern cursor,
    /// keys and printing. What is drawn, the cursor, the tab stops and the mouse stay.
    pub open spec fn soft_reset(self) -> ScreenModel<T> {
        ScreenModel {
            attrs: Attrs::plain(),
            saved_attrs: Attrs::plain(),
            modes: Modes {
                hide_cursor: false,
                application_cursor: false,
                application_keypad: false,
                no_autowrap: false,
                insert: false,
                ..self.modes
            },
            cursor_style: 0,
            ..self
        }.on_grid(self.active().soft_reset_spec())
    }

    /// The title saved.
    pub open spec fn title_pushed(self) -> ScreenModel<T> {
        let kept = if self.title_stack.len() >= MAX_TITLE_STACK {
            self.title_stack.drop_first()
        } else {
            self.title_stack
        };
        ScreenModel { title_stack: kept.push(self.title), ..self }
    }

    /// The title last saved back in force. Without one nothing changes.
    pub open spec fn title_popped(self) -> ScreenModel<T> {
        if self.title_stack.len() == 0 {
            self
        } else {
            ScreenModel {
                title: self.title_stack.last(),
                title_stack: self.title_stack.drop_last(),
                ..self
            }
        }
    }

    /// The attributes linked to a URI, which the table holds from now on.
    pub open spec fn link_opened(self, uri: Seq<char>) -> ScreenModel<T> {
        ScreenModel {
            links: self.links.with(uri),
            attrs: match self.links.id_for(uri) {
                Some(id) => Attrs { link: Some(id), ..self.attrs },
                None => self.attrs,
            },
            ..self
        }
    }

    /// The screen after a DEC private mode was set, `None` for one that is not known. Modes
    /// that concern only keyboard, focus, blinking and sixel are known and change nothing.
    pub open spec fn dec_set(self, mode: u16) -> Option<ScreenModel<T>> {
        if self.modes.with_dec_flag(mode, true) is Some {
            Some(ScreenModel { modes: self.modes.with_dec_flag(mode, true)->Some_0, ..self })
        } else if mouse_mode_of(mode) is Some {
            Some(ScreenModel { mouse_protocol_mode: mouse_mode_of(mode)->Some_0, ..self })
        } else if mouse_encoding_of(mode) is Some {
            Some(
                ScreenModel {
                    mouse_protocol_encoding: mouse_encoding_of(mode)->Some_0,
                    ..self
                },
            )
        } else if mode == 6 {
            Some(self.on_grid(self.active().with_origin_mode(true)))
        } else if mode == 47 {
            Some(self.in_alternate())
        } else if mode == 1049 {
            Some(self.in_cleared_alternate())
        } else if mode == 2026 {
            Some(
                ScreenModel {
                    modes: Modes { synchronized_update: true, ..self.modes },
                    sync_starts: next_count(self.sync_starts),
                    ..self
                },
            )
        } else {
            None
        }
    }

    /// The screen after a DEC private mode was reset. A mouse mode or encoding that is not the
    /// one in force stays.
    pub open spec fn dec_reset(self, mode: u16) -> Option<ScreenModel<T>> {
        if self.modes.with_dec_flag(mode, false) is Some {
            Some(ScreenModel { modes: self.modes.with_dec_flag(mode, false)->Some_0, ..self })
        } else if mouse_mode_of(mode) is Some {
            Some(self.without_mouse_mode(mouse_mode_of(mode)->Some_0))
        } else if mouse_encoding_of(mode) is Some {
            Some(self.without_mouse_encoding(mouse_encoding_of(mode)->Some_0))
        } else if mode == 6 {
            Some(self.on_grid(self.active().with_origin_mode(false)))
        } else if mode == 47 {
            Some(self.in_primary())
        } else if mode == 1049 {
            Some(self.in_primary().restored())
        } else if mode == 2026 {
            Some(
                ScreenModel {
                    modes: Modes { synchronized_update: false, ..self.modes },
                    sync_ends: next_count(self.sync_ends),
                    ..self
                },
            )
        } else {
            None
        }
    }

    pub open spec fn without_mouse_mode(self, mode: MouseProtocolMode) -> ScreenModel<T> {
        if self.mouse_protocol_mode == mode {
            ScreenModel { mouse_protocol_mode: MouseProtocolMode::Disabled, ..self }
        } else {
            self
        }
    }

    pub open spec fn without_mouse_encoding(
        self,
        encoding: MouseProtocolEncoding,
    ) -> ScreenModel<T> {
        if self.mouse_protocol_encoding == encoding {
            ScreenModel { mouse_protocol_encoding: MouseProtocolEncoding::Default, ..self }
        } else {
            self
        }
    }

    /// The screen after an ANSI mode was set or reset: only insert mode is known, and a reset
    /// of 25, which other terminals ignore too.
    pub open spec fn ansi_mode(self, mode: u16, on: bool) -> Option<ScreenModel<T>> {
        if mode == 4 {
            Some(ScreenModel { modes: Modes { insert: on, ..self.modes }, ..self })
        } else if mode == 25 && !on {
            Some(self)
        } else {
            None
        }
    }

    /// The screen after one parameter group of a sequence that sets or resets modes.
    pub open spec fn mode_step(self, kind: ModeKind, p: Seq<u16>) -> Option<ScreenModel<T>> {
        if p.len() != 1 {
            None
        } else {
            match kind {
                ModeKind::AnsiSet => self.ansi_mode(p[0], true),
                ModeKind::AnsiReset => self.ansi_mode(p[0], false),
                ModeKind::DecSet => self.dec_set(p[0]),
                ModeKind::DecReset => self.dec_reset(p[0]),
            }
        }
    }

    /// The screen after all groups of such a sequence, in order, and how many were unknown.
    pub open spec fn mode_steps(self, kind: ModeKind, ps: Seq<Seq<u16>>) -> (ScreenModel<T>, nat)
        decreases ps.len(),
    {
        if ps.len() == 0 {
            (self, 0)
        } else {
            let (s, n) = self.mode_steps(kind, ps.drop_last());
            match s.mode_step(kind, ps.last()) {
                Some(t) => (t, n),
                None => (s, n + 1),
            }
        }
    }
}

/// A sequence that sets or resets modes.
#[derive(Clone, Copy, Debug, PartialEq, Eq, Structural)]
pub enum ModeKind {
    AnsiSet,
    AnsiReset,
    DecSet,
    DecReset,
}

/// The next value of a counter that wraps around.
pub open spec fn next_count(n: u32) -> u32 {
    if n == u32::MAX {
        0
    } else {
        (n + 1) as u32
    }
}

/// DEC private modes that are accepted without effect: cursor blink, focus events,
/// colour-scheme notices, application escape key, and the sixel display modes.
pub open spec fn is_ignored_mode(mode: u16) -> bool {
    mode == 12 || mode == 1004 || mode == 2031 || mode == 7727 || mode == 80 || mode == 8452
}

/// The mouse mode that a DEC private mode stands for.
pub open spec fn mouse_mode_of(mode: u16) -> Option<MouseProtocolMode> {
    if mode == 9 {
        Some(MouseProtocolMode::Press)
    } else if mode == 1000 {
        Some(MouseProtocolMode::PressRelease)
    } else if mode == 1002 {
        Some(MouseProtocolMode::ButtonMotion)
    } else if mode == 1003 {
        Some(MouseProtocolMode::AnyMotion)
    } else {
        None
    }
}

/// The mouse encoding that a DEC private mode stands for.
pub open spec fn mouse_encoding_of(mode: u16) -> Option<MouseProtocolEncoding> {
    if mode == 1005 {
        Some(MouseProtocolEncoding::Utf8)
    } else if mode == 1006 {
        Some(MouseProtocolEncoding::Sgr)
    } else if mode == 1015 {
        Some(MouseProtocolEncoding::Urxvt)
    } else if mode == 1016 {
        Some(MouseProtocolEncoding::SgrPixels)
    } else {
        None
    }
}

fn mouse_mode(mode: u16) -> (r: Option<MouseProtocolMode>)
    ensures
        r == mouse_mode_of(mode),
{
    match mode {
        9 => Some(MouseProtocolMode::Press),
        1000 => Some(MouseProtocolMode::PressRelease),
        1002 => Some(MouseProtocolMode::ButtonMotion),
        1003 => Some(MouseProtocolMode::AnyMotion),
        _ => None,
    }
}

fn mouse_encoding(mode: u16) -> (r: Option<MouseProtocolEncoding>)
    ensures
        r == mouse_encoding_of(mode),
{
    match mode {
        1005 => Some(MouseProtocolEncoding::Utf8),
        1006 => Some(MouseProtocolEncoding::Sgr),
        1015 => Some(MouseProtocolEncoding::Urxvt),
        1016 => Some(MouseProtocolEncoding::SgrPixels),
        _ => None,
    }
}

/// The state of a terminal. Each cell has a slot for a value of type `T`.
pub struct Screen<T> {
    grid: Grid<T>,
    alternate_grid: Grid<T>,
    attrs: Attrs,
    saved_attrs: Attrs,
    last_graphic_char: Option<char>,
    tab_stops: TabStops,
    sync_starts: u32,
    sync_ends: u32,
    cursor_style: u8,
    default_fg: Option<(u8, u8, u8)>,
    default_bg: Option<(u8, u8, u8)>,
    title: String,
    title_stack: Vec<String>,
    links: LinkTable,
    modes: Modes,
    mouse_protocol_mode: MouseProtocolMode,
    mouse_protocol_encoding: MouseProtocolEncoding,
}

impl<T> View for Screen<T> {
    type V = ScreenModel<T>;

    closed spec fn view(&self) -> ScreenModel<T> {
        ScreenModel {
            grid: self.grid@,
            alternate_grid: self.alternate_grid@,
            attrs: self.attrs,
            saved_attrs: self.saved_attrs,
            last_graphic_char: self.last_graphic_char,
            tab_stops: self.tab_stops@,
            sync_starts: self.sync_starts,
            sync_ends: self.sync_ends,
            cursor_style: self.cursor_style,
            default_fg: self.default_fg,
            default_bg: self.default_bg,
            title: self.title@,
            title_stack: texts(self.title_stack@),
            links: self.links@,
            modes: self.modes,
            mouse_protocol_mode: self.mouse_protocol_mode,
            mouse_protocol_encoding: self.mouse_protocol_encoding,
        }
    }
}

impl<T> Screen<T> {
    /// A screen as it is switched on.
    pub fn new(size: Size, scrollback_len: usize) -> (r: Screen<T>)
        requires
            size.rows > 0,
            size.cols > 0,
        ensures
            r@ == ScreenModel::<T>::fresh(size, scrollback_len),
            r@.wf(),
    {
        let mut grid = Grid::new(size, scrollback_len);
        grid.allocate_rows();
        let r = Screen {
            grid,
            alternate_grid: Grid::new(size, 0),
            attrs: Attrs::default(),
            saved_attrs: Attrs::default(),
            last_graphic_char: None,
            tab_stops: TabStops::new(size.cols),
            sync_starts: 0,
            sync_ends: 0,
            cursor_style: 0,
            default_fg: None,
            default_bg: None,
            title: String::new(),
            title_stack: Vec::new(),
            links: LinkTable::new(),
            modes: Modes::new(),
            mouse_protocol_mode: MouseProtocolMode::Disabled,
            mouse_protocol_encoding: MouseProtocolEncoding::Default,
        };
        proof {
            assert(r@.title_stack =~= Seq::empty());
        }
        r
    }

    /// Changes the size.
    pub fn set_size(&mut self, rows: u16, cols: u16)
        requires
            old(self)@.wf(),
            rows > 0,
            cols > 0,
        ensures
            final(self)@ == old(self)@.resized(Size { rows, cols }),
            final(self)@.wf(),
            final(self)@.active().size.rows == rows && final(self)@.active().size.cols == cols,
            ({
                let (before, after) = (old(self)@.active(), final(self)@.active());
                before.scroll_top == 0 && before.scroll_bottom + 1 == before.size.rows
                    ==> after.scroll_top == 0 && after.scroll_bottom + 1 == rows
            }),
    {
        let old_cols: u16 = self.grid.size().cols;
        self.tab_stops.extend(old_cols, cols);
        self.grid.set_size(Size { rows, cols });
        self.alternate_grid.set_size(Size { rows, cols });
        proof {
            assert(self@.tab_stops =~= old(self)@.resized(Size { rows, cols }).tab_stops);
        }
    }

    /// The number of rows and columns.
    pub fn size(&self) -> (r: (u16, u16))
        ensures
            r == (self@.active().size.rows, self@.active().size.cols),
    {
        let size = self.grid().size();
        (size.rows, size.cols)
    }

    /// How far the view is scrolled into the scrollback.
    pub fn scrollback(&self) -> (r: usize)
        ensures
            r == self@.active().scrollback_offset,
    {
        self.grid().scrollback()
    }

    /// The cursor's row and column.
    pub fn cursor_position(&self) -> (r: (u16, u16))
        ensures
            r == (self@.active().pos.row, self@.active().pos.col),
    {
        let pos = self.grid().pos();
        (pos.row, pos.col)
    }

    /// A cell in view.
    pub fn cell(&self, row: u16, col: u16) -> (r: Option<&Cell<T>>)
        requires
            self@.wf(),
        ensures
            r is Some <==> row < self@.active().visible().len()
                && col < self@.active().visible()[row as int].cells.len(),
            r is Some ==> (r->Some_0)@ == self@.active().visible()[row as int].cells[col as int],
    {
        match self.grid().visible_row(row as usize) {
            Some(r) => r.get(col),
            None => None,
        }
    }

    /// Whether a row in view runs on in the next.
    pub fn row_wrapped(&self, row: u16) -> (r: bool)
        requires
            self@.wf(),
        ensures
            r == (row < self@.active().visible().len()
                && self@.active().visible()[row as int].wrapped),
    {
        match self.grid().visible_row(row as usize) {
            Some(r) => r.wrapped(),
            None => false,
        }
    }

    /// Whether the alternate screen is in use.
    pub fn alternate_screen(&self) -> (r: bool)
        ensures
            r == self@.modes.alternate_screen,
    {
        self.modes.alternate_screen
    }

    /// Whether the keypad sends application sequences.
    pub fn application_keypad(&self) -> (r: bool)
        ensures
            r == self@.modes.application_keypad,
    {
        self.modes.application_keypad
    }

    /// Whether the cursor keys send application sequences.
    pub fn application_cursor(&self) -> (r: bool)
        ensures
            r == self@.modes.application_cursor,
    {
        self.modes.application_cursor
    }

    /// Whether the cursor is hidden.
    pub fn hide_cursor(&self) -> (r: bool)
        ensures
            r == self@.modes.hide_cursor,
    {
        self.modes.hide_cursor
    }

    /// Whether pasted text is bracketed.
    pub fn bracketed_paste(&self) -> (r: bool)
        ensures
            r == self@.modes.bracketed_paste,
    {
        self.modes.bracketed_paste
    }

    /// Whether a synchronized update (mode 2026) is in progress: what is drawn until its end is
    /// to be shown at once.
    pub fn synchronized_update(&self) -> (r: bool)
        ensures
            r == self@.modes.synchronized_update,
    {
        self.modes.synchronized_update
    }

    /// How many synchronized updates have begun, wrapping around.
    pub fn synchronized_update_starts(&self) -> (r: u32)
        ensures
            r == self@.sync_starts,
    {
        self.sync_starts
    }

    /// How many synchronized updates have ended, wrapping around.
    pub fn synchronized_update_ends(&self) -> (r: u32)
        ensures
            r == self@.sync_ends,
    {
        self.sync_ends
    }

    /// The cursor style as DECSCUSR numbers it: 0 default, 1 and 2 block, 3 and 4 underline,
    /// 5 and 6 bar, the odd ones blinking.
    pub fn cursor_style(&self) -> (r: u8)
        ensures
            r == self@.cursor_style,
    {
        self.cursor_style
    }

    /// The default foreground an application set, if any.
    pub fn default_fg(&self) -> (r: Option<(u8, u8, u8)>)
        ensures
            r == self@.default_fg,
    {
        self.default_fg
    }

    /// The default background an application set, if any.
    pub fn default_bg(&self) -> (r: Option<(u8, u8, u8)>)
        ensures
            r == self@.default_bg,
    {
        self.default_bg
    }

    /// Which mouse events are reported.
    pub fn mouse_protocol_mode(&self) -> (r: MouseProtocolMode)
        ensures
            r == self@.mouse_protocol_mode,
    {
        self.mouse_protocol_mode
    }

    /// How mouse events are encoded.
    pub fn mouse_protocol_encoding(&self) -> (r: MouseProtocolEncoding)
        ensures
            r == self@.mouse_protocol_encoding,
    {
        self.mouse_protocol_encoding
    }

    /// The foreground that newly drawn text gets.
    pub fn fgcolor(&self) -> (r: Color)
        ensures
            r == self@.attrs.fgcolor,
    {
        self.attrs.fgcolor
    }

    /// The background that newly drawn text gets.
    pub fn bgcolor(&self) -> (r: Color)
        ensures
            r == self@.attrs.bgcolor,
    {
        self.attrs.bgcolor
    }

    /// Whether newly drawn text is bold.
    pub fn bold(&self) -> (r: bool)
        ensures
            r == (self@.attrs.intensity == Intensity::Bold),
    {
        self.attrs.bold()
    }

    /// Whether newly drawn text is dim.
    pub fn dim(&self) -> (r: bool)
        ensures
            r == (self@.attrs.intensity == Intensity::Dim),
    {
        self.attrs.dim()
    }

    /// Whether newly drawn text is italic.
    pub fn italic(&self) -> (r: bool)
        ensures
            r == self@.attrs.italic,
    {
        self.attrs.italic
    }

    /// Whether newly drawn text is underlined.
    pub fn underline(&self) -> (r: bool)
        ensures
            r == (self@.attrs.underline != Underline::Off),
    {
        self.attrs.underlined()
    }

    /// Whether newly drawn text is inverse.
    pub fn inverse(&self) -> (r: bool)
        ensures
            r == self@.attrs.inverse,
    {
        self.attrs.inverse
    }

    /// The attributes that newly drawn text gets.
    pub fn attrs(&self) -> (r: Attrs)
        ensures
            r == self@.attrs,
    {
        self.attrs
    }

    /// The window title, empty if none was set.
    pub fn title(&self) -> (r: &str)
        ensures
            r@ == self@.title,
    {
        self.title.as_str()
    }

    /// The URI of a hyperlink id, `None` where the table no longer holds it.
    pub fn link_uri(&self, id: u32) -> (r: Option<&str>)
        ensures
            r is Some <==> self@.links.uri(id as int) is Some,
            r is Some ==> (r->Some_0)@ == self@.links.uri(id as int)->Some_0,
    {
        self.links.uri(id)
    }

    /// The grid in use.
    pub fn grid(&self) -> (r: &Grid<T>)
        ensures
            r@ == self@.active(),
    {
        if self.modes.alternate_screen {
            &self.alternate_grid
        } else {
            &self.grid
        }
    }

    fn grid_mut(&mut self) -> (r: &mut Grid<T>)
        ensures
            (*r)@ == old(self)@.active(),
            final(self)@ == old(self)@.on_grid((*final(r))@),
    {
        if self.modes.alternate_screen {
            &mut self.alternate_grid
        } else {
            &mut self.grid
        }
    }

    /// Prints a character.
    pub fn text(&mut self, c: char)
        requires
            old(self)@.wf(),
        ensures
            final(self)@ == old(self)@.printed(c),
            final(self)@.wf(),
    {
        let attrs = self.attrs;
        let size = self.grid().size();
        let width: u16 = match char_width(c) {
            Some(w) => w as u16,
            None => {
                return;
            },
        };
        self.last_graphic_char = Some(c);
        if width > size.cols {
            return;
        }
        let autowrap: bool = !self.modes.no_autowrap;
        let insert: bool = self.modes.insert;
        self.grid_mut().print(c, width, attrs, autowrap, insert);
    }

    /// BS: the cursor one column left.
    pub fn bs(&mut self)
        requires
            old(self)@.wf(),
        ensures
            final(self)@ == old(self)@.on_grid(old(self)@.active().col_moved_left(1)),
            final(self)@.wf(),
    {
        self.grid_mut().col_dec(1);
    }

    /// LF: the cursor one row down, scrolling at the bottom of the scroll region.
    pub fn lf(&mut self)
        requires
            old(self)@.wf(),
        ensures
            final(self)@ == old(self)@.on_grid(old(self)@.active().line_fed(1)),
            final(self)@.wf(),
    {
        let _ = self.grid_mut().row_inc_scroll(1);
    }

    /// VT: as `lf`.
    pub fn vt(&mut self)
        requires
            old(self)@.wf(),
        ensures
            final(self)@ == old(self)@.on_grid(old(self)@.active().line_fed(1)),
            final(self)@.wf(),
    {
        self.lf();
    }

    /// FF: as `lf`.
    pub fn ff(&mut self)
        requires
            old(self)@.wf(),
        ensures
            final(self)@ == old(self)@.on_grid(old(self)@.active().line_fed(1)),
            final(self)@.wf(),
    {
        self.lf();
    }

    /// CR: the cursor to the first column.
    pub fn cr(&mut self)
        requires
            old(self)@.wf(),
        ensures
            final(self)@ == old(self)@.on_grid(old(self)@.active().col_at(0)),
            final(self)@.wf(),
    {
        self.grid_mut().col_set(0);
    }

    /// RI (`ESC M`): the cursor one row up, scrolling at the top.
    pub fn ri(&mut self)
        requires
            old(self)@.wf(),
        ensures
            final(self)@ == old(self)@.on_grid(old(self)@.active().reverse_line_fed()),
            final(self)@.wf(),
    {
        self.grid_mut().reverse_line_feed();
    }

    /// ICH (`CSI @`): empty cells put in at the cursor.
    pub fn ich(&mut self, count: u16)
        requires
            old(self)@.wf(),
        ensures
            final(self)@ == old(self)@.on_grid(old(self)@.active().cells_inserted(count as int)),
            final(self)@.wf(),
    {
        self.grid_mut().insert_cells(count);
    }

    /// CUU (`CSI A`): the cursor up.
    pub fn cuu(&mut self, offset: u16)
        requires
            old(self)@.wf(),
        ensures
            final(self)@ == old(self)@.on_grid(old(self)@.active().row_moved_up(offset as int)),
            final(self)@.wf(),
    {
        self.grid_mut().row_dec_clamp(offset);
    }

    /// CUD (`CSI B`): the cursor down.
    pub fn cud(&mut self, offset: u16)
        requires
            old(self)@.wf(),
        ensures
            final(self)@ == old(self)@.on_grid(old(self)@.active().row_moved_down(offset as int)),
            final(self)@.wf(),
    {
        self.grid_mut().row_inc_clamp(offset);
    }

    /// CUF (`CSI C`): the cursor right.
    pub fn cuf(&mut self, offset: u16)
        requires
            old(self)@.wf(),
        ensures
            final(self)@ == old(self)@.on_grid(old(self)@.active().col_at(old(self)@.active().pos.col + offset)),
            final(self)@.wf(),
    {
        self.grid_mut().col_inc_clamp(offset);
    }

    /// CUB (`CSI D`): the cursor left.
    pub fn cub(&mut self, offset: u16)
        requires
            old(self)@.wf(),
        ensures
            final(self)@ == old(self)@.on_grid(old(self)@.active().col_moved_left(offset as int)),
            final(self)@.wf(),
    {
        self.grid_mut().col_dec(offset);
    }

    /// CNL (`CSI E`): the cursor down, to the first column.
    pub fn cnl(&mut self, offset: u16)
        requires
            old(self)@.wf(),
        ensures
            final(self)@ == old(self)@.on_grid(old(self)@.active().col_at(0).row_moved_down(offset as int)),
            final(self)@.wf(),
    {
        self.grid_mut().col_set(0);
        self.grid_mut().row_inc_clamp(offset);
    }

    /// CPL (`CSI F`): the cursor up, to the first column.
    pub fn cpl(&mut self, offset: u16)
        requires
            old(self)@.wf(),
        ensures
            final(self)@ == old(self)@.on_grid(old(self)@.active().col_at(0).row_moved_up(offset as int)),
            final(self)@.wf(),
    {
        self.grid_mut().col_set(0);
        self.grid_mut().row_dec_clamp(offset);
    }

    /// CHA (`CSI G`): the cursor to a column, counted from 1.
    pub fn cha(&mut self, col: u16)
        requires
            old(self)@.wf(),
            col >= 1,
        ensures
            final(self)@ == old(self)@.on_grid(old(self)@.active().col_at(col - 1)),
            final(self)@.wf(),
    {
        self.grid_mut().col_set(col - 1);
    }

    /// CUP (`CSI H`): the cursor to a row and column, counted from 1.
    pub fn cup(&mut self, pos: (u16, u16))
        requires
            old(self)@.wf(),
            pos.0 >= 1,
            pos.1 >= 1,
        ensures
            final(self)@ == old(self)@.on_grid(old(self)@.active().moved_to(pos.0 - 1, pos.1 - 1)),
            final(self)@.wf(),
    {
        self.grid_mut().set_pos(Pos { row: pos.0 - 1, col: pos.1 - 1 });
    }

    /// IL (`CSI L`): empty rows put in at the cursor.
    pub fn il(&mut self, count: u16)
        requires
            old(self)@.wf(),
        ensures
            final(self)@ == old(self)@.on_grid(old(self)@.active().lines_inserted(count as int)),
            final(self)@.wf(),
    {
        self.grid_mut().insert_lines(count);
    }

    /// DL (`CSI M`): rows taken out at the cursor.
    pub fn dl(&mut self, count: u16)
        requires
            old(self)@.wf(),
        ensures
            final(self)@ == old(self)@.on_grid(old(self)@.active().lines_deleted(count as int)),
            final(self)@.wf(),
    {
        self.grid_mut().delete_lines(count);
    }

    /// DCH (`CSI P`): cells taken out at the cursor.
    pub fn dch(&mut self, count: u16)
        requires
            old(self)@.wf(),
        ensures
            final(self)@ == old(self)@.on_grid(old(self)@.active().cells_deleted(count as int)),
            final(self)@.wf(),
    {
        self.grid_mut().delete_cells(count);
    }

    /// SU (`CSI S`): the scroll region up.
    pub fn su(&mut self, count: u16)
        requires
            old(self)@.wf(),
        ensures
            final(self)@ == old(self)@.on_grid(old(self)@.active().scrolled_up(count as int)),
            final(self)@.wf(),
    {
        self.grid_mut().scroll_up(count);
    }

    /// SD (`CSI T`): the scroll region down.
    pub fn sd(&mut self, count: u16)
        requires
            old(self)@.wf(),
        ensures
            final(self)@ == old(self)@.on_grid(old(self)@.active().scrolled_down(count as int)),
            final(self)@.wf(),
    {
        self.grid_mut().scroll_down(count);
    }

    /// ECH (`CSI X`): cells emptied from the cursor on.
    pub fn ech(&mut self, count: u16)
        requires
            old(self)@.wf(),
        ensures
            final(self)@ == old(self)@.on_grid(old(self)@.active().cells_erased(count as int, old(self)@.attrs)),
            final(self)@.wf(),
    {
        let attrs = self.attrs;
        self.grid_mut().erase_cells(count, attrs);
    }

    /// VPA (`CSI d`): the cursor to a row, counted from 1.
    pub fn vpa(&mut self, row: u16)
        requires
            old(self)@.wf(),
            row >= 1,
        ensures
            final(self)@ == old(self)@.on_grid(old(self)@.active().row_at(row - 1)),
            final(self)@.wf(),
    {
        self.grid_mut().row_set(row - 1);
    }

    /// DECSTBM (`CSI r`): the scroll region, rows counted from 1.
    pub fn decstbm(&mut self, region: (u16, u16))
        requires
            old(self)@.wf(),
            region.0 >= 1,
            region.1 >= 1,
        ensures
            final(self)@ == old(self)@.on_grid(old(self)@.active().with_region(region.0 - 1, region.1 - 1)),
            final(self)@.wf(),
    {
        self.grid_mut().set_scroll_region(region.0 - 1, region.1 - 1);
    }

    /// SCOSC (`CSI s`): saves the cursor, but not the attributes.
    pub fn scosc(&mut self)
        requires
            old(self)@.wf(),
        ensures
            final(self)@ == old(self)@.on_grid(old(self)@.active().cursor_saved()),
            final(self)@.wf(),
    {
        self.grid_mut().save_cursor();
    }

    /// SCORC (`CSI u`): brings the saved cursor back, but not the attributes.
    pub fn scorc(&mut self)
        requires
            old(self)@.wf(),
        ensures
            final(self)@ == old(self)@.on_grid(old(self)@.active().cursor_restored()),
            final(self)@.wf(),
    {
        self.grid_mut().restore_cursor();
    }

    /// Scrolls the view into the scrollback, as far as that goes. 0 shows the screen itself.
    pub fn set_scrollback(&mut self, rows: usize)
        requires
            old(self)@.wf(),
        ensures
            final(self)@ == old(self)@.on_grid(old(self)@.active().viewing(rows as int)),
            final(self)@.wf(),
    {
        self.grid_mut().set_scrollback(rows);
    }

    /// HT: the cursor to the next tab stop, or the last column.
    pub fn tab(&mut self)
        requires
            old(self)@.wf(),
        ensures
            final(self)@ == old(self)@.tabbed(),
            final(self)@.wf(),
    {
        let cols: u16 = self.grid().size().cols;
        let pos = self.grid().pos();
        let col: u16 = if pos.col < cols {
            pos.col
        } else {
            cols - 1
        };
        let mut next: u16 = col + 1;
        while next < cols && !self.tab_stops.at(next)
            invariant
                self@ == old(self)@,
                cols == self@.active().size.cols,
                next <= cols,
                self@.stop_from(col + 1) == self@.stop_from(next as int),
            decreases cols - next,
        {
            next = next + 1;
        }
        let target: u16 = if next < cols {
            next
        } else {
            cols - 1
        };
        self.grid_mut().col_set(target);
    }

    /// CHT (`CSI I`): `count` tab stops forward.
    pub fn cht(&mut self, count: u16)
        requires
            old(self)@.wf(),
        ensures
            final(self)@ == old(self)@.tabbed_times(count as nat),
            final(self)@.wf(),
    {
        for i in 0..count
            invariant
                self@ == old(self)@.tabbed_times(i as nat),
                self@.wf(),
        {
            self.tab();
        }
    }

    /// CBT (`CSI Z`): `count` tab stops back.
    pub fn cbt(&mut self, count: u16)
        requires
            old(self)@.wf(),
        ensures
            final(self)@ == old(self)@.back_tabbed_times(count as nat),
            final(self)@.wf(),
    {
        for i in 0..count
            invariant
                self@ == old(self)@.back_tabbed_times(i as nat),
                self@.wf(),
        {
            let col: u16 = self.grid().pos().col;
            let mut prev: u16 = col;
            while prev > 0 && !self.tab_stops.at(prev - 1)
                invariant
                    self@ == old(self)@.back_tabbed_times(i as nat),
                    self@.stop_before(col as int) == self@.stop_before(prev as int),
                decreases prev,
            {
                prev = prev - 1;
            }
            let target: u16 = if prev > 0 {
                prev - 1
            } else {
                0
            };
            self.grid_mut().col_set(target);
        }
    }

    /// REP (`CSI b`): repeats the last graphic character.
    pub fn rep(&mut self, count: u16)
        requires
            old(self)@.wf(),
        ensures
            old(self)@.last_graphic_char is None ==> final(self)@ == old(self)@,
            old(self)@.last_graphic_char is Some ==> final(self)@ == old(self)@.printed_times(
                old(self)@.last_graphic_char->Some_0,
                count as nat,
            ),
            final(self)@.wf(),
    {
        if let Some(c) = self.last_graphic_char {
            for i in 0..count
                invariant
                    self@ == old(self)@.printed_times(c, i as nat),
                    self@.wf(),
            {
                self.text(c);
            }
        }
    }

    /// HTS (`ESC H`): a tab stop at the cursor's column.
    pub fn hts(&mut self)
        requires
            old(self)@.wf(),
        ensures
            final(self)@ == (ScreenModel {
                tab_stops: old(self)@.tab_stops.insert(old(self)@.active().pos.col),
                ..old(self)@
            }),
            final(self)@.wf(),
    {
        let col: u16 = self.grid().pos().col;
        self.tab_stops.set(col);
    }

    /// TBC (`CSI g`): clears the tab stop at the cursor (0) or all of them (3).
    pub fn tbc(&mut self, mode: u16)
        requires
            old(self)@.wf(),
        ensures
            final(self)@ == (ScreenModel {
                tab_stops: if mode == 0 {
                    old(self)@.tab_stops.remove(old(self)@.active().pos.col)
                } else if mode == 3 {
                    Set::empty()
                } else {
                    old(self)@.tab_stops
                },
                ..old(self)@
            }),
            final(self)@.wf(),
    {
        if mode == 0 {
            let col: u16 = self.grid().pos().col;
            self.tab_stops.remove(col);
        } else if mode == 3 {
            self.tab_stops.clear();
        }
    }

    /// DECSC (`ESC 7`): saves the cursor and the attributes.
    pub fn decsc(&mut self)
        requires
            old(self)@.wf(),
        ensures
            final(self)@ == old(self)@.saved(),
            final(self)@.wf(),
    {
        self.grid_mut().save_cursor();
        self.saved_attrs = self.attrs;
    }

    /// DECRC (`ESC 8`): brings the saved cursor and attributes back.
    pub fn decrc(&mut self)
        requires
            old(self)@.wf(),
        ensures
            final(self)@ == old(self)@.restored(),
            final(self)@.wf(),
    {
        self.grid_mut().restore_cursor();
        self.attrs = self.saved_attrs;
    }

    /// DECKPAM (`ESC =`): application keypad.
    pub fn deckpam(&mut self)
        requires
            old(self)@.wf(),
        ensures
            final(self)@ == (ScreenModel {
                modes: Modes { application_keypad: true, ..old(self)@.modes },
                ..old(self)@
            }),
            final(self)@.wf(),
    {
        self.modes.application_keypad = true;
    }

    /// DECKPNM (`ESC >`): numeric keypad.
    pub fn deckpnm(&mut self)
        requires
            old(self)@.wf(),
        ensures
            final(self)@ == (ScreenModel {
                modes: Modes { application_keypad: false, ..old(self)@.modes },
                ..old(self)@
            }),
            final(self)@.wf(),
    {
        self.modes.application_keypad = false;
    }

    /// RIS (`ESC c`): the screen as it is switched on.
    pub fn ris(&mut self)
        requires
            old(self)@.wf(),
        ensures
            final(self)@ == ScreenModel::<T>::fresh(
                old(self)@.grid.size,
                old(self)@.grid.scrollback_len,
            ),
            final(self)@.wf(),
    {
        *self = Screen::new(self.grid.size(), self.grid.scrollback_len());
    }

    /// DECSTR (`CSI ! p`): a soft reset.
    pub fn decstr(&mut self)
        requires
            old(self)@.wf(),
        ensures
            final(self)@ == old(self)@.soft_reset(),
            final(self)@.wf(),
    {
        self.attrs = Attrs::default();
        self.saved_attrs = Attrs::default();
        self.modes.hide_cursor = false;
        self.modes.application_cursor = false;
        self.modes.application_keypad = false;
        self.modes.no_autowrap = false;
        self.modes.insert = false;
        self.cursor_style = 0;
        self.grid_mut().soft_reset();
    }

    /// DECSCUSR (`CSI n SP q`): the cursor style.
    pub fn decscusr(&mut self, style: u8)
        requires
            old(self)@.wf(),
        ensures
            final(self)@ == (ScreenModel { cursor_style: style, ..old(self)@ }),
            final(self)@.wf(),
    {
        self.cursor_style = style;
    }

    /// ED (`CSI J`): empties the screen from the cursor on (0), up to the cursor (1) or
    /// whole (2). Returns whether the mode is another.
    pub fn ed(&mut self, mode: u16) -> (unhandled: bool)
        requires
            old(self)@.wf(),
        ensures
            unhandled == (mode > 2),
            final(self)@ == old(self)@.on_grid(
                if mode == 0 {
                    old(self)@.active().cleared_forward(old(self)@.attrs)
                } else if mode == 1 {
                    old(self)@.active().cleared_backward(old(self)@.attrs)
                } else if mode == 2 {
                    old(self)@.active().all_cleared(old(self)@.attrs)
                } else {
                    old(self)@.active()
                },
            ),
            final(self)@.wf(),
    {
        let attrs = self.attrs;
        match mode {
            0 => self.grid_mut().erase_all_forward(attrs),
            1 => self.grid_mut().erase_all_backward(attrs),
            2 => self.grid_mut().erase_all(attrs),
            _ => {
                return true;
            },
        }
        false
    }

    /// DECSED (`CSI ? J`): as `ed`.
    pub fn decsed(&mut self, mode: u16) -> (unhandled: bool)
        requires
            old(self)@.wf(),
        ensures
            unhandled == (mode > 2),
            final(self)@ == old(self)@.on_grid(
                if mode == 0 {
                    old(self)@.active().cleared_forward(old(self)@.attrs)
                } else if mode == 1 {
                    old(self)@.active().cleared_backward(old(self)@.attrs)
                } else if mode == 2 {
                    old(self)@.active().all_cleared(old(self)@.attrs)
                } else {
                    old(self)@.active()
                },
            ),
            final(self)@.wf(),
    {
        self.ed(mode)
    }

    /// EL (`CSI K`): empties the cursor's row from the cursor on (0), up to the cursor (1)
    /// or whole (2). Returns whether the mode is another.
    pub fn el(&mut self, mode: u16) -> (unhandled: bool)
        requires
            old(self)@.wf(),
        ensures
            unhandled == (mode > 2),
            final(self)@ == old(self)@.on_grid(
                if mode == 0 {
                    old(self)@.active().row_cleared_forward(old(self)@.attrs)
                } else if mode == 1 {
                    old(self)@.active().row_cleared_backward(old(self)@.attrs)
                } else if mode == 2 {
                    old(self)@.active().with_current(
                        old(self)@.active().current().cleared(old(self)@.attrs),
                    )
                } else {
                    old(self)@.active()
                },
            ),
            final(self)@.wf(),
    {
        let attrs = self.attrs;
        match mode {
            0 => self.grid_mut().erase_row_forward(attrs),
            1 => self.grid_mut().erase_row_backward(attrs),
            2 => self.grid_mut().erase_row(attrs),
            _ => {
                return true;
            },
        }
        false
    }

    /// DECSEL (`CSI ? K`): as `el`.
    pub fn decsel(&mut self, mode: u16) -> (unhandled: bool)
        requires
            old(self)@.wf(),
        ensures
            unhandled == (mode > 2),
            final(self)@ == old(self)@.on_grid(
                if mode == 0 {
                    old(self)@.active().row_cleared_forward(old(self)@.attrs)
                } else if mode == 1 {
                    old(self)@.active().row_cleared_backward(old(self)@.attrs)
                } else if mode == 2 {
                    old(self)@.active().with_current(
                        old(self)@.active().current().cleared(old(self)@.attrs),
                    )
                } else {
                    old(self)@.active()
                },
            ),
            final(self)@.wf(),
    {
        self.el(mode)
    }

    /// SGR (`CSI m`): the drawing attributes. Returns how many parameters were unknown.
    pub fn sgr(&mut self, params: &Vec<Vec<u16>>) -> (unhandled: usize)
        requires
            old(self)@.wf(),
        ensures
            final(self)@ == (ScreenModel {
                attrs: old(self)@.attrs.after_sgr(groups(params@)).0,
                ..old(self)@
            }),
            unhandled == old(self)@.attrs.after_sgr(groups(params@)).1,
            final(self)@.wf(),
    {
        self.attrs.sgr(params)
    }

    /// OSC 0 and 2: the window title.
    pub fn set_title(&mut self, s: &[u8])
        requires
            old(self)@.wf(),
        ensures
            final(self)@ == (ScreenModel { title: utf8_lossy(s@), ..old(self)@ }),
            final(self)@.wf(),
    {
        self.title = from_utf8_lossy(s);
    }

    /// XTWINOPS 22: saves the title. A full stack gives up its oldest entry.
    pub fn title_push(&mut self)
        requires
            old(self)@.wf(),
        ensures
            final(self)@ == old(self)@.title_pushed(),
            final(self)@.wf(),
    {
        if self.title_stack.len() >= MAX_TITLE_STACK {
            let _ = self.title_stack.remove(0);
        }
        self.title_stack.push(self.title.clone());
        proof {
            assert(self@.title_stack =~= old(self)@.title_pushed().title_stack);
        }
    }

    /// XTWINOPS 23: brings the last saved title back.
    pub fn title_pop(&mut self)
        requires
            old(self)@.wf(),
        ensures
            final(self)@ == old(self)@.title_popped(),
            final(self)@.wf(),
    {
        if let Some(t) = self.title_stack.pop() {
            self.title = t;
        }
        proof {
            assert(self@.title_stack =~= old(self)@.title_popped().title_stack);
        }
    }

    /// OSC 8: what is printed from here on belongs to the hyperlink.
    pub fn link_open(&mut self, uri: &[u8])
        requires
            old(self)@.wf(),
        ensures
            final(self)@ == old(self)@.link_opened(utf8_lossy(uri@)),
            final(self)@.wf(),
    {
        let text = from_utf8_lossy(uri);
        let id: Option<u32> = self.links.intern(text);
        if id.is_some() {
            self.attrs.link = id;
        }
        proof {
            let o = old(self)@;
            assert(id == o.links.id_for(utf8_lossy(uri@)));
            if id is Some {
                assert(self@.attrs == Attrs { link: id, ..o.attrs });
            }
            assert(self@.attrs == o.link_opened(utf8_lossy(uri@)).attrs);
        }
    }

    /// OSC 8 without a URI: ends the hyperlink.
    pub fn link_close(&mut self)
        requires
            old(self)@.wf(),
        ensures
            final(self)@ == (ScreenModel {
                attrs: Attrs { link: None, ..old(self)@.attrs },
                ..old(self)@
            }),
            final(self)@.wf(),
    {
        self.attrs.link = None;
    }

    /// OSC 10 and 110: the default foreground.
    pub fn set_default_fg(&mut self, c: Option<(u8, u8, u8)>)
        requires
            old(self)@.wf(),
        ensures
            final(self)@ == (ScreenModel { default_fg: c, ..old(self)@ }),
            final(self)@.wf(),
    {
        self.default_fg = c;
    }

    /// OSC 11 and 111: the default background.
    pub fn set_default_bg(&mut self, c: Option<(u8, u8, u8)>)
        requires
            old(self)@.wf(),
        ensures
            final(self)@ == (ScreenModel { default_bg: c, ..old(self)@ }),
            final(self)@.wf(),
    {
        self.default_bg = c;
    }

    fn enter_alternate_grid(&mut self)
        requires
            old(self)@.wf(),
        ensures
            final(self)@ == old(self)@.in_alternate(),
            final(self)@.wf(),
    {
        self.grid_mut().set_scrollback(0);
        self.modes.alternate_screen = true;
        self.alternate_grid.allocate_rows();
    }

    fn enter_cleared_alternate_grid(&mut self)
        requires
            old(self)@.wf(),
        ensures
            final(self)@ == old(self)@.in_cleared_alternate(),
            final(self)@.wf(),
    {
        self.decsc();
        self.alternate_grid.clear();
        self.enter_alternate_grid();
    }

    fn exit_alternate_grid(&mut self)
        requires
            old(self)@.wf(),
        ensures
            final(self)@ == old(self)@.in_primary(),
            final(self)@.wf(),
    {
        self.modes.alternate_screen = false;
    }

    fn set_dec_mode(&mut self, mode: u16) -> (known: bool)
        requires
            old(self)@.wf(),
        ensures
            known == (old(self)@.dec_set(mode) is Some),
            known ==> final(self)@ == old(self)@.dec_set(mode)->Some_0,
            !known ==> final(self)@ == old(self)@,
            final(self)@.wf(),
    {
        if self.modes.set_dec_flag(mode, true) {
            return true;
        }
        if let Some(m) = mouse_mode(mode) {
            self.mouse_protocol_mode = m;
            return true;
        }
        if let Some(e) = mouse_encoding(mode) {
            self.mouse_protocol_encoding = e;
            return true;
        }
        match mode {
            6 => self.grid_mut().set_origin_mode(true),
            47 => self.enter_alternate_grid(),
            1049 => self.enter_cleared_alternate_grid(),
            2026 => {
                self.modes.synchronized_update = true;
                self.sync_starts = self.sync_starts.wrapping_add(1);
            },
            _ => {
                return false;
            },
        }
        true
    }

    fn clear_mouse_mode(&mut self, mode: MouseProtocolMode)
        requires
            old(self)@.wf(),
        ensures
            final(self)@ == old(self)@.without_mouse_mode(mode),
            final(self)@.wf(),
    {
        if self.mouse_protocol_mode == mode {
            self.mouse_protocol_mode = MouseProtocolMode::Disabled;
        }
    }

    fn clear_mouse_encoding(&mut self, encoding: MouseProtocolEncoding)
        requires
            old(self)@.wf(),
        ensures
            final(self)@ == old(self)@.without_mouse_encoding(encoding),
            final(self)@.wf(),
    {
        if self.mouse_protocol_encoding == encoding {
            self.mouse_protocol_encoding = MouseProtocolEncoding::Default;
        }
    }

    fn reset_dec_mode(&mut self, mode: u16) -> (known: bool)
        requires
            old(self)@.wf(),
        ensures
            known == (old(self)@.dec_reset(mode) is Some),
            known ==> final(self)@ == old(self)@.dec_reset(mode)->Some_0,
            !known ==> final(self)@ == old(self)@,
            final(self)@.wf(),
    {
        if self.modes.set_dec_flag(mode, false) {
            return true;
        }
        if let Some(m) = mouse_mode(mode) {
            self.clear_mouse_mode(m);
            return true;
        }
        if let Some(e) = mouse_encoding(mode) {
            self.clear_mouse_encoding(e);
            return true;
        }
        match mode {
            6 => self.grid_mut().set_origin_mode(false),
            47 => self.exit_alternate_grid(),
            1049 => {
                self.exit_alternate_grid();
                self.decrc();
            },
            2026 => {
                self.modes.synchronized_update = false;
                self.sync_ends = self.sync_ends.wrapping_add(1);
            },
            _ => {
                return false;
            },
        }
        true
    }

    fn set_ansi_mode(&mut self, mode: u16, on: bool) -> (known: bool)
        requires
            old(self)@.wf(),
        ensures
            known == (old(self)@.ansi_mode(mode, on) is Some),
            known ==> final(self)@ == old(self)@.ansi_mode(mode, on)->Some_0,
            !known ==> final(self)@ == old(self)@,
            final(self)@.wf(),
    {
        if mode == 4 {
            self.modes.insert = on;
            true
        } else {
            mode == 25 && !on
        }
    }

    fn change_modes(&mut self, kind: ModeKind, params: &Vec<Vec<u16>>) -> (unhandled: usize)
        requires
            old(self)@.wf(),
        ensures
            (final(self)@, unhandled as nat) == old(self)@.mode_steps(kind, groups(params@)),
            final(self)@.wf(),
    {
        let ghost ps = groups(params@);
        let mut unhandled: usize = 0;
        proof {
            assert(ps.take(0) =~= Seq::empty());
        }
        for i in 0..params.len()
            invariant
                ps == groups(params@),
                unhandled <= i,
                (self@, unhandled as nat) == old(self)@.mode_steps(kind, ps.take(i as int)),
                self@.wf(),
        {
            let p: &Vec<u16> = &params[i];
            proof {
                assert(ps.take(i + 1).drop_last() =~= ps.take(i as int));
                assert(ps.take(i + 1).last() == p@);
            }
            let known: bool = p.len() == 1 && match kind {
                ModeKind::AnsiSet => self.set_ansi_mode(p[0], true),
                ModeKind::AnsiReset => self.set_ansi_mode(p[0], false),
                ModeKind::DecSet => self.set_dec_mode(p[0]),
                ModeKind::DecReset => self.reset_dec_mode(p[0]),
            };
            if !known {
                unhandled = unhandled + 1;
            }
        }
        proof {
            assert(ps.take(params@.len() as int) =~= ps);
        }
        unhandled
    }

    /// SM (`CSI h`): sets ANSI modes. Returns how many parameters were unknown.
    pub fn sm(&mut self, params: &Vec<Vec<u16>>) -> (unhandled: usize)
        requires
            old(self)@.wf(),
        ensures
            (final(self)@, unhandled as nat) == old(self)@.mode_steps(
                ModeKind::AnsiSet,
                groups(params@),
            ),
            final(self)@.wf(),
    {
        self.change_modes(ModeKind::AnsiSet, params)
    }

    /// RM (`CSI l`): resets ANSI modes. Returns how many parameters were unknown.
    pub fn rm(&mut self, params: &Vec<Vec<u16>>) -> (unhandled: usize)
        requires
            old(self)@.wf(),
        ensures
            (final(self)@, unhandled as nat) == old(self)@.mode_steps(
                ModeKind::AnsiReset,
                groups(params@),
            ),
            final(self)@.wf(),
    {
        self.change_modes(ModeKind::AnsiReset, params)
    }

    /// DECSET (`CSI ? h`): sets DEC private modes. Returns how many parameters were unknown.
    pub fn decset(&mut self, params: &Vec<Vec<u16>>) -> (unhandled: usize)
        requires
            old(self)@.wf(),
        ensures
            (final(self)@, unhandled as nat) == old(self)@.mode_steps(
                ModeKind::DecSet,
                groups(params@),
            ),
            final(self)@.wf(),
    {
        self.change_modes(ModeKind::DecSet, params)
    }

    /// DECRST (`CSI ? l`): resets DEC private modes. Returns how many parameters were
    /// unknown.
    pub fn decrst(&mut self, params: &Vec<Vec<u16>>) -> (unhandled: usize)
        requires
            old(self)@.wf(),
        ensures
            (final(self)@, unhandled as nat) == old(self)@.mode_steps(
                ModeKind::DecReset,
                groups(params@),
            ),
            final(self)@.wf(),
    {
        self.change_modes(ModeKind::DecReset, params)
    }

    /// Stamps data over a region of `width` by `height` cells at the cursor: the cell in row
    /// `r` and column `c` of the region gets `data(r, c)`. The cursor goes down one row, and
    /// scrolls, as printing the region would, and ends in the first column of its last row. The
    /// region is cut at the right edge and has at least one cell.
    pub fn place_data<F: Fn(u16, u16) -> T>(&mut self, width: u16, height: u16, data: F)
        requires
            old(self)@.wf(),
            forall|r: u16, c: u16| call_requires(data, (r, c)),
        ensures
            exists|vals: Seq<Seq<T>>| #[trigger]
                stamps(data, old(self)@.active().clipped(width as int), height as int, vals)
                    && final(self)@ == old(self)@.on_grid(
                    old(self)@.active().stamped(vals).col_at(0),
                ),
            final(self)@.wf(),
    {
        let cols: u16 = self.grid().size().cols;
        let col: u16 = self.grid().pos().col;
        let left: u16 = if col < cols {
            col
        } else {
            cols - 1
        };
        let room: u16 = cols - left;
        let w: u16 = if width < 1 {
            1
        } else if width > room {
            room
        } else {
            width
        };
        let h: u16 = if height < 1 {
            1
        } else {
            height
        };
        let ghost start = self@.active();
        let ghost mut vals: Seq<Seq<T>> = Seq::empty();
        let mut row_off: u16 = 0;
        while row_off < h
            invariant
                old(self)@.wf(),
                start == old(self)@.active(),
                left == start.left_edge(),
                left + w <= start.size.cols,
                w >= 1,
                row_off <= h,
                forall|r: u16, c: u16| call_requires(data, (r, c)),
                vals.len() == row_off,
                forall|r: int|
                    0 <= r < row_off ==> (#[trigger] vals[r]).len() == w && forall|c: int|
                        0 <= c < w ==> call_ensures(data, (r as u16, c as u16), #[trigger] vals[r][c]),
                self@ == old(self)@.on_grid(start.stamped(vals)),
                self@.wf(),
                self@.active().size == start.size,
            decreases h - row_off,
        {
            if row_off > 0 {
                let _ = self.grid_mut().row_inc_scroll(1);
            }
            let ghost line = self@.active();
            let row: u16 = self.grid().pos().row;
            let ghost mut cells: Seq<T> = Seq::empty();
            proof {
                assert(line == if row_off > 0 { start.stamped(vals).line_fed(1) } else { start });
                assert(line.stamped_row(left as int, cells).current().cells
                    =~= line.current().cells);
                assert(line.stamped_row(left as int, cells).rows =~= line.rows);
            }
            let mut col_off: u16 = 0;
            while col_off < w
                invariant
                    old(self)@.wf(),
                    line.wf(),
                    line.allocated(),
                    left + w <= line.size.cols,
                    col_off <= w,
                    row == line.pos.row,
                    forall|r: u16, c: u16| call_requires(data, (r, c)),
                    cells.len() == col_off,
                    forall|c: int|
                        0 <= c < col_off ==> call_ensures(
                            data,
                            (row_off, c as u16),
                            #[trigger] cells[c],
                        ),
                    self@ == old(self)@.on_grid(line.stamped_row(left as int, cells)),
                    self@.wf(),
                    self@.active().size == line.size,
                decreases w - col_off,
            {
                let value = data(row_off, col_off);
                let ghost before = cells;
                proof {
                    cells = cells.push(value);
                }
                self.grid_mut().set_data_at(row, left + col_off, Some(value));
                proof {
                    let a = line.stamped_row(left as int, before).with_data_at(
                        row as int,
                        left + col_off,
                        Some(value),
                    );
                    let b = line.stamped_row(left as int, cells);
                    assert(a.rows[row as int].cells =~= b.rows[row as int].cells);
                    assert(a.rows =~= b.rows);
                }
                col_off = col_off + 1;
            }
            let ghost earlier = vals;
            proof {
                vals = vals.push(cells);
                assert(vals.drop_last() =~= earlier);
                assert(start.stamped(vals) == line.stamped_row(left as int, cells));
            }
            row_off = row_off + 1;
        }
        let ghost end = self@.active();
        self.grid_mut().col_set(0);
        proof {
            assert(stamps(data, start.clipped(width as int), height as int, vals));
        }
    }
}

/// The values that a stamping function gives for every cell of a region.
pub open spec fn stamps<T, F: Fn(u16, u16) -> T>(
    data: F,
    width: int,
    height: int,
    vals: Seq<Seq<T>>,
) -> bool {
    &&& vals.len() == if height < 1 {
        1
    } else {
        height
    }
    &&& forall|r: int|
        0 <= r < vals.len() ==> (#[trigger] vals[r]).len() == width && forall|c: int|
            0 <= c < width ==> call_ensures(data, (r as u16, c as u16), #[trigger] vals[r][c])
}

} // verus!
