//! Which control function a control sequence is, and what it does to the screen.
use vstd::prelude::*;

use crate::vt::meaning::cursor::{cursor_moves, moves};
use crate::vt::screen::{ModeKind, Modes, Screen, ScreenModel};
use crate::vt::sgr::groups;

verus! {

/// A control function with its numbers.
#[derive(Clone, Copy, Debug, PartialEq, Eq, Structural)]
pub enum Op {
    /// Known, and without effect on a screen.
    Nothing,
    /// Not known.
    Unknown,
    InsertCells(u16),
    Up(u16),
    Down(u16),
    Forward(u16),
    Back(u16),
    NextLine(u16),
    PreviousLine(u16),
    Column(u16),
    Row(u16),
    Position(u16, u16),
    EraseDisplay(u16),
    EraseLine(u16),
    InsertLines(u16),
    DeleteLines(u16),
    DeleteCells(u16),
    EraseCells(u16),
    ScrollUp(u16),
    ScrollDown(u16),
    Repeat(u16),
    Tabs(u16),
    BackTabs(u16),
    ClearTabs(u16),
    Region(u16, u16),
    SavePosition,
    RestorePosition,
    SoftReset,
    CursorStyle(u8),
    PushTitle,
    PopTitle,
    /// The numbers say which attributes.
    Attributes,
    /// The numbers say which modes.
    Mode(ModeKind),
}

/// A number of a control sequence, 0 where it is left out.
pub open spec fn number_at(ps: Seq<Seq<u16>>, i: int) -> u16 {
    if 0 <= i < ps.len() && ps[i].len() > 0 {
        ps[i][0]
    } else {
        0
    }
}

/// A number of a control sequence where 0 stands for a default.
pub open spec fn number_or(ps: Seq<Seq<u16>>, i: int, default: u16) -> u16 {
    if number_at(ps, i) == 0 {
        default
    } else {
        number_at(ps, i)
    }
}

/// The control function without an intermediate byte.
pub open spec fn plain_op(ps: Seq<Seq<u16>>, c: char, rows: u16) -> Op {
    let n = number_or(ps, 0, 1);
    match c {
        '@' => Op::InsertCells(n),
        'A' => Op::Up(n),
        'B' => Op::Down(n),
        'C' => Op::Forward(n),
        'D' => Op::Back(n),
        'E' => Op::NextLine(n),
        'F' => Op::PreviousLine(n),
        'G' => Op::Column(n),
        'H' => Op::Position(n, number_or(ps, 1, 1)),
        'I' => Op::Tabs(n),
        'J' => Op::EraseDisplay(number_at(ps, 0)),
        'K' => Op::EraseLine(number_at(ps, 0)),
        'L' => Op::InsertLines(n),
        'M' => Op::DeleteLines(n),
        'P' => Op::DeleteCells(n),
        'S' => Op::ScrollUp(n),
        'T' => Op::ScrollDown(n),
        'X' => Op::EraseCells(n),
        'Z' => Op::BackTabs(n),
        'b' => Op::Repeat(n),
        'c' => Op::Nothing,
        'd' => Op::Row(n),
        'g' => Op::ClearTabs(number_at(ps, 0)),
        'h' => Op::Mode(ModeKind::AnsiSet),
        'l' => Op::Mode(ModeKind::AnsiReset),
        'm' => Op::Attributes,
        'n' => if number_at(ps, 0) == 5 || number_at(ps, 0) == 6 {
            Op::Nothing
        } else {
            Op::Unknown
        },
        'r' => Op::Region(n, number_or(ps, 1, rows)),
        's' => Op::SavePosition,
        't' => window_op(number_at(ps, 0), number_at(ps, 1)),
        'u' => Op::RestorePosition,
        _ => Op::Unknown,
    }
}

/// The window operation of a number. Reports are for the terminal to give, and the title of an
/// icon is not kept.
pub open spec fn window_op(op: u16, which: u16) -> Op {
    if op == 14 || op == 18 {
        Op::Nothing
    } else if op == 22 || op == 23 {
        if which == 1 {
            Op::Nothing
        } else if op == 22 {
            Op::PushTitle
        } else {
            Op::PopTitle
        }
    } else {
        Op::Unknown
    }
}

/// The control function behind a question mark.
pub open spec fn private_op(ps: Seq<Seq<u16>>, c: char) -> Op {
    match c {
        'J' => Op::EraseDisplay(number_at(ps, 0)),
        'K' => Op::EraseLine(number_at(ps, 0)),
        'h' => Op::Mode(ModeKind::DecSet),
        'l' => Op::Mode(ModeKind::DecReset),
        _ => Op::Unknown,
    }
}

/// The control function of a control sequence: its intermediate bytes, its numbers and its final
/// character.
pub open spec fn csi_op(i1: Option<u8>, i2: Option<u8>, ps: Seq<Seq<u16>>, c: char, rows: u16) -> Op {
    match (i1, i2) {
        (None, None) => plain_op(ps, c, rows),
        (Some(i), None) => if i == '?' as u8 {
            private_op(ps, c)
        } else if i == '>' as u8 && c == 'c' {
            Op::Nothing
        } else if i == '!' as u8 && c == 'p' {
            Op::SoftReset
        } else if i == ' ' as u8 && c == 'q' && number_at(ps, 0) <= 6 {
            Op::CursorStyle(number_at(ps, 0) as u8)
        } else {
            Op::Unknown
        },
        _ => Op::Unknown,
    }
}

impl Op {
    /// Whether the numbers that count from one do.
    pub open spec fn in_range(self) -> bool {
        match self {
            Op::Column(n) => n >= 1,
            Op::Row(n) => n >= 1,
            Op::Position(r, c) => r >= 1 && c >= 1,
            Op::Region(t, b) => t >= 1 && b >= 1,
            _ => true,
        }
    }
}

fn read_number_at(params: &Vec<Vec<u16>>, i: usize) -> (r: u16)
    ensures
        r == number_at(groups(params@), i as int),
{
    if i < params.len() && params[i].len() > 0 {
        params[i][0]
    } else {
        0
    }
}

fn read_number_or(params: &Vec<Vec<u16>>, i: usize, default: u16) -> (r: u16)
    ensures
        r == number_or(groups(params@), i as int, default),
{
    let n: u16 = read_number_at(params, i);
    if n == 0 {
        default
    } else {
        n
    }
}

fn find_window_op(op: u16, which: u16) -> (r: Op)
    ensures
        r == window_op(op, which),
{
    match op {
        14 | 18 => Op::Nothing,
        22 => if which == 1 {
            Op::Nothing
        } else {
            Op::PushTitle
        },
        23 => if which == 1 {
            Op::Nothing
        } else {
            Op::PopTitle
        },
        _ => Op::Unknown,
    }
}

fn find_plain_op(params: &Vec<Vec<u16>>, c: char, rows: u16) -> (r: Op)
    requires
        rows >= 1,
    ensures
        r == plain_op(groups(params@), c, rows),
        r.in_range(),
{
    let n: u16 = read_number_or(params, 0, 1);
    match c {
        '@' => Op::InsertCells(n),
        'A' => Op::Up(n),
        'B' => Op::Down(n),
        'C' => Op::Forward(n),
        'D' => Op::Back(n),
        'E' => Op::NextLine(n),
        'F' => Op::PreviousLine(n),
        'G' => Op::Column(n),
        'H' => Op::Position(n, read_number_or(params, 1, 1)),
        'I' => Op::Tabs(n),
        'J' => Op::EraseDisplay(read_number_at(params, 0)),
        'K' => Op::EraseLine(read_number_at(params, 0)),
        'L' => Op::InsertLines(n),
        'M' => Op::DeleteLines(n),
        'P' => Op::DeleteCells(n),
        'S' => Op::ScrollUp(n),
        'T' => Op::ScrollDown(n),
        'X' => Op::EraseCells(n),
        'Z' => Op::BackTabs(n),
        'b' => Op::Repeat(n),
        'c' => Op::Nothing,
        'd' => Op::Row(n),
        'g' => Op::ClearTabs(read_number_at(params, 0)),
        'h' => Op::Mode(ModeKind::AnsiSet),
        'l' => Op::Mode(ModeKind::AnsiReset),
        'm' => Op::Attributes,
        'n' => {
            let query: u16 = read_number_at(params, 0);
            if query == 5 || query == 6 {
                Op::Nothing
            } else {
                Op::Unknown
            }
        },
        'r' => Op::Region(n, read_number_or(params, 1, rows)),
        's' => Op::SavePosition,
        't' => find_window_op(read_number_at(params, 0), read_number_at(params, 1)),
        'u' => Op::RestorePosition,
        _ => Op::Unknown,
    }
}

/// The control function of a control sequence.
pub fn find_csi_op(i1: Option<u8>, i2: Option<u8>, params: &Vec<Vec<u16>>, c: char, rows: u16) -> (r:
    Op)
    requires
        rows >= 1,
    ensures
        r == csi_op(i1, i2, groups(params@), c, rows),
        r.in_range(),
{
    if i2.is_some() {
        return Op::Unknown;
    }
    match i1 {
        None => find_plain_op(params, c, rows),
        Some(i) => {
            if i == '?' as u8 {
                match c {
                    'J' => Op::EraseDisplay(read_number_at(params, 0)),
                    'K' => Op::EraseLine(read_number_at(params, 0)),
                    'h' => Op::Mode(ModeKind::DecSet),
                    'l' => Op::Mode(ModeKind::DecReset),
                    _ => Op::Unknown,
                }
            } else if i == '>' as u8 && c == 'c' {
                Op::Nothing
            } else if i == '!' as u8 && c == 'p' {
                Op::SoftReset
            } else if i == ' ' as u8 && c == 'q' {
                let style: u16 = read_number_at(params, 0);
                if style <= 6 {
                    Op::CursorStyle(style as u8)
                } else {
                    Op::Unknown
                }
            } else {
                Op::Unknown
            }
        },
    }
}

impl<T> ScreenModel<T> {
    /// The screen after cells of the display were erased: behind the cursor, before it, or all.
    pub open spec fn display_erased(self, mode: u16) -> ScreenModel<T> {
        self.on_grid(
            if mode == 0 {
                self.active().cleared_forward(self.attrs)
            } else if mode == 1 {
                self.active().cleared_backward(self.attrs)
            } else if mode == 2 {
                self.active().all_cleared(self.attrs)
            } else {
                self.active()
            },
        )
    }

    /// The screen after cells of the cursor's row were erased: behind the cursor, before it, or all.
    pub open spec fn line_erased(self, mode: u16) -> ScreenModel<T> {
        self.on_grid(
            if mode == 0 {
                self.active().row_cleared_forward(self.attrs)
            } else if mode == 1 {
                self.active().row_cleared_backward(self.attrs)
            } else if mode == 2 {
                self.active().with_current(self.active().current().cleared(self.attrs))
            } else {
                self.active()
            },
        )
    }

    /// The screen after a control function that acts on its grid alone.
    pub open spec fn after_grid_op(self, op: Op) -> ScreenModel<T> {
        let g = self.active();
        self.on_grid(
            match op {
                Op::InsertCells(n) => g.cells_inserted(n as int),
                Op::Up(n) => g.row_moved_up(n as int),
                Op::Down(n) => g.row_moved_down(n as int),
                Op::Forward(n) => g.col_at(g.pos.col + n),
                Op::Back(n) => g.col_moved_left(n as int),
                Op::NextLine(n) => g.col_at(0).row_moved_down(n as int),
                Op::PreviousLine(n) => g.col_at(0).row_moved_up(n as int),
                Op::Column(n) => g.col_at(n - 1),
                Op::Row(n) => g.row_at(n - 1),
                Op::Position(r, c) => g.moved_to(r - 1, c - 1),
                Op::InsertLines(n) => g.lines_inserted(n as int),
                Op::DeleteLines(n) => g.lines_deleted(n as int),
                Op::DeleteCells(n) => g.cells_deleted(n as int),
                Op::EraseCells(n) => g.cells_erased(n as int, self.attrs),
                Op::ScrollUp(n) => g.scrolled_up(n as int),
                Op::ScrollDown(n) => g.scrolled_down(n as int),
                Op::Region(t, b) => g.with_region(t - 1, b - 1),
                Op::SavePosition => g.cursor_saved(),
                Op::RestorePosition => g.cursor_restored(),
                _ => g,
            },
        )
    }

    /// The screen after the last character was printed again.
    pub open spec fn repeated(self, n: nat) -> ScreenModel<T> {
        match self.last_graphic_char {
            Some(c) => self.printed_times(c, n),
            None => self,
        }
    }

    /// The screen after tab stops were cleared: the one at the cursor, or all.
    pub open spec fn tabs_cleared(self, mode: u16) -> ScreenModel<T> {
        ScreenModel {
            tab_stops: if mode == 0 {
                self.tab_stops.remove(self.active().pos.col)
            } else if mode == 3 {
                Set::empty()
            } else {
                self.tab_stops
            },
            ..self
        }
    }

    /// The screen after a control function, and how much of it was not known.
    pub open spec fn performed(self, op: Op, ps: Seq<Seq<u16>>) -> (ScreenModel<T>, nat) {
        match op {
            Op::Nothing => (self, 0),
            Op::Unknown => (self, 1),
            Op::EraseDisplay(mode) => (self.display_erased(mode), if mode > 2 {
                1
            } else {
                0
            }),
            Op::EraseLine(mode) => (self.line_erased(mode), if mode > 2 {
                1
            } else {
                0
            }),
            Op::Repeat(n) => (self.repeated(n as nat), 0),
            Op::Tabs(n) => (self.tabbed_times(n as nat), 0),
            Op::BackTabs(n) => (self.back_tabbed_times(n as nat), 0),
            Op::ClearTabs(mode) => (self.tabs_cleared(mode), 0),
            Op::SoftReset => (self.soft_reset(), 0),
            Op::CursorStyle(style) => (ScreenModel { cursor_style: style, ..self }, 0),
            Op::PushTitle => (self.title_pushed(), 0),
            Op::PopTitle => (self.title_popped(), 0),
            Op::Attributes => (
                ScreenModel { attrs: self.attrs.after_sgr(ps).0, ..self },
                self.attrs.after_sgr(ps).1,
            ),
            Op::Mode(kind) => self.mode_steps(kind, ps),
            _ => (self.after_grid_op(op), 0),
        }
    }
}

impl<T> Screen<T> {
    fn perform_on_grid(&mut self, op: Op)
        requires
            old(self)@.wf(),
            op.in_range(),
        ensures
            final(self)@ == old(self)@.after_grid_op(op),
            final(self)@.wf(),
    {
        match op {
            Op::InsertCells(n) => self.ich(n),
            Op::Up(n) => self.cuu(n),
            Op::Down(n) => self.cud(n),
            Op::Forward(n) => self.cuf(n),
            Op::Back(n) => self.cub(n),
            Op::NextLine(n) => self.cnl(n),
            Op::PreviousLine(n) => self.cpl(n),
            Op::Column(n) => self.cha(n),
            Op::Row(n) => self.vpa(n),
            Op::Position(r, c) => self.cup((r, c)),
            Op::InsertLines(n) => self.il(n),
            Op::DeleteLines(n) => self.dl(n),
            Op::DeleteCells(n) => self.dch(n),
            Op::EraseCells(n) => self.ech(n),
            Op::ScrollUp(n) => self.su(n),
            Op::ScrollDown(n) => self.sd(n),
            Op::Region(t, b) => self.decstbm((t, b)),
            Op::SavePosition => self.scosc(),
            Op::RestorePosition => self.scorc(),
            _ => {},
        }
    }

    fn perform(&mut self, op: Op, params: &Vec<Vec<u16>>) -> (unhandled: usize)
        requires
            old(self)@.wf(),
            op.in_range(),
        ensures
            (final(self)@, unhandled as nat) == old(self)@.performed(op, groups(params@)),
            final(self)@.wf(),
    {
        match op {
            Op::Nothing => {},
            Op::Unknown => {
                return 1;
            },
            Op::EraseDisplay(mode) => {
                if self.ed(mode) {
                    return 1;
                }
            },
            Op::EraseLine(mode) => {
                if self.el(mode) {
                    return 1;
                }
            },
            Op::Repeat(n) => self.rep(n),
            Op::Tabs(n) => self.cht(n),
            Op::BackTabs(n) => self.cbt(n),
            Op::ClearTabs(mode) => self.tbc(mode),
            Op::SoftReset => self.decstr(),
            Op::CursorStyle(style) => self.decscusr(style),
            Op::PushTitle => self.title_push(),
            Op::PopTitle => self.title_pop(),
            Op::Attributes => {
                return self.sgr(params);
            },
            Op::Mode(kind) => {
                return match kind {
                    ModeKind::AnsiSet => self.sm(params),
                    ModeKind::AnsiReset => self.rm(params),
                    ModeKind::DecSet => self.decset(params),
                    ModeKind::DecReset => self.decrst(params),
                };
            },
            _ => self.perform_on_grid(op),
        }
        0
    }

    /// A control sequence: its intermediate bytes, its numbers and its final character. Returns how
    /// much of it is not known.
    pub fn csi(
        &mut self,
        i1: Option<u8>,
        i2: Option<u8>,
        params: &Vec<Vec<u16>>,
        c: char,
    ) -> (unhandled: usize)
        requires
            old(self)@.wf(),
        ensures
            ({
                let op = csi_op(i1, i2, groups(params@), c, old(self)@.active().size.rows);
                (final(self)@, unhandled as nat) == old(self)@.performed(op, groups(params@))
            }),
            final(self)@.wf(),
            i1 is None && i2 is None && params@.len() > 0 && params@[0]@.len() > 0 ==> moves(
                old(self)@.active(),
                final(self)@.active(),
                params@[0]@[0] as int,
                c,
            ),
    {
        let rows: u16 = self.size().0;
        let op = find_csi_op(i1, i2, params, c, rows);
        proof {
            let ps = groups(params@);
            if i1 is None && i2 is None && ps.len() > 0 && ps[0].len() > 0 {
                assert(ps[0] == params@[0]@);
                cursor_moves(old(self)@, ps, c);
            }
        }
        self.perform(op, params)
    }
}

// Single characters and escape sequences.

/// Whether a character is reported though it is printed: it stands for bytes that were no text, or
/// is a control character.
pub open spec fn is_noise(c: char) -> bool {
    c as u32 == 0xFFFD || 0x80 <= c as u32 <= 0x9F
}

impl<T> ScreenModel<T> {
    /// The screen after a control character, if it is known.
    pub open spec fn executed(self, b: u8) -> Option<ScreenModel<T>> {
        let g = self.active();
        if b == 7 || b == 14 || b == 15 {
            Some(self)
        } else if b == 8 {
            Some(self.on_grid(g.col_moved_left(1)))
        } else if b == 9 {
            Some(self.tabbed())
        } else if 10 <= b <= 12 {
            Some(self.on_grid(g.line_fed(1)))
        } else if b == 13 {
            Some(self.on_grid(g.col_at(0)))
        } else {
            None
        }
    }

    /// The screen after an escape sequence, if it is known. ASCII is the only character set, so to
    /// choose it changes nothing.
    pub open spec fn escaped(self, i1: Option<u8>, i2: Option<u8>, b: u8) -> Option<ScreenModel<T>> {
        match (i1, i2) {
            (None, None) => if b == '7' as u8 {
                Some(self.saved())
            } else if b == '8' as u8 {
                Some(self.restored())
            } else if b == '=' as u8 {
                Some(self.with_keypad(true))
            } else if b == '>' as u8 {
                Some(self.with_keypad(false))
            } else if b == 'H' as u8 {
                Some(
                    ScreenModel { tab_stops: self.tab_stops.insert(self.active().pos.col), ..self },
                )
            } else if b == 'M' as u8 {
                Some(self.on_grid(self.active().reverse_line_fed()))
            } else if b == 'c' as u8 {
                Some(ScreenModel::fresh(self.grid.size, self.grid.scrollback_len))
            } else if b == 'g' as u8 || b == 0x5C {
                Some(self)
            } else {
                None
            },
            (Some(i), None) => if '(' as u8 <= i <= '+' as u8 && b == 'B' as u8 {
                Some(self)
            } else {
                None
            },
            _ => None,
        }
    }

    /// The screen with the keypad for applications or for numbers.
    pub open spec fn with_keypad(self, application: bool) -> ScreenModel<T> {
        ScreenModel { modes: Modes { application_keypad: application, ..self.modes }, ..self }
    }
}

impl<T> Screen<T> {
    /// Prints a character. Returns whether it is one to report.
    pub fn print(&mut self, c: char) -> (unhandled: bool)
        requires
            old(self)@.wf(),
        ensures
            final(self)@ == old(self)@.printed(c),
            final(self)@.wf(),
            unhandled == is_noise(c),
    {
        self.text(c);
        let n: u32 = c as u32;
        n == 0xFFFD || (0x80 <= n && n <= 0x9F)
    }

    /// A control character. Returns whether it is not known.
    pub fn execute(&mut self, b: u8) -> (unhandled: bool)
        requires
            old(self)@.wf(),
        ensures
            unhandled == (old(self)@.executed(b) is None),
            final(self)@ == if unhandled {
                old(self)@
            } else {
                old(self)@.executed(b)->Some_0
            },
            final(self)@.wf(),
    {
        match b {
            7 | 14 | 15 => {},
            8 => self.bs(),
            9 => self.tab(),
            10 => self.lf(),
            11 => self.vt(),
            12 => self.ff(),
            13 => self.cr(),
            _ => {
                return true;
            },
        }
        false
    }

    /// An escape sequence: its intermediate bytes and its final byte. Returns whether it is not
    /// known.
    pub fn esc(&mut self, i1: Option<u8>, i2: Option<u8>, b: u8) -> (unhandled: bool)
        requires
            old(self)@.wf(),
        ensures
            unhandled == (old(self)@.escaped(i1, i2, b) is None),
            final(self)@ == if unhandled {
                old(self)@
            } else {
                old(self)@.escaped(i1, i2, b)->Some_0
            },
            final(self)@.wf(),
    {
        if i2.is_some() {
            return true;
        }
        if let Some(i) = i1 {
            return !('(' as u8 <= i && i <= '+' as u8 && b == 'B' as u8);
        }
        if b == '7' as u8 {
            self.decsc();
        } else if b == '8' as u8 {
            self.decrc();
        } else if b == '=' as u8 {
            self.deckpam();
        } else if b == '>' as u8 {
            self.deckpnm();
        } else if b == 'H' as u8 {
            self.hts();
        } else if b == 'M' as u8 {
            self.ri();
        } else if b == 'c' as u8 {
            self.ris();
        } else if b != 'g' as u8 && b != 0x5C {
            return true;
        }
        false
    }
}

} // verus!
