//! What the single control functions do on a terminal that draws in the ordinary way.
use vstd::prelude::*;

use crate::vt::dispatch::{csi_op, number_or, Op};
use crate::vt::escape::{
    code_bytes, counted, csi, decimal, dec_mode, erase_chars, joined, move_from_to, move_to,
};
use crate::vt::grid::{GridModel, Pos};
use crate::vt::replay::token::{
    count_numbers, draws, drawing_goes_on, nothing_draws, numbered, one_group, token_draws, two_groups,
    Token,
};
use crate::vt::screen::{
    ModeKind, Modes, MouseProtocolEncoding, MouseProtocolMode, ScreenModel,
};

verus! {

impl<T> GridModel<T> {
    /// Whether a grid is drawn on in the ordinary way: it has its rows, all of it scrolls, and none
    /// of what scrolled out is in view.
    pub open spec fn drawable(self) -> bool {
        &&& self.size.rows > 0
        &&& self.size.cols > 0
        &&& self.pos.row < self.size.rows
        &&& self.pos.col <= self.size.cols
        &&& self.rows.len() == self.size.rows
        &&& forall|i: int|
            0 <= i < self.rows.len() ==> (#[trigger] self.rows[i]).wf(self.size.cols as int)
        &&& self.scroll_top == 0
        &&& self.scroll_bottom == self.size.rows - 1
        &&& !self.origin_mode
        &&& self.scrollback_offset == 0
    }
}

/// What text and its attributes leave alone: the modes, and what is asked of the mouse.
pub struct Setting {
    pub modes: Modes,
    pub mouse: MouseProtocolMode,
    pub encoding: MouseProtocolEncoding,
}

impl<T> ScreenModel<T> {
    /// The modes of a screen.
    pub open spec fn setting(self) -> Setting {
        Setting {
            modes: self.modes,
            mouse: self.mouse_protocol_mode,
            encoding: self.mouse_protocol_encoding,
        }
    }

    /// Whether a screen is drawn on in the ordinary way: text wraps and overwrites.
    pub open spec fn ready(self) -> bool {
        &&& self.active().drawable()
        &&& !self.modes.no_autowrap
        &&& !self.modes.insert
    }
}

// Spelling.

proof fn one_number(n: u16)
    ensures
        joined(seq![seq![n]]) == decimal(n as nat),
{
    let ps = seq![seq![n]];
    assert(ps[0] == seq![n]);
    assert(code_bytes(seq![n]) == decimal(n as nat));
}

proof fn two_numbers(n: u16, m: u16)
    ensures
        joined(seq![seq![n], seq![m]]) == decimal(n as nat).push(';' as u8) + decimal(m as nat),
{
    let ps = seq![seq![n], seq![m]];
    assert(ps.drop_last() =~= seq![seq![n]]);
    assert(ps.last() == seq![m]);
    one_number(n);
    assert(code_bytes(seq![m]) == decimal(m as nat));
}

proof fn spelled_bare(c: char)
    ensures
        Token::Sequence(None, seq![seq![0u16]], c).spelled() == csi().push(c as u8),
{
    assert(Token::Sequence(None, seq![seq![0u16]], c).spelled() =~= csi().push(c as u8));
}

proof fn spelled_one(n: u16, c: char)
    requires
        n > 0,
    ensures
        Token::Sequence(None, seq![seq![n]], c).spelled() == (csi() + decimal(n as nat)).push(
            c as u8,
        ),
{
    one_number(n);
    assert(seq![seq![n]][0][0] == n);
    assert(seq![seq![0u16]][0][0] == 0);
    assert(Token::Sequence(None, seq![seq![n]], c).spelled() =~= (csi() + decimal(n as nat)).push(
        c as u8,
    ));
}

/// The token that a counted control sequence is.
proof fn counted_token(n: u16, c: char) -> (ps: Seq<Seq<u16>>)
    requires
        n >= 1,
    ensures
        Token::Sequence(None, ps, c).spelled() == counted(n as int, c as u8),
        number_or(ps, 0, 1) == n,
        ps.len() == 1,
        numbered(ps),
        count_numbers(ps) == 1,
{
    one_group(seq![0u16]);
    one_group(seq![n]);
    if n == 1 {
        spelled_bare(c);
        let ps = seq![seq![0u16]];
        assert(ps[0][0] == 0);
        ps
    } else {
        spelled_one(n, c);
        let ps = seq![seq![n]];
        assert(ps[0][0] == n);
        ps
    }
}

// Moving.

proof fn forward_draws<T>(u: ScreenModel<T>, n: u16)
    requires
        u.ready(),
        n >= 1,
        u.active().pos.col + n < u.active().size.cols,
    ensures
        draws(
            u,
            counted(n as int, 'C' as u8),
            u.on_grid(u.active().at(u.active().pos.row as int, u.active().pos.col + n)),
        ),
{
    let ps = counted_token(n, 'C');
    token_draws(u, Token::Sequence(None, ps, 'C'));
    assert(csi_op(None, None, ps, 'C', u.active().size.rows) == Op::Forward(n));
}

proof fn position_told<T>(u: ScreenModel<T>, ps: Seq<Seq<u16>>, to: Pos)
    requires
        u.ready(),
        to.row < u.active().size.rows,
        to.col < u.active().size.cols,
        number_or(ps, 0, 1) == to.row + 1,
        number_or(ps, 1, 1) == to.col + 1,
    ensures
        u.told(Token::Sequence(None, ps, 'H')) == u.on_grid(
            u.active().at(to.row as int, to.col as int),
        ),
{
    let op = Op::Position((to.row + 1) as u16, (to.col + 1) as u16);
    assert(csi_op(None, None, ps, 'H', u.active().size.rows) == op);
    assert(u.performed(op, ps).0 == u.after_grid_op(op));
}

proof fn position_spelled(to: Pos) -> (ps: Seq<Seq<u16>>)
    requires
        to.row < u16::MAX,
        to.col < u16::MAX,
    ensures
        Token::Sequence(None, ps, 'H').spelled() == move_to(to.row as int, to.col as int),
        number_or(ps, 0, 1) == to.row + 1,
        number_or(ps, 1, 1) == to.col + 1,
        ps.len() > 0,
        numbered(ps),
        count_numbers(ps) <= 2,
{
    one_group(seq![0u16]);
    two_groups(seq![(to.row + 1) as u16], seq![(to.col + 1) as u16]);
    if to.row == 0 && to.col == 0 {
        let ps = seq![seq![0u16]];
        assert(ps[0][0] == 0);
        spelled_bare('H');
        ps
    } else {
        let r = (to.row + 1) as u16;
        let c = (to.col + 1) as u16;
        let ps = seq![seq![r], seq![c]];
        assert(ps[0][0] == r);
        assert(ps[1][0] == c);
        two_numbers(r, c);
        assert(ps.len() == 2);
        assert(seq![seq![0u16]].len() == 1);
        let t = Token::Sequence(None, ps, 'H');
        assert(t.spelled() =~= move_to(to.row as int, to.col as int));
        ps
    }
}

proof fn position_draws<T>(u: ScreenModel<T>, to: Pos)
    requires
        u.ready(),
        to.row < u.active().size.rows,
        to.col < u.active().size.cols,
    ensures
        draws(
            u,
            move_to(to.row as int, to.col as int),
            u.on_grid(u.active().at(to.row as int, to.col as int)),
        ),
{
    let ps = position_spelled(to);
    token_draws(u, Token::Sequence(None, ps, 'H'));
    position_told(u, ps, to);
}

proof fn return_draws<T>(u: ScreenModel<T>)
    ensures
        draws(u, seq!['\r' as u8], u.on_grid(u.active().col_at(0))),
{
    token_draws(u, Token::Control(13));
}

/// A line feed above the last row moves the cursor down.
pub(crate) proof fn feed_draws<T>(u: ScreenModel<T>)
    requires
        u.ready(),
        u.active().pos.row + 1 < u.active().size.rows,
    ensures
        draws(
            u,
            seq!['\n' as u8],
            u.on_grid(u.active().at(u.active().pos.row + 1, u.active().pos.col as int)),
        ),
{
    token_draws(u, Token::Control(10));
    let g = u.active();
    assert(g.overrun(1) == 0);
    let m = g.row_moved_down(1);
    assert(m.rows_up(0, m.scroll_bottom as int, 0) =~= m.rows);
    assert(m.scrolled_up(0) == m);
    assert(g.line_fed(1) == g.at(g.pos.row + 1, g.pos.col as int));
}

/// The way from one position to another leads there.
pub(crate) proof fn move_draws<T>(u: ScreenModel<T>, to: Pos)
    requires
        u.ready(),
        to.row < u.active().size.rows,
        to.col < u.active().size.cols || to == u.active().pos,
    ensures
        draws(
            u,
            move_from_to(u.active().pos, to),
            u.on_grid(u.active().at(to.row as int, to.col as int)),
        ),
{
    let from = u.active().pos;
    let v = u.on_grid(u.active().at(to.row as int, to.col as int));
    if to.row == from.row + 1 && to.col == 0 {
        return_draws(u);
        let w = u.on_grid(u.active().col_at(0));
        feed_draws(w);
        drawing_goes_on(u, seq!['\r' as u8], w, seq!['\n' as u8], v);
        assert(seq!['\r' as u8] + seq!['\n' as u8] =~= seq!['\r' as u8, '\n' as u8]);
    } else if from.row == to.row && from.col < to.col {
        forward_draws(u, (to.col - from.col) as u16);
    } else if from != to {
        position_draws(u, to);
    } else {
        nothing_draws(u);
        assert(v == u);
    }
}

/// A backspace moves the cursor left.
pub(crate) proof fn back_draws<T>(u: ScreenModel<T>)
    ensures
        draws(u, seq![8u8], u.on_grid(u.active().col_moved_left(1))),
{
    token_draws(u, Token::Control(8));
}

// Erasing.

/// ECH empties cells from the cursor on.
pub(crate) proof fn erase_draws<T>(u: ScreenModel<T>, n: u16)
    requires
        n >= 1,
    ensures
        draws(
            u,
            erase_chars(n as int),
            u.on_grid(u.active().cells_erased(n as int, u.attrs)),
        ),
{
    let ps = counted_token(n, 'X');
    token_draws(u, Token::Sequence(None, ps, 'X'));
    assert(csi_op(None, None, ps, 'X', u.active().size.rows) == Op::EraseCells(n));
}

/// EL empties the rest of the row.
pub(crate) proof fn clear_row_draws<T>(u: ScreenModel<T>)
    ensures
        draws(
            u,
            csi().push('K' as u8),
            u.on_grid(u.active().row_cleared_forward(u.attrs)),
        ),
{
    let ps = seq![seq![0u16]];
    assert(ps[0][0] == 0);
    one_group(seq![0u16]);
    spelled_bare('K');
    token_draws(u, Token::Sequence(None, ps, 'K'));
    assert(csi_op(None, None, ps, 'K', u.active().size.rows) == Op::EraseLine(0));
}

/// ED empties everything from the cursor on.
pub(crate) proof fn clear_below_draws<T>(u: ScreenModel<T>)
    ensures
        draws(u, csi().push('J' as u8), u.on_grid(u.active().cleared_forward(u.attrs))),
{
    let ps = seq![seq![0u16]];
    assert(ps[0][0] == 0);
    one_group(seq![0u16]);
    spelled_bare('J');
    token_draws(u, Token::Sequence(None, ps, 'J'));
    assert(csi_op(None, None, ps, 'J', u.active().size.rows) == Op::EraseDisplay(0));
}

/// ED with a two empties everything.
pub(crate) proof fn clear_all_draws<T>(u: ScreenModel<T>)
    ensures
        draws(
            u,
            seq![0x1bu8, '[' as u8, '2' as u8, 'J' as u8],
            u.on_grid(u.active().all_cleared(u.attrs)),
        ),
{
    let ps = seq![seq![2u16]];
    assert(ps[0][0] == 2);
    one_group(seq![2u16]);
    spelled_one(2, 'J');
    assert((csi() + decimal(2)).push('J' as u8) =~= seq![0x1bu8, '[' as u8, '2' as u8, 'J' as u8]);
    token_draws(u, Token::Sequence(None, ps, 'J'));
    assert(csi_op(None, None, ps, 'J', u.active().size.rows) == Op::EraseDisplay(2));
}

/// CUP without numbers goes home.
pub(crate) proof fn home_draws<T>(u: ScreenModel<T>)
    requires
        u.ready(),
    ensures
        draws(u, csi().push('H' as u8), u.on_grid(u.active().at(0, 0))),
{
    position_draws(u, Pos { row: 0, col: 0 });
}

/// A DEC private mode is set or reset.
pub(crate) proof fn mode_draws<T>(u: ScreenModel<T>, mode: u16, on: bool)
    requires
        mode > 0,
    ensures
        draws(
            u,
            dec_mode(mode, on),
            match if on {
                u.dec_set(mode)
            } else {
                u.dec_reset(mode)
            } {
                Some(v) => v,
                None => u,
            },
        ),
{
    let ps = seq![seq![mode]];
    let c = if on {
        'h'
    } else {
        'l'
    };
    let kind = if on {
        ModeKind::DecSet
    } else {
        ModeKind::DecReset
    };
    one_number(mode);
    one_group(seq![mode]);
    assert(ps[0][0] == mode);
    assert(seq![seq![0u16]][0][0] == 0);
    let t = Token::Sequence(Some('?' as u8), ps, c);
    assert(t.spelled() =~= dec_mode(mode, on));
    token_draws(u, t);
    assert(csi_op(Some('?' as u8), None, ps, c, u.active().size.rows) == Op::Mode(kind));
    assert(ps.drop_last() =~= Seq::<Seq<u16>>::empty());
    assert(u.mode_steps(kind, ps.drop_last()) == (u, 0nat));
    assert(ps.last() == seq![mode]);
    assert(ps.last().len() == 1);
}

} // verus!
