//! Where the cursor goes.
use vstd::prelude::*;

use crate::vt::dispatch::{csi_op, Op};
use crate::vt::grid::GridModel;
use crate::vt::meaning::{one, two};
use crate::vt::screen::ScreenModel;

verus! {

/// `CSI n A` takes the cursor `n` rows up, `CSI n B` down, in its column and past what is drawn. It
/// stops at the edge of the scroll region that it is in, or of the screen.
pub proof fn up_and_down<T>(s: ScreenModel<T>, n: u16)
    requires
        s.wf(),
        n >= 1,
    ensures
        ({
            let g = s.active();
            let up = s.after_csi(one(n), 'A');
            let down = s.after_csi(one(n), 'B');
            let inside = g.scroll_top <= g.pos.row && g.pos.row <= g.scroll_bottom;
            let top: int = if inside { g.scroll_top as int } else { 0 };
            let bottom: int = if inside { g.scroll_bottom as int } else { g.size.rows - 1 };
            &&& up.only_moved(s) && up.active().pos.col == g.pos.col
            &&& down.only_moved(s) && down.active().pos.col == g.pos.col
            &&& n <= g.pos.row - top ==> up.active().pos.row == g.pos.row - n
            &&& n > g.pos.row - top ==> up.active().pos.row == top
            &&& n <= bottom - g.pos.row ==> down.active().pos.row == g.pos.row + n
            &&& n > bottom - g.pos.row ==> down.active().pos.row == bottom
        }),
{
}

/// `CSI n C` takes the cursor `n` columns to the right, `CSI n D` to the left, in its row and past
/// what is drawn. It stops at the edge of the screen.
pub proof fn right_and_left<T>(s: ScreenModel<T>, n: u16)
    requires
        s.wf(),
        n >= 1,
    ensures
        ({
            let g = s.active();
            let right = s.after_csi(one(n), 'C');
            let left = s.after_csi(one(n), 'D');
            &&& right.only_moved(s) && right.active().pos.row == g.pos.row
            &&& left.only_moved(s) && left.active().pos.row == g.pos.row
            &&& g.pos.col + n < g.size.cols ==> right.active().pos.col == g.pos.col + n
            &&& g.pos.col + n >= g.size.cols ==> right.active().pos.col == g.size.cols - 1
            &&& n <= g.pos.col ==> left.active().pos.col == g.pos.col - n
            &&& n > g.pos.col ==> left.active().pos.col == 0
        }),
{
}

/// `CSI n E` and `CSI n F` go down and up as `B` and `A` do, to the first column.
pub proof fn lines_down_and_up<T>(s: ScreenModel<T>, n: u16)
    requires
        s.wf(),
        n >= 1,
    ensures
        ({
            let down = s.after_csi(one(n), 'E');
            let up = s.after_csi(one(n), 'F');
            &&& down.only_moved(s) && up.only_moved(s)
            &&& down.active().pos.col == 0 && up.active().pos.col == 0
            &&& down.active().pos.row == s.after_csi(one(n), 'B').active().pos.row
            &&& up.active().pos.row == s.after_csi(one(n), 'A').active().pos.row
        }),
{
}

/// `CSI n G` goes to the `n`th column, `CSI n d` to the `n`th row, counted from one, or to the last
/// there is; the other stays.
pub proof fn to_a_column_or_row<T>(s: ScreenModel<T>, n: u16)
    requires
        s.wf(),
        n >= 1,
    ensures
        ({
            let g = s.active();
            let column = s.after_csi(one(n), 'G');
            let row = s.after_csi(one(n), 'd');
            &&& column.only_moved(s) && row.only_moved(s)
            &&& column.active().pos.row == g.pos.row
            &&& row.active().pos.col == g.pos.col
            &&& n <= g.size.cols ==> column.active().pos.col + 1 == n
            &&& n > g.size.cols ==> column.active().pos.col + 1 == g.size.cols
            &&& n <= g.size.rows ==> row.active().pos.row + 1 == n
            &&& n > g.size.rows ==> row.active().pos.row + 1 == g.size.rows
        }),
{
}

/// `CSI r;c H` goes to row `r` and column `c`, counted from one, or to the last there is. In origin
/// mode the rows are those of the scroll region.
pub proof fn to_a_position<T>(s: ScreenModel<T>, r: u16, c: u16)
    requires
        s.wf(),
        r >= 1,
        c >= 1,
    ensures
        ({
            let g = s.active();
            let t = s.after_csi(two(r, c), 'H');
            let top: int = if g.origin_mode { g.scroll_top as int } else { 0 };
            let bottom: int = if g.origin_mode { g.scroll_bottom as int } else { g.size.rows - 1 };
            &&& t.only_moved(s)
            &&& top + r - 1 <= bottom ==> t.active().pos.row == top + r - 1
            &&& top + r - 1 > bottom ==> t.active().pos.row == bottom
            &&& c <= g.size.cols ==> t.active().pos.col == c - 1
            &&& c > g.size.cols ==> t.active().pos.col == g.size.cols - 1
        }),
{
    let ps = two(r, c);
    assert(ps[0] == seq![r] && ps[1] == seq![c]);
}

/// Only attributes and modes are spelled in numbers.
proof fn numbers_are_in_the_function<T>(s: ScreenModel<T>, op: Op, ps: Seq<Seq<u16>>, qs: Seq<Seq<u16>>)
    requires
        op != Op::Attributes,
        !(op is Mode),
    ensures
        s.performed(op, ps) == s.performed(op, qs),
{
}

/// Whether a final character counts with its first number.
pub open spec fn counts(c: char) -> bool {
    c == '@' || c == 'A' || c == 'B' || c == 'C' || c == 'D' || c == 'E' || c == 'F' || c == 'G' || c
        == 'I' || c == 'L' || c == 'M' || c == 'P' || c == 'S' || c == 'T' || c == 'X' || c == 'Z'
        || c == 'b' || c == 'd'
}

/// A number that is zero or left out stands for one where it counts, and numbers that are not asked
/// for change nothing.
pub proof fn numbers_left_out<T>(s: ScreenModel<T>, ps: Seq<Seq<u16>>, c: char)
    requires
        counts(c),
    ensures
        ps.len() == 0 || ps[0].len() == 0 || ps[0][0] == 0 ==> s.after_csi(ps, c) == s.after_csi(
            one(1),
            c,
        ),
        ps.len() > 0 && ps[0].len() > 0 && ps[0][0] != 0 ==> s.after_csi(ps, c) == s.after_csi(
            one(ps[0][0]),
            c,
        ),
{
    let rows = s.active().size.rows;
    let k = if ps.len() > 0 && ps[0].len() > 0 && ps[0][0] != 0 { ps[0][0] } else { 1u16 };
    assert(one(k)[0] == seq![k]);
    let op = csi_op(None, None, ps, c, rows);
    assert(op == csi_op(None, None, one(k), c, rows));
    numbers_are_in_the_function(s, op, ps, one(k));
}

/// A position that is left out is the first.
pub proof fn home_is_the_first_place<T>(s: ScreenModel<T>, n: u16)
    requires
        s.wf(),
        n >= 1,
    ensures
        s.after_csi(Seq::empty(), 'H') == s.after_csi(two(1, 1), 'H'),
        s.after_csi(one(n), 'H') == s.after_csi(two(n, 1), 'H'),
        s.after_csi(two(0, n), 'H') == s.after_csi(two(1, n), 'H'),
        s.after_csi(two(n, 0), 'H') == s.after_csi(two(n, 1), 'H'),
{
    assert(two(n, 1)[0] == seq![n] && two(n, 1)[1] == seq![1u16]);
    assert(two(0, n)[0] == seq![0u16] && two(0, n)[1] == seq![n]);
    assert(two(1, n)[0] == seq![1u16] && two(1, n)[1] == seq![n]);
    assert(two(n, 0)[0] == seq![n] && two(n, 0)[1] == seq![0u16]);
    assert(two(1, 1)[0] == seq![1u16] && two(1, 1)[1] == seq![1u16]);
}

/// BS goes one column back, CR to the first; the rows and the cursor's row stay.
pub proof fn back_and_return<T>(s: ScreenModel<T>)
    requires
        s.wf(),
    ensures
        s.executed(8) is Some,
        s.executed(13) is Some,
        ({
            let back = s.executed(8)->Some_0;
            let start = s.executed(13)->Some_0;
            &&& back.only_moved(s) && start.only_moved(s)
            &&& back.active().pos.row == s.active().pos.row
            &&& start.active().pos.row == s.active().pos.row
            &&& s.active().pos.col > 0 ==> back.active().pos.col == s.active().pos.col - 1
            &&& s.active().pos.col == 0 ==> back.active().pos.col == 0
            &&& start.active().pos.col == 0
        }),
{
}

/// Whether the cursor goes as far as `CSI n` and a final character tell, where there is room, and
/// everything else stays.
#[verifier::opaque]
pub open spec fn moves<T>(before: GridModel<T>, after: GridModel<T>, n: int, c: char) -> bool {
    let (row, col) = (before.pos.row, before.pos.col);
    n > 0 ==> {
        &&& c == 'A' && before.scroll_top <= row - n ==> after.pos.row == row - n
        &&& c == 'B' && row + n <= before.scroll_bottom ==> after.pos.row == row + n
        &&& c == 'C' && col + n < before.size.cols ==> after.pos.col == col + n
        &&& c == 'D' && n <= col ==> after.pos.col == col - n
        &&& c == 'G' && n <= before.size.cols ==> after.pos.col == n - 1
        &&& c == 'd' && n <= before.size.rows ==> after.pos.row == n - 1
        &&& c == 'A' || c == 'B' || c == 'd' ==> after.pos.col == col
        &&& c == 'C' || c == 'D' || c == 'G' ==> after.pos.row == row
        &&& c == 'A' || c == 'B' || c == 'C' || c == 'D' || c == 'G' || c == 'd' ==> after == (
        GridModel { pos: after.pos, ..before })
    }
}

/// However a sequence goes on after its first number, the cursor goes that far.
pub proof fn cursor_moves<T>(s: ScreenModel<T>, ps: Seq<Seq<u16>>, c: char)
    requires
        s.wf(),
        ps.len() > 0,
        ps[0].len() > 0,
    ensures
        moves(
            s.active(),
            s.performed(csi_op(None, None, ps, c, s.active().size.rows), ps).0.active(),
            ps[0][0] as int,
            c,
        ),
{
    reveal(moves);
    if ps[0][0] > 0 {
        if c == 'A' || c == 'B' {
            numbers_left_out(s, ps, c);
            up_and_down(s, ps[0][0]);
        } else if c == 'C' || c == 'D' {
            numbers_left_out(s, ps, c);
            right_and_left(s, ps[0][0]);
        } else if c == 'G' || c == 'd' {
            numbers_left_out(s, ps, c);
            to_a_column_or_row(s, ps[0][0]);
        }
    }
}

} // verus!
