//! What is erased, and what stays.
use vstd::prelude::*;

use crate::vt::attrs::Attrs;
use crate::vt::cell::{CellModel, Half};
use crate::vt::meaning::one;
use crate::vt::screen::ScreenModel;

verus! {

impl<T> CellModel<T> {
    /// Whether a cell is empty: without text and image, whole, with some attributes.
    pub open spec fn emptied(self, attrs: Attrs) -> bool {
        self.text.len() == 0 && self.half == Half::Whole && self.attrs == attrs && self.data is None
    }
}

impl<T> ScreenModel<T> {
    /// A cell that is drawn on.
    pub open spec fn at(self, row: int, col: int) -> CellModel<T> {
        self.active().rows[row].cells[col]
    }

    /// Whether a place is before the cursor, row by row.
    pub open spec fn before_cursor(self, row: int, col: int) -> bool {
        row < self.active().pos.row || (row == self.active().pos.row && col < self.active().pos.col)
    }

    /// Whether a place is on the screen.
    pub open spec fn has(self, row: int, col: int) -> bool {
        0 <= row < self.active().size.rows && 0 <= col < self.active().size.cols
    }
}

/// `CSI J` empties the cell under the cursor and all behind it, row by row; what is before the cursor
/// stays, but for a wide character that the cursor cuts. The cursor stays, too.
pub proof fn below_is_erased<T>(s: ScreenModel<T>, row: int, col: int)
    requires
        s.wf(),
        s.has(row, col),
    ensures
        ({
            let t = s.after_csi(one(0), 'J');
            let cut = s.active().pos.col < s.active().size.cols && s.at(
                s.active().pos.row as int,
                s.active().pos.col as int,
            ).cont() && row == s.active().pos.row && col + 1 == s.active().pos.col;
            &&& t.only_redrawn(s)
            &&& !s.before_cursor(row, col) ==> t.at(row, col).emptied(s.attrs)
            &&& s.before_cursor(row, col) && !cut ==> t.at(row, col) == s.at(row, col)
            &&& cut ==> t.at(row, col).emptied(s.at(row, col).attrs)
        }),
{
    let g = s.active();
    assert(g.rows[row].wf(g.size.cols as int));
    assert(g.rows[g.pos.row as int].wf(g.size.cols as int));
}

/// `CSI 1 J` empties the cell under the cursor and all before it, row by row; what is behind it
/// stays, but for a wide character that the cursor cuts.
pub proof fn above_is_erased<T>(s: ScreenModel<T>, row: int, col: int)
    requires
        s.wf(),
        s.has(row, col),
    ensures
        ({
            let g = s.active();
            let t = s.after_csi(one(1), 'J');
            let under = row == g.pos.row && (col == g.pos.col || (g.pos.col >= g.size.cols && col + 1
                == g.size.cols));
            let cut = row == g.pos.row && col == g.pos.col + 1 && s.at(row, col - 1).wide();
            &&& t.only_redrawn(s)
            &&& s.before_cursor(row, col) || under ==> t.at(row, col).emptied(s.attrs)
            &&& !s.before_cursor(row, col) && !under && !cut ==> t.at(row, col) == s.at(row, col)
            &&& cut ==> t.at(row, col).emptied(s.at(row, col).attrs)
        }),
{
    let g = s.active();
    assert(g.rows[row].wf(g.size.cols as int));
    assert(g.rows[g.pos.row as int].wf(g.size.cols as int));
}

/// `CSI 2 J` empties every cell. The cursor stays where it is.
pub proof fn all_is_erased<T>(s: ScreenModel<T>, row: int, col: int)
    requires
        s.wf(),
        s.has(row, col),
    ensures
        s.after_csi(one(2), 'J').only_redrawn(s),
        s.after_csi(one(2), 'J').at(row, col).emptied(s.attrs),
{
    assert(s.active().rows[row].wf(s.active().size.cols as int));
}

/// `CSI K`, `CSI 1 K` and `CSI 2 K` do in the cursor's row what `J` does with those numbers, and
/// nothing in the others.
pub proof fn the_row_is_erased<T>(s: ScreenModel<T>, row: int, col: int)
    requires
        s.wf(),
        s.has(row, col),
    ensures
        forall|k: u16|
            k <= 2 ==> {
                let t = #[trigger] s.after_csi(one(k), 'K');
                &&& t.only_redrawn(s)
                &&& row == s.active().pos.row ==> t.at(row, col) == s.after_csi(one(k), 'J').at(
                    row,
                    col,
                )
                &&& row != s.active().pos.row ==> t.active().rows[row] == s.active().rows[row]
            },
{
    assert(s.active().rows[row].wf(s.active().size.cols as int));
    assert forall|k: u16| k <= 2 implies {
        let t = #[trigger] s.after_csi(one(k), 'K');
        &&& t.only_redrawn(s)
        &&& row == s.active().pos.row ==> t.at(row, col) == s.after_csi(one(k), 'J').at(row, col)
        &&& row != s.active().pos.row ==> t.active().rows[row] == s.active().rows[row]
    } by {
        assert(one(k)[0] == seq![k]);
        assert(k == 0 || k == 1 || k == 2);
    }
}

/// With a question mark both do the same.
pub proof fn selective_erasing_erases_all<T>(s: ScreenModel<T>, k: u16)
    ensures
        s.after_marked('?', one(k), 'J') == s.after_csi(one(k), 'J'),
        s.after_marked('?', one(k), 'K') == s.after_csi(one(k), 'K'),
{
}

/// Other numbers erase nothing.
pub proof fn unknown_erasing_erases_nothing<T>(s: ScreenModel<T>, k: u16)
    requires
        k > 2,
    ensures
        s.after_csi(one(k), 'J') == s,
        s.after_csi(one(k), 'K') == s,
{
}

/// `CSI n X` empties `n` cells from the cursor on, as far as the row goes, and no others but the
/// other halves of wide characters that are cut. Nothing moves.
pub proof fn cells_are_erased<T>(s: ScreenModel<T>, n: u16, row: int, col: int)
    requires
        s.wf(),
        s.has(row, col),
        n >= 1,
    ensures
        ({
            let c = s.active().pos.col as int;
            let r = s.active().pos.row as int;
            let t = s.after_csi(one(n), 'X');
            let cut_left = c < s.active().size.cols && col + 1 == c && s.at(r, c).cont();
            let cut_right = col == c + n && s.at(r, col - 1).wide();
            &&& t.only_redrawn(s)
            &&& row != r ==> t.active().rows[row] == s.active().rows[row]
            &&& row == r && c <= col < c + n ==> t.at(row, col).emptied(s.attrs)
            &&& row == r && !(c <= col < c + n) && !cut_left && !cut_right ==> t.at(row, col)
                == s.at(row, col)
        }),
{
    let g = s.active();
    assert(g.rows[g.pos.row as int].wf(g.size.cols as int));
    let t = s.after_csi(one(n), 'X');
    assert(one(n)[0] == seq![n]);
    assert(t == s.on_grid(g.cells_erased(n as int, s.attrs)));
    let end = if g.pos.col + n < g.size.cols { g.pos.col + n } else { g.size.cols as int };
    let erased = g.current().erased(g.pos.col as int, end, s.attrs);
    assert(t.active().rows == g.rows.update(g.pos.row as int, erased));
}

} // verus!
