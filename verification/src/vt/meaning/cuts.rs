//! What becomes of a wide character of which one half goes.
use vstd::prelude::*;

use crate::vt::attrs::Attrs;
use crate::vt::cell::{display_width, Half};
use crate::vt::grid::{GridModel, Size};
use crate::vt::meaning::one;
use crate::vt::screen::ScreenModel;

verus! {

/// A narrow character over the right half of a wide one empties the left half. Over the left half it
/// leaves a space in place of the right. Both get the attributes in force.
pub proof fn narrow_over_wide<T>(s: ScreenModel<T>, c: char)
    requires
        s.wf(),
        !s.modes.insert,
        display_width(c) == Some(1usize),
        s.active().pos.col < s.active().size.cols,
    ensures
        ({
            let (row, col) = (s.active().pos.row as int, s.active().pos.col as int);
            let t = s.printed(c);
            &&& s.at(row, col).cont() ==> t.at(row, col - 1).emptied(s.attrs)
            &&& s.at(row, col).wide() ==> t.at(row, col + 1).text == seq![' '] && t.at(
                row,
                col + 1,
            ).attrs == s.attrs && t.at(row, col + 1).half == Half::Whole
        }),
{
    reveal(GridModel::printed);
    reveal(GridModel::placed_for);
    assert(s.active().current().wf(s.active().size.cols as int));
    assert(s.active().rows[s.active().pos.row as int].wf(s.active().size.cols as int));
}

/// A wide character empties what it leaves half of, on either side.
pub proof fn wide_over_wide<T>(s: ScreenModel<T>, c: char)
    requires
        s.wf(),
        !s.modes.insert,
        display_width(c) == Some(2usize),
        s.active().pos.col + 2 <= s.active().size.cols,
    ensures
        ({
            let (row, col) = (s.active().pos.row as int, s.active().pos.col as int);
            let t = s.printed(c);
            &&& s.at(row, col).cont() ==> t.at(row, col - 1).emptied(s.attrs)
            &&& s.at(row, col + 1).wide() ==> t.at(row, col + 2).emptied(s.attrs)
        }),
{
    reveal(GridModel::printed);
    reveal(GridModel::placed_for);
    assert(s.active().current().wf(s.active().size.cols as int));
    assert(s.active().rows[s.active().pos.row as int].wf(s.active().size.cols as int));
}

/// The cells that `CSI n @` puts in are plain. Put in between the halves of a wide character they
/// come behind its right half. What loses its right half over the edge is emptied.
pub proof fn cells_inserted_into_wide<T>(s: ScreenModel<T>, n: u16, j: int)
    requires
        s.wf(),
        n >= 1,
        0 <= j < s.active().size.cols,
        s.active().pos.col < s.active().size.cols,
    ensures
        ({
            let g = s.active();
            let (r, c) = (g.pos.row as int, g.pos.col as int);
            let t = s.after_csi(one(n), '@');
            let cuts = s.at(r, c).cont();
            let last = g.size.cols - 1;
            &&& !cuts && c <= j < c + n ==> t.at(r, j).emptied(Attrs::plain())
            &&& cuts && c < j < c + n ==> t.at(r, j).emptied(Attrs::plain())
            &&& cuts ==> t.at(r, c).half == Half::Right && t.at(r, c).text.len() == 0
            &&& cuts && j == c + n ==> t.at(r, j).text == s.at(r, c).text && t.at(r, j).half
                == Half::Whole
            &&& c + n <= last && s.at(r, last - n).wide() ==> t.at(r, last).emptied(
                s.at(r, last - n).attrs,
            )
            &&& !t.line(r).wrapped
        }),
{
    assert(one(n)[0] == seq![n]);
    let g = s.active();
    let t = s.after_csi(one(n), '@');
    assert(t == s.on_grid(g.cells_inserted(n as int)));
    assert(g.rows[g.pos.row as int].wf(g.size.cols as int));
}

/// The cells that come in at the end for `CSI n P` are plain. A wide character of which it takes one
/// half is emptied, and keeps its attributes.
pub proof fn cells_deleted_out_of_wide<T>(s: ScreenModel<T>, n: u16, j: int)
    requires
        s.wf(),
        n >= 1,
        0 <= j < s.active().size.cols,
        s.active().pos.col < s.active().size.cols,
    ensures
        ({
            let g = s.active();
            let (r, c) = (g.pos.row as int, g.pos.col as int);
            let t = s.after_csi(one(n), 'P');
            &&& c <= j && j + n >= g.size.cols ==> t.at(r, j).emptied(Attrs::plain())
            &&& s.at(r, c).cont() ==> t.at(r, c - 1).emptied(s.at(r, c - 1).attrs)
            &&& c + n < g.size.cols && s.at(r, c + n).cont() ==> t.at(r, c).emptied(
                s.at(r, c + n).attrs,
            )
            &&& !t.line(r).wrapped
        }),
{
    assert(one(n)[0] == seq![n]);
    let g = s.active();
    let t = s.after_csi(one(n), 'P');
    assert(t == s.on_grid(g.cells_deleted(n as int)));
    let row = g.rows[g.pos.row as int];
    assert(row.wf(g.size.cols as int));
    let c = g.pos.col as int;
    if c + n < g.size.cols && row.cells[c + n].cont() {
        assert(row.cells[c + n - 1].wide());
    }
}

/// A wide character that a narrower screen cuts is emptied, and keeps its attributes.
pub proof fn narrower_screens_cut<T>(s: ScreenModel<T>, rows: u16, cols: u16, i: int)
    requires
        s.wf(),
        s.active().allocated(),
        rows > 0,
        0 < cols < s.active().size.cols,
        0 <= i < s.active().size.rows,
        i < rows,
        s.at(i, cols - 1).wide(),
    ensures
        s.resized(Size { rows, cols }).at(i, cols - 1).emptied(s.at(i, cols - 1).attrs),
{
}

} // verus!
