//! How rows and cells move.
use vstd::prelude::*;

use crate::vt::grid::GridModel;
use crate::vt::meaning::{one, two};
use crate::vt::row::RowModel;
use crate::vt::screen::ScreenModel;

verus! {

impl<T> RowModel<T> {
    /// Whether no cell of a row holds text.
    pub open spec fn is_empty_row(self) -> bool {
        forall|i: int| 0 <= i < self.cells.len() ==> (#[trigger] self.cells[i]).text.len() == 0
    }
}

impl<T> ScreenModel<T> {
    /// A row that is drawn on.
    pub open spec fn line(self, i: int) -> RowModel<T> {
        self.active().rows[i]
    }

    /// Whether a screen is another but for rows, scrollback and view of the grid in use.
    pub open spec fn only_scrolled(self, before: ScreenModel<T>) -> bool {
        let g = self.active();
        let scrolled = GridModel {
            rows: g.rows,
            scrollback: g.scrollback,
            scrollback_offset: g.scrollback_offset,
            ..before.active()
        };
        &&& g.rows.len() == before.active().rows.len()
        &&& self == if before.modes.alternate_screen {
            ScreenModel { alternate_grid: scrolled, ..before }
        } else {
            ScreenModel { grid: scrolled, ..before }
        }
    }
}

/// `CSI n S` moves the rows of the scroll region up by `n`: what was in row `i + n` is in row `i`, and
/// empty rows come in below. Other rows and the cursor stay.
pub proof fn scrolled_up<T>(s: ScreenModel<T>, n: u16, i: int)
    requires
        s.wf(),
        n >= 1,
        0 <= i < s.active().size.rows,
    ensures
        ({
            let g = s.active();
            let t = s.after_csi(one(n), 'S');
            let inside = g.scroll_top <= i <= g.scroll_bottom;
            &&& t.only_scrolled(s)
            &&& !inside ==> t.line(i) == s.line(i)
            &&& inside && i + n <= g.scroll_bottom ==> t.line(i) == s.line(i + n)
            &&& inside && i + n > g.scroll_bottom ==> t.line(i).is_empty_row()
        }),
{
    assert(one(n)[0] == seq![n]);
}

/// `CSI n T` moves the rows of the scroll region down by `n`: what was in row `i` is in row `i + n`,
/// and empty rows come in above. Other rows and the cursor stay.
pub proof fn scrolled_down<T>(s: ScreenModel<T>, n: u16, i: int)
    requires
        s.wf(),
        n >= 1,
        0 <= i < s.active().size.rows,
    ensures
        ({
            let g = s.active();
            let t = s.after_csi(one(n), 'T');
            let inside = g.scroll_top <= i <= g.scroll_bottom;
            &&& t.only_redrawn(s)
            &&& !inside ==> t.line(i) == s.line(i)
            &&& inside && i - n >= g.scroll_top ==> t.line(i).cells == s.line(i - n).cells
            &&& inside && i - n < g.scroll_top ==> t.line(i).is_empty_row()
        }),
{
    assert(one(n)[0] == seq![n]);
}

/// `CSI n L` puts `n` empty rows in at the cursor's; the rest of the scroll region moves down, what
/// is above the cursor or outside the region stays. Outside the region nothing happens.
pub proof fn lines_inserted<T>(s: ScreenModel<T>, n: u16, i: int)
    requires
        s.wf(),
        n >= 1,
        0 <= i < s.active().size.rows,
    ensures
        ({
            let g = s.active();
            let r = g.pos.row as int;
            let t = s.after_csi(one(n), 'L');
            let inside = g.scroll_top <= r <= g.scroll_bottom;
            &&& t.only_redrawn(s)
            &&& !inside || i < r || i > g.scroll_bottom ==> t.line(i) == s.line(i)
            &&& inside && r <= i < r + n && i <= g.scroll_bottom ==> t.line(i).is_empty_row()
            &&& inside && r + n <= i <= g.scroll_bottom ==> t.line(i).cells == s.line(i - n).cells
        }),
{
    assert(one(n)[0] == seq![n]);
}

/// `CSI n M` takes `n` rows out at the cursor's; the rest of the scroll region moves up, and empty
/// rows come in at its end. Outside the region nothing happens.
pub proof fn lines_deleted<T>(s: ScreenModel<T>, n: u16, i: int)
    requires
        s.wf(),
        n >= 1,
        0 <= i < s.active().size.rows,
    ensures
        ({
            let g = s.active();
            let r = g.pos.row as int;
            let t = s.after_csi(one(n), 'M');
            let inside = g.scroll_top <= r <= g.scroll_bottom;
            &&& t.only_redrawn(s)
            &&& !inside || i < r || i > g.scroll_bottom ==> t.line(i) == s.line(i)
            &&& inside && r <= i && i + n <= g.scroll_bottom ==> t.line(i) == s.line(i + n)
            &&& inside && r <= i <= g.scroll_bottom && i + n > g.scroll_bottom
                ==> t.line(i).is_empty_row()
        }),
{
    assert(one(n)[0] == seq![n]);
}

/// LF, VT and FF take the cursor one row down, in its column. At the end of the scroll region, where
/// it cannot go further, the rows of the region move up by one instead; at the end of the screen
/// outside the region nothing happens.
pub proof fn line_feeds<T>(s: ScreenModel<T>, b: u8)
    requires
        s.wf(),
        10 <= b <= 12,
    ensures
        s.executed(b) is Some,
        ({
            let g = s.active();
            let t = s.executed(b)->Some_0;
            &&& t.active().pos.col == g.pos.col
            &&& g.pos.row != g.scroll_bottom && g.pos.row + 1 < g.size.rows ==> t.only_moved(s)
                && t.active().pos.row == g.pos.row + 1
            &&& g.pos.row != g.scroll_bottom && g.pos.row + 1 == g.size.rows ==> t == s
            &&& g.pos.row == g.scroll_bottom ==> t == s.after_csi(one(1), 'S')
        }),
{
    let g = s.active();
    assert(one(1)[0] == seq![1u16]);
    let m = g.row_moved_down(1);
    if g.pos.row != g.scroll_bottom {
        assert(g.overrun(1) == 0);
        assert(m.rows_up(m.scroll_top as int, m.scroll_bottom as int, 0) =~= m.rows);
    } else {
        assert(m == g);
    }
}

/// `ESC M` takes the cursor one row up. At the start of the scroll region, or of the screen, the rows
/// of the region move down by one instead.
pub proof fn reverse_line_feed<T>(s: ScreenModel<T>)
    requires
        s.wf(),
    ensures
        s.escaped(None, None, 'M' as u8) is Some,
        ({
            let g = s.active();
            let t = s.escaped(None, None, 'M' as u8)->Some_0;
            let stuck = g.pos.row == 0 || g.pos.row == g.scroll_top;
            &&& !stuck ==> t.only_moved(s) && t.active().pos.row == g.pos.row - 1
                && t.active().pos.col == g.pos.col
            &&& stuck ==> t == s.after_csi(one(1), 'T')
        }),
{
    assert(one(1)[0] == seq![1u16]);
}

/// What leaves the top of the screen is kept, oldest first, as far as there is room, unless a scroll
/// region is set.
pub proof fn scrolled_rows_are_kept<T>(s: ScreenModel<T>, n: u16)
    requires
        s.wf(),
        1 <= n <= s.active().size.rows,
    ensures
        ({
            let g = s.active();
            let t = s.after_csi(one(n), 'S').active();
            let whole = g.scroll_top == 0 && g.scroll_bottom + 1 == g.size.rows;
            &&& !whole ==> t.scrollback == g.scrollback
            &&& whole && g.scrollback.len() + n <= g.scrollback_len ==> t.scrollback == g.scrollback
                + g.rows.take(n as int)
            &&& t.scrollback.len() <= g.scrollback_len
            &&& whole && g.scrollback_len > 0 ==> t.scrollback.last() == g.rows[n - 1]
        }),
{
    assert(one(n)[0] == seq![n]);
    let g = s.active();
    let all = g.scrollback + g.rows.take(n as int);
    assert(all.last() == g.rows[n - 1]);
}

/// `CSI n @` puts `n` empty cells in at the cursor; what stood there moves to the right, and over the
/// edge. Cells before the cursor and other rows stay. Stated where no wide character is cut.
pub proof fn cells_inserted<T>(s: ScreenModel<T>, n: u16, i: int, j: int)
    requires
        s.wf(),
        n >= 1,
        0 <= i < s.active().size.rows,
        0 <= j < s.active().size.cols,
    ensures
        ({
            let g = s.active();
            let (r, c) = (g.pos.row as int, g.pos.col as int);
            let t = s.after_csi(one(n), '@');
            let cuts = c < g.size.cols && s.at(r, c).cont();
            &&& t.only_redrawn(s)
            &&& i != r ==> t.line(i) == s.line(i)
            &&& i == r && j < c ==> t.at(i, j) == s.at(i, j)
            &&& i == r && !cuts && c <= j < c + n ==> t.at(i, j).text.len() == 0
            &&& i == r && !cuts && c + n <= j && j + 1 < g.size.cols ==> t.at(i, j) == s.at(i, j - n)
        }),
{
    assert(one(n)[0] == seq![n]);
    let g = s.active();
    let t = s.after_csi(one(n), '@');
    assert(t == s.on_grid(g.cells_inserted(n as int)));
    assert(g.rows[g.pos.row as int].wf(g.size.cols as int));
}

/// `CSI n P` takes `n` cells out at the cursor; the rest of the row moves to the left, and empty cells
/// come in at its end. Stated where no wide character is cut.
pub proof fn cells_deleted<T>(s: ScreenModel<T>, n: u16, i: int, j: int)
    requires
        s.wf(),
        n >= 1,
        0 <= i < s.active().size.rows,
        0 <= j < s.active().size.cols,
    ensures
        ({
            let g = s.active();
            let (r, c) = (g.pos.row as int, g.pos.col as int);
            let t = s.after_csi(one(n), 'P');
            let cuts = (c < g.size.cols && s.at(r, c).cont()) || (c + n < g.size.cols && s.at(
                r,
                c + n,
            ).cont());
            &&& t.only_redrawn(s)
            &&& i != r ==> t.line(i) == s.line(i)
            &&& i == r && !cuts && j < c ==> t.at(i, j) == s.at(i, j)
            &&& i == r && !cuts && c <= j && j + n < g.size.cols ==> t.at(i, j) == s.at(i, j + n)
            &&& i == r && c <= j && j + n >= g.size.cols ==> t.at(i, j).text.len() == 0
        }),
{
    assert(one(n)[0] == seq![n]);
    let g = s.active();
    let t = s.after_csi(one(n), 'P');
    assert(t == s.on_grid(g.cells_deleted(n as int)));
    let row = g.rows[g.pos.row as int];
    assert(row.wf(g.size.cols as int));
    let c = g.pos.col as int;
    if c + n < g.size.cols && row.cells[c + n - 1].wide() {
        assert(row.cells[c + n].cont());
    }
}

/// `CSI t;b r` makes the rows `t` to `b`, counted from one, the scroll region, and takes the cursor
/// to its first place. One row or none stands for the whole screen.
pub proof fn regions<T>(s: ScreenModel<T>, t: u16, b: u16)
    requires
        s.wf(),
        t >= 1,
        b >= 1,
    ensures
        ({
            let g = s.active();
            let a = s.after_csi(two(t, b), 'r');
            let end: int = if b < g.size.rows { b as int } else { g.size.rows as int };
            &&& a.active().rows == g.rows && a.attrs == s.attrs && a.modes == s.modes
            &&& t < end ==> a.active().scroll_top + 1 == t && a.active().scroll_bottom + 1 == end
            &&& t >= end ==> a.active().scroll_top == 0 && a.active().scroll_bottom + 1
                == g.size.rows
            &&& a.active().pos.row == a.active().scroll_top && a.active().pos.col == 0
        }),
{
    let ps = two(t, b);
    assert(ps[0] == seq![t] && ps[1] == seq![b]);
}

/// Without numbers the region is the whole screen.
pub proof fn no_region<T>(s: ScreenModel<T>)
    requires
        s.wf(),
    ensures
        ({
            let a = s.after_csi(Seq::empty(), 'r').active();
            a.scroll_top == 0 && a.scroll_bottom + 1 == a.size.rows && a.rows == s.active().rows
        }),
{
}

} // verus!
