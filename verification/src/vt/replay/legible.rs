//! Whatever is drawn on a screen leaves what text leaves in cells.
use vstd::prelude::*;
use vstd::utf8::encode_utf8;

use crate::vt::attrs::Attrs;
use crate::vt::cell::{columns, display_width};
use crate::vt::dispatch::Op;
use crate::vt::grid::{last_n, least, GridModel, Size};
use crate::vt::replay::sweep::space_is_a_byte;
use crate::vt::row::{least_two, RowModel};
use crate::vt::screen::{ModeKind, ScreenModel};

verus! {

impl<T> GridModel<T> {
    /// Whether all rows, also those that scrolled out, hold what text leaves in rows.
    pub open spec fn tidy(self) -> bool {
        &&& forall|i: int| 0 <= i < self.rows.len() ==> (#[trigger] self.rows[i]).legible()
        &&& forall|i: int|
            0 <= i < self.scrollback.len() ==> (#[trigger] self.scrollback[i]).legible()
    }
}

impl<T> ScreenModel<T> {
    /// Whether both grids hold what text leaves in them.
    pub open spec fn tidy(self) -> bool {
        self.grid.tidy() && self.alternate_grid.tidy()
    }
}

// Rows.

proof fn cleared_is_legible<T>(row: RowModel<T>, attrs: Attrs)
    ensures
        row.cleared(attrs).legible(),
{
}

proof fn erased_is_legible<T>(row: RowModel<T>, lo: int, hi: int, attrs: Attrs)
    requires
        row.legible(),
        0 <= lo,
        hi <= row.cells.len(),
    ensures
        row.erased(lo, hi, attrs).legible(),
{
    let n = row.erased(lo, hi, attrs);
    if lo < hi {
        assert forall|i: int| 0 <= i < n.cells.len() implies (#[trigger] n.cells[i]).legible() by {
            assert(row.cells[i].legible());
        }
        if n.wrapped {
            assert(n.cells.last() == row.cells.last());
        }
    }
}

proof fn inserted_is_legible<T>(row: RowModel<T>, at: int, count: int)
    requires
        row.legible(),
        0 <= at <= row.cells.len(),
        count >= 0,
    ensures
        row.inserted(at, count).legible(),
{
    let n = row.inserted(at, count);
    assert forall|i: int| 0 <= i < n.cells.len() implies (#[trigger] n.cells[i]).legible() by {
        if i < at {
            assert(row.cells[i].legible());
        } else if i >= at + count {
            assert(row.cells[i - count].legible());
        }
    }
}

proof fn deleted_is_legible<T>(row: RowModel<T>, at: int, count: int)
    requires
        row.legible(),
        0 <= at,
        count >= 0,
        at + count <= row.cells.len(),
    ensures
        row.deleted(at, count).legible(),
{
    let n = row.deleted(at, count);
    assert forall|i: int| 0 <= i < n.cells.len() implies (#[trigger] n.cells[i]).legible() by {
        if i < at {
            assert(row.cells[i].legible());
        } else if i + count < row.cells.len() {
            assert(row.cells[i + count].legible());
        }
    }
}

proof fn resized_is_legible<T>(row: RowModel<T>, cols: int)
    requires
        row.legible(),
        cols > 0,
    ensures
        row.resized(cols).legible(),
{
    let n = row.resized(cols);
    assert forall|i: int| 0 <= i < n.cells.len() implies (#[trigger] n.cells[i]).legible() by {
        if i < row.cells.len() {
            assert(row.cells[i].legible());
        }
    }
}

proof fn drawn_is_legible<T>(row: RowModel<T>, at: int, c: char, width: int, attrs: Attrs)
    requires
        row.legible(),
        row.wf(row.cells.len() as int),
        0 <= at,
        width >= 1,
        at + least_two(width) <= row.cells.len(),
        display_width(c) is Some,
        display_width(c)->Some_0 == width,
    ensures
        row.drawn(at, c, width, attrs).legible(),
{
    let n = row.drawn(at, c, width, attrs);
    let len = row.cells.len();
    assert forall|i: int| 0 <= i < n.cells.len() implies (#[trigger] n.cells[i]).legible() by {
        assert(row.cells[i].legible());
    }
    if n.wrapped {
        let last = n.cells.last();
        assert(last == n.cells[len - 1]);
        assert(row.cells.last() == row.cells[len - 1]);
        if at == len - 1 {
        } else if at + 1 == len - 1 {
        } else if at + 2 == len - 1 {
        }
    }
}

proof fn combined_is_legible<T>(row: RowModel<T>, at: int, c: char)
    requires
        row.legible(),
        0 <= at < row.cells.len(),
        !row.cells[at].cont(),
        display_width(c) == Some(0usize),
    ensures
        row.with_cell(at, row.cells[at].combined(c)).legible(),
{
    let cell = row.cells[at];
    let n = cell.combined(c);
    assert(cell.legible());
    if encode_utf8(cell.text).len() >= crate::vt::cell::CELL_TEXT_LIMIT {
    } else if cell.text.len() == 0 {
        space_is_a_byte();
        assert(n.text =~= seq![' ', c]);
        assert(n.text.take(1) =~= seq![' ']);
        assert(n.legible());
    } else {
        assert(n.text == cell.text.push(c));
        assert(n.text[0] == cell.text[0]);
        assert forall|k: int| 1 <= k < n.text.len() implies display_width(#[trigger] n.text[k])
            == Some(0usize) && encode_utf8(n.text.take(k)).len()
            < crate::vt::cell::CELL_TEXT_LIMIT by {
            if k < cell.text.len() {
                assert(display_width(cell.text[k]) == Some(0usize));
                assert(n.text.take(k) =~= cell.text.take(k));
            } else {
                assert(n.text.take(k) =~= cell.text);
            }
        }
        assert(n.legible());
    }
    let r = row.with_cell(at, n);
    assert forall|i: int| 0 <= i < r.cells.len() implies (#[trigger] r.cells[i]).legible() by {
        assert(row.cells[i].legible());
    }
    assert(row.cells.last() == row.cells[row.cells.len() - 1]);
}

// Grids.

proof fn row_is_tidy<T>(g: GridModel<T>, i: int, row: RowModel<T>)
    requires
        g.tidy(),
        row.legible(),
        0 <= i < g.rows.len(),
    ensures
        g.with_row(i, row).tidy(),
{
    let n = g.with_row(i, row);
    assert forall|j: int| 0 <= j < n.rows.len() implies (#[trigger] n.rows[j]).legible() by {
        assert(g.rows[j].legible());
    }
}

proof fn scrolled_up_is_tidy<T>(g: GridModel<T>, n: int)
    requires
        g.wf(),
        g.allocated(),
        g.tidy(),
        n >= 0,
    ensures
        g.scrolled_up(n).tidy(),
{
    let r = g.scrolled_up(n);
    let lines = least(n, g.size.rows - g.scroll_top);
    assert forall|i: int| 0 <= i < r.rows.len() implies (#[trigger] r.rows[i]).legible() by {
        assert(g.rows[i].legible());
        if g.scroll_top <= i <= g.scroll_bottom && i + lines <= g.scroll_bottom {
            assert(g.rows[i + lines].legible());
        }
    }
    let all = g.scrollback + g.rows.take(lines);
    assert forall|i: int| 0 <= i < all.len() implies (#[trigger] all[i]).legible() by {
        if i < g.scrollback.len() {
            assert(g.scrollback[i].legible());
        } else {
            assert(g.rows[i - g.scrollback.len()].legible());
        }
    }
    assert forall|i: int| 0 <= i < r.scrollback.len() implies (
    #[trigger] r.scrollback[i]).legible() by {
        if g.scrollback_len > 0 && !g.region_active() && lines > 0 {
            let kept = last_n(all, g.scrollback_len as int);
            assert(r.scrollback == kept);
            if all.len() > g.scrollback_len {
                assert(kept[i] == all[i + (all.len() - g.scrollback_len)]);
            }
        }
    }
}

proof fn rows_down_are_legible<T>(g: GridModel<T>, top: int, n: int)
    requires
        g.wf(),
        g.allocated(),
        g.tidy(),
        0 <= top,
    ensures
        ({
            let rows = g.rows_down(top, g.scroll_bottom as int, n);
            forall|i: int| 0 <= i < rows.len() ==> (#[trigger] rows[i]).legible()
        }),
{
    let rows = g.rows_down(top, g.scroll_bottom as int, n);
    assert forall|i: int| 0 <= i < rows.len() implies (#[trigger] rows[i]).legible() by {
        assert(g.rows[i].legible());
        if n > 0 && top <= i <= g.scroll_bottom && i - n >= top {
            assert(g.rows[i - n].legible());
        }
    }
}

proof fn rows_up_are_legible<T>(g: GridModel<T>, top: int, n: int)
    requires
        g.wf(),
        g.allocated(),
        g.tidy(),
        0 <= top,
        n >= 0,
    ensures
        ({
            let rows = g.rows_up(top, g.scroll_bottom as int, n);
            forall|i: int| 0 <= i < rows.len() ==> (#[trigger] rows[i]).legible()
        }),
{
    let rows = g.rows_up(top, g.scroll_bottom as int, n);
    assert forall|i: int| 0 <= i < rows.len() implies (#[trigger] rows[i]).legible() by {
        assert(g.rows[i].legible());
        if top <= i <= g.scroll_bottom && i + n <= g.scroll_bottom {
            assert(g.rows[i + n].legible());
        }
    }
}

proof fn line_fed_is_tidy<T>(g: GridModel<T>)
    requires
        g.wf(),
        g.allocated(),
        g.tidy(),
    ensures
        g.line_fed(1).tidy(),
{
    let m = g.row_moved_down(1);
    assert(m.tidy());
    assert(m.wf());
    scrolled_up_is_tidy(m, g.overrun(1));
}

proof fn placed_is_tidy<T>(g: GridModel<T>, width: int, autowrap: bool)
    requires
        g.wf(),
        g.allocated(),
        g.tidy(),
        0 <= width <= g.size.cols,
    ensures
        g.placed_for(width, autowrap).tidy(),
{
    reveal(GridModel::placed_for);
    let margin = g.size.cols - width;
    if autowrap && g.pos.col > margin {
        let wrap = g.ends_full();
        let home = g.at(g.pos.row as int, 0);
        let next = home.line_fed(1);
        let scrolled = g.overrun(1);
        assert(home.overrun(1) == scrolled);
        assert(home.wf());
        line_fed_is_tidy(home);
        let left = g.pos.row - scrolled;
        if scrolled > 0 && left < g.scroll_top {
        } else {
            let lines = least(scrolled, g.size.rows - g.scroll_top);
            let m = home.row_moved_down(1);
            assert(next.rows == m.rows_up(g.scroll_top as int, g.scroll_bottom as int, lines));
            assert(next.rows[left] == g.rows[g.pos.row as int]);
            let row = next.rows[left];
            assert(g.rows[g.pos.row as int].wf(g.size.cols as int));
            assert(row.legible()) by {
                assert(g.rows[g.pos.row as int].legible());
            }
            assert(row.cells.last() == row.cells[g.size.cols - 1]);
            assert(row.with_wrap(wrap && left + 1 == next.pos.row).legible());
            row_is_tidy(next, left, row.with_wrap(wrap && left + 1 == next.pos.row));
        }
    }
}

proof fn placed_is_whole<T>(g: GridModel<T>, width: int, autowrap: bool)
    requires
        g.wf(),
        g.allocated(),
        0 <= width <= g.size.cols,
    ensures
        ({
            let p = g.placed_for(width, autowrap);
            &&& p.size == g.size
            &&& p.rows.len() == g.rows.len()
            &&& p.pos.row < g.size.rows
            &&& width >= 1 ==> p.pos.col <= g.size.cols - width
            &&& p.pos.col <= g.size.cols
            &&& forall|i: int|
                0 <= i < p.rows.len() ==> (#[trigger] p.rows[i]).wf(g.size.cols as int)
        }),
{
    reveal(GridModel::placed_for);
    let margin = g.size.cols - width;
    let p = g.placed_for(width, autowrap);
    if autowrap && g.pos.col > margin {
        let home = g.at(g.pos.row as int, 0);
        let next = home.line_fed(1);
        assert forall|i: int| 0 <= i < next.rows.len() implies (#[trigger] next.rows[i]).wf(
            g.size.cols as int,
        ) by {
            let lines = least(home.overrun(1), g.size.rows - g.scroll_top);
            RowModel::<T>::fresh_is_whole(g.size.cols as int);
            assert(g.rows[i].wf(g.size.cols as int));
            if g.scroll_top <= i <= g.scroll_bottom && i + lines <= g.scroll_bottom {
                assert(g.rows[i + lines].wf(g.size.cols as int));
            }
        }
        assert forall|i: int| 0 <= i < p.rows.len() implies (#[trigger] p.rows[i]).wf(
            g.size.cols as int,
        ) by {
            assert(next.rows[i].wf(g.size.cols as int));
            assert(p.rows[i].cells == next.rows[i].cells);
        }
    }
}

proof fn drawn_is_tidy<T>(p: GridModel<T>, c: char, width: int, attrs: Attrs)
    requires
        p.tidy(),
        p.pos.row < p.rows.len(),
        p.rows[p.pos.row as int].wf(p.size.cols as int),
        width >= 1,
        p.pos.col <= p.size.cols - width,
        display_width(c) is Some,
        display_width(c)->Some_0 == width,
    ensures
        p.drawn(c, width, attrs).tidy(),
{
    let row = p.current();
    assert(row.legible());
    drawn_is_legible(row, p.pos.col as int, c, width, attrs);
    row_is_tidy(p, p.pos.row as int, row.drawn(p.pos.col as int, c, width, attrs));
}

proof fn combined_at_is_tidy<T>(p: GridModel<T>, row: int, col: int, c: char)
    requires
        p.tidy(),
        0 <= row < p.rows.len(),
        p.rows[row].wf(p.size.cols as int),
        0 <= col < p.size.cols,
        display_width(c) == Some(0usize),
    ensures
        p.combined_at(row, col, c).tidy(),
{
    let r = p.rows[row];
    assert(r.legible());
    let at = if r.cells[col].cont() {
        col - 1
    } else {
        col
    };
    if r.cells[col].cont() {
        assert(r.cells[col - 1].wide());
    }
    combined_is_legible(r, at, c);
    row_is_tidy(p, row, r.with_cell(at, r.cells[at].combined(c)));
}

proof fn combined_before_is_tidy<T>(p: GridModel<T>, c: char)
    requires
        p.tidy(),
        p.size.cols > 0,
        p.pos.row < p.rows.len(),
        p.pos.col <= p.size.cols,
        forall|i: int| 0 <= i < p.rows.len() ==> (#[trigger] p.rows[i]).wf(p.size.cols as int),
        display_width(c) == Some(0usize),
    ensures
        p.combined_before(c).tidy(),
{
    if p.pos.col > 0 {
        combined_at_is_tidy(p, p.pos.row as int, p.pos.col - 1, c);
    } else if p.pos.row > 0 && p.rows[p.pos.row - 1].wrapped {
        combined_at_is_tidy(p, p.pos.row - 1, p.size.cols - 1, c);
    }
}

proof fn inserted_grid_is_tidy<T>(g: GridModel<T>, count: int)
    requires
        g.tidy(),
        g.pos.row < g.rows.len(),
        g.rows[g.pos.row as int].wf(g.size.cols as int),
        g.pos.col <= g.size.cols,
        g.size.cols > 0,
        count >= 0,
    ensures
        g.cells_inserted(count).tidy(),
        g.cells_inserted(count).rows[g.pos.row as int].wf(g.size.cols as int),
{
    let row = g.current();
    assert(row.legible());
    inserted_is_legible(row, g.pos.col as int, count);
    crate::vt::row::rows_stay_whole(row, g.size.cols as int);
    row_is_tidy(g, g.pos.row as int, row.inserted(g.pos.col as int, count));
}

proof fn printed_grid_is_tidy<T>(
    g: GridModel<T>,
    c: char,
    width: int,
    attrs: Attrs,
    autowrap: bool,
    insert: bool,
)
    requires
        g.wf(),
        g.allocated(),
        g.tidy(),
        display_width(c) is Some,
        display_width(c)->Some_0 == width,
        width <= g.size.cols,
    ensures
        g.printed(c, width, attrs, autowrap, insert).tidy(),
{
    reveal(GridModel::printed);
    placed_is_tidy(g, width, autowrap);
    placed_is_whole(g, width, autowrap);
    let p = g.placed_for(width, autowrap);
    if width == 0 {
        combined_before_is_tidy(p, c);
    } else if insert {
        assert(p.rows[p.pos.row as int].wf(p.size.cols as int));
        inserted_grid_is_tidy(p, width);
        drawn_is_tidy(p.cells_inserted(width), c, width, attrs);
    } else {
        assert(p.rows[p.pos.row as int].wf(p.size.cols as int));
        drawn_is_tidy(p, c, width, attrs);
    }
}

proof fn erased_row_is_tidy<T>(g: GridModel<T>, lo: int, hi: int, attrs: Attrs)
    requires
        g.wf(),
        g.allocated(),
        g.tidy(),
        0 <= lo,
        hi <= g.size.cols,
    ensures
        g.with_current(g.current().erased(lo, hi, attrs)).tidy(),
{
    let row = g.current();
    assert(g.rows[g.pos.row as int].wf(g.size.cols as int));
    assert(row.legible());
    erased_is_legible(row, lo, hi, attrs);
    row_is_tidy(g, g.pos.row as int, row.erased(lo, hi, attrs));
}

proof fn erased_display_is_tidy<T>(g: GridModel<T>, attrs: Attrs)
    requires
        g.wf(),
        g.allocated(),
        g.tidy(),
    ensures
        g.cleared_forward(attrs).tidy(),
        g.cleared_backward(attrs).tidy(),
        g.all_cleared(attrs).tidy(),
        g.row_cleared_forward(attrs).tidy(),
        g.row_cleared_backward(attrs).tidy(),
        g.with_current(g.current().cleared(attrs)).tidy(),
{
    let cols = g.size.cols as int;
    let row = g.current();
    assert(g.rows[g.pos.row as int].wf(cols));
    assert(row.legible());
    let b = least(g.pos.col + 1, cols);
    erased_is_legible(row, g.pos.col as int, cols, attrs);
    erased_is_legible(row, 0, b, attrs);
    row_is_tidy(g, g.pos.row as int, row.erased(g.pos.col as int, cols, attrs));
    row_is_tidy(g, g.pos.row as int, row.erased(0, b, attrs));
    cleared_is_legible(row, attrs);
    row_is_tidy(g, g.pos.row as int, row.cleared(attrs));
    let f = g.cleared_forward(attrs);
    assert forall|i: int| 0 <= i < f.rows.len() implies (#[trigger] f.rows[i]).legible() by {
        assert(g.rows[i].legible());
        cleared_is_legible(g.rows[i], attrs);
    }
    let h = g.cleared_backward(attrs);
    assert forall|i: int| 0 <= i < h.rows.len() implies (#[trigger] h.rows[i]).legible() by {
        assert(g.rows[i].legible());
        cleared_is_legible(g.rows[i], attrs);
    }
    let a = g.all_cleared(attrs);
    assert forall|i: int| 0 <= i < a.rows.len() implies (#[trigger] a.rows[i]).legible() by {
        cleared_is_legible(g.rows[i], attrs);
    }
}

proof fn moved_lines_are_tidy<T>(g: GridModel<T>, n: int)
    requires
        g.wf(),
        g.allocated(),
        g.tidy(),
        n >= 0,
    ensures
        g.lines_inserted(n).tidy(),
        g.lines_deleted(n).tidy(),
        g.scrolled_up(n).tidy(),
        g.scrolled_down(n).tidy(),
        g.reverse_line_fed().tidy(),
{
    rows_down_are_legible(g, g.pos.row as int, n);
    rows_up_are_legible(g, g.pos.row as int, n);
    scrolled_up_is_tidy(g, n);
    rows_down_are_legible(g, g.scroll_top as int, n);
    let m = g.row_moved_up(1);
    assert(m.wf());
    assert(m.tidy());
    rows_down_are_legible(m, g.scroll_top as int, 1);
    rows_down_are_legible(m, g.scroll_top as int, 0);
}

proof fn deleted_grid_is_tidy<T>(g: GridModel<T>, count: int)
    requires
        g.wf(),
        g.allocated(),
        g.tidy(),
        count >= 0,
    ensures
        g.cells_deleted(count).tidy(),
{
    let row = g.current();
    assert(g.rows[g.pos.row as int].wf(g.size.cols as int));
    assert(row.legible());
    let n = least(count, g.size.cols - g.pos.col);
    deleted_is_legible(row, g.pos.col as int, n);
    row_is_tidy(g, g.pos.row as int, row.deleted(g.pos.col as int, n));
}

proof fn resized_grid_is_tidy<T>(g: GridModel<T>, size: Size)
    requires
        g.tidy(),
        size.cols > 0,
    ensures
        g.resized(size).tidy(),
{
    let n = g.resized(size);
    assert forall|i: int| 0 <= i < n.rows.len() implies (#[trigger] n.rows[i]).legible() by {
        if i < g.rows.len() {
            assert(g.rows[i].legible());
            resized_is_legible(g.rows[i], size.cols as int);
        }
    }
}

proof fn reset_grid_is_tidy<T>(g: GridModel<T>)
    requires
        g.tidy(),
    ensures
        g.reset().tidy(),
        g.with_rows().tidy(),
        g.reset().with_rows().tidy(),
{
    let n = g.reset();
    assert forall|i: int| 0 <= i < n.rows.len() implies (#[trigger] n.rows[i]).legible() by {
        cleared_is_legible(g.rows[i], Attrs::plain());
    }
}

proof fn line_fed_is_wf<T>(g: GridModel<T>)
    requires
        g.wf(),
        g.allocated(),
    ensures
        g.line_fed(1).wf(),
        g.line_fed(1).allocated(),
        g.line_fed(1).size == g.size,
        g.line_fed(1).pos.col == g.pos.col,
{
    let m = g.row_moved_down(1);
    let n = g.overrun(1);
    let r = m.scrolled_up(n);
    let cols = g.size.cols as int;
    let lines = least(n, g.size.rows - g.scroll_top);
    assert forall|i: int| 0 <= i < r.rows.len() implies (#[trigger] r.rows[i]).wf(cols) by {
        RowModel::<T>::fresh_is_whole(cols);
        assert(g.rows[i].wf(cols));
        if g.scroll_top <= i <= g.scroll_bottom && i + lines <= g.scroll_bottom {
            assert(g.rows[i + lines].wf(cols));
        }
    }
    let all = g.scrollback + g.rows.take(lines);
    assert forall|i: int| 0 <= i < all.len() implies 0 < (#[trigger] all[i]).cells.len() <= u16::MAX
        && all[i].wf(all[i].cells.len() as int) by {
        if i < g.scrollback.len() {
            assert(g.scrollback[i].wf(g.scrollback[i].cells.len() as int));
        } else {
            assert(g.rows[i - g.scrollback.len()].wf(cols));
        }
    }
    if g.scrollback_len > 0 && !m.region_active() && lines > 0 {
        let kept = last_n(all, g.scrollback_len as int);
        assert(r.scrollback == kept);
        assert forall|i: int| 0 <= i < kept.len() implies 0 < (#[trigger] kept[i]).cells.len()
            <= u16::MAX && kept[i].wf(kept[i].cells.len() as int) by {
            if all.len() > g.scrollback_len {
                assert(kept[i] == all[i + (all.len() - g.scrollback_len)]);
            }
        }
    }
}

proof fn replaced_is_wf<T>(g: GridModel<T>, i: int, row: RowModel<T>)
    requires
        g.wf(),
        g.allocated(),
        0 <= i < g.rows.len(),
        row.wf(g.size.cols as int),
    ensures
        g.with_row(i, row).wf(),
        g.with_row(i, row).allocated(),
{
    let n = g.with_row(i, row);
    assert forall|j: int| 0 <= j < n.rows.len() implies (#[trigger] n.rows[j]).wf(
        g.size.cols as int,
    ) by {
        assert(g.rows[j].wf(g.size.cols as int));
    }
}

proof fn placed_is_wf<T>(g: GridModel<T>, width: int, autowrap: bool)
    requires
        g.wf(),
        g.allocated(),
        0 <= width <= g.size.cols,
    ensures
        g.placed_for(width, autowrap).wf(),
        g.placed_for(width, autowrap).allocated(),
{
    reveal(GridModel::placed_for);
    let margin = g.size.cols - width;
    if autowrap && g.pos.col > margin {
        let home = g.at(g.pos.row as int, 0);
        assert(home.wf());
        line_fed_is_wf(home);
        let next = home.line_fed(1);
        let left = g.pos.row - g.overrun(1);
        let wrap = g.ends_full();
        if !(g.overrun(1) > 0 && left < g.scroll_top) {
            let row = next.rows[left].with_wrap(wrap && left + 1 == next.pos.row);
            assert(next.rows[left].wf(g.size.cols as int));
            assert(row.cells == next.rows[left].cells);
            crate::vt::row::rows_stay_whole(next.rows[left], g.size.cols as int);
            replaced_is_wf(next, left, row);
        }
    }
}

proof fn printed_grid_is_wf<T>(
    g: GridModel<T>,
    c: char,
    width: int,
    attrs: Attrs,
    autowrap: bool,
    insert: bool,
)
    requires
        g.wf(),
        g.allocated(),
        display_width(c) is Some,
        display_width(c)->Some_0 == width,
        width <= g.size.cols,
    ensures
        g.printed(c, width, attrs, autowrap, insert).wf(),
        g.printed(c, width, attrs, autowrap, insert).allocated(),
        g.printed(c, width, attrs, autowrap, insert).size == g.size,
{
    reveal(GridModel::printed);
    placed_is_wf(g, width, autowrap);
    placed_is_whole(g, width, autowrap);
    let p = g.placed_for(width, autowrap);
    let cols = g.size.cols as int;
    if width == 0 {
        combined_before_is_wf(p, c);
    } else {
        let row = p.current();
        assert(p.rows[p.pos.row as int].wf(cols));
        crate::vt::row::rows_stay_whole(row, cols);
        let q = if insert {
            replaced_is_wf(p, p.pos.row as int, row.inserted(p.pos.col as int, width));
            p.cells_inserted(width)
        } else {
            p
        };
        let r = q.current();
        assert(q.rows[q.pos.row as int].wf(cols));
        crate::vt::row::rows_stay_whole(r, cols);
        assert(columns(c) == width);
        replaced_is_wf(q, q.pos.row as int, r.drawn(q.pos.col as int, c, width, attrs));
    }
}

proof fn combined_before_is_wf<T>(p: GridModel<T>, c: char)
    requires
        p.wf(),
        p.allocated(),
    ensures
        p.combined_before(c).wf(),
        p.combined_before(c).allocated(),
        p.combined_before(c).size == p.size,
{
    let cols = p.size.cols as int;
    if p.pos.col > 0 {
        combined_at_is_wf(p, p.pos.row as int, p.pos.col - 1, c);
    } else if p.pos.row > 0 && p.rows[p.pos.row - 1].wrapped {
        combined_at_is_wf(p, p.pos.row - 1, cols - 1, c);
    }
}

proof fn combined_at_is_wf<T>(p: GridModel<T>, row: int, col: int, c: char)
    requires
        p.wf(),
        p.allocated(),
        0 <= row < p.rows.len(),
        0 <= col < p.size.cols,
    ensures
        p.combined_at(row, col, c).wf(),
        p.combined_at(row, col, c).allocated(),
        p.combined_at(row, col, c).size == p.size,
{
    let r = p.rows[row];
    assert(r.wf(p.size.cols as int));
    let at = if r.cells[col].cont() {
        col - 1
    } else {
        col
    };
    if r.cells[col].cont() {
        assert(r.cells[col - 1].wide());
    }
    crate::vt::row::rows_stay_whole(r, p.size.cols as int);
    replaced_is_wf(p, row, r.with_cell(at, r.cells[at].combined(c)));
}

// Screens.

proof fn grid_is_tidy<T>(s: ScreenModel<T>, g: GridModel<T>)
    requires
        s.tidy(),
        g.tidy(),
    ensures
        s.on_grid(g).tidy(),
{
}

proof fn grid_is_wf<T>(s: ScreenModel<T>, g: GridModel<T>)
    requires
        s.wf(),
        g.wf(),
        g.allocated(),
        g.size == s.active().size,
    ensures
        s.on_grid(g).wf(),
{
}

proof fn print_is_tidy<T>(s: ScreenModel<T>, c: char)
    requires
        s.wf(),
        s.tidy(),
    ensures
        s.printed(c).tidy(),
        s.printed(c).wf(),
{
    match display_width(c) {
        None => {},
        Some(width) => {
            let g = s.active();
            let seen = ScreenModel { last_graphic_char: Some(c), ..s };
            assert(seen.active() == g);
            assert(seen.wf());
            assert(seen.tidy());
            if width <= g.size.cols {
                let autowrap = !s.modes.no_autowrap;
                let insert = s.modes.insert;
                printed_grid_is_tidy(g, c, width as int, s.attrs, autowrap, insert);
                printed_grid_is_wf(g, c, width as int, s.attrs, autowrap, insert);
                let n = g.printed(c, width as int, s.attrs, autowrap, insert);
                grid_is_tidy(seen, n);
                grid_is_wf(seen, n);
            }
        },
    }
}

proof fn prints_are_tidy<T>(s: ScreenModel<T>, c: char, n: nat)
    requires
        s.wf(),
        s.tidy(),
    ensures
        s.printed_times(c, n).tidy(),
        s.printed_times(c, n).wf(),
    decreases n,
{
    if n > 0 {
        prints_are_tidy(s, c, (n - 1) as nat);
        print_is_tidy(s.printed_times(c, (n - 1) as nat), c);
    }
}

proof fn tabs_are_tidy<T>(s: ScreenModel<T>, n: nat)
    requires
        s.tidy(),
    ensures
        s.tabbed_times(n).tidy(),
        s.back_tabbed_times(n).tidy(),
    decreases n,
{
    if n > 0 {
        tabs_are_tidy(s, (n - 1) as nat);
    }
}

proof fn grid_op_is_tidy<T>(s: ScreenModel<T>, op: Op)
    requires
        s.wf(),
        s.tidy(),
    ensures
        s.after_grid_op(op).tidy(),
{
    let g = s.active();
    match op {
        Op::InsertCells(n) => {
            assert(g.rows[g.pos.row as int].wf(g.size.cols as int));
            inserted_grid_is_tidy(g, n as int);
        },
        Op::InsertLines(n) => moved_lines_are_tidy(g, n as int),
        Op::DeleteLines(n) => moved_lines_are_tidy(g, n as int),
        Op::ScrollUp(n) => moved_lines_are_tidy(g, n as int),
        Op::ScrollDown(n) => moved_lines_are_tidy(g, n as int),
        Op::DeleteCells(n) => deleted_grid_is_tidy(g, n as int),
        Op::EraseCells(n) => erased_row_is_tidy(
            g,
            g.pos.col as int,
            least(g.pos.col + n, g.size.cols as int),
            s.attrs,
        ),
        _ => {},
    }
}

proof fn mode_is_tidy<T>(s: ScreenModel<T>, kind: ModeKind, p: Seq<u16>)
    requires
        s.tidy(),
    ensures
        s.mode_step(kind, p) is Some ==> (s.mode_step(kind, p)->Some_0).tidy(),
{
    if p.len() == 1 && (kind == ModeKind::DecSet || kind == ModeKind::DecReset) {
        let saved = s.saved();
        assert(saved.tidy());
        reset_grid_is_tidy(saved.alternate_grid);
        reset_grid_is_tidy(s.alternate_grid);
        let c = ScreenModel { alternate_grid: saved.alternate_grid.reset(), ..saved };
        assert(c.tidy());
        let left = c.on_grid(c.active().viewing(0));
        assert(left.tidy());
        reset_grid_is_tidy(left.alternate_grid);
        let plain_left = s.on_grid(s.active().viewing(0));
        assert(plain_left.tidy());
        reset_grid_is_tidy(plain_left.alternate_grid);
    }
}

proof fn modes_are_tidy<T>(s: ScreenModel<T>, kind: ModeKind, ps: Seq<Seq<u16>>)
    requires
        s.tidy(),
    ensures
        s.mode_steps(kind, ps).0.tidy(),
    decreases ps.len(),
{
    if ps.len() > 0 {
        modes_are_tidy(s, kind, ps.drop_last());
        mode_is_tidy(s.mode_steps(kind, ps.drop_last()).0, kind, ps.last());
    }
}

/// A screen as it is switched on holds what text leaves in cells: nothing.
pub proof fn fresh_screens_are_legible<T>(size: Size, scrollback_len: usize)
    ensures
        ScreenModel::<T>::fresh(size, scrollback_len).tidy(),
{
}

/// Characters leave what text leaves in cells.
pub proof fn characters_leave_legible_screens<T>(s: ScreenModel<T>, c: char)
    requires
        s.wf(),
        s.tidy(),
    ensures
        s.printed(c).tidy(),
{
    print_is_tidy(s, c);
}

/// Control characters leave what text leaves in cells.
pub proof fn control_leaves_legible_screens<T>(s: ScreenModel<T>, b: u8)
    requires
        s.wf(),
        s.tidy(),
        s.executed(b) is Some,
    ensures
        (s.executed(b)->Some_0).tidy(),
{
    let g = s.active();
    if 10 <= b <= 12 {
        line_fed_is_tidy(g);
    }
}

/// Control functions leave what text leaves in cells.
pub proof fn functions_leave_legible_screens<T>(s: ScreenModel<T>, op: Op, ps: Seq<Seq<u16>>)
    requires
        s.wf(),
        s.tidy(),
    ensures
        s.performed(op, ps).0.tidy(),
{
    let g = s.active();
    match op {
        Op::EraseDisplay(_) => erased_display_is_tidy(g, s.attrs),
        Op::EraseLine(_) => erased_display_is_tidy(g, s.attrs),
        Op::Repeat(n) => {
            if s.last_graphic_char is Some {
                prints_are_tidy(s, s.last_graphic_char->Some_0, n as nat);
            }
        },
        Op::Tabs(n) => tabs_are_tidy(s, n as nat),
        Op::BackTabs(n) => tabs_are_tidy(s, n as nat),
        Op::Mode(kind) => modes_are_tidy(s, kind, ps),
        Op::Nothing | Op::Unknown | Op::ClearTabs(_) | Op::SoftReset | Op::CursorStyle(_)
        | Op::PushTitle | Op::PopTitle | Op::Attributes => {},
        _ => grid_op_is_tidy(s, op),
    }
}

/// Escape sequences leave what text leaves in cells.
pub proof fn escapes_leave_legible_screens<T>(
    s: ScreenModel<T>,
    i1: Option<u8>,
    i2: Option<u8>,
    b: u8,
)
    requires
        s.wf(),
        s.tidy(),
        s.escaped(i1, i2, b) is Some,
    ensures
        (s.escaped(i1, i2, b)->Some_0).tidy(),
{
    moved_lines_are_tidy(s.active(), 1);
    fresh_screens_are_legible::<T>(s.grid.size, s.grid.scrollback_len);
}

/// Commands draw nothing, so they leave what text leaves in cells.
pub proof fn commands_leave_legible_screens<T>(s: ScreenModel<T>, ps: Seq<Seq<u8>>)
    requires
        s.tidy(),
        s.commanded(ps) is Some,
    ensures
        (s.commanded(ps)->Some_0).tidy(),
{
}

/// Another size leaves what text leaves in cells.
pub proof fn sizes_leave_legible_screens<T>(s: ScreenModel<T>, size: Size)
    requires
        s.tidy(),
        size.cols > 0,
    ensures
        s.resized(size).tidy(),
{
    resized_grid_is_tidy(s.grid, size);
    resized_grid_is_tidy(s.alternate_grid, size);
}

/// Data that is stamped on cells leaves what text leaves in them.
pub proof fn stamps_leave_legible_grids<T>(g: GridModel<T>, vals: Seq<Seq<T>>)
    requires
        g.wf(),
        g.allocated(),
        g.tidy(),
    ensures
        g.stamped(vals).tidy(),
        g.stamped(vals).wf(),
        g.stamped(vals).allocated(),
    decreases vals.len(),
{
    if vals.len() > 0 {
        let above = g.stamped(vals.drop_last());
        stamps_leave_legible_grids(g, vals.drop_last());
        let line = if vals.len() == 1 {
            above
        } else {
            line_fed_is_tidy(above);
            line_fed_is_wf(above);
            above.line_fed(1)
        };
        let left = g.left_edge();
        let row = line.current();
        assert(line.rows[line.pos.row as int].wf(line.size.cols as int));
        assert(row.legible());
        let n = line.stamped_row(left, vals.last());
        let r = n.rows[line.pos.row as int];
        assert(r.cells.len() == row.cells.len());
        assert forall|i: int| 0 <= i < r.cells.len() implies (#[trigger] r.cells[i]).text
            == row.cells[i].text && r.cells[i].half == row.cells[i].half && r.cells[i].attrs
            == row.cells[i].attrs by {}
        assert(r.wf(line.size.cols as int)) by {
            assert forall|i: int| 0 <= i < r.cells.len() && (#[trigger] r.cells[i].wide()) implies i
                + 1 < r.cells.len() && r.cells[i + 1].cont() by {
                assert(row.cells[i].wide());
                assert(row.cells[i + 1].cont());
                assert(r.cells[i + 1].half == row.cells[i + 1].half);
            }
            assert forall|i: int| 0 <= i < r.cells.len() && (#[trigger] r.cells[i].cont()) implies 0
                < i && r.cells[i - 1].wide() by {
                assert(row.cells[i].cont());
                assert(row.cells[i - 1].wide());
                assert(r.cells[i - 1].half == row.cells[i - 1].half);
            }
        }
        assert(r.legible()) by {
            assert forall|i: int| 0 <= i < r.cells.len() implies (
            #[trigger] r.cells[i]).legible() by {
                assert(row.cells[i].legible());
            }
            assert(r.cells.last() == r.cells[r.cells.len() - 1]);
            assert(row.cells.last() == row.cells[row.cells.len() - 1]);
        }
        replaced_is_wf(line, line.pos.row as int, r);
        row_is_tidy(line, line.pos.row as int, r);
    }
}

/// What is in view of a screen that holds what text leaves in cells can be read.
pub proof fn tidy_grids_are_legible<T>(g: GridModel<T>)
    requires
        g.wf(),
        g.tidy(),
    ensures
        g.legible(),
{
    let shown = least(g.scrollback_offset as int, g.rows.len() as int);
    let first = g.scrollback.len() - g.scrollback_offset;
    assert forall|i: int| 0 <= i < g.visible().len() implies (#[trigger] g.visible()[i]).legible() by {
        if i < shown {
            assert(g.visible()[i] == g.scrollback[first + i]);
        } else {
            assert(g.visible()[i] == g.rows[i - shown]);
        }
    }
}

/// What is in view of a screen that is not scrolled back fits a terminal of its size, where no
/// character is more than two columns wide.
pub proof fn narrow_text_is_viewable<T>(g: GridModel<T>)
    requires
        g.wf(),
        g.tidy(),
        g.scrollback_offset == 0,
        forall|r: int, i: int|
            #![trigger g.rows[r].cells[i]]
            0 <= r < g.rows.len() && 0 <= i < g.size.cols ==> g.rows[r].cells[i].fits(2),
    ensures
        g.viewable(),
{
    let cols = g.size.cols as int;
    assert(g.visible() =~= g.rows);
    assert forall|r: int| 0 <= r < g.visible().len() implies (
    #[trigger] g.visible()[r]).cells.len() == cols && g.visible()[r].fits() by {
        let row = g.rows[r];
        assert(row.wf(cols));
        assert(row.legible());
        assert forall|i: int| 0 <= i < row.cells.len() implies (#[trigger] row.cells[i]).fits(
            row.cells.len() - i,
        ) by {
            assert(row.cells[i].legible());
            assert(g.rows[r].cells[i].fits(2));
            if row.cells[i].wide() {
                assert(row.cells[i + 1].cont());
            }
        }
    }
}

} // verus!
