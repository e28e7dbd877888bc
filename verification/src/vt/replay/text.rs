//! What text does on a terminal that draws in the ordinary way.
use vstd::prelude::*;
use vstd::utf8::encode_utf8;

use crate::vt::attrs::Attrs;
use crate::vt::cell::{columns, display_width, CellModel, Half, CELL_TEXT_LIMIT};
use crate::vt::format::span;
use crate::vt::grid::GridModel;
use crate::vt::replay::token::{draws, drawing_goes_on, token_draws, Token};
use crate::vt::row::{least_two, rows_stay_whole, RowModel};
use crate::vt::screen::ScreenModel;

verus! {

/// Whether the characters behind the first combine with it, and there is room for them.
pub open spec fn combines(text: Seq<char>) -> bool {
    forall|k: int|
        1 <= k < text.len() ==> display_width(#[trigger] text[k]) == Some(0usize) && encode_utf8(
            text.take(k),
        ).len() < CELL_TEXT_LIMIT
}

impl<T> CellModel<T> {
    /// Whether a cell holds what text leaves in a cell: a character as wide as the cell, with
    /// others that combine with it, or nothing.
    pub open spec fn legible(self) -> bool {
        match self.half {
            Half::Right => self.text.len() == 0 && self.attrs == Attrs::plain(),
            Half::Left => self.text.len() > 0 && columns(self.text[0]) >= 2 && display_width(
                self.text[0],
            ) is Some && combines(self.text),
            Half::Whole => self.text.len() == 0 || (display_width(self.text[0]) == Some(1usize)
                && combines(self.text)),
        }
    }

    /// Whether a cell holds a character that is no more than `room` columns wide, or nothing.
    pub open spec fn fits(self, room: int) -> bool {
        self.text.len() > 0 ==> columns(self.text[0]) <= room
    }

    /// This cell with the text and the width of another.
    pub open spec fn rewritten(cell: CellModel<T>, text: Seq<char>, attrs: Attrs) -> CellModel<T> {
        CellModel { text, half: cell.half, attrs, data: None }
    }
}

impl<T> RowModel<T> {
    /// The row with the text of a cell drawn at a column.
    pub open spec fn put(
        self,
        at: int,
        cell: CellModel<T>,
        text: Seq<char>,
        attrs: Attrs,
    ) -> RowModel<T> {
        self.drawn(at, cell.text[0], span(cell), attrs).with_cell(
            at,
            CellModel::rewritten(cell, text, attrs),
        )
    }
}

impl<T> GridModel<T> {
    /// The grid with the text of a cell drawn at the cursor, which is behind it then.
    pub open spec fn put(self, cell: CellModel<T>, text: Seq<char>, attrs: Attrs) -> GridModel<T> {
        self.with_current(self.current().put(self.pos.col as int, cell, text, attrs)).at(
            self.pos.row as int,
            self.pos.col + span(cell),
        )
    }

    /// The cursor at the start of the next row, which the row it leaves runs on into or not.
    pub open spec fn at_next_row(self, wrapped: bool) -> GridModel<T> {
        self.with_row(self.pos.row as int, self.current().with_wrap(wrapped)).at(
            self.pos.row + 1,
            0,
        )
    }
}

proof fn utf8_append(s: Seq<char>, c: char)
    ensures
        encode_utf8(s.push(c)) == encode_utf8(s) + encode_utf8(seq![c]),
    decreases s.len(),
{
    reveal_with_fuel(encode_utf8, 2);
    if s.len() == 0 {
        assert(s.push(c) =~= seq![c]);
        assert(encode_utf8(s) + encode_utf8(seq![c]) =~= encode_utf8(seq![c]));
    } else {
        utf8_append(s.drop_first(), c);
        assert(s.push(c).drop_first() =~= s.drop_first().push(c));
        assert(encode_utf8(s) + encode_utf8(seq![c]) =~= vstd::utf8::encode_scalar(s[0] as u32) + (
        encode_utf8(s.drop_first()) + encode_utf8(seq![c])));
    }
}

/// Where a character goes that has room in the row.
pub(crate) proof fn stays_in_row<T>(g: GridModel<T>, width: int)
    requires
        g.drawable(),
        g.pos.col <= g.size.cols - width,
    ensures
        g.placed_for(width, true) == g,
{
    reveal(GridModel::placed_for);
}

/// Where a character goes that has no room in the row.
pub(crate) proof fn goes_to_next_row<T>(g: GridModel<T>, width: int) -> (wrapped: bool)
    requires
        g.drawable(),
        g.pos.col > g.size.cols - width,
        g.pos.row + 1 < g.size.rows,
    ensures
        g.placed_for(width, true) == g.at_next_row(wrapped),
        wrapped == g.ends_full(),
        g.at_next_row(wrapped).drawable(),
{
    reveal(GridModel::placed_for);
    let wrap = g.pos.col > g.size.cols - width && g.ends_full();
    assert(g.overrun(1) == 0);
    let m = g.at(g.pos.row as int, 0).row_moved_down(1);
    assert(g.at(g.pos.row as int, 0).overrun(1) == 0);
    assert(m.rows_up(0, m.scroll_bottom as int, 0) =~= m.rows);
    assert(m.scrolled_up(0) == m);
    let next = g.at(g.pos.row as int, 0).line_fed(1);
    assert(next == g.at(g.pos.row + 1, 0));
    let left = g.pos.row as int;
    assert(next.with_row(left, next.rows[left].with_wrap(wrap && left + 1 == next.pos.row))
        == g.at_next_row(wrap));
    assert forall|i: int| 0 <= i < g.rows.len() implies (#[trigger] g.at_next_row(
        wrap,
    ).rows[i]).wf(g.size.cols as int) by {
        assert(g.rows[i].wf(g.size.cols as int));
    }
    wrap
}

/// Where the text of a cell goes.
spec fn placed<T>(g: GridModel<T>, cell: CellModel<T>) -> GridModel<T> {
    g.placed_for(columns(cell.text[0]), true)
}

proof fn first_draws<T>(u: ScreenModel<T>, cell: CellModel<T>) -> (v: ScreenModel<T>)
    requires
        u.ready(),
        cell.legible(),
        cell.text.len() > 0,
        cell.fits(u.active().size.cols as int),
        placed(u.active(), cell).drawable(),
        placed(u.active(), cell).pos.col + span(cell) <= u.active().size.cols,
        placed(u.active(), cell).size == u.active().size,
    ensures
        draws(u, encode_utf8(cell.text.take(1)), v),
        v.active() == placed(u.active(), cell).put(cell, cell.text.take(1), u.attrs),
        v.attrs == u.attrs,
        v.setting() == u.setting(),
{
    reveal(GridModel::printed);
    let c = cell.text[0];
    token_draws(u, Token::Print(c));
    assert(cell.text.take(1) =~= seq![c]);
    let p = placed(u.active(), cell);
    let w = columns(c);
    assert(display_width(c) == Some(w as usize));
    let v = u.printed(c);
    let g = u.active().printed(c, w, u.attrs, true, false);
    assert(v.active() == g);
    assert(g == p.drawn(c, w, u.attrs));
    let at = p.pos.col as int;
    assert(p.rows[p.pos.row as int].wf(p.size.cols as int));
    assert(p.current().drawn(at, c, w, u.attrs).cells =~= p.current().put(
        at,
        cell,
        seq![c],
        u.attrs,
    ).cells);
    v
}

proof fn next_draws<T>(
    u: ScreenModel<T>,
    p: GridModel<T>,
    cell: CellModel<T>,
    k: int,
    attrs: Attrs,
) -> (v: ScreenModel<T>)
    requires
        p.drawable(),
        cell.legible(),
        1 <= k < cell.text.len(),
        p.pos.col + span(cell) <= p.size.cols,
        u.active() == p.put(cell, cell.text.take(k), attrs),
        u.attrs == attrs,
        !u.modes.no_autowrap,
        !u.modes.insert,
    ensures
        draws(u, encode_utf8(seq![cell.text[k]]), v),
        v.active() == p.put(cell, cell.text.take(k + 1), attrs),
        v.attrs == u.attrs,
        v.setting() == u.setting(),
{
    reveal(GridModel::printed);
    reveal(GridModel::placed_for);
    let c = cell.text[k];
    token_draws(u, Token::Print(c));
    let v = u.printed(c);
    let g = u.active();
    assert(display_width(c) == Some(0usize));
    assert(v.active() == g.combined_before(c));
    let at = p.pos.col as int;
    let row = p.pos.row as int;
    let r = g.rows[row];
    assert(r == p.current().put(at, cell, cell.text.take(k), attrs));
    let last = g.pos.col - 1;
    assert(r.cells[at] == CellModel::rewritten(cell, cell.text.take(k), attrs));
    if span(cell) == 2 {
        assert(r.cells[last].cont());
    } else {
        assert(last == at);
        assert(!r.cells[last].cont());
    }
    assert(cell.text.take(k).push(c) =~= cell.text.take(k + 1));
    assert(encode_utf8(cell.text.take(k)).len() < CELL_TEXT_LIMIT);
    assert(r.cells[at].combined(c) == CellModel::rewritten(cell, cell.text.take(k + 1), attrs));
    assert(r.with_cell(at, r.cells[at].combined(c)).cells =~= p.current().put(
        at,
        cell,
        cell.text.take(k + 1),
        attrs,
    ).cells);
    assert(v.active().rows =~= p.put(cell, cell.text.take(k + 1), attrs).rows);
    v
}

proof fn some_draw<T>(u: ScreenModel<T>, cell: CellModel<T>, k: int) -> (v: ScreenModel<T>)
    requires
        u.ready(),
        cell.legible(),
        1 <= k <= cell.text.len(),
        cell.fits(u.active().size.cols as int),
        placed(u.active(), cell).drawable(),
        placed(u.active(), cell).pos.col + span(cell) <= u.active().size.cols,
        placed(u.active(), cell).size == u.active().size,
    ensures
        draws(u, encode_utf8(cell.text.take(k)), v),
        v.active() == placed(u.active(), cell).put(cell, cell.text.take(k), u.attrs),
        v.attrs == u.attrs,
        v.setting() == u.setting(),
    decreases k,
{
    if k == 1 {
        first_draws(u, cell)
    } else {
        let w = some_draw(u, cell, k - 1);
        let v = next_draws(w, placed(u.active(), cell), cell, k - 1, u.attrs);
        utf8_append(cell.text.take(k - 1), cell.text[k - 1]);
        assert(cell.text.take(k - 1).push(cell.text[k - 1]) =~= cell.text.take(k));
        drawing_goes_on(
            u,
            encode_utf8(cell.text.take(k - 1)),
            w,
            encode_utf8(seq![cell.text[k - 1]]),
            v,
        );
        v
    }
}

/// A row that text was drawn on is still whole.
pub(crate) proof fn put_stays_whole<T>(row: RowModel<T>, cols: int, at: int, cell: CellModel<T>, attrs: Attrs)
    requires
        row.wf(cols),
        cell.legible(),
        cell.text.len() > 0,
        0 <= at,
        at + span(cell) <= cols,
    ensures
        row.put(at, cell, cell.text, attrs).wf(cols),
{
    rows_stay_whole(row, cols);
    let c = cell.text[0];
    let d = row.drawn(at, c, span(cell), attrs);
    assert(least_two(columns(c)) == span(cell));
    assert(d.cells =~= row.drawn(at, c, columns(c), attrs).cells);
    assert(d == row.drawn(at, c, columns(c), attrs));
    assert(d.wf(cols));
    let p = row.put(at, cell, cell.text, attrs);
    assert forall|i: int| 0 <= i < cols implies #[trigger] p.cells[i].half == d.cells[i].half by {}
    assert forall|i: int| 0 <= i < cols && (#[trigger] p.cells[i].wide()) implies i + 1 < cols
        && p.cells[i + 1].cont() by {
        assert(p.cells[i].half == d.cells[i].half);
        assert(d.cells[i].wide());
        assert(d.cells[i + 1].cont());
        assert(p.cells[i + 1].half == d.cells[i + 1].half);
    }
    assert forall|i: int| 0 <= i < cols && (#[trigger] p.cells[i].cont()) implies 0 < i
        && p.cells[i - 1].wide() by {
        assert(p.cells[i].half == d.cells[i].half);
        assert(d.cells[i].cont());
        assert(d.cells[i - 1].wide());
        assert(p.cells[i - 1].half == d.cells[i - 1].half);
    }
}

/// The text of a cell, where it has room in the row.
pub(crate) proof fn cell_draws<T>(u: ScreenModel<T>, cell: CellModel<T>) -> (v: ScreenModel<T>)
    requires
        u.ready(),
        cell.legible(),
        cell.text.len() > 0,
        cell.fits(u.active().size.cols - u.active().pos.col),
    ensures
        draws(u, encode_utf8(cell.text), v),
        v.active() == u.active().put(cell, cell.text, u.attrs),
        v.attrs == u.attrs,
        v.setting() == u.setting(),
        v.ready(),
{
    stays_in_row(u.active(), columns(cell.text[0]));
    let v = some_draw(u, cell, cell.text.len() as int);
    assert(cell.text.take(cell.text.len() as int) =~= cell.text);
    let g = u.active();
    put_stays_whole(g.current(), g.size.cols as int, g.pos.col as int, cell, u.attrs);
    v
}

/// The text of a cell, where it has no room in the row and goes to the next.
pub(crate) proof fn cell_wraps<T>(u: ScreenModel<T>, cell: CellModel<T>) -> (r: (ScreenModel<T>, bool))
    requires
        u.ready(),
        cell.legible(),
        cell.text.len() > 0,
        cell.fits(u.active().size.cols as int),
        u.active().pos.col > u.active().size.cols - span(cell),
        u.active().pos.row + 1 < u.active().size.rows,
    ensures
        draws(u, encode_utf8(cell.text), r.0),
        r.0.active() == u.active().at_next_row(r.1).put(cell, cell.text, u.attrs),
        r.0.attrs == u.attrs,
        r.0.setting() == u.setting(),
        r.0.ready(),
        r.1 == u.active().ends_full(),
{
    let wrapped = goes_to_next_row(u.active(), columns(cell.text[0]));
    let v = some_draw(u, cell, cell.text.len() as int);
    assert(cell.text.take(cell.text.len() as int) =~= cell.text);
    let g = u.active().at_next_row(wrapped);
    put_stays_whole(g.current(), g.size.cols as int, 0, cell, u.attrs);
    (v, wrapped)
}

} // verus!
