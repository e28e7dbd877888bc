//! A row that is swept cell by cell shows what it should in the end.
use vstd::prelude::*;
use vstd::utf8::encode_utf8;

use crate::vt::attrs::Attrs;
use crate::vt::cell::{CellModel, Half};
use crate::vt::escape::{csi, erase_chars, move_from_to};
use crate::vt::format::{
    drawn_cell, finished, flushed, recolored, space_and_back, span, stepped, swept, to_blank,
    differs, Line, Pen,
};
use crate::vt::grid::{GridModel, Pos};
use crate::vt::replay::ground::{
    back_draws, clear_row_draws, erase_draws, move_draws, Setting,
};
use crate::vt::replay::style::style_draws;
use crate::vt::replay::text::{cell_draws, cell_wraps, put_stays_whole};
use crate::vt::replay::token::{draws, drawing_goes_on};
use crate::vt::row::{rows_stay_whole, RowModel};
use crate::vt::screen::ScreenModel;

verus! {

impl<T> CellModel<T> {
    /// Whether two cells show the same. Neither the data slot nor the hyperlink is seen.
    pub open spec fn shows(self, other: CellModel<T>) -> bool {
        self.text == other.text && self.half == other.half && self.attrs.same_look(other.attrs)
    }
}

/// A row that is being drawn: what it is to show, what it showed before, the other rows, and the
/// modes of the terminal.
pub struct Scene<T> {
    pub line: Line,
    pub row: RowModel<T>,
    pub was: Seq<CellModel<T>>,
    pub rest: Seq<RowModel<T>>,
    pub setting: Setting,
}

impl<T> Scene<T> {
    /// Both rows are whole and hold text that can be drawn in a terminal.
    pub open spec fn sound(self) -> bool {
        &&& self.line.cols > 0
        &&& self.line.row < self.rest.len()
        &&& self.row.wf(self.line.cols as int)
        &&& (RowModel { cells: self.was, wrapped: false }).wf(self.line.cols as int)
        &&& forall|i: int|
            0 <= i < self.line.cols ==> (#[trigger] self.row.cells[i]).legible()
                && self.row.cells[i].fits(self.line.cols - i)
        &&& forall|i: int| 0 <= i < self.line.cols ==> (#[trigger] self.was[i]).legible()
        &&& self.line.wrapping ==> self.above_is_full()
    }

    /// Whether the last column of the row above is filled.
    pub open spec fn above_is_full(self) -> bool {
        let above = self.rest[self.line.row - 1].cells;
        self.line.row > 0 && above.len() == self.line.cols && (above[self.line.cols - 1].text.len()
            > 0 || above[self.line.cols - 1].cont())
    }

    /// Whether drawing the row breaks the end of the one that was there.
    pub open spec fn breaks(self) -> bool {
        self.line.cols >= 2 && ends_broken(self.row.cells, self.was)
    }

    /// How drawing the row changes which rows run on: the others run on as before, but the row above
    /// may begin to where it should. The row itself does not begin to, and goes on where it should.
    pub open spec fn flows(self, u: ScreenModel<T>, v: ScreenModel<T>) -> bool {
        let a = u.active().rows;
        let b = v.active().rows;
        let r = self.line.row as int;
        &&& a.len() == b.len()
        &&& forall|i: int|
            0 <= i < a.len() && i != r && i + 1 != r ==> (#[trigger] b[i]).wrapped == a[i].wrapped
        &&& r > 0 && a[r - 1].wrapped ==> b[r - 1].wrapped
        &&& r > 0 && b[r - 1].wrapped ==> a[r - 1].wrapped || self.line.wrapping
        &&& b[r].wrapped ==> a[r].wrapped
        &&& self.row.legible() && self.row.wrapped && !self.breaks() && a[r].wrapped ==> b[r].wrapped
    }

    /// Whether the row above runs on.
    pub open spec fn ran(self, u: ScreenModel<T>) -> bool {
        self.line.row > 0 && u.active().rows[self.line.row - 1].wrapped
    }

    /// Whether the pen is behind the end of the row above, which is to run on.
    pub open spec fn waits(self, pen: Pen) -> bool {
        self.line.wrapping && pen.pos.row + 1 == self.line.row && pen.pos.col >= self.line.cols
    }

    /// Whether a cell of the terminal still shows what it did, or is to be drawn anyway.
    pub open spec fn open_at(self, cell: CellModel<T>, i: int) -> bool {
        cell.shows(self.was[i]) || (!self.row.cells[i].looks_like(self.was[i]) && cell.half
            == Half::Whole)
    }

    /// Whether cells show what they are to show before `done`, and the rest what they did or are in
    /// need of drawing.
    pub open spec fn marked(self, cells: Seq<CellModel<T>>, done: int) -> bool {
        &&& forall|i: int|
            0 <= i < done && i < self.line.cols ==> (#[trigger] cells[i]).shows(self.row.cells[i])
        &&& forall|i: int|
            0 <= i && done <= i < self.line.cols ==> self.open_at(#[trigger] cells[i], i)
    }

    /// Whether a terminal shows the columns before `done` as they are to be, and the rest as it was
    /// or in need of drawing.
    pub open spec fn drawn_to(self, g: GridModel<T>, done: int) -> bool {
        &&& g.size.cols == self.line.cols
        &&& g.size.rows == self.rest.len()
        &&& forall|i: int|
            0 <= i < g.size.rows && i != self.line.row ==> (#[trigger] g.rows[i]).cells
                == self.rest[i].cells
        &&& self.marked(g.rows[self.line.row as int].cells, done)
    }

    /// Whether a terminal is where the pen is, and shows the columns before `done`.
    pub open spec fn reached(self, u: ScreenModel<T>, pen: Pen, done: int) -> bool {
        &&& self.drawn_to(u.active(), done)
        &&& u.ready()
        &&& u.setting() == self.setting
        &&& u.active().pos == pen.pos
        &&& u.attrs.same_look(pen.attrs)
    }
}

/// Whether cells break the end of others: the others end in a wide character, and in its first
/// column there is no character any more. A terminal takes such a row to run on no longer.
pub open spec fn ends_broken<T>(new: Seq<CellModel<T>>, was: Seq<CellModel<T>>) -> bool {
    let n = was.len();
    n >= 2 && was[n - 2].wide() && new[n - 2].text.len() == 0
}

pub(crate) proof fn flows_on<T>(s: Scene<T>, u: ScreenModel<T>, x: ScreenModel<T>, v: ScreenModel<T>)
    requires
        s.flows(u, x),
        s.flows(x, v),
        s.line.row < u.active().rows.len(),
    ensures
        s.flows(u, v),
        s.ran(u) ==> s.ran(x),
        s.ran(x) ==> s.ran(v),
{
    let a = u.active().rows;
    let c = x.active().rows;
    let b = v.active().rows;
    let r = s.line.row as int;
    assert forall|i: int| 0 <= i < a.len() && i != r && i + 1 != r implies (#[trigger] b[i]).wrapped
        == a[i].wrapped by {
        assert(c[i].wrapped == a[i].wrapped);
    }
}

// Rows.

/// A row that text is drawn on runs on as before, where it is to and its end does not break.
proof fn put_runs_on<T>(s: Scene<T>, old_row: RowModel<T>, c: int, attrs: Attrs)
    requires
        s.sound(),
        old_row.wf(s.line.cols as int),
        s.marked(old_row.cells, c),
        0 <= c < s.line.cols,
        s.row.cells[c].text.len() > 0,
    ensures
        ({
            let n = old_row.put(c, s.row.cells[c], s.row.cells[c].text, attrs);
            &&& n.wrapped ==> old_row.wrapped
            &&& !s.breaks() && old_row.wrapped ==> n.wrapped
        }),
{
    let cell = s.row.cells[c];
    let cells = old_row.cells;
    let n = s.line.cols as int;
    if span(cell) > 1 && cells[c + 1].wide() && c + 2 == n - 1 {
        assert(s.row.cells[c + 1].cont());
        assert(s.row.cells[c + 1].legible());
        assert(s.open_at(cells[c + 1], c + 1));
        assert(s.was[n - 2].wide());
        assert(s.breaks());
    }
}

/// So does a row of which a run of cells is emptied.
proof fn erase_runs_on<T>(s: Scene<T>, old_row: RowModel<T>, from: int, to: int, attrs: Attrs)
    requires
        s.sound(),
        old_row.wf(s.line.cols as int),
        s.marked(old_row.cells, from),
        0 <= from < to <= s.line.cols,
        forall|i: int|
            from <= i < to ==> (#[trigger] s.row.cells[i]).text.len() == 0 && s.row.cells[i].half
                == Half::Whole,
    ensures
        ({
            let n = old_row.erased(from, to, attrs);
            &&& n.wrapped ==> old_row.wrapped
            &&& s.row.legible() && s.row.wrapped && !s.breaks() && old_row.wrapped ==> n.wrapped
        }),
{
    let cells = old_row.cells;
    let n = s.line.cols as int;
    if s.row.legible() && s.row.wrapped {
        assert(s.row.cells.last() == s.row.cells[n - 1]);
        if to == n {
            assert(s.row.cells[n - 1].text.len() == 0);
        }
        if to == n - 1 && cells[to - 1].wide() {
            assert(s.row.cells[n - 2].text.len() == 0);
            assert(s.open_at(cells[n - 2], n - 2));
            assert(s.breaks());
        }
    }
}

/// Text drawn at the first column that is still open shows there.
proof fn put_marks<T>(s: Scene<T>, old_row: RowModel<T>, c: int, attrs: Attrs)
    requires
        s.sound(),
        old_row.wf(s.line.cols as int),
        s.marked(old_row.cells, c),
        0 <= c < s.line.cols,
        s.row.cells[c].text.len() > 0,
        attrs.same_look(s.row.cells[c].attrs),
    ensures
        s.marked(
            old_row.put(c, s.row.cells[c], s.row.cells[c].text, attrs).cells,
            c + span(s.row.cells[c]),
        ),
{
    let cell = s.row.cells[c];
    let cells = old_row.cells;
    let n = old_row.put(c, cell, cell.text, attrs).cells;
    assert(s.row.cells[c].legible());
    if cell.wide() {
        assert(s.row.cells[c + 1].cont());
        assert(s.row.cells[c + 1].legible());
    }
    if cells[c].cont() {
        assert(cells[c - 1].wide());
        assert(cells[c - 1].shows(s.row.cells[c - 1]));
        assert(s.row.cells[c - 1].wide());
        assert(s.row.cells[c].cont());
    }
    assert forall|i: int| 0 <= i < c + span(cell) && i < s.line.cols implies (
    #[trigger] n[i]).shows(s.row.cells[i]) by {
        if i < c {
            assert(cells[i].shows(s.row.cells[i]));
        } else if i == c + 1 {
            assert(n[i].text =~= s.row.cells[i].text);
        }
    }
    assert forall|i: int| 0 <= i && c + span(cell) <= i < s.line.cols implies s.open_at(
        #[trigger] n[i],
        i,
    ) by {
        assert(s.open_at(cells[i], i));
        if i == c + 1 && cells[c].wide() {
            assert(s.open_at(cells[c], c));
            assert(s.was[c].wide());
            assert(s.was[c + 1].cont());
            if s.row.cells[c + 1].cont() {
                assert(s.row.cells[c].wide());
            }
        } else if i == c + 2 && span(cell) > 1 && cells[c + 1].wide() {
            assert(s.open_at(cells[c + 1], c + 1));
            assert(s.was[c + 1].wide());
            assert(s.was[c + 2].cont());
            if s.row.cells[c + 2].cont() {
                assert(s.row.cells[c + 1].wide());
            }
        }
    }
}

/// A run of cells that are to be empty, emptied at the first column that is still open, shows so.
proof fn erase_marks<T>(s: Scene<T>, old_row: RowModel<T>, from: int, to: int, attrs: Attrs)
    requires
        s.sound(),
        old_row.wf(s.line.cols as int),
        s.marked(old_row.cells, from),
        0 <= from < to <= s.line.cols,
        forall|i: int|
            from <= i < to ==> (#[trigger] s.row.cells[i]).text.len() == 0 && s.row.cells[i].half
                == Half::Whole && attrs.same_look(s.row.cells[i].attrs),
    ensures
        s.marked(old_row.erased(from, to, attrs).cells, to),
{
    let cells = old_row.cells;
    let n = old_row.erased(from, to, attrs).cells;
    assert(s.row.cells[from].half == Half::Whole);
    if cells[from].cont() {
        assert(cells[from - 1].wide());
        assert(cells[from - 1].shows(s.row.cells[from - 1]));
        assert(s.row.cells[from - 1].wide());
        assert(s.row.cells[from].cont());
    }
    assert forall|i: int| 0 <= i < to && i < s.line.cols implies (#[trigger] n[i]).shows(
        s.row.cells[i],
    ) by {
        if i < from {
            assert(cells[i].shows(s.row.cells[i]));
        } else {
            assert(s.row.cells[i].text.len() == 0);
            assert(n[i].text =~= s.row.cells[i].text);
        }
    }
    assert forall|i: int| 0 <= i && to <= i < s.line.cols implies s.open_at(
        #[trigger] n[i],
        i,
    ) by {
        assert(s.open_at(cells[i], i));
        if i == to && cells[to - 1].wide() {
            assert(s.open_at(cells[to - 1], to - 1));
            assert(s.was[to - 1].wide());
            assert(s.was[to].cont());
            if s.row.cells[to].cont() {
                assert(s.row.cells[to - 1].wide());
            }
        }
    }
}

/// A space in the first column, which is to be drawn anyway, leaves the rest as open as it was.
proof fn space_marks<T>(s: Scene<T>, old_row: RowModel<T>, cell: CellModel<T>, attrs: Attrs)
    requires
        s.sound(),
        old_row.wf(s.line.cols as int),
        s.marked(old_row.cells, 0),
        cell.text == seq![' '],
        cell.half == Half::Whole,
        !s.row.cells[0].looks_like(s.was[0]),
        !s.row.cells[0].wide(),
    ensures
        s.marked(old_row.put(0, cell, cell.text, attrs).cells, 0),
{
    let cells = old_row.cells;
    let n = old_row.put(0, cell, cell.text, attrs).cells;
    assert forall|i: int| 0 <= i < s.line.cols implies s.open_at(#[trigger] n[i], i) by {
        assert(s.open_at(cells[i], i));
        if i == 1 && cells[0].wide() {
            assert(s.open_at(cells[0], 0));
            assert(s.was[0].wide());
            assert(s.was[1].cont());
            if s.row.cells[1].cont() {
                assert(s.row.cells[0].wide());
            }
        }
    }
}

/// A space in the last column, which is to be drawn anyway, leaves the row as open as it was.
pub(crate) proof fn space_at_end_marks<T>(s: Scene<T>, old_row: RowModel<T>, cell: CellModel<T>, attrs: Attrs)
    requires
        s.sound(),
        old_row.wf(s.line.cols as int),
        s.marked(old_row.cells, s.line.cols - 1),
        cell.text == seq![' '],
        cell.half == Half::Whole,
        !s.row.cells[s.line.cols - 1].looks_like(s.was[s.line.cols - 1]),
        !s.row.cells[s.line.cols - 1].cont(),
    ensures
        s.marked(old_row.put(s.line.cols - 1, cell, cell.text, attrs).cells, s.line.cols - 1),
{
    let e = s.line.cols - 1;
    let cells = old_row.cells;
    let n = old_row.put(e, cell, cell.text, attrs).cells;
    if cells[e].cont() {
        assert(cells[e - 1].wide());
        assert(cells[e - 1].shows(s.row.cells[e - 1]));
        assert(s.row.cells[e - 1].wide());
        assert(s.row.cells[e].cont());
    }
    assert forall|i: int| 0 <= i < e && i < s.line.cols implies (#[trigger] n[i]).shows(
        s.row.cells[i],
    ) by {
        assert(cells[i].shows(s.row.cells[i]));
    }
    assert forall|i: int| 0 <= i && e <= i < s.line.cols implies s.open_at(#[trigger] n[i], i) by {
        assert(s.open_at(cells[i], i));
    }
}

// Terminals.

/// A space is one byte.
pub(crate) proof fn space_is_a_byte()
    ensures
        encode_utf8(seq![' ']) == seq![' ' as u8],
{
    let t = seq![' '];
    assert(vstd::utf8::is_ascii_chars(t));
    vstd::utf8::is_ascii_chars_encode_utf8(t);
    assert(encode_utf8(t) =~= seq![' ' as u8]);
}

/// The pen moves.
pub(crate) proof fn pen_moves<T>(
    s: Scene<T>,
    w: ScreenModel<T>,
    out: Seq<u8>,
    u: ScreenModel<T>,
    pen: Pen,
    done: int,
    to: Pos,
) -> (v: ScreenModel<T>)
    requires
        draws(w, out, u),
        s.reached(u, pen, done),
        to.row < s.rest.len(),
        to.col < s.line.cols || to == pen.pos,
    ensures
        draws(w, out + move_from_to(pen.pos, to), v),
        s.reached(v, Pen { pos: to, ..pen }, done),
        s.flows(u, v),
{
    let v = u.on_grid(u.active().at(to.row as int, to.col as int));
    move_draws(u, to);
    drawing_goes_on(w, out, u, move_from_to(pen.pos, to), v);
    v
}

/// The pen takes on other attributes.
pub(crate) proof fn pen_recolors<T>(
    s: Scene<T>,
    w: ScreenModel<T>,
    out: Seq<u8>,
    u: ScreenModel<T>,
    pen: Pen,
    done: int,
    attrs: Attrs,
) -> (v: ScreenModel<T>)
    requires
        draws(w, out, u),
        s.reached(u, pen, done),
    ensures
        draws(w, recolored(out, pen, attrs).0, v),
        s.reached(v, recolored(out, pen, attrs).1, done),
        s.flows(u, v),
{
    let v = u.with_look(attrs);
    style_draws(u, pen.attrs, attrs);
    drawing_goes_on(w, out, u, attrs.escape_from(pen.attrs), v);
    assert(v.active() == u.active());
    v
}

/// The pen steps back.
pub(crate) proof fn pen_backs<T>(
    s: Scene<T>,
    w: ScreenModel<T>,
    out: Seq<u8>,
    u: ScreenModel<T>,
    pen: Pen,
    done: int,
) -> (v: ScreenModel<T>)
    requires
        draws(w, out, u),
        s.reached(u, pen, done),
        pen.pos.col >= 1,
    ensures
        draws(w, out + seq![8u8], v),
        s.reached(
            v,
            Pen { pos: Pos { row: pen.pos.row, col: (pen.pos.col - 1) as u16 }, ..pen },
            done,
        ),
        s.flows(u, v),
{
    let v = u.on_grid(u.active().col_moved_left(1));
    back_draws(u);
    drawing_goes_on(w, out, u, seq![8u8], v);
    v
}

pub open spec fn spaced<T>() -> CellModel<T> {
    CellModel::space(Attrs::plain())
}

pub(crate) proof fn space_is_legible<T>()
    ensures
        spaced::<T>().legible(),
        spaced::<T>().fits(1),
        span(spaced::<T>()) == 1,
{
}

/// From the end of the row above, a space takes the pen to the first column.
pub(crate) proof fn space_wraps<T>(
    s: Scene<T>,
    w: ScreenModel<T>,
    out: Seq<u8>,
    u: ScreenModel<T>,
    pen: Pen,
) -> (v: ScreenModel<T>)
    requires
        s.sound(),
        draws(w, out, u),
        s.reached(u, pen, 0),
        s.waits(pen),
        !s.row.cells[0].looks_like(s.was[0]),
        !s.row.cells[0].wide(),
    ensures
        draws(w, out + space_and_back(), v),
        s.reached(v, Pen { pos: Pos { row: s.line.row, col: 0 }, ..pen }, 0),
        s.flows(u, v),
        s.ran(v),
{
    space_is_legible::<T>();
    space_is_a_byte();
    let cell = spaced::<T>();
    let (x, wrapped) = cell_wraps(u, cell);
    drawing_goes_on(w, out, u, encode_utf8(cell.text), x);
    let g = u.active();
    let row = s.line.row as int;
    assert(g.rows[row].wf(s.line.cols as int));
    space_marks(s, g.rows[row], cell, u.attrs);
    assert(g.at_next_row(wrapped).rows[row] == g.rows[row]);
    assert(x.active().rows[row] == g.rows[row].put(0, cell, cell.text, u.attrs));
    assert forall|i: int| 0 <= i < g.size.rows && i != row implies (
    #[trigger] x.active().rows[i]).cells == s.rest[i].cells by {
        assert(g.rows[i].cells == s.rest[i].cells);
    }
    let at = Pen { pos: Pos { row: s.line.row, col: 1 }, ..pen };
    assert(s.reached(x, at, 0));
    assert(g.rows[row - 1].cells == s.rest[row - 1].cells);
    assert(g.ends_full());
    assert(x.active().rows[row - 1].wrapped);
    assert(s.flows(u, x));
    let v = pen_backs(s, w, out + encode_utf8(cell.text), x, at, 0);
    assert(out + encode_utf8(cell.text) + seq![8u8] =~= out + space_and_back());
    flows_on(s, u, x, v);
    v
}

/// The pen goes to a cell that is to be empty.
pub(crate) proof fn blank_is_reached<T>(
    s: Scene<T>,
    w: ScreenModel<T>,
    out: Seq<u8>,
    u: ScreenModel<T>,
    pen: Pen,
    from: u16,
) -> (v: ScreenModel<T>)
    requires
        s.sound(),
        draws(w, out, u),
        s.reached(u, pen, from as int),
        from < s.line.cols,
        !s.row.cells[from as int].looks_like(s.was[from as int]),
        !s.row.cells[from as int].wide(),
    ensures
        draws(w, to_blank(out, pen, s.line, from).0, v),
        s.reached(v, to_blank(out, pen, s.line, from).1, from as int),
        to_blank(out, pen, s.line, from).1 == (Pen { pos: Pos { row: s.line.row, col: from }, ..pen }),
        s.flows(u, v),
        s.waits(pen) && from == 0 ==> s.ran(v),
{
    if s.line.wrapping && pen.pos.row + 1 == s.line.row && pen.pos.col >= s.line.cols && from == 0 {
        space_wraps(s, w, out, u, pen)
    } else {
        pen_moves(s, w, out, u, pen, from as int, Pos { row: s.line.row, col: from })
    }
}

impl<T> Scene<T> {
    /// Whether cells are to be empty, with the attributes of a run.
    pub open spec fn run_of(self, from: int, to: int, attrs: Attrs) -> bool {
        &&& 0 <= from < to <= self.line.cols
        &&& !self.row.cells[from].looks_like(self.was[from])
        &&& forall|i: int|
            from <= i < to ==> (#[trigger] self.row.cells[i]).text.len() == 0
                && self.row.cells[i].half == Half::Whole && self.row.cells[i].attrs == attrs
    }
}

pub(crate) proof fn row_replaced<T>(s: Scene<T>, u: ScreenModel<T>, v: ScreenModel<T>, pen: Pen, done: int, pos: Pos)
    requires
        s.sound(),
        s.reached(u, pen, done),
        pos.row == s.line.row,
        pos.col <= s.line.cols,
        v.active().rows.len() == u.active().rows.len(),
        v.active() == (GridModel { rows: v.active().rows, pos, ..u.active() }),
        forall|i: int|
            0 <= i < u.active().rows.len() && i != s.line.row ==> (
            #[trigger] v.active().rows[i]).cells == u.active().rows[i].cells,
        v.active().rows[s.line.row as int].wf(s.line.cols as int),
        v.setting() == u.setting(),
        v.attrs == u.attrs,
    ensures
        forall|to: int|
            s.marked(v.active().rows[s.line.row as int].cells, to) ==> #[trigger] s.reached(
                v,
                Pen { pos, ..pen },
                to,
            ),
{
    assert forall|i: int| 0 <= i < v.active().rows.len() implies (#[trigger] v.active().rows[i]).wf(
        v.active().size.cols as int,
    ) by {
        assert(u.active().rows[i].wf(u.active().size.cols as int));
        if i != s.line.row {
            let a = v.active().rows[i];
            let b = u.active().rows[i];
            assert(a.cells == b.cells);
        }
    }
    assert forall|to: int|
        s.marked(v.active().rows[s.line.row as int].cells, to) implies #[trigger] s.reached(
        v,
        Pen { pos, ..pen },
        to,
    ) by {
        assert forall|i: int| 0 <= i < v.active().size.rows && i != s.line.row implies (
        #[trigger] v.active().rows[i]).cells == s.rest[i].cells by {
            assert(u.active().rows[i].cells == s.rest[i].cells);
        }
    }
}

/// A run of cells that are to be empty is emptied up to a column.
pub(crate) proof fn run_is_erased<T>(
    s: Scene<T>,
    w: ScreenModel<T>,
    out: Seq<u8>,
    u: ScreenModel<T>,
    pen: Pen,
    from: u16,
    to: int,
) -> (v: ScreenModel<T>)
    requires
        s.sound(),
        draws(w, out, u),
        s.reached(u, pen, from as int),
        pen.pos == (Pos { row: s.line.row, col: from }),
        s.run_of(from as int, to, pen.attrs),
    ensures
        draws(w, out + erase_chars(to - from), v),
        s.reached(v, pen, to),
        v == u.on_grid(u.active().cells_erased(to - from, u.attrs)),
        s.flows(u, v),
{
    let n = (to - from) as u16;
    let v = u.on_grid(u.active().cells_erased(n as int, u.attrs));
    erase_draws(u, n);
    drawing_goes_on(w, out, u, erase_chars(n as int), v);
    let row = s.line.row as int;
    let old_row = u.active().rows[row];
    assert(old_row.wf(s.line.cols as int));
    rows_stay_whole(old_row, s.line.cols as int);
    erase_marks(s, old_row, from as int, to, u.attrs);
    erase_runs_on(s, old_row, from as int, to, u.attrs);
    assert(v.active().rows[row] == old_row.erased(from as int, to, u.attrs));
    row_replaced(s, u, v, pen, from as int, pen.pos);
    assert(Pen { pos: pen.pos, ..pen } == pen);
    v
}

/// A pending run is drawn up to a column.
proof fn run_is_flushed<T>(
    s: Scene<T>,
    w: ScreenModel<T>,
    out: Seq<u8>,
    u: ScreenModel<T>,
    pen: Pen,
    col: u16,
) -> (v: ScreenModel<T>)
    requires
        s.sound(),
        draws(w, out, u),
        pen.erase is Some,
        s.reached(u, pen, pen.erase->Some_0.0 as int),
        s.run_of(pen.erase->Some_0.0 as int, col as int, pen.erase->Some_0.1),
    ensures
        draws(w, flushed(out, pen, s.line, col).0, v),
        s.reached(v, flushed(out, pen, s.line, col).1, col as int),
        flushed(out, pen, s.line, col).1.erase is None,
        s.flows(u, v),
        s.waits(pen) && pen.erase->Some_0.0 == 0 ==> s.ran(v),
{
    let (from, attrs) = pen.erase->Some_0;
    assert(s.row.cells[from as int].half == Half::Whole);
    let x = blank_is_reached(s, w, out, u, pen, from);
    let (a, p) = to_blank(out, pen, s.line, from);
    let y = pen_recolors(s, w, a, x, p, from as int, attrs);
    let (b, q) = recolored(a, p, attrs);
    let v = run_is_erased(s, w, b, y, q, from, col as int);
    let r = Pen { erase: None, ..q };
    assert(s.reached(v, r, col as int));
    flows_on(s, u, x, y);
    flows_on(s, x, y, v);
    flows_on(s, u, y, v);
    v
}

/// A pending run is drawn up to the end of the row.
pub(crate) proof fn run_is_finished<T>(
    s: Scene<T>,
    w: ScreenModel<T>,
    out: Seq<u8>,
    u: ScreenModel<T>,
    pen: Pen,
) -> (v: ScreenModel<T>)
    requires
        s.sound(),
        draws(w, out, u),
        pen.erase is None ==> s.reached(u, pen, s.line.cols as int),
        pen.erase is Some ==> s.reached(u, pen, pen.erase->Some_0.0 as int) && s.run_of(
            pen.erase->Some_0.0 as int,
            s.line.cols as int,
            pen.erase->Some_0.1,
        ),
    ensures
        draws(w, finished(out, pen, s.line).0, v),
        s.reached(v, finished(out, pen, s.line).1, s.line.cols as int),
        finished(out, pen, s.line).1.erase is None,
        s.flows(u, v),
        s.waits(pen) && pen.erase is Some && pen.erase->Some_0.0 == 0 ==> s.ran(v),
{
    if pen.erase is None {
        u
    } else {
        let (from, attrs) = pen.erase->Some_0;
        assert(s.row.cells[from as int].half == Half::Whole);
        let x = blank_is_reached(s, w, out, u, pen, from);
        let (a, p) = to_blank(out, pen, s.line, from);
        let y = pen_recolors(s, w, a, x, p, from as int, attrs);
        let (b, q) = recolored(a, p, attrs);
        let v = y.on_grid(y.active().row_cleared_forward(y.attrs));
        clear_row_draws(y);
        drawing_goes_on(w, b, y, csi().push('K' as u8), v);
        let row = s.line.row as int;
        let old_row = y.active().rows[row];
        assert(old_row.wf(s.line.cols as int));
        rows_stay_whole(old_row, s.line.cols as int);
        erase_marks(s, old_row, from as int, s.line.cols as int, y.attrs);
        erase_runs_on(s, old_row, from as int, s.line.cols as int, y.attrs);
        assert(v.active().rows[row] == old_row.erased(from as int, s.line.cols as int, y.attrs));
        row_replaced(s, y, v, q, from as int, q.pos);
        let r = Pen { erase: None, ..q };
        assert(s.reached(v, r, s.line.cols as int));
        assert(s.flows(y, v));
        flows_on(s, u, x, y);
        flows_on(s, x, y, v);
        flows_on(s, u, y, v);
        v
    }
}

/// A cell with text is drawn where the pen is.
pub(crate) proof fn text_is_put<T>(
    s: Scene<T>,
    w: ScreenModel<T>,
    out: Seq<u8>,
    u: ScreenModel<T>,
    pen: Pen,
    col: u16,
) -> (v: ScreenModel<T>)
    requires
        s.sound(),
        draws(w, out, u),
        s.reached(u, pen, col as int),
        col < s.line.cols,
        s.row.cells[col as int].text.len() > 0,
        pen.attrs == s.row.cells[col as int].attrs,
        pen.pos == (Pos { row: s.line.row, col }),
    ensures
        draws(w, out + encode_utf8(s.row.cells[col as int].text), v),
        s.reached(
            v,
            Pen {
                pos: Pos { row: s.line.row, col: (col + span(s.row.cells[col as int])) as u16 },
                ..pen
            },
            col + span(s.row.cells[col as int]),
        ),
        s.flows(u, v),
{
    let cell = s.row.cells[col as int];
    assert(cell.legible() && cell.fits(s.line.cols - col));
    if cell.wide() {
        assert(s.row.cells[col + 1].cont());
    }
    let v = cell_draws(u, cell);
    drawing_goes_on(w, out, u, encode_utf8(cell.text), v);
    let row = s.line.row as int;
    let old_row = u.active().rows[row];
    assert(old_row.wf(s.line.cols as int));
    put_marks(s, old_row, col as int, u.attrs);
    put_runs_on(s, old_row, col as int, u.attrs);
    put_stays_whole(old_row, s.line.cols as int, col as int, cell, u.attrs);
    assert(v.active().rows[row] == old_row.put(col as int, cell, cell.text, u.attrs));
    row_replaced(
        s,
        u,
        v,
        pen,
        col as int,
        Pos { row: s.line.row, col: (col + span(cell)) as u16 },
    );
    v
}

/// A cell with text in the first column is drawn from the end of the row above.
pub(crate) proof fn text_wraps<T>(
    s: Scene<T>,
    w: ScreenModel<T>,
    out: Seq<u8>,
    u: ScreenModel<T>,
    pen: Pen,
) -> (v: ScreenModel<T>)
    requires
        s.sound(),
        draws(w, out, u),
        s.reached(u, pen, 0),
        s.row.cells[0].text.len() > 0,
        pen.attrs == s.row.cells[0].attrs,
        s.line.wrapping,
        pen.pos.row + 1 == s.line.row,
        pen.pos.col >= s.line.cols - (span(s.row.cells[0]) - 1),
    ensures
        draws(w, out + encode_utf8(s.row.cells[0].text), v),
        s.reached(
            v,
            Pen {
                pos: Pos { row: s.line.row, col: span(s.row.cells[0]) as u16 },
                ..pen
            },
            span(s.row.cells[0]),
        ),
        s.flows(u, v),
        s.ran(v),
{
    let cell = s.row.cells[0];
    assert(cell.legible() && cell.fits(s.line.cols as int));
    if cell.wide() {
        assert(s.row.cells[1].cont());
    }
    let (v, wrapped) = cell_wraps(u, cell);
    drawing_goes_on(w, out, u, encode_utf8(cell.text), v);
    let g = u.active();
    let row = s.line.row as int;
    let old_row = g.rows[row];
    assert(old_row.wf(s.line.cols as int));
    put_marks(s, old_row, 0, u.attrs);
    put_runs_on(s, old_row, 0, u.attrs);
    assert(g.rows[row - 1].cells == s.rest[row - 1].cells);
    assert(g.ends_full());
    put_stays_whole(old_row, s.line.cols as int, 0, cell, u.attrs);
    assert(g.at_next_row(wrapped).rows[row] == old_row);
    assert(v.active().rows[row] == old_row.put(0, cell, cell.text, u.attrs));
    row_replaced(s, u, v, pen, 0, Pos { row: s.line.row, col: span(cell) as u16 });
    v
}

/// A cell with text is drawn.
proof fn text_is_drawn<T>(
    s: Scene<T>,
    w: ScreenModel<T>,
    out: Seq<u8>,
    u: ScreenModel<T>,
    pen: Pen,
    col: u16,
) -> (v: ScreenModel<T>)
    requires
        s.sound(),
        draws(w, out, u),
        s.reached(u, pen, col as int),
        col < s.line.cols,
        s.row.cells[col as int].text.len() > 0,
    ensures
        draws(w, drawn_cell(out, pen, s.line, col, s.row.cells[col as int]).0, v),
        s.reached(
            v,
            drawn_cell(out, pen, s.line, col, s.row.cells[col as int]).1,
            col + span(s.row.cells[col as int]),
        ),
        s.flows(u, v),
        s.waits(pen) && col == 0 ==> s.ran(v),
{
    let cell = s.row.cells[col as int];
    let pos = Pos { row: s.line.row, col };
    let wraps = s.line.wrapping && pen.pos.row + 1 == s.line.row && pen.pos.col >= s.line.cols - (
    span(cell) - 1) && col == 0;
    if wraps {
        let x = pen_recolors(s, w, out, u, pen, col as int, cell.attrs);
        let (b, q) = recolored(out, pen, cell.attrs);
        let v = text_wraps(s, w, b, x, q);
        flows_on(s, u, x, v);
        v
    } else {
        let x = pen_moves(s, w, out, u, pen, col as int, pos);
        let a = out + move_from_to(pen.pos, pos);
        let p = Pen { pos, ..pen };
        let y = pen_recolors(s, w, a, x, p, col as int, cell.attrs);
        let (b, q) = recolored(a, p, cell.attrs);
        let v = text_is_put(s, w, b, y, q, col);
        flows_on(s, u, x, y);
        flows_on(s, u, y, v);
        v
    }
}

// Sweeping.

impl<T> Scene<T> {
    /// Where the cells that are done end, once the columns before `c` were taken up: the second
    /// half of a wide character is done with the first.
    pub open spec fn done_at(self, c: int) -> int {
        if 0 < c < self.line.cols && self.row.cells[c - 1].wide() {
            c + 1
        } else {
            c
        }
    }

    /// Whether a terminal shows what was taken up before column `c`, but for a pending run.
    pub open spec fn at_col(self, u: ScreenModel<T>, pen: Pen, c: int) -> bool {
        match pen.erase {
            Some((from, attrs)) => self.reached(u, pen, from as int) && self.run_of(
                from as int,
                c,
                attrs,
            ),
            None => self.reached(u, pen, self.done_at(c)),
        }
    }

    /// Whether the row above runs on, or will once a pending run is drawn.
    pub open spec fn runs(self, u: ScreenModel<T>, pen: Pen) -> bool {
        self.ran(u) || (self.waits(pen) && pen.erase is Some && pen.erase->Some_0.0 == 0)
    }

    /// The row as it was, to compare with.
    pub open spec fn compared(self, old: Option<RowModel<T>>) -> bool {
        match old {
            Some(prev) => prev.cells == self.was,
            None => forall|i: int|
                0 <= i < self.line.cols ==> #[trigger] self.was[i] == CellModel::<T>::blank(
                    Attrs::plain(),
                ),
        }
    }
}

proof fn unchanged_marks<T>(s: Scene<T>, old_row: RowModel<T>, c: int)
    requires
        s.sound(),
        old_row.wf(s.line.cols as int),
        s.marked(old_row.cells, c),
        0 <= c < s.line.cols,
        s.row.cells[c].looks_like(s.was[c]),
    ensures
        s.marked(old_row.cells, s.done_at(c + 1)),
{
    let cells = old_row.cells;
    assert(s.open_at(cells[c], c));
    assert(cells[c].shows(s.row.cells[c]));
    if s.row.cells[c].wide() {
        assert(s.row.cells[c + 1].cont());
        assert(s.row.cells[c + 1].legible());
        assert(s.was[c].wide());
        assert(s.was[c + 1].cont());
        assert(s.was[c + 1].legible());
        assert(cells[c].wide());
        assert(cells[c + 1].cont());
        assert(s.open_at(cells[c + 1], c + 1));
        assert(cells[c + 1].shows(s.was[c + 1]));
        assert(cells[c + 1].text =~= s.row.cells[c + 1].text);
        assert(cells[c + 1].shows(s.row.cells[c + 1]));
    }
}

/// One column is taken up.
proof fn step_draws<T>(
    s: Scene<T>,
    w: ScreenModel<T>,
    out: Seq<u8>,
    u: ScreenModel<T>,
    pen: Pen,
    col: u16,
) -> (v: ScreenModel<T>)
    requires
        s.sound(),
        draws(w, out, u),
        s.at_col(u, pen, col as int),
        col < s.line.cols,
        !s.row.skips(0, col as int),
    ensures
        ({
            let cell = s.row.cells[col as int];
            let r = stepped(out, pen, s.line, col, cell, !cell.looks_like(s.was[col as int]));
            &&& draws(w, r.0, v)
            &&& s.at_col(v, r.1, col + 1)
            &&& s.flows(u, v)
            &&& s.runs(u, pen) ==> s.runs(v, r.1)
            &&& s.waits(pen) && col == 0 && pen.erase is None && !cell.looks_like(s.was[0])
                ==> s.runs(v, r.1)
        }),
{
    let c = col as int;
    let cell = s.row.cells[c];
    assert(cell.legible());
    assert(!cell.cont()) by {
        if cell.cont() {
            assert(s.row.cells[c - 1].wide());
        }
    }
    let changed = !cell.looks_like(s.was[c]);
    let has_text = cell.text.len() > 0;
    let flush = pen.erase is Some && (has_text || cell.attrs != pen.erase->Some_0.1);
    let x = if flush {
        run_is_flushed(s, w, out, u, pen, col)
    } else {
        u
    };
    let (a, p) = if flush {
        flushed(out, pen, s.line, col)
    } else {
        (out, pen)
    };
    assert(draws(w, a, x));
    assert(p.erase is None ==> s.reached(x, p, c));
    if !changed {
        if p.erase is None {
            unchanged_marks(s, x.active().rows[s.line.row as int], c);
        } else {
            assert(s.run_of(p.erase->Some_0.0 as int, c + 1, p.erase->Some_0.1));
        }
        x
    } else if has_text {
        assert(p.erase is None);
        if cell.wide() {
            assert(s.row.cells[c + 1].cont());
        }
        let v = text_is_drawn(s, w, a, x, p, col);
        flows_on(s, u, x, v);
        v
    } else {
        if p.erase is None {
            let q = Pen { erase: Some((col, cell.attrs)), ..p };
            assert(s.reached(x, q, c));
            assert(s.run_of(c, c + 1, cell.attrs));
        } else {
            assert(s.run_of(p.erase->Some_0.0 as int, c + 1, p.erase->Some_0.1));
        }
        x
    }
}

/// The columns up to `end` are taken up.
pub(crate) proof fn sweep_draws<T>(
    s: Scene<T>,
    w: ScreenModel<T>,
    out: Seq<u8>,
    u: ScreenModel<T>,
    pen: Pen,
    old: Option<RowModel<T>>,
    end: int,
) -> (v: ScreenModel<T>)
    requires
        s.sound(),
        s.compared(old),
        draws(w, out, u),
        pen.erase is None,
        s.reached(u, pen, 0),
        0 <= end <= s.line.cols,
    ensures
        ({
            let r = swept(out, pen, s.line, s.row, old, 0, end);
            &&& draws(w, r.0, v)
            &&& s.at_col(v, r.1, end)
            &&& s.flows(u, v)
            &&& s.waits(pen) && end > 0 && !s.row.cells[0].looks_like(s.was[0]) ==> s.runs(v, r.1)
            &&& s.ran(u) ==> s.ran(v)
        }),
    decreases end,
{
    if end <= 0 {
        u
    } else {
        let x = sweep_draws(s, w, out, u, pen, old, end - 1);
        let (a, p) = swept(out, pen, s.line, s.row, old, 0, end - 1);
        if s.row.skips(0, end - 1) {
            assert(s.row.cells[end - 2].wide());
            assert(s.row.cells[end - 1].cont());
            assert(!s.row.cells[end - 1].wide());
            if p.erase is Some {
                assert(s.row.cells[end - 2].half == Half::Whole);
            }
            x
        } else {
            assert(differs(s.row, old, end - 1) == !s.row.cells[end - 1].looks_like(
                s.was[end - 1],
            ));
            let v = step_draws(s, w, a, x, p, (end - 1) as u16);
            flows_on(s, u, x, v);
            v
        }
    }
}

/// The pen is behind the last column once the last character of a row was drawn.
pub(crate) proof fn sweep_ends_behind<T>(
    out: Seq<u8>,
    pen: Pen,
    line: Line,
    row: RowModel<T>,
    old: Option<RowModel<T>>,
    end: int,
)
    requires
        row.wf(line.cols as int),
        0 <= end < line.cols,
        end == line.cols - 1 || (end == line.cols - 2 && row.cells[end].wide()),
        !row.cells[end].cont(),
        end == line.cols - 1 ==> !row.cells[end].wide(),
        row.cells[end].text.len() > 0,
        differs(row, old, end),
    ensures
        ({
            let p = swept(out, pen, line, row, old, 0, line.cols as int).1;
            p.pos == (Pos { row: line.row, col: line.cols }) && p.erase is None
        }),
{
    let (a, p) = swept(out, pen, line, row, old, 0, end);
    if row.skips(0, end) {
        assert(row.cells[end - 1].wide());
        assert(row.cells[end].cont());
    }
    let (b, q) = swept(out, pen, line, row, old, 0, end + 1);
    assert((b, q) == stepped(a, p, line, end as u16, row.cells[end], true));
    assert(q.pos == (Pos { row: line.row, col: line.cols }) && q.erase is None);
    if end == line.cols - 2 {
        assert(row.skips(0, line.cols - 1));
        assert(swept(out, pen, line, row, old, 0, line.cols as int) == (b, q));
    }
}

} // verus!
