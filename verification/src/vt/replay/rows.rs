//! Rows that are written out one by one show what they should in the end.
use vstd::prelude::*;
use vstd::utf8::encode_utf8;

use crate::vt::attrs::Attrs;
use crate::vt::cell::{CellModel, Half};
use crate::vt::escape::{erase_chars, move_from_to, repeated};
use crate::vt::format::{differs, finished, recolored, space_and_back, span, swept, Pen};
use crate::vt::grid::{least, Pos};
use crate::vt::replay::ground::erase_draws;
use crate::vt::replay::sweep::{
    flows_on, pen_backs, pen_moves, pen_recolors, run_is_erased, run_is_finished, space_wraps, sweep_draws,
    sweep_ends_behind, text_is_put, text_wraps, Scene,
};
use crate::vt::replay::token::{draws, drawing_goes_on};
use crate::vt::row::{rows_stay_whole, RowModel};
use crate::vt::screen::ScreenModel;

verus! {

impl<T> RowModel<T> {
    /// Whether a row holds what text leaves in a row. One that runs on is full.
    pub open spec fn legible(self) -> bool {
        &&& forall|i: int| 0 <= i < self.cells.len() ==> (#[trigger] self.cells[i]).legible()
        &&& self.wrapped ==> self.cells.len() > 0 && (self.cells.last().text.len() > 0
            || self.cells.last().cont())
    }

    /// Whether every character of a row has room for all its columns before the end of the row.
    pub open spec fn fits(self) -> bool {
        forall|i: int|
            0 <= i < self.cells.len() ==> (#[trigger] self.cells[i]).fits(self.cells.len() - i)
    }

    /// The column of the last character.
    pub open spec fn end_col(self) -> int {
        if self.cells.last().cont() {
            self.cells.len() - 2
        } else {
            self.cells.len() - 1
        }
    }

    /// Whether a row shows the same as another.
    pub open spec fn shows(self, other: RowModel<T>) -> bool {
        &&& self.cells.len() == other.cells.len()
        &&& forall|i: int|
            0 <= i < self.cells.len() ==> (#[trigger] self.cells[i]).shows(other.cells[i])
    }
}

/// An empty first cell is drawn once more, from the end of the row above.
proof fn blank_restarts<T>(
    s: Scene<T>,
    w: ScreenModel<T>,
    out: Seq<u8>,
    u: ScreenModel<T>,
    pen: Pen,
) -> (v: ScreenModel<T>)
    requires
        s.sound(),
        draws(w, out, u),
        s.reached(u, pen, 0),
        s.row.cells[0].text.len() == 0,
        s.row.cells[0].looks_like(s.was[0]),
        pen.attrs == s.row.cells[0].attrs,
        s.waits(pen),
    ensures
        draws(w, out + space_and_back() + erase_chars(1), v),
        s.reached(v, Pen { pos: Pos { row: s.line.row, col: 0 }, ..pen }, 0),
        s.flows(u, v),
        s.ran(v),
{
    let cell = s.row.cells[0];
    assert(cell.legible());
    assert(!cell.cont()) by {
        if cell.cont() {
            assert(s.row.cells[-1].wide());
        }
    }
    let other = CellModel::<T>::space(Attrs::plain());
    let z = Scene { was: s.was.update(0, other), ..s };
    assert(s.was[0].half == Half::Whole);
    assert(z.sound()) by {
        let a = RowModel { cells: s.was, wrapped: false };
        let b = RowModel { cells: z.was, wrapped: false };
        assert(a.wf(s.line.cols as int));
        assert forall|i: int| 0 <= i < s.line.cols && (#[trigger] b.cells[i].wide()) implies i + 1
            < s.line.cols && b.cells[i + 1].cont() by {
            assert(a.cells[i].wide());
            assert(a.cells[i + 1].cont());
        }
        assert forall|i: int| 0 <= i < s.line.cols && (#[trigger] b.cells[i].cont()) implies 0 < i
            && b.cells[i - 1].wide() by {
            assert(a.cells[i].cont());
            assert(a.cells[i - 1].wide());
        }
        assert forall|i: int| 0 <= i < s.line.cols implies (#[trigger] z.was[i]).legible() by {
            assert(s.was[i].legible());
        }
    }
    let cells = u.active().rows[s.line.row as int].cells;
    assert(!z.row.cells[0].looks_like(z.was[0])) by {
        assert(z.was[0].text.len() == 1);
    }
    assert forall|i: int| 0 <= i && 0 <= i < z.line.cols implies z.open_at(
        #[trigger] cells[i],
        i,
    ) by {
        assert(s.open_at(cells[i], i));
    }
    assert(z.reached(u, pen, 0));
    let x = space_wraps(z, w, out, u, pen);
    let p = Pen { pos: Pos { row: s.line.row, col: 0 }, ..pen };
    let v = run_is_erased(z, w, out + space_and_back(), x, p, 0, 1);
    flows_on(z, u, x, v);
    assert(s.breaks() == z.breaks());
    let n = v.active().rows[s.line.row as int].cells;
    assert forall|i: int| 0 <= i && 0 <= i < s.line.cols implies s.open_at(
        #[trigger] n[i],
        i,
    ) by {
        if i == 0 {
            assert(n[0].shows(z.row.cells[0]));
        } else {
            assert(z.open_at(n[i], i));
        }
    }
    v
}

/// The pen steps back some columns.
proof fn pen_backs_times<T>(
    s: Scene<T>,
    w: ScreenModel<T>,
    out: Seq<u8>,
    u: ScreenModel<T>,
    pen: Pen,
    n: int,
) -> (v: ScreenModel<T>)
    requires
        draws(w, out, u),
        s.reached(u, pen, 0),
        0 <= n <= pen.pos.col,
    ensures
        draws(w, out + repeated(8, n), v),
        s.reached(
            v,
            Pen { pos: Pos { row: pen.pos.row, col: (pen.pos.col - n) as u16 }, ..pen },
            0,
        ),
        s.line.row < u.active().rows.len() ==> s.flows(u, v),
    decreases n,
{
    if n == 0 {
        assert(out + repeated(8, 0) =~= out);
        u
    } else {
        let x = pen_backs_times(s, w, out, u, pen, n - 1);
        let p = Pen { pos: Pos { row: pen.pos.row, col: (pen.pos.col - (n - 1)) as u16 }, ..pen };
        let v = pen_backs(s, w, out + repeated(8, n - 1), x, p, 0);
        assert(out + repeated(8, n - 1) + seq![8u8] =~= out + repeated(8, n));
        if s.line.row < u.active().rows.len() {
            flows_on(s, u, x, v);
        }
        v
    }
}

/// A first cell with text is drawn once more, from the end of the row above.
proof fn text_restarts<T>(
    s: Scene<T>,
    w: ScreenModel<T>,
    out: Seq<u8>,
    u: ScreenModel<T>,
    pen: Pen,
) -> (v: ScreenModel<T>)
    requires
        s.sound(),
        draws(w, out, u),
        s.reached(u, pen, 0),
        s.row.cells[0].text.len() > 0,
        s.row.cells[0].looks_like(s.was[0]),
        pen.attrs == s.row.cells[0].attrs,
        s.line.wrapping,
        pen.pos.row + 1 == s.line.row,
        pen.pos.col >= s.line.cols - (span(s.row.cells[0]) - 1),
    ensures
        draws(w, out + (encode_utf8(s.row.cells[0].text) + repeated(8, span(s.row.cells[0]))), v),
        s.reached(v, Pen { pos: Pos { row: s.line.row, col: 0 }, ..pen }, 0),
        s.flows(u, v),
        s.ran(v),
{
    let cell = s.row.cells[0];
    let x = text_wraps(s, w, out, u, pen);
    let p = Pen { pos: Pos { row: s.line.row, col: span(cell) as u16 }, ..pen };
    let cells = x.active().rows[s.line.row as int].cells;
    assert(s.marked(cells, span(cell)));
    assert forall|i: int| 0 <= i && 0 <= i < s.line.cols implies s.open_at(
        #[trigger] cells[i],
        i,
    ) by {
        if i < span(cell) {
            assert(cells[i].shows(s.row.cells[i]));
            if i == 1 {
                assert(s.row.cells[0].wide());
                assert(s.row.cells[1].cont());
                assert(s.was[0].wide());
                assert(s.was[1].cont());
                assert(s.was[1].legible());
                assert(s.row.cells[1].legible());
                assert(cells[1].text =~= s.was[1].text);
            }
        } else {
            assert(s.open_at(cells[i], i));
        }
    }
    assert(s.reached(x, p, 0));
    let v = pen_backs_times(s, w, out + encode_utf8(cell.text), x, p, span(cell));
    flows_on(s, u, x, v);
    assert(out + encode_utf8(cell.text) + repeated(8, span(cell)) =~= out + (encode_utf8(cell.text)
        + repeated(8, span(cell))));
    v
}

/// Where the last character of a row is.
pub(crate) proof fn end_is_a_character<T>(row: RowModel<T>, cols: int)
    requires
        row.wf(cols),
        row.legible(),
        cols > 0,
    ensures
        0 <= row.end_col() < cols,
        !row.cells[row.end_col()].cont(),
        row.end_col() == cols - 2 ==> row.cells[row.end_col()].wide() && row.cells[cols - 1].cont(),
        row.end_col() == cols - 1 ==> !row.cells[row.end_col()].wide(),
        row.wrapped ==> row.cells[row.end_col()].text.len() > 0,
        row.end_col() + span(row.cells[row.end_col()]) == cols,
{
    let last = row.cells[cols - 1];
    assert(last == row.cells.last());
    if last.cont() {
        assert(row.cells[cols - 2].wide());
        assert(row.cells[cols - 2].legible());
    } else if last.wide() {
        assert(row.cells[cols].cont());
    }
}

/// A row is written out on a terminal where it is empty yet.
pub(crate) proof fn row_is_formatted<T>(
    s: Scene<T>,
    w: ScreenModel<T>,
    out: Seq<u8>,
    u: ScreenModel<T>,
    pen: Pen,
) -> (v: ScreenModel<T>)
    requires
        s.sound(),
        s.compared(None),
        s.row.legible(),
        draws(w, out, u),
        pen.erase is None,
        s.reached(u, pen, 0),
        s.line.wrapping ==> pen.pos.row + 1 == s.line.row && pen.pos.col == s.line.cols,
    ensures
        ({
            let r = s.row.formatted(out, 0, s.line.cols, s.line.row, s.line.wrapping, pen);
            &&& draws(w, r.0, v)
            &&& s.reached(v, r.1, s.line.cols as int)
            &&& r.1.erase is None
            &&& s.row.wrapped ==> r.1.pos == (Pos { row: s.line.row, col: s.line.cols })
            &&& s.flows(u, v)
            &&& s.line.wrapping ==> s.ran(v)
        }),
{
    let plain = CellModel::<T>::blank(Attrs::plain());
    let first = s.row.cells[0];
    assert(s.was[0] == plain);
    let blank_first = s.line.wrapping && first.looks_like(plain);
    let x = if blank_first {
        let y = pen_recolors(s, w, out, u, pen, 0, Attrs::plain());
        let (b, q) = recolored(out, pen, Attrs::plain());
        let x = blank_restarts(s, w, b, y, q);
        flows_on(s, u, y, x);
        x
    } else {
        u
    };
    let (a, p) = if blank_first {
        let (b, q) = recolored(out, pen, Attrs::plain());
        (
            b + space_and_back() + erase_chars(1),
            Pen { pos: Pos { row: s.line.row, col: 0 }, ..q },
        )
    } else {
        (out, pen)
    };
    let y = sweep_draws(s, w, a, x, p, None, s.line.cols as int);
    let (b, q) = swept(a, p, s.line, s.row, None, 0, s.line.cols as int);
    let v = run_is_finished(s, w, b, y, q);
    flows_on(s, u, x, y);
    flows_on(s, x, y, v);
    flows_on(s, u, y, v);
    assert(least(0 + s.line.cols, s.row.cells.len() as int) == s.line.cols);
    end_is_a_character(s.row, s.line.cols as int);
    if s.row.wrapped {
        let e = s.row.end_col();
        assert(differs(s.row, None, e));
        sweep_ends_behind(a, p, s.line, s.row, None, e);
    }
    v
}

/// A scene whose row showed two of its cells otherwise before is as sound, where those are whole.
pub(crate) proof fn end_replaced<T>(s: Scene<T>, e: int, a: CellModel<T>, b: CellModel<T>) -> (z: Scene<T>)
    requires
        s.sound(),
        s.row.legible(),
        e == s.row.end_col(),
        a.half == Half::Whole,
        b.half == Half::Whole,
        a.legible(),
        b.legible(),
    ensures
        z == (Scene {
            was: if e == s.line.cols - 2 {
                s.row.cells.update(e, a).update(e + 1, b)
            } else {
                s.row.cells.update(e, a)
            },
            ..s
        }),
        z.sound(),
{
    let cols = s.line.cols as int;
    end_is_a_character(s.row, cols);
    let was = if e == cols - 2 {
        s.row.cells.update(e, a).update(e + 1, b)
    } else {
        s.row.cells.update(e, a)
    };
    let z = Scene { was, ..s };
    let n = RowModel { cells: was, wrapped: false };
    assert forall|i: int| 0 <= i < cols && (#[trigger] n.cells[i].wide()) implies i + 1 < cols
        && n.cells[i + 1].cont() by {
        assert(s.row.cells[i].wide());
        assert(s.row.cells[i + 1].cont());
        if i + 1 == e {
            assert(false);
        }
    }
    assert forall|i: int| 0 <= i < cols && (#[trigger] n.cells[i].cont()) implies 0 < i
        && n.cells[i - 1].wide() by {
        assert(s.row.cells[i].cont());
        assert(s.row.cells[i - 1].wide());
        if i - 1 == e {
            assert(e == cols - 2);
        }
    }
    assert forall|i: int| 0 <= i < cols implies (#[trigger] z.was[i]).legible() by {
        assert(s.row.cells[i].legible());
    }
    z
}

/// The last character is drawn once more, where the terminal shows the whole row.
pub(crate) proof fn end_is_redrawn<T>(
    s: Scene<T>,
    w: ScreenModel<T>,
    out: Seq<u8>,
    u: ScreenModel<T>,
    pen: Pen,
) -> (v: ScreenModel<T>)
    requires
        s.sound(),
        s.row.legible(),
        draws(w, out, u),
        s.reached(u, pen, s.line.cols as int),
        s.row.cells[s.row.end_col()].text.len() > 0,
        pen.attrs == s.row.cells[s.row.end_col()].attrs,
        pen.pos == (Pos { row: s.line.row, col: s.row.end_col() as u16 }),
    ensures
        draws(w, out + encode_utf8(s.row.cells[s.row.end_col()].text), v),
        s.reached(
            v,
            Pen { pos: Pos { row: s.line.row, col: s.line.cols }, ..pen },
            s.line.cols as int,
        ),
        s.flows(u, v),
{
    let cols = s.line.cols as int;
    let e = s.row.end_col();
    end_is_a_character(s.row, cols);
    let z = Scene { was: s.row.cells, ..s };
    assert(z.sound()) by {
        let a = RowModel { cells: s.row.cells, wrapped: false };
        assert(a.wf(cols)) by {
            assert forall|i: int| 0 <= i < cols && (#[trigger] a.cells[i].wide()) implies i + 1
                < cols && a.cells[i + 1].cont() by {
                assert(s.row.cells[i].wide());
            }
            assert forall|i: int| 0 <= i < cols && (#[trigger] a.cells[i].cont()) implies 0 < i
                && a.cells[i - 1].wide() by {
                assert(s.row.cells[i].cont());
            }
        }
    }
    let cells = u.active().rows[s.line.row as int].cells;
    assert(z.marked(cells, e)) by {
        assert forall|i: int| 0 <= i < cols implies (#[trigger] cells[i]).shows(
            s.row.cells[i],
        ) by {}
    }
    assert(z.reached(u, pen, e));
    let v = text_is_put(z, w, out, u, pen, e as u16);
    assert(!z.breaks()) by {
        if z.breaks() {
            assert(s.row.cells[cols - 2].legible());
        }
    }
    let n = v.active().rows[s.line.row as int].cells;
    assert(z.marked(n, cols));
    assert(s.marked(n, cols)) by {
        assert forall|i: int| 0 <= i < cols implies (#[trigger] n[i]).shows(s.row.cells[i]) by {}
    }
    v
}

/// The last character is emptied, where the terminal shows the whole row.
proof fn end_is_emptied<T>(
    s: Scene<T>,
    w: ScreenModel<T>,
    out: Seq<u8>,
    u: ScreenModel<T>,
    pen: Pen,
) -> (r: (Scene<T>, ScreenModel<T>))
    requires
        s.sound(),
        s.row.legible(),
        draws(w, out, u),
        s.reached(u, pen, s.line.cols as int),
        pen.attrs == s.row.cells[s.row.end_col()].attrs,
        pen.pos == (Pos { row: s.line.row, col: s.row.end_col() as u16 }),
    ensures
        draws(w, out + erase_chars(1), r.1),
        r.0 == (Scene { was: r.0.was, ..s }),
        r.0.sound(),
        r.0.reached(r.1, pen, s.row.end_col()),
        s.row.cells[s.row.end_col()].text.len() == 0 ==> s.reached(r.1, pen, s.line.cols as int),
        !s.row.wrapped ==> s.flows(u, r.1),
        !r.1.active().rows[s.line.row as int].wrapped,
{
    let cols = s.line.cols as int;
    let e = s.row.end_col();
    let row = s.line.row as int;
    end_is_a_character(s.row, cols);
    let cell = s.row.cells[e];
    assert(cell.legible());
    let v = u.on_grid(u.active().cells_erased(1, u.attrs));
    erase_draws(u, 1);
    drawing_goes_on(w, out, u, erase_chars(1), v);
    let old_row = u.active().rows[row];
    assert(old_row.wf(cols));
    rows_stay_whole(old_row, cols);
    let n = old_row.erased(e, e + 1, u.attrs);
    assert(v.active().rows[row] == n);
    assert forall|i: int| 0 <= i < cols implies (#[trigger] old_row.cells[i]).shows(
        s.row.cells[i],
    ) by {}
    let a = CellModel::<T>::blank(cell.attrs);
    let b = CellModel::<T>::blank(Attrs::plain());
    let z = end_replaced(s, e, a, b);
    assert(old_row.cells[e].shows(s.row.cells[e]));
    assert(!old_row.cells[e].cont());
    assert forall|i: int| 0 <= i < e && i < z.line.cols implies (#[trigger] n.cells[i]).shows(
        z.row.cells[i],
    ) by {
        assert(old_row.cells[i].shows(s.row.cells[i]));
    }
    assert forall|i: int| 0 <= i && e <= i < z.line.cols implies z.open_at(
        #[trigger] n.cells[i],
        i,
    ) by {
        assert(old_row.cells[i].shows(s.row.cells[i]));
        if i == e {
            assert(n.cells[i].text =~= a.text);
        } else {
            assert(e == cols - 2);
            assert(s.row.cells[i].legible());
            assert(old_row.cells[e].wide());
            assert(n.cells[i].text =~= b.text);
        }
    }
    assert forall|i: int| 0 <= i < v.active().rows.len() implies (#[trigger] v.active().rows[i]).wf(
        cols,
    ) by {
        assert(u.active().rows[i].wf(cols));
    }
    assert forall|i: int| 0 <= i < v.active().size.rows && i != row implies (
    #[trigger] v.active().rows[i]).cells == s.rest[i].cells by {
        assert(u.active().rows[i].cells == s.rest[i].cells);
    }
    if cell.text.len() == 0 {
        assert(e == cols - 1);
        assert forall|i: int| 0 <= i < cols && i < s.line.cols implies (
        #[trigger] n.cells[i]).shows(s.row.cells[i]) by {
            assert(old_row.cells[i].shows(s.row.cells[i]));
            if i == e {
                assert(n.cells[i].text =~= s.row.cells[i].text);
            }
        }
    }
    (z, v)
}

/// The end of a row is drawn once more, so that it runs on or no longer does.
proof fn row_is_rewrapped<T>(
    s: Scene<T>,
    w: ScreenModel<T>,
    out: Seq<u8>,
    u: ScreenModel<T>,
    pen: Pen,
) -> (v: ScreenModel<T>)
    requires
        s.sound(),
        s.row.legible(),
        draws(w, out, u),
        s.reached(u, pen, s.line.cols as int),
    ensures
        ({
            let r = s.row.rewrapped(out, pen, s.line.row);
            &&& draws(w, r.0, v)
            &&& s.reached(v, r.1, s.line.cols as int)
            &&& r.1.erase == pen.erase
            &&& s.flows(u, v)
            &&& !s.row.wrapped ==> !v.active().rows[s.line.row as int].wrapped
            &&& s.row.wrapped ==> r.1.pos == (Pos { row: s.line.row, col: s.line.cols })
        }),
{
    let cols = s.line.cols as int;
    let e = s.row.end_col();
    end_is_a_character(s.row, cols);
    assert(s.row.cells.last() == s.row.cells[cols - 1]);
    let cell = s.row.cells[e];
    let pos = Pos { row: s.line.row, col: e as u16 };
    let x = pen_moves(s, w, out, u, pen, cols, pos);
    let a = out + move_from_to(pen.pos, pos);
    let p = Pen { pos, ..pen };
    let y = pen_recolors(s, w, a, x, p, cols, cell.attrs);
    let (b, q) = recolored(a, p, cell.attrs);
    assert((b, q) == (recolored(a, pen, cell.attrs).0, Pen { pos, ..recolored(a, pen, cell.attrs).1 }));
    flows_on(s, u, x, y);
    let ends = Pen { pos: Pos { row: s.line.row, col: s.line.cols }, ..q };
    if s.row.wrapped {
        assert(b + Seq::<u8>::empty() =~= b);
        let v = end_is_redrawn(s, w, b, y, q);
        flows_on(s, u, y, v);
        v
    } else {
        let (z, v) = end_is_emptied(s, w, b, y, q);
        flows_on(s, u, y, v);
        if cell.text.len() > 0 {
            let t = text_is_put(z, w, b + erase_chars(1), v, q, e as u16);
            let n = t.active().rows[s.line.row as int].cells;
            assert(z.marked(n, cols));
            assert(s.marked(n, cols)) by {
                assert forall|i: int| 0 <= i < cols implies (#[trigger] n[i]).shows(
                    s.row.cells[i],
                ) by {}
            }
            assert(s.reached(t, ends, cols));
            assert(s.flows(v, t));
            flows_on(s, u, v, t);
            t
        } else {
            v
        }
    }
}

/// A row is turned into another on a terminal that shows the first.
pub(crate) proof fn row_is_diffed<T>(
    s: Scene<T>,
    w: ScreenModel<T>,
    out: Seq<u8>,
    u: ScreenModel<T>,
    pen: Pen,
    prev: RowModel<T>,
    prev_wrapping: bool,
) -> (v: ScreenModel<T>)
    requires
        s.sound(),
        s.row.legible(),
        prev.cells == s.was,
        draws(w, out, u),
        pen.erase is None,
        s.reached(u, pen, 0),
    ensures
        ({
            let r = s.row.diffed(
                out,
                prev,
                0,
                s.line.cols,
                s.line.row,
                s.line.wrapping,
                prev_wrapping,
                pen,
            );
            &&& draws(w, r.0, v)
            &&& s.reached(v, r.1, s.line.cols as int)
            &&& r.1.erase is None
            &&& s.flows(u, v)
            &&& s.waits(pen) && (!prev_wrapping || !s.row.cells[0].looks_like(s.was[0]))
                ==> s.ran(v)
            &&& !s.row.wrapped && (u.active().rows[s.line.row as int].wrapped ==> prev.wrapped)
                ==> !v.active().rows[s.line.row as int].wrapped
            &&& s.row.wrapped && (!prev.wrapped || s.breaks()) ==> r.1.pos == (Pos {
                row: s.line.row,
                col: s.line.cols,
            })
        }),
{
    let newly = s.line.wrapping && !prev_wrapping;
    let first = s.row.cells[0];
    let again = newly && first.looks_like(prev.cells[0]) && pen.pos.row + 1 == s.line.row
        && pen.pos.col >= s.row.cells.len() - (span(first) - 1);
    let x = if again {
        let y = pen_recolors(s, w, out, u, pen, 0, first.attrs);
        let (b, q) = recolored(out, pen, first.attrs);
        if first.text.len() == 0 {
            assert(first.legible());
            let v = blank_restarts(s, w, b, y, q);
            flows_on(s, u, y, v);
            assert(b + space_and_back() + erase_chars(1) =~= b + (space_and_back() + erase_chars(
                1,
            )));
            v
        } else {
            let v = text_restarts(s, w, b, y, q);
            flows_on(s, u, y, v);
            v
        }
    } else {
        u
    };
    let (a, p) = s.row.restarted(out, prev, 0, s.line.row, newly, pen);
    assert(draws(w, a, x));
    assert(s.reached(x, p, 0));
    let y = sweep_draws(s, w, a, x, p, Some(prev), s.line.cols as int);
    let (b, q) = swept(a, p, s.line, s.row, Some(prev), 0, s.line.cols as int);
    let z = run_is_finished(s, w, b, y, q);
    let (c, r) = finished(b, q, s.line);
    assert(least(
        0 + s.line.cols,
        least(s.row.cells.len() as int, prev.cells.len() as int),
    ) == s.line.cols);
    flows_on(s, u, x, y);
    flows_on(s, x, y, z);
    flows_on(s, u, y, z);
    if s.row.wrapped && s.breaks() {
        let cols = s.line.cols as int;
        end_is_a_character(s.row, cols);
        if s.row.cells[cols - 1].cont() {
            assert(s.row.cells[cols - 2].wide());
            assert(s.row.cells[cols - 2].legible());
        }
        assert(s.row.end_col() == cols - 1);
        assert(s.was[cols - 1].cont());
        sweep_ends_behind(a, p, s.line, s.row, Some(prev), cols - 1);
    }
    if s.row.wrapped != prev.wrapped {
        let v = row_is_rewrapped(s, w, c, z, r);
        flows_on(s, u, z, v);
        v
    } else {
        z
    }
}

} // verus!
