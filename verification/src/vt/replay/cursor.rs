//! The bytes that move the cursor move it, and change nothing that is shown.
use vstd::prelude::*;
use vstd::utf8::encode_utf8;

use crate::vt::attrs::Attrs;
use crate::vt::escape::{erase_chars, move_from_to, repeated};
use crate::vt::format::{goto, recolored, Pen};
use crate::vt::grid::{GridModel, Pos};
use crate::vt::replay::contents::{
    drawable_rows, partly, run_alike, scene_begins, scene_ends, scene_of,
};
use crate::vt::replay::ground::{back_draws, feed_draws, move_draws, Setting};
use crate::vt::replay::rows::{end_is_a_character, end_is_redrawn, end_replaced};
use crate::vt::replay::sweep::{
    flows_on, pen_moves, pen_recolors, run_is_erased, space_is_a_byte, space_is_legible, space_at_end_marks,
    row_replaced, spaced, Scene,
};
use crate::vt::replay::text::cell_draws;
use crate::vt::replay::token::{draws, drawing_goes_on, token_draws, Token};
use crate::vt::row::RowModel;
use crate::vt::screen::ScreenModel;

verus! {

/// A terminal that shows all rows, and the pen with it.
pub open spec fn wholly<T>(
    u: ScreenModel<T>,
    pen: Pen,
    rows: Seq<RowModel<T>>,
    setting: Setting,
) -> bool {
    partly(u, pen, rows, rows, 0, setting)
}

/// Without scrollback in view, what is in view are the rows.
pub(crate) proof fn rows_in_view<T>(g: GridModel<T>)
    requires
        g.wf(),
        g.scrollback_offset == 0,
    ensures
        g.visible() == g.rows,
{
    assert(g.visible() =~= g.rows);
}

proof fn whole_at<T>(u: ScreenModel<T>, pen: Pen, rows: Seq<RowModel<T>>, setting: Setting, n: int)
    requires
        wholly(u, pen, rows, setting),
        0 <= n <= rows.len(),
    ensures
        partly(u, pen, rows, rows, n, setting),
{
    let g = u.active();
    assert forall|i: int| 0 <= i < n && i < g.rows.len() implies (#[trigger] g.rows[i]).shows(
        rows[i],
    ) by {}
}

pub(crate) proof fn whole_again<T>(u: ScreenModel<T>, pen: Pen, rows: Seq<RowModel<T>>, setting: Setting, n: int)
    requires
        partly(u, pen, rows, rows, n, setting),
    ensures
        wholly(u, pen, rows, setting),
{
    let g = u.active();
    assert forall|i: int| 0 <= i < g.rows.len() && 0 <= i implies (#[trigger] g.rows[i]).shows(
        rows[i],
    ) by {
        if i < n {
        } else {
        }
    }
}

/// The scene of one row of a terminal that shows all rows: the row is done.
proof fn done_scene<T>(
    u: ScreenModel<T>,
    pen: Pen,
    rows: Seq<RowModel<T>>,
    setting: Setting,
    i: int,
) -> (s: Scene<T>)
    requires
        wholly(u, pen, rows, setting),
        drawable_rows(rows, u.active().size.cols as int),
        0 <= i < rows.len(),
    ensures
        s == scene_of(u, rows[i], rows[i], i, false),
        s.sound(),
        s.row.legible(),
        s.reached(u, pen, u.active().size.cols as int),
{
    whole_at(u, pen, rows, setting, i);
    scene_begins(u, pen, rows, rows, i, setting, false);
    let s = scene_of(u, rows[i], rows[i], i, false);
    assert(rows[i].legible());
    assert(rows[i].wf(u.active().size.cols as int));
    let cells = u.active().rows[i].cells;
    assert(u.active().rows[i].shows(rows[i]));
    assert forall|j: int| 0 <= j < s.line.cols implies (#[trigger] cells[j]).shows(
        s.row.cells[j],
    ) by {
        assert(u.active().rows[i].cells[j].shows(rows[i].cells[j]));
    }
    s
}

/// Drawing on one row of a terminal that shows all rows, and on no other, leaves them running on as
/// they do.
proof fn runs_stay<T>(
    s: Scene<T>,
    u: ScreenModel<T>,
    v: ScreenModel<T>,
    rows: Seq<RowModel<T>>,
    i: int,
)
    requires
        0 <= i < rows.len() <= u16::MAX,
        s == scene_of(u, rows[i], rows[i], i, false),
        s.sound(),
        s.row.legible(),
        u.active().rows.len() == rows.len(),
        s.flows(u, v),
    ensures
        run_alike(u.active().rows, rows) ==> run_alike(v.active().rows, rows),
{
    let a = u.active().rows;
    let b = v.active().rows;
    let cols = s.line.cols as int;
    assert(!s.breaks()) by {
        if s.breaks() {
            assert(s.row.cells[cols - 2].legible());
        }
    }
    if run_alike(a, rows) {
        assert forall|k: int| 0 <= k < b.len() - 1 implies (#[trigger] b[k]).wrapped
            == rows[k].wrapped by {
            assert(a[k].wrapped == rows[k].wrapped);
        }
    }
}

/// The last character of a row is drawn once more, which leaves the cursor behind it.
proof fn end_row_is_redrawn<T>(
    g: GridModel<T>,
    w: ScreenModel<T>,
    out: Seq<u8>,
    u: ScreenModel<T>,
    pen: Pen,
    row: int,
) -> (v: ScreenModel<T>)
    requires
        drawable_rows(g.rows, g.size.cols as int),
        g.rows.len() == g.size.rows,
        u.active().size == g.size,
        draws(w, out, u),
        wholly(u, pen, g.rows, u.setting()),
        0 <= row < g.size.rows,
        g.end_cell(row).text.len() > 0,
    ensures
        draws(w, out + g.end_redrawn(row, Some(pen.pos), pen.attrs), v),
        wholly(v, Pen { pos: Pos { row: row as u16, col: g.size.cols }, ..pen }, g.rows, u.setting()),
        v.active().size == g.size,
        run_alike(u.active().rows, g.rows) ==> run_alike(v.active().rows, g.rows),
{
    let cols = g.size.cols as int;
    let s = done_scene(u, pen, g.rows, u.setting(), row);
    end_is_a_character(g.rows[row], cols);
    assert(g.rows[row].wf(cols));
    assert(g.rows[row].cells.last() == g.rows[row].cells[cols - 1]);
    assert(g.end_col(row) == g.rows[row].end_col());
    let cell = g.end_cell(row);
    let pos = Pos { row: row as u16, col: g.end_col(row) as u16 };
    let x = pen_moves(s, w, out, u, pen, cols, pos);
    let a = out + move_from_to(pen.pos, pos);
    let p = Pen { pos, ..pen };
    let y = pen_recolors(s, w, a, x, p, cols, cell.attrs);
    let (b, q) = recolored(a, p, cell.attrs);
    let z = end_is_redrawn(s, w, b, y, q);
    let r = Pen { pos: Pos { row: row as u16, col: g.size.cols }, ..q };
    let c = b + encode_utf8(cell.text);
    let v = pen_recolors(s, w, c, z, r, cols, pen.attrs);
    let (d, t) = recolored(c, r, pen.attrs);
    assert(d =~= out + g.end_redrawn(row, Some(pen.pos), pen.attrs));
    assert(t == (Pen { pos: Pos { row: row as u16, col: g.size.cols }, ..pen }));
    flows_on(s, u, x, y);
    flows_on(s, u, y, z);
    flows_on(s, u, z, v);
    runs_stay(s, u, v, g.rows, row);
    whole_at(u, pen, g.rows, u.setting(), row);
    scene_ends(u, v, pen, t, g.rows, g.rows, row, u.setting(), false);
    whole_again(v, t, g.rows, u.setting(), row + 1);
    v
}

/// Line feeds move the cursor down.
proof fn feeds_move_down<T>(
    g: GridModel<T>,
    w: ScreenModel<T>,
    out: Seq<u8>,
    u: ScreenModel<T>,
    pen: Pen,
    n: int,
) -> (v: ScreenModel<T>)
    requires
        draws(w, out, u),
        wholly(u, pen, g.rows, u.setting()),
        u.active().size == g.size,
        n >= 0,
        pen.pos.row + n < g.size.rows,
    ensures
        draws(w, out + repeated('\n' as u8, n), v),
        wholly(
            v,
            Pen { pos: Pos { row: (pen.pos.row + n) as u16, col: pen.pos.col }, ..pen },
            g.rows,
            u.setting(),
        ),
        v.active().size == g.size,
        v.active().rows == u.active().rows,
    decreases n,
{
    if n == 0 {
        assert(out + repeated('\n' as u8, 0) =~= out);
        u
    } else {
        let x = feeds_move_down(g, w, out, u, pen, n - 1);
        feed_draws(x);
        let v = x.on_grid(x.active().at(x.active().pos.row + 1, x.active().pos.col as int));
        drawing_goes_on(w, out + repeated('\n' as u8, n - 1), x, seq!['\n' as u8], v);
        assert(out + repeated('\n' as u8, n - 1) + seq!['\n' as u8] =~= out + repeated(
            '\n' as u8,
            n,
        ));
        v
    }
}

/// The cursor is saved.
proof fn save_draws<T>(u: ScreenModel<T>)
    ensures
        draws(u, seq![0x1bu8, '7' as u8], u.saved()),
{
    token_draws(u, Token::Escape('7' as u8));
}

/// The cursor comes back.
proof fn restore_draws<T>(u: ScreenModel<T>)
    ensures
        draws(u, seq![0x1bu8, '8' as u8], u.restored()),
{
    token_draws(u, Token::Escape('8' as u8));
}

/// A space in the last column, where that is to be empty, takes the pen behind it.
proof fn space_is_put_at_end<T>(
    z: Scene<T>,
    w: ScreenModel<T>,
    out: Seq<u8>,
    u: ScreenModel<T>,
    pen: Pen,
) -> (v: ScreenModel<T>)
    requires
        z.sound(),
        draws(w, out, u),
        z.reached(u, pen, z.line.cols - 1),
        pen.pos == (Pos { row: z.line.row, col: (z.line.cols - 1) as u16 }),
        !z.row.cells[z.line.cols - 1].looks_like(z.was[z.line.cols - 1]),
        !z.row.cells[z.line.cols - 1].cont(),
    ensures
        draws(w, out.push(' ' as u8), v),
        z.reached(
            v,
            Pen { pos: Pos { row: z.line.row, col: z.line.cols }, ..pen },
            z.line.cols - 1,
        ),
        !z.row.wrapped ==> z.flows(u, v),
{
    let cell = spaced::<T>();
    let e = z.line.cols - 1;
    let row = z.line.row as int;
    space_is_legible::<T>();
    space_is_a_byte();
    let v = cell_draws(u, cell);
    drawing_goes_on(w, out, u, encode_utf8(cell.text), v);
    assert(out + encode_utf8(cell.text) =~= out.push(' ' as u8));
    let old_row = u.active().rows[row];
    assert(old_row.wf(z.line.cols as int));
    space_at_end_marks(z, old_row, cell, u.attrs);
    assert(v.active().rows[row] == old_row.put(e, cell, cell.text, u.attrs));
    row_replaced(z, u, v, pen, e, Pos { row: z.line.row, col: z.line.cols });
    v
}

/// The space in the last column is emptied again without moving the cursor.
proof fn space_is_taken_back<T>(
    z: Scene<T>,
    w: ScreenModel<T>,
    out: Seq<u8>,
    u: ScreenModel<T>,
    pen: Pen,
) -> (v: ScreenModel<T>)
    requires
        z.sound(),
        draws(w, out, u),
        z.reached(u, pen, z.line.cols - 1),
        pen.pos == (Pos { row: z.line.row, col: z.line.cols }),
        z.run_of(z.line.cols - 1, z.line.cols as int, pen.attrs),
    ensures
        draws(
            w,
            out + seq![0x1bu8, '7' as u8] + seq![8u8] + erase_chars(1) + seq![0x1bu8, '8' as u8],
            v,
        ),
        z.reached(v, pen, z.line.cols as int),
        z.flows(u, v),
{
    let e = (z.line.cols - 1) as u16;
    save_draws(u);
    let a = u.saved();
    drawing_goes_on(w, out, u, seq![0x1bu8, '7' as u8], a);
    let out1 = out + seq![0x1bu8, '7' as u8];
    back_draws(a);
    let b = a.on_grid(a.active().col_moved_left(1));
    drawing_goes_on(w, out1, a, seq![8u8], b);
    let out2 = out1 + seq![8u8];
    let p = Pen { pos: Pos { row: z.line.row, col: e }, ..pen };
    assert(z.reached(b, p, e as int));
    let c = run_is_erased(z, w, out2, b, p, e, z.line.cols as int);
    let out3 = out2 + erase_chars(1);
    restore_draws(c);
    let v = c.restored();
    drawing_goes_on(w, out3, c, seq![0x1bu8, '8' as u8], v);
    assert(v.active().pos == pen.pos);
    assert(v.attrs == u.attrs);
    assert(v.active().rows == c.active().rows);
    assert(z.reached(v, pen, z.line.cols as int));
    v
}

/// A space is drawn in the empty last cell of the cursor's row and emptied again.
proof fn blank_is_drawn_over<T>(
    g: GridModel<T>,
    w: ScreenModel<T>,
    out: Seq<u8>,
    u: ScreenModel<T>,
    pen: Pen,
) -> (v: ScreenModel<T>)
    requires
        drawable_rows(g.rows, g.size.cols as int),
        g.rows.len() == g.size.rows,
        g.pos.row < g.size.rows,
        u.active().size == g.size,
        draws(w, out, u),
        wholly(u, pen, g.rows, u.setting()),
        g.end_cell(g.pos.row as int).text.len() == 0,
    ensures
        draws(
            w,
            out + g.over_blank(
                Some(pen.pos),
                pen.attrs,
                g.rows[g.pos.row as int].cells[g.size.cols - 1].attrs,
            ),
            v,
        ),
        wholly(v, Pen { pos: Pos { row: g.pos.row, col: g.size.cols }, ..pen }, g.rows, u.setting()),
        v.active().size == g.size,
        run_alike(u.active().rows, g.rows) ==> run_alike(v.active().rows, g.rows),
{
    let cols = g.size.cols as int;
    let row = g.pos.row as int;
    let s = done_scene(u, pen, g.rows, u.setting(), row);
    end_is_a_character(g.rows[row], cols);
    assert(g.rows[row].wf(cols));
    assert(g.rows[row].cells.last() == g.rows[row].cells[cols - 1]);
    let e = cols - 1;
    let cell = g.rows[row].cells[e];
    assert(g.end_col(row) == e) by {
        if cell.cont() {
            assert(g.rows[row].cells[cols - 2].wide());
            assert(g.rows[row].cells[cols - 2].legible());
        }
    }
    assert(cell.legible());
    space_is_legible::<T>();
    let z = end_replaced(s, e, spaced::<T>(), spaced::<T>());
    assert(!z.row.cells[e].looks_like(z.was[e])) by {
        assert(z.was[e].text.len() == 1);
    }
    let cells = u.active().rows[row].cells;
    assert(z.marked(cells, e)) by {
        assert forall|i: int| 0 <= i < cols implies (#[trigger] cells[i]).shows(
            s.row.cells[i],
        ) by {
            assert(s.marked(cells, cols));
        }
    }
    assert(z.reached(u, pen, e));
    let pos = Pos { row: g.pos.row, col: e as u16 };
    let x = pen_moves(z, w, out, u, pen, e, pos);
    let a = out + move_from_to(pen.pos, pos);
    let p = Pen { pos, ..pen };
    let y = space_is_put_at_end(z, w, a, x, p);
    let q = Pen { pos: Pos { row: g.pos.row, col: g.size.cols }, ..p };
    let b = a.push(' ' as u8);
    let t = pen_recolors(z, w, b, y, q, e, cell.attrs);
    let (c, r) = recolored(b, q, cell.attrs);
    let k = space_is_taken_back(z, w, c, t, r);
    let d = c + seq![0x1bu8, '7' as u8] + seq![8u8] + erase_chars(1) + seq![0x1bu8, '8' as u8];
    let v = pen_recolors(z, w, d, k, r, cols, pen.attrs);
    let (f, o) = recolored(d, r, pen.attrs);
    over_blank_spelled(g, out, pen, cell.attrs);
    assert(f == out + g.over_blank(Some(pen.pos), pen.attrs, cell.attrs));
    assert(s.reached(v, o, cols)) by {
        let n = v.active().rows[row].cells;
        assert(z.marked(n, cols));
        assert forall|i: int| 0 <= i < cols && i < s.line.cols implies (#[trigger] n[i]).shows(
            s.row.cells[i],
        ) by {}
    }
    assert(!s.row.wrapped);
    flows_on(z, u, x, y);
    flows_on(z, u, y, t);
    flows_on(z, u, t, k);
    flows_on(z, u, k, v);
    assert(s.flows(u, v));
    runs_stay(s, u, v, g.rows, row);
    whole_at(u, pen, g.rows, u.setting(), row);
    scene_ends(u, v, pen, o, g.rows, g.rows, row, u.setting(), false);
    whole_again(v, o, g.rows, u.setting(), row + 1);
    v
}

proof fn over_blank_spelled<T>(g: GridModel<T>, out: Seq<u8>, pen: Pen, end: Attrs)
    ensures
        (out + move_from_to(
            pen.pos,
            Pos { row: g.pos.row, col: (g.size.cols - 1) as u16 },
        )).push(' ' as u8) + end.escape_from(pen.attrs) + seq![0x1bu8, '7' as u8] + seq![8u8]
            + erase_chars(1) + seq![0x1bu8, '8' as u8] + pen.attrs.escape_from(end) == out
            + g.over_blank(Some(pen.pos), pen.attrs, end),
{
    let m = move_from_to(pen.pos, Pos { row: g.pos.row, col: (g.size.cols - 1) as u16 });
    let x = end.escape_from(pen.attrs);
    let y = pen.attrs.escape_from(end);
    let k = erase_chars(1);
    assert((out + m).push(' ' as u8) + x + seq![0x1bu8, '7' as u8] + seq![8u8] + k + seq![
        0x1bu8,
        '8' as u8,
    ] + y =~= out + (m.push(' ' as u8) + x + seq![0x1bu8, '7' as u8, 8] + k + seq![
        0x1bu8,
        '8' as u8,
    ] + y));
}

/// The bytes that move the cursor where it is in a grid move it there, on a terminal that shows the
/// grid.
pub(crate) proof fn cursor_is_placed<T>(
    g: GridModel<T>,
    w: ScreenModel<T>,
    out: Seq<u8>,
    u: ScreenModel<T>,
    pen: Pen,
) -> (v: ScreenModel<T>)
    requires
        g.wf(),
        g.allocated(),
        g.viewable(),
        g.legible(),
        drawable_rows(g.visible(), g.size.cols as int),
        u.active().size == g.size,
        draws(w, out, u),
        wholly(u, pen, g.visible(), u.setting()),
    ensures
        draws(w, out + g.cursor_from(Some(pen.pos), pen.attrs), v),
        wholly(v, Pen { pos: g.pos, ..pen }, g.visible(), u.setting()),
        v.active().size == g.size,
        run_alike(u.active().rows, g.visible()) ==> run_alike(v.active().rows, g.visible()),
{
    let row = g.pos.row as int;
    let from = Some(pen.pos);
    if from == Some(g.pos) || g.pos.col < g.size.cols {
        move_draws(u, g.pos);
        let v = u.on_grid(u.active().at(g.pos.row as int, g.pos.col as int));
        drawing_goes_on(w, out, u, move_from_to(pen.pos, g.pos), v);
        assert(goto(from, g.pos) == move_from_to(pen.pos, g.pos));
        v
    } else {
        rows_in_view(g);
        assert(g.pos.col == g.size.cols);
        if g.end_cell(row).text.len() > 0 {
            end_row_is_redrawn(g, w, out, u, pen, row)
        } else {
            match g.full_above(row) {
                Some(above) => {
                    full_above_is_full(g, row);
                    let there = from is Some && from->Some_0.row == above && from->Some_0.col
                        >= g.size.cols;
                    let p = Pen { pos: Pos { row: above as u16, col: g.size.cols }, ..pen };
                    if there {
                        assert(p == pen);
                        let v = feeds_move_down(g, w, out, u, pen, row - above);
                        assert(out + repeated('\n' as u8, row - above) =~= out + (Seq::<
                            u8,
                        >::empty() + repeated('\n' as u8, row - above)));
                        v
                    } else {
                        let x = end_row_is_redrawn(g, w, out, u, pen, above);
                        let a = g.end_redrawn(above, from, pen.attrs);
                        let v = feeds_move_down(g, w, out + a, x, p, row - above);
                        assert(out + a + repeated('\n' as u8, row - above) =~= out + (a + repeated(
                            '\n' as u8,
                            row - above,
                        )));
                        v
                    }
                },
                None => blank_is_drawn_over(g, w, out, u, pen),
            }
        }
    }
}

proof fn full_above_is_full<T>(g: GridModel<T>, row: int)
    requires
        g.full_above(row) is Some,
    ensures
        0 <= g.full_above(row)->Some_0 < row,
        g.end_cell(g.full_above(row)->Some_0).text.len() > 0,
    decreases row,
{
    if row > 0 && g.end_cell(row - 1).text.len() == 0 {
        full_above_is_full(g, row - 1);
    }
}

} // verus!
