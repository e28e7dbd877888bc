//! Escape sequences that draw a screen, or turn one screen into another.
use vstd::prelude::*;
use vstd::utf8::encode_utf8;

use crate::vt::attrs::Attrs;
use crate::vt::cell::{Cell, CellModel};
use crate::vt::escape::{
    clear_screen, csi, erase_chars, move_from_to, move_to, push_bytes, push_clear_attrs,
    push_clear_row_forward, push_clear_screen, push_erase_chars, push_move_from_to, push_move_to,
    push_repeated, repeated,
};
use crate::vt::grid::{least, Grid, GridModel, Pos};
use crate::vt::row::{Row, RowModel};

verus! {

/// Where the drawing terminal's cursor is, the attributes it draws with, and the start and
/// attributes of a run of empty cells that is still to be drawn.
#[derive(Clone, Copy, Debug)]
pub struct Pen {
    pub pos: Pos,
    pub attrs: Attrs,
    pub erase: Option<(u16, Attrs)>,
}

/// The row that is drawn: its number, its width, and whether the row above runs on into it.
#[derive(Clone, Copy, Debug, PartialEq, Eq, Structural)]
pub struct Line {
    pub row: u16,
    pub cols: u16,
    pub wrapping: bool,
}

/// A space that is drawn and stepped back from.
pub open spec fn space_and_back() -> Seq<u8> {
    seq![' ' as u8, 8]
}

/// The pen moved to a column of the line whose cell is empty. To the first column behind the end
/// of a row that runs on a space takes it, so that the terminal wraps too.
pub open spec fn to_blank(out: Seq<u8>, pen: Pen, line: Line, col: u16) -> (Seq<u8>, Pen) {
    let pos = Pos { row: line.row, col };
    let moved = if line.wrapping && pen.pos.row + 1 == line.row && pen.pos.col >= line.cols && col
        == 0 {
        out + space_and_back()
    } else {
        out + move_from_to(pen.pos, pos)
    };
    (moved, Pen { pos, ..pen })
}

/// The pen drawing with other attributes.
pub open spec fn recolored(out: Seq<u8>, pen: Pen, attrs: Attrs) -> (Seq<u8>, Pen) {
    (out + attrs.escape_from(pen.attrs), Pen { attrs, ..pen })
}

/// A pending run of empty cells drawn up to column `col`.
pub open spec fn flushed(out: Seq<u8>, pen: Pen, line: Line, col: u16) -> (Seq<u8>, Pen) {
    match pen.erase {
        Some((from, attrs)) => {
            let (a, p) = to_blank(out, pen, line, from);
            let (b, q) = recolored(a, p, attrs);
            (b + erase_chars(col - from), Pen { erase: None, ..q })
        },
        None => (out, pen),
    }
}

/// A pending run of empty cells drawn up to the end of the row.
pub open spec fn finished(out: Seq<u8>, pen: Pen, line: Line) -> (Seq<u8>, Pen) {
    match pen.erase {
        Some((from, attrs)) => {
            let (a, p) = to_blank(out, pen, line, from);
            let (b, q) = recolored(a, p, attrs);
            (b + csi().push('K' as u8), Pen { erase: None, ..q })
        },
        None => (out, pen),
    }
}

/// The number of columns of a drawn cell.
pub open spec fn span<T>(cell: CellModel<T>) -> int {
    if cell.wide() {
        2
    } else {
        1
    }
}

/// A cell with text drawn. In the first column of a row that the row above runs on into, the
/// terminal wraps by itself.
pub open spec fn drawn_cell<T>(
    out: Seq<u8>,
    pen: Pen,
    line: Line,
    col: u16,
    cell: CellModel<T>,
) -> (Seq<u8>, Pen) {
    let pos = Pos { row: line.row, col };
    let wraps = line.wrapping && pen.pos.row + 1 == line.row && pen.pos.col >= line.cols - (span(
        cell,
    ) - 1) && col == 0;
    let a = if wraps {
        out
    } else {
        out + move_from_to(pen.pos, pos)
    };
    let (b, q) = recolored(a, pen, cell.attrs);
    (
        b + encode_utf8(cell.text),
        Pen { pos: Pos { row: line.row, col: (col + span(cell)) as u16 }, ..q },
    )
}

/// One cell of a row taken up: a pending run that it does not belong to is drawn, and if the
/// cell changed it is drawn, or begins a run of empty cells.
pub open spec fn stepped<T>(
    out: Seq<u8>,
    pen: Pen,
    line: Line,
    col: u16,
    cell: CellModel<T>,
    changed: bool,
) -> (Seq<u8>, Pen) {
    let has_text = cell.text.len() > 0;
    let (a, p) = if pen.erase is Some && (has_text || cell.attrs != pen.erase->Some_0.1) {
        flushed(out, pen, line, col)
    } else {
        (out, pen)
    };
    if !changed {
        (a, p)
    } else if has_text {
        drawn_cell(a, p, line, col, cell)
    } else if p.erase is None {
        (a, Pen { erase: Some((col, cell.attrs)), ..p })
    } else {
        (a, p)
    }
}

/// Whether a cell differs from the one in the same column of `old`, or from an empty one.
pub open spec fn differs<T>(row: RowModel<T>, old: Option<RowModel<T>>, col: int) -> bool {
    match old {
        Some(prev) => !row.cells[col].looks_like(prev.cells[col]),
        None => !row.cells[col].looks_like(CellModel::blank(Attrs::plain())),
    }
}

/// The columns from `start` up to `end` taken up.
pub open spec fn swept<T>(
    out: Seq<u8>,
    pen: Pen,
    line: Line,
    row: RowModel<T>,
    old: Option<RowModel<T>>,
    start: int,
    end: int,
) -> (Seq<u8>, Pen)
    decreases end - start,
{
    if end <= start {
        (out, pen)
    } else {
        let (a, p) = swept(out, pen, line, row, old, start, end - 1);
        if row.skips(start, end - 1) {
            (a, p)
        } else {
            stepped(
                a,
                p,
                line,
                (end - 1) as u16,
                row.cells[end - 1],
                differs(row, old, end - 1),
            )
        }
    }
}

impl<T> RowModel<T> {
    /// Where drawing a row begins: at its start, or behind the end of the row above where that
    /// runs on.
    pub open spec fn first_pos(self, row: u16, start: u16, wrapping: bool) -> Pos {
        if wrapping {
            Pos { row: (row - 1) as u16, col: self.cells.len() as u16 }
        } else {
            Pos { row, col: start }
        }
    }

    /// The bytes that draw `width` columns of the row from `start` on, and the pen after them.
    pub open spec fn formatted(
        self,
        out: Seq<u8>,
        start: u16,
        width: u16,
        row: u16,
        wrapping: bool,
        pen: Pen,
    ) -> (Seq<u8>, Pen) {
        let line = Line { row, cols: self.cells.len() as u16, wrapping };
        let (a, p) = if wrapping && self.cells[start as int].looks_like(
            CellModel::blank(Attrs::plain()),
        ) {
            let (b, q) = recolored(out, pen, Attrs::plain());
            (b + space_and_back() + erase_chars(1), Pen { pos: Pos { row, col: 0 }, ..q })
        } else {
            (out, pen)
        };
        let end = least(start + width, self.cells.len() as int);
        let (b, q) = swept(a, p, line, self, None, start as int, end);
        finished(b, q, line)
    }

    /// The first cell of the row drawn once more where the row above runs on into it as it did not
    /// before, and the cell itself did not change.
    pub open spec fn restarted(
        self,
        out: Seq<u8>,
        prev: RowModel<T>,
        start: u16,
        row: u16,
        newly_wrapping: bool,
        pen: Pen,
    ) -> (Seq<u8>, Pen) {
        let first = self.cells[start as int];
        if newly_wrapping && first.looks_like(prev.cells[start as int]) && pen.pos.row + 1 == row
            && pen.pos.col >= self.cells.len() - (span(first) - 1) {
            let (b, q) = recolored(out, pen, first.attrs);
            (
                b + if first.text.len() == 0 {
                    space_and_back() + erase_chars(1)
                } else {
                    encode_utf8(first.text) + repeated(8, span(first))
                },
                Pen { pos: Pos { row, col: 0 }, ..q },
            )
        } else {
            (out, pen)
        }
    }

    /// The bytes that turn `width` columns of the row `prev`, from `start` on, into this row's,
    /// and the pen after them.
    pub open spec fn diffed(
        self,
        out: Seq<u8>,
        prev: RowModel<T>,
        start: u16,
        width: u16,
        row: u16,
        wrapping: bool,
        prev_wrapping: bool,
        pen: Pen,
    ) -> (Seq<u8>, Pen) {
        let line = Line { row, cols: self.cells.len() as u16, wrapping };
        let (a, p) = self.restarted(out, prev, start, row, wrapping && !prev_wrapping, pen);
        let end = least(
            start + width,
            least(self.cells.len() as int, prev.cells.len() as int),
        );
        let (b, q) = swept(a, p, line, self, Some(prev), start as int, end);
        let (c, r) = finished(b, q, line);
        if self.wrapped != prev.wrapped {
            self.rewrapped(c, r, row)
        } else {
            (c, r)
        }
    }

    /// The end of the row drawn once more, emptied before where it no longer runs on.
    pub open spec fn rewrapped(self, out: Seq<u8>, pen: Pen, row: u16) -> (Seq<u8>, Pen) {
        let n = self.cells.len();
        let col = if self.cells[n - 1].cont() {
            n - 2
        } else {
            n - 1
        };
        let pos = Pos { row, col: col as u16 };
        let cell = self.cells[col];
        let (b, q) = recolored(out + move_from_to(pen.pos, pos), pen, cell.attrs);
        let c = b + if self.wrapped {
            Seq::empty()
        } else {
            erase_chars(1)
        };
        if cell.text.len() > 0 {
            (
                c + encode_utf8(cell.text),
                Pen { pos: Pos { row, col: (col + span(cell)) as u16 }, ..q },
            )
        } else {
            (c, Pen { pos, ..q })
        }
    }
}

fn to_blank_at(out: &mut Vec<u8>, pen: Pen, line: Line, col: u16) -> (r: Pen)
    requires
        pen.pos.row < u16::MAX,
        line.row < u16::MAX,
        col < u16::MAX,
    ensures
        (final(out)@, r) == to_blank(old(out)@, pen, line, col),
{
    let pos = Pos { row: line.row, col };
    if line.wrapping && pen.pos.row + 1 == line.row && pen.pos.col >= line.cols && col == 0 {
        push_space_and_back(out);
    } else {
        push_move_from_to(out, pen.pos, pos);
    }
    Pen { pos, ..pen }
}

fn push_space_and_back(out: &mut Vec<u8>)
    ensures
        final(out)@ == old(out)@ + space_and_back(),
{
    out.push(' ' as u8);
    out.push(8);
    proof {
        assert(out@ =~= old(out)@ + space_and_back());
    }
}

fn recolor(out: &mut Vec<u8>, pen: Pen, attrs: Attrs) -> (r: Pen)
    ensures
        (final(out)@, r) == recolored(old(out)@, pen, attrs),
{
    attrs.write_escape_code_diff(out, &pen.attrs);
    Pen { attrs, ..pen }
}

fn finish(out: &mut Vec<u8>, pen: Pen, line: Line) -> (r: Pen)
    requires
        pen.pos.row < u16::MAX,
        line.row < u16::MAX,
        pen.erase is Some ==> pen.erase->Some_0.0 < u16::MAX,
    ensures
        (final(out)@, r) == finished(old(out)@, pen, line),
        r.erase is None,
{
    match pen.erase {
        Some((from, attrs)) => {
            let p = to_blank_at(out, pen, line, from);
            let q = recolor(out, p, attrs);
            push_clear_row_forward(out);
            Pen { erase: None, ..q }
        },
        None => pen,
    }
}

fn step<T>(
    out: &mut Vec<u8>,
    pen: Pen,
    line: Line,
    col: u16,
    cell: &Cell<T>,
    changed: bool,
) -> (r: Pen)
    requires
        pen.pos.row < u16::MAX,
        line.row < u16::MAX,
        line.cols > 0,
        col + span(cell@) <= u16::MAX,
        pen.erase is Some ==> pen.erase->Some_0.0 <= col,
    ensures
        (final(out)@, r) == stepped(old(out)@, pen, line, col, cell@, changed),
        r.pos.row == pen.pos.row || r.pos.row == line.row,
        r.erase is Some ==> r.erase->Some_0.0 <= col,
{
    let has_text: bool = cell.has_contents();
    let mut p: Pen = pen;
    if let Some((from, attrs)) = pen.erase {
        if has_text || cell.attrs() != attrs {
            let q = to_blank_at(out, pen, line, from);
            let q = recolor(out, q, attrs);
            push_erase_chars(out, col - from);
            p = Pen { erase: None, ..q };
        }
    }
    if !changed {
        return p;
    }
    if has_text {
        let wide: bool = cell.is_wide();
        let margin: u16 = if wide {
            line.cols - 1
        } else {
            line.cols
        };
        let wraps: bool = line.wrapping && p.pos.row + 1 == line.row && p.pos.col >= margin && col
            == 0;
        if !wraps {
            push_move_from_to(out, p.pos, Pos { row: line.row, col });
        }
        let q = recolor(out, p, cell.attrs());
        push_bytes(out, cell.contents().as_bytes());
        let next: u16 = if wide {
            col + 2
        } else {
            col + 1
        };
        return Pen { pos: Pos { row: line.row, col: next }, ..q };
    }
    match p.erase {
        None => Pen { erase: Some((col, cell.attrs())), ..p },
        Some(_) => p,
    }
}

impl<T> Row<T> {
    fn sweep(
        &self,
        out: &mut Vec<u8>,
        pen: Pen,
        line: Line,
        old_row: Option<&Row<T>>,
        start: u16,
        end: usize,
    ) -> (r: Pen)
        requires
            self@.wf(self@.cells.len() as int),
            0 < self@.cells.len() <= u16::MAX,
            line.cols == self@.cells.len(),
            pen.pos.row < u16::MAX,
            line.row < u16::MAX,
            end <= self@.cells.len(),
            old_row is Some ==> end <= (old_row->Some_0)@.cells.len(),
            pen.erase is None,
        ensures
            old_row is None ==> (final(out)@, r) == swept(
                old(out)@,
                pen,
                line,
                self@,
                None,
                start as int,
                end as int,
            ),
            old_row is Some ==> (final(out)@, r) == swept(
                old(out)@,
                pen,
                line,
                self@,
                Some((old_row->Some_0)@),
                start as int,
                end as int,
            ),
            r.pos.row == pen.pos.row || r.pos.row == line.row,
            r.erase is Some ==> r.erase->Some_0.0 < end,
    {
        let blank: Cell<T> = Cell::new();
        let ghost old_model: Option<RowModel<T>> = match old_row {
            Some(o) => Some(o@),
            None => None,
        };
        let mut p: Pen = pen;
        let mut col: usize = start as usize;
        while col < end
            invariant
                self@.wf(self@.cells.len() as int),
                0 < self@.cells.len() <= u16::MAX,
                line.cols == self@.cells.len(),
                pen.pos.row < u16::MAX,
                line.row < u16::MAX,
                end <= self@.cells.len(),
                old_row is Some ==> end <= (old_row->Some_0)@.cells.len(),
                blank@ == CellModel::<T>::blank(Attrs::plain()),
                old_model == (match old_row {
                    Some(o) => Some(o@),
                    None => None,
                }),
                start <= col,
                col <= end || col == start,
                (out@, p) == swept(
                    old(out)@,
                    pen,
                    line,
                    self@,
                    old_model,
                    start as int,
                    col as int,
                ),
                p.pos.row == pen.pos.row || p.pos.row == line.row,
                p.erase is Some ==> p.erase->Some_0.0 < col,
                col == start ==> p.erase is None,
            decreases end - col,
        {
            let cell = self.cell(col);
            let skip: bool = col > start as usize && self.cell(col - 1).is_wide();
            if !skip {
                let changed: bool = match old_row {
                    Some(o) => !cell.looks_like(o.cell(col)),
                    None => !cell.looks_like(&blank),
                };
                proof {
                    assert(cell@ == self@.cells[col as int]);
                    if cell@.wide() {
                        assert(self@.cells[col as int].wide());
                    }
                }
                p = step(out, p, line, col as u16, cell, changed);
            }
            col = col + 1;
        }
        p
    }

    /// Appends the bytes that draw `width` columns of the row from `start` on.
    pub fn write_contents_formatted(
        &self,
        out: &mut Vec<u8>,
        start: u16,
        width: u16,
        row: u16,
        wrapping: bool,
        pen: Pen,
    ) -> (r: Pen)
        requires
            self@.wf(self@.cells.len() as int),
            start < self@.cells.len() <= u16::MAX,
            row < u16::MAX,
            pen.pos.row < u16::MAX,
            pen.erase is None,
        ensures
            (final(out)@, r) == self@.formatted(old(out)@, start, width, row, wrapping, pen),
            r.pos.row == pen.pos.row || r.pos.row == row,
            r.erase is None,
    {
        let n: usize = self.len();
        let line = Line { row, cols: n as u16, wrapping };
        let blank: Cell<T> = Cell::new();
        let mut p: Pen = pen;
        if wrapping && self.cell(start as usize).looks_like(&blank) {
            p = recolor(out, p, Attrs::default());
            push_space_and_back(out);
            push_erase_chars(out, 1);
            p = Pen { pos: Pos { row, col: 0 }, ..p };
        }
        let stop: usize = start as usize + width as usize;
        let end: usize = if stop < n {
            stop
        } else {
            n
        };
        let q = self.sweep(out, p, line, None, start, end);
        finish(out, q, line)
    }

    /// Appends the bytes that turn `width` columns of `prev`, from `start` on, into this row's.
    pub fn write_contents_diff(
        &self,
        out: &mut Vec<u8>,
        prev: &Row<T>,
        start: u16,
        width: u16,
        row: u16,
        wrapping: bool,
        prev_wrapping: bool,
        pen: Pen,
    ) -> (r: Pen)
        requires
            self@.wf(self@.cells.len() as int),
            start < self@.cells.len() <= u16::MAX,
            start < prev@.cells.len(),
            row < u16::MAX,
            pen.pos.row < u16::MAX,
            pen.erase is None,
        ensures
            (final(out)@, r) == self@.diffed(
                old(out)@,
                prev@,
                start,
                width,
                row,
                wrapping,
                prev_wrapping,
                pen,
            ),
            r.pos.row == pen.pos.row || r.pos.row == row,
            r.erase is None,
    {
        let n: usize = self.len();
        let line = Line { row, cols: n as u16, wrapping };
        let p = self.restart(out, prev, start, row, wrapping && !prev_wrapping, pen);
        let stop: usize = start as usize + width as usize;
        let m: usize = prev.len();
        let shorter: usize = if n < m {
            n
        } else {
            m
        };
        let end: usize = if stop < shorter {
            stop
        } else {
            shorter
        };
        let q = self.sweep(out, p, line, Some(prev), start, end);
        let r = finish(out, q, line);
        if self.wrapped() != prev.wrapped() {
            self.rewrap(out, r, row)
        } else {
            r
        }
    }

    fn restart(
        &self,
        out: &mut Vec<u8>,
        prev: &Row<T>,
        start: u16,
        row: u16,
        newly_wrapping: bool,
        pen: Pen,
    ) -> (r: Pen)
        requires
            start < self@.cells.len() <= u16::MAX,
            start < prev@.cells.len(),
            pen.pos.row < u16::MAX,
        ensures
            (final(out)@, r) == self@.restarted(
                old(out)@,
                prev@,
                start,
                row,
                newly_wrapping,
                pen,
            ),
            r.pos.row == pen.pos.row || r.pos.row == row,
            r.erase == pen.erase,
    {
        let first = self.cell(start as usize);
        let wide: bool = first.is_wide();
        let margin: usize = if wide {
            self.len() - 1
        } else {
            self.len()
        };
        if !(newly_wrapping && first.looks_like(prev.cell(start as usize)) && pen.pos.row + 1 == row
            && pen.pos.col as usize >= margin) {
            return pen;
        }
        let p = recolor(out, pen, first.attrs());
        let ghost b = out@;
        if first.has_contents() {
            push_bytes(out, first.contents().as_bytes());
            push_repeated(
                out,
                8,
                if wide {
                    2
                } else {
                    1
                },
            );
            proof {
                assert(out@ =~= b + (encode_utf8(first@.text) + repeated(8, span(first@))));
            }
        } else {
            push_space_and_back(out);
            push_erase_chars(out, 1);
            proof {
                assert(out@ =~= b + (space_and_back() + erase_chars(1)));
            }
        }
        Pen { pos: Pos { row, col: 0 }, ..p }
    }

    fn rewrap(&self, out: &mut Vec<u8>, pen: Pen, row: u16) -> (r: Pen)
        requires
            self@.wf(self@.cells.len() as int),
            0 < self@.cells.len() <= u16::MAX,
            row < u16::MAX,
            pen.pos.row < u16::MAX,
        ensures
            (final(out)@, r) == self@.rewrapped(old(out)@, pen, row),
            r.pos.row == row,
            r.erase == pen.erase,
    {
        let n: usize = self.len();
        let col: usize = if self.cell(n - 1).is_wide_continuation() {
            n - 2
        } else {
            n - 1
        };
        let pos = Pos { row, col: col as u16 };
        push_move_from_to(out, pen.pos, pos);
        let cell = self.cell(col);
        let q = recolor(out, pen, cell.attrs());
        let ghost colored = out@;
        if !self.wrapped() {
            push_erase_chars(out, 1);
        }
        proof {
            assert(out@ =~= colored + if self@.wrapped {
                Seq::empty()
            } else {
                erase_chars(1)
            });
        }
        if cell.has_contents() {
            push_bytes(out, cell.contents().as_bytes());
            let wide: bool = cell.is_wide();
            proof {
                if wide {
                    assert(self@.cells[col as int].wide());
                }
            }
            let next: u16 = if wide {
                col as u16 + 2
            } else {
                col as u16 + 1
            };
            Pen { pos: Pos { row, col: next }, ..q }
        } else {
            Pen { pos, ..q }
        }
    }
}

impl<T> GridModel<T> {
    /// The bytes that draw the first `n` rows in view, and the pen after them.
    pub open spec fn rows_drawn(self, out: Seq<u8>, pen: Pen, n: int) -> (Seq<u8>, Pen)
        decreases n,
    {
        if n <= 0 {
            (out, pen)
        } else {
            let (a, p) = self.rows_drawn(out, pen, n - 1);
            self.visible()[n - 1].formatted(
                a,
                0,
                self.size.cols,
                (n - 1) as u16,
                n > 1 && self.visible()[n - 2].wrapped,
                p,
            )
        }
    }

    /// The bytes that clear a terminal and draw the rows in view and the cursor, and the
    /// attributes the terminal then draws with.
    pub open spec fn formatted(self) -> (Seq<u8>, Attrs) {
        let pen = Pen { pos: Pos { row: 0, col: 0 }, attrs: Attrs::plain(), erase: None };
        let (a, p) = self.rows_drawn(
            csi().push('m' as u8) + clear_screen(),
            pen,
            self.visible().len() as int,
        );
        (a + self.cursor_from(Some(p.pos), p.attrs), p.attrs)
    }

    /// The bytes that turn the first `n` rows in view of `prev` into this grid's, and the pen
    /// after them.
    pub open spec fn rows_redrawn(self, prev: GridModel<T>, pen: Pen, n: int) -> (Seq<u8>, Pen)
        decreases n,
    {
        if n <= 0 {
            (Seq::empty(), pen)
        } else {
            let (a, p) = self.rows_redrawn(prev, pen, n - 1);
            self.visible()[n - 1].diffed(
                a,
                prev.visible()[n - 1],
                0,
                self.size.cols,
                (n - 1) as u16,
                n > 1 && self.visible()[n - 2].wrapped,
                n > 1 && prev.visible()[n - 2].wrapped,
                p,
            )
        }
    }

    /// The bytes that turn the rows in view and the cursor of `prev` into this grid's, and the
    /// attributes the terminal then draws with.
    pub open spec fn diffed(self, prev: GridModel<T>, attrs: Attrs) -> (Seq<u8>, Attrs) {
        let pen = Pen { pos: prev.pos, attrs, erase: None };
        let n = least(self.visible().len() as int, prev.visible().len() as int);
        let (a, p) = self.rows_redrawn(prev, pen, n);
        (a + self.cursor_from(Some(p.pos), p.attrs), p.attrs)
    }

    /// The column of the last character's cell in a row.
    pub open spec fn end_col(self, row: int) -> int {
        if self.rows[row].cells[self.size.cols - 1].cont() {
            self.size.cols - 2
        } else {
            self.size.cols - 1
        }
    }

    pub open spec fn end_cell(self, row: int) -> CellModel<T> {
        self.rows[row].cells[self.end_col(row)]
    }

    /// The nearest row above `row` whose last column is drawn.
    pub open spec fn full_above(self, row: int) -> Option<int>
        decreases row,
    {
        if row <= 0 {
            None
        } else if self.end_cell(row - 1).text.len() > 0 {
            Some(row - 1)
        } else {
            self.full_above(row - 1)
        }
    }

    /// The last cell of a row drawn once more, which leaves the cursor behind it.
    pub open spec fn end_redrawn(self, row: int, from: Option<Pos>, attrs: Attrs) -> Seq<u8> {
        let cell = self.end_cell(row);
        goto(from, Pos { row: row as u16, col: self.end_col(row) as u16 }) + cell.attrs.escape_from(
            attrs,
        ) + encode_utf8(cell.text) + attrs.escape_from(cell.attrs)
    }

    /// A space drawn in the empty last cell of the cursor's row, which is then emptied again
    /// without moving the cursor.
    pub open spec fn over_blank(self, from: Option<Pos>, attrs: Attrs, end: Attrs) -> Seq<u8> {
        goto(from, Pos { row: self.pos.row, col: (self.size.cols - 1) as u16 }).push(' ' as u8)
            + end.escape_from(attrs) + seq![0x1b, '7' as u8, 8] + erase_chars(1) + seq![
            0x1b,
            '8' as u8,
        ] + attrs.escape_from(end)
    }

    /// The bytes that move the cursor where it is. Behind the last column it only gets by
    /// drawing there: the last cell of its row is drawn again, or that of a row above with line
    /// feeds after it, or an empty one is drawn over and emptied.
    pub open spec fn cursor_from(self, from: Option<Pos>, attrs: Attrs) -> Seq<u8> {
        let row = self.pos.row as int;
        if from == Some(self.pos) || self.pos.col < self.size.cols {
            goto(from, self.pos)
        } else if self.end_cell(row).text.len() > 0 {
            self.end_redrawn(row, from, attrs)
        } else {
            match self.full_above(row) {
                Some(above) => {
                    let there = from is Some && from->Some_0.row == above && from->Some_0.col
                        >= self.size.cols;
                    (if there {
                        Seq::empty()
                    } else {
                        self.end_redrawn(above, from, attrs)
                    }) + repeated('\n' as u8, row - above)
                },
                None => self.over_blank(
                    from,
                    attrs,
                    self.rows[row].cells[self.size.cols - 1].attrs,
                ),
            }
        }
    }
}

/// The bytes that move a cursor, from a known position or from anywhere.
pub open spec fn goto(from: Option<Pos>, to: Pos) -> Seq<u8> {
    match from {
        Some(f) => move_from_to(f, to),
        None => move_to(to.row as int, to.col as int),
    }
}

fn push_goto(out: &mut Vec<u8>, from: Option<Pos>, to: Pos)
    requires
        to.row < u16::MAX,
        from is Some ==> from->Some_0.row < u16::MAX,
        to.col < u16::MAX || from == Some(to),
    ensures
        final(out)@ == old(out)@ + goto(from, to),
{
    match from {
        Some(f) => push_move_from_to(out, f, to),
        None => push_move_to(out, to),
    }
}

impl<T> Grid<T> {
    fn push_end(&self, out: &mut Vec<u8>, row: u16, from: Option<Pos>, attrs: Attrs)
        requires
            self@.wf(),
            self@.allocated(),
            row < self@.size.rows,
            from is Some ==> from->Some_0.row < u16::MAX,
        ensures
            final(out)@ == old(out)@ + self@.end_redrawn(row as int, from, attrs),
    {
        let (cell, col) = self.end_of(row);
        push_goto(out, from, Pos { row, col });
        let end = cell.attrs();
        end.write_escape_code_diff(out, &attrs);
        push_bytes(out, cell.contents().as_bytes());
        attrs.write_escape_code_diff(out, &end);
        proof {
            assert(out@ =~= old(out)@ + self@.end_redrawn(row as int, from, attrs));
        }
    }

    fn end_of(&self, row: u16) -> (r: (&Cell<T>, u16))
        requires
            self@.wf(),
            self@.allocated(),
            row < self@.size.rows,
        ensures
            r.0@ == self@.end_cell(row as int),
            r.1 == self@.end_col(row as int),
            r.1 < self@.size.cols,
    {
        let cols: u16 = self.size().cols;
        let line = self.drawing_row(row);
        proof {
            assert(self@.rows[row as int].wf(cols as int));
        }
        let col: u16 = if line.cell(cols as usize - 1).is_wide_continuation() {
            cols - 2
        } else {
            cols - 1
        };
        (line.cell(col as usize), col)
    }

    /// Appends the bytes that move the cursor where it is.
    pub fn write_cursor_position_formatted(
        &self,
        out: &mut Vec<u8>,
        from: Option<Pos>,
        attrs: Attrs,
    )
        requires
            self@.wf(),
            self@.allocated(),
            from is Some ==> from->Some_0.row < u16::MAX,
        ensures
            final(out)@ == old(out)@ + self@.cursor_from(from, attrs),
    {
        let pos = self.pos();
        let cols: u16 = self.size().cols;
        let there: bool = match from {
            Some(f) => f == pos,
            None => false,
        };
        if there || pos.col < cols {
            push_goto(out, from, pos);
            return;
        }
        if self.end_of(pos.row).0.has_contents() {
            self.push_end(out, pos.row, from, attrs);
            return;
        }
        self.push_cursor_behind(out, from, attrs);
    }

    fn full_row_above(&self) -> (r: Option<u16>)
        requires
            self@.wf(),
            self@.allocated(),
        ensures
            r is Some <==> self@.full_above(self@.pos.row as int) is Some,
            r is Some ==> self@.full_above(self@.pos.row as int) == Some(r->Some_0 as int),
            r is Some ==> r->Some_0 < self@.pos.row,
    {
        let pos = self.pos();
        let mut above: u16 = pos.row;
        while above > 0 && !self.end_of(above - 1).0.has_contents()
            invariant
                self@.wf(),
                self@.allocated(),
                pos == self@.pos,
                above <= pos.row,
                self@.full_above(pos.row as int) == self@.full_above(above as int),
            decreases above,
        {
            above = above - 1;
        }
        if above > 0 {
            Some(above - 1)
        } else {
            None
        }
    }

    /// Appends the bytes that move the cursor behind the end of its row, whose last cell is
    /// empty.
    fn push_cursor_behind(&self, out: &mut Vec<u8>, from: Option<Pos>, attrs: Attrs)
        requires
            self@.wf(),
            self@.allocated(),
            from is Some ==> from->Some_0.row < u16::MAX,
            from != Some(self@.pos),
            self@.pos.col >= self@.size.cols,
            self@.end_cell(self@.pos.row as int).text.len() == 0,
        ensures
            final(out)@ == old(out)@ + self@.cursor_from(from, attrs),
    {
        let pos = self.pos();
        let cols: u16 = self.size().cols;
        if let Some(row) = self.full_row_above() {
            let behind: bool = match from {
                Some(f) => f.row == row && f.col >= cols,
                None => false,
            };
            let ghost start = out@;
            let ghost part = if behind {
                Seq::empty()
            } else {
                self@.end_redrawn(row as int, from, attrs)
            };
            if !behind {
                self.push_end(out, row, from, attrs);
            }
            proof {
                assert(out@ =~= start + part);
            }
            push_repeated(out, '\n' as u8, pos.row - row);
            proof {
                assert(out@ =~= start + (part + repeated('\n' as u8, pos.row - row)));
                assert(self@.cursor_from(from, attrs) == part + repeated(
                    '\n' as u8,
                    pos.row - row,
                ));
            }
            return;
        }
        proof {
            assert(self@.rows[pos.row as int].wf(cols as int));
        }
        let end = self.drawing_row(pos.row).cell(cols as usize - 1).attrs();
        self.push_over_blank(out, from, attrs, end);
    }

    /// Appends the bytes that draw over the empty last cell of the cursor's row and empty it again.
    fn push_over_blank(&self, out: &mut Vec<u8>, from: Option<Pos>, attrs: Attrs, end: Attrs)
        requires
            self@.wf(),
            from is Some ==> from->Some_0.row < u16::MAX,
        ensures
            final(out)@ == old(out)@ + self@.over_blank(from, attrs, end),
    {
        push_goto(out, from, Pos { row: self.pos().row, col: self.size().cols - 1 });
        out.push(' ' as u8);
        end.write_escape_code_diff(out, &attrs);
        out.push(0x1b);
        out.push('7' as u8);
        out.push(8);
        push_erase_chars(out, 1);
        out.push(0x1b);
        out.push('8' as u8);
        attrs.write_escape_code_diff(out, &end);
        proof {
            assert(out@ =~= old(out)@ + self@.over_blank(from, attrs, end));
        }
    }

    /// Appends the bytes that draw the rows in view and the cursor. Returns the attributes the
    /// terminal then draws with.
    pub fn write_contents_formatted(&self, out: &mut Vec<u8>) -> (r: Attrs)
        requires
            self@.wf(),
            self@.allocated(),
        ensures
            final(out)@ == old(out)@ + self@.formatted().0,
            r == self@.formatted().1,
    {
        let mut part: Vec<u8> = Vec::new();
        push_clear_attrs(&mut part);
        push_clear_screen(&mut part);
        let mut pen = Pen { pos: Pos { row: 0, col: 0 }, attrs: Attrs::default(), erase: None };
        let ghost first = pen;
        let n: usize = self.visible_len();
        let cols: u16 = self.size().cols;
        let mut wrapping: bool = false;
        let mut i: usize = 0;
        proof {
            assert(part@ =~= csi().push('m' as u8) + clear_screen());
        }
        while i < n
            invariant
                self@.wf(),
                self@.allocated(),
                cols == self@.size.cols,
                n == self@.visible().len(),
                n == self@.size.rows,
                i <= n,
                wrapping == (i > 0 && self@.visible()[i - 1].wrapped),
                (part@, pen) == self@.rows_drawn(
                    csi().push('m' as u8) + clear_screen(),
                    first,
                    i as int,
                ),
                pen.pos.row < n,
                pen.erase is None,
            decreases n - i,
        {
            if let Some(row) = self.visible_row(i) {
                proof {
                    self@.visible_rows_are_whole();
                }
                pen = row.write_contents_formatted(&mut part, 0, cols, i as u16, wrapping, pen);
                wrapping = row.wrapped();
            }
            i = i + 1;
        }
        self.write_cursor_position_formatted(&mut part, Some(pen.pos), pen.attrs);
        push_bytes(out, part.as_slice());
        pen.attrs
    }

    /// Appends the bytes that turn the rows in view and the cursor of `prev` into this grid's.
    /// Returns the attributes the terminal then draws with.
    pub fn write_contents_diff(&self, out: &mut Vec<u8>, prev: &Grid<T>, attrs: Attrs) -> (r: Attrs)
        requires
            self@.wf(),
            self@.allocated(),
            prev@.wf(),
        ensures
            final(out)@ == old(out)@ + self@.diffed(prev@, attrs).0,
            r == self@.diffed(prev@, attrs).1,
    {
        let mut part: Vec<u8> = Vec::new();
        let mut pen = Pen { pos: prev.pos(), attrs, erase: None };
        let ghost first = pen;
        let a: usize = self.visible_len();
        let b: usize = prev.visible_len();
        let n: usize = if a < b {
            a
        } else {
            b
        };
        let cols: u16 = self.size().cols;
        let mut wrapping: bool = false;
        let mut prev_wrapping: bool = false;
        let mut i: usize = 0;
        proof {
            assert(part@ =~= Seq::<u8>::empty());
        }
        while i < n
            invariant
                self@.wf(),
                self@.allocated(),
                prev@.wf(),
                cols == self@.size.cols,
                n <= self@.visible().len(),
                n <= self@.size.rows,
                n <= prev@.visible().len(),
                i <= n,
                wrapping == (i > 0 && self@.visible()[i - 1].wrapped),
                prev_wrapping == (i > 0 && prev@.visible()[i - 1].wrapped),
                (part@, pen) == self@.rows_redrawn(prev@, first, i as int),
                pen.pos.row < u16::MAX,
                pen.erase is None,
            decreases n - i,
        {
            if let (Some(row), Some(prev_row)) = (self.visible_row(i), prev.visible_row(i)) {
                proof {
                    self@.visible_rows_are_whole();
                    prev@.visible_rows_are_whole();
                }
                pen = row.write_contents_diff(
                    &mut part,
                    prev_row,
                    0,
                    cols,
                    i as u16,
                    wrapping,
                    prev_wrapping,
                    pen,
                );
                wrapping = row.wrapped();
                prev_wrapping = prev_row.wrapped();
            }
            i = i + 1;
        }
        self.write_cursor_position_formatted(&mut part, Some(pen.pos), pen.attrs);
        push_bytes(out, part.as_slice());
        pen.attrs
    }
}

} // verus!
