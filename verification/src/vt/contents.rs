//! The plain text of a screen.
use vstd::prelude::*;

use crate::text::{push_text, string_of};
use crate::vt::grid::{least, Grid, GridModel};
use crate::vt::row::{Row, RowModel};
use crate::vt::screen::Screen;

verus! {

/// `n` spaces.
pub open spec fn spaces(n: int) -> Seq<char> {
    Seq::new(n as nat, |i: int| ' ')
}

impl<T> RowModel<T> {
    /// Whether a column is the second one of a character that starts at or behind `start`.
    pub open spec fn skips(self, start: int, col: int) -> bool {
        col > start && self.cells[col - 1].wide()
    }

    /// The text of the columns from `start` up to `end`, and the column behind the last
    /// character. Empty cells before a character count as spaces.
    pub open spec fn text_between(self, start: int, end: int) -> (Seq<char>, int)
        decreases end - start,
    {
        if end <= start {
            (Seq::empty(), start)
        } else {
            let (before, behind) = self.text_between(start, end - 1);
            let cell = self.cells[end - 1];
            if self.skips(start, end - 1) || cell.text.len() == 0 {
                (before, behind)
            } else {
                (
                    before + spaces(end - 1 - behind) + cell.text,
                    if cell.wide() {
                        end + 1
                    } else {
                        end
                    },
                )
            }
        }
    }

    /// The text of `width` columns from `start` on, as far as the row reaches. A row without
    /// text that the row above runs on into holds a line break.
    pub open spec fn text(self, start: int, width: int, wrapping: bool) -> Seq<char> {
        let t = self.text_between(start, least(start + width, self.cells.len() as int));
        if wrapping && t.1 == start {
            t.0.push('\n')
        } else {
            t.0
        }
    }
}

/// A text without the line breaks at its end.
pub open spec fn trimmed(s: Seq<char>) -> Seq<char>
    decreases s.len(),
{
    if s.len() > 0 && s.last() == '\n' {
        trimmed(s.drop_last())
    } else {
        s
    }
}

/// The text of the first `n` rows. A row that does not run on ends in a line break.
pub open spec fn rows_text<T>(rows: Seq<RowModel<T>>, cols: int, n: int) -> Seq<char>
    decreases n,
{
    if n <= 0 {
        Seq::empty()
    } else {
        let row = rows[n - 1];
        let line = rows_text(rows, cols, n - 1) + row.text(
            0,
            cols,
            n > 1 && rows[n - 2].wrapped,
        );
        if row.wrapped {
            line
        } else {
            line.push('\n')
        }
    }
}

impl<T> GridModel<T> {
    /// The text in view, without the line breaks at its end.
    pub open spec fn text(self) -> Seq<char> {
        let rows = self.visible();
        trimmed(rows_text(rows, self.size.cols as int, rows.len() as int))
    }

    /// The text of the rows from `first` up to `upto` of a selection that goes on to row
    /// `last`: the rest of the first row, whole rows, and the last row up to `last_col`.
    pub open spec fn selected(
        self,
        first: int,
        first_col: int,
        last: int,
        last_col: int,
        upto: int,
    ) -> Seq<char>
        decreases upto - first,
    {
        if upto <= first {
            Seq::empty()
        } else {
            let before = self.selected(first, first_col, last, last_col, upto - 1);
            let row = self.visible()[upto - 1];
            let cols = self.size.cols as int;
            let line = if upto - 1 == first {
                row.text(first_col, cols - first_col, false)
            } else if upto - 1 == last {
                row.text(0, last_col, false)
            } else {
                row.text(0, cols, false)
            };
            if upto - 1 == last || row.wrapped {
                before + line
            } else {
                (before + line).push('\n')
            }
        }
    }

    /// The text between two positions.
    pub open spec fn text_range(
        self,
        start_row: int,
        start_col: int,
        end_row: int,
        end_col: int,
    ) -> Seq<char> {
        let rows = self.visible();
        if start_row < end_row {
            self.selected(
                start_row,
                start_col,
                end_row,
                end_col,
                least(end_row + 1, rows.len() as int),
            )
        } else if start_row == end_row && start_col < end_col && start_row < rows.len() {
            rows[start_row].text(start_col, end_col - start_col, false)
        } else {
            Seq::empty()
        }
    }
}

impl<T> Row<T> {
    /// Appends the text of `width` columns from `start` on.
    pub fn write_contents(&self, out: &mut Vec<char>, start: u16, width: u16, wrapping: bool)
        requires
            self@.wf(self@.cells.len() as int),
        ensures
            final(out)@ == old(out)@ + self@.text(start as int, width as int, wrapping),
    {
        let n: usize = self.len();
        let stop: usize = start as usize + width as usize;
        let end: usize = if stop < n {
            stop
        } else {
            n
        };
        let mut behind: usize = start as usize;
        let mut col: usize = start as usize;
        let ghost base = out@;
        proof {
            assert(base =~= base + Seq::<char>::empty());
        }
        while col < end
            invariant
                self@.wf(self@.cells.len() as int),
                n == self@.cells.len(),
                end <= n,
                start <= col,
                col <= end || col == start,
                out@ == base + self@.text_between(start as int, col as int).0,
                behind == self@.text_between(start as int, col as int).1,
                behind <= col + 1,
                behind == col + 1 ==> self@.skips(start as int, col as int),
            decreases end - col,
        {
            let cell = self.cell(col);
            let skip: bool = col > start as usize && self.cell(col - 1).is_wide();
            if !skip && cell.has_contents() {
                let ghost before = out@;
                for i in behind..col
                    invariant
                        behind <= col,
                        out@ =~= before + spaces(i - behind),
                {
                    out.push(' ');
                }
                push_text(out, cell.contents());
                proof {
                    assert(out@ =~= base + self@.text_between(start as int, col + 1).0);
                }
                behind = if cell.is_wide() {
                    col + 2
                } else {
                    col + 1
                };
            }
            col = col + 1;
        }
        if wrapping && behind == start as usize {
            out.push('\n');
        }
        proof {
            assert(self@.text_between(start as int, end as int) == self@.text_between(
                start as int,
                col as int,
            ));
            assert(out@ =~= base + self@.text(start as int, width as int, wrapping));
        }
    }
}

impl<T> Grid<T> {
    fn write_contents(&self, out: &mut Vec<char>)
        requires
            self@.wf(),
            old(out)@.len() == 0,
        ensures
            final(out)@ == self@.text(),
    {
        let n: usize = self.visible_len();
        let mut wrapping: bool = false;
        let ghost rows = self@.visible();
        let ghost cols = self@.size.cols as int;
        let cols_exec: u16 = self.size().cols;
        let mut i: usize = 0;
        while i < n
            invariant
                self@.wf(),
                rows == self@.visible(),
                cols == cols_exec,
                n == rows.len(),
                i <= n,
                wrapping == (i > 0 && rows[i - 1].wrapped),
                out@ =~= rows_text(rows, cols, i as int),
            decreases n - i,
        {
            if let Some(row) = self.visible_row(i) {
                proof {
                    self@.visible_rows_are_whole();
                }
                row.write_contents(out, 0, cols_exec, wrapping);
                wrapping = row.wrapped();
                if !wrapping {
                    out.push('\n');
                }
            }
            i = i + 1;
        }
        while out.len() > 0 && out[out.len() - 1] == '\n'
            invariant
                trimmed(out@) == self@.text(),
            decreases out.len(),
        {
            let _ = out.pop();
        }
    }
}

impl<T> Screen<T> {
    /// The text in view, without formatting.
    pub fn contents(&self) -> (r: String)
        requires
            self@.wf(),
        ensures
            r@ == self@.active().text(),
    {
        let mut out: Vec<char> = Vec::new();
        self.grid().write_contents(&mut out);
        string_of(&out)
    }

    /// The text in view by row, restricted to `width` columns from `start` on, without
    /// line breaks.
    pub fn rows(&self, start: u16, width: u16) -> (r: Vec<String>)
        requires
            self@.wf(),
        ensures
            r@.len() == self@.active().visible().len(),
            forall|i: int|
                0 <= i < r@.len() ==> (#[trigger] r@[i])@ == self@.active().visible()[i].text(
                    start as int,
                    width as int,
                    false,
                ),
    {
        let mut r: Vec<String> = Vec::new();
        let n: usize = self.grid().visible_len();
        let mut i: usize = 0;
        while i < n
            invariant
                self@.active().wf(),
                n == self@.active().visible().len(),
                i <= n,
                r@.len() == i,
                forall|j: int|
                    0 <= j < i ==> (#[trigger] r@[j])@ == self@.active().visible()[j].text(
                        start as int,
                        width as int,
                        false,
                    ),
            decreases n - i,
        {
            let mut out: Vec<char> = Vec::new();
            if let Some(row) = self.grid().visible_row(i) {
                proof {
                    self@.active().visible_rows_are_whole();
                }
                row.write_contents(&mut out, start, width, false);
                proof {
                    assert(out@ =~= self@.active().visible()[i as int].text(
                        start as int,
                        width as int,
                        false,
                    ));
                }
            }
            r.push(string_of(&out));
            i = i + 1;
        }
        r
    }

    /// The text between two positions, as a selection would copy it: the rest of the first
    /// row, the rows between, and the last row up to its column.
    pub fn contents_between(
        &self,
        start_row: u16,
        start_col: u16,
        end_row: u16,
        end_col: u16,
    ) -> (r: String)
        requires
            self@.wf(),
            start_row < end_row && start_row < self@.active().size.rows ==> start_col
                <= self@.active().size.cols,
        ensures
            r@ == self@.active().text_range(
                start_row as int,
                start_col as int,
                end_row as int,
                end_col as int,
            ),
    {
        let mut out: Vec<char> = Vec::new();
        let grid = self.grid();
        let cols: u16 = grid.size().cols;
        let n: usize = grid.visible_len();
        let ghost g = self@.active();
        if start_row < end_row {
            let stop: usize = if (end_row as usize) < n {
                end_row as usize + 1
            } else {
                n
            };
            let mut i: usize = start_row as usize;
            while i < stop
                invariant
                    grid@ == g,
                    g.wf(),
                    cols == g.size.cols,
                    n == g.visible().len(),
                    n == g.rows.len(),
                    g.rows.len() == g.size.rows || g.rows.len() == 0,
                    start_row < end_row,
                    start_row < g.size.rows ==> start_col <= cols,
                    stop == least(end_row + 1, n as int),
                    start_row <= i,
                    i <= stop || i == start_row,
                    out@ =~= g.selected(
                        start_row as int,
                        start_col as int,
                        end_row as int,
                        end_col as int,
                        i as int,
                    ),
                decreases stop - i,
            {
                if let Some(row) = grid.visible_row(i) {
                    proof {
                        g.visible_rows_are_whole();
                    }
                    if i == start_row as usize {
                        row.write_contents(&mut out, start_col, cols - start_col, false);
                    } else if i == end_row as usize {
                        row.write_contents(&mut out, 0, end_col, false);
                    } else {
                        row.write_contents(&mut out, 0, cols, false);
                    }
                    if i != end_row as usize && !row.wrapped() {
                        out.push('\n');
                    }
                }
                i = i + 1;
            }
            proof {
                if i > stop {
                    assert(g.selected(
                        start_row as int,
                        start_col as int,
                        end_row as int,
                        end_col as int,
                        stop as int,
                    ) =~= Seq::empty());
                }
            }
        } else if start_row == end_row && start_col < end_col {
            if let Some(row) = grid.visible_row(start_row as usize) {
                proof {
                    g.visible_rows_are_whole();
                }
                row.write_contents(&mut out, start_col, end_col - start_col, false);
            }
        }
        proof {
            assert(out@ =~= g.text_range(
                start_row as int,
                start_col as int,
                end_row as int,
                end_col as int,
            ));
        }
        string_of(&out)
    }
}

// How a screen reads.

/// Where a row holds one character in each column its text is those characters, from left to right.
pub proof fn rows_read_from_left_to_right<T>(row: RowModel<T>, start: int, width: int, i: int)
    requires
        0 <= start,
        0 <= width,
        start + width <= row.cells.len(),
        forall|c: int|
            start <= c < start + width ==> (#[trigger] row.cells[c]).text.len() == 1
                && !row.cells[c].wide(),
    ensures
        ({
            let t = row.text(start, width, false);
            &&& t.len() == width
            &&& 0 <= i < width ==> t[i] == row.cells[start + i].text[0]
        }),
{
    full_columns(row, start, start + width, i);
}

proof fn full_columns<T>(row: RowModel<T>, start: int, end: int, i: int)
    requires
        0 <= start <= end <= row.cells.len(),
        forall|c: int|
            start <= c < end ==> (#[trigger] row.cells[c]).text.len() == 1 && !row.cells[c].wide(),
    ensures
        ({
            let t = row.text_between(start, end);
            &&& t.0.len() == end - start && t.1 == end
            &&& 0 <= i < end - start ==> t.0[i] == row.cells[start + i].text[0]
        }),
    decreases end - start,
{
    if start < end {
        full_columns(row, start, end - 1, i);
        assert(row.cells[end - 1].text.len() == 1);
        if end - 2 >= start {
            assert(!row.cells[end - 2].wide());
        }
        assert(spaces(0) =~= Seq::<char>::empty());
    }
}

/// Empty columns before a character read as spaces, those behind the last one as nothing.
pub proof fn gaps_read_as_spaces<T>(row: RowModel<T>, start: int, at: int, end: int, i: int)
    requires
        0 <= start <= at < end <= row.cells.len(),
        forall|c: int|
            start <= c < end && c != at ==> (#[trigger] row.cells[c]).text.len() == 0
                && !row.cells[c].wide(),
        row.cells[at].text.len() > 0,
    ensures
        ({
            let t = row.text(start, end - start, false);
            let c = row.cells[at].text;
            &&& t.len() == at - start + c.len()
            &&& 0 <= i < at - start ==> t[i] == ' '
            &&& 0 <= i < c.len() ==> t[at - start + i] == c[i]
        }),
{
    empty_columns(row, start, start, at);
    if start < at {
        assert(row.cells[at - 1].text.len() == 0 && !row.cells[at - 1].wide());
    }
    let t = row.text_between(start, at + 1);
    assert(t.0 == Seq::<char>::empty() + spaces(at - start) + row.cells[at].text);
    assert(t.0 =~= spaces(at - start) + row.cells[at].text);
    empty_columns(row, start, at + 1, end);
}

proof fn empty_columns<T>(row: RowModel<T>, start: int, from: int, end: int)
    requires
        0 <= start <= from <= end <= row.cells.len(),
        forall|c: int| from <= c < end ==> (#[trigger] row.cells[c]).text.len() == 0,
    ensures
        row.text_between(start, end) == row.text_between(start, from),
    decreases end - from,
{
    if from < end {
        empty_columns(row, start, from, end - 1);
        assert(row.cells[end - 1].text.len() == 0);
    }
}

/// A character of two columns is read once, and what follows it comes right behind.
pub proof fn wide_characters_are_read_once<T>(row: RowModel<T>, start: int, at: int)
    requires
        0 <= start <= at,
        at + 3 <= row.cells.len(),
        row.text_between(start, at).1 == at,
        at > start ==> !row.cells[at - 1].wide(),
        row.cells[at].wide(),
        row.cells[at].text.len() > 0,
        !row.cells[at + 1].wide(),
        row.cells[at + 2].text.len() > 0,
    ensures
        row.text_between(start, at + 3).0 == row.text_between(start, at).0 + row.cells[at].text
            + row.cells[at + 2].text,
{
    reveal_with_fuel(RowModel::text_between, 4);
    assert(spaces(0) =~= Seq::<char>::empty());
    let t = row.text_between(start, at);
    assert(t.0 + spaces(0) =~= t.0);
    assert(row.text_between(start, at + 1) == (t.0 + row.cells[at].text, at + 2));
    assert(row.text_between(start, at + 2) == (t.0 + row.cells[at].text, at + 2));
    assert(t.0 + row.cells[at].text + spaces(0) =~= t.0 + row.cells[at].text);
}

/// Rows are read from the top, each on a line of its own unless the one above runs on into it.
pub proof fn rows_are_lines<T>(rows: Seq<RowModel<T>>, cols: int, n: int)
    requires
        0 < n <= rows.len(),
    ensures
        n > 1 && rows[n - 2].wrapped && rows[n - 1].text(0, cols, false).len() == 0 || {
            let above = rows_text(rows, cols, n - 1);
            let line = rows[n - 1].text(0, cols, false);
            &&& rows[n - 1].wrapped ==> rows_text(rows, cols, n) == above + line
            &&& !rows[n - 1].wrapped ==> rows_text(rows, cols, n) == (above + line).push('\n')
        },
        rows_text(rows, cols, 0) == Seq::<char>::empty(),
{
    let row = rows[n - 1];
    if !(n > 1 && rows[n - 2].wrapped && row.text(0, cols, false).len() == 0) {
        text_is_left(row, 0, least(cols, row.cells.len() as int));
    }
}

proof fn text_is_left<T>(row: RowModel<T>, start: int, end: int)
    ensures
        row.text_between(start, end).1 == start <==> row.text_between(start, end).0.len() == 0,
        row.text_between(start, end).1 >= start,
    decreases end - start,
{
    if start < end {
        text_is_left(row, start, end - 1);
    }
}

/// Of a text only the line breaks at its end are cut, and all of them.
pub proof fn trailing_breaks_are_cut(s: Seq<char>, i: int)
    ensures
        ({
            let t = trimmed(s);
            &&& t.len() <= s.len() && t == s.take(t.len() as int)
            &&& t.len() > 0 ==> t.last() != '\n'
            &&& t.len() <= i < s.len() ==> s[i] == '\n'
        }),
    decreases s.len(),
{
    if s.len() > 0 && s.last() == '\n' {
        trailing_breaks_are_cut(s.drop_last(), i);
        let t = trimmed(s);
        assert(s.drop_last().take(t.len() as int) =~= s.take(t.len() as int));
        if t.len() <= i < s.len() - 1 {
            assert(s.drop_last()[i] == s[i]);
        }
    } else {
        assert(s.take(s.len() as int) =~= s);
    }
}

/// A selection in one row is the text between its columns. One over two rows is the rest of the
/// upper and the lower up to its column, in two lines unless the upper runs on. One that ends before
/// it starts is empty.
pub proof fn selections<T>(g: GridModel<T>, row: int, from: int, to: int)
    requires
        0 <= row,
        row + 1 < g.visible().len(),
        0 <= from,
    ensures
        ({
            let upper = g.visible()[row];
            let lower = g.visible()[row + 1];
            let rest = upper.text(from, g.size.cols - from, false);
            let head = lower.text(0, to, false);
            &&& from < to ==> g.text_range(row, from, row, to) == upper.text(from, to - from, false)
            &&& to <= from ==> g.text_range(row, from, row, to).len() == 0
            &&& upper.wrapped ==> g.text_range(row, from, row + 1, to) == rest + head
            &&& !upper.wrapped ==> g.text_range(row, from, row + 1, to) == rest.push('\n') + head
            &&& g.text_range(row + 1, from, row, to).len() == 0
        }),
{
    reveal_with_fuel(GridModel::selected, 3);
    let upper = g.visible()[row];
    let rest = upper.text(from, g.size.cols - from, false);
    assert(Seq::<char>::empty() + rest =~= rest);
}

} // verus!
