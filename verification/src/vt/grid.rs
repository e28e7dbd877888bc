//! The grid of rows that a screen draws on, with its cursor, scroll region and
//! scrollback.
use vstd::prelude::*;

use crate::vt::attrs::Attrs;
use crate::vt::cell::columns;
use crate::vt::row::{least_two, rows_stay_whole, Row, RowModel};

verus! {

/// The number of rows and columns of a grid.
#[derive(Clone, Copy, Debug, PartialEq, Eq, Structural)]
pub struct Size {
    pub rows: u16,
    pub cols: u16,
}

/// A position in a grid. A cursor's column may equal the number of columns: the
/// next character then wraps.
#[derive(Clone, Copy, Debug, PartialEq, Eq, Structural)]
pub struct Pos {
    pub row: u16,
    pub col: u16,
}

/// The last `cap` items of a sequence.
pub open spec fn last_n<A>(s: Seq<A>, cap: int) -> Seq<A> {
    if s.len() > cap {
        s.skip(s.len() - cap)
    } else {
        s
    }
}

/// The smaller of two integers.
pub open spec fn least(a: int, b: int) -> int {
    if a < b {
        a
    } else {
        b
    }
}

/// What a grid holds, mathematically.
pub struct GridModel<T> {
    pub size: Size,
    pub pos: Pos,
    pub saved_pos: Pos,
    /// The rows that are drawn on, from the top. None until they are allocated.
    pub rows: Seq<RowModel<T>>,
    pub scroll_top: u16,
    pub scroll_bottom: u16,
    pub origin_mode: bool,
    pub saved_origin_mode: bool,
    /// The rows that scrolled off the top, oldest first.
    pub scrollback: Seq<RowModel<T>>,
    /// How many of them are kept.
    pub scrollback_len: usize,
    /// How many of them are in view.
    pub scrollback_offset: usize,
}

impl<T> GridModel<T> {
    /// The cursor is in the grid, the scroll region is not empty, every row is as wide
    /// as the grid, and no wide character is cut.
    pub open spec fn wf(self) -> bool {
        &&& self.size.rows > 0
        &&& self.size.cols > 0
        &&& self.pos.row < self.size.rows
        &&& self.pos.col <= self.size.cols
        &&& self.saved_pos.row < self.size.rows
        &&& self.saved_pos.col <= self.size.cols
        &&& self.scroll_top <= self.scroll_bottom < self.size.rows
        &&& self.rows.len() == 0 || self.rows.len() == self.size.rows
        &&& forall|i: int|
            0 <= i < self.rows.len() ==> (#[trigger] self.rows[i]).wf(self.size.cols as int)
        &&& self.scrollback.len() <= self.scrollback_len
        &&& self.scrollback_offset <= self.scrollback.len()
        &&& forall|i: int|
            0 <= i < self.scrollback.len() ==> 0 < (#[trigger] self.scrollback[i]).cells.len()
                <= u16::MAX && self.scrollback[i].wf(self.scrollback[i].cells.len() as int)
    }

    /// The rows have been allocated.
    pub open spec fn allocated(self) -> bool {
        self.rows.len() == self.size.rows
    }

    pub open spec fn fresh_row(self) -> RowModel<T> {
        RowModel::fresh(self.size.cols as int)
    }

    /// The row the cursor is in.
    pub open spec fn current(self) -> RowModel<T> {
        self.rows[self.pos.row as int]
    }

    pub open spec fn with_row(self, i: int, row: RowModel<T>) -> GridModel<T> {
        GridModel { rows: self.rows.update(i, row), ..self }
    }

    pub open spec fn with_current(self, row: RowModel<T>) -> GridModel<T> {
        self.with_row(self.pos.row as int, row)
    }

    pub open spec fn at(self, row: int, col: int) -> GridModel<T> {
        GridModel { pos: Pos { row: row as u16, col: col as u16 }, ..self }
    }

    /// The rows in view: as many from the scrollback's end as its offset says, then
    /// the drawn ones from the top.
    pub open spec fn visible(self) -> Seq<RowModel<T>> {
        let shown = least(self.scrollback_offset as int, self.rows.len() as int);
        let first = self.scrollback.len() - self.scrollback_offset;
        self.scrollback.subrange(first, first + shown) + self.rows.take(
            self.rows.len() - shown,
        )
    }

    /// Every row in view is whole, at its own width.
    pub proof fn visible_rows_are_whole(self)
        requires
            self.wf(),
        ensures
            self.visible().len() == self.rows.len(),
            forall|i: int|
                #![trigger self.visible()[i]]
                0 <= i < self.visible().len() ==> 0 < self.visible()[i].cells.len() <= u16::MAX
                    && self.visible()[i].wf(self.visible()[i].cells.len() as int),
    {
    }

    // Construction and size.
    pub open spec fn empty(size: Size, scrollback_len: usize) -> GridModel<T> {
        GridModel {
            size,
            pos: Pos { row: 0, col: 0 },
            saved_pos: Pos { row: 0, col: 0 },
            rows: Seq::empty(),
            scroll_top: 0,
            scroll_bottom: (size.rows - 1) as u16,
            origin_mode: false,
            saved_origin_mode: false,
            scrollback: Seq::empty(),
            scrollback_len,
            scrollback_offset: 0,
        }
    }

    /// With rows to draw on.
    pub open spec fn with_rows(self) -> GridModel<T> {
        if self.rows.len() == 0 {
            GridModel {
                rows: Seq::new(self.size.rows as nat, |i: int| self.fresh_row()),
                ..self
            }
        } else {
            self
        }
    }

    /// Rows cleared, cursor home, scroll region the whole grid, origin mode off.
    pub open spec fn reset(self) -> GridModel<T> {
        GridModel {
            pos: Pos { row: 0, col: 0 },
            saved_pos: Pos { row: 0, col: 0 },
            rows: Seq::new(self.rows.len(), |i: int| self.rows[i].cleared(Attrs::plain())),
            scroll_top: 0,
            scroll_bottom: (self.size.rows - 1) as u16,
            origin_mode: false,
            saved_origin_mode: false,
            ..self
        }
    }

    /// Scroll region the whole grid, origin mode off, saved cursor home; the rows and
    /// the cursor stay.
    pub open spec fn soft_reset_spec(self) -> GridModel<T> {
        GridModel {
            saved_pos: Pos { row: 0, col: 0 },
            scroll_top: 0,
            scroll_bottom: (self.size.rows - 1) as u16,
            origin_mode: false,
            saved_origin_mode: false,
            ..self
        }
    }

    /// Another size. Rows are cut or filled up at the right and the bottom, a scroll
    /// region that reached the bottom still does, and both cursors stay inside.
    pub open spec fn resized(self, size: Size) -> GridModel<T> {
        let follows = self.scroll_bottom == self.size.rows - 1 || self.scroll_bottom >= size.rows;
        let bottom = if follows {
            size.rows - 1
        } else {
            self.scroll_bottom as int
        };
        GridModel {
            size,
            rows: Seq::new(
                size.rows as nat,
                |i: int|
                    if i < self.rows.len() {
                        self.rows[i].resized(size.cols as int)
                    } else {
                        RowModel::fresh(size.cols as int)
                    },
            ),
            scroll_top: if bottom < self.scroll_top {
                0
            } else {
                self.scroll_top
            },
            scroll_bottom: bottom as u16,
            pos: Pos {
                row: least(self.pos.row as int, size.rows - 1) as u16,
                col: least(self.pos.col as int, size.cols - 1) as u16,
            },
            saved_pos: Pos {
                row: least(self.saved_pos.row as int, size.rows - 1) as u16,
                col: least(self.saved_pos.col as int, size.cols - 1) as u16,
            },
            ..self
        }
    }

    // The cursor.
    /// The topmost and bottommost rows that the cursor moves between.
    pub open spec fn limits(self, in_region: bool) -> (int, int) {
        if in_region {
            (self.scroll_top as int, self.scroll_bottom as int)
        } else {
            (0, self.size.rows - 1)
        }
    }

    pub open spec fn in_region(self) -> bool {
        self.scroll_top <= self.pos.row <= self.scroll_bottom
    }

    pub open spec fn region_active(self) -> bool {
        self.scroll_top != 0 || self.scroll_bottom != self.size.rows - 1
    }

    /// The cursor at a position, counted from the scroll region's top in origin mode,
    /// and kept inside.
    pub open spec fn moved_to(self, row: int, col: int) -> GridModel<T> {
        let (top, bottom) = self.limits(self.origin_mode);
        self.at(least(top + row, bottom), least(col, self.size.cols - 1))
    }

    /// The cursor and the origin mode saved.
    pub open spec fn cursor_saved(self) -> GridModel<T> {
        GridModel { saved_pos: self.pos, saved_origin_mode: self.origin_mode, ..self }
    }

    pub open spec fn cursor_restored(self) -> GridModel<T> {
        GridModel { pos: self.saved_pos, origin_mode: self.saved_origin_mode, ..self }
    }

    /// That many scrollback rows in view, as far as there are so many.
    pub open spec fn viewing(self, rows: int) -> GridModel<T> {
        GridModel {
            scrollback_offset: least(rows, self.scrollback.len() as int) as usize,
            ..self
        }
    }

    pub open spec fn col_at(self, col: int) -> GridModel<T> {
        self.at(self.pos.row as int, least(col, self.size.cols - 1))
    }

    pub open spec fn col_moved_left(self, count: int) -> GridModel<T> {
        self.at(
            self.pos.row as int,
            if count < self.pos.col {
                self.pos.col - count
            } else {
                0
            },
        )
    }

    pub open spec fn row_at(self, row: int) -> GridModel<T> {
        self.at(least(row, self.size.rows - 1), self.pos.col as int)
    }

    pub open spec fn row_moved_down(self, count: int) -> GridModel<T> {
        self.at(
            least(self.pos.row + count, self.limits(self.in_region()).1),
            self.pos.col as int,
        )
    }

    pub open spec fn row_moved_up(self, count: int) -> GridModel<T> {
        let top = self.limits(self.in_region()).0;
        self.at(
            if self.pos.row - count < top {
                top
            } else {
                self.pos.row - count
            },
            self.pos.col as int,
        )
    }

    /// How many lines the rows must move so that the cursor can go `count` rows down.
    pub open spec fn overrun(self, count: int) -> int {
        if self.in_region() && self.pos.row + count > self.scroll_bottom {
            self.pos.row + count - self.scroll_bottom
        } else {
            0
        }
    }

    /// The cursor `count` rows down; at the bottom of the scroll region the rows move up
    /// instead.
    pub open spec fn line_fed(self, count: int) -> GridModel<T> {
        self.row_moved_down(count).scrolled_up(self.overrun(count))
    }

    /// The cursor one row up; at the top of the scroll region, or of the grid, the
    /// region's rows move down instead.
    pub open spec fn reverse_line_fed(self) -> GridModel<T> {
        let stuck = self.pos.row == 0 || self.pos.row == self.scroll_top;
        self.row_moved_up(1).scrolled_down(
            if stuck {
                1
            } else {
                0
            },
        )
    }

    /// Room made for a character of `width` columns: at the right edge the cursor goes to
    /// the start of the next row, and the row it left, unless that scrolled out, is marked
    /// wrapped or not.
    pub open spec fn wrapped_for(self, width: int, wrap: bool) -> GridModel<T> {
        if self.pos.col > self.size.cols - width {
            let scrolled = self.overrun(1);
            let next = self.at(self.pos.row as int, 0).line_fed(1);
            let left = self.pos.row - scrolled;
            if scrolled > 0 && left < self.scroll_top {
                next
            } else {
                next.with_row(
                    left,
                    next.rows[left].with_wrap(wrap && left + 1 == next.pos.row),
                )
            }
        } else {
            self
        }
    }

    // Scrolling.
    /// The rows from `top` to `bottom` moved up by `n`, empty ones following.
    pub open spec fn rows_up(self, top: int, bottom: int, n: int) -> Seq<RowModel<T>> {
        Seq::new(
            self.rows.len(),
            |i: int|
                if top <= i <= bottom {
                    if i + n <= bottom {
                        self.rows[i + n]
                    } else {
                        self.fresh_row()
                    }
                } else {
                    self.rows[i]
                },
        )
    }

    /// The rows from `top` to `bottom` moved down by `n`, empty ones leading. The last
    /// of them runs on no further.
    pub open spec fn rows_down(self, top: int, bottom: int, n: int) -> Seq<RowModel<T>> {
        if n <= 0 {
            self.rows
        } else {
            Seq::new(
                self.rows.len(),
                |i: int|
                    if top <= i <= bottom {
                        let row = if i - n >= top {
                            self.rows[i - n]
                        } else {
                            self.fresh_row()
                        };
                        if i == bottom {
                            row.with_wrap(false)
                        } else {
                            row
                        }
                    } else {
                        self.rows[i]
                    },
            )
        }
    }

    /// The scroll region moved up by `n` rows. Where the region is the whole grid the
    /// rows that leave it are kept in the scrollback, as many as that holds, and a view
    /// into the scrollback stays on the same rows.
    pub open spec fn scrolled_up(self, n: int) -> GridModel<T> {
        let lines = least(n, self.size.rows - self.scroll_top);
        let rows = self.rows_up(self.scroll_top as int, self.scroll_bottom as int, lines);
        if self.scrollback_len > 0 && !self.region_active() && lines > 0 {
            let scrollback = last_n(
                self.scrollback + self.rows.take(lines),
                self.scrollback_len as int,
            );
            GridModel {
                rows,
                scrollback,
                scrollback_offset: if self.scrollback_offset > 0 {
                    least(self.scrollback_offset + lines, scrollback.len() as int) as usize
                } else {
                    0
                },
                ..self
            }
        } else {
            GridModel { rows, ..self }
        }
    }

    pub open spec fn scrolled_down(self, n: int) -> GridModel<T> {
        GridModel {
            rows: self.rows_down(self.scroll_top as int, self.scroll_bottom as int, n),
            ..self
        }
    }

    /// `n` empty rows put in at the cursor; the rest of the scroll region moves down.
    /// Outside the region nothing happens.
    pub open spec fn lines_inserted(self, n: int) -> GridModel<T> {
        if self.in_region() {
            GridModel {
                rows: self.rows_down(self.pos.row as int, self.scroll_bottom as int, n),
                ..self
            }
        } else {
            self
        }
    }

    /// `n` rows taken out at the cursor; the rest of the scroll region moves up. Outside
    /// the region nothing happens.
    pub open spec fn lines_deleted(self, n: int) -> GridModel<T> {
        if self.in_region() {
            GridModel {
                rows: self.rows_up(self.pos.row as int, self.scroll_bottom as int, n),
                ..self
            }
        } else {
            self
        }
    }

    /// The scroll region set, rows counted from 0, and the cursor at its start. A region
    /// of less than two rows stands for the whole grid.
    pub open spec fn with_region(self, top: int, bottom: int) -> GridModel<T> {
        let last = self.size.rows - 1;
        let end = least(bottom, last);
        let (t, b) = if top < end {
            (top, end)
        } else {
            (0, last)
        };
        GridModel {
            scroll_top: t as u16,
            scroll_bottom: b as u16,
            pos: Pos { row: t as u16, col: 0 },
            ..self
        }
    }

    pub open spec fn with_origin_mode(self, mode: bool) -> GridModel<T> {
        GridModel { origin_mode: mode, ..self }.moved_to(0, 0)
    }

    // Erasing.
    pub open spec fn all_cleared(self, attrs: Attrs) -> GridModel<T> {
        GridModel {
            rows: Seq::new(self.rows.len(), |i: int| self.rows[i].cleared(attrs)),
            ..self
        }
    }

    /// Everything from the cursor on emptied.
    pub open spec fn cleared_forward(self, attrs: Attrs) -> GridModel<T> {
        GridModel {
            rows: Seq::new(
                self.rows.len(),
                |i: int|
                    if i > self.pos.row {
                        self.rows[i].cleared(attrs)
                    } else if i == self.pos.row {
                        self.rows[i].erased(
                            self.pos.col as int,
                            self.size.cols as int,
                            attrs,
                        )
                    } else {
                        self.rows[i]
                    },
            ),
            ..self
        }
    }

    /// Everything up to the cursor, its own cell included, emptied.
    pub open spec fn cleared_backward(self, attrs: Attrs) -> GridModel<T> {
        GridModel {
            rows: Seq::new(
                self.rows.len(),
                |i: int|
                    if i < self.pos.row {
                        self.rows[i].cleared(attrs)
                    } else if i == self.pos.row {
                        self.rows[i].erased(
                            0,
                            least(self.pos.col + 1, self.size.cols as int),
                            attrs,
                        )
                    } else {
                        self.rows[i]
                    },
            ),
            ..self
        }
    }

    pub open spec fn row_cleared_forward(self, attrs: Attrs) -> GridModel<T> {
        self.with_current(
            self.current().erased(self.pos.col as int, self.size.cols as int, attrs),
        )
    }

    pub open spec fn row_cleared_backward(self, attrs: Attrs) -> GridModel<T> {
        self.with_current(
            self.current().erased(0, least(self.pos.col + 1, self.size.cols as int), attrs),
        )
    }

    pub open spec fn cells_erased(self, count: int, attrs: Attrs) -> GridModel<T> {
        self.with_current(
            self.current().erased(
                self.pos.col as int,
                least(self.pos.col + count, self.size.cols as int),
                attrs,
            ),
        )
    }

    pub open spec fn cells_inserted(self, count: int) -> GridModel<T> {
        self.with_current(self.current().inserted(self.pos.col as int, count))
    }

    /// A character drawn at the cursor, which moves behind what it fills.
    pub open spec fn drawn(self, c: char, width: int, attrs: Attrs) -> GridModel<T> {
        self.with_current(self.current().drawn(self.pos.col as int, c, width, attrs)).at(
            self.pos.row as int,
            self.pos.col + least_two(width),
        )
    }

    /// A zero-width character combined onto the character that a cell belongs to.
    pub open spec fn combined_at(self, row: int, col: int, c: char) -> GridModel<T> {
        let r = self.rows[row];
        let at = if r.cells[col].cont() {
            col - 1
        } else {
            col
        };
        self.with_row(row, r.with_cell(at, r.cells[at].combined(c)))
    }

    /// A zero-width character combined onto the one before the cursor, or onto the end
    /// of the row above where that runs on in the cursor's row.
    pub open spec fn combined_before(self, c: char) -> GridModel<T> {
        if self.pos.col > 0 {
            self.combined_at(self.pos.row as int, self.pos.col - 1, c)
        } else if self.pos.row > 0 && self.rows[self.pos.row - 1].wrapped {
            self.combined_at(self.pos.row - 1, self.size.cols - 1, c)
        } else {
            self
        }
    }

    /// Whether the last column of the cursor's row is filled.
    pub open spec fn ends_full(self) -> bool {
        let last = self.current().cells[self.size.cols - 1];
        last.text.len() > 0 || last.cont()
    }

    /// The cursor where a character of `width` columns goes. With autowrap that may be the
    /// next row; without, the character stays at the right edge.
    #[verifier::opaque]
    pub open spec fn placed_for(self, width: int, autowrap: bool) -> GridModel<T> {
        let margin = self.size.cols - width;
        if autowrap {
            self.wrapped_for(width, self.pos.col > margin && self.ends_full())
        } else if width > 0 && self.pos.col > margin {
            self.col_at(margin)
        } else {
            self
        }
    }

    /// A character of `width` columns printed at the cursor. One of no width combines with
    /// what is there; in insert mode the others push the rest of the row aside.
    #[verifier::opaque]
    pub open spec fn printed(
        self,
        c: char,
        width: int,
        attrs: Attrs,
        autowrap: bool,
        insert: bool,
    ) -> GridModel<T> {
        let placed = self.placed_for(width, autowrap);
        if width == 0 {
            placed.combined_before(c)
        } else if insert {
            placed.cells_inserted(width).drawn(c, width, attrs)
        } else {
            placed.drawn(c, width, attrs)
        }
    }

    pub open spec fn with_data_at(self, row: int, col: int, data: Option<T>) -> GridModel<T> {
        let r = self.rows[row];
        self.with_row(row, r.with_cell(col, r.cells[col].with_data(data)))
    }

    /// The column that a region stamped at the cursor starts in.
    pub open spec fn left_edge(self) -> int {
        least(self.pos.col as int, self.size.cols - 1)
    }

    /// The width of a region stamped at the cursor: at least one column, and no more than
    /// there is room for.
    pub open spec fn clipped(self, width: int) -> int {
        if width < 1 {
            1
        } else {
            least(width, self.size.cols - self.left_edge())
        }
    }

    /// The data slots of the cursor's row filled from column `left` on.
    pub open spec fn stamped_row(self, left: int, vals: Seq<T>) -> GridModel<T> {
        let row = self.current();
        self.with_current(
            RowModel {
                cells: Seq::new(
                    row.cells.len(),
                    |i: int|
                        if left <= i < left + vals.len() {
                            row.cells[i].with_data(Some(vals[i - left]))
                        } else {
                            row.cells[i]
                        },
                ),
                ..row
            },
        )
    }

    /// The rows of a region stamped one after the other, each one row further down.
    pub open spec fn stamped(self, vals: Seq<Seq<T>>) -> GridModel<T>
        decreases vals.len(),
    {
        if vals.len() == 0 {
            self
        } else {
            let above = self.stamped(vals.drop_last());
            let line = if vals.len() == 1 {
                above
            } else {
                above.line_fed(1)
            };
            line.stamped_row(self.left_edge(), vals.last())
        }
    }

    pub open spec fn cells_deleted(self, count: int) -> GridModel<T> {
        self.with_current(
            self.current().deleted(
                self.pos.col as int,
                least(count, self.size.cols - self.pos.col),
            ),
        )
    }
}

/// A grid of rows with a cursor.
pub struct Grid<T> {
    size: Size,
    pos: Pos,
    saved_pos: Pos,
    rows: Vec<Row<T>>,
    scroll_top: u16,
    scroll_bottom: u16,
    origin_mode: bool,
    saved_origin_mode: bool,
    scrollback: Vec<Row<T>>,
    scrollback_len: usize,
    scrollback_offset: usize,
}

/// The models of a sequence of rows.
pub open spec fn row_models<T>(rows: Seq<Row<T>>) -> Seq<RowModel<T>> {
    Seq::new(rows.len(), |i: int| rows[i]@)
}

impl<T> View for Grid<T> {
    type V = GridModel<T>;

    closed spec fn view(&self) -> GridModel<T> {
        GridModel {
            size: self.size,
            pos: self.pos,
            saved_pos: self.saved_pos,
            rows: row_models(self.rows@),
            scroll_top: self.scroll_top,
            scroll_bottom: self.scroll_bottom,
            origin_mode: self.origin_mode,
            saved_origin_mode: self.saved_origin_mode,
            scrollback: row_models(self.scrollback@),
            scrollback_len: self.scrollback_len,
            scrollback_offset: self.scrollback_offset,
        }
    }
}

impl<T> Grid<T> {
    /// A grid without rows.
    pub fn new(size: Size, scrollback_len: usize) -> (r: Grid<T>)
        requires
            size.rows > 0,
            size.cols > 0,
        ensures
            r@ == GridModel::<T>::empty(size, scrollback_len),
            r@.wf(),
    {
        let r = Grid {
            size,
            pos: Pos { row: 0, col: 0 },
            saved_pos: Pos { row: 0, col: 0 },
            rows: Vec::new(),
            scroll_top: 0,
            scroll_bottom: size.rows - 1,
            origin_mode: false,
            saved_origin_mode: false,
            scrollback: Vec::new(),
            scrollback_len,
            scrollback_offset: 0,
        };
        proof {
            assert(r@.rows =~= Seq::empty());
            assert(r@.scrollback =~= Seq::empty());
        }
        r
    }

    /// Makes the rows to draw on, if there are none yet.
    pub fn allocate_rows(&mut self)
        requires
            old(self)@.wf(),
        ensures
            final(self)@ == old(self)@.with_rows(),
            final(self)@.wf(),
            final(self)@.allocated(),
    {
        if self.rows.len() == 0 {
            let n: u16 = self.size.rows;
            for i in 0..n
                invariant
                    n == self.size.rows,
                    self.rows@.len() == i,
                    self.size == old(self).size,
                    forall|j: int|
                        0 <= j < i ==> (#[trigger] self.rows@[j])@ == RowModel::<T>::fresh(
                            self.size.cols as int,
                        ),
                    self@ == (GridModel { rows: self@.rows, ..old(self)@ }),
            {
                self.rows.push(Row::new(self.size.cols));
            }
            proof {
                assert(self@.rows =~= old(self)@.with_rows().rows);
            }
        }
    }

    /// Empties the grid and takes the cursor home.
    pub fn clear(&mut self)
        requires
            old(self)@.wf(),
        ensures
            final(self)@ == old(self)@.reset(),
            final(self)@.wf(),
    {
        self.erase_all(Attrs::default());
        self.pos = Pos { row: 0, col: 0 };
        self.saved_pos = Pos { row: 0, col: 0 };
        self.scroll_top = 0;
        self.scroll_bottom = self.size.rows - 1;
        self.origin_mode = false;
        self.saved_origin_mode = false;
        proof {
            assert(self@.rows =~= old(self)@.reset().rows);
        }
    }

    /// Resets margins, origin mode and the saved cursor.
    pub fn soft_reset(&mut self)
        requires
            old(self)@.wf(),
        ensures
            final(self)@ == old(self)@.soft_reset_spec(),
            final(self)@.wf(),
    {
        self.saved_pos = Pos { row: 0, col: 0 };
        self.scroll_top = 0;
        self.scroll_bottom = self.size.rows - 1;
        self.origin_mode = false;
        self.saved_origin_mode = false;
    }

    pub fn size(&self) -> (r: Size)
        ensures
            r == self@.size,
    {
        self.size
    }

    /// Changes the size.
    pub fn set_size(&mut self, size: Size)
        requires
            old(self)@.wf(),
            size.rows > 0,
            size.cols > 0,
        ensures
            final(self)@ == old(self)@.resized(size),
            final(self)@.wf(),
            final(self)@.allocated(),
            final(self)@.size == size,
            old(self)@.scroll_top == 0 && old(self)@.scroll_bottom + 1 == old(self)@.size.rows ==> {
                final(self)@.scroll_top == 0 && final(self)@.scroll_bottom + 1 == size.rows
            },
    {
        if self.scroll_bottom == self.size.rows - 1 {
            self.scroll_bottom = size.rows - 1;
        }
        self.size = size;
        let ghost after = self@;
        let want: usize = size.rows as usize;
        self.rows.truncate(want);
        let n: usize = self.rows.len();
        let ghost kept = self.rows@;
        for i in 0..n
            invariant
                n == self.rows@.len() == kept.len(),
                size.cols > 0,
                self@ == (GridModel { rows: self@.rows, ..after }),
                forall|j: int|
                    0 <= j < i ==> (#[trigger] self.rows@[j])@ == kept[j]@.resized(size.cols as int),
                forall|j: int| i <= j < n ==> (#[trigger] self.rows@[j]) == kept[j],
        {
            self.rows[i].resize(size.cols);
        }
        while self.rows.len() < want
            invariant
                n <= self.rows@.len() <= want,
                n == kept.len(),
                self@ == (GridModel { rows: self@.rows, ..after }),
                forall|j: int|
                    0 <= j < n ==> (#[trigger] self.rows@[j])@ == kept[j]@.resized(size.cols as int),
                forall|j: int|
                    n <= j < self.rows@.len() ==> (#[trigger] self.rows@[j])@
                        == RowModel::<T>::fresh(size.cols as int),
            decreases want - self.rows@.len(),
        {
            self.rows.push(Row::new(size.cols));
        }
        if self.scroll_bottom >= size.rows {
            self.scroll_bottom = size.rows - 1;
        }
        if self.scroll_bottom < self.scroll_top {
            self.scroll_top = 0;
        }
        if self.pos.row > size.rows - 1 {
            self.pos.row = size.rows - 1;
        }
        if self.pos.col > size.cols - 1 {
            self.pos.col = size.cols - 1;
        }
        if self.saved_pos.row > size.rows - 1 {
            self.saved_pos.row = size.rows - 1;
        }
        if self.saved_pos.col > size.cols - 1 {
            self.saved_pos.col = size.cols - 1;
        }
        proof {
            assert(self@.rows =~= old(self)@.resized(size).rows);
            assert forall|i: int| 0 <= i < self@.rows.len() implies (
            #[trigger] self@.rows[i]).wf(size.cols as int) by {
                if i < n {
                    rows_stay_whole(old(self)@.rows[i], old(self)@.size.cols as int);
                } else {
                    RowModel::<T>::fresh_is_whole(size.cols as int);
                }
            }
        }
    }

    pub fn pos(&self) -> (r: Pos)
        ensures
            r == self@.pos,
    {
        self.pos
    }

    /// Moves the cursor.
    pub fn set_pos(&mut self, pos: Pos)
        requires
            old(self)@.wf(),
        ensures
            final(self)@ == old(self)@.moved_to(pos.row as int, pos.col as int),
            final(self)@.wf(),
    {
        let (top, bottom): (u16, u16) = if self.origin_mode {
            (self.scroll_top, self.scroll_bottom)
        } else {
            (0, self.size.rows - 1)
        };
        let row: u16 = pos.row.saturating_add(top);
        self.pos.row = if row < bottom {
            row
        } else {
            bottom
        };
        self.pos.col = pos.col;
        self.col_clamp();
    }

    fn col_clamp(&mut self)
        requires
            old(self)@.size.cols > 0,
        ensures
            final(self)@ == old(self)@.col_at(old(self)@.pos.col as int),
    {
        if self.pos.col > self.size.cols - 1 {
            self.pos.col = self.size.cols - 1;
        }
    }

    pub fn save_cursor(&mut self)
        requires
            old(self)@.wf(),
        ensures
            final(self)@ == old(self)@.cursor_saved(),
            final(self)@.wf(),
    {
        self.saved_pos = self.pos;
        self.saved_origin_mode = self.origin_mode;
    }

    pub fn restore_cursor(&mut self)
        requires
            old(self)@.wf(),
        ensures
            final(self)@ == old(self)@.cursor_restored(),
            final(self)@.wf(),
    {
        self.pos = self.saved_pos;
        self.origin_mode = self.saved_origin_mode;
    }

    /// The number of rows in view.
    pub fn visible_len(&self) -> (r: usize)
        requires
            self@.wf(),
        ensures
            r == self@.visible().len(),
            r == self@.rows.len(),
    {
        self.rows.len()
    }

    /// A row in view.
    pub fn visible_row(&self, row: usize) -> (r: Option<&Row<T>>)
        requires
            self@.wf(),
        ensures
            r is Some <==> row < self@.visible().len(),
            r is Some ==> (r->Some_0)@ == self@.visible()[row as int],
    {
        let n: usize = self.rows.len();
        if row >= n {
            return None;
        }
        let shown: usize = if self.scrollback_offset < n {
            self.scrollback_offset
        } else {
            n
        };
        if row < shown {
            let first: usize = self.scrollback.len() - self.scrollback_offset;
            Some(&self.scrollback[first + row])
        } else {
            Some(&self.rows[row - shown])
        }
    }

    /// A row that is drawn on.
    pub fn drawing_row(&self, row: u16) -> (r: &Row<T>)
        requires
            row < self@.rows.len(),
        ensures
            r@ == self@.rows[row as int],
    {
        &self.rows[row as usize]
    }

    pub fn scrollback_len(&self) -> (r: usize)
        ensures
            r == self@.scrollback_len,
    {
        self.scrollback_len
    }

    pub fn scrollback(&self) -> (r: usize)
        ensures
            r == self@.scrollback_offset,
    {
        self.scrollback_offset
    }

    /// Brings that many scrollback rows into view, as far as there are so many.
    pub fn set_scrollback(&mut self, rows: usize)
        requires
            old(self)@.wf(),
        ensures
            final(self)@ == old(self)@.viewing(rows as int),
            final(self)@.wf(),
    {
        let n: usize = self.scrollback.len();
        self.scrollback_offset = if rows < n {
            rows
        } else {
            n
        };
    }

    pub fn erase_all(&mut self, attrs: Attrs)
        requires
            old(self)@.wf(),
        ensures
            final(self)@ == old(self)@.all_cleared(attrs),
            final(self)@.wf(),
    {
        let n: usize = self.rows.len();
        self.clear_rows(0, n, attrs);
        proof {
            assert(self@.rows =~= old(self)@.all_cleared(attrs).rows);
        }
    }

    /// Empties the rows from `lo` up to `hi`.
    fn clear_rows(&mut self, lo: usize, hi: usize, attrs: Attrs)
        requires
            old(self)@.wf(),
            lo <= hi <= old(self)@.rows.len(),
        ensures
            final(self)@.rows.len() == old(self)@.rows.len(),
            final(self)@ == (GridModel { rows: final(self)@.rows, ..old(self)@ }),
            forall|i: int|
                #![trigger final(self)@.rows[i]]
                0 <= i < old(self)@.rows.len() ==> final(self)@.rows[i] == if lo <= i < hi {
                    old(self)@.rows[i].cleared(attrs)
                } else {
                    old(self)@.rows[i]
                },
            final(self)@.wf(),
    {
        let ghost before = self.rows@;
        for i in lo..hi
            invariant
                before == old(self).rows@,
                lo <= hi <= before.len(),
                self.rows@.len() == before.len(),
                self@ == (GridModel { rows: self@.rows, ..old(self)@ }),
                forall|j: int|
                    lo <= j < i ==> (#[trigger] self.rows@[j])@ == before[j]@.cleared(attrs),
                forall|j: int|
                    0 <= j < before.len() && !(lo <= j < i) ==> (#[trigger] self.rows@[j])
                        == before[j],
        {
            self.rows[i].clear(attrs);
        }
        proof {
            assert forall|i: int| 0 <= i < self@.rows.len() implies (
            #[trigger] self@.rows[i]).wf(self@.size.cols as int) by {
                rows_stay_whole(old(self)@.rows[i], old(self)@.size.cols as int);
            }
        }
    }

    pub fn erase_all_forward(&mut self, attrs: Attrs)
        requires
            old(self)@.wf(),
            old(self)@.allocated(),
        ensures
            final(self)@ == old(self)@.cleared_forward(attrs),
            final(self)@.wf(),
    {
        let row: usize = self.pos.row as usize;
        let n: usize = self.rows.len();
        self.clear_rows(row + 1, n, attrs);
        self.erase_row_forward(attrs);
        proof {
            assert(self@.rows =~= old(self)@.cleared_forward(attrs).rows);
        }
    }

    pub fn erase_all_backward(&mut self, attrs: Attrs)
        requires
            old(self)@.wf(),
            old(self)@.allocated(),
        ensures
            final(self)@ == old(self)@.cleared_backward(attrs),
            final(self)@.wf(),
    {
        let row: usize = self.pos.row as usize;
        self.clear_rows(0, row, attrs);
        self.erase_row_backward(attrs);
        proof {
            assert(self@.rows =~= old(self)@.cleared_backward(attrs).rows);
        }
    }

    pub fn erase_row(&mut self, attrs: Attrs)
        requires
            old(self)@.wf(),
            old(self)@.allocated(),
        ensures
            final(self)@ == old(self)@.with_current(old(self)@.current().cleared(attrs)),
            final(self)@.wf(),
    {
        let row: usize = self.pos.row as usize;
        self.rows[row].clear(attrs);
        proof {
            rows_stay_whole(old(self)@.current(), old(self)@.size.cols as int);
            assert(self@.rows =~= old(self)@.rows.update(
                row as int,
                old(self)@.current().cleared(attrs),
            ));
        }
    }

    fn erase_span(&mut self, lo: usize, hi: usize, attrs: Attrs)
        requires
            old(self)@.wf(),
            old(self)@.allocated(),
            hi <= old(self)@.size.cols,
        ensures
            final(self)@ == old(self)@.with_current(
                old(self)@.current().erased(lo as int, hi as int, attrs),
            ),
            final(self)@.wf(),
    {
        let row: usize = self.pos.row as usize;
        proof {
            rows_stay_whole(old(self)@.current(), old(self)@.size.cols as int);
        }
        self.rows[row].erase(lo, hi, attrs);
        proof {
            assert(self@.rows =~= old(self)@.rows.update(
                row as int,
                old(self)@.current().erased(lo as int, hi as int, attrs),
            ));
        }
    }

    pub fn erase_row_forward(&mut self, attrs: Attrs)
        requires
            old(self)@.wf(),
            old(self)@.allocated(),
        ensures
            final(self)@ == old(self)@.row_cleared_forward(attrs),
            final(self)@.wf(),
    {
        self.erase_span(self.pos.col as usize, self.size.cols as usize, attrs);
    }

    pub fn erase_row_backward(&mut self, attrs: Attrs)
        requires
            old(self)@.wf(),
            old(self)@.allocated(),
        ensures
            final(self)@ == old(self)@.row_cleared_backward(attrs),
            final(self)@.wf(),
    {
        let hi: usize = if self.pos.col < self.size.cols {
            self.pos.col as usize + 1
        } else {
            self.size.cols as usize
        };
        self.erase_span(0, hi, attrs);
    }

    pub fn erase_cells(&mut self, count: u16, attrs: Attrs)
        requires
            old(self)@.wf(),
            old(self)@.allocated(),
        ensures
            final(self)@ == old(self)@.cells_erased(count as int, attrs),
            final(self)@.wf(),
    {
        let end: usize = self.pos.col as usize + count as usize;
        let hi: usize = if end < self.size.cols as usize {
            end
        } else {
            self.size.cols as usize
        };
        self.erase_span(self.pos.col as usize, hi, attrs);
    }

    pub fn insert_cells(&mut self, count: u16)
        requires
            old(self)@.wf(),
            old(self)@.allocated(),
        ensures
            final(self)@ == old(self)@.cells_inserted(count as int),
            final(self)@.wf(),
    {
        let row: usize = self.pos.row as usize;
        proof {
            rows_stay_whole(old(self)@.current(), old(self)@.size.cols as int);
        }
        self.rows[row].insert(self.pos.col as usize, count);
        proof {
            assert(self@.rows =~= old(self)@.cells_inserted(count as int).rows);
        }
    }

    pub fn delete_cells(&mut self, count: u16)
        requires
            old(self)@.wf(),
            old(self)@.allocated(),
        ensures
            final(self)@ == old(self)@.cells_deleted(count as int),
            final(self)@.wf(),
    {
        let row: usize = self.pos.row as usize;
        let room: u16 = self.size.cols - self.pos.col;
        let n: u16 = if count < room {
            count
        } else {
            room
        };
        proof {
            rows_stay_whole(old(self)@.current(), old(self)@.size.cols as int);
        }
        self.rows[row].delete(self.pos.col as usize, n as usize);
        proof {
            assert(self@.rows =~= old(self)@.cells_deleted(count as int).rows);
        }
    }

    /// Takes out the row at `top` and puts an empty one in behind `bottom`.
    fn shift_up(&mut self, top: usize, bottom: usize) -> (removed: Row<T>)
        requires
            old(self)@.wf(),
            top <= bottom < old(self)@.rows.len(),
        ensures
            removed@ == old(self)@.rows[top as int],
            final(self)@ == (GridModel {
                rows: old(self)@.rows_up(top as int, bottom as int, 1),
                ..old(self)@
            }),
            final(self)@.wf(),
    {
        self.rows.insert(bottom + 1, Row::new(self.size.cols));
        let removed = self.rows.remove(top);
        proof {
            assert(self@.rows =~= old(self)@.rows_up(top as int, bottom as int, 1));
            RowModel::<T>::fresh_is_whole(self.size.cols as int);
            assert(self@.wf());
        }
        removed
    }

    /// Takes out the row at `bottom` and puts an empty one in at `top`.
    fn shift_down(&mut self, top: usize, bottom: usize)
        requires
            old(self)@.wf(),
            top <= bottom < old(self)@.rows.len(),
        ensures
            final(self)@ == (GridModel {
                rows: old(self)@.rows_down(top as int, bottom as int, 1),
                ..old(self)@
            }),
            final(self)@.wf(),
    {
        let _ = self.rows.remove(bottom);
        self.rows.insert(top, Row::new(self.size.cols));
        self.rows[bottom].wrap(false);
        proof {
            let cols = self.size.cols as int;
            assert(self@.rows =~= old(self)@.rows_down(top as int, bottom as int, 1));
            RowModel::<T>::fresh_is_whole(cols);
            rows_stay_whole(RowModel::<T>::fresh(cols), cols);
            if top < bottom {
                rows_stay_whole(old(self)@.rows[bottom - 1], cols);
            }
            assert(self@.wf());
        }
    }

    fn shift_rows_down(&mut self, top: usize, bottom: usize, count: u16)
        requires
            old(self)@.wf(),
            top <= bottom < old(self)@.rows.len(),
        ensures
            final(self)@ == (GridModel {
                rows: old(self)@.rows_down(top as int, bottom as int, count as int),
                ..old(self)@
            }),
            final(self)@.wf(),
    {
        for k in 0..count
            invariant
                top <= bottom < old(self)@.rows.len(),
                self@ == (GridModel {
                    rows: old(self)@.rows_down(top as int, bottom as int, k as int),
                    ..old(self)@
                }),
                self@.wf(),
        {
            let ghost before = self@;
            self.shift_down(top, bottom);
            proof {
                assert(before.rows_down(top as int, bottom as int, 1) =~= old(self)@.rows_down(
                    top as int,
                    bottom as int,
                    k + 1,
                ));
            }
        }
    }

    pub fn insert_lines(&mut self, count: u16)
        requires
            old(self)@.wf(),
            old(self)@.allocated(),
        ensures
            final(self)@ == old(self)@.lines_inserted(count as int),
            final(self)@.wf(),
    {
        if self.in_scroll_region() {
            self.shift_rows_down(self.pos.row as usize, self.scroll_bottom as usize, count);
        }
    }

    pub fn delete_lines(&mut self, count: u16)
        requires
            old(self)@.wf(),
            old(self)@.allocated(),
        ensures
            final(self)@ == old(self)@.lines_deleted(count as int),
            final(self)@.wf(),
    {
        if self.in_scroll_region() {
            let top: usize = self.pos.row as usize;
            let bottom: usize = self.scroll_bottom as usize;
            proof {
                assert(self@.rows =~= old(self)@.rows_up(top as int, bottom as int, 0));
            }
            for k in 0..count
                invariant
                    top <= bottom < old(self)@.rows.len(),
                    self@ == (GridModel {
                        rows: old(self)@.rows_up(top as int, bottom as int, k as int),
                        ..old(self)@
                    }),
                    self@.wf(),
            {
                let ghost before = self@;
                let _ = self.shift_up(top, bottom);
                proof {
                    assert(before.rows_up(top as int, bottom as int, 1) =~= old(self)@.rows_up(
                        top as int,
                        bottom as int,
                        k + 1,
                    ));
                }
            }
        }
    }

    /// Keeps a row that left the top, dropping the oldest where there are too many.
    fn keep(&mut self, row: Row<T>)
        requires
            old(self)@.wf(),
            old(self)@.scrollback_len > 0,
            0 < row@.cells.len() <= u16::MAX,
            row@.wf(row@.cells.len() as int),
        ensures
            final(self)@.wf(),
            final(self)@ == (GridModel {
                scrollback: last_n(
                    old(self)@.scrollback.push(row@),
                    old(self)@.scrollback_len as int,
                ),
                scrollback_offset: if old(self)@.scrollback_offset > 0 {
                    least(
                        old(self)@.scrollback_offset + 1,
                        final(self)@.scrollback.len() as int,
                    ) as usize
                } else {
                    0
                },
                ..old(self)@
            }),
    {
        if self.scrollback.len() == self.scrollback_len {
            let _ = self.scrollback.remove(0);
        }
        self.scrollback.push(row);
        if self.scrollback_offset > 0 && self.scrollback_offset < self.scrollback.len() {
            self.scrollback_offset = self.scrollback_offset + 1;
        }
        proof {
            assert(self@.scrollback =~= last_n(
                old(self)@.scrollback.push(row@),
                old(self)@.scrollback_len as int,
            ));
            assert(self@.rows =~= old(self)@.rows);
        }
    }

    /// Moves the scroll region up.
    pub fn scroll_up(&mut self, count: u16)
        requires
            old(self)@.wf(),
            old(self)@.allocated(),
        ensures
            final(self)@ == old(self)@.scrolled_up(count as int),
            final(self)@.wf(),
    {
        let top: usize = self.scroll_top as usize;
        let bottom: usize = self.scroll_bottom as usize;
        let room: u16 = self.size.rows - self.scroll_top;
        let lines: u16 = if count < room {
            count
        } else {
            room
        };
        let keeps: bool = self.scrollback_len > 0 && !self.scroll_region_active();
        proof {
            assert(old(self)@.rows_up(top as int, bottom as int, 0) =~= old(self)@.rows);
        }
        for k in 0..lines
            invariant
                old(self)@.wf(),
                old(self)@.allocated(),
                top == old(self)@.scroll_top,
                bottom == old(self)@.scroll_bottom,
                lines <= old(self)@.size.rows - top,
                keeps == (old(self)@.scrollback_len > 0 && !old(self)@.region_active()),
                self@ == old(self)@.scrolled_up(k as int),
                self@.wf(),
        {
            let ghost before = self@;
            let removed = self.shift_up(top, bottom);
            proof {
                assert(before.rows_up(top as int, bottom as int, 1) =~= old(self)@.rows_up(
                    top as int,
                    bottom as int,
                    k + 1,
                ));
                if keeps {
                    assert(removed@ == old(self)@.rows[k as int]);
                }
            }
            if keeps {
                self.keep(removed);
                proof {
                    let all = old(self)@.scrollback + old(self)@.rows.take(k + 1);
                    assert(old(self)@.rows.take(k + 1) =~= old(self)@.rows.take(k as int).push(
                        old(self)@.rows[k as int],
                    ));
                    let cap = old(self)@.scrollback_len as int;
                    if k == 0 {
                        assert(old(self)@.scrollback.push(removed@) =~= all);
                    } else {
                        assert(last_n(before.scrollback.push(removed@), cap) =~= last_n(all, cap));
                    }
                    assert(self@.scrollback =~= last_n(all, cap));
                }
            }
        }
    }

    /// Moves the scroll region down.
    pub fn scroll_down(&mut self, count: u16)
        requires
            old(self)@.wf(),
            old(self)@.allocated(),
        ensures
            final(self)@ == old(self)@.scrolled_down(count as int),
            final(self)@.wf(),
    {
        self.shift_rows_down(self.scroll_top as usize, self.scroll_bottom as usize, count);
    }

    pub fn set_scroll_region(&mut self, top: u16, bottom: u16)
        requires
            old(self)@.wf(),
        ensures
            final(self)@ == old(self)@.with_region(top as int, bottom as int),
            final(self)@.wf(),
    {
        let last: u16 = self.size.rows - 1;
        let end: u16 = if bottom < last {
            bottom
        } else {
            last
        };
        if top < end {
            self.scroll_top = top;
            self.scroll_bottom = end;
        } else {
            self.scroll_top = 0;
            self.scroll_bottom = last;
        }
        self.pos.row = self.scroll_top;
        self.pos.col = 0;
    }

    fn in_scroll_region(&self) -> (r: bool)
        ensures
            r == self@.in_region(),
    {
        self.pos.row >= self.scroll_top && self.pos.row <= self.scroll_bottom
    }

    fn scroll_region_active(&self) -> (r: bool)
        requires
            self@.wf(),
        ensures
            r == self@.region_active(),
    {
        self.scroll_top != 0 || self.scroll_bottom != self.size.rows - 1
    }

    pub fn set_origin_mode(&mut self, mode: bool)
        requires
            old(self)@.wf(),
        ensures
            final(self)@ == old(self)@.with_origin_mode(mode),
            final(self)@.wf(),
    {
        self.origin_mode = mode;
        self.set_pos(Pos { row: 0, col: 0 });
    }

    pub fn row_inc_clamp(&mut self, count: u16)
        requires
            old(self)@.wf(),
        ensures
            final(self)@ == old(self)@.row_moved_down(count as int),
            final(self)@.wf(),
    {
        let bottom: u16 = if self.in_scroll_region() {
            self.scroll_bottom
        } else {
            self.size.rows - 1
        };
        let row: u16 = self.pos.row.saturating_add(count);
        self.pos.row = if row < bottom {
            row
        } else {
            bottom
        };
    }

    /// Moves the cursor down, scrolling at the bottom of the region. Returns by how
    /// many lines the region moved.
    pub fn row_inc_scroll(&mut self, count: u16) -> (lines: u16)
        requires
            old(self)@.wf(),
            old(self)@.allocated(),
            old(self)@.pos.row + count <= u16::MAX,
        ensures
            final(self)@ == old(self)@.line_fed(count as int),
            lines == old(self)@.overrun(count as int),
            final(self)@.wf(),
    {
        let lines: u16 = if self.in_scroll_region() && self.pos.row + count > self.scroll_bottom {
            self.pos.row + count - self.scroll_bottom
        } else {
            0
        };
        self.row_inc_clamp(count);
        self.scroll_up(lines);
        lines
    }

    pub fn row_dec_clamp(&mut self, count: u16)
        requires
            old(self)@.wf(),
        ensures
            final(self)@ == old(self)@.row_moved_up(count as int),
            final(self)@.wf(),
    {
        let top: u16 = if self.in_scroll_region() {
            self.scroll_top
        } else {
            0
        };
        let row: u16 = self.pos.row.saturating_sub(count);
        self.pos.row = if row < top {
            top
        } else {
            row
        };
    }

    /// Moves the cursor one row up, scrolling at the top.
    pub fn reverse_line_feed(&mut self)
        requires
            old(self)@.wf(),
            old(self)@.allocated(),
        ensures
            final(self)@ == old(self)@.reverse_line_fed(),
            final(self)@.wf(),
    {
        let stuck: bool = self.pos.row == 0 || self.pos.row == self.scroll_top;
        self.row_dec_clamp(1);
        if stuck {
            self.scroll_down(1);
        }
    }

    pub fn row_set(&mut self, row: u16)
        requires
            old(self)@.wf(),
        ensures
            final(self)@ == old(self)@.row_at(row as int),
            final(self)@.wf(),
    {
        self.pos.row = if row < self.size.rows - 1 {
            row
        } else {
            self.size.rows - 1
        };
    }

    /// Moves the cursor right, at most to the last column.
    pub fn col_inc_clamp(&mut self, count: u16)
        requires
            old(self)@.wf(),
        ensures
            final(self)@ == old(self)@.col_at(old(self)@.pos.col + count),
            final(self)@.wf(),
    {
        self.pos.col = self.pos.col.saturating_add(count);
        self.col_clamp();
    }

    pub fn col_dec(&mut self, count: u16)
        requires
            old(self)@.wf(),
        ensures
            final(self)@ == old(self)@.col_moved_left(count as int),
            final(self)@.wf(),
    {
        self.pos.col = self.pos.col.saturating_sub(count);
    }

    pub fn col_set(&mut self, col: u16)
        requires
            old(self)@.wf(),
        ensures
            final(self)@ == old(self)@.col_at(col as int),
            final(self)@.wf(),
    {
        self.pos.col = col;
        self.col_clamp();
    }

    /// Makes room for a character at the right edge.
    pub fn col_wrap(&mut self, width: u16, wrap: bool)
        requires
            old(self)@.wf(),
            old(self)@.allocated(),
            width <= old(self)@.size.cols,
        ensures
            final(self)@ == old(self)@.wrapped_for(width as int, wrap),
            final(self)@.wf(),
    {
        if self.pos.col > self.size.cols - width {
            let row: u16 = self.pos.row;
            self.pos.col = 0;
            let ghost home = self@;
            let scrolled: u16 = self.row_inc_scroll(1);
            if scrolled == 0 || (scrolled <= row && row - scrolled >= self.scroll_top) {
                let left: u16 = row - scrolled;
                let ghost next = self@;
                let runs_on: bool = wrap && left + 1 == self.pos.row;
                self.rows[left as usize].wrap(runs_on);
                proof {
                    rows_stay_whole(next.rows[left as int], next.size.cols as int);
                    assert(self@.rows =~= next.rows.update(
                        left as int,
                        next.rows[left as int].with_wrap(runs_on),
                    ));
                }
            }
        }
    }

    /// Draws a character of `width` columns at the cursor and moves the cursor behind
    /// what it fills.
    pub fn draw(&mut self, c: char, width: u16, attrs: Attrs)
        requires
            old(self)@.wf(),
            old(self)@.allocated(),
            width == columns(c),
            width >= 1,
            old(self)@.pos.col + least_two(width as int) <= old(self)@.size.cols,
        ensures
            final(self)@ == old(self)@.drawn(c, width as int, attrs),
            final(self)@.wf(),
    {
        let row: usize = self.pos.row as usize;
        proof {
            rows_stay_whole(old(self)@.current(), old(self)@.size.cols as int);
        }
        self.rows[row].draw(self.pos.col as usize, c, width as usize, attrs);
        self.pos.col = self.pos.col + if width > 1 {
            2
        } else {
            1
        };
        proof {
            assert(self@.rows =~= old(self)@.drawn(c, width as int, attrs).rows);
        }
    }

    /// Combines a zero-width character onto a cell, or onto the character whose right
    /// half the cell is.
    pub fn combine_at(&mut self, row: u16, col: u16, c: char)
        requires
            old(self)@.wf(),
            row < old(self)@.rows.len(),
            col < old(self)@.size.cols,
        ensures
            final(self)@ == old(self)@.combined_at(row as int, col as int, c),
            final(self)@.wf(),
    {
        proof {
            assert(old(self)@.rows[row as int].wf(old(self)@.size.cols as int));
        }
        let right: bool = self.rows[row as usize].cell(col as usize).is_wide_continuation();
        proof {
            let r = old(self)@.rows[row as int];
            assert(right == r.cells[col as int].cont());
            rows_stay_whole(r, old(self)@.size.cols as int);
        }
        let at: usize = if right {
            col as usize - 1
        } else {
            col as usize
        };
        self.rows[row as usize].append_at(at, c);
        proof {
            assert(self@.rows =~= old(self)@.combined_at(row as int, col as int, c).rows);
        }
    }

    /// Moves the cursor where a character of `width` columns goes.
    fn place_for(&mut self, width: u16, autowrap: bool)
        requires
            old(self)@.wf(),
            old(self)@.allocated(),
            width <= old(self)@.size.cols,
        ensures
            final(self)@ == old(self)@.placed_for(width as int, autowrap),
            final(self)@.wf(),
            final(self)@.allocated(),
            final(self)@.size == old(self)@.size,
            width > 0 ==> final(self)@.pos.col + width <= final(self)@.size.cols,
    {
        proof {
            reveal(GridModel::placed_for);
        }
        let margin: u16 = self.size.cols - width;
        if autowrap {
            let mut wrap: bool = false;
            if self.pos.col > margin {
                proof {
                    assert(self@.current().wf(self@.size.cols as int));
                }
                let last = self.drawing_row(self.pos.row).cell(self.size.cols as usize - 1);
                wrap = last.has_contents() || last.is_wide_continuation();
            }
            self.col_wrap(width, wrap);
        } else if width > 0 && self.pos.col > margin {
            self.col_set(margin);
        }
    }

    /// Combines a zero-width character onto the one before the cursor.
    fn combine_before(&mut self, c: char)
        requires
            old(self)@.wf(),
            old(self)@.allocated(),
        ensures
            final(self)@ == old(self)@.combined_before(c),
            final(self)@.wf(),
            final(self)@.allocated(),
            final(self)@.size == old(self)@.size,
    {
        if self.pos.col > 0 {
            self.combine_at(self.pos.row, self.pos.col - 1, c);
        } else if self.pos.row > 0 && self.drawing_row(self.pos.row - 1).wrapped() {
            self.combine_at(self.pos.row - 1, self.size.cols - 1, c);
        }
    }

    /// Prints a character of `width` columns.
    pub fn print(&mut self, c: char, width: u16, attrs: Attrs, autowrap: bool, insert: bool)
        requires
            old(self)@.wf(),
            old(self)@.allocated(),
            width == columns(c),
            width <= old(self)@.size.cols,
        ensures
            final(self)@ == old(self)@.printed(c, width as int, attrs, autowrap, insert),
            final(self)@.wf(),
            final(self)@.allocated(),
            final(self)@.size == old(self)@.size,
    {
        proof {
            reveal(GridModel::printed);
        }
        self.place_for(width, autowrap);
        let ghost placed = self@;
        if width == 0 {
            self.combine_before(c);
            return;
        }
        if insert {
            self.insert_cells(width);
            proof {
                assert(self@.size == placed.size && self@.pos == placed.pos && self@.allocated());
            }
        }
        self.draw(c, width, attrs);
    }

    /// Fills the data slot of a cell.
    pub fn set_data_at(&mut self, row: u16, col: u16, data: Option<T>)
        requires
            old(self)@.wf(),
            row < old(self)@.rows.len(),
            col < old(self)@.size.cols,
        ensures
            final(self)@ == old(self)@.with_data_at(row as int, col as int, data),
            final(self)@.wf(),
    {
        proof {
            rows_stay_whole(old(self)@.rows[row as int], old(self)@.size.cols as int);
        }
        self.rows[row as usize].set_data_at(col as usize, data);
        proof {
            assert(self@.rows =~= old(self)@.with_data_at(row as int, col as int, data).rows);
        }
    }
}

} // verus!
