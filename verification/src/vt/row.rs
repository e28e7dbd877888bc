//! One row of cells.
use vstd::prelude::*;

use crate::vt::attrs::Attrs;
use crate::vt::cell::{columns, Cell, CellModel, Half};

verus! {

/// What a row holds, mathematically: its cells, and whether its text runs on in the
/// next row.
pub struct RowModel<T> {
    pub cells: Seq<CellModel<T>>,
    pub wrapped: bool,
}

impl<T> RowModel<T> {
    /// A row of empty cells.
    pub open spec fn fresh(cols: int) -> RowModel<T> {
        RowModel {
            cells: Seq::new(cols as nat, |i: int| CellModel::<T>::blank(Attrs::plain())),
            wrapped: false,
        }
    }

    pub proof fn fresh_is_whole(cols: int)
        requires
            cols >= 0,
        ensures
            RowModel::<T>::fresh(cols).wf(cols),
    {
    }

    /// The row has `cols` cells and every wide character has both its halves.
    pub open spec fn wf(self, cols: int) -> bool {
        &&& self.cells.len() == cols
        &&& forall|i: int|
            #![trigger self.cells[i].wide()]
            0 <= i < cols && self.cells[i].wide() ==> i + 1 < cols && self.cells[i + 1].cont()
        &&& forall|i: int|
            #![trigger self.cells[i].cont()]
            0 <= i < cols && self.cells[i].cont() ==> 0 < i && self.cells[i - 1].wide()
    }

    pub open spec fn with_cell(self, i: int, cell: CellModel<T>) -> RowModel<T> {
        RowModel { cells: self.cells.update(i, cell), ..self }
    }

    pub open spec fn with_wrap(self, wrapped: bool) -> RowModel<T> {
        RowModel { wrapped, ..self }
    }

    /// Every cell emptied.
    pub open spec fn cleared(self, attrs: Attrs) -> RowModel<T> {
        RowModel {
            cells: Seq::new(self.cells.len(), |i: int| CellModel::<T>::blank(attrs)),
            wrapped: false,
        }
    }

    /// The columns from `lo` up to `hi` emptied. A wide character that the span cuts
    /// loses its other half too. Emptying the last character breaks the wrap.
    pub open spec fn erased(self, lo: int, hi: int, attrs: Attrs) -> RowModel<T> {
        if lo >= hi {
            self
        } else {
            RowModel {
                cells: Seq::new(
                    self.cells.len(),
                    |i: int|
                        if lo <= i < hi {
                            CellModel::blank(attrs)
                        } else if (i == lo - 1 && self.cells[lo].cont()) || (i == hi
                            && self.cells[hi - 1].wide()) {
                            CellModel::blank(self.cells[i].attrs)
                        } else {
                            self.cells[i]
                        },
                ),
                wrapped: self.wrapped && hi < self.cells.len() && !(hi == self.cells.len() - 1
                    && self.cells[hi - 1].wide()),
            }
        }
    }

    /// The last cell emptied if it holds the left half of a wide character, whose
    /// right half has no room.
    pub open spec fn without_split_end(self) -> RowModel<T> {
        if self.cells.len() > 0 && self.cells.last().wide() {
            self.with_cell(
                self.cells.len() - 1,
                CellModel::blank(self.cells.last().attrs),
            )
        } else {
            self
        }
    }

    /// The cells after `count` empty ones were put in at column `at`, as far as the row
    /// reaches.
    pub open spec fn shifted(self, at: int, count: int) -> Seq<CellModel<T>> {
        let split = count > 0 && at < self.cells.len() && self.cells[at].cont();
        Seq::new(
            self.cells.len(),
            |i: int|
                if i < at {
                    self.cells[i]
                } else if i < at + count {
                    if i == at && split {
                        CellModel::right_half()
                    } else {
                        CellModel::blank(Attrs::plain())
                    }
                } else if i == at + count && split {
                    CellModel { half: Half::Whole, ..self.cells[i - count] }
                } else {
                    self.cells[i - count]
                },
        )
    }

    /// `count` empty cells put in at column `at`; what is pushed off the right edge is
    /// gone. Between the halves of a wide character the right half stays at `at`.
    pub open spec fn inserted(self, at: int, count: int) -> RowModel<T> {
        RowModel { cells: self.shifted(at, count), wrapped: false }.without_split_end()
    }

    /// `count` cells taken out at column `at`, and as many empty ones added at the
    /// right edge. A wide character that the cut splits is emptied.
    pub open spec fn deleted(self, at: int, count: int) -> RowModel<T> {
        RowModel {
            cells: Seq::new(
                self.cells.len(),
                |i: int|
                    if i < at {
                        if count > 0 && i == at - 1 && self.cells[at].cont() {
                            CellModel::blank(self.cells[i].attrs)
                        } else {
                            self.cells[i]
                        }
                    } else if i + count < self.cells.len() {
                        if count > 0 && i == at && self.cells[i + count - 1].wide() {
                            CellModel::blank(self.cells[i + count].attrs)
                        } else {
                            self.cells[i + count]
                        }
                    } else {
                        CellModel::blank(Attrs::plain())
                    },
            ),
            wrapped: false,
        }
    }

    /// Cut or filled up with empty cells to `cols` columns.
    pub open spec fn resized(self, cols: int) -> RowModel<T> {
        RowModel {
            cells: Seq::new(
                cols as nat,
                |i: int|
                    if i < self.cells.len() {
                        self.cells[i]
                    } else {
                        CellModel::blank(Attrs::plain())
                    },
            ),
            wrapped: false,
        }.without_split_end()
    }

    /// The character `c` of width `width`, at least 1, drawn at column `at`. What it
    /// overwrites half of is emptied; a wide character fills the next cell too.
    pub open spec fn drawn(self, at: int, c: char, width: int, attrs: Attrs) -> RowModel<T> {
        let cuts_next = width > 1 && self.cells[at + 1].wide();
        RowModel {
            cells: Seq::new(
                self.cells.len(),
                |i: int|
                    if i == at {
                        CellModel::drawn(c, attrs)
                    } else if i == at - 1 && self.cells[at].cont() {
                        CellModel::blank(attrs)
                    } else if i == at + 1 && width > 1 {
                        CellModel::right_half()
                    } else if i == at + 1 && self.cells[at].wide() {
                        CellModel::space(attrs)
                    } else if i == at + 2 && cuts_next {
                        CellModel::blank(attrs)
                    } else {
                        self.cells[i]
                    },
            ),
            wrapped: self.wrapped && !(cuts_next && at + 2 == self.cells.len() - 1),
        }
    }
}

/// Every way to change a row keeps its width and keeps wide characters whole.
pub proof fn rows_stay_whole<T>(row: RowModel<T>, cols: int)
    requires
        row.wf(cols),
        cols > 0,
    ensures
        RowModel::<T>::fresh(cols).wf(cols),
        forall|attrs: Attrs| (#[trigger] row.cleared(attrs)).wf(cols),
        forall|lo: int, hi: int, attrs: Attrs|
            0 <= lo && hi <= cols ==> (#[trigger] row.erased(lo, hi, attrs)).wf(cols),
        forall|at: int, count: int|
            0 <= at <= cols && count >= 0 ==> (#[trigger] row.inserted(at, count)).wf(cols),
        forall|at: int, count: int|
            0 <= at && count >= 0 && at + count <= cols ==> (#[trigger] row.deleted(
                at,
                count,
            )).wf(cols),
        forall|n: int| n > 0 ==> (#[trigger] row.resized(n)).wf(n),
        forall|at: int, c: char, width: int, attrs: Attrs|
            0 <= at && width >= 1 && at + least_two(width) <= cols && width == columns(c)
                ==> (#[trigger] row.drawn(at, c, width, attrs)).wf(cols),
        forall|at: int, c: char|
            0 <= at < cols ==> (#[trigger] row.with_cell(at, row.cells[at].combined(c))).wf(cols),
        forall|at: int, data: Option<T>|
            0 <= at < cols ==> (#[trigger] row.with_cell(
                at,
                row.cells[at].with_data(data),
            )).wf(cols),
        forall|w: bool| (#[trigger] row.with_wrap(w)).wf(cols),
{
    assert forall|at: int, count: int| 0 <= at <= cols && count >= 0 implies (
    #[trigger] row.inserted(at, count)).wf(cols) by {
        let r = RowModel { cells: row.shifted(at, count), wrapped: false };
        let f = r.without_split_end();
        assert(f == row.inserted(at, count));
        assert forall|i: int| 0 <= i < cols && (#[trigger] f.cells[i].cont()) implies 0 < i
            && f.cells[i - 1].wide() by {
            if i < at {
                assert(row.cells[i].cont());
            } else if i == at && i < at + count {
                assert(row.cells[at].cont());
                assert(row.cells[at - 1].wide());
            } else if i >= at + count {
                assert(row.cells[i - count].cont());
                assert(row.cells[i - count - 1].wide());
            }
        }
        assert forall|i: int| 0 <= i < cols && (#[trigger] f.cells[i].wide()) implies i + 1
            < cols && f.cells[i + 1].cont() by {
            if i < at {
                assert(row.cells[i].wide());
                assert(row.cells[i + 1].cont());
            } else if i >= at + count {
                assert(row.cells[i - count].wide());
                assert(row.cells[i - count + 1].cont());
            }
        }
    }
    assert forall|at: int, count: int| 0 <= at && count >= 0 && at + count <= cols implies (
    #[trigger] row.deleted(at, count)).wf(cols) by {
        let f = row.deleted(at, count);
        assert forall|i: int| 0 <= i < cols && (#[trigger] f.cells[i].cont()) implies 0 < i
            && f.cells[i - 1].wide() by {
            if i < at {
                assert(row.cells[i].cont());
            } else {
                assert(row.cells[i + count].cont());
                assert(row.cells[i + count - 1].wide());
            }
        }
        assert forall|i: int| 0 <= i < cols && (#[trigger] f.cells[i].wide()) implies i + 1
            < cols && f.cells[i + 1].cont() by {
            if i < at {
                assert(row.cells[i].wide());
                assert(row.cells[i + 1].cont());
            } else {
                assert(row.cells[i + count].wide());
                assert(row.cells[i + count + 1].cont());
            }
        }
    }
    assert forall|n: int| n > 0 implies (#[trigger] row.resized(n)).wf(n) by {
        let f = row.resized(n);
        assert forall|i: int| 0 <= i < n && (#[trigger] f.cells[i].cont()) implies 0 < i
            && f.cells[i - 1].wide() by {
            assert(row.cells[i].cont());
            assert(row.cells[i - 1].wide());
        }
        assert forall|i: int| 0 <= i < n && (#[trigger] f.cells[i].wide()) implies i + 1 < n
            && f.cells[i + 1].cont() by {
            assert(row.cells[i].wide());
            assert(row.cells[i + 1].cont());
        }
    }
    assert forall|lo: int, hi: int, attrs: Attrs| 0 <= lo && hi <= cols implies (
    #[trigger] row.erased(lo, hi, attrs)).wf(cols) by {
        let f = row.erased(lo, hi, attrs);
        assert forall|i: int| 0 <= i < cols && (#[trigger] f.cells[i].cont()) implies 0 < i
            && f.cells[i - 1].wide() by {
            assert(row.cells[i].cont());
            assert(row.cells[i - 1].wide());
        }
        assert forall|i: int| 0 <= i < cols && (#[trigger] f.cells[i].wide()) implies i + 1
            < cols && f.cells[i + 1].cont() by {
            assert(row.cells[i].wide());
            assert(row.cells[i + 1].cont());
        }
    }
    assert forall|at: int, c: char, width: int, attrs: Attrs|
        0 <= at && width >= 1 && at + least_two(width) <= cols && width == columns(c) implies (
    #[trigger] row.drawn(at, c, width, attrs)).wf(cols) by {
        let f = row.drawn(at, c, width, attrs);
        assert forall|i: int| 0 <= i < cols && (#[trigger] f.cells[i].cont()) implies 0 < i
            && f.cells[i - 1].wide() by {
            if !(i == at + 1 && width > 1) {
                assert(row.cells[i].cont());
                assert(row.cells[i - 1].wide());
            }
        }
        assert forall|i: int| 0 <= i < cols && (#[trigger] f.cells[i].wide()) implies i + 1
            < cols && f.cells[i + 1].cont() by {
            if i == at + 1 && width == 1 && row.cells[at].wide() {
            } else if i != at {
                assert(row.cells[i].wide());
                assert(row.cells[i + 1].cont());
            }
        }
    }
    assert forall|at: int, c: char| 0 <= at < cols implies (#[trigger] row.with_cell(
        at,
        row.cells[at].combined(c),
    )).wf(cols) by {
        same_halves(row, row.with_cell(at, row.cells[at].combined(c)), cols);
    }
    assert forall|at: int, data: Option<T>| 0 <= at < cols implies (#[trigger] row.with_cell(
        at,
        row.cells[at].with_data(data),
    )).wf(cols) by {
        same_halves(row, row.with_cell(at, row.cells[at].with_data(data)), cols);
    }
    assert forall|w: bool| (#[trigger] row.with_wrap(w)).wf(cols) by {
        same_halves(row, row.with_wrap(w), cols);
    }
}

/// The columns that a drawn character fills: two for a wide one.
pub open spec fn least_two(width: int) -> int {
    if width > 1 {
        2
    } else {
        1
    }
}

proof fn same_halves<T>(a: RowModel<T>, b: RowModel<T>, cols: int)
    requires
        a.wf(cols),
        b.cells.len() == a.cells.len(),
        forall|i: int| 0 <= i < cols ==> (#[trigger] b.cells[i]).half == a.cells[i].half,
    ensures
        b.wf(cols),
{
    assert forall|i: int| 0 <= i < cols && (#[trigger] b.cells[i].cont()) implies 0 < i
        && b.cells[i - 1].wide() by {
        assert(a.cells[i].cont());
    }
    assert forall|i: int| 0 <= i < cols && (#[trigger] b.cells[i].wide()) implies i + 1 < cols
        && b.cells[i + 1].cont() by {
        assert(a.cells[i].wide());
    }
}

/// One row of a grid.
pub struct Row<T> {
    cells: Vec<Cell<T>>,
    wrapped: bool,
}

impl<T> View for Row<T> {
    type V = RowModel<T>;

    closed spec fn view(&self) -> RowModel<T> {
        RowModel {
            cells: Seq::new(self.cells@.len(), |i: int| self.cells@[i]@),
            wrapped: self.wrapped,
        }
    }
}

impl<T> Row<T> {
    /// A row of `cols` empty cells.
    pub fn new(cols: u16) -> (r: Row<T>)
        ensures
            r@ == RowModel::<T>::fresh(cols as int),
    {
        let mut cells: Vec<Cell<T>> = Vec::new();
        for i in 0..cols
            invariant
                cells@.len() == i,
                forall|j: int| 0 <= j < i ==> (#[trigger] cells@[j])@ == CellModel::<T>::blank(
                    Attrs::plain(),
                ),
        {
            cells.push(Cell::new());
        }
        let r = Row { cells, wrapped: false };
        proof {
            assert(r@.cells =~= RowModel::<T>::fresh(cols as int).cells);
        }
        r
    }

    /// The number of cells.
    pub fn len(&self) -> (r: usize)
        ensures
            r == self@.cells.len(),
    {
        self.cells.len()
    }

    /// The cell at a column, if the row has it.
    pub fn get(&self, col: u16) -> (r: Option<&Cell<T>>)
        ensures
            r is Some <==> col < self@.cells.len(),
            r is Some ==> (r->Some_0)@ == self@.cells[col as int],
    {
        if (col as usize) < self.cells.len() {
            Some(&self.cells[col as usize])
        } else {
            None
        }
    }

    /// The cell at a column of the row.
    pub fn cell(&self, col: usize) -> (r: &Cell<T>)
        requires
            col < self@.cells.len(),
        ensures
            r@ == self@.cells[col as int],
    {
        &self.cells[col]
    }

    /// Whether the row's text runs on in the next row.
    pub fn wrapped(&self) -> (r: bool)
        ensures
            r == self@.wrapped,
    {
        self.wrapped
    }

    pub fn wrap(&mut self, wrap: bool)
        ensures
            final(self)@ == old(self)@.with_wrap(wrap),
    {
        self.wrapped = wrap;
        proof {
            assert(self@.cells =~= old(self)@.cells);
        }
    }

    /// Combines a zero-width character onto a cell.
    pub fn append_at(&mut self, col: usize, c: char)
        requires
            col < old(self)@.cells.len(),
        ensures
            final(self)@ == old(self)@.with_cell(
                col as int,
                old(self)@.cells[col as int].combined(c),
            ),
    {
        self.cells[col].append(c);
        proof {
            assert(self@.cells =~= old(self)@.cells.update(
                col as int,
                old(self)@.cells[col as int].combined(c),
            ));
        }
    }

    /// Fills the data slot of a cell.
    pub fn set_data_at(&mut self, col: usize, data: Option<T>)
        requires
            col < old(self)@.cells.len(),
        ensures
            final(self)@ == old(self)@.with_cell(
                col as int,
                old(self)@.cells[col as int].with_data(data),
            ),
    {
        self.cells[col].set_data(data);
        proof {
            assert(self@.cells =~= old(self)@.cells.update(
                col as int,
                old(self)@.cells[col as int].with_data(data),
            ));
        }
    }

    fn clear_at(&mut self, col: usize, attrs: Attrs)
        requires
            col < old(self)@.cells.len(),
        ensures
            final(self)@ == old(self)@.with_cell(col as int, CellModel::blank(attrs)),
    {
        self.cells[col].clear(attrs);
        proof {
            assert(self@.cells =~= old(self)@.cells.update(
                col as int,
                CellModel::blank(attrs),
            ));
        }
    }

    /// Empties every cell.
    pub fn clear(&mut self, attrs: Attrs)
        ensures
            final(self)@ == old(self)@.cleared(attrs),
    {
        let n: usize = self.cells.len();
        for i in 0..n
            invariant
                self.cells@.len() == n,
                n == old(self)@.cells.len(),
                forall|j: int| 0 <= j < i ==> (#[trigger] self.cells@[j])@
                    == CellModel::<T>::blank(attrs),
        {
            self.cells[i].clear(attrs);
        }
        self.wrapped = false;
        proof {
            assert(self@.cells =~= old(self)@.cleared(attrs).cells);
        }
    }

    /// Empties the columns from `lo` up to `hi`.
    pub fn erase(&mut self, lo: usize, hi: usize, attrs: Attrs)
        requires
            hi <= old(self)@.cells.len(),
            old(self)@.wf(old(self)@.cells.len() as int),
        ensures
            final(self)@ == old(self)@.erased(lo as int, hi as int, attrs),
    {
        if lo >= hi {
            return;
        }
        let n: usize = self.cells.len();
        let starts_inside: bool = self.cell(lo).is_wide_continuation();
        let cut: bool = self.cell(hi - 1).is_wide();
        if starts_inside {
            let a = self.cells[lo - 1].attrs();
            self.cells[lo - 1].clear(a);
        }
        if cut {
            let a = self.cells[hi].attrs();
            self.cells[hi].clear(a);
        }
        let ghost edges = self.cells@;
        for i in lo..hi
            invariant
                lo < hi <= n,
                self.cells@.len() == n,
                edges.len() == n,
                self.wrapped == old(self).wrapped,
                forall|j: int| lo <= j < i ==> (#[trigger] self.cells@[j])@
                    == CellModel::<T>::blank(attrs),
                forall|j: int|
                    0 <= j < n && !(lo <= j < i) ==> (#[trigger] self.cells@[j]) == edges[j],
        {
            self.cells[i].clear(attrs);
        }
        if hi == n || (hi == n - 1 && cut) {
            self.wrapped = false;
        }
        proof {
            assert(self@.cells =~= old(self)@.erased(lo as int, hi as int, attrs).cells);
        }
    }

    fn drop_split_end(&mut self)
        requires
            old(self)@.cells.len() > 0,
        ensures
            final(self)@ == old(self)@.without_split_end(),
    {
        let last: usize = self.cells.len() - 1;
        if self.cells[last].is_wide() {
            let a = self.cells[last].attrs();
            self.clear_at(last, a);
        }
    }

    /// Puts `count` empty cells in at column `at`.
    pub fn insert(&mut self, at: usize, count: u16)
        requires
            0 < old(self)@.cells.len() <= u16::MAX,
            at <= old(self)@.cells.len(),
            old(self)@.wf(old(self)@.cells.len() as int),
        ensures
            final(self)@ == old(self)@.inserted(at as int, count as int),
    {
        let n: usize = self.cells.len();
        let room: usize = n - at;
        let k: usize = if (count as usize) < room {
            count as usize
        } else {
            room
        };
        let split: bool = k > 0 && self.cell(at).is_wide_continuation();
        if split {
            self.cells[at].set_wide_continuation(false);
        }
        let ghost before = self.cells@;
        for i in 0..k
            invariant
                at + k <= n,
                before.len() == n,
                n <= u16::MAX,
                self.cells@.len() == n + i,
                forall|j: int| 0 <= j < at ==> (#[trigger] self.cells@[j]) == before[j],
                forall|j: int| at <= j < at + i ==> (#[trigger] self.cells@[j])@
                    == CellModel::<T>::blank(Attrs::plain()),
                forall|j: int|
                    at + i <= j < n + i ==> (#[trigger] self.cells@[j]) == before[j - i],
        {
            self.cells.insert(at, Cell::new());
        }
        self.cells.truncate(n);
        if split {
            self.cells[at].set_wide_continuation(true);
        }
        self.wrapped = false;
        proof {
            assert(self@.cells =~= old(self)@.shifted(at as int, count as int));
        }
        self.drop_split_end();
    }

    /// Takes `count` cells out at column `at`.
    pub fn delete(&mut self, at: usize, count: usize)
        requires
            at + count <= old(self)@.cells.len(),
            old(self)@.wf(old(self)@.cells.len() as int),
        ensures
            final(self)@ == old(self)@.deleted(at as int, count as int),
    {
        let n: usize = self.cells.len();
        if count > 0 {
            let starts_inside: bool = self.cell(at).is_wide_continuation();
            let cut: bool = self.cell(at + count - 1).is_wide();
            if starts_inside {
                let a = self.cells[at - 1].attrs();
                self.cells[at - 1].clear(a);
            }
            if cut {
                let a = self.cells[at + count].attrs();
                self.cells[at + count].clear(a);
            }
        }
        let ghost edges = self.cells@;
        for i in 0..count
            invariant
                at + count <= n,
                edges.len() == n,
                self.cells@.len() == n - i,
                forall|j: int| 0 <= j < at ==> (#[trigger] self.cells@[j]) == edges[j],
                forall|j: int| at <= j < n - i ==> (#[trigger] self.cells@[j]) == edges[j + i],
        {
            let _ = self.cells.remove(at);
        }
        for i in 0..count
            invariant
                at + count <= n,
                edges.len() == n,
                self.cells@.len() == n - count + i,
                forall|j: int| 0 <= j < at ==> (#[trigger] self.cells@[j]) == edges[j],
                forall|j: int|
                    at <= j < n - count ==> (#[trigger] self.cells@[j]) == edges[j + count],
                forall|j: int| n - count <= j < n - count + i ==> (#[trigger] self.cells@[j])@
                    == CellModel::<T>::blank(Attrs::plain()),
        {
            self.cells.push(Cell::new());
        }
        self.wrapped = false;
        proof {
            assert(self@.cells =~= old(self)@.deleted(at as int, count as int).cells);
        }
    }

    /// Cuts the row or fills it up with empty cells.
    pub fn resize(&mut self, cols: u16)
        requires
            cols > 0,
        ensures
            final(self)@ == old(self)@.resized(cols as int),
    {
        let n: usize = self.cells.len();
        let want: usize = cols as usize;
        self.cells.truncate(want);
        let ghost kept = self.cells@;
        while self.cells.len() < want
            invariant
                kept.len() <= self.cells@.len() <= want,
                kept == old(self).cells@.take(if n < want { n as int } else { want as int }),
                n == old(self).cells@.len(),
                forall|j: int| 0 <= j < kept.len() ==> (#[trigger] self.cells@[j]) == kept[j],
                forall|j: int|
                    kept.len() <= j < self.cells@.len() ==> (#[trigger] self.cells@[j])@
                        == CellModel::<T>::blank(Attrs::plain()),
            decreases want - self.cells@.len(),
        {
            self.cells.push(Cell::new());
        }
        self.wrapped = false;
        proof {
            let model = RowModel {
                cells: Seq::new(
                    cols as nat,
                    |i: int|
                        if i < old(self)@.cells.len() {
                            old(self)@.cells[i]
                        } else {
                            CellModel::blank(Attrs::plain())
                        },
                ),
                wrapped: false,
            };
            assert(self@.cells =~= model.cells);
        }
        self.drop_split_end();
    }

    /// Draws a character that takes `width` columns at column `at`.
    pub fn draw(&mut self, at: usize, c: char, width: usize, attrs: Attrs)
        requires
            width >= 1,
            at < old(self)@.cells.len() <= u16::MAX,
            width > 1 ==> at + 1 < old(self)@.cells.len(),
            old(self)@.wf(old(self)@.cells.len() as int),
        ensures
            final(self)@ == old(self)@.drawn(at as int, c, width as int, attrs),
    {
        let n: usize = self.cells.len();
        let on_right: bool = self.cell(at).is_wide_continuation();
        let on_left: bool = self.cell(at).is_wide();
        let cuts_next: bool = width > 1 && self.cell(at + 1).is_wide();
        if on_right {
            self.cells[at - 1].clear(attrs);
        }
        if on_left {
            self.cells[at + 1].set(' ', attrs);
        }
        self.cells[at].set(c, attrs);
        if width > 1 {
            if cuts_next {
                self.cells[at + 2].clear(attrs);
                if at + 2 == n - 1 {
                    self.wrapped = false;
                }
            }
            self.cells[at + 1].clear(Attrs::default());
            self.cells[at + 1].set_wide_continuation(true);
        }
        proof {
            assert(self@.cells =~= old(self)@.drawn(at as int, c, width as int, attrs).cells);
        }
    }
}

} // verus!
