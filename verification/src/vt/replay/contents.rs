//! A screen that is written out, or turned into another, shows what it should in the end.
use vstd::prelude::*;

use crate::vt::format::{Line, Pen};
use crate::vt::grid::{GridModel, Pos};
use crate::vt::replay::rows::{row_is_diffed, row_is_formatted};
use crate::vt::replay::sweep::{ends_broken, Scene};
use crate::vt::replay::token::draws;
use crate::vt::row::RowModel;
use crate::vt::replay::ground::Setting;
use crate::vt::screen::ScreenModel;

verus! {

impl<T> GridModel<T> {
    /// Whether the rows in view hold what text leaves in rows.
    pub open spec fn legible(self) -> bool {
        forall|i: int|
            0 <= i < self.visible().len() ==> (#[trigger] self.visible()[i]).legible()
    }

    /// Whether what is in view fits a terminal of the grid's size: the rows are as wide as the grid
    /// and have room for all columns of each character. A cursor behind the last column belongs to a
    /// row that is in view.
    pub open spec fn viewable(self) -> bool {
        &&& forall|i: int|
            0 <= i < self.visible().len() ==> (#[trigger] self.visible()[i]).cells.len()
                == self.size.cols && self.visible()[i].fits()
        &&& self.scrollback_offset == 0 || self.pos.col < self.size.cols
    }

    /// Whether rows show the first `n` of some rows, and below them what other rows show.
    pub open spec fn shows_rows(
        self,
        new: Seq<RowModel<T>>,
        old_rows: Seq<RowModel<T>>,
        n: int,
    ) -> bool {
        &&& forall|i: int|
            0 <= i < n && i < self.rows.len() ==> (#[trigger] self.rows[i]).shows(new[i])
        &&& forall|i: int|
            n <= i < self.rows.len() && 0 <= i ==> (#[trigger] self.rows[i]).shows(old_rows[i])
    }
}

/// Rows that can be drawn: whole, of one width, and of text that can be drawn.
pub open spec fn drawable_rows<T>(rows: Seq<RowModel<T>>, cols: int) -> bool {
    forall|i: int|
        0 <= i < rows.len() ==> (#[trigger] rows[i]).wf(cols) && rows[i].legible()
            && rows[i].fits()
}

/// Rows that a terminal can show: whole, of one width, and of what text leaves in rows.
pub open spec fn readable_rows<T>(rows: Seq<RowModel<T>>, cols: int) -> bool {
    forall|i: int| 0 <= i < rows.len() ==> (#[trigger] rows[i]).wf(cols) && rows[i].legible()
}

/// Whether rows run on as others do. The last has nothing to run on into.
pub open spec fn run_alike<T>(a: Seq<RowModel<T>>, b: Seq<RowModel<T>>) -> bool {
    forall|i: int| 0 <= i < a.len() - 1 ==> (#[trigger] a[i]).wrapped == b[i].wrapped
}

/// Whether a row that ran on before and is to run on does once it is drawn over the other: where
/// its end breaks, the row below has to begin otherwise than before, so that its first cell is
/// drawn.
pub open spec fn run_is_kept<T>(
    new: Seq<RowModel<T>>,
    old_rows: Seq<RowModel<T>>,
    i: int,
) -> bool {
    new[i].wrapped && old_rows[i].wrapped && ends_broken(new[i].cells, old_rows[i].cells)
        ==> !new[i + 1].cells[0].looks_like(old_rows[i + 1].cells[0])
}

/// Whether that holds of all rows but the last.
pub open spec fn runs_are_kept<T>(new: Seq<RowModel<T>>, old_rows: Seq<RowModel<T>>) -> bool {
    forall|i: int| 0 <= i < new.len() - 1 ==> #[trigger] run_is_kept(new, old_rows, i)
}

/// Whether the first `n` rows of a terminal run on as they are to, and the rest as before. The last
/// of the first may be about to, with the pen behind its end.
#[verifier::opaque]
pub open spec fn linked<T>(
    rows: Seq<RowModel<T>>,
    pen: Pen,
    new: Seq<RowModel<T>>,
    old_rows: Seq<RowModel<T>>,
    cols: u16,
    n: int,
) -> bool {
    &&& forall|i: int|
        0 <= i < n - 1 && i < new.len() - 1 ==> (#[trigger] rows[i]).wrapped == new[i].wrapped
    &&& 0 < n < new.len() ==> {
        &&& rows[n - 1].wrapped ==> new[n - 1].wrapped
        &&& new[n - 1].wrapped && !rows[n - 1].wrapped ==> pen.pos == (Pos {
            row: (n - 1) as u16,
            col: cols,
        }) && (old_rows[n - 1].wrapped ==> ends_broken(new[n - 1].cells, old_rows[n - 1].cells))
    }
    &&& forall|i: int|
        0 <= i && n <= i < new.len() - 1 ==> (#[trigger] rows[i]).wrapped == old_rows[i].wrapped
}

/// A terminal that shows the first rows of a screen, and those of another below.
pub open spec fn partly<T>(
    u: ScreenModel<T>,
    pen: Pen,
    new: Seq<RowModel<T>>,
    old_rows: Seq<RowModel<T>>,
    n: int,
    setting: Setting,
) -> bool {
    &&& u.ready()
    &&& u.setting() == setting
    &&& u.active().size.rows == new.len()
    &&& u.active().size.rows == old_rows.len()
    &&& u.active().shows_rows(new, old_rows, n)
    &&& u.active().pos == pen.pos
    &&& u.attrs.same_look(pen.attrs)
    &&& pen.erase is None
}

/// The scene of one row of a terminal.
pub open spec fn scene_of<T>(
    u: ScreenModel<T>,
    new: RowModel<T>,
    was: RowModel<T>,
    i: int,
    wrapping: bool,
) -> Scene<T> {
    Scene {
        line: Line { row: i as u16, cols: u.active().size.cols, wrapping },
        row: new,
        was: was.cells,
        rest: u.active().rows,
        setting: u.setting(),
    }
}

pub(crate) proof fn scene_begins<T>(
    u: ScreenModel<T>,
    pen: Pen,
    new: Seq<RowModel<T>>,
    old_rows: Seq<RowModel<T>>,
    n: int,
    setting: Setting,
    wrapping: bool,
)
    requires
        partly(u, pen, new, old_rows, n, setting),
        drawable_rows(new, u.active().size.cols as int),
        readable_rows(old_rows, u.active().size.cols as int),
        0 <= n < new.len(),
        wrapping ==> n > 0 && new[n - 1].wrapped,
    ensures
        scene_of(u, new[n], old_rows[n], n, wrapping).sound(),
        scene_of(u, new[n], old_rows[n], n, wrapping).reached(u, pen, 0),
{
    let s = scene_of(u, new[n], old_rows[n], n, wrapping);
    let cols = u.active().size.cols as int;
    assert(new[n].wf(cols));
    assert(old_rows[n].wf(cols));
    assert(old_rows[n].legible());
    assert(new[n].legible());
    assert(new[n].fits());
    let a = RowModel { cells: s.was, wrapped: false };
    assert(a.wf(cols)) by {
        assert forall|i: int| 0 <= i < cols && (#[trigger] a.cells[i].wide()) implies i + 1 < cols
            && a.cells[i + 1].cont() by {
            assert(old_rows[n].cells[i].wide());
        }
        assert forall|i: int| 0 <= i < cols && (#[trigger] a.cells[i].cont()) implies 0 < i
            && a.cells[i - 1].wide() by {
            assert(old_rows[n].cells[i].cont());
        }
    }
    assert forall|i: int| 0 <= i < cols implies (#[trigger] s.row.cells[i]).legible()
        && s.row.cells[i].fits(cols - i) by {}
    if wrapping {
        let above = u.active().rows[n - 1];
        assert(above.shows(new[n - 1]));
        assert(new[n - 1].wf(cols));
        assert(new[n - 1].legible());
        assert(new[n - 1].cells.last() == new[n - 1].cells[cols - 1]);
        assert(above.cells[cols - 1].shows(new[n - 1].cells[cols - 1]));
        assert(s.above_is_full());
    }
    let cells = u.active().rows[n].cells;
    assert(u.active().rows[n].shows(old_rows[n]));
    assert forall|i: int| 0 <= i && 0 <= i < s.line.cols implies s.open_at(
        #[trigger] cells[i],
        i,
    ) by {
        assert(u.active().rows[n].cells[i].shows(old_rows[n].cells[i]));
    }
}

pub(crate) proof fn scene_ends<T>(
    u: ScreenModel<T>,
    v: ScreenModel<T>,
    pen: Pen,
    p: Pen,
    new: Seq<RowModel<T>>,
    old_rows: Seq<RowModel<T>>,
    n: int,
    setting: Setting,
    wrapping: bool,
)
    requires
        partly(u, pen, new, old_rows, n, setting),
        drawable_rows(new, u.active().size.cols as int),
        readable_rows(old_rows, u.active().size.cols as int),
        0 <= n < new.len(),
        scene_of(u, new[n], old_rows[n], n, wrapping).reached(v, p, u.active().size.cols as int),
        p.erase is None,
    ensures
        partly(v, p, new, old_rows, n + 1, setting),
        v.active().size == u.active().size,
{
    let s = scene_of(u, new[n], old_rows[n], n, wrapping);
    let cols = u.active().size.cols as int;
    assert(new[n].wf(cols));
    let g = v.active();
    assert forall|i: int| 0 <= i < n + 1 && i < g.rows.len() implies (#[trigger] g.rows[i]).shows(
        new[i],
    ) by {
        assert(g.rows[i].wf(cols));
        if i < n {
            assert(g.rows[i].cells == u.active().rows[i].cells);
            assert(u.active().rows[i].shows(new[i]));
            assert forall|j: int| 0 <= j < g.rows[i].cells.len() implies (
            #[trigger] g.rows[i].cells[j]).shows(new[i].cells[j]) by {
                assert(u.active().rows[i].cells[j].shows(new[i].cells[j]));
            }
        } else {
            assert forall|j: int| 0 <= j < g.rows[i].cells.len() implies (
            #[trigger] g.rows[i].cells[j]).shows(new[i].cells[j]) by {
                assert(s.marked(g.rows[n].cells, cols));
            }
        }
    }
    assert forall|i: int| n + 1 <= i < g.rows.len() && 0 <= i implies (#[trigger] g.rows[i]).shows(
        old_rows[i],
    ) by {
        assert(g.rows[i].cells == u.active().rows[i].cells);
        assert(u.active().rows[i].shows(old_rows[i]));
        assert forall|j: int| 0 <= j < g.rows[i].cells.len() implies (
        #[trigger] g.rows[i].cells[j]).shows(old_rows[i].cells[j]) by {
            assert(u.active().rows[i].cells[j].shows(old_rows[i].cells[j]));
        }
    }
}

/// Once all rows are drawn, all run on as they are to.
pub(crate) proof fn links_end<T>(
    rows: Seq<RowModel<T>>,
    pen: Pen,
    new: Seq<RowModel<T>>,
    old_rows: Seq<RowModel<T>>,
    cols: u16,
)
    requires
        rows.len() == new.len(),
        linked(rows, pen, new, old_rows, cols, new.len() as int),
    ensures
        run_alike(rows, new),
{
    reveal(linked);
}

/// One more row is drawn: those above run on as they are to.
proof fn links_go_on<T>(
    s: Scene<T>,
    x: ScreenModel<T>,
    v: ScreenModel<T>,
    p: Pen,
    q: Pen,
    new: Seq<RowModel<T>>,
    old_rows: Seq<RowModel<T>>,
    n: int,
)
    requires
        0 < n <= new.len(),
        new.len() <= u16::MAX,
        s == scene_of(x, new[n - 1], old_rows[n - 1], n - 1, n > 1 && new[n - 2].wrapped),
        x.active().rows.len() == new.len(),
        s.sound(),
        new[n - 1].legible(),
        s.flows(x, v),
        linked(x.active().rows, p, new, old_rows, s.line.cols, n - 1),
        s.waits(p) && (!old_rows[n - 2].wrapped || !s.row.cells[0].looks_like(s.was[0])) ==> s.ran(v),
        n > 1 && new[n - 2].wrapped && old_rows[n - 2].wrapped && ends_broken(
            new[n - 2].cells,
            old_rows[n - 2].cells,
        ) ==> !new[n - 1].cells[0].looks_like(old_rows[n - 1].cells[0]),
        !new[n - 1].wrapped && (x.active().rows[n - 1].wrapped ==> old_rows[n - 1].wrapped)
            ==> !v.active().rows[n - 1].wrapped,
        new[n - 1].wrapped && (!old_rows[n - 1].wrapped || s.breaks()) ==> q.pos == (Pos {
            row: s.line.row,
            col: s.line.cols,
        }),
    ensures
        linked(v.active().rows, q, new, old_rows, s.line.cols, n),
{
    reveal(linked);
    let a = x.active().rows;
    let b = v.active().rows;
    assert forall|i: int| 0 <= i < n - 1 && i < new.len() - 1 implies (#[trigger] b[i]).wrapped
        == new[i].wrapped by {
        if i < n - 2 {
            assert(b[i].wrapped == a[i].wrapped);
        }
    }
    assert forall|i: int| 0 <= i && n <= i < new.len() - 1 implies (#[trigger] b[i]).wrapped
        == old_rows[i].wrapped by {
        assert(b[i].wrapped == a[i].wrapped);
    }
    if n < new.len() {
        assert(a[n - 1].wrapped == old_rows[n - 1].wrapped);
    }
}

/// Empty rows.
pub open spec fn fresh_rows<T>(rows: int, cols: int) -> Seq<RowModel<T>> {
    Seq::new(rows as nat, |i: int| RowModel::fresh(cols))
}

proof fn fresh_rows_are_drawable<T>(rows: int, cols: int)
    requires
        rows >= 0,
        cols > 0,
    ensures
        drawable_rows(fresh_rows::<T>(rows, cols), cols),
{
    assert forall|i: int| 0 <= i < rows implies (#[trigger] fresh_rows::<T>(rows, cols)[i]).wf(cols)
        && fresh_rows::<T>(rows, cols)[i].legible() && fresh_rows::<T>(
        rows,
        cols,
    )[i].fits() by {
        RowModel::<T>::fresh_is_whole(cols);
    }
}

/// The first `n` rows in view are written out on an empty terminal.
pub(crate) proof fn rows_are_formatted<T>(
    g: GridModel<T>,
    w: ScreenModel<T>,
    out: Seq<u8>,
    u: ScreenModel<T>,
    pen: Pen,
    n: int,
) -> (v: ScreenModel<T>)
    requires
        drawable_rows(g.visible(), g.size.cols as int),
        g.visible().len() == g.size.rows,
        u.active().size == g.size,
        draws(w, out, u),
        partly(
            u,
            pen,
            g.visible(),
            fresh_rows(g.size.rows as int, g.size.cols as int),
            0,
            u.setting(),
        ),
        0 <= n <= g.visible().len(),
    ensures
        ({
            let r = g.rows_drawn(out, pen, n);
            &&& draws(w, r.0, v)
            &&& partly(
                v,
                r.1,
                g.visible(),
                fresh_rows(g.size.rows as int, g.size.cols as int),
                n,
                u.setting(),
            )
            &&& v.active().size == g.size
            &&& n > 0 && g.visible()[n - 1].wrapped ==> r.1.pos == (Pos {
                row: (n - 1) as u16,
                col: g.size.cols,
            })
            &&& run_alike(u.active().rows, fresh_rows(g.size.rows as int, g.size.cols as int))
                ==> linked(
                v.active().rows,
                r.1,
                g.visible(),
                fresh_rows(g.size.rows as int, g.size.cols as int),
                g.size.cols,
                n,
            )
        }),
    decreases n,
{
    if n <= 0 {
        reveal(linked);
        u
    } else {
        let new = g.visible();
        let cols = g.size.cols as int;
        let fresh = fresh_rows::<T>(g.size.rows as int, cols);
        let x = rows_are_formatted(g, w, out, u, pen, n - 1);
        let (a, p) = g.rows_drawn(out, pen, n - 1);
        let wrapping = n > 1 && new[n - 2].wrapped;
        fresh_rows_are_drawable::<T>(g.size.rows as int, cols);
        scene_begins(x, p, new, fresh, n - 1, u.setting(), wrapping);
        let s = scene_of(x, new[n - 1], fresh[n - 1], n - 1, wrapping);
        assert(s.compared(None));
        assert(new[n - 1].legible());
        let v = row_is_formatted(s, w, a, x, p);
        let (b, q) = new[n - 1].formatted(a, 0, g.size.cols, (n - 1) as u16, wrapping, p);
        scene_ends(x, v, p, q, new, fresh, n - 1, u.setting(), wrapping);
        if run_alike(u.active().rows, fresh) {
            links_go_on(s, x, v, p, q, new, fresh, n);
        }
        v
    }
}

/// The first `n` rows in view are turned into others.
pub(crate) proof fn rows_are_diffed<T>(
    g: GridModel<T>,
    prev: GridModel<T>,
    u: ScreenModel<T>,
    pen: Pen,
    n: int,
) -> (v: ScreenModel<T>)
    requires
        drawable_rows(g.visible(), g.size.cols as int),
        readable_rows(prev.visible(), g.size.cols as int),
        g.visible().len() == g.size.rows,
        prev.visible().len() == g.size.rows,
        u.active().size == g.size,
        partly(u, pen, g.visible(), prev.visible(), 0, u.setting()),
        0 <= n <= g.visible().len(),
    ensures
        ({
            let r = g.rows_redrawn(prev, pen, n);
            &&& draws(u, r.0, v)
            &&& partly(v, r.1, g.visible(), prev.visible(), n, u.setting())
            &&& v.active().size == g.size
            &&& run_alike(u.active().rows, prev.visible()) && runs_are_kept(
                g.visible(),
                prev.visible(),
            ) ==> linked(
                v.active().rows,
                r.1,
                g.visible(),
                prev.visible(),
                g.size.cols,
                n,
            )
        }),
    decreases n,
{
    if n <= 0 {
        crate::vt::replay::token::nothing_draws(u);
        reveal(linked);
        u
    } else {
        let new = g.visible();
        let was = prev.visible();
        let x = rows_are_diffed(g, prev, u, pen, n - 1);
        let (a, p) = g.rows_redrawn(prev, pen, n - 1);
        let wrapping = n > 1 && new[n - 2].wrapped;
        let prev_wrapping = n > 1 && was[n - 2].wrapped;
        scene_begins(x, p, new, was, n - 1, u.setting(), wrapping);
        let s = scene_of(x, new[n - 1], was[n - 1], n - 1, wrapping);
        assert(new[n - 1].legible());
        let v = row_is_diffed(s, u, a, x, p, was[n - 1], prev_wrapping);
        let (b, q) = new[n - 1].diffed(
            a,
            was[n - 1],
            0,
            g.size.cols,
            (n - 1) as u16,
            wrapping,
            prev_wrapping,
            p,
        );
        scene_ends(x, v, p, q, new, was, n - 1, u.setting(), wrapping);
        if run_alike(u.active().rows, was) && runs_are_kept(new, was) {
            if n > 1 {
                assert(run_is_kept(new, was, n - 2));
            }
            links_go_on(s, x, v, p, q, new, was, n);
        }
        v
    }
}

} // verus!
