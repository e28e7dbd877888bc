//! What another size does.
use vstd::prelude::*;

use crate::vt::grid::Size;
use crate::vt::screen::ScreenModel;

verus! {

/// A screen takes on the size that it is given, and cells that are on it before and after stay,
/// unless the new edge cuts a wide character. Cells that come in are empty.
pub proof fn cells_outlive_sizes<T>(s: ScreenModel<T>, size: Size, row: int, col: int)
    requires
        s.wf(),
        size.rows > 0,
        size.cols > 0,
        0 <= row < size.rows,
        0 <= col < size.cols,
    ensures
        ({
            let t = s.resized(size);
            let was = s.has(row, col);
            let cut = col + 1 == size.cols && s.at(row, col).wide();
            &&& t.active().size == size
            &&& t.active().rows.len() == size.rows && t.active().rows[row].cells.len() == size.cols
            &&& was && !cut ==> t.at(row, col) == s.at(row, col)
            &&& !was || cut ==> t.at(row, col).text.len() == 0
            &&& t.attrs == s.attrs && t.modes == s.modes && t.title == s.title
            &&& t.active().scrollback == s.active().scrollback
        }),
{
    if row < s.active().size.rows {
        assert(s.active().rows[row].wf(s.active().size.cols as int));
    }
}

/// The cursor stays where it is, or comes to the edge.
pub proof fn cursors_stay_inside<T>(s: ScreenModel<T>, size: Size)
    requires
        s.wf(),
        size.rows > 0,
        size.cols > 0,
    ensures
        ({
            let (a, b) = (s.active().pos, s.resized(size).active().pos);
            &&& a.row < size.rows ==> b.row == a.row
            &&& a.row >= size.rows ==> b.row == size.rows - 1
            &&& a.col < size.cols ==> b.col == a.col
            &&& a.col >= size.cols ==> b.col == size.cols - 1
        }),
{
}

/// A screen that scrolls as a whole still does after another size: line feeds take the cursor down to
/// the new last row, and leave all rows as they are on the way. A scroll region that still fits stays.
pub proof fn regions_follow_sizes<T>(s: ScreenModel<T>, size: Size)
    requires
        s.wf(),
        size.rows > 0,
        size.cols > 0,
    ensures
        ({
            let g = s.active();
            let t = s.resized(size);
            let whole = g.scroll_top == 0 && g.scroll_bottom + 1 == g.size.rows;
            let down = t.executed(10)->Some_0;
            &&& whole ==> t.active().scroll_top == 0 && t.active().scroll_bottom + 1 == size.rows
            &&& whole && t.active().pos.row + 1 < size.rows ==> t.executed(10) is Some
                && down.only_moved(t) && down.active().pos.row == t.active().pos.row + 1
                && down.active().rows == t.active().rows
            &&& g.scroll_bottom + 1 < g.size.rows && g.scroll_bottom < size.rows
                ==> t.active().scroll_top == g.scroll_top && t.active().scroll_bottom
                == g.scroll_bottom
            &&& g.scroll_bottom + 1 == g.size.rows || g.scroll_bottom >= size.rows
                ==> t.active().scroll_bottom + 1 == size.rows
            &&& g.scroll_top < size.rows && g.scroll_bottom + 1 == g.size.rows
                ==> t.active().scroll_top == g.scroll_top
        }),
{
    let t = s.resized(size);
    let g = t.active();
    if g.scroll_top == 0 && g.scroll_bottom + 1 == size.rows && g.pos.row + 1 < size.rows {
        let m = g.row_moved_down(1);
        assert(g.overrun(1) == 0);
        assert(m.rows_up(m.scroll_top as int, m.scroll_bottom as int, 0) =~= m.rows);
    }
}

/// The tab stops stay, and every eighth of the new columns has one.
pub proof fn tabs_follow_sizes<T>(s: ScreenModel<T>, size: Size, col: u16)
    requires
        s.wf(),
        size.rows > 0,
        size.cols > 0,
    ensures
        s.resized(size).tab_stops.contains(col) <==> s.tab_stops.contains(col) || (
        s.active().size.cols <= col < size.cols && col > 0 && col % 8 == 0),
{
}

/// A screen that is switched on is empty, with the cursor in its corner, nothing switched on, and a
/// tab stop in every eighth column.
pub proof fn new_screens<T>(size: Size, scrollback_len: usize, row: int, col: int, tab: u16)
    requires
        size.rows > 0,
        size.cols > 0,
        0 <= row < size.rows,
        0 <= col < size.cols,
    ensures
        ({
            let s = ScreenModel::<T>::fresh(size, scrollback_len);
            &&& s.active().size == size && s.active().rows.len() == size.rows
            &&& s.at(row, col).emptied(s.attrs) && !s.active().rows[row].wrapped
            &&& s.active().pos.row == 0 && s.active().pos.col == 0
            &&& s.active().scroll_top == 0 && s.active().scroll_bottom + 1 == size.rows
            &&& !s.modes.application_keypad && !s.modes.application_cursor && !s.modes.hide_cursor
            &&& !s.modes.alternate_screen && !s.modes.bracketed_paste && !s.modes.no_autowrap
            &&& !s.modes.synchronized_update && !s.modes.insert && !s.active().origin_mode
            &&& s.title.len() == 0 && s.active().scrollback.len() == 0
            &&& s.active().scrollback_len == scrollback_len
            &&& s.tab_stops.contains(tab) <==> 0 < tab < size.cols && tab % 8 == 0
        }),
{
}

/// `ESC c` leaves nothing of what was: the screen is as it was switched on.
pub proof fn full_reset<T>(s: ScreenModel<T>)
    requires
        s.wf(),
    ensures
        s.escaped(None, None, 'c' as u8) == Some(
            ScreenModel::<T>::fresh(s.active().size, s.grid.scrollback_len),
        ),
{
}

} // verus!
