//! Where printed characters go.
use vstd::prelude::*;
use vstd::utf8::encode_utf8;

use crate::vt::cell::{display_width, Half};
use crate::vt::grid::GridModel;
use crate::vt::meaning::one;
use crate::vt::screen::ScreenModel;

verus! {

/// Printable ASCII takes one column, and control characters are not printed.
pub proof fn ascii_is_narrow(c: char)
    ensures
        0x20 <= (c as u32) < 0x7f ==> display_width(c) == Some(1usize),
        (c as u32) < 0x20 || 0x7f <= (c as u32) < 0xa0 ==> display_width(c) is None,
        (c as u32) >= 0xa0 ==> display_width(c) is Some,
{
}

/// A control character changes nothing, and a character wider than the screen draws nothing.
pub proof fn what_is_not_printed<T>(s: ScreenModel<T>, c: char)
    ensures
        display_width(c) is None ==> s.printed(c) == s,
        display_width(c) is Some && display_width(c)->Some_0 > s.active().size.cols ==> s.printed(
            c,
        ).active() == s.active(),
{
}

/// A narrow character with room in its row is drawn in the cursor's cell with the attributes in
/// force, and the cursor goes one column on. No other cell changes but the other half of a wide
/// character that it overwrites, and no other row.
pub proof fn narrow_characters<T>(s: ScreenModel<T>, c: char, i: int, j: int)
    requires
        s.wf(),
        !s.modes.insert,
        display_width(c) == Some(1usize),
        s.active().pos.col < s.active().size.cols,
        s.has(i, j),
    ensures
        ({
            let (row, col) = (s.active().pos.row as int, s.active().pos.col as int);
            let t = s.printed(c);
            let halved = (j + 1 == col && s.at(row, col).cont()) || (j == col + 1 && s.at(
                row,
                col,
            ).wide());
            &&& t.active().pos.row == row && t.active().pos.col == col + 1
            &&& t.at(row, col).text == seq![c] && t.at(row, col).attrs == s.attrs
            &&& t.at(row, col).half == Half::Whole && t.at(row, col).data is None
            &&& i != row ==> t.active().rows[i] == s.active().rows[i]
            &&& i == row && j != col && !halved ==> t.at(i, j) == s.at(i, j)
            &&& t.attrs == s.attrs && t.modes == s.modes && t.last_graphic_char == Some(c)
            &&& t.active().size == s.active().size && t.active().scrollback == s.active().scrollback
        }),
{
    reveal(GridModel::printed);
    reveal(GridModel::placed_for);
    assert(s.active().rows[i].wf(s.active().size.cols as int));
    assert(s.active().current().wf(s.active().size.cols as int));
}

/// A wide character with room in its row takes the cursor's cell and the next, and the cursor goes
/// behind them.
pub proof fn wide_characters<T>(s: ScreenModel<T>, c: char, i: int, j: int)
    requires
        s.wf(),
        !s.modes.insert,
        display_width(c) is Some,
        display_width(c)->Some_0 >= 2,
        s.active().pos.col + display_width(c)->Some_0 <= s.active().size.cols,
        s.has(i, j),
    ensures
        ({
            let (row, col) = (s.active().pos.row as int, s.active().pos.col as int);
            let t = s.printed(c);
            let halved = (j + 1 == col && s.at(row, col).cont()) || (j == col + 2 && s.at(
                row,
                col + 1,
            ).wide());
            &&& t.active().pos.row == row && t.active().pos.col == col + 2
            &&& t.at(row, col).text == seq![c] && t.at(row, col).attrs == s.attrs
            &&& t.at(row, col).half == Half::Left && t.at(row, col + 1).half == Half::Right
            &&& t.at(row, col + 1).text.len() == 0
            &&& i != row ==> t.active().rows[i] == s.active().rows[i]
            &&& i == row && j != col && j != col + 1 && !halved ==> t.at(i, j) == s.at(i, j)
            &&& t.attrs == s.attrs && t.last_graphic_char == Some(c)
        }),
{
    reveal(GridModel::printed);
    reveal(GridModel::placed_for);
    assert(s.active().rows[i].wf(s.active().size.cols as int));
    assert(s.active().current().wf(s.active().size.cols as int));
}

/// A character without room in its row is drawn at the start of the next one; what stands in the row
/// that it left stays, and if that row is full it is known to run on.
pub proof fn text_wraps<T>(s: ScreenModel<T>, c: char, i: int)
    requires
        s.wf(),
        !s.modes.insert,
        !s.modes.no_autowrap,
        display_width(c) is Some,
        1 <= display_width(c)->Some_0 <= s.active().size.cols,
        s.active().pos.col + display_width(c)->Some_0 > s.active().size.cols,
        s.active().pos.row != s.active().scroll_bottom,
        s.active().pos.row + 1 < s.active().size.rows,
        0 <= i < s.active().size.rows,
    ensures
        ({
            let row = s.active().pos.row as int;
            let cols = s.active().size.cols as int;
            let t = s.printed(c);
            let last = s.at(row, cols - 1);
            &&& t.active().pos.row == row + 1
            &&& t.active().pos.col == if display_width(c)->Some_0 == 1 { 1int } else { 2 }
            &&& t.at(row + 1, 0).text == seq![c] && t.at(row + 1, 0).attrs == s.attrs
            &&& t.active().rows[row].cells == s.active().rows[row].cells
            &&& t.active().rows[row].wrapped <==> last.text.len() > 0 || last.cont()
            &&& i != row && i != row + 1 ==> t.active().rows[i] == s.active().rows[i]
        }),
{
    reveal(GridModel::printed);
    reveal(GridModel::placed_for);
    let g = s.active();
    let m = g.at(g.pos.row as int, 0).row_moved_down(1);
    assert(g.at(g.pos.row as int, 0).overrun(1) == 0);
    assert(g.overrun(1) == 0);
    assert(m.rows_up(m.scroll_top as int, m.scroll_bottom as int, 0) =~= m.rows);
    assert(m.scrolled_up(0) == m);
    assert(g.rows[g.pos.row + 1].wf(g.size.cols as int));
}

/// At the end of the scroll region it is drawn at the start of the same row, once the rows of the
/// region have moved up by one.
pub proof fn text_scrolls<T>(s: ScreenModel<T>, c: char, i: int)
    requires
        s.wf(),
        !s.modes.insert,
        !s.modes.no_autowrap,
        display_width(c) is Some,
        1 <= display_width(c)->Some_0 <= s.active().size.cols,
        s.active().pos.col + display_width(c)->Some_0 > s.active().size.cols,
        s.active().pos.row == s.active().scroll_bottom,
        s.active().scroll_top <= i < s.active().scroll_bottom,
    ensures
        ({
            let row = s.active().pos.row as int;
            let t = s.printed(c);
            &&& t.active().pos.row == row
            &&& t.at(row, 0).text == seq![c] && t.at(row, 0).attrs == s.attrs
            &&& t.active().rows[i].cells == s.active().rows[i + 1].cells
            &&& t.active().scrollback == s.after_csi(one(1), 'S').active().scrollback
        }),
{
    reveal(GridModel::printed);
    reveal(GridModel::placed_for);
    assert(one(1)[0] == seq![1u16]);
    let g = s.active();
    let start = g.at(g.pos.row as int, 0);
    assert(start.overrun(1) == 1);
    assert(start.row_moved_down(1) == start);
    let next = start.scrolled_up(1);
    assert(start.line_fed(1) == next);
    assert(next.rows.len() == g.rows.len());
    assert(next.rows[g.pos.row as int] == g.fresh_row());
}

/// Without autowrap a character without room is drawn at the end of its row, and the cursor stays in
/// the row.
pub proof fn text_stays_at_the_edge<T>(s: ScreenModel<T>, c: char)
    requires
        s.wf(),
        !s.modes.insert,
        s.modes.no_autowrap,
        display_width(c) is Some,
        1 <= display_width(c)->Some_0 <= s.active().size.cols,
        s.active().pos.col + display_width(c)->Some_0 > s.active().size.cols,
    ensures
        ({
            let row = s.active().pos.row as int;
            let at = s.active().size.cols - display_width(c)->Some_0;
            let t = s.printed(c);
            &&& t.active().pos.row == row
            &&& t.at(row, at).text == seq![c] && t.at(row, at).attrs == s.attrs
            &&& forall|i: int|
                0 <= i < s.active().size.rows && i != row ==> (#[trigger] t.active().rows[i])
                    == s.active().rows[i]
        }),
{
    reveal(GridModel::printed);
    reveal(GridModel::placed_for);
    assert(s.active().current().wf(s.active().size.cols as int));
}

/// A character without a width is put to the text of the cell before the cursor, or of the wide
/// character there, as long as that has room. The cursor stays.
pub proof fn combining_characters<T>(s: ScreenModel<T>, c: char)
    requires
        s.wf(),
        display_width(c) == Some(0usize),
        s.active().pos.col > 0,
    ensures
        ({
            let (row, col) = (s.active().pos.row as int, s.active().pos.col as int);
            let at = if s.at(row, col - 1).cont() { col - 2 } else { col - 1 };
            let t = s.printed(c);
            let before = s.at(row, at);
            &&& t.active().pos == s.active().pos
            &&& encode_utf8(before.text).len() < 18 && before.text.len() > 0 ==> t.at(row, at).text
                == before.text.push(c)
            &&& before.text.len() == 0 ==> t.at(row, at).text == seq![' ', c]
            &&& encode_utf8(before.text).len() >= 18 ==> t.at(row, at) == before
            &&& t.at(row, at).attrs == before.attrs && t.at(row, at).half == before.half
            &&& forall|i: int, j: int|
                s.has(i, j) && !(i == row && j == at) ==> #[trigger] t.at(i, j) == s.at(i, j)
        }),
{
    reveal(GridModel::printed);
    reveal(GridModel::placed_for);
    let g = s.active();
    assert(g.current().wf(g.size.cols as int));
    assert(g.placed_for(0, !s.modes.no_autowrap) == g);
    assert(encode_utf8(Seq::<char>::empty()).len() == 0);
    let (row, col) = (g.pos.row as int, g.pos.col as int);
    if s.at(row, col - 1).cont() {
        assert(g.current().cells[col - 1].cont());
        assert(g.current().cells[col - 2].wide());
    }
    if s.at(row, if s.at(row, col - 1).cont() { col - 2 } else { col - 1 }).text.len() == 0 {
        let at = if s.at(row, col - 1).cont() { col - 2 } else { col - 1 };
        assert(s.at(row, at).text =~= Seq::<char>::empty());
    }
}

/// In insert mode a character pushes what stands at the cursor and behind it to the right.
pub proof fn inserted_characters<T>(s: ScreenModel<T>, c: char, j: int)
    requires
        s.wf(),
        s.modes.insert,
        display_width(c) == Some(1usize),
        s.active().pos.col < s.active().size.cols,
        !s.at(s.active().pos.row as int, s.active().pos.col as int).cont(),
        0 <= j < s.active().size.cols,
    ensures
        ({
            let (row, col) = (s.active().pos.row as int, s.active().pos.col as int);
            let t = s.printed(c);
            &&& t.active().pos.row == row && t.active().pos.col == col + 1
            &&& t.at(row, col).text == seq![c] && t.at(row, col).attrs == s.attrs
            &&& j < col ==> t.at(row, j) == s.at(row, j)
            &&& j > col && j + 1 < s.active().size.cols ==> t.at(row, j) == s.at(row, j - 1)
        }),
{
    reveal(GridModel::printed);
    reveal(GridModel::placed_for);
    let g = s.active();
    assert(g.current().wf(g.size.cols as int));
    let i = g.cells_inserted(1);
    let col = g.pos.col as int;
    assert(i.current().cells[col].text.len() == 0);
    assert(!i.current().cells[col].cont());
    assert(!i.current().cells[col].wide());
}

/// `CSI n b` prints the last character as often again.
pub proof fn repeated_characters<T>(s: ScreenModel<T>, c: char, n: u16)
    requires
        display_width(c) is Some,
        n >= 1,
    ensures
        s.printed(c).after_csi(one(n), 'b') == s.printed(c).printed_times(c, n as nat),
        n == 1 ==> s.printed(c).after_csi(one(n), 'b') == s.printed(c).printed(c),
        s.last_graphic_char is None ==> s.after_csi(one(n), 'b') == s,
{
    assert(one(n)[0] == seq![n]);
    reveal_with_fuel(ScreenModel::printed_times, 2);
}

} // verus!
