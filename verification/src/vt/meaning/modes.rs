//! What the modes, the saved cursor and the other settings are.
use vstd::prelude::*;

use crate::vt::grid::GridModel;
use crate::vt::meaning::one;
use crate::vt::screen::{Modes, MouseProtocolEncoding, MouseProtocolMode, ScreenModel};

verus! {

impl<T> ScreenModel<T> {
    /// The screen after `CSI ? n h`.
    pub open spec fn dec_on(self, n: u16) -> ScreenModel<T> {
        self.after_marked('?', one(n), 'h')
    }

    /// The screen after `CSI ? n l`.
    pub open spec fn dec_off(self, n: u16) -> ScreenModel<T> {
        self.after_marked('?', one(n), 'l')
    }
}

proof fn one_mode<T>(s: ScreenModel<T>, n: u16)
    ensures
        s.dec_on(n) == (match s.dec_set(n) {
            Some(t) => t,
            None => s,
        }),
        s.dec_off(n) == (match s.dec_reset(n) {
            Some(t) => t,
            None => s,
        }),
{
    reveal_with_fuel(ScreenModel::mode_steps, 2);
    assert(one(n).drop_last() =~= Seq::empty());
    assert(one(n).last() == seq![n]);
}

/// The private modes that are on or off: cursor keys, autowrap, the visible cursor and bracketed
/// paste. Each switches what it is named after, and nothing else.
pub proof fn switches<T>(s: ScreenModel<T>)
    ensures
        s.dec_on(1) == (ScreenModel { modes: Modes { application_cursor: true, ..s.modes }, ..s }),
        s.dec_off(1) == (ScreenModel { modes: Modes { application_cursor: false, ..s.modes }, ..s }),
        s.dec_on(7) == (ScreenModel { modes: Modes { no_autowrap: false, ..s.modes }, ..s }),
        s.dec_off(7) == (ScreenModel { modes: Modes { no_autowrap: true, ..s.modes }, ..s }),
        s.dec_on(25) == (ScreenModel { modes: Modes { hide_cursor: false, ..s.modes }, ..s }),
        s.dec_off(25) == (ScreenModel { modes: Modes { hide_cursor: true, ..s.modes }, ..s }),
        s.dec_on(2004) == (ScreenModel { modes: Modes { bracketed_paste: true, ..s.modes }, ..s }),
        s.dec_off(2004) == (ScreenModel { modes: Modes { bracketed_paste: false, ..s.modes }, ..s }),
{
    one_mode(s, 1);
    one_mode(s, 7);
    one_mode(s, 25);
    one_mode(s, 2004);
}

/// Which mouse events a private mode asks for. To leave one mode while another is on changes nothing.
pub proof fn mouse_events<T>(s: ScreenModel<T>)
    ensures
        s.dec_on(9) == (ScreenModel { mouse_protocol_mode: MouseProtocolMode::Press, ..s }),
        s.dec_on(1000) == (ScreenModel { mouse_protocol_mode: MouseProtocolMode::PressRelease, ..s }),
        s.dec_on(1002) == (ScreenModel { mouse_protocol_mode: MouseProtocolMode::ButtonMotion, ..s }),
        s.dec_on(1003) == (ScreenModel { mouse_protocol_mode: MouseProtocolMode::AnyMotion, ..s }),
        forall|n: u16|
            n == 9 || n == 1000 || n == 1002 || n == 1003 ==> {
                let on = s.dec_on(n).mouse_protocol_mode;
                let off = #[trigger] s.dec_off(n);
                &&& s.mouse_protocol_mode == on ==> off == (ScreenModel {
                    mouse_protocol_mode: MouseProtocolMode::Disabled,
                    ..s
                })
                &&& s.mouse_protocol_mode != on ==> off == s
            },
{
    one_mode(s, 9);
    one_mode(s, 1000);
    one_mode(s, 1002);
    one_mode(s, 1003);
}

/// How a private mode has mouse events encoded. To leave one encoding while another is on changes
/// nothing.
pub proof fn mouse_encodings<T>(s: ScreenModel<T>)
    ensures
        s.dec_on(1005) == (ScreenModel { mouse_protocol_encoding: MouseProtocolEncoding::Utf8, ..s }),
        s.dec_on(1006) == (ScreenModel { mouse_protocol_encoding: MouseProtocolEncoding::Sgr, ..s }),
        s.dec_on(1015) == (ScreenModel {
            mouse_protocol_encoding: MouseProtocolEncoding::Urxvt,
            ..s
        }),
        s.dec_on(1016) == (ScreenModel {
            mouse_protocol_encoding: MouseProtocolEncoding::SgrPixels,
            ..s
        }),
        forall|n: u16|
            n == 1005 || n == 1006 || n == 1015 || n == 1016 ==> {
                let on = s.dec_on(n).mouse_protocol_encoding;
                let off = #[trigger] s.dec_off(n);
                &&& s.mouse_protocol_encoding == on ==> off == (ScreenModel {
                    mouse_protocol_encoding: MouseProtocolEncoding::Default,
                    ..s
                })
                &&& s.mouse_protocol_encoding != on ==> off == s
            },
{
    one_mode(s, 1005);
    one_mode(s, 1006);
    one_mode(s, 1015);
    one_mode(s, 1016);
}

/// Origin mode counts rows from the top of the scroll region, and takes the cursor to the first place
/// there; without it that is the corner of the screen.
pub proof fn origin_mode_moves_home<T>(s: ScreenModel<T>)
    requires
        s.wf(),
    ensures
        ({
            let on = s.dec_on(6);
            let off = s.dec_off(6);
            &&& on.active().origin_mode && !off.active().origin_mode
            &&& on.active().pos.row == s.active().scroll_top && on.active().pos.col == 0
            &&& off.active().pos.row == 0 && off.active().pos.col == 0
            &&& on.active().rows == s.active().rows && off.active().rows == s.active().rows
        }),
{
    one_mode(s, 6);
}

/// A synchronized update begins with mode 2026 and ends with its reset; each is counted.
pub proof fn updates_begin_and_end<T>(s: ScreenModel<T>)
    ensures
        s.dec_on(2026) == (ScreenModel {
            modes: Modes { synchronized_update: true, ..s.modes },
            sync_starts: s.dec_on(2026).sync_starts,
            ..s
        }),
        s.dec_off(2026) == (ScreenModel {
            modes: Modes { synchronized_update: false, ..s.modes },
            sync_ends: s.dec_off(2026).sync_ends,
            ..s
        }),
        s.dec_on(2026).sync_starts != s.sync_starts,
        s.dec_off(2026).sync_ends != s.sync_ends,
        s.sync_starts < u32::MAX ==> s.dec_on(2026).sync_starts == s.sync_starts + 1,
        s.sync_ends < u32::MAX ==> s.dec_off(2026).sync_ends == s.sync_ends + 1,
{
    one_mode(s, 2026);
}

/// Modes 47 and 1049 show the alternate screen and their resets the primary one; the rows of the one
/// that is left stay. 1049 empties the alternate screen and comes back to the cursor that was left.
pub proof fn alternate_screens<T>(s: ScreenModel<T>)
    requires
        s.wf(),
        !s.modes.alternate_screen,
    ensures
        ({
            let plain = s.dec_on(47);
            let empty = s.dec_on(1049);
            &&& plain.modes == (Modes { alternate_screen: true, ..s.modes })
            &&& empty.modes == (Modes { alternate_screen: true, ..s.modes })
            &&& plain.grid.rows == s.grid.rows && empty.grid.rows == s.grid.rows
            &&& plain.dec_off(47).modes == s.modes && plain.dec_off(47).grid.rows == s.grid.rows
            &&& plain.dec_off(47).active().pos == s.active().pos
            &&& empty.dec_off(1049).modes == s.modes && empty.dec_off(1049).grid.rows == s.grid.rows
            &&& empty.dec_off(1049).active().pos == s.active().pos
            &&& empty.dec_off(1049).attrs == s.attrs
            &&& s.alternate_grid.allocated() ==> plain.active().rows == s.alternate_grid.rows
            &&& empty.active().rows.len() == s.active().size.rows
            &&& forall|r: int, c: int|
                0 <= r < s.active().size.rows && 0 <= c < s.active().size.cols ==> (
                #[trigger] empty.active().rows[r].cells[c]).text.len() == 0
        }),
{
    one_mode(s, 47);
    one_mode(s, 1049);
    one_mode(s.dec_on(47), 47);
    one_mode(s.dec_on(1049), 1049);
    let g = s.alternate_grid.reset();
    let empty = s.dec_on(1049);
    assert(empty.active() == g.with_rows());
    if g.rows.len() > 0 {
        assert(g.with_rows() == g);
    }
    assert forall|r: int, c: int|
        0 <= r < s.active().size.rows && 0 <= c < s.active().size.cols implies (
    #[trigger] empty.active().rows[r].cells[c]).text.len() == 0 by {
        if g.rows.len() > 0 {
            assert(s.alternate_grid.rows[r].wf(s.active().size.cols as int));
        }
    }
}

/// Modes that concern the keyboard, the focus, blinking and sixel images, and modes that are not
/// known, change nothing.
pub proof fn other_modes<T>(s: ScreenModel<T>, n: u16)
    requires
        n != 1 && n != 6 && n != 7 && n != 9 && n != 25 && n != 47 && n != 1000 && n != 1002 && n
            != 1003 && n != 1005 && n != 1006 && n != 1015 && n != 1016 && n != 1049 && n != 2004
            && n != 2026,
    ensures
        s.dec_on(n) == s,
        s.dec_off(n) == s,
{
    one_mode(s, n);
}

/// `CSI 4 h` inserts what is printed, `CSI 4 l` overwrites with it.
pub proof fn insert_mode<T>(s: ScreenModel<T>)
    ensures
        s.after_csi(one(4), 'h') == (ScreenModel { modes: Modes { insert: true, ..s.modes }, ..s }),
        s.after_csi(one(4), 'l') == (ScreenModel { modes: Modes { insert: false, ..s.modes }, ..s }),
{
    reveal_with_fuel(ScreenModel::mode_steps, 2);
    assert(one(4).drop_last() =~= Seq::empty());
    assert(one(4).last() == seq![4u16]);
}

/// Several modes are set one after the other.
pub proof fn modes_add_up<T>(s: ScreenModel<T>, ps: Seq<Seq<u16>>, n: u16)
    ensures
        s.after_marked('?', ps.push(seq![n]), 'h') == s.after_marked('?', ps, 'h').dec_on(n),
        s.after_marked('?', ps.push(seq![n]), 'l') == s.after_marked('?', ps, 'l').dec_off(n),
{
    let qs = ps.push(seq![n]);
    assert(qs.drop_last() =~= ps);
    one_mode(s.after_marked('?', ps, 'h'), n);
    one_mode(s.after_marked('?', ps, 'l'), n);
}

/// `ESC =` has the keypad for applications, `ESC >` for numbers.
pub proof fn keypads<T>(s: ScreenModel<T>)
    ensures
        s.escaped(None, None, '=' as u8) == Some(
            ScreenModel { modes: Modes { application_keypad: true, ..s.modes }, ..s },
        ),
        s.escaped(None, None, '>' as u8) == Some(
            ScreenModel { modes: Modes { application_keypad: false, ..s.modes }, ..s },
        ),
{
}

/// `ESC 7` and `CSI s` remember where the cursor is and draw nothing; `ESC 8` and `CSI u` go back
/// there. The escape sequences remember the attributes, too.
pub proof fn remembered_cursors<T>(s: ScreenModel<T>, row: u16, col: u16)
    requires
        s.wf(),
        row < s.active().size.rows,
        col < s.active().size.cols,
    ensures
        ({
            let saved = s.escaped(None, None, '7' as u8)->Some_0;
            let placed = s.after_csi(Seq::empty(), 's');
            let away = |u: ScreenModel<T>|
                u.on_grid(
                    GridModel { pos: crate::vt::grid::Pos { row, col }, ..u.active() },
                );
            let back = away(saved).escaped(None, None, '8' as u8)->Some_0;
            let home = away(placed).after_csi(Seq::empty(), 'u');
            &&& s.escaped(None, None, '7' as u8) is Some
            &&& away(saved).escaped(None, None, '8' as u8) is Some
            &&& saved.active().rows == s.active().rows && saved.active().pos == s.active().pos
            &&& placed.active().rows == s.active().rows && placed.active().pos == s.active().pos
            &&& back.active().pos == s.active().pos && home.active().pos == s.active().pos
            &&& back.attrs == s.attrs && saved.attrs == s.attrs
            &&& back.active().rows == s.active().rows && home.active().rows == s.active().rows
        }),
{
}

/// `CSI n SP q` chooses the shape of the cursor and nothing else.
pub proof fn cursor_shapes<T>(s: ScreenModel<T>, n: u16)
    ensures
        n <= 6 ==> s.after_marked(' ', one(n), 'q') == (ScreenModel { cursor_style: n as u8, ..s }),
        n > 6 ==> s.after_marked(' ', one(n), 'q') == s,
{
}

} // verus!
