//! What the bytes that a screen is written out as do to a terminal.
use vstd::prelude::*;

use crate::vt::attrs::Attrs;
use crate::vt::cell::CellModel;
use crate::vt::contents::{rows_text, trimmed};
use crate::vt::escape::{
    clear_screen, csi, dec_mode, keypad, mode_of_encoding, mode_of_mouse, switch_mode,
};
use crate::vt::format::Pen;
use crate::vt::grid::{least, GridModel, Pos};
use crate::vt::replay::contents::{
    drawable_rows, fresh_rows, links_end, partly, run_alike, runs_are_kept, readable_rows, rows_are_diffed, rows_are_formatted,
    scene_of,
};
use crate::vt::replay::cursor::{cursor_is_placed, wholly};
use crate::vt::replay::ground::{
    clear_all_draws, clear_below_draws, home_draws, mode_draws, Setting,
};
use crate::vt::replay::rows::{row_is_diffed, row_is_formatted};
use crate::vt::replay::style::{reset_style_draws, style_draws};
use crate::vt::replay::token::{draws, drawing_goes_on, nothing_draws, token_draws, Token};
use crate::vt::row::{rows_stay_whole, RowModel};
use crate::vt::screen::{Modes, MouseProtocolEncoding, MouseProtocolMode, ScreenModel};

verus! {

impl<T> GridModel<T> {
    /// Whether all rows in view are as wide as the grid.
    pub open spec fn evenly_viewed(self) -> bool {
        forall|i: int|
            0 <= i < self.visible().len() ==> (#[trigger] self.visible()[i]).cells.len()
                == self.size.cols
    }
}

impl<T> ScreenModel<T> {
    /// Whether a screen shows what another does: the cells in view, the cursor, and the attributes
    /// to go on with.
    pub open spec fn shows(self, other: ScreenModel<T>) -> bool {
        let a = self.active();
        let b = other.active();
        &&& a.size == b.size
        &&& a.visible().len() == b.visible().len()
        &&& forall|i: int|
            0 <= i < a.visible().len() ==> (#[trigger] a.visible()[i]).shows(b.visible()[i])
        &&& a.pos == b.pos
        &&& self.modes.hide_cursor == other.modes.hide_cursor
        &&& self.attrs.same_look(other.attrs)
    }

    /// Whether the rows in view run on as those of another screen do.
    pub open spec fn runs_like(self, other: ScreenModel<T>) -> bool {
        run_alike(self.active().visible(), other.active().visible())
    }

    /// Whether the rows in view still run on once they are drawn over those of another screen.
    pub open spec fn runs_over(self, other: ScreenModel<T>) -> bool {
        runs_are_kept(self.active().visible(), other.active().visible())
    }

    /// Whether a screen takes input the same way as another.
    pub open spec fn same_input(self, other: ScreenModel<T>) -> bool {
        &&& self.modes.application_keypad == other.modes.application_keypad
        &&& self.modes.application_cursor == other.modes.application_cursor
        &&& self.modes.bracketed_paste == other.modes.bracketed_paste
        &&& self.mouse_protocol_mode == other.mouse_protocol_mode
        &&& self.mouse_protocol_encoding == other.mouse_protocol_encoding
    }
}

// Helpers.

proof fn rows_can_be_drawn<T>(g: GridModel<T>)
    requires
        g.wf(),
        g.legible(),
        g.viewable(),
    ensures
        drawable_rows(g.visible(), g.size.cols as int),
{
    g.visible_rows_are_whole();
}

proof fn rows_can_be_read<T>(g: GridModel<T>)
    requires
        g.wf(),
        g.legible(),
        g.evenly_viewed(),
    ensures
        readable_rows(g.visible(), g.size.cols as int),
{
    g.visible_rows_are_whole();
}

proof fn visibility_draws<T>(u: ScreenModel<T>, s: ScreenModel<T>) -> (v: ScreenModel<T>)
    ensures
        draws(u, s.cursor_visibility(), v),
        v == (ScreenModel {
            modes: Modes { hide_cursor: s.modes.hide_cursor, ..u.modes },
            ..u
        }),
{
    mode_draws(u, 25, !s.modes.hide_cursor);
    ScreenModel { modes: Modes { hide_cursor: s.modes.hide_cursor, ..u.modes }, ..u }
}

/// Clearing leaves every row empty.
proof fn cleared_rows<T>(g: GridModel<T>, attrs: Attrs)
    requires
        g.drawable(),
        g.pos == (Pos { row: 0, col: 0 }),
        attrs.same_look(Attrs::plain()),
    ensures
        ({
            let c = g.cleared_forward(attrs);
            let fresh = fresh_rows::<T>(g.size.rows as int, g.size.cols as int);
            &&& c.drawable()
            &&& c.pos == g.pos
            &&& c.size == g.size
            &&& c.shows_rows(fresh, fresh, 0)
            &&& run_alike(c.rows, fresh)
        }),
{
    let c = g.cleared_forward(attrs);
    let cols = g.size.cols as int;
    let fresh = fresh_rows::<T>(g.size.rows as int, cols);
    assert forall|i: int| 0 <= i < c.rows.len() implies (#[trigger] c.rows[i]).wf(cols)
        && c.rows[i].shows(fresh[i]) by {
        assert(g.rows[i].wf(cols));
        rows_stay_whole(g.rows[i], cols);
        if i == 0 {
            assert(c.rows[i] == g.rows[i].erased(0, cols, attrs));
        } else {
            assert(c.rows[i] == g.rows[i].cleared(attrs));
        }
        assert forall|j: int| 0 <= j < cols implies (#[trigger] c.rows[i].cells[j]).shows(
            fresh[i].cells[j],
        ) by {
            assert(c.rows[i].cells[j] == CellModel::<T>::blank(attrs));
        }
    }
}

/// A terminal that is cleared is ready to be drawn on.
proof fn clearing_draws<T>(u: ScreenModel<T>, new: Seq<RowModel<T>>) -> (v: ScreenModel<T>)
    requires
        u.ready(),
        new.len() == u.active().size.rows,
    ensures
        draws(u, csi().push('m' as u8) + clear_screen(), v),
        v.active().size == u.active().size,
        partly(
            v,
            Pen { pos: Pos { row: 0, col: 0 }, attrs: Attrs::plain(), erase: None },
            new,
            fresh_rows(u.active().size.rows as int, u.active().size.cols as int),
            0,
            u.setting(),
        ),
        run_alike(
            v.active().rows,
            fresh_rows(u.active().size.rows as int, u.active().size.cols as int),
        ),
{
    reset_style_draws(u);
    let a = ScreenModel { attrs: u.attrs.reset_spec(), ..u };
    assert(a.active() == u.active());
    home_draws(a);
    let b = a.on_grid(a.active().at(0, 0));
    clear_below_draws(b);
    let v = b.on_grid(b.active().cleared_forward(b.attrs));
    drawing_goes_on(a, csi().push('H' as u8), b, csi().push('J' as u8), v);
    drawing_goes_on(u, csi().push('m' as u8), a, clear_screen(), v);
    assert(b.active().drawable());
    cleared_rows(b.active(), b.attrs);
    v
}

proof fn whole_shows<T>(v: ScreenModel<T>, pen: Pen, s: ScreenModel<T>)
    requires
        s.wf(),
        v.active().size == s.active().size,
        wholly(v, pen, s.active().visible(), v.setting()),
        pen.pos == s.active().pos,
        v.modes.hide_cursor == s.modes.hide_cursor,
        pen.attrs.same_look(s.attrs),
    ensures
        v.shows(s),
{
    let g = v.active();
    assert(g.visible() =~= g.rows);
    assert forall|i: int| 0 <= i < g.visible().len() implies (#[trigger] g.visible()[i]).shows(
        s.active().visible()[i],
    ) by {
        assert(g.rows[i].shows(s.active().visible()[i]));
    }
}

/// The cursor and the attributes follow the rows.
proof fn cursor_follows<T>(
    w: ScreenModel<T>,
    out: Seq<u8>,
    u: ScreenModel<T>,
    pen: Pen,
    s: ScreenModel<T>,
) -> (v: ScreenModel<T>)
    requires
        s.wf(),
        s.active().legible(),
        s.active().viewable(),
        u.active().size == s.active().size,
        u.modes.hide_cursor == s.modes.hide_cursor,
        draws(w, out, u),
        wholly(u, pen, s.active().visible(), u.setting()),
    ensures
        draws(
            w,
            out + s.active().cursor_from(Some(pen.pos), pen.attrs) + s.attrs.escape_from(pen.attrs),
            v,
        ),
        v.shows(s),
        v.ready(),
        v.setting() == u.setting(),
        run_alike(u.active().rows, s.active().visible()) ==> v.runs_like(s),
{
    let g = s.active();
    rows_can_be_drawn(g);
    let d = cursor_is_placed(g, w, out, u, pen);
    let placed = out + g.cursor_from(Some(pen.pos), pen.attrs);
    style_draws(d, pen.attrs, s.attrs);
    let v = d.with_look(s.attrs);
    drawing_goes_on(w, placed, d, s.attrs.escape_from(pen.attrs), v);
    assert(v.active() == d.active());
    assert(v.setting() == u.setting());
    let r = Pen { pos: g.pos, attrs: s.attrs, ..pen };
    assert(wholly(v, r, g.visible(), v.setting()));
    assert(v.setting().modes == u.setting().modes);
    whole_shows(v, r, s);
    assert(v.active().visible() =~= v.active().rows);
    v
}

// Contents.

/// The bytes that `contents_formatted` returns draw the screen on a terminal of its size that draws
/// in the ordinary way, whatever that showed before: every cell, the cursor and the attributes are
/// the same in the end, but for hyperlinks, which are not written out, and each row runs on into the
/// next as it should.
pub proof fn contents_come_out<T>(u: ScreenModel<T>, s: ScreenModel<T>)
    requires
        s.wf(),
        s.active().legible(),
        s.active().viewable(),
        u.ready(),
        u.active().size == s.active().size,
    ensures
        exists|v: ScreenModel<T>| #[trigger]
            draws(u, s.contents_bytes(), v) && v.shows(s) && v.runs_like(s) && v.ready()
                && v.same_input(u),
{
    let v = contents_draw(u, s);
    assert(v.setting().mouse == u.setting().mouse);
    assert(v.setting().encoding == u.setting().encoding);
}

proof fn contents_draw<T>(u: ScreenModel<T>, s: ScreenModel<T>) -> (v: ScreenModel<T>)
    requires
        s.wf(),
        s.active().legible(),
        s.active().viewable(),
        u.ready(),
        u.active().size == s.active().size,
    ensures
        draws(u, s.contents_bytes(), v),
        v.shows(s),
        v.runs_like(s),
        v.ready(),
        v.setting() == (Setting {
            modes: Modes { hide_cursor: s.modes.hide_cursor, ..u.modes },
            ..u.setting()
        }),
{
    let g = s.active();
    g.visible_rows_are_whole();
    rows_can_be_drawn(g);
    let a = visibility_draws(u, s);
    assert(a.active() == u.active());
    let b = clearing_draws(a, g.visible());
    let start = csi().push('m' as u8) + clear_screen();
    let pen = Pen { pos: Pos { row: 0, col: 0 }, attrs: Attrs::plain(), erase: None };
    let n = g.visible().len() as int;
    let c = rows_are_formatted(g, a, start, b, pen, n);
    let (drawn, p) = g.rows_drawn(start, pen, n);
    assert(wholly(c, p, g.visible(), a.setting())) by {
        let h = c.active();
        assert forall|i: int| 0 <= i < h.rows.len() && 0 <= i implies (#[trigger] h.rows[i]).shows(
            g.visible()[i],
        ) by {}
    }
    assert(c.setting().modes == a.setting().modes);
    links_end(
        c.active().rows,
        p,
        g.visible(),
        fresh_rows::<T>(g.size.rows as int, g.size.cols as int),
        g.size.cols,
    );
    let v = cursor_follows(a, drawn, c, p, s);
    let rest = drawn + g.cursor_from(Some(p.pos), p.attrs) + s.attrs.escape_from(p.attrs);
    drawing_goes_on(u, s.cursor_visibility(), a, rest, v);
    assert(s.cursor_visibility() + rest =~= s.contents_bytes());
    v
}

/// The bytes that `contents_diff` returns turn a terminal that shows one screen into one that shows
/// the other. Where its rows ran on as those of the first did, they run on as those of the other do,
/// but for a row that does in both, whose end breaks, and below which the first cell is as before,
/// so that it is not drawn again.
pub proof fn changes_come_out<T>(u: ScreenModel<T>, prev: ScreenModel<T>, s: ScreenModel<T>)
    requires
        prev.wf(),
        prev.active().legible(),
        prev.active().evenly_viewed(),
        s.wf(),
        s.active().legible(),
        s.active().viewable(),
        s.active().size == prev.active().size,
        u.ready(),
        u.shows(prev),
    ensures
        exists|v: ScreenModel<T>| #[trigger]
            draws(u, s.contents_diff_bytes(prev), v) && v.shows(s) && (u.runs_like(prev)
                && s.runs_over(prev) ==> v.runs_like(s)) && v.ready() && v.same_input(u),
{
    let v = changes_draw(u, prev, s);
    assert(v.setting().mouse == u.setting().mouse);
    assert(v.setting().encoding == u.setting().encoding);
}

/// Before a terminal shows the changes, it shows the cursor or not, and all of the screen before.
proof fn changes_begin<T>(
    u: ScreenModel<T>,
    prev: ScreenModel<T>,
    s: ScreenModel<T>,
) -> (a: ScreenModel<T>)
    requires
        prev.wf(),
        s.wf(),
        s.active().size == prev.active().size,
        u.ready(),
        u.shows(prev),
    ensures
        draws(
            u,
            crate::vt::state::when(
                s.modes.hide_cursor != prev.modes.hide_cursor,
                s.cursor_visibility(),
            ),
            a,
        ),
        a.active().size == u.active().size,
        a.setting() == (Setting {
            modes: Modes { hide_cursor: s.modes.hide_cursor, ..u.modes },
            ..u.setting()
        }),
        partly(
            a,
            Pen { pos: prev.active().pos, attrs: prev.attrs, erase: None },
            s.active().visible(),
            prev.active().visible(),
            0,
            a.setting(),
        ),
        u.runs_like(prev) ==> run_alike(a.active().rows, prev.active().visible()),
{
    let g = s.active();
    let h = prev.active();
    g.visible_rows_are_whole();
    h.visible_rows_are_whole();
    let a = if s.modes.hide_cursor != prev.modes.hide_cursor {
        visibility_draws(u, s)
    } else {
        nothing_draws(u);
        u
    };
    assert(a.active() == u.active());
    let t = a.active();
    assert(t.visible() =~= t.rows);
    assert forall|i: int| 0 <= i < t.rows.len() && 0 <= i implies (#[trigger] t.rows[i]).shows(
        h.visible()[i],
    ) by {
        assert(t.visible()[i].shows(h.visible()[i]));
    }
    a
}

/// The rows of a terminal that shows one grid are turned into those of another.
proof fn rows_change<T>(
    a: ScreenModel<T>,
    pen: Pen,
    g: GridModel<T>,
    h: GridModel<T>,
) -> (c: ScreenModel<T>)
    requires
        drawable_rows(g.visible(), g.size.cols as int),
        readable_rows(h.visible(), g.size.cols as int),
        g.visible().len() == g.size.rows,
        h.visible().len() == g.size.rows,
        a.active().size == g.size,
        partly(a, pen, g.visible(), h.visible(), 0, a.setting()),
    ensures
        ({
            let n = least(g.visible().len() as int, h.visible().len() as int);
            let (drawn, p) = g.rows_redrawn(h, pen, n);
            &&& draws(a, drawn, c)
            &&& wholly(c, p, g.visible(), a.setting())
        }),
        c.active().size == g.size,
        c.setting() == a.setting(),
        run_alike(a.active().rows, h.visible()) && runs_are_kept(g.visible(), h.visible())
            ==> run_alike(c.active().rows, g.visible()),
{
    let n = least(g.visible().len() as int, h.visible().len() as int);
    let c = rows_are_diffed(g, h, a, pen, n);
    let (drawn, p) = g.rows_redrawn(h, pen, n);
    assert(wholly(c, p, g.visible(), a.setting())) by {
        let t = c.active();
        assert forall|i: int| 0 <= i < t.rows.len() && 0 <= i implies (#[trigger] t.rows[i]).shows(
            g.visible()[i],
        ) by {}
    }
    if run_alike(a.active().rows, h.visible()) && runs_are_kept(g.visible(), h.visible()) {
        links_end(c.active().rows, p, g.visible(), h.visible(), g.size.cols);
    }
    c
}

/// What follows the bytes that show or hide the cursor where a screen is turned into another.
spec fn changed_bytes<T>(prev: ScreenModel<T>, s: ScreenModel<T>) -> Seq<u8> {
    let g = s.active();
    let h = prev.active();
    let n = least(g.visible().len() as int, h.visible().len() as int);
    let (drawn, p) = g.rows_redrawn(
        h,
        Pen { pos: h.pos, attrs: prev.attrs, erase: None },
        n,
    );
    drawn + g.cursor_from(Some(p.pos), p.attrs) + s.attrs.escape_from(p.attrs)
}

proof fn changes_spelled<T>(prev: ScreenModel<T>, s: ScreenModel<T>)
    ensures
        crate::vt::state::when(
            s.modes.hide_cursor != prev.modes.hide_cursor,
            s.cursor_visibility(),
        ) + changed_bytes(prev, s) == s.contents_diff_bytes(prev),
{
    let first = crate::vt::state::when(
        s.modes.hide_cursor != prev.modes.hide_cursor,
        s.cursor_visibility(),
    );
    assert(first + changed_bytes(prev, s) =~= s.contents_diff_bytes(prev));
}

/// A terminal that shows all of one screen, but the cursor as the other does, comes to show the
/// other.
proof fn changes_follow<T>(
    a: ScreenModel<T>,
    prev: ScreenModel<T>,
    s: ScreenModel<T>,
) -> (v: ScreenModel<T>)
    requires
        prev.wf(),
        prev.active().legible(),
        prev.active().evenly_viewed(),
        s.wf(),
        s.active().legible(),
        s.active().viewable(),
        s.active().size == prev.active().size,
        a.active().size == s.active().size,
        a.modes.hide_cursor == s.modes.hide_cursor,
        partly(
            a,
            Pen { pos: prev.active().pos, attrs: prev.attrs, erase: None },
            s.active().visible(),
            prev.active().visible(),
            0,
            a.setting(),
        ),
    ensures
        draws(a, changed_bytes(prev, s), v),
        v.shows(s),
        run_alike(a.active().rows, prev.active().visible()) && s.runs_over(prev) ==> v.runs_like(s),
        v.ready(),
        v.setting() == a.setting(),
{
    let g = s.active();
    let h = prev.active();
    g.visible_rows_are_whole();
    h.visible_rows_are_whole();
    rows_can_be_drawn(g);
    rows_can_be_read(h);
    let pen = Pen { pos: h.pos, attrs: prev.attrs, erase: None };
    let c = rows_change(a, pen, g, h);
    let n = least(g.visible().len() as int, h.visible().len() as int);
    let (drawn, p) = g.rows_redrawn(h, pen, n);
    assert(c.setting().modes == a.setting().modes);
    cursor_follows(a, drawn, c, p, s)
}

proof fn changes_draw<T>(
    u: ScreenModel<T>,
    prev: ScreenModel<T>,
    s: ScreenModel<T>,
) -> (v: ScreenModel<T>)
    requires
        prev.wf(),
        prev.active().legible(),
        prev.active().evenly_viewed(),
        s.wf(),
        s.active().legible(),
        s.active().viewable(),
        s.active().size == prev.active().size,
        u.ready(),
        u.shows(prev),
    ensures
        draws(u, s.contents_diff_bytes(prev), v),
        v.shows(s),
        u.runs_like(prev) && s.runs_over(prev) ==> v.runs_like(s),
        v.ready(),
        v.setting() == (Setting {
            modes: Modes { hide_cursor: s.modes.hide_cursor, ..u.modes },
            ..u.setting()
        }),
{
    let first = crate::vt::state::when(
        s.modes.hide_cursor != prev.modes.hide_cursor,
        s.cursor_visibility(),
    );
    let a = changes_begin(u, prev, s);
    let v = changes_follow(a, prev, s);
    drawing_goes_on(u, first, a, changed_bytes(prev, s), v);
    changes_spelled(prev, s);
    v
}

/// A screen written out and then turned into another shows the same as the other written out, and
/// runs on the same way where its rows still do once they are drawn over those of the first.
pub proof fn changes_follow_contents<T>(
    u: ScreenModel<T>,
    prev: ScreenModel<T>,
    s: ScreenModel<T>,
)
    requires
        prev.wf(),
        prev.active().legible(),
        prev.active().viewable(),
        s.wf(),
        s.active().legible(),
        s.active().viewable(),
        s.active().size == prev.active().size,
        u.ready(),
        u.active().size == s.active().size,
    ensures
        exists|v: ScreenModel<T>, x: ScreenModel<T>|
            #![trigger v.shows(s), x.shows(s)]
            draws(u, prev.contents_bytes() + s.contents_diff_bytes(prev), v) && v.shows(s) && (
            s.runs_over(prev) ==> v.runs_like(s)) && draws(u, s.contents_bytes(), x) && x.shows(s)
                && x.runs_like(s),
{
    let a = contents_draw(u, prev);
    let v = changes_draw(a, prev, s);
    drawing_goes_on(u, prev.contents_bytes(), a, s.contents_diff_bytes(prev), v);
    let x = contents_draw(u, s);
    assert(v.shows(s) && x.shows(s));
}

// Attributes.

/// The bytes that `attributes_formatted` returns make a terminal draw as the screen does, whatever
/// it drew with before.
pub proof fn attributes_come_out<T>(u: ScreenModel<T>, s: ScreenModel<T>)
    ensures
        draws(u, s.attributes_bytes(), u.with_look(s.attrs)),
{
    reset_style_draws(u);
    let a = ScreenModel { attrs: u.attrs.reset_spec(), ..u };
    style_draws(a, Attrs::plain(), s.attrs);
    drawing_goes_on(
        u,
        csi().push('m' as u8),
        a,
        s.attrs.escape_from(Attrs::plain()),
        a.with_look(s.attrs),
    );
    assert(a.with_look(s.attrs) == u.with_look(s.attrs));
}

// Input modes.

proof fn keypad_draws<T>(u: ScreenModel<T>, application: bool)
    ensures
        draws(u, keypad(application), u.with_keypad(application)),
{
    if application {
        token_draws(u, Token::Escape('=' as u8));
        assert(Token::Escape('=' as u8).spelled() =~= keypad(true));
    } else {
        token_draws(u, Token::Escape('>' as u8));
        assert(Token::Escape('>' as u8).spelled() =~= keypad(false));
    }
}

proof fn cursor_keys_draw<T>(u: ScreenModel<T>, on: bool)
    ensures
        draws(
            u,
            dec_mode(1, on),
            (ScreenModel { modes: Modes { application_cursor: on, ..u.modes }, ..u }),
        ),
{
    mode_draws(u, 1, on);
}

proof fn paste_draws<T>(u: ScreenModel<T>, on: bool)
    ensures
        draws(
            u,
            dec_mode(2004, on),
            (ScreenModel { modes: Modes { bracketed_paste: on, ..u.modes }, ..u }),
        ),
{
    mode_draws(u, 2004, on);
}

proof fn mouse_draws<T>(u: ScreenModel<T>, to: MouseProtocolMode, from: MouseProtocolMode)
    requires
        to == MouseProtocolMode::Disabled || to == from ==> u.mouse_protocol_mode == from,
    ensures
        draws(
            u,
            switch_mode(mode_of_mouse(to), mode_of_mouse(from)),
            (ScreenModel { mouse_protocol_mode: to, ..u }),
        ),
{
    if to == from {
        nothing_draws(u);
    } else if to == MouseProtocolMode::Disabled {
        mode_draws(u, mode_of_mouse(from)->Some_0, false);
    } else {
        mode_draws(u, mode_of_mouse(to)->Some_0, true);
    }
}

proof fn encoding_draws<T>(
    u: ScreenModel<T>,
    to: MouseProtocolEncoding,
    from: MouseProtocolEncoding,
)
    requires
        to == MouseProtocolEncoding::Default || to == from ==> u.mouse_protocol_encoding == from,
    ensures
        draws(
            u,
            switch_mode(mode_of_encoding(to), mode_of_encoding(from)),
            (ScreenModel { mouse_protocol_encoding: to, ..u }),
        ),
{
    if to == from {
        nothing_draws(u);
    } else if to == MouseProtocolEncoding::Default {
        mode_draws(u, mode_of_encoding(from)->Some_0, false);
    } else {
        mode_draws(u, mode_of_encoding(to)->Some_0, true);
    }
}

proof fn when_draws<T>(u: ScreenModel<T>, changed: bool, bytes: Seq<u8>, v: ScreenModel<T>)
    requires
        changed ==> draws(u, bytes, v),
        !changed ==> u == v,
    ensures
        draws(u, crate::vt::state::when(changed, bytes), v),
{
    if !changed {
        nothing_draws(u);
    }
}

impl<T> ScreenModel<T> {
    /// The screen with the input modes of another.
    pub open spec fn with_input(self, other: ScreenModel<T>) -> ScreenModel<T> {
        ScreenModel {
            modes: Modes {
                application_keypad: other.modes.application_keypad,
                application_cursor: other.modes.application_cursor,
                bracketed_paste: other.modes.bracketed_paste,
                ..self.modes
            },
            mouse_protocol_mode: other.mouse_protocol_mode,
            mouse_protocol_encoding: other.mouse_protocol_encoding,
            ..self
        }
    }
}

proof fn five_draw<T>(
    u: ScreenModel<T>,
    p1: Seq<u8>,
    a: ScreenModel<T>,
    p2: Seq<u8>,
    b: ScreenModel<T>,
    p3: Seq<u8>,
    c: ScreenModel<T>,
    p4: Seq<u8>,
    d: ScreenModel<T>,
    p5: Seq<u8>,
    e: ScreenModel<T>,
)
    requires
        draws(u, p1, a),
        draws(a, p2, b),
        draws(b, p3, c),
        draws(c, p4, d),
        draws(d, p5, e),
    ensures
        draws(u, p1 + p2 + p3 + p4 + p5, e),
{
    drawing_goes_on(u, p1, a, p2, b);
    drawing_goes_on(u, p1 + p2, b, p3, c);
    drawing_goes_on(u, p1 + p2 + p3, c, p4, d);
    drawing_goes_on(u, p1 + p2 + p3 + p4, d, p5, e);
}

/// The bytes that `input_mode_formatted` returns give a terminal the input modes of the screen. A
/// mouse that the screen has no use for is not switched off: it has to be off before.
pub proof fn input_modes_come_out<T>(u: ScreenModel<T>, s: ScreenModel<T>)
    requires
        s.mouse_protocol_mode == MouseProtocolMode::Disabled ==> u.mouse_protocol_mode
            == MouseProtocolMode::Disabled,
        s.mouse_protocol_encoding == MouseProtocolEncoding::Default ==> u.mouse_protocol_encoding
            == MouseProtocolEncoding::Default,
    ensures
        draws(u, s.input_mode_bytes(), u.with_input(s)),
        u.with_input(s).same_input(s),
{
    let a = u.with_keypad(s.modes.application_keypad);
    let b = ScreenModel {
        modes: Modes { application_cursor: s.modes.application_cursor, ..a.modes },
        ..a
    };
    let c = ScreenModel {
        modes: Modes { bracketed_paste: s.modes.bracketed_paste, ..b.modes },
        ..b
    };
    let d = ScreenModel { mouse_protocol_mode: s.mouse_protocol_mode, ..c };
    let e = ScreenModel { mouse_protocol_encoding: s.mouse_protocol_encoding, ..d };
    keypad_draws(u, s.modes.application_keypad);
    cursor_keys_draw(a, s.modes.application_cursor);
    paste_draws(b, s.modes.bracketed_paste);
    mouse_draws(c, s.mouse_protocol_mode, MouseProtocolMode::Disabled);
    encoding_draws(d, s.mouse_protocol_encoding, MouseProtocolEncoding::Default);
    five_draw(
        u,
        keypad(s.modes.application_keypad),
        a,
        dec_mode(1, s.modes.application_cursor),
        b,
        dec_mode(2004, s.modes.bracketed_paste),
        c,
        switch_mode(mode_of_mouse(s.mouse_protocol_mode), None),
        d,
        switch_mode(mode_of_encoding(s.mouse_protocol_encoding), None),
        e,
    );
    assert(e == u.with_input(s));
}

proof fn mouse_changes_draw<T>(u: ScreenModel<T>, prev: ScreenModel<T>, s: ScreenModel<T>)
    requires
        u.mouse_protocol_mode == prev.mouse_protocol_mode,
    ensures
        draws(
            u,
            switch_mode(
                mode_of_mouse(s.mouse_protocol_mode),
                mode_of_mouse(prev.mouse_protocol_mode),
            ),
            (ScreenModel { mouse_protocol_mode: s.mouse_protocol_mode, ..u }),
        ),
{
    mouse_draws(u, s.mouse_protocol_mode, prev.mouse_protocol_mode);
}

proof fn encoding_changes_draw<T>(u: ScreenModel<T>, prev: ScreenModel<T>, s: ScreenModel<T>)
    requires
        u.mouse_protocol_encoding == prev.mouse_protocol_encoding,
    ensures
        draws(
            u,
            switch_mode(
                mode_of_encoding(s.mouse_protocol_encoding),
                mode_of_encoding(prev.mouse_protocol_encoding),
            ),
            (ScreenModel { mouse_protocol_encoding: s.mouse_protocol_encoding, ..u }),
        ),
{
    encoding_draws(u, s.mouse_protocol_encoding, prev.mouse_protocol_encoding);
}

proof fn keypad_changes_draw<T>(u: ScreenModel<T>, prev: ScreenModel<T>, s: ScreenModel<T>)
    requires
        u.modes.application_keypad == prev.modes.application_keypad,
    ensures
        draws(
            u,
            crate::vt::state::when(
                s.modes.application_keypad != prev.modes.application_keypad,
                keypad(s.modes.application_keypad),
            ),
            u.with_keypad(s.modes.application_keypad),
        ),
{
    keypad_draws(u, s.modes.application_keypad);
    if s.modes.application_keypad == prev.modes.application_keypad {
        assert(u.with_keypad(s.modes.application_keypad) == u);
    }
    when_draws(
        u,
        s.modes.application_keypad != prev.modes.application_keypad,
        keypad(s.modes.application_keypad),
        u.with_keypad(s.modes.application_keypad),
    );
}

proof fn cursor_key_changes_draw<T>(u: ScreenModel<T>, prev: ScreenModel<T>, s: ScreenModel<T>)
    requires
        u.modes.application_cursor == prev.modes.application_cursor,
    ensures
        draws(
            u,
            crate::vt::state::when(
                s.modes.application_cursor != prev.modes.application_cursor,
                dec_mode(1, s.modes.application_cursor),
            ),
            (ScreenModel {
                modes: Modes { application_cursor: s.modes.application_cursor, ..u.modes },
                ..u
            }),
        ),
{
    let v = ScreenModel {
        modes: Modes { application_cursor: s.modes.application_cursor, ..u.modes },
        ..u
    };
    cursor_keys_draw(u, s.modes.application_cursor);
    if s.modes.application_cursor == prev.modes.application_cursor {
        assert(v == u);
    }
    when_draws(
        u,
        s.modes.application_cursor != prev.modes.application_cursor,
        dec_mode(1, s.modes.application_cursor),
        v,
    );
}

proof fn paste_changes_draw<T>(u: ScreenModel<T>, prev: ScreenModel<T>, s: ScreenModel<T>)
    requires
        u.modes.bracketed_paste == prev.modes.bracketed_paste,
    ensures
        draws(
            u,
            crate::vt::state::when(
                s.modes.bracketed_paste != prev.modes.bracketed_paste,
                dec_mode(2004, s.modes.bracketed_paste),
            ),
            (ScreenModel {
                modes: Modes { bracketed_paste: s.modes.bracketed_paste, ..u.modes },
                ..u
            }),
        ),
{
    let v = ScreenModel {
        modes: Modes { bracketed_paste: s.modes.bracketed_paste, ..u.modes },
        ..u
    };
    paste_draws(u, s.modes.bracketed_paste);
    if s.modes.bracketed_paste == prev.modes.bracketed_paste {
        assert(v == u);
    }
    when_draws(
        u,
        s.modes.bracketed_paste != prev.modes.bracketed_paste,
        dec_mode(2004, s.modes.bracketed_paste),
        v,
    );
}

impl<T> ScreenModel<T> {
    #[verifier::opaque]
    spec fn keypad_part(self, prev: ScreenModel<T>) -> Seq<u8> {
        crate::vt::state::when(
            self.modes.application_keypad != prev.modes.application_keypad,
            keypad(self.modes.application_keypad),
        )
    }

    #[verifier::opaque]
    spec fn cursor_key_part(self, prev: ScreenModel<T>) -> Seq<u8> {
        crate::vt::state::when(
            self.modes.application_cursor != prev.modes.application_cursor,
            dec_mode(1, self.modes.application_cursor),
        )
    }

    #[verifier::opaque]
    spec fn paste_part(self, prev: ScreenModel<T>) -> Seq<u8> {
        crate::vt::state::when(
            self.modes.bracketed_paste != prev.modes.bracketed_paste,
            dec_mode(2004, self.modes.bracketed_paste),
        )
    }

    #[verifier::opaque]
    spec fn mouse_part(self, prev: ScreenModel<T>) -> Seq<u8> {
        switch_mode(
            mode_of_mouse(self.mouse_protocol_mode),
            mode_of_mouse(prev.mouse_protocol_mode),
        )
    }

    #[verifier::opaque]
    spec fn encoding_part(self, prev: ScreenModel<T>) -> Seq<u8> {
        switch_mode(
            mode_of_encoding(self.mouse_protocol_encoding),
            mode_of_encoding(prev.mouse_protocol_encoding),
        )
    }
}

proof fn input_diff_spelled<T>(prev: ScreenModel<T>, s: ScreenModel<T>)
    ensures
        s.input_mode_diff_bytes(prev) == s.keypad_part(prev) + s.cursor_key_part(prev)
            + s.paste_part(prev) + s.mouse_part(prev) + s.encoding_part(prev),
{
    reveal(ScreenModel::keypad_part);
    reveal(ScreenModel::cursor_key_part);
    reveal(ScreenModel::paste_part);
    reveal(ScreenModel::mouse_part);
    reveal(ScreenModel::encoding_part);
}

proof fn keys_draw<T>(u: ScreenModel<T>, prev: ScreenModel<T>, s: ScreenModel<T>) -> (r: (
    ScreenModel<T>,
    ScreenModel<T>,
    ScreenModel<T>,
))
    requires
        u.same_input(prev),
    ensures
        draws(u, s.keypad_part(prev), r.0),
        draws(r.0, s.cursor_key_part(prev), r.1),
        draws(r.1, s.paste_part(prev), r.2),
        r.2 == (ScreenModel {
            modes: Modes {
                application_keypad: s.modes.application_keypad,
                application_cursor: s.modes.application_cursor,
                bracketed_paste: s.modes.bracketed_paste,
                ..u.modes
            },
            ..u
        }),
{
    reveal(ScreenModel::keypad_part);
    reveal(ScreenModel::cursor_key_part);
    reveal(ScreenModel::paste_part);
    let a = u.with_keypad(s.modes.application_keypad);
    let b = ScreenModel {
        modes: Modes { application_cursor: s.modes.application_cursor, ..a.modes },
        ..a
    };
    let c = ScreenModel {
        modes: Modes { bracketed_paste: s.modes.bracketed_paste, ..b.modes },
        ..b
    };
    keypad_changes_draw(u, prev, s);
    cursor_key_changes_draw(a, prev, s);
    paste_changes_draw(b, prev, s);
    (a, b, c)
}

proof fn mouse_keys_draw<T>(u: ScreenModel<T>, prev: ScreenModel<T>, s: ScreenModel<T>) -> (r: (
    ScreenModel<T>,
    ScreenModel<T>,
))
    requires
        u.mouse_protocol_mode == prev.mouse_protocol_mode,
        u.mouse_protocol_encoding == prev.mouse_protocol_encoding,
    ensures
        draws(u, s.mouse_part(prev), r.0),
        draws(r.0, s.encoding_part(prev), r.1),
        r.1 == (ScreenModel {
            mouse_protocol_mode: s.mouse_protocol_mode,
            mouse_protocol_encoding: s.mouse_protocol_encoding,
            ..u
        }),
{
    reveal(ScreenModel::mouse_part);
    reveal(ScreenModel::encoding_part);
    let d = ScreenModel { mouse_protocol_mode: s.mouse_protocol_mode, ..u };
    mouse_changes_draw(u, prev, s);
    encoding_changes_draw(d, prev, s);
    (d, ScreenModel { mouse_protocol_encoding: s.mouse_protocol_encoding, ..d })
}

/// The bytes that `input_mode_diff` returns turn the input modes of one screen into those of the
/// other.
pub proof fn input_changes_come_out<T>(u: ScreenModel<T>, prev: ScreenModel<T>, s: ScreenModel<T>)
    requires
        u.same_input(prev),
    ensures
        draws(u, s.input_mode_diff_bytes(prev), u.with_input(s)),
        u.with_input(s).same_input(s),
{
    let (a, b, c) = keys_draw(u, prev, s);
    let (d, e) = mouse_keys_draw(c, prev, s);
    five_draw(
        u,
        s.keypad_part(prev),
        a,
        s.cursor_key_part(prev),
        b,
        s.paste_part(prev),
        c,
        s.mouse_part(prev),
        d,
        s.encoding_part(prev),
        e,
    );
    input_diff_spelled(prev, s);
    assert(e == u.with_input(s));
}

// The whole state.

proof fn input_is_not_shown<T>(v: ScreenModel<T>, s: ScreenModel<T>, other: ScreenModel<T>)
    requires
        v.shows(s),
        v.ready(),
    ensures
        v.with_input(other).shows(s),
        v.runs_like(s) ==> v.with_input(other).runs_like(s),
        v.with_input(other).ready(),
{
    assert(v.with_input(other).active() == v.active());
}

/// The bytes that `state_formatted` returns give a terminal both the contents and the input modes
/// of the screen.
pub proof fn state_comes_out<T>(u: ScreenModel<T>, s: ScreenModel<T>)
    requires
        s.wf(),
        s.active().legible(),
        s.active().viewable(),
        u.ready(),
        u.active().size == s.active().size,
        s.mouse_protocol_mode == MouseProtocolMode::Disabled ==> u.mouse_protocol_mode
            == MouseProtocolMode::Disabled,
        s.mouse_protocol_encoding == MouseProtocolEncoding::Default ==> u.mouse_protocol_encoding
            == MouseProtocolEncoding::Default,
    ensures
        exists|v: ScreenModel<T>| #[trigger]
            draws(u, s.contents_bytes() + s.input_mode_bytes(), v) && v.shows(s) && v.runs_like(s)
                && v.same_input(s),
{
    let a = contents_draw(u, s);
    assert(a.setting().mouse == u.setting().mouse);
    assert(a.setting().encoding == u.setting().encoding);
    input_modes_come_out(a, s);
    let v = a.with_input(s);
    drawing_goes_on(u, s.contents_bytes(), a, s.input_mode_bytes(), v);
    input_is_not_shown(a, s, s);
}

/// ED and home: empties a terminal.
pub open spec fn emptying() -> Seq<u8> {
    seq![0x1bu8, '[' as u8, '2' as u8, 'J' as u8] + csi().push('H' as u8)
}

/// A terminal that is emptied is as ready as before.
proof fn wiping_draws<T>(u: ScreenModel<T>) -> (v: ScreenModel<T>)
    requires
        u.ready(),
    ensures
        draws(u, emptying(), v),
        v.ready(),
        v.active().size == u.active().size,
        v.setting() == u.setting(),
{
    clear_all_draws(u);
    let a = u.on_grid(u.active().all_cleared(u.attrs));
    let cols = u.active().size.cols as int;
    assert forall|i: int| 0 <= i < a.active().rows.len() implies (#[trigger] a.active().rows[i]).wf(
        cols,
    ) by {
        assert(u.active().rows[i].wf(cols));
        rows_stay_whole(u.active().rows[i], cols);
    }
    assert(a.ready());
    home_draws(a);
    let v = a.on_grid(a.active().at(0, 0));
    drawing_goes_on(
        u,
        seq![0x1bu8, '[' as u8, '2' as u8, 'J' as u8],
        a,
        csi().push('H' as u8),
        v,
    );
    v
}

/// The same holds of a terminal that is emptied first.
pub proof fn state_comes_out_anew<T>(u: ScreenModel<T>, s: ScreenModel<T>)
    requires
        s.wf(),
        s.active().legible(),
        s.active().viewable(),
        u.ready(),
        u.active().size == s.active().size,
        s.mouse_protocol_mode == MouseProtocolMode::Disabled ==> u.mouse_protocol_mode
            == MouseProtocolMode::Disabled,
        s.mouse_protocol_encoding == MouseProtocolEncoding::Default ==> u.mouse_protocol_encoding
            == MouseProtocolEncoding::Default,
    ensures
        exists|v: ScreenModel<T>| #[trigger]
            draws(u, emptying() + s.contents_bytes() + s.input_mode_bytes(), v) && v.shows(s)
                && v.runs_like(s) && v.same_input(s),
{
    let wipe = emptying();
    let w = wiping_draws(u);
    assert(w.setting().mouse == u.setting().mouse);
    assert(w.setting().encoding == u.setting().encoding);
    state_comes_out(w, s);
    let v = choose|v: ScreenModel<T>| #[trigger]
        draws(w, s.contents_bytes() + s.input_mode_bytes(), v) && v.shows(s) && v.runs_like(s)
            && v.same_input(s);
    drawing_goes_on(u, wipe, w, s.contents_bytes() + s.input_mode_bytes(), v);
    assert(wipe + (s.contents_bytes() + s.input_mode_bytes()) =~= wipe + s.contents_bytes()
        + s.input_mode_bytes());
}

/// The bytes that `state_diff` returns turn both the contents and the input modes of one screen into
/// those of the other.
pub proof fn state_changes_come_out<T>(u: ScreenModel<T>, prev: ScreenModel<T>, s: ScreenModel<T>)
    requires
        prev.wf(),
        prev.active().legible(),
        prev.active().evenly_viewed(),
        s.wf(),
        s.active().legible(),
        s.active().viewable(),
        s.active().size == prev.active().size,
        u.ready(),
        u.shows(prev),
        u.same_input(prev),
    ensures
        exists|v: ScreenModel<T>| #[trigger]
            draws(u, s.contents_diff_bytes(prev) + s.input_mode_diff_bytes(prev), v) && v.shows(s)
                && (u.runs_like(prev) && s.runs_over(prev) ==> v.runs_like(s)) && v.same_input(s),
{
    let a = changes_draw(u, prev, s);
    assert(a.setting().mouse == u.setting().mouse);
    assert(a.setting().encoding == u.setting().encoding);
    assert(a.setting().modes.application_keypad == u.modes.application_keypad);
    assert(a.same_input(prev));
    input_changes_come_out(a, prev, s);
    let v = a.with_input(s);
    drawing_goes_on(u, s.contents_diff_bytes(prev), a, s.input_mode_diff_bytes(prev), v);
    input_is_not_shown(a, s, s);
}

// Text.

proof fn cells_spell_the_same<T>(a: RowModel<T>, b: RowModel<T>, start: int, end: int)
    requires
        a.shows(b),
        0 <= start,
        end <= a.cells.len(),
    ensures
        a.text_between(start, end) == b.text_between(start, end),
    decreases end - start,
{
    if end > start {
        cells_spell_the_same(a, b, start, end - 1);
        assert(a.cells[end - 1].shows(b.cells[end - 1]));
        if end - 1 > start {
            assert(a.cells[end - 2].shows(b.cells[end - 2]));
        }
    }
}

proof fn rows_spell_the_same<T>(
    a: Seq<RowModel<T>>,
    b: Seq<RowModel<T>>,
    cols: int,
    n: int,
)
    requires
        a.len() == b.len(),
        forall|i: int| 0 <= i < a.len() ==> (#[trigger] a[i]).shows(b[i]),
        run_alike(a, b),
        n < a.len(),
    ensures
        rows_text(a, cols, n) == rows_text(b, cols, n),
    decreases n,
{
    if n > 0 {
        rows_spell_the_same(a, b, cols, n - 1);
        assert(a[n - 1].shows(b[n - 1]));
        assert(a[n - 1].wrapped == b[n - 1].wrapped);
        cells_spell_the_same(a[n - 1], b[n - 1], 0, least(cols, a[n - 1].cells.len() as int));
        if n > 1 {
            assert(a[n - 2].wrapped == b[n - 2].wrapped);
        }
    }
}

/// Screens that show the same, and whose rows run on the same way, return the same text from
/// `contents`.
pub proof fn same_rows_same_text<T>(a: ScreenModel<T>, b: ScreenModel<T>)
    requires
        a.shows(b),
        a.runs_like(b),
        a.active().size.cols > 0,
    ensures
        a.active().text() == b.active().text(),
{
    let x = a.active().visible();
    let y = b.active().visible();
    let cols = a.active().size.cols as int;
    let n = x.len() as int;
    if n > 0 {
        rows_spell_the_same(x, y, cols, n - 1);
        assert(x[n - 1].shows(y[n - 1]));
        cells_spell_the_same(x[n - 1], y[n - 1], 0, least(cols, x[n - 1].cells.len() as int));
        if n > 1 {
            assert(x[n - 2].wrapped == y[n - 2].wrapped);
        }
        let line = rows_text(x, cols, n - 1) + x[n - 1].text(
            0,
            cols,
            n > 1 && x[n - 2].wrapped,
        );
        assert(line.push('\n').drop_last() =~= line);
        assert(trimmed(line.push('\n')) == trimmed(line));
    }
}

// Single rows.

proof fn row_begins<T>(u: ScreenModel<T>, new: RowModel<T>, was: RowModel<T>, i: int)
    requires
        u.ready(),
        0 <= i < u.active().size.rows,
        new.wf(u.active().size.cols as int),
        new.legible(),
        new.fits(),
        was.wf(u.active().size.cols as int),
        was.legible(),
        u.active().rows[i].shows(was),
        u.active().pos == (Pos { row: i as u16, col: 0 }),
        u.attrs.same_look(Attrs::plain()),
    ensures
        scene_of(u, new, was, i, false).sound(),
        scene_of(u, new, was, i, false).reached(
            u,
            Pen { pos: Pos { row: i as u16, col: 0 }, attrs: Attrs::plain(), erase: None },
            0,
        ),
{
    let s = scene_of(u, new, was, i, false);
    let cols = u.active().size.cols as int;
    let a = RowModel { cells: s.was, wrapped: false };
    assert(a.wf(cols)) by {
        assert forall|j: int| 0 <= j < cols && (#[trigger] a.cells[j].wide()) implies j + 1 < cols
            && a.cells[j + 1].cont() by {
            assert(was.cells[j].wide());
        }
        assert forall|j: int| 0 <= j < cols && (#[trigger] a.cells[j].cont()) implies 0 < j
            && a.cells[j - 1].wide() by {
            assert(was.cells[j].cont());
        }
    }
    assert forall|j: int| 0 <= j < cols implies (#[trigger] s.row.cells[j]).legible()
        && s.row.cells[j].fits(cols - j) by {}
    let cells = u.active().rows[i].cells;
    assert forall|j: int| 0 <= j && 0 <= j < s.line.cols implies s.open_at(
        #[trigger] cells[j],
        j,
    ) by {
        assert(u.active().rows[i].cells[j].shows(was.cells[j]));
    }
}

/// The bytes that `rows_formatted` returns for a row draw it at the beginning of that row of a
/// terminal where it is empty yet, and draw nothing else.
pub proof fn a_row_comes_out<T>(u: ScreenModel<T>, s: ScreenModel<T>, i: int)
    requires
        s.wf(),
        s.active().legible(),
        s.active().viewable(),
        u.ready(),
        u.active().size == s.active().size,
        0 <= i < s.active().visible().len(),
        i > 0 ==> !s.active().visible()[i - 1].wrapped,
        u.active().pos == (Pos { row: i as u16, col: 0 }),
        u.attrs.same_look(Attrs::plain()),
        u.active().rows[i].shows(RowModel::fresh(s.active().size.cols as int)),
    ensures
        exists|v: ScreenModel<T>| #[trigger]
            draws(u, s.row_bytes(i, 0, s.active().size.cols), v) && v.active().rows[i].shows(
                s.active().visible()[i],
            ) && forall|k: int|
                0 <= k < s.active().size.rows && k != i ==> (#[trigger] v.active().rows[k]).cells
                    == u.active().rows[k].cells,
{
    let g = s.active();
    let cols = g.size.cols;
    g.visible_rows_are_whole();
    rows_can_be_drawn(g);
    let new = g.visible()[i];
    let was = RowModel::<T>::fresh(cols as int);
    RowModel::<T>::fresh_is_whole(cols as int);
    row_begins(u, new, was, i);
    let scene = scene_of(u, new, was, i, false);
    let pen = Pen { pos: Pos { row: i as u16, col: 0 }, attrs: Attrs::plain(), erase: None };
    nothing_draws(u);
    assert(scene.compared(None));
    let v = row_is_formatted(scene, u, Seq::empty(), u, pen);
    assert(v.active().rows[i].shows(new)) by {
        assert(v.active().rows[i].wf(cols as int));
    }
    assert(draws(u, s.row_bytes(i, 0, cols), v));
}

/// The bytes that `rows_diff` returns for a row turn the other screen's row into it, from its
/// beginning, and draw nothing else.
pub proof fn a_changed_row_comes_out<T>(
    u: ScreenModel<T>,
    prev: ScreenModel<T>,
    s: ScreenModel<T>,
    i: int,
)
    requires
        s.wf(),
        s.active().legible(),
        s.active().viewable(),
        prev.wf(),
        prev.active().legible(),
        prev.active().evenly_viewed(),
        u.ready(),
        u.active().size == s.active().size,
        prev.active().size == s.active().size,
        0 <= i < s.active().visible().len(),
        i < prev.active().visible().len(),
        u.active().pos == (Pos { row: i as u16, col: 0 }),
        u.attrs.same_look(Attrs::plain()),
        u.active().rows[i].shows(prev.active().visible()[i]),
    ensures
        exists|v: ScreenModel<T>| #[trigger]
            draws(u, s.row_diff_bytes(prev, i, 0, s.active().size.cols), v)
                && v.active().rows[i].shows(s.active().visible()[i]) && forall|k: int|
                0 <= k < s.active().size.rows && k != i ==> (#[trigger] v.active().rows[k]).cells
                    == u.active().rows[k].cells,
{
    let g = s.active();
    let cols = g.size.cols;
    g.visible_rows_are_whole();
    prev.active().visible_rows_are_whole();
    rows_can_be_drawn(g);
    rows_can_be_read(prev.active());
    let new = g.visible()[i];
    let was = prev.active().visible()[i];
    row_begins(u, new, was, i);
    let scene = scene_of(u, new, was, i, false);
    let pen = Pen { pos: Pos { row: i as u16, col: 0 }, attrs: Attrs::plain(), erase: None };
    nothing_draws(u);
    let v = row_is_diffed(scene, u, Seq::empty(), u, pen, was, false);
    assert(v.active().rows[i].shows(new)) by {
        assert(v.active().rows[i].wf(cols as int));
    }
    assert(draws(u, s.row_diff_bytes(prev, i, 0, cols), v));
}

} // verus!
