//! What a screen writes out of itself: contents, attributes, cursor and input modes as
//! escape sequences.
use vstd::prelude::*;

use crate::vt::attrs::Attrs;
use crate::vt::escape::{
    csi, dec_mode, keypad, mode_of_encoding, mode_of_mouse, push_clear_attrs, push_dec_mode,
    push_keypad, push_mouse_encoding, push_mouse_mode, switch_mode,
};
use crate::vt::format::{swept, Line, Pen};
use crate::vt::grid::{least, GridModel, Pos};
use crate::vt::row::RowModel;
use crate::vt::screen::{MouseProtocolEncoding, MouseProtocolMode, Screen, ScreenModel};

verus! {

/// Bytes that are only written where something changed.
pub open spec fn when(changed: bool, bytes: Seq<u8>) -> Seq<u8> {
    if changed {
        bytes
    } else {
        Seq::empty()
    }
}

fn push_dec_mode_when(out: &mut Vec<u8>, changed: bool, mode: u16, on: bool)
    ensures
        final(out)@ == old(out)@ + when(changed, dec_mode(mode, on)),
{
    if changed {
        push_dec_mode(out, mode, on);
    } else {
        proof {
            assert(out@ =~= old(out)@ + when(changed, dec_mode(mode, on)));
        }
    }
}

fn push_keypad_when(out: &mut Vec<u8>, changed: bool, application: bool)
    ensures
        final(out)@ == old(out)@ + when(changed, keypad(application)),
{
    if changed {
        push_keypad(out, application);
    } else {
        proof {
            assert(out@ =~= old(out)@ + when(changed, keypad(application)));
        }
    }
}

proof fn five_parts(o: Seq<u8>, a: Seq<u8>, b: Seq<u8>, c: Seq<u8>, d: Seq<u8>, e: Seq<u8>)
    ensures
        o + a + b + c + d + e == o + (a + b + c + d + e),
{
    assert(o + a + b + c + d + e =~= o + (a + b + c + d + e));
}

impl<T> ScreenModel<T> {
    /// The bytes that show or hide the cursor.
    pub open spec fn cursor_visibility(self) -> Seq<u8> {
        dec_mode(25, !self.modes.hide_cursor)
    }

    /// The bytes that draw what is in view.
    pub open spec fn contents_bytes(self) -> Seq<u8> {
        let (drawn, attrs) = self.active().formatted();
        self.cursor_visibility() + drawn + self.attrs.escape_from(attrs)
    }

    /// The bytes that turn what is in view of `prev` into what is in view here.
    pub open spec fn contents_diff_bytes(self, prev: ScreenModel<T>) -> Seq<u8> {
        let (drawn, attrs) = self.active().diffed(prev.active(), prev.attrs);
        when(self.modes.hide_cursor != prev.modes.hide_cursor, self.cursor_visibility())
            + drawn + self.attrs.escape_from(attrs)
    }

    /// The bytes that set the input modes: keypad, cursor keys, bracketed paste and mouse.
    pub open spec fn input_mode_bytes(self) -> Seq<u8> {
        keypad(self.modes.application_keypad) + dec_mode(1, self.modes.application_cursor)
            + dec_mode(2004, self.modes.bracketed_paste) + switch_mode(
            mode_of_mouse(self.mouse_protocol_mode),
            None,
        ) + switch_mode(mode_of_encoding(self.mouse_protocol_encoding), None)
    }

    /// The bytes that turn the input modes of `prev` into these.
    pub open spec fn input_mode_diff_bytes(self, prev: ScreenModel<T>) -> Seq<u8> {
        when(
            self.modes.application_keypad != prev.modes.application_keypad,
            keypad(self.modes.application_keypad),
        ) + when(
            self.modes.application_cursor != prev.modes.application_cursor,
            dec_mode(1, self.modes.application_cursor),
        ) + when(
            self.modes.bracketed_paste != prev.modes.bracketed_paste,
            dec_mode(2004, self.modes.bracketed_paste),
        ) + switch_mode(
            mode_of_mouse(self.mouse_protocol_mode),
            mode_of_mouse(prev.mouse_protocol_mode),
        ) + switch_mode(
            mode_of_encoding(self.mouse_protocol_encoding),
            mode_of_encoding(prev.mouse_protocol_encoding),
        )
    }

    /// The bytes that set the drawing attributes.
    pub open spec fn attributes_bytes(self) -> Seq<u8> {
        csi().push('m' as u8) + self.attrs.escape_from(Attrs::plain())
    }

    /// The bytes that set the cursor's visibility and position.
    pub open spec fn cursor_bytes(self) -> Seq<u8> {
        self.cursor_visibility() + self.active().cursor_from(None, Attrs::plain())
    }

    /// Whether the row above runs on into row `i`, as far as whole rows are drawn.
    pub open spec fn runs_into(self, i: int, start: u16, width: u16) -> bool {
        i > 0 && start == 0 && width == self.active().size.cols
            && self.active().visible()[i - 1].wrapped
    }

    /// The bytes that draw one row in view by itself.
    pub open spec fn row_bytes(self, i: int, start: u16, width: u16) -> Seq<u8> {
        let row = self.active().visible()[i];
        let wrapping = self.runs_into(i, start, width);
        row.formatted(
            Seq::empty(),
            start,
            width,
            i as u16,
            wrapping,
            Pen {
                pos: row.first_pos(i as u16, start, wrapping),
                attrs: Attrs::plain(),
                erase: None,
            },
        ).0
    }

    /// The bytes that turn one row in view of `prev` into the one here.
    pub open spec fn row_diff_bytes(
        self,
        prev: ScreenModel<T>,
        i: int,
        start: u16,
        width: u16,
    ) -> Seq<u8> {
        self.active().visible()[i].diffed(
            Seq::empty(),
            prev.active().visible()[i],
            start,
            width,
            i as u16,
            false,
            false,
            Pen { pos: Pos { row: i as u16, col: start }, attrs: Attrs::plain(), erase: None },
        ).0
    }

    /// Every row in view reaches column `col`.
    pub open spec fn rows_reach(self, col: int) -> bool {
        forall|i: int|
            0 <= i < self.active().visible().len() ==> col < (
            #[trigger] self.active().visible()[i]).cells.len()
    }
}

impl<T> Screen<T> {
    fn write_contents_formatted(&self, out: &mut Vec<u8>)
        requires
            self@.wf(),
        ensures
            final(out)@ == old(out)@ + self@.contents_bytes(),
    {
        push_dec_mode(out, 25, !self.hide_cursor());
        let attrs = self.grid().write_contents_formatted(out);
        self.attrs().write_escape_code_diff(out, &attrs);
        proof {
            assert(out@ =~= old(out)@ + self@.contents_bytes());
        }
    }

    fn write_contents_diff(&self, out: &mut Vec<u8>, prev: &Screen<T>)
        requires
            self@.wf(),
            prev@.wf(),
        ensures
            final(out)@ == old(out)@ + self@.contents_diff_bytes(prev@),
    {
        let changed: bool = self.hide_cursor() != prev.hide_cursor();
        push_dec_mode_when(out, changed, 25, !self.hide_cursor());
        let attrs = self.grid().write_contents_diff(out, prev.grid(), prev.attrs());
        self.attrs().write_escape_code_diff(out, &attrs);
        proof {
            assert(out@ =~= old(out)@ + self@.contents_diff_bytes(prev@));
        }
    }

    fn write_input_mode_formatted(&self, out: &mut Vec<u8>)
        ensures
            final(out)@ == old(out)@ + self@.input_mode_bytes(),
    {
        push_keypad(out, self.application_keypad());
        push_dec_mode(out, 1, self.application_cursor());
        push_dec_mode(out, 2004, self.bracketed_paste());
        push_mouse_mode(out, self.mouse_protocol_mode(), MouseProtocolMode::Disabled);
        push_mouse_encoding(out, self.mouse_protocol_encoding(), MouseProtocolEncoding::Default);
        proof {
            assert(out@ =~= old(out)@ + self@.input_mode_bytes());
        }
    }

    fn write_input_mode_diff(&self, out: &mut Vec<u8>, prev: &Screen<T>)
        ensures
            final(out)@ == old(out)@ + self@.input_mode_diff_bytes(prev@),
    {
        let keypad_changed: bool = self.application_keypad() != prev.application_keypad();
        let cursor_changed: bool = self.application_cursor() != prev.application_cursor();
        let paste_changed: bool = self.bracketed_paste() != prev.bracketed_paste();
        proof {
            five_parts(
                old(out)@,
                when(keypad_changed, keypad(self@.modes.application_keypad)),
                when(cursor_changed, dec_mode(1, self@.modes.application_cursor)),
                when(paste_changed, dec_mode(2004, self@.modes.bracketed_paste)),
                switch_mode(
                    mode_of_mouse(self@.mouse_protocol_mode),
                    mode_of_mouse(prev@.mouse_protocol_mode),
                ),
                switch_mode(
                    mode_of_encoding(self@.mouse_protocol_encoding),
                    mode_of_encoding(prev@.mouse_protocol_encoding),
                ),
            );
        }
        push_keypad_when(out, keypad_changed, self.application_keypad());
        push_dec_mode_when(out, cursor_changed, 1, self.application_cursor());
        push_dec_mode_when(out, paste_changed, 2004, self.bracketed_paste());
        push_mouse_mode(out, self.mouse_protocol_mode(), prev.mouse_protocol_mode());
        push_mouse_encoding(out, self.mouse_protocol_encoding(), prev.mouse_protocol_encoding());
    }

    /// The bytes that reproduce the screen: contents and input modes.
    pub fn state_formatted(&self) -> (r: Vec<u8>)
        requires
            self@.wf(),
        ensures
            r@ == self@.contents_bytes() + self@.input_mode_bytes(),
    {
        let mut out: Vec<u8> = Vec::new();
        self.write_contents_formatted(&mut out);
        self.write_input_mode_formatted(&mut out);
        proof {
            assert(out@ =~= self@.contents_bytes() + self@.input_mode_bytes());
        }
        out
    }

    /// The bytes that turn the screen `prev` into this one: contents and input modes.
    pub fn state_diff(&self, prev: &Screen<T>) -> (r: Vec<u8>)
        requires
            self@.wf(),
            prev@.wf(),
        ensures
            r@ == self@.contents_diff_bytes(prev@) + self@.input_mode_diff_bytes(prev@),
    {
        let mut out: Vec<u8> = Vec::new();
        self.write_contents_diff(&mut out, prev);
        self.write_input_mode_diff(&mut out, prev);
        proof {
            assert(out@ =~= self@.contents_diff_bytes(prev@) + self@.input_mode_diff_bytes(prev@));
        }
        out
    }

    /// The bytes that draw what is in view on any terminal.
    pub fn contents_formatted(&self) -> (r: Vec<u8>)
        requires
            self@.wf(),
        ensures
            r@ == self@.contents_bytes(),
    {
        let mut out: Vec<u8> = Vec::new();
        self.write_contents_formatted(&mut out);
        proof {
            assert(out@ =~= self@.contents_bytes());
        }
        out
    }

    /// The bytes that turn what is in view of `prev` into what is in view here.
    pub fn contents_diff(&self, prev: &Screen<T>) -> (r: Vec<u8>)
        requires
            self@.wf(),
            prev@.wf(),
        ensures
            r@ == self@.contents_diff_bytes(prev@),
    {
        let mut out: Vec<u8> = Vec::new();
        self.write_contents_diff(&mut out, prev);
        proof {
            assert(out@ =~= self@.contents_diff_bytes(prev@));
        }
        out
    }

    /// The bytes that draw `width` columns from `start` on, one entry for each row in view. The
    /// cursor is to be in place before each, and is anywhere after it.
    pub fn rows_formatted(&self, start: u16, width: u16) -> (r: Vec<Vec<u8>>)
        requires
            self@.wf(),
            self@.rows_reach(start as int),
        ensures
            r@.len() == self@.active().visible().len(),
            forall|i: int|
                0 <= i < r@.len() ==> (#[trigger] r@[i])@ == self@.row_bytes(i, start, width),
    {
        let mut r: Vec<Vec<u8>> = Vec::new();
        let n: usize = self.grid().visible_len();
        let cols: u16 = self.grid().size().cols;
        let mut wrapping: bool = false;
        let mut i: usize = 0;
        while i < n
            invariant
                self@.wf(),
                self@.rows_reach(start as int),
                cols == self@.active().size.cols,
                n == self@.active().visible().len(),
                n == self@.active().rows.len(),
                i <= n,
                i < n ==> wrapping == self@.runs_into(i as int, start, width),
                r@.len() == i,
                forall|j: int|
                    0 <= j < i ==> (#[trigger] r@[j])@ == self@.row_bytes(j, start, width),
            decreases n - i,
        {
            let mut out: Vec<u8> = Vec::new();
            proof {
                assert(out@ =~= Seq::<u8>::empty());
            }
            if let Some(row) = self.grid().visible_row(i) {
                proof {
                    self@.active().visible_rows_are_whole();
                }
                let pos = if wrapping {
                    Pos { row: i as u16 - 1, col: row.len() as u16 }
                } else {
                    Pos { row: i as u16, col: start }
                };
                let pen = Pen { pos, attrs: Attrs::default(), erase: None };
                let _ = row.write_contents_formatted(
                    &mut out,
                    start,
                    width,
                    i as u16,
                    wrapping,
                    pen,
                );
                if start == 0 && width == cols {
                    wrapping = row.wrapped();
                }
            }
            r.push(out);
            i = i + 1;
        }
        r
    }

    /// The bytes that turn `width` columns from `start` on of `prev` into the ones here, one
    /// entry for each row in view of both. The cursor is to be in place before each, and is
    /// anywhere after it.
    pub fn rows_diff(&self, prev: &Screen<T>, start: u16, width: u16) -> (r: Vec<Vec<u8>>)
        requires
            self@.wf(),
            prev@.wf(),
            self@.rows_reach(start as int),
            prev@.rows_reach(start as int),
        ensures
            r@.len() == least(
                self@.active().visible().len() as int,
                prev@.active().visible().len() as int,
            ),
            forall|i: int|
                0 <= i < r@.len() ==> (#[trigger] r@[i])@ == self@.row_diff_bytes(
                    prev@,
                    i,
                    start,
                    width,
                ),
    {
        let mut r: Vec<Vec<u8>> = Vec::new();
        let a: usize = self.grid().visible_len();
        let b: usize = prev.grid().visible_len();
        let n: usize = if a < b {
            a
        } else {
            b
        };
        let mut i: usize = 0;
        while i < n
            invariant
                self@.wf(),
                prev@.wf(),
                self@.rows_reach(start as int),
                prev@.rows_reach(start as int),
                n <= self@.active().visible().len(),
                n <= prev@.active().visible().len(),
                n <= self@.active().rows.len(),
                i <= n,
                r@.len() == i,
                forall|j: int|
                    0 <= j < i ==> (#[trigger] r@[j])@ == self@.row_diff_bytes(
                        prev@,
                        j,
                        start,
                        width,
                    ),
            decreases n - i,
        {
            let mut out: Vec<u8> = Vec::new();
            proof {
                assert(out@ =~= Seq::<u8>::empty());
            }
            if let (Some(row), Some(prev_row)) = (
                self.grid().visible_row(i),
                prev.grid().visible_row(i),
            ) {
                proof {
                    self@.active().visible_rows_are_whole();
                    prev@.active().visible_rows_are_whole();
                }
                let pen = Pen {
                    pos: Pos { row: i as u16, col: start },
                    attrs: Attrs::default(),
                    erase: None,
                };
                let _ = row.write_contents_diff(
                    &mut out,
                    prev_row,
                    start,
                    width,
                    i as u16,
                    false,
                    false,
                    pen,
                );
            }
            r.push(out);
            i = i + 1;
        }
        r
    }

    /// The bytes that set the input modes: application keypad, application cursor, bracketed
    /// paste and mouse.
    pub fn input_mode_formatted(&self) -> (r: Vec<u8>)
        ensures
            r@ == self@.input_mode_bytes(),
    {
        let mut out: Vec<u8> = Vec::new();
        self.write_input_mode_formatted(&mut out);
        proof {
            assert(out@ =~= self@.input_mode_bytes());
        }
        out
    }

    /// The bytes that turn the input modes of `prev` into these.
    pub fn input_mode_diff(&self, prev: &Screen<T>) -> (r: Vec<u8>)
        ensures
            r@ == self@.input_mode_diff_bytes(prev@),
    {
        let mut out: Vec<u8> = Vec::new();
        self.write_input_mode_diff(&mut out, prev);
        proof {
            assert(out@ =~= self@.input_mode_diff_bytes(prev@));
        }
        out
    }

    /// The bytes that set the drawing attributes: colours, bold, dim, italic, underline and
    /// inverse.
    pub fn attributes_formatted(&self) -> (r: Vec<u8>)
        ensures
            r@ == self@.attributes_bytes(),
    {
        let mut out: Vec<u8> = Vec::new();
        push_clear_attrs(&mut out);
        self.attrs().write_escape_code_diff(&mut out, &Attrs::default());
        proof {
            assert(out@ =~= self@.attributes_bytes());
        }
        out
    }

    /// The bytes that set the cursor's visibility and position. They may change the drawing
    /// attributes, since a cursor behind the last column is put there by drawing.
    pub fn cursor_state_formatted(&self) -> (r: Vec<u8>)
        requires
            self@.wf(),
        ensures
            r@ == self@.cursor_bytes(),
    {
        let mut out: Vec<u8> = Vec::new();
        push_dec_mode(&mut out, 25, !self.hide_cursor());
        self.grid().write_cursor_position_formatted(&mut out, None, Attrs::default());
        proof {
            assert(out@ =~= self@.cursor_bytes());
        }
        out
    }
}

proof fn swept_unchanged<T>(
    out: Seq<u8>,
    pen: Pen,
    line: Line,
    row: RowModel<T>,
    start: int,
    end: int,
)
    requires
        pen.erase is None,
    ensures
        swept(out, pen, line, row, Some(row), start, end) == (out, pen),
    decreases end - start,
{
    if end > start {
        swept_unchanged(out, pen, line, row, start, end - 1);
    }
}

proof fn rows_unchanged<T>(g: GridModel<T>, pen: Pen, n: int)
    requires
        pen.erase is None,
    ensures
        g.rows_redrawn(g, pen, n) == (Seq::<u8>::empty(), pen),
    decreases n,
{
    if n > 0 {
        rows_unchanged(g, pen, n - 1);
        let row = g.visible()[n - 1];
        let end = least(g.size.cols as int, row.cells.len() as int);
        let line = Line {
            row: (n - 1) as u16,
            cols: row.cells.len() as u16,
            wrapping: n > 1 && g.visible()[n - 2].wrapped,
        };
        swept_unchanged(Seq::<u8>::empty(), pen, line, row, 0, end);
    }
}

/// A screen differs from itself in nothing: neither contents nor input modes need a byte.
pub proof fn no_change_no_bytes<T>(s: ScreenModel<T>)
    ensures
        s.contents_diff_bytes(s) == Seq::<u8>::empty(),
        s.input_mode_diff_bytes(s) == Seq::<u8>::empty(),
{
    let g = s.active();
    let pen = Pen { pos: g.pos, attrs: s.attrs, erase: None };
    rows_unchanged(g, pen, g.visible().len() as int);
    assert(s.attrs.codes_from(s.attrs) =~= Seq::<Seq<u16>>::empty());
    assert(g.cursor_from(Some(g.pos), s.attrs) =~= Seq::<u8>::empty());
    assert(s.contents_diff_bytes(s) =~= Seq::<u8>::empty());
    assert(s.input_mode_diff_bytes(s) =~= Seq::<u8>::empty());
}

/// The same of each row by itself.
pub proof fn no_change_no_row_bytes<T>(s: ScreenModel<T>, i: int, start: u16, width: u16)
    requires
        0 <= i < s.active().visible().len(),
    ensures
        s.row_diff_bytes(s, i, start, width) == Seq::<u8>::empty(),
{
    let row = s.active().visible()[i];
    let pen = Pen { pos: Pos { row: i as u16, col: start }, attrs: Attrs::plain(), erase: None };
    let end = least(start + width, row.cells.len() as int);
    let line = Line { row: i as u16, cols: row.cells.len() as u16, wrapping: false };
    swept_unchanged(Seq::<u8>::empty(), pen, line, row, start as int, end);
}

} // verus!
