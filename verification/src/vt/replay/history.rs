//! Every screen that came about by what a terminal is given can be drawn again.
use vstd::prelude::*;

use crate::vt::dispatch::Op;
use crate::vt::grid::Size;
use crate::vt::replay::laws::{
    changes_follow_contents, contents_come_out, same_rows_same_text,
};
use crate::vt::replay::legible::{
    characters_leave_legible_screens, commands_leave_legible_screens,
    control_leaves_legible_screens, escapes_leave_legible_screens, fresh_screens_are_legible,
    functions_leave_legible_screens, sizes_leave_legible_screens, stamps_leave_legible_grids,
    tidy_grids_are_legible,
};
use crate::vt::replay::reading::drawn_in_one_way;
use crate::vt::replay::token::draws;
use crate::vt::row::RowModel;
use crate::vt::screen::ScreenModel;

verus! {

/// What a screen is given.
pub enum Input<T> {
    /// A character.
    Character(char),
    /// A control character.
    Control(u8),
    /// An escape sequence, with what stands before its final byte.
    Escape(Option<u8>, Option<u8>, u8),
    /// A control function with its numbers.
    Function(Op, Seq<Seq<u16>>),
    /// An operating system command in its parts.
    Command(Seq<Seq<u8>>),
    /// Another size.
    Resize(Size),
    /// Data for the cells from the cursor on.
    Stamp(Seq<Seq<T>>),
    /// How many rows to look back.
    View(usize),
}

impl<T> ScreenModel<T> {
    /// The screen after an input. What is not known changes nothing.
    pub open spec fn given(self, input: Input<T>) -> ScreenModel<T> {
        match input {
            Input::Character(c) => self.printed(c),
            Input::Control(b) => match self.executed(b) {
                Some(s) => s,
                None => self,
            },
            Input::Escape(i1, i2, b) => match self.escaped(i1, i2, b) {
                Some(s) => s,
                None => self,
            },
            Input::Function(op, ps) => self.performed(op, ps).0,
            Input::Command(ps) => match self.commanded(ps) {
                Some(s) => s,
                None => self,
            },
            Input::Resize(size) => if size.rows > 0 && size.cols > 0 {
                self.resized(size)
            } else {
                self
            },
            Input::Stamp(vals) => self.on_grid(self.active().stamped(vals).col_at(0)),
            Input::View(rows) => self.on_grid(self.active().viewing(rows as int)),
        }
    }
}

/// Whether a screen comes about from the one before it.
pub open spec fn steps<T>(ss: Seq<ScreenModel<T>>, i: int) -> bool {
    exists|input: Input<T>| ss[i + 1] == #[trigger] ss[i].given(input)
}

/// Whether a screen is new.
pub open spec fn is_new<T>(s: ScreenModel<T>) -> bool {
    exists|size: Size, scrollback_len: usize|
        s == #[trigger] ScreenModel::<T>::fresh(size, scrollback_len)
}

/// The screens that one has been, from a new one on, each of which was sound.
pub open spec fn history<T>(ss: Seq<ScreenModel<T>>) -> bool {
    &&& ss.len() > 0
    &&& is_new(ss[0])
    &&& forall|i: int| 0 <= i < ss.len() ==> (#[trigger] ss[i]).wf()
    &&& forall|i: int| 0 <= i < ss.len() - 1 ==> #[trigger] steps(ss, i)
}

proof fn input_leaves_legible_screens<T>(s: ScreenModel<T>, input: Input<T>)
    requires
        s.wf(),
        s.tidy(),
    ensures
        s.given(input).tidy(),
{
    match input {
        Input::Character(c) => characters_leave_legible_screens(s, c),
        Input::Control(b) => {
            if s.executed(b) is Some {
                control_leaves_legible_screens(s, b);
            }
        },
        Input::Escape(i1, i2, b) => {
            if s.escaped(i1, i2, b) is Some {
                escapes_leave_legible_screens(s, i1, i2, b);
            }
        },
        Input::Function(op, ps) => functions_leave_legible_screens(s, op, ps),
        Input::Command(ps) => {
            if s.commanded(ps) is Some {
                commands_leave_legible_screens(s, ps);
            }
        },
        Input::Resize(size) => {
            if size.rows > 0 && size.cols > 0 {
                sizes_leave_legible_screens(s, size);
            }
        },
        Input::Stamp(vals) => stamps_leave_legible_grids(s.active(), vals),
        Input::View(_) => {},
    }
}

/// Whatever a screen was given, it holds what text leaves in cells.
pub proof fn every_screen_is_legible<T>(ss: Seq<ScreenModel<T>>)
    requires
        history(ss),
    ensures
        ss.last().tidy(),
        ss.last().active().legible(),
    decreases ss.len(),
{
    let s = ss.last();
    let n = ss.len() as int;
    if n == 1 {
        let (size, scrollback_len) = choose|size: Size, scrollback_len: usize|
            s == #[trigger] ScreenModel::<T>::fresh(size, scrollback_len);
        fresh_screens_are_legible::<T>(size, scrollback_len);
    } else {
        let before = ss.drop_last();
        assert(history(before)) by {
            assert forall|i: int| 0 <= i < before.len() - 1 implies #[trigger] steps(before, i) by {
                assert(steps(ss, i));
                let input = choose|input: Input<T>| ss[i + 1] == #[trigger] ss[i].given(input);
                assert(before[i + 1] == before[i].given(input));
            }
        }
        every_screen_is_legible(before);
        assert(steps(ss, n - 2));
        let input = choose|input: Input<T>| ss[n - 2 + 1] == #[trigger] ss[n - 2].given(input);
        assert(before.last() == ss[n - 2]);
        input_leaves_legible_screens(ss[n - 2], input);
    }
    assert(s.wf());
    tidy_grids_are_legible(s.active());
}

/// A new terminal draws in the ordinary way.
proof fn new_terminals_are_ready<T>(size: Size)
    requires
        size.rows > 0,
        size.cols > 0,
    ensures
        ScreenModel::<T>::fresh(size, 0).ready(),
        ScreenModel::<T>::fresh(size, 0).active().size == size,
{
    RowModel::<T>::fresh_is_whole(size.cols as int);
}

impl<T> ScreenModel<T> {
    /// Whether a screen shows its own rows, with room for all columns of each character.
    pub open spec fn fits(self) -> bool {
        &&& self.active().scrollback_offset == 0
        &&& forall|i: int|
            0 <= i < self.active().rows.len() ==> (#[trigger] self.active().rows[i]).fits()
    }
}

proof fn fitting_screens_are_viewable<T>(s: ScreenModel<T>)
    requires
        s.wf(),
        s.fits(),
    ensures
        s.active().viewable(),
{
    let g = s.active();
    assert(g.visible() =~= g.rows);
    assert forall|i: int| 0 <= i < g.visible().len() implies (
    #[trigger] g.visible()[i]).cells.len() == g.size.cols && g.visible()[i].fits() by {
        assert(g.rows[i].wf(g.size.cols as int));
    }
}

/// Whatever a screen was given, what `contents_formatted` returns of it can be read, and a new
/// terminal of its size that reads it shows the screen: each cell with its text and its look, the
/// cursor, the attributes to go on with, and the same text in view.
pub proof fn any_contents_come_out<T>(ss: Seq<ScreenModel<T>>)
    requires
        history(ss),
        ss.last().fits(),
    ensures
        ({
            let s = ss.last();
            let new = ScreenModel::<T>::fresh(s.active().size, 0);
            &&& exists|v: ScreenModel<T>| draws(new, s.contents_bytes(), v)
            &&& forall|v: ScreenModel<T>| #[trigger]
                draws(new, s.contents_bytes(), v) ==> v.shows(s) && v.runs_like(s)
                    && v.active().text() == s.active().text()
        }),
{
    let s = ss.last();
    assert(s.wf());
    let new = ScreenModel::<T>::fresh(s.active().size, 0);
    every_screen_is_legible(ss);
    fitting_screens_are_viewable(s);
    new_terminals_are_ready::<T>(s.active().size);
    contents_come_out(new, s);
    let v = choose|v: ScreenModel<T>| #[trigger]
        draws(new, s.contents_bytes(), v) && v.shows(s) && v.runs_like(s) && v.ready()
            && v.same_input(new);
    same_rows_same_text(v, s);
    assert forall|w: ScreenModel<T>| #[trigger] draws(new, s.contents_bytes(), w) implies w.shows(s)
        && w.runs_like(s) && w.active().text() == s.active().text() by {
        drawn_in_one_way(new, s.contents_bytes(), v, w);
    }
}

/// Whatever two screens of one size were given, a new terminal that reads the contents of the one
/// and then what `contents_diff` returns shows the other, as does one that reads its contents. Both
/// return its text from `contents`; the first where the rows of the other still run on once they are
/// drawn over those of the one.
pub proof fn any_changes_come_out<T>(ps: Seq<ScreenModel<T>>, ss: Seq<ScreenModel<T>>)
    requires
        history(ps),
        history(ss),
        ps.last().fits(),
        ss.last().fits(),
        ps.last().active().size == ss.last().active().size,
    ensures
        ({
            let prev = ps.last();
            let s = ss.last();
            let new = ScreenModel::<T>::fresh(s.active().size, 0);
            let bytes = prev.contents_bytes() + s.contents_diff_bytes(prev);
            &&& exists|v: ScreenModel<T>| draws(new, bytes, v)
            &&& forall|v: ScreenModel<T>| #[trigger]
                draws(new, bytes, v) ==> v.shows(s) && (s.runs_over(prev) ==> v.runs_like(s)
                    && v.active().text() == s.active().text())
            &&& exists|v: ScreenModel<T>| draws(new, s.contents_bytes(), v)
            &&& forall|v: ScreenModel<T>| #[trigger]
                draws(new, s.contents_bytes(), v) ==> v.shows(s) && v.runs_like(s)
                    && v.active().text() == s.active().text()
        }),
{
    let prev = ps.last();
    let s = ss.last();
    assert(s.wf());
    assert(prev.wf());
    let new = ScreenModel::<T>::fresh(s.active().size, 0);
    let bytes = prev.contents_bytes() + s.contents_diff_bytes(prev);
    any_contents_come_out(ss);
    every_screen_is_legible(ps);
    every_screen_is_legible(ss);
    fitting_screens_are_viewable(prev);
    fitting_screens_are_viewable(s);
    new_terminals_are_ready::<T>(s.active().size);
    changes_follow_contents(new, prev, s);
    let (v, x) = choose|v: ScreenModel<T>, x: ScreenModel<T>|
        #![trigger v.shows(s), x.shows(s)]
        draws(new, bytes, v) && v.shows(s) && (s.runs_over(prev) ==> v.runs_like(s)) && draws(
            new,
            s.contents_bytes(),
            x,
        ) && x.shows(s) && x.runs_like(s);
    if s.runs_over(prev) {
        same_rows_same_text(v, s);
    }
    assert forall|w: ScreenModel<T>| #[trigger] draws(new, bytes, w) implies w.shows(s) && (
    s.runs_over(prev) ==> w.runs_like(s) && w.active().text() == s.active().text()) by {
        drawn_in_one_way(new, bytes, v, w);
    }
}

} // verus!
