//! What holds of a screen whatever is drawn on it.
use vstd::prelude::*;

use crate::vt::attrs::{Attrs, Color, Underline};
use crate::vt::cell::display_width;
use crate::vt::dispatch::Op;
use crate::vt::grid::GridModel;
use crate::vt::sgr::{byte_at, group_color, is_color_group, Layer};
use crate::vt::screen::{next_count, Modes, ScreenModel, MAX_TITLE_STACK};

verus! {

/// Something that is drawn: a character, a control character, or a control function with its
/// numbers.
pub enum Step {
    Print(char),
    Control(u8),
    Function(Op, Seq<Seq<u16>>),
}

impl Step {
    /// Whether a step leaves the saved cursor and the choice of the screen alone.
    pub open spec fn draws(self) -> bool {
        match self {
            Step::Function(op, _) => op != Op::SavePosition && op != Op::SoftReset && !(op is Mode),
            _ => true,
        }
    }
}

/// Whether all steps leave the saved cursor and the choice of the screen alone.
pub open spec fn all_draw(steps: Seq<Step>) -> bool {
    forall|i: int| 0 <= i < steps.len() ==> (#[trigger] steps[i]).draws()
}

impl<T> ScreenModel<T> {
    /// The screen after a step. A control character that is not known changes nothing.
    pub open spec fn stepped(self, step: Step) -> ScreenModel<T> {
        match step {
            Step::Print(c) => self.printed(c),
            Step::Control(b) => match self.executed(b) {
                Some(s) => s,
                None => self,
            },
            Step::Function(op, ps) => self.performed(op, ps).0,
        }
    }

    /// The screen after some steps.
    pub open spec fn drawn_on(self, steps: Seq<Step>) -> ScreenModel<T>
        decreases steps.len(),
    {
        if steps.len() == 0 {
            self
        } else {
            self.drawn_on(steps.drop_last()).stepped(steps.last())
        }
    }

    /// What neither text nor most control functions touch: the saved cursor and attributes, the
    /// choice of the screen, and the screen that is not in use.
    pub open spec fn same_frame(self, other: ScreenModel<T>) -> bool {
        &&& self.modes == other.modes
        &&& self.saved_attrs == other.saved_attrs
        &&& self.active().saved_pos == other.active().saved_pos
        &&& self.active().saved_origin_mode == other.active().saved_origin_mode
        &&& self.modes.alternate_screen ==> self.grid == other.grid
        &&& !self.modes.alternate_screen ==> self.alternate_grid == other.alternate_grid
    }
}

proof fn print_keeps_frame<T>(s: ScreenModel<T>, c: char)
    ensures
        s.printed(c).same_frame(s),
{
    reveal(GridModel::printed);
    reveal(GridModel::placed_for);
}

proof fn prints_keep_frame<T>(s: ScreenModel<T>, c: char, n: nat)
    ensures
        s.printed_times(c, n).same_frame(s),
    decreases n,
{
    if n > 0 {
        prints_keep_frame(s, c, (n - 1) as nat);
        print_keeps_frame(s.printed_times(c, (n - 1) as nat), c);
    }
}

proof fn tabs_keep_frame<T>(s: ScreenModel<T>, n: nat)
    ensures
        s.tabbed_times(n).same_frame(s),
    decreases n,
{
    if n > 0 {
        tabs_keep_frame(s, (n - 1) as nat);
    }
}

proof fn back_tabs_keep_frame<T>(s: ScreenModel<T>, n: nat)
    ensures
        s.back_tabbed_times(n).same_frame(s),
    decreases n,
{
    if n > 0 {
        back_tabs_keep_frame(s, (n - 1) as nat);
    }
}

proof fn control_keeps_frame<T>(s: ScreenModel<T>, b: u8)
    ensures
        s.executed(b) is Some ==> s.executed(b)->Some_0.same_frame(s),
{
}

#[verifier::rlimit(60)]
proof fn step_keeps_frame<T>(s: ScreenModel<T>, step: Step)
    requires
        step.draws(),
    ensures
        s.stepped(step).same_frame(s),
{
    match step {
        Step::Print(c) => print_keeps_frame(s, c),
        Step::Control(b) => control_keeps_frame(s, b),
        Step::Function(op, _) => match op {
            Op::Repeat(n) => match s.last_graphic_char {
                Some(c) => prints_keep_frame(s, c, n as nat),
                None => {},
            },
            Op::Tabs(n) => tabs_keep_frame(s, n as nat),
            Op::BackTabs(n) => back_tabs_keep_frame(s, n as nat),
            _ => {},
        },
    }
}

proof fn steps_keep_frame<T>(s: ScreenModel<T>, steps: Seq<Step>)
    requires
        all_draw(steps),
    ensures
        s.drawn_on(steps).same_frame(s),
    decreases steps.len(),
{
    if steps.len() > 0 {
        steps_keep_frame(s, steps.drop_last());
        step_keeps_frame(s.drawn_on(steps.drop_last()), steps.last());
    }
}

/// A position that was saved is where the cursor comes back to, whatever was drawn in between: a
/// prompt can draw its right edge and go back.
pub proof fn saved_position_comes_back<T>(s: ScreenModel<T>, steps: Seq<Step>)
    requires
        all_draw(steps),
    ensures
        ({
            let saved = s.performed(Op::SavePosition, Seq::empty()).0;
            let back = saved.drawn_on(steps).performed(Op::RestorePosition, Seq::empty()).0;
            &&& back.active().pos == s.active().pos
            &&& back.active().origin_mode == s.active().origin_mode
            &&& back.active().rows == saved.drawn_on(steps).active().rows
        }),
{
    let saved = s.performed(Op::SavePosition, Seq::empty()).0;
    steps_keep_frame(saved, steps);
}

/// A cursor that was saved with its attributes comes back with them.
pub proof fn saved_cursor_comes_back<T>(s: ScreenModel<T>, steps: Seq<Step>)
    requires
        all_draw(steps),
    ensures
        ({
            let back = s.saved().drawn_on(steps).restored();
            &&& back.active().pos == s.active().pos
            &&& back.attrs == s.attrs
            &&& back.active().rows == s.saved().drawn_on(steps).active().rows
        }),
{
    steps_keep_frame(s.saved(), steps);
}

/// An application that takes the alternate screen, draws on it and leaves finds the primary screen
/// as it was: its rows, its scrollback, the cursor and the attributes.
pub proof fn alternate_screen_leaves_no_trace<T>(s: ScreenModel<T>, steps: Seq<Step>)
    requires
        !s.modes.alternate_screen,
        all_draw(steps),
    ensures
        ({
            let inside = s.in_cleared_alternate().drawn_on(steps);
            let back = inside.in_primary().restored();
            &&& s.dec_set(1049) == Some(s.in_cleared_alternate())
            &&& inside.dec_reset(1049) == Some(back)
            &&& !back.modes.alternate_screen
            &&& back.active().rows == s.active().rows
            &&& back.active().scrollback == s.active().scrollback
            &&& back.active().pos == s.active().pos
            &&& back.active().origin_mode == s.active().origin_mode
            &&& back.attrs == s.attrs
        }),
{
    steps_keep_frame(s.in_cleared_alternate(), steps);
}

/// The alternate screen starts empty.
pub proof fn alternate_screen_starts_empty<T>(s: ScreenModel<T>, i: int)
    requires
        s.wf(),
        !s.modes.alternate_screen,
        0 <= i < s.in_cleared_alternate().active().rows.len(),
    ensures
        s.in_cleared_alternate().active().rows[i] == s.alternate_grid.fresh_row(),
        s.in_cleared_alternate().active().pos.row == 0,
        s.in_cleared_alternate().active().pos.col == 0,
{
    let g = s.alternate_grid.reset();
    if g.rows.len() > 0 {
        assert(g.with_rows() == g);
    }
}

/// A title that was pushed comes back when it is popped, whatever the title became in between, and
/// nothing below it on the stack changes unless the stack was full.
pub proof fn pushed_title_comes_back<T>(s: ScreenModel<T>, other: Seq<char>)
    ensures
        ({
            let renamed = ScreenModel { title: other, ..s.title_pushed() };
            &&& renamed.title_popped().title == s.title
            &&& s.title_stack.len() < MAX_TITLE_STACK ==> renamed.title_popped() == s
        }),
{
    let renamed = ScreenModel { title: other, ..s.title_pushed() };
    assert(renamed.title_stack.last() == s.title);
    if s.title_stack.len() < MAX_TITLE_STACK {
        assert(renamed.title_stack.drop_last() =~= s.title_stack);
    }
}

/// Attributes come and go within a hyperlink: only the hyperlink's own sequence ends it.
pub proof fn attributes_keep_the_link(a: Attrs, ps: Seq<Seq<u16>>)
    ensures
        a.after_sgr(ps).0.link == a.link,
{
    if ps.len() > 0 {
        groups_keep_the_link(a, ps, 0);
    }
}

proof fn groups_keep_the_link(a: Attrs, ps: Seq<Seq<u16>>, i: int)
    requires
        0 <= i,
    ensures
        a.after_groups(ps, i).0.link == a.link,
    decreases (if i < ps.len() { ps.len() - i } else { 0 }),
{
    if i < ps.len() {
        if ps[i].len() == 1 && Layer::of_spec(ps[i][0]) is Some {
            let layer = Layer::of_spec(ps[i][0])->Some_0;
            if byte_at(ps, i + 2) is Some && byte_at(ps, i + 3) is Some && byte_at(ps, i + 4) is Some {
                let rgb = Color::Rgb(
                    byte_at(ps, i + 2)->Some_0,
                    byte_at(ps, i + 3)->Some_0,
                    byte_at(ps, i + 4)->Some_0,
                );
                groups_keep_the_link(a.with_color(layer, rgb), ps, i + 5);
            }
            if byte_at(ps, i + 2) is Some {
                let idx = Color::Idx(byte_at(ps, i + 2)->Some_0);
                groups_keep_the_link(a.with_color(layer, idx), ps, i + 3);
            }
        } else if is_color_group(ps[i]) {
            let layer = Layer::of_spec(ps[i][0])->Some_0;
            if group_color(ps[i]) is Some {
                groups_keep_the_link(
                    a.with_color(layer, group_color(ps[i])->Some_0),
                    ps,
                    i + 1,
                );
            }
        } else if ps[i].len() == 2 && ps[i][0] == 4 && ps[i][1] <= 5 {
            let b = Attrs { underline: Underline::from_number_spec(ps[i][1]), ..a };
            groups_keep_the_link(b, ps, i + 1);
        } else if ps[i].len() == 1 && a.after_code(ps[i][0]) is Some {
            groups_keep_the_link(a.after_code(ps[i][0])->Some_0, ps, i + 1);
        } else {
            groups_keep_the_link(a, ps, i + 1);
        }
    }
}

/// Without autowrap, text stays in its row: the cursor keeps its row, and all other rows stay as
/// they are.
pub proof fn text_stays_in_its_row<T>(s: ScreenModel<T>, c: char, i: int)
    requires
        s.wf(),
        s.modes.no_autowrap,
        display_width(c) != Some(0usize),
        0 <= i < s.active().rows.len(),
        i != s.active().pos.row,
    ensures
        s.printed(c).active().pos.row == s.active().pos.row,
        s.printed(c).active().rows[i] == s.active().rows[i],
{
    reveal(GridModel::printed);
    reveal(GridModel::placed_for);
}

/// A soft reset leaves what is drawn, the cursor, the tab stops, the title and the mouse alone.
pub proof fn soft_reset_draws_nothing<T>(s: ScreenModel<T>)
    ensures
        s.soft_reset().active().rows == s.active().rows,
        s.soft_reset().active().pos == s.active().pos,
        s.soft_reset().active().scrollback == s.active().scrollback,
        s.soft_reset().modes.alternate_screen == s.modes.alternate_screen,
        s.soft_reset().tab_stops == s.tab_stops,
        s.soft_reset().title == s.title,
        s.soft_reset().mouse_protocol_mode == s.mouse_protocol_mode,
        s.soft_reset().mouse_protocol_encoding == s.mouse_protocol_encoding,
{
}

/// A character that is repeated is printed as often again.
pub proof fn repeat_prints_again<T>(s: ScreenModel<T>, c: char, n: nat)
    requires
        display_width(c) is Some,
    ensures
        s.printed(c).repeated(n) == s.printed_times(c, n + 1),
    decreases n,
{
    reveal_with_fuel(ScreenModel::printed_times, 2);
    if n > 0 {
        repeat_prints_again(s, c, (n - 1) as nat);
    }
}

/// An update that begins and ends is counted once on either side, and none is open then.
pub proof fn updates_are_counted<T>(s: ScreenModel<T>)
    ensures
        s.dec_set(2026) is Some,
        ({
            let open = s.dec_set(2026)->Some_0;
            &&& open.modes.synchronized_update
            &&& open.sync_starts == next_count(s.sync_starts)
            &&& open.sync_ends == s.sync_ends
            &&& open.dec_reset(2026) is Some
            &&& open.dec_reset(2026)->Some_0 == (ScreenModel {
                sync_starts: next_count(s.sync_starts),
                sync_ends: next_count(s.sync_ends),
                modes: Modes { synchronized_update: false, ..s.modes },
                ..s
            })
        }),
{
}

} // verus!
