//! What control sequences, control characters and text do to a screen, in plain terms.
//!
//! Each law speaks of the characters and numbers themselves and of what is on the screen before and
//! after: where the cursor is, which cells hold what.
use vstd::prelude::*;

use crate::vt::dispatch::csi_op;
use crate::vt::grid::GridModel;
use crate::vt::screen::ScreenModel;

pub mod cursor;
pub mod erase;
pub mod style;
pub mod modes;
pub mod lines;
pub mod text;
pub mod size;
pub mod settings;
pub mod cuts;
pub mod view;
pub mod reports;

verus! {

impl<T> ScreenModel<T> {
    /// The screen after a control sequence of numbers and a final character.
    pub open spec fn after_csi(self, ps: Seq<Seq<u16>>, c: char) -> ScreenModel<T> {
        self.performed(csi_op(None, None, ps, c, self.active().size.rows), ps).0
    }

    /// The screen after a control sequence with one byte before its final character, or before its
    /// numbers.
    pub open spec fn after_marked(self, mark: char, ps: Seq<Seq<u16>>, c: char) -> ScreenModel<T> {
        self.performed(csi_op(Some(mark as u8), None, ps, c, self.active().size.rows), ps).0
    }

    /// Whether a screen is another but for where its cursor is.
    pub open spec fn only_moved(self, before: ScreenModel<T>) -> bool {
        let g = before.active();
        let moved = GridModel { pos: self.active().pos, ..g };
        self == if before.modes.alternate_screen {
            ScreenModel { alternate_grid: moved, ..before }
        } else {
            ScreenModel { grid: moved, ..before }
        }
    }

    /// Whether a screen is another but for the rows of the grid in use.
    pub open spec fn only_redrawn(self, before: ScreenModel<T>) -> bool {
        let g = before.active();
        let redrawn = GridModel { rows: self.active().rows, ..g };
        &&& self.active().rows.len() == g.rows.len()
        &&& self == if before.modes.alternate_screen {
            ScreenModel { alternate_grid: redrawn, ..before }
        } else {
            ScreenModel { grid: redrawn, ..before }
        }
    }
}

/// One number.
pub open spec fn one(n: u16) -> Seq<Seq<u16>> {
    seq![seq![n]]
}

/// Two numbers.
pub open spec fn two(a: u16, b: u16) -> Seq<Seq<u16>> {
    seq![seq![a], seq![b]]
}

} // verus!
