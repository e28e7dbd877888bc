//! Tab stops.
use std::collections::BTreeSet;

use vstd::prelude::*;

verus! {

broadcast use {
    vstd::std_specs::btree::group_btree_axioms,
    vstd::laws_cmp::group_laws_cmp,
};

/// The distance of the tab stops a screen starts with.
pub const TAB_WIDTH: u16 = 8;

/// The tab stops of a new screen: every eighth column but the first.
pub open spec fn initial_tab_stops(cols: u16) -> Set<u16> {
    Set::new(|c: u16| 0 < c < cols && c % TAB_WIDTH == 0)
}

/// The tab stops of a new screen from column `from` on.
pub open spec fn new_tab_stops(from: u16, cols: u16) -> Set<u16> {
    initial_tab_stops(cols).filter(|c: u16| c >= from)
}

/// A set of columns.
pub struct TabStops {
    columns: BTreeSet<u16>,
}

impl View for TabStops {
    type V = Set<u16>;

    closed spec fn view(&self) -> Set<u16> {
        self.columns@
    }
}

impl TabStops {
    /// The tab stops of a new screen.
    pub fn new(cols: u16) -> (r: TabStops)
        ensures
            r@ == initial_tab_stops(cols),
    {
        let mut r = TabStops { columns: BTreeSet::new() };
        r.extend(0, cols);
        proof {
            assert(r@ =~= initial_tab_stops(cols));
        }
        r
    }

    /// Adds the tab stops of a new screen from column `from` on.
    pub fn extend(&mut self, from: u16, cols: u16)
        ensures
            final(self)@ == old(self)@.union(new_tab_stops(from, cols)),
    {
        let mut col: u16 = from;
        while col < cols
            invariant
                from <= col,
                forall|c: u16|
                    #![trigger self@.contains(c)]
                    self@.contains(c) <==> old(self)@.contains(c) || (from <= c < col && 0 < c
                        < cols && c % TAB_WIDTH == 0),
            decreases cols - col,
        {
            let ghost before = self@;
            if col > 0 && col % TAB_WIDTH == 0 {
                self.set(col);
            }
            proof {
                assert forall|c: u16| #[trigger] self@.contains(c) implies before.contains(c) || c
                    == col by {}
            }
            col = col + 1;
        }
        proof {
            assert(self@ =~= old(self)@.union(new_tab_stops(from, cols)));
        }
    }

    pub fn at(&self, col: u16) -> (r: bool)
        ensures
            r == self@.contains(col),
    {
        self.columns.contains(&col)
    }

    pub fn set(&mut self, col: u16)
        ensures
            final(self)@ == old(self)@.insert(col),
    {
        let _ = self.columns.insert(col);
    }

    pub fn remove(&mut self, col: u16)
        ensures
            final(self)@ == old(self)@.remove(col),
    {
        let _ = self.columns.remove(&col);
    }

    pub fn clear(&mut self)
        ensures
            final(self)@ == Set::<u16>::empty(),
    {
        self.columns.clear();
    }
}

} // verus!
