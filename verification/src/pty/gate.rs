//! When a frame is published: synchronized updates hold it, and a cursor that is hidden for a
//! moment only is shown on. Times are in milliseconds.
use vstd::prelude::*;

use crate::model::{Grid, GridModel};
use crate::vt::screen::Screen;

verus! {

/// The least time between two frames.
pub const MIN_FRAME: u64 = 33;

/// How long a hidden cursor is still shown.
pub const CURSOR_HIDE_GRACE: u64 = 150;

/// How long a synchronized update may hold a frame.
pub const MAX_HOLD: u64 = 1000;

/// The time from `since` to `now`.
pub open spec fn elapsed(since: u64, now: u64) -> int {
    if now < since {
        0
    } else {
        now - since
    }
}

/// The time from `since` to `now`.
pub fn time_since(since: u64, now: u64) -> (r: u64)
    ensures
        r == elapsed(since, now),
{
    now.saturating_sub(since)
}

/// Holds frames while the application is within a synchronized update. Updates are counted, so
/// that one which ended is noticed even where the next has begun.
#[derive(Clone, Copy, Debug, PartialEq, Eq, Structural)]
pub struct SyncGate {
    pub starts: u32,
    pub ends: u32,
    pub since: u64,
}

impl SyncGate {
    pub fn new(now: u64) -> (r: SyncGate)
        ensures
            r == (SyncGate { starts: 0, ends: 0, since: now }),
    {
        SyncGate { starts: 0, ends: 0, since: now }
    }

    /// What is known after a look at the screen's counts. What began after the look before this one
    /// has its own time.
    pub open spec fn looked(self, starts: u32, ends: u32, now: u64) -> SyncGate {
        SyncGate {
            starts,
            ends,
            since: if starts != self.starts {
                now
            } else {
                self.since
            },
        }
    }

    /// Whether the frame is to be held: an update is on, none ended since the last look, and its
    /// time is not over.
    pub open spec fn holds(
        self,
        starts: u32,
        ends: u32,
        updating: bool,
        now: u64,
        max_hold: u64,
    ) -> bool {
        updating && ends == self.ends && elapsed(self.looked(starts, ends, now).since, now)
            < max_hold
    }

    /// Whether the frame that is due is to be held. The answer uses up the end of an update, so it
    /// is asked for only where a frame is due.
    pub fn hold<T>(&mut self, screen: &Screen<T>, now: u64) -> (r: bool)
        ensures
            r == old(self).holds(
                screen@.sync_starts,
                screen@.sync_ends,
                screen@.modes.synchronized_update,
                now,
                MAX_HOLD,
            ),
            *final(self) == old(self).looked(screen@.sync_starts, screen@.sync_ends, now),
            ({
                let (starts, ends) = (screen@.sync_starts, screen@.sync_ends);
                let on = screen@.modes.synchronized_update && ends == old(self).ends;
                &&& !on ==> !r
                &&& on && starts != old(self).starts ==> r && final(self).since == now
                &&& on && starts == old(self).starts && old(self).since <= now ==> (r <==> now
                    - old(self).since < 1000) && final(self).since == old(self).since
                &&& final(self).starts == starts && final(self).ends == ends
            }),
    {
        self.hold_within(screen, now, MAX_HOLD)
    }

    /// As `hold`, with another time.
    pub fn hold_within<T>(&mut self, screen: &Screen<T>, now: u64, max_hold: u64) -> (r: bool)
        ensures
            r == old(self).holds(
                screen@.sync_starts,
                screen@.sync_ends,
                screen@.modes.synchronized_update,
                now,
                max_hold,
            ),
            *final(self) == old(self).looked(screen@.sync_starts, screen@.sync_ends, now),
            ({
                let (starts, ends) = (screen@.sync_starts, screen@.sync_ends);
                let on = screen@.modes.synchronized_update && ends == old(self).ends;
                &&& !on ==> !r
                &&& on && starts != old(self).starts ==> (r <==> max_hold > 0) && final(self).since == now
                &&& on && starts == old(self).starts && old(self).since <= now ==> (r <==> now
                    - old(self).since < max_hold) && final(self).since == old(self).since
                &&& final(self).starts == starts && final(self).ends == ends
            }),
    {
        let starts: u32 = screen.synchronized_update_starts();
        if starts != self.starts {
            self.starts = starts;
            self.since = now;
        }
        let ends: u32 = screen.synchronized_update_ends();
        let presented: bool = ends != self.ends;
        self.ends = ends;
        screen.synchronized_update() && !presented && time_since(self.since, now) < max_hold
    }
}

/// However the counts stand, once the time of an update is over its frame is no longer held.
pub proof fn hold_ends(gate: SyncGate, starts: u32, ends: u32, updating: bool, now: u64)
    requires
        starts == gate.starts,
        now >= gate.since + MAX_HOLD,
    ensures
        !gate.holds(starts, ends, updating, now, MAX_HOLD),
{
}

/// Between updates nothing is held, and neither is the frame of an update that ended.
pub proof fn no_update_no_hold(gate: SyncGate, starts: u32, ends: u32, updating: bool, now: u64)
    requires
        !updating || ends != gate.ends,
    ensures
        !gate.holds(starts, ends, updating, now, MAX_HOLD),
{
}

/// An update that has just begun is held, whenever that is, and for a second from then on while it
/// is open and none has ended; not longer.
pub proof fn new_updates_are_held(gate: SyncGate, starts: u32, now: u64, later: u64)
    requires
        starts != gate.starts,
        now <= later,
        now + 1000 <= u64::MAX,
    ensures
        gate.holds(starts, gate.ends, true, now, MAX_HOLD),
        later < now + 1000 <==> gate.looked(starts, gate.ends, now).holds(
            starts,
            gate.ends,
            true,
            later,
            MAX_HOLD,
        ),
{
}

/// A look remembers the counts, so that what it saw end is not taken for an end again, and an update
/// that goes on keeps the time that it began.
pub proof fn looks_are_remembered(gate: SyncGate, starts: u32, ends: u32, now: u64, later: u64)
    requires
        now <= later,
    ensures
        ({
            let seen = gate.looked(starts, ends, now);
            &&& seen.looked(starts, ends, later) == seen
            &&& starts != gate.starts ==> seen.since == now
            &&& starts == gate.starts ==> seen.since == gate.since
            &&& ends != gate.ends ==> !gate.holds(starts, ends, true, now, MAX_HOLD)
            &&& starts != gate.starts && later < now + 1000 ==> seen.holds(
                starts,
                ends,
                true,
                later,
                MAX_HOLD,
            )
        }),
{
}

/// Shows the cursor on while the application hides it for a moment only, as it does around each
/// redraw.
#[derive(Clone, Copy, Debug)]
pub struct CursorBridge {
    /// Where the cursor was last while it was visible.
    pub shown: Option<(u16, u16)>,
    /// Its style there.
    pub style: u8,
    /// Since when it is hidden.
    pub hidden_since: Option<u64>,
}

impl CursorBridge {
    pub fn new() -> (r: CursorBridge)
        ensures
            r == (CursorBridge { shown: None, style: 0, hidden_since: None }),
    {
        CursorBridge { shown: None, style: 0, hidden_since: None }
    }

    /// Since when the cursor is hidden, if it is so at `now`.
    pub open spec fn hidden_from(self, now: u64) -> u64 {
        match self.hidden_since {
            Some(t) => t,
            None => now,
        }
    }

    /// Whether a cursor that is hidden at `now` is shown on.
    pub open spec fn bridges(self, now: u64) -> bool {
        elapsed(self.hidden_from(now), now) < CURSOR_HIDE_GRACE
    }

    /// The bridge after it saw a screen.
    pub open spec fn seen(self, g: GridModel, now: u64) -> CursorBridge {
        match g.cursor {
            Some(pos) => CursorBridge {
                shown: Some(pos),
                style: g.cursor_style,
                hidden_since: None,
            },
            None => CursorBridge {
                shown: if self.bridges(now) {
                    self.shown
                } else {
                    None
                },
                hidden_since: Some(self.hidden_from(now)),
                ..self
            },
        }
    }

    /// The screen with the cursor that is shown on.
    pub open spec fn bridged(self, g: GridModel, now: u64) -> GridModel {
        if g.cursor is None && self.bridges(now) {
            GridModel { cursor: self.shown, cursor_style: self.style, ..g }
        } else {
            g
        }
    }

    /// Applies the bridge to a screen. Returns since when the cursor is hidden while it is still
    /// shown.
    pub fn apply(&mut self, grid: &mut Grid, now: u64) -> (r: Option<u64>)
        ensures
            *final(self) == old(self).seen(old(grid)@, now),
            final(grid)@ == old(self).bridged(old(grid)@, now),
            r == if old(grid)@.cursor is None && old(self).bridges(now) && old(self).shown is Some {
                Some(old(self).hidden_from(now))
            } else {
                None
            },
    {
        match grid.cursor {
            Some(pos) => {
                self.shown = Some(pos);
                self.style = grid.cursor_style;
                self.hidden_since = None;
                None
            },
            None => {
                let since: u64 = match self.hidden_since {
                    Some(t) => t,
                    None => now,
                };
                self.hidden_since = Some(since);
                if time_since(since, now) < CURSOR_HIDE_GRACE {
                    grid.cursor = self.shown;
                    grid.cursor_style = self.style;
                    if self.shown.is_some() {
                        Some(since)
                    } else {
                        None
                    }
                } else {
                    self.shown = None;
                    None
                }
            },
        }
    }

    /// When the hidden cursor must be published as hidden, if it is shown on.
    pub open spec fn expiry_wait(self, now: u64) -> Option<int> {
        match self.hidden_since {
            Some(t) => if self.shown is Some {
                Some(
                    if elapsed(t, now) < CURSOR_HIDE_GRACE {
                        CURSOR_HIDE_GRACE - elapsed(t, now)
                    } else {
                        0
                    },
                )
            } else {
                None
            },
            None => None,
        }
    }

    /// Whether a hidden cursor that is shown on must be published as hidden now.
    pub open spec fn hide_due(self, now: u64) -> bool {
        self.expiry_wait(now) == Some(0int)
    }
}

/// A cursor is never shown that was not there: where one is shown on, it was shown before.
pub proof fn no_cursor_is_invented(bridge: CursorBridge, g: GridModel, now: u64)
    requires
        bridge.shown is None,
    ensures
        bridge.bridged(g, now).cursor == g.cursor,
{
}

/// A cursor that stays hidden is shown as hidden once the grace is over, and stays so.
pub proof fn hidden_in_the_end(bridge: CursorBridge, g: GridModel, now: u64)
    requires
        g.cursor is None,
        bridge.hidden_since is Some,
        now >= bridge.hidden_since->Some_0 + CURSOR_HIDE_GRACE,
    ensures
        bridge.bridged(g, now).cursor is None,
        bridge.seen(g, now).shown is None,
{
}

/// A cursor that was seen and is then hidden is shown on, at its place and in its shape, for 150
/// milliseconds from when it was first seen hidden, and no longer.
pub proof fn blinks_are_bridged(bridge: CursorBridge, seen: GridModel, hidden: GridModel, at: u64, now: u64)
    requires
        seen.cursor is Some,
        hidden.cursor is None,
        at <= now,
        at + 150 <= u64::MAX,
    ensures
        ({
            let first = bridge.seen(seen, at);
            let then = first.seen(hidden, at);
            let shown = then.bridged(hidden, now);
            &&& first.bridged(hidden, at).cursor == seen.cursor
            &&& first.bridged(hidden, at).cursor_style == seen.cursor_style
            &&& now < at + 150 ==> shown.cursor == seen.cursor && shown.cursor_style
                == seen.cursor_style
            &&& now >= at + 150 ==> shown == hidden
            &&& shown.rows == hidden.rows && shown.title == hidden.title
            &&& now < at + 150 ==> then.expiry_wait(now) == Some(at + 150 - now)
            &&& now >= at + 150 ==> then.hide_due(now)
            &&& then.seen(hidden, now).hidden_since == Some(at)
            &&& now < at + 150 ==> then.seen(hidden, now) == then
        }),
{
}

/// A visible cursor is shown as it is, and nothing but the cursor is ever changed.
pub proof fn visible_cursors_are_shown(bridge: CursorBridge, g: GridModel, now: u64)
    ensures
        ({
            let shown = bridge.bridged(g, now);
            &&& g.cursor is Some ==> shown == g
            &&& shown == (GridModel {
                cursor: shown.cursor,
                cursor_style: shown.cursor_style,
                ..g
            })
            &&& g.cursor is Some ==> bridge.seen(g, now).hidden_since is None && bridge.seen(
                g,
                now,
            ).shown == g.cursor && bridge.seen(g, now).expiry_wait(now) is None
        }),
{
}

/// At most thirty frames are published in a second. Where the clock goes back no time has gone by.
pub proof fn thirty_frames_a_second(since: u64, now: u64)
    ensures
        30 * MIN_FRAME <= 1000 < 31 * MIN_FRAME,
        since <= now ==> elapsed(since, now) == now - since,
        since > now ==> elapsed(since, now) == 0,
{
}

} // verus!
