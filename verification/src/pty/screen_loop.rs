//! The owner of the local terminal: what each message does, when it next has to wake up, and
//! when it publishes a frame. Times are in milliseconds.
use vstd::prelude::*;
use vstd::utf8::encode_utf8;

use crate::diff::message::sizes_read_back;
use crate::model::{Frame, GridModel, ImageBlob};
use crate::pty::frame::{
    frame_from_with_defaults, frame_of, grid_of, no_bridge, repaint, repaint_bytes,
};
use crate::pty::gate::{
    elapsed, time_since, CursorBridge, SyncGate, CURSOR_HIDE_GRACE, MAX_HOLD, MIN_FRAME,
};
use crate::pty::images::{
    all_sized, shown_sizes_are_kept, footprint, new_image, new_zombies, next_id, placed_models, ready_model, stamp_image, stamped_screen,
    surviving, ImgCell, Placed, PlacedModel,
};
use crate::pty::probe::Caps;
use crate::vt::escape::{dec_mode, keypad, push_bytes, push_dec_mode, push_keypad};
use crate::vt::grid::Size;
use crate::vt::screen::{Screen, ScreenModel};

verus! {

/// What turns off every input mode that an application may have turned on.
pub open spec fn input_modes_off() -> Seq<u8> {
    keypad(false) + dec_mode(1, false) + dec_mode(2004, false) + dec_mode(1000, false) + dec_mode(
        1001,
        false,
    ) + dec_mode(1002, false) + dec_mode(1003, false) + dec_mode(1005, false) + dec_mode(
        1006,
        false,
    )
}

fn push_input_modes_off(out: &mut Vec<u8>)
    ensures
        final(out)@ == old(out)@ + input_modes_off(),
{
    let mut part: Vec<u8> = Vec::new();
    push_keypad(&mut part, false);
    proof {
        assert(part@ =~= keypad(false));
    }
    push_dec_mode(&mut part, 1, false);
    push_dec_mode(&mut part, 2004, false);
    push_dec_mode(&mut part, 1000, false);
    push_dec_mode(&mut part, 1001, false);
    push_dec_mode(&mut part, 1002, false);
    push_dec_mode(&mut part, 1003, false);
    push_dec_mode(&mut part, 1005, false);
    push_dec_mode(&mut part, 1006, false);
    push_bytes(out, part.as_slice());
}

/// Attributes off, cursor shown, screen empty.
pub open spec fn clean_slate() -> Seq<u8> {
    seq![
        0x1b,
        '[' as u8,
        '0' as u8,
        'm' as u8,
        0x1b,
        '[' as u8,
        '?' as u8,
        '2' as u8,
        '5' as u8,
        'h' as u8,
        0x1b,
        '[' as u8,
        '2' as u8,
        'J' as u8,
        0x1b,
        '[' as u8,
        'H' as u8,
    ]
}

/// The line that tells of an outage, in yellow.
pub open spec fn notice_line(msg: Seq<char>) -> Seq<u8> {
    seq![0x1b, '[' as u8, '3' as u8, '3' as u8, 'm' as u8] + encode_utf8("shellglass: "@)
        + encode_utf8(msg) + seq![0x1b, '[' as u8, '0' as u8, 'm' as u8, '\r' as u8, '\n' as u8]
}

/// What an outage does to the terminal: whatever state it was left in is cleared, the input
/// modes are turned off, and the notice is shown.
pub open spec fn outage_bytes(msg: Seq<char>) -> Seq<u8> {
    clean_slate() + input_modes_off() + notice_line(msg)
}

fn push_clean_slate(out: &mut Vec<u8>)
    ensures
        final(out)@ == old(out)@ + clean_slate(),
{
    out.push(0x1b);
    out.push('[' as u8);
    out.push('0' as u8);
    out.push('m' as u8);
    out.push(0x1b);
    out.push('[' as u8);
    out.push('?' as u8);
    out.push('2' as u8);
    out.push('5' as u8);
    out.push('h' as u8);
    out.push(0x1b);
    out.push('[' as u8);
    out.push('2' as u8);
    out.push('J' as u8);
    out.push(0x1b);
    out.push('[' as u8);
    out.push('H' as u8);
    proof {
        assert(out@ =~= old(out)@ + clean_slate());
    }
}

fn push_notice_line(out: &mut Vec<u8>, msg: &str)
    ensures
        final(out)@ == old(out)@ + notice_line(msg@),
{
    out.push(0x1b);
    out.push('[' as u8);
    out.push('3' as u8);
    out.push('3' as u8);
    out.push('m' as u8);
    push_bytes(out, "shellglass: ".as_bytes());
    push_bytes(out, msg.as_bytes());
    out.push(0x1b);
    out.push('[' as u8);
    out.push('0' as u8);
    out.push('m' as u8);
    out.push('\r' as u8);
    out.push('\n' as u8);
    proof {
        assert(out@ =~= old(out)@ + notice_line(msg@));
    }
}

/// What the owner of the terminal holds, mathematically.
pub struct LoopModel {
    pub screen: ScreenModel<ImgCell>,
    /// The session's output goes on to the local terminal.
    pub connected: bool,
    /// Something changed since the last frame.
    pub dirty: bool,
    pub last_frame: u64,
    pub sync: SyncGate,
    pub bridge: CursorBridge,
    pub images: Seq<PlacedModel>,
    pub zombies: Seq<PlacedModel>,
    pub image_seq: u32,
    pub caps: Caps,
    pub cell: (u16, u16),
}

impl LoopModel {
    pub open spec fn wf(self) -> bool {
        self.screen.wf() && self.cell.0 > 0 && self.cell.1 > 0
    }

    pub open spec fn fresh(rows: u16, cols: u16, cell: (u16, u16), caps: Caps, now: u64) -> LoopModel {
        LoopModel {
            screen: ScreenModel::fresh(Size { rows, cols }, 0),
            connected: true,
            dirty: false,
            last_frame: now,
            sync: SyncGate { starts: 0, ends: 0, since: now },
            bridge: no_bridge(),
            images: Seq::empty(),
            zombies: Seq::empty(),
            image_seq: 1,
            caps,
            cell,
        }
    }

    /// Whether all images are in sizes that are read back from their texts as they are.
    pub open spec fn sized(self) -> bool {
        all_sized(self.images) && all_sized(self.zombies)
    }

    /// How long until the next frame may be published, where something changed.
    pub open spec fn frame_wait(self, now: u64) -> Option<int> {
        if self.dirty {
            Some(
                if elapsed(self.last_frame, now) < MIN_FRAME {
                    MIN_FRAME - elapsed(self.last_frame, now)
                } else {
                    0
                },
            )
        } else {
            None
        }
    }

    /// How long to wait for a message: until a frame may be published, or a hidden cursor must be
    /// published as hidden, whichever comes first. `None` is as long as it takes.
    pub open spec fn wait(self, now: u64) -> Option<int> {
        match (self.frame_wait(now), self.bridge.expiry_wait(now)) {
            (Some(a), Some(b)) => Some(
                if a < b {
                    a
                } else {
                    b
                },
            ),
            (Some(a), None) => Some(a),
            (None, b) => b,
        }
    }

    /// Whether a frame is due, but for synchronized updates.
    pub open spec fn frame_due(self, now: u64) -> bool {
        (self.dirty || self.bridge.hide_due(now)) && elapsed(self.last_frame, now) >= MIN_FRAME
    }

    /// Whether a synchronized update holds the frame.
    pub open spec fn held(self, now: u64) -> bool {
        self.sync.holds(
            self.screen.sync_starts,
            self.screen.sync_ends,
            self.screen.modes.synchronized_update,
            now,
            MAX_HOLD,
        )
    }

    /// The sync gate after it was asked.
    pub open spec fn sync_looked(self, now: u64) -> SyncGate {
        self.sync.looked(self.screen.sync_starts, self.screen.sync_ends, now)
    }

    /// The frame that is published.
    pub open spec fn frame(self, now: u64) -> GridModel {
        frame_of(self.screen, self.images, self.zombies, self.bridge, self.caps, now)
    }

    /// The state after a frame was published.
    pub open spec fn published(self, now: u64) -> LoopModel {
        LoopModel {
            dirty: false,
            last_frame: now,
            sync: self.sync_looked(now),
            bridge: self.bridge.seen(grid_of(self.screen), now),
            images: surviving(self.images, self.screen.active(), self.images.len() as int),
            zombies: new_zombies(self.images, self.zombies, self.screen.active()),
            ..self
        }
    }
}

/// Where an id stands among images first, or their number.
pub open spec fn index_of_id(images: Seq<PlacedModel>, id: u32, i: int) -> int
    decreases images.len() - i,
{
    if i >= images.len() || images[i].id == id {
        i
    } else {
        index_of_id(images, id, i + 1)
    }
}

/// The owner of the local terminal.
pub struct ScreenLoop {
    screen: Screen<ImgCell>,
    connected: bool,
    dirty: bool,
    last_frame: u64,
    sync: SyncGate,
    bridge: CursorBridge,
    images: Vec<Placed>,
    zombies: Vec<Placed>,
    image_seq: u32,
    caps: Caps,
    cell: (u16, u16),
}

impl View for ScreenLoop {
    type V = LoopModel;

    closed spec fn view(&self) -> LoopModel {
        LoopModel {
            screen: self.screen@,
            connected: self.connected,
            dirty: self.dirty,
            last_frame: self.last_frame,
            sync: self.sync,
            bridge: self.bridge,
            images: placed_models(self.images@),
            zombies: placed_models(self.zombies@),
            image_seq: self.image_seq,
            caps: self.caps,
            cell: self.cell,
        }
    }
}

impl ScreenLoop {
    pub fn new(rows: u16, cols: u16, cell: (u16, u16), caps: Caps, now: u64) -> (r: ScreenLoop)
        requires
            rows > 0,
            cols > 0,
            cell.0 > 0,
            cell.1 > 0,
        ensures
            r@ == LoopModel::fresh(rows, cols, cell, caps, now),
            r@.wf(),
            r@.sized(),
    {
        let r = ScreenLoop {
            screen: Screen::new(Size { rows, cols }, 0),
            connected: true,
            dirty: false,
            last_frame: now,
            sync: SyncGate::new(now),
            bridge: CursorBridge::new(),
            images: Vec::new(),
            zombies: Vec::new(),
            image_seq: 1,
            caps,
            cell,
        };
        proof {
            assert(r@.images =~= Seq::empty());
            assert(r@.zombies =~= Seq::empty());
        }
        r
    }

    /// Whether the session's output goes on to the local terminal.
    pub fn connected(&self) -> (r: bool)
        ensures
            r == self@.connected,
    {
        self.connected
    }

    /// The screen, for control functions to act on.
    pub fn screen_mut(&mut self) -> (r: &mut Screen<ImgCell>)
        ensures
            (*r)@ == old(self)@.screen,
            final(self)@ == (LoopModel { screen: (*final(r))@, ..old(self)@ }),
    {
        &mut self.screen
    }

    pub fn screen(&self) -> (r: &Screen<ImgCell>)
        ensures
            r@ == self@.screen,
    {
        &self.screen
    }

    /// How long to wait for a message.
    pub fn wait(&self, now: u64) -> (r: Option<u64>)
        ensures
            r is Some <==> self@.wait(now) is Some,
            r is Some ==> self@.wait(now) == Some(r->Some_0 as int),
    {
        let frame: Option<u64> = if self.dirty {
            Some(MIN_FRAME.saturating_sub(time_since(self.last_frame, now)))
        } else {
            None
        };
        let hide: Option<u64> = match (self.bridge.hidden_since, self.bridge.shown) {
            (Some(t), Some(_)) => Some(CURSOR_HIDE_GRACE.saturating_sub(time_since(t, now))),
            _ => None,
        };
        match (frame, hide) {
            (Some(a), Some(b)) => Some(
                if a < b {
                    a
                } else {
                    b
                },
            ),
            (Some(a), None) => Some(a),
            (None, b) => b,
        }
    }

    /// Output of the session was drawn on the screen.
    pub fn on_data(&mut self)
        ensures
            final(self)@ == (LoopModel { dirty: true, ..old(self)@ }),
    {
        self.dirty = true;
    }

    /// An image came in the session's output. Returns its id.
    pub fn on_image(
        &mut self,
        cells: Option<(u16, u16)>,
        px: Option<(u32, u32)>,
        ready: Option<(String, ImageBlob)>,
    ) -> (id: u32)
        requires
            old(self)@.wf(),
        ensures
            id == old(self)@.image_seq,
            final(self)@.wf(),
            final(self)@ == (LoopModel {
                screen: stamped_screen(
                    old(self)@.screen,
                    id,
                    footprint(old(self)@.cell, cells, px).0,
                    footprint(old(self)@.cell, cells, px).1,
                ),
                images: old(self)@.images.push(
                    new_image(
                        old(self)@.screen,
                        id,
                        old(self)@.cell,
                        cells,
                        px,
                        ready_model(ready),
                    ),
                ),
                image_seq: next_id(id),
                ..old(self)@
            }),
            old(self)@.sized() ==> final(self)@.sized(),
    {
        let cell = self.cell;
        stamp_image(
            &mut self.screen,
            &mut self.images,
            &mut self.image_seq,
            cell,
            cells,
            px,
            ready,
        )
    }

    /// The payload of an image is there. Returns whether the image still is, too.
    pub fn on_image_ready(&mut self, id: u32, hash: String, blob: ImageBlob) -> (found: bool)
        ensures
            found == (index_of_id(old(self)@.images, id, 0) < old(self)@.images.len()),
            !found ==> final(self)@ == old(self)@,
            found ==> final(self)@ == (LoopModel {
                dirty: true,
                images: old(self)@.images.update(
                    index_of_id(old(self)@.images, id, 0),
                    PlacedModel {
                        ready: Some((hash@, blob@)),
                        ..old(self)@.images[index_of_id(old(self)@.images, id, 0)]
                    },
                ),
                ..old(self)@
            }),
            old(self)@.sized() ==> final(self)@.sized(),
    {
        let ghost m = self@.images;
        let n: usize = self.images.len();
        let mut i: usize = 0;
        while i < n && self.images[i].id != id
            invariant
                *self == *old(self),
                m == self@.images,
                n == m.len(),
                i <= n,
                index_of_id(m, id, 0) == index_of_id(m, id, i as int),
            decreases n - i,
        {
            proof {
                assert(m[i as int].id == self.images@[i as int].id);
            }
            i = i + 1;
        }
        if i >= n {
            return false;
        }
        proof {
            assert(m[i as int].id == self.images@[i as int].id);
        }
        let ghost model = PlacedModel { ready: Some((hash@, blob@)), ..m[i as int] };
        let mut p = self.images[i].clone();
        p.ready = Some((hash, blob));
        self.images[i] = p;
        self.dirty = true;
        proof {
            assert(self@.images =~= m.update(i as int, model));
        }
        true
    }

    /// The terminal has another size.
    pub fn on_resize(&mut self, rows: u16, cols: u16)
        requires
            old(self)@.wf(),
            rows > 0,
            cols > 0,
        ensures
            final(self)@ == (LoopModel {
                screen: old(self)@.screen.resized(Size { rows, cols }),
                dirty: true,
                ..old(self)@
            }),
            final(self)@.wf(),
    {
        self.screen.set_size(rows, cols);
        self.dirty = true;
    }

    /// The hub is gone. Returns what the terminal is to show, once it is out of raw mode. A
    /// notice of an outage that was told already is ignored.
    pub fn on_hub_down(&mut self, msg: &str) -> (r: Option<Vec<u8>>)
        ensures
            r is Some <==> old(self)@.connected,
            r is Some ==> (r->Some_0)@ == outage_bytes(msg@),
            final(self)@ == (LoopModel { connected: false, ..old(self)@ }),
    {
        if !self.connected {
            return None;
        }
        self.connected = false;
        let mut out: Vec<u8> = Vec::new();
        push_clean_slate(&mut out);
        push_input_modes_off(&mut out);
        push_notice_line(&mut out, msg);
        proof {
            assert(out@ =~= outage_bytes(msg@));
        }
        Some(out)
    }

    /// The hub is back. Returns what the terminal is to show, once it is in raw mode: the screen
    /// as it is by now, with its input modes.
    pub fn on_hub_up(&mut self) -> (r: Option<Vec<u8>>)
        requires
            old(self)@.wf(),
        ensures
            r is Some <==> !old(self)@.connected,
            r is Some ==> (r->Some_0)@ == repaint_bytes(old(self)@.screen),
            final(self)@ == (LoopModel {
                connected: true,
                dirty: old(self)@.dirty || !old(self)@.connected,
                ..old(self)@
            }),
    {
        if self.connected {
            return None;
        }
        self.connected = true;
        self.dirty = true;
        Some(repaint(&self.screen))
    }

    /// After each message or wait: publishes a frame if one is due and no synchronized update
    /// holds it.
    pub fn tick(&mut self, now: u64) -> (r: Option<Frame>)
        requires
            old(self)@.wf(),
        ensures
            r is Some <==> old(self)@.frame_due(now) && !old(self)@.held(now),
            r is Some ==> {
                &&& (r->Some_0)@ == old(self)@.frame(now)
                &&& final(self)@ == old(self)@.published(now)
            },
            r is None ==> final(self)@ == (LoopModel {
                sync: if old(self)@.frame_due(now) {
                    old(self)@.sync_looked(now)
                } else {
                    old(self)@.sync
                },
                ..old(self)@
            }),
            final(self)@.wf(),
            old(self)@.sized() ==> final(self)@.sized() && (r is Some ==> sizes_read_back(
                (r->Some_0)@.images,
            )),
    {
        proof {
            if self@.sized() {
                shown_sizes_are_kept(self@.images, self@.zombies, self@.screen.active());
            }
        }
        let hide_due: bool = match (self.bridge.hidden_since, self.bridge.shown) {
            (Some(t), Some(_)) => time_since(t, now) >= CURSOR_HIDE_GRACE,
            _ => false,
        };
        if !(self.dirty || hide_due) || time_since(self.last_frame, now) < MIN_FRAME {
            return None;
        }
        if self.sync.hold(&self.screen, now) {
            return None;
        }
        let caps = self.caps;
        let frame = frame_from_with_defaults(
            &self.screen,
            &mut self.images,
            &mut self.zombies,
            &mut self.bridge,
            caps,
            now,
        );
        self.dirty = false;
        self.last_frame = now;
        Some(frame)
    }
}

// Laws.

/// Between two frames there is at least the least time: right after a frame none is due.
pub proof fn frames_are_apart(s: LoopModel, published_at: u64, now: u64)
    requires
        published_at <= now < published_at + MIN_FRAME,
    ensures
        !s.published(published_at).frame_due(now),
{
}

/// A change is published within the time of a synchronized update: once that is over, and the
/// least time since the last frame too, nothing holds the frame any more.
pub proof fn changes_are_published(s: LoopModel, now: u64)
    requires
        s.dirty,
        now >= s.last_frame + MIN_FRAME,
        s.screen.sync_starts == s.sync.starts,
        now >= s.sync.since + MAX_HOLD,
    ensures
        s.frame_due(now) && !s.held(now),
{
}

/// Where nothing is left to publish there is no need to wake up.
pub proof fn idle_means_idle(s: LoopModel, now: u64)
    requires
        !s.dirty,
        s.bridge.hidden_since is None || s.bridge.shown is None,
    ensures
        s.wait(now) is None,
        !s.frame_due(now),
{
}

/// After the wait that it asked for, and no message, what the owner waited for is due.
pub proof fn waits_long_enough(s: LoopModel, now: u64, later: u64)
    requires
        s.wait(now) is Some,
        now <= later,
        later == now + s.wait(now)->Some_0,
        now >= s.last_frame,
        s.bridge.hidden_since is Some ==> now >= s.bridge.hidden_since->Some_0,
    ensures
        s.frame_wait(later) == Some(0int) || s.bridge.hide_due(later),
{
}

/// Nothing that is waited for is slept through: a change wakes the owner when the last frame is 33
/// milliseconds old, a hidden cursor when it was hidden for 150, and what is late already does so at
/// once.
pub proof fn wakes_in_time(s: LoopModel, now: u64)
    requires
        s.last_frame <= now,
        s.bridge.hidden_since is Some ==> s.bridge.hidden_since->Some_0 <= now,
    ensures
        s.dirty ==> s.wait(now) is Some,
        s.dirty && now <= s.last_frame + 33 ==> now + s.wait(now)->Some_0 <= s.last_frame + 33,
        s.dirty && now > s.last_frame + 33 ==> s.wait(now) == Some(0int),
        s.bridge.hidden_since is Some && s.bridge.shown is Some ==> {
            let hidden = s.bridge.hidden_since->Some_0;
            &&& s.wait(now) is Some
            &&& now <= hidden + 150 ==> now + s.wait(now)->Some_0 <= hidden + 150
            &&& now > hidden + 150 ==> s.wait(now) == Some(0int)
        },
{
}

/// A frame is due when something changed, or a cursor was hidden long enough, and the last frame is
/// 33 milliseconds old.
pub proof fn due_frames(s: LoopModel, now: u64)
    requires
        s.last_frame <= now,
    ensures
        s.frame_due(now) ==> now >= s.last_frame + 33,
        s.dirty && now >= s.last_frame + 33 ==> s.frame_due(now),
        s.bridge.hidden_since is Some && s.bridge.shown is Some && now
            >= s.bridge.hidden_since->Some_0 + 150 && now >= s.last_frame + 33 ==> s.frame_due(now),
        !s.dirty && (s.bridge.hidden_since is None || s.bridge.shown is None) ==> !s.frame_due(now),
        !s.dirty && s.bridge.hidden_since is Some && s.bridge.hidden_since->Some_0 <= now
            < s.bridge.hidden_since->Some_0 + 150 ==> !s.frame_due(now),
{
}

/// To publish a frame changes nothing of the session: its screen, its images' numbers and what the
/// terminal can do stay. The frame is the newest there is, and all changes are in it.
pub proof fn frames_change_no_screen(s: LoopModel, now: u64)
    ensures
        ({
            let t = s.published(now);
            &&& t.screen == s.screen && t.connected == s.connected && t.image_seq == s.image_seq
            &&& t.caps == s.caps && t.cell == s.cell
            &&& !t.dirty && t.last_frame == now
            &&& t.sync.starts == s.screen.sync_starts && t.sync.ends == s.screen.sync_ends
        }),
{
}

/// A new owner has an empty screen of the terminal's size and publishes nothing before something is
/// drawn.
pub proof fn owners_start_idle(
    rows: u16,
    cols: u16,
    cell: (u16, u16),
    caps: Caps,
    now: u64,
    later: u64,
)
    ensures
        ({
            let s = LoopModel::fresh(rows, cols, cell, caps, now);
            &&& s.screen.active().size.rows == rows && s.screen.active().size.cols == cols
            &&& s.connected && s.cell == cell && s.caps == caps && s.image_seq == 1
            &&& s.images.len() == 0 && s.zombies.len() == 0
            &&& s.wait(later) is None && !s.frame_due(later)
        }),
{
}

/// A payload goes to the first image that waits under its number.
pub proof fn payloads_find_their_image(images: Seq<PlacedModel>, id: u32, i: int, j: int)
    requires
        0 <= i <= j <= images.len(),
    ensures
        ({
            let k = index_of_id(images, id, i);
            &&& i <= k <= images.len()
            &&& k < images.len() ==> images[k].id == id
            &&& j < k ==> images[j].id != id
        }),
    decreases images.len() - i,
{
    if i < images.len() && images[i].id != id {
        if i < j {
            payloads_find_their_image(images, id, i + 1, j);
        } else {
            payloads_find_their_image(images, id, i + 1, i + 1);
        }
    }
}

/// A frame that is published settles what the next is to do with a hidden cursor: one that was
/// visible is not waited for, one that was just hidden is from then on.
pub proof fn frames_take_note_of_the_cursor(s: LoopModel, now: u64)
    ensures
        ({
            let t = s.published(now);
            &&& !s.screen.modes.hide_cursor ==> t.bridge.hidden_since is None && t.bridge.shown
                == grid_of(s.screen).cursor
            &&& s.screen.modes.hide_cursor && s.bridge.hidden_since is None
                ==> t.bridge.hidden_since == Some(now)
            &&& s.screen.modes.hide_cursor && s.bridge.hidden_since is Some
                ==> t.bridge.hidden_since == s.bridge.hidden_since
            &&& t.images.len() <= s.images.len()
        }),
{
    survivors_are_fewer(s.images, s.screen.active(), s.images.len() as int);
}

proof fn survivors_are_fewer(images: Seq<PlacedModel>, g: crate::vt::grid::GridModel<ImgCell>, k: int)
    requires
        0 <= k <= images.len(),
    ensures
        surviving(images, g, k).len() <= k,
    decreases k,
{
    if k > 0 {
        survivors_are_fewer(images, g, k - 1);
    }
}

} // verus!
