//! A session that can be detached: the frames between its owner and the terminal that is
//! attached, and the rule that there is one such terminal at a time.
use vstd::prelude::*;
use vstd::string::{StrSliceExecFns, StringExecFns};

use crate::model::Frame;
use crate::pty::frame::{
    frame_of, grid_of, no_caps, repaint_bytes, HeadlessModel, HeadlessScreen,
};
use crate::pty::gate::{elapsed, time_since, MIN_FRAME};
use crate::pty::images::{new_zombies, surviving, ImgCell};
use crate::vt::grid::Size;
use crate::vt::screen::Screen;

verus! {

/// The key that detaches: Ctrl-\.
pub const DETACH_KEY: u8 = 0x1c;

/// From the terminal to the owner: input.
pub const C_INPUT: u8 = 0;

/// The size of the terminal: columns and rows.
pub const C_RESIZE: u8 = 1;

/// The user detached.
pub const C_DETACH: u8 = 2;

/// The first frame: whether to take over from another terminal.
pub const C_HELLO: u8 = 3;

/// From the owner to the terminal: output.
pub const S_DATA: u8 = 0;

/// The terminal is attached.
pub const S_ACCEPTED: u8 = 1;

/// The terminal is not attached; the payload says why.
pub const S_REJECTED: u8 = 2;

/// Another terminal took over.
pub const S_KICKED: u8 = 3;

/// The number of bytes before the payload: the tag and the length.
pub const HEADER_LEN: usize = 5;

// Frames.

/// A number as four bytes, the highest first.
pub open spec fn be_bytes(n: u32) -> Seq<u8> {
    seq![
        (n / 0x1000000) as u8,
        (n / 0x10000 % 0x100) as u8,
        (n / 0x100 % 0x100) as u8,
        (n % 0x100) as u8,
    ]
}

/// The number that four bytes stand for.
pub open spec fn be_value(a: u8, b: u8, c: u8, d: u8) -> int {
    a * 0x1000000 + b * 0x10000 + c * 0x100 + d
}

/// A frame: tag, length and payload. The length is kept to 32 bits.
pub open spec fn frame_bytes(tag: u8, payload: Seq<u8>) -> Seq<u8> {
    seq![tag] + be_bytes((payload.len() % 0x1_0000_0000) as u32) + payload
}

/// The frame that bytes begin with: its tag and payload. `None` while it is not there in whole.
pub open spec fn first_frame(bytes: Seq<u8>) -> Option<(u8, Seq<u8>)> {
    if bytes.len() < HEADER_LEN {
        None
    } else {
        let n = be_value(bytes[1], bytes[2], bytes[3], bytes[4]);
        if bytes.len() < HEADER_LEN + n {
            None
        } else {
            Some((bytes[0], bytes.subrange(HEADER_LEN as int, HEADER_LEN + n)))
        }
    }
}

/// Writes a frame.
pub fn write_frame(tag: u8, payload: &[u8]) -> (r: Vec<u8>)
    ensures
        r@ == frame_bytes(tag, payload@),
{
    let len: u32 = low_bits(payload.len() as u64);
    let mut r: Vec<u8> = Vec::new();
    r.push(tag);
    r.push((len / 0x1000000) as u8);
    r.push((len / 0x10000 % 0x100) as u8);
    r.push((len / 0x100 % 0x100) as u8);
    r.push((len % 0x100) as u8);
    proof {
        assert(r@ =~= seq![tag] + be_bytes(len));
    }
    crate::vt::escape::push_bytes(&mut r, payload);
    r
}

fn low_bits(n: u64) -> (r: u32)
    ensures
        r == n % 0x1_0000_0000,
{
    (n % 0x1_0000_0000) as u32
}

/// The length of the payload that a header announces.
pub fn payload_len(header: &[u8]) -> (r: u32)
    requires
        header@.len() == HEADER_LEN,
    ensures
        r == be_value(header@[1], header@[2], header@[3], header@[4]),
{
    let a: u32 = header[1] as u32;
    let b: u32 = header[2] as u32;
    let c: u32 = header[3] as u32;
    let d: u32 = header[4] as u32;
    a * 0x1000000 + b * 0x10000 + c * 0x100 + d
}

/// Reads the frame that bytes begin with. Returns its tag, its payload and how long it is.
pub fn read_frame(bytes: &[u8]) -> (r: Option<(u8, Vec<u8>, usize)>)
    ensures
        r is Some <==> first_frame(bytes@) is Some,
        r is Some ==> first_frame(bytes@) == Some(((r->Some_0).0, (r->Some_0).1@)),
        r is Some ==> (r->Some_0).2 == HEADER_LEN + (r->Some_0).1@.len(),
{
    if bytes.len() < HEADER_LEN {
        return None;
    }
    let a: u32 = bytes[1] as u32;
    let b: u32 = bytes[2] as u32;
    let c: u32 = bytes[3] as u32;
    let d: u32 = bytes[4] as u32;
    let n: u32 = a * 0x1000000 + b * 0x10000 + c * 0x100 + d;
    let room: usize = bytes.len() - HEADER_LEN;
    if (room as u64) < n as u64 {
        return None;
    }
    let end: usize = HEADER_LEN + n as usize;
    let mut payload: Vec<u8> = Vec::new();
    for i in HEADER_LEN..end
        invariant
            end <= bytes@.len(),
            payload@ =~= bytes@.subrange(HEADER_LEN as int, i as int),
    {
        payload.push(bytes[i]);
    }
    Some((bytes[0], payload, end))
}

proof fn length_is_read(n: u32)
    ensures
        be_value(
            (n / 0x1000000) as u8,
            (n / 0x10000 % 0x100) as u8,
            (n / 0x100 % 0x100) as u8,
            (n % 0x100) as u8,
        ) == n,
{
    assert(n / 0x1000000 < 0x100);
    assert(n / 0x10000 == n / 0x1000000 * 0x100 + n / 0x10000 % 0x100);
    assert(n / 0x100 == n / 0x10000 * 0x100 + n / 0x100 % 0x100);
    assert(n == n / 0x100 * 0x100 + n % 0x100);
}

/// A frame is read as it was written, whatever follows it.
pub proof fn frame_round_trip(tag: u8, payload: Seq<u8>, rest: Seq<u8>)
    requires
        payload.len() <= u32::MAX,
    ensures
        first_frame(frame_bytes(tag, payload) + rest) == Some((tag, payload)),
        (frame_bytes(tag, payload) + rest).skip(HEADER_LEN + payload.len()) == rest,
{
    let n = payload.len() as u32;
    let bytes = frame_bytes(tag, payload) + rest;
    let (a, b, c, d) = (
        (n / 0x1000000) as u8,
        (n / 0x10000 % 0x100) as u8,
        (n / 0x100 % 0x100) as u8,
        (n % 0x100) as u8,
    );
    length_is_read(n);
    let head = seq![tag, a, b, c, d];
    assert(be_bytes(n) =~= seq![a, b, c, d]);
    assert(frame_bytes(tag, payload) =~= head + payload);
    assert(bytes =~= head + (payload + rest));
    assert(bytes[0] == tag && bytes[1] == a && bytes[2] == b && bytes[3] == c && bytes[4] == d);
    assert(bytes.subrange(HEADER_LEN as int, HEADER_LEN + payload.len()) =~= payload);
    assert(bytes.skip(HEADER_LEN + payload.len()) =~= rest);
}

/// The size of a terminal as a payload.
pub open spec fn size_bytes(cols: u16, rows: u16) -> Seq<u8> {
    seq![
        (cols / 0x100) as u8,
        (cols % 0x100) as u8,
        (rows / 0x100) as u8,
        (rows % 0x100) as u8,
    ]
}

/// The size that a payload stands for: columns and rows.
pub open spec fn payload_size(p: Seq<u8>) -> Option<(u16, u16)> {
    if p.len() == 4 {
        Some(((p[0] * 0x100 + p[1]) as u16, (p[2] * 0x100 + p[3]) as u16))
    } else {
        None
    }
}

/// Writes the frame that tells the size of the terminal.
pub fn resize_frame(cols: u16, rows: u16) -> (r: Vec<u8>)
    ensures
        r@ == frame_bytes(C_RESIZE, size_bytes(cols, rows)),
{
    let mut p: Vec<u8> = Vec::new();
    p.push((cols / 0x100) as u8);
    p.push((cols % 0x100) as u8);
    p.push((rows / 0x100) as u8);
    p.push((rows % 0x100) as u8);
    proof {
        assert(p@ =~= size_bytes(cols, rows));
    }
    write_frame(C_RESIZE, p.as_slice())
}

fn read_size(p: &[u8]) -> (r: Option<(u16, u16)>)
    ensures
        r == payload_size(p@),
{
    if p.len() == 4 {
        let (a, b): (u16, u16) = (p[0] as u16, p[1] as u16);
        let (c, d): (u16, u16) = (p[2] as u16, p[3] as u16);
        Some((a * 0x100 + b, c * 0x100 + d))
    } else {
        None
    }
}

/// A size is read as it was written.
pub proof fn size_round_trip(cols: u16, rows: u16)
    ensures
        payload_size(size_bytes(cols, rows)) == Some((cols, rows)),
{
    let p = size_bytes(cols, rows);
    assert(p[0] * 0x100 + p[1] == cols);
    assert(p[2] * 0x100 + p[3] == rows);
}

// What the owner makes of a terminal's frames.

/// Whether the first frame asks to take over. One that is no hello does not.
pub fn hello_force(tag: u8, payload: &[u8]) -> (r: bool)
    ensures
        r == (tag == C_HELLO && payload@.len() > 0 && payload@[0] != 0),
{
    tag == C_HELLO && payload.len() > 0 && payload[0] != 0
}

/// The size that the second frame tells: columns and rows, 80 and 24 where it tells none.
pub fn initial_size(tag: u8, payload: &[u8]) -> (r: (u16, u16))
    ensures
        r == if tag == C_RESIZE && payload_size(payload@) is Some {
            payload_size(payload@)->Some_0
        } else {
            (80u16, 24u16)
        },
{
    if tag == C_RESIZE {
        if let Some(size) = read_size(payload) {
            return size;
        }
    }
    (80, 24)
}

/// What a frame of the attached terminal asks for.
#[derive(Clone, Copy, Debug, PartialEq, Eq, Structural)]
pub enum ClientEvent {
    /// Its payload goes to the session.
    Input,
    /// The session gets a new size.
    Resize { rows: u16, cols: u16 },
    /// The terminal goes.
    Detach,
    /// Nothing.
    Ignore,
}

/// What a frame of the attached terminal asks for.
pub fn client_event(tag: u8, payload: &[u8]) -> (r: ClientEvent)
    ensures
        r == if tag == C_INPUT {
            ClientEvent::Input
        } else if tag == C_RESIZE && payload_size(payload@) is Some {
            ClientEvent::Resize {
                rows: payload_size(payload@)->Some_0.1,
                cols: payload_size(payload@)->Some_0.0,
            }
        } else if tag == C_DETACH {
            ClientEvent::Detach
        } else {
            ClientEvent::Ignore
        },
{
    if tag == C_INPUT {
        return ClientEvent::Input;
    }
    if tag == C_RESIZE {
        if let Some((cols, rows)) = read_size(payload) {
            return ClientEvent::Resize { rows, cols };
        }
    }
    if tag == C_DETACH {
        return ClientEvent::Detach;
    }
    ClientEvent::Ignore
}

// What the owner does with a connection.

/// How far a connection has come.
#[derive(Clone, Copy, Debug, PartialEq, Eq, Structural)]
pub enum ClientState {
    /// Nothing came yet.
    New,
    /// It said whether it takes over.
    Greeted { force: bool },
    /// It waits for the answer, with the size of its terminal.
    Asking { cols: u16, rows: u16 },
    /// It is attached.
    Attached,
    /// It is over.
    Gone,
}

/// What the owner does.
#[derive(Clone, Copy, Debug, PartialEq, Eq, Structural)]
pub enum ClientAction {
    /// Nothing.
    Wait,
    /// Asks whether the terminal may be attached.
    Ask { force: bool, cols: u16, rows: u16 },
    /// Hands the payload of the frame to the session.
    Input,
    /// Gives the session the size of the terminal.
    Resize { rows: u16, cols: u16 },
    /// Lets the terminal go that was attached.
    Detach,
    /// Closes the connection.
    Close,
}

/// The size that a connection begins with: columns and rows, 80 by 24 where none is told.
pub open spec fn first_size(tag: u8, payload: Seq<u8>) -> (u16, u16) {
    match payload_size(payload) {
        Some(size) => if tag == C_RESIZE {
            size
        } else {
            (80, 24)
        },
        None => (80, 24),
    }
}

impl ClientState {
    /// What follows a frame. The size of the terminal is the session's only once it is attached.
    pub open spec fn after_frame(self, tag: u8, payload: Seq<u8>) -> (ClientState, ClientAction) {
        match self {
            ClientState::New => (
                ClientState::Greeted {
                    force: tag == C_HELLO && payload.len() > 0 && payload[0] != 0,
                },
                ClientAction::Wait,
            ),
            ClientState::Greeted { force } => {
                let (cols, rows) = first_size(tag, payload);
                (ClientState::Asking { cols, rows }, ClientAction::Ask { force, cols, rows })
            },
            ClientState::Attached => if tag == C_INPUT {
                (self, ClientAction::Input)
            } else if tag == C_DETACH {
                (ClientState::Gone, ClientAction::Detach)
            } else if tag == C_RESIZE && payload_size(payload) is Some {
                let (cols, rows) = payload_size(payload)->Some_0;
                (self, ClientAction::Resize { rows, cols })
            } else {
                (self, ClientAction::Wait)
            },
            _ => (self, ClientAction::Wait),
        }
    }

    /// What follows the answer.
    pub open spec fn after_answer(self, accepted: bool) -> (ClientState, ClientAction) {
        match self {
            ClientState::Asking { cols, rows } => if accepted {
                (ClientState::Attached, ClientAction::Resize { rows, cols })
            } else {
                (ClientState::Gone, ClientAction::Close)
            },
            _ => (self, ClientAction::Wait),
        }
    }

    /// What follows the end of the connection.
    pub open spec fn after_close(self) -> (ClientState, ClientAction) {
        if self == ClientState::Attached {
            (ClientState::Gone, ClientAction::Detach)
        } else {
            (ClientState::Gone, ClientAction::Close)
        }
    }

    /// A frame of the terminal.
    pub fn on_frame(self, tag: u8, payload: &[u8]) -> (r: (ClientState, ClientAction))
        ensures
            r == self.after_frame(tag, payload@),
    {
        match self {
            ClientState::New => (
                ClientState::Greeted { force: hello_force(tag, payload) },
                ClientAction::Wait,
            ),
            ClientState::Greeted { force } => {
                let (cols, rows): (u16, u16) = initial_size(tag, payload);
                (ClientState::Asking { cols, rows }, ClientAction::Ask { force, cols, rows })
            },
            ClientState::Attached => match client_event(tag, payload) {
                ClientEvent::Input => (self, ClientAction::Input),
                ClientEvent::Detach => (ClientState::Gone, ClientAction::Detach),
                ClientEvent::Resize { rows, cols } => (self, ClientAction::Resize { rows, cols }),
                ClientEvent::Ignore => (self, ClientAction::Wait),
            },
            _ => (self, ClientAction::Wait),
        }
    }

    /// The answer of the owner.
    pub fn on_answer(self, accepted: bool) -> (r: (ClientState, ClientAction))
        ensures
            r == self.after_answer(accepted),
    {
        match self {
            ClientState::Asking { cols, rows } => if accepted {
                (ClientState::Attached, ClientAction::Resize { rows, cols })
            } else {
                (ClientState::Gone, ClientAction::Close)
            },
            _ => (self, ClientAction::Wait),
        }
    }

    /// The connection is closed.
    pub fn on_close(self) -> (r: (ClientState, ClientAction))
        ensures
            r == self.after_close(),
    {
        if self == ClientState::Attached {
            (ClientState::Gone, ClientAction::Detach)
        } else {
            (ClientState::Gone, ClientAction::Close)
        }
    }
}

/// Only a terminal that is attached acts on the session: its input and its size reach it, those of
/// one that waits or was refused do not. The size it gets on being attached is the one that was
/// asked with.
pub proof fn only_attached_terminals_act(state: ClientState, tag: u8, payload: Seq<u8>, accepted: bool)
    ensures
        ({
            let (next, action) = state.after_frame(tag, payload);
            &&& action is Input || action is Resize || action is Detach ==> state
                == ClientState::Attached
            &&& action matches ClientAction::Ask { force, cols, rows } ==> next == (
            ClientState::Asking { cols, rows })
            &&& next == ClientState::Attached ==> state == ClientState::Attached
        }),
        ({
            let (next, action) = state.after_answer(accepted);
            &&& action matches ClientAction::Resize { rows, cols } ==> accepted && state
                == (ClientState::Asking { cols, rows })
            &&& next == ClientState::Attached && state != ClientState::Attached ==> accepted
            &&& !accepted ==> !(action is Resize)
        }),
        !(state.after_close().1 is Resize) && !(state.after_close().1 is Input),
{
}

// The owner.

/// What the owner of a session holds, mathematically.
pub struct CoreModel {
    pub screen: HeadlessModel,
    /// The terminal that is attached.
    pub client: Option<u64>,
    pub dirty: bool,
    pub last_frame: u64,
}

impl CoreModel {
    pub open spec fn wf(self) -> bool {
        self.screen.screen.wf()
    }

    /// Whether a terminal that asks is attached.
    pub open spec fn admits(self, force: bool) -> bool {
        self.client is None || force
    }

    pub open spec fn resized(self, rows: u16, cols: u16) -> CoreModel {
        CoreModel {
            screen: HeadlessModel {
                screen: self.screen.screen.resized(Size { rows, cols }),
                ..self.screen
            },
            dirty: true,
            ..self
        }
    }

    /// The state after a terminal was attached.
    pub open spec fn attached(self, cid: u64, rows: u16, cols: u16) -> CoreModel {
        CoreModel { client: Some(cid), ..self.resized(rows, cols) }
    }

    /// The state after a terminal went. One that is not the attached one changes nothing.
    pub open spec fn detached(self, cid: u64) -> CoreModel {
        CoreModel {
            client: if self.client == Some(cid) {
                None
            } else {
                self.client
            },
            ..self
        }
    }

    pub open spec fn frame_due(self, now: u64) -> bool {
        self.dirty && elapsed(self.last_frame, now) >= MIN_FRAME
    }
}

/// What happens to a terminal that asks to be attached.
pub enum Attach {
    /// Another one is attached.
    Rejected,
    /// It is attached and gets the screen. The one that was attached is told that it no longer
    /// is.
    Accepted { kicked: Option<u64>, repaint: Vec<u8> },
}

/// Why a terminal is not attached.
pub fn rejection() -> (r: &'static str)
    ensures
        r@ == "a client is already attached; use `shellglass attach --force` to take over"@,
{
    "a client is already attached; use `shellglass attach --force` to take over"
}

/// The owner of a session that has no terminal of its own.
pub struct CoreState {
    screen: HeadlessScreen,
    client: Option<u64>,
    dirty: bool,
    last_frame: u64,
}

impl View for CoreState {
    type V = CoreModel;

    closed spec fn view(&self) -> CoreModel {
        CoreModel {
            screen: self.screen@,
            client: self.client,
            dirty: self.dirty,
            last_frame: self.last_frame,
        }
    }
}

impl CoreState {
    pub fn new(rows: u16, cols: u16, now: u64) -> (r: CoreState)
        requires
            rows > 0,
            cols > 0,
        ensures
            r@.screen.screen == crate::vt::screen::ScreenModel::<ImgCell>::fresh(
                Size { rows, cols },
                0,
            ),
            r@.screen.images.len() == 0,
            r@.screen.zombies.len() == 0,
            r@.client is None,
            !r@.dirty,
            r@.last_frame == now,
            r@.wf(),
    {
        CoreState {
            screen: HeadlessScreen::new(rows, cols),
            client: None,
            dirty: false,
            last_frame: now,
        }
    }

    /// The screen, for control functions to act on.
    pub fn screen_mut(&mut self) -> (r: &mut Screen<ImgCell>)
        ensures
            (*r)@ == old(self)@.screen.screen,
            final(self)@ == (CoreModel {
                screen: HeadlessModel { screen: (*final(r))@, ..old(self)@.screen },
                ..old(self)@
            }),
    {
        self.screen.screen_mut()
    }

    /// The terminal that is attached.
    pub fn client(&self) -> (r: Option<u64>)
        ensures
            r == self@.client,
    {
        self.client
    }

    /// How long to wait for a message: as long as it takes where nothing changed.
    pub fn wait(&self) -> (r: Option<u64>)
        ensures
            r == if self@.dirty {
                Some(MIN_FRAME)
            } else {
                None
            },
    {
        if self.dirty {
            Some(MIN_FRAME)
        } else {
            None
        }
    }

    /// Output of the session was drawn on the screen. Returns the terminal that it goes on to.
    pub fn on_data(&mut self) -> (r: Option<u64>)
        ensures
            r == old(self)@.client,
            final(self)@ == (CoreModel { dirty: true, ..old(self)@ }),
    {
        self.dirty = true;
        self.client
    }

    /// The attached terminal could not be written to: it is gone.
    pub fn on_write_failed(&mut self)
        ensures
            final(self)@ == (CoreModel { client: None, ..old(self)@ }),
    {
        self.client = None;
    }

    pub fn on_resize(&mut self, rows: u16, cols: u16)
        requires
            old(self)@.wf(),
            rows > 0,
            cols > 0,
        ensures
            final(self)@ == old(self)@.resized(rows, cols),
            final(self)@.wf(),
    {
        self.screen.set_size(rows, cols);
        self.dirty = true;
    }

    /// A terminal asks to be attached. There is one at a time: while one is attached, another has
    /// to take over by force.
    pub fn on_attach(&mut self, cid: u64, force: bool, cols: u16, rows: u16) -> (r: Attach)
        requires
            old(self)@.wf(),
            rows > 0,
            cols > 0,
        ensures
            r is Accepted <==> old(self)@.admits(force),
            r is Rejected ==> final(self)@ == old(self)@,
            r matches Attach::Accepted { kicked, repaint } ==> {
                &&& kicked == old(self)@.client
                &&& final(self)@ == old(self)@.attached(cid, rows, cols)
                &&& repaint@ == repaint_bytes(final(self)@.screen.screen)
            },
            final(self)@.wf(),
    {
        if self.client.is_some() && !force {
            return Attach::Rejected;
        }
        let kicked: Option<u64> = self.client;
        self.screen.set_size(rows, cols);
        let repaint = self.screen.repaint();
        self.client = Some(cid);
        self.dirty = true;
        Attach::Accepted { kicked, repaint }
    }

    /// A terminal goes. The session keeps the size it has.
    pub fn on_detach(&mut self, cid: u64)
        ensures
            final(self)@ == old(self)@.detached(cid),
    {
        if let Some(c) = self.client {
            if c == cid {
                self.client = None;
            }
        }
    }

    /// The hub is back: the attached terminal gets the screen again.
    pub fn on_hub_up(&self) -> (r: Option<(u64, Vec<u8>)>)
        requires
            self@.wf(),
        ensures
            r is Some <==> self@.client is Some,
            r is Some ==> (r->Some_0).0 == self@.client->Some_0 && (r->Some_0).1@
                == repaint_bytes(self@.screen.screen),
    {
        match self.client {
            Some(cid) => Some((cid, self.screen.repaint())),
            None => None,
        }
    }

    /// After each message or wait: publishes a frame if one is due.
    pub fn tick(&mut self, now: u64) -> (r: Option<Frame>)
        requires
            old(self)@.wf(),
        ensures
            r is Some <==> old(self)@.frame_due(now),
            r is Some ==> {
                let s = old(self)@.screen;
                &&& (r->Some_0)@ == frame_of(
                    s.screen,
                    s.images,
                    s.zombies,
                    s.bridge,
                    no_caps(),
                    now,
                )
                &&& final(self)@ == (CoreModel {
                    dirty: false,
                    last_frame: now,
                    screen: HeadlessModel {
                        screen: s.screen,
                        images: surviving(s.images, s.screen.active(), s.images.len() as int),
                        zombies: new_zombies(s.images, s.zombies, s.screen.active()),
                        bridge: s.bridge.seen(grid_of(s.screen), now),
                    },
                    ..old(self)@
                })
            },
            r is None ==> final(self)@ == old(self)@,
            final(self)@.wf(),
    {
        if !self.dirty || time_since(self.last_frame, now) < MIN_FRAME {
            return None;
        }
        let frame = self.screen.frame(now);
        self.dirty = false;
        self.last_frame = now;
        Some(frame)
    }
}

/// There is never more than one terminal: who is attached by force replaces the one that was, and
/// when that one goes in the end the new one stays.
pub proof fn one_terminal_at_a_time(s: CoreModel, old_cid: u64, new_cid: u64, rows: u16, cols: u16)
    requires
        s.client == Some(old_cid),
        old_cid != new_cid,
    ensures
        !s.admits(false),
        s.admits(true),
        s.attached(new_cid, rows, cols).client == Some(new_cid),
        s.attached(new_cid, rows, cols).detached(old_cid) == s.attached(new_cid, rows, cols),
{
}

/// A session keeps its size when its terminal goes.
pub proof fn size_outlives_the_terminal(s: CoreModel, cid: u64, rows: u16, cols: u16)
    ensures
        s.attached(cid, rows, cols).detached(cid).screen == s.attached(cid, rows, cols).screen,
        s.attached(cid, rows, cols).detached(cid).client is None,
{
}

// What the terminal makes of the owner's frames.

/// The answer to a terminal that asked to be attached.
#[derive(Clone, Copy, Debug, PartialEq, Eq, Structural)]
pub enum Answer {
    Accepted,
    Rejected,
    Unexpected,
}

/// The answer that a frame gives.
pub fn answer(tag: u8) -> (r: Answer)
    ensures
        r == if tag == S_ACCEPTED {
            Answer::Accepted
        } else if tag == S_REJECTED {
            Answer::Rejected
        } else {
            Answer::Unexpected
        },
{
    if tag == S_ACCEPTED {
        Answer::Accepted
    } else if tag == S_REJECTED {
        Answer::Rejected
    } else {
        Answer::Unexpected
    }
}

/// What the attached terminal does next.
#[derive(Clone, Copy, Debug, PartialEq, Eq, Structural)]
pub enum Shown {
    /// Shows the payload.
    Output,
    /// Tells that another took over, and ends.
    Kicked,
    /// Tells that the session ended, and ends.
    Ended,
    /// Ends without a word: it detached itself.
    Quiet,
    /// Nothing.
    Ignore,
}

/// What a frame of the owner does. `None` stands for a connection that is closed.
pub fn server_event(tag: Option<u8>, detaching: bool) -> (r: Shown)
    ensures
        r == match tag {
            Some(t) => if t == S_DATA {
                Shown::Output
            } else if t == S_KICKED {
                Shown::Kicked
            } else {
                Shown::Ignore
            },
            None => if detaching {
                Shown::Quiet
            } else {
                Shown::Ended
            },
        },
{
    match tag {
        Some(t) => if t == S_DATA {
            Shown::Output
        } else if t == S_KICKED {
            Shown::Kicked
        } else {
            Shown::Ignore
        },
        None => if detaching {
            Shown::Quiet
        } else {
            Shown::Ended
        },
    }
}

/// Where the key that detaches stands first in the input, or how long the input is.
pub open spec fn detach_at(input: Seq<u8>, i: int) -> int
    decreases input.len() - i,
{
    if 0 <= i < input.len() && input[i] != DETACH_KEY {
        detach_at(input, i + 1)
    } else {
        i
    }
}

/// The frames that input of the terminal is sent in, and whether it detaches. What stands before
/// the key that detaches is still sent; the key and what follows it is not.
pub open spec fn input_frames(input: Seq<u8>) -> (Seq<u8>, bool) {
    let p = detach_at(input, 0);
    if p >= input.len() {
        (frame_bytes(C_INPUT, input), false)
    } else if p > 0 {
        (frame_bytes(C_INPUT, input.take(p)) + frame_bytes(C_DETACH, Seq::empty()), true)
    } else {
        (frame_bytes(C_DETACH, Seq::empty()), true)
    }
}

/// The frames that input of the terminal is sent in, and whether it detaches.
pub fn send_input(input: &[u8]) -> (r: (Vec<u8>, bool))
    ensures
        (r.0@, r.1) == input_frames(input@),
{
    let n: usize = input.len();
    let mut p: usize = 0;
    while p < n && input[p] != DETACH_KEY
        invariant
            n == input@.len(),
            p <= n,
            detach_at(input@, 0) == detach_at(input@, p as int),
        decreases n - p,
    {
        p = p + 1;
    }
    if p >= n {
        return (write_frame(C_INPUT, input), false);
    }
    let nothing: Vec<u8> = Vec::new();
    proof {
        assert(nothing@ =~= Seq::<u8>::empty());
    }
    let bye = write_frame(C_DETACH, nothing.as_slice());
    if p == 0 {
        return (bye, true);
    }
    let mut head: Vec<u8> = Vec::new();
    for i in 0..p
        invariant
            p <= input@.len(),
            head@ =~= input@.take(i as int),
    {
        head.push(input[i]);
    }
    let mut r = write_frame(C_INPUT, head.as_slice());
    crate::vt::escape::push_bytes(&mut r, bye.as_slice());
    (r, true)
}

// Where a session's files are.

/// A file name in a directory.
pub open spec fn joined_path(dir: Seq<char>, name: Seq<char>) -> Seq<char> {
    if dir.len() == 0 {
        name
    } else if dir.last() == '/' {
        dir + name
    } else {
        dir.push('/') + name
    }
}

fn join_path(dir: &str, id: &str, suffix: &str) -> (r: String)
    ensures
        r@ == joined_path(dir@, "shellglass-"@ + id@ + suffix@),
{
    let mut r: String = String::new();
    r.append(dir);
    let n: usize = dir.unicode_len();
    if n > 0 && dir.get_char(n - 1) != '/' {
        r.push('/');
    }
    r.append("shellglass-");
    r.append(id);
    r.append(suffix);
    proof {
        assert(r@ =~= joined_path(dir@, "shellglass-"@ + id@ + suffix@));
    }
    r
}

/// The socket of a session in the runtime directory.
pub fn default_socket_path(runtime_dir: &str, id: &str) -> (r: String)
    ensures
        r@ == joined_path(runtime_dir@, "shellglass-"@ + id@ + ".sock"@),
{
    join_path(runtime_dir, id, ".sock")
}

/// The log of a session in the runtime directory.
pub fn default_log_path(runtime_dir: &str, id: &str) -> (r: String)
    ensures
        r@ == joined_path(runtime_dir@, "shellglass-"@ + id@ + ".log"@),
{
    join_path(runtime_dir, id, ".log")
}

// What goes over the connection.

/// A frame is its tag, how long its payload is in four bytes, the highest first, and the payload.
pub proof fn frame_layout(tag: u8, payload: Seq<u8>)
    requires
        payload.len() <= u32::MAX,
    ensures
        ({
            let b = frame_bytes(tag, payload);
            &&& b.len() == 5 + payload.len()
            &&& b[0] == tag
            &&& b[1] * 16777216 + b[2] * 65536 + b[3] * 256 + b[4] == payload.len()
            &&& b.skip(5) == payload
        }),
{
    frame_round_trip(tag, payload, Seq::empty());
    length_is_read(payload.len() as u32);
    let b = frame_bytes(tag, payload);
    assert(b.skip(5) =~= payload);
}

/// Of a size the columns come first, then the rows, each in two bytes, the higher first. Such bytes
/// are no size where they are more or fewer than four.
pub proof fn size_layout(cols: u16, rows: u16, p: Seq<u8>)
    ensures
        ({
            let b = size_bytes(cols, rows);
            b.len() == 4 && b[0] * 256 + b[1] == cols && b[2] * 256 + b[3] == rows
        }),
        payload_size(p) is Some <==> p.len() == 4,
        p.len() == 4 ==> payload_size(p)->Some_0.0 == p[0] * 256 + p[1] && payload_size(
            p,
        )->Some_0.1 == p[2] * 256 + p[3],
{
}

proof fn key_is_first(input: Seq<u8>, p: int, i: int)
    requires
        0 <= i <= p <= input.len(),
        p < input.len() ==> input[p] == 28,
        forall|j: int| 0 <= j < p ==> #[trigger] input[j] != 28,
    ensures
        detach_at(input, i) == p,
    decreases p - i,
{
    if i < p {
        assert(input[i] != 28);
        key_is_first(input, p, i + 1);
    }
}

/// Input is sent as it is. From the first Ctrl-\ on, byte 28, nothing of it is sent: the terminal
/// detaches instead, after what was typed before.
pub proof fn input_is_sent_up_to_the_key(input: Seq<u8>, p: int)
    requires
        0 <= p <= input.len() <= u32::MAX,
        p < input.len() ==> input[p] == 28,
        forall|j: int| 0 <= j < p ==> #[trigger] input[j] != 28,
    ensures
        ({
            let (sent, detaches) = input_frames(input);
            &&& detaches <==> p < input.len()
            &&& p == input.len() ==> sent.len() == 5 + p && first_frame(sent) == Some((0u8, input))
            &&& 0 < p < input.len() ==> first_frame(sent) == Some((0u8, input.take(p)))
                && sent.len() == 10 + p && first_frame(sent.skip(5 + p)) == Some(
                (2u8, Seq::<u8>::empty()),
            )
            &&& p == 0 && p < input.len() ==> sent.len() == 5 && first_frame(sent) == Some(
                (2u8, Seq::<u8>::empty()),
            )
        }),
{
    key_is_first(input, p, 0);
    let none = Seq::<u8>::empty();
    frame_round_trip(0, input, none);
    assert(frame_bytes(0, input) + none =~= frame_bytes(0, input));
    frame_round_trip(2, none, none);
    assert(frame_bytes(2, none) + none =~= frame_bytes(2, none));
    frame_round_trip(0, input.take(p), frame_bytes(2, none));
}

/// How a terminal gets attached: its first frame says whether it takes over, its second how large it
/// is. Once it is let in its size becomes the session's; turned away it has no part in it.
pub proof fn terminals_introduce_themselves(force: u8, cols: u16, rows: u16)
    ensures
        ({
            let (greeted, first) = ClientState::New.after_frame(3, seq![force]);
            let (asking, second) = greeted.after_frame(1, size_bytes(cols, rows));
            let (attached, third) = asking.after_answer(true);
            let (refused, fourth) = asking.after_answer(false);
            &&& first == ClientAction::Wait
            &&& second == (ClientAction::Ask { force: force != 0, cols, rows })
            &&& attached == ClientState::Attached && third == (ClientAction::Resize { rows, cols })
            &&& refused == ClientState::Gone && fourth == ClientAction::Close
        }),
{
    size_round_trip(cols, rows);
    assert(seq![force][0] == force);
}

/// What an attached terminal sends: input under tag 0, its size under tag 1, its leave under tag 2;
/// the rest is nothing. When its connection is closed it leaves as well.
pub proof fn attached_terminals_are_heard(cols: u16, rows: u16, input: Seq<u8>, tag: u8)
    ensures
        ({
            let s = ClientState::Attached;
            &&& s.after_frame(0, input) == (s, ClientAction::Input)
            &&& s.after_frame(1, size_bytes(cols, rows)) == (s, ClientAction::Resize { rows, cols })
            &&& s.after_frame(2, input) == (ClientState::Gone, ClientAction::Detach)
            &&& tag > 2 ==> s.after_frame(tag, input) == (s, ClientAction::Wait)
            &&& input.len() != 4 ==> s.after_frame(1, input) == (s, ClientAction::Wait)
            &&& s.after_close() == (ClientState::Gone, ClientAction::Detach)
        }),
{
    size_round_trip(cols, rows);
}

/// A terminal that does not tell its size has 80 columns and 24 rows. One that does not say that it
/// takes over does not.
pub proof fn terminals_without_a_word(force: bool, tag: u8, payload: Seq<u8>)
    ensures
        tag != 1 || payload.len() != 4 ==> (ClientState::Greeted { force }).after_frame(
            tag,
            payload,
        ).1 == (ClientAction::Ask { force, cols: 80, rows: 24 }),
        tag != 3 || payload.len() == 0 || payload[0] == 0 ==> ClientState::New.after_frame(
            tag,
            payload,
        ).0 == (ClientState::Greeted { force: false }),
{
}

/// A session has the size of the terminal that is attached, and keeps what it shows and its images.
/// A frame follows, no sooner than 33 milliseconds after the last.
pub proof fn sessions_take_the_size_of_their_terminal(
    s: CoreModel,
    cid: u64,
    rows: u16,
    cols: u16,
    now: u64,
)
    requires
        s.wf(),
        rows > 0,
        cols > 0,
        s.last_frame <= now,
    ensures
        ({
            let t = s.attached(cid, rows, cols);
            let u = s.resized(rows, cols);
            &&& t.screen.screen.active().size.rows == rows
            &&& t.screen.screen.active().size.cols == cols
            &&& t.screen.screen.title == s.screen.screen.title
            &&& t.screen.images == s.screen.images && t.screen.zombies == s.screen.zombies
            &&& t.client == Some(cid) && u.client == s.client && u.screen == t.screen
            &&& t.frame_due(now) <==> now >= s.last_frame + 33
        }),
{
}

/// A path has the directory, one slash and the name.
pub proof fn paths_have_one_slash(dir: Seq<char>, name: Seq<char>)
    ensures
        dir.len() > 0 && dir.last() != '/' ==> {
            let p = joined_path(dir, name);
            &&& p.len() == dir.len() + 1 + name.len()
            &&& p.take(dir.len() as int) == dir && p[dir.len() as int] == '/'
            &&& p.skip(dir.len() as int + 1) == name
            &&& joined_path(dir.push('/'), name) == p
        },
        joined_path(Seq::empty(), name) == name,
{
    if dir.len() > 0 && dir.last() != '/' {
        let p = joined_path(dir, name);
        assert(p.take(dir.len() as int) =~= dir);
        assert(p.skip(dir.len() as int + 1) =~= name);
        assert(dir.push('/').last() == '/');
    }
}

} // verus!
