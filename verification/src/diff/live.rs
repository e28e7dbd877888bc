//! The state of one published session: what viewers get, and in which order.
use vstd::prelude::*;
use vstd::string::StringExecFns;

use crate::diff::apply::applied;
use crate::diff::decode::read_message;
use crate::diff::encode::{delta_json, diffable, full_json};
use crate::diff::message::{apply_text, encode_delta, full_message, sizes_read_back};
use crate::json::{parsed, rendered};
use crate::model::{Frame, GridModel};
use crate::text::{digits, push_digits};

verus! {

/// The version of the wire protocol. A page that was loaded under another one reloads.
pub const PROTO: u32 = 4;

/// How many messages a viewer may fall behind before it gets the whole screen again.
pub const BACKLOG: usize = 64;

/// The first event of every stream: the protocol version and the tag of the viewer's script.
pub fn hello_message(viewer_tag: &str) -> (r: String)
    ensures
        r@ == "{\"v\":"@ + digits(PROTO as nat) + ",\"js\":\""@ + viewer_tag@ + "\"}"@,
        r@ == "{\"v\":"@ + digits(4) + ",\"js\":\""@ + viewer_tag@ + "\"}"@,
{
    let mut r: String = String::new();
    r.append("{\"v\":");
    push_digits(&mut r, PROTO as u64);
    r.append(",\"js\":\"");
    r.append(viewer_tag);
    r.append("\"}");
    proof {
        assert(r@ =~= "{\"v\":"@ + digits(PROTO as nat) + ",\"js\":\""@ + viewer_tag@ + "\"}"@);
    }
    r
}

/// How a viewer is connected.
#[derive(Clone, Copy, Debug, PartialEq, Eq, Structural)]
pub enum Transport {
    Web,
    Ssh,
}

impl Transport {
    /// A short name that stays.
    pub fn name(self) -> (r: &'static str)
        ensures
            r@ == match self {
                Transport::Web => "web"@,
                Transport::Ssh => "ssh"@,
            },
    {
        match self {
            Transport::Web => "web",
            Transport::Ssh => "ssh",
        }
    }
}

/// What a session publishes, mathematically.
pub struct LiveModel {
    /// The number of messages sent so far.
    pub seq: u64,
    pub frame: GridModel,
    pub online: bool,
    pub generation: u64,
    pub reload: Seq<char>,
    pub closed: bool,
    pub web_viewers: usize,
    pub ssh_viewers: usize,
}

impl LiveModel {
    pub open spec fn viewers(self, t: Transport) -> usize {
        match t {
            Transport::Web => self.web_viewers,
            Transport::Ssh => self.ssh_viewers,
        }
    }

    pub open spec fn with_viewers(self, t: Transport, n: usize) -> LiveModel {
        match t {
            Transport::Web => LiveModel { web_viewers: n, ..self },
            Transport::Ssh => LiveModel { ssh_viewers: n, ..self },
        }
    }

    /// A push connection begun.
    pub open spec fn begun(self) -> LiveModel {
        LiveModel { generation: next_generation(self.generation), online: true, ..self }
    }

    /// A push connection ended: the operator is gone if it was the current one.
    pub open spec fn ended(self, generation: u64) -> LiveModel {
        LiveModel { online: self.online && self.generation != generation, ..self }
    }

    /// A message sent, after which the screen is `frame`.
    pub open spec fn advanced(self, frame: GridModel) -> LiveModel {
        LiveModel { seq: (self.seq + 1) as u64, frame, ..self }
    }
}

/// The number of the generation after another.
pub open spec fn next_generation(n: u64) -> u64 {
    if n == u64::MAX {
        0
    } else {
        (n + 1) as u64
    }
}

/// The publisher of one session. Each message it sends has the number after the one before;
/// who connects gets the screen and its number, and then the messages with higher numbers.
pub struct Live {
    seq: u64,
    frame: Frame,
    online: bool,
    generation: u64,
    reload: String,
    closed: bool,
    web_viewers: usize,
    ssh_viewers: usize,
}

impl View for Live {
    type V = LiveModel;

    closed spec fn view(&self) -> LiveModel {
        LiveModel {
            seq: self.seq,
            frame: self.frame@,
            online: self.online,
            generation: self.generation,
            reload: self.reload@,
            closed: self.closed,
            web_viewers: self.web_viewers,
            ssh_viewers: self.ssh_viewers,
        }
    }
}

impl Live {
    /// A publisher that shows `initial` until the first frame comes.
    pub fn new(initial: Frame) -> (r: Live)
        ensures
            r@ == (LiveModel {
                seq: 0,
                frame: initial@,
                online: true,
                generation: 0,
                reload: Seq::empty(),
                closed: false,
                web_viewers: 0,
                ssh_viewers: 0,
            }),
    {
        Live {
            seq: 0,
            frame: initial,
            online: true,
            generation: 0,
            reload: String::new(),
            closed: false,
            web_viewers: 0,
            ssh_viewers: 0,
        }
    }

    /// Publishes the next frame. Returns the message for the viewers and its number, `None`
    /// where they would see no change: then nothing is published at all.
    pub fn publish(&mut self, next: Frame) -> (r: Option<(u64, String)>)
        requires
            old(self)@.seq < u64::MAX,
        ensures
            r is Some <==> delta_json(old(self)@.frame, next@) is Some,
            r is Some ==> {
                &&& (r->Some_0).0 == old(self)@.seq + 1
                &&& (r->Some_0).1@ == rendered(delta_json(old(self)@.frame, next@)->Some_0)
                &&& final(self)@ == old(self)@.advanced(next@)
                &&& diffable(old(self)@.frame, next@) || sizes_read_back(next@.images) ==> parsed(
                    (r->Some_0).1@,
                ) == delta_json(old(self)@.frame, next@)
            },
            r is None ==> final(self)@ == old(self)@,
    {
        match encode_delta(&self.frame, &next) {
            Some(msg) => {
                self.seq = self.seq + 1;
                self.frame = next;
                Some((self.seq, msg))
            },
            None => None,
        }
    }

    /// Publishes a message that came in as text: the screen changes as it says, and the text
    /// goes on to the viewers as it is. A text that holds no message is dropped.
    pub fn publish_wire(&mut self, msg: &str) -> (r: Option<(u64, String)>)
        requires
            old(self)@.seq < u64::MAX,
        ensures
            r is Some <==> parsed(msg@) is Some && read_message(parsed(msg@)->Some_0) is Some,
            r is Some ==> {
                &&& (r->Some_0).0 == old(self)@.seq + 1
                &&& (r->Some_0).1@ == msg@
                &&& final(self)@ == old(self)@.advanced(
                    applied(
                        old(self)@.frame,
                        read_message(parsed(msg@)->Some_0)->Some_0,
                    ),
                )
            },
            r is None ==> final(self)@ == old(self)@,
    {
        match apply_text(&self.frame, msg) {
            Some(next) => {
                self.seq = self.seq + 1;
                self.frame = next;
                let mut text: String = String::new();
                text.append(msg);
                proof {
                    assert(text@ =~= msg@);
                }
                Some((self.seq, text))
            },
            None => None,
        }
    }

    /// The current frame.
    pub fn frame(&self) -> (r: &Frame)
        ensures
            r@ == self@.frame,
    {
        &self.frame
    }

    /// The number of the last message.
    pub fn seq(&self) -> (r: u64)
        ensures
            r == self@.seq,
    {
        self.seq
    }

    /// Tells whether the operator is there.
    pub fn set_online(&mut self, on: bool)
        ensures
            final(self)@ == (LiveModel { online: on, ..old(self)@ }),
    {
        self.online = on;
    }

    /// Whether the operator is there.
    pub fn is_online(&self) -> (r: bool)
        ensures
            r == self@.online,
    {
        self.online
    }

    /// A push connection begins: it is the current one from now on, and the operator is there.
    /// Returns its number.
    pub fn begin_generation(&mut self) -> (r: u64)
        ensures
            final(self)@ == old(self)@.begun(),
            r == final(self)@.generation,
    {
        self.generation = self.generation.wrapping_add(1);
        self.online = true;
        self.generation
    }

    /// A push connection ends. The operator is gone only if no other connection has begun since.
    pub fn end_generation(&mut self, generation: u64)
        ensures
            final(self)@ == old(self)@.ended(generation),
    {
        if self.generation == generation {
            self.online = false;
        }
    }

    /// Sets the tag of the page's configuration. Returns whether it is another one, which the
    /// viewers are to be told.
    pub fn set_reload_tag(&mut self, tag: &str) -> (changed: bool)
        ensures
            changed == (old(self)@.reload != tag@),
            final(self)@ == (LiveModel { reload: tag@, ..old(self)@ }),
    {
        let mut text: String = String::new();
        text.append(tag);
        proof {
            assert(text@ =~= tag@);
        }
        if self.reload == text {
            return false;
        }
        self.reload = text;
        true
    }

    /// The tag of the page's configuration.
    pub fn reload_tag(&self) -> (r: &str)
        ensures
            r@ == self@.reload,
    {
        self.reload.as_str()
    }

    /// Ends every viewer's stream.
    pub fn close_viewers(&mut self)
        ensures
            final(self)@ == (LiveModel { closed: true, ..old(self)@ }),
    {
        self.closed = true;
    }

    pub fn is_closed(&self) -> (r: bool)
        ensures
            r == self@.closed,
    {
        self.closed
    }

    /// A viewer comes.
    pub fn viewer(&mut self, transport: Transport)
        requires
            old(self)@.viewers(transport) < usize::MAX,
        ensures
            final(self)@ == old(self)@.with_viewers(
                transport,
                (old(self)@.viewers(transport) + 1) as usize,
            ),
    {
        match transport {
            Transport::Web => {
                self.web_viewers = self.web_viewers + 1;
            },
            Transport::Ssh => {
                self.ssh_viewers = self.ssh_viewers + 1;
            },
        }
    }

    /// A viewer that came goes.
    pub fn viewer_gone(&mut self, transport: Transport)
        requires
            old(self)@.viewers(transport) > 0,
        ensures
            final(self)@ == old(self)@.with_viewers(
                transport,
                (old(self)@.viewers(transport) - 1) as usize,
            ),
    {
        match transport {
            Transport::Web => {
                self.web_viewers = self.web_viewers - 1;
            },
            Transport::Ssh => {
                self.ssh_viewers = self.ssh_viewers - 1;
            },
        }
    }

    /// How many viewers there are.
    pub fn viewer_count(&self, transport: Transport) -> (r: usize)
        ensures
            r == self@.viewers(transport),
    {
        match transport {
            Transport::Web => self.web_viewers,
            Transport::Ssh => self.ssh_viewers,
        }
    }

    /// The message that carries the current screen.
    pub fn snapshot(&self) -> (r: String)
        ensures
            r@ == rendered(full_json(self@.frame)),
            sizes_read_back(self@.frame.images) ==> parsed(r@) == Some(full_json(self@.frame)),
    {
        full_message(&self.frame)
    }

    /// A viewer's stream begins: with the current screen, and with what is to be skipped of the
    /// messages that follow.
    pub fn connect(&self) -> (r: (Viewer, String))
        ensures
            r.0@ == self@.seq,
            r.1@ == rendered(full_json(self@.frame)),
            sizes_read_back(self@.frame.images) ==> parsed(r.1@) == Some(full_json(self@.frame)),
    {
        (Viewer { threshold: self.seq }, self.snapshot())
    }
}

/// The stream of one viewer: it skips the messages that the screen it was sent covers.
pub struct Viewer {
    threshold: u64,
}

impl View for Viewer {
    type V = u64;

    closed spec fn view(&self) -> u64 {
        self.threshold
    }
}

impl Viewer {
    /// Whether a message goes on to the viewer.
    pub fn wants(&self, seq: u64) -> (r: bool)
        ensures
            r == (seq > self@),
    {
        seq > self.threshold
    }

    /// The viewer fell too far behind: it gets the current screen again. Returns its number and
    /// message.
    pub fn resync(&mut self, live: &Live) -> (r: (u64, String))
        ensures
            final(self)@ == live@.seq,
            r.0 == live@.seq,
            r.1@ == rendered(full_json(live@.frame)),
    {
        self.threshold = live.seq;
        (live.seq, live.snapshot())
    }
}

/// The numbers of the messages that go on to a viewer, out of those that reach its stream.
pub open spec fn forwarded(threshold: u64, seqs: Seq<u64>) -> Seq<u64>
    decreases seqs.len(),
{
    if seqs.len() == 0 {
        Seq::empty()
    } else if seqs.last() > threshold {
        forwarded(threshold, seqs.drop_last()).push(seqs.last())
    } else {
        forwarded(threshold, seqs.drop_last())
    }
}

/// A viewer whose stream begins no later than right behind its screen gets every message after
/// that screen exactly once and in order, whatever of the earlier ones still reaches it.
pub proof fn each_message_once(threshold: u64, seqs: Seq<u64>)
    requires
        seqs.len() > 0 ==> seqs[0] <= threshold + 1,
        forall|i: int| 0 <= i < seqs.len() - 1 ==> #[trigger] seqs[i + 1] == seqs[i] + 1,
    ensures
        forall|i: int|
            0 <= i < forwarded(threshold, seqs).len() ==> #[trigger] forwarded(threshold, seqs)[i]
                == threshold + 1 + i,
        seqs.len() > 0 && seqs.last() > threshold ==> forwarded(threshold, seqs).len()
            == seqs.last() - threshold,
        seqs.len() > 0 && seqs.last() <= threshold ==> forwarded(threshold, seqs).len() == 0,
    decreases seqs.len(),
{
    if seqs.len() > 1 {
        let front = seqs.drop_last();
        assert(front[0] == seqs[0]);
        assert forall|i: int| 0 <= i < front.len() - 1 implies #[trigger] front[i + 1] == front[i]
            + 1 by {
            assert(seqs[i + 1] == seqs[i] + 1);
        }
        each_message_once(threshold, front);
        assert(front.last() == seqs[seqs.len() - 2]);
        assert(seqs[seqs.len() - 2 + 1] == seqs[seqs.len() - 2] + 1);
    } else if seqs.len() == 1 {
        assert(forwarded(threshold, seqs.drop_last()) =~= Seq::empty());
    }
}

/// A connection that ends after another has begun does not take the operator offline; the one
/// that is current does.
pub proof fn only_the_current_connection_ends(live: LiveModel)
    ensures
        live.begun().begun().ended(live.begun().generation) == live.begun().begun(),
        !live.begun().ended(live.begun().generation).online,
{
}

/// Viewers are counted by how they are connected.
pub proof fn viewers_are_counted_apart(s: LiveModel, n: usize)
    ensures
        s.with_viewers(Transport::Web, n).viewers(Transport::Web) == n,
        s.with_viewers(Transport::Web, n).viewers(Transport::Ssh) == s.ssh_viewers,
        s.with_viewers(Transport::Ssh, n).viewers(Transport::Ssh) == n,
        s.with_viewers(Transport::Ssh, n).viewers(Transport::Web) == s.web_viewers,
        s.with_viewers(Transport::Ssh, n).seq == s.seq,
        s.with_viewers(Transport::Web, n).frame == s.frame,
{
}

/// A push connection puts the session online under a number of its own, and its end, no other's,
/// takes it off again. What is shown, and how far it came, stays.
pub proof fn connections_come_and_go(s: LiveModel, other: u64)
    ensures
        ({
            let on = s.begun();
            &&& on.online && on.generation != s.generation
            &&& on.frame == s.frame && on.seq == s.seq && on.closed == s.closed
            &&& !on.ended(on.generation).online
            &&& other != on.generation ==> on.ended(other) == on
            &&& on.ended(on.generation).frame == s.frame
        }),
{
}

/// Each message is numbered after the one before, and what is shown then is the new screen.
pub proof fn messages_are_numbered(s: LiveModel, frame: GridModel)
    requires
        s.seq < u64::MAX,
    ensures
        s.advanced(frame).seq == s.seq + 1,
        s.advanced(frame).frame == frame,
        s.advanced(frame) == (LiveModel { seq: s.advanced(frame).seq, frame, ..s }),
{
}

} // verus!
