//! Pushing a session to a hub: what is sent in which order, when the connection counts as lost,
//! and what the operator is told.
use vstd::prelude::*;
use vstd::string::{StrSliceExecFns, StringExecFns};

use crate::diff::encode::{delta_json, diffable, full_json};
use crate::diff::message::{encode_delta, full_message, sizes_read_back};
use crate::json::{short_keys_are_free, member_models, parsed, render, rendered, Json, JsonModel};
use crate::model::{
    blob_models, bytes_of, BlobModel, Frame, Grid, GridModel, ImageBlob,
};
use crate::number::{number_in, read_number};
use crate::text::{digits, push_digits, texts};
use crate::vt::cell::is_control;

verus! {

/// The version of the push protocol that this client speaks.
pub const PROTOCOL_VERSION: u32 = 1;

/// The close code by which the hub tells that another connection took the session over.
pub const PUSH_REPLACED_CLOSE_CODE: u16 = 4000;

/// The largest message that the hub takes: 16 MiB.
pub const MAX_WS_MESSAGE: usize = 16777216;

/// How many pings may go without a pong.
pub const MAX_MISSED_PONGS: u32 = 2;

/// How many characters of a hub's version are shown.
pub const MAX_SHOWN_VERSION: usize = 64;

// What the operator is told.

/// Whether a text can be shown on a terminal in raw mode: it holds no control character.
pub open spec fn control_free(s: Seq<char>) -> bool {
    forall|i: int| 0 <= i < s.len() ==> !is_control(#[trigger] s[i])
}

/// Why the hub could not be reached. The cause tells of the kind of failure only, never of what
/// the other side said.
#[derive(Clone, Copy, Debug, PartialEq, Eq, Structural)]
pub enum Cause {
    /// No connection.
    Connect,
    /// It took too long.
    Timeout,
    /// The answer was no WebSocket.
    BadHandshake,
    /// The hub answered with this status.
    Rejected(u16),
    /// Anything else.
    Other,
}

/// The notice of an outage.
pub open spec fn notice_text(cause: Cause) -> Seq<char> {
    match cause {
        Cause::Connect => "hub unreachable (could not connect); retrying"@,
        Cause::Timeout => "hub unreachable (timed out); retrying"@,
        Cause::BadHandshake => "hub unreachable (not a shellglass endpoint?); retrying"@,
        Cause::Rejected(s) => "hub rejected the request (HTTP "@ + digits(s as nat)
            + "); retrying"@,
        Cause::Other => "hub unreachable; retrying"@,
    }
}

/// The notice of an outage.
pub fn notice(cause: Cause) -> (r: String)
    ensures
        r@ == notice_text(cause),
        control_free(r@),
{
    let mut r: String = String::new();
    match cause {
        Cause::Connect => r.append("hub unreachable (could not connect); retrying"),
        Cause::Timeout => r.append("hub unreachable (timed out); retrying"),
        Cause::BadHandshake => r.append("hub unreachable (not a shellglass endpoint?); retrying"),
        Cause::Rejected(s) => {
            r.append("hub rejected the request (HTTP ");
            push_digits(&mut r, s as u64);
            r.append("); retrying");
        },
        Cause::Other => r.append("hub unreachable; retrying"),
    }
    proof {
        assert(r@ =~= notice_text(cause));
        notices_are_control_free(cause);
    }
    r
}

proof fn digits_are_control_free(n: nat)
    ensures
        control_free(digits(n)),
    decreases n,
{
    if n >= 10 {
        digits_are_control_free(n / 10);
    }
}

/// No notice of an outage can carry a control sequence to the terminal, whatever the cause.
pub proof fn notices_are_control_free(cause: Cause)
    ensures
        control_free(notice_text(cause)),
{
    reveal_strlit("hub unreachable (could not connect); retrying");
    reveal_strlit("hub unreachable (timed out); retrying");
    reveal_strlit("hub unreachable (not a shellglass endpoint?); retrying");
    reveal_strlit("hub rejected the request (HTTP ");
    reveal_strlit("); retrying");
    reveal_strlit("hub unreachable; retrying");
    if let Cause::Rejected(s) = cause {
        digits_are_control_free(s as nat);
    }
}

/// Why a session could not begin.
pub enum ConnErr {
    /// The hub does not know the key: trying again is no use.
    Forbidden,
    /// The hub speaks another protocol: trying again is no use.
    Incompatible(String),
    /// Worth another try.
    Retry(Cause),
}

/// How an attempt to connect failed.
#[derive(Clone, Copy, Debug, PartialEq, Eq, Structural)]
pub enum Failure {
    /// The hub answered with another status than the upgrade.
    Status(u16),
    BadHandshake,
    Timeout,
    Connect,
    Other,
}

/// The error that a failed attempt is.
pub fn classify(failure: Failure) -> (r: ConnErr)
    ensures
        r is Forbidden <==> failure == Failure::Status(403),
        r is Incompatible <==> failure == Failure::Status(426),
        r matches ConnErr::Incompatible(msg) ==> msg@ == generic_incompat_text(),
        r matches ConnErr::Retry(cause) ==> cause == match failure {
            Failure::Status(s) => Cause::Rejected(s),
            Failure::BadHandshake => Cause::BadHandshake,
            Failure::Timeout => Cause::Timeout,
            Failure::Connect => Cause::Connect,
            Failure::Other => Cause::Other,
        },
{
    match failure {
        Failure::Status(s) => if s == 403 {
            ConnErr::Forbidden
        } else if s == 426 {
            ConnErr::Incompatible(generic_incompat_message())
        } else {
            ConnErr::Retry(Cause::Rejected(s))
        },
        Failure::BadHandshake => ConnErr::Retry(Cause::BadHandshake),
        Failure::Timeout => ConnErr::Retry(Cause::Timeout),
        Failure::Connect => ConnErr::Retry(Cause::Connect),
        Failure::Other => ConnErr::Retry(Cause::Other),
    }
}

/// What is told where the hub does not say which protocols it speaks.
pub open spec fn generic_incompat_text() -> Seq<char> {
    "push-protocol mismatch (HTTP 426): this client speaks protocol "@ + digits(
        PROTOCOL_VERSION as nat,
    )
        + " and the hub can't serve it. Update the hub or the push client so their protocol versions overlap."@
}

/// What is told where the hub does not say which protocols it speaks.
pub fn generic_incompat_message() -> (r: String)
    ensures
        r@ == generic_incompat_text(),
        control_free(r@),
{
    let mut r: String = String::new();
    r.append("push-protocol mismatch (HTTP 426): this client speaks protocol ");
    push_digits(&mut r, PROTOCOL_VERSION as u64);
    r.append(
        " and the hub can't serve it. Update the hub or the push client so their protocol versions overlap.",
    );
    proof {
        assert(r@ =~= generic_incompat_text());
        reveal_strlit("push-protocol mismatch (HTTP 426): this client speaks protocol ");
        reveal_strlit(
            " and the hub can't serve it. Update the hub or the push client so their protocol versions overlap.",
        );
        digits_are_control_free(PROTOCOL_VERSION as nat);
    }
    r
}

/// A text without its control characters, and no longer than may be shown.
pub open spec fn neutered(s: Seq<char>) -> Seq<char>
    decreases s.len(),
{
    if s.len() == 0 {
        Seq::empty()
    } else {
        let front = neutered(s.drop_last());
        if is_control(s.last()) || front.len() >= MAX_SHOWN_VERSION {
            front
        } else {
            front.push(s.last())
        }
    }
}

/// A text without its control characters, and no longer than may be shown.
pub fn neuter(s: &str) -> (r: String)
    ensures
        r@ == neutered(s@),
        control_free(r@),
        r@.len() <= MAX_SHOWN_VERSION,
{
    let mut r: String = String::new();
    let n: usize = s.unicode_len();
    let mut len: usize = 0;
    proof {
        assert(s@.take(0) =~= Seq::empty());
    }
    for i in 0..n
        invariant
            n == s@.len(),
            r@ == neutered(s@.take(i as int)),
            control_free(r@),
            len == r@.len(),
            len <= MAX_SHOWN_VERSION,
    {
        let c: char = s.get_char(i);
        proof {
            assert(s@.take(i + 1).drop_last() =~= s@.take(i as int));
            assert(s@.take(i + 1).last() == c);
        }
        let code: u32 = c as u32;
        if !(code < 0x20 || (0x7f <= code && code < 0xa0)) && len < MAX_SHOWN_VERSION {
            r.push(c);
            len = len + 1;
        }
    }
    proof {
        assert(s@.take(n as int) =~= s@);
    }
    r
}

/// The protocol number that a header spells.
pub open spec fn header_number(s: Seq<char>) -> Option<u32> {
    match number_in(s) {
        Some(v) => if v <= u32::MAX {
            Some(v as u32)
        } else {
            None
        },
        None => None,
    }
}

/// Reads a protocol number.
pub fn parse_header_number(s: &str) -> (r: Option<u32>)
    ensures
        r == header_number(s@),
{
    let n: usize = s.unicode_len();
    proof {
        assert(s@.subrange(0, n as int) =~= s@);
    }
    read_number(s, 0, n, u32::MAX)
}

/// A number that a header may hold.
pub open spec fn bound_of(h: Option<&str>) -> Option<u32> {
    match h {
        Some(s) => header_number(s@),
        None => None,
    }
}

/// The hub's version as it is shown.
pub open spec fn shown_version(h: Option<&str>) -> Seq<char> {
    match h {
        Some(s) => if neutered(s@).len() > 0 {
            neutered(s@)
        } else {
            "unknown"@
        },
        None => "unknown"@,
    }
}

/// What is told where the hub speaks other protocols: which side is behind.
pub open spec fn incompat_text(version: Seq<char>, min: u32, max: u32) -> Seq<char> {
    "push-protocol mismatch: this client speaks protocol "@ + digits(PROTOCOL_VERSION as nat)
        + ", but hub "@ + version + (if PROTOCOL_VERSION > max {
        " serves only "@ + digits(min as nat) + "-"@ + digits(max as nat)
            + ". Update the HUB to a build speaking protocol >= "@ + digits(
            PROTOCOL_VERSION as nat,
        )
    } else {
        " serves "@ + digits(min as nat) + "-"@ + digits(max as nat)
            + ". Update this PUSH CLIENT to a build speaking protocol >= "@ + digits(min as nat)
    }) + "."@
}

/// What is told where the hub speaks other protocols, from what its headers hold: its version and
/// the least and the greatest protocol.
pub fn incompat_message(version: Option<&str>, min: Option<&str>, max: Option<&str>) -> (r: String)
    ensures
        r@ == if bound_of(min) is Some && bound_of(max) is Some {
            incompat_text(
                shown_version(version),
                bound_of(min)->Some_0,
                bound_of(max)->Some_0,
            )
        } else {
            generic_incompat_text()
        },
{
    let lo: Option<u32> = match min {
        Some(s) => parse_header_number(s),
        None => None,
    };
    let hi: Option<u32> = match max {
        Some(s) => parse_header_number(s),
        None => None,
    };
    let (lo, hi): (u32, u32) = match (lo, hi) {
        (Some(a), Some(b)) => (a, b),
        _ => {
            return generic_incompat_message();
        },
    };
    let mut ver: String = match version {
        Some(s) => neuter(s),
        None => String::new(),
    };
    if ver.as_str().is_empty() {
        ver = String::new();
        ver.append("unknown");
    }
    proof {
        assert(ver@ =~= shown_version(version));
    }
    let mut r: String = String::new();
    r.append("push-protocol mismatch: this client speaks protocol ");
    push_digits(&mut r, PROTOCOL_VERSION as u64);
    r.append(", but hub ");
    r.append(ver.as_str());
    let ghost head = r@;
    proof {
        assert(head =~= "push-protocol mismatch: this client speaks protocol "@ + digits(
            PROTOCOL_VERSION as nat,
        ) + ", but hub "@ + shown_version(version));
    }
    if PROTOCOL_VERSION > hi {
        r.append(" serves only ");
        push_digits(&mut r, lo as u64);
        r.append("-");
        push_digits(&mut r, hi as u64);
        r.append(". Update the HUB to a build speaking protocol >= ");
        push_digits(&mut r, PROTOCOL_VERSION as u64);
    } else {
        r.append(" serves ");
        push_digits(&mut r, lo as u64);
        r.append("-");
        push_digits(&mut r, hi as u64);
        r.append(". Update this PUSH CLIENT to a build speaking protocol >= ");
        push_digits(&mut r, lo as u64);
    }
    r.append(".");
    proof {
        assert(r@ =~= incompat_text(shown_version(version), lo, hi));
    }
    r
}

/// Whatever a hub puts in its headers, the message about it holds no control character.
pub proof fn incompat_is_control_free(version: Option<&str>, min: u32, max: u32)
    ensures
        control_free(incompat_text(shown_version(version), min, max)),
{
    if let Some(s) = version {
        neutered_is_safe(s@);
    }
    reveal_strlit("unknown");
    reveal_strlit("push-protocol mismatch: this client speaks protocol ");
    reveal_strlit(", but hub ");
    reveal_strlit(" serves only ");
    reveal_strlit(" serves ");
    reveal_strlit("-");
    reveal_strlit(". Update the HUB to a build speaking protocol >= ");
    reveal_strlit(". Update this PUSH CLIENT to a build speaking protocol >= ");
    reveal_strlit(".");
    digits_are_control_free(PROTOCOL_VERSION as nat);
    digits_are_control_free(min as nat);
    digits_are_control_free(max as nat);
    let head = "push-protocol mismatch: this client speaks protocol "@ + digits(
        PROTOCOL_VERSION as nat,
    ) + ", but hub "@ + shown_version(version);
    let range = digits(min as nat) + "-"@ + digits(max as nat);
    assert(control_free(head));
    assert(control_free(range));
    let older = " serves only "@ + digits(min as nat) + "-"@ + digits(max as nat)
        + ". Update the HUB to a build speaking protocol >= "@ + digits(PROTOCOL_VERSION as nat);
    let newer = " serves "@ + digits(min as nat) + "-"@ + digits(max as nat)
        + ". Update this PUSH CLIENT to a build speaking protocol >= "@ + digits(min as nat);
    assert(control_free(older));
    assert(control_free(newer));
}

proof fn neutered_is_safe(s: Seq<char>)
    ensures
        control_free(neutered(s)),
        neutered(s).len() <= MAX_SHOWN_VERSION,
    decreases s.len(),
{
    if s.len() > 0 {
        neutered_is_safe(s.drop_last());
    }
}

/// What is told where the hub does not know the key.
pub open spec fn forbidden_text() -> Seq<char> {
    "hub rejected this key: register its session id on the hub (run `print-id --key <secret>`, add it to the hub's --allow)"@
}

/// What is told where the hub does not know the key.
pub fn forbidden_message() -> (r: &'static str)
    ensures
        r@
            == "hub rejected this key: register its session id on the hub (run `print-id --key <secret>`, add it to the hub's --allow)"@,
{
    "hub rejected this key: register its session id on the hub (run `print-id --key <secret>`, add it to the hub's --allow)"
}

/// What is told where the first message is larger than the hub takes, in MiB.
pub open spec fn oversized_text(len: int) -> Seq<char> {
    "register payload is "@ + digits((len / 1048576) as nat) + " MiB, over the hub's "@ + digits(
        (MAX_WS_MESSAGE / 1048576) as nat,
    )
        + " MiB per-message limit — reduce the exported font bundle (fewer or smaller fonts in the config)"@
}

/// Whether the first message is larger than the hub takes, and what is told then.
pub fn check_register(len: usize) -> (r: Option<String>)
    ensures
        r is Some <==> len > MAX_WS_MESSAGE,
        r is Some <==> len > 16 * 1024 * 1024,
        r is Some ==> (r->Some_0)@ == oversized_text(len as int),
{
    if len <= MAX_WS_MESSAGE {
        return None;
    }
    let mut r: String = String::new();
    r.append("register payload is ");
    push_digits(&mut r, len as u64 / 1048576);
    r.append(" MiB, over the hub's ");
    push_digits(&mut r, MAX_WS_MESSAGE as u64 / 1048576);
    r.append(
        " MiB per-message limit — reduce the exported font bundle (fewer or smaller fonts in the config)",
    );
    proof {
        assert(r@ =~= oversized_text(len as int));
    }
    Some(r)
}

/// An address without the slashes at its end.
pub open spec fn without_slashes(s: Seq<char>) -> Seq<char>
    decreases s.len(),
{
    if s.len() > 0 && s.last() == '/' {
        without_slashes(s.drop_last())
    } else {
        s
    }
}

/// An address without the slashes at its end.
pub fn trim_base_url(s: &str) -> (r: String)
    ensures
        r@ == without_slashes(s@),
{
    let n: usize = s.unicode_len();
    let mut to: usize = n;
    proof {
        assert(s@.take(n as int) =~= s@);
    }
    while to > 0 && s.get_char(to - 1) == '/'
        invariant
            n == s@.len(),
            to <= n,
            without_slashes(s@) == without_slashes(s@.take(to as int)),
        decreases to,
    {
        proof {
            assert(s@.take(to as int).drop_last() =~= s@.take(to - 1));
            assert(s@.take(to as int).last() == s@[to - 1]);
        }
        to = to - 1;
    }
    proof {
        if to > 0 {
            assert(s@.take(to as int).last() == s@[to - 1]);
        }
    }
    let mut r: String = String::new();
    for i in 0..to
        invariant
            to <= s@.len(),
            r@ =~= s@.take(i as int),
    {
        r.push(s.get_char(i));
    }
    r
}

// Payloads.

/// The base64 text of bytes, in the standard alphabet with padding.
pub uninterp spec fn base64_text(bytes: Seq<u8>) -> Seq<char>;

/// Calls `base64::Engine::encode` of `base64::engine::general_purpose::STANDARD`. The text depends
/// on the bytes alone. It is a third longer than they are, and has to fit in memory.
#[verifier::external_body]
fn encode_base64(bytes: &bytes::Bytes) -> (r: String)
    requires
        bytes_of(*bytes).len() <= usize::MAX / 4,
    ensures
        r@ == base64_text(bytes_of(*bytes)),
{
    base64::Engine::encode(&base64::engine::general_purpose::STANDARD, bytes)
}

/// A payload as a message: its media type, and its bytes in base64.
pub open spec fn blob_json(blob: BlobModel) -> JsonModel {
    JsonModel::Obj(
        seq![
            (
                "blob"@,
                JsonModel::Obj(
                    seq![
                        ("m"@, JsonModel::Str(blob.mime)),
                        ("d"@, JsonModel::Str(base64_text(blob.bytes))),
                    ],
                ),
            ),
        ],
    )
}

fn key(s: &str) -> (r: String)
    ensures
        r@ == s@,
{
    let mut k: String = String::new();
    k.append(s);
    proof {
        assert(k@ =~= s@);
    }
    k
}

/// The message that carries a payload.
pub fn blob_message(blob: &ImageBlob) -> (r: String)
    requires
        blob@.bytes.len() <= usize::MAX / 4,
    ensures
        r@ == rendered(blob_json(blob@)),
        parsed(r@) == Some(blob_json(blob@)),
{
    let mut body: Vec<(String, Json)> = Vec::new();
    body.push((key("m"), Json::string(blob.mime.clone())));
    body.push((key("d"), Json::string(encode_base64(&blob.bytes))));
    let ghost inner = seq![
        ("m"@, JsonModel::Str(blob@.mime)),
        ("d"@, JsonModel::Str(base64_text(blob@.bytes))),
    ];
    proof {
        assert(member_models(body@) =~= inner);
    }
    let b = Json::Obj(body);
    proof {
        b.model_of_kind();
    }
    let mut outer: Vec<(String, Json)> = Vec::new();
    outer.push((key("blob"), b));
    let j = Json::Obj(outer);
    proof {
        j.model_of_kind();
        assert(j.model()->Obj_0 =~= blob_json(blob@)->Obj_0);
        reveal_strlit("m");
        reveal_strlit("d");
        assert("m"@[0] != "d"@[0]);
        assert(JsonModel::Obj(inner).canonical()) by {
            reveal_with_fuel(JsonModel::canonical, 2);
        }
        assert(j.model().canonical()) by {
            assert(j.model()->Obj_0[0].1 == JsonModel::Obj(inner));
        }
        reveal_strlit("blob");
        short_keys_are_free(inner);
        short_keys_are_free(j.model()->Obj_0);
        assert(JsonModel::Obj(inner).safe_within(126)) by {
            reveal_with_fuel(JsonModel::safe_within, 2);
        }
        assert(j.model().safe_within(127)) by {
            assert(j.model()->Obj_0[0].1 == JsonModel::Obj(inner));
        }
    }
    render(&j)
}

/// How many keys of sent payloads are remembered.
pub const SENT_CAP: usize = 4096;

/// The keys after one more was sent: the oldest is forgotten where there are too many.
pub open spec fn with_sent(keys: Seq<Seq<char>>, hash: Seq<char>) -> Seq<Seq<char>> {
    if keys.contains(hash) {
        keys
    } else if keys.len() >= SENT_CAP {
        keys.drop_first().push(hash)
    } else {
        keys.push(hash)
    }
}

/// The keys of the payloads that were sent over a connection, oldest first.
pub struct SentBlobs {
    keys: Vec<String>,
}

impl View for SentBlobs {
    type V = Seq<Seq<char>>;

    closed spec fn view(&self) -> Seq<Seq<char>> {
        texts(self.keys@)
    }
}

impl SentBlobs {
    pub fn new() -> (r: SentBlobs)
        ensures
            r@ == Seq::<Seq<char>>::empty(),
    {
        let r = SentBlobs { keys: Vec::new() };
        proof {
            assert(r@ =~= Seq::<Seq<char>>::empty());
        }
        r
    }

    pub fn contains(&self, hash: &String) -> (r: bool)
        ensures
            r == self@.contains(hash@),
    {
        for i in 0..self.keys.len()
            invariant
                forall|j: int| 0 <= j < i ==> (#[trigger] self@[j]) != hash@,
        {
            proof {
                assert(self@[i as int] == self.keys@[i as int]@);
            }
            if self.keys[i] == *hash {
                return true;
            }
        }
        false
    }

    /// A payload was sent.
    pub fn insert(&mut self, hash: String)
        ensures
            final(self)@ == with_sent(old(self)@, hash@),
    {
        if self.contains(&hash) {
            return;
        }
        let ghost before = self@;
        let ghost h = hash@;
        if self.keys.len() >= SENT_CAP {
            let _ = self.keys.remove(0);
        }
        self.keys.push(hash);
        proof {
            assert(self@ =~= with_sent(before, h));
        }
    }

    /// The number of keys.
    pub fn len(&self) -> (r: usize)
        ensures
            r == self@.len(),
    {
        self.keys.len()
    }
}

/// The memory of sent payloads is bounded, holds each key once, and always the last one sent.
pub proof fn sent_is_bounded(keys: Seq<Seq<char>>, hash: Seq<char>)
    requires
        keys.len() <= SENT_CAP,
        keys.no_duplicates(),
    ensures
        with_sent(keys, hash).len() <= SENT_CAP,
        with_sent(keys, hash).no_duplicates(),
        with_sent(keys, hash).contains(hash),
        with_sent(with_sent(keys, hash), hash) == with_sent(keys, hash),
{
    let after = with_sent(keys, hash);
    if !keys.contains(hash) {
        assert(after.last() == hash);
        assert(after.contains(hash));
    }
}

// A connection.

/// How a connection ended.
#[derive(Clone, Copy, Debug, PartialEq, Eq, Structural)]
pub enum End {
    /// The session ended: there is nothing left to push.
    LiveDone,
    /// Another connection took the session over.
    Replaced,
    /// The connection broke.
    Disconnected,
}

/// What a close by the hub means. Only a takeover is not to be undone.
pub fn end_for_close(code: u16) -> (r: End)
    ensures
        r == End::Replaced <==> code == 4000,
        r == if code == PUSH_REPLACED_CLOSE_CODE {
            End::Replaced
        } else {
            End::Disconnected
        },
{
    if code == PUSH_REPLACED_CLOSE_CODE {
        End::Replaced
    } else {
        End::Disconnected
    }
}

/// What a connection holds, mathematically.
pub struct PushModel {
    /// The frame that the hub has.
    pub prev: GridModel,
    /// Pings without a pong.
    pub missed: u32,
    pub sent: Seq<Seq<char>>,
}

/// The first `k` payloads of a frame that were not sent yet, and the keys after they were.
pub open spec fn unsent(
    data: Seq<(Seq<char>, BlobModel)>,
    sent: Seq<Seq<char>>,
    k: int,
) -> (Seq<(Seq<char>, BlobModel)>, Seq<Seq<char>>)
    decreases k,
{
    if k <= 0 {
        (Seq::empty(), sent)
    } else {
        let (out, keys) = unsent(data, sent, k - 1);
        let (hash, blob) = data[k - 1];
        if keys.contains(hash) {
            (out, keys)
        } else {
            (out.push((hash, blob)), with_sent(keys, hash))
        }
    }
}

/// One connection to the hub.
pub struct PushSession {
    prev: Frame,
    missed: u32,
    sent: SentBlobs,
}

impl View for PushSession {
    type V = PushModel;

    closed spec fn view(&self) -> PushModel {
        PushModel { prev: self.prev@, missed: self.missed, sent: self.sent@ }
    }
}

/// What is sent for a frame: the payloads it needs that were not sent yet, then the message.
pub struct Outgoing {
    pub blobs: Vec<(String, ImageBlob)>,
    pub message: String,
}

fn new_blobs(grid: &Grid, sent: &mut SentBlobs) -> (r: Vec<(String, ImageBlob)>)
    ensures
        (blob_models(r@), final(sent)@) == unsent(
            grid@.image_data,
            old(sent)@,
            grid@.image_data.len() as int,
        ),
{
    let mut r: Vec<(String, ImageBlob)> = Vec::new();
    let ghost data = grid@.image_data;
    proof {
        assert(blob_models(r@) =~= Seq::empty());
    }
    for k in 0..grid.image_data.len()
        invariant
            data == blob_models(grid.image_data@),
            (blob_models(r@), sent@) == unsent(data, old(sent)@, k as int),
    {
        let entry = &grid.image_data[k];
        proof {
            assert(data[k as int] == (entry.0@, entry.1@));
        }
        if !sent.contains(&entry.0) {
            let ghost before = blob_models(r@);
            r.push((entry.0.clone(), entry.1.clone()));
            proof {
                assert(blob_models(r@) =~= before.push((entry.0@, entry.1@)));
            }
            sent.insert(entry.0.clone());
        }
    }
    r
}

impl PushSession {
    /// A connection begins, behind the registration: with the payloads of the current frame and
    /// the frame in whole.
    pub fn begin(frame: Frame) -> (r: (PushSession, Outgoing))
        ensures
            r.0@.prev == frame@,
            r.0@.missed == 0,
            (blob_models(r.1.blobs@), r.0@.sent) == unsent(
                frame@.image_data,
                Seq::empty(),
                frame@.image_data.len() as int,
            ),
            r.1.message@ == rendered(full_json(frame@)),
            sizes_read_back(frame@.images) ==> parsed(r.1.message@) == Some(full_json(frame@)),
    {
        let mut sent = SentBlobs::new();
        let blobs = new_blobs(frame.grid(), &mut sent);
        let message = full_message(&frame);
        (PushSession { prev: frame, missed: 0, sent }, Outgoing { blobs, message })
    }

    /// A new frame. Returns what is sent, `None` where the hub would see no change.
    pub fn on_frame(&mut self, next: Frame) -> (r: Option<Outgoing>)
        ensures
            r is Some <==> delta_json(old(self)@.prev, next@) is Some,
            final(self)@.prev == next@,
            final(self)@.missed == old(self)@.missed,
            r is None ==> final(self)@.sent == old(self)@.sent,
            r is Some ==> {
                &&& (blob_models((r->Some_0).blobs@), final(self)@.sent) == unsent(
                    next@.image_data,
                    old(self)@.sent,
                    next@.image_data.len() as int,
                )
                &&& (r->Some_0).message@ == rendered(delta_json(old(self)@.prev, next@)->Some_0)
                &&& diffable(old(self)@.prev, next@) || sizes_read_back(next@.images) ==> parsed(
                    (r->Some_0).message@,
                ) == delta_json(old(self)@.prev, next@)
            },
    {
        let out = match encode_delta(&self.prev, &next) {
            Some(message) => {
                let blobs = new_blobs(next.grid(), &mut self.sent);
                Some(Outgoing { blobs, message })
            },
            None => None,
        };
        self.prev = next;
        out
    }

    /// It is time for a ping. Returns whether one is sent; else too many went without a pong, and
    /// the connection counts as lost.
    pub fn on_ping_due(&mut self) -> (send: bool)
        ensures
            send == (old(self)@.missed < MAX_MISSED_PONGS),
            send <==> old(self)@.missed <= 1,
            final(self)@ == (PushModel {
                missed: if send {
                    (old(self)@.missed + 1) as u32
                } else {
                    old(self)@.missed
                },
                ..old(self)@
            }),
    {
        if self.missed >= MAX_MISSED_PONGS {
            return false;
        }
        self.missed = self.missed + 1;
        true
    }

    /// The hub answered a ping.
    pub fn on_pong(&mut self)
        ensures
            final(self)@ == (PushModel { missed: 0, ..old(self)@ }),
    {
        self.missed = 0;
    }
}

/// Whether a payload with a key is among some that are sent.
pub open spec fn carries(out: Seq<(Seq<char>, BlobModel)>, hash: Seq<char>) -> bool {
    exists|i: int| 0 <= i < out.len() && (#[trigger] out[i]).0 == hash
}

proof fn carried_on(out: Seq<(Seq<char>, BlobModel)>, more: Seq<(Seq<char>, BlobModel)>)
    ensures
        forall|h: Seq<char>| carries(out, h) ==> #[trigger] carries(out + more, h),
        forall|h: Seq<char>| carries(more, h) ==> #[trigger] carries(out + more, h),
{
    let all = out + more;
    assert forall|h: Seq<char>| carries(out, h) implies #[trigger] carries(all, h) by {
        let i = choose|i: int| 0 <= i < out.len() && (#[trigger] out[i]).0 == h;
        assert(all[i].0 == h);
    }
    assert forall|h: Seq<char>| carries(more, h) implies #[trigger] carries(all, h) by {
        let i = choose|i: int| 0 <= i < more.len() && (#[trigger] more[i]).0 == h;
        assert(all[out.len() + i].0 == h);
    }
}

/// Every payload of a frame was sent before, as far as that is remembered, or goes out before the
/// frame. What is remembered then was remembered before or went out.
pub proof fn payloads_go_first(data: Seq<(Seq<char>, BlobModel)>, sent: Seq<Seq<char>>, k: int)
    requires
        0 <= k <= data.len(),
    ensures
        forall|i: int|
            0 <= i < k ==> sent.contains((#[trigger] data[i]).0) || carries(
                unsent(data, sent, k).0,
                data[i].0,
            ),
        forall|h: Seq<char>| #[trigger]
            unsent(data, sent, k).1.contains(h) ==> sent.contains(h) || carries(
                unsent(data, sent, k).0,
                h,
            ),
    decreases k,
{
    if k > 0 {
        payloads_go_first(data, sent, k - 1);
        let (out, before) = unsent(data, sent, k - 1);
        let (all, after) = unsent(data, sent, k);
        let (hash, blob) = data[k - 1];
        if !before.contains(hash) {
            assert(all =~= out + seq![(hash, blob)]);
            carried_on(out, seq![(hash, blob)]);
            assert(all.last().0 == hash);
            assert(carries(all, hash));
            assert forall|h: Seq<char>| #[trigger] after.contains(h) implies sent.contains(h)
                || carries(all, h) by {
                let i = choose|i: int| 0 <= i < after.len() && after[i] == h;
                if i == after.len() - 1 {
                    assert(h == hash);
                } else if before.len() >= SENT_CAP {
                    assert(before[i + 1] == h);
                    assert(before.contains(h));
                } else {
                    assert(before[i] == h);
                    assert(before.contains(h));
                }
            }
        }
        assert forall|i: int| 0 <= i < k implies sent.contains((#[trigger] data[i]).0) || carries(
            all,
            data[i].0,
        ) by {
            if i == k - 1 && before.contains(hash) {
                assert(sent.contains(hash) || carries(out, hash));
            }
        }
    }
}

/// All payloads that went out over a connection that pushed frames with some payloads, and the keys
/// that are remembered in the end.
pub open spec fn sent_over(frames: Seq<Seq<(Seq<char>, BlobModel)>>) -> (
    Seq<(Seq<char>, BlobModel)>,
    Seq<Seq<char>>,
)
    decreases frames.len(),
{
    if frames.len() == 0 {
        (Seq::empty(), Seq::empty())
    } else {
        let (out, keys) = sent_over(frames.drop_last());
        let (more, after) = unsent(frames.last(), keys, frames.last().len() as int);
        (out + more, after)
    }
}

proof fn remembered_went_out(frames: Seq<Seq<(Seq<char>, BlobModel)>>)
    ensures
        forall|h: Seq<char>| #[trigger]
            sent_over(frames).1.contains(h) ==> carries(sent_over(frames).0, h),
    decreases frames.len(),
{
    if frames.len() > 0 {
        remembered_went_out(frames.drop_last());
        let (out, keys) = sent_over(frames.drop_last());
        let data = frames.last();
        payloads_go_first(data, keys, data.len() as int);
        carried_on(out, unsent(data, keys, data.len() as int).0);
    }
}

/// Once a frame has gone out over a connection, every payload that it carries has, however many
/// there were.
pub proof fn frames_find_their_payloads(
    frames: Seq<Seq<(Seq<char>, BlobModel)>>,
    n: int,
    i: int,
)
    requires
        0 <= n < frames.len(),
        0 <= i < frames[n].len(),
    ensures
        carries(sent_over(frames.take(n + 1)).0, frames[n][i].0),
{
    let upto = frames.take(n + 1);
    let (out, keys) = sent_over(upto.drop_last());
    let data = frames[n];
    assert(upto.last() == data);
    remembered_went_out(upto.drop_last());
    payloads_go_first(data, keys, data.len() as int);
    carried_on(out, unsent(data, keys, data.len() as int).0);
}

// Connecting, and connecting again.

/// What the client does next.
pub enum Next {
    /// Starts the session if it is not running, and pushes it.
    Push { start: bool, report_up: bool },
    /// Waits and tries again. The outage is told once.
    Wait { report_down: Option<String> },
    /// Gives up. Where the session is running the terminal is told first.
    GiveUp { announce: bool, error: String },
    /// The session is over.
    Done,
}

/// What the client knows while it connects.
pub struct Connecting {
    /// The session is running.
    pub started: bool,
    /// The outage was told.
    pub down: bool,
}

/// A failure that trying again cannot mend: where the session is running, the terminal is told
/// before the error goes out.
pub fn fatal(started: bool, msg: String) -> (r: Next)
    ensures
        r == (Next::GiveUp { announce: started, error: msg }),
{
    Next::GiveUp { announce: started, error: msg }
}

impl Connecting {
    /// At first nothing runs, unless the session is to run without the hub.
    pub fn new(eager_start: bool) -> (r: Connecting)
        ensures
            r == (Connecting { started: eager_start, down: false }),
    {
        Connecting { started: eager_start, down: false }
    }

    /// The hub took the connection.
    pub fn on_connected(&mut self) -> (r: Next)
        ensures
            r == (Next::Push { start: !old(self).started, report_up: old(self).down && old(self).started }),
            *final(self) == (Connecting { started: true, down: false }),
    {
        let r = Next::Push { start: !self.started, report_up: self.down && self.started };
        self.started = true;
        self.down = false;
        r
    }

    /// The hub did not take the connection.
    pub fn on_refused(&mut self, err: ConnErr) -> (r: Next)
        ensures
            err is Forbidden ==> (r matches Next::GiveUp { announce, error } && announce == old(
                self,
            ).started && error@ == forbidden_text()),
            err matches ConnErr::Incompatible(msg) ==> (r matches Next::GiveUp { announce, error }
                && announce == old(self).started && error@ == msg@),
            err matches ConnErr::Retry(cause) ==> (r matches Next::Wait { report_down } && (
            report_down is Some <==> !old(self).down) && (report_down is Some ==> (
            report_down->Some_0)@ == notice_text(cause))),
            *final(self) == (Connecting { down: old(self).down || err is Retry, ..*old(self) }),
    {
        match err {
            ConnErr::Forbidden => {
                let mut error: String = String::new();
                error.append(forbidden_message());
                proof {
                    assert(error@ =~= forbidden_text());
                }
                fatal(self.started, error)
            },
            ConnErr::Incompatible(msg) => fatal(self.started, msg),
            ConnErr::Retry(cause) => {
                let report_down = if self.down {
                    None
                } else {
                    Some(notice(cause))
                };
                self.down = true;
                Next::Wait { report_down }
            },
        }
    }

    /// The connection ended.
    pub fn on_end(&self, end: End) -> (r: Next)
        ensures
            end == End::LiveDone <==> r is Done,
            end == End::Disconnected ==> r == (Next::Wait { report_down: None }),
            end == End::Replaced ==> (r matches Next::GiveUp { announce, error } && !announce
                && error@
                == "this push connection was replaced by a newer client for the same session"@),
    {
        match end {
            End::LiveDone => Next::Done,
            End::Disconnected => Next::Wait { report_down: None },
            End::Replaced => {
                let mut error: String = String::new();
                error.append(
                    "this push connection was replaced by a newer client for the same session",
                );
                proof {
                    assert(error@
                        =~= "this push connection was replaced by a newer client for the same session"@);
                }
                Next::GiveUp { announce: false, error }
            },
        }
    }
}

// What is kept and what is cut.

/// Of the keys that were sent only the oldest is forgotten, and only where there are 4096 of them.
/// The last one sent comes last.
pub proof fn the_oldest_key_is_forgotten(keys: Seq<Seq<char>>, hash: Seq<char>, i: int)
    requires
        0 <= i < keys.len(),
    ensures
        i > 0 || keys.len() < 4096 || keys.contains(hash) ==> with_sent(keys, hash).contains(keys[i]),
        !keys.contains(hash) ==> with_sent(keys, hash).last() == hash,
        !keys.contains(hash) && keys.len() < 4096 ==> with_sent(keys, hash).len() == keys.len() + 1,
{
    let after = with_sent(keys, hash);
    if keys.contains(hash) {
        assert(after[i] == keys[i]);
    } else if keys.len() < 4096 {
        assert(after[i] == keys[i]);
    } else if i > 0 {
        assert(after[i - 1] == keys[i]);
    }
}

/// What goes out for a frame is payloads of the frame, as they are, and none that the hub has.
pub proof fn only_missing_payloads_go_out(
    data: Seq<(Seq<char>, BlobModel)>,
    sent: Seq<Seq<char>>,
    k: int,
    j: int,
)
    requires
        0 <= k <= data.len(),
        sent.len() + k <= 4096,
        0 <= j < unsent(data, sent, k).0.len(),
    ensures
        data.take(k).contains(unsent(data, sent, k).0[j]),
        !sent.contains(unsent(data, sent, k).0[j].0),
        forall|l: int|
            0 <= l < j ==> (#[trigger] unsent(data, sent, k).0[l]).0 != unsent(data, sent, k).0[j].0,
    decreases k,
{
    sent_stays(data, sent, k - 1);
    let (out, keys) = unsent(data, sent, k - 1);
    let (all, after) = unsent(data, sent, k);
    let front = data.take(k - 1);
    if j < out.len() {
        only_missing_payloads_go_out(data, sent, k - 1, j);
        assert(all[j] == out[j]);
        let m = choose|m: int| 0 <= m < front.len() && front[m] == out[j];
        assert(data.take(k)[m] == all[j]);
        assert forall|l: int| 0 <= l < j implies (#[trigger] all[l]).0 != all[j].0 by {
            assert(all[l] == out[l]);
        }
    } else {
        assert(all[j] == data[k - 1]);
        assert(data.take(k)[k - 1] == all[j]);
        assert forall|l: int| 0 <= l < j implies (#[trigger] all[l]).0 != all[j].0 by {
            assert(all[l] == out[l]);
        }
    }
}

proof fn sent_stays(data: Seq<(Seq<char>, BlobModel)>, sent: Seq<Seq<char>>, k: int)
    requires
        k <= data.len(),
        sent.len() + k <= 4096,
    ensures
        ({
            let (out, keys) = unsent(data, sent, k);
            &&& forall|h: Seq<char>| sent.contains(h) ==> #[trigger] keys.contains(h)
            &&& forall|j: int| 0 <= j < out.len() ==> keys.contains((#[trigger] out[j]).0)
            &&& k >= 0 ==> keys.len() <= sent.len() + k
            &&& k <= 0 ==> keys == sent && out.len() == 0
        }),
    decreases k,
{
    if k > 0 {
        sent_stays(data, sent, k - 1);
        let (out, keys) = unsent(data, sent, k - 1);
        let (all, after) = unsent(data, sent, k);
        let hash = data[k - 1].0;
        if !keys.contains(hash) {
            assert(after == keys.push(hash));
            assert(after.last() == hash);
            assert forall|h: Seq<char>| keys.contains(h) implies #[trigger] after.contains(h) by {
                let i = choose|i: int| 0 <= i < keys.len() && keys[i] == h;
                assert(after[i] == h);
            }
            assert forall|h: Seq<char>| sent.contains(h) implies #[trigger] after.contains(h) by {
                assert(keys.contains(h));
            }
            assert forall|j: int| 0 <= j < all.len() implies after.contains(
                (#[trigger] all[j]).0,
            ) by {
                if j < out.len() {
                    assert(all[j] == out[j]);
                    assert(keys.contains(out[j].0));
                }
            }
        }
    }
}

/// A text that holds no control character is shown as it is, up to 64 characters. A control
/// character is left out, and what stands around it moves together.
pub proof fn plain_versions_are_shown(s: Seq<char>, a: Seq<char>, c: char, b: Seq<char>)
    ensures
        control_free(s) && s.len() <= 64 ==> neutered(s) == s,
        control_free(s) && s.len() > 64 ==> neutered(s) == s.take(64),
        is_control(c) ==> neutered(a.push(c) + b) == neutered(a + b),
    decreases s.len(), b.len(),
{
    if s.len() > 0 {
        let front = s.drop_last();
        plain_versions_are_shown(front, a, c, b);
        if control_free(s) {
            assert(control_free(front)) by {
                assert forall|i: int| 0 <= i < front.len() implies !is_control(
                    #[trigger] front[i],
                ) by {
                    assert(!is_control(s[i]));
                }
            }
            assert(!is_control(s[s.len() - 1]));
            assert(front.push(s.last()) =~= s);
            if s.len() == 65 {
                assert(front =~= s.take(64));
            } else if s.len() > 65 {
                assert(front.take(64) =~= s.take(64));
            }
        }
    } else if b.len() > 0 {
        plain_versions_are_shown(s, a, c, b.drop_last());
        assert((a.push(c) + b).drop_last() =~= a.push(c) + b.drop_last());
        assert((a + b).drop_last() =~= a + b.drop_last());
    } else {
        assert((a.push(c) + b).drop_last() =~= a);
        assert(a + b =~= a);
        assert((a.push(c) + b).last() == c);
    }
}

/// An address loses the slashes at its end and nothing else.
pub proof fn addresses_end_without_slashes(s: Seq<char>, i: int)
    ensures
        ({
            let t = without_slashes(s);
            &&& t.len() <= s.len() && t == s.take(t.len() as int)
            &&& t.len() > 0 ==> t.last() != '/'
            &&& t.len() <= i < s.len() ==> s[i] == '/'
        }),
    decreases s.len(),
{
    if s.len() > 0 && s.last() == '/' {
        addresses_end_without_slashes(s.drop_last(), i);
        let t = without_slashes(s);
        assert(s.drop_last().take(t.len() as int) =~= s.take(t.len() as int));
        if t.len() <= i < s.len() - 1 {
            assert(s.drop_last()[i] == s[i]);
        }
    } else {
        assert(s.take(s.len() as int) =~= s);
    }
}

/// A hub that answers no ping is given up at the third: two go out, and no more.
pub proof fn two_pings_go_without_a_pong(missed: u32)
    ensures
        missed < MAX_MISSED_PONGS <==> missed <= 1,
        PROTOCOL_VERSION == 1,
        MAX_WS_MESSAGE == 16 * 1024 * 1024,
{
}

} // verus!
