//! The options of the command line, and what each of them makes the program do.
use vstd::prelude::*;
use vstd::string::{StrSliceExecFns, StringExecFns};

use crate::api::{PushOptions, ServeOptions};
use crate::client::{trim_base_url, without_slashes};
use crate::number::{number_in, read_number, written_numbers_are_read};
use crate::session::{
    default_log_path, default_socket_path, frame_bytes, joined_path, write_frame, C_HELLO,
};
use crate::text::{digits, texts};

verus! {

// Sizes.

/// What is wrong with a size.
#[derive(Clone, Copy, Debug, PartialEq, Eq, Structural)]
pub enum SizeError {
    /// Nothing parts the width from the height.
    NoCross,
    /// The width is no number that fits.
    BadWidth,
    /// The height is no number that fits.
    BadHeight,
    /// One of the two is zero.
    Zero,
}

/// Whether a character parts the width from the height.
pub open spec fn is_cross(c: char) -> bool {
    c == 'x' || c == 'X'
}

/// Where the width ends, or how long the text is.
pub open spec fn cross_at(s: Seq<char>, i: int) -> int
    decreases s.len() - i,
{
    if 0 <= i < s.len() && !is_cross(s[i]) {
        cross_at(s, i + 1)
    } else {
        i
    }
}

/// A number that is the length of a side.
pub open spec fn side_in(s: Seq<char>) -> Option<u16> {
    match number_in(s) {
        Some(v) => if v <= u16::MAX {
            Some(v as u16)
        } else {
            None
        },
        None => None,
    }
}

/// The columns and rows that a text such as `160x50` spells.
pub open spec fn size_in(s: Seq<char>) -> Result<(u16, u16), SizeError> {
    let x = cross_at(s, 0);
    if x >= s.len() {
        Err(SizeError::NoCross)
    } else {
        match side_in(s.take(x)) {
            None => Err(SizeError::BadWidth),
            Some(w) => match side_in(s.skip(x + 1)) {
                None => Err(SizeError::BadHeight),
                Some(h) => if w == 0 || h == 0 {
                    Err(SizeError::Zero)
                } else {
                    Ok((w, h))
                },
            },
        }
    }
}

/// Reads a size: columns and rows.
pub fn parse_size(s: &str) -> (r: Result<(u16, u16), SizeError>)
    ensures
        r == size_in(s@),
{
    let n: usize = s.unicode_len();
    let mut x: usize = 0;
    while x < n && s.get_char(x) != 'x' && s.get_char(x) != 'X'
        invariant
            n == s@.len(),
            x <= n,
            cross_at(s@, 0) == cross_at(s@, x as int),
        decreases n - x,
    {
        x = x + 1;
    }
    if x >= n {
        return Err(SizeError::NoCross);
    }
    proof {
        assert(s@.subrange(0, x as int) =~= s@.take(x as int));
        assert(s@.subrange(x + 1, n as int) =~= s@.skip(x + 1));
    }
    let w: u16 = match read_number(s, 0, x, u16::MAX as u32) {
        Some(v) => v as u16,
        None => {
            return Err(SizeError::BadWidth);
        },
    };
    let h: u16 = match read_number(s, x + 1, n, u16::MAX as u32) {
        Some(v) => v as u16,
        None => {
            return Err(SizeError::BadHeight);
        },
    };
    if w == 0 || h == 0 {
        return Err(SizeError::Zero);
    }
    Ok((w, h))
}

// The command that is mirrored.

/// The texts in a row, parted by blanks.
pub open spec fn joined(words: Seq<Seq<char>>) -> Seq<char>
    decreases words.len(),
{
    if words.len() == 0 {
        Seq::empty()
    } else if words.len() == 1 {
        words[0]
    } else {
        joined(words.drop_last()) + " "@ + words.last()
    }
}

/// The user's shell: what the environment names, else the one that every system has.
pub fn default_shell(shell: Option<String>) -> (r: String)
    ensures
        shell is Some ==> r == shell->Some_0,
        shell is None ==> r@ == "/bin/sh"@,
{
    match shell {
        Some(s) => s,
        None => {
            let mut r: String = String::new();
            r.append("/bin/sh");
            proof {
                assert(r@ =~= "/bin/sh"@);
            }
            r
        },
    }
}

/// What is mirrored, and how.
#[derive(Debug)]
pub struct SourceArgs {
    pub config: Option<String>,
    pub sixel_compat: bool,
    pub command: Vec<String>,
}

/// The words of the command that is mirrored.
pub open spec fn command_words(args: SourceArgs, shell: Option<String>) -> Seq<Seq<char>> {
    if args.command@.len() > 0 {
        texts(args.command@)
    } else if shell is Some {
        seq![(shell->Some_0)@]
    } else {
        seq!["/bin/sh"@]
    }
}

impl SourceArgs {
    /// The command that is mirrored: the one given, else the user's shell.
    pub fn command(&self, shell: Option<String>) -> (r: Vec<String>)
        ensures
            texts(r@) == command_words(*self, shell),
            r@.len() > 0,
    {
        let mut r: Vec<String> = Vec::new();
        if self.command.len() == 0 {
            r.push(default_shell(shell));
        } else {
            for i in 0..self.command.len()
                invariant
                    r@.len() == i,
                    texts(r@) =~= texts(self.command@).take(i as int),
            {
                r.push(self.command[i].clone());
            }
        }
        proof {
            assert(texts(r@) =~= command_words(*self, shell));
            assert(texts(r@).len() == r@.len());
        }
        r
    }
}

/// The command that is mirrored, for the line that is shown at the start.
pub fn describe_source(source: &SourceArgs, shell: Option<String>) -> (r: String)
    ensures
        r@ == "`"@ + joined(command_words(*source, shell)) + "`"@,
{
    let words = source.command(shell);
    let ghost all = command_words(*source, shell);
    let mut r: String = String::new();
    r.append("`");
    proof {
        assert(all.take(0) =~= Seq::empty());
    }
    for i in 0..words.len()
        invariant
            texts(words@) == all,
            r@ =~= "`"@ + joined(all.take(i as int)),
    {
        proof {
            assert(all[i as int] == words@[i as int]@);
            assert(all.take(i + 1).drop_last() =~= all.take(i as int));
            assert(all.take(i + 1).last() == all[i as int]);
        }
        if i > 0 {
            r.append(" ");
        }
        r.append(words[i].as_str());
        proof {
            if i == 0 {
                assert(all.take(0) =~= Seq::empty());
            }
        }
    }
    r.append("`");
    proof {
        assert(all.take(all.len() as int) =~= all);
        assert(r@ =~= "`"@ + joined(all) + "`"@);
    }
    r
}

// Serving.

/// The options of `serve`.
#[derive(Debug)]
pub struct ServeArgs {
    pub source: SourceArgs,
    pub bind: String,
    pub cors_origin: Vec<String>,
    pub ssh_bind: Option<String>,
    pub ssh_host_key: Option<String>,
    pub ssh_motd_file: Option<String>,
    pub ssh_motd_delay: u64,
    pub record_dir: Option<String>,
}

impl ServeArgs {
    /// What is served, and how.
    pub fn options(self, shell: Option<String>) -> (r: (SourceArgs, ServeOptions))
        ensures
            r.0 == self.source,
            r.1.bind == self.bind,
            r.1.cors_origins == self.cors_origin,
            r.1.ssh_bind == self.ssh_bind,
            r.1.ssh_host_key == self.ssh_host_key,
            r.1.ssh_motd_file == self.ssh_motd_file,
            r.1.ssh_motd_delay == self.ssh_motd_delay,
            r.1.record_dir == self.record_dir,
            r.1.source_label@ == "`"@ + joined(command_words(self.source, shell)) + "`"@,
    {
        let label = describe_source(&self.source, shell);
        let mut o = ServeOptions::new(self.bind);
        o.cors_origins = self.cors_origin;
        o.ssh_bind = self.ssh_bind;
        o.ssh_host_key = self.ssh_host_key;
        o.ssh_motd_file = self.ssh_motd_file;
        o.ssh_motd_delay = self.ssh_motd_delay;
        o.record_dir = self.record_dir;
        o.source_label = label;
        (self.source, o)
    }
}

// Pushing.

/// A secret key.
#[derive(Debug)]
pub struct KeyArg {
    pub key: String,
}

/// What a system adds to the salt that ids are derived with.
#[derive(Debug)]
pub struct IdSaltArg {
    pub id_salt: String,
}

impl Default for IdSaltArg {
    /// Nothing is added.
    fn default() -> (r: IdSaltArg)
        ensures
            r.id_salt@ == Seq::<char>::empty(),
    {
        IdSaltArg { id_salt: String::new() }
    }
}

/// The options of `push`.
#[derive(Debug)]
pub struct PushArgs {
    pub url: String,
    pub key: KeyArg,
    pub source: SourceArgs,
    pub no_record: bool,
    pub detachable: bool,
    pub socket: Option<String>,
    pub size: String,
    pub daemon: bool,
    pub log_file: Option<String>,
}

/// What goes into the background: the lines for the user, and where the rest is logged.
#[derive(Debug)]
pub struct Daemon {
    pub info: String,
    pub log: String,
}

/// A session without a terminal of its own.
#[derive(Debug)]
pub struct Detached {
    pub command: Vec<String>,
    pub socket: String,
    pub size: (u16, u16),
}

/// The socket of a session: the one given, else the one named after its id.
pub open spec fn socket_of(socket: Option<String>, runtime_dir: Seq<char>, id: Seq<char>) -> Seq<
    char,
> {
    match socket {
        Some(s) => s@,
        None => joined_path(runtime_dir, "shellglass-"@ + id + ".sock"@),
    }
}

/// The log of a session: the one given, else the one named after its id.
pub open spec fn log_of(log: Option<String>, runtime_dir: Seq<char>, id: Seq<char>) -> Seq<char> {
    match log {
        Some(s) => s@,
        None => joined_path(runtime_dir, "shellglass-"@ + id + ".log"@),
    }
}

/// What is told before the session goes into the background.
pub open spec fn daemon_text(socket: Seq<char>, log: Seq<char>) -> Seq<char> {
    "shellglass: daemonized detached session on "@ + socket
        + "\nshellglass: attach with `shellglass attach "@ + socket + "`\nshellglass: logging to "@
        + log + "\n"@
}

fn daemon_info(socket: &String, log: &String) -> (r: String)
    ensures
        r@ == daemon_text(socket@, log@),
{
    let mut r: String = String::new();
    r.append("shellglass: daemonized detached session on ");
    r.append(socket.as_str());
    r.append("\nshellglass: attach with `shellglass attach ");
    r.append(socket.as_str());
    r.append("`\nshellglass: logging to ");
    r.append(log.as_str());
    r.append("\n");
    proof {
        assert(r@ =~= daemon_text(socket@, log@));
    }
    r
}

/// The lines that tell where a session without a terminal is reached.
pub fn detached_info(socket: &str) -> (r: String)
    ensures
        r@ == "shellglass: detached session on "@ + socket@
            + "\nshellglass: attach with `shellglass attach "@ + socket@ + "`\n"@,
{
    let mut r: String = String::new();
    r.append("shellglass: detached session on ");
    r.append(socket);
    r.append("\nshellglass: attach with `shellglass attach ");
    r.append(socket);
    r.append("`\n");
    proof {
        assert(r@ =~= "shellglass: detached session on "@ + socket@
            + "\nshellglass: attach with `shellglass attach "@ + socket@ + "`\n"@);
    }
    r
}

/// The line that tells where a session is pushed to.
pub fn push_banner(url: &str) -> (r: String)
    ensures
        r@ == "shellglass: pushing live to "@ + without_slashes(url@),
{
    let mut r: String = String::new();
    r.append("shellglass: pushing live to ");
    let base = trim_base_url(url);
    r.append(base.as_str());
    proof {
        assert(r@ =~= "shellglass: pushing live to "@ + without_slashes(url@));
    }
    r
}

impl PushArgs {
    /// Whether the session's id is needed. To derive one takes time, so it is done only then.
    pub fn needs_id(&self) -> (r: bool)
        ensures
            r == (self.daemon || (self.detachable && self.socket is None)),
    {
        self.daemon || (self.detachable && self.socket.is_none())
    }

    /// What goes into the background, if the options ask for that. A size that cannot be read is
    /// told of while there is still a terminal to tell it on. The socket is settled here, so that
    /// nothing has to derive it again.
    pub fn daemonize_if_requested(&mut self, runtime_dir: &str, id: &str) -> (r: Result<
        Option<Daemon>,
        SizeError,
    >)
        ensures
            match r {
                Err(e) => old(self).daemon && size_in(old(self).size@) == Err::<(u16, u16), _>(e)
                    && *final(self) == *old(self),
                Ok(None) => !old(self).daemon && *final(self) == *old(self),
                Ok(Some(d)) => {
                    let socket = socket_of(old(self).socket, runtime_dir@, id@);
                    let log = log_of(old(self).log_file, runtime_dir@, id@);
                    &&& old(self).daemon
                    &&& size_in(old(self).size@) is Ok
                    &&& final(self).socket is Some
                    &&& (final(self).socket->Some_0)@ == socket
                    &&& *final(self) == (PushArgs { socket: final(self).socket, ..*old(self) })
                    &&& d.log@ == log
                    &&& d.info@ == daemon_text(socket, log)
                },
            },
    {
        if !self.daemon {
            return Ok(None);
        }
        if let Err(e) = parse_size(self.size.as_str()) {
            return Err(e);
        }
        let socket: String = match &self.socket {
            Some(s) => s.clone(),
            None => default_socket_path(runtime_dir, id),
        };
        let log: String = match &self.log_file {
            Some(s) => s.clone(),
            None => default_log_path(runtime_dir, id),
        };
        let info = daemon_info(&socket, &log);
        self.socket = Some(socket);
        Ok(Some(Daemon { info, log }))
    }

    /// The session without a terminal that the options ask for, if they do.
    pub fn detached(&self, shell: Option<String>, runtime_dir: &str, id: &str) -> (r: Result<
        Option<Detached>,
        SizeError,
    >)
        ensures
            match r {
                Err(e) => self.detachable && size_in(self.size@) == Err::<(u16, u16), _>(e),
                Ok(None) => !self.detachable,
                Ok(Some(d)) => {
                    &&& self.detachable
                    &&& texts(d.command@) == command_words(self.source, shell)
                    &&& d.socket@ == socket_of(self.socket, runtime_dir@, id@)
                    &&& size_in(self.size@) == Ok::<_, SizeError>(d.size)
                },
            },
    {
        if !self.detachable {
            return Ok(None);
        }
        let socket: String = match &self.socket {
            Some(s) => s.clone(),
            None => default_socket_path(runtime_dir, id),
        };
        match parse_size(self.size.as_str()) {
            Err(e) => Err(e),
            Ok(size) => Ok(
                Some(Detached { command: self.source.command(shell), socket, size }),
            ),
        }
    }

    /// What is pushed, and how.
    pub fn options(self) -> (r: (SourceArgs, PushOptions))
        ensures
            r.0 == self.source,
            r.1 == (PushOptions {
                url: self.url,
                key: self.key.key,
                no_record: self.no_record,
                eager_start: false,
            }),
    {
        let mut o = PushOptions::new(self.url, self.key.key);
        o.no_record = self.no_record;
        (self.source, o)
    }
}

/// The socket that the background process uses is the one that its launcher told.
pub proof fn daemon_keeps_its_socket(
    before: PushArgs,
    after: PushArgs,
    runtime_dir: Seq<char>,
    id: Seq<char>,
    later_dir: Seq<char>,
    later_id: Seq<char>,
)
    requires
        after.socket is Some,
        (after.socket->Some_0)@ == socket_of(before.socket, runtime_dir, id),
    ensures
        socket_of(after.socket, later_dir, later_id) == socket_of(before.socket, runtime_dir, id),
{
}

// Attaching.

/// The options of `attach`.
#[derive(Debug)]
pub struct AttachArgs {
    pub socket: String,
    pub force: bool,
}

impl AttachArgs {
    /// Where to connect, and the frame that comes first there.
    pub fn run(self) -> (r: (String, Vec<u8>))
        ensures
            r.0 == self.socket,
            r.1@ == frame_bytes(C_HELLO, seq![if self.force { 1u8 } else { 0u8 }]),
    {
        let force: u8 = if self.force {
            1
        } else {
            0
        };
        let payload: Vec<u8> = vec![force];
        let hello = write_frame(C_HELLO, payload.as_slice());
        proof {
            assert(payload@ =~= seq![force]);
        }
        (self.socket, hello)
    }
}

// Keys.

/// What is printed of a key and its id.
pub open spec fn key_text(api: bool, key: Seq<char>, id: Seq<char>) -> Seq<char> {
    if api {
        "key:    "@ + key + "\napi-id: "@ + id + "\n"@
    } else {
        "key: "@ + key + "\nid:  "@ + id + "\n"@
    }
}

/// What is printed of a key and its id. A key of the management API has an id of its own kind.
pub fn key_lines(api: bool, key: &str, id: &str) -> (r: String)
    ensures
        r@ == key_text(api, key@, id@),
{
    let mut r: String = String::new();
    if api {
        r.append("key:    ");
        r.append(key);
        r.append("\napi-id: ");
    } else {
        r.append("key: ");
        r.append(key);
        r.append("\nid:  ");
    }
    r.append(id);
    r.append("\n");
    proof {
        assert(r@ =~= key_text(api, key@, id@));
    }
    r
}

/// The bytes that a key is drawn from.
pub const KEY_BYTES: usize = 32;

/// The failure of the system's source of randomness.
#[verifier::external_type_specification]
#[verifier::external_body]
pub struct ExRandomError(getrandom::Error);

/// Calls `getrandom::fill`, which overwrites the bytes with random ones or fails. Nothing is said
/// of what they are: each call draws anew.
#[verifier::external_body]
fn fill_random(bytes: &mut Vec<u8>) -> (r: Result<(), getrandom::Error>)
    ensures
        final(bytes)@.len() == old(bytes)@.len(),
{
    getrandom::fill(bytes.as_mut_slice())
}

/// The base64 text of bytes, in the alphabet for addresses and without padding.
pub uninterp spec fn base64_url_text(bytes: Seq<u8>) -> Seq<char>;

/// Whether a character is of the alphabet for addresses.
pub open spec fn url_safe(c: char) -> bool {
    'A' <= c <= 'Z' || 'a' <= c <= 'z' || '0' <= c <= '9' || c == '-' || c == '_'
}

/// Calls `Engine::encode` of base64 with `URL_SAFE_NO_PAD`. The text depends on the bytes alone,
/// holds only characters of that alphabet, and has four of them for each three bytes, one more than
/// the bytes left over for a group that is not full. How it spells the bytes is not stated.
#[verifier::external_body]
fn encode_url_safe(bytes: &Vec<u8>) -> (r: String)
    requires
        bytes@.len() <= 0xFFFF,
    ensures
        r@ == base64_url_text(bytes@),
        r@.len() == bytes@.len() / 3 * 4 + (if bytes@.len() % 3 == 0 {
            0
        } else {
            bytes@.len() % 3 + 1
        }),
        forall|i: int| 0 <= i < r@.len() ==> url_safe(#[trigger] r@[i]),
{
    base64::Engine::encode(&base64::engine::general_purpose::URL_SAFE_NO_PAD, bytes)
}

/// The key that drawn bytes make.
pub fn key_of(bytes: &Vec<u8>) -> (r: String)
    requires
        bytes@.len() == KEY_BYTES,
    ensures
        r@ == base64_url_text(bytes@),
        r@.len() == 43,
        forall|i: int| 0 <= i < r@.len() ==> url_safe(#[trigger] r@[i]),
{
    encode_url_safe(bytes)
}

/// What comes of drawing bytes for a key: the key that they make, or the failure of the draw as it
/// is.
pub fn minted(drawn: Result<(), getrandom::Error>, bytes: &Vec<u8>) -> (r: Result<
    String,
    getrandom::Error,
>)
    requires
        bytes@.len() == KEY_BYTES,
    ensures
        match drawn {
            Ok(_) => {
                &&& r is Ok
                &&& (r->Ok_0)@ == base64_url_text(bytes@)
                &&& (r->Ok_0)@.len() == 43
                &&& forall|i: int| 0 <= i < (r->Ok_0)@.len() ==> url_safe(#[trigger] (r->Ok_0)@[i])
            },
            Err(e) => r == Err::<String, getrandom::Error>(e),
        },
{
    match drawn {
        Ok(_) => Ok(key_of(bytes)),
        Err(e) => Err(e),
    }
}

/// Draws a new key. It can stand in an address and in a header as it is. Whether the system's
/// source of randomness gives the bytes is up to the system, and nothing else can fail.
pub fn mint_key() -> (r: Result<String, getrandom::Error>)
    ensures
        r is Ok ==> {
            let key = (r->Ok_0)@;
            &&& key.len() == 43
            &&& forall|i: int| 0 <= i < key.len() ==> url_safe(#[trigger] key[i])
            &&& exists|bytes: Seq<u8>|
                bytes.len() == KEY_BYTES && key == #[trigger] base64_url_text(bytes)
        },
{
    let mut bytes: Vec<u8> = vec![0u8; KEY_BYTES];
    let drawn = fill_random(&mut bytes);
    minted(drawn, &bytes)
}

// The hub.

/// The options of `hub`.
#[derive(Debug)]
pub struct HubArgs {
    pub bind: String,
    pub cors_origin: Vec<String>,
    pub allow: Vec<String>,
    pub api_allow: Vec<String>,
    pub sessions_file: Option<String>,
    pub id_salt: IdSaltArg,
    pub tls_cert: Option<String>,
    pub tls_key: Option<String>,
    pub acme_domain: Vec<String>,
    pub acme_email: Option<String>,
    pub acme_cache: Option<String>,
    pub acme_production: bool,
    pub ssh_bind: Option<String>,
    pub ssh_host_key: Option<String>,
    pub ssh_motd_file: Option<String>,
    pub ssh_motd_delay: u64,
    pub record_dir: Option<String>,
}

/// How the hub ends TLS.
#[derive(Debug)]
pub enum Tls {
    /// Not at all.
    Plain,
    /// With a certificate from a file.
    Static { cert: String, key: String },
    /// With a certificate that is obtained and renewed.
    Acme {
        domains: Vec<String>,
        email: Option<String>,
        cache: Option<String>,
        production: bool,
    },
}

/// A certificate from a file and one that is obtained were both asked for.
#[derive(Clone, Copy, Debug, PartialEq, Eq, Structural)]
pub struct TlsConflict {}

impl TlsConflict {
    /// What the operator is told.
    pub fn message(&self) -> (r: &'static str)
        ensures
            r@ == "use either --tls-cert/--tls-key or --acme-domain, not both"@,
    {
        "use either --tls-cert/--tls-key or --acme-domain, not both"
    }
}

fn copy_texts(v: &Vec<String>) -> (r: Vec<String>)
    ensures
        r@ == v@,
{
    let mut r: Vec<String> = Vec::new();
    for i in 0..v.len()
        invariant
            r@ =~= v@.take(i as int),
    {
        r.push(v[i].clone());
    }
    proof {
        assert(v@.take(v@.len() as int) =~= v@);
    }
    r
}

fn copy_option(o: &Option<String>) -> (r: Option<String>)
    ensures
        r == *o,
{
    match o {
        Some(s) => Some(s.clone()),
        None => None,
    }
}

impl Tls {
    /// How the hub ends TLS, as its options say. A certificate comes with its key.
    pub fn from_args(a: &HubArgs) -> (r: Result<Tls, TlsConflict>)
        requires
            a.tls_cert is Some ==> a.tls_key is Some,
        ensures
            match r {
                Err(_) => a.tls_cert is Some && a.acme_domain@.len() > 0,
                Ok(Tls::Plain) => a.tls_cert is None && a.acme_domain@.len() == 0,
                Ok(Tls::Static { cert, key }) => a.acme_domain@.len() == 0 && a.tls_cert == Some(
                    cert,
                ) && a.tls_key == Some(key),
                Ok(Tls::Acme { domains, email, cache, production }) => a.tls_cert is None
                    && domains@ == a.acme_domain@ && domains@.len() > 0 && email == a.acme_email
                    && cache == a.acme_cache && production == a.acme_production,
            },
    {
        let acme: bool = a.acme_domain.len() > 0;
        match (&a.tls_cert, &a.tls_key) {
            (Some(cert), Some(key)) => {
                if acme {
                    Err(TlsConflict {  })
                } else {
                    Ok(Tls::Static { cert: cert.clone(), key: key.clone() })
                }
            },
            _ => {
                if acme {
                    Ok(
                        Tls::Acme {
                            domains: copy_texts(&a.acme_domain),
                            email: copy_option(&a.acme_email),
                            cache: copy_option(&a.acme_cache),
                            production: a.acme_production,
                        },
                    )
                } else {
                    Ok(Tls::Plain)
                }
            },
        }
    }

    /// The address that viewers reach the hub at: its domain, where it has one.
    pub open spec fn base(self, local: Seq<char>) -> Seq<char> {
        match self {
            Tls::Plain => "http://"@ + local,
            Tls::Static { .. } => "https://"@ + local,
            Tls::Acme { domains, .. } => "https://"@ + (if domains@.len() > 0 {
                domains@[0]@
            } else {
                "localhost"@
            }),
        }
    }

    /// The address that viewers reach the hub at.
    pub fn base_url(&self, local: &str) -> (r: String)
        ensures
            r@ == self.base(local@),
    {
        let mut r: String = String::new();
        match self {
            Tls::Plain => {
                r.append("http://");
                r.append(local);
            },
            Tls::Static { .. } => {
                r.append("https://");
                r.append(local);
            },
            Tls::Acme { domains, .. } => {
                r.append("https://");
                if domains.len() > 0 {
                    r.append(domains[0].as_str());
                } else {
                    r.append("localhost");
                }
            },
        }
        proof {
            assert(r@ =~= self.base(local@));
        }
        r
    }
}

/// Where the hub has its sessions from.
#[derive(Clone, Copy, Debug, PartialEq, Eq, Structural)]
pub enum Registry {
    /// From the file.
    File,
    /// From `--allow`, which then fills the file.
    Seed,
    /// From `--allow` alone.
    Allow,
}

/// What the operator is told of where the sessions come from.
pub open spec fn registry_text(registry: Registry, path: Seq<char>) -> Seq<char> {
    if registry == Registry::File {
        "shellglass: --allow ignored \u{2014} session registry loaded from "@ + path
    } else {
        "shellglass: seeding new sessions file "@ + path + " from --allow"@
    }
}

impl HubArgs {
    /// Where the hub has its sessions from, and what the operator is told of it. A file that was
    /// there outweighs `--allow`.
    pub fn registry(&self, file_loaded: bool) -> (r: (Registry, Option<String>))
        ensures
            r.0 == if self.sessions_file is None {
                Registry::Allow
            } else if file_loaded {
                Registry::File
            } else {
                Registry::Seed
            },
            r.1 is Some <==> r.0 == Registry::Seed || (r.0 == Registry::File && self.allow@.len()
                > 0),
            r.1 is Some ==> (r.1->Some_0)@ == registry_text(r.0, (self.sessions_file->Some_0)@),
    {
        match &self.sessions_file {
            None => (Registry::Allow, None),
            Some(path) => {
                let mut told: String = String::new();
                if file_loaded {
                    if self.allow.len() == 0 {
                        return (Registry::File, None);
                    }
                    told.append("shellglass: --allow ignored \u{2014} session registry loaded from ");
                    told.append(path.as_str());
                    proof {
                        assert(told@ =~= registry_text(Registry::File, path@));
                    }
                    (Registry::File, Some(told))
                } else {
                    told.append("shellglass: seeding new sessions file ");
                    told.append(path.as_str());
                    told.append(" from --allow");
                    proof {
                        assert(told@ =~= registry_text(Registry::Seed, path@));
                    }
                    (Registry::Seed, Some(told))
                }
            },
        }
    }
}

/// Whether the hub admits nobody and nobody can change that.
pub fn rejects_everything(sessions: usize, api_ids: usize) -> (r: bool)
    ensures
        r == (sessions == 0 && api_ids == 0),
{
    sessions == 0 && api_ids == 0
}

// Managing sessions and recordings.

/// Which session is meant. An id and a slug are told apart: a slug that nobody chose is the id.
#[derive(Debug)]
pub enum RecTarget {
    Id(String),
    Slug(String),
}

/// The session that the options mean, of which one is given.
pub open spec fn target_of(id: Option<String>, slug: Option<String>) -> RecTarget {
    if id is Some {
        RecTarget::Id(id->Some_0)
    } else {
        RecTarget::Slug(slug->Some_0)
    }
}

/// The session that the options mean, of which one is given.
pub fn rec_target(id: &Option<String>, slug: &Option<String>) -> (r: RecTarget)
    requires
        id is Some || slug is Some,
    ensures
        r == target_of(*id, *slug),
{
    match id {
        Some(i) => RecTarget::Id(i.clone()),
        None => match slug {
            Some(s) => RecTarget::Slug(s.clone()),
            None => RecTarget::Slug(String::new()),
        },
    }
}

/// What is done to recordings.
#[derive(Debug)]
pub enum RecordingsCmd {
    List,
    Get { name: String, output: Option<String> },
    Delete { name: String },
}

/// The options of `recordings`: the key names the session, so there is no other choice of one.
#[derive(Debug)]
pub struct RecordingsArgs {
    pub url: String,
    pub key: KeyArg,
    pub cmd: RecordingsCmd,
}

/// What is done to sessions.
#[allow(inconsistent_fields)]
#[derive(Debug)]
pub enum SessionsCmd {
    List,
    Add { id: String, slug: Option<String> },
    Remove { id: Option<String>, slug: Option<String> },
    Recordings { id: Option<String>, slug: Option<String>, cmd: RecordingsCmd },
}

/// The options of `sessions`.
#[derive(Debug)]
pub struct SessionsArgs {
    pub url: String,
    pub key: String,
    pub cmd: SessionsCmd,
}

/// A request to the hub.
#[derive(Debug)]
pub enum HubRequest {
    List,
    Add { id: String, slug: Option<String> },
    Remove(RecTarget),
    Recordings { target: RecTarget, cmd: RecordingsCmd },
}

impl SessionsCmd {
    /// Whether a session is named where one is needed.
    pub open spec fn targeted(self) -> bool {
        match self {
            SessionsCmd::Remove { id, slug } => id is Some || slug is Some,
            SessionsCmd::Recordings { id, slug, .. } => id is Some || slug is Some,
            _ => true,
        }
    }
}

impl SessionsArgs {
    /// The request that the options ask for.
    pub fn run(self) -> (r: HubRequest)
        requires
            self.cmd.targeted(),
        ensures
            r == match self.cmd {
                SessionsCmd::List => HubRequest::List,
                SessionsCmd::Add { id, slug } => HubRequest::Add { id, slug },
                SessionsCmd::Remove { id, slug } => HubRequest::Remove(target_of(id, slug)),
                SessionsCmd::Recordings { id, slug, cmd } => HubRequest::Recordings {
                    target: target_of(id, slug),
                    cmd,
                },
            },
    {
        match self.cmd {
            SessionsCmd::List => HubRequest::List,
            SessionsCmd::Add { id, slug } => HubRequest::Add { id, slug },
            SessionsCmd::Remove { id, slug } => HubRequest::Remove(rec_target(&id, &slug)),
            SessionsCmd::Recordings { id, slug, cmd } => HubRequest::Recordings {
                target: rec_target(&id, &slug),
                cmd,
            },
        }
    }
}

proof fn no_cross_in_digits(n: nat, i: int)
    requires
        0 <= i < digits(n).len(),
    ensures
        '0' <= digits(n)[i] <= '9',
    decreases n,
{
    if n >= 10 && i < digits(n / 10).len() {
        no_cross_in_digits(n / 10, i);
        assert(digits(n)[i] == digits(n / 10)[i]);
    }
}

proof fn first_cross(s: Seq<char>, p: int, i: int)
    requires
        0 <= i <= p <= s.len(),
        p < s.len() ==> is_cross(s[p]),
        forall|j: int| 0 <= j < p ==> !is_cross(#[trigger] s[j]),
    ensures
        cross_at(s, i) == p,
    decreases p - i,
{
    if i < p {
        first_cross(s, p, i + 1);
    }
}

/// A size is read as its columns, an `x` and its rows. Neither can be zero, and both must fit.
pub proof fn sizes_are_columns_by_rows(w: nat, h: nat, x: char)
    requires
        x == 'x' || x == 'X',
    ensures
        ({
            let r = size_in(digits(w).push(x) + digits(h));
            &&& 0 < w <= 65535 && 0 < h <= 65535 ==> r == Ok::<(u16, u16), SizeError>(
                (w as u16, h as u16),
            )
            &&& w > 65535 ==> r == Err::<(u16, u16), SizeError>(SizeError::BadWidth)
            &&& w <= 65535 && h > 65535 ==> r == Err::<(u16, u16), SizeError>(SizeError::BadHeight)
            &&& w <= 65535 && h <= 65535 && (w == 0 || h == 0) ==> r == Err::<
                (u16, u16),
                SizeError,
            >(SizeError::Zero)
        }),
        size_in(digits(w)) == Err::<(u16, u16), SizeError>(SizeError::NoCross),
{
    let a = digits(w);
    let b = digits(h);
    let s = a.push(x) + b;
    let n = a.len() as int;
    assert forall|j: int| 0 <= j < n implies !is_cross(#[trigger] s[j]) by {
        no_cross_in_digits(w, j);
        assert(s[j] == a[j]);
    }
    assert forall|j: int| 0 <= j < n implies !is_cross(#[trigger] a[j]) by {
        no_cross_in_digits(w, j);
    }
    assert(s[n] == x);
    first_cross(s, n, 0);
    first_cross(a, n, 0);
    assert(s.take(n) =~= a);
    assert(s.skip(n + 1) =~= b);
    written_numbers_are_read(w, a, x);
    written_numbers_are_read(h, b, x);
}

/// Words are put together with a space between each two.
pub proof fn words_are_joined_by_spaces(words: Seq<Seq<char>>, more: Seq<char>)
    ensures
        joined(seq![more]) == more,
        words.len() > 0 ==> joined(words.push(more)) == joined(words).push(' ') + more,
{
    assert(words.push(more).drop_last() =~= words);
    reveal_strlit(" ");
    assert(" "@ =~= seq![' ']);
    assert(joined(words) + " "@ =~= joined(words).push(' '));
}

/// A command that is given is mirrored word by word; without one the shell is, and without that the
/// one that every system has.
pub proof fn given_commands_are_mirrored(args: SourceArgs, shell: Option<String>, i: int)
    ensures
        ({
            let words = command_words(args, shell);
            &&& args.command@.len() > 0 ==> words.len() == args.command@.len()
            &&& 0 <= i < args.command@.len() ==> words[i] == args.command@[i]@
            &&& args.command@.len() == 0 && shell is Some ==> words == seq![(shell->Some_0)@]
            &&& args.command@.len() == 0 && shell is None ==> words == seq!["/bin/sh"@]
        }),
{
}

/// What is given on the command line outweighs what would be taken else: a socket, a log, an id.
pub proof fn given_options_win(
    path: String,
    dir: Seq<char>,
    id: Seq<char>,
    session: String,
    slug: Option<String>,
)
    ensures
        socket_of(Some(path), dir, id) == path@,
        log_of(Some(path), dir, id) == path@,
        socket_of(None, dir, id) != log_of(None, dir, id),
        target_of(Some(session), slug) == RecTarget::Id(session),
        target_of(None, Some(session)) == RecTarget::Slug(session),
{
    reveal_strlit(".sock");
    reveal_strlit(".log");
    let a = socket_of(None, dir, id);
    let b = log_of(None, dir, id);
    assert(a[a.len() - 1] == 'k');
    assert(b[b.len() - 1] == 'g');
}

/// A hub is reached at its domain where it has one, else where it listens, and by TLS unless it has
/// none.
pub proof fn hubs_are_reached_at_their_domain(t: Tls, local: Seq<char>)
    ensures
        t is Plain ==> t.base(local) == "http://"@ + local,
        t is Static ==> t.base(local) == "https://"@ + local,
        t matches Tls::Acme { domains, .. } ==> domains@.len() > 0 ==> t.base(local) == "https://"@
            + domains@[0]@,
{
}

} // verus!
