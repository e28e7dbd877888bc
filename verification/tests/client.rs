use shellglass::client::{
    blob_message, check_register, classify, end_for_close, fatal, forbidden_message,
    generic_incompat_message, incompat_message, neuter, notice, parse_header_number, trim_base_url,
    Cause, ConnErr, Connecting, End, Failure, Next, PushSession, SentBlobs, MAX_MISSED_PONGS,
    MAX_SHOWN_VERSION, MAX_WS_MESSAGE, PUSH_REPLACED_CLOSE_CODE, SENT_CAP,
};
use shellglass::diff::message::{apply_text, full_message};
use shellglass::model::{Frame, Grid, ImageBlob, StyledCell};

// The 426 message names which side is behind and echoes the hub's version —
// neutered (control-strip + length cap), so a hostile hub can neither inject a
// control sequence nor flood the screen.
#[test]
fn incompat_message_names_the_side_and_stays_safe() {
    // Hub strictly newer than us (its min/max exceed our PROTOCOL_VERSION) →
    // the CLIENT is behind; the hub version is echoed.
    let m = incompat_message(Some("9.9.9"), Some("999"), Some("999"));
    assert!(m.contains("PUSH CLIENT"), "names the client: {m}");
    assert!(m.contains("9.9.9"), "echoes the hub version: {m}");
    assert!(!m.chars().any(char::is_control));

    // Hub strictly older than us (max below our PROTOCOL_VERSION) → the HUB is
    // behind.
    let m = incompat_message(Some("0.1.0"), Some("0"), Some("0"));
    assert!(m.contains("HUB"), "names the hub: {m}");
    assert!(!m.chars().any(char::is_control));

    // A giant version header is bounded by neuter — no screen flood.
    let big = "9".repeat(10_000);
    let m = incompat_message(Some(&big), Some("999"), Some("999"));
    assert!(
        !m.contains(&big),
        "oversized version is capped, not echoed whole"
    );
    assert!(m.len() < 512, "message stays bounded: {} chars", m.len());
    assert!(!m.chars().any(char::is_control));

    // Missing bounds (e.g. the header-less classify path) → generic message.
    assert!(!generic_incompat_message().chars().any(char::is_control));
    assert!(incompat_message(None, None, None).contains("426"));
}

// A permanent failure with a live source must hand the terminal back before the
// error escapes. Before any source exists there is nothing to hand back.
#[test]
fn fatal_pauses_a_live_terminal_before_returning() {
    match fatal(true, "hub rejected this key".to_string()) {
        Next::GiveUp { announce, error } => {
            assert!(announce);
            assert_eq!(error, "hub rejected this key");
        }
        _ => panic!("gives up"),
    }
    // No source yet: nothing to announce to, same error out.
    match fatal(false, "hub rejected this key".to_string()) {
        Next::GiveUp { announce, error } => {
            assert!(!announce);
            assert_eq!(error, "hub rejected this key");
        }
        _ => panic!("gives up"),
    }
}

#[test]
fn notice_is_control_free_for_every_cause() {
    for cause in [
        Cause::Connect,
        Cause::Timeout,
        Cause::BadHandshake,
        Cause::Rejected(u16::MAX),
        Cause::Other,
    ] {
        let m = notice(cause);
        assert!(
            !m.chars().any(char::is_control),
            "notice must be control-free: {m:?}"
        );
    }
}

#[test]
fn only_replacement_close_is_fatal() {
    assert_eq!(end_for_close(PUSH_REPLACED_CLOSE_CODE), End::Replaced);
    assert_eq!(
        end_for_close(1000_u16),
        End::Disconnected,
        "ordinary graceful closes still reconnect"
    );
    assert_eq!(
        end_for_close(1012_u16),
        End::Disconnected,
        "hub restart closes still reconnect"
    );
}

#[test]
fn sent_blobs_dedups_and_fifo_caps() {
    let mut s = SentBlobs::new();
    s.insert("a".into());
    s.insert("a".into()); // dedup: no double-track
    assert_eq!(s.len(), 1);
    assert!(s.contains(&"a".to_string()));
    // Overflow the cap: the oldest keys evict, newest survive.
    for i in 0..SENT_CAP + 10 {
        s.insert(format!("k{i}"));
    }
    assert!(s.len() <= SENT_CAP);
    assert!(!s.contains(&"a".to_string()), "oldest evicted past the cap");
    assert!(
        s.contains(&format!("k{}", SENT_CAP + 9)),
        "newest kept"
    );
}

#[test]
fn header_numbers_are_read_leniently_and_bounded() {
    assert_eq!(parse_header_number(" 12\t"), Some(12));
    assert_eq!(parse_header_number("+7"), Some(7));
    assert_eq!(parse_header_number("4294967295"), Some(u32::MAX));
    assert_eq!(parse_header_number("4294967296"), None);
    assert_eq!(parse_header_number("1.5"), None);
    assert_eq!(parse_header_number(""), None);
}

#[test]
fn a_version_is_shown_without_control_characters() {
    assert_eq!(neuter("1.2\u{1b}[31m"), "1.2[31m");
    assert_eq!(neuter(&"x".repeat(1000)).len(), MAX_SHOWN_VERSION);
    assert!(incompat_message(Some("\u{7}"), Some("9"), Some("9")).contains("hub unknown"));
}

#[test]
fn base_addresses_lose_their_slashes() {
    assert_eq!(trim_base_url("https://h//"), "https://h");
    assert_eq!(trim_base_url("https://h"), "https://h");
    assert_eq!(trim_base_url("///"), "");
}

#[test]
fn a_register_message_must_fit() {
    assert!(check_register(MAX_WS_MESSAGE).is_none());
    let told = check_register(MAX_WS_MESSAGE + 1024 * 1024).unwrap();
    assert!(told.starts_with("register payload is 17 MiB, over the hub's 16 MiB"), "{told}");
}

#[test]
fn a_payload_is_sent_as_base64() {
    let blob = ImageBlob {
        mime: "image/png".into(),
        bytes: bytes::Bytes::from_static(b"png?"),
    };
    let text = blob_message(&blob);
    assert!(text.contains("image/png"), "{text}");
    assert!(text.contains("cG5nPw=="), "{text}");
}

fn frame(text: &str) -> Frame {
    let mut g = Grid::default();
    let mut cell = StyledCell::default();
    cell.text = text.into();
    g.cols = 1;
    g.rows.push(vec![cell]);
    Frame::Screen(g)
}

fn with_blob(f: Frame, hash: &str) -> Frame {
    let Frame::Screen(mut g) = f;
    g.image_data.push((
        hash.into(),
        ImageBlob { mime: "image/png".into(), bytes: bytes::Bytes::from_static(b"x") },
    ));
    Frame::Screen(g)
}

#[test]
fn a_push_begins_with_everything_and_goes_on_with_what_changed() {
    let (mut s, first) = PushSession::begin(with_blob(frame("a"), "h1"));
    assert_eq!(first.blobs.len(), 1);
    assert_eq!(first.message, full_message(&frame("a")));
    assert!(s.on_frame(with_blob(frame("a"), "h1")).is_none(), "nothing changed");
    let next = s.on_frame(with_blob(with_blob(frame("b"), "h1"), "h2")).unwrap();
    assert_eq!(next.blobs.len(), 1, "a payload goes once");
    assert_eq!(next.blobs[0].0, "h2");
    assert_eq!(apply_text(&frame("a"), &next.message), Some(frame("b")));
}

#[test]
fn a_forgotten_payload_goes_out_again() {
    let many = |n: usize| {
        let mut f = with_blob(frame("b"), "h0");
        for k in 1..n {
            f = with_blob(f, &format!("h{k}"));
        }
        f
    };
    let (mut s, first) = PushSession::begin(with_blob(frame("a"), "old"));
    assert_eq!(first.blobs.len(), 1);
    let next = s.on_frame(many(SENT_CAP)).unwrap();
    assert_eq!(next.blobs.len(), SENT_CAP);
    let last = s.on_frame(with_blob(frame("c"), "old")).unwrap();
    assert_eq!(last.blobs.len(), 1);
    assert_eq!(last.blobs[0].0, "old");
}

#[test]
fn a_connection_without_answers_counts_as_lost() {
    let (mut s, _) = PushSession::begin(frame("a"));
    for _ in 0..MAX_MISSED_PONGS {
        assert!(s.on_ping_due());
    }
    assert!(!s.on_ping_due());
    s.on_pong();
    assert!(s.on_ping_due());
}

#[test]
fn the_session_starts_when_the_hub_accepts() {
    let mut c = Connecting::new(false);
    match c.on_refused(classify(Failure::Connect)) {
        Next::Wait { report_down } => assert_eq!(report_down, Some(notice(Cause::Connect))),
        _ => panic!("waits"),
    }
    match c.on_refused(classify(Failure::Other)) {
        Next::Wait { report_down } => assert!(report_down.is_none(), "an outage is told once"),
        _ => panic!("waits"),
    }
    assert!(matches!(c.on_connected(), Next::Push { start: true, report_up: false }));
    assert!(matches!(c.on_end(End::Disconnected), Next::Wait { .. }));
    match c.on_refused(classify(Failure::Timeout)) {
        Next::Wait { report_down } => assert_eq!(report_down, Some(notice(Cause::Timeout))),
        _ => panic!("waits"),
    }
    assert!(matches!(c.on_connected(), Next::Push { start: false, report_up: true }));
    assert!(matches!(c.on_end(End::LiveDone), Next::Done));
}

#[test]
fn failures_are_told_apart() {
    assert!(matches!(classify(Failure::Status(403)), ConnErr::Forbidden));
    assert!(matches!(classify(Failure::Status(426)), ConnErr::Incompatible(m) if m == generic_incompat_message()));
    assert!(matches!(classify(Failure::Status(502)), ConnErr::Retry(Cause::Rejected(502))));
    assert!(matches!(classify(Failure::BadHandshake), ConnErr::Retry(Cause::BadHandshake)));
    assert_eq!(notice(Cause::Rejected(502)), "hub rejected the request (HTTP 502); retrying");
}

#[test]
fn a_replaced_push_does_not_come_back() {
    let mut c = Connecting::new(false);
    c.on_connected();
    assert!(matches!(c.on_end(End::Replaced), Next::GiveUp { announce: false, .. }));
}

#[test]
fn a_rejected_key_is_the_end() {
    let mut c = Connecting::new(true);
    match c.on_refused(ConnErr::Forbidden) {
        Next::GiveUp { announce, error } => {
            assert!(announce);
            assert_eq!(error, forbidden_message());
        }
        _ => panic!("gives up"),
    }
}
