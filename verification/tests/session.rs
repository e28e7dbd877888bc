use shellglass::json::Extent;
use shellglass::model::ImageBlob;
use shellglass::pty::da::DaRewriter;
use shellglass::pty::frame::HeadlessScreen;
use shellglass::pty::gate::{CURSOR_HIDE_GRACE, MIN_FRAME};
use shellglass::pty::probe::{
    cell_size, default_geom, intercepted, iterm_supported, term_geom, transcode_target, Caps,
    GfxProto, TermGeom,
};
use shellglass::pty::screen_loop::ScreenLoop;
use shellglass::pty::seqlog::{char_kind, control_kind, csi_kind, escape_kind, osc_kind, SeqLog};
use shellglass::session::{
    answer, client_event, default_log_path, default_socket_path, hello_force, initial_size,
    payload_len, read_frame, rejection, resize_frame, send_input, server_event, write_frame, Answer,
    Attach, ClientAction, ClientEvent, ClientState, CoreState, Shown, C_DETACH, C_HELLO, C_INPUT, C_RESIZE, DETACH_KEY,
    S_ACCEPTED, S_DATA, S_KICKED, S_REJECTED,
};

#[test]
fn frames_read_back_as_they_were_written() {
    let bytes = write_frame(C_INPUT, b"hello");
    assert_eq!(bytes, [0, 0, 0, 0, 5, b'h', b'e', b'l', b'l', b'o']);
    assert_eq!(payload_len(&bytes[..5]), 5);
    let mut stream = bytes.clone();
    stream.extend(write_frame(C_DETACH, b""));
    let (tag, payload, len) = read_frame(&stream).unwrap();
    assert_eq!((tag, payload.as_slice(), len), (C_INPUT, b"hello".as_slice(), 10));
    let (tag, payload, len) = read_frame(&stream[10..]).unwrap();
    assert_eq!((tag, payload.is_empty(), len), (C_DETACH, true, 5));
    assert!(read_frame(&bytes[..9]).is_none());
    assert!(read_frame(&[]).is_none());
    assert_eq!(payload_len(&[0, 1, 2, 3, 4]), 0x01020304);
}

#[test]
fn sizes_travel_in_frames() {
    let bytes = resize_frame(300, 50);
    assert_eq!(bytes, [1, 0, 0, 0, 4, 1, 44, 0, 50]);
    assert_eq!(initial_size(C_RESIZE, &bytes[5..]), (300, 50));
    assert_eq!(initial_size(C_RESIZE, &[1, 2, 3]), (80, 24));
    assert_eq!(initial_size(C_INPUT, &bytes[5..]), (80, 24));
    assert_eq!(client_event(C_RESIZE, &bytes[5..]), ClientEvent::Resize { rows: 50, cols: 300 });
    assert_eq!(client_event(C_RESIZE, &[1]), ClientEvent::Ignore);
    assert_eq!(client_event(C_INPUT, b"x"), ClientEvent::Input);
    assert_eq!(client_event(C_DETACH, b""), ClientEvent::Detach);
    assert_eq!(client_event(C_HELLO, b""), ClientEvent::Ignore);
}

#[test]
fn only_a_hello_can_force() {
    assert!(hello_force(C_HELLO, &[1]));
    assert!(!hello_force(C_HELLO, &[0]));
    assert!(!hello_force(C_HELLO, &[]));
    assert!(!hello_force(C_INPUT, &[1]));
}

#[test]
fn a_refused_terminal_leaves_the_session_its_size() {
    let size = &resize_frame(100, 30)[5..];
    let (s, action) = ClientState::New.on_frame(C_HELLO, &[1]);
    assert_eq!((s, action), (ClientState::Greeted { force: true }, ClientAction::Wait));
    let (s, action) = s.on_frame(C_RESIZE, size);
    assert_eq!(action, ClientAction::Ask { force: true, cols: 100, rows: 30 });
    assert_eq!(s.on_answer(false), (ClientState::Gone, ClientAction::Close));
    assert_eq!(s.on_frame(C_INPUT, b"x"), (s, ClientAction::Wait));
    let (s, action) = s.on_answer(true);
    assert_eq!((s, action), (ClientState::Attached, ClientAction::Resize { rows: 30, cols: 100 }));
    assert_eq!(s.on_frame(C_INPUT, b"x"), (s, ClientAction::Input));
    assert_eq!(s.on_frame(C_RESIZE, size), (s, ClientAction::Resize { rows: 30, cols: 100 }));
    assert_eq!(s.on_frame(C_RESIZE, &[0; 4]), (s, ClientAction::Resize { rows: 0, cols: 0 }));
    assert_eq!(s.on_frame(C_RESIZE, &[0; 3]), (s, ClientAction::Wait));
    assert_eq!(s.on_frame(C_DETACH, b""), (ClientState::Gone, ClientAction::Detach));
    assert_eq!(s.on_close(), (ClientState::Gone, ClientAction::Detach));
    assert_eq!(ClientState::New.on_close(), (ClientState::Gone, ClientAction::Close));
    // Without a size the usual one is asked with.
    let (_, action) = ClientState::Greeted { force: false }.on_frame(C_RESIZE, &[0; 3]);
    assert_eq!(action, ClientAction::Ask { force: false, cols: 80, rows: 24 });
}

#[test]
fn the_detach_key_ends_the_input() {
    assert_eq!(send_input(b"abc"), (write_frame(C_INPUT, b"abc"), false));
    let mut expected = write_frame(C_INPUT, b"ab");
    expected.extend(write_frame(C_DETACH, b""));
    assert_eq!(send_input(&[b'a', b'b', DETACH_KEY, b'c']), (expected, true));
    assert_eq!(send_input(&[DETACH_KEY]), (write_frame(C_DETACH, b""), true));
}

#[test]
fn answers_are_told_apart() {
    assert_eq!(answer(S_ACCEPTED), Answer::Accepted);
    assert_eq!(answer(S_REJECTED), Answer::Rejected);
    assert_eq!(answer(S_DATA), Answer::Unexpected);
    assert_eq!(server_event(Some(S_DATA), false), Shown::Output);
    assert_eq!(server_event(Some(S_KICKED), false), Shown::Kicked);
    assert_eq!(server_event(Some(S_ACCEPTED), false), Shown::Ignore);
    assert_eq!(server_event(None, false), Shown::Ended);
    assert_eq!(server_event(None, true), Shown::Quiet);
}

#[test]
fn files_are_named_after_the_session() {
    assert_eq!(default_socket_path("/run/user/7", "ab"), "/run/user/7/shellglass-ab.sock");
    assert_eq!(default_log_path("/tmp/", "ab"), "/tmp/shellglass-ab.log");
}

#[test]
fn one_terminal_is_attached_at_a_time() {
    let mut core = CoreState::new(24, 80, 0);
    match core.on_attach(1, false, 100, 30) {
        Attach::Accepted { kicked, repaint } => {
            assert_eq!(kicked, None);
            assert!(repaint.starts_with(b"\x1b[2J\x1b[H"));
        }
        Attach::Rejected => panic!("nobody is attached"),
    }
    assert!(matches!(core.on_attach(2, false, 80, 24), Attach::Rejected));
    assert!(rejection().contains("--force"));
    assert_eq!(core.client(), Some(1));
    match core.on_attach(2, true, 90, 20) {
        Attach::Accepted { kicked, .. } => assert_eq!(kicked, Some(1)),
        Attach::Rejected => panic!("it was forced"),
    }
    core.on_detach(1);
    assert_eq!(core.client(), Some(2), "who was replaced cannot detach the other");
    core.on_detach(2);
    assert_eq!(core.client(), None);
    assert_eq!(core.screen_mut().size(), (20, 90), "the size stays");
    assert!(core.on_hub_up().is_none());
}

#[test]
fn output_goes_to_the_terminal_and_to_viewers() {
    let mut core = CoreState::new(2, 5, 0);
    assert_eq!(core.wait(), None);
    core.screen_mut().print('x');
    assert_eq!(core.on_data(), None);
    assert_eq!(core.wait(), Some(MIN_FRAME));
    assert!(core.tick(MIN_FRAME - 1).is_none(), "too soon");
    let frame = core.tick(MIN_FRAME).unwrap();
    assert_eq!(frame.grid().rows[0][0].text, "x");
    assert!(core.tick(1000).is_none(), "nothing new");
    core.on_attach(7, false, 5, 2);
    assert_eq!(core.on_data(), Some(7));
    assert_eq!(core.on_hub_up().unwrap().0, 7);
    core.on_write_failed();
    assert_eq!(core.client(), None);
    core.on_resize(3, 6);
    let frame = core.tick(2000).unwrap();
    assert_eq!((frame.grid().cols, frame.grid().rows.len()), (6, 3));
}

#[test]
fn a_blank_session_has_a_blank_frame() {
    let frame = HeadlessScreen::blank_frame(2, 3);
    assert_eq!((frame.grid().cols, frame.grid().rows.len()), (3, 2));
    let mut screen = HeadlessScreen::new(2, 3);
    assert_eq!(screen.frame(0), frame);
    screen.set_size(4, 5);
    assert_eq!(screen.screen().size(), (4, 5));
    assert!(screen.repaint().starts_with(b"\x1b[2J\x1b[H\x1b[?25h\x1b[m\x1b[H\x1b[J"));
}

#[test]
fn frames_are_paced_and_updates_held() {
    let mut l = ScreenLoop::new(2, 5, (8, 16), Caps::unknown(), 0);
    assert_eq!(l.wait(0), None);
    assert!(l.tick(100).is_none());
    l.screen_mut().print('a');
    l.on_data();
    assert_eq!(l.wait(10), Some(MIN_FRAME - 10));
    assert!(l.tick(10).is_none());
    assert!(l.tick(MIN_FRAME).is_some());
    // Between the start and the end of an update nothing is shown.
    l.screen_mut().csi(Some(b'?'), None, &vec![vec![2026]], 'h');
    l.screen_mut().print('b');
    l.on_data();
    assert!(l.tick(100).is_none());
    l.screen_mut().csi(Some(b'?'), None, &vec![vec![2026]], 'l');
    l.on_data();
    let frame = l.tick(101).unwrap();
    assert_eq!(frame.grid().rows[0][1].text, "b");
}

#[test]
fn a_cursor_that_stays_hidden_is_hidden_in_the_end() {
    let mut l = ScreenLoop::new(2, 5, (8, 16), Caps::unknown(), 0);
    l.on_data();
    assert_eq!(l.tick(50).unwrap().grid().cursor, Some((0, 0)));
    l.screen_mut().csi(Some(b'?'), None, &vec![vec![25]], 'l');
    l.on_data();
    assert_eq!(l.tick(100).unwrap().grid().cursor, Some((0, 0)), "not yet");
    assert_eq!(l.wait(110), Some(CURSOR_HIDE_GRACE - 10));
    assert!(l.tick(110).is_none());
    assert_eq!(l.tick(100 + CURSOR_HIDE_GRACE).unwrap().grid().cursor, None);
    assert_eq!(l.wait(400), None);
}

#[test]
fn an_outage_is_told_once_and_painted_over() {
    let mut l = ScreenLoop::new(2, 5, (8, 16), Caps::unknown(), 0);
    assert!(l.on_hub_up().is_none());
    let told = l.on_hub_down("hub unreachable; retrying").unwrap();
    let text = String::from_utf8(told).unwrap();
    assert!(text.starts_with("\x1b[0m\x1b[?25h\x1b[2J\x1b[H"));
    assert!(text.ends_with("\x1b[33mshellglass: hub unreachable; retrying\x1b[0m\r\n"));
    assert!(!l.connected());
    assert!(l.on_hub_down("again").is_none());
    assert!(l.on_hub_up().unwrap().starts_with(b"\x1b[2J\x1b[H"));
    assert!(l.connected());
    assert!(l.tick(MIN_FRAME).is_some(), "the screen is published anew");
}

#[test]
fn graphics_are_taken_where_the_terminal_draws_them() {
    let caps = |kitty: bool, sixel: bool| Caps { kitty, sixel, ..Caps::unknown() };
    assert_eq!(transcode_target(false, caps(true, false), true), None);
    assert_eq!(transcode_target(true, caps(true, true), true), None);
    assert_eq!(transcode_target(true, caps(true, false), true), Some(GfxProto::Kitty));
    assert_eq!(transcode_target(true, caps(false, false), true), Some(GfxProto::Iterm));
    assert_eq!(transcode_target(true, caps(false, false), false), None);
    assert_eq!(intercepted(caps(true, false), false, Some(GfxProto::Kitty)), (true, false, true));
    assert_eq!(intercepted(caps(false, true), true, None), (false, true, true));
    assert!(iterm_supported(&Some("WezTerm".to_string())));
    assert!(!iterm_supported(&Some("xterm".to_string())));
    assert!(!iterm_supported(&None));
}

#[test]
fn pixels_are_assumed_where_none_are_reported() {
    assert_eq!(term_geom(0, 24, 0, 0), None);
    let g = term_geom(80, 24, 0, 0).unwrap();
    assert_eq!(g, TermGeom { cols: 80, rows: 24, px_w: 640, px_h: 384 });
    assert_eq!(cell_size(g), (8, 16));
    assert_eq!(term_geom(80, 24, 720, 480).map(cell_size), Some((9, 20)));
    assert_eq!(term_geom(u16::MAX, 1, 0, 0).unwrap().px_w, u16::MAX);
    assert_eq!(default_geom().cols, 80);
}

#[test]
fn a_reply_that_is_too_long_is_let_through() {
    let mut da = DaRewriter::new();
    let long = [b"\x1b[?".to_vec(), b"1;".repeat(40)].concat();
    assert_eq!(da.advertise_sixel(&long), long);
    assert_eq!(da.advertise_sixel(b"\x1b"), b"");
    assert_eq!(da.advertise_sixel(b"[A"), b"\x1b[A");
}

#[test]
fn what_is_not_known_has_a_name() {
    assert_eq!(char_kind('\u{85}'), Some("CHAR U+0085".to_string()));
    assert_eq!(char_kind('\u{fffd}'), None);
    assert_eq!(control_kind(0x05), "CTRL 0x05");
    assert_eq!(escape_kind(Some(b'#'), None, b'8'), "ESC # 8");
    assert_eq!(csi_kind(Some(b'?'), None, &vec![vec![4, 3], vec![7]], 'h'), "CSI ? 4:3 7 h");
    assert_eq!(csi_kind(None, None, &vec![vec![1]], 'y'), "CSI y");
    assert_eq!(osc_kind(Some(b"52")), "OSC 52");
    assert_eq!(osc_kind(Some(b"\xff")), "OSC \u{fffd}");
    assert_eq!(osc_kind(None), "OSC ");
    let mut log = SeqLog::new();
    assert_eq!(log.report(), None);
    assert!(log.record("OSC 52".into()));
    assert!(log.record("CSI y".into()));
    assert!(!log.record("OSC 52".into()));
    assert_eq!(
        log.report().unwrap(),
        "shellglass: 2 escape sequence kind(s) were not mirrored (the local terminal may have \
         rendered more than the browser): CSI y, OSC 52 — please report"
    );
}

#[test]
fn an_image_shows_once_its_payload_is_there() {
    let blob = || ImageBlob { mime: "image/png".into(), bytes: bytes::Bytes::from_static(b"p") };
    let mut l = ScreenLoop::new(4, 20, (10, 20), Caps::unknown(), 0);
    let id = l.on_image(None, Some((35, 30)), None);
    assert_eq!(l.screen().cursor_position(), (1, 0), "below the first of its two rows");
    assert_eq!(l.screen().cell(1, 3).unwrap().data().map(|d| d.id), Some(id));
    assert!(l.screen().cell(1, 4).unwrap().data().is_none());
    l.on_data();
    assert!(l.tick(100).unwrap().grid().images.is_empty());
    assert!(!l.on_image_ready(id + 1, "h".into(), blob()), "no such image");
    assert!(l.on_image_ready(id, "h".into(), blob()));
    let frame = l.tick(200).unwrap();
    assert_eq!(frame.grid().images.len(), 1);
    assert_eq!(frame.grid().image_data[0].0, "h");
    let next = l.on_image(Some((2, 1)), None, Some(("i".into(), blob())));
    l.on_data();
    let frame = l.tick(300).unwrap();
    let sizes: Vec<_> = frame.grid().images.iter().map(|p| (&p.cols, &p.rows)).collect();
    assert_eq!(sizes[1], (&Some(Extent::whole(2)), &Some(Extent::whole(1))));
    assert!(Extent::of_pixels(35, 10).same(sizes[0].0.as_ref().unwrap()));
    assert_ne!(id, next);
}
