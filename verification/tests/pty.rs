use shellglass::json::{Extent, Json};
use shellglass::model::{Color, Frame, Grid, ImageBlob, LinkMap};
use shellglass::pty::da::DaRewriter;
use shellglass::pty::frame::frame_from_with_defaults;
use shellglass::pty::gate::{CursorBridge, SyncGate, CURSOR_HIDE_GRACE};
use shellglass::pty::images::{stamp_image, ImgCell, Placed};
use shellglass::pty::probe::{da_seen, parse_caps, Caps};
use shellglass::pty::seqlog::{
    char_kind, control_kind, csi_kind, escape_kind, osc_kind, SeqLog, MAX_KINDS,
};
use shellglass::vt::cell::Cell;
use shellglass::vt::grid::Size;
use shellglass::vt::screen::Screen;

/// A screen that bytes are drawn on, with what it did not know.
struct Parser {
    vte: vte::Parser,
    screen: Screen<ImgCell>,
    log: SeqLog,
}

struct Performer<'a> {
    screen: &'a mut Screen<ImgCell>,
    log: &'a mut SeqLog,
}

impl vte::Perform for Performer<'_> {
    fn print(&mut self, c: char) {
        if self.screen.print(c) {
            if let Some(kind) = char_kind(c) {
                self.log.record(kind);
            }
        }
    }

    fn execute(&mut self, byte: u8) {
        if self.screen.execute(byte) {
            self.log.record(control_kind(byte));
        }
    }

    fn esc_dispatch(&mut self, intermediates: &[u8], _: bool, byte: u8) {
        let (i1, i2) = (intermediates.first().copied(), intermediates.get(1).copied());
        if self.screen.esc(i1, i2, byte) {
            self.log.record(escape_kind(i1, i2, byte));
        }
    }

    fn csi_dispatch(&mut self, params: &vte::Params, intermediates: &[u8], _: bool, c: char) {
        let (i1, i2) = (intermediates.first().copied(), intermediates.get(1).copied());
        let params: Vec<Vec<u16>> = params.iter().map(|p| p.to_vec()).collect();
        if self.screen.csi(i1, i2, &params, c) > 0 {
            self.log.record(csi_kind(i1, i2, &params, c));
        }
    }

    fn osc_dispatch(&mut self, params: &[&[u8]], _: bool) {
        let params: Vec<Vec<u8>> = params.iter().map(|p| p.to_vec()).collect();
        if self.screen.osc(&params) {
            self.log.record(osc_kind(params.first().map(|p| p.as_slice())));
        }
    }
}

impl Parser {
    fn process(&mut self, bytes: &[u8]) {
        let mut performer = Performer { screen: &mut self.screen, log: &mut self.log };
        self.vte.advance(&mut performer, bytes);
    }

    fn screen(&self) -> &Screen<ImgCell> {
        &self.screen
    }

    fn screen_mut(&mut self) -> &mut Screen<ImgCell> {
        &mut self.screen
    }
}

fn new_parser(rows: u16, cols: u16) -> Parser {
    Parser {
        vte: vte::Parser::new(),
        screen: Screen::new(Size { rows, cols }, 0),
        log: SeqLog::new(),
    }
}

fn caps_of(buf: &[u8]) -> Caps {
    let mut colors = new_parser(1, 1);
    colors.process(buf);
    parse_caps(buf, colors.screen().default_fg(), colors.screen().default_bg())
}

fn frame_from(
    parser: &Parser,
    images: &mut Vec<Placed>,
    zombies: &mut Vec<Placed>,
    bridge: &mut CursorBridge,
) -> Frame {
    frame_from_with_defaults(parser.screen(), images, zombies, bridge, Caps::unknown(), 0)
}

fn has_payload(g: &Grid, hash: &str) -> bool {
    g.image_data.iter().any(|(h, _)| h == hash)
}

fn float(e: &Option<Extent>) -> f64 {
    match e.as_ref().unwrap().to_json() {
        Json::Uint(n) => n as f64,
        Json::Int(n) => n as f64,
        Json::Real(n) => n.as_f64().unwrap(),
        _ => panic!("a size is a number"),
    }
}

fn grid_with_cursor(cursor: Option<(u16, u16)>) -> Grid {
    Grid {
        source_epoch: 0,
        cols: 80,
        rows: Vec::new(),
        cursor,
        cursor_style: 1,
        default_colors: (Color::Default, Color::Default),
        title: String::new(),
        links: LinkMap::new(),
        images: Vec::new(),
        image_data: Vec::new(),
    }
}

#[test]
fn cursor_bridge_debounces_transient_hide() {
    let mut b = CursorBridge::new();
    let t: u64 = 1_000_000;

    // Cursor shown → remembered, no bridging.
    let mut g = grid_with_cursor(Some((63, 2)));
    assert_eq!(b.apply(&mut g, t), None);
    assert_eq!(g.cursor, Some((63, 2)));

    // App hides it (redraw start); within grace we keep showing the last pos.
    let mut g = grid_with_cursor(None);
    assert!(b.apply(&mut g, t + 20).is_some());
    assert_eq!(
        g.cursor,
        Some((63, 2)),
        "transient hide bridged to last cursor"
    );

    // App re-shows it (redraw end) before grace expires: no hide ever shipped.
    let mut g = grid_with_cursor(Some((63, 2)));
    assert_eq!(b.apply(&mut g, t + 40), None);
    assert_eq!(g.cursor, Some((63, 2)));
}

#[test]
fn cursor_bridge_honors_a_genuine_hide() {
    let mut b = CursorBridge::new();
    let t: u64 = 1_000_000;
    b.apply(&mut grid_with_cursor(Some((5, 5))), t); // establish a shown cursor

    // Hidden and stays hidden past the grace window → the real hide ships.
    let hidden_at = t + 10;
    let mut g = grid_with_cursor(None);
    b.apply(&mut g, hidden_at); // bridged; the hide clock starts here
    assert_eq!(g.cursor, Some((5, 5)));
    let mut g = grid_with_cursor(None);
    assert_eq!(
        b.apply(
            &mut g,
            hidden_at + CURSOR_HIDE_GRACE + 1
        ),
        None
    );
    assert_eq!(g.cursor, None, "genuine hide honored after grace");
}

#[test]
fn cursor_bridge_does_not_invent_a_cursor() {
    // Hidden from the start (never shown) → nothing to bridge to.
    let mut b = CursorBridge::new();
    let mut g = grid_with_cursor(None);
    assert_eq!(b.apply(&mut g, 1_000_000), None);
    assert_eq!(g.cursor, None);
}

#[test]
fn da_rewriter_advertises_sixel() {
    let mut da = DaRewriter::new();
    // Adds feature 4 to a DA reply that lacks it, verbatim otherwise.
    assert_eq!(da.advertise_sixel(b"\x1b[?62;22c"), b"\x1b[?62;22;4c");
    // Already advertises sixel → untouched.
    assert_eq!(da.advertise_sixel(b"\x1b[?62;4;22c"), b"\x1b[?62;4;22c");
    // Non-DA input (keystrokes, a cursor-position report) passes verbatim.
    assert_eq!(da.advertise_sixel(b"ls -la\r"), b"ls -la\r");
    assert_eq!(da.advertise_sixel(b"\x1b[10;5R"), b"\x1b[10;5R");
    // A DECRPM `?`-CSI (ends in $y, not c) is left alone.
    assert_eq!(da.advertise_sixel(b"\x1b[?2026;2$y"), b"\x1b[?2026;2$y");
}

#[test]
fn da_rewriter_reassembles_a_split_reply() {
    let mut da = DaRewriter::new();
    // DA reply split across two reads — carried, then completed and rewritten.
    assert_eq!(da.advertise_sixel(b"\x1b[?62;"), b"");
    assert_eq!(da.advertise_sixel(b"22c rest"), b"\x1b[?62;22;4c rest");
}

#[test]
fn handshake_replies_parse_to_caps() {
    // Kitty OK + default colors + a DA that lists sixel (4).
    let both: &[u8] = b"\x1b_Gi=1;OK\x1b\\\x1b]10;rgb:cccc/aaaa/8888\x1b\\\
                 \x1b]11;rgb:1111/2222/3333\x1b\\\x1b[?62;4;22c";
    let caps = caps_of(both);
    assert!(caps.kitty && caps.sixel);
    assert_eq!(caps.default_fg, Some((0xcc, 0xaa, 0x88)));
    assert_eq!(caps.default_bg, Some((0x11, 0x22, 0x33)));
    let parser = new_parser(24, 80);
    let Frame::Screen(grid) = &frame_from_with_defaults(
        parser.screen(),
        &mut Vec::new(),
        &mut Vec::new(),
        &mut CursorBridge::new(),
        caps,
        0,
    );
    assert_eq!(
        grid.default_colors.0,
        Color::Rgb(0xcc, 0xaa, 0x88)
    );
    assert_eq!(
        grid.default_colors.1,
        Color::Rgb(0x11, 0x22, 0x33)
    );
    // An app override wins; its reset resolves back to the probed scheme.
    let mut parser = parser;
    parser.process(b"\x1b]10;#010203\x1b\\");
    let Frame::Screen(grid) = &frame_from_with_defaults(
        parser.screen(),
        &mut Vec::new(),
        &mut Vec::new(),
        &mut CursorBridge::new(),
        caps,
        0,
    );
    assert_eq!(grid.default_colors.0, Color::Rgb(1, 2, 3));
    parser.process(b"\x1b]110\x1b\\");
    let Frame::Screen(grid) = &frame_from_with_defaults(
        parser.screen(),
        &mut Vec::new(),
        &mut Vec::new(),
        &mut CursorBridge::new(),
        caps,
        0,
    );
    assert_eq!(
        grid.default_colors.0,
        Color::Rgb(0xcc, 0xaa, 0x88)
    );
    assert!(da_seen(both));

    // DA without 4, and a kitty *error* reply → neither; absent OSC replies
    // leave the configured viewer defaults in force.
    let neither: &[u8] = b"\x1b_Gi=1;ENOTSUPPORTED:nope\x1b\\\x1b[?62;22c";
    let caps = caps_of(neither);
    assert!(!caps.kitty && !caps.sixel);
    assert_eq!((caps.default_fg, caps.default_bg), (None, None));

    // No DA yet → fence hasn't arrived.
    assert!(!da_seen(b"\x1b_Gi=1;OK\x1b\\"));
}

// Feed sequences vt100 doesn't implement; the parser's SeqLog must record
// each kind once, and only the kinds actually seen.
#[test]
fn seqlog_records_unhandled_kinds_once() {
    let mut parser = new_parser(24, 80);
    // DECSCA (CSI " q), a made-up DEC private mode, and a handled sequence
    // (CUP) that must NOT be recorded — twice over to check dedup. (The
    // original specimens here, DECSTR and mode 2026, got implemented off
    // the back of this very telemetry — pick obscure ones.)
    for _ in 0..2 {
        parser.process(b"\x1b[\"q\x1b[?1234h\x1b[5;5H");
    }
    assert_eq!(
        *parser.log.kinds(),
        vec!["CSI \" q".to_string(), "CSI ? 1234 h".to_string()]
    );
}

// The five kinds from the first real exit report (roadmap phase 1.6):
// queries and string syntax are deliberate parser no-ops and must stay out
// of the report — as is the OSC 10/11 *set* form now that item 9 mirrors
// it. An XTWINOPS op outside the known-harmless set still reports, with
// its params in the kind so the exit line names the op; so does an
// unparseable OSC color value.
#[test]
fn seqlog_silent_on_query_noise_loud_on_real_gaps() {
    let mut parser = new_parser(24, 80);
    parser.process(b"\x1b[c\x1b[>c\x1b[14t\x1b[18t\x1b[22;0t\x1b[23;0t");
    parser.process(b"\x1b]10;?\x1b\\\x1b]11;?\x1b\\\x1b]11;#300a24\x1b\\");
    assert!(
        parser.log.kinds().is_empty(),
        "query noise and the mirrored set form must be silent"
    );
    parser.process(b"\x1b]11;papayawhip\x1b\\\x1b[9;1t");
    assert_eq!(
        *parser.log.kinds(),
        vec!["CSI 9 1 t".to_string(), "OSC 11".to_string()]
    );
}

// The five kinds from the second exit report (roadmap phase 1.7): DECAWM
// and IRM are modeled now, cursor blink and SCS-ASCII are deliberate
// no-ops — all silent. ESC ( 0 (DEC line drawing) is a real gap and must
// stay loud.
#[test]
fn seqlog_silent_on_round3_kinds() {
    let mut parser = new_parser(24, 80);
    parser.process(b"\x1b[4h\x1b[4l\x1b[?7h\x1b[?7l\x1b[?12h\x1b[?12l");
    parser.process(b"\x1b(B\x1b)B");
    assert!(parser.log.kinds().is_empty(), "round-3 kinds are handled");
    parser.process(b"\x1b(0");
    assert_eq!(
        *parser.log.kinds(),
        vec!["ESC ( 0".to_string()]
    );
}

#[test]
fn seqlog_kind_cap_bounds_memory() {
    let mut seqlog = SeqLog::new();
    for i in 0..(MAX_KINDS + 50) {
        seqlog.record(format!("OSC {i}"));
    }
    assert_eq!(seqlog.len(), MAX_KINDS);
}

// Synchronized-update gating: hold between BSU and ESU, publish on ESU
// even when the next BSU arrives in the same read, and never hold past
// the deadline.
#[test]
fn sync_gate_holds_between_bsu_and_esu() {
    let mut parser = new_parser(24, 80);
    let mut gate = SyncGate::new(0);
    assert!(!gate.hold(parser.screen(), 0), "no sync in sight: publish");
    parser.process(b"\x1b[?2026hpartial redraw");
    assert!(gate.hold(parser.screen(), 0), "mid-update: hold");
    parser.process(b"rest of redraw\x1b[?2026l");
    assert!(!gate.hold(parser.screen(), 0), "update completed: publish");
    assert!(!gate.hold(parser.screen(), 0), "still idle: publish");

    // An animation loop batches `ESU BSU` into one read: the completed
    // update publishes this round, the freshly-opened one holds the next.
    parser.process(b"\x1b[?2026hframe\x1b[?2026l\x1b[?2026hpartial");
    assert!(
        !gate.hold(parser.screen(), 0),
        "a full update completed: publish"
    );
    assert!(gate.hold(parser.screen(), 0), "the new update holds again");
}

#[test]
fn sync_gate_deadline_never_freezes_the_mirror() {
    let mut parser = new_parser(24, 80);
    let mut gate = SyncGate::new(0);
    // An app killed between BSU and ESU: past the deadline frames go out.
    parser.process(b"\x1b[?2026hstuck");
    assert!(!gate.hold_within(parser.screen(), 0, 0));
    // A later, well-behaved update still gets a fresh hold budget: the
    // batched ESU publishes once, then the new update holds.
    parser.process(b"\x1b[?2026l\x1b[?2026hnext");
    assert!(
        !gate.hold(parser.screen(), 0),
        "the stuck update's ESU publishes"
    );
    assert!(gate.hold(parser.screen(), 0), "the fresh update holds");
}

// Pins the vendored vt100's SCOSC/SCORC patch from the consumer side: a
// powerline-style prompt draws its right-aligned git segment as save →
// jump right → draw → restore, and the mirrored cursor must land back
// after the left prompt (kitty restores it; the stock 0.16.2 parser
// ignored CSI s/u and left it at the right edge, corrupting the layout on
// every keystroke).
#[test]
fn right_aligned_prompt_restores_cursor() {
    let mut parser = new_parser(24, 80);
    parser.process(b"$ ls\x1b[s\x1b[80C\x1b[11D\x1b[7m  master \x1b[0m\x1b[u");
    assert_eq!(parser.screen().cursor_position(), (0, 4));
}

// A derived footprint (no app-specified cells) carries the TRUE fractional
// extent for display, while the parser tags the CEIL in whole cells. This
// is the image/prompt-overlap fix: a 400×402 image on 9×21 cells is 44.4 ×
// 19.14 cells; the viewer draws it 19.14 rows tall so the partial last row
// stays empty for the prompt, instead of a ceil'd 20th row it would sit on.
#[test]
fn derived_footprint_is_fractional_but_tags_whole_cells() {
    let mut parser = new_parser(24, 80);
    let mut images = Vec::new();
    let mut seq: u32 = 1;
    stamp_image(
        parser.screen_mut(),
        &mut images,
        &mut seq,
        (9, 21),          // cell px
        None,             // no app-specified cells → derive from px
        Some((400, 402)), // image px
        None,
    );
    let p = &images[0];
    assert!(
        (float(&p.cols) - 400.0 / 9.0).abs() < 1e-3,
        "fractional cols"
    );
    assert!(
        (float(&p.rows) - 402.0 / 21.0).abs() < 1e-3,
        "fractional rows"
    );
    // The grid tags the ceil (45 × 20): the last col/row are covered.
    let s = parser.screen();
    assert!(
        s.cell(0, 44).and_then(Cell::data).is_some(),
        "45th col tagged"
    );
    assert!(
        s.cell(19, 0).and_then(Cell::data).is_some(),
        "20th row tagged"
    );
    assert!(
        s.cell(20, 0).and_then(Cell::data).is_none(),
        "21st row is free"
    );
    // Cursor is left on the image's last (20th) row, where text will print —
    // the row the fractional display leaves mostly empty on the viewer.
    assert_eq!(parser.screen().cursor_position().0, 19);
}

/// Place a `w`×`h` image at the parser's cursor, exactly as the screen
/// thread does: stamp the cell tags and record the placement.
fn place(parser: &mut Parser, w: u16, h: u16) -> Vec<Placed> {
    let (row, col) = parser.screen().cursor_position();
    let id: u32 = 1;
    parser
        .screen_mut()
        .place_data(w, h, |row_off, col_off| ImgCell {
            id,
            row_off,
            col_off,
        });
    vec![Placed {
        id,
        row: i16::try_from(row).unwrap_or(0),
        col,
        cols: Some(Extent::whole(w.into())),
        rows: Some(Extent::whole(h.into())),
        width: w.into(),
        height: h.into(),
        ready: Some((
            "ab".repeat(32),
            ImageBlob {
                mime: "image/png".into(),
                bytes: bytes::Bytes::new(),
            },
        )),
    }]
}

// A deferred placement (worker still owes the bytes) is stamped — its
// cells are tracked, cursor semantics exact — but INVISIBLE in frames:
// no placement, no image_data, because a frame must never reference a
// hash no server can satisfy. It appears the moment the payload lands.
#[test]
fn pending_image_invisible_until_ready() {
    let mut parser = new_parser(24, 80);
    let mut images = place(&mut parser, 4, 2);
    images[0].ready = None; // decode worker still owes the payload
    let Frame::Screen(g) = &frame_from(
        &parser,
        &mut images,
        &mut Vec::new(),
        &mut CursorBridge::new(),
    );
    assert!(g.images.is_empty(), "pending placement not emitted");
    assert!(g.image_data.is_empty(), "no payload to carry");
    assert_eq!(images.len(), 1, "but still tracked (cells live)");

    // Msg::ImageReady's effect: the fill makes it visible.
    images[0].ready = Some((
        "cd".repeat(32),
        ImageBlob {
            mime: "image/png".into(),
            bytes: bytes::Bytes::from_static(b"png-ish"),
        },
    ));
    let Frame::Screen(g) = &frame_from(
        &parser,
        &mut images,
        &mut Vec::new(),
        &mut CursorBridge::new(),
    );
    assert_eq!(g.images.len(), 1);
    assert_eq!(g.images[0].hash, "cd".repeat(32));
    assert!(has_payload(g, &"cd".repeat(32)));
}

// The double-buffer swap (sixel video): a READY image overwritten by a
// PENDING successor keeps showing — frozen — until the successor's bytes
// land, then swaps atomically. Viewers never see an image-less gap
// between video frames. An overwrite with no pending successor (a clear)
// still vanishes immediately.
#[test]
fn ready_image_zombies_until_pending_successor_lands() {
    let mut parser = new_parser(24, 80);
    let mut zombies: Vec<Placed> = Vec::new();
    // Frame N: ready, on screen.
    let mut images = place(&mut parser, 4, 2);
    images[0].ready = Some((
        "aa".repeat(32),
        ImageBlob {
            mime: "image/png".into(),
            bytes: bytes::Bytes::from_static(b"N"),
        },
    ));
    // Frame N+1: stamped over the same cells, decode pending. `place`
    // reuses id MIN, so give the successor its own id.
    parser.process(b"\x1b[H");
    let id2: u32 = 2;
    parser
        .screen_mut()
        .place_data(4, 2, |row_off, col_off| ImgCell {
            id: id2,
            row_off,
            col_off,
        });
    images.push(Placed {
        id: id2,
        row: 0,
        col: 0,
        cols: Some(Extent::whole(4)),
        rows: Some(Extent::whole(2)),
        width: 4,
        height: 2,
        ready: None,
    });

    // N's cells are gone, but N keeps showing (zombie) while N+1 pends.
    let Frame::Screen(g) = &frame_from(
        &parser,
        &mut images,
        &mut zombies,
        &mut CursorBridge::new(),
    );
    assert_eq!(g.images.len(), 1, "the old frame bridges the gap");
    assert_eq!(g.images[0].hash, "aa".repeat(32));
    assert!(
        has_payload(g, &"aa".repeat(32)),
        "zombie payload still rides the frame"
    );

    // N+1's bytes land → atomic swap: N gone, N+1 shown.
    images.iter_mut().find(|p| p.id == id2).unwrap().ready = Some((
        "bb".repeat(32),
        ImageBlob {
            mime: "image/png".into(),
            bytes: bytes::Bytes::from_static(b"N+1"),
        },
    ));
    let Frame::Screen(g) = &frame_from(
        &parser,
        &mut images,
        &mut zombies,
        &mut CursorBridge::new(),
    );
    assert_eq!(g.images.len(), 1, "swap complete");
    assert_eq!(g.images[0].hash, "bb".repeat(32));
    assert!(zombies.is_empty(), "zombie released");

    // A plain overwrite (no pending successor) vanishes immediately.
    parser.process(b"\x1b[2J");
    let Frame::Screen(g) = &frame_from(
        &parser,
        &mut images,
        &mut zombies,
        &mut CursorBridge::new(),
    );
    assert!(g.images.is_empty(), "cleared image gone, no zombie");
    assert!(zombies.is_empty());
}

/// The tagged cells ride vt100's own scrolling: the reported top row falls
/// as the screen scrolls, goes negative while the image clips against the
/// top edge, and the image is only evicted once even its bottom row is gone.
#[test]
fn image_tracks_scroll_clips_then_evicts() {
    let mut parser = new_parser(3, 10); // 3 rows
    parser.process(b"\r\n\r\n"); // cursor to the last row
    // Placing a 2-row image at the bottom scrolls once mid-placement.
    let mut imgs = place(&mut parser, 2, 2);
    let Frame::Screen(g) = &frame_from(
        &parser,
        &mut imgs,
        &mut Vec::new(),
        &mut CursorBridge::new(),
    );
    assert_eq!((g.images[0].row, g.images[0].col), (1, 0));

    // One scroll lifts the image → top row 0.
    parser.process(b"\r\nx");
    let Frame::Screen(g) = &frame_from(
        &parser,
        &mut imgs,
        &mut Vec::new(),
        &mut CursorBridge::new(),
    );
    assert_eq!(g.images[0].row, 0);

    // Another: top row scrolls off → top row -1, image still shown (clipped).
    parser.process(b"\r\ny");
    let Frame::Screen(g) = &frame_from(
        &parser,
        &mut imgs,
        &mut Vec::new(),
        &mut CursorBridge::new(),
    );
    assert_eq!(g.images[0].row, -1);

    // One more: the bottom row is gone too → the image is evicted.
    parser.process(b"\r\nz");
    let Frame::Screen(g) = &frame_from(
        &parser,
        &mut imgs,
        &mut Vec::new(),
        &mut CursorBridge::new(),
    );
    assert!(g.images.is_empty());
}

// A surviving top row keeps the image alive when its bottom row is
// overwritten in place — e.g. a shell prompt repainted right after a raw
// `cat image.sixel`, which adds no trailing newline. The image reports its
// true top row and is not evicted.
#[test]
fn top_row_survives_bottom_overwrite() {
    let mut parser = new_parser(4, 10);
    // A 2×2 image at (0,0); placement leaves the cursor at col 0 of row 1.
    let mut imgs = place(&mut parser, 2, 2);

    // A prompt repaints the bottom row, clobbering both of its image cells.
    parser.process(b"user@host$");
    let Frame::Screen(g) = &frame_from(
        &parser,
        &mut imgs,
        &mut Vec::new(),
        &mut CursorBridge::new(),
    );
    // Still tracked, via the top row's cells, at its true top row.
    assert_eq!(g.images.len(), 1);
    assert_eq!((g.images[0].row, g.images[0].col), (0, 0));
}

// A 1-row image wider than the prompt survives via the cells right of it:
// the prompt erases the left cells (and, in the terminal, that part of the
// image), any survivor reconstructs the original top-left from its offset.
#[test]
fn one_row_image_survives_prompt_via_surviving_cells() {
    let mut parser = new_parser(4, 30);
    // a 20-cell-wide, 1-row image at col 0.
    let mut imgs = place(&mut parser, 20, 1);

    // The prompt covers cols 0..11 — cells 11..20 survive.
    parser.process(b"user@host$ ");
    let Frame::Screen(g) = &frame_from(
        &parser,
        &mut imgs,
        &mut Vec::new(),
        &mut CursorBridge::new(),
    );
    assert_eq!(g.images.len(), 1);
    assert_eq!((g.images[0].row, g.images[0].col), (0, 0));
}

// Corner-sentinel tracking couldn't do this: overwrite *both* ends of a
// 1-row image and it lived on only via interior cells. Per-cell tags keep
// it alive as long as any covered cell survives — like the terminal, which
// still shows the image's middle.
#[test]
fn interior_cells_keep_image_alive() {
    let mut parser = new_parser(4, 10);
    let mut imgs = place(&mut parser, 3, 1);
    // Overwrite the leftmost and rightmost image cells; the middle survives.
    parser.process(b"x\x1b[3Gy");
    let Frame::Screen(g) = &frame_from(
        &parser,
        &mut imgs,
        &mut Vec::new(),
        &mut CursorBridge::new(),
    );
    assert_eq!(g.images.len(), 1);
    assert_eq!((g.images[0].row, g.images[0].col), (0, 0));
}

// Wide glyphs occupy two screen columns — a CJK/emoji prompt before the
// image must not drag the reconstructed column left, or the browser draws
// the overlay shifted onto the preceding text.
#[test]
fn image_column_correct_after_wide_glyphs() {
    let mut parser = new_parser(4, 30);
    parser.process("日本語 ".as_bytes()); // three wide glyphs + a space → col 7
    let mut imgs = place(&mut parser, 2, 2);
    let Frame::Screen(g) = &frame_from(
        &parser,
        &mut imgs,
        &mut Vec::new(),
        &mut CursorBridge::new(),
    );
    assert_eq!((g.images[0].row, g.images[0].col), (0, 7));
}

// A 1-row image narrower than what overwrites it is evicted — every covered
// cell is erased, which is exactly when the terminal has erased the whole
// image too.
#[test]
fn fully_overwritten_image_evicts() {
    let mut parser = new_parser(4, 30);
    // a 5-cell-wide, 1-row image at col 0.
    let mut imgs = place(&mut parser, 5, 1);

    // An 11-char prompt paints across the entire image row.
    parser.process(b"user@host$ ");
    let Frame::Screen(g) = &frame_from(
        &parser,
        &mut imgs,
        &mut Vec::new(),
        &mut CursorBridge::new(),
    );
    assert!(g.images.is_empty());
    assert!(imgs.is_empty());
}
