use shellglass::diff::decode::decode;
use shellglass::diff::encode::{diff_message, full_message_grid, grid_rows, same_layout};
use shellglass::diff::image_store::ImageStore;
use shellglass::diff::live::{hello_message, Live, Transport, BACKLOG, PROTO};
use shellglass::diff::message::{apply_text, encode_delta, full_message};
use shellglass::diff::style::decode_style;
use shellglass::json::{parse, render, Extent, Json};
use shellglass::model::{
    CellStyle, Color, Frame, Grid, ImageBlob, ImagePlacement, LinkMap, StyledCell,
};

/// What stands for the viewer's own tag.
const VIEWER_TAG: &str = "0123456789abcdef";

fn full_text(g: &Grid) -> String {
    render(&full_message_grid(g))
}

fn diff_text(a: &Grid, b: &Grid) -> Option<String> {
    diff_message(a, b).map(|j| render(&j))
}

/// The text of the cells that a span bounds.
fn span_text(g: &Grid, span: (usize, usize, usize)) -> String {
    let (r, lo, hi) = span;
    (lo..=hi)
        .map(|i| g.rows[r].get(i).map_or(" ", |c| c.text.as_str()))
        .collect()
}

fn style_of(text: &str) -> CellStyle {
    decode_style(&parse(text).unwrap()).unwrap()
}

// The image store: byte-capped FIFO where on-screen (protected) keys
// survive any eviction pass, content-addressed no-op on re-insert.
#[test]
fn image_store_caps_and_protects() {
    let mut store = ImageStore::new(10);
    let none: Vec<String> = Vec::new();
    let bytes = |n: usize| bytes::Bytes::from(vec![0u8; n]);
    store.insert("a".into(), "image/png".into(), bytes(4), &none);
    store.insert("b".into(), "image/png".into(), bytes(4), &none);
    assert_eq!(store.len(), 2, "under cap: both kept");
    // Re-insert is a no-op (same key = same content), not a size leak.
    store.insert("a".into(), "image/png".into(), bytes(4), &none);
    assert_eq!(store.len(), 2);
    // Over cap: the OLDEST unprotected entry goes.
    store.insert("c".into(), "image/png".into(), bytes(4), &none);
    assert!(store.get("a").is_none(), "oldest evicted");
    assert!(store.get("b").is_some() && store.get("c").is_some());
    // A protected key survives eviction even when it is the oldest.
    let protect_b: Vec<String> = vec!["b".to_string()];
    store.insert("d".into(), "image/png".into(), bytes(4), &protect_b);
    assert!(store.get("b").is_some(), "on-screen key immune");
    assert!(store.get("c").is_none(), "next-oldest evicted instead");
    assert!(store.get("d").is_some());
}

// The just-inserted key is never evicted in its own insert call, even when
// it isn't yet in `protected` (blob arrives before its frame). And the hard
// ceiling (2× cap) bounds memory when the protected/on-screen set is huge.
#[test]
fn image_store_self_protects_and_hard_caps() {
    let mut store = ImageStore::new(10);
    let bytes = |n: usize| bytes::Bytes::from(vec![0u8; n]);
    // Fill to cap with unprotected entries, then insert one bigger than the
    // whole cap while it is NOT protected: it must survive its own insert.
    store.insert("a".into(), "png".into(), bytes(8), &Vec::new());
    store.insert("big".into(), "png".into(), bytes(12), &Vec::new());
    assert!(
        store.get("big").is_some(),
        "just-inserted never self-evicts"
    );
    assert!(store.get("a").is_none(), "older unprotected went instead");

    // Hard ceiling: keep everything protected/on-screen so the soft cap
    // can't evict; total must still be bounded by 2× cap.
    let mut store = ImageStore::new(10);
    let mut protect: Vec<String> = Vec::new();
    for i in 0..10 {
        let k = format!("k{i}");
        protect.push(k.clone());
        store.insert(k, "png".into(), bytes(5), &protect);
    }
    assert!(store.total() <= 20, "hard ceiling bounds protected growth");
}

fn cell(c: char) -> StyledCell {
    StyledCell {
        text: c.to_string(),
        ..Default::default()
    }
}

/// A grid from rows of text (each char → a plain cell).
fn grid(rows: &[&str]) -> Grid {
    Grid {
        source_epoch: 0,
        cols: rows.iter().map(|r| r.chars().count()).max().unwrap_or(0) as u16,
        rows: rows.iter().map(|r| r.chars().map(cell).collect()).collect(),
        cursor: None,
        cursor_style: 0,
        default_colors: (Color::Default, Color::Default),
        title: String::new(),
        links: LinkMap::new(),
        images: Vec::new(),
        image_data: Vec::new(),
    }
}

#[test]
fn one_changed_cell_is_one_minimal_line() {
    let a = grid(&["abc", "def"]);
    let b = grid(&["abc", "dXf"]);
    let rows = grid_rows(&a, &b);
    assert_eq!(rows.len(), 1, "one changed row → one line patch");
    assert_eq!((rows[0].0, rows[0].1), (1, 1), "span bounds the cell");
    assert_eq!(span_text(&b, rows[0]), "X");
}

#[test]
fn each_changed_row_is_its_own_line() {
    // Two adjacent changed rows → two line patches, each with its own span
    // (line-only by design; rectangles measured as a net loss).
    let a = grid(&["a..z", "a..z"]);
    let b = grid(&["aQQz", "aWWWWWWWWWWWWWWWWWWWWWWWWWWWWz"]);
    let a = Grid { cols: 30, ..a };
    let rows = grid_rows(&a, &b);
    assert_eq!(rows.len(), 2);
    assert_eq!((rows[0].0, rows[0].1), (0, 1));
    assert_eq!(span_text(&b, rows[0]), "QQ");
    assert_eq!((rows[1].0, rows[1].1), (1, 1));
    assert!(span_text(&b, rows[1]).starts_with("WWWW"));
}

#[test]
fn scattered_rows_stay_separate_lines() {
    // Rows 0 and 2 change (different spans); row 1 unchanged → two patches.
    let a = grid(&["abcd", "efgh", "ijkl"]);
    let b = grid(&["Xbcd", "efgh", "ijYl"]);
    let rows = grid_rows(&a, &b);
    assert_eq!(rows.len(), 2);
    assert_eq!((rows[0].0, rows[0].1), (0, 0));
    assert_eq!((rows[1].0, rows[1].1), (2, 2));
}

#[test]
fn wire_shapes_are_positional_and_run_length() {
    // Text merges into strings (one cell per codepoint), styles ride as
    // [start, len, style] runs with 1-flags, lines as [r, l, t, s?] tuples.
    let mut a = grid(&["hello world", "unchanged"]);
    let mut b = grid(&["hellO WOrld", "unchanged"]);
    a.cols = 11;
    b.cols = 11;
    b.rows[0][4].bold = true;
    b.rows[0][5].bold = true;
    b.rows[0][6].bold = true;
    let msg = diff_text(&a, &b).unwrap();
    assert_eq!(
        msg, r#"{"l":[0,4,["O WO"],[[0,3,{"b":1}]]]}"#,
        "line payload key, merged text run, style run with 1-flag"
    );
}

#[test]
fn version_hello_announces_proto_and_js_tag() {
    let hello = hello_message(VIEWER_TAG);
    assert!(hello.starts_with(&format!("{{\"v\":{PROTO},\"js\":\"")));
    assert!(hello.contains(VIEWER_TAG));
    assert_eq!(PROTO, 4, "bump deliberately, with the wire format");
}

#[test]
fn cursor_is_tristate_on_diffs() {
    // Unchanged cursor is omitted entirely; the hub keeps its own.
    let mut a = grid(&["ab", "cd"]);
    let mut b = grid(&["xb", "cd"]);
    a.cursor = Some((1, 1));
    b.cursor = Some((1, 1));
    let msg = diff_text(&a, &b).unwrap();
    assert!(!msg.contains("\"p\":"), "unchanged cursor omitted: {msg}");
    let Frame::Screen(g) = apply(&Frame::Screen(a), &msg).unwrap();
    assert_eq!(g.cursor, Some((1, 1)), "hub keeps the cursor when absent");
    // Becoming hidden is an explicit null, applied as None.
    let mut h = b.clone();
    h.cursor = None;
    h.rows[0][0].text = "q".into();
    let msg2 = diff_text(&b, &h).unwrap();
    assert!(msg2.contains("\"p\":null"), "hide is explicit null: {msg2}");
    let Frame::Screen(g2) = apply(&Frame::Screen(b), &msg2).unwrap();
    assert_eq!(g2.cursor, None);
}

#[test]
fn single_cell_updates_use_the_compact_form() {
    // A spinner tick: one styled cell → [r, l, "…", {style}] — no entry
    // array, no run framing.
    let mut a = grid(&["x spinner"]);
    let mut b = grid(&["y spinner"]);
    a.cols = 9;
    b.cols = 9;
    b.rows[0][0].fg = Color::Idx(174);
    let msg = diff_text(&a, &b).unwrap();
    assert_eq!(
        msg, r#"{"c":[0,0,"y"],"f":174}"#,
        "single-cell payload key with flattened style"
    );
    // Plain single cell drops the style element entirely.
    let c = grid(&["z spinner"]);
    let msg2 = diff_text(&b, &c).unwrap();
    assert_eq!(
        msg2, r#"{"c":[0,0,"z"]}"#,
        "plain single cell drops the style entirely"
    );
    // Both round-trip through the hub-side decoder.
    let applied = apply(&Frame::Screen(a), &msg).unwrap();
    assert_eq!(applied, Frame::Screen(b.clone()));
    let applied2 = apply(&Frame::Screen(b), &msg2).unwrap();
    assert_eq!(applied2, Frame::Screen(c));
}

#[test]
fn single_cluster_cell_uses_the_entry_form() {
    // A bare wire string is one cell per codepoint everywhere, so a single
    // multi-codepoint grapheme cell must take the ["…"] entry form.
    let a = grid(&["ab"]);
    let mut b = grid(&["xb"]);
    b.rows[0][0].text = "e\u{0301}".to_string();
    let msg = diff_text(&a, &b).unwrap();
    assert_eq!(
        msg,
        format!(r#"{{"l":[0,0,[["{}"]]]}}"#, "e\u{0301}"),
        "cluster via entries"
    );
    let applied = apply(&Frame::Screen(a), &msg).unwrap();
    assert_eq!(applied, Frame::Screen(b));
}

#[test]
fn uniform_line_squashes_to_the_c_form() {
    // Every changed cell shares one style → multi-char "c" message with the
    // style flattened once.
    let mut a = grid(&["............", "keep"]);
    let mut b = grid(&["INFO started", "keep"]);
    a.cols = 12;
    b.cols = 12;
    for c in &mut b.rows[0] {
        c.fg = Color::Idx(2);
    }
    let msg = diff_text(&a, &b).unwrap();
    assert_eq!(
        msg, r#"{"c":[0,0,"INFO started"],"f":2}"#,
        "uniform styled span squashes"
    );
    let applied = apply(&Frame::Screen(a.clone()), &msg).unwrap();
    assert_eq!(applied, Frame::Screen(b.clone()));
    // All-plain spans squash too (no flattened style at all).
    let c = grid(&["hello world.", "keep"]);
    let msg2 = diff_text(&b, &c).unwrap();
    assert_eq!(msg2, r#"{"c":[0,0,"hello world."]}"#);
    // Mixed styles stay in the line form.
    let mut d = grid(&["hello WORLD.", "keep"]);
    d.rows[0][6].bold = true;
    let msg3 = diff_text(&c, &d).unwrap();
    assert!(
        msg3.starts_with(r#"{"l":"#),
        "mixed span stays a line: {msg3}"
    );
}

#[test]
fn multi_codepoint_grapheme_rides_as_cluster() {
    // In a multi-cell line span, a combining-mark cell must not merge into a
    // run — it gets the ["…"] form.
    let a = grid(&["ab"]);
    let mut b = grid(&["xY"]);
    b.rows[0][0].text = "e\u{0301}".to_string(); // é as e + combining accent
    let msg = diff_text(&a, &b).unwrap();
    assert!(
        msg.contains(r#"["é"]"#) || msg.contains("[\"e\u{301}\"]"),
        "cluster cell wrapped in a one-element array: {msg}"
    );
    // And it round-trips through the hub-side decoder intact.
    let applied = apply(&Frame::Screen(a), &msg).unwrap();
    let Frame::Screen(g) = applied;
    assert_eq!(g.rows[0][0].text, "e\u{0301}");
}

#[test]
fn identical_screens_produce_no_message() {
    let a = grid(&["same", "rows"]);
    let b = grid(&["same", "rows"]);
    assert!(same_layout(&a, &b));
    assert!(diff_text(&a, &b).is_none(), "no change → no diff");
}

#[test]
fn cursor_only_move_still_diffs() {
    let mut a = grid(&["abc"]);
    let mut b = grid(&["abc"]);
    a.cursor = Some((0, 0));
    b.cursor = Some((0, 2));
    let msg = diff_text(&a, &b).expect("cursor move is a change");
    assert_eq!(msg, r#"{"p":[0,2]}"#, "cursor-only move is minimal");
}

#[test]
fn resize_is_not_a_diff() {
    let a = grid(&["abc"]);
    let b = grid(&["abc", "def"]); // different height
    assert!(!same_layout(&a, &b));
    let c = grid(&["abcd"]); // different width
    assert!(!same_layout(&a, &c), "width change forces a full frame");
}

#[test]
fn source_epoch_switch_forces_full_even_at_same_layout() {
    let mut a = grid(&["same"]);
    let mut b = a.clone();
    a.source_epoch = 1;
    b.source_epoch = 2;
    let msg = encode_delta(&Frame::Screen(a), &Frame::Screen(b))
        .expect("source switch is publishable");
    assert!(
        msg.starts_with("{\"d\":"),
        "source switch must be full: {msg}"
    );
}

#[test]
fn full_message_has_expected_shape() {
    let g = grid(&["hi"]);
    let full = full_text(&g);
    assert!(full.starts_with("{\"d\":"), "{full}");
    // Rows are positional blocks under `d`: text merged into one run, no style.
    assert!(full.contains(r#""d":[[["hi"]]]"#), "{full}");
    // Hidden cursor is omitted entirely, not "p":null.
    assert!(!full.contains("\"p\":"), "hidden cursor omitted: {full}");
}

#[test]
fn columnar_block_keeps_text_dense_and_style_sparse() {
    // "a" plain, "B" bold+red, "c" plain → dense text, one sparse style entry.
    let mut b = grid(&["aBc"]);
    b.rows[0][1].bold = true;
    b.rows[0][1].fg = Color::Idx(1);
    let full = full_text(&b);
    // One merged text run; one [start, len, style] run for the styled cell.
    assert!(
        full.contains(r#"[["aBc"],[[1,1,{"f":1,"b":1}]]]"#),
        "{full}"
    );
}

// Modern SGR on the wire: `u` carries the style number (1 doubles as the
// legacy underline flag for pre-style decoders), strikethrough rides `s`,
// underline color rides `k` — and the hub-side decode reconstructs all
// three, including the old bare-flag forms.
#[test]
fn modern_sgr_rides_the_wire_and_decodes() {
    let mut g = grid(&["xy"]);
    g.rows[0][0].underline = 3; // undercurl
    g.rows[0][0].ulcolor = Color::Idx(1);
    g.rows[0][1].strike = true;
    let full = full_text(&g);
    assert!(full.contains(r#"{"u":3,"k":1}"#), "{full}");
    assert!(full.contains(r#"{"s":1}"#), "{full}");

    // Round trip through the hub's decode path.
    let prev = Frame::Screen(grid(&[]));
    let Some(Frame::Screen(out)) = apply(&prev, &full) else {
        panic!("full applies")
    };
    assert_grid_equiv(&out, &g);

    // Leniency: an old-world sender's `"u":1` (or a bool) is single underline.
    let s = style_of(r#"{"u":1}"#);
    assert_eq!(s.underline, 1);
    let s = style_of(r#"{"u":true}"#);
    assert_eq!(s.underline, 1);
    // An out-of-range style from the future clamps to single, not garbage.
    let s = style_of(r#"{"u":9}"#);
    assert_eq!(s.underline, 1);
}

// Conceal rides `o` (additive — old viewers ignore it and show the text,
// exactly the pre-conceal behavior) and the hub-side decode keeps it. The
// TEXT still rides the wire: the buffer owns it, only rendering hides it.
#[test]
fn conceal_rides_the_wire_and_decodes() {
    let mut g = grid(&["pw"]);
    g.rows[0][0].concealed = true;
    let full = full_text(&g);
    assert!(full.contains(r#"{"o":1}"#), "{full}");
    assert!(
        full.contains("pw"),
        "the concealed glyph still rides: {full}"
    );

    let prev = Frame::Screen(grid(&[]));
    let Some(Frame::Screen(out)) = apply(&prev, &full) else {
        panic!("full applies")
    };
    assert_grid_equiv(&out, &g);
    assert!(out.rows[0][0].concealed && !out.rows[0][1].concealed);
}

// Blink rides `x` (additive — old viewers show it steady, the pre-blink
// behavior) and decodes on the hub side.
#[test]
fn blink_rides_the_wire_and_decodes() {
    let mut g = grid(&["bz"]);
    g.rows[0][0].blink = true;
    let full = full_text(&g);
    assert!(full.contains(r#"{"x":1}"#), "{full}");

    let prev = Frame::Screen(grid(&[]));
    let Some(Frame::Screen(out)) = apply(&prev, &full) else {
        panic!("full applies")
    };
    assert_grid_equiv(&out, &g);
    assert!(out.rows[0][0].blink && !out.rows[0][1].blink);
}

// DECSCUSR rides as `q`: absolute on fulls (absent = default), two-state on
// diffs (absent = unchanged) — and always alongside `p`, so an old decoder
// that dispatches rows-less messages on `p` parses a style-only change as a
// harmless cursor no-op instead of dropping it.
#[test]
fn cursor_style_rides_as_q_with_p_alongside() {
    let mut a = grid(&["hi"]);
    a.cursor = Some((0, 1));
    let mut b = a.clone();
    b.cursor_style = 5; // vim insert: blinking bar
    let msg = diff_text(&a, &b).expect("style change is a change");
    assert_eq!(msg, r#"{"p":[0,1],"q":5}"#);

    // Hub-side apply tracks it; back to default emits q:0 (not absent).
    let Some(Frame::Screen(g)) = apply(&Frame::Screen(a.clone()), &msg) else {
        panic!("applies")
    };
    assert_eq!(g.cursor_style, 5);
    let back = diff_text(&b, &a).expect("style reset is a change");
    assert_eq!(back, r#"{"p":[0,1],"q":0}"#);

    // Fulls carry it absolutely; default is omitted.
    assert!(full_text(&b).contains(r#""q":5"#));
    assert!(!full_text(&a).contains(r#""q""#));
    let prev = Frame::Screen(grid(&[]));
    let Some(Frame::Screen(g)) = apply(&prev, &full_text(&b)) else {
        panic!("full applies")
    };
    assert_eq!(g.cursor_style, 5);
}

// OSC 10/11 default-color overrides ride the full frame as `e` (omitted
// when both default); any change forces a full, and the hub decode
// reconstructs them for late-join snapshots.
#[test]
fn default_colors_ride_full_frames_as_e() {
    let a = grid(&["hi"]);
    let mut b = a.clone();
    b.default_colors = (Color::Default, Color::Rgb(0x30, 0x0a, 0x24));
    let msg = encode_delta(&Frame::Screen(a.clone()), &Frame::Screen(b.clone()))
        .expect("color change is a change");
    assert!(msg.starts_with("{\"d\":"), "override change forces a full");
    assert!(msg.contains(r#""e":[null,[48,10,36]]"#), "{msg}");
    assert!(
        !full_text(&a).contains(r#""e""#),
        "no override ⇒ no key"
    );

    let Some(Frame::Screen(g)) = apply(&Frame::Screen(a.clone()), &msg) else {
        panic!("full applies")
    };
    assert_eq!(g.default_colors, b.default_colors);
    // Resetting back to defaults is also a change (a full with no `e`).
    let msg = encode_delta(&Frame::Screen(b), &Frame::Screen(a)).expect("reset is a change");
    assert!(msg.starts_with("{\"d\":") && !msg.contains(r#""e""#));
}

// The window title rides as `t` — on fulls (omitted when empty) and the
// Diff shape, NEVER the flattened `c` form: an old viewer spreads unknown
// `c`-envelope keys into cell objects, where `t` would overwrite cell text.
#[test]
fn title_rides_full_and_diff_never_the_cell_form() {
    let mut a = grid(&["hi"]);
    a.cursor = Some((0, 0));
    let mut b = a.clone();
    b.title = "vim".into();
    // Title-only change: a rows-less Diff, with `p` riding along for old
    // decoders.
    let msg = diff_text(&a, &b).expect("title change is a change");
    assert_eq!(msg, r#"{"p":[0,0],"t":"vim"}"#);
    let Some(Frame::Screen(g)) = apply(&Frame::Screen(a.clone()), &msg) else {
        panic!("applies")
    };
    assert_eq!(g.title, "vim");

    // Title change + a single-cell change: the compact `c` form is
    // forbidden — the message must be the Diff shape (`r` + `t`).
    let mut c = b.clone();
    c.rows[0][0] = cell('X');
    c.title = "less".into();
    let msg = diff_text(&b, &c).expect("change");
    assert!(
        msg.contains("\"r\":") && msg.contains(r#""t":"less""#) && !msg.contains("\"c\":"),
        "{msg}"
    );

    // Fulls carry it absolutely; empty title ⇒ no key. Clearing back to
    // empty is a change (t:"").
    assert!(full_text(&c).contains(r#""t":"less""#));
    assert!(!full_text(&a).contains("\"t\":"));
    let msg = diff_text(&c, &{
        let mut d = c.clone();
        d.title = String::new();
        d
    })
    .expect("clear is a change");
    assert!(msg.contains(r#""t":"""#), "{msg}");
}

// OSC 8: cell ids ride as style key `a`, the id→URI table as `y` — whole
// table on fulls, new entries only on diffs (which forces the Diff shape,
// keeping `y` off the compact forms), merged into the hub matrix.
#[test]
fn links_ride_as_a_ids_and_y_table() {
    let mut a = grid(&["ab"]);
    a.links.insert(1, "https://one.example".into());
    a.rows[0][0].link = Some(1);
    let full = full_text(&a);
    assert!(full.contains(r#"{"a":1}"#), "{full}");
    assert!(
        full.contains(r#""y":{"1":"https://one.example"}"#),
        "{full}"
    );

    let prev = Frame::Screen(grid(&[]));
    let Some(Frame::Screen(g)) = apply(&prev, &full) else {
        panic!("full applies")
    };
    assert_eq!(g.rows[0][0].link, Some(1));
    assert_eq!(
        g.links.get(1).map(String::as_str),
        Some("https://one.example")
    );

    // A diff whose cells introduce a NEW id carries just that entry and
    // refuses the compact single-cell form; the hub merges it.
    let mut b = a.clone();
    b.links.insert(2, "https://two.example".into());
    b.rows[0][1].link = Some(2);
    let msg = diff_text(&a, &b).expect("link change is a change");
    assert!(
        msg.contains(r#""y":{"2":"https://two.example"}"#) && !msg.contains(r#""c":"#),
        "{msg}"
    );
    let Some(Frame::Screen(g)) = apply(&Frame::Screen(a.clone()), &msg) else {
        panic!("diff applies")
    };
    assert_eq!(g.rows[0][1].link, Some(2));
    assert_eq!(g.links.len(), 2, "new entry merged, old kept");

    // A diff touching only cells with an already-known id sends no table.
    let mut c = b.clone();
    c.rows[0][0].text = "X".into();
    let msg = diff_text(&b, &c).expect("change");
    assert!(!msg.contains(r#""y":"#), "known id needs no re-send: {msg}");
}

#[test]
fn blank_cells_encode_as_zero() {
    // 'a' then a blank (empty-text) cell → the blank rides as 0, not "".
    let mut g = grid(&["a"]);
    g.rows[0].push(StyledCell::default());
    let full = full_text(&g);
    assert!(full.contains(r#"[["a",0]]"#), "blank cell is 0: {full}");
}

#[test]
fn full_frame_when_layout_changes() {
    // A row-count/width change (here: empty screen → a real screen) can't
    // ride a per-line diff, so it forces a full.
    let prev = Frame::Screen(grid(&[]));
    let next = Frame::Screen(grid(&["ok"]));
    let msg = encode_delta(&prev, &next).expect("layout change is a change");
    assert!(msg.starts_with("{\"d\":"), "layout change is full: {msg}");
}

// ── decode/apply round trips (hub matrix must mirror every viewer) ────────

/// Apply an encoded wire message string onto a frame, as the hub does.
fn apply(prev: &Frame, msg: &str) -> Option<Frame> {
    apply_text(prev, msg)
}

/// Grid equality up to trailing blank cells per row (a diff that shrinks a row
/// leaves explicit blanks — canonical spaces — where the origin simply has a
/// shorter row: same rendering, different cell count).
fn assert_grid_equiv(a: &Grid, b: &Grid) {
    let trim = |g: &Grid| {
        let mut g = g.clone();
        for row in &mut g.rows {
            while row.last().is_some_and(|c| *c == StyledCell::blank()) {
                row.pop();
            }
        }
        g
    };
    assert_eq!(trim(a), trim(b));
}

#[test]
fn hub_decodes_full_frame_images() {
    // A full frame carrying `i` must reconstruct the placements on the hub side,
    // so a late-joining viewer's snapshot shows images (not text only).
    let mut g = grid(&["hi"]);
    g.images.push(ImagePlacement {
        row: 1,
        col: 2,
        cols: Some(Extent::whole(3)),
        rows: Some(Extent::whole(1)),
        hash: "ab".repeat(32),
    });
    let prev = Frame::Screen(grid(&[]));
    let full = encode_delta(&prev, &Frame::Screen(g.clone())).expect("banner → screen is full");
    let Some(Frame::Screen(out)) = apply(&prev, &full) else {
        panic!("full applies")
    };
    assert_eq!(out.images, g.images);
}

#[test]
fn diff_column_clamped_to_screen_width() {
    // A diff whose column index is absurd must not grow the row — otherwise a
    // ~25-byte message could push hundreds of millions of blank cells (DoS).
    let prev = Frame::Screen(grid(&["abc"])); // cols = 3
    let Some(Frame::Screen(g)) = apply(&prev, r#"{"c":[0,500000000,"x"]}"#) else {
        panic!("applies")
    };
    assert_eq!(g.cols, 3);
    assert!(
        g.rows[0].len() <= 3,
        "row not grown past cols: {}",
        g.rows[0].len()
    );
    // A run spilling past the right edge is truncated at `cols`, not grown.
    let Some(Frame::Screen(g2)) = apply(&prev, r#"{"c":[0,2,"XYZ"]}"#) else {
        panic!("applies")
    };
    assert_eq!(g2.rows[0].len(), 3);
    assert_eq!(
        g2.rows[0][2].text, "X",
        "the one in-bounds cell was written"
    );
}

#[test]
fn full_message_roundtrips_through_apply() {
    // Wide + styled + blank cells all survive encode → decode → grid.
    let mut g = grid(&["a世c", "xyz"]);
    g.rows[0][1].wide = true;
    g.rows[0][2].fg = Color::Idx(9);
    g.rows[0][2].bg = Color::Rgb(1, 2, 3);
    g.rows[0][2].bold = true;
    g.rows[1].push(StyledCell::default()); // trailing blank rides as 0
    g.cursor = Some((1, 2));
    let prev = Frame::Screen(grid(&[]));
    let applied = apply(&prev, &full_text(&g)).expect("full applies");
    assert_eq!(applied, Frame::Screen(g));
}

#[test]
fn diff_message_roundtrips_through_apply() {
    // Styled change + jagged row growth + cursor move, applied at the "hub".
    // Diffs only ever happen between same-layout grids, so pin cols.
    let mut a = grid(&["hello", "sh"]);
    let mut b = grid(&["heLLo", "sh $ ls -la"]);
    a.cols = 11;
    b.rows[0][2].fg = Color::Idx(2);
    b.rows[0][2].inverse = true;
    a.cursor = Some((0, 0));
    b.cursor = Some((1, 10));
    let msg = diff_text(&a, &b).expect("changes → diff");
    let applied = apply(&Frame::Screen(a), &msg).expect("diff applies");
    let Frame::Screen(applied) = applied;
    assert_grid_equiv(&applied, &b);
}

#[test]
fn diff_apply_handles_row_shrink() {
    // The new row is shorter; the diff writes explicit blanks over the tail.
    // (Same layout — only the row contents shrink, not the grid.)
    let a = grid(&["longline"]);
    let mut b = grid(&["log"]);
    b.cols = a.cols;
    let msg = diff_text(&a, &b).expect("shrink → diff");
    let Frame::Screen(applied) = apply(&Frame::Screen(a), &msg).unwrap();
    assert_grid_equiv(&applied, &b);
}

#[test]
fn publish_wire_updates_current_and_forwards_verbatim() {
    let mut live = Live::new(Frame::Screen(grid(&[])));

    let g = grid(&["hi"]);
    let full = full_text(&g);
    let sent = live.publish_wire(&full);
    assert_eq!(*live.frame(), Frame::Screen(g.clone()), "matrix updated");
    let (seq, fwd) = sent.expect("full forwarded");
    assert_eq!((seq, &*fwd), (1, full.as_str()), "verbatim bytes, seq 1");

    // A diff advances both the matrix and the seq, still verbatim.
    let g2 = grid(&["hX"]);
    let dmsg = diff_text(&g, &g2).unwrap();
    let sent = live.publish_wire(&dmsg);
    assert_eq!(
        *live.frame(),
        Frame::Screen(g2),
        "diff applied to matrix"
    );
    let (seq, fwd) = sent.expect("diff forwarded");
    assert_eq!((seq, &*fwd), (2, dmsg.as_str()));

    // Garbage (unparseable) messages are dropped, not forwarded.
    assert!(live.publish_wire("not json").is_none(), "garbage not forwarded");
    assert_eq!(live.seq(), 2);
}

#[test]
fn set_reload_tag_notifies_only_on_change() {
    let mut live = Live::new(Frame::Screen(grid(&[])));
    assert_eq!(live.reload_tag(), "", "starts empty");

    assert!(live.set_reload_tag("cfg-a"), "new tag notifies");
    assert_eq!(live.reload_tag(), "cfg-a");

    assert!(!live.set_reload_tag("cfg-a"), "identical tag is inert");

    assert!(live.set_reload_tag("cfg-b"), "changed tag notifies");
    assert_eq!(live.reload_tag(), "cfg-b");
}

#[test]
fn snapshot_seq_covers_prior_deltas() {
    let mut live = Live::new(Frame::Screen(grid(&["a"])));
    live.publish(Frame::Screen(grid(&["b"])));
    live.publish(Frame::Screen(grid(&["c"])));
    assert_eq!(live.seq(), 2, "two deltas published");
    assert_eq!(*live.frame(), Frame::Screen(grid(&["c"])));
    // The full reflects the latest state.
    assert!(live.snapshot().contains("\"c\""));
    // An unchanged publish is a no-op (no seq bump, no message).
    assert!(live.publish(Frame::Screen(grid(&["c"]))).is_none());
    assert_eq!(live.seq(), 2);
}

#[test]
fn viewer_counts_track_web_and_ssh_connections() {
    let (web, ssh) = (Transport::Web, Transport::Ssh);
    let mut live = Live::new(Frame::Screen(grid(&["a"])));
    assert_eq!((live.viewer_count(web), live.viewer_count(ssh)), (0, 0));

    live.viewer(web);
    assert_eq!(live.viewer_count(web), 1, "web viewer counted");
    assert_eq!(live.viewer_count(ssh), 0, "and not as an ssh viewer");

    // SSH viewers are a separate bucket.
    live.viewer(ssh);
    live.viewer(ssh);
    assert_eq!((live.viewer_count(web), live.viewer_count(ssh)), (1, 2));

    live.viewer_gone(web);
    assert_eq!(
        live.viewer_count(web),
        0,
        "web viewer gone when the stream drops"
    );
    live.viewer_gone(ssh);
    assert_eq!(live.viewer_count(ssh), 1);
    live.viewer_gone(ssh);
    assert_eq!(live.viewer_count(ssh), 0, "all ssh viewers gone");
}

#[test]
fn transports_have_names() {
    assert_eq!(Transport::Web.name(), "web");
    assert_eq!(Transport::Ssh.name(), "ssh");
}

#[test]
fn a_viewer_takes_each_message_once() {
    let mut live = Live::new(Frame::Screen(grid(&["a"])));
    live.publish(Frame::Screen(grid(&["b"])));
    let (mut viewer, full) = live.connect();
    assert_eq!(full, full_message(live.frame()));
    assert!(!viewer.wants(1), "the snapshot has it");
    assert!(viewer.wants(2));
    live.publish(Frame::Screen(grid(&["c"])));
    live.publish(Frame::Screen(grid(&["d"])));
    // Fallen behind: a new snapshot stands for all that was missed.
    let (seq, full) = viewer.resync(&live);
    assert_eq!(seq, 3);
    assert_eq!(full, full_message(live.frame()));
    assert!(!viewer.wants(3));
    assert!(viewer.wants(4));
    assert!(BACKLOG > 1);
}

#[test]
fn only_the_newest_push_ends_a_session() {
    let mut live = Live::new(Frame::Screen(grid(&["a"])));
    let first = live.begin_generation();
    live.set_online(true);
    let second = live.begin_generation();
    assert_ne!(first, second);
    live.set_online(true);
    live.end_generation(first);
    assert!(live.is_online(), "a push that was replaced cannot end the new one");
    live.end_generation(second);
    assert!(!live.is_online());
}

#[test]
fn closing_is_for_good() {
    let mut live = Live::new(Frame::Screen(grid(&["a"])));
    assert!(!live.is_closed());
    live.close_viewers();
    assert!(live.is_closed());
}

#[test]
fn a_full_message_round_trips_whatever_it_holds() {
    let mut g = grid(&["x", "yz"]);
    g.cols = 4;
    g.cursor = Some((0, 3));
    g.cursor_style = 3;
    g.title = "a \"title\" \u{2603}".into();
    g.default_colors = (Color::Idx(7), Color::Rgb(1, 2, 3));
    g.links.insert(5, "https://five.example".into());
    g.links.insert(2, "https://two.example".into());
    g.rows[1][0].link = Some(5);
    g.rows[1][1].dim = true;
    g.rows[1][1].italic = true;
    g.images.push(ImagePlacement {
        row: -1,
        col: 3,
        cols: None,
        rows: Some(Extent::whole(2)),
        hash: "cd".repeat(32),
    });
    let text = full_message(&Frame::Screen(g.clone()));
    let back = apply_text(&Frame::Screen(grid(&["old"])), &text).unwrap();
    assert_eq!(back, Frame::Screen(g));
}

#[test]
fn an_image_payload_never_rides_a_message() {
    let mut a = grid(&["x"]);
    let full = full_text(&a);
    a.image_data.push((
        "ef".repeat(32),
        ImageBlob { mime: "image/png".into(), bytes: bytes::Bytes::from_static(b"12") },
    ));
    assert_eq!(full_text(&a), full);
    assert!(encode_delta(&Frame::Screen(grid(&["x"])), &Frame::Screen(a)).is_none());
}

#[test]
fn messages_that_are_none_are_refused() {
    for text in ["", "3", "[]", "{}", "{\"d\":3}", "{\"c\":[0]}", "{\"l\":[0,\"x\",[]]}", "{\"p\":[1]}"] {
        assert!(decode(text).is_none(), "{text}");
    }
    for text in ["{\"p\":null}", "{\"p\":[1,2]}", "{\"c\":[0,0,\"x\"]}", "{\"r\":[]}"] {
        assert!(decode(text).is_some(), "{text}");
    }
}

#[test]
fn styles_read_back_as_they_were_written() {
    let mut c = StyledCell::blank();
    c.fg = Color::Idx(200);
    c.bg = Color::Rgb(9, 8, 7);
    c.bold = true;
    c.underline = 5;
    c.link = Some(77);
    let text = render(&shellglass::diff::style::encode_style(&c.style()));
    assert_eq!(style_of(&text), c.style());
    assert_eq!(style_of("{}"), CellStyle::new());
}

#[test]
fn fractional_sizes_are_kept_and_compared() {
    let size = |x: f64| Some(Extent::new(&serde_json::Number::from_f64(x).unwrap()));
    let placed = |x: f64| {
        let mut g = grid(&["x"]);
        g.images.push(ImagePlacement {
            row: 0,
            col: 0,
            cols: size(x),
            rows: size(2.0),
            hash: "ab".repeat(32),
        });
        Frame::Screen(g)
    };
    assert!(encode_delta(&placed(44.4), &placed(44.4)).is_none(), "the same size");
    let text = encode_delta(&placed(44.4), &placed(44.5)).expect("another size");
    assert!(text.starts_with("{\"d\":") && text.contains("44.5"), "{text}");
    assert_eq!(apply_text(&placed(44.4), &text), Some(placed(44.5)));
    assert!(encode_delta(&placed(3.0), &placed(3.0)).is_none());
    let whole = |g: Frame| {
        let Frame::Screen(mut g) = g;
        g.images[0].cols = Some(Extent::whole(3));
        Frame::Screen(g)
    };
    assert!(
        encode_delta(&placed(3.0), &whole(placed(3.0))).is_none(),
        "3 and 3.0 are one size"
    );
    assert!(encode_delta(&placed(3.5), &whole(placed(3.5))).is_some());
    assert_eq!(
        Extent::new(&serde_json::Number::from(7u64)),
        Extent::whole(7),
        "a whole number is one however it came"
    );
}

#[test]
fn payloads_come_back_as_they_were_stored() {
    let mut store = ImageStore::new(100);
    store.insert("k".into(), "image/gif".into(), bytes::Bytes::from_static(b"GIF89a"), &Vec::new());
    let (mime, payload) = store.get("k").unwrap();
    assert_eq!(mime, "image/gif");
    assert_eq!(&payload[..], b"GIF89a");
    assert_eq!(store.total(), 6);
    assert!(store.get("other").is_none());
}

#[test]
fn a_viewer_that_follows_the_stream_keeps_up() {
    let mut seed: u64 = 5;
    let mut below = |n: u64| {
        seed = seed.wrapping_mul(6364136223846793005).wrapping_add(1442695040888963407);
        (seed >> 33) % n
    };
    let mut g = grid(&["first row", "second ro", "third row"]);
    let mut live = Live::new(Frame::Screen(g.clone()));
    let (_, full) = live.connect();
    let mut shown = apply_text(&Frame::Screen(grid(&[])), &full).unwrap();
    for step in 0..400u32 {
        match below(9) {
            0 => g.cursor = Some((below(3) as u16, below(9) as u16)),
            1 => g.cursor = None,
            2 => g.cursor_style = below(7) as u8,
            3 => g.title = format!("title {}", below(3)),
            4 => {
                g.links.insert(step + 1, format!("https://{step}.example"));
                g.rows[below(3) as usize][below(9) as usize].link = Some(step + 1);
            }
            5 => g.rows[below(3) as usize][below(9) as usize].fg = Color::Idx(below(256) as u8),
            6 => g.source_epoch += 1,
            7 => g.default_colors.1 = Color::Rgb(below(3) as u8, 0, 0),
            _ => {
                for _ in 0..1 + below(6) {
                    let c = char::from(b'a' + below(26) as u8);
                    g.rows[below(3) as usize][below(9) as usize].text = c.to_string();
                }
            }
        }
        if let Some((seq, msg)) = live.publish(Frame::Screen(g.clone())) {
            assert_eq!(seq, live.seq());
            shown = apply_text(&shown, &msg).unwrap();
            let (Frame::Screen(s), Frame::Screen(p)) = (&shown, live.frame());
            assert_eq!((&s.rows, s.cursor, s.cursor_style), (&p.rows, p.cursor, p.cursor_style));
            assert_eq!((&s.title, s.default_colors, s.cols), (&p.title, p.default_colors, p.cols));
            for i in 0..p.links.len() {
                let (id, uri) = p.links.entry(i);
                assert_eq!(s.links.get(id), Some(uri));
            }
        }
    }
}

#[test]
fn a_change_of_source_says_nothing_of_the_source() {
    let mut a = grid(&["same"]);
    let full = full_text(&a);
    a.source_epoch = 9;
    assert_eq!(full_text(&a), full);
}

#[test]
fn sizes_compare_by_what_they_are() {
    let real = |x: f64| Extent::new(&serde_json::Number::from_f64(x).unwrap());
    let int = |n: i64| Extent::new(&serde_json::Number::from(n));
    assert!(real(100.0).same(&Extent::whole(100)));
    assert!(real(-0.0).same(&Extent::whole(0)) && real(0.0).same(&Extent::whole(0)));
    assert!(real(-4.0).same(&int(-4)));
    assert!(int(i64::MIN).same(&int(i64::MIN)) && !int(-4).same(&Extent::whole(4)));
    assert!(!real(10.5).same(&real(10.25)) && real(10.5).same(&real(10.5)));
}

#[test]
fn pixels_take_part_of_a_cell() {
    let value = |e: &Extent| match e.to_json() {
        shellglass::json::Json::Uint(n) => n as f64,
        shellglass::json::Json::Real(n) => n.as_f64().unwrap(),
        _ => panic!("a size is a number"),
    };
    assert_eq!(Extent::of_pixels(3, 9), Extent::whole(1), "one cell at least");
    assert_eq!(Extent::of_pixels(9, 9), Extent::whole(1));
    assert_eq!(Extent::of_pixels(90, 9), Extent::whole(10));
    for (px, cell) in [(400, 9), (402, 21), (u32::MAX, 65535), (10, 9), (65536, 65535)] {
        let exact = f64::from(px) / f64::from(cell);
        let got = value(&Extent::of_pixels(px, cell));
        assert!(got <= exact && exact - got < 0.000002, "{px} / {cell}: {got}");
    }
}

#[test]
fn sizes_in_parts_of_cells_are_read_back() {
    let read_back = |px: u32, cell: u16| {
        let size = Extent::of_pixels(px, cell).to_json();
        assert_eq!(parse(&render(&size)), Some(size), "{px} / {cell}");
    };
    for cell in [2, 7, 9, 16, 21, 1000, 65535] {
        for k in 0..3000 {
            read_back(1 + k * 37, cell);
            read_back(u32::MAX - k * 1_000_003, cell);
        }
    }
    let mut g = grid(&["ab"]);
    g.images.push(ImagePlacement {
        row: 0,
        col: 0,
        cols: Some(Extent::of_pixels(400, 9)),
        rows: Some(Extent::of_pixels(100, 21)),
        hash: "h".into(),
    });
    let frame = Frame::Screen(g);
    let text = full_message(&frame);
    assert!(text.contains("44.444444"), "{text}");
    assert_eq!(apply_text(&Frame::Screen(grid(&["x"])), &text), Some(frame));
}

#[test]
fn an_object_that_begins_with_the_key_for_raw_values_is_read_as_what_it_holds() {
    let raw = |first: &str| {
        let member = |k: &str| (k.to_string(), Json::string("1".into()));
        Json::Obj(vec![member(first), member("k")])
    };
    let plain = raw("j");
    assert_eq!(parse(&render(&plain)), Some(plain));
    let kept = "$serde_json::private::RawValue";
    let held = Json::Obj(vec![(kept.to_string(), Json::string("1".into()))]);
    assert_eq!(render(&held), format!("{{\"{kept}\":\"1\"}}"));
    assert_ne!(parse(&render(&held)), Some(held));
}

#[test]
fn an_emptied_cell_reaches_the_viewers() {
    let a = grid(&["ab"]);
    let mut b = a.clone();
    b.rows[0][1] = StyledCell::default();
    let msg = diff_text(&a, &b).expect("a change");
    assert_eq!(msg, r#"{"l":[0,1,[0]]}"#);
    assert_eq!(apply_text(&Frame::Screen(a), &msg), Some(Frame::Screen(b.clone())));
    // With a style, and beside another change.
    let mut c = b.clone();
    c.rows[0][1].bg = Color::Idx(3);
    let msg = diff_text(&b, &c).expect("a change");
    assert_eq!(apply_text(&Frame::Screen(b), &msg), Some(Frame::Screen(c.clone())));
    let mut d = c.clone();
    d.title = "t".into();
    d.rows[0][0] = StyledCell::default();
    let msg = diff_text(&c, &d).expect("a change");
    assert_eq!(apply_text(&Frame::Screen(c), &msg), Some(Frame::Screen(d)));
}
