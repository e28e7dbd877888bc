use shellglass::vt::attrs::{Attrs, Color, Intensity, Underline};
use shellglass::vt::grid::Size;
use shellglass::vt::osc::parse_color;
use shellglass::vt::screen::{MouseProtocolEncoding, MouseProtocolMode, Screen};

/// A terminal: bytes in, a screen out.
struct Terminal {
    vte: vte::Parser,
    screen: Screen<u8>,
    unhandled: usize,
}

struct Performer<'a> {
    screen: &'a mut Screen<u8>,
    unhandled: &'a mut usize,
}

impl vte::Perform for Performer<'_> {
    fn print(&mut self, c: char) {
        *self.unhandled += usize::from(self.screen.print(c));
    }

    fn execute(&mut self, byte: u8) {
        *self.unhandled += usize::from(self.screen.execute(byte));
    }

    fn esc_dispatch(&mut self, intermediates: &[u8], _: bool, byte: u8) {
        let (i1, i2) = (intermediates.first().copied(), intermediates.get(1).copied());
        *self.unhandled += usize::from(self.screen.esc(i1, i2, byte));
    }

    fn csi_dispatch(&mut self, params: &vte::Params, intermediates: &[u8], _: bool, c: char) {
        let (i1, i2) = (intermediates.first().copied(), intermediates.get(1).copied());
        let params: Vec<Vec<u16>> = params.iter().map(|p| p.to_vec()).collect();
        *self.unhandled += self.screen.csi(i1, i2, &params, c);
    }

    fn osc_dispatch(&mut self, params: &[&[u8]], _: bool) {
        let params: Vec<Vec<u8>> = params.iter().map(|p| p.to_vec()).collect();
        *self.unhandled += usize::from(self.screen.osc(&params));
    }
}

fn terminal(rows: u16, cols: u16) -> Terminal {
    Terminal {
        vte: vte::Parser::new(),
        screen: Screen::new(Size { rows, cols }, 10),
        unhandled: 0,
    }
}

impl Terminal {
    fn feed(&mut self, bytes: &[u8]) -> &mut Terminal {
        let mut performer = Performer { screen: &mut self.screen, unhandled: &mut self.unhandled };
        self.vte.advance(&mut performer, bytes);
        self
    }
}

/// What is drawn with the attributes, which a hyperlink is no part of.
fn look(a: Attrs) -> Attrs {
    Attrs { link: None, ..a }
}

fn assert_same(a: &Screen<u8>, b: &Screen<u8>, what: &str) {
    let (rows, cols) = a.size();
    assert_eq!(a.size(), b.size());
    for r in 0..rows {
        for c in 0..cols {
            let (x, y) = (a.cell(r, c).unwrap(), b.cell(r, c).unwrap());
            assert_eq!(x.contents(), y.contents(), "{what}: text at {r},{c}");
            assert_eq!(x.is_wide(), y.is_wide(), "{what}: width at {r},{c}");
            assert_eq!(look(x.attrs()), look(y.attrs()), "{what}: look at {r},{c}");
        }
    }
    assert_eq!(a.cursor_position(), b.cursor_position(), "{what}: cursor");
    assert_eq!(a.hide_cursor(), b.hide_cursor(), "{what}: cursor visibility");
    assert_eq!(look(a.attrs()), look(b.attrs()), "{what}: attributes");
}

/// Numbers that look random and are the same in every run.
struct Numbers(u64);

impl Numbers {
    fn below(&mut self, n: u64) -> u64 {
        self.0 = self.0.wrapping_mul(6364136223846793005).wrapping_add(1442695040888963407);
        (self.0 >> 33) % n
    }
}

fn some_input(n: &mut Numbers) -> Vec<u8> {
    match n.below(22) {
        0 => format!("\x1b[{};{}H", n.below(8), n.below(12)).into_bytes(),
        1 => format!("\x1b[{}m", n.below(110)).into_bytes(),
        2 => format!("\x1b[48;5;{}m", n.below(256)).into_bytes(),
        3 => format!("\x1b[38;2;{};2;3m", n.below(256)).into_bytes(),
        4 => format!("\x1b[4:{}m\x1b[58;5;9m", n.below(6)).into_bytes(),
        5 => format!("\x1b[{}J", n.below(3)).into_bytes(),
        6 => format!("\x1b[{}K", n.below(3)).into_bytes(),
        7 => format!("\x1b[{}X", n.below(5)).into_bytes(),
        8 => format!("\x1b[{}@", n.below(4)).into_bytes(),
        9 => format!("\x1b[{}P", n.below(4)).into_bytes(),
        10 => format!("\x1b[{}L", n.below(3)).into_bytes(),
        11 => format!("\x1b[{}M", n.below(3)).into_bytes(),
        12 => b"\r\n".to_vec(),
        13 => "日本".as_bytes().to_vec(),
        14 => "e\u{301}".as_bytes().to_vec(),
        15 => b"\x1b[?25l".to_vec(),
        16 => b"\x1b[?25h".to_vec(),
        17 => format!("\x1b[{};{}r", n.below(4), 2 + n.below(4)).into_bytes(),
        18 => b"\x1bM".to_vec(),
        19 => b"\t".to_vec(),
        20 => "語".repeat(1 + n.below(6) as usize).into_bytes(),
        _ => "wraps around the edge"[..1 + n.below(20) as usize].as_bytes().to_vec(),
    }
}

#[test]
fn formatted_contents_draw_the_same_screen() {
    let mut n = Numbers(7);
    for (rows, cols) in [(5, 10), (1, 10), (6, 1), (4, 2), (3, 7)] {
        for _ in 0..40 {
            let mut t = terminal(rows, cols);
            for _ in 0..60 {
                let input = some_input(&mut n);
                t.feed(&input);
                let mut copy = terminal(rows, cols);
                copy.feed(b"what was there before\x1b[31m").feed(&t.screen.contents_formatted());
                assert_same(&copy.screen, &t.screen, "contents");
                assert_eq!(copy.screen.contents(), t.screen.contents(), "the text");
                for r in 0..rows - 1 {
                    assert_eq!(copy.screen.row_wrapped(r), t.screen.row_wrapped(r), "row {r}");
                }
                assert_eq!(copy.unhandled, 0);
            }
        }
    }
}

#[test]
fn changes_turn_one_screen_into_the_other() {
    let mut n = Numbers(11);
    for (rows, cols) in [(5, 10), (1, 10), (6, 1), (4, 2), (3, 7)] {
        for _ in 0..30 {
            let mut t = terminal(rows, cols);
            let mut copy = terminal(rows, cols);
            copy.feed(&t.screen.state_formatted());
            for _ in 0..40 {
                let before = {
                    // A screen has no copy of its own: what is drawn is drawn again.
                    let mut b = terminal(rows, cols);
                    b.feed(&t.screen.state_formatted());
                    b
                };
                for _ in 0..1 + n.below(4) {
                    let input = some_input(&mut n);
                    t.feed(&input);
                }
                let change = t.screen.state_diff(&before.screen);
                copy.feed(&change);
                assert_same(&copy.screen, &t.screen, "changes");
            }
        }
    }
}

#[test]
fn a_sign_of_three_columns_is_drawn_again() {
    let mut t = terminal(3, 6);
    t.feed("ab\u{17d8}cd\u{17d8}e".as_bytes());
    assert_eq!(t.screen.cell(0, 2).unwrap().contents(), "\u{17d8}");
    assert!(t.screen.cell(0, 2).unwrap().is_wide());
    assert_eq!(t.screen.cell(0, 4).unwrap().contents(), "c");
    assert_eq!(t.screen.cell(1, 0).unwrap().contents(), "\u{17d8}");
    assert_eq!(t.screen.cursor_position(), (1, 3));
    let mut copy = terminal(3, 6);
    copy.feed(&t.screen.contents_formatted());
    assert_same(&copy.screen, &t.screen, "contents");
    let blank = terminal(3, 6);
    let mut other = terminal(3, 6);
    other.feed(&t.screen.contents_diff(&blank.screen));
    assert_same(&other.screen, &t.screen, "changes");
}

fn changed(from: &[u8], to: &[u8]) -> (Terminal, Terminal) {
    let (mut a, mut b) = (terminal(3, 6), terminal(3, 6));
    a.feed(from);
    b.feed(to);
    let mut copy = terminal(3, 6);
    copy.feed(&a.screen.contents_formatted()).feed(&b.screen.contents_diff(&a.screen));
    assert_same(&copy.screen, &b.screen, "changes");
    (copy, b)
}

#[test]
fn rows_run_on_after_a_change() {
    for (from, to) in [
        ("abcdef\r\nxy", "abcdefxy"),
        ("abcdefxy", "abcdef\r\nxy"),
        ("abcdefxy", "abcdegxy"),
        ("abcd日xy", "abcdefxy"),
        ("abcd日xy", "abc日fzy"),
        ("abcdef", "abcdef日"),
        ("", "abcdef\x1b[44m\x1b[K \x08\x1b[X"),
    ] {
        let (copy, b) = changed(from.as_bytes(), to.as_bytes());
        assert_eq!(copy.screen.contents(), b.screen.contents(), "{from} to {to}");
    }
}

#[test]
fn a_broken_end_runs_on_no_more_unless_the_next_row_is_drawn() {
    let (copy, b) = changed("abcd日xy".as_bytes(), "abc日exy".as_bytes());
    assert!(b.screen.row_wrapped(0));
    assert!(!copy.screen.row_wrapped(0));
}

#[test]
fn no_change_takes_no_bytes() {
    let mut a = terminal(4, 9);
    a.feed(b"some text\r\n\x1b[1;4mmore");
    let mut b = terminal(4, 9);
    b.feed(b"some text\r\n\x1b[1;4mmore");
    assert!(a.screen.state_diff(&b.screen).is_empty());
    assert!(a.screen.rows_diff(&b.screen, 0, 9).iter().all(Vec::is_empty));
}

#[test]
fn input_modes_are_carried_over() {
    let mut a = terminal(3, 9);
    a.feed(b"\x1b=\x1b[?1h\x1b[?2004h\x1b[?1002h\x1b[?1006h");
    assert_eq!(
        a.screen.input_mode_formatted(),
        b"\x1b=\x1b[?1h\x1b[?2004h\x1b[?1002h\x1b[?1006h"
    );
    let mut b = terminal(3, 9);
    b.feed(&a.screen.input_mode_formatted());
    assert!(b.screen.application_keypad() && b.screen.application_cursor());
    assert!(b.screen.bracketed_paste());
    assert_eq!(b.screen.mouse_protocol_mode(), MouseProtocolMode::ButtonMotion);
    assert_eq!(b.screen.mouse_protocol_encoding(), MouseProtocolEncoding::Sgr);
    let plain = terminal(3, 9);
    assert_eq!(
        plain.screen.input_mode_diff(&a.screen),
        b"\x1b>\x1b[?1l\x1b[?2004l\x1b[?1002l\x1b[?1006l"
    );
    b.feed(&plain.screen.input_mode_diff(&a.screen));
    assert_eq!(b.screen.input_mode_formatted(), plain.screen.input_mode_formatted());
}

#[test]
fn attributes_are_carried_over() {
    let mut a = terminal(3, 9);
    a.feed(b"\x1b[1;3;4:3;5;7;8;9;38;5;200;48;2;1;2;3;58;5;9m");
    let attrs = a.screen.attrs();
    assert_eq!(attrs.intensity, Intensity::Bold);
    assert_eq!(attrs.underline, Underline::Curly);
    assert!(attrs.italic && attrs.blink && attrs.inverse && attrs.concealed && attrs.strikethrough);
    assert_eq!(attrs.fgcolor, Color::Idx(200));
    assert_eq!(attrs.bgcolor, Color::Rgb(1, 2, 3));
    assert_eq!(attrs.ulcolor, Color::Idx(9));
    assert_eq!(
        a.screen.attributes_formatted(),
        b"\x1b[m\x1b[38;5;200;48;2;1;2;3;58;5;9;1;3;4:3;5;7;8;9m"
    );
    let mut b = terminal(3, 9);
    b.feed(b"\x1b[2;21m").feed(&a.screen.attributes_formatted());
    assert_eq!(b.screen.attrs(), attrs);
}

#[test]
fn sgr_spells_colors_in_several_ways() {
    let mut t = terminal(2, 4);
    t.feed(b"\x1b[31m");
    assert_eq!(t.screen.fgcolor(), Color::Idx(1));
    t.feed(b"\x1b[97;103m");
    assert_eq!(t.screen.fgcolor(), Color::Idx(15));
    assert_eq!(t.screen.bgcolor(), Color::Idx(11));
    t.feed(b"\x1b[38:2::10:20:30m");
    assert_eq!(t.screen.fgcolor(), Color::Rgb(10, 20, 30));
    t.feed(b"\x1b[38:5:77;48:2:4:5:6m");
    assert_eq!(t.screen.fgcolor(), Color::Idx(77));
    assert_eq!(t.screen.bgcolor(), Color::Rgb(4, 5, 6));
    t.feed(b"\x1b[39;49m");
    assert_eq!((t.screen.fgcolor(), t.screen.bgcolor()), (Color::Default, Color::Default));
    assert_eq!(t.unhandled, 0);
    t.feed(b"\x1b[123m");
    assert_eq!(t.unhandled, 1);
}

#[test]
fn text_wraps_and_combines() {
    let mut t = terminal(3, 5);
    t.feed("abcdefg".as_bytes());
    assert_eq!(t.screen.contents(), "abcdefg");
    assert_eq!(t.screen.rows(0, 5), ["abcde", "fg", ""]);
    assert!(t.screen.row_wrapped(0) && !t.screen.row_wrapped(1));
    assert_eq!(t.screen.cursor_position(), (1, 2));
    t.feed("\u{308}".as_bytes());
    assert_eq!(t.screen.cell(1, 1).unwrap().contents(), "g\u{308}");
    // A wide character that has no room goes to the next row whole.
    t.feed("\x1b[1;5H世".as_bytes());
    assert!(t.screen.cell(1, 0).unwrap().is_wide());
    assert!(t.screen.cell(1, 1).unwrap().is_wide_continuation());
    assert_eq!(t.screen.cursor_position(), (1, 2));
    // Half of it overwritten takes the other half along.
    t.feed(b"\x1b[2;2Hx");
    assert_eq!(t.screen.cell(1, 0).unwrap().contents(), "");
    assert_eq!(t.screen.cell(1, 1).unwrap().contents(), "x");
}

#[test]
fn without_autowrap_text_stays_at_the_edge() {
    let mut t = terminal(2, 4);
    t.feed(b"\x1b[?7labcdefgh");
    assert_eq!(t.screen.rows(0, 4), ["abch", ""]);
    assert_eq!(t.screen.cursor_position().0, 0);
}

#[test]
fn insert_mode_pushes_text_aside() {
    let mut t = terminal(1, 6);
    t.feed(b"abc\x1b[1G\x1b[4hXY\x1b[4lZ");
    assert_eq!(t.screen.contents(), "XYZbc");
}

#[test]
fn rows_scroll_within_their_region() {
    let mut t = terminal(4, 3);
    t.feed(b"1\r\n2\r\n3\r\n4\x1b[2;3r\x1b[3;1H\n");
    assert_eq!(t.screen.rows(0, 3), ["1", "3", "", "4"]);
    t.feed(b"\x1b[2;1H\x1bM");
    assert_eq!(t.screen.rows(0, 3), ["1", "", "3", "4"]);
    // Outside of the region lines are neither put in nor taken out.
    t.feed(b"\x1b[1;1H\x1b[L\x1b[M");
    assert_eq!(t.screen.rows(0, 3), ["1", "", "3", "4"]);
    // In origin mode positions count from the region.
    t.feed(b"\x1b[?6h\x1b[1;1Hx");
    assert_eq!(t.screen.rows(0, 3), ["1", "x", "3", "4"]);
}

#[test]
fn scrollback_is_kept_and_viewed() {
    let mut t = terminal(2, 3);
    t.feed(b"1\r\n2\r\n3\r\n4");
    assert_eq!(t.screen.rows(0, 3), ["3", "4"]);
    t.screen.set_scrollback(1);
    assert_eq!(t.screen.scrollback(), 1);
    assert_eq!(t.screen.rows(0, 3), ["2", "3"]);
    t.screen.set_scrollback(100);
    assert_eq!(t.screen.scrollback(), 2);
    assert_eq!(t.screen.rows(0, 3), ["1", "2"]);
}

#[test]
fn the_alternate_screen_leaves_the_primary_alone() {
    let mut t = terminal(3, 8);
    t.feed(b"shell$ \x1b[31m\x1b[?1049h\x1b[0m\x1b[2;2Hvim\x1b[3;8H");
    assert!(t.screen.alternate_screen());
    assert_eq!(t.screen.contents(), "\n vim");
    t.feed(b"\x1b[?1049l");
    assert!(!t.screen.alternate_screen());
    assert_eq!(t.screen.contents(), "shell$ ");
    assert_eq!(t.screen.cursor_position(), (0, 7));
    assert_eq!(t.screen.fgcolor(), Color::Idx(1));
}

#[test]
fn tabs_can_be_set_and_cleared() {
    let mut t = terminal(1, 40);
    t.feed(b"\t");
    assert_eq!(t.screen.cursor_position().1, 8);
    t.feed(b"\x1b[2I");
    assert_eq!(t.screen.cursor_position().1, 24);
    t.feed(b"\x1b[Z");
    assert_eq!(t.screen.cursor_position().1, 16);
    t.feed(b"\x1b[4G\x1bH\x1b[1G\t");
    assert_eq!(t.screen.cursor_position().1, 3);
    t.feed(b"\x1b[g\x1b[1G\t");
    assert_eq!(t.screen.cursor_position().1, 8);
    t.feed(b"\x1b[3g\x1b[1G\t");
    assert_eq!(t.screen.cursor_position().1, 39);
}

#[test]
fn a_character_is_repeated() {
    let mut t = terminal(2, 10);
    t.feed(b"\x1b[5b=\x1b[5b");
    assert_eq!(t.screen.contents(), "======");
}

#[test]
fn titles_are_stacked() {
    let mut t = terminal(1, 4);
    t.feed(b"\x1b]2;one; two\x07\x1b[22;0t\x1b]0;three\x1b\\");
    assert_eq!(t.screen.title(), "three");
    t.feed(b"\x1b[23;0t");
    assert_eq!(t.screen.title(), "one; two");
    t.feed(b"\x1b[23;0t");
    assert_eq!(t.screen.title(), "one; two", "nothing left to pop");
    for i in 0..20 {
        t.feed(format!("\x1b]2;{i}\x07\x1b[22t").as_bytes());
    }
    for _ in 0..40 {
        t.feed(b"\x1b[23t");
    }
    assert_eq!(t.screen.title(), "4", "the oldest went first");
    t.feed(b"\x1b]2;\xff\x07");
    assert_eq!(t.screen.title(), "\u{fffd}");
}

#[test]
fn hyperlinks_are_told_apart_by_their_uri() {
    let mut t = terminal(1, 10);
    t.feed(b"\x1b]8;;http://a\x1b\\a\x1b[1;0mb\x1b]8;;http://b;c\x1b\\c\x1b]8;;http://a\x1b\\d\x1b]8;;\x1b\\e");
    let link = |c: u16| t.screen.cell(0, c).unwrap().link();
    let (a, b) = (link(0).unwrap(), link(2).unwrap());
    assert_ne!(a, b);
    assert_eq!(link(1), Some(a), "attributes do not end a link");
    assert_eq!(link(3), Some(a), "the same address, the same id");
    assert_eq!(link(4), None);
    assert_eq!(t.screen.link_uri(a), Some("http://a"));
    assert_eq!(t.screen.link_uri(b), Some("http://b;c"));
    assert_eq!(t.screen.link_uri(99), None);
}

#[test]
fn colors_are_read_in_two_spellings() {
    assert_eq!(parse_color(b"#300a24"), Some((0x30, 0x0a, 0x24)));
    assert_eq!(parse_color(b"rgb:f/80/000"), Some((255, 128, 0)));
    assert_eq!(parse_color(b"rgb:ffff/8080/0000"), Some((255, 128, 0)));
    for bad in ["", "#12345", "#1234567", "#12345g", "rgb:1/2", "rgb:1/2/3/4", "rgb:12345/0/0", "rgb://", "red"] {
        assert_eq!(parse_color(bad.as_bytes()), None, "{bad}");
    }
    let mut t = terminal(1, 1);
    t.feed(b"\x1b]10;#010203\x07\x1b]11;rgb:4/5/6\x07");
    assert_eq!(t.screen.default_fg(), Some((1, 2, 3)));
    assert_eq!(t.screen.default_bg(), Some((0x44, 0x55, 0x66)));
    t.feed(b"\x1b]110\x07\x1b]111\x07");
    assert_eq!((t.screen.default_fg(), t.screen.default_bg()), (None, None));
}

#[test]
fn a_soft_reset_leaves_what_is_drawn() {
    let mut t = terminal(3, 8);
    t.feed(b"text\x1b[1m\x1b[?25l\x1b[?7l\x1b[4h\x1b[5 q\x1b[2;3r\x1b[2;2H\x1b[!p");
    assert_eq!(t.screen.contents(), "text");
    assert_eq!(t.screen.cursor_position(), (1, 1));
    assert!(!t.screen.bold() && !t.screen.hide_cursor());
    assert_eq!(t.screen.cursor_style(), 0);
    t.feed(b"\x1bc");
    assert_eq!(t.screen.contents(), "");
    assert_eq!(t.screen.cursor_position(), (0, 0));
}

#[test]
fn updates_are_counted_on_both_sides() {
    let mut t = terminal(1, 1);
    t.feed(b"\x1b[?2026h");
    assert!(t.screen.synchronized_update());
    t.feed(b"\x1b[?2026l\x1b[?2026h\x1b[?2026l");
    assert!(!t.screen.synchronized_update());
    assert_eq!(t.screen.synchronized_update_starts(), 2);
    assert_eq!(t.screen.synchronized_update_ends(), 2);
}

#[test]
fn another_size_keeps_what_fits() {
    let mut t = terminal(3, 6);
    t.feed("ab世cd\r\nx".as_bytes());
    t.screen.set_size(2, 3);
    assert_eq!(t.screen.size(), (2, 3));
    assert_eq!(t.screen.rows(0, 3), ["ab", "x"], "half a character is none");
    t.screen.set_size(4, 8);
    assert_eq!(t.screen.rows(0, 8), ["ab", "x", "", ""]);
    assert_eq!(t.screen.cursor_position(), (1, 1));
}

#[test]
fn text_between_two_positions() {
    let mut t = terminal(4, 8);
    t.feed(b"first\r\nsecond\r\nthird");
    assert_eq!(t.screen.contents_between(0, 2, 0, 4), "rs");
    assert_eq!(t.screen.contents_between(0, 2, 2, 3), "rst\nsecond\nthi");
    assert_eq!(t.screen.contents_between(2, 0, 1, 0), "");
}

#[test]
fn cells_carry_data_until_they_are_overwritten() {
    let mut t = terminal(3, 5);
    t.feed(b"a");
    t.screen.place_data(2, 2, |r, c| (10 * r + c) as u8);
    assert_eq!(t.screen.cell(0, 1).unwrap().data(), Some(&0));
    assert_eq!(t.screen.cell(1, 2).unwrap().data(), Some(&11));
    assert_eq!(t.screen.cursor_position(), (1, 0));
    t.feed(b"\x1b[1;2Hx");
    assert_eq!(t.screen.cell(0, 1).unwrap().data(), None);
    assert_eq!(t.screen.cell(0, 2).unwrap().data(), Some(&1));
}

#[test]
fn the_cursor_state_alone() {
    let mut t = terminal(3, 5);
    t.feed(b"\x1b[2;4H\x1b[?25l");
    assert_eq!(t.screen.cursor_state_formatted(), b"\x1b[?25l\x1b[2;4H");
    t.feed(b"\x1b[H");
    assert_eq!(t.screen.cursor_state_formatted(), b"\x1b[?25l\x1b[H");
    assert_eq!(t.screen.rows_formatted(0, 5)[0], b"");
}

#[test]
fn selective_erasure_erases_the_same() {
    let mut a = terminal(3, 6);
    let mut b = terminal(3, 6);
    for t in [&mut a, &mut b] {
        t.feed(b"111111222222333333\x1b[2;3H");
    }
    a.feed(b"\x1b[1J\x1b[K");
    b.feed(b"\x1b[?1J\x1b[?K");
    assert_eq!(a.screen.rows(0, 6), ["", "", "333333"]);
    assert_eq!(b.screen.contents(), a.screen.contents());
    assert!(!b.screen.decsed(2) && !b.screen.decsel(2));
    assert!(b.screen.decsed(3) && b.screen.decsel(3), "not known");
    assert_eq!(b.screen.contents(), "");
    assert_eq!(b.screen.contents_diff(&a.screen), b"\r\n\x1b[K\x1b[2;3H");
}
