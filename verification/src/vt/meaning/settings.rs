//! Tab stops, titles, hyperlinks and default colors.
use vstd::prelude::*;

use crate::text::utf8_lossy;
use crate::vt::attrs::{Attrs, Color, Intensity, Underline};
use crate::vt::meaning::{one, two};
use crate::vt::screen::ScreenModel;

verus! {

proof fn next_stop<T>(s: ScreenModel<T>, from: int)
    requires
        0 <= from,
        s.active().size.cols > 0,
    ensures
        ({
            let to = s.stop_from(from);
            let last = s.active().size.cols - 1;
            &&& from <= last ==> from <= to <= last
            &&& from > last ==> to == last
            &&& forall|k: int| from <= k < to ==> !s.tab_stops.contains(#[trigger] (k as u16))
            &&& from <= to < last ==> s.tab_stops.contains(to as u16)
        }),
    decreases s.active().size.cols - from,
{
    if from < s.active().size.cols && !s.tab_stops.contains(from as u16) {
        next_stop(s, from + 1);
        let to = s.stop_from(from);
        assert forall|k: int| from <= k < to implies !s.tab_stops.contains(#[trigger] (k as u16)) by {
            if k > from {
            }
        }
    }
}

proof fn stop_behind<T>(s: ScreenModel<T>, col: int)
    requires
        col <= u16::MAX,
    ensures
        ({
            let to = s.stop_before(col);
            &&& col > 0 ==> 0 <= to < col
            &&& col <= 0 ==> to == 0
            &&& forall|k: int| to < k < col ==> !s.tab_stops.contains(#[trigger] (k as u16))
            &&& to > 0 ==> s.tab_stops.contains(to as u16)
        }),
    decreases col,
{
    if col > 0 && !s.tab_stops.contains((col - 1) as u16) {
        stop_behind(s, col - 1);
    }
}

/// HT goes on to the next tab stop in the row, or to its last column: there is none in between.
/// Nothing is drawn.
pub proof fn tabs_go_on<T>(s: ScreenModel<T>)
    requires
        s.wf(),
        s.active().pos.col + 1 < s.active().size.cols,
    ensures
        s.executed(9) is Some,
        ({
            let t = s.executed(9)->Some_0;
            let (from, to) = (s.active().pos.col, t.active().pos.col);
            &&& t.only_moved(s) && t.active().pos.row == s.active().pos.row
            &&& from < to < s.active().size.cols
            &&& to + 1 < s.active().size.cols ==> s.tab_stops.contains(to)
            &&& forall|k: u16| from < k < to ==> !(#[trigger] s.tab_stops.contains(k))
        }),
{
    let from = s.active().pos.col;
    next_stop(s, from + 1);
    let t = s.executed(9)->Some_0;
    assert forall|k: u16| from < k < t.active().pos.col implies !(#[trigger] s.tab_stops.contains(
        k,
    )) by {
        assert(k as int as u16 == k);
    }
}

/// `CSI Z` goes back to the tab stop before, or to the first column.
pub proof fn tabs_go_back<T>(s: ScreenModel<T>)
    requires
        s.wf(),
        s.active().pos.col > 0,
    ensures
        ({
            let t = s.after_csi(one(1), 'Z');
            let (from, to) = (s.active().pos.col, t.active().pos.col);
            &&& t.only_moved(s) && t.active().pos.row == s.active().pos.row
            &&& to < from
            &&& to > 0 ==> s.tab_stops.contains(to)
            &&& forall|k: u16| to < k < from ==> !(#[trigger] s.tab_stops.contains(k))
        }),
{
    assert(one(1)[0] == seq![1u16]);
    reveal_with_fuel(ScreenModel::back_tabbed_times, 2);
    let from = s.active().pos.col;
    stop_behind(s, from as int);
    let t = s.after_csi(one(1), 'Z');
    assert(t == s.back_tabbed());
    assert forall|k: u16| t.active().pos.col < k < from implies !(#[trigger] s.tab_stops.contains(
        k,
    )) by {
        assert(k as int as u16 == k);
    }
}

/// `CSI n I` is as many tabs, `CSI n Z` as many back.
pub proof fn several_tabs<T>(s: ScreenModel<T>, n: u16)
    requires
        n >= 1,
    ensures
        s.after_csi(one(1), 'I') == s.executed(9)->Some_0,
        n > 1 ==> s.after_csi(one(n), 'I') == s.after_csi(one((n - 1) as u16), 'I').after_csi(
            one(1),
            'I',
        ),
        n > 1 ==> s.after_csi(one(n), 'Z') == s.after_csi(one((n - 1) as u16), 'Z').after_csi(
            one(1),
            'Z',
        ),
{
    assert(one(1)[0] == seq![1u16]);
    assert(one(n)[0] == seq![n]);
    reveal_with_fuel(ScreenModel::tabbed_times, 2);
    reveal_with_fuel(ScreenModel::back_tabbed_times, 2);
    if n > 1 {
        assert(one((n - 1) as u16)[0] == seq![(n - 1) as u16]);
    }
}

/// `ESC H` sets a tab stop in the cursor's column, `CSI g` takes it away, `CSI 3 g` takes all away;
/// other columns keep theirs.
pub proof fn tabs_are_set<T>(s: ScreenModel<T>, k: u16)
    ensures
        s.escaped(None, None, 'H' as u8) is Some,
        ({
            let set = s.escaped(None, None, 'H' as u8)->Some_0;
            let cleared = s.after_csi(one(0), 'g');
            let none = s.after_csi(one(3), 'g');
            let here = k == s.active().pos.col;
            &&& set == (ScreenModel { tab_stops: set.tab_stops, ..s })
            &&& cleared == (ScreenModel { tab_stops: cleared.tab_stops, ..s })
            &&& none == (ScreenModel { tab_stops: none.tab_stops, ..s })
            &&& set.tab_stops.contains(k) <==> here || s.tab_stops.contains(k)
            &&& cleared.tab_stops.contains(k) <==> !here && s.tab_stops.contains(k)
            &&& !none.tab_stops.contains(k)
        }),
{
}

/// `OSC 0` and `OSC 2` set the title to the text behind the number, semicolons and all; `OSC 1`, which
/// names an icon, changes nothing.
pub proof fn titles<T>(s: ScreenModel<T>, text: Seq<u8>, more: Seq<u8>)
    ensures
        s.commanded(seq![seq!['0' as u8], text]) == Some(
            ScreenModel { title: utf8_lossy(text), ..s },
        ),
        s.commanded(seq![seq!['2' as u8], text]) == Some(
            ScreenModel { title: utf8_lossy(text), ..s },
        ),
        s.commanded(seq![seq!['2' as u8], text, more]) == Some(
            ScreenModel { title: utf8_lossy(text + seq![';' as u8] + more), ..s },
        ),
        s.commanded(seq![seq!['1' as u8], text]) == Some(s),
{
    one_digit('0' as u8);
    one_digit('1' as u8);
    one_digit('2' as u8);
    assert(seq![seq!['0' as u8], text].skip(1) =~= seq![text]);
    assert(seq![seq!['2' as u8], text].skip(1) =~= seq![text]);
    let ps = seq![seq!['2' as u8], text, more].skip(1);
    assert(ps =~= seq![text, more]);
    assert(ps.drop_last() =~= seq![text]);
    reveal_with_fuel(crate::vt::osc::rejoined, 2);
    assert(crate::vt::osc::rejoined(ps) =~= text + seq![';' as u8] + more);
}

proof fn one_digit(d: u8)
    requires
        '0' as u8 <= d <= '9' as u8,
    ensures
        crate::vt::osc::selector(seq![d]) == Some((d - '0' as u8) as nat),
{
    reveal_with_fuel(crate::vt::osc::decimal, 2);
    assert(seq![d].drop_last() =~= Seq::empty());
}

proof fn two_digits(d: u8, e: u8)
    requires
        '0' as u8 <= d <= '9' as u8,
        '0' as u8 <= e <= '9' as u8,
    ensures
        crate::vt::osc::selector(seq![d, e]) == Some(
            ((d - '0' as u8) * 10 + (e - '0' as u8)) as nat,
        ),
{
    reveal_with_fuel(crate::vt::osc::decimal, 3);
    assert(seq![d, e].drop_last() =~= seq![d]);
    assert(seq![d].drop_last() =~= Seq::empty());
}

proof fn three_digits(d: u8, e: u8, f: u8)
    requires
        '0' as u8 <= d <= '9' as u8,
        '0' as u8 <= e <= '9' as u8,
        '0' as u8 <= f <= '9' as u8,
    ensures
        crate::vt::osc::selector(seq![d, e, f]) == Some(
            ((d - '0' as u8) * 100 + (e - '0' as u8) * 10 + (f - '0' as u8)) as nat,
        ),
{
    reveal_with_fuel(crate::vt::osc::decimal, 4);
    assert(seq![d, e, f].drop_last() =~= seq![d, e]);
    assert(seq![d, e].drop_last() =~= seq![d]);
    assert(seq![d].drop_last() =~= Seq::empty());
}

/// `CSI 22 t` keeps the title and `CSI 23 t` takes it back, the last kept first; the title of an icon
/// is not kept.
pub proof fn titles_are_kept<T>(s: ScreenModel<T>, other: Seq<char>)
    ensures
        ({
            let kept = s.after_csi(one(22), 't');
            let renamed = ScreenModel { title: other, ..kept };
            let back = renamed.after_csi(one(23), 't');
            &&& kept.title == s.title
            &&& back.title == s.title
            &&& s.title_stack.len() < 16 ==> back == s
            &&& s.title_stack.len() == 16 ==> kept.title_stack.len() == 16
                && kept.title_stack.drop_last() == s.title_stack.drop_first()
            &&& s.title_stack.len() == 0 ==> s.after_csi(one(23), 't') == s
            &&& s.after_csi(two(22, 1), 't') == s && s.after_csi(two(23, 1), 't') == s
        }),
{
    let kept = s.after_csi(one(22), 't');
    assert(two(22, 1)[0] == seq![22u16] && two(22, 1)[1] == seq![1u16]);
    assert(two(23, 1)[0] == seq![23u16] && two(23, 1)[1] == seq![1u16]);
    assert(one(22)[0] == seq![22u16] && one(23)[0] == seq![23u16]);
    let renamed = ScreenModel { title: other, ..kept };
    assert(renamed.title_stack.last() == s.title);
    if s.title_stack.len() == 16 {
        assert(kept.title_stack.drop_last() =~= s.title_stack.drop_first());
    }
    if s.title_stack.len() < 16 {
        assert(renamed.title_stack.drop_last() =~= s.title_stack);
    }
}

/// `OSC 8` with a URI links what is drawn from then on to it: the link in force has that URI in the
/// table, and links that were in the table still are, unless it is full. Without a URI the link ends.
pub proof fn hyperlinks<T>(s: ScreenModel<T>, args: Seq<u8>, uri: Seq<u8>)
    requires
        s.wf(),
        uri.len() > 0,
    ensures
        ({
            let open = s.commanded(seq![seq!['8' as u8], args, uri]);
            let t = open->Some_0;
            let closed = s.commanded(seq![seq!['8' as u8], args, Seq::empty()]);
            &&& open is Some && closed is Some
            &&& s.links.first + s.links.uris.len() <= u32::MAX ==> t.attrs.link is Some
                && t.links.uri(t.attrs.link->Some_0 as int) == Some(utf8_lossy(uri))
            &&& t == (ScreenModel {
                attrs: Attrs { link: t.attrs.link, ..s.attrs },
                links: t.links,
                ..s
            })
            &&& forall|id: int|
                (#[trigger] s.links.uri(id)) is Some && (s.links.uris.len() < 8192 || id
                    > s.links.first) ==> t.links.uri(id) == s.links.uri(id)
            &&& closed->Some_0 == (ScreenModel { attrs: Attrs { link: None, ..s.attrs }, ..s })
        }),
{
    one_digit('8' as u8);
    assert(seq![seq!['8' as u8], args, uri].skip(2) =~= seq![uri]);
    assert(seq![seq!['8' as u8], args, Seq::<u8>::empty()].skip(2) =~= seq![Seq::<u8>::empty()]);
    let u = utf8_lossy(uri);
    let l = s.links;
    let m = l.with(u);
    if l.uris.contains(u) {
        let k = l.uris.index_of(u);
        assert(0 <= k < l.uris.len() && l.uris[k] == u);
    } else if l.first + l.uris.len() <= u32::MAX {
        assert(m.uris.last() == u);
    }
}

/// `OSC 10` and `OSC 11` set the colors of text and background that the application takes for
/// granted, `OSC 110` and `OSC 111` take them back. To ask for one changes nothing.
pub proof fn default_colors<T>(s: ScreenModel<T>, color: Seq<u8>)
    requires
        crate::vt::osc::color_in(color) is Some,
    ensures
        ({
            let c = crate::vt::osc::color_in(color);
            &&& s.commanded(seq![seq!['1' as u8, '0' as u8], color]) == Some(
                ScreenModel { default_fg: c, ..s },
            )
            &&& s.commanded(seq![seq!['1' as u8, '1' as u8], color]) == Some(
                ScreenModel { default_bg: c, ..s },
            )
            &&& s.commanded(seq![seq!['1' as u8, '0' as u8], seq!['?' as u8]]) == Some(s)
            &&& s.commanded(seq![seq!['1' as u8, '1' as u8], seq!['?' as u8]]) == Some(s)
            &&& s.commanded(seq![seq!['1' as u8, '1' as u8, '0' as u8]]) == Some(
                ScreenModel { default_fg: None, ..s },
            )
            &&& s.commanded(seq![seq!['1' as u8, '1' as u8, '1' as u8]]) == Some(
                ScreenModel { default_bg: None, ..s },
            )
        }),
{
    two_digits('1' as u8, '0' as u8);
    two_digits('1' as u8, '1' as u8);
    three_digits('1' as u8, '1' as u8, '0' as u8);
    three_digits('1' as u8, '1' as u8, '1' as u8);
    assert(color != seq!['?' as u8]) by {
        assert(seq!['?' as u8].len() == 1);
    }
}

/// A soft reset switches off what concerns cursor, keys and printing: attributes, scroll region,
/// origin and insert mode, and so on.
pub proof fn soft_reset<T>(s: ScreenModel<T>)
    requires
        s.wf(),
    ensures
        ({
            let t = s.after_marked('!', Seq::empty(), 'p');
            let a = t.attrs;
            &&& t.active().rows == s.active().rows && t.active().pos == s.active().pos
            &&& t.active().scroll_top == 0 && t.active().scroll_bottom + 1 == s.active().size.rows
            &&& !t.active().origin_mode && !t.modes.insert && !t.modes.no_autowrap
            &&& !t.modes.hide_cursor && !t.modes.application_cursor && !t.modes.application_keypad
            &&& t.modes.alternate_screen == s.modes.alternate_screen
            &&& t.modes.bracketed_paste == s.modes.bracketed_paste
            &&& a.fgcolor == Color::Default && a.bgcolor == Color::Default && a.link is None
            &&& a.intensity == Intensity::Normal && a.underline == Underline::Off && !a.italic
            &&& !a.inverse && !a.strikethrough && !a.concealed && !a.blink
            &&& t.cursor_style == 0 && t.title == s.title && t.tab_stops == s.tab_stops
        }),
{
}

/// A hexadecimal digit is worth what it is.
pub proof fn hex_digits(b: u8)
    ensures
        ({
            let v = crate::vt::osc::hex_value(b);
            &&& '0' as u8 <= b <= '9' as u8 ==> v == Some((b - 48) as nat)
            &&& 'a' as u8 <= b <= 'f' as u8 ==> v == Some((b - 97 + 10) as nat)
            &&& 'A' as u8 <= b <= 'F' as u8 ==> v == Some((b - 65 + 10) as nat)
            &&& v is Some ==> v->Some_0 < 16
        }),
{
}

/// `#rrggbb` is the color with those parts, red first, each in two hexadecimal digits.
pub proof fn hash_colors(s: Seq<u8>, d: Seq<nat>)
    requires
        s.len() == 7,
        s[0] == '#' as u8,
        d.len() == 6,
        crate::vt::osc::hex_value(s[1]) == Some(d[0]),
        crate::vt::osc::hex_value(s[2]) == Some(d[1]),
        crate::vt::osc::hex_value(s[3]) == Some(d[2]),
        crate::vt::osc::hex_value(s[4]) == Some(d[3]),
        crate::vt::osc::hex_value(s[5]) == Some(d[4]),
        crate::vt::osc::hex_value(s[6]) == Some(d[5]),
    ensures
        crate::vt::osc::color_in(s) == Some(
            (
                (d[0] * 16 + d[1]) as u8,
                (d[2] * 16 + d[3]) as u8,
                (d[4] * 16 + d[5]) as u8,
            ),
        ),
{
    assert(s.subrange(1, 3) =~= seq![s[1], s[2]]);
    assert(s.subrange(3, 5) =~= seq![s[3], s[4]]);
    assert(s.subrange(5, 7) =~= seq![s[5], s[6]]);
    two_hex(s.subrange(1, 3), s[1], s[2]);
    two_hex(s.subrange(3, 5), s[3], s[4]);
    two_hex(s.subrange(5, 7), s[5], s[6]);
}

proof fn two_hex(s: Seq<u8>, a: u8, b: u8)
    requires
        s == seq![a, b],
        crate::vt::osc::hex_value(a) is Some,
        crate::vt::osc::hex_value(b) is Some,
    ensures
        ({
            let n = crate::vt::osc::hex_value(a)->Some_0 * 16 + crate::vt::osc::hex_value(b)->Some_0;
            crate::vt::osc::channel(s) == Some(n as u8)
        }),
{
    reveal_with_fuel(crate::vt::osc::hex_number, 3);
    assert(s.drop_last() =~= seq![a]);
    assert(s.drop_last().drop_last() =~= Seq::empty());
    let n = crate::vt::osc::hex_value(a)->Some_0 * 16 + crate::vt::osc::hex_value(b)->Some_0;
    assert(crate::vt::osc::hex_number(s) == n);
    assert(n * 255 / 0xFF == n);
}

proof fn slash_is_at(s: Seq<u8>, i: int, j: int)
    requires
        0 <= i <= j < s.len(),
        s[j] == '/' as u8,
        forall|k: int| i <= k < j ==> #[trigger] s[k] != '/' as u8,
    ensures
        crate::vt::osc::slash_at(s, i) == j,
    decreases j - i,
{
    if i < j {
        slash_is_at(s, i + 1, j);
    }
}

/// `rgb:r/g/b` is the color with those parts, red first.
pub proof fn parted_colors(r: Seq<u8>, g: Seq<u8>, b: Seq<u8>)
    requires
        crate::vt::osc::channel(r) is Some,
        crate::vt::osc::channel(g) is Some,
        crate::vt::osc::channel(b) is Some,
    ensures
        crate::vt::osc::color_in(
            seq!['r' as u8, 'g' as u8, 'b' as u8, ':' as u8] + r + seq!['/' as u8] + g + seq![
                '/' as u8,
            ] + b,
        ) == Some(
            (
                crate::vt::osc::channel(r)->Some_0,
                crate::vt::osc::channel(g)->Some_0,
                crate::vt::osc::channel(b)->Some_0,
            ),
        ),
{
    let s = seq!['r' as u8, 'g' as u8, 'b' as u8, ':' as u8] + r + seq!['/' as u8] + g + seq![
        '/' as u8,
    ] + b;
    let p = 4 + r.len() as int;
    let q = p + 1 + g.len();
    assert(s[0] == 'r' as u8 && s[1] == 'g' as u8 && s[2] == 'b' as u8 && s[3] == ':' as u8);
    assert forall|k: int| 4 <= k < p implies #[trigger] s[k] != '/' as u8 by {
        assert(s[k] == r[k - 4]);
    }
    assert forall|k: int| p + 1 <= k < q implies #[trigger] s[k] != '/' as u8 by {
        assert(s[k] == g[k - p - 1]);
    }
    slash_is_at(s, 4, p);
    slash_is_at(s, p + 1, q);
    assert(s.subrange(4, p) =~= r);
    assert(s.subrange(p + 1, q) =~= g);
    assert(s.skip(q + 1) =~= b);
}

/// One part of a color: a single digit stands for itself twice, two are the byte, and the greatest
/// number of any length is full strength.
pub proof fn color_parts(a: u8, b: u8, n: nat)
    requires
        crate::vt::osc::hex_value(a) is Some,
        crate::vt::osc::hex_value(b) is Some,
        1 <= n <= 4,
    ensures
        ({
            let (x, y) = (
                crate::vt::osc::hex_value(a)->Some_0,
                crate::vt::osc::hex_value(b)->Some_0,
            );
            &&& crate::vt::osc::channel(seq![a]) == Some((x * 16 + x) as u8)
            &&& crate::vt::osc::channel(seq![a, b]) == Some((x * 16 + y) as u8)
            &&& crate::vt::osc::channel(Seq::new(n, |i: int| 'f' as u8)) == Some(255u8)
            &&& crate::vt::osc::channel(Seq::new(n, |i: int| '0' as u8)) == Some(0u8)
        }),
{
    reveal_with_fuel(crate::vt::osc::hex_number, 5);
    two_hex(seq![a, b], a, b);
    assert(seq![a].drop_last() =~= Seq::empty());
    let x = crate::vt::osc::hex_value(a)->Some_0;
    assert(crate::vt::osc::hex_number(seq![a]) == x);
    assert(x * 255 / 0xF == x * 17);
    same_digits('f' as u8, n);
    same_digits('0' as u8, n);
    let l = crate::vt::osc::hex_limit(n);
    assert(l * 255 / l == 255) by (nonlinear_arith)
        requires
            l > 0,
    ;
    assert(0 * 255 / l == 0) by (nonlinear_arith)
        requires
            l > 0,
    ;
    let f = Seq::new(n, |i: int| 'f' as u8);
    let z = Seq::new(n, |i: int| '0' as u8);
    assert(crate::vt::osc::all_hex(f) && crate::vt::osc::all_hex(z));
    assert(crate::vt::osc::hex_number(f) == l);
    assert(crate::vt::osc::hex_number(z) == 0);
    assert(crate::vt::osc::channel(f) == Some(255u8));
    assert(crate::vt::osc::channel(z) == Some(0u8));
    assert(crate::vt::osc::all_hex(seq![a]));
}

proof fn same_digits(d: u8, n: nat)
    requires
        d == 'f' as u8 || d == '0' as u8,
        n <= 4,
    ensures
        d == '0' as u8 ==> crate::vt::osc::hex_number(Seq::new(n, |i: int| d)) == 0,
        d == 'f' as u8 && n > 0 ==> crate::vt::osc::hex_number(Seq::new(n, |i: int| d))
            == crate::vt::osc::hex_limit(n),
        d == 'f' as u8 && n == 0 ==> crate::vt::osc::hex_number(Seq::new(n, |i: int| d)) == 0,
    decreases n,
{
    if n > 0 {
        same_digits(d, (n - 1) as nat);
        assert(Seq::new(n, |i: int| d).drop_last() =~= Seq::new((n - 1) as nat, |i: int| d));
        assert(Seq::new(n, |i: int| d).last() == d);
    }
}

} // verus!
