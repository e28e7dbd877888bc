//! What select graphic rendition does to the attributes.
use vstd::prelude::*;

use crate::vt::attrs::{Attrs, Color, Intensity, Underline};
use crate::vt::meaning::one;
use crate::vt::screen::ScreenModel;
use crate::vt::sgr::{byte_at, group_color, is_color_group, Layer};

verus! {

impl<T> ScreenModel<T> {
    /// The attributes after `CSI n m`.
    pub open spec fn sgr(self, n: u16) -> Attrs {
        self.after_csi(one(n), 'm').attrs
    }

    /// Whether select graphic rendition changes nothing but the attributes.
    pub open spec fn only_restyled(self, before: ScreenModel<T>) -> bool {
        self == ScreenModel { attrs: self.attrs, ..before }
    }
}

/// One number that stands alone.
proof fn alone<T>(s: ScreenModel<T>, n: u16)
    requires
        n != 38,
        n != 48,
        n != 58,
    ensures
        s.sgr(n) == (match s.attrs.after_code(n) {
            Some(a) => a,
            None => s.attrs,
        }),
{
    reveal_with_fuel(Attrs::after_groups, 2);
    assert(one(n)[0] == seq![n]);
    assert(s.attrs.after_sgr(one(n)) == s.attrs.after_groups(one(n), 0));
}

/// Whatever its numbers are, select graphic rendition touches no cell, no mode and not the cursor.
pub proof fn styles_draw_nothing<T>(s: ScreenModel<T>, ps: Seq<Seq<u16>>)
    ensures
        s.after_csi(ps, 'm').only_restyled(s),
{
}

/// `CSI m` and `CSI 0 m` switch everything off but the hyperlink.
pub proof fn zero_resets<T>(s: ScreenModel<T>)
    ensures
        s.after_csi(Seq::empty(), 'm') == s.after_csi(one(0), 'm'),
        ({
            let a = s.sgr(0);
            &&& a.fgcolor == Color::Default && a.bgcolor == Color::Default && a.ulcolor
                == Color::Default
            &&& a.intensity == Intensity::Normal && a.underline == Underline::Off
            &&& !a.italic && !a.inverse && !a.strikethrough && !a.concealed && !a.blink
            &&& a.link == s.attrs.link
        }),
{
    alone(s, 0);
}

/// What each number switches on, and nothing else.
pub proof fn switched_on<T>(s: ScreenModel<T>)
    ensures
        s.sgr(1) == (Attrs { intensity: Intensity::Bold, ..s.attrs }),
        s.sgr(2) == (Attrs { intensity: Intensity::Dim, ..s.attrs }),
        s.sgr(3) == (Attrs { italic: true, ..s.attrs }),
        s.sgr(4) == (Attrs { underline: Underline::Single, ..s.attrs }),
        s.sgr(5) == (Attrs { blink: true, ..s.attrs }),
        s.sgr(6) == (Attrs { blink: true, ..s.attrs }),
        s.sgr(7) == (Attrs { inverse: true, ..s.attrs }),
        s.sgr(8) == (Attrs { concealed: true, ..s.attrs }),
        s.sgr(9) == (Attrs { strikethrough: true, ..s.attrs }),
        s.sgr(21) == (Attrs { underline: Underline::Double, ..s.attrs }),
{
    alone(s, 1);
    alone(s, 2);
    alone(s, 3);
    alone(s, 4);
    alone(s, 5);
    alone(s, 6);
    alone(s, 7);
    alone(s, 8);
    alone(s, 9);
    alone(s, 21);
}

/// What each number switches off, and nothing else.
pub proof fn switched_off<T>(s: ScreenModel<T>)
    ensures
        s.sgr(22) == (Attrs { intensity: Intensity::Normal, ..s.attrs }),
        s.sgr(23) == (Attrs { italic: false, ..s.attrs }),
        s.sgr(24) == (Attrs { underline: Underline::Off, ..s.attrs }),
        s.sgr(25) == (Attrs { blink: false, ..s.attrs }),
        s.sgr(27) == (Attrs { inverse: false, ..s.attrs }),
        s.sgr(28) == (Attrs { concealed: false, ..s.attrs }),
        s.sgr(29) == (Attrs { strikethrough: false, ..s.attrs }),
        s.sgr(39) == (Attrs { fgcolor: Color::Default, ..s.attrs }),
        s.sgr(49) == (Attrs { bgcolor: Color::Default, ..s.attrs }),
        s.sgr(59) == (Attrs { ulcolor: Color::Default, ..s.attrs }),
{
    alone(s, 22);
    alone(s, 23);
    alone(s, 24);
    alone(s, 25);
    alone(s, 27);
    alone(s, 28);
    alone(s, 29);
    alone(s, 39);
    alone(s, 49);
    alone(s, 59);
}

/// The eight colours and their bright ones: 30 to 37 and 90 to 97 for text, 40 to 47 and 100 to 107
/// for what is behind it.
pub proof fn palette_colors<T>(s: ScreenModel<T>, k: u8)
    requires
        k < 8,
    ensures
        s.sgr((30 + k) as u16) == (Attrs { fgcolor: Color::Idx(k), ..s.attrs }),
        s.sgr((40 + k) as u16) == (Attrs { bgcolor: Color::Idx(k), ..s.attrs }),
        s.sgr((90 + k) as u16) == (Attrs { fgcolor: Color::Idx((8 + k) as u8), ..s.attrs }),
        s.sgr((100 + k) as u16) == (Attrs { bgcolor: Color::Idx((8 + k) as u8), ..s.attrs }),
{
    alone(s, (30 + k) as u16);
    alone(s, (40 + k) as u16);
    alone(s, (90 + k) as u16);
    alone(s, (100 + k) as u16);
}

/// Any of 256 colours: `38;5;n` for text, `48;5;n` behind it, `58;5;n` for the underline, with colons
/// or semicolons.
pub proof fn indexed_colors<T>(s: ScreenModel<T>, layer: u16, n: u8)
    requires
        layer == 38 || layer == 48 || layer == 58,
    ensures
        ({
            let ps = seq![seq![layer], seq![5u16], seq![n as u16]];
            let qs = seq![seq![layer, 5u16, n as u16]];
            let a = if layer == 38 {
                Attrs { fgcolor: Color::Idx(n), ..s.attrs }
            } else if layer == 48 {
                Attrs { bgcolor: Color::Idx(n), ..s.attrs }
            } else {
                Attrs { ulcolor: Color::Idx(n), ..s.attrs }
            };
            s.after_csi(ps, 'm').attrs == a && s.after_csi(qs, 'm').attrs == a
        }),
{
    reveal_with_fuel(Attrs::after_groups, 3);
    let ps = seq![seq![layer], seq![5u16], seq![n as u16]];
    let qs = seq![seq![layer, 5u16, n as u16]];
    assert(ps[0] == seq![layer] && ps[1] == seq![5u16] && ps[2] == seq![n as u16]);
    assert(ps[1][0] != seq![2u16][0]);
    assert(qs[0] == seq![layer, 5u16, n as u16]);
    assert(s.attrs.after_sgr(ps) == s.attrs.after_groups(ps, 0));
    assert(s.attrs.after_sgr(qs) == s.attrs.after_groups(qs, 0));
}

/// Any colour by its red, green and blue: `38;2;r;g;b` for text, `48;2;..` behind it, `58;2;..` for
/// the underline.
pub proof fn direct_colors<T>(s: ScreenModel<T>, layer: u16, r: u8, g: u8, b: u8)
    requires
        layer == 38 || layer == 48 || layer == 58,
    ensures
        ({
            let ps = seq![seq![layer], seq![2u16], seq![r as u16], seq![g as u16], seq![b as u16]];
            let c = Color::Rgb(r, g, b);
            let a = s.after_csi(ps, 'm').attrs;
            &&& layer == 38 ==> a == (Attrs { fgcolor: c, ..s.attrs })
            &&& layer == 48 ==> a == (Attrs { bgcolor: c, ..s.attrs })
            &&& layer == 58 ==> a == (Attrs { ulcolor: c, ..s.attrs })
        }),
{
    let ps = seq![seq![layer], seq![2u16], seq![r as u16], seq![g as u16], seq![b as u16]];
    assert(ps[0] == seq![layer] && ps[1] == seq![2u16] && ps[2] == seq![r as u16]);
    assert(ps[3] == seq![g as u16] && ps[4] == seq![b as u16]);
    assert(s.attrs.after_sgr(ps) == s.attrs.after_groups(ps, 0));
    let l = Layer::of_spec(layer)->Some_0;
    let n = s.attrs.with_color(l, Color::Rgb(r, g, b));
    assert(n.after_groups(ps, ps.len() as int) == (n, 0nat));
}

/// The same with colons.
pub proof fn direct_colors_with_colons<T>(s: ScreenModel<T>, layer: u16, r: u8, g: u8, b: u8)
    requires
        layer == 38 || layer == 48 || layer == 58,
    ensures
        ({
            let ps = seq![seq![layer, 2u16, r as u16, g as u16, b as u16]];
            let c = Color::Rgb(r, g, b);
            let a = s.after_csi(ps, 'm').attrs;
            &&& layer == 38 ==> a == (Attrs { fgcolor: c, ..s.attrs })
            &&& layer == 48 ==> a == (Attrs { bgcolor: c, ..s.attrs })
            &&& layer == 58 ==> a == (Attrs { ulcolor: c, ..s.attrs })
        }),
{
    let ps = seq![seq![layer, 2u16, r as u16, g as u16, b as u16]];
    assert(ps[0] == seq![layer, 2u16, r as u16, g as u16, b as u16]);
    assert(s.attrs.after_sgr(ps) == s.attrs.after_groups(ps, 0));
    let l = Layer::of_spec(layer)->Some_0;
    let n = s.attrs.with_color(l, Color::Rgb(r, g, b));
    assert(n.after_groups(ps, ps.len() as int) == (n, 0nat));
}

/// The same with colons and a place for a colour space.
pub proof fn direct_colors_in_a_space<T>(s: ScreenModel<T>, layer: u16, r: u8, g: u8, b: u8)
    requires
        layer == 38 || layer == 48 || layer == 58,
    ensures
        ({
            let ps = seq![seq![layer, 2u16, 0u16, r as u16, g as u16, b as u16]];
            let c = Color::Rgb(r, g, b);
            let a = s.after_csi(ps, 'm').attrs;
            &&& layer == 38 ==> a == (Attrs { fgcolor: c, ..s.attrs })
            &&& layer == 48 ==> a == (Attrs { bgcolor: c, ..s.attrs })
            &&& layer == 58 ==> a == (Attrs { ulcolor: c, ..s.attrs })
        }),
{
    let ps = seq![seq![layer, 2u16, 0u16, r as u16, g as u16, b as u16]];
    assert(ps[0] == seq![layer, 2u16, 0u16, r as u16, g as u16, b as u16]);
    assert(s.attrs.after_sgr(ps) == s.attrs.after_groups(ps, 0));
    let l = Layer::of_spec(layer)->Some_0;
    let n = s.attrs.with_color(l, Color::Rgb(r, g, b));
    assert(n.after_groups(ps, ps.len() as int) == (n, 0nat));
}

/// `4:n` chooses how text is underlined: not, once, twice, in waves, dots or dashes.
pub proof fn underline_styles<T>(s: ScreenModel<T>, n: u16)
    requires
        n <= 5,
    ensures
        ({
            let a = s.after_csi(seq![seq![4u16, n]], 'm').attrs;
            &&& a == (Attrs { underline: a.underline, ..s.attrs })
            &&& n == 0 <==> a.underline == Underline::Off
            &&& n == 1 <==> a.underline == Underline::Single
            &&& n == 2 <==> a.underline == Underline::Double
            &&& n == 3 <==> a.underline == Underline::Curly
            &&& n == 4 <==> a.underline == Underline::Dotted
            &&& n == 5 <==> a.underline == Underline::Dashed
        }),
{
    reveal_with_fuel(Attrs::after_groups, 2);
    let ps = seq![seq![4u16, n]];
    assert(ps[0] == seq![4u16, n]);
}

/// Several numbers do one after the other what each does alone.
pub proof fn styles_add_up<T>(s: ScreenModel<T>, n: u16, rest: Seq<Seq<u16>>)
    requires
        n != 38,
        n != 48,
        n != 58,
        rest.len() > 0,
    ensures
        s.after_csi(seq![seq![n]] + rest, 'm').attrs == s.after_csi(one(n), 'm').after_csi(
            rest,
            'm',
        ).attrs,
{
    let ps = seq![seq![n]] + rest;
    assert(ps[0] == seq![n]);
    assert(s.attrs.after_sgr(ps) == s.attrs.after_groups(ps, 0));
    let a = s.sgr(n);
    alone(s, n);
    assert(s.attrs.after_groups(ps, 0).0 == a.after_groups(ps, 1).0);
    groups_shift(a, ps, rest, 1, 0);
}

proof fn groups_shift(a: Attrs, ps: Seq<Seq<u16>>, rest: Seq<Seq<u16>>, by: int, i: int)
    requires
        by >= 0,
        i >= 0,
        ps.len() == rest.len() + by,
        forall|k: int| 0 <= k < rest.len() ==> ps[k + by] == #[trigger] rest[k],
    ensures
        a.after_groups(ps, i + by) == a.after_groups(rest, i),
    decreases (if i < rest.len() { rest.len() - i } else { 0 }),
{
    if i < rest.len() {
        assert(ps[i + by] == rest[i]);
        if i + 1 < rest.len() {
            assert(ps[i + 1 + by] == rest[i + 1]);
        }
        if i + 2 < rest.len() {
            assert(ps[i + 2 + by] == rest[i + 2]);
        }
        if i + 3 < rest.len() {
            assert(ps[i + 3 + by] == rest[i + 3]);
        }
        if i + 4 < rest.len() {
            assert(ps[i + 4 + by] == rest[i + 4]);
        }
        if rest[i].len() == 1 && Layer::of_spec(rest[i][0]) is Some {
            let layer = Layer::of_spec(rest[i][0])->Some_0;
            if byte_at(rest, i + 2) is Some && byte_at(rest, i + 3) is Some && byte_at(rest, i + 4)
                is Some {
                let rgb = Color::Rgb(
                    byte_at(rest, i + 2)->Some_0,
                    byte_at(rest, i + 3)->Some_0,
                    byte_at(rest, i + 4)->Some_0,
                );
                groups_shift(a.with_color(layer, rgb), ps, rest, by, i + 5);
            }
            if byte_at(rest, i + 2) is Some {
                let idx = Color::Idx(byte_at(rest, i + 2)->Some_0);
                groups_shift(a.with_color(layer, idx), ps, rest, by, i + 3);
            }
        } else if is_color_group(rest[i]) {
            let layer = Layer::of_spec(rest[i][0])->Some_0;
            if group_color(rest[i]) is Some {
                groups_shift(
                    a.with_color(layer, group_color(rest[i])->Some_0),
                    ps,
                    rest,
                    by,
                    i + 1,
                );
            }
        } else if rest[i].len() == 2 && rest[i][0] == 4 && rest[i][1] <= 5 {
            let b = Attrs { underline: Underline::from_number_spec(rest[i][1]), ..a };
            groups_shift(b, ps, rest, by, i + 1);
        } else if rest[i].len() == 1 && a.after_code(rest[i][0]) is Some {
            groups_shift(a.after_code(rest[i][0])->Some_0, ps, rest, by, i + 1);
        } else {
            groups_shift(a, ps, rest, by, i + 1);
        }
        assert(i + by + 1 == i + 1 + by && i + by + 2 == i + 2 + by && i + by + 3 == i + 3 + by && i
            + by + 4 == i + 4 + by && i + by + 5 == i + 5 + by);
        assert(byte_at(ps, i + by + 2) == byte_at(rest, i + 2));
        assert(byte_at(ps, i + by + 3) == byte_at(rest, i + 3));
        assert(byte_at(ps, i + by + 4) == byte_at(rest, i + 4));
    }
}

/// Numbers without a meaning change nothing.
pub proof fn unknown_styles<T>(s: ScreenModel<T>, n: u16)
    requires
        10 <= n <= 20 || n == 26 || 50 <= n <= 57 || 60 <= n <= 89 || 98 <= n <= 99 || n >= 108,
    ensures
        s.sgr(n) == s.attrs,
{
    alone(s, n);
}

} // verus!
