//! The escape sequence that turns one set of attributes into another does.
use vstd::prelude::*;

use crate::vt::attrs::{Attrs, Color, Intensity, Underline};
use crate::vt::dispatch::{csi_op, Op};
use crate::vt::escape::{code, code_if, color_part, csi, switch_part, underline_part};
use crate::vt::replay::token::{
    count_numbers, draws, nothing_draws, numbered, numbers_append, numbers_bytes, one_group, token_draws,
    two_groups, Token,
};
use crate::vt::screen::ScreenModel;
use crate::vt::sgr::{byte_at, is_color_group, Layer};

verus! {

impl Attrs {
    /// These attributes with the look of others. The hyperlink, which is no part of the look,
    /// stays.
    pub open spec fn looking(self, other: Attrs) -> Attrs {
        Attrs { link: self.link, ..other }
    }

    /// Whether text looks the same in both.
    pub open spec fn same_look(self, other: Attrs) -> bool {
        self.looking(other) == self
    }
}

/// Codes turn attributes into others, whatever stands before and behind them.
#[verifier::opaque]
pub open spec fn runs(a: Attrs, part: Seq<Seq<u16>>, b: Attrs) -> bool {
    forall|pre: Seq<Seq<u16>>, post: Seq<Seq<u16>>|
        (#[trigger] a.after_groups(pre + part + post, pre.len() as int)) == b.after_groups(
            pre + part + post,
            (pre.len() + part.len()) as int,
        )
}

proof fn nothing_runs(a: Attrs)
    ensures
        runs(a, Seq::empty(), a),
{
    reveal(runs);
}

proof fn one_runs(a: Attrs, n: u16)
    requires
        Layer::of_spec(n) is None,
        a.after_code(n) is Some,
    ensures
        runs(a, code(n), a.after_code(n)->Some_0),
{
    reveal(runs);
    assert forall|pre: Seq<Seq<u16>>, post: Seq<Seq<u16>>|
        (#[trigger] a.after_groups(pre + code(n) + post, pre.len() as int)) == (a.after_code(
            n,
        )->Some_0).after_groups(pre + code(n) + post, (pre.len() + 1) as int) by {
        let ps = pre + code(n) + post;
        let i = pre.len() as int;
        assert(ps[i] == seq![n]);
        assert(ps[i].len() == 1);
        assert(ps[i][0] == n);
        assert(!is_color_group(ps[i]));
    }
}

proof fn styled_underline_runs(a: Attrs, n: u16)
    requires
        n <= 5,
    ensures
        runs(a, seq![seq![4u16, n]], Attrs { underline: Underline::from_number_spec(n), ..a }),
{
    reveal(runs);
    let part = seq![seq![4u16, n]];
    let b = Attrs { underline: Underline::from_number_spec(n), ..a };
    assert forall|pre: Seq<Seq<u16>>, post: Seq<Seq<u16>>|
        (#[trigger] a.after_groups(pre + part + post, pre.len() as int)) == b.after_groups(
            pre + part + post,
            (pre.len() + 1) as int,
        ) by {
        let ps = pre + part + post;
        let i = pre.len() as int;
        assert(ps[i] == seq![4u16, n]);
        assert(ps[i].len() == 2);
        assert(ps[i][0] == 4);
        assert(ps[i][1] == n);
        assert(!is_color_group(ps[i]));
    }
}

proof fn indexed_runs(a: Attrs, n: u16, i: u8)
    requires
        Layer::of_spec(n) is Some,
    ensures
        runs(
            a,
            seq![seq![n], seq![5u16], seq![i as u16]],
            a.with_color(Layer::of_spec(n)->Some_0, Color::Idx(i)),
        ),
{
    reveal(runs);
    let part = seq![seq![n], seq![5u16], seq![i as u16]];
    let b = a.with_color(Layer::of_spec(n)->Some_0, Color::Idx(i));
    assert forall|pre: Seq<Seq<u16>>, post: Seq<Seq<u16>>|
        (#[trigger] a.after_groups(pre + part + post, pre.len() as int)) == b.after_groups(
            pre + part + post,
            (pre.len() + 3) as int,
        ) by {
        let ps = pre + part + post;
        let k = pre.len() as int;
        assert(ps[k] == seq![n]);
        assert(ps[k + 1] == seq![5u16]);
        assert(ps[k + 2] == seq![i as u16]);
        assert(ps[k].len() == 1 && ps[k][0] == n);
        assert(ps[k + 1][0] == 5);
        assert(!(ps[k + 1] =~= seq![2u16]));
        assert(ps[k + 2].len() == 1 && ps[k + 2][0] == i as u16);
        assert(byte_at(ps, k + 2) == Some(i));
    }
}

proof fn direct_runs(a: Attrs, n: u16, r: u8, g: u8, b: u8)
    requires
        Layer::of_spec(n) is Some,
    ensures
        runs(
            a,
            seq![seq![n], seq![2u16], seq![r as u16], seq![g as u16], seq![b as u16]],
            a.with_color(Layer::of_spec(n)->Some_0, Color::Rgb(r, g, b)),
        ),
{
    reveal(runs);
    let part = seq![seq![n], seq![2u16], seq![r as u16], seq![g as u16], seq![b as u16]];
    let c = a.with_color(Layer::of_spec(n)->Some_0, Color::Rgb(r, g, b));
    assert forall|pre: Seq<Seq<u16>>, post: Seq<Seq<u16>>|
        (#[trigger] a.after_groups(pre + part + post, pre.len() as int)) == c.after_groups(
            pre + part + post,
            (pre.len() + 5) as int,
        ) by {
        let ps = pre + part + post;
        let k = pre.len() as int;
        assert(ps[k] == seq![n]);
        assert(ps[k + 1] == seq![2u16]);
        assert(ps[k + 2] == seq![r as u16]);
        assert(ps[k + 3] == seq![g as u16]);
        assert(ps[k + 4] == seq![b as u16]);
        assert(ps[k].len() == 1 && ps[k][0] == n);
        assert(byte_at(ps, k + 2) == Some(r));
        assert(byte_at(ps, k + 3) == Some(g));
        assert(byte_at(ps, k + 4) == Some(b));
    }
}

proof fn running_goes_on(a: Attrs, p: Seq<Seq<u16>>, b: Attrs, q: Seq<Seq<u16>>, c: Attrs)
    requires
        runs(a, p, b),
        runs(b, q, c),
    ensures
        runs(a, p + q, c),
{
    reveal(runs);
    assert forall|pre: Seq<Seq<u16>>, post: Seq<Seq<u16>>|
        (#[trigger] a.after_groups(pre + (p + q) + post, pre.len() as int)) == c.after_groups(
            pre + (p + q) + post,
            (pre.len() + (p + q).len()) as int,
        ) by {
        assert(pre + (p + q) + post =~= pre + p + (q + post));
        assert(pre + (p + q) + post =~= (pre + p) + q + post);
        assert(a.after_groups(pre + p + (q + post), pre.len() as int) == b.after_groups(
            pre + p + (q + post),
            (pre.len() + p.len()) as int,
        ));
        assert(b.after_groups((pre + p) + q + post, (pre + p).len() as int) == c.after_groups(
            (pre + p) + q + post,
            ((pre + p).len() + q.len()) as int,
        ));
    }
}

/// The layer whose codes count from a number.
spec fn layer_of(base: u16) -> Layer {
    if base == 30 {
        Layer::Foreground
    } else if base == 40 {
        Layer::Background
    } else {
        Layer::Underline
    }
}

spec fn color_in(a: Attrs, base: u16) -> Color {
    if base == 30 {
        a.fgcolor
    } else if base == 40 {
        a.bgcolor
    } else {
        a.ulcolor
    }
}

proof fn color_runs(a: Attrs, new: Color, base: u16)
    requires
        base == 30 || base == 40 || base == 50,
    ensures
        runs(a, color_part(new, color_in(a, base), base), a.with_color(layer_of(base), new)),
{
    if new == color_in(a, base) {
        nothing_runs(a);
        assert(a.with_color(layer_of(base), new) == a);
    } else {
        match new {
            Color::Default => one_runs(a, (base + 9) as u16),
            Color::Idx(i) => {
                if i < 8 && base < 50 {
                    one_runs(a, (base + i) as u16);
                } else if i < 16 && base < 50 {
                    one_runs(a, (base + 52 + i) as u16);
                } else {
                    indexed_runs(a, (base + 8) as u16, i);
                }
            },
            Color::Rgb(r, g, b) => direct_runs(a, (base + 8) as u16, r, g, b),
        }
    }
}

proof fn italic_runs(a: Attrs, new: bool)
    ensures
        runs(a, switch_part(new, a.italic, 3, 23), Attrs { italic: new, ..a }),
{
    if new == a.italic {
        nothing_runs(a);
    } else if new {
        one_runs(a, 3);
    } else {
        one_runs(a, 23);
    }
}

proof fn blink_runs(a: Attrs, new: bool)
    ensures
        runs(a, switch_part(new, a.blink, 5, 25), Attrs { blink: new, ..a }),
{
    if new == a.blink {
        nothing_runs(a);
    } else if new {
        one_runs(a, 5);
    } else {
        one_runs(a, 25);
    }
}

proof fn inverse_runs(a: Attrs, new: bool)
    ensures
        runs(a, switch_part(new, a.inverse, 7, 27), Attrs { inverse: new, ..a }),
{
    if new == a.inverse {
        nothing_runs(a);
    } else if new {
        one_runs(a, 7);
    } else {
        one_runs(a, 27);
    }
}

proof fn concealed_runs(a: Attrs, new: bool)
    ensures
        runs(a, switch_part(new, a.concealed, 8, 28), Attrs { concealed: new, ..a }),
{
    if new == a.concealed {
        nothing_runs(a);
    } else if new {
        one_runs(a, 8);
    } else {
        one_runs(a, 28);
    }
}

proof fn strikethrough_runs(a: Attrs, new: bool)
    ensures
        runs(a, switch_part(new, a.strikethrough, 9, 29), Attrs { strikethrough: new, ..a }),
{
    if new == a.strikethrough {
        nothing_runs(a);
    } else if new {
        one_runs(a, 9);
    } else {
        one_runs(a, 29);
    }
}

proof fn underline_runs(a: Attrs, new: Underline)
    ensures
        runs(a, underline_part(new, a.underline), Attrs { underline: new, ..a }),
{
    if new == a.underline {
        nothing_runs(a);
    } else {
        match new {
            Underline::Off => one_runs(a, 24),
            Underline::Single => one_runs(a, 4),
            Underline::Double => one_runs(a, 21),
            _ => styled_underline_runs(a, new.number_spec() as u16),
        }
    }
}

proof fn intensity_runs(a: Attrs, new: Intensity)
    ensures
        runs(
            a,
            code_if(
                new != a.intensity,
                match new {
                    Intensity::Normal => 22,
                    Intensity::Bold => 1,
                    Intensity::Dim => 2,
                },
            ),
            Attrs { intensity: new, ..a },
        ),
{
    if new == a.intensity {
        nothing_runs(a);
    } else {
        match new {
            Intensity::Normal => one_runs(a, 22),
            Intensity::Bold => one_runs(a, 1),
            Intensity::Dim => one_runs(a, 2),
        }
    }
}

proof fn colors_run(a: Attrs, new: Attrs)
    ensures
        runs(
            a,
            new.color_codes_from(a),
            Attrs { fgcolor: new.fgcolor, bgcolor: new.bgcolor, ulcolor: new.ulcolor, ..a },
        ),
{
    let b = a.with_color(Layer::Foreground, new.fgcolor);
    let c = b.with_color(Layer::Background, new.bgcolor);
    let d = c.with_color(Layer::Underline, new.ulcolor);
    color_runs(a, new.fgcolor, 30);
    color_runs(b, new.bgcolor, 40);
    color_runs(c, new.ulcolor, 50);
    running_goes_on(
        a,
        color_part(new.fgcolor, a.fgcolor, 30),
        b,
        color_part(new.bgcolor, a.bgcolor, 40),
        c,
    );
    running_goes_on(
        a,
        color_part(new.fgcolor, a.fgcolor, 30) + color_part(new.bgcolor, a.bgcolor, 40),
        c,
        color_part(new.ulcolor, a.ulcolor, 50),
        d,
    );
}

proof fn seven_run(
    a: Attrs,
    p1: Seq<Seq<u16>>,
    a1: Attrs,
    p2: Seq<Seq<u16>>,
    a2: Attrs,
    p3: Seq<Seq<u16>>,
    a3: Attrs,
    p4: Seq<Seq<u16>>,
    a4: Attrs,
    p5: Seq<Seq<u16>>,
    a5: Attrs,
    p6: Seq<Seq<u16>>,
    a6: Attrs,
    p7: Seq<Seq<u16>>,
    a7: Attrs,
)
    requires
        runs(a, p1, a1),
        runs(a1, p2, a2),
        runs(a2, p3, a3),
        runs(a3, p4, a4),
        runs(a4, p5, a5),
        runs(a5, p6, a6),
        runs(a6, p7, a7),
    ensures
        runs(a, p1 + p2 + p3 + p4 + p5 + p6 + p7, a7),
{
    running_goes_on(a, p1, a1, p2, a2);
    running_goes_on(a, p1 + p2, a2, p3, a3);
    running_goes_on(a, p1 + p2 + p3, a3, p4, a4);
    running_goes_on(a, p1 + p2 + p3 + p4, a4, p5, a5);
    running_goes_on(a, p1 + p2 + p3 + p4 + p5, a5, p6, a6);
    running_goes_on(a, p1 + p2 + p3 + p4 + p5 + p6, a6, p7, a7);
}

proof fn styles_run(a: Attrs, new: Attrs)
    ensures
        runs(
            a,
            new.style_codes_from(a),
            Attrs { fgcolor: a.fgcolor, bgcolor: a.bgcolor, ulcolor: a.ulcolor, ..a.looking(new) },
        ),
{
    let a1 = Attrs { intensity: new.intensity, ..a };
    let a2 = Attrs { italic: new.italic, ..a1 };
    let a3 = Attrs { underline: new.underline, ..a2 };
    let a4 = Attrs { blink: new.blink, ..a3 };
    let a5 = Attrs { inverse: new.inverse, ..a4 };
    let a6 = Attrs { concealed: new.concealed, ..a5 };
    let a7 = Attrs { strikethrough: new.strikethrough, ..a6 };
    intensity_runs(a, new.intensity);
    italic_runs(a1, new.italic);
    underline_runs(a2, new.underline);
    blink_runs(a3, new.blink);
    inverse_runs(a4, new.inverse);
    concealed_runs(a5, new.concealed);
    strikethrough_runs(a6, new.strikethrough);
    seven_run(
        a,
        code_if(
            new.intensity != a.intensity,
            match new.intensity {
                Intensity::Normal => 22,
                Intensity::Bold => 1,
                Intensity::Dim => 2,
            },
        ),
        a1,
        switch_part(new.italic, a.italic, 3, 23),
        a2,
        underline_part(new.underline, a.underline),
        a3,
        switch_part(new.blink, a.blink, 5, 25),
        a4,
        switch_part(new.inverse, a.inverse, 7, 27),
        a5,
        switch_part(new.concealed, a.concealed, 8, 28),
        a6,
        switch_part(new.strikethrough, a.strikethrough, 9, 29),
        a7,
    );
}

/// The codes that turn some attributes into others do, but for the hyperlink, which has no code.
pub proof fn codes_lead_over(a: Attrs, new: Attrs)
    ensures
        a.after_groups(new.codes_from(a), 0) == (a.looking(new), 0nat),
{
    let mid = Attrs { fgcolor: new.fgcolor, bgcolor: new.bgcolor, ulcolor: new.ulcolor, ..a };
    colors_run(a, new);
    styles_run(mid, new);
    assert(new.style_codes_from(mid) == new.style_codes_from(a));
    running_goes_on(a, new.color_codes_from(a), mid, new.style_codes_from(a), a.looking(new));
    reveal(runs);
    let ps = new.codes_from(a);
    let none = Seq::<Seq<u16>>::empty();
    assert(none + ps + none =~= ps);
    assert(a.after_groups(none + ps + none, none.len() as int) == a.looking(new).after_groups(
        none + ps + none,
        (none.len() + ps.len()) as int,
    ));
}

impl<T> ScreenModel<T> {
    /// The screen drawing with other attributes.
    pub open spec fn with_look(self, attrs: Attrs) -> ScreenModel<T> {
        ScreenModel { attrs: self.attrs.looking(attrs), ..self }
    }
}

proof fn first_code(new: Attrs, a: Attrs)
    requires
        new.codes_from(a).len() > 0,
    ensures
        new.codes_from(a) != seq![seq![0u16]],
{
    let zero = seq![seq![0u16]];
    if new.codes_from(a) == zero {
        codes_lead_over(a, new);
        assert(zero[0] == seq![0u16]);
        let all = new.color_codes_from(a) + new.style_codes_from(a);
        assert(all[0] == seq![0u16]);
        assert(all[0][0] == 0);
        if new.color_codes_from(a).len() > 0 {
            assert(all[0] == new.color_codes_from(a)[0]);
        } else {
            assert(all[0] == new.style_codes_from(a)[0]);
        }
        assert(false);
    }
}

proof fn attributes_told<T>(u: ScreenModel<T>, ps: Seq<Seq<u16>>)
    ensures
        u.told(Token::Sequence(None, ps, 'm')) == (ScreenModel {
            attrs: u.attrs.after_sgr(ps).0,
            ..u
        }),
{
    assert(csi_op(None, None, ps, 'm', u.active().size.rows) == Op::Attributes);
}

proof fn reset_told(a: Attrs)
    ensures
        a.after_sgr(seq![seq![0u16]]).0 == a.reset_spec(),
{
    let ps = seq![seq![0u16]];
    assert(ps[0].len() == 1 && ps[0][0] == 0);
    assert(!is_color_group(ps[0]));
    let b = a.reset_spec();
    assert(a.after_code(0) == Some(b));
    assert(a.after_groups(ps, 0) == b.after_groups(ps, 1));
    assert(b.after_groups(ps, 1) == (b, 0nat));
}

proof fn spelled_attributes(ps: Seq<Seq<u16>>)
    ensures
        Token::Sequence(None, ps, 'm').spelled() == (csi() + numbers_bytes(ps)).push('m' as u8),
{
    assert(Token::Sequence(None, ps, 'm').spelled() =~= (csi() + numbers_bytes(ps)).push(
        'm' as u8,
    ));
}

proof fn color_part_is_short(new: Color, was: Color, base: u16)
    ensures
        numbered(color_part(new, was, base)),
        count_numbers(color_part(new, was, base)) <= 5,
{
    let ps = color_part(new, was, base);
    if new != was {
        match new {
            Color::Default => one_group(seq![(base + 9) as u16]),
            Color::Idx(i) => {
                if i < 8 && base < 50 {
                    one_group(seq![(base + i) as u16]);
                } else if i < 16 && base < 50 {
                    one_group(seq![(base + 52 + i) as u16]);
                } else {
                    two_groups(seq![(base + 8) as u16], seq![5u16]);
                    one_group(seq![i as u16]);
                    let a = seq![seq![(base + 8) as u16], seq![5u16]];
                    let b = seq![seq![i as u16]];
                    numbers_append(a, b);
                    assert(ps =~= a + b);
                }
            },
            Color::Rgb(r, g, b) => {
                let x = seq![seq![(base + 8) as u16], seq![2u16]];
                let y = seq![seq![r as u16], seq![g as u16]];
                let z = seq![seq![b as u16]];
                two_groups(seq![(base + 8) as u16], seq![2u16]);
                two_groups(seq![r as u16], seq![g as u16]);
                one_group(seq![b as u16]);
                numbers_append(x, y);
                numbers_append(x + y, z);
                assert(ps =~= x + y + z);
            },
        }
    }
}

proof fn code_if_is_short(changed: bool, n: u16)
    ensures
        numbered(code_if(changed, n)),
        count_numbers(code_if(changed, n)) <= 1,
{
    one_group(seq![n]);
}

proof fn underline_part_is_short(new: Underline, was: Underline)
    ensures
        numbered(underline_part(new, was)),
        count_numbers(underline_part(new, was)) <= 2,
{
    one_group(seq![24u16]);
    one_group(seq![4u16]);
    one_group(seq![21u16]);
    one_group(seq![4u16, new.number_spec() as u16]);
}

proof fn short_parts(a: Seq<Seq<u16>>, n: nat, b: Seq<Seq<u16>>, m: nat)
    requires
        numbered(a),
        numbered(b),
        count_numbers(a) <= n,
        count_numbers(b) <= m,
    ensures
        numbered(a + b),
        count_numbers(a + b) <= n + m,
{
    numbers_append(a, b);
}

/// No more numbers are needed than are read.
proof fn codes_are_few(new: Attrs, was: Attrs)
    ensures
        numbered(new.codes_from(was)),
        count_numbers(new.codes_from(was)) <= 23,
{
    let f = color_part(new.fgcolor, was.fgcolor, 30);
    let b = color_part(new.bgcolor, was.bgcolor, 40);
    let u = color_part(new.ulcolor, was.ulcolor, 50);
    color_part_is_short(new.fgcolor, was.fgcolor, 30);
    color_part_is_short(new.bgcolor, was.bgcolor, 40);
    color_part_is_short(new.ulcolor, was.ulcolor, 50);
    short_parts(f, 5, b, 5);
    short_parts(f + b, 10, u, 5);
    styles_are_few(new, was);
    short_parts(f + b + u, 15, new.style_codes_from(was), 8);
}

spec fn short(part: Seq<Seq<u16>>, n: nat) -> bool {
    numbered(part) && count_numbers(part) <= n
}

proof fn parts_are_few(
    p1: Seq<Seq<u16>>,
    p2: Seq<Seq<u16>>,
    p3: Seq<Seq<u16>>,
    p4: Seq<Seq<u16>>,
    p5: Seq<Seq<u16>>,
    p6: Seq<Seq<u16>>,
    p7: Seq<Seq<u16>>,
)
    requires
        short(p1, 1),
        short(p2, 1),
        short(p3, 2),
        short(p4, 1),
        short(p5, 1),
        short(p6, 1),
        short(p7, 1),
    ensures
        short(p1 + p2 + p3 + p4 + p5 + p6 + p7, 8),
{
    short_parts(p1, 1, p2, 1);
    short_parts(p1 + p2, 2, p3, 2);
    short_parts(p1 + p2 + p3, 4, p4, 1);
    short_parts(p1 + p2 + p3 + p4, 5, p5, 1);
    short_parts(p1 + p2 + p3 + p4 + p5, 6, p6, 1);
    short_parts(p1 + p2 + p3 + p4 + p5 + p6, 7, p7, 1);
}

proof fn switch_part_is_short(new: bool, was: bool, on: u16, off: u16)
    ensures
        short(switch_part(new, was, on, off), 1),
{
    code_if_is_short(
        new != was,
        if new {
            on
        } else {
            off
        },
    );
}

proof fn styles_are_few(new: Attrs, was: Attrs)
    ensures
        short(new.style_codes_from(was), 8),
{
    let weight: u16 = match new.intensity {
        Intensity::Normal => 22,
        Intensity::Bold => 1,
        Intensity::Dim => 2,
    };
    code_if_is_short(new.intensity != was.intensity, weight);
    switch_part_is_short(new.italic, was.italic, 3, 23);
    underline_part_is_short(new.underline, was.underline);
    switch_part_is_short(new.blink, was.blink, 5, 25);
    switch_part_is_short(new.inverse, was.inverse, 7, 27);
    switch_part_is_short(new.concealed, was.concealed, 8, 28);
    switch_part_is_short(new.strikethrough, was.strikethrough, 9, 29);
    parts_are_few(
        code_if(new.intensity != was.intensity, weight),
        switch_part(new.italic, was.italic, 3, 23),
        underline_part(new.underline, was.underline),
        switch_part(new.blink, was.blink, 5, 25),
        switch_part(new.inverse, was.inverse, 7, 27),
        switch_part(new.concealed, was.concealed, 8, 28),
        switch_part(new.strikethrough, was.strikethrough, 9, 29),
    );
}

/// SGR without numbers resets the attributes.
pub(crate) proof fn reset_style_draws<T>(u: ScreenModel<T>)
    ensures
        draws(u, csi().push('m' as u8), (ScreenModel { attrs: u.attrs.reset_spec(), ..u })),
{
    let ps = seq![seq![0u16]];
    one_group(seq![0u16]);
    token_draws(u, Token::Sequence(None, ps, 'm'));
    spelled_attributes(ps);
    assert(csi() + Seq::<u8>::empty() =~= csi());
    attributes_told(u, ps);
    reset_told(u.attrs);
}

/// The escape sequence that turns some attributes into others does so on a terminal that draws with
/// the first, or with what looks like them.
pub(crate) proof fn style_draws<T>(u: ScreenModel<T>, was: Attrs, new: Attrs)
    requires
        u.attrs.same_look(was),
    ensures
        draws(u, new.escape_from(was), u.with_look(new)),
{
    if new != was && new == Attrs::plain() {
        reset_style_draws(u);
    } else {
        let ps = new.codes_from(was);
        assert(new.codes_from(u.attrs) == ps);
        codes_lead_over(u.attrs, new);
        if ps.len() == 0 {
            nothing_draws(u);
            assert(u.attrs.after_groups(ps, 0) == (u.attrs, 0nat));
            assert(u.with_look(new) == u);
        } else {
            first_code(new, was);
            codes_are_few(new, was);
            let t = Token::Sequence(None, ps, 'm');
            token_draws(u, t);
            spelled_attributes(ps);
            attributes_told(u, ps);
            assert(u.attrs.after_sgr(ps) == u.attrs.after_groups(ps, 0));
        }
    }
}

} // verus!
