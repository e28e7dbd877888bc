//! The escape sequences that reproduce a screen on another terminal.
use vstd::prelude::*;

use crate::vt::attrs::{Attrs, Color, Intensity, Underline};
use crate::vt::grid::Pos;
use crate::vt::screen::{MouseProtocolEncoding, MouseProtocolMode};
use crate::vt::sgr::groups;

verus! {

/// A number in decimal digits.
pub open spec fn decimal(n: nat) -> Seq<u8>
    decreases n,
{
    if n < 10 {
        seq![(48 + n) as u8]
    } else {
        decimal(n / 10).push((48 + n % 10) as u8)
    }
}

/// Appends a number in decimal digits.
pub fn push_decimal(out: &mut Vec<u8>, n: u16)
    ensures
        final(out)@ == old(out)@ + decimal(n as nat),
    decreases n,
{
    if n < 10 {
        out.push(48 + n as u8);
        proof {
            assert(out@ =~= old(out)@ + decimal(n as nat));
        }
    } else {
        push_decimal(out, n / 10);
        out.push(48 + (n % 10) as u8);
        proof {
            assert(out@ =~= old(out)@ + decimal(n as nat));
        }
    }
}

/// `ESC [`.
pub open spec fn csi() -> Seq<u8> {
    seq![0x1b, '[' as u8]
}

fn push_csi(out: &mut Vec<u8>)
    ensures
        final(out)@ == old(out)@ + csi(),
{
    out.push(0x1b);
    out.push('[' as u8);
    proof {
        assert(out@ =~= old(out)@ + csi());
    }
}

/// `n` copies of a byte.
pub open spec fn repeated(b: u8, n: int) -> Seq<u8> {
    Seq::new(n as nat, |i: int| b)
}

pub fn push_repeated(out: &mut Vec<u8>, b: u8, n: u16)
    ensures
        final(out)@ == old(out)@ + repeated(b, n as int),
{
    for i in 0..n
        invariant
            out@ =~= old(out)@ + repeated(b, i as int),
    {
        out.push(b);
    }
}

pub fn push_bytes(out: &mut Vec<u8>, bytes: &[u8])
    ensures
        final(out)@ == old(out)@ + bytes@,
{
    for i in 0..bytes.len()
        invariant
            out@ =~= old(out)@ + bytes@.take(i as int),
    {
        out.push(bytes[i]);
    }
    proof {
        assert(bytes@.take(bytes@.len() as int) =~= bytes@);
    }
}

/// A control sequence with one number before its final byte. The number 1 is left out,
/// and 0 stands for no sequence at all.
pub open spec fn counted(n: int, end: u8) -> Seq<u8> {
    if n <= 0 {
        Seq::empty()
    } else if n == 1 {
        csi().push(end)
    } else {
        (csi() + decimal(n as nat)).push(end)
    }
}

fn push_counted(out: &mut Vec<u8>, n: u16, end: u8)
    ensures
        final(out)@ == old(out)@ + counted(n as int, end),
{
    if n == 0 {
        proof {
            assert(out@ =~= old(out)@ + counted(n as int, end));
        }
        return;
    }
    push_csi(out);
    if n > 1 {
        push_decimal(out, n);
    }
    out.push(end);
    proof {
        assert(out@ =~= old(out)@ + counted(n as int, end));
    }
}

/// ECH: empties `n` cells.
pub open spec fn erase_chars(n: int) -> Seq<u8> {
    counted(n, 'X' as u8)
}

pub fn push_erase_chars(out: &mut Vec<u8>, n: u16)
    ensures
        final(out)@ == old(out)@ + erase_chars(n as int),
{
    push_counted(out, n, 'X' as u8);
}

/// CUP: moves the cursor to a position.
pub open spec fn move_to(row: int, col: int) -> Seq<u8> {
    if row == 0 && col == 0 {
        csi().push('H' as u8)
    } else {
        ((csi() + decimal((row + 1) as nat)).push(';' as u8) + decimal((col + 1) as nat)).push('H' as u8)
    }
}

pub fn push_move_to(out: &mut Vec<u8>, pos: Pos)
    requires
        pos.row < u16::MAX,
        pos.col < u16::MAX,
    ensures
        final(out)@ == old(out)@ + move_to(pos.row as int, pos.col as int),
{
    push_csi(out);
    if pos.row != 0 || pos.col != 0 {
        push_decimal(out, pos.row + 1);
        out.push(';' as u8);
        push_decimal(out, pos.col + 1);
    }
    out.push('H' as u8);
    proof {
        assert(out@ =~= old(out)@ + move_to(pos.row as int, pos.col as int));
    }
}

/// The shortest way from one position to another: a line break, a move to the right, an
/// absolute move, or nothing.
pub open spec fn move_from_to(from: Pos, to: Pos) -> Seq<u8> {
    if to.row == from.row + 1 && to.col == 0 {
        seq!['\r' as u8, '\n' as u8]
    } else if from.row == to.row && from.col < to.col {
        counted(to.col - from.col, 'C' as u8)
    } else if from != to {
        move_to(to.row as int, to.col as int)
    } else {
        Seq::empty()
    }
}

pub fn push_move_from_to(out: &mut Vec<u8>, from: Pos, to: Pos)
    requires
        from.row < u16::MAX,
        to.row < u16::MAX,
        to.col < u16::MAX || (from.row == to.row && from.col <= to.col),
    ensures
        final(out)@ == old(out)@ + move_from_to(from, to),
{
    if to.row == from.row + 1 && to.col == 0 {
        out.push('\r' as u8);
        out.push('\n' as u8);
    } else if from.row == to.row && from.col < to.col {
        push_counted(out, to.col - from.col, 'C' as u8);
    } else if from != to {
        push_move_to(out, to);
    }
    proof {
        assert(out@ =~= old(out)@ + move_from_to(from, to));
    }
}

/// One SGR code.
pub open spec fn code(n: u16) -> Seq<Seq<u16>> {
    seq![seq![n]]
}

/// The SGR codes of a colour: `base` is 30 for the foreground, 40 for the background and 50 for
/// the underline, which has no short codes.
pub open spec fn color_codes(color: Color, base: u16) -> Seq<Seq<u16>> {
    match color {
        Color::Default => code((base + 9) as u16),
        Color::Idx(i) => if i < 8 && base < 50 {
            code((base + i) as u16)
        } else if i < 16 && base < 50 {
            code((base + 52 + i) as u16)
        } else {
            seq![seq![(base + 8) as u16], seq![5u16], seq![i as u16]]
        },
        Color::Rgb(r, g, b) => seq![
            seq![(base + 8) as u16],
            seq![2u16],
            seq![r as u16],
            seq![g as u16],
            seq![b as u16],
        ],
    }
}

fn push_code(codes: &mut Vec<Vec<u16>>, n: u16)
    ensures
        groups(final(codes)@) == groups(old(codes)@) + code(n),
{
    let mut group: Vec<u16> = Vec::new();
    group.push(n);
    proof {
        assert(group@ =~= seq![n]);
    }
    codes.push(group);
    proof {
        assert(groups(codes@) =~= groups(old(codes)@) + code(n));
    }
}

fn push_color_codes(codes: &mut Vec<Vec<u16>>, color: Color, base: u16)
    requires
        base <= 50,
    ensures
        groups(final(codes)@) == groups(old(codes)@) + color_codes(color, base),
{
    let ghost before = groups(codes@);
    match color {
        Color::Default => {
            push_code(codes, base + 9);
        },
        Color::Idx(i) => {
            if i < 8 && base < 50 {
                push_code(codes, base + i as u16);
            } else if i < 16 && base < 50 {
                push_code(codes, base + 52 + i as u16);
            } else {
                push_code(codes, base + 8);
                push_code(codes, 5);
                push_code(codes, i as u16);
            }
        },
        Color::Rgb(r, g, b) => {
            push_code(codes, base + 8);
            push_code(codes, 2);
            push_code(codes, r as u16);
            push_code(codes, g as u16);
            push_code(codes, b as u16);
        },
    }
    proof {
        assert(groups(codes@) =~= before + color_codes(color, base));
    }
}

/// The codes of a colour that changed.
pub open spec fn color_part(new: Color, was: Color, base: u16) -> Seq<Seq<u16>> {
    if new == was {
        Seq::empty()
    } else {
        color_codes(new, base)
    }
}

fn push_color_part(codes: &mut Vec<Vec<u16>>, new: Color, was: Color, base: u16)
    requires
        base <= 50,
    ensures
        groups(final(codes)@) == groups(old(codes)@) + color_part(new, was, base),
{
    if new != was {
        push_color_codes(codes, new, base);
    } else {
        proof {
            assert(groups(codes@) =~= groups(old(codes)@) + color_part(new, was, base));
        }
    }
}

/// One code where something changed, none where it did not.
pub open spec fn code_if(changed: bool, n: u16) -> Seq<Seq<u16>> {
    if changed {
        code(n)
    } else {
        Seq::empty()
    }
}

fn push_code_if(codes: &mut Vec<Vec<u16>>, changed: bool, n: u16)
    ensures
        groups(final(codes)@) == groups(old(codes)@) + code_if(changed, n),
{
    if changed {
        push_code(codes, n);
    } else {
        proof {
            assert(groups(codes@) =~= groups(old(codes)@) + code_if(changed, n));
        }
    }
}

/// The code that turns something on or off.
pub open spec fn switch_part(new: bool, was: bool, on: u16, off: u16) -> Seq<Seq<u16>> {
    code_if(
        new != was,
        if new {
            on
        } else {
            off
        },
    )
}

fn push_switch_part(codes: &mut Vec<Vec<u16>>, new: bool, was: bool, on: u16, off: u16)
    ensures
        groups(final(codes)@) == groups(old(codes)@) + switch_part(new, was, on, off),
{
    push_code_if(
        codes,
        new != was,
        if new {
            on
        } else {
            off
        },
    );
}

/// The code of an underline that changed. The styles that came later are spelled with a second
/// number.
pub open spec fn underline_part(new: Underline, was: Underline) -> Seq<Seq<u16>> {
    if new == was {
        Seq::empty()
    } else {
        match new {
            Underline::Off => code(24),
            Underline::Single => code(4),
            Underline::Double => code(21),
            _ => seq![seq![4u16, new.number_spec() as u16]],
        }
    }
}

fn push_underline_part(codes: &mut Vec<Vec<u16>>, new: Underline, was: Underline)
    ensures
        groups(final(codes)@) == groups(old(codes)@) + underline_part(new, was),
{
    if new == was {
        proof {
            assert(groups(codes@) =~= groups(old(codes)@) + underline_part(new, was));
        }
        return;
    }
    match new {
        Underline::Off => push_code(codes, 24),
        Underline::Single => push_code(codes, 4),
        Underline::Double => push_code(codes, 21),
        _ => {
            let mut group: Vec<u16> = Vec::new();
            group.push(4);
            group.push(new.number() as u16);
            proof {
                assert(group@ =~= seq![4u16, new.number_spec() as u16]);
            }
            codes.push(group);
            proof {
                assert(groups(codes@) =~= groups(old(codes)@) + underline_part(new, was));
            }
        },
    }
}

/// Numbers of one code in decimal, separated by colons.
pub open spec fn code_bytes(group: Seq<u16>) -> Seq<u8>
    decreases group.len(),
{
    if group.len() == 0 {
        Seq::empty()
    } else if group.len() == 1 {
        decimal(group[0] as nat)
    } else {
        code_bytes(group.drop_last()).push(':' as u8) + decimal(group.last() as nat)
    }
}

/// Codes in decimal, separated by semicolons.
pub open spec fn joined(codes: Seq<Seq<u16>>) -> Seq<u8>
    decreases codes.len(),
{
    if codes.len() == 0 {
        Seq::empty()
    } else if codes.len() == 1 {
        code_bytes(codes[0])
    } else {
        joined(codes.drop_last()).push(';' as u8) + code_bytes(codes.last())
    }
}

impl Attrs {
    /// The codes of the colours that differ from those of `other`.
    pub open spec fn color_codes_from(self, other: Attrs) -> Seq<Seq<u16>> {
        color_part(self.fgcolor, other.fgcolor, 30) + color_part(self.bgcolor, other.bgcolor, 40)
            + color_part(self.ulcolor, other.ulcolor, 50)
    }

    /// The codes of the styles that differ from those of `other`.
    pub open spec fn style_codes_from(self, other: Attrs) -> Seq<Seq<u16>> {
        code_if(
            self.intensity != other.intensity,
            match self.intensity {
                Intensity::Normal => 22,
                Intensity::Bold => 1,
                Intensity::Dim => 2,
            },
        ) + switch_part(self.italic, other.italic, 3, 23) + underline_part(
            self.underline,
            other.underline,
        ) + switch_part(self.blink, other.blink, 5, 25) + switch_part(
            self.inverse,
            other.inverse,
            7,
            27,
        ) + switch_part(self.concealed, other.concealed, 8, 28) + switch_part(
            self.strikethrough,
            other.strikethrough,
            9,
            29,
        )
    }

    /// The codes that turn the attributes `other` into these. A hyperlink has none.
    pub open spec fn codes_from(self, other: Attrs) -> Seq<Seq<u16>> {
        self.color_codes_from(other) + self.style_codes_from(other)
    }

    /// The escape sequence that turns the attributes `other` into these.
    pub open spec fn escape_from(self, other: Attrs) -> Seq<u8> {
        if self != other && self == Attrs::plain() {
            csi().push('m' as u8)
        } else if self.codes_from(other).len() == 0 {
            Seq::empty()
        } else {
            (csi() + joined(self.codes_from(other))).push('m' as u8)
        }
    }

    /// Appends the escape sequence that turns the attributes `other` into these.
    pub fn write_escape_code_diff(&self, out: &mut Vec<u8>, other: &Attrs)
        ensures
            final(out)@ == old(out)@ + self.escape_from(*other),
    {
        if *self != *other && *self == Attrs::default() {
            push_clear_attrs(out);
            return;
        }
        let codes = self.collect_codes(other);
        proof {
            assert(groups(codes@).len() == codes@.len());
        }
        if codes.len() == 0 {
            proof {
                assert(out@ =~= old(out)@ + self.escape_from(*other));
            }
            return;
        }
        push_csi(out);
        push_joined(out, &codes);
        out.push('m' as u8);
        proof {
            assert(out@ =~= old(out)@ + (csi() + joined(groups(codes@))).push('m' as u8));
        }
    }

    fn collect_codes(&self, other: &Attrs) -> (codes: Vec<Vec<u16>>)
        ensures
            groups(codes@) == self.codes_from(*other),
    {
        let mut codes: Vec<Vec<u16>> = Vec::new();
        proof {
            assert(groups(codes@) =~= Seq::empty());
        }
        push_color_part(&mut codes, self.fgcolor, other.fgcolor, 30);
        push_color_part(&mut codes, self.bgcolor, other.bgcolor, 40);
        push_color_part(&mut codes, self.ulcolor, other.ulcolor, 50);
        proof {
            assert(groups(codes@) =~= self.color_codes_from(*other));
        }
        self.collect_style_codes(other, &mut codes);
        codes
    }

    fn collect_style_codes(&self, other: &Attrs, codes: &mut Vec<Vec<u16>>)
        ensures
            groups(final(codes)@) == groups(old(codes)@) + self.style_codes_from(*other),
    {
        let intensity: u16 = match self.intensity {
            Intensity::Normal => 22,
            Intensity::Bold => 1,
            Intensity::Dim => 2,
        };
        push_code_if(codes, self.intensity != other.intensity, intensity);
        push_switch_part(codes, self.italic, other.italic, 3, 23);
        push_underline_part(codes, self.underline, other.underline);
        push_switch_part(codes, self.blink, other.blink, 5, 25);
        push_switch_part(codes, self.inverse, other.inverse, 7, 27);
        push_switch_part(codes, self.concealed, other.concealed, 8, 28);
        push_switch_part(codes, self.strikethrough, other.strikethrough, 9, 29);
        proof {
            seven_parts(
                groups(old(codes)@),
                code_if(self.intensity != other.intensity, intensity),
                switch_part(self.italic, other.italic, 3, 23),
                underline_part(self.underline, other.underline),
                switch_part(self.blink, other.blink, 5, 25),
                switch_part(self.inverse, other.inverse, 7, 27),
                switch_part(self.concealed, other.concealed, 8, 28),
                switch_part(self.strikethrough, other.strikethrough, 9, 29),
            );
        }
    }
}

proof fn seven_parts<A>(
    o: Seq<A>,
    a: Seq<A>,
    b: Seq<A>,
    c: Seq<A>,
    d: Seq<A>,
    e: Seq<A>,
    f: Seq<A>,
    g: Seq<A>,
)
    ensures
        o + a + b + c + d + e + f + g == o + (a + b + c + d + e + f + g),
{
    assert(o + a + b + c + d + e + f + g =~= o + (a + b + c + d + e + f + g));
}

fn push_code_bytes(out: &mut Vec<u8>, group: &Vec<u16>)
    ensures
        final(out)@ == old(out)@ + code_bytes(group@),
{
    let ghost start = out@;
    let n: usize = group.len();
    proof {
        assert(group@.take(0) =~= Seq::empty());
        assert(out@ =~= start + code_bytes(group@.take(0)));
    }
    for i in 0..n
        invariant
            n == group@.len(),
            out@ =~= start + code_bytes(group@.take(i as int)),
    {
        if i > 0 {
            out.push(':' as u8);
        }
        push_decimal(out, group[i]);
        proof {
            assert(group@.take(i + 1).drop_last() =~= group@.take(i as int));
            assert(group@.take(i + 1).last() == group@[i as int]);
            if i == 0 {
                assert(code_bytes(group@.take(0)) =~= Seq::empty());
            }
        }
    }
    proof {
        assert(group@.take(n as int) =~= group@);
    }
}

/// Appends codes in decimal, separated by semicolons.
fn push_joined(out: &mut Vec<u8>, codes: &Vec<Vec<u16>>)
    ensures
        final(out)@ == old(out)@ + joined(groups(codes@)),
{
    let ghost start = out@;
    let ghost all = groups(codes@);
    let n: usize = codes.len();
    proof {
        assert(all.take(0) =~= Seq::empty());
        assert(out@ =~= start + joined(all.take(0)));
    }
    for i in 0..n
        invariant
            n == codes@.len(),
            all == groups(codes@),
            out@ =~= start + joined(all.take(i as int)),
    {
        if i > 0 {
            out.push(';' as u8);
        }
        push_code_bytes(out, &codes[i]);
        proof {
            assert(all.take(i + 1).drop_last() =~= all.take(i as int));
            assert(all.take(i + 1).last() == all[i as int]);
            if i == 0 {
                assert(joined(all.take(0)) =~= Seq::empty());
            }
        }
    }
    proof {
        assert(all.take(n as int) =~= all);
    }
}

/// SGR without parameters.
pub fn push_clear_attrs(out: &mut Vec<u8>)
    ensures
        final(out)@ == old(out)@ + csi().push('m' as u8),
{
    push_csi(out);
    out.push('m' as u8);
    proof {
        assert(out@ =~= old(out)@ + csi().push('m' as u8));
    }
}

/// Home and ED: empties the screen.
pub open spec fn clear_screen() -> Seq<u8> {
    csi().push('H' as u8) + csi().push('J' as u8)
}

pub fn push_clear_screen(out: &mut Vec<u8>)
    ensures
        final(out)@ == old(out)@ + clear_screen(),
{
    push_csi(out);
    out.push('H' as u8);
    push_csi(out);
    out.push('J' as u8);
    proof {
        assert(out@ =~= old(out)@ + clear_screen());
    }
}

/// EL: empties the rest of the row.
pub fn push_clear_row_forward(out: &mut Vec<u8>)
    ensures
        final(out)@ == old(out)@ + csi().push('K' as u8),
{
    push_csi(out);
    out.push('K' as u8);
    proof {
        assert(out@ =~= old(out)@ + csi().push('K' as u8));
    }
}

/// A DEC private mode set or reset.
pub open spec fn dec_mode(mode: u16, on: bool) -> Seq<u8> {
    (csi().push('?' as u8) + decimal(mode as nat)).push(
        if on {
            'h' as u8
        } else {
            'l' as u8
        },
    )
}

pub fn push_dec_mode(out: &mut Vec<u8>, mode: u16, on: bool)
    ensures
        final(out)@ == old(out)@ + dec_mode(mode, on),
{
    push_csi(out);
    out.push('?' as u8);
    push_decimal(out, mode);
    out.push(
        if on {
            'h' as u8
        } else {
            'l' as u8
        },
    );
    proof {
        assert(out@ =~= old(out)@ + dec_mode(mode, on));
    }
}

/// Keypad in application or numeric mode.
pub open spec fn keypad(application: bool) -> Seq<u8> {
    seq![
        0x1b,
        if application {
            '=' as u8
        } else {
            '>' as u8
        },
    ]
}

pub fn push_keypad(out: &mut Vec<u8>, application: bool)
    ensures
        final(out)@ == old(out)@ + keypad(application),
{
    out.push(0x1b);
    out.push(
        if application {
            '=' as u8
        } else {
            '>' as u8
        },
    );
    proof {
        assert(out@ =~= old(out)@ + keypad(application));
    }
}

/// The DEC private mode that asks for a mouse mode.
pub open spec fn mode_of_mouse(mode: MouseProtocolMode) -> Option<u16> {
    match mode {
        MouseProtocolMode::Disabled => None,
        MouseProtocolMode::Press => Some(9),
        MouseProtocolMode::PressRelease => Some(1000),
        MouseProtocolMode::ButtonMotion => Some(1002),
        MouseProtocolMode::AnyMotion => Some(1003),
    }
}

/// The DEC private mode that asks for a mouse encoding.
pub open spec fn mode_of_encoding(encoding: MouseProtocolEncoding) -> Option<u16> {
    match encoding {
        MouseProtocolEncoding::Default => None,
        MouseProtocolEncoding::Utf8 => Some(1005),
        MouseProtocolEncoding::Sgr => Some(1006),
        MouseProtocolEncoding::Urxvt => Some(1015),
        MouseProtocolEncoding::SgrPixels => Some(1016),
    }
}

/// One of several modes of which at most one is on: the new one is set, or the old one
/// reset where there is no new one.
pub open spec fn switch_mode(to: Option<u16>, from: Option<u16>) -> Seq<u8> {
    if to == from {
        Seq::empty()
    } else if to is Some {
        dec_mode(to->Some_0, true)
    } else {
        dec_mode(from->Some_0, false)
    }
}

fn push_switch_mode(out: &mut Vec<u8>, to: Option<u16>, from: Option<u16>)
    ensures
        final(out)@ == old(out)@ + switch_mode(to, from),
{
    match (to, from) {
        (Some(t), Some(f)) => {
            if t != f {
                push_dec_mode(out, t, true);
            }
        },
        (Some(t), None) => push_dec_mode(out, t, true),
        (None, Some(f)) => push_dec_mode(out, f, false),
        (None, None) => {},
    }
    proof {
        assert(out@ =~= old(out)@ + switch_mode(to, from));
    }
}

fn mouse_number(mode: MouseProtocolMode) -> (r: Option<u16>)
    ensures
        r == mode_of_mouse(mode),
{
    match mode {
        MouseProtocolMode::Disabled => None,
        MouseProtocolMode::Press => Some(9),
        MouseProtocolMode::PressRelease => Some(1000),
        MouseProtocolMode::ButtonMotion => Some(1002),
        MouseProtocolMode::AnyMotion => Some(1003),
    }
}

fn encoding_number(encoding: MouseProtocolEncoding) -> (r: Option<u16>)
    ensures
        r == mode_of_encoding(encoding),
{
    match encoding {
        MouseProtocolEncoding::Default => None,
        MouseProtocolEncoding::Utf8 => Some(1005),
        MouseProtocolEncoding::Sgr => Some(1006),
        MouseProtocolEncoding::Urxvt => Some(1015),
        MouseProtocolEncoding::SgrPixels => Some(1016),
    }
}

pub fn push_mouse_mode(out: &mut Vec<u8>, to: MouseProtocolMode, from: MouseProtocolMode)
    ensures
        final(out)@ == old(out)@ + switch_mode(mode_of_mouse(to), mode_of_mouse(from)),
{
    push_switch_mode(out, mouse_number(to), mouse_number(from));
}

pub fn push_mouse_encoding(
    out: &mut Vec<u8>,
    to: MouseProtocolEncoding,
    from: MouseProtocolEncoding,
)
    ensures
        final(out)@ == old(out)@ + switch_mode(mode_of_encoding(to), mode_of_encoding(from)),
{
    push_switch_mode(out, encoding_number(to), encoding_number(from));
}

} // verus!
