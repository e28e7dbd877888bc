//! Which sequences are not known, so that they are reported.
use vstd::prelude::*;

use crate::vt::attrs::Attrs;
use crate::vt::dispatch::csi_op;
use crate::vt::meaning::{one, two};
use crate::vt::screen::ScreenModel;

verus! {

impl<T> ScreenModel<T> {
    /// How much of a control sequence of numbers and a final character is not known.
    pub open spec fn unknown_in(self, ps: Seq<Seq<u16>>, c: char) -> nat {
        self.performed(csi_op(None, None, ps, c, self.active().size.rows), ps).1
    }

    /// How much of a control sequence with one byte before its numbers, or before its final character,
    /// is not known.
    pub open spec fn unknown_in_marked(self, mark: char, ps: Seq<Seq<u16>>, c: char) -> nat {
        self.performed(csi_op(Some(mark as u8), None, ps, c, self.active().size.rows), ps).1
    }
}

/// Whether a final character stands for a function that is known whatever its numbers are.
pub open spec fn always_known(c: char) -> bool {
    c == '@' || c == 'A' || c == 'B' || c == 'C' || c == 'D' || c == 'E' || c == 'F' || c == 'G' || c
        == 'H' || c == 'I' || c == 'L' || c == 'M' || c == 'P' || c == 'S' || c == 'T' || c == 'X' || c
        == 'Z' || c == 'b' || c == 'c' || c == 'd' || c == 'g' || c == 'r' || c == 's' || c == 'u'
}

/// Whether a final character stands for functions of which the numbers tell which are known.
pub open spec fn known_by_number(c: char) -> bool {
    c == 'J' || c == 'K' || c == 'h' || c == 'l' || c == 'm' || c == 'n' || c == 't'
}

/// A sequence that is not known changes nothing, and is reported as one thing not known; one that is
/// known is not reported.
pub proof fn unknown_sequences<T>(s: ScreenModel<T>, ps: Seq<Seq<u16>>, c: char)
    ensures
        always_known(c) ==> s.unknown_in(ps, c) == 0,
        !always_known(c) && !known_by_number(c) ==> s.unknown_in(ps, c) == 1 && s.after_csi(ps, c)
            == s,
        s.after_csi(ps, 'c') == s,
{
}

/// Of marked sequences those are known that erase, set and reset modes behind a question mark, and
/// that ask for attributes, reset softly and set the cursor's style. No sequence with two marks is.
pub proof fn unknown_marked_sequences<T>(
    s: ScreenModel<T>,
    ps: Seq<Seq<u16>>,
    c: char,
    mark: char,
    i1: Option<u8>,
    i2: u8,
)
    requires
        (mark as u32) < 128,
    ensures
        s.performed(csi_op(i1, Some(i2), ps, c, s.active().size.rows), ps) == (s, 1nat),
        c != 'J' && c != 'K' && c != 'h' && c != 'l' ==> s.unknown_in_marked('?', ps, c) == 1
            && s.after_marked('?', ps, c) == s,
        mark != '?' && !(mark == '>' && c == 'c') && !(mark == '!' && c == 'p') && !(mark == ' ' && c
            == 'q') ==> s.unknown_in_marked(mark, ps, c) == 1 && s.after_marked(mark, ps, c) == s,
        s.unknown_in_marked('>', ps, 'c') == 0 && s.after_marked('>', ps, 'c') == s,
        s.unknown_in_marked('!', ps, 'p') == 0,
{
}

/// What is erased is known up to 2, a cursor's style up to 6.
pub proof fn unknown_numbers<T>(s: ScreenModel<T>, n: u16)
    ensures
        s.unknown_in(one(n), 'J') == if n > 2 { 1nat } else { 0 },
        s.unknown_in(one(n), 'K') == if n > 2 { 1nat } else { 0 },
        s.unknown_in_marked('?', one(n), 'J') == if n > 2 { 1nat } else { 0 },
        s.unknown_in_marked('?', one(n), 'K') == if n > 2 { 1nat } else { 0 },
        s.unknown_in_marked(' ', one(n), 'q') == if n > 6 { 1nat } else { 0 },
{
    assert(one(n)[0] == seq![n]);
}

/// Of status reports 5 and 6 are known, of window operations 14, 18, 22 and 23. Those that only ask
/// change nothing.
pub proof fn reports<T>(s: ScreenModel<T>, n: u16)
    ensures
        s.after_csi(one(n), 'n') == s,
        s.unknown_in(one(n), 'n') == if n == 5 || n == 6 { 0nat } else { 1 },
        n != 22 && n != 23 ==> s.after_csi(one(n), 't') == s,
        s.unknown_in(one(n), 't') == if n == 14 || n == 18 || n == 22 || n == 23 { 0nat } else { 1 },
        s.unknown_in(two(22, n), 't') == 0,
        s.unknown_in(two(23, n), 't') == 0,
{
    assert(one(n)[0] == seq![n]);
    assert(two(22, n)[0] == seq![22u16] && two(23, n)[0] == seq![23u16]);
}

/// Styles that mean nothing are reported, others are not.
pub proof fn unknown_styles_are_reported<T>(s: ScreenModel<T>, n: u16)
    requires
        n != 38,
        n != 48,
        n != 58,
    ensures
        s.unknown_in(one(n), 'm') == if 10 <= n <= 20 || n == 26 || 50 <= n <= 57 || 60 <= n <= 89
            || 98 <= n <= 99 || n >= 108 {
            1nat
        } else {
            0
        },
        s.unknown_in(Seq::empty(), 'm') == 0,
{
    reveal_with_fuel(Attrs::after_groups, 2);
    assert(one(n)[0] == seq![n]);
}

/// Whether a private mode is known.
pub open spec fn known_mode(n: u16) -> bool {
    n == 1 || n == 6 || n == 7 || n == 9 || n == 12 || n == 25 || n == 47 || n == 80 || n == 1000 || n
        == 1002 || n == 1003 || n == 1004 || n == 1005 || n == 1006 || n == 1015 || n == 1016 || n
        == 1049 || n == 2004 || n == 2026 || n == 2031 || n == 7727 || n == 8452
}

/// Modes that are not known are reported, each for itself, others are not.
pub proof fn unknown_modes_are_reported<T>(s: ScreenModel<T>, ps: Seq<Seq<u16>>, n: u16)
    ensures
        s.unknown_in_marked('?', ps.push(seq![n]), 'h') == s.unknown_in_marked('?', ps, 'h') + if known_mode(n) {
            0nat
        } else {
            1
        },
        s.unknown_in_marked('?', ps.push(seq![n]), 'l') == s.unknown_in_marked('?', ps, 'l') + if known_mode(n) {
            0nat
        } else {
            1
        },
        s.unknown_in(ps.push(seq![n]), 'h') == s.unknown_in(ps, 'h') + if n == 4 { 0nat } else { 1 },
        s.unknown_in(ps.push(seq![n]), 'l') == s.unknown_in(ps, 'l') + if n == 4 || n == 25 {
            0nat
        } else {
            1
        },
        s.unknown_in(Seq::empty(), 'h') == 0,
{
    let qs = ps.push(seq![n]);
    assert(qs.drop_last() =~= ps);
    assert(qs.last() == seq![n]);
}

/// Of control characters the bell, those that move the cursor and those that shift are known: 7 to
/// 15. The bell and the shifts change nothing.
pub proof fn known_control_characters<T>(s: ScreenModel<T>, b: u8)
    ensures
        s.executed(b) is Some <==> 7 <= b <= 15,
        b == 7 || b == 14 || b == 15 ==> s.executed(b) == Some(s),
        s.executed(11) == s.executed(10) && s.executed(12) == s.executed(10),
{
}

/// Of escape sequences `7`, `8`, `=`, `>`, `H`, `M`, `c`, `g` and the backslash are known, and the
/// choice of ASCII.
pub proof fn known_escape_sequences<T>(s: ScreenModel<T>, i1: Option<u8>, i2: Option<u8>, b: u8)
    ensures
        i2 is Some ==> s.escaped(i1, i2, b) is None,
        s.escaped(None, None, b) is Some <==> b == 55 || b == 56 || b == 61 || b == 62 || b == 72 || b
            == 77 || b == 99 || b == 103 || b == 92,
        i1 is Some && i2 is None ==> (s.escaped(i1, i2, b) is Some <==> 40 <= i1->Some_0 <= 43 && b
            == 66),
        i1 is Some && s.escaped(i1, i2, b) is Some ==> s.escaped(i1, i2, b) == Some(s),
        s.escaped(None, None, 103) == Some(s) && s.escaped(None, None, 92) == Some(s),
{
}

} // verus!
