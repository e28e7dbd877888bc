//! Numbers as people write them in options and headers.
use vstd::prelude::*;
use vstd::string::StrSliceExecFns;

use crate::text::{digits, digits_spell, digits_value};

verus! {

/// Whether a character is white space, as Unicode has it.
pub open spec fn is_blank(c: char) -> bool {
    let n = c as u32;
    ||| 0x9 <= n <= 0xD
    ||| n == 0x20
    ||| n == 0x85
    ||| n == 0xA0
    ||| n == 0x1680
    ||| 0x2000 <= n <= 0x200A
    ||| n == 0x2028
    ||| n == 0x2029
    ||| n == 0x202F
    ||| n == 0x205F
    ||| n == 0x3000
}

/// A text without the blanks before and behind it.
pub open spec fn stripped(s: Seq<char>) -> Seq<char>
    decreases s.len(),
{
    if s.len() == 0 {
        s
    } else if is_blank(s[0]) {
        stripped(s.drop_first())
    } else if is_blank(s.last()) {
        stripped(s.drop_last())
    } else {
        s
    }
}

/// Whether a character is a decimal digit.
pub open spec fn is_digit(c: char) -> bool {
    '0' <= c <= '9'
}

/// A text without the plus sign before it.
pub open spec fn without_plus(s: Seq<char>) -> Seq<char> {
    if s.len() > 0 && s[0] == '+' {
        s.drop_first()
    } else {
        s
    }
}

/// The number that a text spells: digits, with a plus sign before and white space around them or
/// not.
pub open spec fn number_in(s: Seq<char>) -> Option<nat> {
    let t = without_plus(stripped(s));
    if t.len() > 0 && (forall|i: int| 0 <= i < t.len() ==> is_digit(#[trigger] t[i])) {
        Some(digits_value(t))
    } else {
        None
    }
}

fn blank(c: char) -> (r: bool)
    ensures
        r == is_blank(c),
{
    let n: u32 = c as u32;
    (0x9 <= n && n <= 0xD) || n == 0x20 || n == 0x85 || n == 0xA0 || n == 0x1680 || (0x2000 <= n
        && n <= 0x200A) || n == 0x2028 || n == 0x2029 || n == 0x202F || n == 0x205F || n == 0x3000
}

proof fn value_grows(s: Seq<char>, i: int)
    requires
        0 <= i <= s.len(),
    ensures
        digits_value(s.take(i)) <= digits_value(s),
    decreases s.len() - i,
{
    if i < s.len() {
        assert(s.take(i + 1).drop_last() =~= s.take(i));
        value_grows(s, i + 1);
    } else {
        assert(s.take(i) =~= s);
    }
}

/// Reads the number that a part of a text spells, unless it is greater than `max`.
pub fn read_number(s: &str, start: usize, end: usize, max: u32) -> (r: Option<u32>)
    requires
        start <= end <= s@.len(),
    ensures
        ({
            let v = number_in(s@.subrange(start as int, end as int));
            match r {
                Some(x) => v == Some(x as nat) && x <= max,
                None => v is None || v->Some_0 > max,
            }
        }),
{
    let n: usize = s.unicode_len();
    let ghost all = s@.subrange(start as int, end as int);
    let mut from: usize = start;
    let mut to: usize = end;
    while from < to && blank(s.get_char(from))
        invariant
            n == s@.len(),
            from <= to,
            to <= n,
            stripped(all) == stripped(s@.subrange(from as int, to as int)),
        decreases to - from,
    {
        proof {
            let t = s@.subrange(from as int, to as int);
            assert(t[0] == s@[from as int]);
            assert(t.drop_first() =~= s@.subrange(from + 1, to as int));
        }
        from = from + 1;
    }
    proof {
        if from < to {
            assert(s@.subrange(from as int, to as int)[0] == s@[from as int]);
        }
    }
    while from < to && blank(s.get_char(to - 1))
        invariant
            n == s@.len(),
            from <= to <= n,
            from < to ==> !is_blank(s@[from as int]),
            stripped(all) == stripped(s@.subrange(from as int, to as int)),
        decreases to - from,
    {
        proof {
            let t = s@.subrange(from as int, to as int);
            assert(t[0] == s@[from as int]);
            assert(t.last() == s@[to - 1]);
            assert(t.drop_last() =~= s@.subrange(from as int, to - 1));
        }
        to = to - 1;
    }
    proof {
        let t = s@.subrange(from as int, to as int);
        if from < to {
            assert(t[0] == s@[from as int]);
            assert(t.last() == s@[to - 1]);
            assert(t.drop_first() =~= s@.subrange(from + 1, to as int));
        }
        assert(stripped(all) == t);
    }
    if from < to && s.get_char(from) == '+' {
        from = from + 1;
    }
    let ghost t = s@.subrange(from as int, to as int);
    proof {
        assert(without_plus(stripped(all)) == t);
    }
    if from == to {
        return None;
    }
    let mut value: u64 = 0;
    let mut i: usize = from;
    proof {
        assert(t.take(0) =~= Seq::empty());
    }
    while i < to
        invariant
            n == s@.len(),
            from <= i <= to,
            to <= n,
            from < to,
            start <= end <= s@.len(),
            all == s@.subrange(start as int, end as int),
            t == s@.subrange(from as int, to as int),
            without_plus(stripped(all)) == t,
            value == digits_value(t.take(i - from)),
            value <= max,
            forall|k: int| 0 <= k < i - from ==> is_digit(#[trigger] t[k]),
        decreases to - i,
    {
        let c: char = s.get_char(i);
        proof {
            assert(t[i - from] == c);
            assert(t.take(i - from + 1).drop_last() =~= t.take(i - from));
            assert(t.take(i - from + 1).last() == c);
            value_grows(t, i - from + 1);
        }
        if !('0' <= c && c <= '9') {
            return None;
        }
        value = value * 10 + (c as u32 - '0' as u32) as u64;
        if value > max as u64 {
            return None;
        }
        i = i + 1;
    }
    proof {
        assert(t.take(to - from) =~= t);
    }
    Some(value as u32)
}

proof fn digits_are_digits(n: nat)
    ensures
        digits(n).len() > 0,
        forall|i: int| 0 <= i < digits(n).len() ==> is_digit(#[trigger] digits(n)[i]),
    decreases n,
{
    if n >= 10 {
        digits_are_digits(n / 10);
        let front = digits(n / 10);
        assert forall|i: int| 0 <= i < digits(n).len() implies is_digit(#[trigger] digits(n)[i]) by {
            if i < front.len() {
                assert(digits(n)[i] == front[i]);
            }
        }
    }
}

/// The decimal digits of a number are read as that number, with a plus sign before them and blanks
/// around them too; a number twice signed is none.
pub proof fn written_numbers_are_read(n: nat, s: Seq<char>, c: char)
    ensures
        number_in(digits(n)) == Some(n),
        number_in(seq!['+'] + digits(n)) == Some(n),
        is_blank(c) ==> number_in(seq![c] + s) == number_in(s),
        is_blank(c) ==> number_in(s.push(c)) == number_in(s),
        s.len() > 0 && !is_digit(s[s.len() - 1]) && !is_blank(s[s.len() - 1]) ==> number_in(s) is None,
        number_in(Seq::empty()) is None,
{
    let d = digits(n);
    digits_are_digits(n);
    digits_spell(n);
    assert(is_digit(d[0]) && is_digit(d[d.len() - 1]));
    assert(stripped(d) == d);
    let p = seq!['+'] + d;
    assert(p[0] == '+' && p[p.len() - 1] == d[d.len() - 1]);
    assert(stripped(p) == p);
    assert(p.drop_first() =~= d);
    if is_blank(c) {
        let t = seq![c] + s;
        assert(t[0] == c);
        assert(t.drop_first() =~= s);
        blank_at_the_end(s, c);
    }
    if s.len() > 0 && !is_digit(s[s.len() - 1]) && !is_blank(s[s.len() - 1]) {
        last_is_kept(s);
    }
}

proof fn blank_at_the_end(s: Seq<char>, c: char)
    requires
        is_blank(c),
    ensures
        stripped(s.push(c)) == stripped(s),
    decreases s.len(),
{
    let t = s.push(c);
    if s.len() == 0 {
        assert(t.drop_first() =~= s);
    } else if is_blank(s[0]) {
        assert(t.drop_first() =~= s.drop_first().push(c));
        blank_at_the_end(s.drop_first(), c);
    } else {
        assert(t.drop_last() =~= s);
        assert(t[0] == s[0]);
    }
}

proof fn last_is_kept(s: Seq<char>)
    requires
        s.len() > 0,
        !is_digit(s[s.len() - 1]),
        !is_blank(s[s.len() - 1]),
    ensures
        number_in(s) is None,
    decreases s.len(),
{
    if is_blank(s[0]) {
        last_is_kept(s.drop_first());
    } else {
        let t = without_plus(s);
        if t.len() > 0 {
            assert(t[t.len() - 1] == s[s.len() - 1]);
        }
    }
}

} // verus!
