//! Strings and bytes: what the library needs of std beyond what vstd specifies.
use vstd::prelude::*;
use vstd::string::StrSliceExecFns;

verus! {

/// The text that `String::from_utf8_lossy` reads out of bytes.
pub uninterp spec fn utf8_lossy(bytes: Seq<u8>) -> Seq<char>;

/// Calls `String::from_utf8_lossy`. The result depends on the bytes alone, and valid
/// UTF-8 is read as what it encodes. How each invalid sequence is replaced is not
/// stated.
#[verifier::external_body]
pub(crate) fn from_utf8_lossy(bytes: &[u8]) -> (r: String)
    ensures
        r@ == utf8_lossy(bytes@),
        vstd::utf8::valid_utf8(bytes@) ==> r@ == vstd::utf8::decode_utf8(bytes@),
{
    String::from_utf8_lossy(bytes).into_owned()
}

/// Appends a character, as `String::push` documents.
pub assume_specification[ String::push ](s: &mut String, c: char)
    ensures
        final(s)@ == old(s)@.push(c),
;

/// Appends the characters of a string.
pub fn push_text(out: &mut Vec<char>, s: &str)
    ensures
        final(out)@ == old(out)@ + s@,
{
    let n: usize = s.unicode_len();
    for i in 0..n
        invariant
            n == s@.len(),
            out@ =~= old(out)@ + s@.take(i as int),
    {
        out.push(s.get_char(i));
    }
    proof {
        assert(s@.take(n as int) =~= s@);
    }
}

/// The string of some characters.
pub fn string_of(chars: &Vec<char>) -> (r: String)
    ensures
        r@ == chars@,
{
    let mut r: String = String::new();
    for i in 0..chars.len()
        invariant
            r@ =~= chars@.take(i as int),
    {
        r.push(chars[i]);
    }
    proof {
        assert(chars@.take(chars@.len() as int) =~= chars@);
    }
    r
}

/// The number of characters of a string.
pub fn text_len(s: &String) -> (r: usize)
    ensures
        r == s@.len(),
{
    s.as_str().unicode_len()
}

/// A decimal digit.
pub open spec fn digit(n: nat) -> char {
    if n == 0 {
        '0'
    } else if n == 1 {
        '1'
    } else if n == 2 {
        '2'
    } else if n == 3 {
        '3'
    } else if n == 4 {
        '4'
    } else if n == 5 {
        '5'
    } else if n == 6 {
        '6'
    } else if n == 7 {
        '7'
    } else if n == 8 {
        '8'
    } else {
        '9'
    }
}

/// A number in decimal digits.
pub open spec fn digits(n: nat) -> Seq<char>
    decreases n,
{
    if n < 10 {
        seq![digit(n)]
    } else {
        digits(n / 10).push(digit(n % 10))
    }
}

pub(crate) fn digit_char(n: u64) -> (r: char)
    requires
        n < 10,
    ensures
        r == digit(n as nat),
{
    match n {
        0 => '0',
        1 => '1',
        2 => '2',
        3 => '3',
        4 => '4',
        5 => '5',
        6 => '6',
        7 => '7',
        8 => '8',
        _ => '9',
    }
}

/// Appends a number in decimal digits.
pub fn push_digits(out: &mut String, n: u64)
    ensures
        final(out)@ == old(out)@ + digits(n as nat),
    decreases n,
{
    if n >= 10 {
        push_digits(out, n / 10);
    }
    out.push(digit_char(n % 10));
    proof {
        assert(out@ =~= old(out)@ + digits(n as nat));
    }
}

/// The value of a decimal digit, 0 of any other character.
pub open spec fn digit_value(c: char) -> nat {
    if '0' <= c <= '9' {
        (c as u32 - '0' as u32) as nat
    } else {
        0
    }
}

/// The number that decimal digits spell.
pub open spec fn digits_value(s: Seq<char>) -> nat
    decreases s.len(),
{
    if s.len() == 0 {
        0
    } else {
        digits_value(s.drop_last()) * 10 + digit_value(s.last())
    }
}

/// The digits of a number spell that number, and there are as many as its size allows.
pub proof fn digits_spell(n: nat)
    ensures
        digits_value(digits(n)) == n,
        digits(n).len() >= 1,
        n < 10_000_000_000 ==> digits(n).len() <= 10,
    decreases n,
{
    reveal_with_fuel(digits_value, 2);
    reveal_with_fuel(digits, 2);
    if n < 10 {
        assert(digits(n).drop_last() =~= Seq::empty());
        assert(digits(n).last() == digit(n));
    } else {
        digits_spell(n / 10);
        assert(power10(9) == 1_000_000_000) by {
            reveal_with_fuel(power10, 10);
        }
        digits_short(n / 10, 1_000_000_000, 9);
        assert(digits(n).drop_last() =~= digits(n / 10));
        assert(digits(n).last() == digit(n % 10));
    }
}

proof fn digits_short(n: nat, limit: nat, count: nat)
    requires
        count >= 1,
        limit == power10(count),
    ensures
        n < limit ==> digits(n).len() <= count,
    decreases count,
{
    reveal_with_fuel(power10, 2);
    if count > 1 && n >= 10 {
        digits_short(n / 10, power10((count - 1) as nat), (count - 1) as nat);
    }
}

spec fn power10(count: nat) -> nat
    decreases count,
{
    if count == 0 {
        1
    } else {
        10 * power10((count - 1) as nat)
    }
}

/// The number that a string of decimal digits without leading zeros spells, if it fits.
pub fn read_digits(s: &String) -> (r: Option<u32>)
    ensures
        r is Some <==> digits_value(s@) <= u32::MAX && digits(digits_value(s@)) == s@,
        r is Some ==> r->Some_0 == digits_value(s@),
{
    let n: usize = text_len(s);
    proof {
        digits_spell(digits_value(s@));
    }
    if n > 10 {
        return None;
    }
    let mut value: u64 = 0;
    proof {
        assert(s@.take(0) =~= Seq::empty());
        power10_grows(0, 10);
    }
    for i in 0..n
        invariant
            n == s@.len(),
            n <= 10,
            value == digits_value(s@.take(i as int)),
            value < power10(i as nat),
            power10(i as nat) <= power10(10),
    {
        let c: char = s.as_str().get_char(i);
        let d: u64 = if '0' <= c && c <= '9' {
            (c as u32 - '0' as u32) as u64
        } else {
            0
        };
        proof {
            power10_grows((i + 1) as nat, 10);
            assert(power10(10) == 10_000_000_000) by {
                reveal_with_fuel(power10, 11);
            }
            assert(s@.take(i + 1).drop_last() =~= s@.take(i as int));
            assert(s@.take(i + 1).last() == c);
        }
        value = value * 10 + d;
    }
    proof {
        assert(s@.take(n as int) =~= s@);
    }
    if value > u32::MAX as u64 {
        return None;
    }
    let mut again: String = String::new();
    push_digits(&mut again, value);
    proof {
        assert(again@ =~= digits(value as nat));
    }
    if again == *s {
        Some(value as u32)
    } else {
        None
    }
}

proof fn power10_grows(a: nat, b: nat)
    requires
        a <= b,
    ensures
        power10(a) <= power10(b),
    decreases b,
{
    if a < b {
        power10_grows(a, (b - 1) as nat);
    }
}

/// The texts of a sequence of strings.
pub open spec fn texts(v: Seq<String>) -> Seq<Seq<char>> {
    Seq::new(v.len(), |i: int| v[i]@)
}

} // verus!
