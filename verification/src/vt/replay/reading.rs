//! Bytes are read as tokens in one way only, so what they draw on a screen is settled.
use vstd::prelude::*;
use vstd::utf8::{
    decode_first_scalar, encode_scalar, encode_utf8, encode_utf8_first_scalar, is_ascii_chars,
    is_ascii_chars_encode_utf8, valid_first_scalar,
};

use crate::vt::escape::{code_bytes, csi, decimal, joined};
use crate::vt::replay::token::{
    all_readable, drawn_tokens, draws, numbered, numbers_bytes, token_bytes, tokens_append, Token,
};
use crate::vt::screen::ScreenModel;

verus! {

/// Whether bytes lie in a range.
spec fn within(s: Seq<u8>, low: u8, high: u8) -> bool {
    forall|i: int| 0 <= i < s.len() ==> low <= #[trigger] s[i] <= high
}

proof fn digits_are_digits(n: nat)
    ensures
        decimal(n).len() > 0,
        within(decimal(n), 0x30, 0x39),
    decreases n,
{
    if n >= 10 {
        digits_are_digits(n / 10);
    }
}

proof fn one_number_of(a: nat, b: nat)
    requires
        decimal(a) == decimal(b),
    ensures
        a == b,
    decreases a,
{
    digits_are_digits(a / 10);
    digits_are_digits(b / 10);
    assert(decimal(a).last() == (48 + a % 10) as u8);
    assert(decimal(b).last() == (48 + b % 10) as u8);
    assert(a % 10 == b % 10);
    if a < 10 {
        assert(decimal(a).len() == 1);
    } else if b < 10 {
        assert(decimal(b).len() == 1);
    } else {
        assert(decimal(a).drop_last() =~= decimal(a / 10));
        assert(decimal(b).drop_last() =~= decimal(b / 10));
        one_number_of(a / 10, b / 10);
    }
}

/// What stands before and behind the last separator is settled.
proof fn one_split(a: Seq<u8>, s: Seq<u8>, b: Seq<u8>, t: Seq<u8>, sep: u8)
    requires
        a.push(sep) + s == b.push(sep) + t,
        !s.contains(sep),
        !t.contains(sep),
    ensures
        a == b,
        s == t,
{
    let x = a.push(sep) + s;
    let y = b.push(sep) + t;
    assert(x.len() == y.len());
    assert(x.len() == a.len() + 1 + s.len());
    assert(y.len() == b.len() + 1 + t.len());
    if a.len() < b.len() {
        assert(y[b.len() as int] == sep);
        assert(x[b.len() as int] == s[b.len() - a.len() - 1]);
        assert(s.contains(sep));
    } else if b.len() < a.len() {
        assert(x[a.len() as int] == sep);
        assert(y[a.len() as int] == t[a.len() - b.len() - 1]);
        assert(t.contains(sep));
    }
    assert(a.len() == b.len());
    assert forall|i: int| 0 <= i < a.len() implies a[i] == b[i] by {
        assert(x[i] == a[i]);
        assert(y[i] == b[i]);
    }
    assert(a =~= b);
    assert forall|i: int| 0 <= i < s.len() implies s[i] == t[i] by {
        assert(x[a.len() + 1 + i] == s[i]);
        assert(y[a.len() + 1 + i] == t[i]);
    }
    assert(s =~= t);
}

proof fn code_characters(g: Seq<u16>)
    ensures
        within(code_bytes(g), 0x30, 0x3a),
        g.len() > 0 ==> code_bytes(g).len() > 0,
    decreases g.len(),
{
    if g.len() > 0 {
        digits_are_digits(g[0] as nat);
        digits_are_digits(g.last() as nat);
        if g.len() > 1 {
            code_characters(g.drop_last());
        }
    }
}

proof fn one_code_of(a: Seq<u16>, b: Seq<u16>)
    requires
        a.len() > 0,
        b.len() > 0,
        code_bytes(a) == code_bytes(b),
    ensures
        a == b,
    decreases a.len(),
{
    let sep = ':' as u8;
    digits_are_digits(a.last() as nat);
    digits_are_digits(b.last() as nat);
    if a.len() == 1 && b.len() == 1 {
        one_number_of(a[0] as nat, b[0] as nat);
        assert(a =~= b);
    } else if a.len() == 1 {
        let front = code_bytes(b.drop_last());
        assert(code_bytes(b)[front.len() as int] == sep);
    } else if b.len() == 1 {
        let front = code_bytes(a.drop_last());
        assert(code_bytes(a)[front.len() as int] == sep);
    } else {
        one_split(
            code_bytes(a.drop_last()),
            decimal(a.last() as nat),
            code_bytes(b.drop_last()),
            decimal(b.last() as nat),
            sep,
        );
        one_number_of(a.last() as nat, b.last() as nat);
        one_code_of(a.drop_last(), b.drop_last());
        assert(a =~= a.drop_last().push(a.last()));
        assert(b =~= b.drop_last().push(b.last()));
    }
}

proof fn joined_characters(ps: Seq<Seq<u16>>)
    requires
        numbered(ps),
    ensures
        within(joined(ps), 0x30, 0x3b),
        ps.len() > 0 ==> joined(ps).len() > 0,
    decreases ps.len(),
{
    if ps.len() > 0 {
        code_characters(ps[0]);
        code_characters(ps.last());
        if ps.len() > 1 {
            joined_characters(ps.drop_last());
        }
    }
}

proof fn one_list_of(a: Seq<Seq<u16>>, b: Seq<Seq<u16>>)
    requires
        a.len() > 0,
        b.len() > 0,
        numbered(a),
        numbered(b),
        joined(a) == joined(b),
    ensures
        a == b,
    decreases a.len(),
{
    let sep = ';' as u8;
    code_characters(a.last());
    code_characters(b.last());
    if a.len() == 1 && b.len() == 1 {
        one_code_of(a[0], b[0]);
        assert(a =~= b);
    } else if a.len() == 1 {
        let front = joined(b.drop_last());
        assert(joined(b)[front.len() as int] == sep);
    } else if b.len() == 1 {
        let front = joined(a.drop_last());
        assert(joined(a)[front.len() as int] == sep);
    } else {
        one_split(
            joined(a.drop_last()),
            code_bytes(a.last()),
            joined(b.drop_last()),
            code_bytes(b.last()),
            sep,
        );
        one_code_of(a.last(), b.last());
        one_list_of(a.drop_last(), b.drop_last());
        assert(a =~= a.drop_last().push(a.last()));
        assert(b =~= b.drop_last().push(b.last()));
    }
}

proof fn numbers_characters(ps: Seq<Seq<u16>>)
    requires
        numbered(ps),
    ensures
        within(numbers_bytes(ps), 0x30, 0x3b),
{
    joined_characters(ps);
}

/// The numbers of a control sequence can be told from its bytes.
proof fn one_numbers_of(a: Seq<Seq<u16>>, b: Seq<Seq<u16>>)
    requires
        a.len() > 0,
        b.len() > 0,
        numbered(a),
        numbered(b),
        numbers_bytes(a) == numbers_bytes(b),
    ensures
        a == b,
{
    joined_characters(a);
    joined_characters(b);
    if a != seq![seq![0u16]] && b != seq![seq![0u16]] {
        one_list_of(a, b);
    }
}

/// A final byte ends the numbers before it.
proof fn one_end(a: Seq<u8>, c: u8, r: Seq<u8>, b: Seq<u8>, d: u8, s: Seq<u8>)
    requires
        within(a, 0x30, 0x3b),
        within(b, 0x30, 0x3b),
        c >= 0x40,
        d >= 0x40,
        a + seq![c] + r == b + seq![d] + s,
    ensures
        a == b,
        c == d,
{
    let x = a + seq![c] + r;
    let y = b + seq![d] + s;
    assert(x[a.len() as int] == c);
    assert(y[b.len() as int] == d);
    if a.len() < b.len() {
        assert(y[a.len() as int] == b[a.len() as int]);
    } else if b.len() < a.len() {
        assert(x[b.len() as int] == a[b.len() as int]);
    }
    assert forall|i: int| 0 <= i < a.len() implies a[i] == b[i] by {
        assert(x[i] == a[i]);
        assert(y[i] == b[i]);
    }
    assert(a =~= b);
}

spec fn mark_bytes(mark: Option<u8>) -> Seq<u8> {
    match mark {
        Some(m) => seq![m],
        None => Seq::empty(),
    }
}

/// What stands behind CSI is read as one control sequence.
proof fn one_sequence(
    m: Option<u8>,
    ps: Seq<Seq<u16>>,
    c: char,
    r: Seq<u8>,
    n: Option<u8>,
    qs: Seq<Seq<u16>>,
    d: char,
    s: Seq<u8>,
)
    requires
        Token::Sequence(m, ps, c).readable(),
        Token::Sequence(n, qs, d).readable(),
        Token::Sequence(m, ps, c).spelled() + r == Token::Sequence(n, qs, d).spelled() + s,
    ensures
        m == n,
        ps == qs,
        c == d,
{
    let x = Token::Sequence(m, ps, c).spelled() + r;
    let y = Token::Sequence(n, qs, d).spelled() + s;
    let a = numbers_bytes(ps);
    let b = numbers_bytes(qs);
    numbers_characters(ps);
    numbers_characters(qs);
    let end_a = a + seq![c as u8] + r;
    let end_b = b + seq![d as u8] + s;
    assert(x =~= csi() + (mark_bytes(m) + end_a));
    assert(y =~= csi() + (mark_bytes(n) + end_b));
    assert(mark_bytes(m) + end_a =~= x.skip(2));
    assert(mark_bytes(n) + end_b =~= y.skip(2));
    assert(end_a[0] == if a.len() == 0 { c as u8 } else { a[0] });
    assert(end_b[0] == if b.len() == 0 { d as u8 } else { b[0] });
    assert(x.skip(2)[0] == if m is Some { m->Some_0 } else { end_a[0] });
    assert(y.skip(2)[0] == if n is Some { n->Some_0 } else { end_b[0] });
    assert(m == n);
    let k = mark_bytes(m).len() as int;
    assert(end_a =~= x.skip(2).skip(k));
    assert(end_b =~= y.skip(2).skip(k));
    one_end(a, c as u8, r, b, d as u8, s);
    one_numbers_of(ps, qs);
}

/// How a character begins.
proof fn character_lead(c: char)
    requires
        Token::Print(c).readable(),
    ensures
        encode_utf8(seq![c]).len() > 0,
        encode_utf8(seq![c])[0] >= 0x20,
{
    let t = seq![c];
    encode_utf8_first_scalar(t);
    assert(t.drop_first() =~= Seq::<char>::empty());
    if (c as u32) < 0x80 {
        assert(is_ascii_chars(t));
        is_ascii_chars_encode_utf8(t);
        assert(t[0] as u8 == encode_utf8(t)[0]);
    }
}

/// Which character bytes begin with can be told from them.
proof fn one_character(c: char, r: Seq<u8>, d: char, s: Seq<u8>)
    requires
        encode_utf8(seq![c]) + r == encode_utf8(seq![d]) + s,
    ensures
        c == d,
{
    character_of(c, r);
    character_of(d, s);
}

proof fn character_of(c: char, r: Seq<u8>)
    ensures
        decode_first_scalar(encode_utf8(seq![c]) + r) == c as u32,
{
    let t = seq![c];
    let e = encode_utf8(t);
    encode_utf8_first_scalar(t);
    assert(valid_first_scalar(e));
    assert(t.drop_first() =~= Seq::<char>::empty());
    assert(encode_utf8(t.drop_first()) =~= Seq::<u8>::empty());
    assert(e =~= encode_scalar(c as u32));
    assert forall|i: int| 0 <= i < e.len() implies e[i] == (e + r)[i] by {}
    assert((e + r)[0] == e[0]);
    if e.len() > 1 {
        assert((e + r)[1] == e[1]);
    }
    if e.len() > 2 {
        assert((e + r)[2] == e[2]);
    }
    if e.len() > 3 {
        assert((e + r)[3] == e[3]);
    }
}

/// How a token begins.
proof fn token_lead(t: Token)
    requires
        t.readable(),
    ensures
        t.spelled().len() > 0,
        t is Print ==> t.spelled()[0] >= 0x20,
        t is Control ==> t.spelled()[0] < 0x20 && t.spelled()[0] != 0x1b,
        t is Escape ==> t.spelled().len() > 1 && t.spelled()[0] == 0x1b && t.spelled()[1] != '['
            as u8,
        t is Sequence ==> t.spelled().len() > 1 && t.spelled()[0] == 0x1b && t.spelled()[1] == '['
            as u8,
{
    if let Token::Print(c) = t {
        character_lead(c);
    }
}

/// Which token bytes begin with can be told from them.
proof fn one_token(t: Token, r: Seq<u8>, u: Token, s: Seq<u8>)
    requires
        t.readable(),
        u.readable(),
        t.spelled() + r == u.spelled() + s,
    ensures
        t == u,
        r == s,
{
    token_lead(t);
    token_lead(u);
    let x = t.spelled() + r;
    let y = u.spelled() + s;
    assert(x[0] == t.spelled()[0]);
    assert(y[0] == u.spelled()[0]);
    if x[0] == 0x1b {
        assert(x[1] == t.spelled()[1]);
        assert(y[1] == u.spelled()[1]);
    }
    match (t, u) {
        (Token::Print(c), Token::Print(d)) => one_character(c, r, d, s),
        (Token::Sequence(m, ps, c), Token::Sequence(n, qs, d)) => one_sequence(
            m,
            ps,
            c,
            r,
            n,
            qs,
            d,
            s,
        ),
        _ => {},
    }
    assert(t == u);
    assert(r =~= x.skip(t.spelled().len() as int));
    assert(s =~= y.skip(u.spelled().len() as int));
}

proof fn first_token_bytes(ts: Seq<Token>)
    requires
        ts.len() > 0,
    ensures
        token_bytes(ts) == ts[0].spelled() + token_bytes(ts.drop_first()),
{
    let a = seq![ts[0]];
    assert(ts =~= a + ts.drop_first());
    tokens_append(a, ts.drop_first());
    assert(a.drop_last() =~= Seq::<Token>::empty());
    assert(token_bytes(a.drop_last()) == Seq::<u8>::empty());
    assert(token_bytes(a) =~= ts[0].spelled());
}

/// Bytes are read as tokens in one way only.
pub proof fn read_in_one_way(ts: Seq<Token>, us: Seq<Token>)
    requires
        all_readable(ts),
        all_readable(us),
        token_bytes(ts) == token_bytes(us),
    ensures
        ts == us,
    decreases ts.len(),
{
    if ts.len() > 0 {
        first_token_bytes(ts);
        token_lead(ts[0]);
    }
    if us.len() > 0 {
        first_token_bytes(us);
        token_lead(us[0]);
    }
    if ts.len() > 0 && us.len() > 0 {
        one_token(
            ts[0],
            token_bytes(ts.drop_first()),
            us[0],
            token_bytes(us.drop_first()),
        );
        read_in_one_way(ts.drop_first(), us.drop_first());
        assert(ts =~= seq![ts[0]] + ts.drop_first());
        assert(us =~= seq![us[0]] + us.drop_first());
    } else {
        assert(ts =~= us);
    }
}

/// Bytes turn a screen into no more than one other.
pub proof fn drawn_in_one_way<T>(
    u: ScreenModel<T>,
    bytes: Seq<u8>,
    v: ScreenModel<T>,
    w: ScreenModel<T>,
)
    requires
        draws(u, bytes, v),
        draws(u, bytes, w),
    ensures
        v == w,
{
    let ts = drawn_tokens(u, bytes, v);
    let us = drawn_tokens(u, bytes, w);
    read_in_one_way(ts, us);
}

} // verus!
