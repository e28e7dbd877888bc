//! A terminal's input as the control functions and characters that it stands for.
use vstd::prelude::*;
use vstd::utf8::encode_utf8;

use crate::vt::cell::is_control;
use crate::vt::dispatch::csi_op;
use crate::vt::escape::{csi, joined};
use crate::vt::screen::ScreenModel;

verus! {

/// What a terminal reads as one: a character, a control character, an escape sequence, or a control
/// sequence with a mark before its numbers or none.
pub enum Token {
    Print(char),
    Control(u8),
    Escape(u8),
    Sequence(Option<u8>, Seq<Seq<u16>>, char),
}

/// The numbers of a control sequence. A zero that stands alone is left out.
pub open spec fn numbers_bytes(ps: Seq<Seq<u16>>) -> Seq<u8> {
    if ps == seq![seq![0u16]] {
        Seq::empty()
    } else {
        joined(ps)
    }
}

/// How many numbers a control sequence has.
pub open spec fn count_numbers(ps: Seq<Seq<u16>>) -> nat
    decreases ps.len(),
{
    if ps.len() == 0 {
        0
    } else {
        count_numbers(ps.drop_last()) + ps.last().len()
    }
}

/// Whether each group of numbers has one.
pub open spec fn numbered(ps: Seq<Seq<u16>>) -> bool {
    forall|i: int| 0 <= i < ps.len() ==> (#[trigger] ps[i]).len() > 0
}

/// The most numbers that are read of a control sequence.
pub const MAX_NUMBERS: usize = 32;

/// Whether a byte behind ESC begins something longer: a control sequence or a string.
pub open spec fn opens(b: u8) -> bool {
    b == '[' as u8 || b == ']' as u8 || b == 'P' as u8 || b == 'X' as u8 || b == '^' as u8 || b
        == '_' as u8
}

impl Token {
    /// Whether a terminal reads a token as what it is: no control character is printed, ESC is never
    /// one by itself, an escape sequence ends where it does, and a control sequence has its numbers,
    /// not too many, and a final byte.
    pub open spec fn readable(self) -> bool {
        match self {
            Token::Print(c) => !is_control(c),
            Token::Control(b) => b < 0x20 && b != 0x1b,
            Token::Escape(b) => 0x30 <= b <= 0x7e && !opens(b),
            Token::Sequence(mark, ps, c) => {
                &&& mark is Some ==> 0x3c <= mark->Some_0 <= 0x3f
                &&& ps.len() > 0 && numbered(ps) && count_numbers(ps) <= MAX_NUMBERS
                &&& 0x40 <= c as u32 <= 0x7e
            },
        }
    }

    /// How a token is spelled.
    pub open spec fn spelled(self) -> Seq<u8> {
        match self {
            Token::Print(c) => encode_utf8(seq![c]),
            Token::Control(b) => seq![b],
            Token::Escape(b) => seq![0x1b, b],
            Token::Sequence(mark, ps, c) => csi() + (match mark {
                Some(m) => seq![m],
                None => Seq::empty(),
            }) + numbers_bytes(ps) + seq![c as u8],
        }
    }
}

/// How tokens are spelled, one behind the other.
pub open spec fn token_bytes(ts: Seq<Token>) -> Seq<u8>
    decreases ts.len(),
{
    if ts.len() == 0 {
        Seq::empty()
    } else {
        token_bytes(ts.drop_last()) + ts.last().spelled()
    }
}

pub(crate) proof fn numbers_append(a: Seq<Seq<u16>>, b: Seq<Seq<u16>>)
    ensures
        count_numbers(a + b) == count_numbers(a) + count_numbers(b),
        numbered(a) && numbered(b) ==> numbered(a + b),
    decreases b.len(),
{
    if b.len() == 0 {
        assert(a + b =~= a);
    } else {
        numbers_append(a, b.drop_last());
        assert((a + b).drop_last() =~= a + b.drop_last());
        assert((a + b).last() == b.last());
    }
    if numbered(a) && numbered(b) {
        assert forall|i: int| 0 <= i < (a + b).len() implies (#[trigger] (a + b)[i]).len() > 0 by {
            if i < a.len() {
                assert((a + b)[i] == a[i]);
            } else {
                assert((a + b)[i] == b[i - a.len()]);
            }
        }
    }
}

pub(crate) proof fn one_group(g: Seq<u16>)
    requires
        g.len() > 0,
    ensures
        count_numbers(seq![g]) == g.len(),
        numbered(seq![g]),
{
    let ps = seq![g];
    assert(ps.drop_last() =~= Seq::<Seq<u16>>::empty());
    assert(count_numbers(ps.drop_last()) == 0);
    assert(ps.last() == g);
}

pub(crate) proof fn two_groups(g: Seq<u16>, h: Seq<u16>)
    requires
        g.len() > 0,
        h.len() > 0,
    ensures
        count_numbers(seq![g, h]) == g.len() + h.len(),
        numbered(seq![g, h]),
{
    let ps = seq![g, h];
    assert(ps.drop_last() =~= seq![g]);
    assert(ps.last() == h);
    one_group(g);
}

/// Whether a terminal reads tokens as what they are.
pub open spec fn all_readable(ts: Seq<Token>) -> bool {
    forall|i: int| 0 <= i < ts.len() ==> (#[trigger] ts[i]).readable()
}

impl<T> ScreenModel<T> {
    /// The screen after a token. What is not known changes nothing.
    pub open spec fn told(self, t: Token) -> ScreenModel<T> {
        match t {
            Token::Print(c) => self.printed(c),
            Token::Control(b) => match self.executed(b) {
                Some(s) => s,
                None => self,
            },
            Token::Escape(b) => match self.escaped(None, None, b) {
                Some(s) => s,
                None => self,
            },
            Token::Sequence(mark, ps, c) => self.performed(
                csi_op(mark, None, ps, c, self.active().size.rows),
                ps,
            ).0,
        }
    }

    /// The screen after some tokens.
    pub open spec fn heard(self, ts: Seq<Token>) -> ScreenModel<T>
        decreases ts.len(),
    {
        if ts.len() == 0 {
            self
        } else {
            self.heard(ts.drop_last()).told(ts.last())
        }
    }
}

/// Whether bytes turn one screen into another: they spell tokens, each of which a terminal reads as
/// what it is, and the tokens do.
#[verifier::opaque]
pub open spec fn draws<T>(u: ScreenModel<T>, bytes: Seq<u8>, v: ScreenModel<T>) -> bool {
    exists|ts: Seq<Token>| #[trigger]
        token_bytes(ts) == bytes && all_readable(ts) && u.heard(ts) == v
}

pub(crate) proof fn nothing_draws<T>(u: ScreenModel<T>)
    ensures
        draws(u, Seq::empty(), u),
{
    reveal(draws);
    let ts = Seq::<Token>::empty();
    assert(token_bytes(ts) == Seq::<u8>::empty());
    assert(u.heard(ts) == u);
}

pub(crate) proof fn token_draws<T>(u: ScreenModel<T>, t: Token)
    requires
        t.readable(),
    ensures
        draws(u, t.spelled(), u.told(t)),
{
    reveal(draws);
    let ts = seq![t];
    assert(ts.drop_last() =~= Seq::<Token>::empty());
    assert(token_bytes(ts.drop_last()) == Seq::<u8>::empty());
    assert(token_bytes(ts) =~= t.spelled());
    assert(u.heard(ts.drop_last()) == u);
    assert(u.heard(ts) == u.told(t));
}

pub(crate) proof fn tokens_append(a: Seq<Token>, b: Seq<Token>)
    ensures
        token_bytes(a + b) == token_bytes(a) + token_bytes(b),
    decreases b.len(),
{
    if b.len() == 0 {
        assert(a + b =~= a);
        assert(token_bytes(a) + token_bytes(b) =~= token_bytes(a));
    } else {
        tokens_append(a, b.drop_last());
        assert((a + b).drop_last() =~= a + b.drop_last());
        assert((a + b).last() == b.last());
        assert(token_bytes(a) + token_bytes(b) =~= token_bytes(a) + token_bytes(b.drop_last())
            + b.last().spelled());
    }
}

proof fn hearing_goes_on<T>(u: ScreenModel<T>, a: Seq<Token>, b: Seq<Token>)
    ensures
        u.heard(a + b) == u.heard(a).heard(b),
    decreases b.len(),
{
    if b.len() == 0 {
        assert(a + b =~= a);
    } else {
        hearing_goes_on(u, a, b.drop_last());
        assert((a + b).drop_last() =~= a + b.drop_last());
        assert((a + b).last() == b.last());
    }
}

/// What draws one screen and then another draws both in turn.
pub(crate) proof fn drawing_goes_on<T>(
    u: ScreenModel<T>,
    a: Seq<u8>,
    v: ScreenModel<T>,
    b: Seq<u8>,
    w: ScreenModel<T>,
)
    requires
        draws(u, a, v),
        draws(v, b, w),
    ensures
        draws(u, a + b, w),
{
    reveal(draws);
    let s = choose|ts: Seq<Token>| #[trigger]
        token_bytes(ts) == a && all_readable(ts) && u.heard(ts) == v;
    let t = choose|ts: Seq<Token>| #[trigger]
        token_bytes(ts) == b && all_readable(ts) && v.heard(ts) == w;
    tokens_append(s, t);
    hearing_goes_on(u, s, t);
    assert(token_bytes(s + t) == a + b);
    assert(all_readable(s + t));
}

/// Bytes that turn a screen into another spell tokens that do.
pub(crate) proof fn drawn_tokens<T>(u: ScreenModel<T>, bytes: Seq<u8>, v: ScreenModel<T>) -> (ts: Seq<Token>)
    requires
        draws(u, bytes, v),
    ensures
        token_bytes(ts) == bytes,
        all_readable(ts),
        u.heard(ts) == v,
{
    reveal(draws);
    choose|ts: Seq<Token>| #[trigger]
        token_bytes(ts) == bytes && all_readable(ts) && u.heard(ts) == v
}

} // verus!
