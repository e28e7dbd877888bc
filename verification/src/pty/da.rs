//! Making the terminal's Primary DA reply list sixel on its way to the application.
use vstd::prelude::*;

use crate::pty::probe::{da_start, fields_are_looked_at_one_by_one, lists_four, ESC};

verus! {

/// How much of a reply that has not ended is held back.
pub const MAX_CARRY: usize = 64;

/// Whether a byte may stand among the parameters of the reply: a digit or `;`.
pub open spec fn is_param(b: u8) -> bool {
    (0x30 <= b && b <= 0x39) || b == 0x3b
}

/// Where the parameters that start at `i` end.
pub open spec fn params_end(data: Seq<u8>, i: int) -> int
    decreases data.len() - i,
{
    if 0 <= i < data.len() && is_param(data[i]) {
        params_end(data, i + 1)
    } else {
        i
    }
}

/// Whether what is left at `i` is the beginning of `ESC [ ?` but not all of it.
pub open spec fn breaks_off(data: Seq<u8>, i: int) -> bool {
    let n = data.len() - i;
    0 < n < 3 && data.skip(i) =~= da_start().take(n)
}

/// Whether `ESC [ ?` stands at `i`.
pub open spec fn starts_reply(data: Seq<u8>, i: int) -> bool {
    i + 3 <= data.len() && data.subrange(i, i + 3) =~= da_start()
}

/// What a whole reply is turned into: feature 4 is added where it is not listed.
pub open spec fn with_sixel(head: Seq<u8>) -> Seq<u8> {
    (if lists_four(head.skip(3)) {
        head
    } else {
        head + seq![0x3bu8, 0x34]
    }).push(0x63)
}

/// What goes on of the bytes from `i` on, and what is held back because it may be the beginning
/// of a reply. Only `ESC [ ? digits-and-; c` is changed; everything else goes on as it is.
pub open spec fn rewritten(data: Seq<u8>, i: int) -> (Seq<u8>, Seq<u8>)
    decreases data.len() - i,
{
    if i < 0 || i >= data.len() {
        (Seq::empty(), Seq::empty())
    } else if data[i] != ESC {
        let rest = rewritten(data, i + 1);
        (seq![data[i]] + rest.0, rest.1)
    } else if !starts_reply(data, i) {
        if breaks_off(data, i) {
            (Seq::empty(), data.skip(i))
        } else {
            let rest = rewritten(data, i + 1);
            (seq![data[i]] + rest.0, rest.1)
        }
    } else {
        let j = params_end(data, i + 3);
        if j < i + 3 || j > data.len() {
            (Seq::empty(), Seq::empty())
        } else if j == data.len() {
            if data.len() - i <= MAX_CARRY {
                (Seq::empty(), data.skip(i))
            } else {
                (data.skip(i), Seq::empty())
            }
        } else if data[j] == 0x63 {
            let rest = rewritten(data, j + 1);
            (with_sixel(data.subrange(i, j)) + rest.0, rest.1)
        } else {
            let rest = rewritten(data, j);
            (data.subrange(i, j) + rest.0, rest.1)
        }
    }
}

proof fn params_end_bound(data: Seq<u8>, i: int)
    requires
        0 <= i <= data.len(),
    ensures
        i <= params_end(data, i) <= data.len(),
        forall|k: int| i <= k < params_end(data, i) ==> is_param(#[trigger] data[k]),
        params_end(data, i) < data.len() ==> !is_param(data[params_end(data, i)]),
    decreases data.len() - i,
{
    if i < data.len() && is_param(data[i]) {
        params_end_bound(data, i + 1);
    }
}

/// Rewrites the bytes that go to the application. What a read breaks off is held back for the
/// next one.
pub struct DaRewriter {
    carry: Vec<u8>,
}

impl View for DaRewriter {
    type V = Seq<u8>;

    closed spec fn view(&self) -> Seq<u8> {
        self.carry@
    }
}

fn push_range(out: &mut Vec<u8>, data: &Vec<u8>, from: usize, to: usize)
    requires
        from <= to <= data@.len(),
    ensures
        final(out)@ == old(out)@ + data@.subrange(from as int, to as int),
{
    for k in from..to
        invariant
            to <= data@.len(),
            out@ =~= old(out)@ + data@.subrange(from as int, k as int),
    {
        out.push(data[k]);
    }
}

fn lists_four_in(data: &Vec<u8>, from: usize, to: usize) -> (r: bool)
    requires
        from <= to <= data@.len(),
    ensures
        r == lists_four(data@.subrange(from as int, to as int)),
{
    let ghost fields = data@.subrange(from as int, to as int);
    let mut i: usize = from;
    while i < to
        invariant
            from <= i <= to,
            to <= data@.len(),
            fields == data@.subrange(from as int, to as int),
            forall|k: int|
                #![trigger fields[k]]
                0 <= k < i - from ==> !(fields[k] == 0x34 && (k == 0 || fields[k - 1] == 0x3b) && (k
                    + 1 == fields.len() || fields[k + 1] == 0x3b)),
        decreases to - i,
    {
        if data[i] == 0x34 && (i == from || data[i - 1] == 0x3b) && (i + 1 == to || data[i + 1]
            == 0x3b) {
            proof {
                assert(fields[i - from] == 0x34);
            }
            return true;
        }
        i = i + 1;
    }
    false
}

impl DaRewriter {
    pub fn new() -> (r: DaRewriter)
        ensures
            r@ == Seq::<u8>::empty(),
    {
        let r = DaRewriter { carry: Vec::new() };
        proof {
            assert(r@ =~= Seq::<u8>::empty());
        }
        r
    }

    /// Takes the bytes of one read. Returns what goes on to the application.
    pub fn advertise_sixel(&mut self, input: &[u8]) -> (r: Vec<u8>)
        ensures
            (r@, final(self)@) == rewritten(old(self)@ + input@, 0),
    {
        let mut data: Vec<u8> = Vec::new();
        push_range(&mut data, &self.carry, 0, self.carry.len());
        for k in 0..input.len()
            invariant
                data@ =~= old(self)@ + input@.take(k as int),
                *self == *old(self),
        {
            data.push(input[k]);
        }
        let ghost all = old(self)@ + input@;
        proof {
            assert(data@ =~= all);
        }
        self.carry = Vec::new();
        let n: usize = data.len();
        let mut out: Vec<u8> = Vec::new();
        let mut i: usize = 0;
        proof {
            assert(out@ + rewritten(all, 0).0 =~= rewritten(all, 0).0);
        }
        while i < n
            invariant
                all == old(self)@ + input@,
                data@ == all,
                n == all.len(),
                i <= n,
                self.carry@.len() == 0,
                rewritten(all, 0).0 == out@ + rewritten(all, i as int).0,
                rewritten(all, 0).1 == rewritten(all, i as int).1,
            decreases n - i,
        {
            let ghost before = out@;
            if data[i] != ESC {
                out.push(data[i]);
                proof {
                    assert(before + (seq![all[i as int]] + rewritten(all, i + 1).0) =~= out@
                        + rewritten(all, i + 1).0);
                }
                i = i + 1;
                continue;
            }
            let starts: bool = n - i >= 3 && data[i + 1] == 0x5b && data[i + 2] == 0x3f;
            proof {
                if n - i >= 3 {
                    let s = all.subrange(i as int, i + 3);
                    assert(s[0] == all[i as int] && s[1] == all[i + 1] && s[2] == all[i + 2]);
                    assert(starts ==> s =~= da_start());
                    assert(s =~= da_start() ==> s[1] == da_start()[1] && s[2] == da_start()[2]);
                }
                assert(starts == starts_reply(all, i as int));
            }
            if !starts {
                let cut: bool = n - i == 1 || (n - i == 2 && data[i + 1] == 0x5b);
                proof {
                    let rest = all.skip(i as int);
                    if n - i == 1 {
                        assert(rest =~= da_start().take(1));
                    } else if n - i == 2 {
                        assert(rest[1] == all[i + 1]);
                        assert(da_start().take(2)[1] == 0x5b);
                        assert(cut ==> rest =~= da_start().take(2));
                    }
                    assert(cut == breaks_off(all, i as int));
                }
                if cut {
                    self.carry = tail(&data, i);
                    proof {
                        assert(out@ + Seq::<u8>::empty() =~= out@);
                    }
                    return out;
                }
                out.push(data[i]);
                proof {
                    assert(before + (seq![all[i as int]] + rewritten(all, i + 1).0) =~= out@
                        + rewritten(all, i + 1).0);
                }
                i = i + 1;
                continue;
            }
            let mut j: usize = i + 3;
            proof {
                params_end_bound(all, i + 3);
            }
            while j < n && ((0x30 <= data[j] && data[j] <= 0x39) || data[j] == 0x3b)
                invariant
                    data@ == all,
                    n == all.len(),
                    i + 3 <= j <= n,
                    params_end(all, i + 3) == params_end(all, j as int),
                decreases n - j,
            {
                j = j + 1;
            }
            if j == n {
                if n - i <= MAX_CARRY {
                    self.carry = tail(&data, i);
                    proof {
                        assert(out@ + Seq::<u8>::empty() =~= out@);
                    }
                } else {
                    push_range(&mut out, &data, i, n);
                    proof {
                        assert(all.subrange(i as int, n as int) =~= all.skip(i as int));
                        assert(self.carry@ =~= Seq::<u8>::empty());
                    }
                }
                return out;
            }
            push_range(&mut out, &data, i, j);
            if data[j] == 0x63 {
                let listed: bool = lists_four_in(&data, i + 3, j);
                if !listed {
                    out.push(0x3b);
                    out.push(0x34);
                }
                out.push(0x63);
                proof {
                    let head = all.subrange(i as int, j as int);
                    assert(head.skip(3) =~= all.subrange(i + 3, j as int));
                    assert(out@ =~= before + with_sixel(head));
                    assert(before + (with_sixel(head) + rewritten(all, j + 1).0) =~= out@
                        + rewritten(all, j + 1).0);
                }
                i = j + 1;
            } else {
                proof {
                    let head = all.subrange(i as int, j as int);
                    assert(before + (head + rewritten(all, j as int).0) =~= out@ + rewritten(
                        all,
                        j as int,
                    ).0);
                }
                i = j;
            }
        }
        proof {
            assert(out@ + Seq::<u8>::empty() =~= out@);
            assert(self.carry@ =~= Seq::<u8>::empty());
        }
        out
    }
}

fn tail(data: &Vec<u8>, from: usize) -> (r: Vec<u8>)
    requires
        from <= data@.len(),
    ensures
        r@ == data@.skip(from as int),
{
    let mut r: Vec<u8> = Vec::new();
    push_range(&mut r, data, from, data.len());
    proof {
        assert(r@ =~= data@.skip(from as int));
    }
    r
}

// Laws.

/// Bytes without an escape character go on as they are, and nothing is held back.
pub proof fn plain_bytes_pass(data: Seq<u8>, i: int)
    requires
        0 <= i <= data.len(),
        forall|k: int| i <= k < data.len() ==> #[trigger] data[k] != ESC,
    ensures
        rewritten(data, i) == (data.skip(i), Seq::<u8>::empty()),
    decreases data.len() - i,
{
    if i < data.len() {
        plain_bytes_pass(data, i + 1);
        assert(seq![data[i]] + data.skip(i + 1) =~= data.skip(i));
    } else {
        assert(data.skip(i) =~= Seq::<u8>::empty());
    }
}

/// What is held back is never longer than what may be held back.
pub proof fn carry_is_bounded(data: Seq<u8>, i: int)
    requires
        0 <= i,
    ensures
        rewritten(data, i).1.len() <= MAX_CARRY,
    decreases data.len() - i,
{
    if i < data.len() {
        if data[i] != ESC {
            carry_is_bounded(data, i + 1);
        } else if !starts_reply(data, i) {
            if !breaks_off(data, i) {
                carry_is_bounded(data, i + 1);
            }
        } else {
            params_end_bound(data, i + 3);
            let j = params_end(data, i + 3);
            if j < data.len() {
                if data[j] == 0x63 {
                    carry_is_bounded(data, j + 1);
                } else {
                    carry_is_bounded(data, j);
                }
            }
        }
    }
}

proof fn shifted_params(p: Seq<u8>, s: Seq<u8>, i: int)
    requires
        0 <= i <= s.len(),
    ensures
        params_end(p + s, p.len() + i) == p.len() + params_end(s, i),
    decreases s.len() - i,
{
    if i < s.len() && is_param(s[i]) {
        assert((p + s)[p.len() + i] == s[i]);
        shifted_params(p, s, i + 1);
    } else if i < s.len() {
        assert((p + s)[p.len() + i] == s[i]);
    }
}

/// What was before does not matter.
proof fn shifted(p: Seq<u8>, s: Seq<u8>, i: int)
    requires
        0 <= i <= s.len(),
    ensures
        rewritten(p + s, p.len() + i) == rewritten(s, i),
    decreases s.len() - i,
{
    let d = p + s;
    let k = p.len() + i;
    if i < s.len() {
        assert(d[k] == s[i]);
        assert(d.skip(k) =~= s.skip(i));
        if i + 3 <= s.len() {
            assert(d.subrange(k, k + 3) =~= s.subrange(i, i + 3));
        }
        if s[i] != ESC {
            shifted(p, s, i + 1);
        } else if !starts_reply(s, i) {
            if !breaks_off(s, i) {
                shifted(p, s, i + 1);
            }
        } else {
            shifted_params(p, s, i + 3);
            params_end_bound(s, i + 3);
            let j = params_end(s, i + 3);
            if j < s.len() {
                assert(d[p.len() + j] == s[j]);
                assert(d.subrange(k, p.len() + j) =~= s.subrange(i, j));
                if s[j] == 0x63 {
                    shifted(p, s, j + 1);
                } else {
                    shifted(p, s, j);
                }
            }
        }
    }
}

/// Whether a reply breaks off that is already too long to be held back.
pub open spec fn gives_up(data: Seq<u8>, i: int) -> bool
    decreases data.len() - i,
{
    if i < 0 || i >= data.len() {
        false
    } else if data[i] != ESC || !starts_reply(data, i) {
        gives_up(data, i + 1)
    } else {
        let j = params_end(data, i + 3);
        if j < i + 3 || j > data.len() {
            false
        } else if j == data.len() {
            data.len() - i > MAX_CARRY
        } else if data[j] == 0x63 {
            gives_up(data, j + 1)
        } else {
            gives_up(data, j)
        }
    }
}

proof fn params_cut(a: Seq<u8>, b: Seq<u8>, i: int)
    requires
        0 <= i <= a.len(),
    ensures
        params_end(a, i) < a.len() ==> params_end(a + b, i) == params_end(a, i),
    decreases a.len() - i,
{
    if i < a.len() {
        assert((a + b)[i] == a[i]);
        if is_param(a[i]) {
            params_cut(a, b, i + 1);
        }
    }
}

proof fn split_from(a: Seq<u8>, b: Seq<u8>, i: int)
    requires
        0 <= i <= a.len(),
        !gives_up(a, i),
    ensures
        ({
            let first = rewritten(a, i);
            let second = rewritten(first.1 + b, 0);
            rewritten(a + b, i) == (first.0 + second.0, second.1)
        }),
    decreases a.len() - i,
{
    let d = a + b;
    let first = rewritten(a, i);
    if i >= a.len() {
        shifted(a, b, 0);
        assert(first.1 + b =~= b);
        assert(first.0 + rewritten(b, 0).0 =~= rewritten(b, 0).0);
    } else {
        assert(d[i] == a[i]);
        let rest = a.skip(i);
        assert(a.take(i) + (rest + b) =~= d);
        if a[i] != ESC {
            split_from(a, b, i + 1);
            let tail = rewritten(a, i + 1);
            let second = rewritten(tail.1 + b, 0);
            assert(seq![a[i]] + (tail.0 + second.0) =~= (seq![a[i]] + tail.0) + second.0);
        } else if !starts_reply(a, i) {
            if breaks_off(a, i) {
                shifted(a.take(i), rest + b, 0);
                assert(first.0 + rewritten(rest + b, 0).0 =~= rewritten(rest + b, 0).0);
            } else {
                assert(!starts_reply(d, i)) by {
                    if starts_reply(d, i) {
                        let s = d.subrange(i, i + 3);
                        if i + 3 <= a.len() {
                            assert(a.subrange(i, i + 3) =~= s);
                        } else {
                            assert(rest =~= s.take(a.len() - i));
                            assert(rest =~= da_start().take(a.len() - i));
                        }
                    }
                }
                assert(!breaks_off(d, i)) by {
                    if breaks_off(d, i) {
                        assert(rest =~= d.skip(i).take(a.len() - i));
                        assert(rest =~= da_start().take(a.len() - i));
                    }
                }
                split_from(a, b, i + 1);
                let tail = rewritten(a, i + 1);
                let second = rewritten(tail.1 + b, 0);
                assert(seq![a[i]] + (tail.0 + second.0) =~= (seq![a[i]] + tail.0) + second.0);
            }
        } else {
            assert(d.subrange(i, i + 3) =~= a.subrange(i, i + 3));
            params_end_bound(a, i + 3);
            let j = params_end(a, i + 3);
            if j == a.len() {
                shifted(a.take(i), rest + b, 0);
                assert(first.0 + rewritten(rest + b, 0).0 =~= rewritten(rest + b, 0).0);
            } else {
                params_cut(a, b, i + 3);
                assert(d[j] == a[j]);
                assert(d.subrange(i, j) =~= a.subrange(i, j));
                let head = if a[j] == 0x63 {
                    with_sixel(a.subrange(i, j))
                } else {
                    a.subrange(i, j)
                };
                let next = if a[j] == 0x63 {
                    j + 1
                } else {
                    j
                };
                split_from(a, b, next);
                let tail = rewritten(a, next);
                let second = rewritten(tail.1 + b, 0);
                assert(head + (tail.0 + second.0) =~= (head + tail.0) + second.0);
            }
        }
    }
}

/// How the bytes are cut into reads does not matter: two reads one after the other give what
/// both together give. Only a reply that is cut after it has grown too long to be held back is
/// given up.
pub proof fn reads_do_not_matter(a: Seq<u8>, b: Seq<u8>)
    requires
        !gives_up(a, 0),
    ensures
        ({
            let first = rewritten(a, 0);
            let second = rewritten(first.1 + b, 0);
            rewritten(a + b, 0) == (first.0 + second.0, second.1)
        }),
{
    split_from(a, b, 0);
}

proof fn params_go_on(data: Seq<u8>, i: int, j: int)
    requires
        0 <= i <= j <= data.len(),
        forall|k: int| i <= k < j ==> is_param(#[trigger] data[k]),
        j < data.len() ==> !is_param(data[j]),
    ensures
        params_end(data, i) == j,
    decreases j - i,
{
    if i < j {
        params_go_on(data, i + 1, j);
    }
}

/// A reply `ESC [ ?`, digits and `;`, and `c` goes on as it is where feature 4 is among its fields,
/// else with `;4` before the `c`, so that it is in any case. One that has not ended is held back
/// whole, up to 64 bytes. What ends in another character, and is no reply, goes on as it is.
pub proof fn replies_list_sixel(fields: Seq<u8>, b: u8)
    requires
        forall|i: int|
            0 <= i < fields.len() ==> (48 <= #[trigger] fields[i] <= 57) || fields[i] == 59,
    ensures
        ({
            let open = seq![27u8, 91, 63] + fields;
            let (out, held) = rewritten(open.push(99), 0);
            &&& held.len() == 0
            &&& lists_four(fields) ==> out == open.push(99)
            &&& !lists_four(fields) ==> out == open + seq![59u8, 52, 99]
            &&& lists_four(out.subrange(3, out.len() - 1))
            &&& open.len() <= 64 ==> rewritten(open, 0) == (Seq::<u8>::empty(), open)
            &&& open.len() > 64 ==> rewritten(open, 0) == (open, Seq::<u8>::empty())
            &&& b != 99 && b != 27 && !(48 <= b <= 57) && b != 59 ==> rewritten(open.push(b), 0) == (
                open.push(b),
                Seq::<u8>::empty(),
            )
        }),
{
    let open = seq![27u8, 91, 63] + fields;
    let n = open.len() as int;
    assert(da_start() =~= seq![27u8, 91, 63]);
    assert forall|k: int| 3 <= k < n implies is_param(#[trigger] open[k]) by {
        assert(open[k] == fields[k - 3]);
    }
    // As far as it is.
    assert(open.subrange(0, 3) =~= da_start());
    assert(starts_reply(open, 0));
    params_go_on(open, 3, n);
    assert(open.skip(0) =~= open);
    // With its end.
    let whole = open.push(99);
    assert(whole.subrange(0, 3) =~= da_start());
    assert(starts_reply(whole, 0));
    assert forall|k: int| 3 <= k < n implies is_param(#[trigger] whole[k]) by {
        assert(whole[k] == open[k]);
    }
    params_go_on(whole, 3, n);
    assert(whole.subrange(0, n) =~= open);
    assert(open.skip(3) =~= fields);
    assert(rewritten(whole, n + 1) == (Seq::<u8>::empty(), Seq::<u8>::empty()));
    let (out, held) = rewritten(whole, 0);
    assert(out =~= with_sixel(open));
    if lists_four(fields) {
        assert(out =~= whole);
        assert(out.subrange(3, out.len() - 1) =~= fields);
    } else {
        assert(out =~= open + seq![59u8, 52, 99]);
        let four = seq![52u8];
        let inner = out.subrange(3, out.len() - 1);
        assert(inner =~= fields + seq![0x3bu8] + four);
        fields_are_looked_at_one_by_one(fields, four);
        fields_are_looked_at_one_by_one(four, four);
    }
    // With another end.
    if b != 99 && b != 27 && !is_param(b) {
        let other = open.push(b);
        assert(other.subrange(0, 3) =~= da_start());
        assert(starts_reply(other, 0));
        assert forall|k: int| 3 <= k < n implies is_param(#[trigger] other[k]) by {
            assert(other[k] == open[k]);
        }
        params_go_on(other, 3, n);
        assert(other[n] == b);
        plain_bytes_pass(other, n);
        assert(other.subrange(0, n) + other.skip(n) =~= other);
    }
}

} // verus!
