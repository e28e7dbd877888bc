//! The kinds of escape sequences that are not mirrored, for a report at the end of the session.
use vstd::prelude::*;
use vstd::string::{StrSliceExecFns, StringExecFns};

use crate::text::{digits, from_utf8_lossy, push_digits, texts, utf8_lossy};

verus! {

/// How many kinds are kept.
pub const MAX_KINDS: usize = 64;

// Order of texts.

/// Whether one text comes before another, by the first character that differs.
pub open spec fn text_before(a: Seq<char>, b: Seq<char>) -> bool
    decreases a.len(),
{
    if b.len() == 0 {
        false
    } else if a.len() == 0 {
        true
    } else if a[0] != b[0] {
        a[0] < b[0]
    } else {
        text_before(a.drop_first(), b.drop_first())
    }
}

fn is_before(a: &String, b: &String) -> (r: bool)
    ensures
        r == text_before(a@, b@),
{
    let n: usize = a.as_str().unicode_len();
    let m: usize = b.as_str().unicode_len();
    let mut i: usize = 0;
    proof {
        assert(a@.skip(0) =~= a@);
        assert(b@.skip(0) =~= b@);
    }
    while i < n && i < m
        invariant
            n == a@.len(),
            m == b@.len(),
            i <= n,
            i <= m,
            text_before(a@, b@) == text_before(a@.skip(i as int), b@.skip(i as int)),
        decreases n - i,
    {
        let x: char = a.as_str().get_char(i);
        let y: char = b.as_str().get_char(i);
        proof {
            assert(a@.skip(i as int)[0] == x);
            assert(b@.skip(i as int)[0] == y);
        }
        if x != y {
            return x < y;
        }
        proof {
            assert(a@.skip(i as int).drop_first() =~= a@.skip(i + 1));
            assert(b@.skip(i as int).drop_first() =~= b@.skip(i + 1));
        }
        i = i + 1;
    }
    i < m
}

/// Where a text goes among others in order: behind all that come before it.
pub open spec fn place_of(kinds: Seq<Seq<char>>, kind: Seq<char>, i: int) -> int
    decreases kinds.len() - i,
{
    if 0 <= i < kinds.len() && text_before(kinds[i], kind) {
        place_of(kinds, kind, i + 1)
    } else {
        i
    }
}

/// The kinds after one was seen: put in at its place, unless it is known or there are too many.
pub open spec fn with_kind(kinds: Seq<Seq<char>>, kind: Seq<char>) -> Seq<Seq<char>> {
    if kinds.len() >= MAX_KINDS || kinds.contains(kind) {
        kinds
    } else {
        kinds.insert(place_of(kinds, kind, 0), kind)
    }
}

/// The kinds that were seen, each once and in order.
pub struct SeqLog {
    kinds: Vec<String>,
}

impl View for SeqLog {
    type V = Seq<Seq<char>>;

    closed spec fn view(&self) -> Seq<Seq<char>> {
        texts(self.kinds@)
    }
}

impl SeqLog {
    pub fn new() -> (r: SeqLog)
        ensures
            r@ == Seq::<Seq<char>>::empty(),
    {
        let r = SeqLog { kinds: Vec::new() };
        proof {
            assert(r@ =~= Seq::<Seq<char>>::empty());
        }
        r
    }

    /// Takes note of a kind. Returns whether it is new.
    pub fn record(&mut self, kind: String) -> (new: bool)
        ensures
            final(self)@ == with_kind(old(self)@, kind@),
            new == (old(self)@.len() < MAX_KINDS && !old(self)@.contains(kind@)),
    {
        let ghost m = self@;
        let n: usize = self.kinds.len();
        for i in 0..n
            invariant
                *self == *old(self),
                m == self@,
                n == m.len(),
                forall|j: int| 0 <= j < i ==> (#[trigger] m[j]) != kind@,
        {
            proof {
                assert(m[i as int] == self.kinds@[i as int]@);
            }
            if self.kinds[i] == kind {
                proof {
                    assert(m.contains(kind@));
                }
                return false;
            }
        }
        if n >= MAX_KINDS {
            return false;
        }
        let mut i: usize = 0;
        while i < n && is_before(&self.kinds[i], &kind)
            invariant
                *self == *old(self),
                m == self@,
                n == m.len(),
                i <= n,
                place_of(m, kind@, 0) == place_of(m, kind@, i as int),
            decreases n - i,
        {
            proof {
                assert(m[i as int] == self.kinds@[i as int]@);
            }
            i = i + 1;
        }
        proof {
            if i < n {
                assert(m[i as int] == self.kinds@[i as int]@);
            }
        }
        let ghost k = kind@;
        self.kinds.insert(i, kind);
        proof {
            assert(self@ =~= m.insert(i as int, k));
        }
        true
    }

    /// The number of kinds.
    pub fn len(&self) -> (r: usize)
        ensures
            r == self@.len(),
    {
        self.kinds.len()
    }

    /// The kinds in order.
    pub fn kinds(&self) -> (r: &Vec<String>)
        ensures
            texts(r@) == self@,
    {
        &self.kinds
    }

    /// The report at the end of a session, `None` where there is nothing to report.
    pub fn report(&self) -> (r: Option<String>)
        ensures
            r is None <==> self@.len() == 0,
            r is Some ==> (r->Some_0)@ == report_text(self@),
    {
        if self.kinds.len() == 0 {
            return None;
        }
        let mut r: String = String::new();
        r.append("shellglass: ");
        push_digits(&mut r, self.kinds.len() as u64);
        r.append(
            " escape sequence kind(s) were not mirrored (the local terminal may have rendered more than the browser): ",
        );
        let ghost head = r@;
        let n: usize = self.kinds.len();
        proof {
            assert(head + listed(self@, 0) =~= head);
        }
        for i in 0..n
            invariant
                n == self@.len(),
                n == self.kinds@.len(),
                r@ == head + listed(self@, i as int),
        {
            proof {
                assert(self@[i as int] == self.kinds@[i as int]@);
            }
            if i > 0 {
                r.append(", ");
            }
            r.append(self.kinds[i].as_str());
            proof {
                assert(r@ =~= head + listed(self@, i + 1));
            }
        }
        r.append(" — please report");
        proof {
            assert(r@ =~= report_text(self@));
        }
        Some(r)
    }
}

/// The first `k` texts, separated by commas.
pub open spec fn listed(kinds: Seq<Seq<char>>, k: int) -> Seq<char>
    decreases k,
{
    if k <= 0 {
        Seq::empty()
    } else if k == 1 {
        kinds[0]
    } else {
        listed(kinds, k - 1) + ", "@ + kinds[k - 1]
    }
}

/// The report of kinds.
pub open spec fn report_text(kinds: Seq<Seq<char>>) -> Seq<char> {
    "shellglass: "@ + digits(kinds.len())
        + " escape sequence kind(s) were not mirrored (the local terminal may have rendered more than the browser): "@
        + listed(kinds, kinds.len() as int) + " — please report"@
}

// The kinds.

/// The bytes between a sequence's start and its end, each behind a space.
pub open spec fn marks(i1: Option<u8>, i2: Option<u8>) -> Seq<char> {
    mark(i1) + mark(i2)
}

pub open spec fn mark(i: Option<u8>) -> Seq<char> {
    match i {
        Some(b) => seq![' ', b as char],
        None => Seq::empty(),
    }
}

fn push_mark(s: &mut String, i: Option<u8>)
    ensures
        final(s)@ == old(s)@ + mark(i),
{
    if let Some(b) = i {
        s.push(' ');
        s.push(b as char);
    }
    proof {
        assert(s@ =~= old(s)@ + mark(i));
    }
}

/// The first `k` subparameters of a group, separated by colons.
pub open spec fn group_text(group: Seq<u16>, k: int) -> Seq<char>
    decreases k,
{
    if k <= 0 {
        Seq::empty()
    } else if k == 1 {
        digits(group[0] as nat)
    } else {
        group_text(group, k - 1).push(':') + digits(group[k - 1] as nat)
    }
}

/// The first `k` parameter groups, each behind a space.
pub open spec fn groups_text(params: Seq<Vec<u16>>, k: int) -> Seq<char>
    decreases k,
{
    if k <= 0 {
        Seq::empty()
    } else {
        groups_text(params, k - 1).push(' ') + group_text(
            params[k - 1]@,
            params[k - 1]@.len() as int,
        )
    }
}

/// Whether the parameters belong to the kind: those of modes, attributes, window operations and
/// status reports do.
pub open spec fn params_matter(c: char) -> bool {
    c == 'h' || c == 'l' || c == 'm' || c == 't' || c == 'n'
}

/// The kind of a control sequence.
pub open spec fn csi_text(i1: Option<u8>, i2: Option<u8>, params: Seq<Vec<u16>>, c: char) -> Seq<
    char,
> {
    "CSI"@ + marks(i1, i2) + (if params_matter(c) {
        groups_text(params, params.len() as int)
    } else {
        Seq::empty()
    }) + seq![' ', c]
}

/// The kind of a control sequence.
pub fn csi_kind(i1: Option<u8>, i2: Option<u8>, params: &Vec<Vec<u16>>, c: char) -> (r: String)
    ensures
        r@ == csi_text(i1, i2, params@, c),
{
    let mut s: String = String::new();
    s.append("CSI");
    push_mark(&mut s, i1);
    push_mark(&mut s, i2);
    let ghost head = s@;
    proof {
        assert(head =~= "CSI"@ + marks(i1, i2));
    }
    if c == 'h' || c == 'l' || c == 'm' || c == 't' || c == 'n' {
        proof {
            assert(s@ =~= head + groups_text(params@, 0));
        }
        for k in 0..params.len()
            invariant
                s@ == head + groups_text(params@, k as int),
        {
            s.push(' ');
            let ghost before = s@;
            let group = &params[k];
            let n: usize = group.len();
            proof {
                assert(s@ =~= before + group_text(group@, 0));
            }
            for j in 0..n
                invariant
                    n == group@.len(),
                    s@ == before + group_text(group@, j as int),
            {
                if j > 0 {
                    s.push(':');
                }
                push_digits(&mut s, group[j] as u64);
                proof {
                    assert(s@ =~= before + group_text(group@, j + 1));
                }
            }
            proof {
                assert(s@ =~= head + groups_text(params@, k + 1));
            }
        }
    }
    s.push(' ');
    s.push(c);
    proof {
        assert(s@ =~= csi_text(i1, i2, params@, c));
    }
    s
}

/// A hexadecimal digit.
pub open spec fn hex_digit(n: nat, upper: bool) -> char {
    if n < 10 {
        crate::text::digit(n)
    } else if n == 10 {
        if upper {
            'A'
        } else {
            'a'
        }
    } else if n == 11 {
        if upper {
            'B'
        } else {
            'b'
        }
    } else if n == 12 {
        if upper {
            'C'
        } else {
            'c'
        }
    } else if n == 13 {
        if upper {
            'D'
        } else {
            'd'
        }
    } else if n == 14 {
        if upper {
            'E'
        } else {
            'e'
        }
    } else {
        if upper {
            'F'
        } else {
            'f'
        }
    }
}

/// A number in hexadecimal digits, at least `width` of them.
pub open spec fn hex(n: nat, width: nat, upper: bool) -> Seq<char>
    decreases n, width,
{
    if n < 16 && width <= 1 {
        seq![hex_digit(n, upper)]
    } else {
        hex(
            n / 16,
            if width == 0 {
                0
            } else {
                (width - 1) as nat
            },
            upper,
        ).push(hex_digit(n % 16, upper))
    }
}

fn hex_char(n: u32, upper: bool) -> (r: char)
    requires
        n < 16,
    ensures
        r == hex_digit(n as nat, upper),
{
    if upper {
        match n {
            0 => '0',
            1 => '1',
            2 => '2',
            3 => '3',
            4 => '4',
            5 => '5',
            6 => '6',
            7 => '7',
            8 => '8',
            9 => '9',
            10 => 'A',
            11 => 'B',
            12 => 'C',
            13 => 'D',
            14 => 'E',
            _ => 'F',
        }
    } else {
        match n {
            0 => '0',
            1 => '1',
            2 => '2',
            3 => '3',
            4 => '4',
            5 => '5',
            6 => '6',
            7 => '7',
            8 => '8',
            9 => '9',
            10 => 'a',
            11 => 'b',
            12 => 'c',
            13 => 'd',
            14 => 'e',
            _ => 'f',
        }
    }
}

fn push_hex(out: &mut String, n: u32, width: u32, upper: bool)
    ensures
        final(out)@ == old(out)@ + hex(n as nat, width as nat, upper),
    decreases n, width,
{
    if !(n < 16 && width <= 1) {
        push_hex(
            out,
            n / 16,
            if width == 0 {
                0
            } else {
                width - 1
            },
            upper,
        );
    }
    out.push(hex_char(n % 16, upper));
    proof {
        assert(out@ =~= old(out)@ + hex(n as nat, width as nat, upper));
    }
}

/// The kind of a character that is not drawn, `None` for the replacement character, which only
/// tells that output was no text.
pub fn char_kind(c: char) -> (r: Option<String>)
    ensures
        r is None <==> c == '\u{fffd}',
        r is Some ==> (r->Some_0)@ == "CHAR U+"@ + hex(c as nat, 4, true),
{
    if c == '\u{fffd}' {
        return None;
    }
    let mut s: String = String::new();
    s.append("CHAR U+");
    push_hex(&mut s, c as u32, 4, true);
    proof {
        assert(s@ =~= "CHAR U+"@ + hex(c as nat, 4, true));
    }
    Some(s)
}

/// The kind of a control character.
pub fn control_kind(b: u8) -> (r: String)
    ensures
        r@ == "CTRL 0x"@ + hex(b as nat, 2, false),
{
    let mut s: String = String::new();
    s.append("CTRL 0x");
    push_hex(&mut s, b as u32, 2, false);
    proof {
        assert(s@ =~= "CTRL 0x"@ + hex(b as nat, 2, false));
    }
    s
}

/// The kind of an escape sequence.
pub fn escape_kind(i1: Option<u8>, i2: Option<u8>, b: u8) -> (r: String)
    ensures
        r@ == "ESC"@ + marks(i1, i2) + seq![' ', b as char],
{
    let mut s: String = String::new();
    s.append("ESC");
    push_mark(&mut s, i1);
    push_mark(&mut s, i2);
    s.push(' ');
    s.push(b as char);
    proof {
        assert(s@ =~= "ESC"@ + marks(i1, i2) + seq![' ', b as char]);
    }
    s
}

/// The kind of an operating system command: its selector, empty where it has none.
pub fn osc_kind(selector: Option<&[u8]>) -> (r: String)
    ensures
        r@ == "OSC "@ + match selector {
            Some(s) => utf8_lossy(s@),
            None => Seq::empty(),
        },
{
    let mut s: String = String::new();
    s.append("OSC ");
    if let Some(b) = selector {
        let t = from_utf8_lossy(b);
        s.append(t.as_str());
    }
    proof {
        assert(s@ =~= "OSC "@ + match selector {
            Some(b) => utf8_lossy(b@),
            None => Seq::empty(),
        });
    }
    s
}

// Laws.

/// Whether texts are in order, the first one first.
pub open spec fn in_order(kinds: Seq<Seq<char>>) -> bool {
    forall|i: int, j: int|
        #![trigger kinds[i], kinds[j]]
        0 <= i < j < kinds.len() ==> text_before(kinds[i], kinds[j])
}

proof fn one_is_before(a: Seq<char>, b: Seq<char>)
    requires
        a != b,
        !text_before(a, b),
    ensures
        text_before(b, a),
    decreases a.len(),
{
    if a.len() == 0 || b.len() == 0 {
        assert(a.len() == 0 && b.len() == 0 ==> a =~= b);
    } else if a[0] == b[0] {
        if a.drop_first() == b.drop_first() {
            assert(a =~= seq![a[0]] + a.drop_first());
            assert(b =~= seq![b[0]] + b.drop_first());
        }
        one_is_before(a.drop_first(), b.drop_first());
    }
}

proof fn before_carries_over(a: Seq<char>, b: Seq<char>, c: Seq<char>)
    requires
        text_before(a, b),
        text_before(b, c),
    ensures
        text_before(a, c),
    decreases a.len(),
{
    if a.len() > 0 && b.len() > 0 && c.len() > 0 && a[0] == b[0] && b[0] == c[0] {
        before_carries_over(a.drop_first(), b.drop_first(), c.drop_first());
    }
}

proof fn before_its_place(kinds: Seq<Seq<char>>, kind: Seq<char>, i: int, k: int)
    requires
        0 <= i <= k < place_of(kinds, kind, i),
    ensures
        k < kinds.len(),
        text_before(kinds[k], kind),
    decreases kinds.len() - i,
{
    if i < kinds.len() && text_before(kinds[i], kind) && i < k {
        before_its_place(kinds, kind, i + 1, k);
    }
}

proof fn at_its_place(kinds: Seq<Seq<char>>, kind: Seq<char>, i: int)
    requires
        0 <= i <= kinds.len(),
        place_of(kinds, kind, i) < kinds.len(),
    ensures
        !text_before(kinds[place_of(kinds, kind, i)], kind),
    decreases kinds.len() - i,
{
    if i < kinds.len() && text_before(kinds[i], kind) {
        at_its_place(kinds, kind, i + 1);
    }
}

proof fn stays_in_order(kinds: Seq<Seq<char>>, kind: Seq<char>)
    requires
        in_order(kinds),
        !kinds.contains(kind),
    ensures
        in_order(kinds.insert(place_of(kinds, kind, 0), kind)),
{
    place_in_range(kinds, kind, 0);
    let p = place_of(kinds, kind, 0);
    let after = kinds.insert(p, kind);
    assert forall|i: int, j: int|
        #![trigger after[i], after[j]]
        0 <= i < j < after.len() implies text_before(after[i], after[j]) by {
        if i < p && j == p {
            before_its_place(kinds, kind, 0, i);
        } else if i == p {
            at_its_place(kinds, kind, 0);
            assert(kinds.contains(kinds[p]));
            one_is_before(kinds[p], kind);
            if j > p + 1 {
                assert(text_before(kinds[p], kinds[j - 1]));
                before_carries_over(kind, kinds[p], kinds[j - 1]);
            }
        } else if i < p && j < p {
            assert(text_before(kinds[i], kinds[j]));
        } else if i < p {
            assert(text_before(kinds[i], kinds[j - 1]));
        } else {
            assert(text_before(kinds[i - 1], kinds[j - 1]));
        }
    }
}

/// However much is seen, no more kinds are kept than may be, none is kept twice, and they stay in
/// order.
pub proof fn kinds_are_bounded(kinds: Seq<Seq<char>>, kind: Seq<char>)
    requires
        kinds.len() <= MAX_KINDS,
        kinds.no_duplicates(),
    ensures
        with_kind(kinds, kind).len() <= MAX_KINDS,
        with_kind(kinds, kind).no_duplicates(),
        kinds.len() < MAX_KINDS ==> with_kind(kinds, kind).contains(kind),
        in_order(kinds) ==> in_order(with_kind(kinds, kind)),
{
    if kinds.len() < MAX_KINDS && !kinds.contains(kind) {
        if in_order(kinds) {
            stays_in_order(kinds, kind);
        }
        place_in_range(kinds, kind, 0);
        let p = place_of(kinds, kind, 0);
        let after = kinds.insert(p, kind);
        assert(after[p] == kind);
        assert forall|i: int, j: int|
            0 <= i < after.len() && 0 <= j < after.len() && i != j implies after[i] != after[j] by {
            let a = if i < p {
                i
            } else {
                i - 1
            };
            let b = if j < p {
                j
            } else {
                j - 1
            };
            if i != p && j != p {
                assert(after[i] == kinds[a] && after[j] == kinds[b]);
            } else if i == p {
                assert(after[j] == kinds[b]);
            } else {
                assert(after[i] == kinds[a]);
            }
        }
    }
}

proof fn place_in_range(kinds: Seq<Seq<char>>, kind: Seq<char>, i: int)
    requires
        0 <= i <= kinds.len(),
    ensures
        i <= place_of(kinds, kind, i) <= kinds.len(),
    decreases kinds.len() - i,
{
    if i < kinds.len() && text_before(kinds[i], kind) {
        place_in_range(kinds, kind, i + 1);
    }
}

/// A new kind joins those that are kept, up to 64, and none of them goes.
pub proof fn kinds_are_kept(kinds: Seq<Seq<char>>, kind: Seq<char>, i: int)
    requires
        0 <= i < kinds.len(),
    ensures
        with_kind(kinds, kind).contains(kinds[i]),
        kinds.len() < 64 && !kinds.contains(kind) ==> with_kind(kinds, kind).len() == kinds.len()
            + 1,
        kinds.len() >= 64 || kinds.contains(kind) ==> with_kind(kinds, kind) == kinds,
{
    let after = with_kind(kinds, kind);
    if kinds.len() < 64 && !kinds.contains(kind) {
        place_in_range(kinds, kind, 0);
        let p = place_of(kinds, kind, 0);
        if i < p {
            assert(after[i] == kinds[i]);
        } else {
            assert(after[i + 1] == kinds[i]);
        }
    } else {
        assert(after[i] == kinds[i]);
    }
}

/// Of two texts the one comes first that has the smaller character where they differ first, or that
/// the other goes on from.
pub proof fn texts_are_ordered(head: Seq<char>, x: char, a: Seq<char>, y: char, b: Seq<char>)
    ensures
        x < y ==> text_before(head.push(x) + a, head.push(y) + b),
        x < y ==> !text_before(head.push(y) + b, head.push(x) + a),
        text_before(head, head.push(x) + a),
        !text_before(head.push(x) + a, head),
        !text_before(head, head),
    decreases head.len(),
{
    let s = head.push(x) + a;
    let t = head.push(y) + b;
    if head.len() > 0 {
        let rest = head.drop_first();
        texts_are_ordered(rest, x, a, y, b);
        assert(s.drop_first() =~= rest.push(x) + a);
        assert(t.drop_first() =~= rest.push(y) + b);
        assert(s[0] == head[0] && t[0] == head[0]);
    } else {
        assert(s[0] == x && t[0] == y);
    }
}

/// What a hexadecimal digit stands for.
pub open spec fn hex_digit_value(c: char) -> int {
    if '0' <= c <= '9' {
        c as int - '0' as int
    } else if 'a' <= c <= 'f' {
        c as int - 'a' as int + 10
    } else {
        c as int - 'A' as int + 10
    }
}

/// What hexadecimal digits stand for.
pub open spec fn hex_value(s: Seq<char>) -> int
    decreases s.len(),
{
    if s.len() == 0 {
        0
    } else {
        hex_value(s.drop_last()) * 16 + hex_digit_value(s.last())
    }
}

/// A number is written in hexadecimal: its digits stand for it, and there are as many as asked for
/// at least.
pub proof fn hex_spells(n: nat, width: nat, upper: bool)
    ensures
        hex_value(hex(n, width, upper)) == n,
        hex(n, width, upper).len() >= width,
        hex(n, width, upper).len() >= 1,
        forall|i: int|
            0 <= i < hex(n, width, upper).len() ==> {
                let c = #[trigger] hex(n, width, upper)[i];
                '0' <= c <= '9' || (upper && 'A' <= c <= 'F') || (!upper && 'a' <= c <= 'f')
            },
    decreases n, width,
{
    let s = hex(n, width, upper);
    reveal_with_fuel(hex_value, 2);
    if n < 16 && width <= 1 {
        assert(s.drop_last() =~= Seq::empty());
        assert(s.last() == hex_digit(n, upper));
    } else {
        let w: nat = if width == 0 {
            0
        } else {
            (width - 1) as nat
        };
        hex_spells(n / 16, w, upper);
        let front = hex(n / 16, w, upper);
        assert(s.drop_last() =~= front);
        assert(s.last() == hex_digit(n % 16, upper));
        assert forall|i: int| 0 <= i < s.len() implies {
            let c = #[trigger] s[i];
            '0' <= c <= '9' || (upper && 'A' <= c <= 'F') || (!upper && 'a' <= c <= 'f')
        } by {
            if i < front.len() {
                assert(s[i] == front[i]);
            }
        }
    }
}

/// The numbers of a control sequence make a kind of their own for modes, attributes, window
/// operations and status reports, and for no others.
pub proof fn numbers_tell_kinds_apart(
    i1: Option<u8>,
    i2: Option<u8>,
    params: Seq<Vec<u16>>,
    other: Seq<Vec<u16>>,
    c: char,
)
    requires
        params.len() == 1,
        other.len() == 1,
        params[0]@.len() == 1,
        other[0]@.len() == 1,
        params[0]@[0] != other[0]@[0],
    ensures
        csi_text(i1, i2, params, c) != csi_text(i1, i2, other, c) <==> c == 'h' || c == 'l' || c
            == 'm' || c == 't' || c == 'n',
{
    let head = "CSI"@ + marks(i1, i2);
    let a = digits(params[0]@[0] as nat);
    let b = digits(other[0]@[0] as nat);
    crate::text::digits_spell(params[0]@[0] as nat);
    crate::text::digits_spell(other[0]@[0] as nat);
    if params_matter(c) {
        reveal_with_fuel(groups_text, 2);
        reveal_with_fuel(group_text, 2);
        let s = csi_text(i1, i2, params, c);
        let t = csi_text(i1, i2, other, c);
        assert(s =~= head.push(' ') + a + seq![' ', c]);
        assert(t =~= head.push(' ') + b + seq![' ', c]);
        if s == t {
            let n = head.len() as int + 1;
            assert(s.subrange(n, s.len() - 2) =~= a);
            assert(t.subrange(n, t.len() - 2) =~= b);
        }
    }
}

} // verus!
