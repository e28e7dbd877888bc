//! Operating system commands: titles, hyperlinks and default colors.
use vstd::prelude::*;

use crate::text::utf8_lossy;
use crate::vt::attrs::Attrs;
use crate::vt::screen::{Screen, ScreenModel};

verus! {

// Colors.

/// The value of a hexadecimal digit.
pub open spec fn hex_value(b: u8) -> Option<nat> {
    if '0' as u8 <= b <= '9' as u8 {
        Some((b - '0' as u8) as nat)
    } else if 'a' as u8 <= b <= 'f' as u8 {
        Some((b - 'a' as u8 + 10) as nat)
    } else if 'A' as u8 <= b <= 'F' as u8 {
        Some((b - 'A' as u8 + 10) as nat)
    } else {
        None
    }
}

/// Whether bytes are hexadecimal digits.
pub open spec fn all_hex(s: Seq<u8>) -> bool {
    forall|i: int| 0 <= i < s.len() ==> hex_value(#[trigger] s[i]) is Some
}

/// The number that hexadecimal digits spell.
pub open spec fn hex_number(s: Seq<u8>) -> nat
    decreases s.len(),
{
    if s.len() == 0 {
        0
    } else {
        hex_number(s.drop_last()) * 16 + hex_value(s.last())->Some_0
    }
}

/// The greatest number of some hexadecimal digits.
pub open spec fn hex_limit(n: nat) -> nat {
    if n == 1 {
        0xF
    } else if n == 2 {
        0xFF
    } else if n == 3 {
        0xFFF
    } else {
        0xFFFF
    }
}

/// A part of a color in one to four digits, scaled to a byte.
pub open spec fn channel(s: Seq<u8>) -> Option<u8> {
    if 1 <= s.len() <= 4 && all_hex(s) {
        Some((hex_number(s) * 255 / hex_limit(s.len())) as u8)
    } else {
        None
    }
}

/// Where a slash stands first at or behind a place, or how long the text is.
pub open spec fn slash_at(s: Seq<u8>, i: int) -> int
    decreases s.len() - i,
{
    if 0 <= i < s.len() && s[i] != '/' as u8 {
        slash_at(s, i + 1)
    } else {
        i
    }
}

/// Whether a text begins with `rgb:`.
pub open spec fn has_rgb_prefix(s: Seq<u8>) -> bool {
    s.len() >= 4 && s[0] == 'r' as u8 && s[1] == 'g' as u8 && s[2] == 'b' as u8 && s[3]
        == ':' as u8
}

/// The color that a text names: `#rrggbb`, or `rgb:` and three numbers parted by slashes.
pub open spec fn color_in(s: Seq<u8>) -> Option<(u8, u8, u8)> {
    if s.len() == 7 && s[0] == '#' as u8 {
        match (channel(s.subrange(1, 3)), channel(s.subrange(3, 5)), channel(s.subrange(5, 7))) {
            (Some(r), Some(g), Some(b)) => Some((r, g, b)),
            _ => None,
        }
    } else if has_rgb_prefix(s) {
        let p = slash_at(s, 4);
        let q = slash_at(s, p + 1);
        if q < s.len() {
            match (channel(s.subrange(4, p)), channel(s.subrange(p + 1, q)), channel(s.skip(q + 1))) {
                (Some(r), Some(g), Some(b)) => Some((r, g, b)),
                _ => None,
            }
        } else {
            None
        }
    } else {
        None
    }
}

fn read_hex(b: u8) -> (r: Option<u32>)
    ensures
        r is Some <==> hex_value(b) is Some,
        r is Some ==> r->Some_0 == hex_value(b)->Some_0 && r->Some_0 < 16,
{
    if '0' as u8 <= b && b <= '9' as u8 {
        Some((b - '0' as u8) as u32)
    } else if 'a' as u8 <= b && b <= 'f' as u8 {
        Some((b - 'a' as u8 + 10) as u32)
    } else if 'A' as u8 <= b && b <= 'F' as u8 {
        Some((b - 'A' as u8 + 10) as u32)
    } else {
        None
    }
}

fn read_channel(s: &[u8], from: usize, to: usize) -> (r: Option<u8>)
    requires
        from <= to <= s@.len(),
    ensures
        r == channel(s@.subrange(from as int, to as int)),
{
    let ghost t = s@.subrange(from as int, to as int);
    let n: usize = to - from;
    if n == 0 || n > 4 {
        return None;
    }
    let mut value: u32 = 0;
    let mut limit: u32 = 0;
    proof {
        assert(t.take(0) =~= Seq::empty());
    }
    for i in 0..n
        invariant
            from <= to <= s@.len(),
            n == to - from,
            1 <= n <= 4,
            t == s@.subrange(from as int, to as int),
            value == hex_number(t.take(i as int)),
            forall|k: int| 0 <= k < i ==> hex_value(#[trigger] t[k]) is Some,
            i == 0 ==> value == 0 && limit == 0,
            i > 0 ==> limit == hex_limit(i as nat),
            value <= limit,
    {
        proof {
            assert(t[i as int] == s@[from + i]);
            assert(t.take(i + 1).drop_last() =~= t.take(i as int));
            assert(t.take(i + 1).last() == t[i as int]);
        }
        match read_hex(s[from + i]) {
            Some(d) => {
                value = value * 16 + d;
                limit = limit * 16 + 15;
            },
            None => {
                return None;
            },
        }
    }
    proof {
        assert(t.take(n as int) =~= t);
        assert(value * 255 / limit as int <= 255) by (nonlinear_arith)
            requires
                value <= limit,
                limit > 0,
        ;
    }
    Some((value * 255 / limit) as u8)
}

fn find_slash(s: &[u8], from: usize) -> (r: usize)
    requires
        from <= s@.len(),
    ensures
        r == slash_at(s@, from as int),
        from <= r <= s@.len(),
{
    let mut i: usize = from;
    while i < s.len() && s[i] != '/' as u8
        invariant
            from <= i <= s@.len(),
            slash_at(s@, from as int) == slash_at(s@, i as int),
        decreases s@.len() - i,
    {
        i = i + 1;
    }
    i
}

/// Reads a color.
pub fn parse_color(s: &[u8]) -> (r: Option<(u8, u8, u8)>)
    ensures
        r == color_in(s@),
{
    let n: usize = s.len();
    let (p, q, rgb): (usize, usize, bool) = if n == 7 && s[0] == '#' as u8 {
        (3, 5, false)
    } else if n >= 4 && s[0] == 'r' as u8 && s[1] == 'g' as u8 && s[2] == 'b' as u8 && s[3]
        == ':' as u8 {
        let p: usize = find_slash(s, 4);
        if p >= n {
            return None;
        }
        let q: usize = find_slash(s, p + 1);
        if q >= n {
            return None;
        }
        (p, q, true)
    } else {
        return None;
    };
    let red = if rgb {
        read_channel(s, 4, p)
    } else {
        read_channel(s, 1, 3)
    };
    let green = if rgb {
        read_channel(s, p + 1, q)
    } else {
        read_channel(s, 3, 5)
    };
    let blue = if rgb {
        read_channel(s, q + 1, n)
    } else {
        read_channel(s, 5, 7)
    };
    proof {
        if rgb {
            assert(s@.subrange(q + 1, n as int) =~= s@.skip(q + 1));
        }
    }
    match (red, green, blue) {
        (Some(r), Some(g), Some(b)) => Some((r, g, b)),
        _ => None,
    }
}

// The commands.

/// The parts of a command.
pub open spec fn parts(v: Seq<Vec<u8>>) -> Seq<Seq<u8>> {
    Seq::new(v.len(), |i: int| v[i]@)
}

/// Parts in a row, with the semicolons between them.
pub open spec fn rejoined(ps: Seq<Seq<u8>>) -> Seq<u8>
    decreases ps.len(),
{
    if ps.len() == 0 {
        Seq::empty()
    } else if ps.len() == 1 {
        ps[0]
    } else {
        rejoined(ps.drop_last()).push(';' as u8) + ps.last()
    }
}

/// The number of a command, of one to three digits.
pub open spec fn selector(s: Seq<u8>) -> Option<nat> {
    if 1 <= s.len() <= 3 && (forall|i: int|
        0 <= i < s.len() ==> '0' as u8 <= #[trigger] s[i] <= '9' as u8) {
        Some(decimal(s))
    } else {
        None
    }
}

/// The number that decimal digits spell.
pub open spec fn decimal(s: Seq<u8>) -> nat
    decreases s.len(),
{
    if s.len() == 0 {
        0
    } else {
        decimal(s.drop_last()) * 10 + (s.last() - '0' as u8) as nat
    }
}

impl<T> ScreenModel<T> {
    /// The screen after a default color was set, asked for or left alone.
    pub open spec fn color_set(self, background: bool, ps: Seq<Seq<u8>>) -> Option<ScreenModel<T>> {
        if ps.len() != 2 {
            None
        } else if ps[1] == seq!['?' as u8] {
            Some(self)
        } else if color_in(ps[1]) is Some {
            if background {
                Some(ScreenModel { default_bg: color_in(ps[1]), ..self })
            } else {
                Some(ScreenModel { default_fg: color_in(ps[1]), ..self })
            }
        } else {
            None
        }
    }

    /// The screen after a hyperlink began or ended.
    pub open spec fn linked(self, uri: Seq<u8>) -> ScreenModel<T> {
        if uri.len() == 0 {
            ScreenModel { attrs: Attrs { link: None, ..self.attrs }, ..self }
        } else {
            self.link_opened(utf8_lossy(uri))
        }
    }

    /// The screen after an operating system command, if it is known.
    pub open spec fn commanded(self, ps: Seq<Seq<u8>>) -> Option<ScreenModel<T>> {
        if ps.len() == 0 {
            None
        } else if selector(ps[0]) == Some(0nat) || selector(ps[0]) == Some(2nat) {
            if ps.len() >= 2 {
                Some(ScreenModel { title: utf8_lossy(rejoined(ps.skip(1))), ..self })
            } else {
                None
            }
        } else if selector(ps[0]) == Some(1nat) {
            Some(self)
        } else if selector(ps[0]) == Some(8nat) {
            if ps.len() >= 3 {
                Some(self.linked(rejoined(ps.skip(2))))
            } else {
                None
            }
        } else if selector(ps[0]) == Some(10nat) {
            self.color_set(false, ps)
        } else if selector(ps[0]) == Some(11nat) {
            self.color_set(true, ps)
        } else if selector(ps[0]) == Some(110nat) {
            Some(ScreenModel { default_fg: None, ..self })
        } else if selector(ps[0]) == Some(111nat) {
            Some(ScreenModel { default_bg: None, ..self })
        } else {
            None
        }
    }
}

fn read_selector(s: &[u8]) -> (r: Option<u32>)
    ensures
        r is Some <==> selector(s@) is Some,
        r is Some ==> r->Some_0 == selector(s@)->Some_0,
{
    let n: usize = s.len();
    if n == 0 || n > 3 {
        return None;
    }
    let mut value: u32 = 0;
    proof {
        assert(s@.take(0) =~= Seq::empty());
    }
    for i in 0..n
        invariant
            n == s@.len(),
            1 <= n <= 3,
            value == decimal(s@.take(i as int)),
            i == 0 ==> value == 0,
            i == 1 ==> value <= 9,
            i == 2 ==> value <= 99,
            value <= 999,
            forall|k: int| 0 <= k < i ==> '0' as u8 <= #[trigger] s@[k] <= '9' as u8,
    {
        let b: u8 = s[i];
        proof {
            assert(s@.take(i + 1).drop_last() =~= s@.take(i as int));
            assert(s@.take(i + 1).last() == b);
        }
        if !('0' as u8 <= b && b <= '9' as u8) {
            return None;
        }
        value = value * 10 + (b - '0' as u8) as u32;
    }
    proof {
        assert(s@.take(n as int) =~= s@);
    }
    Some(value)
}

fn rejoin(params: &Vec<Vec<u8>>, from: usize) -> (r: Vec<u8>)
    requires
        from <= params@.len(),
    ensures
        r@ == rejoined(parts(params@).skip(from as int)),
{
    let ghost ps = parts(params@).skip(from as int);
    let mut r: Vec<u8> = Vec::new();
    let mut i: usize = from;
    proof {
        assert(ps.take(0) =~= Seq::empty());
    }
    while i < params.len()
        invariant
            from <= i <= params@.len(),
            ps == parts(params@).skip(from as int),
            r@ == rejoined(ps.take(i - from)),
        decreases params@.len() - i,
    {
        let part = &params[i];
        proof {
            let k = i - from;
            assert(ps[k] == part@);
            assert(ps.take(k + 1).drop_last() =~= ps.take(k));
            assert(ps.take(k + 1).last() == part@);
            if k == 0 {
                assert(ps.take(1)[0] == part@);
                assert(rejoined(ps.take(0)) =~= Seq::empty());
            }
        }
        let ghost before = r@;
        if i > from {
            r.push(';' as u8);
        }
        let ghost parted = r@;
        for j in 0..part.len()
            invariant
                r@ =~= parted + part@.take(j as int),
        {
            r.push(part[j]);
        }
        proof {
            assert(part@.take(part@.len() as int) =~= part@);
            assert(r@ =~= rejoined(ps.take(i - from + 1)));
        }
        i = i + 1;
    }
    proof {
        assert(ps.take(ps.len() as int) =~= ps);
    }
    r
}

impl<T> Screen<T> {
    fn set_color(&mut self, background: bool, params: &Vec<Vec<u8>>) -> (unhandled: bool)
        requires
            old(self)@.wf(),
        ensures
            unhandled == (old(self)@.color_set(background, parts(params@)) is None),
            final(self)@ == if unhandled {
                old(self)@
            } else {
                old(self)@.color_set(background, parts(params@))->Some_0
            },
            final(self)@.wf(),
    {
        if params.len() != 2 {
            return true;
        }
        let value = params[1].as_slice();
        proof {
            assert(parts(params@)[1] == value@);
            if value@.len() == 1 && value@[0] == '?' as u8 {
                assert(value@ =~= seq!['?' as u8]);
            }
        }
        if value.len() == 1 && value[0] == '?' as u8 {
            return false;
        }
        match parse_color(value) {
            Some(c) => {
                if background {
                    self.set_default_bg(Some(c));
                } else {
                    self.set_default_fg(Some(c));
                }
                false
            },
            None => true,
        }
    }

    /// An operating system command: its parts, which semicolons separate. Returns whether it is not
    /// known.
    pub fn osc(&mut self, params: &Vec<Vec<u8>>) -> (unhandled: bool)
        requires
            old(self)@.wf(),
        ensures
            unhandled == (old(self)@.commanded(parts(params@)) is None),
            final(self)@ == if unhandled {
                old(self)@
            } else {
                old(self)@.commanded(parts(params@))->Some_0
            },
            final(self)@.wf(),
    {
        if params.len() == 0 {
            return true;
        }
        proof {
            assert(parts(params@)[0] == params@[0]@);
        }
        let which = match read_selector(params[0].as_slice()) {
            Some(n) => n,
            None => {
                return true;
            },
        };
        match which {
            0 | 2 => {
                if params.len() < 2 {
                    return true;
                }
                let title = rejoin(params, 1);
                self.set_title(title.as_slice());
                false
            },
            1 => false,
            8 => {
                if params.len() < 3 {
                    return true;
                }
                let uri = rejoin(params, 2);
                if uri.len() == 0 {
                    self.link_close();
                } else {
                    self.link_open(uri.as_slice());
                }
                false
            },
            10 => self.set_color(false, params),
            11 => self.set_color(true, params),
            110 => {
                self.set_default_fg(None);
                false
            },
            111 => {
                self.set_default_bg(None);
                false
            },
            _ => true,
        }
    }
}

} // verus!
