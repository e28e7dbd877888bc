//! Select graphic rendition: how its parameters change the drawing attributes.
use vstd::prelude::*;

use crate::vt::attrs::{Attrs, Color, Intensity, Underline};

verus! {

/// The parameters of a control sequence: groups separated by `;`, each a list of
/// subparameters separated by `:`.
pub open spec fn groups(params: Seq<Vec<u16>>) -> Seq<Seq<u16>> {
    Seq::new(params.len(), |i: int| params[i]@)
}

/// Which of a cell's three colours a colour code sets.
#[derive(Clone, Copy, Debug, PartialEq, Eq, Structural)]
pub enum Layer {
    Foreground,
    Background,
    Underline,
}

impl Layer {
    /// The layer that an extended colour code names.
    pub open spec fn of_spec(code: u16) -> Option<Layer> {
        if code == 38 {
            Some(Layer::Foreground)
        } else if code == 48 {
            Some(Layer::Background)
        } else if code == 58 {
            Some(Layer::Underline)
        } else {
            None
        }
    }

    fn of(code: u16) -> (r: Option<Layer>)
        ensures
            r == Layer::of_spec(code),
    {
        if code == 38 {
            Some(Layer::Foreground)
        } else if code == 48 {
            Some(Layer::Background)
        } else if code == 58 {
            Some(Layer::Underline)
        } else {
            None
        }
    }
}

impl Attrs {
    pub open spec fn with_color(self, layer: Layer, color: Color) -> Attrs {
        match layer {
            Layer::Foreground => Attrs { fgcolor: color, ..self },
            Layer::Background => Attrs { bgcolor: color, ..self },
            Layer::Underline => Attrs { ulcolor: color, ..self },
        }
    }

    fn set_color(&mut self, layer: Layer, color: Color)
        ensures
            *final(self) == old(self).with_color(layer, color),
    {
        match layer {
            Layer::Foreground => {
                self.fgcolor = color;
            },
            Layer::Background => {
                self.bgcolor = color;
            },
            Layer::Underline => {
                self.ulcolor = color;
            },
        }
    }

    /// The attributes after a code that stands alone, `None` for one without a meaning
    /// of its own.
    pub open spec fn after_code(self, code: u16) -> Option<Attrs> {
        if code == 0 {
            Some(self.reset_spec())
        } else if code == 1 {
            Some(Attrs { intensity: Intensity::Bold, ..self })
        } else if code == 2 {
            Some(Attrs { intensity: Intensity::Dim, ..self })
        } else if code == 3 {
            Some(Attrs { italic: true, ..self })
        } else if code == 4 {
            Some(Attrs { underline: Underline::Single, ..self })
        } else if code == 5 || code == 6 {
            Some(Attrs { blink: true, ..self })
        } else if code == 7 {
            Some(Attrs { inverse: true, ..self })
        } else if code == 8 {
            Some(Attrs { concealed: true, ..self })
        } else if code == 9 {
            Some(Attrs { strikethrough: true, ..self })
        } else if code == 21 {
            Some(Attrs { underline: Underline::Double, ..self })
        } else if code == 22 {
            Some(Attrs { intensity: Intensity::Normal, ..self })
        } else if code == 23 {
            Some(Attrs { italic: false, ..self })
        } else if code == 24 {
            Some(Attrs { underline: Underline::Off, ..self })
        } else if code == 25 {
            Some(Attrs { blink: false, ..self })
        } else if code == 27 {
            Some(Attrs { inverse: false, ..self })
        } else if code == 28 {
            Some(Attrs { concealed: false, ..self })
        } else if code == 29 {
            Some(Attrs { strikethrough: false, ..self })
        } else if 30 <= code <= 37 {
            Some(Attrs { fgcolor: Color::Idx((code - 30) as u8), ..self })
        } else if code == 39 {
            Some(Attrs { fgcolor: Color::Default, ..self })
        } else if 40 <= code <= 47 {
            Some(Attrs { bgcolor: Color::Idx((code - 40) as u8), ..self })
        } else if code == 49 {
            Some(Attrs { bgcolor: Color::Default, ..self })
        } else if code == 59 {
            Some(Attrs { ulcolor: Color::Default, ..self })
        } else if 90 <= code <= 97 {
            Some(Attrs { fgcolor: Color::Idx((code - 82) as u8), ..self })
        } else if 100 <= code <= 107 {
            Some(Attrs { bgcolor: Color::Idx((code - 92) as u8), ..self })
        } else {
            None
        }
    }

    /// Applies a code that stands alone. Returns whether it has a meaning.
    fn apply_code(&mut self, code: u16) -> (known: bool)
        ensures
            known == (old(self).after_code(code) is Some),
            known ==> *final(self) == old(self).after_code(code)->Some_0,
            !known ==> *final(self) == *old(self),
    {
        match code {
            0 => self.reset(),
            1 => {
                self.intensity = Intensity::Bold;
            },
            2 => {
                self.intensity = Intensity::Dim;
            },
            3 => {
                self.italic = true;
            },
            4 => {
                self.underline = Underline::Single;
            },
            5 | 6 => {
                self.blink = true;
            },
            7 => {
                self.inverse = true;
            },
            8 => {
                self.concealed = true;
            },
            9 => {
                self.strikethrough = true;
            },
            21 => {
                self.underline = Underline::Double;
            },
            22 => {
                self.intensity = Intensity::Normal;
            },
            23 => {
                self.italic = false;
            },
            24 => {
                self.underline = Underline::Off;
            },
            25 => {
                self.blink = false;
            },
            27 => {
                self.inverse = false;
            },
            28 => {
                self.concealed = false;
            },
            29 => {
                self.strikethrough = false;
            },
            30..=37 => {
                self.fgcolor = Color::Idx((code - 30) as u8);
            },
            39 => {
                self.fgcolor = Color::Default;
            },
            40..=47 => {
                self.bgcolor = Color::Idx((code - 40) as u8);
            },
            49 => {
                self.bgcolor = Color::Default;
            },
            59 => {
                self.ulcolor = Color::Default;
            },
            90..=97 => {
                self.fgcolor = Color::Idx((code - 82) as u8);
            },
            100..=107 => {
                self.bgcolor = Color::Idx((code - 92) as u8);
            },
            _ => {
                return false;
            },
        }
        true
    }

    /// The attributes after the parameter groups from `i` on, and how many groups had no
    /// meaning. A colour may be spelled in one group (`38:5:n`, `38:2:r:g:b`,
    /// `38:2::r:g:b`) or over several (`38;5;n`, `38;2;r;g;b`). One that breaks off, or
    /// holds a number over 255, ends the sequence.
    pub open spec fn after_groups(self, ps: Seq<Seq<u16>>, i: int) -> (Attrs, nat)
        decreases ps.len() - i,
    {
        if i < 0 || i >= ps.len() {
            (self, 0)
        } else if ps[i].len() == 1 && Layer::of_spec(ps[i][0]) is Some {
            let layer = Layer::of_spec(ps[i][0])->Some_0;
            if i + 1 >= ps.len() {
                (self, 0)
            } else if ps[i + 1] =~= seq![2u16] {
                if byte_at(ps, i + 2) is Some && byte_at(ps, i + 3) is Some && byte_at(
                    ps,
                    i + 4,
                ) is Some {
                    self.with_color(
                        layer,
                        Color::Rgb(
                            byte_at(ps, i + 2)->Some_0,
                            byte_at(ps, i + 3)->Some_0,
                            byte_at(ps, i + 4)->Some_0,
                        ),
                    ).after_groups(ps, i + 5)
                } else {
                    (self, 0)
                }
            } else if ps[i + 1] =~= seq![5u16] {
                if byte_at(ps, i + 2) is Some {
                    self.with_color(
                        layer,
                        Color::Idx(byte_at(ps, i + 2)->Some_0),
                    ).after_groups(ps, i + 3)
                } else {
                    (self, 0)
                }
            } else {
                (self, 1)
            }
        } else if is_color_group(ps[i]) {
            match group_color(ps[i]) {
                Some(color) => self.with_color(
                    Layer::of_spec(ps[i][0])->Some_0,
                    color,
                ).after_groups(ps, i + 1),
                None => (self, 0),
            }
        } else if ps[i].len() == 2 && ps[i][0] == 4 && ps[i][1] <= 5 {
            Attrs { underline: Underline::from_number_spec(ps[i][1]), ..self }.after_groups(ps, i + 1)
        } else if ps[i].len() == 1 && self.after_code(ps[i][0]) is Some {
            self.after_code(ps[i][0])->Some_0.after_groups(ps, i + 1)
        } else {
            let rest = self.after_groups(ps, i + 1);
            (rest.0, rest.1 + 1)
        }
    }

    /// The attributes after a whole sequence. Without parameters it is a reset.
    pub open spec fn after_sgr(self, ps: Seq<Seq<u16>>) -> (Attrs, nat) {
        if ps.len() == 0 {
            (self.reset_spec(), 0)
        } else {
            self.after_groups(ps, 0)
        }
    }

    /// Applies select graphic rendition. Returns how many groups had no meaning.
    pub fn sgr(&mut self, params: &Vec<Vec<u16>>) -> (unhandled: usize)
        ensures
            (*final(self), unhandled as nat) == old(self).after_sgr(groups(params@)),
    {
        if params.len() == 0 {
            self.reset();
            return 0;
        }
        let ghost ps = groups(params@);
        let mut i: usize = 0;
        let mut unhandled: usize = 0;
        while i < params.len()
            invariant
                ps == groups(params@),
                ps.len() > 0,
                i <= params@.len(),
                unhandled <= i,
                old(self).after_sgr(ps).0 == self.after_groups(ps, i as int).0,
                old(self).after_sgr(ps).1 == self.after_groups(ps, i as int).1 + unhandled,
            decreases params.len() - i,
        {
            let p: &Vec<u16> = &params[i];
            proof {
                assert(ps[i as int] == p@);
            }
            let layer = if p.len() > 0 {
                Layer::of(p[0])
            } else {
                None
            };
            if let Some(layer) = layer {
                if p.len() == 1 {
                    if i + 1 >= params.len() {
                        return unhandled;
                    }
                    let kind: &Vec<u16> = &params[i + 1];
                    proof {
                        assert(ps[i + 1] == kind@);
                    }
                    if kind.len() == 1 && kind[0] == 2 {
                        proof {
                            assert(kind@ =~= seq![2u16]);
                        }
                        let r = byte_param(params, i, 2);
                        let g = byte_param(params, i, 3);
                        let b = byte_param(params, i, 4);
                        if let (Some(r), Some(g), Some(b)) = (r, g, b) {
                            self.set_color(layer, Color::Rgb(r, g, b));
                            i = i + 5;
                        } else {
                            return unhandled;
                        }
                    } else if kind.len() == 1 && kind[0] == 5 {
                        proof {
                            assert(kind@ =~= seq![5u16]);
                            assert(!(kind@ =~= seq![2u16])) by {
                                assert(kind@[0] != seq![2u16][0]);
                            }
                        }
                        if let Some(n) = byte_param(params, i, 2) {
                            self.set_color(layer, Color::Idx(n));
                            i = i + 3;
                        } else {
                            return unhandled;
                        }
                    } else {
                        return unhandled + 1;
                    }
                    continue;
                }
                if (p.len() == 3 && p[1] == 5) || ((p.len() == 5 || p.len() == 6) && p[1] == 2) {
                    if let Some(color) = parse_group_color(p) {
                        self.set_color(layer, color);
                        i = i + 1;
                        continue;
                    }
                    return unhandled;
                }
            }
            let known: bool = if p.len() == 2 && p[0] == 4 && p[1] <= 5 {
                self.underline = Underline::from_number(p[1]);
                true
            } else if p.len() == 1 {
                self.apply_code(p[0])
            } else {
                false
            };
            if !known {
                unhandled = unhandled + 1;
            }
            i = i + 1;
        }
        unhandled
    }
}

/// The group at `i`, if it is one number that fits a byte.
pub open spec fn byte_at(ps: Seq<Seq<u16>>, i: int) -> Option<u8> {
    if 0 <= i < ps.len() && ps[i].len() == 1 && ps[i][0] <= 255 {
        Some(ps[i][0] as u8)
    } else {
        None
    }
}

fn byte_param(params: &Vec<Vec<u16>>, i: usize, ahead: usize) -> (r: Option<u8>)
    requires
        i <= params.len(),
    ensures
        r == byte_at(groups(params@), i + ahead),
{
    if ahead < params.len() - i {
        let p: &Vec<u16> = &params[i + ahead];
        if p.len() == 1 && p[0] <= 255 {
            return Some(p[0] as u8);
        }
    }
    None
}

/// Whether a group spells an extended colour by itself.
pub open spec fn is_color_group(p: Seq<u16>) -> bool {
    p.len() > 1 && Layer::of_spec(p[0]) is Some && ((p.len() == 3 && p[1] == 5) || ((p.len()
        == 5 || p.len() == 6) && p[1] == 2))
}

/// The colour that a group spells, `None` if one of its numbers is over 255.
pub open spec fn group_color(p: Seq<u16>) -> Option<Color> {
    let n = p.len();
    if n == 3 {
        if p[2] <= 255 {
            Some(Color::Idx(p[2] as u8))
        } else {
            None
        }
    } else if p[n - 3] <= 255 && p[n - 2] <= 255 && p[n - 1] <= 255 {
        Some(Color::Rgb(p[n - 3] as u8, p[n - 2] as u8, p[n - 1] as u8))
    } else {
        None
    }
}

fn parse_group_color(p: &Vec<u16>) -> (r: Option<Color>)
    requires
        p.len() == 3 || p.len() == 5 || p.len() == 6,
    ensures
        r == group_color(p@),
{
    let n: usize = p.len();
    if n == 3 {
        if p[2] <= 255 {
            Some(Color::Idx(p[2] as u8))
        } else {
            None
        }
    } else if p[n - 3] <= 255 && p[n - 2] <= 255 && p[n - 1] <= 255 {
        Some(Color::Rgb(p[n - 3] as u8, p[n - 2] as u8, p[n - 1] as u8))
    } else {
        None
    }
}

} // verus!
