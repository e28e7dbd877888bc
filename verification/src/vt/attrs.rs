//! Drawing attributes of a cell.
use vstd::prelude::*;

verus! {

/// A foreground, background or underline colour.
#[derive(Clone, Copy, Debug, PartialEq, Eq, Structural)]
pub enum Color {
    /// The terminal's own default.
    Default,
    /// An entry of the 256-colour palette.
    Idx(u8),
    /// A direct colour: red, green, blue.
    Rgb(u8, u8, u8),
}

/// How heavy a glyph is drawn. Bold and dim exclude each other.
#[derive(Clone, Copy, Debug, PartialEq, Eq, Structural)]
pub enum Intensity {
    Normal,
    Bold,
    Dim,
}

/// How text is underlined.
#[derive(Clone, Copy, Debug, PartialEq, Eq, Structural)]
pub enum Underline {
    Off,
    Single,
    Double,
    Curly,
    Dotted,
    Dashed,
}

impl Underline {
    /// The number of a style, from 0 to 5.
    pub open spec fn number_spec(self) -> u8 {
        match self {
            Underline::Off => 0,
            Underline::Single => 1,
            Underline::Double => 2,
            Underline::Curly => 3,
            Underline::Dotted => 4,
            Underline::Dashed => 5,
        }
    }

    /// The number of a style, from 0 to 5.
    pub fn number(self) -> (r: u8)
        ensures
            r == self.number_spec(),
            r <= 5,
    {
        match self {
            Underline::Off => 0,
            Underline::Single => 1,
            Underline::Double => 2,
            Underline::Curly => 3,
            Underline::Dotted => 4,
            Underline::Dashed => 5,
        }
    }

    /// The style that a number up to 5 stands for.
    pub open spec fn from_number_spec(n: u16) -> Underline {
        if n == 0 {
            Underline::Off
        } else if n == 1 {
            Underline::Single
        } else if n == 2 {
            Underline::Double
        } else if n == 3 {
            Underline::Curly
        } else if n == 4 {
            Underline::Dotted
        } else {
            Underline::Dashed
        }
    }

    /// The style that a number up to 5 stands for.
    pub fn from_number(n: u16) -> (r: Underline)
        requires
            n <= 5,
        ensures
            r == Underline::from_number_spec(n),
            r.number_spec() == n,
    {
        match n {
            0 => Underline::Off,
            1 => Underline::Single,
            2 => Underline::Double,
            3 => Underline::Curly,
            4 => Underline::Dotted,
            _ => Underline::Dashed,
        }
    }
}

/// The attributes that newly drawn text takes on.
#[derive(Clone, Copy, Debug, PartialEq, Eq, Structural)]
pub struct Attrs {
    pub fgcolor: Color,
    pub bgcolor: Color,
    /// The underline's own colour; `Default` follows the foreground.
    pub ulcolor: Color,
    /// The id of the hyperlink the text belongs to. Ids start at 1.
    pub link: Option<u32>,
    pub intensity: Intensity,
    pub italic: bool,
    pub underline: Underline,
    pub inverse: bool,
    pub strikethrough: bool,
    pub concealed: bool,
    pub blink: bool,
}

impl Attrs {
    /// Every attribute off, every colour the default, no hyperlink.
    pub open spec fn plain() -> Attrs {
        Attrs {
            fgcolor: Color::Default,
            bgcolor: Color::Default,
            ulcolor: Color::Default,
            link: None,
            intensity: Intensity::Normal,
            italic: false,
            underline: Underline::Off,
            inverse: false,
            strikethrough: false,
            concealed: false,
            blink: false,
        }
    }

    /// Everything back to plain but the hyperlink, which only its own close ends.
    pub open spec fn reset_spec(self) -> Attrs {
        Attrs { link: self.link, ..Attrs::plain() }
    }

    pub fn reset(&mut self)
        ensures
            *final(self) == old(self).reset_spec(),
    {
        let link = self.link;
        *self = Attrs { link, ..Attrs::default() };
    }

    /// Whether text is drawn bold.
    pub fn bold(&self) -> (r: bool)
        ensures
            r == (self.intensity == Intensity::Bold),
    {
        self.intensity == Intensity::Bold
    }

    /// Whether text is drawn dim.
    pub fn dim(&self) -> (r: bool)
        ensures
            r == (self.intensity == Intensity::Dim),
    {
        self.intensity == Intensity::Dim
    }

    /// Whether text is underlined, in any style.
    pub fn underlined(&self) -> (r: bool)
        ensures
            r == (self.underline != Underline::Off),
    {
        self.underline != Underline::Off
    }
}

impl Default for Attrs {
    fn default() -> (r: Attrs)
        ensures
            r == Attrs::plain(),
    {
        Attrs {
            fgcolor: Color::Default,
            bgcolor: Color::Default,
            ulcolor: Color::Default,
            link: None,
            intensity: Intensity::Normal,
            italic: false,
            underline: Underline::Off,
            inverse: false,
            strikethrough: false,
            concealed: false,
            blink: false,
        }
    }
}

} // verus!
