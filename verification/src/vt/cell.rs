//! One cell of a grid.
use vstd::prelude::*;

use crate::vt::attrs::Attrs;

verus! {

/// The number of UTF-8 bytes from which on a cell takes no further combining
/// characters.
pub const CELL_TEXT_LIMIT: usize = 18;

/// The number of columns that `unicode_width` gives a character beyond ASCII.
pub uninterp spec fn glyph_width(c: char) -> usize;

/// Whether a character is a control character.
pub open spec fn is_control(c: char) -> bool {
    (c as u32) < 0x20 || 0x7f <= (c as u32) < 0xa0
}

/// The number of columns of a character, `None` for a control character. Printable ASCII has one.
pub open spec fn display_width(c: char) -> Option<usize> {
    if is_control(c) {
        None
    } else if (c as u32) < 0x7f {
        Some(1usize)
    } else {
        Some(glyph_width(c))
    }
}

/// Calls `unicode_width::UnicodeWidthChar::width`. Exactly the C0 and C1 control characters and
/// DEL have no width, the rest of ASCII has one column, the width of any other character depends
/// on that character alone, and none has more than three.
#[verifier::external_body]
pub(crate) fn char_width(c: char) -> (r: Option<usize>)
    ensures
        r == display_width(c),
        (c as u32) >= 0xa0 ==> r == Some(glyph_width(c)),
        r is Some ==> r->Some_0 <= 3,
{
    unicode_width::UnicodeWidthChar::width(c)
}

/// Whether a cell holds a whole character or one half of a wide one.
#[derive(Clone, Copy, Debug, PartialEq, Eq, Structural)]
pub enum Half {
    Whole,
    Left,
    Right,
}

/// What a cell holds, mathematically.
pub struct CellModel<T> {
    pub text: Seq<char>,
    pub half: Half,
    pub attrs: Attrs,
    pub data: Option<T>,
}

impl<T> CellModel<T> {
    /// Whether this is the left half of a wide character, which holds its text.
    pub open spec fn wide(self) -> bool {
        self.half == Half::Left
    }

    /// Whether this is the right half of a wide character.
    pub open spec fn cont(self) -> bool {
        self.half == Half::Right
    }

    /// An empty cell with the given attributes.
    pub open spec fn blank(attrs: Attrs) -> CellModel<T> {
        CellModel { text: Seq::empty(), half: Half::Whole, attrs, data: None }
    }

    /// A cell that shows `c`.
    pub open spec fn drawn(c: char, attrs: Attrs) -> CellModel<T> {
        CellModel {
            text: seq![c],
            half: if columns(c) > 1 {
                Half::Left
            } else {
                Half::Whole
            },
            attrs,
            data: None,
        }
    }

    /// A cell that shows a space.
    pub open spec fn space(attrs: Attrs) -> CellModel<T> {
        CellModel { text: seq![' '], half: Half::Whole, attrs, data: None }
    }

    /// The same cell with another data slot.
    pub open spec fn with_data(self, data: Option<T>) -> CellModel<T> {
        CellModel { data, ..self }
    }

    /// The right half of a wide character.
    pub open spec fn right_half() -> CellModel<T> {
        CellModel { half: Half::Right, ..CellModel::blank(Attrs::plain()) }
    }

    /// The cell with `c` combined onto what it shows. An empty cell combines onto a
    /// space; a cell that is full stays as it is.
    pub open spec fn combined(self, c: char) -> CellModel<T> {
        if vstd::utf8::encode_utf8(self.text).len() >= CELL_TEXT_LIMIT {
            self
        } else if self.text.len() == 0 {
            CellModel { text: seq![' ', c], ..self }
        } else {
            CellModel { text: self.text.push(c), ..self }
        }
    }

    /// Whether two cells look the same. The data slot is not part of the look.
    pub open spec fn looks_like(self, other: CellModel<T>) -> bool {
        self.text == other.text && self.half == other.half && self.attrs == other.attrs
    }
}

/// The number of columns a character is drawn in.
pub open spec fn columns(c: char) -> int {
    match display_width(c) {
        Some(w) => w as int,
        None => 1,
    }
}

/// One cell of the terminal. A wide character takes two cells: the left one holds
/// the text, the right one is its continuation.
pub struct Cell<T> {
    text: String,
    half: Half,
    attrs: Attrs,
    data: Option<T>,
}

impl<T> View for Cell<T> {
    type V = CellModel<T>;

    closed spec fn view(&self) -> CellModel<T> {
        CellModel {
            text: self.text@,
            half: self.half,
            attrs: self.attrs,
            data: self.data,
        }
    }
}

impl<T> Cell<T> {
    /// An empty cell.
    pub fn new() -> (r: Cell<T>)
        ensures
            r@ == CellModel::<T>::blank(Attrs::plain()),
    {
        Cell {
            text: String::new(),
            half: Half::Whole,
            attrs: Attrs::default(),
            data: None,
        }
    }

    /// Overwrites the cell with one character. Its data slot is emptied.
    pub fn set(&mut self, c: char, attrs: Attrs)
        ensures
            final(self)@ == CellModel::<T>::drawn(c, attrs),
            c == ' ' ==> final(self)@ == CellModel::<T>::space(attrs),
    {
        let mut text: String = String::new();
        text.push(c);
        proof {
            assert(text@ =~= seq![c]);
        }
        self.text = text;
        self.half = match char_width(c) {
            Some(w) if w > 1 => Half::Left,
            _ => Half::Whole,
        };
        self.attrs = attrs;
        self.data = None;
    }

    /// Combines a zero-width character onto the cell.
    pub fn append(&mut self, c: char)
        ensures
            final(self)@ == old(self)@.combined(c),
    {
        if self.text.as_str().as_bytes().len() >= CELL_TEXT_LIMIT {
            return;
        }
        if self.text.as_str().is_empty() {
            self.text.push(' ');
        }
        self.text.push(c);
        proof {
            assert(self@ == old(self)@.combined(c)) by {
                if old(self)@.text.len() == 0 {
                    assert(self.text@ =~= seq![' ', c]);
                }
            }
        }
    }

    /// Empties the cell, data slot included.
    pub fn clear(&mut self, attrs: Attrs)
        ensures
            final(self)@ == CellModel::<T>::blank(attrs),
    {
        self.text = String::new();
        self.half = Half::Whole;
        self.attrs = attrs;
        self.data = None;
    }

    /// Makes the cell the right half of a wide character, or no longer.
    pub fn set_wide_continuation(&mut self, cont: bool)
        ensures
            final(self)@ == (CellModel {
                half: if cont {
                    Half::Right
                } else {
                    Half::Whole
                },
                ..old(self)@
            }),
    {
        self.half = if cont {
            Half::Right
        } else {
            Half::Whole
        };
    }

    /// Fills or empties the data slot; the look of the cell stays.
    pub fn set_data(&mut self, data: Option<T>)
        ensures
            final(self)@ == old(self)@.with_data(data),
    {
        self.data = data;
    }

    /// The text the cell shows: one character and what combines with it, or nothing.
    pub fn contents(&self) -> (r: &str)
        ensures
            r@ == self@.text,
    {
        self.text.as_str()
    }

    pub fn has_contents(&self) -> (r: bool)
        ensures
            r == (self@.text.len() > 0),
    {
        !self.text.as_str().is_empty()
    }

    /// Whether the cell is the left half of a wide character.
    pub fn is_wide(&self) -> (r: bool)
        ensures
            r == self@.wide(),
    {
        self.half == Half::Left
    }

    /// Whether the cell is the right half of a wide character.
    pub fn is_wide_continuation(&self) -> (r: bool)
        ensures
            r == self@.cont(),
    {
        self.half == Half::Right
    }

    pub fn attrs(&self) -> (r: Attrs)
        ensures
            r == self@.attrs,
    {
        self.attrs
    }

    /// What the data slot holds.
    pub fn data(&self) -> (r: Option<&T>)
        ensures
            self@.data is Some <==> r is Some,
            r is Some ==> *r->Some_0 == self@.data->Some_0,
    {
        self.data.as_ref()
    }

    /// The id of the hyperlink the cell belongs to.
    pub fn link(&self) -> (r: Option<u32>)
        ensures
            r == self@.attrs.link,
    {
        self.attrs.link
    }

    /// Compares two cells by their look.
    pub fn looks_like(&self, other: &Cell<T>) -> (r: bool)
        ensures
            r == self@.looks_like(other@),
    {
        self.text == other.text && self.half == other.half && self.attrs == other.attrs
    }
}

} // verus!
