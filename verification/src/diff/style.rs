//! Colours and cell styles on the wire.
use vstd::prelude::*;

use crate::json::{
    field, field_of_none, field_of_with_field, good_fields, good_object, good_with_field, json_models,
    member, member_of_object, no_fields_are_good, object, safe_fields, safe_object, safe_with_field, with_field, without_field, Fields, Json, JsonModel,
};
use crate::model::{CellStyle, Color};

verus! {

/// A colour on the wire: `null` for the default, a palette index, or `[r, g, b]`.
pub open spec fn color_json(c: Color) -> JsonModel {
    match c {
        Color::Default => JsonModel::Null,
        Color::Idx(i) => JsonModel::Uint(i as u64),
        Color::Rgb(r, g, b) => JsonModel::Arr(
            seq![
                JsonModel::Uint(r as u64),
                JsonModel::Uint(g as u64),
                JsonModel::Uint(b as u64),
            ],
        ),
    }
}

/// A number that fits a byte.
pub open spec fn read_byte(j: JsonModel) -> Option<u8> {
    match j {
        JsonModel::Uint(n) => if n <= 255 {
            Some(n as u8)
        } else {
            None
        },
        _ => None,
    }
}

/// The colour that a wire value stands for.
pub open spec fn read_color(j: JsonModel) -> Option<Color> {
    match j {
        JsonModel::Null => Some(Color::Default),
        JsonModel::Uint(_) => match read_byte(j) {
            Some(i) => Some(Color::Idx(i)),
            None => None,
        },
        JsonModel::Arr(s) => if s.len() == 3 && read_byte(s[0]) is Some && read_byte(
            s[1],
        ) is Some && read_byte(s[2]) is Some {
            Some(
                Color::Rgb(
                    read_byte(s[0])->Some_0,
                    read_byte(s[1])->Some_0,
                    read_byte(s[2])->Some_0,
                ),
            )
        } else {
            None
        },
        _ => None,
    }
}

/// Writes a colour.
pub fn encode_color(c: Color) -> (r: Json)
    ensures
        r.model() == color_json(c),
{
    match c {
        Color::Default => Json::null(),
        Color::Idx(i) => Json::uint(i as u64),
        Color::Rgb(r, g, b) => {
            let mut v: Vec<Json> = Vec::new();
            v.push(Json::uint(r as u64));
            v.push(Json::uint(g as u64));
            v.push(Json::uint(b as u64));
            proof {
                assert(json_models(v@) =~= color_json(c)->Arr_0);
            }
            Json::array(v)
        },
    }
}

pub fn decode_byte(j: &Json) -> (r: Option<u8>)
    ensures
        r == read_byte(j.model()),
{
    match j.as_uint() {
        Some(n) => if n <= 255 {
            Some(n as u8)
        } else {
            None
        },
        None => None,
    }
}

/// Reads a colour.
pub fn decode_color(j: &Json) -> (r: Option<Color>)
    ensures
        r == read_color(j.model()),
{
    if j.is_null() {
        return Some(Color::Default);
    }
    if let Some(v) = j.as_array() {
        if v.len() == 3 {
            proof {
                let s = json_models(v@);
                assert(s[0] == v@[0].model() && s[1] == v@[1].model() && s[2] == v@[2].model());
            }
            if let (Some(r), Some(g), Some(b)) = (
                decode_byte(&v[0]),
                decode_byte(&v[1]),
                decode_byte(&v[2]),
            ) {
                return Some(Color::Rgb(r, g, b));
            }
        }
        return None;
    }
    match decode_byte(j) {
        Some(i) => Some(Color::Idx(i)),
        None => None,
    }
}

/// The members of a style object, in their order. What is plain is left out.
pub open spec fn style_fields(s: CellStyle) -> Seq<(char, JsonModel)> {
    let one = JsonModel::Uint(1);
    let f = with_field(Seq::empty(), 'f', s.fg != Color::Default, color_json(s.fg));
    let f = with_field(f, 'g', s.bg != Color::Default, color_json(s.bg));
    let f = with_field(f, 'b', s.bold, one);
    let f = with_field(f, 'd', s.dim, one);
    let f = with_field(f, 'i', s.italic, one);
    let f = with_field(f, 'u', s.underline != 0, JsonModel::Uint(s.underline as u64));
    let f = with_field(f, 's', s.strike, one);
    let f = with_field(f, 'o', s.concealed, one);
    let f = with_field(f, 'x', s.blink, one);
    let f = with_field(f, 'k', s.ulcolor != Color::Default, color_json(s.ulcolor));
    let f = with_field(f, 'n', s.inverse, one);
    let f = with_field(f, 'a', s.link is Some, JsonModel::Uint(link_number(s.link)));
    with_field(f, 'w', s.wide, one)
}

/// The number of a link, if there is one.
pub open spec fn link_number(link: Option<u32>) -> u64 {
    match link {
        Some(id) => id as u64,
        None => 0,
    }
}

/// The members of a style that stand in a message's own object, behind the members `f` that
/// are there already.
pub open spec fn flat_fields(f: Seq<(char, JsonModel)>, s: CellStyle) -> Seq<(char, JsonModel)> {
    let one = JsonModel::Uint(1);
    let f = with_field(f, 'f', s.fg != Color::Default, color_json(s.fg));
    let f = with_field(f, 'g', s.bg != Color::Default, color_json(s.bg));
    let f = with_field(f, 'k', s.ulcolor != Color::Default, color_json(s.ulcolor));
    let f = with_field(f, 'u', s.underline != 0, JsonModel::Uint(s.underline as u64));
    let f = with_field(f, 'a', s.link is Some, JsonModel::Uint(link_number(s.link)));
    let f = with_field(f, 'b', s.bold, one);
    let f = with_field(f, 'd', s.dim, one);
    let f = with_field(f, 'i', s.italic, one);
    let f = with_field(f, 's', s.strike, one);
    let f = with_field(f, 'o', s.concealed, one);
    let f = with_field(f, 'x', s.blink, one);
    let f = with_field(f, 'n', s.inverse, one);
    with_field(f, 'w', s.wide, one)
}

fn add_when(f: Fields, key: char, present: bool, value: Json) -> (r: Fields)
    ensures
        r@ == with_field(f@, key, present, value.model()),
{
    if present {
        f.add_field(key, value)
    } else {
        proof {
            without_field(f@, key, value.model());
        }
        f
    }
}

fn link_value(link: Option<u32>) -> (r: u64)
    ensures
        r == link_number(link),
{
    match link {
        Some(id) => id as u64,
        None => 0,
    }
}

/// Writes a style as an object.
pub fn encode_style(s: &CellStyle) -> (r: Json)
    ensures
        r.model() == object(style_fields(*s)),
{
    let f = Fields::new();
    let f = add_when(f, 'f', s.fg != Color::Default, encode_color(s.fg));
    let f = add_when(f, 'g', s.bg != Color::Default, encode_color(s.bg));
    let f = add_when(f, 'b', s.bold, Json::uint(1));
    let f = add_when(f, 'd', s.dim, Json::uint(1));
    let f = add_when(f, 'i', s.italic, Json::uint(1));
    let f = add_when(f, 'u', s.underline != 0, Json::uint(s.underline as u64));
    let f = add_when(f, 's', s.strike, Json::uint(1));
    let f = add_when(f, 'o', s.concealed, Json::uint(1));
    let f = add_when(f, 'x', s.blink, Json::uint(1));
    let f = add_when(f, 'k', s.ulcolor != Color::Default, encode_color(s.ulcolor));
    let f = add_when(f, 'n', s.inverse, Json::uint(1));
    let f = add_when(f, 'a', s.link.is_some(), Json::uint(link_value(s.link)));
    let f = add_when(f, 'w', s.wide, Json::uint(1));
    f.into_object()
}

/// Writes a style into a message's own object.
pub fn flatten_into(f: Fields, s: &CellStyle) -> (r: Fields)
    ensures
        r@ == flat_fields(f@, *s),
{
    let f = add_when(f, 'f', s.fg != Color::Default, encode_color(s.fg));
    let f = add_when(f, 'g', s.bg != Color::Default, encode_color(s.bg));
    let f = add_when(f, 'k', s.ulcolor != Color::Default, encode_color(s.ulcolor));
    let f = add_when(f, 'u', s.underline != 0, Json::uint(s.underline as u64));
    let f = add_when(f, 'a', s.link.is_some(), Json::uint(link_value(s.link)));
    let f = add_when(f, 'b', s.bold, Json::uint(1));
    let f = add_when(f, 'd', s.dim, Json::uint(1));
    let f = add_when(f, 'i', s.italic, Json::uint(1));
    let f = add_when(f, 's', s.strike, Json::uint(1));
    let f = add_when(f, 'o', s.concealed, Json::uint(1));
    let f = add_when(f, 'x', s.blink, Json::uint(1));
    let f = add_when(f, 'n', s.inverse, Json::uint(1));
    add_when(f, 'w', s.wide, Json::uint(1))
}

// Reading.

/// The place and key of each part of a style. A style is an object with these members, or an
/// array with its parts in this order that may break off anywhere.
pub open spec fn style_part(j: JsonModel, place: int, key: char) -> Option<JsonModel> {
    match j {
        JsonModel::Obj(m) => member(m, key),
        JsonModel::Arr(s) => if place < s.len() {
            Some(s[place])
        } else {
            None
        },
        _ => None,
    }
}

/// A colour that may be missing.
pub open spec fn color_part(p: Option<JsonModel>) -> Option<Color> {
    match p {
        Some(j) => read_color(j),
        None => Some(Color::Default),
    }
}

/// A flag that may be missing: a number or a boolean.
pub open spec fn flag_part(p: Option<JsonModel>) -> Option<bool> {
    match p {
        Some(JsonModel::Uint(n)) => Some(n != 0),
        Some(JsonModel::Bool(b)) => Some(b),
        Some(_) => None,
        None => Some(false),
    }
}

/// An underline style that may be missing. A number without a meaning stands for a single
/// underline, and so does `true`.
pub open spec fn underline_part(p: Option<JsonModel>) -> Option<u8> {
    match p {
        Some(JsonModel::Uint(n)) => Some(
            if n > 5 {
                1
            } else {
                n as u8
            },
        ),
        Some(JsonModel::Bool(b)) => Some(
            if b {
                1
            } else {
                0
            },
        ),
        Some(_) => None,
        None => Some(0),
    }
}

/// A link id that may be missing.
pub open spec fn link_part(p: Option<JsonModel>) -> Option<Option<u32>> {
    match p {
        Some(JsonModel::Null) => Some(None),
        Some(JsonModel::Uint(n)) => if n <= u32::MAX {
            Some(Some(n as u32))
        } else {
            None
        },
        Some(_) => None,
        None => Some(None),
    }
}

/// The colour at a place of a style.
#[verifier::opaque]
pub open spec fn color_at(j: JsonModel, place: int, key: char) -> Option<Color> {
    color_part(style_part(j, place, key))
}

/// The flag at a place of a style.
#[verifier::opaque]
pub open spec fn flag_at(j: JsonModel, place: int, key: char) -> Option<bool> {
    flag_part(style_part(j, place, key))
}

/// The underline style at a place of a style.
#[verifier::opaque]
pub open spec fn underline_at(j: JsonModel, place: int, key: char) -> Option<u8> {
    underline_part(style_part(j, place, key))
}

/// The link at a place of a style.
#[verifier::opaque]
pub open spec fn link_at(j: JsonModel, place: int, key: char) -> Option<Option<u32>> {
    link_part(style_part(j, place, key))
}

/// The style that a wire value stands for, `None` where it stands for none.
pub open spec fn read_style(j: JsonModel) -> Option<CellStyle> {
    let fg = color_at(j, 0, 'f');
    let bg = color_at(j, 1, 'g');
    let bold = flag_at(j, 2, 'b');
    let dim = flag_at(j, 3, 'd');
    let italic = flag_at(j, 4, 'i');
    let underline = underline_at(j, 5, 'u');
    let strike = flag_at(j, 6, 's');
    let concealed = flag_at(j, 7, 'o');
    let blink = flag_at(j, 8, 'x');
    let ulcolor = color_at(j, 9, 'k');
    let inverse = flag_at(j, 10, 'n');
    let link = link_at(j, 11, 'a');
    let wide = flag_at(j, 12, 'w');
    let framed = j is Obj || (j is Arr && j->Arr_0.len() <= 13);
    if framed && fg is Some && bg is Some && bold is Some && dim is Some && italic is Some
        && underline is Some && strike is Some && concealed is Some && blink is Some
        && ulcolor is Some && inverse is Some && link is Some && wide is Some {
        Some(
            CellStyle {
                fg: fg->Some_0,
                bg: bg->Some_0,
                bold: bold->Some_0,
                dim: dim->Some_0,
                italic: italic->Some_0,
                underline: underline->Some_0,
                strike: strike->Some_0,
                concealed: concealed->Some_0,
                blink: blink->Some_0,
                ulcolor: ulcolor->Some_0,
                inverse: inverse->Some_0,
                link: link->Some_0,
                wide: wide->Some_0,
            },
        )
    } else {
        None
    }
}

fn part(j: &Json, place: usize, key: char) -> (r: Option<&Json>)
    ensures
        r is Some <==> style_part(j.model(), place as int, key) is Some,
        r is Some ==> style_part(j.model(), place as int, key) == Some((r->Some_0).model()),
{
    if let Some(v) = j.as_array() {
        if place < v.len() {
            proof {
                assert(json_models(v@)[place as int] == v@[place as int].model());
            }
            return Some(&v[place]);
        }
        return None;
    }
    j.get(key)
}

fn decode_color_at(j: &Json, place: usize, key: char) -> (r: Option<Color>)
    ensures
        r == color_at(j.model(), place as int, key),
{
    proof {
        reveal(color_at);
    }
    match part(j, place, key) {
        Some(j) => decode_color(j),
        None => Some(Color::Default),
    }
}

fn decode_flag_at(j: &Json, place: usize, key: char) -> (r: Option<bool>)
    ensures
        r == flag_at(j.model(), place as int, key),
{
    proof {
        reveal(flag_at);
    }
    match part(j, place, key) {
        Some(j) => {
            proof {
                j.model_of_kind();
            }
            match j {
                Json::Uint(n) => Some(*n != 0),
                Json::Bool(b) => Some(*b),
                _ => None,
            }
        },
        None => Some(false),
    }
}

fn decode_underline_at(j: &Json, place: usize, key: char) -> (r: Option<u8>)
    ensures
        r == underline_at(j.model(), place as int, key),
{
    proof {
        reveal(underline_at);
    }
    match part(j, place, key) {
        Some(j) => {
            proof {
                j.model_of_kind();
            }
            match j {
                Json::Uint(n) => Some(
                    if *n > 5 {
                        1
                    } else {
                        *n as u8
                    },
                ),
                Json::Bool(b) => Some(
                    if *b {
                        1
                    } else {
                        0
                    },
                ),
                _ => None,
            }
        },
        None => Some(0),
    }
}

fn decode_link_at(j: &Json, place: usize, key: char) -> (r: Option<Option<u32>>)
    ensures
        r == link_at(j.model(), place as int, key),
{
    proof {
        reveal(link_at);
    }
    match part(j, place, key) {
        Some(j) => {
            proof {
                j.model_of_kind();
            }
            match j {
                Json::Null => Some(None),
                Json::Uint(n) => if *n <= u32::MAX as u64 {
                    Some(Some(*n as u32))
                } else {
                    None
                },
                _ => None,
            }
        },
        None => Some(None),
    }
}

/// Reads a style.
pub fn decode_style(j: &Json) -> (r: Option<CellStyle>)
    ensures
        r == read_style(j.model()),
{
    let framed: bool = match j.as_array() {
        Some(v) => v.len() <= 13,
        None => j.as_object().is_some(),
    };
    if !framed {
        return None;
    }
    let fg = match decode_color_at(j, 0, 'f') {
        Some(c) => c,
        None => return None,
    };
    let bg = match decode_color_at(j, 1, 'g') {
        Some(c) => c,
        None => return None,
    };
    let bold = match decode_flag_at(j, 2, 'b') {
        Some(b) => b,
        None => return None,
    };
    let dim = match decode_flag_at(j, 3, 'd') {
        Some(b) => b,
        None => return None,
    };
    let italic = match decode_flag_at(j, 4, 'i') {
        Some(b) => b,
        None => return None,
    };
    let underline = match decode_underline_at(j, 5, 'u') {
        Some(n) => n,
        None => return None,
    };
    let strike = match decode_flag_at(j, 6, 's') {
        Some(b) => b,
        None => return None,
    };
    let concealed = match decode_flag_at(j, 7, 'o') {
        Some(b) => b,
        None => return None,
    };
    let blink = match decode_flag_at(j, 8, 'x') {
        Some(b) => b,
        None => return None,
    };
    let ulcolor = match decode_color_at(j, 9, 'k') {
        Some(c) => c,
        None => return None,
    };
    let inverse = match decode_flag_at(j, 10, 'n') {
        Some(b) => b,
        None => return None,
    };
    let link = match decode_link_at(j, 11, 'a') {
        Some(l) => l,
        None => return None,
    };
    let wide = match decode_flag_at(j, 12, 'w') {
        Some(b) => b,
        None => return None,
    };
    Some(
        CellStyle {
            fg,
            bg,
            bold,
            dim,
            italic,
            underline,
            strike,
            concealed,
            blink,
            ulcolor,
            inverse,
            link,
            wide,
        },
    )
}

/// A colour is read as it was written.
pub proof fn color_round_trip(c: Color)
    ensures
        read_color(color_json(c)) == Some(c),
        color_json(c).canonical(),
        color_json(c).safe_within(1),
        color_json(c) is Null <==> c == Color::Default,
{
    reveal_with_fuel(JsonModel::canonical, 2);
    reveal_with_fuel(JsonModel::safe_within, 2);
}

/// A colour as a member, left out where it is the default.
pub open spec fn color_entry(c: Color) -> Option<JsonModel> {
    if c != Color::Default {
        Some(color_json(c))
    } else {
        None
    }
}

/// A flag as a member, left out where it is off.
pub open spec fn flag_entry(b: bool) -> Option<JsonModel> {
    if b {
        Some(JsonModel::Uint(1))
    } else {
        None
    }
}

/// An underline style as a member, left out where there is none.
pub open spec fn underline_entry(n: u8) -> Option<JsonModel> {
    if n != 0 {
        Some(JsonModel::Uint(n as u64))
    } else {
        None
    }
}

/// A link as a member, left out where there is none.
pub open spec fn link_entry(link: Option<u32>) -> Option<JsonModel> {
    match link {
        Some(id) => Some(JsonModel::Uint(id as u64)),
        None => None,
    }
}

proof fn color_read_back(j: JsonModel, place: int, key: char, c: Color)
    requires
        j is Obj,
        member(j->Obj_0, key) == color_entry(c),
    ensures
        color_at(j, place, key) == Some(c),
{
    reveal(color_at);
    color_round_trip(c);
}

proof fn flag_read_back(j: JsonModel, place: int, key: char, b: bool)
    requires
        j is Obj,
        member(j->Obj_0, key) == flag_entry(b),
    ensures
        flag_at(j, place, key) == Some(b),
{
    reveal(flag_at);
}

proof fn underline_read_back(j: JsonModel, place: int, key: char, n: u8)
    requires
        j is Obj,
        n <= 5,
        member(j->Obj_0, key) == underline_entry(n),
    ensures
        underline_at(j, place, key) == Some(n),
{
    reveal(underline_at);
}

proof fn link_read_back(j: JsonModel, place: int, key: char, link: Option<u32>)
    requires
        j is Obj,
        member(j->Obj_0, key) == link_entry(link),
    ensures
        link_at(j, place, key) == Some(link),
{
    reveal(link_at);
}

/// The members that a style has are there as the style says.
#[verifier::opaque]
pub open spec fn holds_style(f: Seq<(char, JsonModel)>, s: CellStyle) -> bool {
    &&& field(f, 'f') == color_entry(s.fg)
    &&& field(f, 'g') == color_entry(s.bg)
    &&& field(f, 'b') == flag_entry(s.bold)
    &&& field(f, 'd') == flag_entry(s.dim)
    &&& field(f, 'i') == flag_entry(s.italic)
    &&& field(f, 'u') == underline_entry(s.underline)
    &&& field(f, 's') == flag_entry(s.strike)
    &&& field(f, 'o') == flag_entry(s.concealed)
    &&& field(f, 'x') == flag_entry(s.blink)
    &&& field(f, 'k') == color_entry(s.ulcolor)
    &&& field(f, 'n') == flag_entry(s.inverse)
    &&& field(f, 'a') == link_entry(s.link)
    &&& field(f, 'w') == flag_entry(s.wide)
}

/// Members that hold a style are read as that style.
proof fn style_read_back(f: Seq<(char, JsonModel)>, s: CellStyle)
    requires
        s.underline <= 5,
        holds_style(f, s),
    ensures
        read_style(object(f)) == Some(s),
{
    reveal(holds_style);
    member_of_object(f, 'f');
    color_read_back(object(f), 0, 'f', s.fg);
    member_of_object(f, 'g');
    color_read_back(object(f), 1, 'g', s.bg);
    member_of_object(f, 'b');
    flag_read_back(object(f), 2, 'b', s.bold);
    member_of_object(f, 'd');
    flag_read_back(object(f), 3, 'd', s.dim);
    member_of_object(f, 'i');
    flag_read_back(object(f), 4, 'i', s.italic);
    member_of_object(f, 'u');
    underline_read_back(object(f), 5, 'u', s.underline);
    member_of_object(f, 's');
    flag_read_back(object(f), 6, 's', s.strike);
    member_of_object(f, 'o');
    flag_read_back(object(f), 7, 'o', s.concealed);
    member_of_object(f, 'x');
    flag_read_back(object(f), 8, 'x', s.blink);
    member_of_object(f, 'k');
    color_read_back(object(f), 9, 'k', s.ulcolor);
    member_of_object(f, 'n');
    flag_read_back(object(f), 10, 'n', s.inverse);
    member_of_object(f, 'a');
    link_read_back(object(f), 11, 'a', s.link);
    member_of_object(f, 'w');
    flag_read_back(object(f), 12, 'w', s.wide);
}

/// The members of a style hold it.
pub(crate) proof fn style_is_held(s: CellStyle)
    ensures
        holds_style(style_fields(s), s),
{
    let all = style_fields(s);
    assert(field(all, 'f') == color_entry(s.fg)) by {
        broadcast use {field_of_with_field, field_of_none};
    }
    assert(field(all, 'g') == color_entry(s.bg)) by {
        broadcast use {field_of_with_field, field_of_none};
    }
    assert(field(all, 'b') == flag_entry(s.bold)) by {
        broadcast use {field_of_with_field, field_of_none};
    }
    assert(field(all, 'd') == flag_entry(s.dim)) by {
        broadcast use {field_of_with_field, field_of_none};
    }
    assert(field(all, 'i') == flag_entry(s.italic)) by {
        broadcast use {field_of_with_field, field_of_none};
    }
    assert(field(all, 'u') == underline_entry(s.underline)) by {
        broadcast use {field_of_with_field, field_of_none};
    }
    assert(field(all, 's') == flag_entry(s.strike)) by {
        broadcast use {field_of_with_field, field_of_none};
    }
    assert(field(all, 'o') == flag_entry(s.concealed)) by {
        broadcast use {field_of_with_field, field_of_none};
    }
    assert(field(all, 'x') == flag_entry(s.blink)) by {
        broadcast use {field_of_with_field, field_of_none};
    }
    assert(field(all, 'k') == color_entry(s.ulcolor)) by {
        broadcast use {field_of_with_field, field_of_none};
    }
    assert(field(all, 'n') == flag_entry(s.inverse)) by {
        broadcast use {field_of_with_field, field_of_none};
    }
    assert(field(all, 'a') == link_entry(s.link)) by {
        broadcast use {field_of_with_field, field_of_none};
    }
    assert(field(all, 'w') == flag_entry(s.wide)) by {
        broadcast use {field_of_with_field, field_of_none};
    }
    assert(holds_style(all, s)) by {
        reveal(holds_style);
    }
}

/// A style is read as it was written. Underline styles go up to 5.
pub proof fn style_round_trip(s: CellStyle)
    requires
        s.underline <= 5,
    ensures
        read_style(object(style_fields(s))) == Some(s),
{
    style_is_held(s);
    style_read_back(style_fields(s), s);
}

/// The members of a message hold the style that stands among them.
pub(crate) proof fn flat_style_is_held(f: Seq<(char, JsonModel)>, s: CellStyle)
    requires
        no_style_fields(f),
    ensures
        holds_style(flat_fields(f, s), s),
{
    let all = flat_fields(f, s);
    assert(field(all, 'f') == color_entry(s.fg)) by {
        broadcast use {field_of_with_field, field_of_none};
    }
    assert(field(all, 'g') == color_entry(s.bg)) by {
        broadcast use {field_of_with_field, field_of_none};
    }
    assert(field(all, 'b') == flag_entry(s.bold)) by {
        broadcast use {field_of_with_field, field_of_none};
    }
    assert(field(all, 'd') == flag_entry(s.dim)) by {
        broadcast use {field_of_with_field, field_of_none};
    }
    assert(field(all, 'i') == flag_entry(s.italic)) by {
        broadcast use {field_of_with_field, field_of_none};
    }
    assert(field(all, 'u') == underline_entry(s.underline)) by {
        broadcast use {field_of_with_field, field_of_none};
    }
    assert(field(all, 's') == flag_entry(s.strike)) by {
        broadcast use {field_of_with_field, field_of_none};
    }
    assert(field(all, 'o') == flag_entry(s.concealed)) by {
        broadcast use {field_of_with_field, field_of_none};
    }
    assert(field(all, 'x') == flag_entry(s.blink)) by {
        broadcast use {field_of_with_field, field_of_none};
    }
    assert(field(all, 'k') == color_entry(s.ulcolor)) by {
        broadcast use {field_of_with_field, field_of_none};
    }
    assert(field(all, 'n') == flag_entry(s.inverse)) by {
        broadcast use {field_of_with_field, field_of_none};
    }
    assert(field(all, 'a') == link_entry(s.link)) by {
        broadcast use {field_of_with_field, field_of_none};
    }
    assert(field(all, 'w') == flag_entry(s.wide)) by {
        broadcast use {field_of_with_field, field_of_none};
    }
    assert(holds_style(all, s)) by {
        reveal(holds_style);
    }
}

/// The style is read out of a message's own object as it was written there, if the members
/// that stand before it are not the style's.
pub proof fn flat_style_round_trip(f: Seq<(char, JsonModel)>, s: CellStyle)
    requires
        s.underline <= 5,
        no_style_fields(f),
    ensures
        read_style(object(flat_fields(f, s))) == Some(s),
{
    flat_style_is_held(f, s);
    style_read_back(flat_fields(f, s), s);
}

/// A member whose key is new, put to others.
pub proof fn put_field(
    f: Seq<(char, JsonModel)>,
    depth: nat,
    key: char,
    present: bool,
    value: JsonModel,
)
    requires
        good_fields(f),
        safe_fields(f, depth),
        field(f, key) is None,
        present ==> value.canonical() && value.safe_within(depth),
    ensures
        good_fields(with_field(f, key, present, value)),
        safe_fields(with_field(f, key, present, value), depth),
{
    good_with_field(f, key, present, value);
    safe_with_field(f, depth, key, present, value);
}

/// A colour is canonical, whole, and nested one deep.
pub proof fn color_fits(c: Color, depth: nat)
    requires
        depth >= 1,
    ensures
        color_json(c).canonical(),
        color_json(c).safe_within(depth),
{
    reveal_with_fuel(JsonModel::canonical, 2);
    reveal_with_fuel(JsonModel::safe_within, 2);
}

/// A style's object has no member twice, no fraction, and is nested two deep.
pub proof fn style_is_good(s: CellStyle)
    ensures
        object(style_fields(s)).canonical(),
        object(style_fields(s)).safe_within(2),
{
    let one = JsonModel::Uint(1);
    let depth: nat = 1;
    color_fits(s.fg, depth);
    color_fits(s.bg, depth);
    color_fits(s.ulcolor, depth);
    let f0 = Seq::<(char, JsonModel)>::empty();
    no_fields_are_good(depth);
    assert(field(f0, 'f') is None) by {
        broadcast use field_of_none;
    }
    put_field(f0, depth, 'f', s.fg != Color::Default, color_json(s.fg));
    let f1 = with_field(f0, 'f', s.fg != Color::Default, color_json(s.fg));
    assert(field(f1, 'g') is None) by {
        broadcast use {field_of_with_field, field_of_none};
    }
    put_field(f1, depth, 'g', s.bg != Color::Default, color_json(s.bg));
    let f2 = with_field(f1, 'g', s.bg != Color::Default, color_json(s.bg));
    assert(field(f2, 'b') is None) by {
        broadcast use {field_of_with_field, field_of_none};
    }
    put_field(f2, depth, 'b', s.bold, one);
    let f3 = with_field(f2, 'b', s.bold, one);
    assert(field(f3, 'd') is None) by {
        broadcast use {field_of_with_field, field_of_none};
    }
    put_field(f3, depth, 'd', s.dim, one);
    let f4 = with_field(f3, 'd', s.dim, one);
    assert(field(f4, 'i') is None) by {
        broadcast use {field_of_with_field, field_of_none};
    }
    put_field(f4, depth, 'i', s.italic, one);
    let f5 = with_field(f4, 'i', s.italic, one);
    assert(field(f5, 'u') is None) by {
        broadcast use {field_of_with_field, field_of_none};
    }
    put_field(f5, depth, 'u', s.underline != 0, JsonModel::Uint(s.underline as u64));
    let f6 = with_field(f5, 'u', s.underline != 0, JsonModel::Uint(s.underline as u64));
    assert(field(f6, 's') is None) by {
        broadcast use {field_of_with_field, field_of_none};
    }
    put_field(f6, depth, 's', s.strike, one);
    let f7 = with_field(f6, 's', s.strike, one);
    assert(field(f7, 'o') is None) by {
        broadcast use {field_of_with_field, field_of_none};
    }
    put_field(f7, depth, 'o', s.concealed, one);
    let f8 = with_field(f7, 'o', s.concealed, one);
    assert(field(f8, 'x') is None) by {
        broadcast use {field_of_with_field, field_of_none};
    }
    put_field(f8, depth, 'x', s.blink, one);
    let f9 = with_field(f8, 'x', s.blink, one);
    assert(field(f9, 'k') is None) by {
        broadcast use {field_of_with_field, field_of_none};
    }
    put_field(f9, depth, 'k', s.ulcolor != Color::Default, color_json(s.ulcolor));
    let f10 = with_field(f9, 'k', s.ulcolor != Color::Default, color_json(s.ulcolor));
    assert(field(f10, 'n') is None) by {
        broadcast use {field_of_with_field, field_of_none};
    }
    put_field(f10, depth, 'n', s.inverse, one);
    let f11 = with_field(f10, 'n', s.inverse, one);
    assert(field(f11, 'a') is None) by {
        broadcast use {field_of_with_field, field_of_none};
    }
    put_field(f11, depth, 'a', s.link is Some, JsonModel::Uint(link_number(s.link)));
    let f12 = with_field(f11, 'a', s.link is Some, JsonModel::Uint(link_number(s.link)));
    assert(field(f12, 'w') is None) by {
        broadcast use {field_of_with_field, field_of_none};
    }
    put_field(f12, depth, 'w', s.wide, one);
    let f13 = with_field(f12, 'w', s.wide, one);
    good_object(f13);
    safe_object(f13, depth);
}

/// The members of a style join a message's own without clash.
pub proof fn flat_style_is_good(f: Seq<(char, JsonModel)>, s: CellStyle, depth: nat)
    requires
        good_fields(f),
        safe_fields(f, depth),
        no_style_fields(f),
        depth >= 1,
    ensures
        good_fields(flat_fields(f, s)),
        safe_fields(flat_fields(f, s), depth),
{
    let one = JsonModel::Uint(1);
    color_fits(s.fg, depth);
    color_fits(s.bg, depth);
    color_fits(s.ulcolor, depth);
    put_field(f, depth, 'f', s.fg != Color::Default, color_json(s.fg));
    let f1 = with_field(f, 'f', s.fg != Color::Default, color_json(s.fg));
    assert(field(f1, 'g') is None) by {
        broadcast use {field_of_with_field, field_of_none};
    }
    put_field(f1, depth, 'g', s.bg != Color::Default, color_json(s.bg));
    let f2 = with_field(f1, 'g', s.bg != Color::Default, color_json(s.bg));
    assert(field(f2, 'k') is None) by {
        broadcast use {field_of_with_field, field_of_none};
    }
    put_field(f2, depth, 'k', s.ulcolor != Color::Default, color_json(s.ulcolor));
    let f3 = with_field(f2, 'k', s.ulcolor != Color::Default, color_json(s.ulcolor));
    assert(field(f3, 'u') is None) by {
        broadcast use {field_of_with_field, field_of_none};
    }
    put_field(f3, depth, 'u', s.underline != 0, JsonModel::Uint(s.underline as u64));
    let f4 = with_field(f3, 'u', s.underline != 0, JsonModel::Uint(s.underline as u64));
    assert(field(f4, 'a') is None) by {
        broadcast use {field_of_with_field, field_of_none};
    }
    put_field(f4, depth, 'a', s.link is Some, JsonModel::Uint(link_number(s.link)));
    let f5 = with_field(f4, 'a', s.link is Some, JsonModel::Uint(link_number(s.link)));
    assert(field(f5, 'b') is None) by {
        broadcast use {field_of_with_field, field_of_none};
    }
    put_field(f5, depth, 'b', s.bold, one);
    let f6 = with_field(f5, 'b', s.bold, one);
    assert(field(f6, 'd') is None) by {
        broadcast use {field_of_with_field, field_of_none};
    }
    put_field(f6, depth, 'd', s.dim, one);
    let f7 = with_field(f6, 'd', s.dim, one);
    assert(field(f7, 'i') is None) by {
        broadcast use {field_of_with_field, field_of_none};
    }
    put_field(f7, depth, 'i', s.italic, one);
    let f8 = with_field(f7, 'i', s.italic, one);
    assert(field(f8, 's') is None) by {
        broadcast use {field_of_with_field, field_of_none};
    }
    put_field(f8, depth, 's', s.strike, one);
    let f9 = with_field(f8, 's', s.strike, one);
    assert(field(f9, 'o') is None) by {
        broadcast use {field_of_with_field, field_of_none};
    }
    put_field(f9, depth, 'o', s.concealed, one);
    let f10 = with_field(f9, 'o', s.concealed, one);
    assert(field(f10, 'x') is None) by {
        broadcast use {field_of_with_field, field_of_none};
    }
    put_field(f10, depth, 'x', s.blink, one);
    let f11 = with_field(f10, 'x', s.blink, one);
    assert(field(f11, 'n') is None) by {
        broadcast use {field_of_with_field, field_of_none};
    }
    put_field(f11, depth, 'n', s.inverse, one);
    let f12 = with_field(f11, 'n', s.inverse, one);
    assert(field(f12, 'w') is None) by {
        broadcast use {field_of_with_field, field_of_none};
    }
    put_field(f12, depth, 'w', s.wide, one);
    let f13 = with_field(f12, 'w', s.wide, one);
}

/// None of the members is one that a style has.
pub open spec fn no_style_fields(f: Seq<(char, JsonModel)>) -> bool {
    &&& field(f, 'f') is None
    &&& field(f, 'g') is None
    &&& field(f, 'b') is None
    &&& field(f, 'd') is None
    &&& field(f, 'i') is None
    &&& field(f, 'u') is None
    &&& field(f, 's') is None
    &&& field(f, 'o') is None
    &&& field(f, 'x') is None
    &&& field(f, 'k') is None
    &&& field(f, 'n') is None
    &&& field(f, 'a') is None
    &&& field(f, 'w') is None
}

} // verus!
