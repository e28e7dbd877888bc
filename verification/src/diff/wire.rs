//! What stands where in a message, by the letters that viewers look for.
use vstd::prelude::*;

use crate::diff::block::{cell_at, run_json, text_json, TextModel};
use crate::diff::encode::{
    changed_spans, cursor_json, delta_json, diffable, full_fields, is_single, new_links,
    placement_json, row_json, row_span_of,
};
use crate::diff::style::{
    color_at, color_json, color_round_trip, flag_at, flat_fields, flat_style_is_held, holds_style,
    link_at, no_style_fields, read_style, style_fields, style_is_held, underline_at,
};
use crate::json::{field, field_of_none, field_of_with_field, member, member_of_object, JsonModel};
use crate::model::{CellStyle, Color, Glyph, GridModel, PlacementModel};

verus! {

/// A colour is nothing where it is the default, its number in the palette, or its red, green and
/// blue parts.
pub proof fn colors_on_the_wire(i: u8, r: u8, g: u8, b: u8)
    ensures
        color_json(Color::Default) == JsonModel::Null,
        color_json(Color::Idx(i)) == JsonModel::Uint(i as u64),
        color_json(Color::Rgb(r, g, b)) is Arr,
        ({
            let parts = color_json(Color::Rgb(r, g, b))->Arr_0;
            &&& parts.len() == 3 && parts[0] == JsonModel::Uint(r as u64)
            &&& parts[1] == JsonModel::Uint(g as u64) && parts[2] == JsonModel::Uint(b as u64)
        }),
{
}

/// Whether members tell a style: the colours under `f`, `g` and `k`, the underline under `u`, the
/// link under `a`, and a one for each of bold, dim, italic, struck, concealed, blinking, inverse and
/// wide. What is plain is left out.
#[verifier::opaque]
pub open spec fn tells_style(f: Seq<(char, JsonModel)>, s: CellStyle) -> bool {
    let one = Some(JsonModel::Uint(1));
    let none = None::<JsonModel>;
    &&& field(f, 'f') == if s.fg == Color::Default { none } else { Some(color_json(s.fg)) }
    &&& field(f, 'g') == if s.bg == Color::Default { none } else { Some(color_json(s.bg)) }
    &&& field(f, 'k') == if s.ulcolor == Color::Default { none } else { Some(color_json(s.ulcolor)) }
    &&& field(f, 'u') == if s.underline == 0 { none } else { Some(JsonModel::Uint(s.underline as u64)) }
    &&& field(f, 'a') == match s.link { Some(id) => Some(JsonModel::Uint(id as u64)), None => none }
    &&& field(f, 'b') == if s.bold { one } else { none }
    &&& field(f, 'd') == if s.dim { one } else { none }
    &&& field(f, 'i') == if s.italic { one } else { none }
    &&& field(f, 's') == if s.strike { one } else { none }
    &&& field(f, 'o') == if s.concealed { one } else { none }
    &&& field(f, 'x') == if s.blink { one } else { none }
    &&& field(f, 'n') == if s.inverse { one } else { none }
    &&& field(f, 'w') == if s.wide { one } else { none }
}

proof fn held_is_told(f: Seq<(char, JsonModel)>, s: CellStyle)
    requires
        holds_style(f, s),
    ensures
        tells_style(f, s),
{
    reveal(holds_style);
    reveal(tells_style);
}

/// A style is told letter by letter, in an object of its own or among other members.
pub proof fn styles_on_the_wire(s: CellStyle, f: Seq<(char, JsonModel)>)
    requires
        no_style_fields(f),
    ensures
        tells_style(style_fields(s), s),
        tells_style(flat_fields(f, s), s),
{
    style_is_held(s);
    held_is_told(style_fields(s), s);
    flat_style_is_held(f, s);
    held_is_told(flat_fields(f, s), s);
}

/// The thirteen parts of a style as a list: the colours of text and background, bold, dim, italic,
/// underline, struck, concealed, blinking, the underline's colour, inverse, link and wide.
pub open spec fn style_list(s: CellStyle) -> JsonModel {
    JsonModel::Arr(
        seq![
            color_json(s.fg),
            color_json(s.bg),
            JsonModel::Bool(s.bold),
            JsonModel::Bool(s.dim),
            JsonModel::Bool(s.italic),
            JsonModel::Uint(s.underline as u64),
            JsonModel::Bool(s.strike),
            JsonModel::Bool(s.concealed),
            JsonModel::Bool(s.blink),
            color_json(s.ulcolor),
            JsonModel::Bool(s.inverse),
            match s.link {
                Some(id) => JsonModel::Uint(id as u64),
                None => JsonModel::Null,
            },
            JsonModel::Bool(s.wide),
        ],
    )
}

/// A style may come as a list of its parts, too.
pub proof fn listed_styles_are_read(s: CellStyle)
    requires
        s.underline <= 5,
    ensures
        read_style(style_list(s)) == Some(s),
{
    reveal(color_at);
    reveal(flag_at);
    reveal(underline_at);
    reveal(link_at);
    color_round_trip(s.fg);
    color_round_trip(s.bg);
    color_round_trip(s.ulcolor);
    let j = style_list(s);
    assert(color_at(j, 0, 'f') == Some(s.fg));
    assert(color_at(j, 1, 'g') == Some(s.bg));
    assert(flag_at(j, 2, 'b') == Some(s.bold));
    assert(flag_at(j, 3, 'd') == Some(s.dim));
    assert(flag_at(j, 4, 'i') == Some(s.italic));
    assert(underline_at(j, 5, 'u') == Some(s.underline));
    assert(flag_at(j, 6, 's') == Some(s.strike));
    assert(flag_at(j, 7, 'o') == Some(s.concealed));
    assert(flag_at(j, 8, 'x') == Some(s.blink));
    assert(color_at(j, 9, 'k') == Some(s.ulcolor));
    assert(flag_at(j, 10, 'n') == Some(s.inverse));
    assert(link_at(j, 11, 'a') == Some(s.link));
    assert(flag_at(j, 12, 'w') == Some(s.wide));
}

/// Empty cells are zeros, cells of one character a string, a cell of more a string in brackets. A
/// stretch of a style has its first column, its length and the style.
pub proof fn cells_on_the_wire(t: Seq<char>, start: usize, len: usize, s: CellStyle)
    ensures
        text_json(TextModel::Blank) == JsonModel::Uint(0),
        text_json(TextModel::Run(t)) == JsonModel::Str(t),
        text_json(TextModel::Cluster(t)) is Arr,
        text_json(TextModel::Cluster(t))->Arr_0 == seq![JsonModel::Str(t)],
        ({
            let run = run_json((start, len, s));
            &&& run is Arr && run->Arr_0.len() == 3
            &&& run->Arr_0[0] == JsonModel::Uint(start as u64)
            &&& run->Arr_0[1] == JsonModel::Uint(len as u64)
        }),
{
}

/// A cursor is its row and its column, or nothing where it is hidden.
pub proof fn cursors_on_the_wire(row: u16, col: u16)
    ensures
        cursor_json(None) == JsonModel::Null,
        ({
            let c = cursor_json(Some((row, col)));
            &&& c is Arr && c->Arr_0.len() == 2
            &&& c->Arr_0[0] == JsonModel::Uint(row as u64)
            &&& c->Arr_0[1] == JsonModel::Uint(col as u64)
        }),
{
}

/// An image has its row under `r`, its column under `c`, its width under `w`, its height under `h`
/// and its key under `k`.
pub proof fn placements_on_the_wire(p: PlacementModel)
    ensures
        ({
            let j = placement_json(p);
            &&& j is Obj
            &&& p.row >= 0 ==> member(j->Obj_0, 'r') == Some(JsonModel::Uint(p.row as u64))
            &&& p.row < 0 ==> member(j->Obj_0, 'r') == Some(JsonModel::Int(p.row as i64))
            &&& member(j->Obj_0, 'c') == Some(JsonModel::Uint(p.col as u64))
            &&& member(j->Obj_0, 'w') == p.cols
            &&& member(j->Obj_0, 'h') == p.rows
            &&& member(j->Obj_0, 'k') == Some(JsonModel::Str(p.hash))
        }),
{
    broadcast use {field_of_with_field, field_of_none};

    let j = placement_json(p);
    let f = crate::json::with_field(
        Seq::empty(),
        'r',
        true,
        crate::diff::encode::signed_json(p.row),
    );
    let f = crate::json::with_field(f, 'c', true, JsonModel::Uint(p.col as u64));
    let f = crate::json::with_field(f, 'w', p.cols is Some, p.cols->Some_0);
    let f = crate::json::with_field(f, 'h', p.rows is Some, p.rows->Some_0);
    let f = crate::json::with_field(f, 'k', true, JsonModel::Str(p.hash));
    assert(j == crate::json::object(f));
    member_of_object(f, 'r');
    member_of_object(f, 'c');
    member_of_object(f, 'w');
    member_of_object(f, 'h');
    member_of_object(f, 'k');
}

/// A whole screen has its rows under `d`, its width under `w` and its height under `h`, and, unless
/// there is nothing to tell, its cursor under `p`, the cursor's style under `q`, the default colours
/// under `e`, the title under `t`, links under `y` and images under `i`.
pub proof fn whole_screens_on_the_wire(g: GridModel)
    ensures
        ({
            let f = full_fields(g);
            let none = None::<JsonModel>;
            &&& field(f, 'w') == Some(JsonModel::Uint(g.cols as u64))
            &&& field(f, 'h') == Some(JsonModel::Uint(g.rows.len() as u64))
            &&& field(f, 'd') is Some && field(f, 'd')->Some_0 is Arr
            &&& (field(f, 'd')->Some_0)->Arr_0.len() == g.rows.len()
            &&& g.cursor is None ==> field(f, 'p') == none
            &&& g.cursor is Some ==> field(f, 'p') == Some(cursor_json(g.cursor))
            &&& field(f, 'q') == if g.cursor_style == 0 {
                none
            } else {
                Some(JsonModel::Uint(g.cursor_style as u64))
            }
            &&& field(f, 't') == if g.title.len() == 0 {
                none
            } else {
                Some(JsonModel::Str(g.title))
            }
            &&& g.default_colors != (Color::Default, Color::Default) ==> field(f, 'e') is Some && (
            field(f, 'e')->Some_0)->Arr_0 == seq![
                color_json(g.default_colors.0),
                color_json(g.default_colors.1),
            ]
            &&& field(f, 'e') is None <==> g.default_colors == (Color::Default, Color::Default)
            &&& field(f, 'y') is Some <==> g.links.len() > 0
            &&& field(f, 'i') is Some <==> g.images.len() > 0
            &&& g.images.len() > 0 ==> (field(f, 'i')->Some_0)->Arr_0.len() == g.images.len()
        }),
{
    broadcast use {field_of_with_field, field_of_none};

}

/// A changed row starts with its number and its first changed column. A single changed cell goes on
/// with its character.
pub proof fn changed_rows_on_the_wire(n: Seq<Glyph>, r: usize, lo: usize, hi: usize)
    ensures
        ({
            let j = row_json(n, r, lo, hi);
            &&& j is Arr && j->Arr_0.len() >= 3
            &&& j->Arr_0[0] == JsonModel::Uint(r as u64)
            &&& j->Arr_0[1] == JsonModel::Uint(lo as u64)
            &&& is_single(n, lo as int, hi as int) ==> j->Arr_0[2] == JsonModel::Str(
                cell_at(n, lo as int).text,
            )
        }),
{
}

/// A change message tells a new title under `t`, the cursor under `p` where it, its style or the
/// title is new, and the cursor's style under `q` where that is new; nothing of them otherwise.
pub proof fn changes_on_the_wire(a: GridModel, b: GridModel)
    requires
        diffable(a, b),
        delta_json(a, b) is Some,
    ensures
        ({
            let m = (delta_json(a, b)->Some_0)->Obj_0;
            let none = None::<JsonModel>;
            let moved = a.cursor != b.cursor || a.cursor_style != b.cursor_style || a.title
                != b.title;
            &&& delta_json(a, b)->Some_0 is Obj
            &&& member(m, 't') == if a.title != b.title { Some(JsonModel::Str(b.title)) } else { none }
            &&& member(m, 'p') == if moved { Some(cursor_json(b.cursor)) } else { none }
            &&& member(m, 'q') == if a.cursor_style != b.cursor_style {
                Some(JsonModel::Uint(b.cursor_style as u64))
            } else {
                none
            }
        }),
{
    let spans = changed_spans(a.rows, b.rows, b.rows.len() as int);
    let links = new_links(a.links, b.links);
    let cur = crate::diff::encode::new_cursor(a, b);
    let sty = crate::diff::encode::new_style(a, b);
    if spans.len() == 1 && a.title == b.title && links.len() == 0 {
        let (r, lo, hi) = spans[0];
        row_message_members(b.rows[r as int], r, lo, hi, cur, sty);
    } else {
        let f = crate::json::with_field(
            Seq::empty(),
            'r',
            spans.len() > 0,
            crate::diff::encode::rows_json(b.rows, spans),
        );
        let f = crate::diff::encode::cursor_fields(f, cur, sty);
        let f = crate::json::with_field(f, 't', a.title != b.title, JsonModel::Str(b.title));
        let f = crate::json::with_field(
            f,
            'y',
            links.len() > 0,
            crate::diff::encode::links_json(links),
        );
        assert(delta_json(a, b) == Some(crate::json::object(f)));
        member_of_object(f, 't');
        member_of_object(f, 'p');
        member_of_object(f, 'q');
        broadcast use {field_of_with_field, field_of_none};

        assert(field(f, 'p') == if cur is Some { Some(cursor_json(cur->Some_0)) } else { None });
    }
}

proof fn row_message_members(
    n: Seq<Glyph>,
    r: usize,
    lo: usize,
    hi: usize,
    cur: Option<Option<(u16, u16)>>,
    sty: Option<u8>,
)
    ensures
        ({
            let j = crate::diff::encode::row_message(n, r, lo, hi, cur, sty);
            let m = j->Obj_0;
            let none = None::<JsonModel>;
            &&& j is Obj
            &&& member(m, 't') == none
            &&& member(m, 'p') == if cur is Some { Some(cursor_json(cur->Some_0)) } else { none }
            &&& member(m, 'q') == if sty is Some {
                Some(JsonModel::Uint(sty->Some_0 as u64))
            } else {
                none
            }
        }),
{
    let b = crate::diff::block::block_of(crate::diff::block::span_cells(n, lo as int, hi + 1));
    if is_single(n, lo as int, hi as int) {
        let cell = cell_at(n, lo as int);
        cell_message_members(r, lo, cell.text, cell.style, cur, sty);
    } else if crate::diff::encode::is_uniform(b) {
        cell_message_members(
            r,
            lo,
            b.text[0]->Run_0,
            crate::diff::encode::uniform_style(b),
            cur,
            sty,
        );
    } else {
        let f = crate::diff::encode::cursor_fields(
            crate::json::with_field(Seq::empty(), 'l', true, row_json(n, r, lo, hi)),
            cur,
            sty,
        );
        member_of_object(f, 't');
        member_of_object(f, 'p');
        member_of_object(f, 'q');
        broadcast use {field_of_with_field, field_of_none};

        assert(field(f, 'q') == if sty is Some {
            Some(JsonModel::Uint(sty->Some_0 as u64))
        } else {
            None
        });
    }
}

/// A change in one style has its row, its first column and its text under `c`.
pub proof fn changes_in_one_style_on_the_wire(
    r: usize,
    l: usize,
    text: Seq<char>,
    style: CellStyle,
    cur: Option<Option<(u16, u16)>>,
    sty: Option<u8>,
)
    ensures
        ({
            let j = crate::diff::encode::cell_message(r, l, text, style, cur, sty);
            let c = member(j->Obj_0, 'c');
            &&& j is Obj && c is Some && c->Some_0 is Arr
            &&& (c->Some_0)->Arr_0 == seq![
                JsonModel::Uint(r as u64),
                JsonModel::Uint(l as u64),
                JsonModel::Str(text),
            ]
        }),
{
    cell_message_members(r, l, text, style, cur, sty);
}

proof fn cell_message_members(
    r: usize,
    l: usize,
    text: Seq<char>,
    style: CellStyle,
    cur: Option<Option<(u16, u16)>>,
    sty: Option<u8>,
)
    ensures
        ({
            let j = crate::diff::encode::cell_message(r, l, text, style, cur, sty);
            let m = j->Obj_0;
            let none = None::<JsonModel>;
            &&& j is Obj
            &&& member(m, 'c') == Some(
                JsonModel::Arr(
                    seq![
                        JsonModel::Uint(r as u64),
                        JsonModel::Uint(l as u64),
                        JsonModel::Str(text),
                    ],
                ),
            )
            &&& member(m, 't') == none
            &&& member(m, 'p') == if cur is Some { Some(cursor_json(cur->Some_0)) } else { none }
            &&& member(m, 'q') == if sty is Some {
                Some(JsonModel::Uint(sty->Some_0 as u64))
            } else {
                none
            }
        }),
{
    let c = JsonModel::Arr(crate::diff::encode::place_json(r, l).push(JsonModel::Str(text)));
    assert(crate::diff::encode::place_json(r, l).push(JsonModel::Str(text)) =~= seq![
        JsonModel::Uint(r as u64),
        JsonModel::Uint(l as u64),
        JsonModel::Str(text),
    ]);
    let f = crate::diff::encode::cursor_fields(
        crate::json::with_field(Seq::empty(), 'c', true, c),
        cur,
        sty,
    );
    let all = flat_fields(f, style);
    member_of_object(all, 'c');
    member_of_object(all, 't');
    member_of_object(all, 'p');
    member_of_object(all, 'q');
    assert(field(all, 'c') == field(f, 'c') && field(all, 't') == field(f, 't')) by {
        broadcast use {field_of_with_field, field_of_none};

    }
    assert(field(all, 'p') == field(f, 'p') && field(all, 'q') == field(f, 'q')) by {
        broadcast use {field_of_with_field, field_of_none};

    }
    broadcast use {field_of_with_field, field_of_none};

    assert(field(f, 'c') == Some(c) && field(f, 't') is None);
}

/// A row is told where a cell of it changed, from the first changed column to the last.
pub proof fn changed_cells_are_told(o: Seq<Glyph>, n: Seq<Glyph>, i: int)
    requires
        0 <= i,
        o.len() <= usize::MAX,
        n.len() <= usize::MAX,
        i < o.len() || i < n.len(),
        cell_at(o, i) != cell_at(n, i),
    ensures
        row_span_of(o, n) is Some,
        row_span_of(o, n)->Some_0.0 <= i <= row_span_of(o, n)->Some_0.1,
        cell_at(o, row_span_of(o, n)->Some_0.0 as int) != cell_at(
            n,
            row_span_of(o, n)->Some_0.0 as int,
        ),
        cell_at(o, row_span_of(o, n)->Some_0.1 as int) != cell_at(
            n,
            row_span_of(o, n)->Some_0.1 as int,
        ),
{
    let end = crate::diff::encode::longer(o, n);
    crate::diff::encode::changes_bound(o, n, 0, end);
    assert(crate::diff::encode::cell_changed(o, n, i));
}

/// Just those links are told that viewers were not told before.
pub proof fn only_new_links_are_told(
    a: Seq<(u32, Seq<char>)>,
    b: Seq<(u32, Seq<char>)>,
    e: (u32, Seq<char>),
)
    ensures
        new_links(a, b).contains(e) <==> b.contains(e) && crate::model::link_at(a, e.0) is None,
    decreases b.len(),
{
    let told = new_links(a, b);
    if b.len() > 0 {
        let front = b.drop_last();
        let before = new_links(a, front);
        only_new_links_are_told(a, front, e);
        if b.contains(e) {
            let i = choose|i: int| 0 <= i < b.len() && b[i] == e;
            if i < front.len() {
                assert(front[i] == e);
            } else if crate::model::link_at(a, e.0) is None {
                assert(told.last() == e);
            }
        }
        if front.contains(e) {
            let i = choose|i: int| 0 <= i < front.len() && front[i] == e;
            assert(b[i] == e);
        }
        if before.contains(e) {
            let i = choose|i: int| 0 <= i < before.len() && before[i] == e;
            assert(told[i] == e);
        }
        if told.contains(e) {
            let i = choose|i: int| 0 <= i < told.len() && told[i] == e;
            if i < before.len() {
                assert(before[i] == e);
            } else {
                assert(b[b.len() - 1] == e);
            }
        }
    } else {
        assert(told.len() == 0);
    }
}

/// Links are told by the digits of their ids, each with its URI.
pub proof fn links_on_the_wire(links: Seq<(u32, Seq<char>)>, i: int)
    requires
        0 <= i < links.len(),
    ensures
        ({
            let j = crate::diff::encode::links_json(links);
            &&& j is Obj && j->Obj_0.len() == links.len()
            &&& j->Obj_0[i].0 == crate::text::digits(links[i].0 as nat)
            &&& j->Obj_0[i].1 == JsonModel::Str(links[i].1)
        }),
{
}

} // verus!
