//! Wire messages as text.
use vstd::prelude::*;

use crate::diff::apply::{applied, apply_wire};
use crate::diff::block::{block_is_good, block_items, block_of, span_cells};
use crate::diff::decode::{decode, read_message};
use crate::diff::encode::{
    all_rows_json, cell_message, changed_spans, cursor_fields, cursor_json, delta_json, diff_json,
    diff_message, diffable, full_json, full_message_grid, is_single, links_json, new_cursor,
    new_links, new_style, place_json, placement_json, placements_json, row_json, rows_json,
    can_diff, signed_json, sizes_are_numbers,
};
use crate::diff::style::{
    color_fits, color_json, flat_fields, flat_style_is_good, no_style_fields, put_field,
    style_fields, style_is_good,
};
use crate::json::{
    field, field_of_none, field_of_with_field, good_fields, good_object, is_number,
    no_fields_are_good, object, parsed, render, rendered, safe_fields, safe_object,
    safe_with_field, short_keys_are_free, with_field, good_with_field, JsonModel, DEPTH_LIMIT,
};
use crate::model::{rising, CellStyle, Color, Frame, Glyph, GridModel, PlacementModel};
use crate::text::{digits, digits_spell};

verus! {

/// A value that is nested less deep is nested no deeper.
proof fn safe_deeper(j: JsonModel, d: nat, e: nat)
    requires
        j.safe_within(d),
        d <= e,
    ensures
        j.safe_within(e),
    decreases j,
{
    match j {
        JsonModel::Arr(s) => {
            assert forall|i: int| #![trigger s[i]] 0 <= i < s.len() implies s[i].safe_within(
                (e - 1) as nat,
            ) by {
                safe_deeper(s[i], (d - 1) as nat, (e - 1) as nat);
            }
        },
        JsonModel::Obj(m) => {
            assert forall|i: int| #![trigger m[i]] 0 <= i < m.len() implies m[i].1.safe_within(
                (e - 1) as nat,
            ) by {
                safe_deeper(m[i].1, (d - 1) as nat, (e - 1) as nat);
            }
        },
        _ => {},
    }
}

/// How deep the members of a message may be nested.
pub open spec fn member_depth() -> nat {
    (DEPTH_LIMIT - 1) as nat
}

/// Whether a value may stand in a message.
#[verifier::opaque]
pub open spec fn fits_message(j: JsonModel) -> bool {
    j.canonical() && j.safe_within(member_depth())
}

proof fn flat_fits(j: JsonModel)
    requires
        j is Uint || j is Str || j is Null,
    ensures
        fits_message(j),
{
    reveal(fits_message);
}

proof fn cursor_fits(c: Option<(u16, u16)>)
    ensures
        fits_message(cursor_json(c)),
{
    reveal(fits_message);
    reveal_with_fuel(JsonModel::canonical, 2);
    reveal_with_fuel(JsonModel::safe_within, 2);
}

proof fn place_and_text_fits(r: usize, l: usize, t: Seq<char>)
    ensures
        fits_message(JsonModel::Arr(place_json(r, l).push(JsonModel::Str(t)))),
{
    reveal(fits_message);
    reveal_with_fuel(JsonModel::canonical, 2);
    reveal_with_fuel(JsonModel::safe_within, 2);
}

proof fn row_is_good(n: Seq<Glyph>, r: usize, lo: usize, hi: usize)
    ensures
        row_json(n, r, lo, hi).canonical(),
        row_json(n, r, lo, hi).safe_within(5),
{
    let j = row_json(n, r, lo, hi);
    if is_single(n, lo as int, hi as int) {
        let cell = crate::diff::block::cell_at(n, lo as int);
        style_is_good(cell.style);
        safe_deeper(object(style_fields(cell.style)), 2, 4);
        let s = j->Arr_0;
        assert forall|i: int| #![trigger s[i]] 0 <= i < s.len() implies s[i].canonical()
            && s[i].safe_within(4) by {
            if i == 3 {
                assert(s[i] == object(style_fields(cell.style)));
            }
        }
    } else {
        block_is_good(place_json(r, lo), block_of(span_cells(n, lo as int, hi + 1)));
    }
}

proof fn rows_fit(b: Seq<Seq<Glyph>>, spans: Seq<(usize, usize, usize)>)
    ensures
        fits_message(rows_json(b, spans)),
{
    let j = rows_json(b, spans);
    let s = j->Arr_0;
    assert forall|i: int| #![trigger s[i]] 0 <= i < s.len() implies s[i].canonical()
        && s[i].safe_within(5) by {
        row_is_good(b[spans[i].0 as int], spans[i].0, spans[i].1, spans[i].2);
    }
    assert(j.safe_within(6));
    safe_deeper(j, 6, member_depth());
    reveal(fits_message);
}

proof fn row_fits(n: Seq<Glyph>, r: usize, lo: usize, hi: usize)
    ensures
        fits_message(row_json(n, r, lo, hi)),
{
    row_is_good(n, r, lo, hi);
    safe_deeper(row_json(n, r, lo, hi), 5, member_depth());
    reveal(fits_message);
}

proof fn all_rows_fit(rows: Seq<Seq<Glyph>>)
    ensures
        fits_message(all_rows_json(rows)),
{
    let j = all_rows_json(rows);
    let s = j->Arr_0;
    assert forall|i: int| #![trigger s[i]] 0 <= i < s.len() implies s[i].canonical()
        && s[i].safe_within(5) by {
        block_is_good(Seq::empty(), block_of(rows[i]));
        assert(s[i] == block_items(Seq::empty(), block_of(rows[i])));
    }
    assert(j.safe_within(6));
    safe_deeper(j, 6, member_depth());
    reveal(fits_message);
}

proof fn links_fit(links: Seq<(u32, Seq<char>)>)
    requires
        rising(links),
    ensures
        fits_message(links_json(links)),
{
    let j = links_json(links);
    let m = j->Obj_0;
    assert forall|i: int, k: int| #![trigger m[i], m[k]] 0 <= i < k < m.len() implies m[i].0
        != m[k].0 by {
        digits_spell(links[i].0 as nat);
        digits_spell(links[k].0 as nat);
        assert(links[i].0 < links[k].0);
    }
    assert forall|i: int| #![trigger m[i]] 0 <= i < m.len() implies m[i].1.canonical()
        && m[i].1.safe_within(0) by {
        assert(m[i].1 == JsonModel::Str(links[i].1));
    }
    if links.len() > 0 {
        digits_spell(links[0].0 as nat);
        assert(m[0].0 == digits(links[0].0 as nat));
    }
    short_keys_are_free(m);
    assert(j.safe_within(1));
    safe_deeper(j, 1, member_depth());
    reveal(fits_message);
}

proof fn new_links_rise(a: Seq<(u32, Seq<char>)>, b: Seq<(u32, Seq<char>)>)
    requires
        rising(b),
    ensures
        rising(new_links(a, b)),
        forall|i: int|
            #![trigger new_links(a, b)[i]]
            0 <= i < new_links(a, b).len() && b.len() > 0 ==> new_links(a, b)[i].0 <= b.last().0,
    decreases b.len(),
{
    if b.len() > 0 {
        let front = b.drop_last();
        new_links_rise(a, front);
        let x = new_links(a, front);
        let y = new_links(a, b);
        assert forall|i: int| #![trigger x[i]] 0 <= i < x.len() implies x[i].0 < b.last().0 by {
            if front.len() > 0 {
                assert(front.last() == b[b.len() - 2]);
            } else {
                assert(x.len() == 0);
            }
        }
        assert forall|i: int| #![trigger y[i]] 0 <= i < y.len() implies y[i].0 <= b.last().0 by {
            if i < x.len() {
                assert(y[i] == x[i]);
            }
        }
    }
}

/// A member put to others that fit a message.
proof fn put(f: Seq<(char, JsonModel)>, key: char, present: bool, value: JsonModel)
    requires
        good_fields(f),
        safe_fields(f, member_depth()),
        field(f, key) is None,
        present ==> fits_message(value),
    ensures
        good_fields(with_field(f, key, present, value)),
        safe_fields(with_field(f, key, present, value), member_depth()),
{
    reveal(fits_message);
    put_field(f, member_depth(), key, present, value);
}

proof fn put_cursor(
    f: Seq<(char, JsonModel)>,
    cur: Option<Option<(u16, u16)>>,
    sty: Option<u8>,
)
    requires
        good_fields(f),
        safe_fields(f, member_depth()),
        field(f, 'p') is None,
        field(f, 'q') is None,
    ensures
        good_fields(cursor_fields(f, cur, sty)),
        safe_fields(cursor_fields(f, cur, sty), member_depth()),
        forall|k: char|
            k != 'p' && k != 'q' ==> #[trigger] field(cursor_fields(f, cur, sty), k) == field(
                f,
                k,
            ),
{
    cursor_fits(cur->Some_0);
    flat_fits(JsonModel::Uint(sty->Some_0 as u64));
    let f1 = with_field(f, 'p', cur is Some, cursor_json(cur->Some_0));
    put(f, 'p', cur is Some, cursor_json(cur->Some_0));
    assert(field(f1, 'q') is None) by {
        broadcast use field_of_with_field;

    }
    put(f1, 'q', sty is Some, JsonModel::Uint(sty->Some_0 as u64));
    broadcast use field_of_with_field;

}

/// An object of members that fit a message is a message.
proof fn message_of(f: Seq<(char, JsonModel)>)
    requires
        good_fields(f),
        safe_fields(f, member_depth()),
    ensures
        object(f).canonical(),
        object(f).safe_within(DEPTH_LIMIT as nat),
{
    good_object(f);
    safe_object(f, member_depth());
}

proof fn cell_message_is_good(
    r: usize,
    l: usize,
    text: Seq<char>,
    style: CellStyle,
    cur: Option<Option<(u16, u16)>>,
    sty: Option<u8>,
)
    ensures
        cell_message(r, l, text, style, cur, sty).canonical(),
        cell_message(r, l, text, style, cur, sty).safe_within(DEPTH_LIMIT as nat),
{
    let c = JsonModel::Arr(place_json(r, l).push(JsonModel::Str(text)));
    place_and_text_fits(r, l, text);
    no_fields_are_good(member_depth());
    let f0 = Seq::<(char, JsonModel)>::empty();
    let f1 = with_field(f0, 'c', true, c);
    assert(field(f0, 'c') is None && field(f1, 'p') is None && field(f1, 'q') is None
        && no_style_fields(f1)) by {
        broadcast use {field_of_with_field, field_of_none};

    }
    put(f0, 'c', true, c);
    put_cursor(f1, cur, sty);
    let f2 = cursor_fields(f1, cur, sty);
    flat_style_is_good(f2, style, member_depth());
    message_of(flat_fields(f2, style));
}

/// A message of a change is canonical, and short enough to be read.
proof fn diff_is_good(a: GridModel, b: GridModel)
    requires
        rising(b.links),
        diff_json(a, b) is Some,
    ensures
        diff_json(a, b)->Some_0.canonical(),
        diff_json(a, b)->Some_0.safe_within(DEPTH_LIMIT as nat),
{
    let spans = changed_spans(a.rows, b.rows, b.rows.len() as int);
    let links = new_links(a.links, b.links);
    let cur = new_cursor(a, b);
    let sty = new_style(a, b);
    let f0 = Seq::<(char, JsonModel)>::empty();
    no_fields_are_good(member_depth());
    if spans.len() == 1 && a.title == b.title && links.len() == 0 {
        let (r, lo, hi) = spans[0];
        let n = b.rows[r as int];
        let block = block_of(span_cells(n, lo as int, hi + 1));
        if is_single(n, lo as int, hi as int) {
            let cell = crate::diff::block::cell_at(n, lo as int);
            cell_message_is_good(r, lo, cell.text, cell.style, cur, sty);
        } else if crate::diff::encode::is_uniform(block) {
            cell_message_is_good(
                r,
                lo,
                block.text[0]->Run_0,
                crate::diff::encode::uniform_style(block),
                cur,
                sty,
            );
        } else {
            let j = row_json(n, r, lo, hi);
            row_fits(n, r, lo, hi);
            let f1 = with_field(f0, 'l', true, j);
            assert(field(f0, 'l') is None && field(f1, 'p') is None && field(f1, 'q') is None) by {
                broadcast use {field_of_with_field, field_of_none};

            }
            put(f0, 'l', true, j);
            put_cursor(f1, cur, sty);
            message_of(cursor_fields(f1, cur, sty));
        }
    } else {
        let j = rows_json(b.rows, spans);
        rows_fit(b.rows, spans);
        new_links_rise(a.links, b.links);
        links_fit(links);
        flat_fits(JsonModel::Str(b.title));
        let f1 = with_field(f0, 'r', spans.len() > 0, j);
        assert(field(f0, 'r') is None && field(f1, 'p') is None && field(f1, 'q') is None && field(
            f1,
            't',
        ) is None && field(f1, 'y') is None) by {
            broadcast use {field_of_with_field, field_of_none};

        }
        put(f0, 'r', spans.len() > 0, j);
        put_cursor(f1, cur, sty);
        let f2 = cursor_fields(f1, cur, sty);
        put(f2, 't', a.title != b.title, JsonModel::Str(b.title));
        let f3 = with_field(f2, 't', a.title != b.title, JsonModel::Str(b.title));
        assert(field(f3, 'y') is None) by {
            broadcast use field_of_with_field;

        }
        put(f3, 'y', links.len() > 0, links_json(links));
        message_of(with_field(f3, 'y', links.len() > 0, links_json(links)));
    }
}

/// The sizes of an image are read back from their texts as they are. Whole numbers are, and so is
/// what `Extent::of_pixels` returns.
pub open spec fn size_reads_back(p: PlacementModel) -> bool {
    (p.cols is Some ==> p.cols->Some_0.safe_within(0)) && (p.rows is Some
        ==> p.rows->Some_0.safe_within(0))
}

/// The sizes of all images are.
pub open spec fn sizes_read_back(images: Seq<PlacementModel>) -> bool {
    forall|i: int| #![trigger images[i]] 0 <= i < images.len() ==> size_reads_back(images[i])
}

proof fn placement_is_good(p: PlacementModel)
    requires
        p.cols is Some ==> is_number(p.cols->Some_0),
        p.rows is Some ==> is_number(p.rows->Some_0),
    ensures
        placement_json(p).canonical(),
        size_reads_back(p) ==> placement_json(p).safe_within(1),
{
    let f0 = Seq::<(char, JsonModel)>::empty();
    no_fields_are_good(0);
    let f1 = with_field(f0, 'r', true, signed_json(p.row));
    let f2 = with_field(f1, 'c', true, JsonModel::Uint(p.col as u64));
    let f3 = with_field(f2, 'w', p.cols is Some, p.cols->Some_0);
    let f4 = with_field(f3, 'h', p.rows is Some, p.rows->Some_0);
    let f5 = with_field(f4, 'k', true, JsonModel::Str(p.hash));
    assert(field(f0, 'r') is None && field(f1, 'c') is None && field(f2, 'w') is None && field(
        f3,
        'h',
    ) is None && field(f4, 'k') is None) by {
        broadcast use {field_of_with_field, field_of_none};

    }
    good_with_field(f0, 'r', true, signed_json(p.row));
    good_with_field(f1, 'c', true, JsonModel::Uint(p.col as u64));
    good_with_field(f2, 'w', p.cols is Some, p.cols->Some_0);
    good_with_field(f3, 'h', p.rows is Some, p.rows->Some_0);
    good_with_field(f4, 'k', true, JsonModel::Str(p.hash));
    good_object(f5);
    if size_reads_back(p) {
        safe_with_field(f0, 0, 'r', true, signed_json(p.row));
        safe_with_field(f1, 0, 'c', true, JsonModel::Uint(p.col as u64));
        safe_with_field(f2, 0, 'w', p.cols is Some, p.cols->Some_0);
        safe_with_field(f3, 0, 'h', p.rows is Some, p.rows->Some_0);
        safe_with_field(f4, 0, 'k', true, JsonModel::Str(p.hash));
        safe_object(f5, 0);
    }
}

proof fn images_are_good(images: Seq<PlacementModel>)
    requires
        sizes_are_numbers(images),
    ensures
        placements_json(images).canonical(),
        sizes_read_back(images) ==> placements_json(images).safe_within(member_depth()),
{
    let j = placements_json(images);
    let s = j->Arr_0;
    assert forall|i: int| #![trigger s[i]] 0 <= i < s.len() implies s[i].canonical() && (
    sizes_read_back(images) ==> s[i].safe_within(1)) by {
        placement_is_good(images[i]);
        assert(s[i] == placement_json(images[i]));
    }
    if sizes_read_back(images) {
        assert(j.safe_within(2));
        safe_deeper(j, 2, member_depth());
    }
}

proof fn colors_fit(c: (Color, Color))
    ensures
        fits_message(JsonModel::Arr(seq![color_json(c.0), color_json(c.1)])),
{
    color_fits(c.0, 1);
    color_fits(c.1, 1);
    let j = JsonModel::Arr(seq![color_json(c.0), color_json(c.1)]);
    assert(j.safe_within(2));
    safe_deeper(j, 2, member_depth());
    reveal(fits_message);
}

/// The message of a whole screen is canonical, and short enough to be read.
proof fn full_is_good(g: GridModel)
    requires
        rising(g.links),
        sizes_are_numbers(g.images),
    ensures
        full_json(g).canonical(),
        sizes_read_back(g.images) ==> full_json(g).safe_within(DEPTH_LIMIT as nat),
{
    let f0 = Seq::<(char, JsonModel)>::empty();
    no_fields_are_good(member_depth());
    all_rows_fit(g.rows);
    flat_fits(JsonModel::Uint(g.cols as u64));
    flat_fits(JsonModel::Uint(g.rows.len() as u64));
    cursor_fits(g.cursor);
    flat_fits(JsonModel::Uint(g.cursor_style as u64));
    colors_fit(g.default_colors);
    flat_fits(JsonModel::Str(g.title));
    links_fit(g.links);
    images_are_good(g.images);
    let colors = JsonModel::Arr(
        seq![color_json(g.default_colors.0), color_json(g.default_colors.1)],
    );
    let colored = g.default_colors != (Color::Default, Color::Default);
    let f1 = with_field(f0, 'd', true, all_rows_json(g.rows));
    let f2 = with_field(f1, 'w', true, JsonModel::Uint(g.cols as u64));
    let f3 = with_field(f2, 'h', true, JsonModel::Uint(g.rows.len() as u64));
    let f4 = with_field(f3, 'p', g.cursor is Some, cursor_json(g.cursor));
    let f5 = with_field(f4, 'q', g.cursor_style != 0, JsonModel::Uint(g.cursor_style as u64));
    let f6 = with_field(f5, 'e', colored, colors);
    let f7 = with_field(f6, 't', g.title.len() > 0, JsonModel::Str(g.title));
    let f8 = with_field(f7, 'y', g.links.len() > 0, links_json(g.links));
    let f9 = with_field(f8, 'i', g.images.len() > 0, placements_json(g.images));
    assert(field(f0, 'd') is None && field(f1, 'w') is None && field(f2, 'h') is None && field(
        f3,
        'p',
    ) is None && field(f4, 'q') is None && field(f5, 'e') is None && field(f6, 't') is None
        && field(f7, 'y') is None && field(f8, 'i') is None) by {
        broadcast use {field_of_with_field, field_of_none};

    }
    put(f0, 'd', true, all_rows_json(g.rows));
    put(f1, 'w', true, JsonModel::Uint(g.cols as u64));
    put(f2, 'h', true, JsonModel::Uint(g.rows.len() as u64));
    put(f3, 'p', g.cursor is Some, cursor_json(g.cursor));
    put(f4, 'q', g.cursor_style != 0, JsonModel::Uint(g.cursor_style as u64));
    put(f5, 'e', colored, colors);
    put(f6, 't', g.title.len() > 0, JsonModel::Str(g.title));
    put(f7, 'y', g.links.len() > 0, links_json(g.links));
    good_with_field(f8, 'i', g.images.len() > 0, placements_json(g.images));
    good_object(f9);
    if sizes_read_back(g.images) {
        safe_with_field(f8, member_depth(), 'i', g.images.len() > 0, placements_json(g.images));
        message_of(f9);
    }
}

/// The text of the message that turns one screen into another, `None` where a viewer would
/// see no change. Reading the text gives the message back; where a whole screen is sent that
/// takes images whose sizes are read back.
pub fn encode_delta(cur: &Frame, next: &Frame) -> (r: Option<String>)
    ensures
        r is Some <==> delta_json(cur@, next@) is Some,
        r is Some ==> (r->Some_0)@ == rendered(delta_json(cur@, next@)->Some_0),
        r is Some && (diffable(cur@, next@) || sizes_read_back(next@.images)) ==> parsed((r->Some_0)@)
            == delta_json(cur@, next@),
{
    let (a, b) = (cur.grid(), next.grid());
    if can_diff(a, b) {
        match diff_message(a, b) {
            Some(j) => {
                proof {
                    diff_is_good(a@, b@);
                }
                Some(render(&j))
            },
            None => None,
        }
    } else {
        let j = full_message_grid(b);
        proof {
            full_is_good(b@);
        }
        Some(render(&j))
    }
}

/// The text of the message that carries a whole screen.
pub fn full_message(frame: &Frame) -> (r: String)
    ensures
        r@ == rendered(full_json(frame@)),
        sizes_read_back(frame@.images) ==> parsed(r@) == Some(full_json(frame@)),
{
    let j = full_message_grid(frame.grid());
    proof {
        full_is_good(frame@);
    }
    render(&j)
}

/// The screen after the message that a text holds, `None` where it holds none.
pub fn apply_text(prev: &Frame, text: &str) -> (r: Option<Frame>)
    ensures
        r is Some <==> parsed(text@) is Some && read_message(parsed(text@)->Some_0) is Some,
        r is Some ==> (r->Some_0)@ == applied(
            prev@,
            read_message(parsed(text@)->Some_0)->Some_0,
        ),
{
    match decode(text) {
        Some(msg) => Some(apply_wire(prev, msg)),
        None => None,
    }
}

} // verus!
