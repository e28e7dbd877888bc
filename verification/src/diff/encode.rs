//! Writing wire messages: the whole screen, or what changed on it.
use vstd::prelude::*;

use crate::diff::block::{
    block_items, block_of, cell_at, cell_block, encode_block, span_cells, Block, BlockModel, Text,
};
use crate::diff::style::{
    color_json, encode_color, encode_style, flat_fields, flatten_into, style_fields,
};
use crate::json::{
    is_number, json_models, member_models, object, with_field, without_field, Fields, Json,
    JsonModel,
};
use crate::model::{
    glyphs, images_same, link_at, link_models, placement_models, rising, same_placements,
    CellStyle, Color, Glyph, Grid, GridModel, ImagePlacement, LinkMap, PlacementModel, StyledCell,
};
use crate::text::{digits, push_digits, text_len};

verus! {

// What changed.

/// Whether a cell changed between two rows. Beyond its end a row is blank.
pub open spec fn cell_changed(o: Seq<Glyph>, n: Seq<Glyph>, i: int) -> bool {
    cell_at(o, i) != cell_at(n, i)
}

/// The longer of two rows' lengths.
pub open spec fn longer(o: Seq<Glyph>, n: Seq<Glyph>) -> int {
    if o.len() < n.len() {
        n.len() as int
    } else {
        o.len() as int
    }
}

/// The first column before `end` that changed, from `i` on, or `end`.
pub open spec fn first_change(o: Seq<Glyph>, n: Seq<Glyph>, i: int, end: int) -> int
    decreases end - i,
{
    if i >= end || cell_changed(o, n, i) {
        i
    } else {
        first_change(o, n, i + 1, end)
    }
}

/// The last column before `end` that changed, or -1.
pub open spec fn last_change(o: Seq<Glyph>, n: Seq<Glyph>, end: int) -> int
    decreases end,
{
    if end <= 0 {
        -1
    } else if cell_changed(o, n, end - 1) {
        end - 1
    } else {
        last_change(o, n, end - 1)
    }
}

/// The least span of columns outside of which two rows are the same, `None` where they are the
/// same altogether.
pub open spec fn row_span_of(o: Seq<Glyph>, n: Seq<Glyph>) -> Option<(usize, usize)> {
    let hi = last_change(o, n, longer(o, n));
    if hi < 0 {
        None
    } else {
        Some((first_change(o, n, 0, longer(o, n)) as usize, hi as usize))
    }
}

/// What the first and the last change are.
pub proof fn changes_bound(o: Seq<Glyph>, n: Seq<Glyph>, i: int, end: int)
    requires
        0 <= i <= end,
    ensures
        i <= first_change(o, n, i, end) <= end,
        forall|k: int| i <= k < first_change(o, n, i, end) ==> !cell_changed(o, n, k),
        first_change(o, n, i, end) < end ==> cell_changed(o, n, first_change(o, n, i, end)),
        -1 <= last_change(o, n, end) < end || end == 0,
        forall|k: int| last_change(o, n, end) < k < end ==> !cell_changed(o, n, k),
        last_change(o, n, end) >= 0 ==> cell_changed(o, n, last_change(o, n, end)),
    decreases end - i, end,
{
    if i < end && !cell_changed(o, n, i) {
        changes_bound(o, n, i + 1, end);
    }
    last_change_bound(o, n, end);
}

proof fn last_change_bound(o: Seq<Glyph>, n: Seq<Glyph>, end: int)
    requires
        0 <= end,
    ensures
        -1 <= last_change(o, n, end) < end || end == 0,
        end == 0 ==> last_change(o, n, end) == -1,
        forall|k: int| last_change(o, n, end) < k < end ==> !cell_changed(o, n, k),
        last_change(o, n, end) >= 0 ==> cell_changed(o, n, last_change(o, n, end)),
    decreases end,
{
    if end > 0 && !cell_changed(o, n, end - 1) {
        last_change_bound(o, n, end - 1);
    }
}

/// The span of a row is the least one: both its ends changed, and nothing outside did. There
/// is none exactly where nothing changed.
pub proof fn row_span_is_least(o: Seq<Glyph>, n: Seq<Glyph>)
    requires
        o.len() <= usize::MAX,
        n.len() <= usize::MAX,
    ensures
        row_span_of(o, n) is None <==> forall|i: int| i >= 0 ==> !#[trigger] cell_changed(o, n, i),
        row_span_of(o, n) is Some ==> {
            let (lo, hi) = row_span_of(o, n)->Some_0;
            &&& lo <= hi < longer(o, n)
            &&& cell_changed(o, n, lo as int)
            &&& cell_changed(o, n, hi as int)
            &&& forall|i: int|
                i >= 0 && !(lo <= i <= hi) ==> !#[trigger] cell_changed(o, n, i)
        },
{
    let end = longer(o, n);
    changes_bound(o, n, 0, end);
    last_change_bound(o, n, end);
    assert forall|i: int| i >= end implies !#[trigger] cell_changed(o, n, i) by {}
    let hi = last_change(o, n, end);
    let lo = first_change(o, n, 0, end);
    if hi >= 0 {
        assert(cell_changed(o, n, hi));
        assert(lo <= hi) by {
            if lo > hi {
                assert(!cell_changed(o, n, hi));
            }
        }
        assert(cell_changed(o, n, lo));
    } else {
        assert forall|i: int| i >= 0 implies !#[trigger] cell_changed(o, n, i) by {
            if i < end {
                assert(hi < i < end);
            }
        }
    }
}

/// The rows that changed among the first `k`, with the span of each.
pub open spec fn changed_spans(a: Seq<Seq<Glyph>>, b: Seq<Seq<Glyph>>, k: int) -> Seq<
    (usize, usize, usize),
>
    decreases k,
{
    if k <= 0 {
        Seq::empty()
    } else {
        let before = changed_spans(a, b, k - 1);
        match row_span_of(a[k - 1], b[k - 1]) {
            Some((lo, hi)) => before.push(((k - 1) as usize, lo, hi)),
            None => before,
        }
    }
}

// The messages.

/// A changed row that is one cell of just one character.
pub open spec fn is_single(n: Seq<Glyph>, lo: int, hi: int) -> bool {
    lo == hi && cell_at(n, lo).text.len() == 1
}

/// The row and column that a row's message starts with.
pub open spec fn place_json(r: usize, l: usize) -> Seq<JsonModel> {
    seq![JsonModel::Uint(r as u64), JsonModel::Uint(l as u64)]
}

/// A changed row: `[row, left, "x", style]` for a single cell, else `[row, left, text, styles]`.
pub open spec fn row_json(n: Seq<Glyph>, r: usize, lo: usize, hi: usize) -> JsonModel {
    if is_single(n, lo as int, hi as int) {
        let cell = cell_at(n, lo as int);
        let items = place_json(r, lo).push(JsonModel::Str(cell.text));
        if cell.style == CellStyle::plain() {
            JsonModel::Arr(items)
        } else {
            JsonModel::Arr(items.push(object(style_fields(cell.style))))
        }
    } else {
        block_items(place_json(r, lo), block_of(span_cells(n, lo as int, hi + 1)))
    }
}

/// Whether a run is one string in one style.
pub open spec fn is_uniform(b: BlockModel) -> bool {
    b.text.len() == 1 && b.text[0] is Run && (b.style.len() == 0 || (b.style.len() == 1
        && b.style[0].0 == 0 && b.style[0].1 == b.text[0]->Run_0.len()))
}

/// The style of a run in one style.
pub open spec fn uniform_style(b: BlockModel) -> CellStyle {
    if b.style.len() == 0 {
        CellStyle::plain()
    } else {
        b.style[0].2
    }
}

/// A cursor on the wire: `null` where it is hidden.
pub open spec fn cursor_json(c: Option<(u16, u16)>) -> JsonModel {
    match c {
        Some((row, col)) => JsonModel::Arr(
            seq![JsonModel::Uint(row as u64), JsonModel::Uint(col as u64)],
        ),
        None => JsonModel::Null,
    }
}

/// The members that tell cursor and cursor style, where they changed.
pub open spec fn cursor_fields(
    f: Seq<(char, JsonModel)>,
    cur: Option<Option<(u16, u16)>>,
    sty: Option<u8>,
) -> Seq<(char, JsonModel)> {
    let f = with_field(f, 'p', cur is Some, cursor_json(cur->Some_0));
    with_field(f, 'q', sty is Some, JsonModel::Uint(sty->Some_0 as u64))
}

/// The entries of `b` whose ids `a` does not have.
pub open spec fn new_links(a: Seq<(u32, Seq<char>)>, b: Seq<(u32, Seq<char>)>) -> Seq<
    (u32, Seq<char>),
>
    decreases b.len(),
{
    if b.len() == 0 {
        Seq::empty()
    } else if link_at(a, b.last().0) is Some {
        new_links(a, b.drop_last())
    } else {
        new_links(a, b.drop_last()).push(b.last())
    }
}

/// A link table on the wire: an object from id to URI.
pub open spec fn links_json(links: Seq<(u32, Seq<char>)>) -> JsonModel {
    JsonModel::Obj(
        Seq::new(
            links.len(),
            |i: int| (digits(links[i].0 as nat), JsonModel::Str(links[i].1)),
        ),
    )
}

/// The cursor style that a change message tells.
pub open spec fn new_style(a: GridModel, b: GridModel) -> Option<u8> {
    if a.cursor_style != b.cursor_style {
        Some(b.cursor_style)
    } else {
        None
    }
}

/// The cursor that a change message tells: it goes along with a new style or title.
pub open spec fn new_cursor(a: GridModel, b: GridModel) -> Option<Option<(u16, u16)>> {
    if a.cursor != b.cursor || a.cursor_style != b.cursor_style || a.title != b.title {
        Some(b.cursor)
    } else {
        None
    }
}

/// The changed rows of a message.
pub open spec fn rows_json(b: Seq<Seq<Glyph>>, spans: Seq<(usize, usize, usize)>) -> JsonModel {
    JsonModel::Arr(
        Seq::new(
            spans.len(),
            |i: int| row_json(b[spans[i].0 as int], spans[i].0, spans[i].1, spans[i].2),
        ),
    )
}

/// A message of one string in one style.
pub open spec fn cell_message(
    r: usize,
    l: usize,
    text: Seq<char>,
    style: CellStyle,
    cur: Option<Option<(u16, u16)>>,
    sty: Option<u8>,
) -> JsonModel {
    let c = JsonModel::Arr(place_json(r, l).push(JsonModel::Str(text)));
    object(flat_fields(cursor_fields(with_field(Seq::empty(), 'c', true, c), cur, sty), style))
}

/// A message of one changed row.
pub open spec fn row_message(
    n: Seq<Glyph>,
    r: usize,
    lo: usize,
    hi: usize,
    cur: Option<Option<(u16, u16)>>,
    sty: Option<u8>,
) -> JsonModel {
    let b = block_of(span_cells(n, lo as int, hi + 1));
    if is_single(n, lo as int, hi as int) {
        let cell = cell_at(n, lo as int);
        cell_message(r, lo, cell.text, cell.style, cur, sty)
    } else if is_uniform(b) {
        cell_message(r, lo, b.text[0]->Run_0, uniform_style(b), cur, sty)
    } else {
        object(
            cursor_fields(
                with_field(Seq::empty(), 'l', true, row_json(n, r, lo, hi)),
                cur,
                sty,
            ),
        )
    }
}

/// What changed between two screens of one size, `None` where a viewer would see no change.
/// One changed row has a message of its own, unless title or links changed too.
pub open spec fn diff_json(a: GridModel, b: GridModel) -> Option<JsonModel> {
    let spans = changed_spans(a.rows, b.rows, b.rows.len() as int);
    let links = new_links(a.links, b.links);
    let cur = new_cursor(a, b);
    let sty = new_style(a, b);
    if spans.len() == 0 && cur is None {
        None
    } else if spans.len() == 1 && a.title == b.title && links.len() == 0 {
        let (r, lo, hi) = spans[0];
        Some(row_message(b.rows[r as int], r, lo, hi, cur, sty))
    } else {
        let f = with_field(Seq::empty(), 'r', spans.len() > 0, rows_json(b.rows, spans));
        let f = cursor_fields(f, cur, sty);
        let f = with_field(f, 't', a.title != b.title, JsonModel::Str(b.title));
        Some(object(with_field(f, 'y', links.len() > 0, links_json(links))))
    }
}

/// The rows of a whole screen.
pub open spec fn all_rows_json(rows: Seq<Seq<Glyph>>) -> JsonModel {
    JsonModel::Arr(
        Seq::new(rows.len(), |i: int| block_items(Seq::empty(), block_of(rows[i]))),
    )
}

/// The row of a placement on the wire.
pub open spec fn signed_json(n: i16) -> JsonModel {
    if n < 0 {
        JsonModel::Int(n as i64)
    } else {
        JsonModel::Uint(n as u64)
    }
}

/// An image placement on the wire.
pub open spec fn placement_json(p: PlacementModel) -> JsonModel {
    let f = with_field(Seq::empty(), 'r', true, signed_json(p.row));
    let f = with_field(f, 'c', true, JsonModel::Uint(p.col as u64));
    let f = with_field(f, 'w', p.cols is Some, p.cols->Some_0);
    let f = with_field(f, 'h', p.rows is Some, p.rows->Some_0);
    object(with_field(f, 'k', true, JsonModel::Str(p.hash)))
}

pub open spec fn placements_json(images: Seq<PlacementModel>) -> JsonModel {
    JsonModel::Arr(Seq::new(images.len(), |i: int| placement_json(images[i])))
}

/// The members of a message that carries a whole screen.
pub open spec fn full_fields(g: GridModel) -> Seq<(char, JsonModel)> {
    let f = with_field(Seq::empty(), 'd', true, all_rows_json(g.rows));
    let f = with_field(f, 'w', true, JsonModel::Uint(g.cols as u64));
    let f = with_field(f, 'h', true, JsonModel::Uint(g.rows.len() as u64));
    let f = with_field(f, 'p', g.cursor is Some, cursor_json(g.cursor));
    let f = with_field(f, 'q', g.cursor_style != 0, JsonModel::Uint(g.cursor_style as u64));
    let f = with_field(
        f,
        'e',
        g.default_colors != (Color::Default, Color::Default),
        JsonModel::Arr(seq![color_json(g.default_colors.0), color_json(g.default_colors.1)]),
    );
    let f = with_field(f, 't', g.title.len() > 0, JsonModel::Str(g.title));
    let f = with_field(f, 'y', g.links.len() > 0, links_json(g.links));
    with_field(f, 'i', g.images.len() > 0, placements_json(g.images))
}

/// A whole screen on the wire.
pub open spec fn full_json(g: GridModel) -> JsonModel {
    object(full_fields(g))
}

/// Whether a change message can turn one screen into the other: both have one size and one
/// source, and neither images nor default colours changed.
pub open spec fn diffable(a: GridModel, b: GridModel) -> bool {
    &&& a.cols == b.cols
    &&& a.rows.len() == b.rows.len()
    &&& a.source_epoch == b.source_epoch
    &&& same_placements(a.images, b.images)
    &&& a.default_colors == b.default_colors
}

/// The message that turns one screen into another.
pub open spec fn delta_json(a: GridModel, b: GridModel) -> Option<JsonModel> {
    if diffable(a, b) {
        diff_json(a, b)
    } else {
        Some(full_json(b))
    }
}

/// The source that a screen comes from is never told to viewers.
pub proof fn source_is_not_told(a: GridModel, b: GridModel, e: u64, f: u64)
    ensures
        full_json(GridModel { source_epoch: e, ..b }) == full_json(b),
        diff_json(GridModel { source_epoch: e, ..a }, GridModel { source_epoch: f, ..b })
            == diff_json(a, b),
{
}

/// A change of the source, of the size, of an image or of a default colour takes a full message,
/// even where every cell stays as it was.
pub proof fn source_switch_is_full(a: GridModel, b: GridModel)
    requires
        a.source_epoch != b.source_epoch || a.cols != b.cols || a.rows.len() != b.rows.len()
            || a.default_colors != b.default_colors || !same_placements(a.images, b.images),
    ensures
        delta_json(a, b) == Some(full_json(b)),
{
}

// Executable.

/// The least span of columns that changed.
pub fn row_span(old_row: &Vec<StyledCell>, new_row: &Vec<StyledCell>) -> (r: Option<(usize, usize)>)
    ensures
        r == row_span_of(glyphs(old_row@), glyphs(new_row@)),
{
    let ghost o = glyphs(old_row@);
    let ghost n = glyphs(new_row@);
    let blank = StyledCell::blank();
    let end: usize = if old_row.len() < new_row.len() {
        new_row.len()
    } else {
        old_row.len()
    };
    let mut hi: usize = end;
    while hi > 0 && same_at(old_row, new_row, hi - 1, &blank)
        invariant
            o == glyphs(old_row@),
            n == glyphs(new_row@),
            end == longer(o, n),
            hi <= end,
            blank@ == Glyph::blank(),
            last_change(o, n, end as int) == last_change(o, n, hi as int),
        decreases hi,
    {
        hi = hi - 1;
    }
    if hi == 0 {
        return None;
    }
    let mut lo: usize = 0;
    while same_at(old_row, new_row, lo, &blank)
        invariant
            o == glyphs(old_row@),
            n == glyphs(new_row@),
            end == longer(o, n),
            0 < hi <= end,
            lo < hi,
            cell_changed(o, n, hi - 1),
            blank@ == Glyph::blank(),
            first_change(o, n, 0, end as int) == first_change(o, n, lo as int, end as int),
        decreases hi - lo,
    {
        lo = lo + 1;
    }
    Some((lo, hi - 1))
}

fn same_at(
    old_row: &Vec<StyledCell>,
    new_row: &Vec<StyledCell>,
    i: usize,
    blank: &StyledCell,
) -> (r: bool)
    requires
        blank@ == Glyph::blank(),
    ensures
        r == !cell_changed(glyphs(old_row@), glyphs(new_row@), i as int),
{
    let a: &StyledCell = if i < old_row.len() {
        &old_row[i]
    } else {
        blank
    };
    let b: &StyledCell = if i < new_row.len() {
        &new_row[i]
    } else {
        blank
    };
    a.same(b)
}

/// The rows that changed, with the span of each.
pub fn grid_rows(a: &Grid, b: &Grid) -> (r: Vec<(usize, usize, usize)>)
    requires
        a@.rows.len() == b@.rows.len(),
    ensures
        r@ == changed_spans(a@.rows, b@.rows, b@.rows.len() as int),
{
    let mut r: Vec<(usize, usize, usize)> = Vec::new();
    for k in 0..b.rows.len()
        invariant
            a@.rows.len() == b@.rows.len(),
            r@ == changed_spans(a@.rows, b@.rows, k as int),
    {
        proof {
            assert(a@.rows[k as int] == glyphs(a.rows@[k as int]@));
            assert(b@.rows[k as int] == glyphs(b.rows@[k as int]@));
        }
        if let Some((lo, hi)) = row_span(&a.rows[k], &b.rows[k]) {
            r.push((k, lo, hi));
        }
    }
    r
}

fn single_cell(row: &Vec<StyledCell>, lo: usize, hi: usize) -> (r: Option<StyledCell>)
    ensures
        r is Some <==> is_single(glyphs(row@), lo as int, hi as int),
        r is Some ==> (r->Some_0)@ == cell_at(glyphs(row@), lo as int),
{
    if lo != hi {
        return None;
    }
    let cell = if lo < row.len() {
        row[lo].clone()
    } else {
        StyledCell::blank()
    };
    if one_character(&cell.text) {
        Some(cell)
    } else {
        None
    }
}

fn one_character(t: &String) -> (r: bool)
    ensures
        r == (t@.len() == 1),
{
    text_len(t) == 1
}

fn place(r: usize, l: usize) -> (v: Vec<Json>)
    ensures
        json_models(v@) == place_json(r, l),
{
    let mut v: Vec<Json> = Vec::new();
    v.push(Json::uint(r as u64));
    v.push(Json::uint(l as u64));
    proof {
        assert(json_models(v@) =~= place_json(r, l));
    }
    v
}

fn encode_row(row: &Vec<StyledCell>, r: usize, lo: usize, hi: usize) -> (j: Json)
    requires
        lo <= hi < usize::MAX,
    ensures
        j.model() == row_json(glyphs(row@), r, lo, hi),
{
    if let Some(cell) = single_cell(row, lo, hi) {
        let mut v = place(r, lo);
        let style = cell.style();
        let ghost text = cell.text@;
        v.push(Json::string(cell.text));
        proof {
            assert(json_models(v@) =~= place_json(r, lo).push(JsonModel::Str(text)));
        }
        if style != CellStyle::new() {
            let ghost before = json_models(v@);
            v.push(encode_style(&style));
            proof {
                assert(json_models(v@) =~= before.push(object(style_fields(style))));
            }
        }
        return Json::array(v);
    }
    let block = cell_block(row, lo, hi + 1);
    encode_block(place(r, lo), &block)
}

fn encode_cursor(c: Option<(u16, u16)>) -> (j: Json)
    ensures
        j.model() == cursor_json(c),
{
    match c {
        Some((row, col)) => {
            let mut v: Vec<Json> = Vec::new();
            v.push(Json::uint(row as u64));
            v.push(Json::uint(col as u64));
            proof {
                assert(json_models(v@) =~= cursor_json(c)->Arr_0);
            }
            Json::array(v)
        },
        None => Json::null(),
    }
}

fn add_cursor(f: Fields, cur: Option<Option<(u16, u16)>>, sty: Option<u8>) -> (r: Fields)
    ensures
        r@ == cursor_fields(f@, cur, sty),
{
    let f = match cur {
        Some(c) => f.add_field('p', encode_cursor(c)),
        None => {
            proof {
                without_field(f@, 'p', cursor_json(cur->Some_0));
            }
            f
        },
    };
    match sty {
        Some(s) => f.add_field('q', Json::uint(s as u64)),
        None => {
            proof {
                without_field(f@, 'q', JsonModel::Uint(sty->Some_0 as u64));
            }
            f
        },
    }
}

fn add_links(a: &LinkMap, b: &LinkMap) -> (r: Vec<(u32, String)>)
    ensures
        link_models(r@) == new_links(a@, b@),
{
    let mut r: Vec<(u32, String)> = Vec::new();
    let ghost all = b@;
    proof {
        assert(all.take(0) =~= Seq::empty());
        assert(link_models(r@) =~= Seq::empty());
    }
    let n: usize = b.len();
    for i in 0..n
        invariant
            all == b@,
            n == all.len(),
            link_models(r@) == new_links(a@, all.take(i as int)),
    {
        let (id, uri) = b.entry(i);
        proof {
            assert(all.take(i + 1).drop_last() =~= all.take(i as int));
            assert(all.take(i + 1).last() == (id, uri@));
        }
        if a.get(id).is_none() {
            let ghost before = link_models(r@);
            r.push((id, uri.clone()));
            proof {
                assert(link_models(r@) =~= before.push((id, uri@)));
            }
        }
    }
    proof {
        assert(all.take(all.len() as int) =~= all);
    }
    r
}

fn encode_links(links: &Vec<(u32, String)>) -> (j: Json)
    ensures
        j.model() == links_json(link_models(links@)),
{
    let mut v: Vec<(String, Json)> = Vec::new();
    for i in 0..links.len()
        invariant
            v@.len() == i,
            forall|k: int|
                0 <= k < i ==> (#[trigger] v@[k]).0@ == digits(links@[k].0 as nat)
                    && v@[k].1.model() == JsonModel::Str(links@[k].1@),
    {
        let mut key: String = String::new();
        push_digits(&mut key, links[i].0 as u64);
        proof {
            assert(key@ =~= digits(links@[i as int].0 as nat));
        }
        v.push((key, Json::string(links[i].1.clone())));
    }
    let j = Json::Obj(v);
    proof {
        j.model_of_kind();
        assert(member_models(v@) =~= links_json(link_models(links@))->Obj_0);
    }
    j
}

fn link_entries(m: &LinkMap) -> (r: Vec<(u32, String)>)
    ensures
        link_models(r@) == m@,
{
    let mut r: Vec<(u32, String)> = Vec::new();
    let n: usize = m.len();
    for i in 0..n
        invariant
            n == m@.len(),
            r@.len() == i,
            forall|k: int| 0 <= k < i ==> ((#[trigger] r@[k]).0, r@[k].1@) == m@[k],
    {
        let (id, uri) = m.entry(i);
        r.push((id, uri.clone()));
    }
    proof {
        assert(link_models(r@) =~= m@);
    }
    r
}

fn encode_cell_message(
    r: usize,
    l: usize,
    text: String,
    style: &CellStyle,
    cur: Option<Option<(u16, u16)>>,
    sty: Option<u8>,
) -> (j: Json)
    ensures
        j.model() == cell_message(r, l, text@, *style, cur, sty),
{
    let ghost t = text@;
    let mut v = place(r, l);
    v.push(Json::string(text));
    proof {
        assert(json_models(v@) =~= place_json(r, l).push(JsonModel::Str(t)));
    }
    let f = Fields::new().add_field('c', Json::array(v));
    let f = add_cursor(f, cur, sty);
    flatten_into(f, style).into_object()
}

fn uniform_text(b: &Block) -> (r: Option<String>)
    ensures
        r is Some <==> is_uniform(b@),
        r is Some ==> (r->Some_0)@ == b@.text[0]->Run_0,
{
    if b.text.len() != 1 || b.style.len() > 1 {
        return None;
    }
    proof {
        assert(b@.text[0] == b.text@[0]@);
    }
    match &b.text[0] {
        Text::Run(s) => {
            if b.style.len() == 0 || (b.style[0].0 == 0 && b.style[0].1 == text_len(
                s,
            )) {
                Some(s.clone())
            } else {
                None
            }
        },
        _ => None,
    }
}

fn encode_row_message(
    row: &Vec<StyledCell>,
    r: usize,
    lo: usize,
    hi: usize,
    cur: Option<Option<(u16, u16)>>,
    sty: Option<u8>,
) -> (j: Json)
    requires
        lo <= hi < usize::MAX,
    ensures
        j.model() == row_message(glyphs(row@), r, lo, hi, cur, sty),
{
    if let Some(cell) = single_cell(row, lo, hi) {
        let style = cell.style();
        return encode_cell_message(r, lo, cell.text, &style, cur, sty);
    }
    let block = cell_block(row, lo, hi + 1);
    if let Some(text) = uniform_text(&block) {
        let style = if block.style.len() == 0 {
            CellStyle::new()
        } else {
            block.style[0].2
        };
        return encode_cell_message(r, lo, text, &style, cur, sty);
    }
    let f = Fields::new().add_field('l', encode_row(row, r, lo, hi));
    add_cursor(f, cur, sty).into_object()
}

proof fn spans_are_small(a: Seq<Seq<Glyph>>, b: Seq<Seq<Glyph>>, k: int, bound: int)
    requires
        k <= a.len(),
        k <= b.len(),
        b.len() <= usize::MAX,
        forall|i: int| #![trigger a[i]] 0 <= i < a.len() ==> a[i].len() <= bound,
        forall|i: int| #![trigger b[i]] 0 <= i < b.len() ==> b[i].len() <= bound,
        bound <= usize::MAX,
    ensures
        forall|i: int|
            #![trigger changed_spans(a, b, k)[i]]
            0 <= i < changed_spans(a, b, k).len() ==> {
                let (r, lo, hi) = changed_spans(a, b, k)[i];
                r < k && lo <= hi < bound && Some((lo, hi)) == row_span_of(
                    a[r as int],
                    b[r as int],
                )
            },
    decreases k,
{
    if k > 0 {
        spans_are_small(a, b, k - 1, bound);
        row_span_is_least(a[k - 1], b[k - 1]);
    }
}

proof fn spans_in_range(a: &Grid, b: &Grid)
    requires
        a@.rows.len() == b@.rows.len(),
    ensures
        forall|i: int|
            #![trigger changed_spans(a@.rows, b@.rows, b@.rows.len() as int)[i]]
            0 <= i < changed_spans(a@.rows, b@.rows, b@.rows.len() as int).len() ==> {
                let (r, lo, hi) = changed_spans(a@.rows, b@.rows, b@.rows.len() as int)[i];
                r < b@.rows.len() && lo <= hi < usize::MAX
            },
{
    assert forall|i: int| #![trigger a@.rows[i]] 0 <= i < a@.rows.len() implies a@.rows[i].len()
        <= usize::MAX by {
        assert(a@.rows[i].len() == a.rows@[i].len() <= usize::MAX);
    }
    assert forall|i: int| #![trigger b@.rows[i]] 0 <= i < b@.rows.len() implies b@.rows[i].len()
        <= usize::MAX by {
        assert(b@.rows[i].len() == b.rows@[i].len() <= usize::MAX);
    }
    assert(b@.rows.len() == b.rows.len());
    spans_are_small(a@.rows, b@.rows, b@.rows.len() as int, usize::MAX as int);
}

fn encode_rows(b: &Grid, spans: &Vec<(usize, usize, usize)>) -> (j: Json)
    requires
        forall|i: int|
            #![trigger spans@[i]]
            0 <= i < spans@.len() ==> spans@[i].0 < b@.rows.len() && spans@[i].1 <= spans@[i].2
                < usize::MAX,
    ensures
        j.model() == rows_json(b@.rows, spans@),
{
    let mut v: Vec<Json> = Vec::new();
    for i in 0..spans.len()
        invariant
            forall|i: int|
                #![trigger spans@[i]]
                0 <= i < spans@.len() ==> spans@[i].0 < b@.rows.len() && spans@[i].1 <= spans@[i].2
                    < usize::MAX,
            v@.len() == i,
            forall|k: int|
                0 <= k < i ==> (#[trigger] v@[k]).model() == row_json(
                    b@.rows[spans@[k].0 as int],
                    spans@[k].0,
                    spans@[k].1,
                    spans@[k].2,
                ),
    {
        let (r, lo, hi) = spans[i];
        proof {
            assert(spans@[i as int] == (r, lo, hi));
            assert(b@.rows[r as int] == glyphs(b.rows@[r as int]@));
        }
        v.push(encode_row(&b.rows[r], r, lo, hi));
    }
    proof {
        assert(json_models(v@) =~= rows_json(b@.rows, spans@)->Arr_0);
    }
    Json::array(v)
}

fn same_cursor(a: Option<(u16, u16)>, b: Option<(u16, u16)>) -> (r: bool)
    ensures
        r == (a == b),
{
    match (a, b) {
        (Some(x), Some(y)) => x.0 == y.0 && x.1 == y.1,
        (None, None) => true,
        _ => false,
    }
}

/// Writes what changed between two screens of one size.
pub fn diff_message(a: &Grid, b: &Grid) -> (r: Option<Json>)
    requires
        a@.rows.len() == b@.rows.len(),
    ensures
        rising(b@.links),
        r is Some <==> diff_json(a@, b@) is Some,
        r is Some ==> diff_json(a@, b@) == Some((r->Some_0).model()),
{
    let spans = grid_rows(a, b);
    let _ = b.links.len();
    proof {
        spans_in_range(a, b);
    }
    let style_changed: bool = a.cursor_style != b.cursor_style;
    let title_changed: bool = !(a.title == b.title);
    let sty: Option<u8> = if style_changed {
        Some(b.cursor_style)
    } else {
        None
    };
    let cur: Option<Option<(u16, u16)>> = if !same_cursor(a.cursor, b.cursor) || style_changed
        || title_changed {
        Some(b.cursor)
    } else {
        None
    };
    if spans.len() == 0 && cur.is_none() {
        return None;
    }
    let links = add_links(&a.links, &b.links);
    proof {
        assert(links@.len() == new_links(a@.links, b@.links).len());
    }
    if spans.len() == 1 && !title_changed && links.len() == 0 {
        let (r, lo, hi) = spans[0];
        proof {
            assert(spans@[0] == (r, lo, hi));
            assert(b@.rows[r as int] == glyphs(b.rows@[r as int]@));
        }
        return Some(encode_row_message(&b.rows[r], r, lo, hi, cur, sty));
    }
    let f = Fields::new();
    let f = if spans.len() > 0 {
        f.add_field('r', encode_rows(b, &spans))
    } else {
        proof {
            without_field(f@, 'r', rows_json(b@.rows, spans@));
        }
        f
    };
    let f = add_cursor(f, cur, sty);
    let f = if title_changed {
        f.add_field('t', Json::string(b.title.clone()))
    } else {
        proof {
            without_field(f@, 't', JsonModel::Str(b@.title));
        }
        f
    };
    let f = if links.len() > 0 {
        f.add_field('y', encode_links(&links))
    } else {
        proof {
            without_field(f@, 'y', links_json(link_models(links@)));
        }
        f
    };
    Some(f.into_object())
}

fn encode_all_rows(g: &Grid) -> (j: Json)
    ensures
        j.model() == all_rows_json(g@.rows),
{
    let mut v: Vec<Json> = Vec::new();
    for i in 0..g.rows.len()
        invariant
            v@.len() == i,
            forall|k: int|
                0 <= k < i ==> (#[trigger] v@[k]).model() == block_items(
                    Seq::empty(),
                    block_of(g@.rows[k]),
                ),
    {
        let row = &g.rows[i];
        let block = cell_block(row, 0, row.len());
        let head: Vec<Json> = Vec::new();
        proof {
            assert(json_models(head@) =~= Seq::empty());
            assert(span_cells(glyphs(row@), 0, row@.len() as int) =~= glyphs(row@));
            assert(g@.rows[i as int] == glyphs(row@));
        }
        v.push(encode_block(head, &block));
    }
    proof {
        assert(json_models(v@) =~= all_rows_json(g@.rows)->Arr_0);
    }
    Json::array(v)
}

fn encode_placement(p: &ImagePlacement) -> (j: Json)
    ensures
        j.model() == placement_json(p@),
        p@.cols is Some ==> is_number(p@.cols->Some_0),
        p@.rows is Some ==> is_number(p@.rows->Some_0),
{
    let row = if p.row < 0 {
        Json::negative(p.row as i64)
    } else {
        Json::uint(p.row as u64)
    };
    let f = Fields::new().add_field('r', row).add_field('c', Json::uint(p.col as u64));
    let f = match &p.cols {
        Some(e) => f.add_field('w', e.to_json()),
        None => {
            proof {
                without_field(f@, 'w', p@.cols->Some_0);
            }
            f
        },
    };
    let f = match &p.rows {
        Some(e) => f.add_field('h', e.to_json()),
        None => {
            proof {
                without_field(f@, 'h', p@.rows->Some_0);
            }
            f
        },
    };
    f.add_field('k', Json::string(p.hash.clone())).into_object()
}

/// The sizes of the placements are numbers.
pub open spec fn sizes_are_numbers(images: Seq<PlacementModel>) -> bool {
    forall|i: int|
        #![trigger images[i]]
        0 <= i < images.len() ==> (images[i].cols is Some ==> is_number(
            images[i].cols->Some_0,
        )) && (images[i].rows is Some ==> is_number(images[i].rows->Some_0))
}

fn encode_placements(images: &Vec<ImagePlacement>) -> (j: Json)
    ensures
        j.model() == placements_json(placement_models(images@)),
        sizes_are_numbers(placement_models(images@)),
{
    let mut v: Vec<Json> = Vec::new();
    let ghost m = placement_models(images@);
    for i in 0..images.len()
        invariant
            m == placement_models(images@),
            v@.len() == i,
            forall|k: int|
                0 <= k < i ==> (#[trigger] v@[k]).model() == placement_json(m[k]),
            forall|k: int|
                #![trigger m[k]]
                0 <= k < i ==> (m[k].cols is Some ==> is_number(m[k].cols->Some_0))
                    && (m[k].rows is Some ==> is_number(m[k].rows->Some_0)),
    {
        proof {
            assert(m[i as int] == images@[i as int]@);
        }
        v.push(encode_placement(&images[i]));
    }
    proof {
        assert(json_models(v@) =~= placements_json(m)->Arr_0);
    }
    Json::array(v)
}

fn default_color(c: Color) -> (r: bool)
    ensures
        r == (c == Color::Default),
{
    c == Color::Default
}

/// Writes a whole screen.
pub fn full_message_grid(g: &Grid) -> (j: Json)
    ensures
        j.model() == full_json(g@),
        sizes_are_numbers(g@.images),
        rising(g@.links),
{
    let f = Fields::new().add_field('d', encode_all_rows(g)).add_field(
        'w',
        Json::uint(g.cols as u64),
    ).add_field('h', Json::uint(g.rows.len() as u64));
    let f = if g.cursor.is_some() {
        f.add_field('p', encode_cursor(g.cursor))
    } else {
        proof {
            without_field(f@, 'p', cursor_json(g@.cursor));
        }
        f
    };
    let f = if g.cursor_style != 0 {
        f.add_field('q', Json::uint(g.cursor_style as u64))
    } else {
        proof {
            without_field(f@, 'q', JsonModel::Uint(g@.cursor_style as u64));
        }
        f
    };
    let ghost colors = JsonModel::Arr(
        seq![color_json(g@.default_colors.0), color_json(g@.default_colors.1)],
    );
    let f = if default_color(g.default_colors.0) && default_color(g.default_colors.1) {
        proof {
            without_field(f@, 'e', colors);
        }
        f
    } else {
        let mut v: Vec<Json> = Vec::new();
        v.push(encode_color(g.default_colors.0));
        v.push(encode_color(g.default_colors.1));
        proof {
            assert(json_models(v@) =~= colors->Arr_0);
        }
        f.add_field('e', Json::array(v))
    };
    let f = if g.title.as_str().is_empty() {
        proof {
            without_field(f@, 't', JsonModel::Str(g@.title));
        }
        f
    } else {
        f.add_field('t', Json::string(g.title.clone()))
    };
    let entries = link_entries(&g.links);
    let f = if g.links.len() == 0 {
        proof {
            without_field(f@, 'y', links_json(g@.links));
        }
        f
    } else {
        f.add_field('y', encode_links(&entries))
    };
    let images = encode_placements(&g.images);
    let f = if g.images.len() == 0 {
        proof {
            without_field(f@, 'i', placements_json(g@.images));
        }
        f
    } else {
        f.add_field('i', images)
    };
    f.into_object()
}

/// Whether two screens have one size: a change of it takes a full message.
pub fn same_layout(a: &Grid, b: &Grid) -> (r: bool)
    ensures
        r == (a@.cols == b@.cols && a@.rows.len() == b@.rows.len()),
{
    a.cols == b.cols && a.rows.len() == b.rows.len()
}

/// Whether a change message can turn one screen into the other.
pub fn can_diff(a: &Grid, b: &Grid) -> (r: bool)
    ensures
        r == diffable(a@, b@),
{
    same_layout(a, b) && a.source_epoch == b.source_epoch
        && images_same(&a.images, &b.images) && a.default_colors.0 == b.default_colors.0
        && a.default_colors.1 == b.default_colors.1
}

} // verus!
