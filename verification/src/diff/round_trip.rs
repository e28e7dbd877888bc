//! What is read out of a message is what was written into it: a viewer that applies the
//! messages of a screen shows that screen.
use vstd::prelude::*;

use crate::diff::apply::{all_patched, applied, patched_row, rows_of};
use crate::diff::block::{
    block_items, block_of, block_round_trip, cell_at, cells_of, entry_cells, plain_cells,
    read_block, runs_json, runs_read_back, span_cells, style_of, styled_cells, styles_writable,
    text_of, texts_json, texts_read_back, BlockModel, TextModel,
};
use crate::diff::decode::{
    is_link, read_all_rows, read_cursor_change, read_cursor_style, read_full, read_id, read_images,
    read_links, read_message, read_placement, read_row, read_rows, MsgModel, PatchModel,
};
use crate::diff::encode::{
    all_rows_json, cell_changed, cell_message, changed_spans, cursor_fields, cursor_json,
    diff_json, diffable, full_fields, full_json, is_single, is_uniform, links_json, new_cursor,
    new_links, new_style, place_json, placement_json, placements_json, row_json, row_message,
    row_span_is_least, row_span_of, rows_json, signed_json, sizes_are_numbers, uniform_style,
};
use crate::diff::style::{
    color_json, color_round_trip, flat_fields, flat_style_round_trip, no_style_fields,
    style_fields, style_round_trip,
};
use crate::json::{
    field, field_of_none, field_of_with_field, is_number, member, member_of_object, object,
    with_field, JsonModel,
};
use crate::model::{
    link_at, link_at_merged, links_merged, merged_into_empty, rising, same_placements, CellStyle, Color, Glyph,
    GridModel, PlacementModel,
};
use crate::text::{digits, digits_spell};

verus! {

/// Every cell can be written: its underline style is at most 5.
pub open spec fn writable(rows: Seq<Seq<Glyph>>) -> bool {
    forall|r: int, i: int|
        #![trigger rows[r][i]]
        0 <= r < rows.len() && 0 <= i < rows[r].len() ==> rows[r][i].style.underline <= 5
}

/// No cell is without text. A blank is a space.
pub open spec fn filled(rows: Seq<Seq<Glyph>>) -> bool {
    forall|r: int, i: int|
        #![trigger rows[r][i]]
        0 <= r < rows.len() && 0 <= i < rows[r].len() ==> rows[r][i].text.len() > 0
}

/// No row is longer than the screen is wide.
pub open spec fn fits(g: GridModel) -> bool {
    forall|r: int| #![trigger g.rows[r]] 0 <= r < g.rows.len() ==> g.rows[r].len() <= g.cols
}

/// Two rows show the same. Beyond its end a row is blank.
pub open spec fn same_row(x: Seq<Glyph>, y: Seq<Glyph>) -> bool {
    forall|i: int| #![trigger cell_at(x, i)] i >= 0 ==> cell_at(x, i) == cell_at(y, i)
}

/// The rows of two screens show the same.
pub open spec fn same_rows(x: Seq<Seq<Glyph>>, y: Seq<Seq<Glyph>>) -> bool {
    x.len() == y.len() && forall|r: int|
        #![trigger x[r]]
        0 <= r < x.len() ==> same_row(x[r], y[r])
}

/// The ids that two link tables share stand for the same URIs.
pub open spec fn links_agree(a: Seq<(u32, Seq<char>)>, b: Seq<(u32, Seq<char>)>) -> bool {
    forall|id: u32|
        #![trigger link_at(a, id)]
        link_at(a, id) is Some && link_at(b, id) is Some ==> link_at(a, id) == link_at(b, id)
}

/// Every link of `b` is in `a` too.
pub open spec fn links_include(a: Seq<(u32, Seq<char>)>, b: Seq<(u32, Seq<char>)>) -> bool {
    forall|id: u32|
        #![trigger link_at(b, id)]
        link_at(b, id) is Some ==> link_at(a, id) == link_at(b, id)
}

// Rows.

proof fn style_over_one(t: Seq<char>, s: CellStyle)
    requires
        t.len() <= usize::MAX,
    ensures
        cells_of(
            BlockModel {
                text: seq![TextModel::Run(t)],
                style: seq![(0usize, t.len() as usize, s)],
            },
        ) == Seq::new(t.len(), |i: int| Glyph { text: seq![t[i]], style: s }),
        cells_of(BlockModel { text: seq![TextModel::Run(t)], style: Seq::empty() }) == Seq::new(
            t.len(),
            |i: int| Glyph::plain(seq![t[i]]),
        ),
{
    let text = seq![TextModel::Run(t)];
    let runs = seq![(0usize, t.len() as usize, s)];
    assert(text.drop_last() =~= Seq::empty());
    assert(runs.drop_last() =~= Seq::empty());
    let base = plain_cells(text);
    assert(plain_cells(text.drop_last()) =~= Seq::empty());
    assert(base =~= entry_cells(TextModel::Run(t)));
    assert(styled_cells(base, runs.drop_last()) =~= base);
    assert(styled_cells(base, runs) =~= Seq::new(
        t.len(),
        |i: int| Glyph { text: seq![t[i]], style: s },
    ));
    assert(styled_cells(base, Seq::empty()) =~= base);
}

/// A changed row is read as the cells it was written from.
proof fn row_read_back(n: Seq<Glyph>, r: usize, lo: usize, hi: usize)
    requires
        lo <= hi < usize::MAX,
        n.len() <= usize::MAX,
        forall|i: int|
            #![trigger n[i]]
            0 <= i < n.len() ==> n[i].style.underline <= 5,
    ensures
        read_row(row_json(n, r, lo, hi)) is Some,
        ({
            let p = read_row(row_json(n, r, lo, hi))->Some_0;
            p.r == r && p.l == lo && cells_of(p.block) == span_cells(n, lo as int, hi + 1)
        }),
{
    let j = row_json(n, r, lo, hi);
    let s = j->Arr_0;
    let cells = span_cells(n, lo as int, hi + 1);
    if is_single(n, lo as int, hi as int) {
        let cell = cell_at(n, lo as int);
        let t = cell.text;
        assert(t.len() == 1);
        assert(s[0] == JsonModel::Uint(r as u64));
        assert(s[1] == JsonModel::Uint(lo as u64));
        assert(s[2] == JsonModel::Str(t));
        style_over_one(t, cell.style);
        assert(seq![t[0]] =~= t);
        if cell.style == CellStyle::plain() {
            assert(s.len() == 3);
            assert(Seq::new(t.len(), |i: int| Glyph::plain(seq![t[i]])) =~= cells);
        } else {
            assert(s.len() == 4);
            assert(s[3] == object(style_fields(cell.style)));
            style_round_trip(cell.style);
            assert(Seq::new(t.len(), |i: int| Glyph { text: seq![t[i]], style: cell.style })
                =~= cells);
        }
    } else {
        let b = block_of(cells);
        assert forall|i: int| #![trigger cells[i]] 0 <= i < cells.len() implies
            cells[i].style.underline <= 5 by {
            if lo + i < n.len() {
                assert(cells[i] == n[lo + i]);
            }
        }
        styles_writable(cells);
        texts_read_back(b.text);
        runs_read_back(b.style);
        block_round_trip(cells);
        assert(s[0] == JsonModel::Uint(r as u64));
        assert(s[1] == JsonModel::Uint(lo as u64));
        assert(s[2] == texts_json(b.text));
        if b.style.len() == 0 {
            assert(s.len() == 3);
            assert(b.style =~= Seq::empty());
        } else {
            assert(s.len() == 4);
            assert(s[3] == runs_json(b.style));
        }
    }
}

/// Writing the changed span of a row into a row that shows the old one gives the new one.
proof fn row_patch_works(x: Seq<Glyph>, o: Seq<Glyph>, n: Seq<Glyph>, cols: int)
    requires
        same_row(x, o),
        x.len() <= cols,
        o.len() <= cols,
        n.len() <= cols,
        cols <= u16::MAX,
        row_span_of(o, n) is Some,
    ensures
        ({
            let (lo, hi) = row_span_of(o, n)->Some_0;
            let p = patched_row(x, lo as int, span_cells(n, lo as int, hi + 1), cols);
            same_row(p, n) && p.len() <= cols
        }),
        row_span_of(o, n)->Some_0.1 < cols,
{
    row_span_is_least(o, n);
    let (lo, hi) = row_span_of(o, n)->Some_0;
    let cells = span_cells(n, lo as int, hi + 1);
    let p = patched_row(x, lo as int, cells, cols);
    assert forall|i: int| #![trigger cell_at(p, i)] i >= 0 implies cell_at(p, i) == cell_at(
        n,
        i,
    ) by {
        if !(lo <= i <= hi) {
            assert(!cell_changed(o, n, i));
            assert(cell_at(x, i) == cell_at(o, i));
        }
    }
}

/// What the changes of the first `k` rows do to rows that show the old ones: those rows show
/// the new ones, the others stay.
proof fn patches_work(
    x: Seq<Seq<Glyph>>,
    a: Seq<Seq<Glyph>>,
    b: Seq<Seq<Glyph>>,
    patches: Seq<PatchModel>,
    k: int,
    cols: int,
)
    requires
        same_rows(x, a),
        a.len() == b.len(),
        0 <= k <= b.len() <= usize::MAX,
        0 <= cols <= u16::MAX,
        forall|r: int| #![trigger x[r]] 0 <= r < x.len() ==> x[r].len() <= cols,
        forall|r: int| #![trigger a[r]] 0 <= r < a.len() ==> a[r].len() <= cols,
        forall|r: int| #![trigger b[r]] 0 <= r < b.len() ==> b[r].len() <= cols,
        patches.len() == changed_spans(a, b, k).len(),
        forall|i: int|
            #![trigger patches[i]]
            0 <= i < patches.len() ==> {
                let (r, lo, hi) = changed_spans(a, b, k)[i];
                &&& patches[i].r == r
                &&& patches[i].l == lo
                &&& cells_of(patches[i].block) == span_cells(b[r as int], lo as int, hi + 1)
            },
    ensures
        all_patched(x, patches, cols).len() == x.len(),
        forall|r: int|
            #![trigger all_patched(x, patches, cols)[r]]
            0 <= r < k ==> same_row(all_patched(x, patches, cols)[r], b[r]),
        forall|r: int|
            #![trigger all_patched(x, patches, cols)[r]]
            k <= r < a.len() ==> all_patched(x, patches, cols)[r] == x[r],
        forall|r: int|
            #![trigger all_patched(x, patches, cols)[r]]
            0 <= r < a.len() ==> all_patched(x, patches, cols)[r].len() <= cols,
    decreases k,
{
    if k > 0 {
        let before = changed_spans(a, b, k - 1);
        let now = changed_spans(a, b, k);
        row_span_is_least(a[k - 1], b[k - 1]);
        assert(same_row(x[k - 1], a[k - 1]));
        if row_span_of(a[k - 1], b[k - 1]) is Some {
            let (lo, hi) = row_span_of(a[k - 1], b[k - 1])->Some_0;
            let front = patches.drop_last();
            assert forall|i: int| #![trigger front[i]] 0 <= i < front.len() implies ({
                let (r, lo, hi) = before[i];
                &&& front[i].r == r
                &&& front[i].l == lo
                &&& cells_of(front[i].block) == span_cells(b[r as int], lo as int, hi + 1)
            }) by {
                assert(front[i] == patches[i]);
                assert(now[i] == before[i]);
            }
            patches_work(x, a, b, front, k - 1, cols);
            row_patch_works(x[k - 1], a[k - 1], b[k - 1], cols);
            let last = patches[patches.len() - 1];
            assert(patches.last() == last);
            assert(now[patches.len() - 1] == ((k - 1) as usize, lo, hi));
            let y = all_patched(x, front, cols);
            assert(y[k - 1] == x[k - 1]);
        } else {
            patches_work(x, a, b, patches, k - 1, cols);
            assert forall|i: int| #![trigger cell_at(x[k - 1], i)] i >= 0 implies cell_at(
                x[k - 1],
                i,
            ) == cell_at(b[k - 1], i) by {
                assert(!cell_changed(a[k - 1], b[k - 1], i));
            }
            assert(same_row(x[k - 1], b[k - 1]));
        }
    } else if patches.len() > 0 {
        assert(false);
    }
}

proof fn spans_are_rows(a: Seq<Seq<Glyph>>, b: Seq<Seq<Glyph>>, k: int, cols: int)
    requires
        a.len() == b.len(),
        0 <= k <= b.len() <= usize::MAX,
        0 <= cols <= u16::MAX,
        forall|r: int| #![trigger a[r]] 0 <= r < a.len() ==> a[r].len() <= cols,
        forall|r: int| #![trigger b[r]] 0 <= r < b.len() ==> b[r].len() <= cols,
    ensures
        forall|i: int|
            #![trigger changed_spans(a, b, k)[i]]
            0 <= i < changed_spans(a, b, k).len() ==> {
                let (r, lo, hi) = changed_spans(a, b, k)[i];
                r < k && lo <= hi < cols
            },
    decreases k,
{
    if k > 0 {
        spans_are_rows(a, b, k - 1, cols);
        row_span_is_least(a[k - 1], b[k - 1]);
        let before = changed_spans(a, b, k - 1);
        let now = changed_spans(a, b, k);
        if row_span_of(a[k - 1], b[k - 1]) is Some {
            row_patch_works(a[k - 1], a[k - 1], b[k - 1], cols);
            let (lo, hi) = row_span_of(a[k - 1], b[k - 1])->Some_0;
            assert(now == before.push(((k - 1) as usize, lo, hi)));
        } else {
            assert(now == before);
        }
        assert forall|i: int| #![trigger now[i]] 0 <= i < now.len() implies ({
            let (r, lo, hi) = now[i];
            r < k && lo <= hi < cols
        }) by {
            if i < before.len() {
                assert(now[i] == before[i]);
            }
        }
    }
}

/// The changed rows of a message are read as the cells they were written from.
proof fn rows_read_back(b: Seq<Seq<Glyph>>, spans: Seq<(usize, usize, usize)>)
    requires
        writable(b),
        forall|r: int| #![trigger b[r]] 0 <= r < b.len() ==> b[r].len() <= usize::MAX,
        forall|i: int|
            #![trigger spans[i]]
            0 <= i < spans.len() ==> spans[i].0 < b.len() && spans[i].1 <= spans[i].2 < u16::MAX,
    ensures
        read_rows(rows_json(b, spans)) is Some,
        read_rows(rows_json(b, spans))->Some_0.len() == spans.len(),
        forall|i: int|
            #![trigger read_rows(rows_json(b, spans))->Some_0[i]]
            0 <= i < spans.len() ==> {
                let p = read_rows(rows_json(b, spans))->Some_0[i];
                let (r, lo, hi) = spans[i];
                &&& p.r == r
                &&& p.l == lo
                &&& cells_of(p.block) == span_cells(b[r as int], lo as int, hi + 1)
            },
{
    let j = rows_json(b, spans);
    assert forall|i: int| #![trigger j->Arr_0[i]] 0 <= i < j->Arr_0.len() implies read_row(
        j->Arr_0[i],
    ) is Some && ({
        let p = read_row(j->Arr_0[i])->Some_0;
        let (r, lo, hi) = spans[i];
        &&& p.r == r
        &&& p.l == lo
        &&& cells_of(p.block) == span_cells(b[r as int], lo as int, hi + 1)
    }) by {
        let (r, lo, hi) = spans[i];
        let n = b[r as int];
        assert(j->Arr_0[i] == row_json(n, r, lo, hi));
        assert forall|c: int| #![trigger n[c]] 0 <= c < n.len() implies n[c].style.underline <= 5 by {
            assert(b[r as int][c] == n[c]);
        }
        row_read_back(n, r, lo, hi);
    }
    let ps = read_rows(j)->Some_0;
    assert forall|i: int| #![trigger ps[i]] 0 <= i < spans.len() implies ({
        let p = ps[i];
        let (r, lo, hi) = spans[i];
        &&& p.r == r
        &&& p.l == lo
        &&& cells_of(p.block) == span_cells(b[r as int], lo as int, hi + 1)
    }) by {
        assert(ps[i] == read_row(j->Arr_0[i])->Some_0);
    }
}

// Links, cursor.

/// A link table is read as it was written.
proof fn links_read_back(links: Seq<(u32, Seq<char>)>)
    ensures
        read_links(Some(links_json(links))) == Some(links),
{
    let m = links_json(links)->Obj_0;
    assert forall|i: int| #![trigger m[i]] 0 <= i < m.len() implies is_link(m[i]) && read_id(
        m[i].0,
    ) == Some(links[i].0) && m[i].1 == JsonModel::Str(links[i].1) by {
        digits_spell(links[i].0 as nat);
        assert(m[i].0 == digits(links[i].0 as nat));
    }
    assert(read_links(Some(links_json(links)))->Some_0 =~= links);
}

proof fn cursor_reads_back(c: Option<(u16, u16)>)
    ensures
        read_cursor_change(Some(cursor_json(c))) == Some(Some(c)),
{
}

/// What the members of a change message say of cursor and cursor style.
proof fn cursor_fields_read_back(
    f: Seq<(char, JsonModel)>,
    cur: Option<Option<(u16, u16)>>,
    sty: Option<u8>,
)
    requires
        field(f, 'p') is None,
        field(f, 'q') is None,
    ensures
        read_cursor_change(field(cursor_fields(f, cur, sty), 'p')) == Some(cur),
        read_cursor_style(field(cursor_fields(f, cur, sty), 'q')) == Some(sty),
        cur is Some ==> field(cursor_fields(f, cur, sty), 'p') is Some,
        forall|k: char|
            k != 'p' && k != 'q' ==> #[trigger] field(cursor_fields(f, cur, sty), k) == field(
                f,
                k,
            ),
{
    broadcast use {field_of_with_field, field_of_none};

    if cur is Some {
        cursor_reads_back(cur->Some_0);
    }
}

/// The links that a change message adds: those of `b` that `a` does not have.
pub(crate) proof fn new_links_found(a: Seq<(u32, Seq<char>)>, b: Seq<(u32, Seq<char>)>, id: u32)
    ensures
        link_at(new_links(a, b), id) == if link_at(a, id) is Some {
            None
        } else {
            link_at(b, id)
        },
    decreases b.len(),
{
    if b.len() > 0 {
        new_links_found(a, b.drop_last(), id);
        let front = new_links(a, b.drop_last());
        if link_at(a, b.last().0) is None {
            assert(front.push(b.last()).drop_last() =~= front);
        }
    }
}

proof fn merged_links_include(
    x: Seq<(u32, Seq<char>)>,
    a: Seq<(u32, Seq<char>)>,
    b: Seq<(u32, Seq<char>)>,
)
    requires
        rising(x),
        links_include(x, a),
        links_agree(x, b),
    ensures
        links_include(links_merged(x, new_links(a, b)), b),
        rising(links_merged(x, new_links(a, b))),
{
    let m = links_merged(x, new_links(a, b));
    link_at_merged(x, new_links(a, b), 0);
    assert forall|id: u32| #![trigger link_at(b, id)] link_at(b, id) is Some implies link_at(m, id)
        == link_at(b, id) by {
        new_links_found(a, b, id);
        link_at_merged(x, new_links(a, b), id);
        if link_at(a, id) is Some {
            assert(link_at(x, id) == link_at(a, id));
            assert(link_at(x, id) == link_at(b, id));
        }
    }
}

// Messages of one row.

/// What a message of one string in one style is read as.
proof fn cell_message_read_back(
    r: usize,
    l: usize,
    text: Seq<char>,
    style: CellStyle,
    cur: Option<Option<(u16, u16)>>,
    sty: Option<u8>,
)
    requires
        style.underline <= 5,
        text.len() <= usize::MAX,
    ensures
        read_message(cell_message(r, l, text, style, cur, sty)) == Some(
            MsgModel::Patch {
                new_cur: cur,
                new_sty: sty,
                new_title: None,
                links: Seq::empty(),
                patches: seq![
                    PatchModel {
                        r,
                        l,
                        block: BlockModel {
                            text: seq![TextModel::Run(text)],
                            style: seq![(0usize, text.len() as usize, style)],
                        },
                    },
                ],
            },
        ),
{
    let c = JsonModel::Arr(place_json(r, l).push(JsonModel::Str(text)));
    let f0 = with_field(Seq::empty(), 'c', true, c);
    let f1 = cursor_fields(f0, cur, sty);
    let f2 = flat_fields(f1, style);
    assert(field(f0, 'p') is None && field(f0, 'q') is None && field(f0, 'c') == Some(c)
        && no_style_fields(f0)) by {
        broadcast use {field_of_with_field, field_of_none};

    }
    cursor_fields_read_back(f0, cur, sty);
    assert(no_style_fields(f1));
    flat_style_round_trip(f1, style);
    flat_keeps(f1, style, 'c');
    flat_keeps(f1, style, 'p');
    flat_keeps(f1, style, 'q');
    member_of_object(f2, 'c');
    member_of_object(f2, 'p');
    member_of_object(f2, 'q');
    let s = c->Arr_0;
    assert(s.len() == 3 && s[0] == JsonModel::Uint(r as u64) && s[1] == JsonModel::Uint(l as u64)
        && s[2] == JsonModel::Str(text));
}

/// The members of a style leave the others as they are.
proof fn flat_keeps(f: Seq<(char, JsonModel)>, s: CellStyle, k: char)
    requires
        k == 'c' || k == 'p' || k == 'q',
    ensures
        field(flat_fields(f, s), k) == field(f, k),
{
    broadcast use {field_of_with_field, field_of_none};

}

/// What a message of one row is read as: the cells of the row's changed span.
proof fn row_message_read_back(
    n: Seq<Glyph>,
    r: usize,
    lo: usize,
    hi: usize,
    cur: Option<Option<(u16, u16)>>,
    sty: Option<u8>,
)
    requires
        lo <= hi < usize::MAX,
        n.len() <= usize::MAX,
        forall|i: int|
            #![trigger n[i]]
            0 <= i < n.len() ==> n[i].style.underline <= 5,
    ensures
        read_message(row_message(n, r, lo, hi, cur, sty)) is Some,
        read_message(row_message(n, r, lo, hi, cur, sty))->Some_0 is Patch,
        ({
            let m = read_message(row_message(n, r, lo, hi, cur, sty))->Some_0;
            &&& m->new_cur == cur
            &&& m->new_sty == sty
            &&& m->new_title is None
            &&& m->Patch_links == Seq::<(u32, Seq<char>)>::empty()
            &&& m->patches.len() == 1
            &&& m->patches[0].r == r
            &&& m->patches[0].l == lo
            &&& cells_of(m->patches[0].block) == span_cells(n, lo as int, hi + 1)
        }),
{
    let cells = span_cells(n, lo as int, hi + 1);
    assert forall|i: int| #![trigger cells[i]] 0 <= i < cells.len() implies
        cells[i].style.underline <= 5 by {
        if lo + i < n.len() {
            assert(cells[i] == n[lo + i]);
        }
    }
    let b = block_of(cells);
    if is_single(n, lo as int, hi as int) {
        let cell = cell_at(n, lo as int);
        assert(cells[0] == cell);
        cell_message_read_back(r, lo, cell.text, cell.style, cur, sty);
        style_over_one(cell.text, cell.style);
        assert(seq![cell.text[0]] =~= cell.text);
        assert(Seq::new(cell.text.len(), |i: int| Glyph { text: seq![cell.text[i]], style: cell.style })
            =~= cells);
    } else if is_uniform(b) {
        let t = b.text[0]->Run_0;
        let s = uniform_style(b);
        styles_writable(cells);
        block_round_trip(cells);
        assert(b.text =~= seq![TextModel::Run(t)]);
        uniform_run_len(cells, t);
        assert(s.underline <= 5) by {
            if b.style.len() > 0 {
                assert(b.style[0].2.underline <= 5);
            }
        }
        cell_message_read_back(r, lo, t, s, cur, sty);
        style_over_one(t, s);
        if b.style.len() == 0 {
            assert(b.style =~= Seq::empty());
            assert(Seq::new(t.len(), |i: int| Glyph { text: seq![t[i]], style: s }) =~= cells);
        } else {
            assert(b.style =~= seq![(0usize, t.len() as usize, s)]);
        }
    } else {
        row_read_back(n, r, lo, hi);
        let j = row_json(n, r, lo, hi);
        let f0 = with_field(Seq::empty(), 'l', true, j);
        let f1 = cursor_fields(f0, cur, sty);
        assert(field(f0, 'p') is None && field(f0, 'q') is None && field(f0, 'l') == Some(j)
            && field(f0, 'c') is None) by {
            broadcast use {field_of_with_field, field_of_none};

        }
        cursor_fields_read_back(f0, cur, sty);
        member_of_object(f1, 'c');
        member_of_object(f1, 'l');
        member_of_object(f1, 'p');
        member_of_object(f1, 'q');
    }
}

proof fn uniform_run_len(cells: Seq<Glyph>, t: Seq<char>)
    requires
        cells.len() <= usize::MAX,
        text_of(cells) == seq![TextModel::Run(t)],
    ensures
        t.len() == cells.len(),
{
    block_round_trip(cells);
    let text = seq![TextModel::Run(t)];
    assert(text.drop_last() =~= Seq::empty());
    let base = plain_cells(text);
    assert(plain_cells(text.drop_last()) =~= Seq::empty());
    assert(text.last() == TextModel::Run(t));
    assert(base =~= entry_cells(TextModel::Run(t)));
    styled_keeps_len(base, style_of(cells));
}

proof fn styled_keeps_len(base: Seq<Glyph>, runs: Seq<(usize, usize, CellStyle)>)
    ensures
        styled_cells(base, runs).len() == base.len(),
    decreases runs.len(),
{
    if runs.len() > 0 {
        styled_keeps_len(base, runs.drop_last());
    }
}

// The laws.

/// Where the messages say that nothing changed, nothing that a viewer sees did: rows, cursor,
/// cursor style and title are the same.
pub proof fn no_message_no_change(a: GridModel, b: GridModel)
    requires
        diffable(a, b),
        fits(a),
        fits(b),
        b.rows.len() <= usize::MAX,
    ensures
        diff_json(a, b) is None <==> same_rows(a.rows, b.rows) && a.cursor == b.cursor
            && a.cursor_style == b.cursor_style && a.title == b.title,
{
    let n = b.rows.len() as int;
    spans_empty(a.rows, b.rows, n, b.cols as int);
    if changed_spans(a.rows, b.rows, n).len() == 0 {
        assert forall|r: int| #![trigger a.rows[r]] 0 <= r < a.rows.len() implies same_row(
            a.rows[r],
            b.rows[r],
        ) by {}
    }
}

proof fn spans_empty(a: Seq<Seq<Glyph>>, b: Seq<Seq<Glyph>>, k: int, cols: int)
    requires
        a.len() == b.len(),
        0 <= k <= b.len() <= usize::MAX,
        0 <= cols <= u16::MAX,
        forall|r: int| #![trigger a[r]] 0 <= r < a.len() ==> a[r].len() <= cols,
        forall|r: int| #![trigger b[r]] 0 <= r < b.len() ==> b[r].len() <= cols,
    ensures
        changed_spans(a, b, k).len() == 0 <==> forall|r: int|
            #![trigger a[r]]
            0 <= r < k ==> same_row(a[r], b[r]),
    decreases k,
{
    if k > 0 {
        spans_empty(a, b, k - 1, cols);
        row_span_is_least(a[k - 1], b[k - 1]);
        if row_span_of(a[k - 1], b[k - 1]) is Some {
            let (lo, hi) = row_span_of(a[k - 1], b[k - 1])->Some_0;
            assert(cell_changed(a[k - 1], b[k - 1], lo as int));
            assert(!same_row(a[k - 1], b[k - 1])) by {
                assert(cell_at(a[k - 1], lo as int) != cell_at(b[k - 1], lo as int));
            }
        } else {
            assert forall|i: int| #![trigger cell_at(a[k - 1], i)] i >= 0 implies cell_at(
                a[k - 1],
                i,
            ) == cell_at(b[k - 1], i) by {
                assert(!cell_changed(a[k - 1], b[k - 1], i));
            }
            assert(same_row(a[k - 1], b[k - 1]));
        }
    }
}

/// Whether a viewer's screen `x` shows the screen `g`: every row cell by cell, the cursor and
/// its style, title, default colours and images. It knows every link of `g`, and may know more.
pub open spec fn shows(x: GridModel, g: GridModel) -> bool {
    &&& x.cols == g.cols
    &&& same_rows(x.rows, g.rows)
    &&& x.cursor == g.cursor
    &&& x.cursor_style == g.cursor_style
    &&& x.title == g.title
    &&& x.default_colors == g.default_colors
    &&& x.images == g.images || same_placements(x.images, g.images)
    &&& links_include(x.links, g.links)
    &&& fits(x)
    &&& rising(x.links)
}

/// A viewer that shows `a` and applies the message for the change to `b` shows `b`. So it does
/// after any number of messages.
pub proof fn change_round_trip(x: GridModel, a: GridModel, b: GridModel)
    requires
        shows(x, a),
        diffable(a, b),
        same_placements(x.images, b.images),
        fits(a),
        fits(b),
        b.rows.len() <= usize::MAX,
        writable(b.rows),
        links_agree(x.links, b.links),
        diff_json(a, b) is Some,
    ensures
        read_message(diff_json(a, b)->Some_0) is Some,
        shows(applied(x, read_message(diff_json(a, b)->Some_0)->Some_0), b),
        applied(x, read_message(diff_json(a, b)->Some_0)->Some_0).links == links_merged(
            x.links,
            new_links(a.links, b.links),
        ),
        applied(x, read_message(diff_json(a, b)->Some_0)->Some_0).images == x.images,
{
    let n = b.rows.len() as int;
    let cols = b.cols as int;
    let spans = changed_spans(a.rows, b.rows, n);
    let links = new_links(a.links, b.links);
    let cur = new_cursor(a, b);
    let sty = new_style(a, b);
    spans_are_rows(a.rows, b.rows, n, cols);
    merged_links_include(x.links, a.links, b.links);
    if spans.len() == 1 && a.title == b.title && links.len() == 0 {
        let (r, lo, hi) = spans[0];
        let row = b.rows[r as int];
        assert forall|i: int| #![trigger row[i]] 0 <= i < row.len() implies
            row[i].style.underline <= 5 by {
            assert(b.rows[r as int][i] == row[i]);
        }
        row_message_read_back(row, r, lo, hi, cur, sty);
        let m = read_message(row_message(row, r, lo, hi, cur, sty))->Some_0;
        patches_work(x.rows, a.rows, b.rows, m->patches, n, cols);
        assert(links =~= Seq::empty());
    } else {
        rows_read_back(b.rows, spans);
        links_read_back(links);
        let j = rows_json(b.rows, spans);
        let f1 = with_field(Seq::empty(), 'r', spans.len() > 0, j);
        let f2 = cursor_fields(f1, cur, sty);
        let f3 = with_field(f2, 't', a.title != b.title, JsonModel::Str(b.title));
        let f4 = with_field(f3, 'y', links.len() > 0, links_json(links));
        general_message_members(f1, f2, f3, f4, a, b);
        if spans.len() == 0 {
            assert(spans =~= Seq::empty());
            patches_work(x.rows, a.rows, b.rows, Seq::empty(), n, cols);
        } else {
            let ps = read_rows(j)->Some_0;
            patches_work(x.rows, a.rows, b.rows, ps, n, cols);
        }
        if links.len() == 0 {
            assert(links =~= Seq::empty());
        }
    }
}

/// Where there is no message for a change to `b`, a viewer that shows `a` shows all of `b` but
/// links that no cell of `b` needs to have been told of.
pub proof fn no_message_shows_on(x: GridModel, a: GridModel, b: GridModel)
    requires
        shows(x, a),
        diffable(a, b),
        fits(a),
        fits(b),
        b.rows.len() <= usize::MAX,
        diff_json(a, b) is None,
    ensures
        same_rows(x.rows, b.rows),
        x.cursor == b.cursor,
        x.cursor_style == b.cursor_style,
        x.title == b.title,
{
    no_message_no_change(a, b);
    assert forall|r: int| #![trigger x.rows[r]] 0 <= r < x.rows.len() implies same_row(
        x.rows[r],
        b.rows[r],
    ) by {
        assert(same_row(x.rows[r], a.rows[r]));
        assert(same_row(a.rows[r], b.rows[r]));
        assert forall|i: int| #![trigger cell_at(x.rows[r], i)] i >= 0 implies cell_at(
            x.rows[r],
            i,
        ) == cell_at(b.rows[r], i) by {
            assert(cell_at(a.rows[r], i) == cell_at(b.rows[r], i));
        }
    }
}

/// The members of a general change message.
proof fn general_message_members(
    f1: Seq<(char, JsonModel)>,
    f2: Seq<(char, JsonModel)>,
    f3: Seq<(char, JsonModel)>,
    f4: Seq<(char, JsonModel)>,
    a: GridModel,
    b: GridModel,
)
    requires
        ({
            let spans = changed_spans(a.rows, b.rows, b.rows.len() as int);
            let links = new_links(a.links, b.links);
            &&& f1 == with_field(Seq::empty(), 'r', spans.len() > 0, rows_json(b.rows, spans))
            &&& f2 == cursor_fields(f1, new_cursor(a, b), new_style(a, b))
            &&& f3 == with_field(f2, 't', a.title != b.title, JsonModel::Str(b.title))
            &&& f4 == with_field(f3, 'y', links.len() > 0, links_json(links))
        }),
    ensures
        ({
            let spans = changed_spans(a.rows, b.rows, b.rows.len() as int);
            let links = new_links(a.links, b.links);
            let m = object(f4)->Obj_0;
            &&& member(m, 'c') is None
            &&& member(m, 'l') is None
            &&& member(m, 'd') is None
            &&& member(m, 'r') == if spans.len() > 0 {
                Some(rows_json(b.rows, spans))
            } else {
                None
            }
            &&& new_cursor(a, b) is Some ==> member(m, 'p') is Some
            &&& read_cursor_change(member(m, 'p')) == Some(new_cursor(a, b))
            &&& read_cursor_style(member(m, 'q')) == Some(new_style(a, b))
            &&& member(m, 't') == if a.title != b.title {
                Some(JsonModel::Str(b.title))
            } else {
                None
            }
            &&& member(m, 'y') == if links.len() > 0 {
                Some(links_json(links))
            } else {
                None
            }
        }),
{
    let spans = changed_spans(a.rows, b.rows, b.rows.len() as int);
    assert(field(f1, 'p') is None && field(f1, 'q') is None && field(f1, 'c') is None && field(
        f1,
        'l',
    ) is None && field(f1, 'd') is None && field(f1, 't') is None && field(f1, 'y') is None
        && field(f1, 'r') == if spans.len() > 0 {
        Some(rows_json(b.rows, spans))
    } else {
        None
    }) by {
        broadcast use {field_of_with_field, field_of_none};

    }
    cursor_fields_read_back(f1, new_cursor(a, b), new_style(a, b));
    member_of_object(f4, 'c');
    member_of_object(f4, 'l');
    member_of_object(f4, 'd');
    member_of_object(f4, 'r');
    member_of_object(f4, 'p');
    member_of_object(f4, 'q');
    member_of_object(f4, 't');
    member_of_object(f4, 'y');
    broadcast use field_of_with_field;

}

/// The screen that a message of a whole screen stands for: all of it but where it came from and
/// the payloads of its images.
pub open spec fn as_received(g: GridModel) -> GridModel {
    GridModel { source_epoch: 0, image_data: Seq::empty(), ..g }
}

proof fn all_rows_read_back(rows: Seq<Seq<Glyph>>)
    requires
        writable(rows),
        forall|r: int| #![trigger rows[r]] 0 <= r < rows.len() ==> rows[r].len() <= usize::MAX,
    ensures
        read_all_rows(all_rows_json(rows)) is Some,
        rows_of(read_all_rows(all_rows_json(rows))->Some_0) == rows,
{
    let j = all_rows_json(rows);
    assert forall|i: int| #![trigger j->Arr_0[i]] 0 <= i < j->Arr_0.len() implies read_block(
        j->Arr_0[i],
    ) == Some(block_of(rows[i])) by {
        let cells = rows[i];
        let b = block_of(cells);
        assert(j->Arr_0[i] == block_items(Seq::empty(), b));
        assert forall|c: int| #![trigger cells[c]] 0 <= c < cells.len() implies
            cells[c].style.underline <= 5 by {
            assert(rows[i][c] == cells[c]);
        }
        styles_writable(cells);
        texts_read_back(b.text);
        runs_read_back(b.style);
        let s = j->Arr_0[i]->Arr_0;
        assert(s[0] == texts_json(b.text));
        if b.style.len() == 0 {
            assert(b.style =~= Seq::empty());
            assert(s.len() == 1);
        } else {
            assert(s.len() == 2);
            assert(s[1] == runs_json(b.style));
        }
    }
    let blocks = read_all_rows(j)->Some_0;
    assert forall|i: int| 0 <= i < rows.len() implies #[trigger] rows_of(blocks)[i] == rows[i] by {
        assert(blocks[i] == read_block(j->Arr_0[i])->Some_0);
        block_round_trip(rows[i]);
    }
    assert(rows_of(blocks) =~= rows);
}

proof fn placement_reads_back(p: PlacementModel)
    requires
        p.cols is Some ==> is_number(p.cols->Some_0),
        p.rows is Some ==> is_number(p.rows->Some_0),
    ensures
        read_placement(placement_json(p)) == Some(p),
{
    let f1 = with_field(Seq::empty(), 'r', true, signed_json(p.row));
    let f2 = with_field(f1, 'c', true, JsonModel::Uint(p.col as u64));
    let f3 = with_field(f2, 'w', p.cols is Some, p.cols->Some_0);
    let f4 = with_field(f3, 'h', p.rows is Some, p.rows->Some_0);
    let f5 = with_field(f4, 'k', true, JsonModel::Str(p.hash));
    assert(field(f5, 'r') == Some(signed_json(p.row)) && field(f5, 'c') == Some(
        JsonModel::Uint(p.col as u64),
    ) && field(f5, 'w') == p.cols && field(f5, 'h') == p.rows && field(f5, 'k') == Some(
        JsonModel::Str(p.hash),
    )) by {
        broadcast use {field_of_with_field, field_of_none};

    }
    member_of_object(f5, 'r');
    member_of_object(f5, 'c');
    member_of_object(f5, 'w');
    member_of_object(f5, 'h');
    member_of_object(f5, 'k');
}

proof fn images_read_back(images: Seq<PlacementModel>)
    requires
        sizes_are_numbers(images),
    ensures
        read_images(Some(placements_json(images))) == Some(images),
{
    let j = placements_json(images);
    assert forall|i: int| #![trigger j->Arr_0[i]] 0 <= i < j->Arr_0.len() implies read_placement(
        j->Arr_0[i],
    ) == Some(images[i]) by {
        placement_reads_back(images[i]);
        assert(j->Arr_0[i] == placement_json(images[i]));
    }
    assert(read_images(Some(j))->Some_0 =~= images);
}

/// The members of a whole screen's message.
proof fn full_members(g: GridModel)
    ensures
        ({
            let m = full_json(g)->Obj_0;
            &&& member(m, 'c') is None
            &&& member(m, 'l') is None
            &&& member(m, 'r') is None
            &&& member(m, 'd') == Some(all_rows_json(g.rows))
            &&& member(m, 'w') == Some(JsonModel::Uint(g.cols as u64))
            &&& member(m, 'p') == if g.cursor is Some {
                Some(cursor_json(g.cursor))
            } else {
                None
            }
            &&& member(m, 'q') == if g.cursor_style != 0 {
                Some(JsonModel::Uint(g.cursor_style as u64))
            } else {
                None
            }
            &&& member(m, 'e') == if g.default_colors != (Color::Default, Color::Default) {
                Some(
                    JsonModel::Arr(
                        seq![color_json(g.default_colors.0), color_json(g.default_colors.1)],
                    ),
                )
            } else {
                None
            }
            &&& member(m, 't') == if g.title.len() > 0 {
                Some(JsonModel::Str(g.title))
            } else {
                None
            }
            &&& member(m, 'y') == if g.links.len() > 0 {
                Some(links_json(g.links))
            } else {
                None
            }
            &&& member(m, 'i') == if g.images.len() > 0 {
                Some(placements_json(g.images))
            } else {
                None
            }
        }),
{
    let f = full_fields(g);
    member_of_object(f, 'c');
    member_of_object(f, 'l');
    member_of_object(f, 'r');
    member_of_object(f, 'd');
    member_of_object(f, 'w');
    member_of_object(f, 'p');
    member_of_object(f, 'q');
    member_of_object(f, 'e');
    member_of_object(f, 't');
    member_of_object(f, 'y');
    member_of_object(f, 'i');
    broadcast use {field_of_with_field, field_of_none};

}

/// A viewer that gets a whole screen shows just that screen, whatever it showed before.
pub proof fn full_round_trip(g: GridModel, before: GridModel)
    requires
        writable(g.rows),
        forall|r: int| #![trigger g.rows[r]] 0 <= r < g.rows.len() ==> g.rows[r].len() <= usize::MAX,
        rising(g.links),
        sizes_are_numbers(g.images),
    ensures
        read_message(full_json(g)) is Some,
        applied(before, read_message(full_json(g))->Some_0) == as_received(g),
        fits(g) ==> shows(as_received(g), g),
{
    full_members(g);
    all_rows_read_back(g.rows);
    links_read_back(g.links);
    images_read_back(g.images);
    merged_into_empty(g.links);
    color_round_trip(g.default_colors.0);
    color_round_trip(g.default_colors.1);
    let m = full_json(g)->Obj_0;
    if g.cursor is Some {
        cursor_reads_back(g.cursor);
    }
    if g.links.len() == 0 {
        assert(g.links =~= Seq::empty());
    }
    if g.images.len() == 0 {
        assert(g.images =~= Seq::empty());
    }
    if g.title.len() == 0 {
        assert(g.title =~= Seq::empty());
    }
    assert(read_full(m, all_rows_json(g.rows)) is Some);
}

/// A change never makes a row longer than the screen is wide.
pub proof fn rows_stay_inside(rows: Seq<Seq<Glyph>>, patches: Seq<PatchModel>, cols: int)
    requires
        cols >= 0,
        forall|r: int| #![trigger rows[r]] 0 <= r < rows.len() ==> rows[r].len() <= cols,
    ensures
        all_patched(rows, patches, cols).len() == rows.len(),
        forall|r: int|
            #![trigger all_patched(rows, patches, cols)[r]]
            0 <= r < rows.len() ==> all_patched(rows, patches, cols)[r].len() <= cols,
    decreases patches.len(),
{
    if patches.len() > 0 {
        rows_stay_inside(rows, patches.drop_last(), cols);
    }
}

} // verus!
