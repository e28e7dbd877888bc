//! A run of cells on the wire: its text, and the styles over it.
use vstd::prelude::*;
use vstd::string::StrSliceExecFns;

use crate::diff::style::{
    decode_style, encode_style, read_style, style_fields, style_is_good, style_round_trip,
};
use crate::json::{json_models, object, Json, JsonModel};
use crate::model::{glyphs, CellStyle, Glyph, StyledCell};

verus! {

/// One entry of a run's text.
pub enum Text {
    /// A cell without text.
    Blank,
    /// One cell for each character.
    Run(String),
    /// One cell of several characters.
    Cluster(String),
}

/// An entry of a run's text, mathematically.
pub enum TextModel {
    Blank,
    Run(Seq<char>),
    Cluster(Seq<char>),
}

impl View for Text {
    type V = TextModel;

    open spec fn view(&self) -> TextModel {
        match self {
            Text::Blank => TextModel::Blank,
            Text::Run(s) => TextModel::Run(s@),
            Text::Cluster(s) => TextModel::Cluster(s@),
        }
    }
}

/// The models of text entries.
pub open spec fn text_models(v: Seq<Text>) -> Seq<TextModel> {
    Seq::new(v.len(), |i: int| v[i]@)
}

/// A run of cells: text entries, and styles over stretches of cells given by start and length.
pub struct Block {
    pub text: Vec<Text>,
    pub style: Vec<(usize, usize, CellStyle)>,
}

/// A run of cells, mathematically.
pub struct BlockModel {
    pub text: Seq<TextModel>,
    pub style: Seq<(usize, usize, CellStyle)>,
}

impl View for Block {
    type V = BlockModel;

    open spec fn view(&self) -> BlockModel {
        BlockModel { text: text_models(self.text@), style: self.style@ }
    }
}

/// The text entries of cells: neighbouring cells of one character make one string.
pub open spec fn text_of(cells: Seq<Glyph>) -> Seq<TextModel>
    decreases cells.len(),
{
    if cells.len() == 0 {
        Seq::empty()
    } else {
        let before = text_of(cells.drop_last());
        let t = cells.last().text;
        if t.len() == 0 {
            before.push(TextModel::Blank)
        } else if t.len() > 1 {
            before.push(TextModel::Cluster(t))
        } else if before.len() > 0 && before.last() is Run {
            before.drop_last().push(TextModel::Run(before.last()->Run_0.push(t[0])))
        } else {
            before.push(TextModel::Run(t))
        }
    }
}

/// The styles of cells: neighbouring cells of one style make one stretch, and plain cells are
/// left out.
pub open spec fn style_of(cells: Seq<Glyph>) -> Seq<(usize, usize, CellStyle)>
    decreases cells.len(),
{
    if cells.len() == 0 {
        Seq::empty()
    } else {
        let before = style_of(cells.drop_last());
        let s = cells.last().style;
        let i = cells.len() - 1;
        if s == CellStyle::plain() {
            before
        } else if before.len() > 0 && before.last().0 + before.last().1 == i && before.last().2
            == s {
            before.drop_last().push((before.last().0, (before.last().1 + 1) as usize, s))
        } else {
            before.push((i as usize, 1, s))
        }
    }
}

/// A run of cells as it is written.
pub open spec fn block_of(cells: Seq<Glyph>) -> BlockModel {
    BlockModel { text: text_of(cells), style: style_of(cells) }
}

/// The plain cells of one text entry.
pub open spec fn entry_cells(t: TextModel) -> Seq<Glyph> {
    match t {
        TextModel::Blank => seq![Glyph::plain(Seq::empty())],
        TextModel::Run(s) => Seq::new(s.len(), |i: int| Glyph::plain(seq![s[i]])),
        TextModel::Cluster(s) => seq![Glyph::plain(s)],
    }
}

/// The plain cells of text entries.
pub open spec fn plain_cells(text: Seq<TextModel>) -> Seq<Glyph>
    decreases text.len(),
{
    if text.len() == 0 {
        Seq::empty()
    } else {
        plain_cells(text.drop_last()) + entry_cells(text.last())
    }
}

/// Cells with a style laid over one stretch of them.
pub open spec fn styled_stretch(
    cells: Seq<Glyph>,
    start: int,
    len: int,
    style: CellStyle,
) -> Seq<Glyph> {
    Seq::new(
        cells.len(),
        |i: int|
            if start <= i < start + len {
                Glyph { style, ..cells[i] }
            } else {
                cells[i]
            },
    )
}

/// Cells with all styles laid over them, in order.
pub open spec fn styled_cells(cells: Seq<Glyph>, runs: Seq<(usize, usize, CellStyle)>) -> Seq<Glyph>
    decreases runs.len(),
{
    if runs.len() == 0 {
        cells
    } else {
        let r = runs.last();
        styled_stretch(styled_cells(cells, runs.drop_last()), r.0 as int, r.1 as int, r.2)
    }
}

/// The cells that a run stands for.
pub open spec fn cells_of(block: BlockModel) -> Seq<Glyph> {
    styled_cells(plain_cells(block.text), block.style)
}

proof fn text_round_trip(cells: Seq<Glyph>)
    ensures
        plain_cells(text_of(cells)).len() == cells.len(),
        forall|i: int|
            0 <= i < cells.len() ==> (#[trigger] plain_cells(text_of(cells))[i]) == Glyph::plain(
                cells[i].text,
            ),
    decreases cells.len(),
{
    if cells.len() > 0 {
        let front = cells.drop_last();
        text_round_trip(front);
        let before = text_of(front);
        let after = text_of(cells);
        let t = cells.last().text;
        if t.len() == 1 && before.len() > 0 && before.last() is Run {
            let run = before.last()->Run_0;
            assert(after.drop_last() =~= before.drop_last());
            assert(entry_cells(after.last()) =~= entry_cells(before.last()).push(
                Glyph::plain(seq![t[0]]),
            ));
            assert(seq![t[0]] =~= t);
            assert(plain_cells(after) =~= plain_cells(before).push(Glyph::plain(t)));
        } else {
            assert(after.drop_last() =~= before);
            if t.len() == 1 {
                assert(entry_cells(after.last()) =~= seq![Glyph::plain(t)]) by {
                    assert(seq![t[0]] =~= t);
                }
            } else if t.len() == 0 {
                assert(t =~= Seq::empty());
            }
            assert(entry_cells(after.last()) =~= seq![Glyph::plain(t)]);
            assert(plain_cells(after) =~= plain_cells(before).push(Glyph::plain(t)));
        }
        assert forall|i: int| 0 <= i < cells.len() implies (#[trigger] plain_cells(after)[i])
            == Glyph::plain(cells[i].text) by {
            if i < front.len() {
                assert(plain_cells(after)[i] == plain_cells(before)[i]);
            }
        }
    }
}

/// What the styles of the first cells do to a longer run of plain cells.
proof fn styles_round_trip(cells: Seq<Glyph>, base: Seq<Glyph>)
    requires
        cells.len() <= base.len() <= usize::MAX,
        forall|i: int|
            #![trigger base[i]]
            0 <= i < base.len() ==> base[i].style == CellStyle::plain(),
    ensures
        styled_cells(base, style_of(cells)).len() == base.len(),
        forall|i: int|
            #![trigger styled_cells(base, style_of(cells))[i]]
            0 <= i < base.len() ==> styled_cells(base, style_of(cells))[i] == (Glyph {
                text: base[i].text,
                style: if i < cells.len() {
                    cells[i].style
                } else {
                    CellStyle::plain()
                },
            }),
        style_of(cells).len() > 0 ==> style_of(cells).last().0 + style_of(cells).last().1
            <= cells.len(),
    decreases cells.len(),
{
    if cells.len() > 0 {
        let front = cells.drop_last();
        styles_round_trip(front, base);
        let before = style_of(front);
        let after = style_of(cells);
        let s = cells.last().style;
        let i0 = cells.len() - 1;
        let x = styled_cells(base, before);
        let y = styled_cells(base, after);
        if s == CellStyle::plain() {
            assert(after == before);
        } else if before.len() > 0 && before.last().0 + before.last().1 == i0 && before.last().2
            == s {
            assert(after.drop_last() =~= before.drop_last());
            let inner = styled_cells(base, before.drop_last());
            assert(y =~= styled_stretch(
                inner,
                before.last().0 as int,
                before.last().1 + 1,
                s,
            ));
            assert(x =~= styled_stretch(inner, before.last().0 as int, before.last().1 as int, s));
        } else {
            assert(after.drop_last() =~= before);
            assert(y =~= styled_stretch(x, i0, 1, s));
        }
        assert forall|i: int|
            #![trigger y[i]]
            0 <= i < base.len() implies y[i] == (Glyph {
            text: base[i].text,
            style: if i < cells.len() {
                cells[i].style
            } else {
                CellStyle::plain()
            },
        }) by {
            assert(x[i].text == base[i].text);
            if i < i0 {
                assert(front[i] == cells[i]);
            }
        }
    }
}

/// A run is read as the cells it was written from.
pub proof fn block_round_trip(cells: Seq<Glyph>)
    requires
        cells.len() <= usize::MAX,
    ensures
        cells_of(block_of(cells)) == cells,
{
    text_round_trip(cells);
    let base = plain_cells(text_of(cells));
    styles_round_trip(cells, base);
    assert(cells_of(block_of(cells)) =~= cells);
}

// JSON.

/// A text entry on the wire: 0, a string, or a string in an array.
pub open spec fn text_json(t: TextModel) -> JsonModel {
    match t {
        TextModel::Blank => JsonModel::Uint(0),
        TextModel::Run(s) => JsonModel::Str(s),
        TextModel::Cluster(s) => JsonModel::Arr(seq![JsonModel::Str(s)]),
    }
}

/// A stretch of one style on the wire.
pub open spec fn run_json(r: (usize, usize, CellStyle)) -> JsonModel {
    JsonModel::Arr(
        seq![
            JsonModel::Uint(r.0 as u64),
            JsonModel::Uint(r.1 as u64),
            object(style_fields(r.2)),
        ],
    )
}

pub open spec fn texts_json(text: Seq<TextModel>) -> JsonModel {
    JsonModel::Arr(Seq::new(text.len(), |i: int| text_json(text[i])))
}

pub open spec fn runs_json(runs: Seq<(usize, usize, CellStyle)>) -> JsonModel {
    JsonModel::Arr(Seq::new(runs.len(), |i: int| run_json(runs[i])))
}

/// A run behind the items `head` of its array: its text, and its styles where there are any.
pub open spec fn block_items(head: Seq<JsonModel>, b: BlockModel) -> JsonModel {
    if b.style.len() == 0 {
        JsonModel::Arr(head.push(texts_json(b.text)))
    } else {
        JsonModel::Arr(head.push(texts_json(b.text)).push(runs_json(b.style)))
    }
}

/// The text entry that a wire value stands for.
pub open spec fn read_text(j: JsonModel) -> Option<TextModel> {
    match j {
        JsonModel::Uint(_) => Some(TextModel::Blank),
        JsonModel::Str(s) => Some(TextModel::Run(s)),
        JsonModel::Arr(s) => if s.len() == 1 && s[0] is Str {
            Some(TextModel::Cluster(s[0]->Str_0))
        } else {
            None
        },
        _ => None,
    }
}

/// Whether a wire value is a list of text entries.
pub open spec fn is_texts(j: JsonModel) -> bool {
    j is Arr && forall|i: int|
        #![trigger j->Arr_0[i]]
        0 <= i < j->Arr_0.len() ==> read_text(j->Arr_0[i]) is Some
}

pub open spec fn read_texts(j: JsonModel) -> Option<Seq<TextModel>> {
    if is_texts(j) {
        Some(Seq::new(j->Arr_0.len(), |i: int| read_text(j->Arr_0[i])->Some_0))
    } else {
        None
    }
}

/// A number that fits a `usize`.
pub open spec fn read_index(j: JsonModel) -> Option<usize> {
    match j {
        JsonModel::Uint(n) => if n <= usize::MAX {
            Some(n as usize)
        } else {
            None
        },
        _ => None,
    }
}

/// The stretch that a wire value stands for.
pub open spec fn read_run(j: JsonModel) -> Option<(usize, usize, CellStyle)> {
    match j {
        JsonModel::Arr(s) => if s.len() == 3 && read_index(s[0]) is Some && read_index(
            s[1],
        ) is Some && read_style(s[2]) is Some {
            Some((read_index(s[0])->Some_0, read_index(s[1])->Some_0, read_style(s[2])->Some_0))
        } else {
            None
        },
        _ => None,
    }
}

/// Whether a wire value is a list of stretches.
pub open spec fn is_runs(j: JsonModel) -> bool {
    j is Arr && forall|i: int|
        #![trigger j->Arr_0[i]]
        0 <= i < j->Arr_0.len() ==> read_run(j->Arr_0[i]) is Some
}

pub open spec fn read_runs(j: JsonModel) -> Option<Seq<(usize, usize, CellStyle)>> {
    if is_runs(j) {
        Some(Seq::new(j->Arr_0.len(), |i: int| read_run(j->Arr_0[i])->Some_0))
    } else {
        None
    }
}

/// The run that a wire value `[text, styles]` stands for. Both may be missing.
pub open spec fn read_block(j: JsonModel) -> Option<BlockModel> {
    match j {
        JsonModel::Arr(s) => {
            let text = if s.len() > 0 {
                read_texts(s[0])
            } else {
                Some(Seq::empty())
            };
            let style = if s.len() > 1 {
                read_runs(s[1])
            } else {
                Some(Seq::empty())
            };
            if s.len() <= 2 && text is Some && style is Some {
                Some(BlockModel { text: text->Some_0, style: style->Some_0 })
            } else {
                None
            }
        },
        _ => None,
    }
}

/// Every style of a run can be written: its underline style is at most 5.
pub open spec fn writable_runs(runs: Seq<(usize, usize, CellStyle)>) -> bool {
    forall|i: int| #![trigger runs[i]] 0 <= i < runs.len() ==> runs[i].2.underline <= 5
}

/// Text entries are read as they were written.
pub proof fn texts_read_back(text: Seq<TextModel>)
    ensures
        read_texts(texts_json(text)) == Some(text),
{
    let j = texts_json(text);
    assert forall|i: int|
        #![trigger j->Arr_0[i]]
        0 <= i < j->Arr_0.len() implies read_text(j->Arr_0[i]) == Some(text[i]) by {}
    assert(read_texts(j)->Some_0 =~= text);
}

/// Stretches are read as they were written.
pub proof fn runs_read_back(runs: Seq<(usize, usize, CellStyle)>)
    requires
        writable_runs(runs),
    ensures
        read_runs(runs_json(runs)) == Some(runs),
{
    let j = runs_json(runs);
    assert forall|i: int|
        #![trigger j->Arr_0[i]]
        0 <= i < j->Arr_0.len() implies read_run(j->Arr_0[i]) == Some(runs[i]) by {
        style_round_trip(runs[i].2);
        assert(j->Arr_0[i] == run_json(runs[i]));
    }
    assert(read_runs(j)->Some_0 =~= runs);
}

/// The styles of writable cells can be written.
pub proof fn styles_writable(cells: Seq<Glyph>)
    requires
        forall|i: int| #![trigger cells[i]] 0 <= i < cells.len() ==> cells[i].style.underline <= 5,
    ensures
        writable_runs(style_of(cells)),
    decreases cells.len(),
{
    if cells.len() > 0 {
        let front = cells.drop_last();
        assert forall|i: int| #![trigger front[i]] 0 <= i < front.len() implies
            front[i].style.underline <= 5 by {
            assert(front[i] == cells[i]);
        }
        styles_writable(front);
        assert(cells.last() == cells[cells.len() - 1]);
    }
}

/// A run's JSON is canonical and has no fraction.
pub proof fn block_is_good(head: Seq<JsonModel>, b: BlockModel)
    requires
        forall|i: int| #![trigger head[i]] 0 <= i < head.len() ==> head[i] is Uint,
    ensures
        block_items(head, b).canonical(),
        block_items(head, b).safe_within(5),
{
    texts_are_good(b.text);
    runs_are_good(b.style);
    let j = block_items(head, b);
    let s = j->Arr_0;
    assert forall|i: int| #![trigger s[i]] 0 <= i < s.len() implies s[i].canonical()
        && s[i].safe_within(4) by {
        if i < head.len() {
            assert(s[i] == head[i]);
        } else if i == head.len() {
            assert(s[i] == texts_json(b.text));
        } else {
            assert(s[i] == runs_json(b.style));
        }
    }
}

proof fn texts_are_good(text: Seq<TextModel>)
    ensures
        texts_json(text).canonical(),
        texts_json(text).safe_within(4),
{
    reveal_with_fuel(JsonModel::canonical, 3);
    reveal_with_fuel(JsonModel::safe_within, 3);
    let s = texts_json(text)->Arr_0;
    assert forall|i: int| #![trigger s[i]] 0 <= i < s.len() implies s[i].canonical()
        && s[i].safe_within(3) by {
        assert(s[i] == text_json(text[i]));
    }
}

proof fn runs_are_good(runs: Seq<(usize, usize, CellStyle)>)
    ensures
        runs_json(runs).canonical(),
        runs_json(runs).safe_within(4),
{
    let s = runs_json(runs)->Arr_0;
    assert forall|i: int| #![trigger s[i]] 0 <= i < s.len() implies s[i].canonical()
        && s[i].safe_within(3) by {
        let r = runs[i];
        style_is_good(r.2);
        assert(s[i] == run_json(r));
        let t = s[i]->Arr_0;
        assert forall|k: int| #![trigger t[k]] 0 <= k < t.len() implies t[k].canonical()
            && t[k].safe_within(2) by {
            if k == 2 {
                assert(t[k] == object(style_fields(r.2)));
            }
        }
    }
}

// Writing.

/// The cell at a column, blank beyond the end of the row.
pub open spec fn cell_at(row: Seq<Glyph>, i: int) -> Glyph {
    if 0 <= i < row.len() {
        row[i]
    } else {
        Glyph::blank()
    }
}

/// The cells from column `lo` up to `hi`, blank beyond the end of the row.
pub open spec fn span_cells(row: Seq<Glyph>, lo: int, hi: int) -> Seq<Glyph> {
    Seq::new((hi - lo) as nat, |i: int| cell_at(row, lo + i))
}

fn add_text(text: Vec<Text>, t: &String) -> (r: Vec<Text>)
    ensures
        forall|cells: Seq<Glyph>|
            #![trigger text_of(cells)]
            cells.len() > 0 && cells.last().text == t@ && text_models(text@) == text_of(
                cells.drop_last(),
            ) ==> text_models(r@) == text_of(cells),
{
    let ghost before = text_models(text@);
    let mut r = text;
    let n: usize = t.as_str().unicode_len();
    if n == 0 {
        r.push(Text::Blank);
        proof {
            assert(text_models(r@) =~= before.push(TextModel::Blank));
        }
        return r;
    }
    if n > 1 {
        r.push(Text::Cluster(t.clone()));
        proof {
            assert(text_models(r@) =~= before.push(TextModel::Cluster(t@)));
        }
        return r;
    }
    let c: char = t.as_str().get_char(0);
    match r.pop() {
        Some(Text::Run(s)) => {
            let mut s = s;
            proof {
                assert(before.last() == TextModel::Run(s@));
            }
            s.push(c);
            r.push(Text::Run(s));
            proof {
                assert(text_models(r@) =~= before.drop_last().push(
                    TextModel::Run(before.last()->Run_0.push(c)),
                ));
            }
        },
        Some(other) => {
            proof {
                assert(before.last() == other@);
            }
            r.push(other);
            r.push(Text::Run(t.clone()));
            proof {
                assert(text_models(r@) =~= before.push(TextModel::Run(t@)));
            }
        },
        None => {
            r.push(Text::Run(t.clone()));
            proof {
                assert(text_models(r@) =~= before.push(TextModel::Run(t@)));
            }
        },
    }
    r
}

fn add_style(runs: Vec<(usize, usize, CellStyle)>, i: usize, s: CellStyle) -> (r: Vec<
    (usize, usize, CellStyle),
>)
    requires
        i < usize::MAX,
        runs@.len() > 0 ==> runs@.last().0 + runs@.last().1 <= i,
    ensures
        forall|cells: Seq<Glyph>|
            #![trigger style_of(cells)]
            cells.len() == i + 1 && cells.last().style == s && runs@ == style_of(
                cells.drop_last(),
            ) ==> r@ == style_of(cells),
        r@.len() > 0 ==> r@.last().0 + r@.last().1 <= i + 1,
{
    let mut r = runs;
    if s == CellStyle::new() {
        return r;
    }
    match r.pop() {
        Some((start, len, prev)) => {
            proof {
                assert(runs@.last() == (start, len, prev));
                assert(r@ == runs@.drop_last());
            }
            if start + len == i && prev == s {
                r.push((start, len + 1, prev));
            } else {
                r.push((start, len, prev));
                proof {
                    assert(r@ =~= runs@);
                }
                r.push((i, 1, s));
            }
        },
        None => {
            r.push((i, 1, s));
        },
    }
    r
}

/// Writes the cells from column `lo` up to `hi` as a run.
pub fn cell_block(row: &Vec<StyledCell>, lo: usize, hi: usize) -> (r: Block)
    requires
        lo <= hi,
    ensures
        r@ == block_of(span_cells(glyphs(row@), lo as int, hi as int)),
{
    let ghost all = span_cells(glyphs(row@), lo as int, hi as int);
    let blank = StyledCell::blank();
    let mut text: Vec<Text> = Vec::new();
    let mut style: Vec<(usize, usize, CellStyle)> = Vec::new();
    proof {
        assert(all.take(0) =~= Seq::empty());
        assert(text_models(text@) =~= Seq::empty());
    }
    let n: usize = hi - lo;
    for i in 0..n
        invariant
            lo <= hi,
            n == hi - lo,
            all == span_cells(glyphs(row@), lo as int, hi as int),
            blank@ == Glyph::blank(),
            text_models(text@) == text_of(all.take(i as int)),
            style@ == style_of(all.take(i as int)),
            style@.len() > 0 ==> style@.last().0 + style@.last().1 <= i,
    {
        let cell: &StyledCell = if lo + i < row.len() {
            &row[lo + i]
        } else {
            &blank
        };
        proof {
            assert(all[i as int] == cell@);
            let next = all.take(i + 1);
            assert(next.drop_last() =~= all.take(i as int));
            assert(next.last() == cell@);
            assert(text_of(next) == text_of(next));
            assert(style_of(next) == style_of(next));
        }
        text = add_text(text, &cell.text);
        style = add_style(style, i, cell.style());
    }
    proof {
        assert(all.take(n as int) =~= all);
    }
    Block { text, style }
}

fn encode_text(t: &Text) -> (r: Json)
    ensures
        r.model() == text_json(t@),
{
    match t {
        Text::Blank => Json::uint(0),
        Text::Run(s) => Json::string(s.clone()),
        Text::Cluster(s) => {
            let mut v: Vec<Json> = Vec::new();
            v.push(Json::string(s.clone()));
            proof {
                assert(json_models(v@) =~= seq![JsonModel::Str(s@)]);
            }
            Json::array(v)
        },
    }
}

fn encode_run(run: &(usize, usize, CellStyle)) -> (r: Json)
    ensures
        r.model() == run_json(*run),
{
    let mut v: Vec<Json> = Vec::new();
    v.push(Json::uint(run.0 as u64));
    v.push(Json::uint(run.1 as u64));
    v.push(encode_style(&run.2));
    proof {
        assert(json_models(v@) =~= run_json(*run)->Arr_0);
    }
    Json::array(v)
}

fn encode_texts(text: &Vec<Text>) -> (r: Json)
    ensures
        r.model() == texts_json(text_models(text@)),
{
    let mut v: Vec<Json> = Vec::new();
    for i in 0..text.len()
        invariant
            v@.len() == i,
            forall|j: int| 0 <= j < i ==> (#[trigger] v@[j]).model() == text_json(text@[j]@),
    {
        v.push(encode_text(&text[i]));
    }
    proof {
        assert(json_models(v@) =~= texts_json(text_models(text@))->Arr_0);
    }
    Json::array(v)
}

fn encode_runs(runs: &Vec<(usize, usize, CellStyle)>) -> (r: Json)
    ensures
        r.model() == runs_json(runs@),
{
    let mut v: Vec<Json> = Vec::new();
    for i in 0..runs.len()
        invariant
            v@.len() == i,
            forall|j: int| 0 <= j < i ==> (#[trigger] v@[j]).model() == run_json(runs@[j]),
    {
        v.push(encode_run(&runs[i]));
    }
    proof {
        assert(json_models(v@) =~= runs_json(runs@)->Arr_0);
    }
    Json::array(v)
}

/// Writes a run behind the items of its array that are there already.
pub fn encode_block(head: Vec<Json>, b: &Block) -> (r: Json)
    ensures
        r.model() == block_items(json_models(head@), b@),
{
    let mut v = head;
    v.push(encode_texts(&b.text));
    if b.style.len() > 0 {
        v.push(encode_runs(&b.style));
    }
    proof {
        assert(json_models(v@) =~= block_items(json_models(head@), b@)->Arr_0);
    }
    Json::array(v)
}

// Reading.

fn decode_text(j: &Json) -> (r: Option<Text>)
    ensures
        r is Some <==> read_text(j.model()) is Some,
        r is Some ==> read_text(j.model()) == Some((r->Some_0)@),
{
    proof {
        j.model_of_kind();
    }
    match j {
        Json::Uint(_) => Some(Text::Blank),
        Json::Str(s) => Some(Text::Run(s.clone())),
        Json::Arr(v) => {
            if v.len() == 1 {
                proof {
                    assert(json_models(v@)[0] == v@[0].model());
                }
                if let Some(s) = v[0].as_string() {
                    return Some(Text::Cluster(s.clone()));
                }
            }
            None
        },
        _ => None,
    }
}

/// Reads a list of text entries.
pub fn decode_texts(j: &Json) -> (r: Option<Vec<Text>>)
    ensures
        r is Some <==> read_texts(j.model()) is Some,
        r is Some ==> read_texts(j.model()) == Some(text_models((r->Some_0)@)),
{
    let v = match j.as_array() {
        Some(v) => v,
        None => return None,
    };
    let ghost s = json_models(v@);
    let mut text: Vec<Text> = Vec::new();
    for i in 0..v.len()
        invariant
            s == json_models(v@),
            j.model() == JsonModel::Arr(s),
            text@.len() == i,
            forall|k: int|
                #![trigger s[k]]
                0 <= k < i ==> read_text(s[k]) == Some(text@[k]@),
    {
        proof {
            assert(s[i as int] == v@[i as int].model());
        }
        match decode_text(&v[i]) {
            Some(t) => text.push(t),
            None => return None,
        }
    }
    proof {
        assert(read_texts(j.model())->Some_0 =~= text_models(text@));
    }
    Some(text)
}

pub fn decode_index(j: &Json) -> (r: Option<usize>)
    ensures
        r == read_index(j.model()),
{
    match j.as_uint() {
        Some(n) => if n <= usize::MAX as u64 {
            Some(n as usize)
        } else {
            None
        },
        None => None,
    }
}

fn decode_run(j: &Json) -> (r: Option<(usize, usize, CellStyle)>)
    ensures
        r == read_run(j.model()),
{
    if let Some(v) = j.as_array() {
        if v.len() == 3 {
            proof {
                let s = json_models(v@);
                assert(s[0] == v@[0].model() && s[1] == v@[1].model() && s[2] == v@[2].model());
            }
            if let (Some(start), Some(len), Some(style)) = (
                decode_index(&v[0]),
                decode_index(&v[1]),
                decode_style(&v[2]),
            ) {
                return Some((start, len, style));
            }
        }
    }
    None
}

/// Reads a list of stretches.
pub fn decode_runs(j: &Json) -> (r: Option<Vec<(usize, usize, CellStyle)>>)
    ensures
        r is Some <==> read_runs(j.model()) is Some,
        r is Some ==> read_runs(j.model()) == Some((r->Some_0)@),
{
    let v = match j.as_array() {
        Some(v) => v,
        None => return None,
    };
    let ghost s = json_models(v@);
    let mut runs: Vec<(usize, usize, CellStyle)> = Vec::new();
    for i in 0..v.len()
        invariant
            s == json_models(v@),
            j.model() == JsonModel::Arr(s),
            runs@.len() == i,
            forall|k: int|
                #![trigger s[k]]
                0 <= k < i ==> read_run(s[k]) == Some(runs@[k]),
    {
        proof {
            assert(s[i as int] == v@[i as int].model());
        }
        match decode_run(&v[i]) {
            Some(t) => runs.push(t),
            None => return None,
        }
    }
    proof {
        assert(read_runs(j.model())->Some_0 =~= runs@);
    }
    Some(runs)
}

/// Reads a run.
pub fn decode_block_json(j: &Json) -> (r: Option<Block>)
    ensures
        r is Some <==> read_block(j.model()) is Some,
        r is Some ==> read_block(j.model()) == Some((r->Some_0)@),
{
    let v = match j.as_array() {
        Some(v) => v,
        None => return None,
    };
    let ghost s = json_models(v@);
    if v.len() > 2 {
        return None;
    }
    let mut text: Vec<Text> = Vec::new();
    proof {
        assert(text_models(text@) =~= Seq::empty());
    }
    if v.len() > 0 {
        proof {
            assert(s[0] == v@[0].model());
        }
        match decode_texts(&v[0]) {
            Some(t) => {
                text = t;
            },
            None => return None,
        }
    }
    let mut style: Vec<(usize, usize, CellStyle)> = Vec::new();
    proof {
        assert(style@ =~= Seq::empty());
    }
    if v.len() > 1 {
        proof {
            assert(s[1] == v@[1].model());
        }
        match decode_runs(&v[1]) {
            Some(t) => {
                style = t;
            },
            None => return None,
        }
    }
    Some(Block { text, style })
}

/// The cells that a run stands for.
pub fn decode_block(block: &Block) -> (r: Vec<StyledCell>)
    ensures
        glyphs(r@) == cells_of(block@),
{
    let mut cells: Vec<StyledCell> = Vec::new();
    let ghost text = text_models(block.text@);
    proof {
        assert(glyphs(cells@) =~= plain_cells(text.take(0)));
    }
    for k in 0..block.text.len()
        invariant
            text == text_models(block.text@),
            glyphs(cells@) == plain_cells(text.take(k as int)),
    {
        let ghost before = glyphs(cells@);
        proof {
            assert(text.take(k + 1).drop_last() =~= text.take(k as int));
            assert(text.take(k + 1).last() == block.text@[k as int]@);
        }
        match &block.text[k] {
            Text::Blank => {
                cells.push(StyledCell::default());
            },
            Text::Cluster(g) => {
                cells.push(StyledCell::styled(g.clone(), CellStyle::new()));
            },
            Text::Run(s) => {
                let n: usize = s.as_str().unicode_len();
                for i in 0..n
                    invariant
                        n == s@.len(),
                        glyphs(cells@) == before + entry_cells(TextModel::Run(s@)).take(i as int),
                {
                    let mut t: String = String::new();
                    t.push(s.as_str().get_char(i));
                    proof {
                        assert(t@ =~= seq![s@[i as int]]);
                    }
                    let ghost now = glyphs(cells@);
                    cells.push(StyledCell::styled(t, CellStyle::new()));
                    proof {
                        assert(glyphs(cells@) =~= now.push(Glyph::plain(seq![s@[i as int]])));
                        assert(glyphs(cells@) =~= before + entry_cells(TextModel::Run(s@)).take(
                            i + 1,
                        ));
                    }
                }
                proof {
                    assert(entry_cells(TextModel::Run(s@)).take(n as int) =~= entry_cells(
                        TextModel::Run(s@),
                    ));
                }
            },
        }
        proof {
            assert(glyphs(cells@) =~= before + entry_cells(block.text@[k as int]@));
        }
    }
    proof {
        assert(text.take(text.len() as int) =~= text);
        assert(block.style@.take(0) =~= Seq::empty());
    }
    let ghost base = glyphs(cells@);
    for k in 0..block.style.len()
        invariant
            base == plain_cells(text_models(block.text@)),
            glyphs(cells@) == styled_cells(base, block.style@.take(k as int)),
    {
        let ghost before = glyphs(cells@);
        let ghost old_cells = cells@;
        let run = &block.style[k];
        let start: usize = run.0;
        let len: usize = run.1;
        let style: CellStyle = run.2;
        let n: usize = cells.len();
        let mut i: usize = start;
        while i < n && i - start < len
            invariant
                start <= i,
                i <= n || i == start,
                n == cells@.len() == old_cells.len(),
                i - start <= len,
                before == glyphs(old_cells),
                forall|j: int|
                    0 <= j < n ==> (#[trigger] cells@[j])@ == if start <= j < i {
                        Glyph { style, ..old_cells[j]@ }
                    } else {
                        old_cells[j]@
                    },
            decreases n - i,
        {
            let text = cells[i].text.clone();
            cells[i] = StyledCell::styled(text, style);
            i = i + 1;
        }
        proof {
            assert(block.style@.take(k + 1).drop_last() =~= block.style@.take(k as int));
            assert(block.style@.take(k + 1).last() == block.style@[k as int]);
            assert(glyphs(cells@) =~= styled_stretch(before, start as int, len as int, style));
        }
    }
    proof {
        assert(block.style@.take(block.style@.len() as int) =~= block.style@);
    }
    cells
}

} // verus!
