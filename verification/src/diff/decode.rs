//! Reading wire messages.
use vstd::prelude::*;

use crate::diff::block::{
    decode_block_json, decode_index, decode_runs, decode_texts, read_block, read_index, read_runs,
    read_texts, text_models, Block, BlockModel, Text, TextModel,
};
use crate::diff::style::{
    decode_byte, decode_color, decode_style, read_byte, read_color, read_style,
};
use crate::json::{is_number, json_models, member, member_models, parse, parsed, Extent, Json, JsonModel};
use crate::model::{
    extent_model, link_models, placement_models, CellStyle, Color, ImagePlacement, PlacementModel,
};
use crate::text::{digits, digits_value, read_digits, text_len};

verus! {

/// A change of one row: the cells that a run stands for go in from column `l` on.
pub struct RowPatch {
    pub r: usize,
    pub l: usize,
    pub block: Block,
}

/// A change of one row, mathematically.
pub struct PatchModel {
    pub r: usize,
    pub l: usize,
    pub block: BlockModel,
}

impl View for RowPatch {
    type V = PatchModel;

    open spec fn view(&self) -> PatchModel {
        PatchModel { r: self.r, l: self.l, block: self.block@ }
    }
}

pub open spec fn patch_models(v: Seq<RowPatch>) -> Seq<PatchModel> {
    Seq::new(v.len(), |i: int| v[i]@)
}

pub open spec fn block_models(v: Seq<Block>) -> Seq<BlockModel> {
    Seq::new(v.len(), |i: int| v[i]@)
}

/// A wire message.
pub enum WireMsg {
    /// A whole screen.
    Full {
        w: u16,
        cur: Option<(u16, u16)>,
        sty: u8,
        defaults: (Color, Color),
        title: String,
        links: Vec<(u32, String)>,
        rows: Vec<Block>,
        images: Vec<ImagePlacement>,
    },
    /// What changed: of cursor, cursor style and title `None` stands for no change.
    Patch {
        new_cur: Option<Option<(u16, u16)>>,
        new_sty: Option<u8>,
        new_title: Option<String>,
        links: Vec<(u32, String)>,
        patches: Vec<RowPatch>,
    },
}

/// A wire message, mathematically.
pub enum MsgModel {
    Full {
        w: u16,
        cur: Option<(u16, u16)>,
        sty: u8,
        defaults: (Color, Color),
        title: Seq<char>,
        links: Seq<(u32, Seq<char>)>,
        rows: Seq<BlockModel>,
        images: Seq<PlacementModel>,
    },
    Patch {
        new_cur: Option<Option<(u16, u16)>>,
        new_sty: Option<u8>,
        new_title: Option<Seq<char>>,
        links: Seq<(u32, Seq<char>)>,
        patches: Seq<PatchModel>,
    },
}

/// The model of a string that may be missing.
pub open spec fn opt_text(s: Option<String>) -> Option<Seq<char>> {
    match s {
        Some(t) => Some(t@),
        None => None,
    }
}

impl View for WireMsg {
    type V = MsgModel;

    open spec fn view(&self) -> MsgModel {
        match self {
            WireMsg::Full { w, cur, sty, defaults, title, links, rows, images } => MsgModel::Full {
                w: *w,
                cur: *cur,
                sty: *sty,
                defaults: *defaults,
                title: title@,
                links: link_models(links@),
                rows: block_models(rows@),
                images: placement_models(images@),
            },
            WireMsg::Patch { new_cur, new_sty, new_title, links, patches } => MsgModel::Patch {
                new_cur: *new_cur,
                new_sty: *new_sty,
                new_title: opt_text(*new_title),
                links: link_models(links@),
                patches: patch_models(patches@),
            },
        }
    }
}

// What a message stands for.

/// A number that fits a `u16`.
pub open spec fn read_u16(j: JsonModel) -> Option<u16> {
    match j {
        JsonModel::Uint(n) => if n <= u16::MAX {
            Some(n as u16)
        } else {
            None
        },
        _ => None,
    }
}

/// A position `[row, col]`.
pub open spec fn read_pos(j: JsonModel) -> Option<(u16, u16)> {
    match j {
        JsonModel::Arr(s) => if s.len() == 2 && read_u16(s[0]) is Some && read_u16(s[1]) is Some {
            Some((read_u16(s[0])->Some_0, read_u16(s[1])->Some_0))
        } else {
            None
        },
        _ => None,
    }
}

/// The cursor that a change message tells: nothing, that it is hidden, or where it is. The
/// outer `None` is a value that tells none of these.
pub open spec fn read_cursor_change(p: Option<JsonModel>) -> Option<Option<Option<(u16, u16)>>> {
    match p {
        None => Some(None),
        Some(JsonModel::Null) => Some(Some(None)),
        Some(j) => match read_pos(j) {
            Some(pos) => Some(Some(Some(pos))),
            None => None,
        },
    }
}

/// The cursor that a whole screen tells.
pub open spec fn read_cursor(p: Option<JsonModel>) -> Option<Option<(u16, u16)>> {
    match read_cursor_change(p) {
        Some(Some(c)) => Some(c),
        Some(None) => Some(None),
        None => None,
    }
}

/// A cursor style that may be missing.
pub open spec fn read_cursor_style(p: Option<JsonModel>) -> Option<Option<u8>> {
    match p {
        None => Some(None),
        Some(j) => match read_byte(j) {
            Some(n) => Some(Some(n)),
            None => None,
        },
    }
}

/// A text that may be missing.
pub open spec fn read_title(p: Option<JsonModel>) -> Option<Option<Seq<char>>> {
    match p {
        None => Some(None),
        Some(JsonModel::Str(s)) => Some(Some(s)),
        Some(_) => None,
    }
}

/// The link id that a key spells: decimal digits without leading zeros.
pub open spec fn read_id(key: Seq<char>) -> Option<u32> {
    let n = digits_value(key);
    if n <= u32::MAX && digits(n) == key {
        Some(n as u32)
    } else {
        None
    }
}

/// Whether a member is a link: an id and a URI.
pub open spec fn is_link(m: (Seq<char>, JsonModel)) -> bool {
    read_id(m.0) is Some && m.1 is Str
}

/// The link table that may be missing.
pub open spec fn read_links(p: Option<JsonModel>) -> Option<Seq<(u32, Seq<char>)>> {
    match p {
        None => Some(Seq::empty()),
        Some(JsonModel::Obj(m)) => if forall|i: int|
            #![trigger m[i]]
            0 <= i < m.len() ==> is_link(m[i]) {
            Some(Seq::new(m.len(), |i: int| (read_id(m[i].0)->Some_0, m[i].1->Str_0)))
        } else {
            None
        },
        Some(_) => None,
    }
}

/// The text of a changed row: a bare string is one cell for each character.
pub open spec fn read_row_text(j: JsonModel) -> Option<Seq<TextModel>> {
    match j {
        JsonModel::Str(s) => Some(seq![TextModel::Run(s)]),
        _ => read_texts(j),
    }
}

/// The styles of a changed row that may be missing. One style alone goes over the whole of a
/// bare string, and over the first cell of text entries.
pub open spec fn read_row_style(text: JsonModel, p: Option<JsonModel>) -> Option<
    Seq<(usize, usize, CellStyle)>,
> {
    match p {
        None => Some(Seq::empty()),
        Some(j) => if j is Obj {
            match read_style(j) {
                Some(s) => Some(
                    seq![
                        (
                            0usize,
                            if text is Str {
                                text->Str_0.len() as usize
                            } else {
                                1usize
                            },
                            s,
                        ),
                    ],
                ),
                None => None,
            }
        } else {
            read_runs(j)
        },
    }
}

/// The changed row `[row, left, text, style]`; the style may be missing.
pub open spec fn read_row(j: JsonModel) -> Option<PatchModel> {
    match j {
        JsonModel::Arr(s) => if s.len() == 3 || s.len() == 4 {
            let style = read_row_style(
                s[2],
                if s.len() == 4 {
                    Some(s[3])
                } else {
                    None
                },
            );
            if read_index(s[0]) is Some && read_index(s[1]) is Some && read_row_text(
                s[2],
            ) is Some && style is Some {
                Some(
                    PatchModel {
                        r: read_index(s[0])->Some_0,
                        l: read_index(s[1])->Some_0,
                        block: BlockModel {
                            text: read_row_text(s[2])->Some_0,
                            style: style->Some_0,
                        },
                    },
                )
            } else {
                None
            }
        } else {
            None
        },
        _ => None,
    }
}

/// The changed rows of a message.
pub open spec fn read_rows(j: JsonModel) -> Option<Seq<PatchModel>> {
    if j is Arr && forall|i: int|
        #![trigger j->Arr_0[i]]
        0 <= i < j->Arr_0.len() ==> read_row(j->Arr_0[i]) is Some {
        Some(Seq::new(j->Arr_0.len(), |i: int| read_row(j->Arr_0[i])->Some_0))
    } else {
        None
    }
}

/// The rows of a whole screen.
pub open spec fn read_all_rows(j: JsonModel) -> Option<Seq<BlockModel>> {
    if j is Arr && forall|i: int|
        #![trigger j->Arr_0[i]]
        0 <= i < j->Arr_0.len() ==> read_block(j->Arr_0[i]) is Some {
        Some(Seq::new(j->Arr_0.len(), |i: int| read_block(j->Arr_0[i])->Some_0))
    } else {
        None
    }
}

/// The default colours that may be missing.
pub open spec fn read_defaults(p: Option<JsonModel>) -> Option<(Color, Color)> {
    match p {
        None => Some((Color::Default, Color::Default)),
        Some(JsonModel::Arr(s)) => if s.len() == 2 && read_color(s[0]) is Some && read_color(
            s[1],
        ) is Some {
            Some((read_color(s[0])->Some_0, read_color(s[1])->Some_0))
        } else {
            None
        },
        Some(_) => None,
    }
}

/// A number from -32768 to 32767.
pub open spec fn read_i16(j: JsonModel) -> Option<i16> {
    match j {
        JsonModel::Uint(n) => if n <= i16::MAX {
            Some(n as i16)
        } else {
            None
        },
        JsonModel::Int(n) => if i16::MIN <= n < 0 {
            Some(n as i16)
        } else {
            None
        },
        _ => None,
    }
}

/// A size that may be missing.
pub open spec fn read_size(p: Option<JsonModel>) -> Option<Option<JsonModel>> {
    match p {
        None => Some(None),
        Some(JsonModel::Null) => Some(None),
        Some(j) => if is_number(j) {
            Some(Some(j))
        } else {
            None
        },
    }
}

/// An image placement.
pub open spec fn read_placement(j: JsonModel) -> Option<PlacementModel> {
    match j {
        JsonModel::Obj(m) => {
            let row = member(m, 'r');
            let col = member(m, 'c');
            let cols = read_size(member(m, 'w'));
            let rows = read_size(member(m, 'h'));
            let hash = member(m, 'k');
            if row is Some && read_i16(row->Some_0) is Some && col is Some && read_u16(
                col->Some_0,
            ) is Some && cols is Some && rows is Some && hash is Some && hash->Some_0 is Str {
                Some(
                    PlacementModel {
                        row: read_i16(row->Some_0)->Some_0,
                        col: read_u16(col->Some_0)->Some_0,
                        cols: cols->Some_0,
                        rows: rows->Some_0,
                        hash: hash->Some_0->Str_0,
                    },
                )
            } else {
                None
            }
        },
        _ => None,
    }
}

/// The images of a whole screen, which may be missing.
pub open spec fn read_images(p: Option<JsonModel>) -> Option<Seq<PlacementModel>> {
    match p {
        None => Some(Seq::empty()),
        Some(j) => if j is Arr && forall|i: int|
            #![trigger j->Arr_0[i]]
            0 <= i < j->Arr_0.len() ==> read_placement(j->Arr_0[i]) is Some {
            Some(Seq::new(j->Arr_0.len(), |i: int| read_placement(j->Arr_0[i])->Some_0))
        } else {
            None
        },
    }
}

/// A change of rows with what every change message tells besides.
pub open spec fn read_patch(
    m: Seq<(Seq<char>, JsonModel)>,
    rows: Option<Seq<PatchModel>>,
    titled: bool,
) -> Option<MsgModel> {
    let cur = read_cursor_change(member(m, 'p'));
    let sty = read_cursor_style(member(m, 'q'));
    let title = if titled {
        read_title(member(m, 't'))
    } else {
        Some(None)
    };
    let links = if titled {
        read_links(member(m, 'y'))
    } else {
        Some(Seq::empty())
    };
    if rows is Some && cur is Some && sty is Some && title is Some && links is Some {
        Some(
            MsgModel::Patch {
                new_cur: cur->Some_0,
                new_sty: sty->Some_0,
                new_title: title->Some_0,
                links: links->Some_0,
                patches: rows->Some_0,
            },
        )
    } else {
        None
    }
}

/// The one row of a message `c`: a bare string in the style that stands in the message.
pub open spec fn read_cell(j: JsonModel, message: JsonModel) -> Option<Seq<PatchModel>> {
    match j {
        JsonModel::Arr(s) => if s.len() == 3 && read_index(s[0]) is Some && read_index(
            s[1],
        ) is Some && s[2] is Str && read_style(message) is Some {
            Some(
                seq![
                    PatchModel {
                        r: read_index(s[0])->Some_0,
                        l: read_index(s[1])->Some_0,
                        block: BlockModel {
                            text: seq![TextModel::Run(s[2]->Str_0)],
                            style: seq![
                                (
                                    0usize,
                                    s[2]->Str_0.len() as usize,
                                    read_style(message)->Some_0,
                                ),
                            ],
                        },
                    },
                ],
            )
        } else {
            None
        },
        _ => None,
    }
}

/// A whole screen.
pub open spec fn read_full(m: Seq<(Seq<char>, JsonModel)>, d: JsonModel) -> Option<MsgModel> {
    let w = member(m, 'w');
    let cur = read_cursor(member(m, 'p'));
    let sty = read_cursor_style(member(m, 'q'));
    let defaults = read_defaults(member(m, 'e'));
    let title = read_title(member(m, 't'));
    let links = read_links(member(m, 'y'));
    let rows = read_all_rows(d);
    let images = read_images(member(m, 'i'));
    if w is Some && read_u16(w->Some_0) is Some && cur is Some && sty is Some && defaults is Some
        && title is Some && links is Some && rows is Some && images is Some {
        Some(
            MsgModel::Full {
                w: read_u16(w->Some_0)->Some_0,
                cur: cur->Some_0,
                sty: match sty->Some_0 {
                    Some(n) => n,
                    None => 0,
                },
                defaults: defaults->Some_0,
                title: match title->Some_0 {
                    Some(t) => t,
                    None => Seq::empty(),
                },
                links: links->Some_0,
                rows: rows->Some_0,
                images: images->Some_0,
            },
        )
    } else {
        None
    }
}

/// The message that a JSON value stands for. Which one it is shows by the member it has:
/// `c`, `l`, `r` or `d`, asked for in this order, or else `p`, `q` or `t`.
pub open spec fn read_message(j: JsonModel) -> Option<MsgModel> {
    match j {
        JsonModel::Obj(m) => if member(m, 'c') is Some {
            read_patch(m, read_cell(member(m, 'c')->Some_0, j), false)
        } else if member(m, 'l') is Some {
            read_patch(
                m,
                match read_row(member(m, 'l')->Some_0) {
                    Some(p) => Some(seq![p]),
                    None => None,
                },
                false,
            )
        } else if member(m, 'r') is Some {
            read_patch(m, read_rows(member(m, 'r')->Some_0), true)
        } else if member(m, 'd') is Some {
            read_full(m, member(m, 'd')->Some_0)
        } else if member(m, 'p') is Some || member(m, 'q') is Some || member(m, 't') is Some {
            read_patch(m, Some(Seq::empty()), true)
        } else {
            None
        },
        _ => None,
    }
}

// Executable.

fn decode_u16(j: &Json) -> (r: Option<u16>)
    ensures
        r == read_u16(j.model()),
{
    match j.as_uint() {
        Some(n) => if n <= u16::MAX as u64 {
            Some(n as u16)
        } else {
            None
        },
        None => None,
    }
}

fn decode_pos(j: &Json) -> (r: Option<(u16, u16)>)
    ensures
        r == read_pos(j.model()),
{
    if let Some(v) = j.as_array() {
        if v.len() == 2 {
            proof {
                let s = json_models(v@);
                assert(s[0] == v@[0].model() && s[1] == v@[1].model());
            }
            if let (Some(row), Some(col)) = (decode_u16(&v[0]), decode_u16(&v[1])) {
                return Some((row, col));
            }
        }
    }
    None
}

/// The model of a member that may be missing.
pub open spec fn opt_model(p: Option<&Json>) -> Option<JsonModel> {
    match p {
        Some(j) => Some(j.model()),
        None => None,
    }
}

fn decode_cursor_change(p: Option<&Json>) -> (r: Option<Option<Option<(u16, u16)>>>)
    ensures
        r == read_cursor_change(opt_model(p)),
{
    match p {
        None => Some(None),
        Some(j) => {
            if j.is_null() {
                return Some(Some(None));
            }
            match decode_pos(j) {
                Some(pos) => Some(Some(Some(pos))),
                None => None,
            }
        },
    }
}

fn decode_cursor_style(p: Option<&Json>) -> (r: Option<Option<u8>>)
    ensures
        r == read_cursor_style(opt_model(p)),
{
    match p {
        None => Some(None),
        Some(j) => match decode_byte(j) {
            Some(n) => Some(Some(n)),
            None => None,
        },
    }
}

fn decode_title(p: Option<&Json>) -> (r: Option<Option<String>>)
    ensures
        r is Some <==> read_title(opt_model(p)) is Some,
        r is Some ==> read_title(opt_model(p)) == Some(opt_text(r->Some_0)),
{
    match p {
        None => Some(None),
        Some(j) => match j.as_string() {
            Some(s) => Some(Some(s.clone())),
            None => None,
        },
    }
}

fn decode_links(p: Option<&Json>) -> (r: Option<Vec<(u32, String)>>)
    ensures
        r is Some <==> read_links(opt_model(p)) is Some,
        r is Some ==> read_links(opt_model(p)) == Some(link_models((r->Some_0)@)),
{
    let mut links: Vec<(u32, String)> = Vec::new();
    let j = match p {
        None => {
            proof {
                assert(link_models(links@) =~= Seq::empty());
            }
            return Some(links);
        },
        Some(j) => j,
    };
    let v = match j.as_object() {
        Some(v) => v,
        None => return None,
    };
    let ghost m = member_models(v@);
    for i in 0..v.len()
        invariant
            m == member_models(v@),
            j.model() == JsonModel::Obj(m),
            p == Some(j),
            links@.len() == i,
            forall|k: int|
                #![trigger m[k]]
                0 <= k < i ==> is_link(m[k]) && links@[k].0 == read_id(m[k].0)->Some_0
                    && links@[k].1@ == m[k].1->Str_0,
    {
        proof {
            assert(m[i as int] == (v@[i as int].0@, v@[i as int].1.model()));
        }
        match (read_digits(&v[i].0), v[i].1.as_string()) {
            (Some(id), Some(uri)) => {
                links.push((id, uri.clone()));
            },
            _ => {
                return None;
            },
        }
    }
    proof {
        assert(read_links(opt_model(p))->Some_0 =~= link_models(links@));
    }
    Some(links)
}

fn decode_row_text(j: &Json) -> (r: Option<Vec<Text>>)
    ensures
        r is Some <==> read_row_text(j.model()) is Some,
        r is Some ==> read_row_text(j.model()) == Some(text_models((r->Some_0)@)),
{
    if let Some(s) = j.as_string() {
        let mut v: Vec<Text> = Vec::new();
        v.push(Text::Run(s.clone()));
        proof {
            assert(text_models(v@) =~= seq![TextModel::Run(s@)]);
        }
        return Some(v);
    }
    decode_texts(j)
}

fn decode_row_style(text: &Json, p: Option<&Json>) -> (r: Option<Vec<(usize, usize, CellStyle)>>)
    ensures
        r is Some <==> read_row_style(text.model(), opt_model(p)) is Some,
        r is Some ==> read_row_style(text.model(), opt_model(p)) == Some((r->Some_0)@),
{
    let mut v: Vec<(usize, usize, CellStyle)> = Vec::new();
    match p {
        None => {
            proof {
                assert(v@ =~= Seq::empty());
            }
            Some(v)
        },
        Some(j) => {
            if j.as_object().is_none() {
                return decode_runs(j);
            }
            match decode_style(j) {
                Some(s) => {
                    let n: usize = match text.as_string() {
                        Some(t) => text_len(t),
                        None => 1,
                    };
                    v.push((0, n, s));
                    proof {
                        assert(v@ =~= seq![(0usize, n, s)]);
                    }
                    Some(v)
                },
                None => None,
            }
        },
    }
}

fn decode_row(j: &Json) -> (r: Option<RowPatch>)
    ensures
        r is Some <==> read_row(j.model()) is Some,
        r is Some ==> read_row(j.model()) == Some((r->Some_0)@),
{
    let v = match j.as_array() {
        Some(v) => v,
        None => return None,
    };
    if v.len() != 3 && v.len() != 4 {
        return None;
    }
    proof {
        let s = json_models(v@);
        assert(s[0] == v@[0].model() && s[1] == v@[1].model() && s[2] == v@[2].model());
        if v.len() == 4 {
            assert(s[3] == v@[3].model());
        }
    }
    let style: Option<&Json> = if v.len() == 4 {
        Some(&v[3])
    } else {
        None
    };
    match (
        decode_index(&v[0]),
        decode_index(&v[1]),
        decode_row_text(&v[2]),
        decode_row_style(&v[2], style),
    ) {
        (Some(r), Some(l), Some(text), Some(style)) => Some(
            RowPatch { r, l, block: Block { text, style } },
        ),
        _ => None,
    }
}

fn decode_rows(j: &Json) -> (r: Option<Vec<RowPatch>>)
    ensures
        r is Some <==> read_rows(j.model()) is Some,
        r is Some ==> read_rows(j.model()) == Some(patch_models((r->Some_0)@)),
{
    let v = match j.as_array() {
        Some(v) => v,
        None => return None,
    };
    let ghost s = json_models(v@);
    let mut rows: Vec<RowPatch> = Vec::new();
    for i in 0..v.len()
        invariant
            s == json_models(v@),
            j.model() == JsonModel::Arr(s),
            rows@.len() == i,
            forall|k: int|
                #![trigger s[k]]
                0 <= k < i ==> read_row(s[k]) == Some(rows@[k]@),
    {
        proof {
            assert(s[i as int] == v@[i as int].model());
        }
        match decode_row(&v[i]) {
            Some(t) => rows.push(t),
            None => return None,
        }
    }
    proof {
        assert(read_rows(j.model())->Some_0 =~= patch_models(rows@));
    }
    Some(rows)
}

fn decode_all_rows(j: &Json) -> (r: Option<Vec<Block>>)
    ensures
        r is Some <==> read_all_rows(j.model()) is Some,
        r is Some ==> read_all_rows(j.model()) == Some(block_models((r->Some_0)@)),
{
    let v = match j.as_array() {
        Some(v) => v,
        None => return None,
    };
    let ghost s = json_models(v@);
    let mut rows: Vec<Block> = Vec::new();
    for i in 0..v.len()
        invariant
            s == json_models(v@),
            j.model() == JsonModel::Arr(s),
            rows@.len() == i,
            forall|k: int|
                #![trigger s[k]]
                0 <= k < i ==> read_block(s[k]) == Some(rows@[k]@),
    {
        proof {
            assert(s[i as int] == v@[i as int].model());
        }
        match decode_block_json(&v[i]) {
            Some(t) => rows.push(t),
            None => return None,
        }
    }
    proof {
        assert(read_all_rows(j.model())->Some_0 =~= block_models(rows@));
    }
    Some(rows)
}

fn decode_defaults(p: Option<&Json>) -> (r: Option<(Color, Color)>)
    ensures
        r == read_defaults(opt_model(p)),
{
    match p {
        None => Some((Color::Default, Color::Default)),
        Some(j) => {
            if let Some(v) = j.as_array() {
                if v.len() == 2 {
                    proof {
                        let s = json_models(v@);
                        assert(s[0] == v@[0].model() && s[1] == v@[1].model());
                    }
                    if let (Some(f), Some(b)) = (decode_color(&v[0]), decode_color(&v[1])) {
                        return Some((f, b));
                    }
                }
            }
            None
        },
    }
}

fn decode_i16(j: &Json) -> (r: Option<i16>)
    ensures
        r == read_i16(j.model()),
{
    proof {
        j.model_of_kind();
    }
    match j {
        Json::Uint(n) => if *n <= i16::MAX as u64 {
            Some(*n as i16)
        } else {
            None
        },
        Json::Int(n) => if i16::MIN as i64 <= *n && *n < 0 {
            Some(*n as i16)
        } else {
            None
        },
        _ => None,
    }
}

fn decode_size(p: Option<&Json>) -> (r: Option<Option<Extent>>)
    requires
        p is Some ==> (p->Some_0).model().canonical(),
    ensures
        r is Some <==> read_size(opt_model(p)) is Some,
        r is Some ==> read_size(opt_model(p)) == Some(extent_model(r->Some_0)),
{
    match p {
        None => Some(None),
        Some(j) => {
            if j.is_null() {
                return Some(None);
            }
            match Extent::read(j) {
                Some(e) => Some(Some(e)),
                None => None,
            }
        },
    }
}

fn decode_placement(j: &Json) -> (r: Option<ImagePlacement>)
    requires
        j.model().canonical(),
    ensures
        r is Some <==> read_placement(j.model()) is Some,
        r is Some ==> read_placement(j.model()) == Some((r->Some_0)@),
{
    if j.as_object().is_none() {
        return None;
    }
    let row = match j.get('r') {
        Some(x) => match decode_i16(x) {
            Some(n) => n,
            None => return None,
        },
        None => return None,
    };
    let col = match j.get('c') {
        Some(x) => match decode_u16(x) {
            Some(n) => n,
            None => return None,
        },
        None => return None,
    };
    let cols = match decode_size(j.get('w')) {
        Some(e) => e,
        None => return None,
    };
    let rows = match decode_size(j.get('h')) {
        Some(e) => e,
        None => return None,
    };
    let hash = match j.get('k') {
        Some(x) => match x.as_string() {
            Some(s) => s.clone(),
            None => return None,
        },
        None => return None,
    };
    Some(ImagePlacement { row, col, cols, rows, hash })
}

fn decode_images(p: Option<&Json>) -> (r: Option<Vec<ImagePlacement>>)
    requires
        p is Some ==> (p->Some_0).model().canonical(),
    ensures
        r is Some <==> read_images(opt_model(p)) is Some,
        r is Some ==> read_images(opt_model(p)) == Some(placement_models((r->Some_0)@)),
{
    let mut images: Vec<ImagePlacement> = Vec::new();
    let j = match p {
        None => {
            proof {
                assert(placement_models(images@) =~= Seq::empty());
            }
            return Some(images);
        },
        Some(j) => j,
    };
    let v = match j.as_array() {
        Some(v) => v,
        None => return None,
    };
    let ghost s = json_models(v@);
    for i in 0..v.len()
        invariant
            s == json_models(v@),
            j.model() == JsonModel::Arr(s),
            j.model().canonical(),
            p == Some(j),
            images@.len() == i,
            forall|k: int|
                #![trigger s[k]]
                0 <= k < i ==> read_placement(s[k]) == Some(images@[k]@),
    {
        proof {
            assert(s[i as int] == v@[i as int].model());
            assert(s[i as int].canonical());
        }
        match decode_placement(&v[i]) {
            Some(t) => images.push(t),
            None => return None,
        }
    }
    proof {
        assert(read_images(opt_model(p))->Some_0 =~= placement_models(images@));
    }
    Some(images)
}

/// Puts what every change message tells around its rows.
fn decode_patch(j: &Json, rows: Option<Vec<RowPatch>>, titled: bool) -> (r: Option<WireMsg>)
    requires
        j.model() is Obj,
    ensures
        rows is None ==> r is None,
        rows is Some ==> {
            let want = read_patch(
                j.model()->Obj_0,
                Some(patch_models((rows->Some_0)@)),
                titled,
            );
            &&& r is Some <==> want is Some
            &&& r is Some ==> want == Some((r->Some_0)@)
        },
{
    let rows = match rows {
        Some(rows) => rows,
        None => return None,
    };
    let cur = match decode_cursor_change(j.get('p')) {
        Some(c) => c,
        None => return None,
    };
    let sty = match decode_cursor_style(j.get('q')) {
        Some(s) => s,
        None => return None,
    };
    let mut title: Option<String> = None;
    let mut links: Vec<(u32, String)> = Vec::new();
    proof {
        assert(link_models(links@) =~= Seq::empty());
    }
    if titled {
        title = match decode_title(j.get('t')) {
            Some(t) => t,
            None => return None,
        };
        links = match decode_links(j.get('y')) {
            Some(l) => l,
            None => return None,
        };
    }
    Some(
        WireMsg::Patch { new_cur: cur, new_sty: sty, new_title: title, links, patches: rows },
    )
}

fn decode_cell(j: &Json, message: &Json) -> (r: Option<Vec<RowPatch>>)
    ensures
        r is Some <==> read_cell(j.model(), message.model()) is Some,
        r is Some ==> read_cell(j.model(), message.model()) == Some(patch_models((r->Some_0)@)),
{
    let v = match j.as_array() {
        Some(v) => v,
        None => return None,
    };
    if v.len() != 3 {
        return None;
    }
    proof {
        let s = json_models(v@);
        assert(s[0] == v@[0].model() && s[1] == v@[1].model() && s[2] == v@[2].model());
    }
    match (decode_index(&v[0]), decode_index(&v[1]), v[2].as_string(), decode_style(message)) {
        (Some(r), Some(l), Some(s), Some(st)) => {
            let n: usize = text_len(s);
            let mut text: Vec<Text> = Vec::new();
            text.push(Text::Run(s.clone()));
            let mut style: Vec<(usize, usize, CellStyle)> = Vec::new();
            style.push((0, n, st));
            proof {
                assert(text_models(text@) =~= seq![TextModel::Run(s@)]);
                assert(style@ =~= seq![(0usize, n, st)]);
            }
            let mut rows: Vec<RowPatch> = Vec::new();
            rows.push(RowPatch { r, l, block: Block { text, style } });
            proof {
                assert(patch_models(rows@) =~= read_cell(j.model(), message.model())->Some_0);
            }
            Some(rows)
        },
        _ => None,
    }
}

fn decode_full(j: &Json, d: &Json) -> (r: Option<WireMsg>)
    requires
        j.model() is Obj,
        j.model().canonical(),
    ensures
        r is Some <==> read_full(j.model()->Obj_0, d.model()) is Some,
        r is Some ==> read_full(j.model()->Obj_0, d.model()) == Some((r->Some_0)@),
{
    let w = match j.get('w') {
        Some(x) => match decode_u16(x) {
            Some(n) => n,
            None => return None,
        },
        None => return None,
    };
    let cur = match decode_cursor_change(j.get('p')) {
        Some(Some(c)) => c,
        Some(None) => None,
        None => return None,
    };
    let sty = match decode_cursor_style(j.get('q')) {
        Some(Some(n)) => n,
        Some(None) => 0,
        None => return None,
    };
    let defaults = match decode_defaults(j.get('e')) {
        Some(c) => c,
        None => return None,
    };
    let title = match decode_title(j.get('t')) {
        Some(Some(t)) => t,
        Some(None) => String::new(),
        None => return None,
    };
    let links = match decode_links(j.get('y')) {
        Some(l) => l,
        None => return None,
    };
    let rows = match decode_all_rows(d) {
        Some(rows) => rows,
        None => return None,
    };
    let images = match decode_images(j.get('i')) {
        Some(i) => i,
        None => return None,
    };
    Some(WireMsg::Full { w, cur, sty, defaults, title, links, rows, images })
}

/// Reads a message out of a JSON value.
pub fn decode_message(j: &Json) -> (r: Option<WireMsg>)
    requires
        j.model().canonical(),
    ensures
        r is Some <==> read_message(j.model()) is Some,
        r is Some ==> read_message(j.model()) == Some((r->Some_0)@),
{
    if j.as_object().is_none() {
        return None;
    }
    if let Some(c) = j.get('c') {
        return decode_patch(j, decode_cell(c, j), false);
    }
    if let Some(l) = j.get('l') {
        let rows = match decode_row(l) {
            Some(p) => {
                let mut v: Vec<RowPatch> = Vec::new();
                v.push(p);
                proof {
                    assert(patch_models(v@) =~= seq![p@]);
                }
                Some(v)
            },
            None => None,
        };
        return decode_patch(j, rows, false);
    }
    if let Some(r) = j.get('r') {
        return decode_patch(j, decode_rows(r), true);
    }
    if let Some(d) = j.get('d') {
        return decode_full(j, d);
    }
    if j.get('p').is_some() || j.get('q').is_some() || j.get('t').is_some() {
        let rows: Vec<RowPatch> = Vec::new();
        proof {
            assert(patch_models(rows@) =~= Seq::empty());
        }
        return decode_patch(j, Some(rows), true);
    }
    None
}

/// Reads a message out of its text.
pub fn decode(text: &str) -> (r: Option<WireMsg>)
    ensures
        parsed(text@) is None ==> r is None,
        parsed(text@) is Some ==> (r is Some <==> read_message(parsed(text@)->Some_0) is Some),
        r is Some ==> read_message(parsed(text@)->Some_0) == Some((r->Some_0)@),
{
    match parse(text) {
        Some(j) => decode_message(&j),
        None => None,
    }
}

} // verus!
