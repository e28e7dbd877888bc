//! What viewers see: a grid of styled cells with its cursor, title, links and images.
use vstd::prelude::*;

use crate::json::{same_extent, Extent, JsonModel};

pub use crate::vt::attrs::Color;

verus! {

/// How a cell is drawn.
#[derive(Clone, Copy, Debug, PartialEq, Eq, Structural)]
pub struct CellStyle {
    pub fg: Color,
    pub bg: Color,
    pub bold: bool,
    pub dim: bool,
    pub italic: bool,
    /// 0 none, 1 single, 2 double, 3 curly, 4 dotted, 5 dashed.
    pub underline: u8,
    pub strike: bool,
    pub concealed: bool,
    pub blink: bool,
    /// The underline's colour; `Default` follows the text.
    pub ulcolor: Color,
    pub inverse: bool,
    /// The hyperlink the cell belongs to, an id of the grid's link table.
    pub link: Option<u32>,
    /// The glyph is two columns wide.
    pub wide: bool,
}

impl CellStyle {
    /// Default colours and no attribute.
    pub open spec fn plain() -> CellStyle {
        CellStyle {
            fg: Color::Default,
            bg: Color::Default,
            bold: false,
            dim: false,
            italic: false,
            underline: 0,
            strike: false,
            concealed: false,
            blink: false,
            ulcolor: Color::Default,
            inverse: false,
            link: None,
            wide: false,
        }
    }

    pub fn new() -> (r: CellStyle)
        ensures
            r == CellStyle::plain(),
    {
        CellStyle {
            fg: Color::Default,
            bg: Color::Default,
            bold: false,
            dim: false,
            italic: false,
            underline: 0,
            strike: false,
            concealed: false,
            blink: false,
            ulcolor: Color::Default,
            inverse: false,
            link: None,
            wide: false,
        }
    }
}

/// A cell, mathematically: its text and its style.
pub struct Glyph {
    pub text: Seq<char>,
    pub style: CellStyle,
}

impl Glyph {
    /// An empty cell as it stands beyond the end of a row: a plain space.
    pub open spec fn blank() -> Glyph {
        Glyph { text: seq![' '], style: CellStyle::plain() }
    }

    /// A plain cell.
    pub open spec fn plain(text: Seq<char>) -> Glyph {
        Glyph { text, style: CellStyle::plain() }
    }
}

/// A cell: a character with what combines with it, and how it is drawn.
#[derive(Debug, PartialEq, Eq)]
pub struct StyledCell {
    pub text: String,
    pub fg: Color,
    pub bg: Color,
    pub bold: bool,
    pub dim: bool,
    pub italic: bool,
    pub underline: u8,
    pub strike: bool,
    pub concealed: bool,
    pub blink: bool,
    pub ulcolor: Color,
    pub inverse: bool,
    pub link: Option<u32>,
    pub wide: bool,
}

impl View for StyledCell {
    type V = Glyph;

    open spec fn view(&self) -> Glyph {
        Glyph { text: self.text@, style: self.style_spec() }
    }
}

impl Default for StyledCell {
    fn default() -> (r: StyledCell)
        ensures
            r@ == Glyph::plain(Seq::empty()),
    {
        StyledCell::styled(String::new(), CellStyle::new())
    }
}

impl StyledCell {
    pub open spec fn style_spec(&self) -> CellStyle {
        CellStyle {
            fg: self.fg,
            bg: self.bg,
            bold: self.bold,
            dim: self.dim,
            italic: self.italic,
            underline: self.underline,
            strike: self.strike,
            concealed: self.concealed,
            blink: self.blink,
            ulcolor: self.ulcolor,
            inverse: self.inverse,
            link: self.link,
            wide: self.wide,
        }
    }

    /// How the cell is drawn.
    pub fn style(&self) -> (r: CellStyle)
        ensures
            r == self@.style,
    {
        CellStyle {
            fg: self.fg,
            bg: self.bg,
            bold: self.bold,
            dim: self.dim,
            italic: self.italic,
            underline: self.underline,
            strike: self.strike,
            concealed: self.concealed,
            blink: self.blink,
            ulcolor: self.ulcolor,
            inverse: self.inverse,
            link: self.link,
            wide: self.wide,
        }
    }

    /// A cell of a text and a style.
    pub fn styled(text: String, style: CellStyle) -> (r: StyledCell)
        ensures
            r@ == (Glyph { text: text@, style }),
    {
        StyledCell {
            text,
            fg: style.fg,
            bg: style.bg,
            bold: style.bold,
            dim: style.dim,
            italic: style.italic,
            underline: style.underline,
            strike: style.strike,
            concealed: style.concealed,
            blink: style.blink,
            ulcolor: style.ulcolor,
            inverse: style.inverse,
            link: style.link,
            wide: style.wide,
        }
    }

    /// A plain space.
    pub fn blank() -> (r: StyledCell)
        ensures
            r@ == Glyph::blank(),
    {
        let mut text: String = String::new();
        text.push(' ');
        proof {
            assert(text@ =~= seq![' ']);
        }
        StyledCell::styled(text, CellStyle::new())
    }

    /// Whether two cells show the same.
    pub fn same(&self, other: &StyledCell) -> (r: bool)
        ensures
            r == (self@ == other@),
    {
        self.text == other.text && self.style() == other.style()
    }
}

impl Clone for StyledCell {
    fn clone(&self) -> (r: StyledCell)
        ensures
            r@ == self@,
    {
        StyledCell::styled(self.text.clone(), self.style())
    }
}

/// The models of a row of cells.
pub open spec fn glyphs(row: Seq<StyledCell>) -> Seq<Glyph> {
    Seq::new(row.len(), |i: int| row[i]@)
}

/// The models of rows of cells.
pub open spec fn glyph_rows(rows: Seq<Vec<StyledCell>>) -> Seq<Seq<Glyph>> {
    Seq::new(rows.len(), |i: int| glyphs(rows[i]@))
}

// Links.

/// The ids of a link table rise.
pub open spec fn rising(entries: Seq<(u32, Seq<char>)>) -> bool {
    forall|i: int, j: int|
        #![trigger entries[i], entries[j]]
        0 <= i < j < entries.len() ==> entries[i].0 < entries[j].0
}

/// The URI of an id in a link table.
pub open spec fn link_at(entries: Seq<(u32, Seq<char>)>, id: u32) -> Option<Seq<char>>
    decreases entries.len(),
{
    if entries.len() == 0 {
        None
    } else if entries.last().0 == id {
        Some(entries.last().1)
    } else {
        link_at(entries.drop_last(), id)
    }
}

/// A link table with an entry put in at its place, over one with the same id.
pub open spec fn link_put(entries: Seq<(u32, Seq<char>)>, id: u32, uri: Seq<char>) -> Seq<
    (u32, Seq<char>),
>
    decreases entries.len(),
{
    if entries.len() == 0 || entries.last().0 < id {
        entries.push((id, uri))
    } else if entries.last().0 == id {
        entries.drop_last().push((id, uri))
    } else {
        link_put(entries.drop_last(), id, uri).push(entries.last())
    }
}

/// A link table with further entries put in, one after the other.
pub open spec fn links_merged(
    entries: Seq<(u32, Seq<char>)>,
    more: Seq<(u32, Seq<char>)>,
) -> Seq<(u32, Seq<char>)>
    decreases more.len(),
{
    if more.len() == 0 {
        entries
    } else {
        link_put(links_merged(entries, more.drop_last()), more.last().0, more.last().1)
    }
}

/// The models of link entries.
pub open spec fn link_models(entries: Seq<(u32, String)>) -> Seq<(u32, Seq<char>)> {
    Seq::new(entries.len(), |i: int| (entries[i].0, entries[i].1@))
}

/// A table of hyperlinks, ordered by id.
#[derive(Debug, PartialEq, Eq)]
pub struct LinkMap {
    entries: Vec<(u32, String)>,
}

impl View for LinkMap {
    type V = Seq<(u32, Seq<char>)>;

    closed spec fn view(&self) -> Seq<(u32, Seq<char>)> {
        link_models(self.entries@)
    }
}

impl LinkMap {
    #[verifier::type_invariant]
    spec fn ordered(self) -> bool {
        rising(self@)
    }

    pub fn new() -> (r: LinkMap)
        ensures
            r@ == Seq::<(u32, Seq<char>)>::empty(),
    {
        let r = LinkMap { entries: Vec::new() };
        proof {
            assert(r@ =~= Seq::<(u32, Seq<char>)>::empty());
        }
        r
    }

    /// The number of entries. Their ids rise.
    pub fn len(&self) -> (r: usize)
        ensures
            r == self@.len(),
            rising(self@),
    {
        proof {
            use_type_invariant(self);
        }
        self.entries.len()
    }

    pub fn is_empty(&self) -> (r: bool)
        ensures
            r == (self@.len() == 0),
    {
        self.entries.len() == 0
    }

    /// The entry at a place in the order of ids.
    pub fn entry(&self, i: usize) -> (r: (u32, &String))
        requires
            i < self@.len(),
        ensures
            (r.0, r.1@) == self@[i as int],
    {
        (self.entries[i].0, &self.entries[i].1)
    }

    /// The URI of an id.
    pub fn get(&self, id: u32) -> (r: Option<&String>)
        ensures
            r is Some <==> link_at(self@, id) is Some,
            r is Some ==> link_at(self@, id) == Some((r->Some_0)@),
    {
        let ghost m = self@;
        let mut i: usize = self.entries.len();
        proof {
            assert(m.take(i as int) =~= m);
        }
        while i > 0
            invariant
                i <= self.entries@.len(),
                m == self@,
                link_at(m, id) == link_at(m.take(i as int), id),
            decreases i,
        {
            i = i - 1;
            proof {
                assert(m.take(i + 1).drop_last() =~= m.take(i as int));
                assert(m.take(i + 1).last() == m[i as int]);
            }
            if self.entries[i].0 == id {
                return Some(&self.entries[i].1);
            }
        }
        None
    }

    /// Puts an entry in, over one with the same id.
    pub fn insert(&mut self, id: u32, uri: String)
        ensures
            final(self)@ == link_put(old(self)@, id, uri@),
    {
        proof {
            use_type_invariant(&*self);
        }
        let ghost m = self@;
        let ghost u = uri@;
        let n: usize = self.entries.len();
        let mut i: usize = n;
        proof {
            assert(m.take(n as int) =~= m);
            assert(m.skip(n as int) =~= Seq::empty());
            assert(link_put(m, id, u) + m.skip(n as int) =~= link_put(m, id, u));
        }
        while i > 0 && self.entries[i - 1].0 > id
            invariant
                i <= n,
                n == self.entries@.len(),
                m == self@,
                rising(m),
                forall|j: int| i <= j < n ==> (#[trigger] m[j]).0 > id,
                link_put(m, id, u) == link_put(m.take(i as int), id, u) + m.skip(i as int),
            decreases i,
        {
            proof {
                let t = m.take(i as int);
                assert(t.drop_last() =~= m.take(i - 1));
                assert(t.last() == m[i - 1]);
                assert(link_put(t, id, u) =~= link_put(m.take(i - 1), id, u).push(m[i - 1]));
                assert(link_put(m.take(i - 1), id, u) + m.skip(i - 1) =~= link_put(t, id, u)
                    + m.skip(i as int));
            }
            i = i - 1;
        }
        proof {
            link_put_rises(m, id, u);
        }
        let over: bool = i > 0 && self.entries[i - 1].0 == id;
        let from: usize = if over {
            i - 1
        } else {
            i
        };
        proof {
            let t = m.take(i as int);
            if i > 0 {
                assert(t.last() == m[i - 1]);
                assert(t.drop_last() =~= m.take(i - 1));
            }
            assert(link_put(t, id, u) =~= m.take(from as int).push((id, u)));
        }
        let entries = spliced(&self.entries, from, i, id, uri);
        *self = LinkMap { entries };
    }
}

/// The entries before `from`, a new one, and the entries from `to` on.
fn spliced(entries: &Vec<(u32, String)>, from: usize, to: usize, id: u32, uri: String) -> (r: Vec<
    (u32, String),
>)
    requires
        from <= to <= entries@.len(),
    ensures
        link_models(r@) == link_models(entries@).take(from as int).push((id, uri@)) + link_models(
            entries@,
        ).skip(to as int),
{
    let mut r: Vec<(u32, String)> = Vec::new();
    for k in 0..from
        invariant
            from <= entries@.len(),
            r@ == entries@.take(k as int),
    {
        r.push((entries[k].0, entries[k].1.clone()));
        proof {
            assert(r@ =~= entries@.take(k + 1));
        }
    }
    let ghost u = uri@;
    r.push((id, uri));
    let ghost head = r@;
    proof {
        assert(r@ =~= head + entries@.subrange(to as int, to as int));
    }
    for k in to..entries.len()
        invariant
            to <= entries@.len(),
            r@ == head + entries@.subrange(to as int, k as int),
    {
        r.push((entries[k].0, entries[k].1.clone()));
        proof {
            assert(r@ =~= head + entries@.subrange(to as int, k + 1));
        }
    }
    proof {
        assert(link_models(r@) =~= link_models(entries@).take(from as int).push((id, u))
            + link_models(entries@).skip(to as int));
    }
    r
}

impl Clone for LinkMap {
    fn clone(&self) -> (r: LinkMap)
        ensures
            r@ == self@,
    {
        proof {
            use_type_invariant(self);
        }
        let mut entries: Vec<(u32, String)> = Vec::new();
        for k in 0..self.entries.len()
            invariant
                entries@ == self.entries@.take(k as int),
        {
            entries.push((self.entries[k].0, self.entries[k].1.clone()));
            proof {
                assert(entries@ =~= self.entries@.take(k + 1));
            }
        }
        proof {
            assert(entries@ =~= self.entries@);
        }
        LinkMap { entries }
    }
}

/// Putting an entry in keeps the ids rising.
pub proof fn link_put_rises(entries: Seq<(u32, Seq<char>)>, id: u32, uri: Seq<char>)
    requires
        rising(entries),
    ensures
        rising(link_put(entries, id, uri)),
        forall|i: int|
            0 <= i < link_put(entries, id, uri).len() ==> (#[trigger] link_put(entries, id, uri)[i]).0
                == id || exists|j: int|
                0 <= j < entries.len() && entries[j].0 == link_put(entries, id, uri)[i].0,
    decreases entries.len(),
{
    if entries.len() == 0 || entries.last().0 < id {
        let p = entries.push((id, uri));
        assert forall|i: int| 0 <= i < p.len() implies (#[trigger] p[i]).0 == id || exists|j: int|
            0 <= j < entries.len() && entries[j].0 == p[i].0 by {
            if i < entries.len() {
                assert(entries[i].0 == p[i].0);
            }
        }
    } else if entries.last().0 == id {
        let p = entries.drop_last().push((id, uri));
        assert forall|i: int| 0 <= i < p.len() implies (#[trigger] p[i]).0 == id || exists|j: int|
            0 <= j < entries.len() && entries[j].0 == p[i].0 by {
            assert(entries[i].0 == p[i].0);
        }
    } else {
        let front = entries.drop_last();
        link_put_rises(front, id, uri);
        let q = link_put(front, id, uri);
        let p = q.push(entries.last());
        assert forall|i: int| 0 <= i < p.len() implies (#[trigger] p[i]).0 == id || exists|j: int|
            0 <= j < entries.len() && entries[j].0 == p[i].0 by {
            if i < q.len() {
                assert(p[i] == q[i]);
                if q[i].0 != id {
                    let j = choose|j: int| 0 <= j < front.len() && front[j].0 == q[i].0;
                    assert(entries[j].0 == p[i].0);
                }
            } else {
                assert(entries[entries.len() - 1].0 == p[i].0);
            }
        }
        assert forall|i: int, j: int|
            #![trigger p[i], p[j]]
            0 <= i < j < p.len() implies p[i].0 < p[j].0 by {
            if j == q.len() {
                assert(p[i] == q[i]);
                if q[i].0 != id {
                    let k = choose|k: int| 0 <= k < front.len() && front[k].0 == q[i].0;
                    assert(entries[k].0 == q[i].0);
                }
            } else {
                assert(p[i] == q[i] && p[j] == q[j]);
            }
        }
    }
}

/// An entry that was put in is found, and the others as before.
pub proof fn link_at_put(entries: Seq<(u32, Seq<char>)>, id: u32, uri: Seq<char>, key: u32)
    requires
        rising(entries),
    ensures
        link_at(link_put(entries, id, uri), key) == if key == id {
            Some(uri)
        } else {
            link_at(entries, key)
        },
    decreases entries.len(),
{
    let p = link_put(entries, id, uri);
    if entries.len() == 0 || entries.last().0 < id {
        assert(p.drop_last() =~= entries);
        if key == id {
        }
    } else if entries.last().0 == id {
        assert(p.drop_last() =~= entries.drop_last());
    } else {
        assert(p.drop_last() =~= link_put(entries.drop_last(), id, uri));
        link_at_put(entries.drop_last(), id, uri, key);
    }
}

/// Merging rising entries into an empty table gives just them.
pub proof fn merged_into_empty(more: Seq<(u32, Seq<char>)>)
    requires
        rising(more),
    ensures
        links_merged(Seq::empty(), more) == more,
    decreases more.len(),
{
    if more.len() > 0 {
        merged_into_empty(more.drop_last());
        let front = more.drop_last();
        assert(front.len() > 0 ==> front.last() == more[more.len() - 2]);
        assert(front.push(more.last()) =~= more);
    } else {
        assert(more =~= Seq::empty());
    }
}

/// After a merge an id has its new URI, or the one it had before.
pub proof fn link_at_merged(
    entries: Seq<(u32, Seq<char>)>,
    more: Seq<(u32, Seq<char>)>,
    key: u32,
)
    requires
        rising(entries),
    ensures
        rising(links_merged(entries, more)),
        link_at(links_merged(entries, more), key) == match link_at(more, key) {
            Some(u) => Some(u),
            None => link_at(entries, key),
        },
    decreases more.len(),
{
    if more.len() > 0 {
        link_at_merged(entries, more.drop_last(), key);
        let m = links_merged(entries, more.drop_last());
        link_put_rises(m, more.last().0, more.last().1);
        link_at_put(m, more.last().0, more.last().1, key);
    }
}

// Images.

/// `bytes::Bytes`: a shared buffer of bytes.
#[verifier::external_type_specification]
#[verifier::external_body]
pub struct ExBytes(bytes::Bytes);

/// The bytes that a `bytes::Bytes` holds.
pub uninterp spec fn bytes_of(b: bytes::Bytes) -> Seq<u8>;

/// `bytes::Bytes::len`: the number of bytes.
pub assume_specification[ bytes::Bytes::len ](b: &bytes::Bytes) -> (r: usize)
    ensures
        r == bytes_of(*b).len(),
;

/// The `Clone` of `bytes::Bytes`: another handle on the same bytes.
#[verifier::external_body]
pub(crate) fn share_bytes(b: &bytes::Bytes) -> (r: bytes::Bytes)
    ensures
        bytes_of(r) == bytes_of(*b),
{
    b.clone()
}

/// The payload of an image.
#[derive(Debug, PartialEq, Eq)]
pub struct ImageBlob {
    pub mime: String,
    pub bytes: bytes::Bytes,
}

/// An image payload, mathematically.
pub struct BlobModel {
    pub mime: Seq<char>,
    pub bytes: Seq<u8>,
}

impl View for ImageBlob {
    type V = BlobModel;

    open spec fn view(&self) -> BlobModel {
        BlobModel { mime: self.mime@, bytes: bytes_of(self.bytes) }
    }
}

impl Clone for ImageBlob {
    fn clone(&self) -> (r: ImageBlob)
        ensures
            r@ == self@,
    {
        ImageBlob { mime: self.mime.clone(), bytes: share_bytes(&self.bytes) }
    }
}

/// Where an image stands on the grid, and the key of its payload.
#[derive(Debug, PartialEq, Eq)]
pub struct ImagePlacement {
    /// The row of its top edge. Negative where it has scrolled out in part.
    pub row: i16,
    pub col: u16,
    /// Its size in columns and rows; `None` where the viewer is to go by its pixels.
    pub cols: Option<Extent>,
    pub rows: Option<Extent>,
    pub hash: String,
}

/// A placement, mathematically.
pub struct PlacementModel {
    pub row: i16,
    pub col: u16,
    pub cols: Option<JsonModel>,
    pub rows: Option<JsonModel>,
    pub hash: Seq<char>,
}

/// The model of a size that may be missing.
pub open spec fn extent_model(e: Option<Extent>) -> Option<JsonModel> {
    match e {
        Some(x) => Some(x@),
        None => None,
    }
}

impl View for ImagePlacement {
    type V = PlacementModel;

    open spec fn view(&self) -> PlacementModel {
        PlacementModel {
            row: self.row,
            col: self.col,
            cols: extent_model(self.cols),
            rows: extent_model(self.rows),
            hash: self.hash@,
        }
    }
}

/// Whether two sizes that may be missing are the same.
pub open spec fn same_size(a: Option<JsonModel>, b: Option<JsonModel>) -> bool {
    match (a, b) {
        (Some(x), Some(y)) => same_extent(x, y),
        (None, None) => true,
        _ => false,
    }
}

impl PlacementModel {
    /// Whether two placements are the same.
    pub open spec fn same(self, other: PlacementModel) -> bool {
        &&& self.row == other.row
        &&& self.col == other.col
        &&& same_size(self.cols, other.cols)
        &&& same_size(self.rows, other.rows)
        &&& self.hash == other.hash
    }
}

fn copy_extent(e: &Option<Extent>) -> (r: Option<Extent>)
    ensures
        extent_model(r) == extent_model(*e),
{
    match e {
        Some(x) => Some(x.copy()),
        None => None,
    }
}

fn same_extents(a: &Option<Extent>, b: &Option<Extent>) -> (r: bool)
    ensures
        r == same_size(extent_model(*a), extent_model(*b)),
        extent_model(*a) == extent_model(*b) ==> r,
{
    match (a, b) {
        (Some(x), Some(y)) => x.same(y),
        (None, None) => true,
        _ => false,
    }
}

impl Clone for ImagePlacement {
    fn clone(&self) -> (r: ImagePlacement)
        ensures
            r@ == self@,
    {
        ImagePlacement {
            row: self.row,
            col: self.col,
            cols: copy_extent(&self.cols),
            rows: copy_extent(&self.rows),
            hash: self.hash.clone(),
        }
    }
}

impl ImagePlacement {
    /// Whether two placements are the same.
    pub fn same(&self, other: &ImagePlacement) -> (r: bool)
        ensures
            r == self@.same(other@),
            self@ == other@ ==> r,
    {
        self.row == other.row && self.col == other.col && same_extents(&self.cols, &other.cols)
            && same_extents(&self.rows, &other.rows) && self.hash == other.hash
    }
}

/// The models of placements.
pub open spec fn placement_models(v: Seq<ImagePlacement>) -> Seq<PlacementModel> {
    Seq::new(v.len(), |i: int| v[i]@)
}

/// Whether two lists of placements are the same.
pub open spec fn same_placements(a: Seq<PlacementModel>, b: Seq<PlacementModel>) -> bool {
    a.len() == b.len() && forall|i: int|
        #![trigger a[i], b[i]]
        0 <= i < a.len() ==> a[i].same(b[i])
}

pub fn images_same(a: &Vec<ImagePlacement>, b: &Vec<ImagePlacement>) -> (r: bool)
    ensures
        r == same_placements(placement_models(a@), placement_models(b@)),
        placement_models(a@) == placement_models(b@) ==> r,
{
    if a.len() != b.len() {
        return false;
    }
    let ghost x = placement_models(a@);
    let ghost y = placement_models(b@);
    for i in 0..a.len()
        invariant
            a@.len() == b@.len(),
            x == placement_models(a@),
            y == placement_models(b@),
            forall|j: int| #![trigger x[j], y[j]] 0 <= j < i ==> x[j].same(y[j]),
    {
        proof {
            assert(x[i as int] == a@[i as int]@ && y[i as int] == b@[i as int]@);
        }
        if !a[i].same(&b[i]) {
            return false;
        }
    }
    true
}

/// The models of image payloads under their keys.
pub open spec fn blob_models(v: Seq<(String, ImageBlob)>) -> Seq<(Seq<char>, BlobModel)> {
    Seq::new(v.len(), |i: int| (v[i].0@, v[i].1@))
}

// The screen as viewers see it.

/// A screen of styled cells.
#[derive(Debug, PartialEq, Eq)]
pub struct Grid {
    /// Which source the screen comes from. A change of source is no change of cells.
    pub source_epoch: u64,
    pub cols: u16,
    /// The rows from the top. A row may be shorter than `cols`: the rest is blank.
    pub rows: Vec<Vec<StyledCell>>,
    /// The cursor's row and column, `None` where it is hidden.
    pub cursor: Option<(u16, u16)>,
    /// The cursor style as DECSCUSR numbers it.
    pub cursor_style: u8,
    /// The default foreground and background, where the application set them.
    pub default_colors: (Color, Color),
    pub title: String,
    pub links: LinkMap,
    pub images: Vec<ImagePlacement>,
    /// The payloads of the images, by key.
    pub image_data: Vec<(String, ImageBlob)>,
}

/// A screen of styled cells, mathematically.
pub struct GridModel {
    pub source_epoch: u64,
    pub cols: u16,
    pub rows: Seq<Seq<Glyph>>,
    pub cursor: Option<(u16, u16)>,
    pub cursor_style: u8,
    pub default_colors: (Color, Color),
    pub title: Seq<char>,
    pub links: Seq<(u32, Seq<char>)>,
    pub images: Seq<PlacementModel>,
    pub image_data: Seq<(Seq<char>, BlobModel)>,
}

impl View for Grid {
    type V = GridModel;

    open spec fn view(&self) -> GridModel {
        GridModel {
            source_epoch: self.source_epoch,
            cols: self.cols,
            rows: glyph_rows(self.rows@),
            cursor: self.cursor,
            cursor_style: self.cursor_style,
            default_colors: self.default_colors,
            title: self.title@,
            links: self.links@,
            images: placement_models(self.images@),
            image_data: blob_models(self.image_data@),
        }
    }
}

impl GridModel {
    /// A screen without anything on it.
    pub open spec fn empty() -> GridModel {
        GridModel {
            source_epoch: 0,
            cols: 0,
            rows: Seq::empty(),
            cursor: None,
            cursor_style: 0,
            default_colors: (Color::Default, Color::Default),
            title: Seq::empty(),
            links: Seq::empty(),
            images: Seq::empty(),
            image_data: Seq::empty(),
        }
    }
}

impl Default for Grid {
    fn default() -> (r: Grid)
        ensures
            r@ == GridModel::empty(),
    {
        let r = Grid {
            source_epoch: 0,
            cols: 0,
            rows: Vec::new(),
            cursor: None,
            cursor_style: 0,
            default_colors: (Color::Default, Color::Default),
            title: String::new(),
            links: LinkMap::new(),
            images: Vec::new(),
            image_data: Vec::new(),
        };
        proof {
            assert(r@.rows =~= Seq::empty());
            assert(r@.images =~= Seq::empty());
            assert(r@.image_data =~= Seq::empty());
        }
        r
    }
}

/// Copies a row of cells.
pub fn clone_row(row: &Vec<StyledCell>) -> (r: Vec<StyledCell>)
    ensures
        glyphs(r@) == glyphs(row@),
{
    let mut r: Vec<StyledCell> = Vec::new();
    for i in 0..row.len()
        invariant
            r@.len() == i,
            forall|j: int| 0 <= j < i ==> (#[trigger] r@[j])@ == row@[j]@,
    {
        r.push(row[i].clone());
    }
    proof {
        assert(glyphs(r@) =~= glyphs(row@));
    }
    r
}

impl Clone for Grid {
    fn clone(&self) -> (r: Grid)
        ensures
            r@ == self@,
    {
        let mut rows: Vec<Vec<StyledCell>> = Vec::new();
        for i in 0..self.rows.len()
            invariant
                rows@.len() == i,
                forall|j: int| 0 <= j < i ==> glyphs((#[trigger] rows@[j])@) == glyphs(self.rows@[j]@),
        {
            rows.push(clone_row(&self.rows[i]));
        }
        let mut images: Vec<ImagePlacement> = Vec::new();
        for i in 0..self.images.len()
            invariant
                images@.len() == i,
                forall|j: int| 0 <= j < i ==> (#[trigger] images@[j])@ == self.images@[j]@,
        {
            images.push(self.images[i].clone());
        }
        let mut image_data: Vec<(String, ImageBlob)> = Vec::new();
        for i in 0..self.image_data.len()
            invariant
                image_data@.len() == i,
                forall|j: int|
                    0 <= j < i ==> (#[trigger] image_data@[j]).0@ == self.image_data@[j].0@
                        && image_data@[j].1@ == self.image_data@[j].1@,
        {
            image_data.push((self.image_data[i].0.clone(), self.image_data[i].1.clone()));
        }
        let r = Grid {
            source_epoch: self.source_epoch,
            cols: self.cols,
            rows,
            cursor: self.cursor,
            cursor_style: self.cursor_style,
            default_colors: self.default_colors,
            title: self.title.clone(),
            links: self.links.clone(),
            images,
            image_data,
        };
        proof {
            assert(r@.rows =~= self@.rows);
            assert(r@.images =~= self@.images);
            assert(r@.image_data =~= self@.image_data);
        }
        r
    }
}

/// What is published.
#[derive(Debug, PartialEq, Eq)]
pub enum Frame {
    Screen(Grid),
}

impl View for Frame {
    type V = GridModel;

    open spec fn view(&self) -> GridModel {
        match self {
            Frame::Screen(g) => g@,
        }
    }
}

impl Frame {
    pub fn grid(&self) -> (r: &Grid)
        ensures
            r@ == self@,
    {
        match self {
            Frame::Screen(g) => g,
        }
    }
}

impl Clone for Frame {
    fn clone(&self) -> (r: Frame)
        ensures
            r@ == self@,
    {
        Frame::Screen(self.grid().clone())
    }
}

/// Placements are the same only in the same place, under the same key and in sizes of the same text.
pub proof fn moved_images_differ(a: PlacementModel, b: PlacementModel)
    ensures
        a.same(b) ==> a.row == b.row && a.col == b.col && a.hash == b.hash,
        a.same(b) ==> (a.cols is Some <==> b.cols is Some) && (a.rows is Some <==> b.rows is Some),
        a.same(b) && a.cols is Some ==> same_extent(a.cols->Some_0, b.cols->Some_0),
        a.same(b) && a.rows is Some ==> same_extent(a.rows->Some_0, b.rows->Some_0),
        a.same(a),
{
}

} // verus!
