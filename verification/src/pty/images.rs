//! Inline images on the screen: each covered cell carries a tag, and the tags that survive tell
//! where an image is.
use vstd::prelude::*;

use crate::diff::message::sizes_read_back;
use crate::json::{cells_drawn, Extent, JsonModel};
use crate::model::{extent_model, placement_models, BlobModel, ImageBlob, ImagePlacement, PlacementModel};
use crate::vt::grid::{GridModel, Pos};
use crate::vt::screen::{stamps, Screen, ScreenModel};

verus! {

/// The tag of a cell that an image covers: which image, and where in it the cell is.
#[derive(Clone, Copy, Debug, PartialEq, Eq, Structural)]
pub struct ImgCell {
    pub id: u32,
    pub row_off: u16,
    pub col_off: u16,
}

/// An image on the screen.
pub struct Placed {
    pub id: u32,
    /// Where its top left corner is. The row is negative where it has scrolled out in part.
    pub row: i16,
    pub col: u16,
    /// The size that viewers draw it in.
    pub cols: Option<Extent>,
    pub rows: Option<Extent>,
    /// The size in whole cells.
    pub width: u32,
    pub height: u32,
    /// Its key and payload, `None` until the payload is there.
    pub ready: Option<(String, ImageBlob)>,
}

/// An image on the screen, mathematically.
pub struct PlacedModel {
    pub id: u32,
    pub row: i16,
    pub col: u16,
    pub cols: Option<JsonModel>,
    pub rows: Option<JsonModel>,
    pub width: u32,
    pub height: u32,
    pub ready: Option<(Seq<char>, BlobModel)>,
}

/// The model of a payload that may be missing.
pub open spec fn ready_model(r: Option<(String, ImageBlob)>) -> Option<(Seq<char>, BlobModel)> {
    match r {
        Some((hash, blob)) => Some((hash@, blob@)),
        None => None,
    }
}

impl View for Placed {
    type V = PlacedModel;

    open spec fn view(&self) -> PlacedModel {
        PlacedModel {
            id: self.id,
            row: self.row,
            col: self.col,
            cols: extent_model(self.cols),
            rows: extent_model(self.rows),
            width: self.width,
            height: self.height,
            ready: ready_model(self.ready),
        }
    }
}

/// The models of images.
pub open spec fn placed_models(v: Seq<Placed>) -> Seq<PlacedModel> {
    Seq::new(v.len(), |i: int| v[i]@)
}

fn clone_extent(e: &Option<Extent>) -> (r: Option<Extent>)
    ensures
        extent_model(r) == extent_model(*e),
{
    match e {
        Some(x) => Some(x.copy()),
        None => None,
    }
}

impl Clone for Placed {
    fn clone(&self) -> (r: Placed)
        ensures
            r@ == self@,
    {
        Placed {
            id: self.id,
            row: self.row,
            col: self.col,
            cols: clone_extent(&self.cols),
            rows: clone_extent(&self.rows),
            width: self.width,
            height: self.height,
            ready: match &self.ready {
                Some((hash, blob)) => Some((hash.clone(), blob.clone())),
                None => None,
            },
        }
    }
}

// Stamping.

/// The number of cells that `px` pixels reach into, at least one.
pub open spec fn cells_for(px: u32, cell: u16) -> int {
    let n = (px + cell - 1) / (cell as int);
    if n < 1 {
        1
    } else {
        n
    }
}

/// The size of an image in whole cells: as the application gave it, else by its pixels, else
/// one cell.
pub open spec fn footprint(
    cell: (u16, u16),
    cells: Option<(u16, u16)>,
    px: Option<(u32, u32)>,
) -> (int, int) {
    match cells {
        Some((c, r)) => (c as int, r as int),
        None => match px {
            Some((w, h)) => (cells_for(w, cell.0), cells_for(h, cell.1)),
            None => (1, 1),
        },
    }
}

/// A number of cells as a region takes it: from 1 to 65535.
pub open spec fn region_cells(n: int) -> int {
    if n < 1 {
        1
    } else if n > u16::MAX {
        u16::MAX as int
    } else {
        n
    }
}

/// The id after another. Ids start at 1 and start over when they are used up.
pub open spec fn next_id(id: u32) -> u32 {
    if id == u32::MAX {
        1
    } else {
        (id + 1) as u32
    }
}

/// The tags of a region.
pub open spec fn tags(id: u32, width: int, height: int) -> Seq<Seq<ImgCell>> {
    Seq::new(
        height as nat,
        |r: int|
            Seq::new(
                width as nat,
                |c: int| ImgCell { id, row_off: r as u16, col_off: c as u16 },
            ),
    )
}

/// The screen after an image was put at the cursor.
pub open spec fn stamped_screen(
    s: ScreenModel<ImgCell>,
    id: u32,
    width: int,
    height: int,
) -> ScreenModel<ImgCell> {
    let g = s.active();
    s.on_grid(
        g.stamped(tags(id, g.clipped(region_cells(width)), region_cells(height))).col_at(0),
    )
}

/// The size that viewers draw an image in: as the application gave it, else the exact part of the
/// cells that its pixels take, else none.
pub open spec fn drawn_size(
    cell: (u16, u16),
    cells: Option<(u16, u16)>,
    px: Option<(u32, u32)>,
) -> (Option<JsonModel>, Option<JsonModel>) {
    match cells {
        Some((c, r)) => (Some(JsonModel::Uint(c as u64)), Some(JsonModel::Uint(r as u64))),
        None => match px {
            Some((w, h)) => (Some(cells_drawn(w, cell.0)), Some(cells_drawn(h, cell.1))),
            None => (None, None),
        },
    }
}

/// Whether the sizes that viewers draw an image in are read back from their texts as they are.
pub open spec fn sized(p: PlacedModel) -> bool {
    (p.cols is Some ==> p.cols->Some_0.safe_within(0)) && (p.rows is Some
        ==> p.rows->Some_0.safe_within(0))
}

/// Whether that holds of all images.
pub open spec fn all_sized(images: Seq<PlacedModel>) -> bool {
    forall|i: int| 0 <= i < images.len() ==> sized(#[trigger] images[i])
}

/// An image that is put at the cursor.
pub open spec fn new_image(
    s: ScreenModel<ImgCell>,
    id: u32,
    cell: (u16, u16),
    cells: Option<(u16, u16)>,
    px: Option<(u32, u32)>,
    ready: Option<(Seq<char>, BlobModel)>,
) -> PlacedModel {
    let pos = s.active().pos;
    PlacedModel {
        id,
        row: if pos.row > i16::MAX {
            0
        } else {
            pos.row as i16
        },
        col: pos.col,
        cols: drawn_size(cell, cells, px).0,
        rows: drawn_size(cell, cells, px).1,
        width: footprint(cell, cells, px).0 as u32,
        height: footprint(cell, cells, px).1 as u32,
        ready,
    }
}

fn whole_cells(px: u32, cell: u16) -> (r: u32)
    requires
        cell > 0,
    ensures
        r == cells_for(px, cell),
{
    let n: u64 = (px as u64 + cell as u64 - 1) / (cell as u64);
    proof {
        if px >= 1 {
            assert((px + cell - 1) / (cell as int) <= px) by (nonlinear_arith)
                requires
                    px >= 1,
                    cell >= 1,
            ;
        } else {
            assert((cell - 1) / (cell as int) == 0) by (nonlinear_arith)
                requires
                    cell >= 1,
            ;
        }
    }
    if n < 1 {
        1
    } else {
        n as u32
    }
}

fn clamp_region(n: u32) -> (r: u16)
    ensures
        r == region_cells(n as int),
{
    if n < 1 {
        1
    } else if n > u16::MAX as u32 {
        u16::MAX
    } else {
        n as u16
    }
}

/// Puts an image at the cursor and keeps track of it from now on. Its cells are tagged; the cursor
/// ends in the first column of its last row.
pub fn stamp_image(
    screen: &mut Screen<ImgCell>,
    images: &mut Vec<Placed>,
    image_seq: &mut u32,
    cell: (u16, u16),
    cells: Option<(u16, u16)>,
    px: Option<(u32, u32)>,
    ready: Option<(String, ImageBlob)>,
) -> (id: u32)
    requires
        old(screen)@.wf(),
        cell.0 > 0,
        cell.1 > 0,
    ensures
        id == *old(image_seq),
        *final(image_seq) == next_id(id),
        final(screen)@ == stamped_screen(
            old(screen)@,
            id,
            footprint(cell, cells, px).0,
            footprint(cell, cells, px).1,
        ),
        final(screen)@.wf(),
        placed_models(final(images)@) == placed_models(old(images)@).push(
            new_image(old(screen)@, id, cell, cells, px, ready_model(ready)),
        ),
        sized(placed_models(final(images)@).last()),
        cells matches Some((c, r)) ==> drawn_in_place(
            old(screen)@.active(),
            final(screen)@.active(),
            id,
            c,
            r,
        ),
{
    proof {
        if let Some((c, r)) = cells {
            images_are_drawn_in_place(old(screen)@, *old(image_seq), cell, c, r, px);
        }
    }
    let (row, col) = screen.cursor_position();
    let (width, height): (u32, u32) = match cells {
        Some((c, r)) => (c as u32, r as u32),
        None => match px {
            Some((w, h)) => (whole_cells(w, cell.0), whole_cells(h, cell.1)),
            None => (1, 1),
        },
    };
    let id: u32 = *image_seq;
    *image_seq = if id == u32::MAX {
        1
    } else {
        id + 1
    };
    let w: u16 = clamp_region(width);
    let h: u16 = clamp_region(height);
    let tag = |row_off: u16, col_off: u16| -> (t: ImgCell)
        ensures
            t == (ImgCell { id, row_off, col_off }),
        { ImgCell { id, row_off, col_off } };
    screen.place_data(w, h, tag);
    proof {
        let g = old(screen)@.active();
        let clipped = g.clipped(w as int);
        let vals = choose|vals: Seq<Seq<ImgCell>>| #[trigger]
            stamps(tag, clipped, h as int, vals) && screen@ == old(screen)@.on_grid(
                g.stamped(vals).col_at(0),
            );
        assert forall|r: int| 0 <= r < vals.len() implies vals[r] == tags(
            id,
            clipped,
            h as int,
        )[r] by {
            assert(vals[r].len() == clipped);
            assert forall|c: int| 0 <= c < clipped implies vals[r][c] == (ImgCell {
                id,
                row_off: r as u16,
                col_off: c as u16,
            }) by {
                assert(call_ensures(tag, (r as u16, c as u16), vals[r][c]));
            }
            assert(vals[r] =~= tags(id, clipped, h as int)[r]);
        }
        assert(vals =~= tags(id, clipped, h as int));
    }
    let (cols, rows) = match cells {
        Some((c, r)) => (Some(Extent::whole(c as u64)), Some(Extent::whole(r as u64))),
        None => match px {
            Some((w, h)) => (
                Some(Extent::of_pixels(w, cell.0)),
                Some(Extent::of_pixels(h, cell.1)),
            ),
            None => (None, None),
        },
    };
    let ghost before = placed_models(images@);
    let placed = Placed {
        id,
        row: if row > i16::MAX as u16 {
            0
        } else {
            row as i16
        },
        col,
        cols,
        rows,
        width,
        height,
        ready,
    };
    let ghost model = placed@;
    images.push(placed);
    proof {
        assert(placed_models(images@) =~= before.push(model));
    }
    id
}

// Resolving.

/// Whether the cells of two images overlap.
pub open spec fn overlap(a: PlacedModel, b: PlacedModel) -> bool {
    a.row < b.row + b.height && b.row < a.row + a.height && a.col < b.col + b.width && b.col
        < a.col + a.width
}

/// Whether the cells of two images overlap.
pub fn rects_overlap(a: &Placed, b: &Placed) -> (r: bool)
    ensures
        r == overlap(a@, b@),
{
    let (ar, ac): (i64, i64) = (a.row as i64, a.col as i64);
    let (br, bc): (i64, i64) = (b.row as i64, b.col as i64);
    ar < br + b.height as i64 && br < ar + a.height as i64 && ac < bc + b.width as i64 && bc < ac
        + a.width as i64
}

/// The tag of a cell in view.
pub open spec fn tag_at(g: GridModel<ImgCell>, r: int, c: int) -> Option<ImgCell> {
    let rows = g.visible();
    if 0 <= r < rows.len() && 0 <= c < rows[r].cells.len() {
        rows[r].cells[c].data
    } else {
        None
    }
}

/// Whether one place in an image comes before another, row by row.
pub open spec fn before(a: (u16, u16), b: (u16, u16)) -> bool {
    a.0 < b.0 || (a.0 == b.0 && a.1 < b.1)
}

/// A cell of an image that survived: its place in the image and on the screen.
pub struct Survivor {
    pub off: (u16, u16),
    pub at: (u16, u16),
}

/// The better of a survivor and a further cell: the one that comes first in the image, and the
/// earlier one of equals.
pub open spec fn better(best: Option<Survivor>, off: (u16, u16), at: (u16, u16)) -> Option<Survivor> {
    match best {
        Some(s) => if before(off, s.off) {
            Some(Survivor { off, at })
        } else {
            best
        },
        None => Some(Survivor { off, at }),
    }
}

/// The survivor of an image that comes first in it, out of the first `c` cells of row `r` and
/// all rows above.
pub open spec fn survivor(g: GridModel<ImgCell>, id: u32, r: int, c: int) -> Option<Survivor>
    decreases r, c,
{
    if r < 0 || c < 0 {
        None
    } else if c == 0 {
        if r == 0 {
            None
        } else {
            survivor(g, id, r - 1, g.size.cols as int)
        }
    } else {
        let best = survivor(g, id, r, c - 1);
        match tag_at(g, r, c - 1) {
            Some(t) => if t.id == id {
                better(best, (t.row_off, t.col_off), (r as u16, (c - 1) as u16))
            } else {
                best
            },
            None => best,
        }
    }
}

/// The survivor of an image on the whole screen.
pub open spec fn survivor_of(g: GridModel<ImgCell>, id: u32) -> Option<Survivor> {
    survivor(g, id, g.size.rows - 1, g.size.cols as int)
}

/// Whether an image is the first of its id.
pub open spec fn first_of_id(images: Seq<PlacedModel>, i: int) -> bool {
    forall|j: int| 0 <= j < i ==> (#[trigger] images[j]).id != images[i].id
}

/// What is left of an image: a later image of the same id has no cells of its own.
pub open spec fn left_of(images: Seq<PlacedModel>, g: GridModel<ImgCell>, i: int) -> Option<Survivor> {
    if first_of_id(images, i) {
        survivor_of(g, images[i].id)
    } else {
        None
    }
}

/// A number as a signed one, as far as that goes.
pub open spec fn signed(n: u16) -> int {
    if n > i16::MAX {
        i16::MAX as int
    } else {
        n as int
    }
}

/// An image where its survivor tells that it is.
pub open spec fn located(p: PlacedModel, s: Survivor) -> PlacedModel {
    PlacedModel {
        row: (signed(s.at.0) - signed(s.off.0)) as i16,
        col: if s.at.1 < s.off.1 {
            0
        } else {
            (s.at.1 - s.off.1) as u16
        },
        ..p
    }
}

/// The first `k` images as far as they survive, where they are now.
pub open spec fn surviving(images: Seq<PlacedModel>, g: GridModel<ImgCell>, k: int) -> Seq<PlacedModel>
    decreases k,
{
    if k <= 0 {
        Seq::empty()
    } else {
        let front = surviving(images, g, k - 1);
        match left_of(images, g, k - 1) {
            Some(s) => front.push(located(images[k - 1], s)),
            None => front,
        }
    }
}

/// Whether an image still waits for its payload over the cells of another.
pub open spec fn pending_over(z: PlacedModel, images: Seq<PlacedModel>) -> bool {
    exists|i: int|
        #![trigger images[i]]
        0 <= i < images.len() && images[i].ready is None && overlap(z, images[i])
}

/// The first `k` of some images that a waiting image covers.
pub open spec fn bridged(zombies: Seq<PlacedModel>, images: Seq<PlacedModel>, k: int) -> Seq<PlacedModel>
    decreases k,
{
    if k <= 0 {
        Seq::empty()
    } else if pending_over(zombies[k - 1], images) {
        bridged(zombies, images, k - 1).push(zombies[k - 1])
    } else {
        bridged(zombies, images, k - 1)
    }
}

/// Of the first `k` images those that have no cell left but had a payload to show.
pub open spec fn overwritten(images: Seq<PlacedModel>, g: GridModel<ImgCell>, k: int) -> Seq<PlacedModel>
    decreases k,
{
    if k <= 0 {
        Seq::empty()
    } else if left_of(images, g, k - 1) is None && images[k - 1].ready is Some {
        overwritten(images, g, k - 1).push(images[k - 1])
    } else {
        overwritten(images, g, k - 1)
    }
}

/// The images that stay on screen without cells: those that were there before and those that
/// were just overwritten, each as long as an image that waits for its payload covers it.
pub open spec fn new_zombies(
    images: Seq<PlacedModel>,
    zombies: Seq<PlacedModel>,
    g: GridModel<ImgCell>,
) -> Seq<PlacedModel> {
    let live = surviving(images, g, images.len() as int);
    let gone = overwritten(images, g, images.len() as int);
    let all = zombies + gone;
    bridged(all, live, all.len() as int)
}

/// The placements of the first `k` images that have a payload.
pub open spec fn emitted(images: Seq<PlacedModel>, k: int) -> Seq<PlacementModel>
    decreases k,
{
    if k <= 0 {
        Seq::empty()
    } else {
        let front = emitted(images, k - 1);
        let p = images[k - 1];
        match p.ready {
            Some((hash, blob)) => front.push(
                PlacementModel { row: p.row, col: p.col, cols: p.cols, rows: p.rows, hash },
            ),
            None => front,
        }
    }
}

/// What is shown of images: those without cells first, so that what covers them is drawn later.
pub open spec fn shown_images(zombies: Seq<PlacedModel>, images: Seq<PlacedModel>) -> Seq<
    PlacementModel,
> {
    let all = zombies + images;
    emitted(all, all.len() as int)
}

proof fn kept_sizes(
    images: Seq<PlacedModel>,
    live: Seq<PlacedModel>,
    g: GridModel<ImgCell>,
    k: int,
)
    requires
        all_sized(images),
        k <= images.len(),
    ensures
        all_sized(surviving(images, g, k)),
        all_sized(overwritten(images, g, k)),
        all_sized(bridged(images, live, k)),
        sizes_read_back(emitted(images, k)),
    decreases k,
{
    if k > 0 {
        kept_sizes(images, live, g, k - 1);
        assert(sized(images[k - 1]));
    }
}

/// Images whose sizes are read back from their texts are shown in such sizes, now and later.
pub proof fn shown_sizes_are_kept(
    images: Seq<PlacedModel>,
    zombies: Seq<PlacedModel>,
    g: GridModel<ImgCell>,
)
    requires
        all_sized(images),
        all_sized(zombies),
    ensures
        ({
            let live = surviving(images, g, images.len() as int);
            let dead = new_zombies(images, zombies, g);
            &&& all_sized(live)
            &&& all_sized(dead)
            &&& sizes_read_back(shown_images(dead, live))
        }),
{
    let n = images.len() as int;
    let live = surviving(images, g, n);
    kept_sizes(images, live, g, n);
    let all = zombies + overwritten(images, g, n);
    assert(all_sized(all));
    kept_sizes(all, live, g, all.len() as int);
    let dead = new_zombies(images, zombies, g);
    let shown = dead + live;
    assert(all_sized(shown));
    kept_sizes(shown, live, g, shown.len() as int);
}

fn position(images: &Vec<Placed>, id: u32) -> (r: Option<usize>)
    ensures
        match r {
            Some(i) => i < images@.len() && images@[i as int].id == id && first_of_id(
                placed_models(images@),
                i as int,
            ),
            None => forall|j: int| 0 <= j < images@.len() ==> (#[trigger] images@[j]).id != id,
        },
{
    let ghost m = placed_models(images@);
    for i in 0..images.len()
        invariant
            m == placed_models(images@),
            forall|j: int| 0 <= j < i ==> (#[trigger] images@[j]).id != id,
    {
        if images[i].id == id {
            proof {
                assert forall|j: int| 0 <= j < i implies (#[trigger] m[j]).id != m[i as int].id by {
                    assert(m[j].id == images@[j].id);
                }
            }
            return Some(i);
        }
    }
    None
}

fn survivors(screen: &Screen<ImgCell>, images: &Vec<Placed>) -> (best: Vec<Option<Survivor>>)
    requires
        screen@.wf(),
    ensures
        best@.len() == images@.len(),
        forall|i: int|
            0 <= i < images@.len() ==> #[trigger] best@[i] == left_of(
                placed_models(images@),
                screen@.active(),
                i,
            ),
{
    let ghost g = screen@.active();
    let ghost m = placed_models(images@);
    let n: usize = images.len();
    let mut best: Vec<Option<Survivor>> = Vec::new();
    for i in 0..n
        invariant
            best@.len() == i,
            forall|j: int| 0 <= j < i ==> (#[trigger] best@[j]) is None,
    {
        best.push(None);
    }
    let (rows, cols) = screen.size();
    let mut r: u16 = 0;
    while r < rows
        invariant
            screen@.wf(),
            g == screen@.active(),
            m == placed_models(images@),
            n == images@.len(),
            rows == g.size.rows,
            cols == g.size.cols,
            r <= rows,
            best@.len() == n,
            forall|i: int|
                0 <= i < n ==> #[trigger] best@[i] == if first_of_id(m, i) {
                    survivor(g, m[i].id, r - 1, cols as int)
                } else {
                    None
                },
        decreases rows - r,
    {
        let mut c: u16 = 0;
        proof {
            assert forall|i: int| 0 <= i < n implies #[trigger] best@[i] == if first_of_id(m, i) {
                survivor(g, m[i].id, r as int, 0)
            } else {
                None
            } by {
                if r == 0 {
                    assert(survivor(g, m[i].id, -1, cols as int) is None);
                    assert(survivor(g, m[i].id, 0, 0) is None);
                } else {
                    assert(survivor(g, m[i].id, r as int, 0) == survivor(
                        g,
                        m[i].id,
                        r - 1,
                        cols as int,
                    ));
                }
            }
        }
        while c < cols
            invariant
                screen@.wf(),
                g == screen@.active(),
                m == placed_models(images@),
                n == images@.len(),
                rows == g.size.rows,
                cols == g.size.cols,
                r < rows,
                c <= cols,
                best@.len() == n,
                forall|i: int|
                    0 <= i < n ==> #[trigger] best@[i] == if first_of_id(m, i) {
                        survivor(g, m[i].id, r as int, c as int)
                    } else {
                        None
                    },
            decreases cols - c,
        {
            let tag: Option<ImgCell> = match screen.cell(r, c) {
                Some(cell) => match cell.data() {
                    Some(t) => Some(*t),
                    None => None,
                },
                None => None,
            };
            let ghost was = best@;
            proof {
                assert(tag == tag_at(g, r as int, c as int));
            }
            if let Some(t) = tag {
                if let Some(i) = position(images, t.id) {
                    let first: bool = match &best[i] {
                        Some(s) => t.row_off < s.off.0 || (t.row_off == s.off.0 && t.col_off
                            < s.off.1),
                        None => true,
                    };
                    if first {
                        best[i] = Some(Survivor { off: (t.row_off, t.col_off), at: (r, c) });
                    }
                    proof {
                        assert(m[i as int].id == t.id);
                        assert(best@[i as int] == better(
                            was[i as int],
                            (t.row_off, t.col_off),
                            (r, c),
                        ));
                        assert forall|k: int| 0 <= k < n implies #[trigger] best@[k]
                            == if first_of_id(m, k) {
                            survivor(g, m[k].id, r as int, c + 1)
                        } else {
                            None
                        } by {
                            assert(was[k] == if first_of_id(m, k) {
                                survivor(g, m[k].id, r as int, c as int)
                            } else {
                                None
                            });
                            if k != i && m[k].id == t.id {
                                if k < i {
                                    assert(m[k].id != m[i as int].id);
                                } else {
                                    assert(!first_of_id(m, k)) by {
                                        assert(m[i as int].id == m[k].id);
                                    }
                                }
                            }
                        }
                    }
                } else {
                    proof {
                        assert forall|k: int| 0 <= k < n implies #[trigger] best@[k]
                            == if first_of_id(m, k) {
                            survivor(g, m[k].id, r as int, c + 1)
                        } else {
                            None
                        } by {
                            assert(m[k].id == images@[k].id);
                        }
                    }
                }
            }
            c = c + 1;
        }
        r = r + 1;
    }
    best
}

fn locate(p: &Placed, s: &Survivor) -> (r: Placed)
    ensures
        r@ == located(p@, *s),
{
    let a: i16 = to_signed(s.at.0);
    let b: i16 = to_signed(s.off.0);
    let mut r = p.clone();
    r.row = a - b;
    r.col = s.at.1.saturating_sub(s.off.1);
    r
}

fn to_signed(n: u16) -> (r: i16)
    ensures
        r == signed(n),
        r >= 0,
{
    if n > i16::MAX as u16 {
        i16::MAX
    } else {
        n as i16
    }
}

fn is_bridged(z: &Placed, images: &Vec<Placed>) -> (r: bool)
    ensures
        r == pending_over(z@, placed_models(images@)),
{
    let ghost m = placed_models(images@);
    for i in 0..images.len()
        invariant
            m == placed_models(images@),
            forall|j: int|
                #![trigger m[j]]
                0 <= j < i ==> !(m[j].ready is None && overlap(z@, m[j])),
    {
        proof {
            assert(m[i as int] == images@[i as int]@);
        }
        if images[i].ready.is_none() && rects_overlap(z, &images[i]) {
            return true;
        }
    }
    false
}

/// Finds out where the images are. Those without a cell left are dropped, unless an image that
/// waits for its payload covers them: then they stay until it has it. Returns what is shown.
pub fn resolve_images(
    screen: &Screen<ImgCell>,
    images: &mut Vec<Placed>,
    zombies: &mut Vec<Placed>,
) -> (r: Vec<ImagePlacement>)
    requires
        screen@.wf(),
    ensures
        placed_models(final(images)@) == surviving(
            placed_models(old(images)@),
            screen@.active(),
            old(images)@.len() as int,
        ),
        placed_models(final(zombies)@) == new_zombies(
            placed_models(old(images)@),
            placed_models(old(zombies)@),
            screen@.active(),
        ),
        placement_models(r@) == shown_images(
            placed_models(final(zombies)@),
            placed_models(final(images)@),
        ),
{
    let ghost g = screen@.active();
    let ghost m = placed_models(images@);
    let best = survivors(screen, images);
    let mut live: Vec<Placed> = Vec::new();
    let mut all: Vec<Placed> = Vec::new();
    for i in 0..zombies.len()
        invariant
            *zombies == *old(zombies),
            all@.len() == i,
            forall|j: int| 0 <= j < i ==> (#[trigger] all@[j])@ == zombies@[j]@,
    {
        all.push(zombies[i].clone());
    }
    let ghost z = placed_models(zombies@);
    proof {
        assert(placed_models(all@) =~= z + overwritten(m, g, 0));
        assert(placed_models(live@) =~= surviving(m, g, 0));
    }
    for i in 0..images.len()
        invariant
            *images == *old(images),
            m == placed_models(images@),
            best@.len() == images@.len(),
            forall|k: int| 0 <= k < images@.len() ==> #[trigger] best@[k] == left_of(m, g, k),
            placed_models(live@) == surviving(m, g, i as int),
            placed_models(all@) == z + overwritten(m, g, i as int),
    {
        proof {
            assert(m[i as int] == images@[i as int]@);
        }
        let ghost live0 = placed_models(live@);
        let ghost all0 = placed_models(all@);
        match &best[i] {
            Some(s) => {
                let p = locate(&images[i], s);
                let ghost pm = p@;
                live.push(p);
                proof {
                    assert(placed_models(live@) =~= live0.push(pm));
                }
            },
            None => {
                if images[i].ready.is_some() {
                    all.push(images[i].clone());
                    proof {
                        assert(placed_models(all@) =~= all0.push(m[i as int]));
                        assert(all0.push(m[i as int]) =~= z + overwritten(m, g, i + 1));
                    }
                }
            },
        }
    }
    let mut kept: Vec<Placed> = Vec::new();
    let ghost am = placed_models(all@);
    let ghost lm = placed_models(live@);
    proof {
        assert(placed_models(kept@) =~= bridged(am, lm, 0));
    }
    for i in 0..all.len()
        invariant
            am == placed_models(all@),
            lm == placed_models(live@),
            placed_models(kept@) == bridged(am, lm, i as int),
    {
        proof {
            assert(am[i as int] == all@[i as int]@);
        }
        if is_bridged(&all[i], &live) {
            let ghost kept0 = placed_models(kept@);
            kept.push(all[i].clone());
            proof {
                assert(placed_models(kept@) =~= kept0.push(am[i as int]));
            }
        }
    }
    let mut r: Vec<ImagePlacement> = Vec::new();
    let ghost shown = placed_models(kept@) + lm;
    proof {
        assert(placement_models(r@) =~= emitted(shown, 0));
    }
    for i in 0..kept.len()
        invariant
            shown == placed_models(kept@) + lm,
            placement_models(r@) == emitted(shown, i as int),
    {
        proof {
            assert(shown[i as int] == kept@[i as int]@);
        }
        emit(&kept[i], &mut r);
    }
    let k: usize = kept.len();
    for i in 0..live.len()
        invariant
            k == kept@.len(),
            lm == placed_models(live@),
            shown == placed_models(kept@) + lm,
            placement_models(r@) == emitted(shown, k + i),
    {
        proof {
            assert(shown[k + i] == live@[i as int]@);
        }
        emit(&live[i], &mut r);
    }
    *images = live;
    *zombies = kept;
    r
}

fn emit(p: &Placed, r: &mut Vec<ImagePlacement>)
    ensures
        placement_models(final(r)@) == match p@.ready {
            Some((hash, blob)) => placement_models(old(r)@).push(
                PlacementModel {
                    row: p@.row,
                    col: p@.col,
                    cols: p@.cols,
                    rows: p@.rows,
                    hash,
                },
            ),
            None => placement_models(old(r)@),
        },
{
    if let Some((hash, _)) = &p.ready {
        let placement = ImagePlacement {
            row: p.row,
            col: p.col,
            cols: clone_extent(&p.cols),
            rows: clone_extent(&p.rows),
            hash: hash.clone(),
        };
        let ghost model = placement@;
        r.push(placement);
        proof {
            assert(placement_models(r@) =~= placement_models(old(r)@).push(model));
        }
    }
}

// Laws.

/// An image is never shown under a key whose payload is not there.
pub proof fn shown_means_ready(images: Seq<PlacedModel>, k: int)
    requires
        0 <= k <= images.len(),
    ensures
        forall|i: int|
            0 <= i < emitted(images, k).len() ==> exists|j: int|
                0 <= j < k && (#[trigger] images[j]).ready is Some && images[j].ready->Some_0.0 == (
                #[trigger] emitted(images, k)[i]).hash,
    decreases k,
{
    if k > 0 {
        shown_means_ready(images, k - 1);
        let front = emitted(images, k - 1);
        let all = emitted(images, k);
        assert forall|i: int| 0 <= i < all.len() implies exists|j: int|
            0 <= j < k && (#[trigger] images[j]).ready is Some && images[j].ready->Some_0.0 == (
            #[trigger] all[i]).hash by {
            if i < front.len() {
                assert(all[i] == front[i]);
                let j = choose|j: int|
                    0 <= j < k - 1 && (#[trigger] images[j]).ready is Some
                        && images[j].ready->Some_0.0 == front[i].hash;
                assert(images[j].ready is Some);
            } else {
                assert(images[k - 1].ready is Some);
            }
        }
    }
}

/// Without an image that waits for its payload nothing is kept on screen that has no cell left.
pub proof fn nothing_lingers(
    images: Seq<PlacedModel>,
    zombies: Seq<PlacedModel>,
    g: GridModel<ImgCell>,
)
    requires
        forall|i: int|
            0 <= i < surviving(images, g, images.len() as int).len() ==> (#[trigger] surviving(
                images,
                g,
                images.len() as int,
            )[i]).ready is Some,
    ensures
        new_zombies(images, zombies, g) == Seq::<PlacedModel>::empty(),
{
    let live = surviving(images, g, images.len() as int);
    let all = zombies + overwritten(images, g, images.len() as int);
    none_bridged(all, live, all.len() as int);
}

proof fn none_bridged(zombies: Seq<PlacedModel>, images: Seq<PlacedModel>, k: int)
    requires
        forall|i: int| 0 <= i < images.len() ==> (#[trigger] images[i]).ready is Some,
    ensures
        bridged(zombies, images, k) == Seq::<PlacedModel>::empty(),
    decreases k,
{
    if k > 0 {
        none_bridged(zombies, images, k - 1);
    }
}

// Where images are.

proof fn fed_down<T>(g: GridModel<T>)
    requires
        g.wf(),
        g.pos.row != g.scroll_bottom,
        g.pos.row + 1 < g.size.rows,
    ensures
        g.line_fed(1) == (GridModel {
            pos: Pos { row: (g.pos.row + 1) as u16, col: g.pos.col },
            ..g
        }),
{
    let m = g.row_moved_down(1);
    assert(g.overrun(1) == 0);
    assert(m.rows_up(m.scroll_top as int, m.scroll_bottom as int, 0) =~= m.rows);
}

proof fn stamped_in_place<T>(g: GridModel<T>, vals: Seq<Seq<T>>, width: int)
    requires
        g.wf(),
        g.allocated(),
        vals.len() >= 1,
        width >= 1,
        g.left_edge() + width <= g.size.cols,
        g.pos.row + vals.len() <= g.size.rows,
        g.scroll_bottom < g.pos.row || g.pos.row + vals.len() - 1 <= g.scroll_bottom,
        forall|i: int| 0 <= i < vals.len() ==> (#[trigger] vals[i]).len() == width,
    ensures
        ({
            let t = g.stamped(vals);
            let (row, left) = (g.pos.row as int, g.left_edge());
            &&& t == (GridModel {
                rows: t.rows,
                pos: Pos { row: (row + vals.len() - 1) as u16, col: g.pos.col },
                ..g
            })
            &&& t.wf() && t.rows.len() == g.rows.len()
            &&& forall|y: int, x: int|
                0 <= y < g.size.rows && 0 <= x < g.size.cols ==> #[trigger] t.rows[y].cells[x] == if row
                    <= y < row + vals.len() && left <= x < left + width {
                    g.rows[y].cells[x].with_data(Some(vals[y - row][x - left]))
                } else {
                    g.rows[y].cells[x]
                }
        }),
    decreases vals.len(),
{
    let (row, left) = (g.pos.row as int, g.left_edge());
    let cols = g.size.cols as int;
    let above = g.stamped(vals.drop_last());
    let line = if vals.len() == 1 {
        g
    } else {
        stamped_in_place(g, vals.drop_last(), width);
        fed_down(above);
        above.line_fed(1)
    };
    if vals.len() == 1 {
        assert(vals.drop_last() =~= Seq::empty());
        assert(above == g);
    }
    let t = g.stamped(vals);
    let r = row + vals.len() - 1;
    assert(line.pos.row == r);
    assert(t == line.stamped_row(left, vals.last()));
    assert(line.rows[r].wf(cols));
    assert forall|y: int, x: int|
        0 <= y < g.size.rows && 0 <= x < cols implies #[trigger] t.rows[y].cells[x] == if row <= y
        < row + vals.len() && left <= x < left + width {
        g.rows[y].cells[x].with_data(Some(vals[y - row][x - left]))
    } else {
        g.rows[y].cells[x]
    } by {
        assert(line.rows[y].cells[x] == line.rows[y].cells[x]);
        if y != r {
            assert(t.rows[y] == line.rows[y]);
            if row <= y < r {
                assert(vals.drop_last()[y - row] == vals[y - row]);
            }
        }
    }
    assert forall|y: int| 0 <= y < t.rows.len() implies (#[trigger] t.rows[y]).wf(cols) by {
        assert(line.rows[y].wf(cols));
        if y == r {
            let a = t.rows[y];
            let b = line.rows[y];
            assert forall|x: int| 0 <= x < cols && (#[trigger] a.cells[x].wide()) implies x + 1
                < cols && a.cells[x + 1].cont() by {
                assert(b.cells[x].wide());
            }
            assert forall|x: int| 0 <= x < cols && (#[trigger] a.cells[x].cont()) implies 0 < x
                && a.cells[x - 1].wide() by {
                assert(b.cells[x].cont());
            }
        }
    }
}

/// An image of `c` columns and `r` rows that has room below the cursor covers just the cells from the
/// cursor on: `r` rows of them and `c` columns, or as many as there are to the right. Each is tagged
/// with the image and its own place in it; the text stays, and the cursor ends in the first column of
/// the image's last row.
pub proof fn images_cover_their_cells(
    s: ScreenModel<ImgCell>,
    id: u32,
    cell: (u16, u16),
    c: u16,
    r: u16,
    px: Option<(u32, u32)>,
    y: int,
    x: int,
)
    requires
        s.wf(),
        c >= 1,
        r >= 1,
        s.active().pos.col < s.active().size.cols,
        s.active().pos.row + r <= s.active().size.rows,
        s.active().scroll_bottom < s.active().pos.row || s.active().pos.row + r - 1
            <= s.active().scroll_bottom,
        0 <= y < s.active().size.rows,
        0 <= x < s.active().size.cols,
    ensures
        ({
            let size = footprint(cell, Some((c, r)), px);
            let t = stamped_screen(s, id, size.0, size.1);
            let (row, col) = (s.active().pos.row as int, s.active().pos.col as int);
            let before = s.active().rows[y].cells[x];
            let after = t.active().rows[y].cells[x];
            let covered = row <= y < row + r && col <= x < col + c;
            &&& size.0 == c && size.1 == r
            &&& covered ==> after.data == Some(
                ImgCell { id, row_off: (y - row) as u16, col_off: (x - col) as u16 },
            )
            &&& !covered ==> after.data == before.data
            &&& after.text == before.text && after.attrs == before.attrs && after.half
                == before.half
            &&& t.active().pos.row == row + r - 1 && t.active().pos.col == 0
            &&& t.active().scrollback == s.active().scrollback && t.attrs == s.attrs
        }),
{
    let g = s.active();
    let w = g.clipped(c as int);
    let vals = tags(id, w, r as int);
    assert forall|i: int| 0 <= i < vals.len() implies (#[trigger] vals[i]).len() == w by {}
    stamped_in_place(g, vals, w);
    let t = g.stamped(vals);
    assert(t.rows[y].cells[x] == t.rows[y].cells[x]);
}

/// An image that is put on the screen is kept track of where the cursor was, in the size that was
/// given, under an id of its own.
pub proof fn images_are_recorded(
    s: ScreenModel<ImgCell>,
    id: u32,
    cell: (u16, u16),
    c: u16,
    r: u16,
    px: Option<(u32, u32)>,
    ready: Option<(Seq<char>, BlobModel)>,
)
    ensures
        ({
            let p = new_image(s, id, cell, Some((c, r)), px, ready);
            &&& p.id == id && p.ready == ready && p.width == c && p.height == r
            &&& p.cols == Some(JsonModel::Uint(c as u64)) && p.rows == Some(JsonModel::Uint(r as u64))
            &&& p.col == s.active().pos.col
            &&& s.active().pos.row <= 32767 ==> p.row == s.active().pos.row
            &&& next_id(id) != id && next_id(id) != 0
            &&& id < u32::MAX ==> next_id(id) == id + 1
        }),
{
}

/// An image of which only the pixels are known takes as few cells as hold them, and one at least; one
/// of which nothing is known takes one cell.
pub proof fn pixels_take_cells(cell: (u16, u16), w: u32, h: u32)
    requires
        cell.0 > 0,
        cell.1 > 0,
    ensures
        ({
            let (c, r) = footprint(cell, None, Some((w, h)));
            &&& c * cell.0 >= w && r * cell.1 >= h && c >= 1 && r >= 1
            &&& c > 1 ==> (c - 1) * cell.0 < w
            &&& r > 1 ==> (r - 1) * cell.1 < h
            &&& footprint(cell, None, None) == (1int, 1int)
        }),
{
    least_cells(w, cell.0);
    least_cells(h, cell.1);
}

proof fn least_cells(px: u32, cell: u16)
    requires
        cell > 0,
    ensures
        cells_for(px, cell) * cell >= px,
        cells_for(px, cell) >= 1,
        cells_for(px, cell) > 1 ==> (cells_for(px, cell) - 1) * cell < px,
{
    let n = (px + cell - 1) / (cell as int);
    assert(n * cell <= px + cell - 1 && px + cell - 1 < n * cell + cell) by (nonlinear_arith)
        requires
            n == (px + cell - 1) / (cell as int),
            cell > 0,
            px >= 0,
    ;
    if n < 1 {
        assert(n * cell <= 0) by (nonlinear_arith)
            requires
                n <= 0,
                cell > 0,
        ;
    }
    assert((n - 1) * cell == n * cell - cell) by (nonlinear_arith);
}

/// Whether a cell in view is one of an image.
pub open spec fn is_part(g: GridModel<ImgCell>, id: u32, y: int, x: int) -> bool {
    tag_at(g, y, x) is Some && tag_at(g, y, x)->Some_0.id == id
}

proof fn survivor_is_first(g: GridModel<ImgCell>, id: u32, r: int, c: int, y: int, x: int)
    requires
        0 <= r <= u16::MAX,
        0 <= c <= g.size.cols,
    ensures
        survivor(g, id, r, c) matches Some(s) ==> tag_at(g, s.at.0 as int, s.at.1 as int) == Some(
            ImgCell { id, row_off: s.off.0, col_off: s.off.1 },
        ),
        0 <= x < g.size.cols && 0 <= y && (y < r || (y == r && x < c)) && is_part(g, id, y, x) ==> {
            let t = tag_at(g, y, x)->Some_0;
            survivor(g, id, r, c) is Some && !before(
                (t.row_off, t.col_off),
                survivor(g, id, r, c)->Some_0.off,
            )
        },
    decreases r, c,
{
    if c == 0 {
        if r > 0 {
            survivor_is_first(g, id, r - 1, g.size.cols as int, y, x);
        }
    } else {
        survivor_is_first(g, id, r, c - 1, y, x);
    }
}

/// Whether all cells of an image agree where its corner is.
pub open spec fn agree(g: GridModel<ImgCell>, id: u32, row: int, col: int) -> bool {
    forall|y: int, x: int|
        0 <= y < g.size.rows && 0 <= x < g.size.cols && #[trigger] is_part(g, id, y, x) ==> y
            - tag_at(g, y, x)->Some_0.row_off == row && x - tag_at(g, y, x)->Some_0.col_off == col
}

/// An image is where its cells say: however much of it is overwritten, as long as one cell is left
/// its corner is found from it, above the screen where it has scrolled there. Without a cell left
/// nothing is found.
pub proof fn images_are_where_their_cells_are(
    images: Seq<PlacedModel>,
    g: GridModel<ImgCell>,
    i: int,
    row: int,
    col: int,
)
    requires
        0 <= i < images.len(),
        g.wf(),
        g.size.rows <= 32767,
        first_of_id(images, i),
        agree(g, images[i].id, row, col),
        col >= 0,
        g.size.rows - row <= 32767,
    ensures
        (exists|y: int, x: int|
            0 <= y < g.size.rows && 0 <= x < g.size.cols && is_part(g, images[i].id, y, x))
            <==> left_of(images, g, i) is Some,
        left_of(images, g, i) matches Some(s) ==> {
            let p = located(images[i], s);
            &&& p.row == row && p.col == col
            &&& p == (PlacedModel { row: p.row, col: p.col, ..images[i] })
        },
{
    let id = images[i].id;
    let (rows, cols) = (g.size.rows - 1, g.size.cols as int);
    survivor_is_first(g, id, rows, cols, 0, 0);
    if exists|y: int, x: int|
        0 <= y < g.size.rows && 0 <= x < g.size.cols && is_part(g, id, y, x) {
        let (y, x) = choose|y: int, x: int|
            0 <= y < g.size.rows && 0 <= x < g.size.cols && is_part(g, id, y, x);
        survivor_is_first(g, id, rows, cols, y, x);
    }
    if let Some(s) = survivor_of(g, id) {
        survivor_is_inside(g, id, rows, cols);
        assert(is_part(g, id, s.at.0 as int, s.at.1 as int));
    }
}

proof fn survivor_is_inside(g: GridModel<ImgCell>, id: u32, r: int, c: int)
    requires
        0 <= r <= u16::MAX,
        0 <= c <= g.size.cols,
    ensures
        survivor(g, id, r, c) matches Some(s) ==> s.at.0 <= r && s.at.1 < g.size.cols,
    decreases r, c,
{
    if c == 0 {
        if r > 0 {
            survivor_is_inside(g, id, r - 1, g.size.cols as int);
        }
    } else {
        survivor_is_inside(g, id, r, c - 1);
    }
}

/// Of the images that are tracked just those stay that have a cell left, each as it was but for its
/// place, and in order.
pub proof fn images_with_cells_stay(images: Seq<PlacedModel>, g: GridModel<ImgCell>, k: int, i: int)
    requires
        0 <= i < k <= images.len(),
    ensures
        left_of(images, g, i) is Some ==> surviving(images, g, k).contains(
            located(images[i], left_of(images, g, i)->Some_0),
        ),
        forall|j: int|
            0 <= j < surviving(images, g, k).len() ==> exists|m: int|
                0 <= m < k && left_of(images, g, m) is Some && (#[trigger] surviving(images, g, k)[j])
                    == located(#[trigger] images[m], left_of(images, g, m)->Some_0),
    decreases k,
{
    let front = surviving(images, g, k - 1);
    let all = surviving(images, g, k);
    if i < k - 1 {
        images_with_cells_stay(images, g, k - 1, i);
        if left_of(images, g, i) is Some {
            let p = located(images[i], left_of(images, g, i)->Some_0);
            let j = choose|j: int| 0 <= j < front.len() && front[j] == p;
            assert(all[j] == p);
        }
    } else if left_of(images, g, i) is Some {
        assert(all.last() == located(images[i], left_of(images, g, i)->Some_0));
    }
    if k > 1 {
        images_with_cells_stay(images, g, k - 1, 0);
    }
    assert forall|j: int| 0 <= j < all.len() implies exists|m: int|
        0 <= m < k && left_of(images, g, m) is Some && (#[trigger] all[j]) == located(
            #[trigger] images[m],
            left_of(images, g, m)->Some_0,
        ) by {
        if j < front.len() {
            assert(all[j] == front[j]);
            let m = choose|m: int|
                0 <= m < k - 1 && left_of(images, g, m) is Some && front[j] == located(
                    #[trigger] images[m],
                    left_of(images, g, m)->Some_0,
                );
            assert(all[j] == located(images[m], left_of(images, g, m)->Some_0));
        } else {
            assert(all[j] == located(images[k - 1], left_of(images, g, k - 1)->Some_0));
        }
    }
}

/// Every image that has its payload is shown: at its place, in its size and under its key.
pub proof fn ready_images_are_shown(images: Seq<PlacedModel>, k: int, i: int)
    requires
        0 <= i < k <= images.len(),
        images[i].ready is Some,
    ensures
        exists|j: int|
            0 <= j < emitted(images, k).len() && {
                let p = #[trigger] emitted(images, k)[j];
                &&& p.row == images[i].row && p.col == images[i].col
                &&& p.cols == images[i].cols && p.rows == images[i].rows
                &&& p.hash == images[i].ready->Some_0.0
            },
    decreases k,
{
    let front = emitted(images, k - 1);
    let all = emitted(images, k);
    if i < k - 1 {
        ready_images_are_shown(images, k - 1, i);
        let j = choose|j: int|
            0 <= j < front.len() && {
                let p = #[trigger] front[j];
                &&& p.row == images[i].row && p.col == images[i].col
                &&& p.cols == images[i].cols && p.rows == images[i].rows
                &&& p.hash == images[i].ready->Some_0.0
            };
        assert(all[j] == front[j]);
    } else {
        assert(all[all.len() - 1].hash == images[i].ready->Some_0.0);
    }
}

/// Whether an image covers a place.
pub open spec fn covers(p: PlacedModel, y: int, x: int) -> bool {
    p.row <= y < p.row + p.height && p.col <= x < p.col + p.width
}

/// Images overlap where both cover a place.
pub proof fn overlapping_images(a: PlacedModel, b: PlacedModel)
    requires
        a.width > 0,
        a.height > 0,
        b.width > 0,
        b.height > 0,
    ensures
        overlap(a, b) <==> exists|y: int, x: int| #[trigger] covers(a, y, x) && covers(b, y, x),
{
    if overlap(a, b) {
        let y: int = if a.row > b.row { a.row as int } else { b.row as int };
        let x: int = if a.col > b.col { a.col as int } else { b.col as int };
        assert(covers(a, y, x) && covers(b, y, x));
    }
}

/// An image that lost its last cell stays on screen just as long as another that still waits for its
/// payload covers a place of it.
pub proof fn covered_images_linger(
    images: Seq<PlacedModel>,
    zombies: Seq<PlacedModel>,
    g: GridModel<ImgCell>,
    i: int,
)
    requires
        0 <= i < images.len(),
        left_of(images, g, i) is None,
        images[i].ready is Some,
    ensures
        ({
            let live = surviving(images, g, images.len() as int);
            pending_over(images[i], live) ==> new_zombies(images, zombies, g).contains(images[i])
        }),
        forall|j: int|
            0 <= j < new_zombies(images, zombies, g).len() ==> pending_over(
                #[trigger] new_zombies(images, zombies, g)[j],
                surviving(images, g, images.len() as int),
            ),
{
    let live = surviving(images, g, images.len() as int);
    let gone = overwritten(images, g, images.len() as int);
    overwritten_has(images, g, images.len() as int, i);
    let k = choose|k: int| 0 <= k < gone.len() && gone[k] == images[i];
    let all = zombies + gone;
    assert(all[zombies.len() + k] == images[i]);
    bridged_has(all, live, all.len() as int, zombies.len() + k);
}

proof fn overwritten_has(images: Seq<PlacedModel>, g: GridModel<ImgCell>, k: int, i: int)
    requires
        0 <= i < k <= images.len(),
        left_of(images, g, i) is None,
        images[i].ready is Some,
    ensures
        overwritten(images, g, k).contains(images[i]),
    decreases k,
{
    let all = overwritten(images, g, k);
    if i < k - 1 {
        overwritten_has(images, g, k - 1, i);
        let front = overwritten(images, g, k - 1);
        let j = choose|j: int| 0 <= j < front.len() && front[j] == images[i];
        assert(all[j] == images[i]);
    } else {
        assert(all.last() == images[i]);
    }
}

proof fn bridged_has(zombies: Seq<PlacedModel>, images: Seq<PlacedModel>, k: int, i: int)
    requires
        0 <= k <= zombies.len(),
    ensures
        0 <= i < k && pending_over(zombies[i], images) ==> bridged(zombies, images, k).contains(
            zombies[i],
        ),
        forall|j: int|
            0 <= j < bridged(zombies, images, k).len() ==> pending_over(
                #[trigger] bridged(zombies, images, k)[j],
                images,
            ),
    decreases k,
{
    if k > 0 {
        bridged_has(zombies, images, k - 1, i);
        let front = bridged(zombies, images, k - 1);
        let all = bridged(zombies, images, k);
        if 0 <= i < k - 1 && pending_over(zombies[i], images) {
            let j = choose|j: int| 0 <= j < front.len() && front[j] == zombies[i];
            assert(all[j] == zombies[i]);
        } else if i == k - 1 && pending_over(zombies[i], images) {
            assert(all.last() == zombies[i]);
        }
    }
}

proof fn emitted_joined(a: Seq<PlacedModel>, b: Seq<PlacedModel>, k: int)
    requires
        0 <= k <= a.len() + b.len(),
    ensures
        k <= a.len() ==> emitted(a + b, k) == emitted(a, k),
        k >= a.len() ==> emitted(a + b, k) == emitted(a, a.len() as int) + emitted(b, k - a.len()),
    decreases k,
{
    if k > 0 {
        emitted_joined(a, b, k - 1);
        if k > a.len() {
            assert((a + b)[k - 1] == b[k - 1 - a.len()]);
            assert(emitted(a + b, k) =~= emitted(a, a.len() as int) + emitted(b, k - a.len()));
        } else {
            assert((a + b)[k - 1] == a[k - 1]);
        }
    }
    if k == a.len() {
        assert(emitted(a, k) + emitted(b, 0) =~= emitted(a, k));
    }
}

/// What lingers comes before what is there, so that it is drawn under it.
pub proof fn lingering_images_are_drawn_under(zombies: Seq<PlacedModel>, images: Seq<PlacedModel>)
    ensures
        shown_images(zombies, images) == emitted(zombies, zombies.len() as int) + emitted(
            images,
            images.len() as int,
        ),
{
    emitted_joined(zombies, images, (zombies.len() + images.len()) as int);
}

proof fn stamped_from_below<T>(g: GridModel<T>, vals: Seq<Seq<T>>, width: int)
    requires
        g.wf(),
        g.allocated(),
        g.scroll_top == 0,
        g.scroll_bottom == g.size.rows - 1,
        vals.len() >= 1,
        width >= 1,
        g.left_edge() + width <= g.size.cols,
        forall|i: int| 0 <= i < vals.len() ==> (#[trigger] vals[i]).len() == width,
    ensures
        ({
            let t = g.stamped(vals);
            let bottom = g.size.rows - 1;
            let last: int = if g.pos.row + vals.len() - 1 <= bottom {
                g.pos.row + vals.len() - 1
            } else {
                bottom
            };
            &&& t.pos.row == last && t.pos.col == g.pos.col && t.size == g.size
            &&& t.scroll_top == 0 && t.scroll_bottom == g.scroll_bottom
            &&& t.rows.len() == g.size.rows
            &&& forall|y: int| 0 <= y < t.rows.len() ==> (#[trigger] t.rows[y]).cells.len()
                == g.size.cols
            &&& forall|y: int, x: int|
                last - vals.len() < y <= last && 0 <= y && g.left_edge() <= x < g.left_edge() + width
                    ==> (#[trigger] t.rows[y].cells[x]).data == Some(
                    vals[vals.len() - 1 - (last - y)][x - g.left_edge()],
                )
        }),
    decreases vals.len(),
{
    let left = g.left_edge();
    let bottom = g.size.rows - 1;
    let n = vals.len() as int;
    let t = g.stamped(vals);
    assert forall|y: int| 0 <= y < g.rows.len() implies (#[trigger] g.rows[y]).cells.len()
        == g.size.cols by {
        assert(g.rows[y].wf(g.size.cols as int));
    }
    if n == 1 {
        assert(vals.drop_last() =~= Seq::empty());
        assert(t == g.stamped_row(left, vals.last()));
    } else {
        let front = vals.drop_last();
        stamped_from_below(g, front, width);
        let above = g.stamped(front);
        let line = above.line_fed(1);
        let prior: int = above.pos.row as int;
        assert(t == line.stamped_row(left, vals.last()));
        if prior < bottom {
            assert(above.overrun(1) == 0);
            assert(line.rows =~= above.rows);
        } else {
            assert(above.overrun(1) == 1);
            assert(line.pos.row == bottom);
            assert(line.rows.len() == above.rows.len());
            assert forall|y: int| 0 <= y < bottom implies (#[trigger] line.rows[y]).cells
                == above.rows[y + 1].cells by {}
            assert(line.rows[bottom].cells.len() == g.size.cols);
        }
        let last: int = line.pos.row as int;
        assert forall|y: int, x: int|
            last - n < y <= last && 0 <= y && left <= x < left + width implies (
        #[trigger] t.rows[y].cells[x]).data == Some(vals[n - 1 - (last - y)][x - left]) by {
            if y < last {
                assert(t.rows[y] == line.rows[y]);
                if prior < bottom {
                    assert(above.rows[y].cells[x].data == Some(
                        front[front.len() - 1 - (prior - y)][x - left],
                    ));
                } else {
                    assert(line.rows[y].cells == above.rows[y + 1].cells);
                    assert(above.rows[y + 1].cells[x].data == Some(
                        front[front.len() - 1 - (prior - (y + 1))][x - left],
                    ));
                }
            }
        }
    }
}

/// An image without room below the cursor scrolls the screen as it is drawn: the cursor ends in the
/// last row, with the image's last row in it, and above it are the rows before, in order.
pub proof fn tall_images_scroll(
    s: ScreenModel<ImgCell>,
    id: u32,
    cell: (u16, u16),
    c: u16,
    r: u16,
    px: Option<(u32, u32)>,
    y: int,
    x: int,
)
    requires
        s.wf(),
        c >= 1,
        r >= 1,
        s.active().scroll_top == 0,
        s.active().scroll_bottom + 1 == s.active().size.rows,
        s.active().pos.row + r > s.active().size.rows,
        s.active().pos.col + c <= s.active().size.cols,
        0 <= y < s.active().size.rows,
        s.active().size.rows - y <= r,
        s.active().pos.col <= x < s.active().pos.col + c,
    ensures
        ({
            let size = footprint(cell, Some((c, r)), px);
            let t = stamped_screen(s, id, size.0, size.1);
            let bottom = s.active().size.rows - 1;
            &&& t.active().pos.row == bottom && t.active().pos.col == 0
            &&& t.active().rows[y].cells[x].data == Some(
                ImgCell {
                    id,
                    row_off: (r - 1 - (bottom - y)) as u16,
                    col_off: (x - s.active().pos.col) as u16,
                },
            )
        }),
{
    let g = s.active();
    let w = g.clipped(c as int);
    let vals = tags(id, w, r as int);
    assert forall|i: int| 0 <= i < vals.len() implies (#[trigger] vals[i]).len() == w by {}
    stamped_from_below(g, vals, w);
    let t = g.stamped(vals);
    assert(t.rows[y].cells[x] == t.rows[y].cells[x]);
}

/// An image lingers under one that has no payload yet and covers a place of it.
pub proof fn waiting_images_keep_what_they_cover(z: PlacedModel, images: Seq<PlacedModel>)
    requires
        z.width > 0,
        z.height > 0,
        forall|i: int|
            0 <= i < images.len() ==> (#[trigger] images[i]).width > 0 && images[i].height > 0,
    ensures
        pending_over(z, images) <==> exists|i: int, y: int, x: int|
            #![trigger covers(images[i], y, x)]
            0 <= i < images.len() && images[i].ready is None && covers(z, y, x) && covers(
                images[i],
                y,
                x,
            ),
{
    if pending_over(z, images) {
        let i = choose|i: int|
            #![trigger images[i]]
            0 <= i < images.len() && images[i].ready is None && overlap(z, images[i]);
        overlapping_images(z, images[i]);
        let (y, x) = choose|y: int, x: int| #[trigger]
            covers(z, y, x) && covers(images[i], y, x);
        assert(covers(images[i], y, x));
    }
    if exists|i: int, y: int, x: int|
        #![trigger covers(images[i], y, x)]
        0 <= i < images.len() && images[i].ready is None && covers(z, y, x) && covers(
            images[i],
            y,
            x,
        ) {
        let (i, y, x) = choose|i: int, y: int, x: int|
            #![trigger covers(images[i], y, x)]
            0 <= i < images.len() && images[i].ready is None && covers(z, y, x) && covers(
                images[i],
                y,
                x,
            );
        overlapping_images(z, images[i]);
        assert(images[i].ready is None);
    }
}

/// Whether an image of `c` columns and `r` rows covers just that many cells from the cursor on, each
/// tagged with its place in it, and the cursor ends in its last row, where there is room for it.
#[verifier::opaque]
pub open spec fn drawn_in_place(
    before: GridModel<ImgCell>,
    after: GridModel<ImgCell>,
    id: u32,
    c: u16,
    r: u16,
) -> bool {
    let (row, col) = (before.pos.row as int, before.pos.col as int);
    c >= 1 && r >= 1 && col + c <= before.size.cols && row + r <= before.size.rows && (
    before.scroll_bottom < row || row + r - 1 <= before.scroll_bottom) ==> {
        &&& after.pos.row == row + r - 1 && after.pos.col == 0
        &&& forall|y: int, x: int|
            0 <= y < before.size.rows && 0 <= x < before.size.cols ==> (
            #[trigger] after.rows[y].cells[x]).data == if row <= y < row + r && col <= x < col + c {
                Some(ImgCell { id, row_off: (y - row) as u16, col_off: (x - col) as u16 })
            } else {
                before.rows[y].cells[x].data
            }
    }
}

/// Where there is room for it an image is drawn in place, whatever its pixels are.
pub proof fn images_are_drawn_in_place(
    s: ScreenModel<ImgCell>,
    id: u32,
    cell: (u16, u16),
    c: u16,
    r: u16,
    px: Option<(u32, u32)>,
)
    requires
        s.wf(),
    ensures
        drawn_in_place(
            s.active(),
            stamped_screen(
                s,
                id,
                footprint(cell, Some((c, r)), px).0,
                footprint(cell, Some((c, r)), px).1,
            ).active(),
            id,
            c,
            r,
        ),
{
    reveal(drawn_in_place);
    let before = s.active();
    let size = footprint(cell, Some((c, r)), px);
    let after = stamped_screen(s, id, size.0, size.1).active();
    let (row, col) = (before.pos.row as int, before.pos.col as int);
    if c >= 1 && r >= 1 && col + c <= before.size.cols && row + r <= before.size.rows && (
    before.scroll_bottom < row || row + r - 1 <= before.scroll_bottom) {
        images_cover_their_cells(s, id, cell, c, r, px, 0, 0);
        assert forall|y: int, x: int|
            0 <= y < before.size.rows && 0 <= x < before.size.cols implies (
        #[trigger] after.rows[y].cells[x]).data == if row <= y < row + r && col <= x < col + c {
            Some(ImgCell { id, row_off: (y - row) as u16, col_off: (x - col) as u16 })
        } else {
            before.rows[y].cells[x].data
        } by {
            images_cover_their_cells(s, id, cell, c, r, px, y, x);
        }
    }
}

/// What is shown of images comes from one of them: its place, its size and its key.
pub proof fn shown_images_are_tracked(images: Seq<PlacedModel>, k: int, j: int) -> (m: int)
    requires
        0 <= k <= images.len(),
        0 <= j < emitted(images, k).len(),
    ensures
        0 <= m < k,
        images[m].ready is Some,
        ({
            let p = emitted(images, k)[j];
            &&& p.hash == images[m].ready->Some_0.0
            &&& p.row == images[m].row && p.col == images[m].col
            &&& p.cols == images[m].cols && p.rows == images[m].rows
        }),
    decreases k,
{
    let front = emitted(images, k - 1);
    if j < front.len() {
        shown_images_are_tracked(images, k - 1, j)
    } else {
        k - 1
    }
}

} // verus!
