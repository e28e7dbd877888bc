//! How a wire message changes a screen.
use vstd::prelude::*;

use crate::diff::block::{cell_at, cells_of, decode_block, BlockModel};
use crate::diff::decode::{block_models, patch_models, MsgModel, PatchModel, WireMsg};
use crate::model::{
    clone_row, glyphs, link_models, links_merged, Frame, Glyph, Grid, GridModel, LinkMap,
    StyledCell,
};

verus! {

/// A row with cells written from column `l` on. Nothing is written beyond column `cols`, and a
/// row that is too short is filled up with blanks.
pub open spec fn patched_row(row: Seq<Glyph>, l: int, cells: Seq<Glyph>, cols: int) -> Seq<Glyph> {
    let end = if l + cells.len() < cols {
        l + cells.len()
    } else {
        cols
    };
    if l >= end {
        row
    } else {
        Seq::new(
            (if row.len() < end {
                end
            } else {
                row.len() as int
            }) as nat,
            |i: int|
                if l <= i < end {
                    cells[i - l]
                } else {
                    cell_at(row, i)
                },
        )
    }
}

/// The rows after one change. A row that is not there stays so.
pub open spec fn patched(rows: Seq<Seq<Glyph>>, p: PatchModel, cols: int) -> Seq<Seq<Glyph>> {
    if p.r < rows.len() {
        rows.update(
            p.r as int,
            patched_row(rows[p.r as int], p.l as int, cells_of(p.block), cols),
        )
    } else {
        rows
    }
}

/// The rows after several changes, one after the other.
pub open spec fn all_patched(rows: Seq<Seq<Glyph>>, patches: Seq<PatchModel>, cols: int) -> Seq<
    Seq<Glyph>,
>
    decreases patches.len(),
{
    if patches.len() == 0 {
        rows
    } else {
        patched(all_patched(rows, patches.drop_last(), cols), patches.last(), cols)
    }
}

/// What is kept where nothing new was told.
pub open spec fn or_kept<A>(new: Option<A>, kept: A) -> A {
    match new {
        Some(x) => x,
        None => kept,
    }
}

/// The cells that runs stand for.
pub open spec fn rows_of(blocks: Seq<BlockModel>) -> Seq<Seq<Glyph>> {
    Seq::new(blocks.len(), |i: int| cells_of(blocks[i]))
}

/// The screen after a message. A whole screen replaces the one before; a change keeps what it
/// does not tell, and adds to the links.
pub open spec fn applied(g: GridModel, msg: MsgModel) -> GridModel {
    match msg {
        MsgModel::Full { w, cur, sty, defaults, title, links, rows, images } => GridModel {
            source_epoch: 0,
            cols: w,
            rows: rows_of(rows),
            cursor: cur,
            cursor_style: sty,
            default_colors: defaults,
            title,
            links: links_merged(Seq::empty(), links),
            images,
            image_data: Seq::empty(),
        },
        MsgModel::Patch { new_cur, new_sty, new_title, links, patches } => GridModel {
            rows: all_patched(g.rows, patches, g.cols as int),
            cursor: or_kept(new_cur, g.cursor),
            cursor_style: or_kept(new_sty, g.cursor_style),
            title: or_kept(new_title, g.title),
            links: links_merged(g.links, links),
            ..g
        },
    }
}

/// Writes cells into a row.
fn patch_row(row: &mut Vec<StyledCell>, l: usize, cells: Vec<StyledCell>, cols: usize)
    ensures
        glyphs(final(row)@) == patched_row(
            glyphs(old(row)@),
            l as int,
            glyphs(cells@),
            cols as int,
        ),
{
    if l >= cols || cells.len() == 0 {
        return;
    }
    let room: usize = cols - l;
    let n: usize = if cells.len() < room {
        cells.len()
    } else {
        room
    };
    let ghost o = row@;
    while row.len() < l
        invariant
            o.len() <= row@.len(),
            row@.len() <= l || row@.len() == o.len(),
            forall|j: int| 0 <= j < o.len() ==> (#[trigger] row@[j])@ == o[j]@,
            forall|j: int|
                o.len() <= j < row@.len() ==> (#[trigger] row@[j])@ == Glyph::blank(),
        decreases l - row@.len(),
    {
        row.push(StyledCell::blank());
    }
    let ghost padded = row@;
    for k in 0..n
        invariant
            n <= cells@.len(),
            l + n <= cols,
            l <= padded.len(),
            row@.len() == if padded.len() < l + k {
                l + k
            } else {
                padded.len() as int
            },
            forall|j: int|
                0 <= j < row@.len() ==> (#[trigger] row@[j])@ == if l <= j < l + k {
                    cells@[j - l]@
                } else {
                    padded[j]@
                },
    {
        if l + k < row.len() {
            row[l + k] = cells[k].clone();
        } else {
            row.push(cells[k].clone());
        }
    }
    proof {
        assert(glyphs(row@) =~= patched_row(
            glyphs(o),
            l as int,
            glyphs(cells@),
            cols as int,
        ));
    }
}

/// Applies a message to a screen.
pub fn apply_wire(prev: &Frame, msg: WireMsg) -> (r: Frame)
    ensures
        r@ == applied(prev@, msg@),
{
    match msg {
        WireMsg::Full { w, cur, sty, defaults, title, links, rows, images } => {
            let mut cells: Vec<Vec<StyledCell>> = Vec::new();
            for i in 0..rows.len()
                invariant
                    cells@.len() == i,
                    forall|j: int|
                        0 <= j < i ==> glyphs((#[trigger] cells@[j])@) == cells_of(rows@[j]@),
            {
                cells.push(decode_block(&rows[i]));
            }
            let table = merge_links(LinkMap::new(), &links);
            let grid = Grid {
                source_epoch: 0,
                cols: w,
                rows: cells,
                cursor: cur,
                cursor_style: sty,
                default_colors: defaults,
                title,
                links: table,
                images,
                image_data: Vec::new(),
            };
            proof {
                assert(grid@.rows =~= rows_of(block_models(rows@)));
                assert(grid@.image_data =~= Seq::empty());
            }
            Frame::Screen(grid)
        },
        WireMsg::Patch { new_cur, new_sty, new_title, links, patches } => {
            let mut grid = prev.grid().clone();
            let cols: usize = grid.cols as usize;
            let ghost rows0 = grid@.rows;
            let ghost ps = patch_models(patches@);
            proof {
                assert(ps.take(0) =~= Seq::empty());
            }
            for k in 0..patches.len()
                invariant
                    ps == patch_models(patches@),
                    cols == grid.cols,
                    grid@ == (GridModel {
                        rows: all_patched(rows0, ps.take(k as int), cols as int),
                        ..prev@
                    }),
            {
                let p = &patches[k];
                proof {
                    assert(ps.take(k + 1).drop_last() =~= ps.take(k as int));
                    assert(ps.take(k + 1).last() == p@);
                }
                let ghost before = grid@;
                if p.r < grid.rows.len() {
                    let cells = decode_block(&p.block);
                    let mut row = clone_row(&grid.rows[p.r]);
                    patch_row(&mut row, p.l, cells, cols);
                    let ghost new_row = glyphs(row@);
                    grid.rows[p.r] = row;
                    proof {
                        assert(grid@.rows =~= before.rows.update(p.r as int, new_row));
                    }
                }
            }
            proof {
                assert(ps.take(ps.len() as int) =~= ps);
            }
            if let Some(c) = new_cur {
                grid.cursor = c;
            }
            if let Some(s) = new_sty {
                grid.cursor_style = s;
            }
            if let Some(t) = new_title {
                grid.title = t;
            }
            grid.links = merge_links(grid.links.clone(), &links);
            Frame::Screen(grid)
        },
    }
}

/// Puts entries into a link table.
fn merge_links(table: LinkMap, links: &Vec<(u32, String)>) -> (r: LinkMap)
    ensures
        r@ == links_merged(table@, link_models(links@)),
{
    let mut r = table;
    let ghost all = link_models(links@);
    proof {
        assert(all.take(0) =~= Seq::empty());
    }
    for i in 0..links.len()
        invariant
            all == link_models(links@),
            r@ == links_merged(table@, all.take(i as int)),
    {
        proof {
            assert(all.take(i + 1).drop_last() =~= all.take(i as int));
            assert(all.take(i + 1).last() == (links@[i as int].0, links@[i as int].1@));
        }
        r.insert(links[i].0, links[i].1.clone());
    }
    proof {
        assert(all.take(all.len() as int) =~= all);
    }
    r
}

/// A change to a row replaces its cells from a column on, one by one, as far as the screen is wide.
/// All others stay, and where the row was shorter there are spaces up to it.
pub proof fn changes_replace_cells(row: Seq<Glyph>, l: int, cells: Seq<Glyph>, cols: int, i: int)
    requires
        0 <= l,
        l < cols,
        row.len() <= cols,
        0 <= i < cols,
        cells.len() > 0,
    ensures
        ({
            let after = patched_row(row, l, cells, cols);
            &&& after.len() <= cols && after.len() >= row.len()
            &&& l <= i < l + cells.len() ==> i < after.len() && after[i] == cells[i - l]
            &&& (i < l || l + cells.len() <= i) && i < row.len() ==> after[i] == row[i]
            &&& row.len() <= i < l ==> after[i].text == seq![' ']
        }),
{
}

} // verus!
