//! A viewer that follows the stream shows what was published.
use vstd::prelude::*;

use crate::diff::apply::applied;
use crate::diff::decode::read_message;
use crate::diff::encode::{delta_json, diffable, new_links, sizes_are_numbers};
use crate::diff::round_trip::{
    as_received, change_round_trip, fits, full_round_trip, links_agree, new_links_found,
    shows, writable,
};
use crate::model::{link_at, link_at_merged, rising, same_placements, GridModel, PlacementModel};

verus! {

/// Whether a screen can be published: its rows fit, its cells can be written, and its links are in
/// order.
pub open spec fn publishable(g: GridModel) -> bool {
    &&& fits(g)
    &&& g.rows.len() <= usize::MAX
    &&& writable(g.rows)
    &&& rising(g.links)
    &&& sizes_are_numbers(g.images)
}

/// Whether each screen of a stream can be published and differs from the one before it for viewers,
/// and no link id stands for two addresses while the source stays the same.
pub open spec fn is_stream(fs: Seq<GridModel>) -> bool {
    &&& forall|i: int| 0 <= i < fs.len() ==> publishable(#[trigger] fs[i])
    &&& forall|i: int|
        0 <= i < fs.len() - 1 ==> delta_json(#[trigger] fs[i], fs[i + 1]) is Some
    &&& forall|i: int, j: int|
        #![trigger fs[i], fs[j]]
        0 <= i < j < fs.len() && fs[i].source_epoch == fs[j].source_epoch ==> links_agree(
            fs[i].links,
            fs[j].links,
        )
}

/// What a viewer shows that came when screen `k` was the newest and applied every message up to
/// screen `n`.
pub open spec fn followed(fs: Seq<GridModel>, k: int, n: int) -> GridModel
    decreases n - k,
{
    if n <= k {
        as_received(fs[k])
    } else {
        applied(
            followed(fs, k, n - 1),
            read_message(delta_json(fs[n - 1], fs[n])->Some_0)->Some_0,
        )
    }
}

/// Every link that a viewer knows is one of a screen that the same source published.
spec fn told(x: GridModel, fs: Seq<GridModel>, n: int) -> bool {
    forall|id: u32|
        #![trigger link_at(x.links, id)]
        link_at(x.links, id) is Some ==> told_by(x, fs, n, id)
}

spec fn told_by(x: GridModel, fs: Seq<GridModel>, n: int, id: u32) -> bool {
    exists|m: int|
        #![trigger fs[m]]
        0 <= m <= n && fs[m].source_epoch == fs[n].source_epoch && link_at(fs[m].links, id)
            == link_at(x.links, id)
}

proof fn placements_carry_over(
    a: Seq<PlacementModel>,
    b: Seq<PlacementModel>,
    c: Seq<PlacementModel>,
)
    requires
        same_placements(a, b),
        same_placements(b, c),
    ensures
        same_placements(a, c),
{
    assert forall|i: int|
        #![trigger a[i], c[i]]
        0 <= i < a.len() implies a[i].same(c[i]) by {
        assert(a[i].same(b[i]));
        assert(b[i].same(c[i]));
    }
}

proof fn known_links_agree(x: GridModel, fs: Seq<GridModel>, n: int)
    requires
        is_stream(fs),
        0 < n < fs.len(),
        told(x, fs, n - 1),
        fs[n - 1].source_epoch == fs[n].source_epoch,
    ensures
        links_agree(x.links, fs[n].links),
{
    assert forall|id: u32|
        #![trigger link_at(x.links, id)]
        link_at(x.links, id) is Some && link_at(fs[n].links, id) is Some implies link_at(
        x.links,
        id,
    ) == link_at(fs[n].links, id) by {
        assert(told_by(x, fs, n - 1, id));
        let m = choose|m: int|
            #![trigger fs[m]]
            0 <= m <= n - 1 && fs[m].source_epoch == fs[n - 1].source_epoch && link_at(
                fs[m].links,
                id,
            ) == link_at(x.links, id);
        assert(links_agree(fs[m].links, fs[n].links));
    }
}

proof fn links_stay_told(x: GridModel, y: GridModel, fs: Seq<GridModel>, n: int)
    requires
        0 < n < fs.len(),
        told(x, fs, n - 1),
        fs[n - 1].source_epoch == fs[n].source_epoch,
        rising(x.links),
        y.links == crate::model::links_merged(x.links, new_links(fs[n - 1].links, fs[n].links)),
    ensures
        told(y, fs, n),
{
    let more = new_links(fs[n - 1].links, fs[n].links);
    assert forall|id: u32|
        #![trigger link_at(y.links, id)]
        link_at(y.links, id) is Some implies told_by(y, fs, n, id) by {
        link_at_merged(x.links, more, id);
        new_links_found(fs[n - 1].links, fs[n].links, id);
        if link_at(more, id) is Some {
            assert(link_at(fs[n].links, id) == link_at(y.links, id));
            assert(fs[n].source_epoch == fs[n].source_epoch);
        } else {
            assert(link_at(x.links, id) is Some);
            assert(told_by(x, fs, n - 1, id));
            let m = choose|m: int|
                #![trigger fs[m]]
                0 <= m <= n - 1 && fs[m].source_epoch == fs[n - 1].source_epoch && link_at(
                    fs[m].links,
                    id,
                ) == link_at(x.links, id);
            assert(fs[m].source_epoch == fs[n].source_epoch);
        }
    }
}

proof fn stream_step(fs: Seq<GridModel>, k: int, n: int)
    requires
        is_stream(fs),
        0 <= k <= n < fs.len(),
    ensures
        shows(followed(fs, k, n), fs[n]),
        told(followed(fs, k, n), fs, n),
    decreases n - k,
{
    let b = fs[n];
    let x = followed(fs, k, n);
    assert(publishable(b));
    assert forall|r: int| #![trigger b.rows[r]] 0 <= r < b.rows.len() implies b.rows[r].len()
        <= usize::MAX by {}
    if n == k {
        full_round_trip(b, b);
        assert forall|id: u32|
            #![trigger link_at(x.links, id)]
            link_at(x.links, id) is Some implies told_by(x, fs, n, id) by {
            assert(fs[n].links == x.links);
        }
    } else {
        stream_step(fs, k, n - 1);
        let a = fs[n - 1];
        let before = followed(fs, k, n - 1);
        assert(publishable(a));
        assert(delta_json(fs[n - 1], fs[n - 1 + 1]) is Some);
        if diffable(a, b) {
            known_links_agree(before, fs, n);
            if before.images == a.images {
                assert(same_placements(before.images, b.images));
            } else {
                placements_carry_over(before.images, a.images, b.images);
            }
            change_round_trip(before, a, b);
            links_stay_told(before, x, fs, n);
        } else {
            full_round_trip(b, before);
            assert(x == as_received(b));
            assert forall|id: u32|
                #![trigger link_at(x.links, id)]
                link_at(x.links, id) is Some implies told_by(x, fs, n, id) by {
                assert(fs[n].links == x.links);
            }
        }
    }
}

/// A viewer that came at any time and applied every message since shows the newest screen.
pub proof fn viewers_keep_up(fs: Seq<GridModel>, k: int, n: int)
    requires
        is_stream(fs),
        0 <= k <= n < fs.len(),
    ensures
        shows(followed(fs, k, n), fs[n]),
{
    stream_step(fs, k, n);
}

} // verus!
