//! Which rows are in view.
use vstd::prelude::*;

use crate::vt::grid::GridModel;
use crate::vt::meaning::one;
use crate::vt::screen::ScreenModel;

verus! {

/// A view that goes back by `n` rows begins with the `n` rows that left the screen last, the oldest
/// of them first, and the screen from its top follows. It goes back no further than there are rows.
pub proof fn views_go_back<T>(g: GridModel<T>, n: int, i: int)
    requires
        g.wf(),
        0 <= n,
        0 <= i < g.rows.len(),
    ensures
        ({
            let v = g.viewing(n);
            let kept = g.scrollback.len() as int;
            &&& v == (GridModel { scrollback_offset: v.scrollback_offset, ..g })
            &&& v.visible().len() == g.rows.len()
            &&& n <= kept && i < n ==> v.visible()[i] == g.scrollback[kept - n + i]
            &&& n <= kept && i >= n ==> v.visible()[i] == g.rows[i - n]
            &&& n > kept ==> v == g.viewing(kept)
        }),
{
}

/// Where nothing is viewed back the screen itself is in view.
pub proof fn the_screen_is_in_view<T>(g: GridModel<T>)
    requires
        g.wf(),
    ensures
        g.viewing(0).visible() == g.rows,
        g.scrollback_offset == 0 ==> g.visible() == g.rows,
{
    assert(g.viewing(0).visible() =~= g.rows);
    if g.scrollback_offset == 0 {
        assert(g.visible() =~= g.rows);
    }
}

/// A view that goes back stays on the rows that it shows while the screen scrolls, as long as they
/// are kept.
pub proof fn views_stay<T>(s: ScreenModel<T>, n: u16, i: int)
    requires
        s.wf(),
        s.active().allocated(),
        s.active().scroll_top == 0,
        s.active().scroll_bottom + 1 == s.active().size.rows,
        1 <= n <= s.active().size.rows,
        s.active().scrollback_offset > 0,
        s.active().scrollback.len() + n <= s.active().scrollback_len,
        0 <= i < s.active().rows.len(),
    ensures
        s.after_csi(one(n), 'S').active().visible()[i].cells == s.active().visible()[i].cells,
{
    assert(one(n)[0] == seq![n]);
    let g = s.active();
    let t = s.after_csi(one(n), 'S').active();
    assert(t == g.scrolled_up(n as int));
    let all = g.scrollback + g.rows.take(n as int);
    assert(t.scrollback =~= all);
}

} // verus!
