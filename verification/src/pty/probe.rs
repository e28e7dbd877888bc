//! What the outer terminal can do, read out of its replies, and what follows from it.
use vstd::prelude::*;
use vstd::string::StringExecFns;

verus! {

/// The size in pixels that a cell is taken to have where the terminal reports none.
pub const FALLBACK_CELL_WIDTH: u16 = 8;

pub const FALLBACK_CELL_HEIGHT: u16 = 16;

/// The escape character.
pub const ESC: u8 = 0x1b;

// Searching.

/// Whether `needle` stands in `hay` at `i`.
pub open spec fn occurs_at(hay: Seq<u8>, needle: Seq<u8>, i: int) -> bool {
    0 <= i && i + needle.len() <= hay.len() && hay.subrange(i, i + needle.len()) =~= needle
}

/// Where `needle` stands first in `hay`, from `i` on and wholly before `end`.
pub open spec fn first_from(hay: Seq<u8>, needle: Seq<u8>, i: int, end: int) -> Option<int>
    decreases end - i,
{
    if i + needle.len() > end || needle.len() == 0 {
        None
    } else if occurs_at(hay, needle, i) {
        Some(i)
    } else {
        first_from(hay, needle, i + 1, end)
    }
}

/// What `first_from` finds is an occurrence, and the first one.
pub proof fn first_is_first(hay: Seq<u8>, needle: Seq<u8>, i: int, end: int)
    requires
        0 <= i,
        end <= hay.len(),
        needle.len() > 0,
    ensures
        match first_from(hay, needle, i, end) {
            Some(p) => i <= p && p + needle.len() <= end && occurs_at(hay, needle, p) && forall|k: int|
                i <= k < p ==> !occurs_at(hay, needle, k),
            None => forall|k: int| i <= k && k + needle.len() <= end ==> !occurs_at(hay, needle, k),
        },
    decreases end - i,
{
    if i + needle.len() <= end && !occurs_at(hay, needle, i) {
        first_is_first(hay, needle, i + 1, end);
    }
}

/// Finds a byte string in a part of another.
pub fn find(hay: &[u8], needle: &[u8], from: usize, end: usize) -> (r: Option<usize>)
    requires
        needle@.len() > 0,
        from <= end <= hay@.len(),
    ensures
        r is Some <==> first_from(hay@, needle@, from as int, end as int) is Some,
        r is Some ==> first_from(hay@, needle@, from as int, end as int) == Some(
            r->Some_0 as int,
        ),
        r is Some ==> from <= r->Some_0 && r->Some_0 + needle@.len() <= end,
{
    let n: usize = needle.len();
    let mut i: usize = from;
    while i <= end && n <= end - i
        invariant
            n == needle@.len(),
            n > 0,
            from <= i,
            i <= end + 1,
            end <= hay@.len(),
            first_from(hay@, needle@, from as int, end as int) == first_from(
                hay@,
                needle@,
                i as int,
                end as int,
            ),
        decreases end + 1 - i,
    {
        let mut k: usize = 0;
        while k < n && hay[i + k] == needle[k]
            invariant
                n == needle@.len(),
                k <= n,
                i + n <= end,
                end <= hay@.len(),
                forall|j: int| 0 <= j < k ==> hay@[i + j] == needle@[j],
            decreases n - k,
        {
            k = k + 1;
        }
        if k == n {
            proof {
                assert(hay@.subrange(i as int, i + n) =~= needle@);
            }
            return Some(i);
        }
        proof {
            assert(!occurs_at(hay@, needle@, i as int)) by {
                if occurs_at(hay@, needle@, i as int) {
                    assert(hay@.subrange(i as int, i + n)[k as int] == needle@[k as int]);
                }
            }
        }
        i = i + 1;
    }
    None
}

// Replies.

/// How the reply to Primary DA starts: `ESC [ ?`.
pub open spec fn da_start() -> Seq<u8> {
    seq![ESC, 0x5b, 0x3f]
}

/// Whether a reply to Primary DA (`ESC [ ? .. c`) has come in whole. It is asked for last, so
/// that the other replies have come before it.
pub open spec fn da_complete(buf: Seq<u8>) -> bool {
    match first_from(buf, da_start(), 0, buf.len() as int) {
        Some(p) => first_from(buf, seq![0x63u8], p + 3, buf.len() as int) is Some,
        None => false,
    }
}

/// Whether one of the fields that `;` separates is just `4`.
pub open spec fn lists_four(fields: Seq<u8>) -> bool {
    exists|i: int|
        #![trigger fields[i]]
        0 <= i < fields.len() && fields[i] == 0x34 && (i == 0 || fields[i - 1] == 0x3b) && (i + 1
            == fields.len() || fields[i + 1] == 0x3b)
}

/// Whether the reply to Primary DA lists sixel, which is feature 4.
pub open spec fn da_lists_sixel(buf: Seq<u8>) -> bool {
    match first_from(buf, da_start(), 0, buf.len() as int) {
        Some(p) => {
            let end = match first_from(buf, seq![0x63u8], p + 3, buf.len() as int) {
                Some(e) => e,
                None => buf.len() as int,
            };
            lists_four(buf.subrange(p + 3, end))
        },
        None => false,
    }
}

/// How a kitty graphics reply starts: `ESC _ G`.
pub open spec fn kitty_start() -> Seq<u8> {
    seq![ESC, 0x5f, 0x47]
}

/// Whether one of the kitty graphics replies (`ESC _ G .. ESC \`) from `i` on says `;OK`.
pub open spec fn kitty_confirms(buf: Seq<u8>, i: int) -> bool
    decreases buf.len() - i,
{
    match first_from(buf, kitty_start(), i, buf.len() as int) {
        Some(p) => {
            let end = match first_from(buf, seq![ESC, 0x5cu8], p + 3, buf.len() as int) {
                Some(e) => e,
                None => buf.len() as int,
            };
            if i < 0 || p < i || end <= i || end > buf.len() {
                false
            } else {
                first_from(buf, seq![0x3bu8, 0x4f, 0x4b], p + 3, end) is Some || kitty_confirms(
                    buf,
                    end,
                )
            }
        },
        None => false,
    }
}

/// Whether a Primary DA reply has come in.
pub fn da_seen(buf: &[u8]) -> (r: bool)
    ensures
        r == da_complete(buf@),
{
    let start: [u8; 3] = [ESC, 0x5b, 0x3f];
    let last: [u8; 1] = [0x63];
    proof {
        assert(start@ =~= da_start());
        assert(last@ =~= seq![0x63u8]);
    }
    match find(buf, &start, 0, buf.len()) {
        Some(p) => find(buf, &last, p + 3, buf.len()).is_some(),
        None => false,
    }
}

fn has_four(buf: &[u8], from: usize, end: usize) -> (r: bool)
    requires
        from <= end <= buf@.len(),
    ensures
        r == lists_four(buf@.subrange(from as int, end as int)),
{
    let ghost fields = buf@.subrange(from as int, end as int);
    let mut i: usize = from;
    while i < end
        invariant
            from <= i <= end,
            end <= buf@.len(),
            fields == buf@.subrange(from as int, end as int),
            forall|k: int|
                #![trigger fields[k]]
                0 <= k < i - from ==> !(fields[k] == 0x34 && (k == 0 || fields[k - 1] == 0x3b) && (k
                    + 1 == fields.len() || fields[k + 1] == 0x3b)),
        decreases end - i,
    {
        if buf[i] == 0x34 && (i == from || buf[i - 1] == 0x3b) && (i + 1 == end || buf[i + 1]
            == 0x3b) {
            proof {
                assert(fields[i - from] == 0x34);
            }
            return true;
        }
        i = i + 1;
    }
    false
}

/// Whether the Primary DA reply lists sixel.
pub fn da_sixel(buf: &[u8]) -> (r: bool)
    ensures
        r == da_lists_sixel(buf@),
{
    let start: [u8; 3] = [ESC, 0x5b, 0x3f];
    let last: [u8; 1] = [0x63];
    proof {
        assert(start@ =~= da_start());
        assert(last@ =~= seq![0x63u8]);
    }
    match find(buf, &start, 0, buf.len()) {
        Some(p) => {
            let end: usize = match find(buf, &last, p + 3, buf.len()) {
                Some(e) => e,
                None => buf.len(),
            };
            has_four(buf, p + 3, end)
        },
        None => false,
    }
}

/// Whether a kitty graphics reply confirms support.
pub fn kitty_ok(buf: &[u8]) -> (r: bool)
    ensures
        r == kitty_confirms(buf@, 0),
{
    let start: [u8; 3] = [ESC, 0x5f, 0x47];
    let close: [u8; 2] = [ESC, 0x5c];
    let yes: [u8; 3] = [0x3b, 0x4f, 0x4b];
    proof {
        assert(start@ =~= kitty_start());
        assert(close@ =~= seq![ESC, 0x5cu8]);
        assert(yes@ =~= seq![0x3bu8, 0x4f, 0x4b]);
    }
    let mut i: usize = 0;
    loop
        invariant
            start@ == kitty_start(),
            close@ == seq![ESC, 0x5cu8],
            yes@ == seq![0x3bu8, 0x4f, 0x4b],
            i <= buf@.len(),
            kitty_confirms(buf@, 0) == kitty_confirms(buf@, i as int),
        decreases buf@.len() - i,
    {
        let p: usize = match find(buf, &start, i, buf.len()) {
            Some(p) => p,
            None => {
                return false;
            },
        };
        let end: usize = match find(buf, &close, p + 3, buf.len()) {
            Some(e) => e,
            None => buf.len(),
        };
        if find(buf, &yes, p + 3, end).is_some() {
            return true;
        }
        i = end;
    }
}

/// What the outer terminal can do, and the default colours of its scheme.
#[derive(Clone, Copy, Debug)]
pub struct Caps {
    pub kitty: bool,
    pub sixel: bool,
    pub default_fg: Option<(u8, u8, u8)>,
    pub default_bg: Option<(u8, u8, u8)>,
}

impl Caps {
    /// A terminal that can do nothing special and told no colours.
    pub fn unknown() -> (r: Caps)
        ensures
            r == (Caps { kitty: false, sixel: false, default_fg: None, default_bg: None }),
    {
        Caps { kitty: false, sixel: false, default_fg: None, default_bg: None }
    }
}

/// Reads the replies to the handshake. The default colours are those that a screen has after
/// the same bytes.
pub fn parse_caps(
    buf: &[u8],
    default_fg: Option<(u8, u8, u8)>,
    default_bg: Option<(u8, u8, u8)>,
) -> (r: Caps)
    ensures
        r == (Caps {
            kitty: kitty_confirms(buf@, 0),
            sixel: da_lists_sixel(buf@),
            default_fg,
            default_bg,
        }),
{
    Caps { kitty: kitty_ok(buf), sixel: da_sixel(buf), default_fg, default_bg }
}

// What follows.

/// A protocol that sixel can be turned into.
#[derive(Clone, Copy, Debug, PartialEq, Eq, Structural)]
pub enum GfxProto {
    Kitty,
    Iterm,
}

/// What sixel is turned into: nothing unless that is asked for and the terminal draws no sixel
/// itself, else the first of kitty and iTerm2 graphics that it draws.
pub fn transcode_target(sixel_compat: bool, caps: Caps, iterm: bool) -> (r: Option<GfxProto>)
    ensures
        r == if !sixel_compat || caps.sixel {
            None
        } else if caps.kitty {
            Some(GfxProto::Kitty)
        } else if iterm {
            Some(GfxProto::Iterm)
        } else {
            None
        },
{
    if !sixel_compat || caps.sixel {
        None
    } else if caps.kitty {
        Some(GfxProto::Kitty)
    } else if iterm {
        Some(GfxProto::Iterm)
    } else {
        None
    }
}

/// Which protocols are intercepted: kitty, iTerm2 and sixel. Sixel is where the terminal draws
/// it or it is turned into something else.
pub fn intercepted(caps: Caps, iterm: bool, transcode: Option<GfxProto>) -> (r: (bool, bool, bool))
    ensures
        r == (caps.kitty, iterm, caps.sixel || transcode is Some),
{
    (caps.kitty, iterm, caps.sixel || transcode.is_some())
}

/// The terminals that draw iTerm2 images, by the name they give in `TERM_PROGRAM`.
pub open spec fn is_iterm_program(name: Seq<char>) -> bool {
    name == "iTerm.app"@ || name == "WezTerm"@ || name == "vscode"@ || name == "mintty"@ || name
        == "Hyper"@ || name == "rio"@
}

fn same_text(a: &String, b: &str) -> (r: bool)
    ensures
        r == (a@ == b@),
{
    let mut t: String = String::new();
    t.append(b);
    proof {
        assert(t@ =~= b@);
    }
    *a == t
}

/// Whether the terminal draws iTerm2 images, told by its name: the protocol has no query.
pub fn iterm_supported(term_program: &Option<String>) -> (r: bool)
    ensures
        r == (term_program is Some && is_iterm_program((term_program->Some_0)@)),
{
    match term_program {
        Some(name) => same_text(name, "iTerm.app") || same_text(name, "WezTerm") || same_text(
            name,
            "vscode",
        ) || same_text(name, "mintty") || same_text(name, "Hyper") || same_text(name, "rio"),
        None => false,
    }
}

/// The terminal's size in cells and pixels.
#[derive(Clone, Copy, Debug, PartialEq, Eq, Structural)]
pub struct TermGeom {
    pub cols: u16,
    pub rows: u16,
    pub px_w: u16,
    pub px_h: u16,
}

/// A product that stops at the largest number.
pub open spec fn capped_product(a: u16, b: u16) -> u16 {
    if a * b > u16::MAX {
        u16::MAX
    } else {
        (a * b) as u16
    }
}

fn capped_mul(a: u16, b: u16) -> (r: u16)
    ensures
        r == capped_product(a, b),
{
    let p: u32 = mul_wide(a, b);
    if p > u16::MAX as u32 {
        u16::MAX
    } else {
        p as u16
    }
}

fn mul_wide(a: u16, b: u16) -> (r: u32)
    ensures
        r == a * b,
{
    assert(0 <= a * b <= 0xffff * 0xffff) by (nonlinear_arith)
        requires
            0 <= a <= 0xffff,
            0 <= b <= 0xffff,
    ;
    (a as u32) * (b as u32)
}

/// The pixels that are reported, or those of cells of an assumed size where none are.
pub open spec fn pixels(reported: u16, cells: u16, cell: u16) -> u16 {
    if reported > 0 {
        reported
    } else {
        capped_product(cells, cell)
    }
}

/// The size of the terminal from what the system reports of it, `None` without columns.
pub fn term_geom(cols: u16, rows: u16, xpixel: u16, ypixel: u16) -> (r: Option<TermGeom>)
    ensures
        cols == 0 <==> r is None,
        r is Some ==> r->Some_0 == (TermGeom {
            cols,
            rows,
            px_w: pixels(xpixel, cols, FALLBACK_CELL_WIDTH),
            px_h: pixels(ypixel, rows, FALLBACK_CELL_HEIGHT),
        }),
{
    if cols == 0 {
        return None;
    }
    let px_w: u16 = if xpixel > 0 {
        xpixel
    } else {
        capped_mul(cols, FALLBACK_CELL_WIDTH)
    };
    let px_h: u16 = if ypixel > 0 {
        ypixel
    } else {
        capped_mul(rows, FALLBACK_CELL_HEIGHT)
    };
    Some(TermGeom { cols, rows, px_w, px_h })
}

/// The size that a session has without a terminal: 80 columns and 24 rows.
pub fn default_geom() -> (r: TermGeom)
    ensures
        r == (TermGeom { cols: 80, rows: 24, px_w: 640, px_h: 384 }),
{
    TermGeom { cols: 80, rows: 24, px_w: 640, px_h: 384 }
}

/// The number, and one at least.
pub open spec fn at_least_one(n: int) -> int {
    if n < 1 {
        1
    } else {
        n
    }
}

/// The size of one cell in pixels, at least 1 by 1.
pub fn cell_size(geom: TermGeom) -> (r: (u16, u16))
    ensures
        r.0 == at_least_one(geom.px_w as int / at_least_one(geom.cols as int)),
        r.1 == at_least_one(geom.px_h as int / at_least_one(geom.rows as int)),
        0 < geom.cols <= geom.px_w ==> r.0 * geom.cols <= geom.px_w < (r.0 + 1) * geom.cols,
        0 < geom.rows <= geom.px_h ==> r.1 * geom.rows <= geom.px_h < (r.1 + 1) * geom.rows,
{
    proof {
        if 0 < geom.cols <= geom.px_w {
            share_is_exact(geom.px_w as int, geom.cols as int);
        }
        if 0 < geom.rows <= geom.px_h {
            share_is_exact(geom.px_h as int, geom.rows as int);
        }
    }
    (cell_share(geom.px_w, geom.cols), cell_share(geom.px_h, geom.rows))
}

proof fn share_is_exact(px: int, cells: int)
    requires
        0 < cells <= px,
    ensures
        px / cells >= 1,
        px / cells * cells <= px < (px / cells + 1) * cells,
{
    assert(px / cells >= 1 && px / cells * cells <= px < (px / cells + 1) * cells) by (
        nonlinear_arith)
        requires
            0 < cells <= px,
    ;
}

fn cell_share(px: u16, cells: u16) -> (r: u16)
    ensures
        r == at_least_one(px as int / at_least_one(cells as int)),
{
    let n: u16 = if cells < 1 {
        1
    } else {
        cells
    };
    let share: u16 = px / n;
    if share < 1 {
        1
    } else {
        share
    }
}

// What replies say.

/// Fields are told apart by `;`, and each is looked at on its own: feature 4 is listed where one of
/// them is `4` and nothing more.
pub proof fn fields_are_looked_at_one_by_one(a: Seq<u8>, b: Seq<u8>)
    ensures
        lists_four(a + seq![0x3bu8] + b) <==> lists_four(a) || lists_four(b),
        (forall|i: int| 0 <= i < a.len() ==> #[trigger] a[i] != 0x3b) ==> (lists_four(a) <==> a
            == seq![0x34u8]),
{
    let all = a + seq![0x3bu8] + b;
    let n = a.len() as int;
    assert(all[n] == 0x3b);
    assert(all.subrange(0, n) =~= a);
    assert(all.subrange(n + 1, all.len() as int) =~= b);
    assert forall|i: int| 0 <= i < n implies all[i] == a[i] by {}
    assert forall|i: int| 0 <= i < b.len() implies all[n + 1 + i] == b[i] by {}
    if lists_four(all) {
        let i = choose|i: int|
            #![trigger all[i]]
            0 <= i < all.len() && all[i] == 0x34 && (i == 0 || all[i - 1] == 0x3b) && (i + 1
                == all.len() || all[i + 1] == 0x3b);
        if i < n {
            assert(a[i] == 0x34);
            if i > 0 {
                assert(a[i - 1] == all[i - 1]);
            }
            if i + 1 < n {
                assert(a[i + 1] == all[i + 1]);
            }
        } else {
            let k = i - n - 1;
            assert(b[k] == all[n + 1 + k]);
            if k > 0 {
                assert(b[k - 1] == all[n + 1 + (k - 1)]);
            }
            if k + 1 < b.len() {
                assert(b[k + 1] == all[n + 1 + (k + 1)]);
            }
        }
    }
    if lists_four(a) {
        let i = choose|i: int|
            #![trigger a[i]]
            0 <= i < a.len() && a[i] == 0x34 && (i == 0 || a[i - 1] == 0x3b) && (i + 1 == a.len()
                || a[i + 1] == 0x3b);
        assert(all[i] == 0x34);
        if i > 0 {
            assert(all[i - 1] == a[i - 1]);
        }
        if i + 1 < n {
            assert(all[i + 1] == a[i + 1]);
        }
    }
    if lists_four(b) {
        let i = choose|i: int|
            #![trigger b[i]]
            0 <= i < b.len() && b[i] == 0x34 && (i == 0 || b[i - 1] == 0x3b) && (i + 1 == b.len()
                || b[i + 1] == 0x3b);
        assert(all[n + 1 + i] == 0x34);
        if i > 0 {
            assert(all[n + 1 + (i - 1)] == b[i - 1]);
        }
        if i + 1 < b.len() {
            assert(all[n + 1 + (i + 1)] == b[i + 1]);
        }
    }
    if forall|i: int| 0 <= i < a.len() ==> #[trigger] a[i] != 0x3b {
        if lists_four(a) {
            let i = choose|i: int|
                #![trigger a[i]]
                0 <= i < a.len() && a[i] == 0x34 && (i == 0 || a[i - 1] == 0x3b) && (i + 1
                    == a.len() || a[i + 1] == 0x3b);
            if i > 0 {
                assert(a[i - 1] != 0x3b);
            }
            if i + 1 < n {
                assert(a[i + 1] != 0x3b);
            }
            assert(a =~= seq![0x34u8]);
        }
        if a == seq![0x34u8] {
            assert(a[0] == 0x34);
        }
    }
}

proof fn end_of_reply(buf: Seq<u8>, e: int)
    requires
        3 <= e <= buf.len(),
        forall|k: int| 3 <= k < e ==> #[trigger] buf[k] != 99,
        e < buf.len() ==> buf[e] == 99,
    ensures
        first_from(buf, seq![0x63u8], 3, buf.len() as int) == if e < buf.len() {
            Some(e)
        } else {
            None
        },
{
    let last = seq![0x63u8];
    let n = buf.len() as int;
    first_is_first(buf, last, 3, n);
    if e < n {
        assert(buf.subrange(e, e + 1) =~= last);
        assert(occurs_at(buf, last, e));
    }
    if let Some(p) = first_from(buf, last, 3, n) {
        assert(buf.subrange(p, p + 1)[0] == buf[p]);
    }
}

proof fn begin_of_reply(buf: Seq<u8>)
    requires
        buf.len() >= 3,
        buf[0] == 27,
        buf[1] == 91,
        buf[2] == 63,
    ensures
        first_from(buf, da_start(), 0, buf.len() as int) == Some(0int),
{
    assert(buf.subrange(0, 3) =~= da_start());
    assert(occurs_at(buf, da_start(), 0));
}

/// A reply `ESC [ ?`, fields and `c` has come in whole once the `c` has. Sixel is what its fields
/// list, whatever follows.
pub proof fn attribute_replies(fields: Seq<u8>, rest: Seq<u8>)
    requires
        forall|i: int| 0 <= i < fields.len() ==> #[trigger] fields[i] != 99,
    ensures
        da_complete(seq![27u8, 91, 63] + fields + seq![99u8] + rest),
        da_lists_sixel(seq![27u8, 91, 63] + fields + seq![99u8] + rest) <==> lists_four(fields),
        !da_complete(seq![27u8, 91, 63] + fields),
{
    let open = seq![27u8, 91, 63] + fields;
    let buf = open + seq![99u8] + rest;
    let e = fields.len() as int + 3;
    assert forall|k: int| 3 <= k < e implies #[trigger] buf[k] != 99 by {
        assert(buf[k] == fields[k - 3]);
    }
    assert forall|k: int| 3 <= k < e implies #[trigger] open[k] != 99 by {
        assert(open[k] == fields[k - 3]);
    }
    assert(buf[0] == 27 && buf[1] == 91 && buf[2] == 63 && buf[e] == 99);
    assert(open[0] == 27 && open[1] == 91 && open[2] == 63);
    begin_of_reply(buf);
    begin_of_reply(open);
    end_of_reply(buf, e);
    end_of_reply(open, e);
    assert(buf.subrange(3, e) =~= fields);
}

/// A reply `ESC _ G`, some text, `;OK` and `ESC \` confirms kitty graphics. Without the `ESC _ G`
/// nothing does.
pub proof fn graphics_replies(text: Seq<u8>, buf: Seq<u8>)
    requires
        forall|i: int| 0 <= i < text.len() ==> #[trigger] text[i] != 27,
    ensures
        kitty_confirms(seq![27u8, 95, 71] + text + seq![59u8, 79, 75, 27, 92], 0),
        (forall|i: int| 0 <= i < buf.len() ==> #[trigger] buf[i] != 27) ==> !kitty_confirms(buf, 0),
{
    let start = seq![27u8, 95, 71];
    let close = seq![27u8, 92];
    let yes = seq![59u8, 79, 75];
    let all = start + text + seq![59u8, 79, 75, 27, 92];
    let n = all.len() as int;
    assert(kitty_start() =~= start);
    assert(seq![ESC, 0x5cu8] =~= close);
    assert(seq![0x3bu8, 0x4f, 0x4b] =~= yes);
    assert(all.subrange(0, 3) =~= start);
    assert(occurs_at(all, kitty_start(), 0));
    assert(all.subrange(n - 2, n) =~= close);
    assert(occurs_at(all, close, n - 2));
    assert(all.subrange(n - 5, n - 2) =~= yes);
    assert(occurs_at(all, yes, n - 5));
    first_is_first(all, close, 3, n);
    assert forall|k: int| 3 <= k < n - 2 implies !occurs_at(all, close, k) by {
        if k < 3 + text.len() {
            assert(all[k] == text[k - 3]);
        }
        assert(all.subrange(k, k + 2)[0] == all[k]);
    }
    assert(first_from(all, close, 3, n) == Some(n - 2));
    first_is_first(all, yes, 3, n - 2);
    if forall|i: int| 0 <= i < buf.len() ==> #[trigger] buf[i] != 27 {
        first_is_first(buf, kitty_start(), 0, buf.len() as int);
        if let Some(p) = first_from(buf, kitty_start(), 0, buf.len() as int) {
            assert(buf.subrange(p, p + 3)[0] == buf[p]);
        }
    }
}

/// A terminal that tells its pixels has those. Of one that does not each cell is taken to have 8 by
/// 16 of them.
pub proof fn cells_have_pixels(reported: u16, cells: u16)
    ensures
        reported > 0 ==> pixels(reported, cells, FALLBACK_CELL_WIDTH) == reported && pixels(
            reported,
            cells,
            FALLBACK_CELL_HEIGHT,
        ) == reported,
        8 * cells <= 65535 ==> pixels(0, cells, FALLBACK_CELL_WIDTH) == 8 * cells,
        16 * cells <= 65535 ==> pixels(0, cells, FALLBACK_CELL_HEIGHT) == 16 * cells,
        8 * cells > 65535 ==> pixels(0, cells, FALLBACK_CELL_WIDTH) == 65535,
        16 * cells > 65535 ==> pixels(0, cells, FALLBACK_CELL_HEIGHT) == 65535,
{
}

} // verus!
