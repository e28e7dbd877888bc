//! Frames: the screen as viewers see it.
use vstd::prelude::*;

use crate::diff::round_trip::{filled, fits, writable};
use crate::model::{
    blob_models, glyph_rows, glyphs, link_at, link_at_put, link_put, link_put_rises, rising, BlobModel, CellStyle, Color, Frame, Glyph, Grid,
    GridModel, ImageBlob, LinkMap, StyledCell,
};
use crate::pty::gate::CursorBridge;
use crate::pty::images::{
    emitted, new_zombies, placed_models, resolve_images, shown_images, shown_images_are_tracked,
    surviving, ImgCell, Placed, PlacedModel,
};
use crate::pty::probe::Caps;
use crate::vt::attrs::{Attrs, Intensity, Underline};
use crate::vt::cell::{Cell, CellModel, Half};
use crate::vt::grid::{least, Size};
use crate::vt::links::LinkModel;
use crate::vt::replay::laws::{emptying, state_comes_out_anew};
use crate::vt::replay::token::draws;
use crate::vt::row::{Row, RowModel};
use crate::vt::screen::{MouseProtocolEncoding, MouseProtocolMode, Screen, ScreenModel};

verus! {

/// How a cell of the screen is drawn.
pub open spec fn style_of(attrs: Attrs, wide: bool) -> CellStyle {
    CellStyle {
        fg: attrs.fgcolor,
        bg: attrs.bgcolor,
        bold: attrs.intensity == Intensity::Bold,
        dim: attrs.intensity == Intensity::Dim,
        italic: attrs.italic,
        underline: attrs.underline.number_spec(),
        strike: attrs.strikethrough,
        concealed: attrs.concealed,
        blink: attrs.blink,
        ulcolor: attrs.ulcolor,
        inverse: attrs.inverse,
        link: attrs.link,
        wide,
    }
}

/// A cell of the screen as viewers see it. An empty one is a space.
pub open spec fn glyph_of<T>(cell: CellModel<T>) -> Glyph {
    Glyph {
        text: if cell.text.len() == 0 {
            seq![' ']
        } else {
            cell.text
        },
        style: style_of(cell.attrs, cell.wide()),
    }
}

/// The first `k` cells of a row. A wide character is one cell.
pub open spec fn row_glyphs<T>(row: RowModel<T>, k: int) -> Seq<Glyph>
    decreases k,
{
    if k <= 0 {
        Seq::empty()
    } else if row.cells[k - 1].cont() {
        row_glyphs(row, k - 1)
    } else {
        row_glyphs(row, k - 1).push(glyph_of(row.cells[k - 1]))
    }
}

/// The rows of a screen.
pub open spec fn screen_rows<T>(s: ScreenModel<T>) -> Seq<Seq<Glyph>> {
    let rows = s.active().visible();
    Seq::new(rows.len(), |r: int| row_glyphs(rows[r], rows[r].cells.len() as int))
}

/// The links that the first `k` cells of a row use, put to others.
pub open spec fn row_links(
    table: LinkModel,
    links: Seq<(u32, Seq<char>)>,
    row: Seq<Glyph>,
    k: int,
) -> Seq<(u32, Seq<char>)>
    decreases k,
{
    if k <= 0 {
        links
    } else {
        let before = row_links(table, links, row, k - 1);
        match row[k - 1].style.link {
            Some(id) => match table.uri(id as int) {
                Some(uri) => link_put(before, id, uri),
                None => before,
            },
            None => before,
        }
    }
}

/// The links that the first `k` rows use.
pub open spec fn rows_links(table: LinkModel, rows: Seq<Seq<Glyph>>, k: int) -> Seq<
    (u32, Seq<char>),
>
    decreases k,
{
    if k <= 0 {
        Seq::empty()
    } else {
        row_links(table, rows_links(table, rows, k - 1), rows[k - 1], rows[k - 1].len() as int)
    }
}

/// A colour that the application set, or the default.
pub open spec fn set_color(c: Option<(u8, u8, u8)>) -> Color {
    match c {
        Some((r, g, b)) => Color::Rgb(r, g, b),
        None => Color::Default,
    }
}

/// The screen as viewers see it, without images. A cursor behind the last column is on it.
pub open spec fn grid_of<T>(s: ScreenModel<T>) -> GridModel {
    let g = s.active();
    let rows = screen_rows(s);
    GridModel {
        source_epoch: 0,
        cols: g.size.cols,
        rows,
        cursor: if s.modes.hide_cursor {
            None
        } else {
            Some((g.pos.row, least(g.pos.col as int, g.size.cols - 1) as u16))
        },
        cursor_style: s.cursor_style,
        default_colors: (set_color(s.default_fg), set_color(s.default_bg)),
        title: s.title,
        links: rows_links(s.links, rows, rows.len() as int),
        images: Seq::empty(),
        image_data: Seq::empty(),
    }
}

fn cell_glyph<T>(cell: &Cell<T>) -> (r: StyledCell)
    ensures
        r@ == glyph_of(cell@),
{
    let mut text: String = String::new();
    if cell.has_contents() {
        vstd::string::StringExecFns::append(&mut text, cell.contents());
        proof {
            assert(text@ =~= cell@.text);
        }
    } else {
        text.push(' ');
        proof {
            assert(text@ =~= seq![' ']);
        }
    }
    let attrs = cell.attrs();
    let style = CellStyle {
        fg: attrs.fgcolor,
        bg: attrs.bgcolor,
        bold: attrs.bold(),
        dim: attrs.dim(),
        italic: attrs.italic,
        underline: attrs.underline.number(),
        strike: attrs.strikethrough,
        concealed: attrs.concealed,
        blink: attrs.blink,
        ulcolor: attrs.ulcolor,
        inverse: attrs.inverse,
        link: attrs.link,
        wide: cell.is_wide(),
    };
    StyledCell::styled(text, style)
}

fn row_cells<T>(row: &Row<T>) -> (r: Vec<StyledCell>)
    ensures
        glyphs(r@) == row_glyphs(row@, row@.cells.len() as int),
{
    let n: usize = row.len();
    let mut r: Vec<StyledCell> = Vec::new();
    proof {
        assert(glyphs(r@) =~= row_glyphs(row@, 0));
    }
    for c in 0..n
        invariant
            n == row@.cells.len(),
            glyphs(r@) == row_glyphs(row@, c as int),
    {
        let cell = row.cell(c);
        if !cell.is_wide_continuation() {
            let ghost before = glyphs(r@);
            r.push(cell_glyph(cell));
            proof {
                assert(glyphs(r@) =~= before.push(glyph_of(row@.cells[c as int])));
            }
        }
    }
    r
}

fn collect_links<T>(screen: &Screen<T>, rows: &Vec<Vec<StyledCell>>) -> (r: LinkMap)
    ensures
        r@ == rows_links(screen@.links, glyph_rows(rows@), rows@.len() as int),
{
    let mut links = LinkMap::new();
    let ghost m = glyph_rows(rows@);
    for i in 0..rows.len()
        invariant
            m == glyph_rows(rows@),
            links@ == rows_links(screen@.links, m, i as int),
    {
        let ghost before = links@;
        proof {
            assert(m[i as int] == glyphs(rows@[i as int]@));
        }
        let n: usize = rows[i].len();
        for k in 0..n
            invariant
                i < rows@.len(),
                n == rows@[i as int]@.len(),
                m == glyph_rows(rows@),
                m[i as int] == glyphs(rows@[i as int]@),
                links@ == row_links(screen@.links, before, m[i as int], k as int),
        {
            proof {
                assert(m[i as int][k as int] == rows@[i as int]@[k as int]@);
            }
            if let Some(id) = rows[i][k].link {
                if let Some(uri) = screen.link_uri(id) {
                    let mut text: String = String::new();
                    vstd::string::StringExecFns::append(&mut text, uri);
                    proof {
                        assert(text@ =~= uri@);
                    }
                    links.insert(id, text);
                }
            }
        }
    }
    links
}

fn to_color(c: Option<(u8, u8, u8)>) -> (r: Color)
    ensures
        r == set_color(c),
{
    match c {
        Some((r, g, b)) => Color::Rgb(r, g, b),
        None => Color::Default,
    }
}

/// The screen as viewers see it, without images.
pub fn grid_from_screen<T>(screen: &Screen<T>) -> (r: Grid)
    requires
        screen@.wf(),
    ensures
        r@ == grid_of(screen@),
        forall|i: int, c: int|
            0 <= i < screen@.active().visible().len() && 0 <= c
                < screen@.active().visible()[i].cells.len() && !(
            #[trigger] screen@.active().visible()[i].cells[c]).cont() ==> drawn_as(
                r.rows@[i]@[characters(screen@.active().visible()[i], c) as int],
                screen@.active().visible()[i].cells[c],
            ),
{
    let mut rows: Vec<Vec<StyledCell>> = Vec::new();
    let grid = screen.grid();
    let n: usize = grid.visible_len();
    let ghost vis = screen@.active().visible();
    let mut i: usize = 0;
    while i < n
        invariant
            grid@ == screen@.active(),
            grid@.wf(),
            vis == grid@.visible(),
            n == vis.len(),
            i <= n,
            rows@.len() == i,
            forall|r: int|
                0 <= r < i ==> glyphs((#[trigger] rows@[r])@) == row_glyphs(
                    vis[r],
                    vis[r].cells.len() as int,
                ),
        decreases n - i,
    {
        match grid.visible_row(i) {
            Some(row) => rows.push(row_cells(row)),
            None => rows.push(Vec::new()),
        }
        i = i + 1;
    }
    proof {
        assert(glyph_rows(rows@) =~= screen_rows(screen@));
    }
    let links = collect_links(screen, &rows);
    let (_, cols) = screen.size();
    let (row, col) = screen.cursor_position();
    let cursor = if screen.hide_cursor() {
        None
    } else {
        Some(
            (
                row,
                if col < cols - 1 {
                    col
                } else {
                    cols - 1
                },
            ),
        )
    };
    let mut title: String = String::new();
    vstd::string::StringExecFns::append(&mut title, screen.title());
    let r = Grid {
        source_epoch: 0,
        cols,
        rows,
        cursor,
        cursor_style: screen.cursor_style(),
        default_colors: (to_color(screen.default_fg()), to_color(screen.default_bg())),
        title,
        links,
        images: Vec::new(),
        image_data: Vec::new(),
    };
    proof {
        assert(r@.title =~= screen@.title);
        assert(r@.images =~= Seq::empty());
        assert(r@.image_data =~= Seq::empty());
        assert forall|i: int, c: int|
            0 <= i < vis.len() && 0 <= c < vis[i].cells.len() && !(#[trigger] vis[i].cells[c]).cont()
            implies drawn_as(r.rows@[i]@[characters(vis[i], c) as int], vis[i].cells[c]) by {
            viewers_see_the_cells(screen@, i, c);
            let k = characters(vis[i], c) as int;
            assert(r@.rows[i] == glyphs(r.rows@[i]@));
            assert(r@.rows[i][k] == r.rows@[i]@[k]@);
        }
    }
    r
}

/// A default colour: as the application set it, else as the outer terminal has it.
pub open spec fn or_probed(own: Color, probed: Option<(u8, u8, u8)>) -> Color {
    if own == Color::Default {
        set_color(probed)
    } else {
        own
    }
}

/// The payloads of the first `k` images, each key once.
pub open spec fn payloads(images: Seq<PlacedModel>, k: int) -> Seq<(Seq<char>, BlobModel)>
    decreases k,
{
    if k <= 0 {
        Seq::empty()
    } else {
        let before = payloads(images, k - 1);
        match images[k - 1].ready {
            Some((hash, blob)) => if has_payload(before, hash) {
                before
            } else {
                before.push((hash, blob))
            },
            None => before,
        }
    }
}

/// Whether there is a payload under a key.
pub open spec fn has_payload(data: Seq<(Seq<char>, BlobModel)>, hash: Seq<char>) -> bool {
    exists|i: int| 0 <= i < data.len() && (#[trigger] data[i]).0 == hash
}

/// The screen with its default colours, the cursor that is shown on, and the images.
pub open spec fn frame_of(
    s: ScreenModel<ImgCell>,
    images: Seq<PlacedModel>,
    zombies: Seq<PlacedModel>,
    bridge: CursorBridge,
    caps: Caps,
    now: u64,
) -> GridModel {
    let g = grid_of(s);
    let colored = GridModel {
        default_colors: (
            or_probed(g.default_colors.0, caps.default_fg),
            or_probed(g.default_colors.1, caps.default_bg),
        ),
        ..g
    };
    let live = surviving(images, s.active(), images.len() as int);
    let dead = new_zombies(images, zombies, s.active());
    let all = live + dead;
    GridModel {
        images: shown_images(dead, live),
        image_data: payloads(all, all.len() as int),
        ..bridge.bridged(colored, now)
    }
}

fn has_key(data: &Vec<(String, ImageBlob)>, hash: &String) -> (r: bool)
    ensures
        r == has_payload(blob_models(data@), hash@),
{
    let ghost m = blob_models(data@);
    for i in 0..data.len()
        invariant
            m == blob_models(data@),
            forall|j: int| 0 <= j < i ==> (#[trigger] m[j]).0 != hash@,
    {
        proof {
            assert(m[i as int].0 == data@[i as int].0@);
        }
        if data[i].0 == *hash {
            return true;
        }
    }
    false
}

fn add_payload(data: &mut Vec<(String, ImageBlob)>, p: &Placed)
    ensures
        blob_models(final(data)@) == match p@.ready {
            Some((hash, blob)) => if has_payload(blob_models(old(data)@), hash) {
                blob_models(old(data)@)
            } else {
                blob_models(old(data)@).push((hash, blob))
            },
            None => blob_models(old(data)@),
        },
{
    if let Some((hash, blob)) = &p.ready {
        if !has_key(data, hash) {
            data.push((hash.clone(), blob.clone()));
            proof {
                assert(blob_models(data@) =~= blob_models(old(data)@).push((hash@, blob@)));
            }
        }
    }
}

/// The frame of a screen.
pub fn frame_from_with_defaults(
    screen: &Screen<ImgCell>,
    images: &mut Vec<Placed>,
    zombies: &mut Vec<Placed>,
    bridge: &mut CursorBridge,
    caps: Caps,
    now: u64,
) -> (r: Frame)
    requires
        screen@.wf(),
    ensures
        r@ == frame_of(
            screen@,
            placed_models(old(images)@),
            placed_models(old(zombies)@),
            *old(bridge),
            caps,
            now,
        ),
        placed_models(final(images)@) == surviving(
            placed_models(old(images)@),
            screen@.active(),
            old(images)@.len() as int,
        ),
        placed_models(final(zombies)@) == new_zombies(
            placed_models(old(images)@),
            placed_models(old(zombies)@),
            screen@.active(),
        ),
        *final(bridge) == old(bridge).seen(grid_of(screen@), now),
{
    let mut grid = grid_from_screen(screen);
    if grid.default_colors.0 == Color::Default {
        grid.default_colors.0 = to_color(caps.default_fg);
    }
    if grid.default_colors.1 == Color::Default {
        grid.default_colors.1 = to_color(caps.default_bg);
    }
    let ghost colored = grid@;
    let _ = bridge.apply(&mut grid, now);
    let ghost shown = grid@;
    let placements = resolve_images(screen, images, zombies);
    let ghost live = placed_models(images@);
    let ghost dead = placed_models(zombies@);
    let ghost all = live + dead;
    let mut data: Vec<(String, ImageBlob)> = Vec::new();
    proof {
        assert(blob_models(data@) =~= payloads(all, 0));
    }
    let n: usize = images.len();
    for i in 0..n
        invariant
            n == images@.len(),
            live == placed_models(images@),
            all == live + dead,
            blob_models(data@) == payloads(all, i as int),
    {
        proof {
            assert(all[i as int] == images@[i as int]@);
        }
        add_payload(&mut data, &images[i]);
    }
    let m: usize = zombies.len();
    for i in 0..m
        invariant
            n == live.len(),
            m == zombies@.len(),
            dead == placed_models(zombies@),
            all == live + dead,
            blob_models(data@) == payloads(all, n + i),
    {
        proof {
            assert(all[n + i] == zombies@[i as int]@);
        }
        add_payload(&mut data, &zombies[i]);
    }
    grid.images = placements;
    grid.image_data = data;
    Frame::Screen(grid)
}

/// A screen without a terminal of its own. Images are mirrored as the cells they cover.
pub struct HeadlessScreen {
    screen: Screen<ImgCell>,
    images: Vec<Placed>,
    zombies: Vec<Placed>,
    bridge: CursorBridge,
}

/// What a screen without a terminal holds, mathematically.
pub struct HeadlessModel {
    pub screen: ScreenModel<ImgCell>,
    pub images: Seq<PlacedModel>,
    pub zombies: Seq<PlacedModel>,
    pub bridge: CursorBridge,
}

impl View for HeadlessScreen {
    type V = HeadlessModel;

    closed spec fn view(&self) -> HeadlessModel {
        HeadlessModel {
            screen: self.screen@,
            images: placed_models(self.images@),
            zombies: placed_models(self.zombies@),
            bridge: self.bridge,
        }
    }
}

/// A bridge that has seen nothing.
pub open spec fn no_bridge() -> CursorBridge {
    CursorBridge { shown: None, style: 0, hidden_since: None }
}

/// A terminal of which nothing is known.
pub open spec fn no_caps() -> Caps {
    Caps { kitty: false, sixel: false, default_fg: None, default_bg: None }
}

impl HeadlessScreen {
    pub fn new(rows: u16, cols: u16) -> (r: HeadlessScreen)
        requires
            rows > 0,
            cols > 0,
        ensures
            r@ == (HeadlessModel {
                screen: ScreenModel::fresh(Size { rows, cols }, 0),
                images: Seq::empty(),
                zombies: Seq::empty(),
                bridge: no_bridge(),
            }),
            r@.screen.wf(),
    {
        let r = HeadlessScreen {
            screen: Screen::new(Size { rows, cols }, 0),
            images: Vec::new(),
            zombies: Vec::new(),
            bridge: CursorBridge::new(),
        };
        proof {
            assert(r@.images =~= Seq::empty());
            assert(r@.zombies =~= Seq::empty());
        }
        r
    }

    /// The frame before anything was drawn.
    pub fn blank_frame(rows: u16, cols: u16) -> (r: Frame)
        requires
            rows > 0,
            cols > 0,
        ensures
            r@ == frame_of(
                ScreenModel::fresh(Size { rows, cols }, 0),
                Seq::empty(),
                Seq::empty(),
                no_bridge(),
                no_caps(),
                0,
            ),
    {
        let mut blank = HeadlessScreen::new(rows, cols);
        blank.frame(0)
    }

    /// The screen, for control functions to act on.
    pub fn screen_mut(&mut self) -> (r: &mut Screen<ImgCell>)
        ensures
            (*r)@ == old(self)@.screen,
            final(self)@ == (HeadlessModel { screen: (*final(r))@, ..old(self)@ }),
    {
        &mut self.screen
    }

    pub fn screen(&self) -> (r: &Screen<ImgCell>)
        ensures
            r@ == self@.screen,
    {
        &self.screen
    }

    pub fn set_size(&mut self, rows: u16, cols: u16)
        requires
            old(self)@.screen.wf(),
            rows > 0,
            cols > 0,
        ensures
            final(self)@ == (HeadlessModel {
                screen: old(self)@.screen.resized(Size { rows, cols }),
                ..old(self)@
            }),
            final(self)@.screen.wf(),
    {
        self.screen.set_size(rows, cols);
    }

    /// The frame of the screen as it is.
    pub fn frame(&mut self, now: u64) -> (r: Frame)
        requires
            old(self)@.screen.wf(),
        ensures
            r@ == frame_of(
                old(self)@.screen,
                old(self)@.images,
                old(self)@.zombies,
                old(self)@.bridge,
                no_caps(),
                now,
            ),
            final(self)@.screen == old(self)@.screen,
            final(self)@.bridge == old(self)@.bridge.seen(grid_of(old(self)@.screen), now),
            final(self)@.images == surviving(
                old(self)@.images,
                old(self)@.screen.active(),
                old(self)@.images.len() as int,
            ),
            final(self)@.zombies == new_zombies(
                old(self)@.images,
                old(self)@.zombies,
                old(self)@.screen.active(),
            ),
    {
        frame_from_with_defaults(
            &self.screen,
            &mut self.images,
            &mut self.zombies,
            &mut self.bridge,
            Caps::unknown(),
            now,
        )
    }

    /// The bytes that draw the screen on a terminal that was just attached.
    pub fn repaint(&self) -> (r: Vec<u8>)
        requires
            self@.screen.wf(),
        ensures
            r@ == repaint_bytes(self@.screen),
    {
        repaint(&self.screen)
    }
}

/// ED and home: empties a terminal.
pub open spec fn wipe() -> Seq<u8> {
    seq![0x1b, '[' as u8, '2' as u8, 'J' as u8, 0x1b, '[' as u8, 'H' as u8]
}

/// The bytes that draw a screen on an empty terminal, with its input modes.
pub open spec fn repaint_bytes<T>(s: ScreenModel<T>) -> Seq<u8> {
    wipe() + s.contents_bytes() + s.input_mode_bytes()
}

/// The bytes that draw a screen on any terminal, with its input modes.
pub fn repaint<T>(screen: &Screen<T>) -> (r: Vec<u8>)
    requires
        screen@.wf(),
    ensures
        r@ == repaint_bytes(screen@),
{
    let mut out: Vec<u8> = Vec::new();
    out.push(0x1b);
    out.push('[' as u8);
    out.push('2' as u8);
    out.push('J' as u8);
    out.push(0x1b);
    out.push('[' as u8);
    out.push('H' as u8);
    proof {
        assert(out@ =~= wipe());
    }
    let contents = screen.contents_formatted();
    crate::vt::escape::push_bytes(&mut out, contents.as_slice());
    let modes = screen.input_mode_formatted();
    crate::vt::escape::push_bytes(&mut out, modes.as_slice());
    out
}

// Laws.

proof fn row_glyphs_are_good<T>(row: RowModel<T>, k: int)
    requires
        0 <= k <= row.cells.len(),
    ensures
        row_glyphs(row, k).len() <= k,
        forall|i: int|
            #![trigger row_glyphs(row, k)[i]]
            0 <= i < row_glyphs(row, k).len() ==> row_glyphs(row, k)[i].style.underline <= 5
                && row_glyphs(row, k)[i].text.len() > 0,
    decreases k,
{
    if k > 0 {
        row_glyphs_are_good(row, k - 1);
    }
}

/// The rows of every screen can be sent: no cell is without text, every underline style has a
/// number on the wire, and unless the view is scrolled back no row is longer than the screen is
/// wide.
pub proof fn screens_can_be_sent<T>(s: ScreenModel<T>)
    requires
        s.wf(),
    ensures
        filled(grid_of(s).rows),
        writable(grid_of(s).rows),
        s.active().scrollback_offset == 0 ==> fits(grid_of(s)),
{
    let g = grid_of(s);
    let vis = s.active().visible();
    assert forall|r: int, i: int|
        #![trigger g.rows[r][i]]
        0 <= r < g.rows.len() && 0 <= i < g.rows[r].len() implies g.rows[r][i].style.underline <= 5
        && g.rows[r][i].text.len() > 0 by {
        row_glyphs_are_good(vis[r], vis[r].cells.len() as int);
    }
    if s.active().scrollback_offset == 0 {
        assert forall|r: int| #![trigger g.rows[r]] 0 <= r < g.rows.len() implies g.rows[r].len()
            <= g.cols by {
            row_glyphs_are_good(vis[r], vis[r].cells.len() as int);
            assert(vis[r] == s.active().rows[r]);
        }
    }
}

/// A terminal that is attached shows the session and takes its input as the session asks, once the
/// session was repainted on it.
pub proof fn repaint_shows_the_session<T>(u: ScreenModel<T>, s: ScreenModel<T>)
    requires
        s.wf(),
        s.active().legible(),
        s.active().viewable(),
        u.ready(),
        u.active().size == s.active().size,
        u.mouse_protocol_mode == MouseProtocolMode::Disabled,
        u.mouse_protocol_encoding == MouseProtocolEncoding::Default,
    ensures
        exists|v: ScreenModel<T>| #[trigger]
            draws(u, repaint_bytes(s), v) && v.shows(s) && v.runs_like(s) && v.same_input(s),
{
    state_comes_out_anew(u, s);
    assert(emptying() =~= wipe());
    let bytes = emptying() + s.contents_bytes() + s.input_mode_bytes();
    assert(repaint_bytes(s) == bytes);
    let v = choose|v: ScreenModel<T>| #[trigger]
        draws(u, bytes, v) && v.shows(s) && v.runs_like(s) && v.same_input(s);
    assert(draws(u, repaint_bytes(s), v));
}

/// Whether a cell of a frame is drawn as one of the screen: with its text, or a space for none, in
/// its own colours and with each of its attributes under the same name.
pub open spec fn drawn_as<T>(a: StyledCell, cell: CellModel<T>) -> bool {
    let b = cell.attrs;
    &&& cell.text.len() > 0 ==> a.text@ == cell.text
    &&& cell.text.len() == 0 ==> a.text@ == seq![' ']
    &&& a.fg == b.fgcolor && a.bg == b.bgcolor && a.ulcolor == b.ulcolor
    &&& a.bold <==> b.intensity == Intensity::Bold
    &&& a.dim <==> b.intensity == Intensity::Dim
    &&& a.italic == b.italic && a.inverse == b.inverse && a.blink == b.blink
    &&& a.strike == b.strikethrough && a.concealed == b.concealed
    &&& a.underline == 0 <==> b.underline == Underline::Off
    &&& a.underline == 1 <==> b.underline == Underline::Single
    &&& a.underline == 2 <==> b.underline == Underline::Double
    &&& a.underline == 3 <==> b.underline == Underline::Curly
    &&& a.underline == 4 <==> b.underline == Underline::Dotted
    &&& a.underline == 5 <==> b.underline == Underline::Dashed
    &&& a.link == b.link
    &&& a.wide <==> cell.half == Half::Left
}

/// Whether a glyph shows a cell: its text, or a space for none, in the cell's own colours and with
/// each of its attributes under the same name.
pub open spec fn shows_cell<T>(glyph: Glyph, cell: CellModel<T>) -> bool {
    let (a, b) = (glyph.style, cell.attrs);
    &&& cell.text.len() > 0 ==> glyph.text == cell.text
    &&& cell.text.len() == 0 ==> glyph.text == seq![' ']
    &&& a.fg == b.fgcolor && a.bg == b.bgcolor && a.ulcolor == b.ulcolor
    &&& a.bold <==> b.intensity == Intensity::Bold
    &&& a.dim <==> b.intensity == Intensity::Dim
    &&& a.italic == b.italic && a.inverse == b.inverse && a.blink == b.blink
    &&& a.strike == b.strikethrough && a.concealed == b.concealed
    &&& a.underline == 0 <==> b.underline == Underline::Off
    &&& a.underline == 1 <==> b.underline == Underline::Single
    &&& a.underline == 2 <==> b.underline == Underline::Double
    &&& a.underline == 3 <==> b.underline == Underline::Curly
    &&& a.underline == 4 <==> b.underline == Underline::Dotted
    &&& a.underline == 5 <==> b.underline == Underline::Dashed
    &&& a.link == b.link
    &&& a.wide <==> cell.half == Half::Left
}

/// How many of the first `k` cells of a row begin a character, or are empty.
pub open spec fn characters<T>(row: RowModel<T>, k: int) -> nat
    decreases k,
{
    if k <= 0 {
        0
    } else if row.cells[k - 1].half == Half::Right {
        characters(row, k - 1)
    } else {
        characters(row, k - 1) + 1
    }
}

proof fn glyphs_are_in_place<T>(row: RowModel<T>, c: int, k: int)
    requires
        0 <= k <= row.cells.len(),
    ensures
        row_glyphs(row, k).len() == characters(row, k),
        0 <= c < k && row.cells[c].half != Half::Right ==> characters(row, c) < characters(row, k)
            && shows_cell(row_glyphs(row, k)[characters(row, c) as int], row.cells[c]),
    decreases k,
{
    if k > 0 {
        glyphs_are_in_place(row, c, k - 1);
    }
}

/// Every cell of the screen that is not the second half of a wide character has its glyph in the
/// frame, in its row and in order, and there are no other glyphs: what viewers see of a cell is what
/// the screen holds.
pub proof fn viewers_see_the_cells<T>(s: ScreenModel<T>, r: int, c: int)
    requires
        s.wf(),
        0 <= r < s.active().visible().len(),
        0 <= c < s.active().visible()[r].cells.len(),
    ensures
        ({
            let row = s.active().visible()[r];
            let g = grid_of(s);
            &&& g.rows.len() == s.active().visible().len()
            &&& g.rows[r].len() == characters(row, row.cells.len() as int)
            &&& row.cells[c].half != Half::Right ==> characters(row, c) < g.rows[r].len()
                && shows_cell(g.rows[r][characters(row, c) as int], row.cells[c])
        }),
{
    let row = s.active().visible()[r];
    glyphs_are_in_place(row, c, row.cells.len() as int);
}

/// The cursor is where the screen has it, or on the last column where it is behind that, and hidden
/// where the screen hides it. Size, title and the shape of the cursor are the screen's, and so are the
/// default colours that the application set.
pub proof fn viewers_see_the_cursor<T>(s: ScreenModel<T>)
    requires
        s.wf(),
    ensures
        ({
            let g = grid_of(s);
            let a = s.active();
            &&& s.modes.hide_cursor <==> g.cursor is None
            &&& !s.modes.hide_cursor ==> (g.cursor->Some_0).0 == a.pos.row
            &&& !s.modes.hide_cursor && a.pos.col < a.size.cols ==> (g.cursor->Some_0).1 == a.pos.col
            &&& !s.modes.hide_cursor && a.pos.col >= a.size.cols ==> (g.cursor->Some_0).1 + 1
                == a.size.cols
            &&& g.cols == a.size.cols && g.title == s.title && g.cursor_style == s.cursor_style
            &&& s.default_fg matches Some((r, gr, b)) ==> g.default_colors.0 == Color::Rgb(r, gr, b)
            &&& s.default_bg matches Some((r, gr, b)) ==> g.default_colors.1 == Color::Rgb(r, gr, b)
            &&& s.default_fg is None ==> g.default_colors.0 == Color::Default
            &&& s.default_bg is None ==> g.default_colors.1 == Color::Default
            &&& g.images.len() == 0 && g.image_data.len() == 0
        }),
{
}

proof fn row_links_hold(
    table: LinkModel,
    links: Seq<(u32, Seq<char>)>,
    row: Seq<Glyph>,
    k: int,
    i: int,
)
    requires
        0 <= k <= row.len(),
        rising(links),
        forall|id: u32| (#[trigger] link_at(links, id)) is Some ==> link_at(links, id)
            == table.uri(id as int),
    ensures
        ({
            let all = row_links(table, links, row, k);
            &&& rising(all)
            &&& forall|id: u32| (#[trigger] link_at(all, id)) is Some ==> link_at(all, id)
                == table.uri(id as int)
            &&& forall|id: u32| (#[trigger] link_at(links, id)) is Some ==> link_at(all, id) is Some
            &&& 0 <= i < k && row[i].style.link is Some && table.uri(
                row[i].style.link->Some_0 as int,
            ) is Some ==> link_at(all, row[i].style.link->Some_0) is Some
        }),
    decreases k,
{
    if k > 0 {
        row_links_hold(table, links, row, k - 1, i);
        let before = row_links(table, links, row, k - 1);
        if let Some(id) = row[k - 1].style.link {
            if let Some(uri) = table.uri(id as int) {
                link_put_rises(before, id, uri);
                let all = row_links(table, links, row, k);
                assert forall|key: u32| #![trigger link_at(all, key)] link_at(all, key) == if key
                    == id {
                    Some(uri)
                } else {
                    link_at(before, key)
                } by {
                    link_at_put(before, id, uri, key);
                }
            }
        }
    }
}

proof fn rows_links_hold(table: LinkModel, rows: Seq<Seq<Glyph>>, k: int, r: int, i: int)
    requires
        0 <= k <= rows.len(),
    ensures
        ({
            let all = rows_links(table, rows, k);
            &&& rising(all)
            &&& forall|id: u32| (#[trigger] link_at(all, id)) is Some ==> link_at(all, id)
                == table.uri(id as int)
            &&& 0 <= r < k && 0 <= i < rows[r].len() && rows[r][i].style.link is Some && table.uri(
                rows[r][i].style.link->Some_0 as int,
            ) is Some ==> link_at(all, rows[r][i].style.link->Some_0) is Some
        }),
    decreases k,
{
    if k > 0 {
        rows_links_hold(table, rows, k - 1, r, i);
        row_links_hold(
            table,
            rows_links(table, rows, k - 1),
            rows[k - 1],
            rows[k - 1].len() as int,
            if r == k - 1 { i } else { -1 },
        );
    }
}

/// A frame has the URI of every link that a cell of it uses and the screen still knows, and each is
/// the one that the screen knows it by.
pub proof fn viewers_get_the_links<T>(s: ScreenModel<T>, r: int, i: int, id: u32)
    ensures
        ({
            let g = grid_of(s);
            &&& link_at(g.links, id) is Some ==> link_at(g.links, id) == s.links.uri(id as int)
            &&& 0 <= r < g.rows.len() && 0 <= i < g.rows[r].len() && g.rows[r][i].style.link
                == Some(id) && s.links.uri(id as int) is Some ==> link_at(g.links, id) is Some
        }),
{
    let g = grid_of(s);
    rows_links_hold(s.links, g.rows, g.rows.len() as int, r, i);
}

/// The default colours that the application set come before those that the outer terminal has; the
/// rest of a frame is the screen's. The payloads of the images that are shown come with it.
pub proof fn frames_have_default_colors(
    s: ScreenModel<ImgCell>,
    images: Seq<PlacedModel>,
    zombies: Seq<PlacedModel>,
    bridge: CursorBridge,
    caps: Caps,
    now: u64,
)
    ensures
        ({
            let f = frame_of(s, images, zombies, bridge, caps, now);
            let g = grid_of(s);
            &&& f.rows == g.rows && f.cols == g.cols && f.title == g.title && f.links == g.links
            &&& g.default_colors.0 != Color::Default ==> f.default_colors.0 == g.default_colors.0
            &&& g.default_colors.1 != Color::Default ==> f.default_colors.1 == g.default_colors.1
            &&& g.default_colors.0 == Color::Default && caps.default_fg is None
                ==> f.default_colors.0 == Color::Default
            &&& g.default_colors.1 == Color::Default && caps.default_bg is None
                ==> f.default_colors.1 == Color::Default
            &&& g.default_colors.0 == Color::Default ==> (caps.default_fg matches Some((r, gr, b))
                ==> f.default_colors.0 == Color::Rgb(r, gr, b))
            &&& g.default_colors.1 == Color::Default ==> (caps.default_bg matches Some((r, gr, b))
                ==> f.default_colors.1 == Color::Rgb(r, gr, b))
            &&& g.cursor is Some ==> f.cursor == g.cursor && f.cursor_style == g.cursor_style
        }),
{
}

/// The payload of every image that has one comes with the frame, once for each key, and no others.
pub proof fn frames_have_their_payloads(images: Seq<PlacedModel>, k: int, i: int)
    requires
        0 <= k <= images.len(),
    ensures
        ({
            let data = payloads(images, k);
            &&& 0 <= i < k && images[i].ready is Some ==> exists|j: int|
                0 <= j < data.len() && (#[trigger] data[j]).0 == images[i].ready->Some_0.0
            &&& forall|a: int, b: int|
                #![trigger data[a], data[b]]
                0 <= a < b < data.len() ==> data[a].0 != data[b].0
            &&& forall|j: int|
                0 <= j < data.len() ==> exists|m: int|
                    0 <= m < k && (#[trigger] images[m]).ready == Some(#[trigger] data[j])
        }),
    decreases k,
{
    if k > 0 {
        frames_have_their_payloads(images, k - 1, i);
        let before = payloads(images, k - 1);
        let data = payloads(images, k);
        if let Some((hash, blob)) = images[k - 1].ready {
            if !has_payload(before, hash) {
                assert(data == before.push((hash, blob)));
                assert(images[k - 1].ready == Some(data.last()));
                if i == k - 1 {
                    assert(data[before.len() as int].0 == hash);
                } else if 0 <= i < k && images[i].ready is Some {
                    let j = choose|j: int|
                        0 <= j < before.len() && (#[trigger] before[j]).0
                            == images[i].ready->Some_0.0;
                    assert(data[j] == before[j]);
                }
            } else if i == k - 1 {
                let j = choose|j: int| 0 <= j < before.len() && (#[trigger] before[j]).0 == hash;
                assert(data[j].0 == hash);
            }
        }
        assert forall|j: int| 0 <= j < data.len() implies exists|m: int|
            0 <= m < k && (#[trigger] images[m]).ready == Some(#[trigger] data[j]) by {
            if j < before.len() {
                assert(data[j] == before[j]);
                let m = choose|m: int|
                    0 <= m < k - 1 && (#[trigger] images[m]).ready == Some(before[j]);
                assert(images[m].ready == Some(data[j]));
            } else {
                assert(images[k - 1].ready == Some(data[j]));
            }
        }
    }
}

/// A frame comes with the payload of each image that it shows.
pub proof fn frames_carry_what_they_show(
    s: ScreenModel<ImgCell>,
    images: Seq<PlacedModel>,
    zombies: Seq<PlacedModel>,
    bridge: CursorBridge,
    caps: Caps,
    now: u64,
    j: int,
)
    requires
        0 <= j < frame_of(s, images, zombies, bridge, caps, now).images.len(),
    ensures
        ({
            let frame = frame_of(s, images, zombies, bridge, caps, now);
            exists|i: int|
                0 <= i < frame.image_data.len() && (#[trigger] frame.image_data[i]).0
                    == frame.images[j].hash
        }),
{
    let frame = frame_of(s, images, zombies, bridge, caps, now);
    let live = surviving(images, s.active(), images.len() as int);
    let dead = new_zombies(images, zombies, s.active());
    let drawn = dead + live;
    let all = live + dead;
    let m = shown_images_are_tracked(drawn, drawn.len() as int, j);
    let i: int = if m < dead.len() {
        live.len() + m
    } else {
        m - dead.len()
    };
    assert(all[i] == drawn[m]);
    frames_have_their_payloads(all, all.len() as int, i);
    assert(frame.image_data == payloads(all, all.len() as int));
    assert(frame.images == emitted(drawn, drawn.len() as int));
}

/// A frame shows the screen: its size, its rows, its title and its links.
pub proof fn frames_show_the_screen(
    s: ScreenModel<ImgCell>,
    images: Seq<PlacedModel>,
    zombies: Seq<PlacedModel>,
    bridge: CursorBridge,
    caps: Caps,
    now: u64,
)
    ensures
        ({
            let frame = frame_of(s, images, zombies, bridge, caps, now);
            &&& frame.cols == s.active().size.cols && frame.rows == screen_rows(s)
            &&& frame.title == s.title && frame.links == grid_of(s).links
            &&& !s.modes.hide_cursor ==> frame.cursor == grid_of(s).cursor && frame.cursor_style
                == s.cursor_style
        }),
{
}

} // verus!
