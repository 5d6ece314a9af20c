//! Where things go on screen: the sizes of the home document and of the
//! search view, the tiles of the application grids, the rows of the
//! results list and of the system rows, and the regions that a click can
//! hit. Drawing itself happens elsewhere; these functions also keep the
//! per-section paging state of `App` in step with what is shown.
use vstd::prelude::*;
use vstd::array::spec_array_update;
use crate::app::{App, Hit, Rect, Section, Target, section_index, last_expanded};
use crate::text::{decimal, owned, push_decimal, push_str};

verus! {

/// Rows of the search box.
pub const SEARCH_HEIGHT: u16 = 4;

/// Rows of an application grid on the home view.
pub const GRID_HEIGHT: u16 = 8;

/// Blank rows between groups.
pub const GROUP_GAP: u16 = 1;

/// `a - b`, or zero when `b` is larger.
pub open spec fn sat_sub(a: int, b: int) -> int {
    if a > b {
        a - b
    } else {
        0
    }
}

/// The smaller of two numbers.
pub open spec fn min(a: int, b: int) -> int {
    if a < b {
        a
    } else {
        b
    }
}

/// The larger of two numbers.
pub open spec fn max(a: int, b: int) -> int {
    if a > b {
        a
    } else {
        b
    }
}

/// The logo's height in the search view: as configured, within the rows
/// that the terminal leaves, unless system details are shown and the
/// terminal is too short for both, when it shrinks to one row.
pub open spec fn compact_logo_height_spec(terminal_height: u16, configured_height: u16, details: u16) -> int {
    if details == 0 || terminal_height >= 31 + configured_height {
        min(configured_height as int, sat_sub(terminal_height as int, 16))
    } else {
        1
    }
}

/// The logo's height in the search view.
pub fn compact_logo_height(terminal_height: u16, configured_height: u16, details: u16) -> (r: u16)
    requires
        configured_height + 31 <= u16::MAX,
    ensures
        r == compact_logo_height_spec(terminal_height, configured_height, details),
{
    if details == 0 || terminal_height >= 31 + configured_height {
        let room = terminal_height.saturating_sub(16);
        if configured_height < room {
            configured_height
        } else {
            room
        }
    } else {
        1
    }
}

/// The number of detail rows that the expanded system sections hold, each
/// count cut to 16 bits.
pub open spec fn details_height_spec(app: App) -> int {
    (if app.expanded[0] { (app.system.sections[0].details@.len() as u16) as int } else { 0 }) + (
    if app.expanded[1] { (app.system.sections[1].details@.len() as u16) as int } else { 0 }) + (
    if app.expanded[2] { (app.system.sections[2].details@.len() as u16) as int } else { 0 })
}

/// The number of detail rows that the expanded system sections hold.
pub fn system_details_height(app: &App) -> (r: u16)
    requires
        details_height_spec(*app) <= u16::MAX,
    ensures
        r == details_height_spec(*app),
{
    let mut total: u16 = 0;
    let mut index: usize = 0;
    while index < 3
        invariant
            0 <= index <= 3,
            details_height_spec(*app) <= u16::MAX,
            total == (if index > 0 && app.expanded[0] {
                (app.system.sections[0].details@.len() as u16) as int
            } else {
                0
            }) + (if index > 1 && app.expanded[1] {
                (app.system.sections[1].details@.len() as u16) as int
            } else {
                0
            }) + (if index > 2 && app.expanded[2] {
                (app.system.sections[2].details@.len() as u16) as int
            } else {
                0
            }),
        decreases 3 - index,
    {
        if app.expanded[index] {
            total = total + app.system.sections[index].details.len() as u16;
        }
        index += 1;
    }
    total
}

/// The height of the home document: header, logo, the system rows with
/// their title and expanded details, the program buttons, the search box
/// and the two grids, with the gaps between groups.
pub open spec fn home_content_height_spec(app: App) -> int {
    2 + app.config.logo.height + 4 + details_height_spec(app) + 1 + GROUP_GAP + SEARCH_HEIGHT
        + GRID_HEIGHT + GROUP_GAP + GRID_HEIGHT
}

/// The height of the home document.
pub fn home_content_height(app: &App) -> (r: u16)
    requires
        home_content_height_spec(*app) <= u16::MAX,
    ensures
        r == home_content_height_spec(*app),
{
    2 + app.config.logo.height + 4 + system_details_height(app) + 1 + GROUP_GAP + SEARCH_HEIGHT
        + GRID_HEIGHT + GROUP_GAP + GRID_HEIGHT
}

/// Where the part of the document at `document_y` of `height` rows lands in
/// `viewport` scrolled by `scroll`: only when it is wholly visible.
pub open spec fn document_area_spec(viewport: Rect, scroll: u16, document_y: u16, height: u16) -> Option<Rect> {
    if document_y < scroll {
        None
    } else {
        let visible_y = document_y - scroll;
        if min(visible_y + height, 65535) <= viewport.height {
            Some(Rect::spec_new(viewport.x, (viewport.y + visible_y) as u16, viewport.width, height))
        } else {
            None
        }
    }
}

/// The screen area of a part of the scrolled home document.
pub fn document_area(viewport: Rect, scroll: u16, document_y: u16, height: u16) -> (r: Option<Rect>)
    requires
        viewport.valid(),
    ensures
        r == document_area_spec(viewport, scroll, document_y, height),
{
    if document_y < scroll {
        return None;
    }
    let visible_y = document_y - scroll;
    if visible_y.saturating_add(height) <= viewport.height {
        Some(Rect::new(viewport.x, viewport.y + visible_y, viewport.width, height))
    } else {
        None
    }
}

/// The heights of the logo and of the system rows in the search view of a
/// terminal area `height` rows tall, with `details` detail rows expanded.
pub open spec fn search_heights_spec(height: u16, configured_logo: u16, details: u16) -> (int, int) {
    let logo = compact_logo_height_spec(height, configured_logo, details);
    (logo, min(4 + details, sat_sub(height as int, logo + 14)))
}

/// The heights of the logo and of the system rows in the search view.
pub fn search_heights(height: u16, configured_logo: u16, details: u16) -> (r: (u16, u16))
    requires
        configured_logo + 31 <= u16::MAX,
        details + 4 <= u16::MAX,
    ensures
        r.0 == search_heights_spec(height, configured_logo, details).0,
        r.1 == search_heights_spec(height, configured_logo, details).1,
{
    let logo = compact_logo_height(height, configured_logo, details);
    let room = height.saturating_sub(logo + 14);
    let system = if 4 + details < room { 4 + details } else { room };
    (logo, system)
}

/// The column where a block of `width` cells is centred in `area`.
pub open spec fn centred_x(area: Rect, width: int) -> int {
    area.x + (area.width - width) / 2
}

/// Whether the terminal is too small for the launcher: narrower than 40
/// columns or shorter than 20 rows.
pub open spec fn too_small(screen: Rect) -> bool {
    screen.width < 40 || screen.height < 20
}

/// Whether the terminal is too small for the launcher.
pub fn terminal_too_small(screen: Rect) -> (r: bool)
    ensures
        r == too_small(screen),
{
    screen.width < 40 || screen.height < 20
}

/// The launcher's column: the screen less two columns each side, at most
/// 104 wide, centred.
pub open spec fn main_area_spec(screen: Rect) -> Rect {
    let width = min(sat_sub(screen.width as int, 4), 104);
    Rect::spec_new(centred_x(screen, width) as u16, screen.y, width as u16, screen.height)
}

/// The launcher's column on `screen`.
pub fn main_area(screen: Rect) -> (r: Rect)
    requires
        screen.valid(),
    ensures
        r == main_area_spec(screen),
{
    let room = screen.width.saturating_sub(4);
    let width = if room < 104 { room } else { 104 };
    Rect::new(screen.x + (screen.width - width) / 2, screen.y, width, screen.height)
}

/// The help window: at most 70 by 17 cells, two columns and one row in
/// from each edge, centred.
pub open spec fn help_area_spec(screen: Rect) -> Rect {
    let width = min(sat_sub(screen.width as int, 4), 70);
    let height = min(sat_sub(screen.height as int, 2), 17);
    Rect::spec_new(
        centred_x(screen, width) as u16,
        (screen.y + (screen.height - height) / 2) as u16,
        width as u16,
        height as u16,
    )
}

/// The help window on `screen`.
pub fn help_area(screen: Rect) -> (r: Rect)
    requires
        screen.valid(),
    ensures
        r == help_area_spec(screen),
{
    let room = screen.width.saturating_sub(4);
    let width = if room < 70 { room } else { 70 };
    let rows = screen.height.saturating_sub(2);
    let height = if rows < 17 { rows } else { 17 };
    Rect::new(
        screen.x + (screen.width - width) / 2,
        screen.y + (screen.height - height) / 2,
        width,
        height,
    )
}

/// One application tile of a grid or row of the results: where it is,
/// its position in the section's list, and the application it shows.
#[derive(Debug, Clone, Copy, PartialEq, Eq, Structural)]
pub struct Tile {
    pub area: Rect,
    pub position: usize,
    pub app: usize,
}

/// What a grid shows: its title row, its body, whether tiles are single
/// text rows, the page indicator (first and last position shown, counted
/// from one, and the total) when not everything fits, and its tiles.
pub struct GridPlan {
    pub header: Rect,
    pub body: Rect,
    pub compact: bool,
    pub page: Option<(usize, usize, usize)>,
    pub tiles: Vec<Tile>,
}

/// The body of a grid in `area`: all but its title row.
pub open spec fn grid_body(area: Rect) -> Rect {
    Rect::spec_new(area.x, (area.y + 1) as u16, area.width, sat_sub(area.height as int, 1) as u16)
}

/// Whether the grid lays out tiles: its body has room and its section
/// has items.
pub open spec fn grid_has_tiles(app: App, section: Section, area: Rect) -> bool {
    let body = grid_body(area);
    body.width > 0 && body.height > 0 && app.indices_of(section).len() > 0
}

/// Whether tiles are single text rows: the body is under seven rows.
pub open spec fn grid_compact(area: Rect) -> bool {
    grid_body(area).height < 7
}

/// The height of a tile: seven rows, or at most three in a compact body.
pub open spec fn tile_height(area: Rect) -> int {
    if grid_compact(area) {
        min(grid_body(area).height as int, 3)
    } else {
        7
    }
}

/// Columns of a grid: one per 18 cells of width, at least one.
pub open spec fn grid_columns(area: Rect) -> int {
    max(grid_body(area).width as int / 18, 1)
}

/// Rows of a grid: as many tiles as fit, at least one.
pub open spec fn grid_rows(area: Rect) -> int {
    max(grid_body(area).height as int / tile_height(area), 1)
}

/// The width of a tile's column.
pub open spec fn tile_width(area: Rect) -> int {
    grid_body(area).width as int / grid_columns(area)
}

/// The selection of a section, within its items.
pub open spec fn clamped_selection(app: App, section: Section) -> int {
    min(app.selected[section_index(section)] as int, app.indices_of(section).len() - 1)
}

/// The first row shown: the old one, moved just enough that the row of
/// the selection is shown.
pub open spec fn scrolled_offset(offset: int, selected_row: int, rows: int) -> int {
    let o = if selected_row < offset {
        selected_row
    } else {
        offset
    };
    if selected_row >= o + rows {
        selected_row + 1 - rows
    } else {
        o
    }
}

/// The first row of the grid that is shown.
pub open spec fn grid_offset(app: App, section: Section, area: Rect) -> int {
    scrolled_offset(
        app.offsets[section_index(section)] as int,
        clamped_selection(app, section) / grid_columns(area),
        grid_rows(area),
    )
}

/// The first position shown.
pub open spec fn grid_start(app: App, section: Section, area: Rect) -> int {
    grid_offset(app, section, area) * grid_columns(area)
}

/// One past the last position shown.
pub open spec fn grid_end(app: App, section: Section, area: Rect) -> int {
    min(
        grid_start(app, section, area) + grid_rows(area) * grid_columns(area),
        app.indices_of(section).len() as int,
    )
}

/// The tile at `position`, counted from the first one shown.
pub open spec fn grid_tile(app: App, section: Section, area: Rect, position: int) -> Tile {
    let relative = position - grid_start(app, section, area);
    let body = grid_body(area);
    let columns = grid_columns(area);
    Tile {
        area: Rect::spec_new(
            (body.x + (relative % columns) * tile_width(area)) as u16,
            (body.y + (relative / columns) * tile_height(area)) as u16,
            sat_sub(tile_width(area), 1) as u16,
            tile_height(area) as u16,
        ),
        position: position as usize,
        app: app.indices_of(section)[position],
    }
}

/// The tiles shown, in order of position.
pub open spec fn grid_tiles(app: App, section: Section, area: Rect) -> Seq<Tile> {
    let start = grid_start(app, section, area);
    Seq::new(
        (grid_end(app, section, area) - start) as nat,
        |k: int| grid_tile(app, section, area, start + k),
    )
}

/// The hit regions of tiles.
pub open spec fn tile_hits(tiles: Seq<Tile>, section: Section) -> Seq<Hit> {
    tiles.map_values(|t: Tile| Hit { area: t.area, target: Target::App(section, t.position) })
}

/// The state after a grid of `section` was laid out in `area`, but for
/// its click regions: when it lays out tiles, the section's columns, rows,
/// clamped selection and first row.
pub open spec fn grid_state(app: App, section: Section, area: Rect) -> App {
    let i = section_index(section);
    if grid_has_tiles(app, section, area) {
        App {
            columns: spec_array_update(app.columns, i, grid_columns(area) as usize),
            rows: spec_array_update(app.rows, i, grid_rows(area) as usize),
            selected: spec_array_update(app.selected, i, clamped_selection(app, section) as usize),
            offsets: spec_array_update(app.offsets, i, grid_offset(app, section, area) as usize),
            ..app
        }
    } else {
        app
    }
}

fn grid_geometry(area: Rect, body: Rect) -> (r: (u16, u16, u16, u16))
    requires
        area.valid(),
        body == grid_body(area),
        body.width > 0,
        body.height > 0,
    ensures
        r.0 == tile_height(area),
        r.1 == grid_columns(area),
        r.2 == grid_rows(area),
        r.3 == tile_width(area),
        r.1 <= 3641,
        r.1 > 0,
        r.2 > 0,
        r.1 * r.3 <= body.width,
        r.2 * r.0 <= body.height,
        (r.1 as int) * (r.2 as int) <= 3641 * 65535,
{
    let tile_h: u16 = if body.height < 7 {
        if body.height < 3 { body.height } else { 3 }
    } else {
        7
    };
    let column_count: u16 = if body.width / 18 > 1 { body.width / 18 } else { 1 };
    let row_count: u16 = if body.height / tile_h > 1 { body.height / tile_h } else { 1 };
    let tile_w: u16 = body.width / column_count;
    proof {
        assert(row_count * tile_h <= body.height) by (nonlinear_arith)
            requires
                row_count == (if body.height / tile_h > 1 { body.height / tile_h } else { 1 }),
                tile_h <= body.height,
                tile_h > 0,
        ;
        assert(column_count * tile_w <= body.width) by (nonlinear_arith)
            requires
                tile_w == body.width / column_count,
                column_count > 0,
        ;
        assert((column_count as int) * (row_count as int) <= 3641 * 65535) by (nonlinear_arith)
            requires
                column_count <= 3641,
                row_count <= 65535,
        ;
    }
    (tile_h, column_count, row_count, tile_w)
}

fn push_hit(hits: &mut Vec<Hit>, area: Rect, target: Target)
    ensures
        final(hits)@ == old(hits)@.push(Hit { area, target }),
{
    hits.push(Hit { area, target });
}

/// Lays out the grid of `section` in `area` and records its click
/// regions; nothing happens when `area` is empty. The plan says what to
/// draw: title row, body, compactness, page indicator and tiles.
#[verifier::spinoff_prover]
#[verifier::rlimit(50)]
pub fn plan_grid(app: &mut App, section: Section, area: Rect) -> (r: Option<GridPlan>)
    requires
        area.valid(),
        old(app).wf(),
    ensures
        area.width == 0 || area.height == 0 ==> r is None && *final(app) == *old(app),
        area.width > 0 && area.height > 0 ==> (r is Some),
        r matches Some(plan) ==> plan.header == Rect::spec_new(area.x, area.y, area.width, 1),
        r matches Some(plan) ==> plan.body == grid_body(area),
        r matches Some(plan) ==> plan.compact == grid_compact(area),
        r matches Some(plan) ==> plan.tiles@ == (if grid_has_tiles(*old(app), section, area) {
            grid_tiles(*old(app), section, area)
        } else {
            Seq::empty()
        }),
        r matches Some(plan) ==> plan.page == (if grid_has_tiles(*old(app), section, area)
            && old(app).indices_of(section).len() > grid_rows(area) * grid_columns(area) {
            Some(
                (
                    (grid_start(*old(app), section, area) + 1) as usize,
                    grid_end(*old(app), section, area) as usize,
                    old(app).indices_of(section).len() as usize,
                ),
            )
        } else {
            None
        }),
        r matches Some(plan) ==> *final(app) == (App {
            hits: final(app).hits,
            ..grid_state(*old(app), section, area)
        }),
        r matches Some(plan) ==> final(app).hits@ == old(app).hits@.push(
            Hit { area, target: Target::Section(section) },
        ) + tile_hits(plan.tiles@, section),
        final(app).wf(),
{
    if area.is_empty() {
        return None;
    }
    let ghost before = *app;
    let header = Rect::new(area.x, area.y, area.width, 1);
    push_hit(&mut app.hits, area, Target::Section(section));
    let body = Rect::new(area.x, area.y + 1, area.width, area.height.saturating_sub(1));
    let compact = body.height < 7;
    let n = app.indices(section).len();
    if body.is_empty() || n == 0 {
        proof {
            assert(app.hits@ =~= before.hits@.push(Hit { area, target: Target::Section(section) })
                + tile_hits(Seq::<Tile>::empty(), section));
        }
        return Some(GridPlan { header, body, compact, page: None, tiles: Vec::new() });
    }
    let (tile_h, column_count, row_count, tile_w) = grid_geometry(area, body);
    let i = section.index();
    let columns = column_count as usize;
    let rows = row_count as usize;
    app.columns[i] = columns;
    app.rows[i] = rows;
    let sel = if app.selected[i] < n - 1 { app.selected[i] } else { n - 1 };
    app.selected[i] = sel;
    let selected_row = sel / columns;
    let mut offset = app.offsets[i];
    if selected_row < offset {
        offset = selected_row;
    }
    if selected_row - offset >= rows {
        offset = selected_row + 1 - rows;
    }
    app.offsets[i] = offset;
    proof {
        assert(offset <= selected_row);
        assert(offset * columns <= sel) by (nonlinear_arith)
            requires
                offset <= selected_row,
                selected_row == sel / columns,
                columns > 0,
        ;
    }
    let start = offset * columns;
    let capacity = rows * columns;
    let end = if n - start > capacity { start + capacity } else { n };
    let page = if n > capacity { Some((start + 1, end, n)) } else { None };
    let mut tiles: Vec<Tile> = Vec::new();
    let mut position = start;
    let ghost old_app = before;
    assert(body == grid_body(area));
    assert(tile_h == tile_height(area));
    assert(columns == grid_columns(area));
    assert(rows == grid_rows(area));
    assert(tile_w == tile_width(area));
    assert(sel == clamped_selection(old_app, section));
    assert(offset == grid_offset(old_app, section, area));
    assert(start == grid_start(old_app, section, area));
    assert(end == grid_end(old_app, section, area));
    assert(app.indices_of(section) == old_app.indices_of(section));
    assert(tiles@ =~= grid_tiles(old_app, section, area).take(0));
    assert(*app == (App { hits: app.hits, ..grid_state(old_app, section, area) }));
    assert(app.wf());
    assert(app.hits@ =~= old_app.hits@.push(Hit { area, target: Target::Section(section) })
        + tile_hits(tiles@, section));
    while position < end
        invariant
            start <= position <= end <= n,
            end - start <= capacity,
            capacity == rows * columns,
            n == app.indices_of(section).len(),
            app.indices_of(section) == old_app.indices_of(section),
            body == grid_body(area),
            body.x + body.width <= 65535,
            body.y + body.height <= 65535,
            tile_h == tile_height(area),
            columns == grid_columns(area),
            columns == column_count,
            rows == grid_rows(area),
            tile_w == tile_width(area),
            start == grid_start(old_app, section, area),
            end == grid_end(old_app, section, area),
            columns > 0,
            rows > 0,
            columns * tile_w <= body.width,
            rows * tile_h <= body.height,
            tiles@ == grid_tiles(old_app, section, area).take(position - start),
            *app == (App { hits: app.hits, ..grid_state(old_app, section, area) }),
            app.wf(),
            app.hits@ == old_app.hits@.push(Hit { area, target: Target::Section(section) })
                + tile_hits(tiles@, section),
        decreases end - position,
    {
        let relative = position - start;
        let column = relative % columns;
        let row = relative / columns;
        proof {
            assert(row < rows) by (nonlinear_arith)
                requires
                    relative < rows * columns,
                    row == relative / columns,
                    columns > 0,
            ;
            assert(column * tile_w <= body.width) by (nonlinear_arith)
                requires
                    column < columns,
                    columns * tile_w <= body.width,
            ;
            assert(row * tile_h <= body.height) by (nonlinear_arith)
                requires
                    row < rows,
                    rows * tile_h <= body.height,
            ;
        }
        let tile = Tile {
            area: Rect::new(
                body.x + column as u16 * tile_w,
                body.y + row as u16 * tile_h,
                tile_w.saturating_sub(1),
                tile_h,
            ),
            position,
            app: app.indices(section)[position],
        };
        assert(tile == grid_tile(old_app, section, area, position as int));
        let ghost previous = tiles@;
        tiles.push(tile);
        push_hit(&mut app.hits, tile.area, Target::App(section, position));
        assert(grid_tiles(old_app, section, area).take(position + 1 - start) =~= previous.push(tile));
        assert(tile_hits(tiles@, section) =~= tile_hits(previous, section).push(
            Hit { area: tile.area, target: Target::App(section, position) },
        ));
        position += 1;
    }
    assert(grid_tiles(old_app, section, area).take(position - start) =~= grid_tiles(old_app, section, area));
    Some(GridPlan { header, body, compact, page, tiles })
}

/// The height of a row of the results: at most three rows.
pub open spec fn result_row_height(area: Rect) -> int {
    min(area.height as int, 3)
}

/// How many results are shown at once: as many rows as fit, at least one.
pub open spec fn results_visible(area: Rect) -> int {
    max(area.height as int / result_row_height(area), 1)
}

/// The first result shown.
pub open spec fn results_offset(app: App, area: Rect) -> int {
    scrolled_offset(
        app.offsets[2] as int,
        clamped_selection(app, Section::Results),
        results_visible(area),
    )
}

/// One past the last result shown.
pub open spec fn results_end(app: App, area: Rect) -> int {
    min(results_offset(app, area) + results_visible(area), app.filtered@.len() as int)
}

/// The row of the result at `position`.
pub open spec fn result_row(app: App, area: Rect, position: int) -> Tile {
    Tile {
        area: Rect::spec_new(
            area.x,
            (area.y + (position - results_offset(app, area)) * result_row_height(area)) as u16,
            area.width,
            result_row_height(area) as u16,
        ),
        position: position as usize,
        app: app.filtered@[position],
    }
}

/// The rows of the results shown, in order.
pub open spec fn result_rows(app: App, area: Rect) -> Seq<Tile> {
    let start = results_offset(app, area);
    Seq::new((results_end(app, area) - start) as nat, |k: int| result_row(app, area, start + k))
}

/// The state after the results were laid out in `area`, but for their
/// click regions: one column, the rows that fit, the clamped selection and
/// the first result shown.
pub open spec fn results_state(app: App, area: Rect) -> App {
    App {
        columns: spec_array_update(app.columns, 2, 1usize),
        rows: spec_array_update(app.rows, 2, results_visible(area) as usize),
        selected: spec_array_update(
            app.selected,
            2,
            clamped_selection(app, Section::Results) as usize,
        ),
        offsets: spec_array_update(app.offsets, 2, results_offset(app, area) as usize),
        ..app
    }
}

fn results_geometry(area: Rect) -> (r: (u16, u16))
    requires
        area.height > 0,
    ensures
        r.0 == result_row_height(area),
        r.1 == results_visible(area),
        r.0 > 0,
        r.1 > 0,
        r.0 * r.1 <= area.height,
{
    let row_height: u16 = if area.height < 3 { area.height } else { 3 };
    let visible: u16 = if area.height / row_height > 1 { area.height / row_height } else { 1 };
    proof {
        assert(row_height * visible <= area.height) by (nonlinear_arith)
            requires
                visible == (if area.height / row_height > 1 { area.height / row_height } else { 1 }),
                row_height <= area.height,
                row_height > 0,
        ;
    }
    (row_height, visible)
}

/// Lays out the results in `area` and records their click regions; nothing
/// happens when `area` is empty or nothing matches. Gives the rows shown.
pub fn plan_results(app: &mut App, area: Rect) -> (r: Vec<Tile>)
    requires
        area.valid(),
        old(app).wf(),
    ensures
        (area.width == 0 || area.height == 0 || old(app).filtered@.len() == 0) ==> r@.len() == 0
            && *final(app) == *old(app),
        !(area.width == 0 || area.height == 0 || old(app).filtered@.len() == 0) ==> {
            &&& r@ == result_rows(*old(app), area)
            &&& *final(app) == (App { hits: final(app).hits, ..results_state(*old(app), area) })
            &&& final(app).hits@ == old(app).hits@ + tile_hits(r@, Section::Results)
        },
        final(app).wf(),
{
    if area.is_empty() || app.filtered.len() == 0 {
        return Vec::new();
    }
    let ghost old_app = *app;
    let n = app.filtered.len();
    let (row_height, visible16) = results_geometry(area);
    let visible = visible16 as usize;
    app.columns[2] = 1;
    app.rows[2] = visible;
    let sel = if app.selected[2] < n - 1 { app.selected[2] } else { n - 1 };
    app.selected[2] = sel;
    let mut offset = app.offsets[2];
    if sel < offset {
        offset = sel;
    }
    if sel - offset >= visible {
        offset = sel + 1 - visible;
    }
    app.offsets[2] = offset;
    let end = if n - offset > visible { offset + visible } else { n };
    assert(sel == clamped_selection(old_app, Section::Results));
    assert(offset == results_offset(old_app, area));
    assert(end == results_end(old_app, area));
    let mut rows: Vec<Tile> = Vec::new();
    let mut position = offset;
    assert(rows@ =~= result_rows(old_app, area).take(0));
    assert(*app == (App { hits: app.hits, ..results_state(old_app, area) }));
    assert(app.hits@ =~= old_app.hits@ + tile_hits(rows@, Section::Results));
    assert(app.columns[2] == 1);
    assert(app.rows[2] == visible);
    assert(visible <= 65535);
    assert(app.columns[2] * app.rows[2] <= isize::MAX);
    assert(forall|k: int| 0 <= k < 3 ==> #[trigger] app.columns[k] <= isize::MAX
        && app.columns[k] * app.rows[k] <= isize::MAX);
    while position < end
        invariant
            offset <= position <= end <= n,
            end - offset <= visible,
            n == app.filtered@.len(),
            app.filtered@ == old_app.filtered@,
            row_height == result_row_height(area),
            visible == results_visible(area),
            row_height * visible <= area.height,
            area.valid(),
            offset == results_offset(old_app, area),
            end == results_end(old_app, area),
            rows@ == result_rows(old_app, area).take(position - offset),
            *app == (App { hits: app.hits, ..results_state(old_app, area) }),
            app.wf(),
            app.hits@ == old_app.hits@ + tile_hits(rows@, Section::Results),
        decreases end - position,
    {
        let relative = position - offset;
        proof {
            assert(relative * row_height <= area.height) by (nonlinear_arith)
                requires
                    relative < visible,
                    row_height * visible <= area.height,
            ;
        }
        let row = Tile {
            area: Rect::new(area.x, area.y + relative as u16 * row_height, area.width, row_height),
            position,
            app: app.filtered[position],
        };
        assert(row == result_row(old_app, area, position as int));
        let ghost previous = rows@;
        rows.push(row);
        push_hit(&mut app.hits, row.area, Target::App(Section::Results, position));
        assert(result_rows(old_app, area).take(position + 1 - offset) =~= previous.push(row));
        assert(tile_hits(rows@, Section::Results) =~= tile_hits(previous, Section::Results).push(
            Hit { area: row.area, target: Target::App(Section::Results, position) },
        ));
        position += 1;
    }
    assert(result_rows(old_app, area).take(position - offset) =~= result_rows(old_app, area));
    rows
}

/// Starts a frame: no click regions yet, and no rows given to the system
/// details.
pub fn begin_frame(app: &mut App)
    requires
        old(app).wf(),
    ensures
        *final(app) == (App { hits: final(app).hits, system_rows: [0usize, 0usize, 0usize], ..*old(app) }),
        final(app).hits@.len() == 0,
        final(app).wf(),
{
    app.hits = Vec::new();
    app.system_rows = [0, 0, 0];
}

/// The number of details of system section `i`.
pub open spec fn details_len(app: App, i: int) -> int {
    app.system.sections[i].details@.len() as int
}

/// One round of giving rows to the system details: each expanded section
/// from `i` on that has details left gets one more row while rows remain.
pub open spec fn grant(app: App, rows: Seq<int>, remaining: int, i: int) -> (Seq<int>, int)
    decreases 3 - i,
{
    if i >= 3 {
        (rows, remaining)
    } else if remaining > 0 && app.expanded[i] && rows[i] < details_len(app, i) {
        grant(app, rows.update(i, rows[i] + 1), remaining - 1, i + 1)
    } else {
        grant(app, rows, remaining, i + 1)
    }
}

/// Rounds of `grant` until no row remains or no section takes one, at most
/// `rounds` of them.
pub open spec fn allocate(app: App, rows: Seq<int>, remaining: int, rounds: nat) -> Seq<int>
    decreases rounds,
{
    if rounds == 0 || remaining <= 0 {
        rows
    } else {
        let (next, left) = grant(app, rows, remaining, 0);
        if left == remaining {
            rows
        } else {
            allocate(app, next, left, (rounds - 1) as nat)
        }
    }
}

/// The detail rows of each system section in the search view's `area`:
/// the rows below the title and the three headers, shared out one at a
/// time in turn among the expanded sections.
pub open spec fn compact_rows(app: App, area: Rect) -> Seq<int> {
    let h = area.height - 4;
    allocate(app, seq![0int, 0int, 0int], h, h as nat)
}

proof fn lemma_grant(app: App, rows: Seq<int>, remaining: int, i: int)
    requires
        rows.len() == 3,
        0 <= i <= 3,
        remaining >= 0,
        forall|k: int| 0 <= k < 3 ==> 0 <= #[trigger] rows[k],
    ensures
        grant(app, rows, remaining, i).0.len() == 3,
        0 <= grant(app, rows, remaining, i).1 <= remaining,
        forall|k: int| 0 <= k < 3 ==> rows[k] <= #[trigger] grant(app, rows, remaining, i).0[k],
        forall|k: int|
            0 <= k < 3 ==> #[trigger] grant(app, rows, remaining, i).0[k] <= max(
                rows[k],
                details_len(app, k),
            ),
        grant(app, rows, remaining, i).0[0] + grant(app, rows, remaining, i).0[1] + grant(
            app,
            rows,
            remaining,
            i,
        ).0[2] + grant(app, rows, remaining, i).1 == rows[0] + rows[1] + rows[2] + remaining,
    decreases 3 - i,
{
    if i < 3 {
        if remaining > 0 && app.expanded[i] && rows[i] < details_len(app, i) {
            lemma_grant(app, rows.update(i, rows[i] + 1), remaining - 1, i + 1);
        } else {
            lemma_grant(app, rows, remaining, i + 1);
        }
    }
}

/// The detail rows of the system sections, as numbers.
pub open spec fn rows_of(rows: [usize; 3]) -> Seq<int> {
    seq![rows[0] as int, rows[1] as int, rows[2] as int]
}

fn allocate_compact_rows(app: &mut App, area: Rect)
    requires
        area.height >= 4,
        old(app).system_rows == [0usize, 0usize, 0usize],
    ensures
        *final(app) == (App { system_rows: final(app).system_rows, ..*old(app) }),
        rows_of(final(app).system_rows) == compact_rows(*old(app), area),
        final(app).system_rows[0] + final(app).system_rows[1] + final(app).system_rows[2] <= area.height - 4,
        forall|k: int| 0 <= k < 3 ==> #[trigger] final(app).system_rows[k] <= details_len(*old(app), k),
        forall|k: int| 0 <= k < 3 ==> !old(app).expanded[k] ==> #[trigger] final(app).system_rows[k] == 0,
{
    let ghost start = *app;
    let mut remaining: usize = (area.height - 4) as usize;
    let ghost mut budget: nat = remaining as nat;
    let mut done = false;
    assert(rows_of(app.system_rows) =~= seq![0int, 0int, 0int]);
    while remaining > 0 && !done
        invariant
            *app == (App { system_rows: app.system_rows, ..start }),
            remaining <= budget,
            allocate(start, rows_of(app.system_rows), remaining as int, budget) == compact_rows(start, area),
            done ==> allocate(start, rows_of(app.system_rows), remaining as int, budget) == rows_of(app.system_rows),
            app.system_rows[0] + app.system_rows[1] + app.system_rows[2] + remaining == area.height - 4,
            forall|k: int| 0 <= k < 3 ==> #[trigger] app.system_rows[k] <= details_len(start, k),
            forall|k: int| 0 <= k < 3 ==> !start.expanded[k] ==> #[trigger] app.system_rows[k] == 0,
        decreases budget + (if done { 0int } else { 1int }),
    {
        let ghost round_rows = rows_of(app.system_rows);
        let ghost round_remaining = remaining as int;
        proof {
            lemma_grant(start, round_rows, round_remaining, 0);
        }
        let mut index: usize = 0;
        let mut allocated = false;
        while index < 3
            invariant
                0 <= index <= 3,
                *app == (App { system_rows: app.system_rows, ..start }),
                grant(start, round_rows, round_remaining, 0) == grant(
                    start,
                    rows_of(app.system_rows),
                    remaining as int,
                    index as int,
                ),
                allocated == (remaining < round_remaining),
                remaining <= round_remaining,
                app.system_rows[0] + app.system_rows[1] + app.system_rows[2] + remaining == area.height - 4,
                forall|k: int| 0 <= k < 3 ==> #[trigger] app.system_rows[k] <= details_len(start, k),
                forall|k: int| 0 <= k < 3 ==> !start.expanded[k] ==> #[trigger] app.system_rows[k] == 0,
            decreases 3 - index,
        {
            if remaining > 0 && app.expanded[index]
                && app.system_rows[index] < app.system.sections[index].details.len() {
                let ghost r = rows_of(app.system_rows);
                app.system_rows[index] = app.system_rows[index] + 1;
                assert(rows_of(app.system_rows) =~= r.update(index as int, r[index as int] + 1));
                remaining = remaining - 1;
                allocated = true;
            }
            index += 1;
        }
        if !allocated {
            done = true;
        } else {
            proof {
                budget = (budget - 1) as nat;
            }
        }
    }
    assert(allocate(start, rows_of(app.system_rows), remaining as int, budget) == rows_of(app.system_rows));
}

/// The focused system section after a frame: the focused one while it is
/// expanded, else the last expanded one.
pub open spec fn kept_focus(app: App) -> Option<usize> {
    match app.system_focus {
        Some(i) => if i < 3 && app.expanded[i as int] {
            Some(i)
        } else {
            last_expanded(app.expanded)
        },
        None => last_expanded(app.expanded),
    }
}

/// The detail rows of section `i` in the search view.
pub open spec fn compact_capacity(app: App, area: Rect, i: int) -> int {
    compact_rows(app, area)[i]
}

/// How far the details of section `i` can scroll.
pub open spec fn compact_maximum(app: App, area: Rect, i: int) -> int {
    sat_sub(details_len(app, i), compact_capacity(app, area, i))
}

/// The first detail shown of section `i`: the old one within its range,
/// or the first when the section is folded.
pub open spec fn compact_offset(app: App, area: Rect, i: int) -> int {
    if app.expanded[i] {
        min(app.system_offsets[i] as int, compact_maximum(app, area, i))
    } else {
        0
    }
}

/// The row of the header of section `i`: below the title, the headers and
/// the details of the sections above it.
pub open spec fn compact_row(app: App, area: Rect, i: int) -> int
    decreases i,
{
    if i <= 0 {
        area.y + 1
    } else {
        compact_row(app, area, i - 1) + 1 + compact_capacity(app, area, i - 1)
    }
}

/// The position indicator of section `i` when its details scroll: first
/// and last shown, counted from one, of how many, with arrows for the
/// directions it can scroll.
pub open spec fn position_text(app: App, area: Rect, i: int) -> Option<Seq<char>> {
    let offset = compact_offset(app, area, i);
    let maximum = compact_maximum(app, area, i);
    if app.expanded[i] && maximum > 0 {
        Some(
            decimal((offset + 1) as nat) + "–"@ + decimal(
                (offset + compact_capacity(app, area, i)) as nat,
            ) + "/"@ + decimal(details_len(app, i) as nat) + " "@ + (if offset > 0 {
                "↑"@
            } else {
                ""@
            }) + (if offset < maximum {
                "↓"@
            } else {
                ""@
            }),
        )
    } else {
        None
    }
}

/// A detail line: where it is drawn and which detail of its section.
#[derive(Debug, Clone, Copy, PartialEq, Eq, Structural)]
pub struct DetailLine {
    pub area: Rect,
    pub index: usize,
}

/// The detail lines of section `i`.
pub open spec fn compact_details(app: App, area: Rect, i: int) -> Seq<DetailLine> {
    let n = if app.expanded[i] {
        compact_capacity(app, area, i)
    } else {
        0
    };
    Seq::new(
        n as nat,
        |k: int|
            DetailLine {
                area: Rect::spec_new(area.x, (compact_row(app, area, i) + 1 + k) as u16, area.width, 1),
                index: (compact_offset(app, area, i) + k) as usize,
            },
    )
}

/// The header of section `i`.
pub open spec fn compact_header(app: App, area: Rect, i: int) -> Rect {
    Rect::spec_new(area.x, compact_row(app, area, i) as u16, area.width, 1)
}

/// The click regions of section `i`: its header, and its shown details.
pub open spec fn compact_section_hits(app: App, area: Rect, i: int) -> Seq<Hit> {
    let header = seq![Hit { area: compact_header(app, area, i), target: Target::System(i as usize) }];
    if app.expanded[i] && compact_capacity(app, area, i) > 0 {
        header.push(
            Hit {
                area: Rect::spec_new(
                    area.x,
                    (compact_row(app, area, i) + 1) as u16,
                    area.width,
                    compact_capacity(app, area, i) as u16,
                ),
                target: Target::SystemDetails(i as usize),
            },
        )
    } else {
        header
    }
}

/// Whether some expanded section has more details than rows.
pub open spec fn compact_scrollable(app: App, area: Rect) -> bool {
    exists|i: int| 0 <= i < 3 && app.expanded[i] && details_len(app, i) > compact_capacity(app, area, i)
}

/// What one system section shows in the search view.
pub struct SectionLines {
    pub header: Rect,
    pub position: Option<String>,
    pub details: Vec<DetailLine>,
}

/// What the system rows show in the search view: the title row, whether
/// some details scroll, and each section's lines.
pub struct SystemPlan {
    pub title: Rect,
    pub scrollable: bool,
    pub sections: Vec<SectionLines>,
}

/// A section's lines as plain values.
pub open spec fn lines_view(l: SectionLines) -> (Rect, Option<Seq<char>>, Seq<DetailLine>) {
    (
        l.header,
        match l.position {
            Some(p) => Some(p@),
            None => None,
        },
        l.details@,
    )
}

/// The lines of section `i`, as plain values.
pub open spec fn compact_lines(app: App, area: Rect, i: int) -> (Rect, Option<Seq<char>>, Seq<DetailLine>) {
    (compact_header(app, area, i), position_text(app, area, i), compact_details(app, area, i))
}

proof fn lemma_compact_row_bound(app: App, area: Rect, i: int)
    requires
        0 <= i <= 3,
        area.height >= 4,
        forall|k: int| 0 <= k < 3 ==> 0 <= #[trigger] compact_capacity(app, area, k),
    ensures
        compact_row(app, area, i) == area.y + 1 + i + (if i > 0 { compact_capacity(app, area, 0) } else { 0 })
            + (if i > 1 { compact_capacity(app, area, 1) } else { 0 }) + (if i > 2 {
            compact_capacity(app, area, 2)
        } else {
            0
        }),
    decreases i,
{
    if i > 0 {
        lemma_compact_row_bound(app, area, i - 1);
    }
}

fn position_string(offset: usize, capacity: usize, len: usize, maximum: usize) -> (r: String)
    requires
        offset < usize::MAX,
        offset + capacity <= usize::MAX,
    ensures
        r@ == decimal((offset + 1) as nat) + "–"@ + decimal((offset + capacity) as nat) + "/"@
            + decimal(len as nat) + " "@ + (if offset > 0 {
            "↑"@
        } else {
            ""@
        }) + (if offset < maximum {
            "↓"@
        } else {
            ""@
        }),
{
    let mut s = String::new();
    push_decimal(&mut s, (offset + 1) as u64);
    push_str(&mut s, "–");
    push_decimal(&mut s, (offset + capacity) as u64);
    push_str(&mut s, "/");
    push_decimal(&mut s, len as u64);
    push_str(&mut s, " ");
    push_str(&mut s, if offset > 0 { "↑" } else { "" });
    push_str(&mut s, if offset < maximum { "↓" } else { "" });
    s
}

/// The click regions of the sections before `i`.
pub open spec fn compact_hits(app: App, area: Rect, i: int) -> Seq<Hit>
    decreases i,
{
    if i <= 0 {
        Seq::empty()
    } else {
        compact_hits(app, area, i - 1) + compact_section_hits(app, area, i - 1)
    }
}

/// What holds between sections while the system rows are laid out: the
/// rows are shared, the focus is kept, the sections before `i` have their
/// first detail and click regions, and `row` is the row of section `i`.
pub open spec fn step_ready(start: App, app: App, area: Rect, i: int, row: u16) -> bool {
    &&& area.valid()
    &&& area.height >= 4
    &&& start.wf()
    &&& forall|k: int| 0 <= k < 3 ==> #[trigger] details_len(start, k) < usize::MAX
    &&& app.system_focus == kept_focus(start)
    &&& forall|k: int| 0 <= k < 3 ==> #[trigger] compact_capacity(start, area, k) == app.system_rows[k]
    &&& forall|k: int| 0 <= k < 3 ==> #[trigger] app.system_rows[k] <= details_len(start, k)
    &&& forall|k: int| 0 <= k < 3 ==> !start.expanded[k] ==> #[trigger] app.system_rows[k] == 0
    &&& app.system_rows[0] + app.system_rows[1] + app.system_rows[2] <= area.height - 4
    &&& row == compact_row(start, area, i)
    &&& forall|k: int| 0 <= k < i ==> #[trigger] app.system_offsets[k] == compact_offset(start, area, k)
    &&& forall|k: int| i <= k < 3 ==> #[trigger] app.system_offsets[k] == start.system_offsets[k]
    &&& app.hits@ == start.hits@ + compact_hits(start, area, i)
    &&& app == (App {
        system_rows: app.system_rows,
        system_focus: app.system_focus,
        system_offsets: app.system_offsets,
        hits: app.hits,
        ..start
    })
    &&& app.wf()
}

#[verifier::spinoff_prover]
#[verifier::rlimit(50)]
fn plan_section(app: &mut App, area: Rect, i: usize, row: &mut u16, Ghost(start): Ghost<App>) -> (r: SectionLines)
    requires
        i < 3,
        step_ready(start, *old(app), area, i as int, *old(row)),
    ensures
        step_ready(start, *final(app), area, i + 1, *final(row)),
        lines_view(r) == compact_lines(start, area, i as int),
{
    proof {
        lemma_compact_row_bound(start, area, i as int);
        lemma_compact_row_bound(start, area, i + 1);
        lemma_compact_row_bound(start, area, 3);
    }
    let header = Rect::new(area.x, *row, area.width, 1);
    let capacity = app.system_rows[i];
    let len = app.system.sections[i].details.len();
    let maximum = if len > capacity { len - capacity } else { 0 };
    let offset = if app.expanded[i] {
        if app.system_offsets[i] < maximum { app.system_offsets[i] } else { maximum }
    } else {
        0
    };
    app.system_offsets[i] = offset;
    let position = if app.expanded[i] && maximum > 0 {
        Some(position_string(offset, capacity, len, maximum))
    } else {
        None
    };
    push_hit(&mut app.hits, header, Target::System(i));
    *row = *row + 1;
    let mut details: Vec<DetailLine> = Vec::new();
    if app.expanded[i] {
        if capacity > 0 {
            push_hit(
                &mut app.hits,
                Rect::new(area.x, *row, area.width, capacity as u16),
                Target::SystemDetails(i),
            );
        }
        let mut k: usize = 0;
        while k < capacity
            invariant
                0 <= k <= capacity,
                capacity <= len,
                offset + capacity <= len,
                capacity == compact_capacity(start, area, i as int),
                i < 3,
                start.expanded[i as int],
                offset == compact_offset(start, area, i as int),
                *row == compact_row(start, area, i as int) + 1 + k,
                compact_row(start, area, i as int) + 1 + capacity <= 65535,
                details@ == compact_details(start, area, i as int).take(k as int),
            decreases capacity - k,
        {
            let line = DetailLine { area: Rect::new(area.x, *row, area.width, 1), index: offset + k };
            let ghost previous = details@;
            details.push(line);
            assert(compact_details(start, area, i as int).take(k + 1) =~= previous.push(line));
            *row = *row + 1;
            k += 1;
        }
        assert(compact_details(start, area, i as int).take(k as int) =~= compact_details(start, area, i as int));
    } else {
        assert(details@ =~= compact_details(start, area, i as int));
    }
    assert(app.hits@ =~= start.hits@ + compact_hits(start, area, i + 1));
    SectionLines { header, position, details }
}

/// Lays out the system rows of the search view in `area`: shares the rows
/// among the expanded sections' details, keeps the focus on an expanded
/// section, keeps each section's first detail within range, and records
/// the click regions. Nothing happens when `area` is under four rows.
pub fn plan_system_compact(app: &mut App, area: Rect) -> (r: Option<SystemPlan>)
    requires
        area.valid(),
        old(app).wf(),
        old(app).system_rows == [0usize, 0usize, 0usize],
        forall|k: int| 0 <= k < 3 ==> #[trigger] details_len(*old(app), k) < usize::MAX,
    ensures
        area.height < 4 ==> (r is None) && *final(app) == *old(app),
        area.height >= 4 ==> (r is Some),
        r matches Some(plan) ==> plan.title == Rect::spec_new(area.x, area.y, area.width, 1),
        r matches Some(plan) ==> plan.scrollable == compact_scrollable(*old(app), area),
        r matches Some(plan) ==> plan.sections@.map_values(|l: SectionLines| lines_view(l)) == seq![
            compact_lines(*old(app), area, 0),
            compact_lines(*old(app), area, 1),
            compact_lines(*old(app), area, 2),
        ],
        r matches Some(plan) ==> rows_of(final(app).system_rows) == compact_rows(*old(app), area),
        r matches Some(plan) ==> final(app).system_focus == kept_focus(*old(app)),
        r matches Some(plan) ==> forall|i: int|
            0 <= i < 3 ==> #[trigger] final(app).system_offsets[i] == compact_offset(*old(app), area, i),
        r matches Some(plan) ==> final(app).hits@ == old(app).hits@ + compact_hits(*old(app), area, 3),
        r matches Some(plan) ==> *final(app) == (App {
            system_rows: final(app).system_rows,
            system_focus: final(app).system_focus,
            system_offsets: final(app).system_offsets,
            hits: final(app).hits,
            ..*old(app)
        }),
        final(app).wf(),
{
    if area.height < 4 {
        return None;
    }
    let ghost start = *app;
    allocate_compact_rows(app, area);
    assert(forall|k: int| 0 <= k < 3 ==> #[trigger] compact_capacity(start, area, k) == app.system_rows[k]);
    let keep = match app.system_focus {
        Some(i) => i < 3 && app.expanded[i],
        None => false,
    };
    if !keep {
        app.system_focus = if app.expanded[2] {
            Some(2)
        } else if app.expanded[1] {
            Some(1)
        } else if app.expanded[0] {
            Some(0)
        } else {
            None
        };
    }
    let scrollable = (app.expanded[0] && app.system.sections[0].details.len() > app.system_rows[0])
        || (app.expanded[1] && app.system.sections[1].details.len() > app.system_rows[1]) || (
    app.expanded[2] && app.system.sections[2].details.len() > app.system_rows[2]);
    proof {
        if compact_scrollable(start, area) {
            let w = choose|i: int|
                0 <= i < 3 && start.expanded[i] && details_len(start, i) > compact_capacity(start, area, i);
            assert(w == 0 || w == 1 || w == 2);
        }
        lemma_compact_row_bound(start, area, 3);
    }
    let mut row: u16 = area.y + 1;
    let mut sections: Vec<SectionLines> = Vec::new();
    let mut i: usize = 0;
    let ghost mid = *app;
    assert(sections@.map_values(|l: SectionLines| lines_view(l)) =~= Seq::new(
        0,
        |j: int| compact_lines(start, area, j),
    ));
    assert(app.hits@ =~= start.hits@ + compact_hits(start, area, 0));
    while i < 3
        invariant
            0 <= i <= 3,
            step_ready(start, *app, area, i as int, row),
            sections@.map_values(|l: SectionLines| lines_view(l)) == Seq::new(
                i as nat,
                |j: int| compact_lines(start, area, j),
            ),
        decreases 3 - i,
    {
        let lines = plan_section(app, area, i, &mut row, Ghost(start));
        let ghost before_sections = sections@.map_values(|l: SectionLines| lines_view(l));
        let ghost lv = lines_view(lines);
        sections.push(lines);
        assert(sections@.map_values(|l: SectionLines| lines_view(l)) =~= before_sections.push(lv));
        assert(sections@.map_values(|l: SectionLines| lines_view(l)) =~= Seq::new(
            (i + 1) as nat,
            |j: int| compact_lines(start, area, j),
        ));
        i += 1;
    }
    let plan = SystemPlan { title: Rect::new(area.x, area.y, area.width, 1), scrollable, sections };
    assert(plan.sections@.map_values(|l: SectionLines| lines_view(l)) =~= seq![
        compact_lines(start, area, 0),
        compact_lines(start, area, 1),
        compact_lines(start, area, 2),
    ]);
    Some(plan)
}

/// The rows that section `i` takes in the home document: its header, and
/// its details when expanded.
pub open spec fn document_rows(app: App, i: int) -> int {
    1 + if app.expanded[i] {
        details_len(app, i)
    } else {
        0
    }
}

/// The document row of the header of section `i`, when the system title
/// is at `top`.
pub open spec fn document_row(app: App, top: int, i: int) -> int
    decreases i,
{
    if i <= 0 {
        top + 1
    } else {
        document_row(app, top, i - 1) + document_rows(app, i - 1)
    }
}

/// The detail lines of section `i` that are wholly visible.
pub open spec fn document_details(app: App, viewport: Rect, scroll: u16, top: int, i: int) -> Seq<DetailLine>
    decreases details_len(app, i),
{
    visible_details(app, viewport, scroll, top, i, if app.expanded[i] { details_len(app, i) } else { 0 })
}

/// The visible detail lines of section `i` among its first `n` details.
pub open spec fn visible_details(app: App, viewport: Rect, scroll: u16, top: int, i: int, n: int) -> Seq<DetailLine>
    decreases n,
{
    if n <= 0 {
        Seq::empty()
    } else {
        let earlier = visible_details(app, viewport, scroll, top, i, n - 1);
        match document_area_spec(viewport, scroll, (document_row(app, top, i) + n) as u16, 1) {
            Some(a) => earlier.push(DetailLine { area: a, index: (n - 1) as usize }),
            None => earlier,
        }
    }
}

/// The click regions of section `i` in the home document.
pub open spec fn document_section_hits(app: App, viewport: Rect, scroll: u16, top: int, i: int) -> Seq<Hit> {
    let header = match document_area_spec(viewport, scroll, document_row(app, top, i) as u16, 1) {
        Some(a) => seq![Hit { area: a, target: Target::System(i as usize) }],
        None => Seq::empty(),
    };
    header + document_details(app, viewport, scroll, top, i).map_values(
        |d: DetailLine| Hit { area: d.area, target: Target::SystemDetails(i as usize) },
    )
}

/// The click regions of the sections before `i`.
pub open spec fn document_hits(app: App, viewport: Rect, scroll: u16, top: int, i: int) -> Seq<Hit>
    decreases i,
{
    if i <= 0 {
        Seq::empty()
    } else {
        document_hits(app, viewport, scroll, top, i - 1) + document_section_hits(app, viewport, scroll, top, i - 1)
    }
}

/// What one system section shows in the home document: its header when
/// visible, and its visible details.
pub struct DocumentSection {
    pub header: Option<Rect>,
    pub details: Vec<DetailLine>,
}

/// What the system rows show in the home document: the title when
/// visible, each section, and the document row after them.
pub struct DocumentPlan {
    pub title: Option<Rect>,
    pub sections: Vec<DocumentSection>,
    pub end: u16,
}

/// A section of the home document as plain values.
pub open spec fn document_view(d: DocumentSection) -> (Option<Rect>, Seq<DetailLine>) {
    (d.header, d.details@)
}

/// Section `i` of the home document, as plain values.
pub open spec fn document_section(app: App, viewport: Rect, scroll: u16, top: int, i: int) -> (Option<Rect>, Seq<DetailLine>) {
    (
        document_area_spec(viewport, scroll, document_row(app, top, i) as u16, 1),
        document_details(app, viewport, scroll, top, i),
    )
}

/// What holds between sections while the home document's system rows are
/// laid out.
pub open spec fn document_ready(
    start: App,
    app: App,
    viewport: Rect,
    scroll: u16,
    top: int,
    i: int,
    row: u16,
) -> bool {
    &&& viewport.valid()
    &&& document_row(start, top, 3) <= u16::MAX
    &&& app.system_focus == kept_focus(start)
    &&& row == document_row(start, top, i)
    &&& forall|k: int| 0 <= k < i ==> #[trigger] app.system_rows[k] == (if start.expanded[k] {
        details_len(start, k) as usize
    } else {
        0usize
    })
    &&& forall|k: int| i <= k < 3 ==> #[trigger] app.system_rows[k] == start.system_rows[k]
    &&& forall|k: int| 0 <= k < i ==> #[trigger] app.system_offsets[k] == 0
    &&& forall|k: int| i <= k < 3 ==> #[trigger] app.system_offsets[k] == start.system_offsets[k]
    &&& app.hits@ == start.hits@ + document_hits(start, viewport, scroll, top, i)
    &&& app == (App {
        system_rows: app.system_rows,
        system_focus: app.system_focus,
        system_offsets: app.system_offsets,
        hits: app.hits,
        ..start
    })
    &&& app.wf()
}

proof fn lemma_document_row_grows(app: App, top: int, i: int, j: int)
    requires
        0 <= i <= j,
    ensures
        document_row(app, top, i) + (j - i) <= document_row(app, top, j),
    decreases j,
{
    if j > i {
        lemma_document_row_grows(app, top, i, j - 1);
    }
}

#[verifier::spinoff_prover]
#[verifier::rlimit(50)]
fn plan_document_section(
    app: &mut App,
    viewport: Rect,
    scroll: u16,
    i: usize,
    row: &mut u16,
    Ghost(start): Ghost<App>,
    Ghost(top): Ghost<int>,
) -> (r: DocumentSection)
    requires
        i < 3,
        document_ready(start, *old(app), viewport, scroll, top, i as int, *old(row)),
    ensures
        document_ready(start, *final(app), viewport, scroll, top, i + 1, *final(row)),
        document_view(r) == document_section(start, viewport, scroll, top, i as int),
{
    proof {
        lemma_document_row_grows(start, top, i + 1, 3);
    }
    let len = app.system.sections[i].details.len();
    app.system_rows[i] = if app.expanded[i] { len } else { 0 };
    app.system_offsets[i] = 0;
    let header = document_area(viewport, scroll, *row, 1);
    match header {
        Some(a) => push_hit(&mut app.hits, a, Target::System(i)),
        None => {},
    }
    let ghost after_header = app.hits@;
    *row = *row + 1;
    let mut details: Vec<DetailLine> = Vec::new();
    let ghost before_loop = *app;
    if app.expanded[i] {
        let mut k: usize = 0;
        while k < len
            invariant
                0 <= k <= len,
                *app == (App { hits: app.hits, ..before_loop }),
                len == details_len(start, i as int),
                i < 3,
                start.expanded[i as int],
                viewport.valid(),
                *row == document_row(start, top, i as int) + 1 + k,
                document_row(start, top, i as int) + 1 + len <= u16::MAX,
                details@ == visible_details(start, viewport, scroll, top, i as int, k as int),
                app.hits@ == after_header + details@.map_values(
                    |d: DetailLine| Hit { area: d.area, target: Target::SystemDetails(i) },
                ),
            decreases len - k,
        {
            match document_area(viewport, scroll, *row, 1) {
                Some(a) => {
                    let line = DetailLine { area: a, index: k };
                    let ghost previous = details@;
                    details.push(line);
                    push_hit(&mut app.hits, a, Target::SystemDetails(i));
                    assert(details@.map_values(
                        |d: DetailLine| Hit { area: d.area, target: Target::SystemDetails(i) },
                    ) =~= previous.map_values(
                        |d: DetailLine| Hit { area: d.area, target: Target::SystemDetails(i) },
                    ).push(Hit { area: a, target: Target::SystemDetails(i) }));
                },
                None => {},
            }
            *row = *row + 1;
            k += 1;
        }
    } else {
        assert(details@ =~= document_details(start, viewport, scroll, top, i as int));
    }
    assert(app.hits@ =~= start.hits@ + document_hits(start, viewport, scroll, top, i + 1));
    DocumentSection { header, details }
}

/// Lays out the system rows of the home document, whose title is at
/// document row `top`, in `viewport` scrolled by `scroll`: expanded
/// sections show all their details, the focus stays on an expanded
/// section, and each visible header and detail gets its click region.
/// Gives the parts that are visible and the document row after the
/// system rows.
pub fn plan_system_document(app: &mut App, viewport: Rect, scroll: u16, top: u16) -> (r: DocumentPlan)
    requires
        viewport.valid(),
        old(app).wf(),
        document_row(*old(app), top as int, 3) <= u16::MAX,
    ensures
        r.title == document_area_spec(viewport, scroll, top, 1),
        r.end == document_row(*old(app), top as int, 3),
        r.sections@.map_values(|d: DocumentSection| document_view(d)) == seq![
            document_section(*old(app), viewport, scroll, top as int, 0),
            document_section(*old(app), viewport, scroll, top as int, 1),
            document_section(*old(app), viewport, scroll, top as int, 2),
        ],
        forall|k: int| 0 <= k < 3 ==> #[trigger] final(app).system_rows[k] == (if old(app).expanded[k] {
            details_len(*old(app), k) as usize
        } else {
            0usize
        }),
        final(app).system_offsets == [0usize, 0usize, 0usize],
        final(app).system_focus == kept_focus(*old(app)),
        final(app).hits@ == old(app).hits@ + document_hits(*old(app), viewport, scroll, top as int, 3),
        *final(app) == (App {
            system_rows: final(app).system_rows,
            system_focus: final(app).system_focus,
            system_offsets: final(app).system_offsets,
            hits: final(app).hits,
            ..*old(app)
        }),
        final(app).wf(),
{
    let ghost start = *app;
    let title = document_area(viewport, scroll, top, 1);
    let keep = match app.system_focus {
        Some(i) => i < 3 && app.expanded[i],
        None => false,
    };
    if !keep {
        app.system_focus = if app.expanded[2] {
            Some(2)
        } else if app.expanded[1] {
            Some(1)
        } else if app.expanded[0] {
            Some(0)
        } else {
            None
        };
    }
    proof {
        lemma_document_row_grows(start, top as int, 0, 3);
    }
    let mut row: u16 = top + 1;
    let mut sections: Vec<DocumentSection> = Vec::new();
    let mut i: usize = 0;
    assert(app.hits@ =~= start.hits@ + document_hits(start, viewport, scroll, top as int, 0));
    assert(sections@.map_values(|d: DocumentSection| document_view(d)) =~= Seq::new(
        0,
        |j: int| document_section(start, viewport, scroll, top as int, j),
    ));
    while i < 3
        invariant
            0 <= i <= 3,
            document_ready(start, *app, viewport, scroll, top as int, i as int, row),
            sections@.map_values(|d: DocumentSection| document_view(d)) == Seq::new(
                i as nat,
                |j: int| document_section(start, viewport, scroll, top as int, j),
            ),
        decreases 3 - i,
    {
        let section = plan_document_section(app, viewport, scroll, i, &mut row, Ghost(start), Ghost(top as int));
        let ghost before = sections@.map_values(|d: DocumentSection| document_view(d));
        let ghost dv = document_view(section);
        sections.push(section);
        assert(sections@.map_values(|d: DocumentSection| document_view(d)) =~= before.push(dv));
        assert(sections@.map_values(|d: DocumentSection| document_view(d)) =~= Seq::new(
            (i + 1) as nat,
            |j: int| document_section(start, viewport, scroll, top as int, j),
        ));
        i += 1;
    }
    assert(app.system_offsets =~= [0usize, 0usize, 0usize]);
    assert(sections@.map_values(|d: DocumentSection| document_view(d)) =~= seq![
        document_section(start, viewport, scroll, top as int, 0),
        document_section(start, viewport, scroll, top as int, 1),
        document_section(start, viewport, scroll, top as int, 2),
    ]);
    DocumentPlan { title, sections, end: row }
}

/// The area inside a bordered block (`Block::bordered().inner`): one cell
/// in from each side, as far as there is room.
pub open spec fn bordered_inner(area: Rect) -> Rect {
    Rect {
        x: min(min(area.x + 1, 65535), area.x + area.width) as u16,
        y: min(min(area.y + 1, 65535), area.y + area.height) as u16,
        width: sat_sub(area.width as int, 2) as u16,
        height: sat_sub(area.height as int, 2) as u16,
    }
}

/// The area inside a bordered block.
pub fn inner_area(area: Rect) -> (r: Rect)
    requires
        area.valid(),
    ensures
        r == bordered_inner(area),
{
    let x = if area.width > 0 { area.x + 1 } else { area.x };
    let y = if area.height > 0 { area.y + 1 } else { area.y };
    Rect { x, y, width: area.width.saturating_sub(2), height: area.height.saturating_sub(2) }
}

/// The window of actions on an application: at most 56 columns by 10
/// rows, centred.
pub open spec fn menu_area(screen: Rect) -> Rect {
    let width = min(sat_sub(screen.width as int, 4), 56);
    Rect::spec_new(
        centred_x(screen, width) as u16,
        (screen.y + sat_sub(screen.height as int, 10) / 2) as u16,
        width as u16,
        10,
    )
}

/// Where the parts of the actions window go: the window, its inside, the
/// icon, the name, the action button and the hint.
#[derive(Debug, Clone, Copy, PartialEq, Eq, Structural)]
pub struct MenuPlan {
    pub area: Rect,
    pub inner: Rect,
    pub icon: Rect,
    pub name: Rect,
    pub action: Rect,
    pub hint: Rect,
}

/// The parts of the actions window on `screen`.
pub open spec fn menu_plan_spec(screen: Rect) -> MenuPlan {
    let area = menu_area(screen);
    let inner = bordered_inner(area);
    MenuPlan {
        area,
        inner,
        icon: Rect::spec_new((inner.x + 2) as u16, (inner.y + 1) as u16, 7, 4),
        name: Rect::spec_new(
            (inner.x + 11) as u16,
            (inner.y + 1) as u16,
            sat_sub(inner.width as int, 13) as u16,
            2,
        ),
        action: Rect::spec_new(
            (inner.x + 2) as u16,
            (inner.y + 5) as u16,
            sat_sub(inner.width as int, 4) as u16,
            1,
        ),
        hint: Rect::spec_new(
            (inner.x + 1) as u16,
            (inner.y + 7) as u16,
            sat_sub(inner.width as int, 2) as u16,
            1,
        ),
    }
}

/// Lays out the actions window on `screen` and records its click regions:
/// the whole window closes it, the button runs the action.
pub fn plan_context_menu(app: &mut App, screen: Rect) -> (r: MenuPlan)
    requires
        screen.valid(),
        old(app).wf(),
        bordered_inner(menu_area(screen)).x + 11 <= 65535,
        bordered_inner(menu_area(screen)).y + 7 <= 65535,
    ensures
        r == menu_plan_spec(screen),
        *final(app) == (App { hits: final(app).hits, ..*old(app) }),
        final(app).hits@ == old(app).hits@.push(Hit { area: r.area, target: Target::ContextClose }).push(
            Hit { area: r.action, target: Target::ContextAction },
        ),
        final(app).wf(),
{
    let room = screen.width.saturating_sub(4);
    let width = if room < 56 { room } else { 56 };
    let area = Rect::new(
        screen.x + (screen.width - width) / 2,
        screen.y + screen.height.saturating_sub(10) / 2,
        width,
        10,
    );
    let inner = inner_area(area);
    let plan = MenuPlan {
        area,
        inner,
        icon: Rect::new(inner.x + 2, inner.y + 1, 7, 4),
        name: Rect::new(inner.x + 11, inner.y + 1, inner.width.saturating_sub(13), 2),
        action: Rect::new(inner.x + 2, inner.y + 5, inner.width.saturating_sub(4), 1),
        hint: Rect::new(inner.x + 1, inner.y + 7, inner.width.saturating_sub(2), 1),
    };
    push_hit(&mut app.hits, area, Target::ContextClose);
    push_hit(&mut app.hits, plan.action, Target::ContextAction);
    plan
}

/// The logo's box in `area`: as wide as configured, within the area,
/// centred.
pub open spec fn logo_area_spec(area: Rect, configured_width: u16) -> Rect {
    let width = min(configured_width as int, area.width as int);
    Rect::spec_new(centred_x(area, width) as u16, area.y, width as u16, area.height)
}

/// The logo's box in `area`.
pub fn logo_area(area: Rect, configured_width: u16) -> (r: Rect)
    requires
        area.valid(),
    ensures
        r == logo_area_spec(area, configured_width),
{
    let width = if configured_width < area.width { configured_width } else { area.width };
    Rect::new(area.x + (area.width - width) / 2, area.y, width, area.height)
}

/// Where a wordmark of `lines` rows goes in the logo's box: centred
/// vertically, within the box.
pub open spec fn wordmark_area_spec(inner: Rect, lines: u16) -> Rect {
    Rect::spec_new(
        inner.x,
        (inner.y + sat_sub(inner.height as int, lines as int) / 2) as u16,
        inner.width,
        min(lines as int, inner.height as int) as u16,
    )
}

/// Where the wordmark goes in the logo's box.
pub fn wordmark_area(inner: Rect, lines: u16) -> (r: Rect)
    requires
        inner.valid(),
    ensures
        r == wordmark_area_spec(inner, lines),
{
    Rect::new(
        inner.x,
        inner.y + inner.height.saturating_sub(lines) / 2,
        inner.width,
        if lines < inner.height { lines } else { inner.height },
    )
}

/// Where an image of `width` by `height` cells is shown in `area`:
/// centred, and cut to the area.
pub open spec fn image_area_spec(area: Rect, width: u16, height: u16) -> Rect {
    Rect::spec_new(
        (area.x + sat_sub(area.width as int, width as int) / 2) as u16,
        (area.y + sat_sub(area.height as int, height as int) / 2) as u16,
        min(width as int, area.width as int) as u16,
        min(height as int, area.height as int) as u16,
    )
}

/// Where an image of `width` by `height` cells is shown in `area`.
pub fn image_area(area: Rect, width: u16, height: u16) -> (r: Rect)
    requires
        area.valid(),
    ensures
        r == image_area_spec(area, width, height),
{
    Rect::new(
        area.x + area.width.saturating_sub(width) / 2,
        area.y + area.height.saturating_sub(height) / 2,
        if width < area.width { width } else { area.width },
        if height < area.height { height } else { area.height },
    )
}

} // verus!
