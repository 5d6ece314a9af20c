use lapi_launcher::layout::compact_logo_height;

#[test]
fn keeps_a_configured_logo_visible_in_compact_terminals() {
    assert_eq!(compact_logo_height(24, 7, 0), 7);
    assert_eq!(compact_logo_height(20, 7, 0), 4);
    assert_eq!(compact_logo_height(40, 12, 0), 12);
    assert_eq!(compact_logo_height(24, 7, 1), 1);
    assert_eq!(compact_logo_height(40, 7, 1), 7);
}

use freedesktop_desktop_entry::DesktopEntry;
use lapi_launcher::app::{App, Rect, Section, Target};
use lapi_launcher::config::Config;
use lapi_launcher::desktop::{Application, Catalog};
use lapi_launcher::history::History;
use lapi_launcher::i18n::{Language, Translator};
use lapi_launcher::layout::{
    begin_frame, document_area, help_area, home_content_height, inner_area, logo_area, main_area,
    plan_context_menu, plan_grid, plan_results, plan_system_compact, plan_system_document,
    search_heights, system_details_height, wordmark_area,
};
use lapi_launcher::system::{SystemInfo, SystemSection};

fn rows(n: usize) -> Vec<(String, String)> {
    (0..n).map(|i| (format!("k{i}"), format!("v{i}"))).collect()
}

fn layout_app(count: usize, details: [usize; 3]) -> App {
    let apps = (0..count)
        .map(|index| Application {
            id: format!("app{index}.desktop"),
            name: format!("Editor {index}"),
            search_text: format!("Editor {index}"),
            entry: DesktopEntry::from_appid(format!("app{index}")),
            on_desktop: true,
            file: None,
        })
        .collect();
    let system = SystemInfo {
        sections: [
            SystemSection { label: "OS".into(), summary: "Linux".into(), details: rows(details[0]) },
            SystemSection { label: "Desktop".into(), summary: "KDE".into(), details: rows(details[1]) },
            SystemSection { label: "PC".into(), summary: "host".into(), details: rows(details[2]) },
        ],
        os_icon: "distributor-logo".into(),
        desktop_icon: "kde".into(),
    };
    App::new(
        Config::default(),
        Catalog { apps, skipped: 0 },
        History::new(),
        system,
        Translator::new(Language::English, &Vec::new()),
    )
}

#[test]
fn grids_keep_the_selected_tile_on_screen() {
    let mut app = layout_app(40, [0, 0, 0]);
    app.selected[0] = 39;
    let area = Rect::new(2, 10, 100, 8);
    let plan = plan_grid(&mut app, Section::Desktop, area).unwrap();
    assert_eq!(app.columns[0], 5);
    assert_eq!(app.rows[0], 1);
    assert!(plan.tiles.iter().any(|tile| tile.position == 39));
    assert_eq!(plan.page, Some((36, 40, 40)));
    assert!(!plan.compact);
    for tile in &plan.tiles {
        assert!(tile.area.y >= area.y + 1 && tile.area.y + tile.area.height <= area.y + area.height);
    }
    assert!(app.hits.iter().any(|hit| hit.target == Target::Section(Section::Desktop)));
    assert!(plan_grid(&mut app, Section::Desktop, Rect::new(0, 0, 0, 5)).is_none());
}

#[test]
fn search_scroll_keeps_the_selected_result_visible_at_small_sizes() {
    let mut app = layout_app(40, [0, 0, 0]);
    app.filtered = (0..40).collect();
    app.selected[2] = 39;
    for height in [4u16, 9, 30] {
        begin_frame(&mut app);
        let rows = plan_results(&mut app, Rect::new(0, 0, 60, height));
        assert!(rows.iter().any(|row| row.position == 39));
        for hit in &app.hits {
            assert!(hit.area.y + hit.area.height <= height);
        }
    }
}

#[test]
fn compact_system_rows_share_the_space_in_turn() {
    let mut app = layout_app(1, [5, 1, 5]);
    app.expanded = [true, true, true];
    begin_frame(&mut app);
    let plan = plan_system_compact(&mut app, Rect::new(0, 0, 50, 9)).unwrap();
    assert_eq!(app.system_rows, [2, 1, 2]);
    assert!(plan.scrollable);
    assert_eq!(plan.sections[0].position.as_deref(), Some("1–2/5 ↓"));
    assert_eq!(plan.sections[1].position, None);
    assert_eq!(plan.sections[2].header.y, 6);
    assert_eq!(app.system_focus, Some(2));
    assert!(plan_system_compact(&mut layout_app(1, [0, 0, 0]), Rect::new(0, 0, 10, 3)).is_none());
}

#[test]
fn home_document_rows_follow_the_expanded_sections() {
    let mut app = layout_app(1, [2, 0, 3]);
    app.expanded = [true, false, true];
    assert_eq!(system_details_height(&app), 5);
    assert_eq!(home_content_height(&app), 2 + 7 + 4 + 5 + 1 + 1 + 4 + 8 + 1 + 8);
    begin_frame(&mut app);
    let plan = plan_system_document(&mut app, Rect::new(0, 0, 80, 30), 0, 9);
    assert_eq!(plan.end, 9 + 1 + 3 + 5);
    assert_eq!(app.system_rows, [2, 0, 3]);
    assert_eq!(plan.title, Some(Rect::new(0, 9, 80, 1)));
    assert_eq!(plan.sections[2].details.len(), 3);
    assert_eq!(document_area(Rect::new(0, 0, 80, 10), 5, 4, 1), None);
    assert_eq!(document_area(Rect::new(0, 2, 80, 10), 5, 6, 1), Some(Rect::new(0, 3, 80, 1)));
    assert_eq!(document_area(Rect::new(0, 0, 80, 10), 0, 9, 2), None);
}

#[test]
fn windows_are_centred_on_the_screen() {
    let screen = Rect::new(0, 0, 120, 40);
    assert_eq!(main_area(screen), Rect::new(8, 0, 104, 40));
    assert_eq!(help_area(screen), Rect::new(25, 11, 70, 17));
    assert_eq!(inner_area(Rect::new(1, 1, 10, 5)), Rect::new(2, 2, 8, 3));
    assert_eq!(logo_area(Rect::new(0, 0, 100, 7), 22), Rect::new(39, 0, 22, 7));
    assert_eq!(wordmark_area(Rect::new(0, 0, 22, 7), 3), Rect::new(0, 2, 22, 3));
    assert_eq!(search_heights(24, 7, 0), (7, 3));
    let mut app = layout_app(1, [0, 0, 0]);
    app.context_menu = Some(0);
    let plan = plan_context_menu(&mut app, screen);
    assert_eq!(plan.area, Rect::new(32, 15, 56, 10));
    assert_eq!(plan.action, Rect::new(35, 21, 50, 1));
    assert_eq!(app.hits.len(), 2);
}

#[test]
fn images_are_centred_and_cut_to_their_area() {
    assert_eq!(lapi_launcher::layout::image_area(Rect::new(10, 5, 12, 5), 6, 3), Rect::new(13, 6, 6, 3));
    assert_eq!(lapi_launcher::layout::image_area(Rect::new(10, 5, 4, 2), 6, 3), Rect::new(10, 5, 4, 2));
}

use lapi_launcher::app::{Event, KeyCode, KeyEvent};
use lapi_launcher::layout::{GRID_HEIGHT, GROUP_GAP, SEARCH_HEIGHT};

fn press(code: KeyCode) -> Event {
    Event::Key(KeyEvent { code, control: false, alt: false, super_key: false, release: false })
}

fn inside(area: Rect, screen: Rect) -> bool {
    area.x >= screen.x
        && area.y >= screen.y
        && area.x + area.width <= screen.x + screen.width
        && area.y + area.height <= screen.y + screen.height
}

/// The home view laid out as the program draws it, returning the areas of
/// the search box and both grids.
fn home_layout(app: &mut App, screen: Rect) -> Option<(Rect, Option<Rect>, Option<Rect>)> {
    begin_frame(app);
    if lapi_launcher::layout::terminal_too_small(screen) {
        return None;
    }
    let main = main_area(screen);
    let viewport = Rect::new(main.x, main.y, main.width, main.height.saturating_sub(2));
    let height = home_content_height(app);
    app.set_content_view(height, viewport.height);
    let scroll = app.content_scroll;
    let mut y = 2 + app.config.logo.height;
    let plan = plan_system_document(app, viewport, scroll, y);
    y = plan.end + 1 + GROUP_GAP;
    let search = document_area(viewport, scroll, y, SEARCH_HEIGHT).unwrap_or(Rect::new(0, 0, 0, 0));
    y += SEARCH_HEIGHT;
    let desktop = document_area(viewport, scroll, y, GRID_HEIGHT);
    if let Some(area) = desktop {
        plan_grid(app, Section::Desktop, area);
    }
    y += GRID_HEIGHT + GROUP_GAP;
    let recent = document_area(viewport, scroll, y, GRID_HEIGHT);
    if let Some(area) = recent {
        plan_grid(app, Section::Recent, area);
    }
    Some((search, desktop, recent))
}

#[test]
fn search_replaces_groups_with_alias_only_vertical_results() {
    let mut app = layout_app(2, [0, 0, 0]);
    app.apps[0].name = "Editor personal".into();
    app.apps[1].name = "Editor global".into();
    app.apps[0].search_text = "Editor personal".into();
    app.apps[1].search_text = "Editor global".into();
    app.apps[1].on_desktop = false;
    app.handle(Event::Paste("Editor".into()), 0);
    begin_frame(&mut app);
    let rows = plan_results(&mut app, Rect::new(2, 20, 96, 12));
    assert!(!app.hits.iter().any(|hit| matches!(hit.target, Target::Section(_))));
    assert_eq!(rows.len(), 2);
    assert_eq!(rows[0].area.x, rows[1].area.x);
    assert!(rows[1].area.y > rows[0].area.y);
    app.handle(press(KeyCode::Tab), 0);
    assert_eq!(app.section, Section::Results);
    assert_eq!(app.selected[Section::Results.index()], 1);
    app.handle(press(KeyCode::Esc), 0);
    assert_eq!(app.section, Section::Desktop);
    assert_eq!(app.desktop, [0]);
}

#[test]
fn resizing_and_expanding_sections_keeps_controls_inside_the_terminal() {
    let mut app = layout_app(80, [4, 4, 12]);
    for (width, height) in [(0u16, 0u16), (12, 8), (40, 20), (80, 24), (100, 40), (140, 55)] {
        for expanded in [false, true] {
            app.expanded = [expanded; 3];
            let screen = Rect::new(0, 0, width, height);
            if home_layout(&mut app, screen).is_some() {
                for hit in &app.hits {
                    assert!(inside(hit.area, screen), "{width}x{height}");
                }
                app.handle(press(KeyCode::PageDown), 0);
                home_layout(&mut app, screen);
                assert!(app.content_scroll <= app.content_height);
                for hit in &app.hits {
                    assert!(inside(hit.area, screen), "{width}x{height}");
                }
            } else {
                assert!(app.hits.is_empty());
            }
        }
    }
}

#[test]
fn system_expansion_pushes_groups_down_and_keeps_them_reachable() {
    let mut app = layout_app(6, [3, 4, 12]);
    app.recent = app.desktop.clone();
    let screen = Rect::new(0, 0, 100, 40);
    let (search, desktop, recent) = home_layout(&mut app, screen).unwrap();
    let (desktop, recent) = (desktop.unwrap(), recent.unwrap());
    assert_eq!(desktop.height, 8);
    assert_eq!(recent.height, 8);
    assert_eq!(recent.y - desktop.y, 9);
    assert_eq!(app.rows[Section::Desktop.index()], 1);
    assert_eq!(app.rows[Section::Recent.index()], 1);

    app.handle(press(KeyCode::F(4)), 0);
    let (expanded_search, _, _) = home_layout(&mut app, screen).unwrap();
    assert!(expanded_search.y > search.y);
    assert!(app.content_height > app.content_viewport_height);
    app.handle(press(KeyCode::PageDown), 0);
    app.handle(press(KeyCode::PageDown), 0);
    let (_, desktop, recent) = home_layout(&mut app, screen).unwrap();
    let (desktop, recent) = (desktop.unwrap(), recent.unwrap());
    assert_eq!(recent.y - desktop.y, 9);
    assert_eq!(app.rows[Section::Desktop.index()], 1);
    assert_eq!(app.rows[Section::Recent.index()], 1);
    for hit in &app.hits {
        assert!(inside(hit.area, screen));
    }
}

#[test]
fn logo_has_no_outer_frame() {
    let app = layout_app(0, [0, 0, 0]);
    let logo = logo_area(Rect::new(3, 1, 14, 7), app.config.logo.width);
    assert_eq!(logo, Rect::new(3, 1, 14, 7));
    let mark = wordmark_area(logo, 3);
    assert_eq!(mark, Rect::new(3, 3, 14, 3));
    assert!(mark.y > logo.y && mark.y + mark.height < logo.y + logo.height);
}
