use rmdev::command::clear::ScanRow;
use rmdev::scan_category::ScanCate;
use rmdev::ui::router::{EventType, Paint, Route, RouteType, Router, Span};
use rmdev::ui::{
    boot_code, command_for, constraint_len_calculator, exit_code, palette, widen, App, Command,
    Hue, Key, TableColors, Tone,
};

fn row(project: &str, path: &str, size: u64) -> ScanRow {
    ScanRow { path: path.to_string(), project: project.to_string(), cate: ScanCate::Npm, size }
}

fn tabs() -> Vec<Route> {
    vec![
        Route::new(RouteType::Push, "one", "One"),
        Route::new(RouteType::Pop, "two", "Two"),
        Route::new(RouteType::Quit, "three", "Three"),
    ]
}

#[test]
fn keys_and_commands() {
    assert_eq!(command_for(Key::Char('q'), true), Command::Quit);
    assert_eq!(command_for(Key::Esc, true), Command::Quit);
    assert_eq!(command_for(Key::Char('y'), true), Command::Confirm);
    assert_eq!(command_for(Key::Enter, true), Command::Confirm);
    assert_eq!(command_for(Key::Char('j'), true), Command::Next);
    assert_eq!(command_for(Key::Down, true), Command::Next);
    assert_eq!(command_for(Key::Char('k'), true), Command::Previous);
    assert_eq!(command_for(Key::Up, true), Command::Previous);
    assert_eq!(command_for(Key::Char('l'), true), Command::NextColor);
    assert_eq!(command_for(Key::Right, true), Command::NextColor);
    assert_eq!(command_for(Key::Char('h'), true), Command::PreviousColor);
    assert_eq!(command_for(Key::Left, true), Command::PreviousColor);
    assert_eq!(command_for(Key::Char('x'), true), Command::Nothing);
    assert_eq!(command_for(Key::Other, true), Command::Nothing);
}

#[test]
fn keys_count_only_when_pressed() {
    assert_eq!(command_for(Key::Char('q'), false), Command::Nothing);
    assert_eq!(command_for(Key::Enter, false), Command::Nothing);
}

#[test]
fn exit_codes() {
    assert_eq!(exit_code(Command::Quit), Some(1));
    assert_eq!(exit_code(Command::Confirm), Some(0));
    assert_eq!(exit_code(Command::Next), None);
    assert_eq!(exit_code(Command::Nothing), None);
    assert_eq!(boot_code(Some(0)), 0);
    assert_eq!(boot_code(Some(1)), 1);
    assert_eq!(boot_code(None), 2);
}

#[test]
fn palettes_in_order() {
    assert_eq!(palette(0), Hue::Red);
    assert_eq!(palette(1), Hue::Blue);
    assert_eq!(palette(2), Hue::Emerald);
    assert_eq!(palette(3), Hue::Indigo);
}

#[test]
fn colours_of_a_palette() {
    let colors = TableColors::new(Hue::Blue);
    assert_eq!(colors.buffer_bg, Tone { hue: Hue::Slate, level: 950 });
    assert_eq!(colors.header_bg, Tone { hue: Hue::Blue, level: 900 });
    assert_eq!(colors.header_fg, Tone { hue: Hue::Slate, level: 200 });
    assert_eq!(colors.row_fg, Tone { hue: Hue::Slate, level: 200 });
    assert_eq!(colors.selected_style_fg, Tone { hue: Hue::Blue, level: 400 });
    assert_eq!(colors.normal_row_color, Tone { hue: Hue::Slate, level: 950 });
    assert_eq!(colors.alt_row_color, Tone { hue: Hue::Slate, level: 900 });
    assert_eq!(colors.footer_border_color, Tone { hue: Hue::Blue, level: 400 });
    assert_eq!(colors.row_bg(0), colors.normal_row_color);
    assert_eq!(colors.row_bg(1), colors.alt_row_color);
    assert_eq!(colors.row_bg(6), colors.normal_row_color);
}

#[test]
fn table_opens_on_the_first_row() {
    let app = App::new(&vec![row("a", "/a", 0)]);
    assert_eq!(app.selected_row(), Some(0));
    assert_eq!(app.scroll(), (0, 0));
    assert_eq!(app.table_colors(), TableColors::new(Hue::Red));
}

#[test]
fn selection_steps_down_and_wraps() {
    let mut app = App::new(&vec![]);
    app.next(3);
    assert_eq!(app.selected_row(), Some(1));
    assert_eq!(app.scroll(), (8, 4));
    app.next(3);
    assert_eq!(app.selected_row(), Some(2));
    assert_eq!(app.scroll(), (8, 8));
    app.next(3);
    assert_eq!(app.selected_row(), Some(0));
    assert_eq!(app.scroll(), (8, 0));
}

#[test]
fn selection_steps_up_and_wraps() {
    let mut app = App::new(&vec![]);
    app.previous(3);
    assert_eq!(app.selected_row(), Some(2));
    assert_eq!(app.scroll(), (8, 8));
    app.previous(3);
    assert_eq!(app.selected_row(), Some(1));
    app.previous(1);
    assert_eq!(app.selected_row(), Some(0));
    assert_eq!(app.scroll(), (0, 0));
}

#[test]
fn selection_among_one_row_stays() {
    let mut app = App::new(&vec![]);
    app.next(1);
    assert_eq!(app.selected_row(), Some(0));
    app.previous(1);
    assert_eq!(app.selected_row(), Some(0));
}

#[test]
fn palette_steps_around() {
    let mut app = App::new(&vec![]);
    app.previous_color();
    app.set_colors();
    assert_eq!(app.table_colors(), TableColors::new(Hue::Indigo));
    app.next_color();
    app.set_colors();
    assert_eq!(app.table_colors(), TableColors::new(Hue::Red));
    app.next_color();
    app.next_color();
    app.set_colors();
    assert_eq!(app.table_colors(), TableColors::new(Hue::Emerald));
}

#[test]
fn palette_changes_only_when_set() {
    let mut app = App::new(&vec![]);
    app.next_color();
    assert_eq!(app.table_colors(), TableColors::new(Hue::Red));
}

#[test]
fn widths_of_the_headings() {
    assert_eq!(constraint_len_calculator(&vec![]), vec![7, 4, 4, 4]);
}

#[test]
fn widths_of_the_widest_cells() {
    let rows = vec![row("a", "/a", 0), row("longer-name", "/r/longer-name", 1610612736)];
    // name, category, "1.50GB", the path between quotes
    assert_eq!(constraint_len_calculator(&rows), vec![11, 4, 6, 16]);
}

#[test]
fn widths_count_columns_not_characters() {
    // each of the three characters takes two columns
    let rows = vec![row("日本語", "/p", 0)];
    assert_eq!(constraint_len_calculator(&rows), vec![7, 4, 6, 4]);
    let wide = vec![row("日本語日本語", "/p", 0)];
    assert_eq!(constraint_len_calculator(&wide)[0], 12);
}

#[test]
fn route_colour_by_kind() {
    let push = Route::new(RouteType::Push, "n", "L");
    assert_eq!(push.span.fg, Paint::Blue);
    assert_eq!(push.span.content, "L");
    assert_eq!(push.name, "n");
    assert_eq!(push.label, "L");
    assert_eq!(Route::new(RouteType::Pop, "n", "L").span.fg, Paint::Red);
    assert_eq!(Route::new(RouteType::Quit, "n", "L").span.fg, Paint::Red);
}

#[test]
fn route_with_span_keeps_the_label() {
    let route = Route::new(RouteType::Push, "n", "Label")
        .with_span(Span { content: "other".to_string(), fg: Paint::Plain });
    assert_eq!(route.span.content, "Label");
    assert_eq!(route.span.fg, Paint::Plain);
    assert_eq!(route.rtype, RouteType::Push);
}

#[test]
fn router_moves_around_the_ends() {
    let mut router = Router::new(tabs());
    assert_eq!(router.current_tab().name, "one");
    assert!(matches!(router.event(Key::Up), EventType::Inner));
    assert_eq!(router.active_tab, 2);
    assert!(matches!(router.event(Key::Down), EventType::Inner));
    assert_eq!(router.active_tab, 0);
    assert!(matches!(router.event(Key::Down), EventType::Inner));
    assert_eq!(router.active_tab, 1);
    assert!(matches!(router.event(Key::Other), EventType::Inner));
    assert_eq!(router.active_tab, 1);
}

#[test]
fn router_quits_on_q() {
    let mut router = Router::new(tabs());
    assert!(matches!(router.event(Key::Char('q')), EventType::Quit));
    assert!(matches!(router.event(Key::Char('x')), EventType::Inner));
}

#[test]
fn router_click_names_the_path() {
    let mut router = Router::new(tabs());
    assert_eq!(router.current_path(), "");
    match router.event(Key::Enter) {
        EventType::Click(path, rtype, key) => {
            assert_eq!(path, "/one");
            assert_eq!(rtype, RouteType::Push);
            assert_eq!(key, Key::Enter);
        }
        _ => panic!("no click"),
    }
    router.event(Key::Down);
    router.push(vec![Route::new(RouteType::Pop, "inner", "Inner")], 0);
    assert_eq!(router.current_path(), "/two");
    match router.event(Key::Left) {
        EventType::Click(path, rtype, key) => {
            assert_eq!(path, "/two/inner");
            assert_eq!(rtype, RouteType::Pop);
            assert_eq!(key, Key::Left);
        }
        _ => panic!("no click"),
    }
    router.push(vec![Route::new(RouteType::Quit, "last", "Last")], 0);
    assert_eq!(router.current_path(), "/two/inner");
    assert!(matches!(router.event(Key::Right), EventType::Click(p, _, _) if p == "/two/inner/last"));
}

#[test]
fn router_pop_goes_back() {
    let mut router = Router::new(tabs());
    router.event(Key::Down);
    router.push(vec![Route::new(RouteType::Pop, "inner", "Inner")], 0);
    assert_eq!(router.active_tabs.len(), 1);
    router.pop();
    assert_eq!(router.active_tabs.len(), 3);
    assert_eq!(router.active_tab, 1);
    assert_eq!(router.current_path(), "");
    router.pop();
    assert_eq!(router.active_tabs.len(), 3);
    assert_eq!(router.active_tab, 1);
}

#[test]
fn widen_keeps_the_wider() {
    let mut widths = vec![7, 4, 4, 4];
    widen(&mut widths, &vec![3, 4, 6, 0]);
    assert_eq!(widths, vec![7, 4, 6, 4]);
    widen(&mut widths, &vec![9, 9, 9, 9]);
    assert_eq!(widths, vec![9, 9, 9, 9]);
}

#[test]
fn table_remembers_the_widths_it_opened_with() {
    let app = App::new(&vec![row("longer-name", "/r/longer-name", 0)]);
    assert_eq!(app.widths(), &vec![11, 4, 6, 16]);
}
