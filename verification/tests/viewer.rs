use lv::display::{detail_line_style, follow_label, picker_hint, picker_name, LineStyle};
use lv::logfile::LogFile;
use lv::viewer::{App, Focus, Key, KeyPress, Mods};

const LARAVEL: &str = "[2024-03-12 10:00:00] local.ERROR: Database down\n\
                       [2024-03-12 10:00:01] local.INFO: user login\n\
                       [2024-03-12 10:00:02] local.WARNING: slow Query\n";

fn file(name: &str, content: &str) -> LogFile {
    LogFile::from_content(name.to_string(), "laravel.log", content)
}

fn key(k: Key) -> KeyPress {
    KeyPress { key: k, mods: Mods::Plain }
}

fn ch(c: char) -> KeyPress {
    key(Key::Char(c))
}

#[test]
fn new_selects_last_entry() {
    let app = App::new(vec![file("a", LARAVEL)]);
    assert_eq!(app.filtered, vec![0, 1, 2]);
    assert_eq!(app.selected, Some(2));
    assert!(!app.sidebar_open);
    assert_eq!(app.focus, Focus::List);
    assert_eq!(app.selected_entry().unwrap().message, "slow Query");
    assert_eq!(app.current_file().display_name, "a");
}

#[test]
fn new_with_several_files_opens_picker() {
    let app = App::new(vec![file("a", LARAVEL), file("b", "")]);
    assert!(app.sidebar_open);
    assert_eq!(app.sidebar_selected, Some(0));
}

#[test]
fn moving_stays_in_bounds() {
    let mut app = App::new(vec![file("a", LARAVEL)]);
    app.move_down();
    assert_eq!(app.selected, Some(2));
    app.move_up();
    app.move_up();
    app.move_up();
    assert_eq!(app.selected, Some(0));
    app.move_down();
    assert_eq!(app.selected, Some(1));
    app.scroll_to_top();
    assert_eq!(app.selected, Some(0));
    app.scroll_to_bottom();
    assert_eq!(app.selected, Some(2));
}

#[test]
fn detail_scroll_saturates() {
    let mut app = App::new(vec![file("a", LARAVEL)]);
    app.detail_up();
    assert_eq!(app.detail_scroll, 0);
    app.detail_down();
    app.detail_down();
    assert_eq!(app.detail_scroll, 8);
    app.detail_scroll = u16::MAX - 1;
    app.detail_down();
    assert_eq!(app.detail_scroll, u16::MAX);
    app.move_up();
    assert_eq!(app.detail_scroll, 0);
}

#[test]
fn typing_filters_case_insensitively() {
    let mut app = App::new(vec![file("a", LARAVEL)]);
    for c in "QUERY".chars() {
        assert!(!app.handle_key(KeyPress { key: Key::Char(c), mods: Mods::Shift }));
    }
    assert_eq!(app.search, "QUERY");
    assert_eq!(app.filtered, vec![2]);
    assert_eq!(app.selected, Some(0));
    app.handle_key(key(Key::Backspace));
    assert_eq!(app.search, "QUER");
    app.handle_key(KeyPress { key: Key::Char('u'), mods: Mods::Control });
    assert_eq!(app.search, "");
    assert_eq!(app.filtered, vec![0, 1, 2]);
}

#[test]
fn filter_matches_timestamp_and_detail() {
    let content = "[2024-03-12 10:00:00] local.ERROR: a\nTrace LINE\n[2024-03-13 10:00:00] local.ERROR: b\n";
    let mut app = App::new(vec![file("a", content)]);
    app.search = "03-13".to_string();
    app.apply_filter();
    assert_eq!(app.filtered, vec![1]);
    app.search = "trace line".to_string();
    app.apply_filter();
    assert_eq!(app.filtered, vec![0]);
    app.search = "nothing".to_string();
    app.apply_filter();
    assert!(app.filtered.is_empty());
    assert_eq!(app.selected, Some(0));
    assert!(app.selected_entry().is_none());
    app.selected = Some(3);
    app.apply_filter();
    assert_eq!(app.selected, None);
}

#[test]
fn empty_filter_keeps_row_zero() {
    let mut app = App::new(vec![file("a", LARAVEL)]);
    app.scroll_to_top();
    app.search = "zzz".to_string();
    app.apply_filter();
    assert_eq!(app.selected, Some(0));
    assert!(app.selected_entry().is_none());
    app.move_down();
    assert_eq!(app.selected, Some(0));
}

#[test]
fn quit_keys() {
    let mut app = App::new(vec![file("a", LARAVEL)]);
    assert!(app.handle_key(ch('q')));
    assert!(app.handle_key(KeyPress { key: Key::Char('c'), mods: Mods::Control }));
    assert!(app.handle_key(key(Key::Esc)));
    app.handle_key(ch('x'));
    assert!(!app.handle_key(key(Key::Esc)));
    assert_eq!(app.search, "");
    assert!(app.handle_key(key(Key::Esc)));
}

#[test]
fn navigation_keys() {
    let mut app = App::new(vec![file("a", LARAVEL)]);
    app.handle_key(ch('g'));
    assert_eq!(app.selected, Some(0));
    app.handle_key(ch('j'));
    assert_eq!(app.selected, Some(1));
    app.handle_key(key(Key::Up));
    assert_eq!(app.selected, Some(0));
    app.handle_key(key(Key::End));
    assert_eq!(app.selected, Some(2));
    app.handle_key(key(Key::Home));
    assert_eq!(app.selected, Some(0));
    app.handle_key(KeyPress { key: Key::Char('G'), mods: Mods::Shift });
    assert_eq!(app.selected, Some(2));
    app.handle_key(KeyPress { key: Key::Char('J'), mods: Mods::Shift });
    assert_eq!(app.detail_scroll, 4);
    app.handle_key(KeyPress { key: Key::Char('K'), mods: Mods::Shift });
    assert_eq!(app.detail_scroll, 0);
    app.handle_key(ch('f'));
    assert!(app.follow);
    app.handle_key(ch('f'));
    assert!(!app.follow);
    assert_eq!(app.search, "");
}

#[test]
fn sidebar_keys() {
    let mut app = App::new(vec![file("a", LARAVEL), file("b", "[2024-03-12 10:00:00] x.INFO: only\n")]);
    assert!(app.sidebar_open);
    app.handle_key(key(Key::Tab));
    assert_eq!(app.focus, Focus::Sidebar);
    assert!(!app.handle_key(ch('q')));
    app.handle_key(ch('j'));
    assert_eq!(app.sidebar_selected, Some(1));
    app.handle_key(ch('j'));
    assert_eq!(app.sidebar_selected, Some(1));
    app.handle_key(key(Key::Enter));
    assert_eq!(app.file_idx, 1);
    assert_eq!(app.focus, Focus::List);
    assert_eq!(app.filtered, vec![0]);
    assert_eq!(app.selected, Some(0));
    app.handle_key(ch('p'));
    assert_eq!(app.focus, Focus::Sidebar);
    assert_eq!(app.sidebar_selected, Some(1));
    app.handle_key(ch('k'));
    assert_eq!(app.sidebar_selected, Some(0));
    app.handle_key(ch('p'));
    assert!(!app.sidebar_open);
    assert_eq!(app.focus, Focus::List);
    app.handle_key(ch('p'));
    assert!(app.sidebar_open);
    assert_eq!(app.focus, Focus::Sidebar);
    app.handle_key(key(Key::Esc));
    assert!(!app.sidebar_open);
    app.handle_key(key(Key::Tab));
    assert_eq!(app.focus, Focus::List);
}

#[test]
fn switching_clears_search() {
    let mut app = App::new(vec![file("a", LARAVEL), file("b", LARAVEL)]);
    app.search = "login".to_string();
    app.apply_filter();
    assert_eq!(app.filtered, vec![1]);
    app.switch_to_file(1);
    assert_eq!(app.search, "");
    assert_eq!(app.filtered, vec![0, 1, 2]);
    assert_eq!(app.sidebar_selected, Some(1));
    app.switch_to_file(5);
    assert_eq!(app.file_idx, 1);
}

#[test]
fn tick_reloads_and_follows() {
    let mut app = App::new(vec![file("a", LARAVEL)]);
    app.scroll_to_top();
    let more = format!("{}[2024-03-12 10:00:03] local.INFO: new\n", LARAVEL);
    app.tick(Some(more.as_str()));
    assert_eq!(app.filtered.len(), 4);
    assert_eq!(app.selected, Some(0));
    app.toggle_follow();
    assert_eq!(app.selected, Some(3));
    let more2 = format!("{}[2024-03-12 10:00:04] local.INFO: newer\n", more);
    app.tick(Some(more2.as_str()));
    assert_eq!(app.selected, Some(4));
    app.tick(None);
    assert_eq!(app.selected, Some(4));
    app.toggle_follow();
    app.tick(Some("[2024-03-12 10:00:00] local.ERROR: only\n"));
    assert_eq!(app.selected, Some(0));
}

#[test]
fn display_rules() {
    assert_eq!(detail_line_style("  #0 /app/a.php"), LineStyle::Frame);
    assert_eq!(detail_line_style("[stacktrace]"), LineStyle::Marker);
    assert_eq!(detail_line_style("[previous exception] [object]"), LineStyle::Marker);
    assert_eq!(detail_line_style("SQL:"), LineStyle::SqlHeading);
    assert_eq!(detail_line_style("RuntimeException thrown"), LineStyle::Failure);
    assert_eq!(detail_line_style("TypeError"), LineStyle::Failure);
    assert_eq!(detail_line_style("plain"), LineStyle::Plain);
    assert_eq!(picker_name("storage/logs/laravel.log"), "logs/laravel.log");
    assert_eq!(picker_name("logs/a.log"), "logs/a.log");
    assert_eq!(picker_name("a.log"), "a.log");
    assert_eq!(follow_label(true), "f off  ");
    assert_eq!(follow_label(false), "f follow  ");
    assert_eq!(picker_hint(2, true), "p/tab sidebar  ");
    assert_eq!(picker_hint(2, false), "p files  ");
    assert_eq!(picker_hint(1, true), "");
}

#[test]
fn empty_search_lists_every_entry() {
    let mut app = App::new(vec![file("a", LARAVEL)]);
    app.handle_key(ch('z'));
    assert!(app.filtered.is_empty());
    app.handle_key(KeyPress { key: Key::Char('u'), mods: Mods::Control });
    assert_eq!(app.search, "");
    assert_eq!(app.filtered, vec![0, 1, 2]);
}

#[test]
fn narrower_search_keeps_fewer_entries() {
    let mut app = App::new(vec![file("a", LARAVEL)]);
    app.search = "o".to_string();
    app.apply_filter();
    let wide = app.filtered.clone();
    app.search = "own".to_string();
    app.apply_filter();
    let narrow = app.filtered.clone();
    assert_eq!(wide, vec![0, 1, 2]);
    assert_eq!(narrow, vec![0]);
    assert!(narrow.iter().all(|i| wide.contains(i)));
}

#[test]
fn picker_is_shown_when_open_with_several_files() {
    let mut app = App::new(vec![file("a", LARAVEL), file("b", "")]);
    assert!(app.shows_picker());
    app.handle_key(key(Key::Esc));
    assert!(!app.shows_picker());
    let mut one = App::new(vec![file("a", LARAVEL)]);
    one.sidebar_open = true;
    assert!(!one.shows_picker());
}
