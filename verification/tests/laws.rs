use lv::logfile::LogFile;
use lv::level::Level;
use lv::parse::{parse_laravel, parse_spols_database, parse_spols_runtime};
use lv::viewer::{App, Focus, Key, KeyPress, Mods};

const LOG: &str = "[2024-03-12 10:00:00] local.ERROR: one\n\
                   [2024-03-12 10:00:01] local.INFO: two\n\
                   [2024-03-12 10:00:02] local.INFO: three\n\
                   [2024-03-12 10:00:03] local.INFO: four\n";

fn app(n: usize) -> App {
    let files = (0..n)
        .map(|i| LogFile::from_content(format!("f{}", i), "laravel.log", LOG))
        .collect();
    App::new(files)
}

#[test]
fn down_then_up_returns_to_row() {
    let mut a = app(1);
    a.scroll_to_top();
    a.move_down();
    a.move_down();
    assert_eq!(a.selected, Some(2));
    a.move_down();
    a.move_up();
    assert_eq!(a.selected, Some(2));
}

#[test]
fn follow_twice_is_unchanged() {
    let mut a = app(1);
    let before = a.follow;
    a.toggle_follow();
    a.toggle_follow();
    assert_eq!(a.follow, before);
}

#[test]
fn focus_twice_is_unchanged() {
    let mut a = app(2);
    assert!(a.sidebar_open);
    let before = a.focus;
    a.toggle_focus();
    assert_ne!(a.focus, before);
    a.toggle_focus();
    assert_eq!(a.focus, before);
    a.sidebar_open = false;
    a.toggle_focus();
    assert_eq!(a.focus, Focus::List);
}

#[test]
fn detail_down_then_up_is_unchanged() {
    let mut a = app(1);
    a.detail_down();
    a.detail_down();
    a.detail_up();
    a.detail_up();
    assert_eq!(a.detail_scroll, 0);
}

#[test]
fn type_then_backspace_restores_list() {
    let mut a = app(1);
    a.search = "t".to_string();
    a.apply_filter();
    let (search, filtered) = (a.search.clone(), a.filtered.clone());
    assert_eq!(filtered, vec![1, 2]);
    a.handle_key(KeyPress { key: Key::Char('w'), mods: Mods::Plain });
    assert_eq!(a.filtered, vec![1]);
    a.handle_key(KeyPress { key: Key::Backspace, mods: Mods::Plain });
    assert_eq!(a.search, search);
    assert_eq!(a.filtered, filtered);
}

#[test]
fn follow_mode_selects_new_last_entry() {
    let mut a = app(1);
    a.toggle_follow();
    a.scroll_to_top();
    let grown = format!("{}[2024-03-12 10:00:04] local.INFO: five\n", LOG);
    a.tick(Some(grown.as_str()));
    assert_eq!(a.selected, Some(4));
}

#[test]
fn empty_search_shows_everything_in_order() {
    let a = app(1);
    assert_eq!(a.filtered, vec![0, 1, 2, 3]);
}

#[test]
fn every_record_is_counted_once() {
    let content = "[t] [MESSAGE]: a\n\n[t] [MESSAGE]: a\n[t] b\n   \n[t] b\n[t] c\n";
    let es = parse_spols_runtime(content);
    let total: u32 = es.iter().map(|e| e.count).sum();
    assert_eq!(total, 5);
    for w in es.windows(2) {
        assert!(!(w[0].message == w[1].message && w[0].level == w[1].level));
    }
    let lara = parse_laravel("x\n[2024-03-12 10:00:00] a.INFO: m\n[2024-03-12 10:00:01] a.INFO: m\n[2024-03-12 10:00:02] a.INFO: n\n");
    let total: u32 = lara.iter().map(|e| e.count).sum();
    assert_eq!(total, 3);
    assert_eq!(lara.len(), 2);
}

#[test]
fn runtime_entries_follow_runs() {
    let content = "[01-01-2024 10:00] [FILE]: /a/x.php (line: 1) [MESSAGE]: boom error\n\
                   [01-01-2024 10:01] [FILE]: /a/y.php (line: 2) [MESSAGE]: boom error\n\
                   \n\
                   [01-01-2024 10:02] [FILE]: /a/z.php [MESSAGE]: other\n\
                   [01-01-2024 10:03] [FILE]: /a/x.php [MESSAGE]: boom error\n";
    let es = parse_spols_runtime(content);
    let counts: Vec<u32> = es.iter().map(|e| e.count).collect();
    assert_eq!(counts, vec![2, 1, 1]);
    // The first record of a run gives the fields, the last one the timestamp.
    assert_eq!(es[0].short_src.as_deref(), Some("x.php: 1"));
    assert_eq!(es[0].timestamp, "01-01-2024 10:01");
    assert_eq!(es[2].timestamp, "01-01-2024 10:03");
    assert_eq!(counts.iter().sum::<u32>(), 4);
}

#[test]
fn database_entries_are_errors_counting_lines() {
    let content = "[01-01-2024 10:00] [MESSAGE]: dup key [SQL]: INSERT 1\n\
                   [01-01-2024 10:01] [MESSAGE]: dup key [SQL]: INSERT 2\n\
                   [01-01-2024 10:02] [MESSAGE]: gone away\n\
                   \n";
    let es = parse_spols_database(content);
    assert_eq!(es.len(), 2);
    assert!(es.iter().all(|e| e.level == Level::Error && e.short_src.is_none()));
    assert!(es.iter().all(|e| e.detail.is_empty() || e.detail.starts_with("SQL:\n")));
    assert_eq!(es[0].detail, "SQL:\nINSERT 1");
    assert_eq!(es.iter().map(|e| e.count).sum::<u32>(), 3);
    assert_ne!(es[0].message, es[1].message);
}

#[test]
fn laravel_counts_add_up_to_headers() {
    let content = "preamble line\n\
                   [2024-03-12 10:00:00] local.ERROR: Same {\"a\":1}\n\
                   #0 frame\n\
                   [2024-03-12 10:00:01] local.ERROR: Same\n\
                   [2024-03-12 10:00:02] local.INFO: Other\n";
    let es = parse_laravel(content);
    assert_eq!(es.iter().map(|e| e.count).sum::<u32>(), 3);
    assert!(es.iter().all(|e| e.short_src.is_none()));
    assert_eq!(es[0].timestamp, "2024-03-12 10:00:01");
    assert!(parse_laravel("no headers\nat all\n").is_empty());
}
