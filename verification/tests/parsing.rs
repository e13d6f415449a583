use lv::entry::LogEntry;
use lv::level::Level;
use lv::parse::{
    classify_spols_message, detect_format, is_laravel_header, parse_all, parse_generic,
    parse_laravel, parse_spols_database, parse_spols_runtime, peel_ts, short_source_from_path,
    LogFormat,
};

fn messages(es: &[LogEntry]) -> Vec<&str> {
    es.iter().map(|e| e.message.as_str()).collect()
}

#[test]
fn peel_ts_splits_bracketed_stamp() {
    assert_eq!(peel_ts("[2024-01-02 03:04:05]   hello world"), ("2024-01-02 03:04:05", "hello world"));
    assert_eq!(peel_ts("no stamp here"), ("", "no stamp here"));
    assert_eq!(peel_ts("[unterminated"), ("", "[unterminated"));
    assert_eq!(peel_ts("[]x"), ("", "x"));
    assert_eq!(peel_ts(""), ("", ""));
}

#[test]
fn short_source_keeps_file_and_line() {
    assert_eq!(
        short_source_from_path("/var/www/app/Controllers/Home.php (line: 42)"),
        Some("Home.php: 42".to_string())
    );
    assert_eq!(short_source_from_path("plain.php"), Some("plain.php".to_string()));
    assert_eq!(short_source_from_path("dir/"), Some("".to_string()));
    assert_eq!(short_source_from_path(""), None);
}

#[test]
fn classify_reads_any_case() {
    assert_eq!(classify_spols_message("Uncaught EXCEPTION in foo"), Level::Error);
    assert_eq!(classify_spols_message("FATAL: out of memory"), Level::Error);
    assert_eq!(classify_spols_message("Some Error happened"), Level::Error);
    assert_eq!(classify_spols_message("Deprecated: error handler"), Level::Warning);
    assert_eq!(classify_spols_message("WARNING: disk"), Level::Warning);
    assert_eq!(classify_spols_message("all fine"), Level::Unknown);
}

#[test]
fn runtime_log_parses_and_collapses() {
    let content = "[12-03-2024 10:00:00] [FILE]: /srv/app/a.php (line: 3) [MESSAGE]: Undefined index x\n\
                   [12-03-2024 10:00:01] [FILE]: /srv/app/a.php (line: 3) [MESSAGE]: Undefined index x\n\
                   \n\
                   [12-03-2024 10:00:02] [MESSAGE]: Uncaught exception boom\n\
                   [12-03-2024 10:00:03] just text\n";
    let es = parse_spols_runtime(content);
    assert_eq!(es.len(), 3);
    assert_eq!(es[0].message, "Undefined index x");
    assert_eq!(es[0].count, 2);
    assert_eq!(es[0].timestamp, "12-03-2024 10:00:01");
    assert_eq!(es[0].detail, "/srv/app/a.php (line: 3)");
    assert_eq!(es[0].short_src, Some("a.php: 3".to_string()));
    assert_eq!(es[0].level, Level::Unknown);
    assert_eq!(es[1].message, "Uncaught exception boom");
    assert_eq!(es[1].level, Level::Error);
    assert_eq!(es[1].short_src, None);
    assert_eq!(es[2].message, "just text");
    assert_eq!(es[2].count, 1);
}

#[test]
fn runtime_file_without_message_tag() {
    let es = parse_spols_runtime("[FILE]:   /a/b.php   tail text");
    assert_eq!(es.len(), 1);
    assert_eq!(es[0].detail, "");
    assert_eq!(es[0].message, ":   /a/b.php   tail text");
    assert_eq!(es[0].timestamp, "FILE");
    let es = parse_spols_runtime("[t] x [FILE]:   /a/b.php   tail text");
    assert_eq!(es[0].detail, "");
    assert_eq!(es[0].message, "/a/b.php   tail text");
    assert_eq!(es[0].short_src, None);
}

#[test]
fn database_log_keeps_sql() {
    let content = "[12-03-2024 10:00:00] [MESSAGE]: Duplicate entry [SQL]: INSERT INTO t VALUES (1)\r\n\
                   [12-03-2024 10:00:05] [MESSAGE]: Lost connection\r\n";
    let es = parse_spols_database(content);
    assert_eq!(es.len(), 2);
    assert_eq!(es[0].message, "Duplicate entry");
    assert_eq!(es[0].detail, "SQL:\nINSERT INTO t VALUES (1)");
    assert_eq!(es[0].level, Level::Error);
    assert_eq!(es[1].message, "Lost connection");
    assert_eq!(es[1].detail, "");
    assert_eq!(es[1].short_src, None);
}

#[test]
fn database_duplicates_collapse() {
    let content = "[a] [MESSAGE]: same\n[b] [MESSAGE]: same\n[c] [MESSAGE]: same\n";
    let es = parse_spols_database(content);
    assert_eq!(es.len(), 1);
    assert_eq!(es[0].count, 3);
    assert_eq!(es[0].timestamp, "c");
}

#[test]
fn laravel_header_shape() {
    assert!(is_laravel_header("[2024-03-12 10:00:00] local.ERROR: boom"));
    assert!(!is_laravel_header("[2024-03-12] local.ERROR: boom"));
    assert!(!is_laravel_header("#0 /app/x.php(12): foo()"));
    assert!(!is_laravel_header("[2024/03/12 10:00:00] x"));
    assert!(!is_laravel_header("[2024-03-12 10:00:00 no close"));
}

#[test]
fn laravel_records_take_following_lines() {
    let content = "garbage before\n\
                   [2024-03-12 10:00:00] local.ERROR: Something failed {\"exception\":\"x\"}\n\
                   [stacktrace]\n\
                   #0 /app/a.php(1): f()\n\
                   [2024-03-12 10:00:01] production.warning: Slow query\n\
                   [2024-03-12 10:00:02] local.info: Done\n\
                   [2024-03-12 10:00:03] no colon here\n";
    let es = parse_laravel(content);
    assert_eq!(messages(&es), vec!["Something failed", "Slow query", "Done", "no colon here"]);
    assert_eq!(es[0].level, Level::Error);
    assert_eq!(es[0].detail, "[stacktrace]\n#0 /app/a.php(1): f()");
    assert_eq!(es[0].timestamp, "2024-03-12 10:00:00");
    assert_eq!(es[1].level, Level::Warning);
    assert_eq!(es[2].level, Level::Info);
    assert_eq!(es[3].level, Level::Unknown);
    assert_eq!(es[3].detail, "");
}

#[test]
fn laravel_duplicates_collapse() {
    let content = "[2024-03-12 10:00:00] local.ERROR: same\nmore\n[2024-03-12 10:00:09] local.ERROR: same\n";
    let es = parse_laravel(content);
    assert_eq!(es.len(), 1);
    assert_eq!(es[0].count, 2);
    assert_eq!(es[0].timestamp, "2024-03-12 10:00:09");
    assert_eq!(es[0].detail, "more");
}

#[test]
fn laravel_channel_without_dot() {
    let es = parse_laravel("[2024-03-12 10:00:00] CRITICAL: down");
    assert_eq!(es.len(), 1);
    assert_eq!(es[0].level, Level::Error);
    assert_eq!(es[0].message, "down");
}

#[test]
fn generic_keeps_lines_whole() {
    let es = parse_generic("  first line \n\n   \nsecond\nsecond\n");
    assert_eq!(messages(&es), vec!["  first line ", "second", "second"]);
    assert!(es.iter().all(|e| e.count == 1 && e.level == Level::Unknown));
}

#[test]
fn empty_content_gives_no_entries() {
    for f in [LogFormat::SpolsRuntime, LogFormat::SpolsDatabase, LogFormat::Laravel, LogFormat::Generic] {
        assert!(parse_all("", &f).is_empty());
        assert!(parse_all("\n\n", &f).is_empty());
    }
}

#[test]
fn format_from_name() {
    assert_eq!(detect_format("runtime-errors.log", ""), LogFormat::SpolsRuntime);
    assert_eq!(detect_format("database-errors.log", ""), LogFormat::SpolsDatabase);
    assert_eq!(detect_format("laravel-2024.log", ""), LogFormat::Laravel);
    assert_eq!(detect_format("app.log", ""), LogFormat::Laravel);
    assert_eq!(detect_format("myapp.log", ""), LogFormat::Laravel);
    assert_eq!(detect_format("app.log.1", ""), LogFormat::Laravel);
}

#[test]
fn format_from_first_line() {
    assert_eq!(detect_format("x.log", "[12-03-2024 10:00] [FILE]: a\n"), LogFormat::SpolsRuntime);
    assert_eq!(detect_format("x.log", "[12-03-2024 10:00] [MESSAGE]: a\n"), LogFormat::SpolsDatabase);
    assert_eq!(detect_format("x.log", "[2024-03-12 10:00:00] local.ERROR: a\n"), LogFormat::Laravel);
    assert_eq!(detect_format("x.log", "[short]\n"), LogFormat::Generic);
    assert_eq!(detect_format("x.log", "plain text line\n"), LogFormat::Generic);
    assert_eq!(detect_format("x.log", ""), LogFormat::Generic);
}

#[test]
fn format_tags_anywhere_on_first_line() {
    assert_eq!(detect_format("x.log", "error [FILE]: a.php\n"), LogFormat::SpolsRuntime);
    assert_eq!(detect_format("x.log", "oops [MESSAGE]: bad\n"), LogFormat::SpolsDatabase);
    assert_eq!(detect_format("x.log", "[12-03-2024 10:00] nothing tagged\n"), LogFormat::Generic);
    assert_eq!(detect_format("x.log", "[2024-1-12 x]\n"), LogFormat::Generic);
    assert_eq!(detect_format("x.log", "[abcd-ef-gh]\n"), LogFormat::Generic);
    assert_eq!(detect_format("x.log", "[2024-03-\n"), LogFormat::Generic);
    assert_eq!(detect_format("x.log", "[2024-03-12\n"), LogFormat::Laravel);
    assert_eq!(detect_format("x.log", "[2024-03-12 10:00] [FILE]: a.php\n"), LogFormat::Laravel);
    assert_eq!(detect_format("x.log", "plain\n[FILE]: later line\n"), LogFormat::Generic);
}

#[test]
fn parse_all_dispatches() {
    let c = "[2024-03-12 10:00:00] local.ERROR: a\n";
    assert_eq!(parse_all(c, &LogFormat::Laravel)[0].message, "a");
    assert_eq!(parse_all(c, &LogFormat::Generic)[0].message, c.trim_end());
}

#[test]
fn collapsed_neighbours_differ_and_counts_add_up() {
    let content = "[a] [MESSAGE]: x\n[b] [MESSAGE]: x\n[c] [MESSAGE]: y\n[d] [MESSAGE]: x\n[e] [MESSAGE]: x\n";
    let es = parse_spols_database(content);
    for w in es.windows(2) {
        assert!(!(w[0].message == w[1].message && w[0].level == w[1].level));
    }
    let total: u32 = es.iter().map(|e| e.count).sum();
    assert_eq!(total, 5);
    assert_eq!(es.len(), 3);
}
