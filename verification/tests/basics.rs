use lv::entry::{push_or_dedup, LogEntry};
use lv::level::Level;
use lv::logfile::LogFile;
use lv::parse::LogFormat;
use lv::text::{lines_of, replace_str, trim_str};

fn entry(msg: &str, lvl: Level, ts: &str) -> LogEntry {
    LogEntry {
        timestamp: ts.to_string(),
        level: lvl,
        message: msg.to_string(),
        detail: String::new(),
        short_src: None,
        count: 1,
    }
}

#[test]
fn badges_and_colors() {
    assert_eq!(Level::Error.badge(), "ERR");
    assert_eq!(Level::Warning.badge(), "WRN");
    assert_eq!(Level::Info.badge(), "INF");
    assert_eq!(Level::Debug.badge(), "DBG");
    assert_eq!(Level::Unknown.badge(), "LOG");
    let c = Level::Error.color();
    assert_eq!((c.r, c.g, c.b), (220, 80, 80));
    let c = Level::Debug.color();
    assert_eq!((c.r, c.g, c.b), (110, 110, 135));
}

#[test]
fn level_names_in_any_case() {
    assert_eq!(Level::from_str("error"), Level::Error);
    assert_eq!(Level::from_str("Emergency"), Level::Error);
    assert_eq!(Level::from_str("warn"), Level::Warning);
    assert_eq!(Level::from_str("notice"), Level::Info);
    assert_eq!(Level::from_str("DEBUG"), Level::Debug);
    assert_eq!(Level::from_str("verbose"), Level::Unknown);
    assert_eq!(Level::from_upper("error"), Level::Unknown);
}

#[test]
fn dedup_counts_and_takes_newer_stamp() {
    let mut es = Vec::new();
    push_or_dedup(&mut es, entry("a", Level::Error, "1"));
    push_or_dedup(&mut es, entry("a", Level::Error, "2"));
    push_or_dedup(&mut es, entry("a", Level::Warning, "3"));
    push_or_dedup(&mut es, entry("b", Level::Warning, "4"));
    assert_eq!(es.len(), 3);
    assert_eq!(es[0].count, 2);
    assert_eq!(es[0].timestamp, "2");
    assert_eq!(es[1].count, 1);
    assert_eq!(es[2].message, "b");
}

#[test]
fn lines_follow_str_lines() {
    for s in ["", "a", "a\n", "a\r\nb", "a\n\nb\n", "\n", "x\r", "a\rb\r\n", "\r\n\r\n"] {
        let ours: Vec<String> = lines_of(s);
        let std: Vec<String> = s.lines().map(|l| l.to_string()).collect();
        assert_eq!(ours, std, "for {:?}", s);
    }
}

#[test]
fn trim_and_replace_follow_std() {
    for s in ["", "  a b  ", "\u{3000}x\u{85}", "\t\n", "no"] {
        assert_eq!(trim_str(s), s.trim());
    }
    assert_eq!(replace_str("aaa", "aa", "b"), "ba");
    assert_eq!(replace_str("x (line: 1) (line: 2)", " (line:", ":"), "x: 1): 2)");
}

#[test]
fn log_file_from_content_and_reload() {
    let mut f = LogFile::from_content(
        "storage/logs/laravel.log".to_string(),
        "laravel.log",
        "[2024-03-12 10:00:00] local.ERROR: a\n",
    );
    assert_eq!(f.format, LogFormat::Laravel);
    assert_eq!(f.format_label(), "laravel");
    assert_eq!(f.entries.len(), 1);
    f.reload("[2024-03-12 10:00:00] local.ERROR: a\n[2024-03-12 10:00:01] local.INFO: b\n");
    assert_eq!(f.entries.len(), 2);
    assert_eq!(f.display_name, "storage/logs/laravel.log");
    let g = LogFile::from_content("x".to_string(), "x.txt", "hello");
    assert_eq!(g.format_label(), "generic");
    let r = LogFile::from_content("r".to_string(), "runtime-errors.log", "");
    assert_eq!(r.format_label(), "spols/runtime");
    let d = LogFile::from_content("d".to_string(), "database-errors.log", "");
    assert_eq!(d.format_label(), "spols/db");
}
