use lv::discovery::{
    discover_logs, find_project_root, is_log_dir, is_log_extension, is_root_marker,
    is_skipped_dir, scan_step, FoundLog, ScanStep,
};

fn found(key: &str, rel: &str) -> FoundLog {
    FoundLog { path_key: key.as_bytes().to_vec(), rel: rel.to_string() }
}

#[test]
fn project_root_is_nearest_marked_dir() {
    assert_eq!(find_project_root(&[false, false, true, true]), 2);
    assert_eq!(find_project_root(&[true, false]), 0);
    assert_eq!(find_project_root(&[false, false, false]), 0);
    assert_eq!(find_project_root(&[]), 0);
}

#[test]
fn log_dirs_and_skipped_dirs() {
    assert!(is_log_dir("Logs") && is_log_dir("logs") && is_log_dir("log"));
    assert!(!is_log_dir("LOGS") && !is_log_dir("logging"));
    for d in ["vendor", "node_modules", "target", ".git", "cache", ".promptgoblin", "bower_components", "docker"] {
        assert!(is_skipped_dir(d));
    }
    assert!(!is_skipped_dir("src"));
}

#[test]
fn scan_steps() {
    assert_eq!(scan_step("project", 0), ScanStep::Descend);
    assert_eq!(scan_step("logs", 0), ScanStep::Descend);
    assert_eq!(scan_step("logs", 2), ScanStep::CollectLogs);
    assert_eq!(scan_step("vendor", 1), ScanStep::Skip);
    assert_eq!(scan_step("logs", 8), ScanStep::Skip);
    assert_eq!(scan_step("app", 7), ScanStep::Descend);
}

#[test]
fn log_extension() {
    assert!(is_log_extension(Some("log")));
    assert!(!is_log_extension(Some("LOG")));
    assert!(!is_log_extension(Some("txt")));
    assert!(!is_log_extension(None));
}

#[test]
fn found_logs_sorted_stably_and_deduped() {
    let out = discover_logs(vec![
        found("/p/b", "b.log"),
        found("/p/a2", "a.log"),
        found("/p/c", "c.log"),
        found("/p/a1", "a.log"),
        found("/p/c", "c.log"),
        found("/p/é", "é.log"),
        found("/p/z", "z.log"),
    ]);
    let rels: Vec<(&str, &[u8])> = out.iter().map(|f| (f.rel.as_str(), f.path_key.as_slice())).collect();
    assert_eq!(
        rels,
        vec![
            ("a.log", "/p/a2".as_bytes()),
            ("a.log", "/p/a1".as_bytes()),
            ("b.log", "/p/b".as_bytes()),
            ("c.log", "/p/c".as_bytes()),
            ("z.log", "/p/z".as_bytes()),
            ("é.log", "/p/é".as_bytes()),
        ]
    );
    assert!(discover_logs(vec![]).is_empty());
}

#[test]
fn found_logs_order_matches_string_order() {
    let names = ["b/x.log", "a/y.log", "a.log", "A.log", "ab", "a", "", "ä"];
    let out = discover_logs(names.iter().enumerate().map(|(i, n)| found(&i.to_string(), n)).collect());
    let mut expect: Vec<&str> = names.to_vec();
    expect.sort();
    let got: Vec<&str> = out.iter().map(|f| f.rel.as_str()).collect();
    assert_eq!(got, expect);
}

#[test]
fn root_markers() {
    assert!(is_root_marker(".git"));
    assert!(is_root_marker("composer.json"));
    assert!(!is_root_marker("Cargo.toml"));
    assert!(!is_root_marker("composer.lock"));
    assert!(!is_root_marker(""));
}
