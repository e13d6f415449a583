use lv::labels::{
    count_mark, decimal_string, detail_title, list_title, picker_count, picker_label, row_message,
};

#[test]
fn decimal_forms() {
    assert_eq!(decimal_string(0), "0");
    assert_eq!(decimal_string(7), "7");
    assert_eq!(decimal_string(10), "10");
    assert_eq!(decimal_string(1234567), "1234567");
    assert_eq!(decimal_string(u64::MAX), "18446744073709551615");
}

#[test]
fn list_titles() {
    assert_eq!(list_title(3, 3), " 3 entries ");
    assert_eq!(list_title(0, 0), " 0 entries ");
    assert_eq!(list_title(2, 15), " 2/15 ");
}

#[test]
fn count_marks_and_picker_counts() {
    assert_eq!(count_mark(12), " ×12");
    assert_eq!(picker_count(7), " 7");
    assert_eq!(picker_count(0), " 0");
}

#[test]
fn detail_titles() {
    assert_eq!(detail_title("2024-01-01 10:00:00", 3), " 2024-01-01 10:00:00  ×3 occurrences ");
    assert_eq!(detail_title("ts", 1), " ts ");
}

#[test]
fn row_messages_are_cut_to_the_room() {
    let msg = "abcdefghijklmnopqrstuvwxyz";
    // 40 columns: 28 for badge, timestamp and margins leave 12.
    assert_eq!(row_message(msg, 40, None, 1), "abcdefghijk…");
    // Short messages stay whole.
    assert_eq!(row_message("short", 40, None, 1), "short");
    // Source and count mark take room: 28 + 7 + 4 leaves 1, too little to cut.
    assert_eq!(row_message(msg, 40, Some("a.php"), 3), msg);
    // With a wider list the source and count only narrow the cut.
    assert_eq!(row_message(msg, 50, Some("a.php"), 3), "abcdefghij…");
    // A narrow list leaves nothing and the message stays whole.
    assert_eq!(row_message(msg, 10, None, 1), msg);
}

#[test]
fn row_messages_cut_between_characters() {
    // 34 bytes against a room of 12: the longest prefix of at most 11 bytes.
    let msg = "ééééééééééééééééé";
    assert_eq!(row_message(msg, 40, None, 1), "ééééé…");
    // 12 bytes in 6 characters fit a room of 12 exactly.
    assert_eq!(row_message("éééééé", 40, None, 1), "éééééé");
}

#[test]
fn picker_labels() {
    assert_eq!(picker_label("a/b/c/deep-name.log", 10), "c/dee…");
    assert_eq!(picker_label("a/b/c/deep-name.log", 40), "c/deep-name.log");
    assert_eq!(picker_label("x.log", 5), "x.log");
    assert_eq!(picker_label("logs/app.log", 0), "logs/app.log");
    // Measured in bytes: 6 bytes exceed a room of 5, and 4 bytes are kept.
    assert_eq!(picker_label("ééé", 9), "éé…");
    assert_eq!(picker_label("ééé", 10), "ééé");
}
