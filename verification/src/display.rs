//! The rules behind what the screen shows: how detail lines are styled, the
//! names in the file picker and the hints of the status bar.
use vstd::prelude::*;
use crate::text::{
    chars_of, contains, contains_str, lemma_rfind_char, rfind_char, rfind_char_in, str_eq,
    trim_start, trim_start_str,
};

verus! {

/// How a line of the detail pane is styled.
#[derive(Debug, Clone, Copy, PartialEq, Eq, Structural)]
pub enum LineStyle {
    /// A stack frame (`#0 ...`): dimmed.
    Frame,
    /// A `[stacktrace]` or `[previous exception]` marker: dimmed, in italics.
    Marker,
    /// The `SQL:` heading: highlighted.
    SqlHeading,
    /// A line naming an exception or error: in red.
    Failure,
    /// Any other line.
    Plain,
}

/// `pat` begins `s`.
pub open spec fn starts_with(s: Seq<char>, pat: Seq<char>) -> bool {
    pat.len() <= s.len() && s.take(pat.len() as int) == pat
}

/// The style of a detail line.
pub open spec fn line_style_of(line: Seq<char>) -> LineStyle {
    let t = trim_start(line);
    if t.len() > 0 && t[0] == '#' {
        LineStyle::Frame
    } else if line == "[stacktrace]"@ || starts_with(line, "[previous exception]"@) {
        LineStyle::Marker
    } else if line == "SQL:"@ {
        LineStyle::SqlHeading
    } else if contains(line, "Exception"@) || contains(line, "Error"@) {
        LineStyle::Failure
    } else {
        LineStyle::Plain
    }
}

/// Whether `pat` begins `s`.
fn starts_with_str(s: &str, pat: &str) -> (r: bool)
    ensures
        r == starts_with(s@, pat@),
{
    let a = chars_of(s);
    let b = chars_of(pat);
    if b.len() > a.len() {
        return false;
    }
    let mut i: usize = 0;
    while i < b.len()
        invariant
            a@ == s@,
            b@ == pat@,
            b@.len() <= a@.len(),
            i <= b@.len(),
            forall|j: int| 0 <= j < i ==> a@[j] == b@[j],
        decreases b@.len() - i,
    {
        if a[i] != b[i] {
            assert(a@.take(b@.len() as int)[i as int] != b@[i as int]);
            return false;
        }
        i = i + 1;
    }
    assert(a@.take(b@.len() as int) =~= b@);
    true
}

/// The style of a line of the detail pane.
pub fn detail_line_style(line: &str) -> (r: LineStyle)
    ensures
        r == line_style_of(line@),
{
    let t = chars_of(trim_start_str(line));
    if t.len() > 0 && t[0] == '#' {
        LineStyle::Frame
    } else if str_eq(line, "[stacktrace]") || starts_with_str(line, "[previous exception]") {
        LineStyle::Marker
    } else if str_eq(line, "SQL:") {
        LineStyle::SqlHeading
    } else if contains_str(line, "Exception") || contains_str(line, "Error") {
        LineStyle::Failure
    } else {
        LineStyle::Plain
    }
}

/// The name shown in the file picker: the last two parts of the path when it
/// has more than two, else the whole path.
pub open spec fn picker_name_of(p: Seq<char>) -> Seq<char> {
    match rfind_char(p, '/') {
        Some(i) => match rfind_char(p.take(i), '/') {
            Some(j) => p.skip(j + 1),
            None => p,
        },
        None => p,
    }
}

/// The name of a file in the picker.
pub fn picker_name(display_name: &str) -> (r: String)
    ensures
        r@ == picker_name_of(display_name@),
{
    let cs = chars_of(display_name);
    match rfind_char_in(cs.as_slice(), '/') {
        Some(i) => {
            proof {
                lemma_rfind_char(cs@, '/');
            }
            let head = chars_of(display_name.substring_char(0, i));
            assert(display_name@.subrange(0, i as int) =~= display_name@.take(i as int));
            match rfind_char_in(head.as_slice(), '/') {
                Some(j) => {
                    proof {
                        lemma_rfind_char(head@, '/');
                    }
                    let tail = display_name.substring_char(j + 1, cs.len());
                    assert(display_name@.subrange(j + 1, cs@.len() as int) =~= display_name@.skip(
                        j + 1,
                    ));
                    tail.to_owned()
                },
                None => display_name.to_owned(),
            }
        },
        None => display_name.to_owned(),
    }
}

/// The status bar's label of the follow key.
pub open spec fn follow_label_of(follow: bool) -> Seq<char> {
    if follow {
        "f off  "@
    } else {
        "f follow  "@
    }
}

/// The status bar's hint for the file picker.
pub open spec fn picker_hint_of(n_files: usize, sidebar_open: bool) -> Seq<char> {
    if n_files > 1 && sidebar_open {
        "p/tab sidebar  "@
    } else if n_files > 1 {
        "p files  "@
    } else {
        ""@
    }
}

/// The label of the follow key in the status bar.
pub fn follow_label(follow: bool) -> (r: &'static str)
    ensures
        r@ == follow_label_of(follow),
{
    if follow {
        "f off  "
    } else {
        "f follow  "
    }
}

/// The hint for the file picker in the status bar.
pub fn picker_hint(n_files: usize, sidebar_open: bool) -> (r: &'static str)
    ensures
        r@ == picker_hint_of(n_files, sidebar_open),
{
    if n_files > 1 && sidebar_open {
        "p/tab sidebar  "
    } else if n_files > 1 {
        "p files  "
    } else {
        ""
    }
}

} // verus!
