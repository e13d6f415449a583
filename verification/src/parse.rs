//! The log formats and their parsers: SpolsMVC runtime and database logs,
//! Laravel logs and plain line logs.
use vstd::prelude::*;
use vstd::string::*;
use crate::entry::{
    all_single, collapsed_by_runs, dedup_all, entries_view, has_origin, has_time, lemma_dedup_all,
    collapse_fits, lemma_dedup_origin, lemma_dedup_runs, lemma_fits_prefix, lemma_few_records_fit,
    run_ends,
    no_adjacent_duplicates, push_or_dedup, push_would_overflow, same_origin, same_time,
    total_count, EntryView, LogEntry,
};
use crate::level::{lemma_level_names, level_from_name, Level};
use crate::text::{
    byte_len, byte_len_exceeds, chars_of, contains, contains_str, find, find_char, find_char_in,
    find_str, join_lines, join_lines_exec, lemma_find, lemma_find_char, lemma_rfind_char, lines,
    lines_of, lowercase_of, replace_all, replace_str, rfind_char, rfind_char_in, str_eq,
    string_of_range, strings_view, uppercase_of,
    to_lowercase, trim, trim_start, trim_start_str, trim_str,
};

verus! {

// ── Single-line pieces ───────────────────────────────────────────────────────

/// A line split into its bracketed timestamp and the rest: `[ts] rest` gives
/// `ts` and the rest without leading white space; any other line has no
/// timestamp.
pub open spec fn peel(line: Seq<char>) -> (Seq<char>, Seq<char>) {
    if line.len() > 0 && line[0] == '[' {
        match find_char(line, ']') {
            Some(end) => (line.subrange(1, end), trim_start(line.skip(end + 1))),
            None => (seq![], line),
        }
    } else {
        (seq![], line)
    }
}

/// The last `/`-separated part of a path.
pub open spec fn last_segment(p: Seq<char>) -> Seq<char> {
    match rfind_char(p, '/') {
        Some(i) => p.skip(i + 1),
        None => p,
    }
}

/// The short form of a source path: its file name, with `" (line:"` made
/// `":"` and every `')'` dropped; an empty path has none.
pub open spec fn short_source(p: Seq<char>) -> Option<Seq<char>> {
    if p.len() == 0 {
        None
    } else {
        Some(replace_all(replace_all(last_segment(p), " (line:"@, ":"@), ")"@, ""@))
    }
}

/// The level of a SpolsMVC message, read from its lower-cased text.
pub open spec fn classify_lowered(m: Seq<char>) -> Level {
    if contains(m, "exception"@) || contains(m, "uncaught"@) || contains(m, "fatal"@) || (
    contains(m, "error"@) && !contains(m, "deprecated"@)) {
        Level::Error
    } else if contains(m, "deprecated"@) || contains(m, "warning"@) {
        Level::Warning
    } else {
        Level::Unknown
    }
}

/// The level of a SpolsMVC message.
pub open spec fn classify(msg: Seq<char>) -> Level {
    classify_lowered(lowercase_of(msg))
}

/// Whether a line opens a Laravel record: `[` then, up to the first `]`, a
/// stamp of at least 19 bytes shaped `YYYY-MM-DD hh...`.
pub open spec fn laravel_header(line: Seq<char>) -> bool {
    line.len() > 0 && line[0] == '[' && match find_char(line, ']') {
        Some(end) => {
            let inner = line.subrange(1, end);
            &&& byte_len(inner) >= 19
            &&& inner.len() > 10
            &&& inner[4] == '-'
            &&& inner[7] == '-'
            &&& inner[10] == ' '
        },
        None => false,
    }
}

/// Splits a line into its bracketed timestamp and the rest of the line.
pub fn peel_ts(line: &str) -> (r: (&str, &str))
    ensures
        (r.0@, r.1@) == peel(line@),
{
    let cs = chars_of(line);
    if cs.len() > 0 && cs[0] == '[' {
        if let Some(end) = find_char_in(cs.as_slice(), ']') {
            proof {
                lemma_find_char(cs@, ']');
            }
            let ts = line.substring_char(1, end);
            let rest = trim_start_str(line.substring_char(end + 1, cs.len()));
            assert(line@.subrange(end + 1, line@.len() as int) =~= line@.skip(end + 1));
            return (ts, rest);
        }
    }
    proof {
        reveal_strlit("");
    }
    ("", line)
}

/// The short display form of a source path (its file name and line).
pub fn short_source_from_path(path: &str) -> (r: Option<String>)
    ensures
        opt_string_view(r) == short_source(path@),
{
    let cs = chars_of(path);
    if cs.len() == 0 {
        return None;
    }
    let fname = match rfind_char_in(cs.as_slice(), '/') {
        Some(i) => {
            proof {
                lemma_rfind_char(cs@, '/');
            }
            let f = path.substring_char(i + 1, cs.len());
            assert(path@.subrange(i + 1, path@.len() as int) =~= path@.skip(i + 1));
            f
        },
        None => path,
    };
    proof {
        reveal_strlit(" (line:");
        reveal_strlit(")");
    }
    let step = replace_str(fname, " (line:", ":");
    Some(replace_str(step.as_str(), ")", ""))
}

/// The view of an optional string.
pub open spec fn opt_string_view(o: Option<String>) -> Option<Seq<char>> {
    match o {
        Some(s) => Some(s@),
        None => None,
    }
}

/// The level of a message whose text is already lower-cased.
pub fn classify_lowered_message(m: &str) -> (r: Level)
    ensures
        r == classify_lowered(m@),
{
    if contains_str(m, "exception") || contains_str(m, "uncaught") || contains_str(m, "fatal") || (
    contains_str(m, "error") && !contains_str(m, "deprecated")) {
        Level::Error
    } else if contains_str(m, "deprecated") || contains_str(m, "warning") {
        Level::Warning
    } else {
        Level::Unknown
    }
}

/// The level of a SpolsMVC message: errors for exceptions, uncaught and fatal
/// failures and non-deprecation errors, warnings for deprecations and warnings.
pub fn classify_spols_message(msg: &str) -> (r: Level)
    ensures
        r == classify(msg@),
{
    let m = to_lowercase(msg);
    classify_lowered_message(m.as_str())
}

/// Whether a line opens a new Laravel record.
pub fn is_laravel_header(line: &str) -> (r: bool)
    ensures
        r == laravel_header(line@),
{
    let cs = chars_of(line);
    if cs.len() == 0 || cs[0] != '[' {
        return false;
    }
    match find_char_in(cs.as_slice(), ']') {
        Some(end) => {
            proof {
                lemma_find_char(cs@, ']');
            }
            let inner = chars_of(line.substring_char(1, end));
            let r = byte_len_exceeds(inner.as_slice(), 18) && end - 1 > 10 && cs[5] == '-' && cs[8] == '-' && cs[11]
                == ' ';
            assert(inner@.len() == end - 1);
            assert(find_char(line@, ']') == Some(end as int));
            assert(end - 1 > 10 ==> inner@[4] == cs@[5] && inner@[7] == cs@[8] && inner@[10]
                == cs@[11]);
            r
        },
        None => false,
    }
}


// ── Records of each format ───────────────────────────────────────────────────

/// The source path and message of a SpolsMVC runtime line (after its
/// timestamp): `[FILE]: path [MESSAGE]: text`, either part may be missing.
pub open spec fn runtime_fields(rest: Seq<char>) -> (Seq<char>, Seq<char>) {
    match find(rest, "[FILE]:"@) {
        Some(fi) => {
            let after = trim_start(rest.skip(fi + "[FILE]:"@.len()));
            match find(after, "[MESSAGE]:"@) {
                Some(mi) => (trim(after.take(mi)), trim(after.skip(mi + "[MESSAGE]:"@.len()))),
                None => (seq![], after),
            }
        },
        None => match find(rest, "[MESSAGE]:"@) {
            Some(mi) => (seq![], trim(rest.skip(mi + "[MESSAGE]:"@.len()))),
            None => (seq![], rest),
        },
    }
}

/// The entry read from a trimmed, non-empty SpolsMVC runtime line.
pub open spec fn runtime_entry(t: Seq<char>) -> EntryView {
    let (ts, rest) = peel(t);
    let (source, message) = runtime_fields(rest);
    EntryView {
        timestamp: ts,
        level: classify(message),
        message: message,
        detail: source,
        short_src: short_source(source),
        count: 1,
    }
}

/// The message and SQL text of a SpolsMVC database line (after its
/// timestamp): `[MESSAGE]: text [SQL]: query`.
pub open spec fn database_fields(rest: Seq<char>) -> (Seq<char>, Seq<char>) {
    match find(rest, "[MESSAGE]:"@) {
        Some(mi) => {
            let after = trim_start(rest.skip(mi + "[MESSAGE]:"@.len()));
            match find(after, "[SQL]:"@) {
                Some(si) => (trim(after.take(si)), trim(after.skip(si + "[SQL]:"@.len()))),
                None => (trim(after), seq![]),
            }
        },
        None => (trim(rest), seq![]),
    }
}

/// The entry read from a trimmed, non-empty SpolsMVC database line: always an
/// error, with the SQL text, if any, under an `SQL:` heading in the detail.
pub open spec fn database_entry(t: Seq<char>) -> EntryView {
    let (ts, rest) = peel(t);
    let (message, sql) = database_fields(rest);
    EntryView {
        timestamp: ts,
        level: Level::Error,
        message: message,
        detail: if sql.len() == 0 {
            seq![]
        } else {
            "SQL:\n"@ + sql
        },
        short_src: None,
        count: 1,
    }
}

/// The entry of a plain log line: the whole line is the message.
pub open spec fn generic_entry(l: Seq<char>) -> EntryView {
    EntryView {
        timestamp: seq![],
        level: Level::Unknown,
        message: l,
        detail: seq![],
        short_src: None,
        count: 1,
    }
}

/// The line-per-record formats.
pub enum LineFormat {
    Runtime,
    Database,
    Plain,
}

/// The record that one non-blank line gives in a line-per-record format.
pub open spec fn line_record(f: LineFormat, l: Seq<char>) -> EntryView {
    match f {
        LineFormat::Runtime => runtime_entry(trim(l)),
        LineFormat::Database => database_entry(trim(l)),
        LineFormat::Plain => generic_entry(l),
    }
}

/// The records of `ls`, one per line that is not blank.
pub open spec fn line_records(f: LineFormat, ls: Seq<Seq<char>>) -> Seq<EntryView>
    decreases ls.len(),
{
    if ls.len() == 0 {
        seq![]
    } else if trim(ls.last()).len() == 0 {
        line_records(f, ls.drop_last())
    } else {
        line_records(f, ls.drop_last()).push(line_record(f, ls.last()))
    }
}

/// A Laravel record still collecting its detail lines.
pub struct Pending {
    pub ts: Seq<char>,
    pub level: Level,
    pub message: Seq<char>,
    pub detail: Seq<Seq<char>>,
}

/// The level of a Laravel channel such as `local.ERROR`: the name after the
/// last dot, or the whole channel.
pub open spec fn channel_level(ch: Seq<char>) -> Level {
    match rfind_char(ch, '.') {
        Some(d) => level_from_name(ch.skip(d + 1)),
        None => level_from_name(ch),
    }
}

/// A Laravel message without its trailing JSON context (` {"...`), trimmed.
pub open spec fn laravel_message(msg: Seq<char>) -> Seq<char> {
    match find(msg, " {\""@) {
        Some(i) => trim(msg.take(i)),
        None => trim(msg),
    }
}

/// The record that a Laravel header line opens, with no detail yet.
pub open spec fn laravel_open(line: Seq<char>) -> Pending {
    let (ts, rest) = peel(line);
    match find_char(rest, ':') {
        Some(colon) => Pending {
            ts: ts,
            level: channel_level(rest.take(colon)),
            message: laravel_message(trim_start(rest.skip(colon + 1))),
            detail: seq![],
        },
        None => Pending { ts: ts, level: Level::Unknown, message: trim(rest), detail: seq![] },
    }
}

/// The entry of a finished Laravel record: its detail lines joined by `'\n'`.
pub open spec fn laravel_entry(p: Pending) -> EntryView {
    EntryView {
        timestamp: p.ts,
        level: p.level,
        message: p.message,
        detail: join_lines(p.detail),
        short_src: None,
        count: 1,
    }
}

/// Reading Laravel lines: the records finished so far, and the record still
/// open. Lines before the first header belong to no record.
pub open spec fn laravel_scan(ls: Seq<Seq<char>>) -> (Seq<EntryView>, Option<Pending>)
    decreases ls.len(),
{
    if ls.len() == 0 {
        (seq![], None)
    } else {
        let (done, open) = laravel_scan(ls.drop_last());
        let line = ls.last();
        if laravel_header(line) {
            match open {
                Some(p) => (done.push(laravel_entry(p)), Some(laravel_open(line))),
                None => (done, Some(laravel_open(line))),
            }
        } else {
            match open {
                Some(p) => (
                    done,
                    Some(
                        Pending {
                            ts: p.ts,
                            level: p.level,
                            message: p.message,
                            detail: p.detail.push(line),
                        },
                    ),
                ),
                None => (done, None),
            }
        }
    }
}

/// All Laravel records of `ls`, the last one closed at the end.
pub open spec fn laravel_records(ls: Seq<Seq<char>>) -> Seq<EntryView> {
    let (done, open) = laravel_scan(ls);
    match open {
        Some(p) => done.push(laravel_entry(p)),
        None => done,
    }
}

/// The number of lines of a text fits the counters of the entries.
pub open spec fn countable(content: Seq<char>) -> bool {
    lines(content).len() <= u32::MAX
}

/// Whether reading `content` in the format `fmt` never counts a run of
/// duplicates past what an entry's counter holds (a plain log counts
/// nothing).
pub open spec fn counts_fit(content: Seq<char>, fmt: LogFormat) -> bool {
    match fmt {
        LogFormat::SpolsRuntime => collapse_fits(line_records(LineFormat::Runtime, lines(content))),
        LogFormat::SpolsDatabase => collapse_fits(line_records(LineFormat::Database, lines(content))),
        LogFormat::Laravel => collapse_fits(laravel_records(lines(content))),
        LogFormat::Generic => true,
    }
}

// ── Parsers ──────────────────────────────────────────────────────────────────

/// The source path and message of a SpolsMVC runtime line.
fn runtime_fields_of(rest: &str) -> (r: (String, String))
    ensures
        (r.0@, r.1@) == runtime_fields(rest@),
{
    let file_tag = "[FILE]:";
    let msg_tag = "[MESSAGE]:";
    let n = rest.unicode_len();
    proof {
        lemma_find(rest@, file_tag@);
        lemma_find(rest@, msg_tag@);
    }
    match find_str(rest, file_tag) {
        Some(fi) => {
            let after = trim_start_str(rest.substring_char(fi + file_tag.unicode_len(), n));
            assert(rest@.subrange(fi + file_tag@.len(), n as int) =~= rest@.skip(
                fi + file_tag@.len(),
            ));
            let m = after.unicode_len();
            proof {
                lemma_find(after@, msg_tag@);
            }
            match find_str(after, msg_tag) {
                Some(mi) => {
                    let src = trim_str(after.substring_char(0, mi));
                    let msg = trim_str(after.substring_char(mi + msg_tag.unicode_len(), m));
                    assert(after@.subrange(0, mi as int) =~= after@.take(mi as int));
                    assert(after@.subrange(mi + msg_tag@.len(), m as int) =~= after@.skip(
                        mi + msg_tag@.len(),
                    ));
                    (src.to_owned(), msg.to_owned())
                },
                None => (String::new(), after.to_owned()),
            }
        },
        None => match find_str(rest, msg_tag) {
            Some(mi) => {
                let msg = trim_str(rest.substring_char(mi + msg_tag.unicode_len(), n));
                assert(rest@.subrange(mi + msg_tag@.len(), n as int) =~= rest@.skip(
                    mi + msg_tag@.len(),
                ));
                (String::new(), msg.to_owned())
            },
            None => (String::new(), rest.to_owned()),
        },
    }
}

/// The entry read from a trimmed SpolsMVC runtime line.
fn runtime_entry_of(t: &str) -> (e: LogEntry)
    ensures
        e@ == runtime_entry(t@),
{
    let (ts, rest) = peel_ts(t);
    let (source, message) = runtime_fields_of(rest);
    let short_src = short_source_from_path(source.as_str());
    let level = classify_spols_message(message.as_str());
    LogEntry { timestamp: ts.to_owned(), level, message, detail: source, short_src, count: 1 }
}

/// The message and SQL text of a SpolsMVC database line.
fn database_fields_of(rest: &str) -> (r: (String, String))
    ensures
        (r.0@, r.1@) == database_fields(rest@),
{
    let msg_tag = "[MESSAGE]:";
    let sql_tag = "[SQL]:";
    let n = rest.unicode_len();
    proof {
        lemma_find(rest@, msg_tag@);
    }
    match find_str(rest, msg_tag) {
        Some(mi) => {
            let after = trim_start_str(rest.substring_char(mi + msg_tag.unicode_len(), n));
            assert(rest@.subrange(mi + msg_tag@.len(), n as int) =~= rest@.skip(
                mi + msg_tag@.len(),
            ));
            let m = after.unicode_len();
            proof {
                lemma_find(after@, sql_tag@);
            }
            match find_str(after, sql_tag) {
                Some(si) => {
                    let msg = trim_str(after.substring_char(0, si));
                    let sql = trim_str(after.substring_char(si + sql_tag.unicode_len(), m));
                    assert(after@.subrange(0, si as int) =~= after@.take(si as int));
                    assert(after@.subrange(si + sql_tag@.len(), m as int) =~= after@.skip(
                        si + sql_tag@.len(),
                    ));
                    (msg.to_owned(), sql.to_owned())
                },
                None => (trim_str(after).to_owned(), String::new()),
            }
        },
        None => (trim_str(rest).to_owned(), String::new()),
    }
}

/// The entry read from a trimmed SpolsMVC database line.
fn database_entry_of(t: &str) -> (e: LogEntry)
    ensures
        e@ == database_entry(t@),
{
    let (ts, rest) = peel_ts(t);
    let (message, sql) = database_fields_of(rest);
    let detail = if sql.unicode_len() == 0 {
        String::new()
    } else {
        let mut d = "SQL:\n".to_owned();
        d.append(sql.as_str());
        d
    };
    LogEntry {
        timestamp: ts.to_owned(),
        level: Level::Error,
        message,
        detail,
        short_src: None,
        count: 1,
    }
}

/// Parses a line-per-record log, collapsing consecutive duplicates when
/// `dedup` is set.
fn parse_lines(content: &str, f: LineFormat, dedup: bool) -> (r: Vec<LogEntry>)
    requires
        dedup ==> collapse_fits(line_records(f, lines(content@))),
        dedup == !(f is Plain),
    ensures
        dedup ==> entries_view(r@) == dedup_all(line_records(f, lines(content@))),
        !dedup ==> entries_view(r@) == line_records(f, lines(content@)),
{
    let ls = lines_of(content);
    let ghost all = lines(content@);
    let mut entries: Vec<LogEntry> = Vec::new();
    let mut i: usize = 0;
    while i < ls.len()
        invariant
            ls@.len() == all.len(),
            all == lines(content@),
            dedup ==> collapse_fits(line_records(f, all)),
            forall|k: int| 0 <= k < ls@.len() ==> #[trigger] ls@[k]@ == all[k],
            dedup == !(f is Plain),
            i <= ls@.len(),
            dedup ==> entries_view(entries@) == dedup_all(line_records(f, all.take(i as int))),
            !dedup ==> entries_view(entries@) == line_records(f, all.take(i as int)),
        decreases ls@.len() - i,
    {
        let line = ls[i].as_str();
        assert(all.take(i + 1).drop_last() =~= all.take(i as int));
        assert(all.take(i + 1).last() == line@);
        let t = trim_str(line);
        if t.unicode_len() != 0 {
            let e = match f {
                LineFormat::Runtime => runtime_entry_of(t),
                LineFormat::Database => database_entry_of(t),
                LineFormat::Plain => LogEntry {
                    timestamp: String::new(),
                    level: Level::Unknown,
                    message: line.to_owned(),
                    detail: String::new(),
                    short_src: None,
                    count: 1,
                },
            };
            assert(e@ == line_record(f, line@));
            if dedup {
                let ghost prev = line_records(f, all.take(i as int));
                assert(prev.push(e@).drop_last() =~= prev);
                assert(line_records(f, all.take(i + 1)) == prev.push(e@));
                proof {
                    lemma_line_records_prefix(f, all, i + 1);
                    lemma_fits_prefix(line_records(f, all), prev.len() + 1int);
                }
                assert(collapse_fits(prev.push(e@)));
                assert(!push_would_overflow(entries_view(entries@), e@));
                push_or_dedup(&mut entries, e);
            } else {
                let ghost before = entries_view(entries@);
                entries.push(e);
                assert(entries_view(entries@) =~= before.push(line_record(f, line@)));
            }
        }
        i = i + 1;
    }
    assert(all.take(ls@.len() as int) =~= all);
    entries
}

/// Parses a SpolsMVC runtime log: one record per non-blank line, consecutive
/// duplicates collapsed.
pub fn parse_spols_runtime(content: &str) -> (r: Vec<LogEntry>)
    requires
        collapse_fits(line_records(LineFormat::Runtime, lines(content@))),
    ensures
        entries_view(r@) == dedup_all(line_records(LineFormat::Runtime, lines(content@))),
{
    parse_lines(content, LineFormat::Runtime, true)
}

/// Parses a SpolsMVC database log: one error per non-blank line, consecutive
/// duplicates collapsed.
pub fn parse_spols_database(content: &str) -> (r: Vec<LogEntry>)
    requires
        collapse_fits(line_records(LineFormat::Database, lines(content@))),
    ensures
        entries_view(r@) == dedup_all(line_records(LineFormat::Database, lines(content@))),
{
    parse_lines(content, LineFormat::Database, true)
}

/// Parses a log of unknown format: one entry per non-blank line, kept whole.
pub fn parse_generic(content: &str) -> (r: Vec<LogEntry>)
    ensures
        entries_view(r@) == line_records(LineFormat::Plain, lines(content@)),
{
    parse_lines(content, LineFormat::Plain, false)
}

/// The view of an open Laravel record held as plain values.
pub open spec fn pending_view(p: Option<(String, Level, String, Vec<String>)>) -> Option<Pending> {
    match p {
        Some((ts, lvl, msg, dl)) => Some(
            Pending { ts: ts@, level: lvl, message: msg@, detail: strings_view(dl@) },
        ),
        None => None,
    }
}

/// A Laravel message without its trailing JSON context, trimmed.
fn laravel_message_of(msg: &str) -> (r: String)
    ensures
        r@ == laravel_message(msg@),
{
    proof {
        lemma_find(msg@, " {\""@);
    }
    match find_str(msg, " {\"") {
        Some(i) => {
            let head = msg.substring_char(0, i);
            assert(msg@.subrange(0, i as int) =~= msg@.take(i as int));
            trim_str(head).to_owned()
        },
        None => trim_str(msg).to_owned(),
    }
}

/// The record that a Laravel header line opens.
fn laravel_open_of(line: &str) -> (r: (String, Level, String, Vec<String>))
    ensures
        pending_view(Some(r)) == Some(laravel_open(line@)),
{
    let (ts, rest) = peel_ts(line);
    let rcs = chars_of(rest);
    let n = rcs.len();
    match find_char_in(rcs.as_slice(), ':') {
        Some(colon) => {
            proof {
                lemma_find_char(rcs@, ':');
            }
            let ch = rest.substring_char(0, colon);
            assert(rest@.subrange(0, colon as int) =~= rest@.take(colon as int));
            let msg = trim_start_str(rest.substring_char(colon + 1, n));
            assert(rest@.subrange(colon + 1, n as int) =~= rest@.skip(colon + 1));
            let ccs = chars_of(ch);
            let lvl = match rfind_char_in(ccs.as_slice(), '.') {
                Some(d) => {
                    proof {
                        lemma_rfind_char(ccs@, '.');
                    }
                    let name = ch.substring_char(d + 1, ccs.len());
                    assert(ch@.subrange(d + 1, ch@.len() as int) =~= ch@.skip(d + 1));
                    Level::from_str(name)
                },
                None => Level::from_str(ch),
            };
            let m = laravel_message_of(msg);
            let r = (ts.to_owned(), lvl, m, Vec::new());
            assert(strings_view(r.3@) =~= seq![]);
            r
        },
        None => {
            let r = (ts.to_owned(), Level::Unknown, trim_str(rest).to_owned(), Vec::new());
            assert(strings_view(r.3@) =~= seq![]);
            r
        },
    }
}

/// The entry of a finished Laravel record.
fn laravel_entry_of(p: (String, Level, String, Vec<String>)) -> (e: LogEntry)
    ensures
        e@ == laravel_entry(pending_view(Some(p)).unwrap()),
{
    let (ts, lvl, msg, dl) = p;
    let detail = join_lines_exec(&dl);
    LogEntry { timestamp: ts, level: lvl, message: msg, detail, short_src: None, count: 1 }
}

/// Parses a Laravel log: a record begins at each `[YYYY-MM-DD hh:mm:ss]`
/// header and takes the following lines as its detail; consecutive duplicates
/// are collapsed.
pub fn parse_laravel(content: &str) -> (r: Vec<LogEntry>)
    requires
        collapse_fits(laravel_records(lines(content@))),
    ensures
        entries_view(r@) == dedup_all(laravel_records(lines(content@))),
{
    let ls = lines_of(content);
    let ghost all = lines(content@);
    let mut entries: Vec<LogEntry> = Vec::new();
    let mut pending: Option<(String, Level, String, Vec<String>)> = None;
    let mut i: usize = 0;
    while i < ls.len()
        invariant
            ls@.len() == all.len(),
            all == lines(content@),
            collapse_fits(laravel_records(all)),
            forall|k: int| 0 <= k < ls@.len() ==> #[trigger] ls@[k]@ == all[k],
            i <= ls@.len(),
            entries_view(entries@) == dedup_all(laravel_scan(all.take(i as int)).0),
            pending_view(pending) == laravel_scan(all.take(i as int)).1,
        decreases ls@.len() - i,
    {
        let line = ls[i].as_str();
        assert(all.take(i + 1).drop_last() =~= all.take(i as int));
        assert(all.take(i + 1).last() == line@);
        let ghost done = laravel_scan(all.take(i as int)).0;
        if is_laravel_header(line) {
            let prev = pending;
            match prev {
                Some(p) => {
                    let e = laravel_entry_of(p);
                    assert(done.push(e@).drop_last() =~= done);
                    proof {
                        lemma_laravel_records_prefix(all, i + 1);
                        lemma_fits_prefix(laravel_records(all), done.len() + 1int);
                    }
                    assert(laravel_scan(all.take(i + 1)).0 == done.push(e@));
                    assert(collapse_fits(done.push(e@)));
                    assert(!push_would_overflow(entries_view(entries@), e@));
                    push_or_dedup(&mut entries, e);
                },
                None => {},
            }
            pending = Some(laravel_open_of(line));
        } else {
            let prev = pending;
            pending = match prev {
                Some((ts, lvl, msg, dl)) => {
                    let mut dl = dl;
                    let ghost before = strings_view(dl@);
                    dl.push(line.to_owned());
                    assert(strings_view(dl@) =~= before.push(line@));
                    Some((ts, lvl, msg, dl))
                },
                None => None,
            };
        }
        i = i + 1;
    }
    assert(all.take(ls@.len() as int) =~= all);
    let ghost done = laravel_scan(all).0;
    match pending {
        Some(p) => {
            let e = laravel_entry_of(p);
            assert(done.push(e@).drop_last() =~= done);
            assert(laravel_records(all) == done.push(e@));
            assert(!push_would_overflow(entries_view(entries@), e@));
            push_or_dedup(&mut entries, e);
        },
        None => {},
    }
    entries
}

// ── Formats ──────────────────────────────────────────────────────────────────

/// The formats of log files that are told apart.
#[derive(Debug, Clone, Copy, PartialEq, Eq, Structural)]
pub enum LogFormat {
    SpolsRuntime,
    SpolsDatabase,
    Laravel,
    Generic,
}

/// The first line of a text, or nothing.
pub open spec fn first_line(content: Seq<char>) -> Seq<char> {
    if lines(content).len() > 0 {
        lines(content)[0]
    } else {
        seq![]
    }
}

/// Whether `c` is an ASCII digit.
pub open spec fn is_digit(c: char) -> bool {
    '0' <= c && c <= '9'
}

/// Whether a line opens with a Laravel date stamp `[YYYY-MM-DD`: a bracket,
/// four digits, a dash, two digits, a dash and two digits.
pub open spec fn opens_with_date(l: Seq<char>) -> bool {
    &&& l.len() >= 11
    &&& l[0] == '['
    &&& is_digit(l[1]) && is_digit(l[2]) && is_digit(l[3]) && is_digit(l[4])
    &&& l[5] == '-'
    &&& is_digit(l[6]) && is_digit(l[7])
    &&& l[8] == '-'
    &&& is_digit(l[9]) && is_digit(l[10])
}

/// The format of a log file. By file name first: one that contains
/// `runtime` is a SpolsMVC runtime log, `database` a SpolsMVC database log,
/// `laravel` or `app.log` a Laravel log. Else by the first line: one opening
/// with a `[YYYY-MM-DD` stamp is a Laravel log, else one holding a `[FILE]:`
/// tag is a runtime log and one holding a `[MESSAGE]:` tag a database log;
/// anything else is shown as it is.
pub open spec fn format_of(name: Seq<char>, content: Seq<char>) -> LogFormat {
    if contains(name, "runtime"@) {
        LogFormat::SpolsRuntime
    } else if contains(name, "database"@) {
        LogFormat::SpolsDatabase
    } else if contains(name, "laravel"@) || contains(name, "app.log"@) {
        LogFormat::Laravel
    } else {
        let first = first_line(content);
        if opens_with_date(first) {
            LogFormat::Laravel
        } else if contains(first, "[FILE]:"@) {
            LogFormat::SpolsRuntime
        } else if contains(first, "[MESSAGE]:"@) {
            LogFormat::SpolsDatabase
        } else {
            LogFormat::Generic
        }
    }
}

/// The entries that a text gives when read in the format `fmt`.
pub open spec fn parsed(content: Seq<char>, fmt: LogFormat) -> Seq<EntryView> {
    match fmt {
        LogFormat::SpolsRuntime => dedup_all(line_records(LineFormat::Runtime, lines(content))),
        LogFormat::SpolsDatabase => dedup_all(line_records(LineFormat::Database, lines(content))),
        LogFormat::Laravel => dedup_all(laravel_records(lines(content))),
        LogFormat::Generic => line_records(LineFormat::Plain, lines(content)),
    }
}

/// The records (before collapsing) that a text gives in the format `fmt`.
pub open spec fn records_of(content: Seq<char>, fmt: LogFormat) -> Seq<EntryView> {
    match fmt {
        LogFormat::SpolsRuntime => line_records(LineFormat::Runtime, lines(content)),
        LogFormat::SpolsDatabase => line_records(LineFormat::Database, lines(content)),
        LogFormat::Laravel => laravel_records(lines(content)),
        LogFormat::Generic => line_records(LineFormat::Plain, lines(content)),
    }
}

/// The format of a log file from its file name and its text.
pub fn detect_format(name: &str, content: &str) -> (r: LogFormat)
    ensures
        r == format_of(name@, content@),
{
    if contains_str(name, "runtime") {
        return LogFormat::SpolsRuntime;
    }
    if contains_str(name, "database") {
        return LogFormat::SpolsDatabase;
    }
    if contains_str(name, "laravel") || contains_str(name, "app.log") {
        return LogFormat::Laravel;
    }
    let ls = lines_of(content);
    let first = if ls.len() > 0 {
        ls[0].clone()
    } else {
        String::new()
    };
    assert(first@ == first_line(content@));
    let fc = chars_of(first.as_str());
    if fc.len() >= 11 && fc[0] == '[' && is_digit_char(fc[1]) && is_digit_char(fc[2])
        && is_digit_char(fc[3]) && is_digit_char(fc[4]) && fc[5] == '-' && is_digit_char(fc[6])
        && is_digit_char(fc[7]) && fc[8] == '-' && is_digit_char(fc[9]) && is_digit_char(fc[10]) {
        return LogFormat::Laravel;
    }
    if contains_str(first.as_str(), "[FILE]:") {
        return LogFormat::SpolsRuntime;
    }
    if contains_str(first.as_str(), "[MESSAGE]:") {
        return LogFormat::SpolsDatabase;
    }
    LogFormat::Generic
}

/// Whether `c` is an ASCII digit.
fn is_digit_char(c: char) -> (r: bool)
    ensures
        r == is_digit(c),
{
    '0' <= c && c <= '9'
}

/// Parses a text in the format `fmt`.
pub fn parse_all(content: &str, fmt: &LogFormat) -> (r: Vec<LogEntry>)
    requires
        counts_fit(content@, *fmt),
    ensures
        entries_view(r@) == parsed(content@, *fmt),
{
    match fmt {
        LogFormat::SpolsRuntime => parse_spols_runtime(content),
        LogFormat::SpolsDatabase => parse_spols_database(content),
        LogFormat::Laravel => parse_laravel(content),
        LogFormat::Generic => parse_generic(content),
    }
}

// ── Laws ─────────────────────────────────────────────────────────────────────

/// The number of lines of `ls` that are not blank.
pub open spec fn nonblank_count(ls: Seq<Seq<char>>) -> nat
    decreases ls.len(),
{
    if ls.len() == 0 {
        0
    } else if trim(ls.last()).len() == 0 {
        nonblank_count(ls.drop_last())
    } else {
        nonblank_count(ls.drop_last()) + 1
    }
}

/// The number of Laravel header lines of `ls`.
pub open spec fn header_count(ls: Seq<Seq<char>>) -> nat
    decreases ls.len(),
{
    if ls.len() == 0 {
        0
    } else if laravel_header(ls.last()) {
        header_count(ls.drop_last()) + 1
    } else {
        header_count(ls.drop_last())
    }
}

/// Whether `e` looks like a database record: an error with no source whose
/// detail is empty or starts with an `SQL:` heading line.
pub open spec fn database_shape(e: EntryView) -> bool {
    &&& e.level == Level::Error
    &&& e.short_src is None
    &&& e.detail.len() == 0 || "SQL:\n"@.is_prefix_of(e.detail)
}

/// Whether some Laravel header line of `ls` carries the timestamp `ts`.
pub open spec fn header_time(ls: Seq<Seq<char>>, ts: Seq<char>) -> bool {
    exists|h: int| 0 <= h < ls.len() && laravel_header(ls[h]) && #[trigger] peel(ls[h]).0 == ts
}

/// Each line-per-record record counts once, there is one record per
/// non-blank line, and database records look like database records.
pub proof fn lemma_line_records(f: LineFormat, ls: Seq<Seq<char>>)
    ensures
        all_single(line_records(f, ls)),
        line_records(f, ls).len() == nonblank_count(ls),
        nonblank_count(ls) <= ls.len(),
        f is Database ==> forall|k: int|
            0 <= k < line_records(f, ls).len() ==> database_shape(
                #[trigger] line_records(f, ls)[k],
            ),
    decreases ls.len(),
{
    if ls.len() > 0 {
        lemma_line_records(f, ls.drop_last());
        if f is Database && trim(ls.last()).len() != 0 {
            let e = line_record(f, ls.last());
            let (ts, rest) = peel(trim(ls.last()));
            let (message, sql) = database_fields(rest);
            if sql.len() != 0 {
                assert("SQL:\n"@ =~= ("SQL:\n"@ + sql).subrange(0, "SQL:\n"@.len() as int));
            }
            assert(database_shape(e));
            let prev = line_records(f, ls.drop_last());
            let r = line_records(f, ls);
            assert forall|k: int| 0 <= k < r.len() implies database_shape(#[trigger] r[k]) by {
                if k < prev.len() {
                    assert(r[k] == prev[k]);
                }
            }
        }
    }
}

/// The records of the first `j` lines begin the records of all the lines.
pub proof fn lemma_line_records_prefix(f: LineFormat, ls: Seq<Seq<char>>, j: int)
    requires
        0 <= j <= ls.len(),
    ensures
        line_records(f, ls.take(j)).len() <= line_records(f, ls).len(),
        line_records(f, ls).take(line_records(f, ls.take(j)).len() as int) == line_records(
            f,
            ls.take(j),
        ),
    decreases ls.len(),
{
    if j == ls.len() {
        assert(ls.take(j) =~= ls);
        assert(line_records(f, ls).take(line_records(f, ls).len() as int) =~= line_records(f, ls));
    } else {
        let q = ls.drop_last();
        lemma_line_records_prefix(f, q, j);
        assert(q.take(j) =~= ls.take(j));
        let a = line_records(f, ls.take(j));
        let b = line_records(f, q);
        let c = line_records(f, ls);
        assert(c.take(a.len() as int) =~= b.take(a.len() as int));
    }
}

/// The Laravel records finished within the first `j` lines begin the
/// records of all the lines.
pub proof fn lemma_laravel_records_prefix(ls: Seq<Seq<char>>, j: int)
    requires
        0 <= j <= ls.len(),
    ensures
        laravel_scan(ls.take(j)).0.len() <= laravel_records(ls).len(),
        laravel_records(ls).take(laravel_scan(ls.take(j)).0.len() as int) == laravel_scan(
            ls.take(j),
        ).0,
{
    lemma_laravel_done_prefix(ls, j);
    let a = laravel_scan(ls.take(j)).0;
    let b = laravel_scan(ls).0;
    let c = laravel_records(ls);
    assert(c.take(a.len() as int) =~= b.take(a.len() as int));
}

/// The Laravel records finished within the first `j` lines begin those
/// finished within all the lines.
proof fn lemma_laravel_done_prefix(ls: Seq<Seq<char>>, j: int)
    requires
        0 <= j <= ls.len(),
    ensures
        laravel_scan(ls.take(j)).0.len() <= laravel_scan(ls).0.len(),
        laravel_scan(ls).0.take(laravel_scan(ls.take(j)).0.len() as int) == laravel_scan(
            ls.take(j),
        ).0,
    decreases ls.len(),
{
    if j == ls.len() {
        assert(ls.take(j) =~= ls);
        assert(laravel_scan(ls).0.take(laravel_scan(ls).0.len() as int) =~= laravel_scan(ls).0);
    } else {
        let q = ls.drop_last();
        lemma_laravel_done_prefix(q, j);
        assert(q.take(j) =~= ls.take(j));
        let a = laravel_scan(ls.take(j)).0;
        let b = laravel_scan(q).0;
        let c = laravel_scan(ls).0;
        assert(c.take(a.len() as int) =~= b.take(a.len() as int));
    }
}

/// Reading Laravel lines: each finished record counts once, has no source
/// and carries the timestamp of a header line, as does the open record; the
/// finished records plus the open one are the header lines, and no more than
/// the lines.
pub proof fn lemma_laravel_scan(ls: Seq<Seq<char>>)
    ensures
        all_single(laravel_scan(ls).0),
        laravel_scan(ls).0.len() + (if laravel_scan(ls).1 is Some {
            1int
        } else {
            0int
        }) == header_count(ls),
        header_count(ls) <= ls.len(),
        forall|k: int|
            0 <= k < laravel_scan(ls).0.len() ==> (#[trigger] laravel_scan(ls).0[k]).short_src is None
                && header_time(ls, laravel_scan(ls).0[k].timestamp),
        laravel_scan(ls).1 matches Some(p) ==> header_time(ls, p.ts),
    decreases ls.len(),
{
    if ls.len() > 0 {
        let q = ls.drop_last();
        lemma_laravel_scan(q);
        let (done0, open0) = laravel_scan(q);
        let (done, open) = laravel_scan(ls);
        let n = ls.len() - 1;
        assert forall|t: Seq<char>| header_time(q, t) implies header_time(ls, t) by {
            let h = choose|h: int| 0 <= h < q.len() && laravel_header(q[h]) && #[trigger] peel(q[h]).0 == t;
            assert(ls[h] == q[h]);
        }
        if laravel_header(ls.last()) {
            assert(peel(ls[n]).0 == laravel_open(ls.last()).ts);
            assert(header_time(ls, laravel_open(ls.last()).ts));
        }
        assert forall|k: int| 0 <= k < done.len() implies (#[trigger] done[k]).short_src is None
            && header_time(ls, done[k].timestamp) by {
            if k < done0.len() {
                assert(done[k] == done0[k]);
            } else {
                let p = open0->0;
                assert(done[k] == laravel_entry(p));
                assert(header_time(q, p.ts));
            }
        }
        assert forall|k: int| 0 <= k < done.len() implies #[trigger] done[k].count == 1 by {
            if k < done0.len() {
                assert(done[k] == done0[k]);
            }
        }
        match open0 {
            Some(p) => {
                assert(header_time(q, p.ts));
            },
            None => {},
        }
    }
}

/// Collapsing in the SpolsMVC and Laravel parsers leaves no two neighbouring
/// entries with the same message and level, and the counts of the entries add
/// up to the number of records read (one per non-blank line, or one per
/// Laravel header).
pub proof fn lemma_parsed_collapsed(content: Seq<char>, fmt: LogFormat)
    requires
        counts_fit(content, fmt),
        fmt != LogFormat::Generic,
    ensures
        no_adjacent_duplicates(parsed(content, fmt)),
        total_count(parsed(content, fmt)) == records_of(content, fmt).len(),
        parsed(content, fmt).len() <= records_of(content, fmt).len(),
{
    let ls = lines(content);
    match fmt {
        LogFormat::SpolsRuntime => {
            lemma_line_records(LineFormat::Runtime, ls);
            lemma_dedup_all(line_records(LineFormat::Runtime, ls));
        },
        LogFormat::SpolsDatabase => {
            lemma_line_records(LineFormat::Database, ls);
            lemma_dedup_all(line_records(LineFormat::Database, ls));
        },
        LogFormat::Laravel => {
            lemma_laravel_scan(ls);
            let recs = laravel_records(ls);
            assert(all_single(recs)) by {
                let (done, open) = laravel_scan(ls);
                assert forall|i: int| 0 <= i < recs.len() implies #[trigger] recs[i].count == 1 by {
                    if i < done.len() {
                        assert(recs[i] == done[i]);
                    }
                }
            }
            lemma_dedup_all(recs);
        },
        LogFormat::Generic => {},
    }
}

/// A plain log gives one entry, counted once, per non-blank line, with the
/// whole line as its message.
pub proof fn lemma_generic_entries(content: Seq<char>)
    ensures
        all_single(parsed(content, LogFormat::Generic)),
        parsed(content, LogFormat::Generic).len() <= lines(content).len(),
{
    lemma_line_records(LineFormat::Plain, lines(content));
}

/// A database log gives only errors without a source, each with an empty
/// detail or an `SQL:` heading; each counts at least once, the counts add up
/// to the non-blank lines, and no two neighbours share a message.
pub proof fn lemma_database_entries(content: Seq<char>)
    requires
        counts_fit(content, LogFormat::SpolsDatabase),
    ensures
        forall|i: int|
            0 <= i < parsed(content, LogFormat::SpolsDatabase).len() ==> database_shape(
                #[trigger] parsed(content, LogFormat::SpolsDatabase)[i],
            ) && parsed(content, LogFormat::SpolsDatabase)[i].count >= 1,
        total_count(parsed(content, LogFormat::SpolsDatabase)) == nonblank_count(lines(content)),
        forall|i: int|
            0 <= i < parsed(content, LogFormat::SpolsDatabase).len() - 1 ==> (
            #[trigger] parsed(content, LogFormat::SpolsDatabase)[i]).message != parsed(
                content,
                LogFormat::SpolsDatabase,
            )[i + 1].message,
{
    let ls = lines(content);
    let raw = line_records(LineFormat::Database, ls);
    lemma_line_records(LineFormat::Database, ls);
    lemma_dedup_all(raw);
    lemma_dedup_origin(raw);
    let es = dedup_all(raw);
    assert forall|i: int| 0 <= i < es.len() implies database_shape(#[trigger] es[i]) && es[i].count
        >= 1 by {
        assert(has_origin(es[i], raw));
        let j = choose|j: int| 0 <= j < raw.len() && same_origin(es[i], raw[j]);
        assert(database_shape(raw[j]));
    }
    assert forall|i: int| 0 <= i < es.len() - 1 implies (#[trigger] es[i]).message
        != es[i + 1].message by {
        assert(database_shape(es[i]) && database_shape(es[i + 1]));
        assert(!crate::entry::same_key(es[i], es[i + 1]));
    }
}

/// A Laravel log gives one record per header line: the counts add up to the
/// header lines, a text without headers gives no entries, and each entry
/// counts at least once, has no source and carries the timestamp of a header
/// line.
pub proof fn lemma_laravel_entries(content: Seq<char>)
    requires
        counts_fit(content, LogFormat::Laravel),
    ensures
        total_count(parsed(content, LogFormat::Laravel)) == header_count(lines(content)),
        header_count(lines(content)) == 0 ==> parsed(content, LogFormat::Laravel).len() == 0,
        forall|i: int|
            0 <= i < parsed(content, LogFormat::Laravel).len() ==> (#[trigger] parsed(
                content,
                LogFormat::Laravel,
            )[i]).count >= 1 && parsed(content, LogFormat::Laravel)[i].short_src is None
                && header_time(lines(content), parsed(content, LogFormat::Laravel)[i].timestamp),
{
    let ls = lines(content);
    lemma_laravel_scan(ls);
    lemma_parsed_collapsed(content, LogFormat::Laravel);
    let (done, open) = laravel_scan(ls);
    let raw = laravel_records(ls);
    assert(raw.len() == header_count(ls));
    assert forall|k: int| 0 <= k < raw.len() implies (#[trigger] raw[k]).short_src is None
        && header_time(ls, raw[k].timestamp) && raw[k].count == 1 by {
        if k < done.len() {
            assert(raw[k] == done[k]);
        }
    }
    lemma_dedup_all(raw);
    lemma_dedup_origin(raw);
    let es = dedup_all(raw);
    assert forall|i: int| 0 <= i < es.len() implies (#[trigger] es[i]).count >= 1
        && es[i].short_src is None && header_time(ls, es[i].timestamp) by {
        assert(has_origin(es[i], raw));
        let j = choose|j: int| 0 <= j < raw.len() && same_origin(es[i], raw[j]);
        assert(raw[j].short_src is None);
        assert(has_time(es[i], raw));
        let m = choose|m: int| 0 <= m < raw.len() && same_time(es[i], raw[m]);
        assert(header_time(ls, raw[m].timestamp));
    }
}

/// A SpolsMVC log, run by run: there is one record per non-blank line, and
/// the entries are those records collapsed run by run (see
/// `collapsed_by_runs`): each entry stands for a maximal run of consecutive
/// records with the same message and level, with the first record's fields,
/// the last record's timestamp and the length of the run as its count.
pub proof fn lemma_spols_by_runs(content: Seq<char>, f: LineFormat)
    requires
        collapse_fits(line_records(f, lines(content))),
        !(f is Plain),
    ensures
        line_records(f, lines(content)).len() == nonblank_count(lines(content)),
        collapsed_by_runs(
            line_records(f, lines(content)),
            dedup_all(line_records(f, lines(content))),
            run_ends(line_records(f, lines(content))),
        ),
        f is Runtime ==> parsed(content, LogFormat::SpolsRuntime) == dedup_all(
            line_records(f, lines(content)),
        ),
        f is Database ==> parsed(content, LogFormat::SpolsDatabase) == dedup_all(
            line_records(f, lines(content)),
        ),
{
    lemma_line_records(f, lines(content));
    lemma_dedup_runs(line_records(f, lines(content)));
}

/// A text of no more lines than an entry's counter holds is read in every
/// format without overflow.
pub proof fn lemma_countable_fits(content: Seq<char>, fmt: LogFormat)
    requires
        countable(content),
    ensures
        counts_fit(content, fmt),
{
    let ls = lines(content);
    match fmt {
        LogFormat::SpolsRuntime => {
            lemma_line_records(LineFormat::Runtime, ls);
            lemma_few_records_fit(line_records(LineFormat::Runtime, ls));
        },
        LogFormat::SpolsDatabase => {
            lemma_line_records(LineFormat::Database, ls);
            lemma_few_records_fit(line_records(LineFormat::Database, ls));
        },
        LogFormat::Laravel => {
            lemma_laravel_scan(ls);
            let recs = laravel_records(ls);
            let (done, open) = laravel_scan(ls);
            assert(all_single(recs)) by {
                assert forall|i: int| 0 <= i < recs.len() implies #[trigger] recs[i].count == 1 by {
                    if i < done.len() {
                        assert(recs[i] == done[i]);
                    }
                }
            }
            lemma_few_records_fit(recs);
        },
        LogFormat::Generic => {},
    }
}

/// How a SpolsMVC message is classified, read on its lower-cased text: one
/// mentioning an exception, something uncaught or something fatal is an
/// error, as is one mentioning an error but nothing deprecated; otherwise one
/// mentioning something deprecated or a warning is a warning; anything else is
/// of unknown level.
pub proof fn lemma_classify_message(msg: Seq<char>)
    ensures
        contains(lowercase_of(msg), "exception"@) ==> classify(msg) == Level::Error,
        contains(lowercase_of(msg), "uncaught"@) ==> classify(msg) == Level::Error,
        contains(lowercase_of(msg), "fatal"@) ==> classify(msg) == Level::Error,
        contains(lowercase_of(msg), "error"@) && !contains(lowercase_of(msg), "deprecated"@)
            ==> classify(msg) == Level::Error,
        !contains(lowercase_of(msg), "exception"@) && !contains(lowercase_of(msg), "uncaught"@)
            && !contains(lowercase_of(msg), "fatal"@) && contains(lowercase_of(msg), "deprecated"@)
            ==> classify(msg) == Level::Warning,
        !contains(lowercase_of(msg), "exception"@) && !contains(lowercase_of(msg), "uncaught"@)
            && !contains(lowercase_of(msg), "fatal"@) && !contains(lowercase_of(msg), "error"@)
            && contains(lowercase_of(msg), "warning"@) ==> classify(msg) == Level::Warning,
        !contains(lowercase_of(msg), "exception"@) && !contains(lowercase_of(msg), "uncaught"@)
            && !contains(lowercase_of(msg), "fatal"@) && !contains(lowercase_of(msg), "error"@)
            && !contains(lowercase_of(msg), "deprecated"@) && !contains(
            lowercase_of(msg),
            "warning"@,
        ) ==> classify(msg) == Level::Unknown,
{
}

/// The level of a Laravel record is read from the name after the last dot of
/// its channel: a channel such as `local.ALERT`, whose last part upper-cases
/// to ERROR, CRITICAL, ALERT or EMERGENCY, gives an error; WARNING or WARN a
/// warning; INFO or NOTICE information; DEBUG debugging output.
pub proof fn lemma_channel_level(ch: Seq<char>, d: int)
    requires
        rfind_char(ch, '.') == Some(d),
    ensures
        ({
            let u = uppercase_of(ch.skip(d + 1));
            &&& (u == "ERROR"@ || u == "CRITICAL"@ || u == "ALERT"@ || u == "EMERGENCY"@)
                ==> channel_level(ch) == Level::Error
            &&& (u == "WARNING"@ || u == "WARN"@) ==> channel_level(ch) == Level::Warning
            &&& (u == "INFO"@ || u == "NOTICE"@) ==> channel_level(ch) == Level::Info
            &&& u == "DEBUG"@ ==> channel_level(ch) == Level::Debug
        }),
{
    lemma_level_names(ch.skip(d + 1));
}

/// The format of a log file, rule by rule. By name: a name containing
/// `runtime` gives a runtime log; else `database` a database log; else
/// `laravel` or `app.log` a Laravel log. When the name says nothing, by the
/// first line: one opening with a `[YYYY-MM-DD` stamp is Laravel; else one
/// holding `[FILE]:` is a runtime log whatever else it holds; else one holding
/// `[MESSAGE]:` a database log; else the log is plain.
pub proof fn lemma_format_rules(name: Seq<char>, content: Seq<char>)
    ensures
        contains(name, "runtime"@) ==> format_of(name, content) == LogFormat::SpolsRuntime,
        !contains(name, "runtime"@) && contains(name, "database"@) ==> format_of(name, content)
            == LogFormat::SpolsDatabase,
        !contains(name, "runtime"@) && !contains(name, "database"@) && (contains(
            name,
            "laravel"@,
        ) || contains(name, "app.log"@)) ==> format_of(name, content) == LogFormat::Laravel,
        ({
            let named = contains(name, "runtime"@) || contains(name, "database"@) || contains(
                name,
                "laravel"@,
            ) || contains(name, "app.log"@);
            let first = if lines(content).len() > 0 {
                lines(content)[0]
            } else {
                seq![]
            };
            let stamped = first.len() >= 11 && first[0] == '[' && ('0' <= first[1] <= '9') && (
            '0' <= first[2] <= '9') && ('0' <= first[3] <= '9') && ('0' <= first[4] <= '9')
                && first[5] == '-' && ('0' <= first[6] <= '9') && ('0' <= first[7] <= '9')
                && first[8] == '-' && ('0' <= first[9] <= '9') && ('0' <= first[10] <= '9');
            &&& !named && stamped ==> format_of(name, content) == LogFormat::Laravel
            &&& !named && !stamped && contains(first, "[FILE]:"@) ==> format_of(name, content)
                == LogFormat::SpolsRuntime
            &&& !named && !stamped && !contains(first, "[FILE]:"@) && contains(
                first,
                "[MESSAGE]:"@,
            ) ==> format_of(name, content) == LogFormat::SpolsDatabase
            &&& !named && !stamped && !contains(first, "[FILE]:"@) && !contains(
                first,
                "[MESSAGE]:"@,
            ) ==> format_of(name, content) == LogFormat::Generic
        }),
{
}

} // verus!
