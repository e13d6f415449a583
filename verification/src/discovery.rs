//! Finding log files in a project: where the project root is, which
//! directories are searched, and the order in which found logs are offered.
use vstd::prelude::*;
use crate::text::{chars_of, str_eq};

verus! {

broadcast use vstd::seq_lib::group_to_multiset_ensures;

// ── Project root ─────────────────────────────────────────────────────────────

/// The first index at or after `i` whose flag is set.
pub open spec fn first_marked_from(m: Seq<bool>, i: int) -> Option<int>
    decreases m.len() - i,
{
    if i < 0 || i >= m.len() {
        None
    } else if m[i] {
        Some(i)
    } else {
        first_marked_from(m, i + 1)
    }
}

/// Whether a directory entry named `name` marks its directory as the project
/// root: a `.git` entry or a `composer.json` file.
pub open spec fn root_marker(name: Seq<char>) -> bool {
    name == ".git"@ || name == "composer.json"@
}

/// Whether a directory entry named `name` marks the project root.
pub fn is_root_marker(name: &str) -> (r: bool)
    ensures
        r == root_marker(name@),
{
    str_eq(name, ".git") || str_eq(name, "composer.json")
}

/// Which of the directories `start`, its parent, its grandparent, ... is the
/// project root, given for each whether it holds a root marker (see
/// `root_marker`): the nearest one that does, else `start` itself (index 0).
pub open spec fn root_index(marked: Seq<bool>) -> int {
    match first_marked_from(marked, 0) {
        Some(i) => i,
        None => 0,
    }
}

/// Picks the project root among the ancestors of the starting directory
/// (`marked[0]` is the start, then each parent in turn).
pub fn find_project_root(marked: &[bool]) -> (r: usize)
    ensures
        r == root_index(marked@),
{
    let mut i: usize = 0;
    while i < marked.len()
        invariant
            i <= marked@.len(),
            first_marked_from(marked@, 0) == first_marked_from(marked@, i as int),
        decreases marked@.len() - i,
    {
        if marked[i] {
            return i;
        }
        i = i + 1;
    }
    0
}

/// The nearest marked directory is the root.
pub proof fn lemma_root_is_nearest(marked: Seq<bool>)
    ensures
        0 <= root_index(marked),
        root_index(marked) < marked.len() || marked.len() == 0,
        (exists|j: int| 0 <= j < marked.len() && marked[j]) ==> marked[root_index(marked)]
            && forall|j: int| 0 <= j < root_index(marked) ==> !marked[j],
{
    lemma_first_marked(marked, 0);
}

proof fn lemma_first_marked(marked: Seq<bool>, i: int)
    requires
        0 <= i,
    ensures
        match first_marked_from(marked, i) {
            Some(k) => i <= k < marked.len() && marked[k] && forall|j: int|
                i <= j < k ==> !marked[j],
            None => forall|j: int| i <= j < marked.len() ==> !marked[j],
        },
    decreases marked.len() - i,
{
    if i < marked.len() && !marked[i] {
        lemma_first_marked(marked, i + 1);
    }
}

// ── Directory scan ───────────────────────────────────────────────────────────

/// The names of the directories that hold logs.
pub open spec fn log_dir_name(name: Seq<char>) -> bool {
    name == "Logs"@ || name == "logs"@ || name == "log"@
}

/// The names of the directories never searched.
pub open spec fn skipped_dir_name(name: Seq<char>) -> bool {
    name == "vendor"@ || name == "node_modules"@ || name == "target"@ || name == ".git"@ || name
        == "cache"@ || name == ".promptgoblin"@ || name == "bower_components"@ || name
        == "docker"@
}

/// Whether a directory of this name holds logs.
pub fn is_log_dir(name: &str) -> (r: bool)
    ensures
        r == log_dir_name(name@),
{
    str_eq(name, "Logs") || str_eq(name, "logs") || str_eq(name, "log")
}

/// Whether a directory of this name is left out of the search.
pub fn is_skipped_dir(name: &str) -> (r: bool)
    ensures
        r == skipped_dir_name(name@),
{
    str_eq(name, "vendor") || str_eq(name, "node_modules") || str_eq(name, "target") || str_eq(
        name,
        ".git",
    ) || str_eq(name, "cache") || str_eq(name, ".promptgoblin") || str_eq(name, "bower_components")
        || str_eq(name, "docker")
}

/// What the search does with a directory.
#[derive(Debug, Clone, Copy, PartialEq, Eq, Structural)]
pub enum ScanStep {
    /// Leave the directory alone.
    Skip,
    /// Take the `.log` files directly inside it, and look no deeper.
    CollectLogs,
    /// Search each of its subdirectories, one level deeper.
    Descend,
}

/// The deepest level that the search enters.
pub const MAX_SCAN_DEPTH: usize = 7;

/// What the search does with a directory of this name at this depth (the
/// project root is depth 0): too deep or skipped names are left alone, log
/// directories below the root give their log files, the rest is searched.
pub open spec fn scan_step_of(name: Seq<char>, depth: usize) -> ScanStep {
    if depth > MAX_SCAN_DEPTH {
        ScanStep::Skip
    } else if skipped_dir_name(name) {
        ScanStep::Skip
    } else if log_dir_name(name) && depth > 0 {
        ScanStep::CollectLogs
    } else {
        ScanStep::Descend
    }
}

/// Decides what the search does with a directory.
pub fn scan_step(name: &str, depth: usize) -> (r: ScanStep)
    ensures
        r == scan_step_of(name@, depth),
{
    if depth > MAX_SCAN_DEPTH {
        return ScanStep::Skip;
    }
    if is_skipped_dir(name) {
        return ScanStep::Skip;
    }
    if is_log_dir(name) && depth > 0 {
        return ScanStep::CollectLogs;
    }
    ScanStep::Descend
}

/// Whether a file with this extension is a log file.
pub fn is_log_extension(ext: Option<&str>) -> (r: bool)
    ensures
        r == (ext is Some && ext.unwrap()@ == "log"@),
{
    match ext {
        Some(e) => str_eq(e, "log"),
        None => false,
    }
}

// ── Ordering the found logs ──────────────────────────────────────────────────

/// A log file found by the search: a key that is equal exactly for equal
/// paths, and the path shown for it.
pub struct FoundLog {
    pub path_key: Vec<u8>,
    pub rel: String,
}

/// A found log as plain values.
pub struct FoundView {
    pub key: Seq<u8>,
    pub rel: Seq<char>,
}

impl View for FoundLog {
    type V = FoundView;

    open spec fn view(&self) -> FoundView {
        FoundView { key: self.path_key@, rel: self.rel@ }
    }
}

/// The views of found logs.
pub open spec fn found_view(v: Seq<FoundLog>) -> Seq<FoundView> {
    v.map_values(|f: FoundLog| f@)
}

/// The lexicographic order of texts by code point (the order of `String`).
pub open spec fn lex_le(a: Seq<char>, b: Seq<char>) -> bool
    decreases a.len(),
{
    if a.len() == 0 {
        true
    } else if b.len() == 0 {
        false
    } else if a[0] != b[0] {
        a[0] < b[0]
    } else {
        lex_le(a.drop_first(), b.drop_first())
    }
}

/// `x` placed into the ordered `s` after every element whose path sorts at or
/// before its own.
pub open spec fn insert_sorted(s: Seq<FoundView>, x: FoundView) -> Seq<FoundView>
    decreases s.len(),
{
    if s.len() == 0 {
        seq![x]
    } else if lex_le(s.last().rel, x.rel) {
        s.push(x)
    } else {
        insert_sorted(s.drop_last(), x).push(s.last())
    }
}

/// `s` stably sorted by shown path.
pub open spec fn sort_by_rel(s: Seq<FoundView>) -> Seq<FoundView>
    decreases s.len(),
{
    if s.len() == 0 {
        seq![]
    } else {
        insert_sorted(sort_by_rel(s.drop_last()), s.last())
    }
}

/// `s` without each element whose key repeats the one kept just before it.
pub open spec fn dedup_keys(s: Seq<FoundView>) -> Seq<FoundView>
    decreases s.len(),
{
    if s.len() == 0 {
        seq![]
    } else {
        let d = dedup_keys(s.drop_last());
        if d.len() > 0 && d.last().key == s.last().key {
            d
        } else {
            d.push(s.last())
        }
    }
}

/// The logs offered, in order: sorted by shown path, repeated paths dropped.
pub open spec fn discovered(found: Seq<FoundView>) -> Seq<FoundView> {
    dedup_keys(sort_by_rel(found))
}

/// `s` is in order of shown path.
pub open spec fn sorted_by_rel(s: Seq<FoundView>) -> bool {
    forall|i: int, j: int| 0 <= i < j < s.len() ==> lex_le(#[trigger] s[i].rel, #[trigger] s[j].rel)
}

/// Whether `a` sorts at or before `b`.
fn rel_le(a: &[char], b: &[char]) -> (r: bool)
    ensures
        r == lex_le(a@, b@),
{
    let mut i: usize = 0;
    assert(a@.skip(0) =~= a@);
    assert(b@.skip(0) =~= b@);
    while i < a.len() && i < b.len()
        invariant
            i <= a@.len(),
            i <= b@.len(),
            lex_le(a@, b@) == lex_le(a@.skip(i as int), b@.skip(i as int)),
        decreases a@.len() - i,
    {
        if a[i] != b[i] {
            assert(a@.skip(i as int)[0] == a@[i as int]);
            assert(b@.skip(i as int)[0] == b@[i as int]);
            return a[i] < b[i];
        }
        assert(a@.skip(i as int).drop_first() =~= a@.skip(i + 1));
        assert(b@.skip(i as int).drop_first() =~= b@.skip(i + 1));
        i = i + 1;
    }
    i == a.len()
}

/// Whether two byte strings are equal.
fn bytes_eq(a: &Vec<u8>, b: &Vec<u8>) -> (r: bool)
    ensures
        r == (a@ == b@),
{
    if a.len() != b.len() {
        return false;
    }
    let mut i: usize = 0;
    while i < a.len()
        invariant
            a@.len() == b@.len(),
            i <= a@.len(),
            forall|j: int| 0 <= j < i ==> a@[j] == b@[j],
        decreases a@.len() - i,
    {
        if a[i] != b[i] {
            assert(a@[i as int] != b@[i as int]);
            return false;
        }
        i = i + 1;
    }
    assert(a@ =~= b@);
    true
}

/// Places `x` into the sorted list `sorted`.
fn insert_found(sorted: &mut Vec<FoundLog>, x: FoundLog)
    ensures
        found_view(final(sorted)@) == insert_sorted(found_view(old(sorted)@), x@),
{
    let ghost s = found_view(sorted@);
    let xr = chars_of(x.rel.as_str());
    let mut j = sorted.len();
    assert(s.take(j as int) =~= s);
    assert(s.skip(j as int) =~= seq![]);
    while j > 0
        invariant
            j <= sorted@.len(),
            s == found_view(sorted@),
            xr@ == x@.rel,
            insert_sorted(s, x@) == insert_sorted(s.take(j as int), x@) + s.skip(j as int),
        ensures
            j <= sorted@.len(),
            s == found_view(sorted@),
            insert_sorted(s, x@) == insert_sorted(s.take(j as int), x@) + s.skip(j as int),
            j == 0 || lex_le(s[j - 1].rel, x@.rel),
        decreases j,
    {
        let yr = chars_of(sorted[j - 1].rel.as_str());
        if rel_le(yr.as_slice(), xr.as_slice()) {
            break;
        }
        proof {
            let t = s.take(j as int);
            assert(t.drop_last() =~= s.take(j - 1));
            assert(t.last() == s[j - 1]);
            assert(insert_sorted(t, x@) == insert_sorted(s.take(j - 1), x@).push(s[j - 1]));
            assert(insert_sorted(s.take(j - 1), x@).push(s[j - 1]) + s.skip(j as int)
                =~= insert_sorted(s.take(j - 1), x@) + s.skip(j - 1));
        }
        j = j - 1;
    }
    proof {
        let t = s.take(j as int);
        if j > 0 {
            assert(t.last() == s[j - 1]);
            assert(insert_sorted(t, x@) == t.push(x@));
        } else {
            assert(t =~= seq![]);
        }
        assert(insert_sorted(s, x@) =~= s.insert(j as int, x@));
    }
    sorted.insert(j, x);
    assert(found_view(sorted@) =~= s.insert(j as int, x@));
}

/// Orders the logs that the search found: sorted by shown path (stably),
/// then each one whose path repeats the one kept just before it dropped.
pub fn discover_logs(found: Vec<FoundLog>) -> (r: Vec<FoundLog>)
    ensures
        found_view(r@) == discovered(found_view(found@)),
{
    let ghost all = found_view(found@);
    let mut sorted: Vec<FoundLog> = Vec::new();
    for x in it: found.into_iter()
        invariant
            it.seq() == found@,
            all == found_view(found@),
            found_view(sorted@) == sort_by_rel(all.take(it.index() as int)),
    {
        let ghost k = it.index();
        proof {
            assert(all.take(k + 1).drop_last() =~= all.take(k as int));
            assert(all.take(k + 1).last() == x@);
        }
        insert_found(&mut sorted, x);
    }
    assert(all.take(all.len() as int) =~= all);
    let ghost srt = found_view(sorted@);
    let mut out: Vec<FoundLog> = Vec::new();
    for x in it: sorted.into_iter()
        invariant
            srt == found_view(it.seq()),
            found_view(out@) == dedup_keys(srt.take(it.index() as int)),
    {
        let ghost k = it.index();
        proof {
            assert(srt.take(k + 1).drop_last() =~= srt.take(k as int));
            assert(srt.take(k + 1).last() == x@);
        }
        let n = out.len();
        let repeat = n > 0 && bytes_eq(&out[n - 1].path_key, &x.path_key);
        if !repeat {
            let ghost before = found_view(out@);
            out.push(x);
            assert(found_view(out@) =~= before.push(x@));
        }
    }
    assert(srt.take(srt.len() as int) =~= srt);
    out
}

// ── Laws ─────────────────────────────────────────────────────────────────────

/// Any two texts are ordered one way or the other.
pub proof fn lemma_lex_total(a: Seq<char>, b: Seq<char>)
    ensures
        lex_le(a, b) || lex_le(b, a),
    decreases a.len(),
{
    if a.len() > 0 && b.len() > 0 {
        if a[0] == b[0] {
            lemma_lex_total(a.drop_first(), b.drop_first());
        }
    }
}

/// The order of texts is transitive.
pub proof fn lemma_lex_trans(a: Seq<char>, b: Seq<char>, c: Seq<char>)
    requires
        lex_le(a, b),
        lex_le(b, c),
    ensures
        lex_le(a, c),
    decreases a.len(),
{
    if a.len() > 0 && b.len() > 0 && c.len() > 0 && a[0] == b[0] && b[0] == c[0] {
        lemma_lex_trans(a.drop_first(), b.drop_first(), c.drop_first());
    }
}

/// Two texts ordered each way round are equal.
pub proof fn lemma_lex_antisym(a: Seq<char>, b: Seq<char>)
    requires
        lex_le(a, b),
        lex_le(b, a),
    ensures
        a == b,
    decreases a.len(),
{
    if a.len() > 0 && b.len() > 0 {
        lemma_lex_antisym(a.drop_first(), b.drop_first());
        assert(a =~= seq![a[0]] + a.drop_first());
        assert(b =~= seq![b[0]] + b.drop_first());
    }
}

/// Every element placed by `insert_sorted` sorts at or before a bound that
/// all the others and `x` respect.
proof fn lemma_insert_bound(s: Seq<FoundView>, x: FoundView, b: Seq<char>)
    requires
        forall|i: int| 0 <= i < s.len() ==> lex_le(#[trigger] s[i].rel, b),
        lex_le(x.rel, b),
    ensures
        forall|i: int|
            0 <= i < insert_sorted(s, x).len() ==> lex_le(#[trigger] insert_sorted(s, x)[i].rel, b),
    decreases s.len(),
{
    if s.len() > 0 && !lex_le(s.last().rel, x.rel) {
        let d = s.drop_last();
        assert forall|i: int| 0 <= i < d.len() implies lex_le(#[trigger] d[i].rel, b) by {
            assert(d[i] == s[i]);
        }
        lemma_insert_bound(d, x, b);
        let r = insert_sorted(s, x);
        assert forall|i: int| 0 <= i < r.len() implies lex_le(#[trigger] r[i].rel, b) by {
            if i < r.len() - 1 {
                assert(r[i] == insert_sorted(d, x)[i]);
            }
        }
    }
}

/// Placing into a sorted list keeps it sorted, and adds exactly `x`.
pub proof fn lemma_insert_sorted(s: Seq<FoundView>, x: FoundView)
    requires
        sorted_by_rel(s),
    ensures
        sorted_by_rel(insert_sorted(s, x)),
        insert_sorted(s, x).to_multiset() == s.to_multiset().insert(x),
    decreases s.len(),
{
    if s.len() == 0 {
        assert(seq![x] =~= seq![].push(x));
    } else if lex_le(s.last().rel, x.rel) {
        let r = s.push(x);
        assert forall|i: int, j: int| 0 <= i < j < r.len() implies lex_le(
            #[trigger] r[i].rel,
            #[trigger] r[j].rel,
        ) by {
            if j == r.len() - 1 {
                if i < s.len() - 1 {
                    lemma_lex_trans(s[i].rel, s.last().rel, x.rel);
                }
            } else {
                assert(r[i] == s[i] && r[j] == s[j]);
            }
        }
    } else {
        let d = s.drop_last();
        let l = s.last();
        assert(sorted_by_rel(d)) by {
            assert forall|i: int, j: int| 0 <= i < j < d.len() implies lex_le(
                #[trigger] d[i].rel,
                #[trigger] d[j].rel,
            ) by {
                assert(d[i] == s[i] && d[j] == s[j]);
            }
        }
        lemma_insert_sorted(d, x);
        lemma_lex_total(l.rel, x.rel);
        assert forall|i: int| 0 <= i < d.len() implies lex_le(#[trigger] d[i].rel, l.rel) by {
            assert(d[i] == s[i]);
        }
        lemma_insert_bound(d, x, l.rel);
        let m = insert_sorted(d, x);
        let r = m.push(l);
        assert forall|i: int, j: int| 0 <= i < j < r.len() implies lex_le(
            #[trigger] r[i].rel,
            #[trigger] r[j].rel,
        ) by {
            if j == r.len() - 1 {
                assert(r[i] == m[i]);
            } else {
                assert(r[i] == m[i] && r[j] == m[j]);
            }
        }
        assert(s =~= d.push(l));
        assert(r.to_multiset() =~= m.to_multiset().insert(l));
        assert(s.to_multiset() =~= d.to_multiset().insert(l));
    }
}

/// Sorting gives a sorted list holding exactly the same logs.
pub proof fn lemma_sort_by_rel(s: Seq<FoundView>)
    ensures
        sorted_by_rel(sort_by_rel(s)),
        sort_by_rel(s).to_multiset() == s.to_multiset(),
    decreases s.len(),
{
    if s.len() == 0 {
        assert(sort_by_rel(s).to_multiset() =~= s.to_multiset());
    } else {
        lemma_sort_by_rel(s.drop_last());
        lemma_insert_sorted(sort_by_rel(s.drop_last()), s.last());
        assert(s =~= s.drop_last().push(s.last()));
    }
}

/// Dropping repeats never adds elements, ends with the key that `s` ends
/// with, and leaves no two neighbours sharing a key.
pub proof fn lemma_dedup_keys_shape(s: Seq<FoundView>)
    ensures
        dedup_keys(s).len() <= s.len(),
        s.len() > 0 ==> dedup_keys(s).len() > 0 && dedup_keys(s).last().key == s.last().key,
        forall|i: int|
            0 <= i < dedup_keys(s).len() - 1 ==> #[trigger] dedup_keys(s)[i].key != dedup_keys(
                s,
            )[i + 1].key,
    decreases s.len(),
{
    if s.len() > 0 {
        let p = s.drop_last();
        lemma_dedup_keys_shape(p);
        let d = dedup_keys(p);
        let r = dedup_keys(s);
        assert forall|i: int| 0 <= i < r.len() - 1 implies #[trigger] r[i].key != r[i + 1].key by {
            assert(r[i] == d[i]);
            if i + 1 < d.len() {
                assert(r[i + 1] == d[i + 1]);
            }
        }
    }
}

/// Every element kept by dropping repeats is an element of `s`.
pub proof fn lemma_dedup_keys_from(s: Seq<FoundView>)
    ensures
        forall|i: int|
            0 <= i < dedup_keys(s).len() ==> exists|k: int|
                0 <= k < s.len() && #[trigger] dedup_keys(s)[i] == s[k],
    decreases s.len(),
{
    if s.len() > 0 {
        let p = s.drop_last();
        lemma_dedup_keys_from(p);
        let d = dedup_keys(p);
        let r = dedup_keys(s);
        assert forall|i: int| 0 <= i < r.len() implies exists|k: int|
            0 <= k < s.len() && #[trigger] r[i] == s[k] by {
            if i < d.len() {
                let k = choose|k: int| 0 <= k < p.len() && d[i] == p[k];
                assert(r[i] == d[i]);
                assert(s[k] == p[k]);
            } else {
                assert(r[i] == s[s.len() - 1]);
            }
        }
    }
}

/// Every key of `s` is still present after dropping repeats.
pub proof fn lemma_dedup_keys_cover(s: Seq<FoundView>)
    ensures
        forall|k: int|
            0 <= k < s.len() ==> exists|i: int|
                0 <= i < dedup_keys(s).len() && #[trigger] dedup_keys(s)[i].key == #[trigger] s[k].key,
    decreases s.len(),
{
    if s.len() > 0 {
        let p = s.drop_last();
        lemma_dedup_keys_cover(p);
        lemma_dedup_keys_shape(s);
        let d = dedup_keys(p);
        let r = dedup_keys(s);
        assert forall|k: int| 0 <= k < s.len() implies exists|i: int|
            0 <= i < r.len() && #[trigger] r[i].key == #[trigger] s[k].key by {
            if k < p.len() {
                assert(s[k] == p[k]);
                let i = choose|i: int| 0 <= i < d.len() && #[trigger] d[i].key == p[k].key;
                assert(r[i] == d[i]);
            } else {
                assert(r[r.len() - 1].key == s[k].key);
            }
        }
    }
}

/// Dropping repeats from a sorted list leaves it sorted.
pub proof fn lemma_dedup_keys_sorted(s: Seq<FoundView>)
    requires
        sorted_by_rel(s),
    ensures
        sorted_by_rel(dedup_keys(s)),
    decreases s.len(),
{
    if s.len() > 0 {
        let p = s.drop_last();
        let l = s.last();
        assert(sorted_by_rel(p)) by {
            assert forall|i: int, j: int| 0 <= i < j < p.len() implies lex_le(
                #[trigger] p[i].rel,
                #[trigger] p[j].rel,
            ) by {
                assert(p[i] == s[i] && p[j] == s[j]);
            }
        }
        lemma_dedup_keys_sorted(p);
        lemma_dedup_keys_from(p);
        let d = dedup_keys(p);
        let r = dedup_keys(s);
        assert forall|i: int, j: int| 0 <= i < j < r.len() implies lex_le(
            #[trigger] r[i].rel,
            #[trigger] r[j].rel,
        ) by {
            if j < d.len() {
                assert(r[i] == d[i] && r[j] == d[j]);
            } else {
                assert(r[i] == d[i]);
                let k = choose|k: int| 0 <= k < p.len() && d[i] == p[k];
                assert(s[k] == p[k]);
                assert(r[j] == l);
                assert(lex_le(s[k].rel, s[s.len() - 1].rel));
            }
        }
    }
}

/// The logs offered are in order of shown path, no two neighbours share a
/// path, each one is a found log, and every found path is offered.
pub proof fn lemma_discovered(found: Seq<FoundView>)
    ensures
        sorted_by_rel(discovered(found)),
        forall|i: int|
            0 <= i < discovered(found).len() - 1 ==> #[trigger] discovered(found)[i].key
                != discovered(found)[i + 1].key,
        forall|i: int|
            0 <= i < discovered(found).len() ==> found.contains(#[trigger] discovered(found)[i]),
        forall|k: int|
            0 <= k < found.len() ==> exists|i: int|
                0 <= i < discovered(found).len() && #[trigger] discovered(found)[i].key
                    == #[trigger] found[k].key,
{
    let srt = sort_by_rel(found);
    lemma_sort_by_rel(found);
    lemma_dedup_keys_shape(srt);
    lemma_dedup_keys_from(srt);
    lemma_dedup_keys_cover(srt);
    lemma_dedup_keys_sorted(srt);
    let r = discovered(found);
    assert forall|i: int| 0 <= i < r.len() implies found.contains(#[trigger] r[i]) by {
        let k = choose|k: int| 0 <= k < srt.len() && r[i] == srt[k];
        assert(srt.to_multiset().contains(srt[k]));
        assert(found.to_multiset().contains(r[i]));
    }
    assert forall|k: int| 0 <= k < found.len() implies exists|i: int|
        0 <= i < r.len() && #[trigger] r[i].key == #[trigger] found[k].key by {
        assert(found.to_multiset().contains(found[k]));
        assert(srt.to_multiset().contains(found[k]));
        assert(srt.contains(found[k]));
        let j = choose|j: int| 0 <= j < srt.len() && srt[j] == found[k];
        assert(srt[j].key == found[k].key);
    }
}

/// When found logs share a path exactly when they share a shown path, no two
/// of the logs offered share a path.
pub proof fn lemma_discovered_distinct(found: Seq<FoundView>)
    requires
        forall|a: int, b: int|
            0 <= a < found.len() && 0 <= b < found.len() ==> (#[trigger] found[a].key
                == #[trigger] found[b].key <==> found[a].rel == found[b].rel),
    ensures
        forall|i: int, j: int|
            0 <= i < j < discovered(found).len() ==> #[trigger] discovered(found)[i].key
                != #[trigger] discovered(found)[j].key,
{
    lemma_discovered(found);
    let r = discovered(found);
    assert forall|i: int, j: int| 0 <= i < j < r.len() implies #[trigger] r[i].key
        != #[trigger] r[j].key by {
        if r[i].key == r[j].key {
            assert(found.contains(r[i]));
            assert(found.contains(r[j]));
            assert(found.contains(r[i + 1]));
            let a = choose|a: int| 0 <= a < found.len() && found[a] == r[i];
            let b = choose|b: int| 0 <= b < found.len() && found[b] == r[j];
            let c = choose|c: int| 0 <= c < found.len() && found[c] == r[i + 1];
            assert(found[a].key == found[b].key);
            assert(r[i].rel == r[j].rel);
            assert(lex_le(r[i].rel, r[i + 1].rel));
            if i + 1 < j {
                assert(lex_le(r[i + 1].rel, r[j].rel));
            }
            lemma_lex_antisym(r[i].rel, r[i + 1].rel);
            assert(found[a].rel == found[c].rel);
            assert(found[a].key == found[c].key);
            assert(r[i].key != r[i + 1].key);
        }
    }
}

/// What the search does with each directory: beyond depth 7 nothing; a
/// vendor, node_modules, target, .git, cache, .promptgoblin, bower_components
/// or docker directory nothing; a `Logs`, `logs` or `log` directory below the
/// root has its log files collected; every other directory (the root itself
/// included) is searched.
pub proof fn lemma_scan_steps(name: Seq<char>, depth: usize)
    ensures
        depth > 7 ==> scan_step_of(name, depth) == ScanStep::Skip,
        (name == "vendor"@ || name == "node_modules"@ || name == "target"@ || name == ".git"@
            || name == "cache"@ || name == ".promptgoblin"@ || name == "bower_components"@ || name
            == "docker"@) ==> scan_step_of(name, depth) == ScanStep::Skip,
        (name == "Logs"@ || name == "logs"@ || name == "log"@) && 1 <= depth <= 7 ==> scan_step_of(
            name,
            depth,
        ) == ScanStep::CollectLogs,
        (name == "Logs"@ || name == "logs"@ || name == "log"@) && depth == 0 ==> scan_step_of(
            name,
            depth,
        ) == ScanStep::Descend,
        !log_dir_name(name) && !skipped_dir_name(name) && depth <= 7 ==> scan_step_of(name, depth)
            == ScanStep::Descend,
{
    reveal_strlit("Logs");
    reveal_strlit("logs");
    reveal_strlit("log");
    reveal_strlit("vendor");
    reveal_strlit("node_modules");
    reveal_strlit("target");
    reveal_strlit(".git");
    reveal_strlit("cache");
    reveal_strlit(".promptgoblin");
    reveal_strlit("bower_components");
    reveal_strlit("docker");
    assert("Logs"@.len() == 4 && "logs"@.len() == 4 && "log"@.len() == 3);
    assert("vendor"@.len() == 6 && "node_modules"@.len() == 12 && "target"@.len() == 6
        && ".git"@.len() == 4 && "cache"@.len() == 5 && ".promptgoblin"@.len() == 13
        && "bower_components"@.len() == 16 && "docker"@.len() == 6);
    assert(".git"@[0] == '.' && "Logs"@[0] == 'L' && "logs"@[0] == 'l');
}

} // verus!
