//! Log entries and the collapsing of consecutive duplicates.
use vstd::prelude::*;
use crate::level::Level;

verus! {

/// One entry of a log, possibly standing for several consecutive identical
/// records (`count` of them).
#[derive(Debug, Clone)]
pub struct LogEntry {
    pub timestamp: String,
    pub level: Level,
    pub message: String,
    pub detail: String,
    pub short_src: Option<String>,
    pub count: u32,
}

/// The contents of a log entry as plain values.
#[verifier::ext_equal]
pub struct EntryView {
    pub timestamp: Seq<char>,
    pub level: Level,
    pub message: Seq<char>,
    pub detail: Seq<char>,
    pub short_src: Option<Seq<char>>,
    pub count: u32,
}

/// The view of an optional string.
pub open spec fn opt_view(o: Option<String>) -> Option<Seq<char>> {
    match o {
        Some(s) => Some(s@),
        None => None,
    }
}

impl View for LogEntry {
    type V = EntryView;

    open spec fn view(&self) -> EntryView {
        EntryView {
            timestamp: self.timestamp@,
            level: self.level,
            message: self.message@,
            detail: self.detail@,
            short_src: opt_view(self.short_src),
            count: self.count,
        }
    }
}

/// The views of a sequence of entries.
pub open spec fn entries_view(v: Seq<LogEntry>) -> Seq<EntryView> {
    v.map_values(|e: LogEntry| e@)
}

/// Two entries are duplicates when their message and level agree.
pub open spec fn same_key(a: EntryView, b: EntryView) -> bool {
    a.message == b.message && a.level == b.level
}

/// Adding a record `e` to the entries `es`: a duplicate of the last entry
/// increases its count and takes the newer timestamp; anything else is
/// appended.
pub open spec fn dedup_push(es: Seq<EntryView>, e: EntryView) -> Seq<EntryView> {
    if es.len() > 0 && same_key(es.last(), e) {
        es.update(
            es.len() - 1,
            EntryView {
                timestamp: e.timestamp,
                level: es.last().level,
                message: es.last().message,
                detail: es.last().detail,
                short_src: es.last().short_src,
                count: (es.last().count + 1) as u32,
            },
        )
    } else {
        es.push(e)
    }
}

/// All records added one after the other, collapsing consecutive duplicates.
pub open spec fn dedup_all(raw: Seq<EntryView>) -> Seq<EntryView>
    decreases raw.len(),
{
    if raw.len() == 0 {
        seq![]
    } else {
        dedup_push(dedup_all(raw.drop_last()), raw.last())
    }
}

/// Whether the last entry would absorb `e` and its count could not grow.
pub open spec fn push_would_overflow(es: Seq<EntryView>, e: EntryView) -> bool {
    es.len() > 0 && same_key(es.last(), e) && es.last().count == u32::MAX
}

/// Whether collapsing `raw` record by record never asks an entry's count to
/// grow past what its counter holds.
pub open spec fn collapse_fits(raw: Seq<EntryView>) -> bool
    decreases raw.len(),
{
    raw.len() == 0 || (collapse_fits(raw.drop_last()) && !push_would_overflow(
        dedup_all(raw.drop_last()),
        raw.last(),
    ))
}

/// Appends `e` to `entries`, or, when it repeats the message and level of the
/// last entry, counts it there instead.
pub fn push_or_dedup(entries: &mut Vec<LogEntry>, e: LogEntry)
    requires
        !push_would_overflow(entries_view(old(entries)@), e@),
    ensures
        entries_view(final(entries)@) == dedup_push(entries_view(old(entries)@), e@),
{
    let n = entries.len();
    if n > 0 {
        let same = entries[n - 1].message == e.message && entries[n - 1].level == e.level;
        if same {
            let ghost old_v = entries_view(entries@);
            let mut last = entries.pop().unwrap();
            last.count = last.count + 1;
            last.timestamp = e.timestamp;
            entries.push(last);
            assert(entries_view(entries@) =~= dedup_push(old_v, e@));
            return;
        }
    }
    entries.push(e);
    assert(entries_view(entries@) =~= dedup_push(entries_view(old(entries)@), e@));
}

/// The sum of the counts of `es`.
pub open spec fn total_count(es: Seq<EntryView>) -> int
    decreases es.len(),
{
    if es.len() == 0 {
        0
    } else {
        total_count(es.drop_last()) + es.last().count
    }
}

/// Every record stands for exactly one line.
pub open spec fn all_single(raw: Seq<EntryView>) -> bool {
    forall|i: int| 0 <= i < raw.len() ==> #[trigger] raw[i].count == 1
}

/// No two neighbouring entries are duplicates of each other.
pub open spec fn no_adjacent_duplicates(es: Seq<EntryView>) -> bool {
    forall|i: int| 0 <= i < es.len() - 1 ==> !same_key(#[trigger] es[i], es[i + 1])
}

/// Collapsing keeps no two neighbouring duplicates, never makes more entries
/// than records, and, when every record counts once, the counts add up to the
/// number of records and each lies between 1 and that number.
pub proof fn lemma_dedup_all(raw: Seq<EntryView>)
    requires
        all_single(raw),
        collapse_fits(raw),
    ensures
        no_adjacent_duplicates(dedup_all(raw)),
        dedup_all(raw).len() <= raw.len(),
        total_count(dedup_all(raw)) == raw.len(),
        forall|i: int|
            0 <= i < dedup_all(raw).len() ==> 1 <= #[trigger] dedup_all(raw)[i].count <= raw.len(),
    decreases raw.len(),
{
    if raw.len() > 0 {
        let prev = raw.drop_last();
        assert(all_single(prev)) by {
            assert forall|i: int| 0 <= i < prev.len() implies #[trigger] prev[i].count == 1 by {
                assert(prev[i] == raw[i]);
            }
        }
        lemma_dedup_all(prev);
        let d = dedup_all(prev);
        let e = raw.last();
        assert(e.count == 1);
        if d.len() > 0 && same_key(d.last(), e) {
            let r = dedup_all(raw);
            assert(r.len() == d.len());
            assert(r.drop_last() =~= d.drop_last());
            assert forall|i: int| 0 <= i < r.len() - 1 implies !same_key(#[trigger] r[i], r[i + 1]) by {
                if i + 1 < r.len() - 1 {
                    assert(r[i] == d[i] && r[i + 1] == d[i + 1]);
                } else {
                    assert(r[i] == d[i]);
                    assert(same_key(r[i + 1], d[i + 1]));
                }
            }
        } else {
            let r = dedup_all(raw);
            assert(r == d.push(e));
            assert(r.drop_last() =~= d);
            assert forall|i: int| 0 <= i < r.len() - 1 implies !same_key(#[trigger] r[i], r[i + 1]) by {
                if i + 1 < r.len() - 1 {
                    assert(r[i] == d[i] && r[i + 1] == d[i + 1]);
                } else {
                    assert(r[i] == d[i]);
                }
            }
        }
    }
}

/// Whether some record of `raw` has the message, level, detail and source
/// of `e`.
pub open spec fn has_origin(e: EntryView, raw: Seq<EntryView>) -> bool {
    exists|j: int| 0 <= j < raw.len() && #[trigger] same_origin(e, raw[j])
}

/// Whether some record of `raw` has the timestamp of `e`.
pub open spec fn has_time(e: EntryView, raw: Seq<EntryView>) -> bool {
    exists|j: int| 0 <= j < raw.len() && #[trigger] same_time(e, raw[j])
}

/// Every collapsed entry takes its message, level, detail and source from
/// some record, and its timestamp from some record (the last of its run).
pub proof fn lemma_dedup_origin(raw: Seq<EntryView>)
    ensures
        forall|i: int| 0 <= i < dedup_all(raw).len() ==> has_origin(#[trigger] dedup_all(raw)[i], raw),
        forall|i: int| 0 <= i < dedup_all(raw).len() ==> has_time(#[trigger] dedup_all(raw)[i], raw),
    decreases raw.len(),
{
    if raw.len() > 0 {
        let p = raw.drop_last();
        lemma_dedup_origin(p);
        let d = dedup_all(p);
        let r = dedup_all(raw);
        let e = raw.last();
        let n = raw.len() - 1;
        assert forall|i: int| 0 <= i < r.len() implies has_origin(#[trigger] r[i], raw) by {
            if i < d.len() {
                assert(has_origin(d[i], p));
                let j = choose|j: int| 0 <= j < p.len() && same_origin(d[i], p[j]);
                assert(raw[j] == p[j]);
                assert(same_origin(r[i], raw[j]));
            } else {
                assert(r[i] == e);
                assert(same_origin(r[i], raw[n]));
            }
        }
        assert forall|i: int| 0 <= i < r.len() implies has_time(#[trigger] r[i], raw) by {
            if i < d.len() && !(same_key(d.last(), e) && i == d.len() - 1) {
                assert(r[i] == d[i]);
                assert(has_time(d[i], p));
                let j = choose|j: int| 0 <= j < p.len() && same_time(d[i], p[j]);
                assert(raw[j] == p[j]);
                assert(same_time(r[i], raw[j]));
            } else {
                assert(same_time(r[i], raw[n]));
            }
        }
    }
}

/// Whether `a` has the timestamp of `b`.
pub open spec fn same_time(a: EntryView, b: EntryView) -> bool {
    a.timestamp == b.timestamp
}

/// Whether `a` has the message, level, detail and source of `b`.
pub open spec fn same_origin(a: EntryView, b: EntryView) -> bool {
    a.message == b.message && a.level == b.level && a.detail == b.detail && a.short_src
        == b.short_src
}

/// Where each run of consecutive duplicates among `raw` ends (one past its
/// last record), in order.
pub open spec fn run_ends(raw: Seq<EntryView>) -> Seq<int>
    decreases raw.len(),
{
    if raw.len() == 0 {
        seq![]
    } else {
        let e = run_ends(raw.drop_last());
        if raw.len() >= 2 && same_key(raw[raw.len() - 2], raw.last()) {
            e.update(e.len() - 1, raw.len() as int)
        } else {
            e.push(raw.len() as int)
        }
    }
}

/// Where the `i`-th run begins, given where the runs end.
pub open spec fn run_start(ends: Seq<int>, i: int) -> int {
    if i == 0 {
        0
    } else {
        ends[i - 1]
    }
}

/// Whether the `i`-th entry of `d` stands for the `i`-th run of `raw`, the
/// runs ending at `ends`: the run is non-empty, inside `raw` and maximal, its
/// records are duplicates of its first, and the entry has the message, level,
/// detail and source of that first record, the timestamp of the last, and
/// counts the records of the run.
pub open spec fn run_entry(raw: Seq<EntryView>, d: Seq<EntryView>, ends: Seq<int>, i: int) -> bool {
    let st = run_start(ends, i);
    let en = ends[i];
    &&& 0 <= st < en <= raw.len()
    &&& same_origin(d[i], raw[st])
    &&& same_time(d[i], raw[en - 1])
    &&& d[i].count == en - st
    &&& forall|k: int| st <= k < en ==> same_key(#[trigger] raw[k], raw[st])
    &&& i > 0 ==> 0 < st && !same_key(raw[st - 1], raw[st])
}

/// Whether `d` is `raw` collapsed run by run, the runs ending at `ends`: one
/// entry per run (see `run_entry`), the last run ending with `raw`.
pub open spec fn collapsed_by_runs(raw: Seq<EntryView>, d: Seq<EntryView>, ends: Seq<int>) -> bool {
    &&& d.len() == ends.len()
    &&& raw.len() == 0 <==> ends.len() == 0
    &&& raw.len() > 0 ==> ends.last() == raw.len()
    &&& forall|i: int| 0 <= i < ends.len() ==> #[trigger] run_entry(raw, d, ends, i)
}

/// A run of a prefix of `raw` that is not the prefix's last run is a run of
/// `raw` too.
proof fn lemma_run_entry_extend(
    raw: Seq<EntryView>,
    dp: Seq<EntryView>,
    d: Seq<EntryView>,
    ep: Seq<int>,
    en: Seq<int>,
    i: int,
)
    requires
        raw.len() > 0,
        0 <= i < ep.len(),
        i < en.len(),
        i < dp.len(),
        i < d.len(),
        run_entry(raw.drop_last(), dp, ep, i),
        d[i] == dp[i],
        en[i] == ep[i],
        run_start(en, i) == run_start(ep, i),
    ensures
        run_entry(raw, d, en, i),
{
    let p = raw.drop_last();
    let st = run_start(ep, i);
    assert(0 <= st < ep[i] <= p.len());
    assert forall|k: int| st <= k < en[i] implies same_key(#[trigger] raw[k], raw[st]) by {
        assert(raw[k] == p[k]);
        assert(raw[st] == p[st]);
        assert(same_key(p[k], p[st]));
    }
    assert(raw[st] == p[st]);
    assert(raw[en[i] - 1] == p[en[i] - 1]);
    if i > 0 {
        assert(raw[st - 1] == p[st - 1]);
    }
}

/// Collapsing, run by run: the records split into maximal runs of
/// consecutive duplicates, and the `i`-th entry stands for the `i`-th run. It
/// has the message, level, detail and source of the run's first record, the
/// timestamp of its last, and counts the records of the run.
pub proof fn lemma_dedup_runs(raw: Seq<EntryView>)
    requires
        all_single(raw),
        collapse_fits(raw),
    ensures
        collapsed_by_runs(raw, dedup_all(raw), run_ends(raw)),
    decreases raw.len(),
{
    if raw.len() > 0 {
        let p = raw.drop_last();
        assert(all_single(p)) by {
            assert forall|i: int| 0 <= i < p.len() implies #[trigger] p[i].count == 1 by {
                assert(p[i] == raw[i]);
            }
        }
        lemma_dedup_runs(p);
        let m = raw.len() as int;
        let e = raw.last();
        let dp = dedup_all(p);
        let ep = run_ends(p);
        let d = dedup_all(raw);
        let en = run_ends(raw);
        let merge = m >= 2 && same_key(raw[m - 2], e);
        if m >= 2 {
            let j = ep.len() - 1;
            let st = run_start(ep, j);
            assert(run_entry(p, dp, ep, j));
            assert(ep[j] == m - 1);
            assert(p[m - 2] == raw[m - 2]);
            assert(same_key(p[m - 2], p[st]));
            assert(same_key(dp.last(), e) == merge);
        }
        let last = en.len() - 1;
        assert forall|i: int| 0 <= i < en.len() implies #[trigger] run_entry(raw, d, en, i) by {
            if i < last {
                assert(run_entry(p, dp, ep, i));
                assert(run_start(en, i) == run_start(ep, i));
                lemma_run_entry_extend(raw, dp, d, ep, en, i);
            } else if merge {
                assert(run_entry(p, dp, ep, i));
                let st = run_start(ep, i);
                assert(run_start(en, i) == st);
                assert(raw[st] == p[st]);
                assert forall|k: int| st <= k < en[i] implies same_key(#[trigger] raw[k], raw[st]) by {
                    if k < m - 1 {
                        assert(raw[k] == p[k]);
                        assert(same_key(p[k], p[st]));
                    } else {
                        assert(raw[m - 2] == p[m - 2]);
                        assert(same_key(p[m - 2], p[st]));
                    }
                }
                if i > 0 {
                    assert(raw[st - 1] == p[st - 1]);
                }
            } else {
                assert(d[i] == e);
                if i > 0 {
                    assert(run_start(en, i) == ep[i - 1]);
                    assert(ep[i - 1] == m - 1);
                }
                assert forall|k: int| m - 1 <= k < en[i] implies same_key(#[trigger] raw[k], raw[m - 1]) by {}
            }
        }
    }
}

/// Fewer records than a counter holds can always be collapsed.
pub proof fn lemma_few_records_fit(raw: Seq<EntryView>)
    requires
        all_single(raw),
        raw.len() <= u32::MAX,
    ensures
        collapse_fits(raw),
    decreases raw.len(),
{
    if raw.len() > 0 {
        let p = raw.drop_last();
        assert(all_single(p)) by {
            assert forall|i: int| 0 <= i < p.len() implies #[trigger] p[i].count == 1 by {
                assert(p[i] == raw[i]);
            }
        }
        lemma_few_records_fit(p);
        lemma_dedup_all(p);
        let d = dedup_all(p);
        if d.len() > 0 {
            assert(d[d.len() - 1].count <= p.len());
        }
    }
}

/// What collapses without overflow, collapses without overflow up to any
/// point.
pub proof fn lemma_fits_prefix(raw: Seq<EntryView>, k: int)
    requires
        collapse_fits(raw),
        0 <= k <= raw.len(),
    ensures
        collapse_fits(raw.take(k)),
    decreases raw.len(),
{
    if k < raw.len() {
        lemma_fits_prefix(raw.drop_last(), k);
        assert(raw.drop_last().take(k) =~= raw.take(k));
    } else {
        assert(raw.take(k) =~= raw);
    }
}

} // verus!
