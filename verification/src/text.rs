//! Character-level text primitives: the meaning of trimming, searching,
//! splitting into lines and replacing, stated over `Seq<char>`, with
//! executable versions proved against those statements.
use vstd::prelude::*;
use vstd::string::*;

verus! {

// ── Specifications ───────────────────────────────────────────────────────────

/// The Unicode `White_Space` property, the test that `str::trim` uses.
pub open spec fn is_ws(c: char) -> bool {
    let u = c as u32;
    ||| (0x09 <= u && u <= 0x0d)
    ||| u == 0x20
    ||| u == 0x85
    ||| u == 0xa0
    ||| u == 0x1680
    ||| (0x2000 <= u && u <= 0x200a)
    ||| u == 0x2028
    ||| u == 0x2029
    ||| u == 0x202f
    ||| u == 0x205f
    ||| u == 0x3000
}

/// `s` without its leading white space.
pub open spec fn trim_start(s: Seq<char>) -> Seq<char>
    decreases s.len(),
{
    if s.len() > 0 && is_ws(s[0]) {
        trim_start(s.drop_first())
    } else {
        s
    }
}

/// `s` without its trailing white space.
pub open spec fn trim_end(s: Seq<char>) -> Seq<char>
    decreases s.len(),
{
    if s.len() > 0 && is_ws(s.last()) {
        trim_end(s.drop_last())
    } else {
        s
    }
}

/// `s` without leading and trailing white space.
pub open spec fn trim(s: Seq<char>) -> Seq<char> {
    trim_end(trim_start(s))
}

/// `pat` occurs in `s` starting at index `i`.
pub open spec fn matches_at(s: Seq<char>, pat: Seq<char>, i: int) -> bool {
    0 <= i && i + pat.len() <= s.len() && s.subrange(i, i + pat.len()) == pat
}

/// The first index at or after `i` where `pat` occurs in `s`.
pub open spec fn find_from(s: Seq<char>, pat: Seq<char>, i: nat) -> Option<int>
    decreases s.len() + 1 - i,
{
    if i + pat.len() > s.len() {
        None
    } else if s.subrange(i as int, (i + pat.len()) as int) == pat {
        Some(i as int)
    } else {
        find_from(s, pat, i + 1)
    }
}

/// The first index where `pat` occurs in `s` (what `str::find` gives, counted in
/// characters).
pub open spec fn find(s: Seq<char>, pat: Seq<char>) -> Option<int> {
    find_from(s, pat, 0)
}

/// `pat` occurs somewhere in `s`.
pub open spec fn contains(s: Seq<char>, pat: Seq<char>) -> bool {
    find(s, pat) is Some
}

/// The first index of `c` in `s`.
pub open spec fn find_char(s: Seq<char>, c: char) -> Option<int> {
    find(s, seq![c])
}

/// The last index of `c` in `s`.
pub open spec fn rfind_char(s: Seq<char>, c: char) -> Option<int>
    decreases s.len(),
{
    if s.len() == 0 {
        None
    } else if s.last() == c {
        Some(s.len() - 1)
    } else {
        rfind_char(s.drop_last(), c)
    }
}

/// The lines `ls` joined with `'\n'` between them (`join("\n")`).
pub open spec fn join_lines(ls: Seq<Seq<char>>) -> Seq<char>
    decreases ls.len(),
{
    if ls.len() == 0 {
        seq![]
    } else if ls.len() == 1 {
        ls[0]
    } else {
        join_lines(ls.drop_last()) + seq!['\n'] + ls.last()
    }
}

/// The number of bytes that `c` takes in UTF-8.
pub open spec fn char_width(c: char) -> nat {
    let u = c as u32;
    if u < 0x80 {
        1
    } else if u < 0x800 {
        2
    } else if u < 0x10000 {
        3
    } else {
        4
    }
}

/// The number of bytes that `s` takes in UTF-8 (what `str::len` gives).
pub open spec fn byte_len(s: Seq<char>) -> nat
    decreases s.len(),
{
    if s.len() == 0 {
        0
    } else {
        byte_len(s.drop_last()) + char_width(s.last())
    }
}

/// The byte length of a prefix is at most that of a longer prefix.
pub proof fn lemma_byte_len_prefix(s: Seq<char>, i: int, j: int)
    requires
        0 <= i <= j <= s.len(),
    ensures
        byte_len(s.take(i)) <= byte_len(s.take(j)),
    decreases j - i,
{
    if i < j {
        lemma_byte_len_prefix(s, i, j - 1);
        assert(s.take(j).drop_last() =~= s.take(j - 1));
    }
}

/// The views of a sequence of strings.
pub open spec fn strings_view(v: Seq<String>) -> Seq<Seq<char>> {
    v.map_values(|s: String| s@)
}

/// `l` without one trailing carriage return.
pub open spec fn strip_cr(l: Seq<char>) -> Seq<char> {
    if l.len() > 0 && l.last() == '\r' {
        l.drop_last()
    } else {
        l
    }
}

/// The lines of `s[start..]`, scanning from `p`: a line ends at `'\n'`, and
/// loses one `'\r'` before it; the text after the last `'\n'` is a line if it
/// is not empty.
pub open spec fn lines_scan(s: Seq<char>, start: int, p: int) -> Seq<Seq<char>>
    decreases s.len() - p,
{
    if p >= s.len() {
        if start < s.len() {
            seq![s.subrange(start, s.len() as int)]
        } else {
            seq![]
        }
    } else if s[p] == '\n' {
        seq![strip_cr(s.subrange(start, p))] + lines_scan(s, p + 1, p + 1)
    } else {
        lines_scan(s, start, p + 1)
    }
}

/// The lines of `s`, as `str::lines` splits them.
pub open spec fn lines(s: Seq<char>) -> Seq<Seq<char>> {
    lines_scan(s, 0, 0)
}

/// `s` with every occurrence of `pat`, taken left to right without overlap,
/// replaced by `rep` (what `str::replace` gives).
pub open spec fn replace_all(s: Seq<char>, pat: Seq<char>, rep: Seq<char>) -> Seq<char>
    decreases s.len(),
{
    if s.len() == 0 {
        seq![]
    } else if pat.len() > 0 && pat.len() <= s.len() && s.subrange(0, pat.len() as int) == pat {
        rep + replace_all(s.skip(pat.len() as int), pat, rep)
    } else {
        seq![s[0]] + replace_all(s.skip(1), pat, rep)
    }
}

/// The lower-case form of a string, as `str::to_lowercase` computes it from the
/// Unicode tables.
pub uninterp spec fn lowercase_of(s: Seq<char>) -> Seq<char>;

/// The upper-case form of a string, as `str::to_uppercase` computes it from the
/// Unicode tables.
pub uninterp spec fn uppercase_of(s: Seq<char>) -> Seq<char>;

// ── Lemmas ───────────────────────────────────────────────────────────────────

/// What `find_from` returns is an occurrence at or after `i`, and none comes
/// between `i` and it.
pub proof fn lemma_find_from(s: Seq<char>, pat: Seq<char>, i: nat)
    ensures
        match find_from(s, pat, i) {
            Some(k) => i <= k && matches_at(s, pat, k) && forall|j: int|
                i <= j < k ==> !#[trigger] matches_at(s, pat, j),
            None => forall|j: int| i <= j ==> !#[trigger] matches_at(s, pat, j),
        },
    decreases s.len() + 1 - i,
{
    if i + pat.len() > s.len() {
    } else if s.subrange(i as int, (i + pat.len()) as int) == pat {
    } else {
        lemma_find_from(s, pat, i + 1);
    }
}

/// What `rfind_char` returns is the last position of `c`.
pub proof fn lemma_rfind_char(s: Seq<char>, c: char)
    ensures
        match rfind_char(s, c) {
            Some(k) => 0 <= k < s.len() && s[k] == c && forall|j: int|
                k < j < s.len() ==> s[j] != c,
            None => forall|j: int| 0 <= j < s.len() ==> s[j] != c,
        },
    decreases s.len(),
{
    if s.len() > 0 && s.last() != c {
        let t = s.drop_last();
        lemma_rfind_char(t, c);
        assert forall|j: int| 0 <= j < t.len() implies t[j] == s[j] by {}
    }
}

/// A match of a one-character pattern is that character.
pub proof fn lemma_single_char_match(s: Seq<char>, c: char, i: int)
    requires
        0 <= i < s.len(),
    ensures
        (s.subrange(i, i + 1) == seq![c]) <==> s[i] == c,
{
    if s[i] == c {
        assert(s.subrange(i, i + 1) =~= seq![c]);
    } else {
        assert(s.subrange(i, i + 1)[0] == s[i]);
    }
}

/// What `find` returns is a first occurrence that fits inside `s`.
pub proof fn lemma_find(s: Seq<char>, pat: Seq<char>)
    ensures
        match find(s, pat) {
            Some(k) => 0 <= k && k + pat.len() <= s.len() && s.subrange(k, k + pat.len())
                == pat && forall|j: int| 0 <= j < k ==> !#[trigger] matches_at(s, pat, j),
            None => forall|j: int| 0 <= j ==> !#[trigger] matches_at(s, pat, j),
        },
{
    lemma_find_from(s, pat, 0);
}

/// A text that holds `m`, where `m` holds `p`, holds `p`.
pub proof fn lemma_contains_trans(s: Seq<char>, m: Seq<char>, p: Seq<char>)
    requires
        contains(s, m),
        contains(m, p),
    ensures
        contains(s, p),
{
    lemma_find(s, m);
    lemma_find(m, p);
    lemma_find(s, p);
    let i = find(s, m)->0;
    let j = find(m, p)->0;
    assert(s.subrange(i + j, i + j + p.len()) =~= m.subrange(j, j + p.len()));
    assert(matches_at(s, p, i + j));
}

/// Only the empty text is held by the empty text.
pub proof fn lemma_contains_in_empty(p: Seq<char>)
    requires
        contains(seq![], p),
    ensures
        p.len() == 0,
{
    lemma_find(seq![], p);
}

/// What `find_char` returns is the first position of `c`.
pub proof fn lemma_find_char(s: Seq<char>, c: char)
    ensures
        match find_char(s, c) {
            Some(k) => 0 <= k < s.len() && s[k] == c && forall|j: int| 0 <= j < k ==> s[j] != c,
            None => forall|j: int| 0 <= j < s.len() ==> s[j] != c,
        },
{
    lemma_find_from(s, seq![c], 0);
    match find_char(s, c) {
        Some(k) => {
            lemma_single_char_match(s, c, k);
            assert forall|j: int| 0 <= j < k implies s[j] != c by {
                lemma_single_char_match(s, c, j);
                assert(!matches_at(s, seq![c], j));
            }
        },
        None => {
            assert forall|j: int| 0 <= j < s.len() implies s[j] != c by {
                lemma_single_char_match(s, c, j);
                assert(!matches_at(s, seq![c], j));
            }
        },
    }
}

// ── Outside calls ────────────────────────────────────────────────────────────

/// Calls `String::push`: the string gains `c` at its end.
#[verifier::external_body]
pub(crate) fn push_char(s: &mut String, c: char)
    ensures
        final(s)@ == old(s)@.push(c),
{
    s.push(c);
}

/// Calls `String::pop`: the last character leaves the string and is returned;
/// an empty string stays empty and `None` comes back.
#[verifier::external_body]
pub(crate) fn pop_char(s: &mut String) -> (r: Option<char>)
    ensures
        old(s)@.len() == 0 ==> r is None && final(s)@ == old(s)@,
        old(s)@.len() > 0 ==> r == Some(old(s)@.last()) && final(s)@ == old(s)@.drop_last(),
{
    s.pop()
}

/// Calls `str::to_lowercase`; the result is named `lowercase_of` of the text.
/// The lower-case form of the empty text is the empty text; what the Unicode
/// tables (and the special rule for a final capital sigma) make of any other
/// text is left unsaid.
#[verifier::external_body]
pub(crate) fn to_lowercase(s: &str) -> (r: String)
    ensures
        r@ == lowercase_of(s@),
        s@.len() == 0 ==> r@.len() == 0,
{
    s.to_lowercase()
}

/// Calls `str::to_uppercase`; the result is named `uppercase_of` of the text.
#[verifier::external_body]
pub(crate) fn to_uppercase(s: &str) -> (r: String)
    ensures
        r@ == uppercase_of(s@),
{
    s.to_uppercase()
}

// ── Executable primitives ────────────────────────────────────────────────────

/// The characters of `s`.
pub fn chars_of(s: &str) -> (out: Vec<char>)
    ensures
        out@ == s@,
{
    let mut out: Vec<char> = Vec::new();
    for c in it: s.chars()
        invariant
            out@ == it.seq().take(it.index() as int),
            it.seq() == s@,
    {
        out.push(c);
    }
    out
}

/// A string made of the characters `cs[lo..hi]`.
pub fn string_of_range(cs: &[char], lo: usize, hi: usize) -> (r: String)
    requires
        lo <= hi <= cs@.len(),
    ensures
        r@ == cs@.subrange(lo as int, hi as int),
{
    let mut r = String::new();
    let mut i = lo;
    while i < hi
        invariant
            lo <= i <= hi <= cs@.len(),
            r@ == cs@.subrange(lo as int, i as int),
        decreases hi - i,
    {
        push_char(&mut r, cs[i]);
        assert(cs@.subrange(lo as int, i + 1) =~= cs@.subrange(lo as int, i as int).push(cs@[i as int]));
        i = i + 1;
    }
    r
}

/// Whether `pat` occurs in `cs` at index `i`.
fn matches_at_exec(cs: &[char], pat: &[char], i: usize) -> (r: bool)
    ensures
        r == (i + pat@.len() <= cs@.len() && cs@.subrange(i as int, i + pat@.len()) == pat@),
{
    if pat.len() > cs.len() || i > cs.len() - pat.len() {
        return false;
    }
    let mut k: usize = 0;
    while k < pat.len()
        invariant
            i + pat.len() <= cs.len(),
            i + pat@.len() <= cs@.len(),
            k <= pat@.len(),
            forall|j: int| 0 <= j < k ==> cs@[i + j] == pat@[j],
        decreases pat@.len() - k,
    {
        if cs[i + k] != pat[k] {
            assert(cs@.subrange(i as int, i + pat@.len())[k as int] != pat@[k as int]);
            return false;
        }
        k = k + 1;
    }
    assert(cs@.subrange(i as int, i + pat@.len()) =~= pat@);
    true
}

/// The first character index of `pat` in `cs`.
pub fn find_in(cs: &[char], pat: &[char]) -> (r: Option<usize>)
    ensures
        match r {
            Some(i) => find(cs@, pat@) == Some(i as int),
            None => find(cs@, pat@) is None,
        },
{
    let mut i: usize = 0;
    while i < cs.len()
        invariant
            i <= cs@.len(),
            find(cs@, pat@) == find_from(cs@, pat@, i as nat),
        decreases cs@.len() - i,
    {
        if matches_at_exec(cs, pat, i) {
            return Some(i);
        }
        i = i + 1;
    }
    if matches_at_exec(cs, pat, i) {
        Some(i)
    } else {
        assert(find_from(cs@, pat@, (i + 1) as nat) is None);
        None
    }
}

/// Whether two strings hold the same characters.
pub fn str_eq(a: &str, b: &str) -> (r: bool)
    ensures
        r == (a@ == b@),
{
    let x = chars_of(a);
    let y = chars_of(b);
    if x.len() != y.len() {
        return false;
    }
    let mut i: usize = 0;
    while i < x.len()
        invariant
            x@ == a@,
            y@ == b@,
            x@.len() == y@.len(),
            i <= x@.len(),
            forall|j: int| 0 <= j < i ==> x@[j] == y@[j],
        decreases x@.len() - i,
    {
        if x[i] != y[i] {
            assert(x@[i as int] != y@[i as int]);
            return false;
        }
        i = i + 1;
    }
    assert(x@ =~= y@);
    true
}

/// The first character index of `pat` in `s` (`str::find`, counted in characters).
pub fn find_str(s: &str, pat: &str) -> (r: Option<usize>)
    ensures
        match r {
            Some(i) => find(s@, pat@) == Some(i as int),
            None => find(s@, pat@) is None,
        },
{
    let cs = chars_of(s);
    let ps = chars_of(pat);
    find_in(cs.as_slice(), ps.as_slice())
}

/// Whether `pat` occurs in `s`.
pub fn contains_str(s: &str, pat: &str) -> (r: bool)
    ensures
        r == contains(s@, pat@),
{
    find_str(s, pat).is_some()
}

/// The first character index of `c` in `cs`.
pub fn find_char_in(cs: &[char], c: char) -> (r: Option<usize>)
    ensures
        match r {
            Some(i) => find_char(cs@, c) == Some(i as int),
            None => find_char(cs@, c) is None,
        },
{
    let pat = vec![c];
    assert(pat@ =~= seq![c]);
    find_in(cs, pat.as_slice())
}

/// The last character index of `c` in `cs`.
pub fn rfind_char_in(cs: &[char], c: char) -> (r: Option<usize>)
    ensures
        match r {
            Some(i) => rfind_char(cs@, c) == Some(i as int),
            None => rfind_char(cs@, c) is None,
        },
{
    let mut n = cs.len();
    assert(cs@.take(n as int) =~= cs@);
    while n > 0
        invariant
            n <= cs@.len(),
            rfind_char(cs@, c) == rfind_char(cs@.take(n as int), c),
        decreases n,
    {
        if cs[n - 1] == c {
            return Some(n - 1);
        }
        assert(cs@.take(n as int).drop_last() =~= cs@.take(n - 1));
        n = n - 1;
    }
    None
}

/// The character index where the text of `cs` starts once leading white
/// space is dropped.
fn trim_start_index(cs: &[char]) -> (r: usize)
    ensures
        r <= cs@.len(),
        trim_start(cs@) == cs@.skip(r as int),
{
    let mut i: usize = 0;
    assert(cs@.skip(0) =~= cs@);
    while i < cs.len() && is_ws_exec(cs[i])
        invariant
            i <= cs@.len(),
            trim_start(cs@) == trim_start(cs@.skip(i as int)),
        decreases cs@.len() - i,
    {
        assert(cs@.skip(i as int).drop_first() =~= cs@.skip(i + 1));
        i = i + 1;
    }
    proof {
        lemma_trim_start_stops(cs@.skip(i as int));
    }
    i
}

/// Text that does not begin with white space is its own `trim_start`.
proof fn lemma_trim_start_stops(s: Seq<char>)
    requires
        s.len() == 0 || !is_ws(s[0]),
    ensures
        trim_start(s) == s,
{
}

/// The character index where the text of `cs[..hi]` ends once trailing white
/// space is dropped.
fn trim_end_index(cs: &[char], lo: usize) -> (r: usize)
    requires
        lo <= cs@.len(),
    ensures
        lo <= r <= cs@.len(),
        trim_end(cs@.subrange(lo as int, cs@.len() as int)) == cs@.subrange(lo as int, r as int),
{
    let mut n = cs.len();
    while n > lo && is_ws_exec(cs[n - 1])
        invariant
            lo <= n <= cs@.len(),
            trim_end(cs@.subrange(lo as int, cs@.len() as int)) == trim_end(
                cs@.subrange(lo as int, n as int),
            ),
        decreases n,
    {
        assert(cs@.subrange(lo as int, n as int).drop_last() =~= cs@.subrange(
            lo as int,
            n - 1,
        ));
        n = n - 1;
    }
    n
}

/// Whether `c` is white space (`char::is_whitespace`).
pub fn is_ws_exec(c: char) -> (r: bool)
    ensures
        r == is_ws(c),
{
    let u = c as u32;
    (0x09 <= u && u <= 0x0d) || u == 0x20 || u == 0x85 || u == 0xa0 || u == 0x1680 || (0x2000
        <= u && u <= 0x200a) || u == 0x2028 || u == 0x2029 || u == 0x202f || u == 0x205f || u
        == 0x3000
}

/// `s` without leading white space (`str::trim_start`).
pub fn trim_start_str(s: &str) -> (r: &str)
    ensures
        r@ == trim_start(s@),
{
    let cs = chars_of(s);
    let lo = trim_start_index(cs.as_slice());
    s.substring_char(lo, cs.len())
}

/// `s` without leading and trailing white space (`str::trim`).
pub fn trim_str(s: &str) -> (r: &str)
    ensures
        r@ == trim(s@),
{
    let cs = chars_of(s);
    let lo = trim_start_index(cs.as_slice());
    let hi = trim_end_index(cs.as_slice(), lo);
    assert(cs@.skip(lo as int) =~= cs@.subrange(lo as int, cs@.len() as int));
    s.substring_char(lo, hi)
}

/// The lines of `s` (`str::lines`).
pub fn lines_of(s: &str) -> (r: Vec<String>)
    ensures
        r@.len() == lines(s@).len(),
        forall|i: int| 0 <= i < r@.len() ==> #[trigger] r@[i]@ == lines(s@)[i],
{
    let cs = chars_of(s);
    let n = cs.len();
    let mut out: Vec<String> = Vec::new();
    let ghost done: Seq<Seq<char>> = seq![];
    let mut start: usize = 0;
    let mut p: usize = 0;
    while p < n
        invariant
            n == cs@.len(),
            cs@ == s@,
            start <= p <= n,
            lines(s@) == done + lines_scan(cs@, start as int, p as int),
            out@.len() == done.len(),
            forall|i: int| 0 <= i < out@.len() ==> #[trigger] out@[i]@ == done[i],
        decreases n - p,
    {
        if cs[p] == '\n' {
            let mut hi = p;
            if hi > start && cs[hi - 1] == '\r' {
                hi = hi - 1;
                assert(cs@.subrange(start as int, p as int).drop_last() =~= cs@.subrange(
                    start as int,
                    hi as int,
                ));
            }
            let line = string_of_range(cs.as_slice(), start, hi);
            proof {
                done = done.push(strip_cr(cs@.subrange(start as int, p as int)));
            }
            out.push(line);
            start = p + 1;
        }
        p = p + 1;
    }
    if start < n {
        let line = string_of_range(cs.as_slice(), start, n);
        proof {
            done = done.push(cs@.subrange(start as int, n as int));
        }
        out.push(line);
    }
    assert(lines(s@) =~= done);
    out
}

/// `s` with every occurrence of `pat` replaced by `rep` (`str::replace`).
pub fn replace_str(s: &str, pat: &str, rep: &str) -> (r: String)
    requires
        pat@.len() > 0,
    ensures
        r@ == replace_all(s@, pat@, rep@),
{
    let cs = chars_of(s);
    let ps = chars_of(pat);
    let rs = chars_of(rep);
    let mut out = String::new();
    let mut i: usize = 0;
    assert(cs@.skip(0) =~= cs@);
    while i < cs.len()
        invariant
            cs@ == s@,
            ps@ == pat@,
            rs@ == rep@,
            ps@.len() > 0,
            i <= cs@.len(),
            replace_all(s@, pat@, rep@) == out@ + replace_all(cs@.skip(i as int), pat@, rep@),
        decreases cs@.len() - i,
    {
        let ghost rest = cs@.skip(i as int);
        if matches_at_exec(cs.as_slice(), ps.as_slice(), i) {
            assert(rest.subrange(0, ps@.len() as int) =~= cs@.subrange(
                i as int,
                i + ps@.len(),
            ));
            assert(rest.skip(ps@.len() as int) =~= cs@.skip(i + ps@.len()));
            let mut k: usize = 0;
            let ghost before = out@;
            while k < rs.len()
                invariant
                    k <= rs@.len(),
                    out@ == before + rs@.take(k as int),
                decreases rs@.len() - k,
            {
                push_char(&mut out, rs[k]);
                assert(rs@.take(k + 1) =~= rs@.take(k as int).push(rs@[k as int]));
                k = k + 1;
            }
            assert(rs@.take(rs@.len() as int) =~= rs@);
            i = i + ps.len();
        } else {
            assert(!(ps@.len() <= rest.len() && rest.subrange(0, ps@.len() as int) == ps@)) by {
                if ps@.len() <= rest.len() {
                    assert(rest.subrange(0, ps@.len() as int) =~= cs@.subrange(
                        i as int,
                        i + ps@.len(),
                    ));
                }
            }
            assert(rest.skip(1) =~= cs@.skip(i + 1));
            push_char(&mut out, cs[i]);
            i = i + 1;
        }
    }
    out
}

/// Whether `cs` takes more than `n` bytes in UTF-8.
pub fn byte_len_exceeds(cs: &[char], n: usize) -> (r: bool)
    ensures
        r == (byte_len(cs@) > n),
{
    let mut left: usize = n;
    let mut i: usize = 0;
    assert(cs@.take(0) =~= seq![]);
    while i < cs.len()
        invariant
            i <= cs@.len(),
            byte_len(cs@.take(i as int)) <= n,
            left == n - byte_len(cs@.take(i as int)),
        decreases cs@.len() - i,
    {
        let u = cs[i] as u32;
        let w: usize = if u < 0x80 {
            1
        } else if u < 0x800 {
            2
        } else if u < 0x10000 {
            3
        } else {
            4
        };
        assert(cs@.take(i + 1).drop_last() =~= cs@.take(i as int));
        assert(w == char_width(cs@[i as int]));
        if w > left {
            proof {
                lemma_byte_len_prefix(cs@, i + 1, cs@.len() as int);
                assert(cs@.take(cs@.len() as int) =~= cs@);
            }
            return true;
        }
        left = left - w;
        i = i + 1;
    }
    assert(cs@.take(cs@.len() as int) =~= cs@);
    false
}

/// The strings of `v` joined with `'\n'` between them.
pub fn join_lines_exec(v: &Vec<String>) -> (r: String)
    ensures
        r@ == join_lines(strings_view(v@)),
{
    let mut out = String::new();
    let mut i: usize = 0;
    while i < v.len()
        invariant
            i <= v@.len(),
            out@ == join_lines(strings_view(v@).take(i as int)),
        decreases v@.len() - i,
    {
        let ghost ls = strings_view(v@).take(i + 1);
        assert(ls.drop_last() =~= strings_view(v@).take(i as int));
        if i > 0 {
            push_char(&mut out, '\n');
        }
        out.append(v[i].as_str());
        i = i + 1;
    }
    assert(strings_view(v@).take(v@.len() as int) =~= strings_view(v@));
    out
}

} // verus!
