//! The texts drawn around the entries: list and detail titles, the row of an
//! entry cut to the width of the list, and the names and counts of the file
//! picker.
use vstd::prelude::*;
use crate::display::{picker_name, picker_name_of};
use crate::text::{
    byte_len, byte_len_exceeds, char_width, chars_of, lemma_byte_len_prefix, push_char,
};

verus! {

// ── Numbers ──────────────────────────────────────────────────────────────────

/// The digit character of `d` (below ten).
pub open spec fn digit(d: nat) -> char {
    seq!['0', '1', '2', '3', '4', '5', '6', '7', '8', '9'][d as int]
}

/// The decimal form of `n`, without leading zeros.
pub open spec fn decimal(n: nat) -> Seq<char>
    decreases n,
{
    if n < 10 {
        seq![digit(n)]
    } else {
        decimal(n / 10).push(digit(n % 10))
    }
}

/// The digit character of `d`.
fn digit_char(d: u64) -> (r: char)
    requires
        d < 10,
    ensures
        r == digit(d as nat),
{
    let ds = vec!['0', '1', '2', '3', '4', '5', '6', '7', '8', '9'];
    assert(ds@ == seq!['0', '1', '2', '3', '4', '5', '6', '7', '8', '9']);
    ds[d as usize]
}

/// Appends the decimal form of `n` to `out`.
fn push_decimal(out: &mut String, n: u64)
    ensures
        final(out)@ == old(out)@ + decimal(n as nat),
    decreases n,
{
    if n >= 10 {
        push_decimal(out, n / 10);
    }
    let c = digit_char(n % 10);
    push_char(out, c);
    if n >= 10 {
        assert(old(out)@ + decimal(n as nat) =~= old(out)@ + decimal((n / 10) as nat) + seq![c]);
    } else {
        assert(old(out)@ + decimal(n as nat) =~= old(out)@ + seq![c]);
    }
}

/// Appends the characters of `s` to `out`.
fn push_text(out: &mut String, s: &str)
    ensures
        final(out)@ == old(out)@ + s@,
{
    let cs = chars_of(s);
    let mut i: usize = 0;
    while i < cs.len()
        invariant
            cs@ == s@,
            i <= cs@.len(),
            out@ == old(out)@ + cs@.take(i as int),
        decreases cs@.len() - i,
    {
        push_char(out, cs[i]);
        assert(cs@.take(i + 1) =~= cs@.take(i as int).push(cs@[i as int]));
        i = i + 1;
    }
    assert(cs@.take(cs@.len() as int) =~= cs@);
}

/// The decimal form of a number, as a string.
pub fn decimal_string(n: u64) -> (r: String)
    ensures
        r@ == decimal(n as nat),
{
    let mut out = String::new();
    push_decimal(&mut out, n);
    assert(out@ =~= decimal(n as nat));
    out
}

// ── Cutting a text to a width ────────────────────────────────────────────────

/// How many characters from index `i` on the prefix of `s` can grow to
/// while it takes at most `limit` bytes in UTF-8: the first index at or after
/// `i` where one more character would take it past `limit`.
pub open spec fn prefix_within(s: Seq<char>, limit: int, i: int) -> int
    decreases s.len() - i,
{
    if i >= s.len() || i < 0 || byte_len(s.take(i + 1)) > limit {
        i
    } else {
        prefix_within(s, limit, i + 1)
    }
}

/// `s` cut to its longest prefix of at most `limit` bytes in UTF-8 (never
/// splitting a character), followed by an ellipsis.
pub open spec fn shortened(s: Seq<char>, limit: int) -> Seq<char> {
    s.take(prefix_within(s, limit, 0)).push('…')
}

/// The number of bytes that `c` takes in UTF-8.
fn char_width_of(c: char) -> (r: usize)
    ensures
        r == char_width(c),
{
    let u = c as u32;
    if u < 0x80 {
        1
    } else if u < 0x800 {
        2
    } else if u < 0x10000 {
        3
    } else {
        4
    }
}

/// The longest prefix of `cs` taking at most `limit` bytes, and an ellipsis.
fn shorten(cs: &[char], limit: usize) -> (r: String)
    ensures
        r@ == shortened(cs@, limit as int),
{
    let mut out = String::new();
    let mut i: usize = 0;
    let mut left: usize = limit;
    let mut stop = false;
    assert(cs@.take(0) =~= seq![]);
    while i < cs.len() && !stop
        invariant
            i <= cs@.len(),
            byte_len(cs@.take(i as int)) + left == limit,
            out@ == cs@.take(i as int),
            stop ==> prefix_within(cs@, limit as int, 0) == i,
            !stop ==> prefix_within(cs@, limit as int, 0) == prefix_within(
                cs@,
                limit as int,
                i as int,
            ),
        decreases cs@.len() - i + (if stop {
            0int
        } else {
            1int
        }),
    {
        let w = char_width_of(cs[i]);
        assert(cs@.take(i + 1).drop_last() =~= cs@.take(i as int));
        if w > left {
            stop = true;
        } else {
            push_char(&mut out, cs[i]);
            assert(cs@.take(i + 1) =~= cs@.take(i as int).push(cs@[i as int]));
            left = left - w;
            i = i + 1;
        }
    }
    push_char(&mut out, '…');
    out
}

/// The UTF-8 length of `cs` when it is at most `cap`, else nothing.
fn byte_len_within(cs: &[char], cap: usize) -> (r: Option<usize>)
    ensures
        match r {
            Some(k) => k == byte_len(cs@) && k <= cap,
            None => byte_len(cs@) > cap,
        },
{
    let mut acc: usize = 0;
    let mut i: usize = 0;
    assert(cs@.take(0) =~= seq![]);
    while i < cs.len()
        invariant
            i <= cs@.len(),
            acc == byte_len(cs@.take(i as int)),
            acc <= cap,
        decreases cs@.len() - i,
    {
        let u = cs[i] as u32;
        let w: usize = if u < 0x80 {
            1
        } else if u < 0x800 {
            2
        } else if u < 0x10000 {
            3
        } else {
            4
        };
        assert(cs@.take(i + 1).drop_last() =~= cs@.take(i as int));
        assert(w == char_width(cs@[i as int]));
        if w > cap - acc {
            proof {
                lemma_byte_len_prefix(cs@, i + 1, cs@.len() as int);
                assert(cs@.take(cs@.len() as int) =~= cs@);
            }
            return None;
        }
        acc = acc + w;
        i = i + 1;
    }
    assert(cs@.take(cs@.len() as int) =~= cs@);
    Some(acc)
}

// ── The entry list ───────────────────────────────────────────────────────────

/// The title of the entry list: the number of entries, or how many of them
/// the search shows out of all.
pub open spec fn list_title_of(shown: nat, total: nat) -> Seq<char> {
    if shown == total {
        " "@ + decimal(total) + " entries "@
    } else {
        " "@ + decimal(shown) + "/"@ + decimal(total) + " "@
    }
}

/// The title of the entry list.
pub fn list_title(shown: usize, total: usize) -> (r: String)
    ensures
        r@ == list_title_of(shown as nat, total as nat),
{
    let mut out = String::new();
    push_text(&mut out, " ");
    if shown == total {
        push_decimal(&mut out, total as u64);
        push_text(&mut out, " entries ");
        assert(out@ =~= list_title_of(shown as nat, total as nat));
    } else {
        push_decimal(&mut out, shown as u64);
        push_text(&mut out, "/");
        push_decimal(&mut out, total as u64);
        push_text(&mut out, " ");
        assert(out@ =~= list_title_of(shown as nat, total as nat));
    }
    out
}

/// The mark that follows an entry standing for several records: ` ×N`.
pub open spec fn count_mark_of(count: nat) -> Seq<char> {
    " ×"@ + decimal(count)
}

/// The mark of an entry's count.
pub fn count_mark(count: u32) -> (r: String)
    ensures
        r@ == count_mark_of(count as nat),
{
    let mut out = String::new();
    push_text(&mut out, " ×");
    push_decimal(&mut out, count as u64);
    assert(out@ =~= count_mark_of(count as nat));
    out
}

/// The room left for the message in a list row `width` columns wide: the
/// badge, the timestamp, the source (its UTF-8 length and two spaces) and the
/// count mark (its UTF-8 length, when the count is above one) come first.
pub open spec fn message_room(width: nat, src: Option<Seq<char>>, count: nat) -> int {
    let src_w: int = match src {
        Some(s) => byte_len(s) + 2int,
        None => 0,
    };
    let cnt_w: int = if count > 1 {
        3int + decimal(count).len()
    } else {
        0
    };
    let used = 28 + src_w + cnt_w;
    if used >= width {
        0
    } else {
        width - used
    }
}

/// The message of a list row: when its UTF-8 length exceeds the room left
/// and the room is more than three, it is cut to at most one byte less than
/// the room and an ellipsis is added.
pub open spec fn row_message_of(msg: Seq<char>, width: nat, src: Option<Seq<char>>, count: nat)
    -> Seq<char> {
    let room = message_room(width, src, count);
    if byte_len(msg) > room && room > 3 {
        shortened(msg, room - 1)
    } else {
        msg
    }
}

/// The view of an optional text.
pub open spec fn opt_str_view(o: Option<&str>) -> Option<Seq<char>> {
    match o {
        Some(s) => Some(s@),
        None => None,
    }
}

/// The number of decimal digits of `n`.
fn decimal_len(n: u64) -> (r: u64)
    ensures
        r == decimal(n as nat).len(),
        r <= n + 1,
    decreases n,
{
    if n >= 10 {
        let k = decimal_len(n / 10);
        assert(decimal(n as nat).len() == decimal((n / 10) as nat).len() + 1);
        k + 1
    } else {
        1
    }
}

/// The message of an entry as its list row shows it, `width` columns wide.
pub fn row_message(msg: &str, width: u16, src: Option<&str>, count: u32) -> (r: String)
    ensures
        r@ == row_message_of(msg@, width as nat, opt_str_view(src), count as nat),
{
    let src_w: u64 = match src {
        Some(s) => {
            let cs = chars_of(s);
            match byte_len_within(cs.as_slice(), 70000) {
                Some(k) => k as u64 + 2,
                None => 70002,
            }
        },
        None => 0,
    };
    let cnt_w: u64 = if count > 1 {
        3 + decimal_len(count as u64)
    } else {
        0
    };
    let used = 28 + src_w + cnt_w;
    let room: usize = if used >= width as u64 {
        0
    } else {
        (width as u64 - used) as usize
    };
    assert(room == message_room(width as nat, opt_str_view(src), count as nat));
    let cs = chars_of(msg);
    if byte_len_exceeds(cs.as_slice(), room) && room > 3 {
        shorten(cs.as_slice(), room - 1)
    } else {
        msg.to_owned()
    }
}

// ── The detail pane ──────────────────────────────────────────────────────────

/// The title of the detail pane: the entry's timestamp and, when it stands
/// for several records, how many.
pub open spec fn detail_title_of(timestamp: Seq<char>, count: nat) -> Seq<char> {
    if count > 1 {
        " "@ + timestamp + "  ×"@ + decimal(count) + " occurrences "@
    } else {
        " "@ + timestamp + " "@
    }
}

/// The title of the detail pane.
pub fn detail_title(timestamp: &str, count: u32) -> (r: String)
    ensures
        r@ == detail_title_of(timestamp@, count as nat),
{
    let mut out = String::new();
    push_text(&mut out, " ");
    push_text(&mut out, timestamp);
    if count > 1 {
        push_text(&mut out, "  ×");
        push_decimal(&mut out, count as u64);
        push_text(&mut out, " occurrences ");
    } else {
        push_text(&mut out, " ");
    }
    assert(out@ =~= detail_title_of(timestamp@, count as nat));
    out
}

// ── The file picker ──────────────────────────────────────────────────────────

/// The name of a file in a picker `width` columns wide: its picker name, cut
/// to at most one byte less than the room (the width less four) with an
/// ellipsis when its UTF-8 length exceeds the room and the room is more than
/// two.
pub open spec fn picker_label_of(display_name: Seq<char>, width: nat) -> Seq<char> {
    let name = picker_name_of(display_name);
    let room: int = if width >= 4 {
        width - 4
    } else {
        0
    };
    if byte_len(name) > room && room > 2 {
        shortened(name, room - 1)
    } else {
        name
    }
}

/// The name of a file in the picker, cut to its width.
pub fn picker_label(display_name: &str, width: u16) -> (r: String)
    ensures
        r@ == picker_label_of(display_name@, width as nat),
{
    let name = picker_name(display_name);
    let room: usize = if width >= 4 {
        width as usize - 4
    } else {
        0
    };
    let cs = chars_of(name.as_str());
    if byte_len_exceeds(cs.as_slice(), room) && room > 2 {
        shorten(cs.as_slice(), room - 1)
    } else {
        name
    }
}

/// The count shown after a file's name in the picker: ` N`.
pub open spec fn picker_count_of(n: nat) -> Seq<char> {
    " "@ + decimal(n)
}

/// The count of entries shown after a file's name in the picker.
pub fn picker_count(n: usize) -> (r: String)
    ensures
        r@ == picker_count_of(n as nat),
{
    let mut out = String::new();
    push_text(&mut out, " ");
    push_decimal(&mut out, n as u64);
    assert(out@ =~= picker_count_of(n as nat));
    out
}

} // verus!
