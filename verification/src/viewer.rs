//! The state of the log viewer and how each user action and each poll of the
//! open file changes it.
use vstd::prelude::*;
use crate::entry::{EntryView, LogEntry};
use crate::logfile::{FileView, LogFile};
use crate::parse::{counts_fit, parsed};
use crate::text::{
    contains, contains_str, lemma_contains_in_empty, lemma_contains_trans, lowercase_of, pop_char,
    push_char, to_lowercase,
};

verus! {

/// Which pane takes the keys.
#[derive(Debug, Clone, Copy, PartialEq, Eq, Structural)]
pub enum Focus {
    List,
    Sidebar,
}

/// The viewer: the loaded files, the open one, the entries that pass the
/// search, the selections and the display switches.
pub struct App {
    pub files: Vec<LogFile>,
    /// The open file.
    pub file_idx: usize,
    /// Indices into the open file's entries that pass the search.
    pub filtered: Vec<usize>,
    /// The selected row of the entry list (a position in `filtered`).
    pub selected: Option<usize>,
    pub search: String,
    pub follow: bool,
    pub detail_scroll: u16,
    pub sidebar_open: bool,
    /// The selected row of the file picker.
    pub sidebar_selected: Option<usize>,
    pub focus: Focus,
}

/// The viewer's state as plain values.
pub struct AppView {
    pub files: Seq<FileView>,
    pub file_idx: usize,
    pub filtered: Seq<usize>,
    pub selected: Option<usize>,
    pub search: Seq<char>,
    pub follow: bool,
    pub detail_scroll: u16,
    pub sidebar_open: bool,
    pub sidebar_selected: Option<usize>,
    pub focus: Focus,
}

/// The views of loaded files.
pub open spec fn files_view(v: Seq<LogFile>) -> Seq<FileView> {
    v.map_values(|f: LogFile| f@)
}

impl View for App {
    type V = AppView;

    open spec fn view(&self) -> AppView {
        AppView {
            files: files_view(self.files@),
            file_idx: self.file_idx,
            filtered: self.filtered@,
            selected: self.selected,
            search: self.search@,
            follow: self.follow,
            detail_scroll: self.detail_scroll,
            sidebar_open: self.sidebar_open,
            sidebar_selected: self.sidebar_selected,
            focus: self.focus,
        }
    }
}

// ── The search filter ────────────────────────────────────────────────────────

/// Whether an entry passes the lower-cased query `q`: an empty query passes
/// everything; else the query must occur in the lower-cased message or detail,
/// or in the timestamp.
pub open spec fn entry_matches(e: EntryView, q: Seq<char>) -> bool {
    passes(q, lowercase_of(e.message), lowercase_of(e.detail), e.timestamp)
}

/// Whether the lower-cased query `q` passes an entry with the lower-cased
/// message `ml`, the lower-cased detail `dl` and the timestamp `ts`.
pub open spec fn passes(q: Seq<char>, ml: Seq<char>, dl: Seq<char>, ts: Seq<char>) -> bool {
    q.len() == 0 || contains(ml, q) || contains(dl, q) || contains(ts, q)
}

/// Whether an entry passes the lower-cased query `q`, given its lower-cased
/// message and detail and its timestamp.
pub fn entry_passes(q: &str, message_lower: &str, detail_lower: &str, timestamp: &str) -> (r:
    bool)
    ensures
        r == passes(q@, message_lower@, detail_lower@, timestamp@),
{
    q.unicode_len() == 0 || contains_str(message_lower, q) || contains_str(detail_lower, q)
        || contains_str(timestamp, q)
}

/// The indices below `n` of the entries that pass `q`, in increasing order.
pub open spec fn matching_upto(es: Seq<EntryView>, q: Seq<char>, n: int) -> Seq<usize>
    decreases n,
{
    if n <= 0 {
        seq![]
    } else if entry_matches(es[n - 1], q) {
        matching_upto(es, q, n - 1).push((n - 1) as usize)
    } else {
        matching_upto(es, q, n - 1)
    }
}

/// The lower-cased query of the search text `search`; the empty search gives
/// the empty query.
pub open spec fn query_of(search: Seq<char>) -> Seq<char> {
    if search.len() == 0 {
        seq![]
    } else {
        lowercase_of(search)
    }
}

/// The indices of the entries that pass the search text `search`.
pub open spec fn filter_of(es: Seq<EntryView>, search: Seq<char>) -> Seq<usize> {
    matching_upto(es, query_of(search), es.len() as int)
}

/// The last row of a list of `len` rows (0 for an empty list).
pub open spec fn last_row(len: nat) -> nat {
    if len == 0 {
        0
    } else {
        (len - 1) as nat
    }
}

/// The list selection once the list has `len` rows: a selection past the end
/// moves to the last row (or none when the list is empty), and no selection
/// becomes the first row when there is one.
pub open spec fn selection_after_filter(sel: Option<usize>, len: nat) -> Option<usize> {
    match sel {
        Some(i) => if i > last_row(len) {
            if len == 0 {
                None
            } else {
                Some((len - 1) as usize)
            }
        } else {
            Some(i)
        },
        None => if len > 0 {
            Some(0)
        } else {
            None
        },
    }
}

// ── Transitions ──────────────────────────────────────────────────────────────

/// The entries of the open file.
pub open spec fn current_entries(s: AppView) -> Seq<EntryView> {
    s.files[s.file_idx as int].entries
}

/// The state every operation keeps: some file is open, the filter is that of
/// the open file and the search, and the selections point inside their lists
/// (the entry list selection may rest on row 0 of an empty list).
pub open spec fn wf(s: AppView) -> bool {
    &&& s.files.len() > 0
    &&& s.file_idx < s.files.len()
    &&& s.filtered == filter_of(current_entries(s), s.search)
    &&& s.selected matches Some(i) ==> i == 0 || i < s.filtered.len()
    &&& s.sidebar_selected matches Some(i) ==> i < s.files.len()
}

/// After the filter is applied again.
pub open spec fn after_filter(s: AppView) -> AppView {
    let f = filter_of(current_entries(s), s.search);
    AppView {
        filtered: f,
        selected: selection_after_filter(s.selected, f.len()),
        detail_scroll: 0,
        ..s
    }
}

/// After jumping to the last entry.
pub open spec fn after_bottom(s: AppView) -> AppView {
    if s.filtered.len() > 0 {
        AppView { selected: Some((s.filtered.len() - 1) as usize), detail_scroll: 0, ..s }
    } else {
        s
    }
}

/// After jumping to the first entry.
pub open spec fn after_top(s: AppView) -> AppView {
    if s.filtered.len() > 0 {
        AppView { selected: Some(0), detail_scroll: 0, ..s }
    } else {
        s
    }
}

/// After moving the list selection one row down (staying on the last row).
pub open spec fn after_move_down(s: AppView) -> AppView {
    if s.filtered.len() == 0 {
        s
    } else {
        let next: usize = match s.selected {
            Some(i) => if i + 1 < s.filtered.len() {
                (i + 1) as usize
            } else {
                (s.filtered.len() - 1) as usize
            },
            None => 0,
        };
        AppView { selected: Some(next), detail_scroll: 0, ..s }
    }
}

/// After moving the list selection one row up (staying on the first row).
pub open spec fn after_move_up(s: AppView) -> AppView {
    if s.filtered.len() == 0 {
        s
    } else {
        let prev: usize = match s.selected {
            Some(i) => if i == 0 {
                0
            } else {
                (i - 1) as usize
            },
            None => 0,
        };
        AppView { selected: Some(prev), detail_scroll: 0, ..s }
    }
}

/// After scrolling the detail pane down by four lines (saturating).
pub open spec fn after_detail_down(s: AppView) -> AppView {
    AppView {
        detail_scroll: if s.detail_scroll + 4 > u16::MAX {
            u16::MAX
        } else {
            (s.detail_scroll + 4) as u16
        },
        ..s
    }
}

/// After scrolling the detail pane up by four lines (stopping at the top).
pub open spec fn after_detail_up(s: AppView) -> AppView {
    AppView {
        detail_scroll: if s.detail_scroll < 4 {
            0
        } else {
            (s.detail_scroll - 4) as u16
        },
        ..s
    }
}

/// After moving the file picker selection one row down.
pub open spec fn after_sidebar_down(s: AppView) -> AppView {
    let n = s.files.len();
    if n == 0 {
        s
    } else {
        let next: usize = match s.sidebar_selected {
            Some(i) => if i + 1 < n {
                (i + 1) as usize
            } else {
                (n - 1) as usize
            },
            None => 0,
        };
        AppView { sidebar_selected: Some(next), ..s }
    }
}

/// After moving the file picker selection one row up.
pub open spec fn after_sidebar_up(s: AppView) -> AppView {
    if s.files.len() == 0 {
        s
    } else {
        let prev: usize = match s.sidebar_selected {
            Some(i) => if i == 0 {
                0
            } else {
                (i - 1) as usize
            },
            None => 0,
        };
        AppView { sidebar_selected: Some(prev), ..s }
    }
}

/// After opening file `idx` (ignored when there is no such file): the search
/// is cleared, the filter applied, the last entry selected, and the picker
/// points at the file.
pub open spec fn after_switch(s: AppView, idx: usize) -> AppView {
    if idx >= s.files.len() {
        s
    } else {
        let t = after_bottom(after_filter(AppView { file_idx: idx, search: seq![], ..s }));
        AppView { sidebar_selected: Some(idx), ..t }
    }
}

/// After confirming the picker's selection: that file opens and the list takes
/// the focus.
pub open spec fn after_confirm(s: AppView) -> AppView {
    let t = match s.sidebar_selected {
        Some(i) => after_switch(s, i),
        None => s,
    };
    AppView { focus: Focus::List, ..t }
}

/// After the picker key: a closed picker opens with the focus; an open one
/// takes the focus from the list, or closes when it has it.
pub open spec fn after_toggle_sidebar(s: AppView) -> AppView {
    if !s.sidebar_open {
        AppView {
            sidebar_open: true,
            sidebar_selected: Some(s.file_idx),
            focus: Focus::Sidebar,
            ..s
        }
    } else if s.focus == Focus::List {
        AppView { sidebar_selected: Some(s.file_idx), focus: Focus::Sidebar, ..s }
    } else {
        AppView { sidebar_open: false, focus: Focus::List, ..s }
    }
}

/// After moving the focus to the other pane (only while the picker is open);
/// the picker, on taking the focus, points at the open file.
pub open spec fn after_toggle_focus(s: AppView) -> AppView {
    if !s.sidebar_open {
        s
    } else if s.focus == Focus::List {
        AppView { focus: Focus::Sidebar, sidebar_selected: Some(s.file_idx), ..s }
    } else {
        AppView { focus: Focus::List, ..s }
    }
}

/// After switching follow mode; turning it on jumps to the last entry.
pub open spec fn after_toggle_follow(s: AppView) -> AppView {
    let t = AppView { follow: !s.follow, ..s };
    if t.follow {
        after_bottom(t)
    } else {
        t
    }
}

/// After closing the picker.
pub open spec fn after_close_sidebar(s: AppView) -> AppView {
    AppView { sidebar_open: false, focus: Focus::List, ..s }
}

/// After the open file was read again from `content`: the filter is applied
/// again; in follow mode the last entry is selected, otherwise the previous
/// selection is kept, moved back to the last row if the list got shorter.
pub open spec fn after_reload(s: AppView, content: Seq<char>) -> AppView {
    let f = s.files[s.file_idx as int];
    let nf = FileView { entries: parsed(content, f.format), ..f };
    let t = after_filter(AppView { files: s.files.update(s.file_idx as int, nf), ..s });
    if s.follow {
        after_bottom(t)
    } else {
        match s.selected {
            Some(sel) => AppView {
                selected: Some(
                    if sel <= last_row(t.filtered.len()) {
                        sel
                    } else {
                        last_row(t.filtered.len()) as usize
                    },
                ),
                ..t
            },
            None => t,
        }
    }
}

/// After a poll of the open file: `changed` is its new text when it changed.
pub open spec fn after_tick(s: AppView, changed: Option<Seq<char>>) -> AppView {
    match changed {
        Some(c) => after_reload(s, c),
        None => s,
    }
}

/// The state a viewer starts in: the first file open, the picker open when
/// there are several files, and the last entry selected.
pub open spec fn initial(files: Seq<FileView>) -> AppView {
    let s = AppView {
        files: files,
        file_idx: 0,
        filtered: seq![],
        selected: None,
        search: seq![],
        follow: false,
        detail_scroll: 0,
        sidebar_open: files.len() > 1,
        sidebar_selected: Some(0),
        focus: Focus::List,
    };
    after_bottom(after_filter(s))
}

/// The entry shown in the detail pane.
pub open spec fn selected_entry_of(s: AppView) -> Option<EntryView> {
    match s.selected {
        Some(i) => if i < s.filtered.len() {
            Some(current_entries(s)[s.filtered[i as int] as int])
        } else {
            None
        },
        None => None,
    }
}

// ── Keys ─────────────────────────────────────────────────────────────────────

/// A key of the keyboard, as far as the viewer tells keys apart.
#[derive(Debug, Clone, Copy, PartialEq, Eq, Structural)]
pub enum Key {
    Char(char),
    Esc,
    Tab,
    Enter,
    Up,
    Down,
    Home,
    End,
    Backspace,
    Other,
}

/// The modifier keys held with a key: none, exactly Shift, exactly Control,
/// or any other combination.
#[derive(Debug, Clone, Copy, PartialEq, Eq, Structural)]
pub enum Mods {
    Plain,
    Shift,
    Control,
    Other,
}

/// A key press.
#[derive(Debug, Clone, Copy, PartialEq, Eq, Structural)]
pub struct KeyPress {
    pub key: Key,
    pub mods: Mods,
}

/// After the search text became `search`: the filter is applied again.
pub open spec fn after_search(s: AppView, search: Seq<char>) -> AppView {
    after_filter(AppView { search: search, ..s })
}

/// The state after a key press while the file picker has the focus.
pub open spec fn after_sidebar_key(s: AppView, k: KeyPress) -> AppView {
    let plain = k.mods == Mods::Plain;
    if k.key == Key::Esc || (k.key == Key::Char('p') && plain) {
        after_close_sidebar(s)
    } else if k.key == Key::Tab {
        after_toggle_focus(s)
    } else if k.key == Key::Enter {
        after_confirm(s)
    } else if k.key == Key::Down || (k.key == Key::Char('j') && plain) {
        after_sidebar_down(s)
    } else if k.key == Key::Up || (k.key == Key::Char('k') && plain) {
        after_sidebar_up(s)
    } else {
        s
    }
}

/// Whether a key press, while the entry list has the focus, quits.
pub open spec fn quits(s: AppView, k: KeyPress) -> bool {
    ||| (k.key == Key::Char('q') && k.mods == Mods::Plain)
    ||| (k.key == Key::Char('c') && k.mods == Mods::Control)
    ||| (k.key == Key::Esc && !s.sidebar_open && s.search.len() == 0)
}

/// The state after a key press while the entry list has the focus (and the
/// key does not quit).
pub open spec fn after_list_key(s: AppView, k: KeyPress) -> AppView {
    let plain = k.mods == Mods::Plain;
    if k.key == Key::Esc {
        if s.sidebar_open {
            after_close_sidebar(s)
        } else {
            after_search(s, seq![])
        }
    } else if k.key == Key::Char('p') && plain {
        after_toggle_sidebar(s)
    } else if k.key == Key::Tab && s.sidebar_open {
        after_toggle_focus(s)
    } else if k.key == Key::Down || (k.key == Key::Char('j') && plain) {
        after_move_down(s)
    } else if k.key == Key::Up || (k.key == Key::Char('k') && plain) {
        after_move_up(s)
    } else if k.key == Key::Char('J') {
        after_detail_down(s)
    } else if k.key == Key::Char('K') {
        after_detail_up(s)
    } else if k.key == Key::Char('G') || k.key == Key::End {
        after_bottom(s)
    } else if (k.key == Key::Char('g') && plain) || k.key == Key::Home {
        after_top(s)
    } else if k.key == Key::Char('f') && plain {
        after_toggle_follow(s)
    } else if k.key == Key::Backspace {
        after_search(
            s,
            if s.search.len() > 0 {
                s.search.drop_last()
            } else {
                s.search
            },
        )
    } else if k.key == Key::Char('u') && k.mods == Mods::Control {
        after_search(s, seq![])
    } else if k.key is Char && (plain || k.mods == Mods::Shift) {
        after_search(s, s.search.push(k.key->Char_0))
    } else {
        s
    }
}

/// The state after a key press, and whether the viewer quits.
pub open spec fn after_key(s: AppView, k: KeyPress) -> (AppView, bool) {
    if s.focus == Focus::Sidebar {
        (after_sidebar_key(s, k), false)
    } else if quits(s, k) {
        (s, true)
    } else {
        (after_list_key(s, k), false)
    }
}

/// A file is open.
pub open spec fn has_open_file(s: AppView) -> bool {
    s.files.len() > 0 && s.file_idx < s.files.len()
}

/// The view of an optional entry reference.
pub open spec fn opt_entry_view(o: Option<&LogEntry>) -> Option<EntryView> {
    match o {
        Some(e) => Some(e@),
        None => None,
    }
}

// ── Operations ───────────────────────────────────────────────────────────────

impl App {
    /// A viewer over `files`, the first one open.
    pub fn new(files: Vec<LogFile>) -> (r: App)
        requires
            files@.len() > 0,
        ensures
            r@ == initial(files_view(files@)),
            wf(r@),
    {
        let sidebar_open = files.len() > 1;
        let mut app = App {
            files,
            file_idx: 0,
            filtered: Vec::new(),
            selected: None,
            search: String::new(),
            follow: false,
            detail_scroll: 0,
            sidebar_open,
            sidebar_selected: Some(0),
            focus: Focus::List,
        };
        app.apply_filter();
        app.scroll_to_bottom();
        app
    }

    /// Whether the file picker is drawn: it is open and there is more than
    /// one file to pick from.
    pub fn shows_picker(&self) -> (r: bool)
        ensures
            r == (self.sidebar_open && self@.files.len() > 1),
    {
        self.sidebar_open && self.files.len() > 1
    }

    /// The open file.
    pub fn current_file(&self) -> (r: &LogFile)
        requires
            wf(self@),
        ensures
            r@ == self@.files[self.file_idx as int],
    {
        &self.files[self.file_idx]
    }

    /// The entry shown in the detail pane: the selected row's entry.
    pub fn selected_entry(&self) -> (r: Option<&LogEntry>)
        requires
            wf(self@),
        ensures
            opt_entry_view(r) == selected_entry_of(self@),
    {
        match self.selected {
            Some(i) => {
                if i < self.filtered.len() {
                    let ei = self.filtered[i];
                    let ne = self.files[self.file_idx].entries.len();
                    proof {
                        assert(current_entries(self@).len() == ne);
                        lemma_filter_in_range(current_entries(self@), self@.search);
                    }
                    Some(&self.files[self.file_idx].entries[ei])
                } else {
                    None
                }
            },
            None => None,
        }
    }

    /// Applies the search to the open file's entries again and keeps the
    /// selection inside the list.
    pub fn apply_filter(&mut self)
        requires
            has_open_file(old(self)@),
        ensures
            final(self)@ == after_filter(old(self)@),
    {
        let q = to_lowercase(self.search.as_str());
        let qs = q.as_str();
        assert(qs@ =~= query_of(self.search@));
        let idx = self.file_idx;
        let n = self.files[idx].entries.len();
        let ghost es = current_entries(self@);
        let mut filtered: Vec<usize> = Vec::new();
        let mut i: usize = 0;
        while i < n
            invariant
                idx == self.file_idx,
                idx < self.files@.len(),
                es == current_entries(self@),
                n == es.len(),
                qs@ == query_of(self.search@),
                i <= n,
                filtered@ == matching_upto(es, qs@, i as int),
            decreases n - i,
        {
            let e = &self.files[idx].entries[i];
            let ml = to_lowercase(e.message.as_str());
            let dl = to_lowercase(e.detail.as_str());
            let hit = entry_passes(qs, ml.as_str(), dl.as_str(), e.timestamp.as_str());
            assert(hit == entry_matches(es[i as int], qs@));
            if hit {
                filtered.push(i);
            }
            i = i + 1;
        }
        let len = filtered.len();
        let max = if len == 0 {
            0
        } else {
            len - 1
        };
        self.filtered = filtered;
        match self.selected {
            Some(i) => {
                if i > max {
                    self.selected = if len == 0 {
                        None
                    } else {
                        Some(max)
                    };
                }
            },
            None => {
                if len > 0 {
                    self.selected = Some(0);
                }
            },
        }
        self.detail_scroll = 0;
    }

    /// Opens file `idx`, clearing the search and selecting its last entry.
    pub fn switch_to_file(&mut self, idx: usize)
        requires
            wf(old(self)@),
        ensures
            final(self)@ == after_switch(old(self)@, idx),
            wf(final(self)@),
    {
        if idx >= self.files.len() {
            return;
        }
        self.file_idx = idx;
        self.search = String::new();
        self.apply_filter();
        self.scroll_to_bottom();
        self.sidebar_selected = Some(idx);
    }

    /// Moves the list selection one row down.
    pub fn move_down(&mut self)
        requires
            wf(old(self)@),
        ensures
            final(self)@ == after_move_down(old(self)@),
            wf(final(self)@),
    {
        if self.filtered.len() == 0 {
            return;
        }
        let next = match self.selected {
            Some(i) => if i + 1 < self.filtered.len() {
                i + 1
            } else {
                self.filtered.len() - 1
            },
            None => 0,
        };
        self.selected = Some(next);
        self.detail_scroll = 0;
    }

    /// Moves the list selection one row up.
    pub fn move_up(&mut self)
        requires
            wf(old(self)@),
        ensures
            final(self)@ == after_move_up(old(self)@),
            wf(final(self)@),
    {
        if self.filtered.len() == 0 {
            return;
        }
        let prev = match self.selected {
            Some(i) => if i == 0 {
                0
            } else {
                i - 1
            },
            None => 0,
        };
        self.selected = Some(prev);
        self.detail_scroll = 0;
    }

    /// Selects the last entry of the list.
    pub fn scroll_to_bottom(&mut self)
        ensures
            final(self)@ == after_bottom(old(self)@),
    {
        if self.filtered.len() > 0 {
            self.selected = Some(self.filtered.len() - 1);
            self.detail_scroll = 0;
        }
    }

    /// Selects the first entry of the list.
    pub fn scroll_to_top(&mut self)
        ensures
            final(self)@ == after_top(old(self)@),
    {
        if self.filtered.len() > 0 {
            self.selected = Some(0);
            self.detail_scroll = 0;
        }
    }

    /// Scrolls the detail pane down by four lines.
    pub fn detail_down(&mut self)
        ensures
            final(self)@ == after_detail_down(old(self)@),
    {
        self.detail_scroll = self.detail_scroll.saturating_add(4);
    }

    /// Scrolls the detail pane up by four lines.
    pub fn detail_up(&mut self)
        ensures
            final(self)@ == after_detail_up(old(self)@),
    {
        self.detail_scroll = self.detail_scroll.saturating_sub(4);
    }

    /// Moves the file picker selection one row down.
    pub fn sidebar_down(&mut self)
        requires
            wf(old(self)@),
        ensures
            final(self)@ == after_sidebar_down(old(self)@),
            wf(final(self)@),
    {
        let n = self.files.len();
        if n == 0 {
            return;
        }
        let next = match self.sidebar_selected {
            Some(i) => if i + 1 < n {
                i + 1
            } else {
                n - 1
            },
            None => 0,
        };
        self.sidebar_selected = Some(next);
    }

    /// Moves the file picker selection one row up.
    pub fn sidebar_up(&mut self)
        requires
            wf(old(self)@),
        ensures
            final(self)@ == after_sidebar_up(old(self)@),
            wf(final(self)@),
    {
        let n = self.files.len();
        if n == 0 {
            return;
        }
        let prev = match self.sidebar_selected {
            Some(i) => if i == 0 {
                0
            } else {
                i - 1
            },
            None => 0,
        };
        self.sidebar_selected = Some(prev);
    }

    /// Opens the file selected in the picker and gives the list the focus.
    pub fn sidebar_confirm(&mut self)
        requires
            wf(old(self)@),
        ensures
            final(self)@ == after_confirm(old(self)@),
            wf(final(self)@),
    {
        if let Some(idx) = self.sidebar_selected {
            self.switch_to_file(idx);
        }
        self.focus = Focus::List;
    }

    /// Opens the picker, moves the focus to it, or closes it.
    pub fn toggle_sidebar(&mut self)
        requires
            wf(old(self)@),
        ensures
            final(self)@ == after_toggle_sidebar(old(self)@),
            wf(final(self)@),
    {
        if !self.sidebar_open {
            self.sidebar_open = true;
            self.sidebar_selected = Some(self.file_idx);
            self.focus = Focus::Sidebar;
        } else if self.focus == Focus::List {
            self.sidebar_selected = Some(self.file_idx);
            self.focus = Focus::Sidebar;
        } else {
            self.sidebar_open = false;
            self.focus = Focus::List;
        }
    }

    /// Moves the focus to the other pane while the picker is open.
    pub fn toggle_focus(&mut self)
        requires
            wf(old(self)@),
        ensures
            final(self)@ == after_toggle_focus(old(self)@),
            wf(final(self)@),
    {
        if !self.sidebar_open {
            return;
        }
        self.focus = match self.focus {
            Focus::List => Focus::Sidebar,
            Focus::Sidebar => Focus::List,
        };
        if self.focus == Focus::Sidebar {
            self.sidebar_selected = Some(self.file_idx);
        }
    }

    /// Switches follow mode; turning it on selects the last entry.
    pub fn toggle_follow(&mut self)
        requires
            wf(old(self)@),
        ensures
            final(self)@ == after_toggle_follow(old(self)@),
            wf(final(self)@),
    {
        self.follow = !self.follow;
        if self.follow {
            self.scroll_to_bottom();
        }
    }

    /// Takes the result of a poll of the open file: its new text if it
    /// changed since it was read.
    pub fn tick(&mut self, changed: Option<&str>)
        requires
            wf(old(self)@),
            changed matches Some(c) ==> counts_fit(c@, old(self)@.files[old(self)@.file_idx as int].format),
        ensures
            final(self)@ == after_tick(old(self)@, opt_text_view(changed)),
            wf(final(self)@),
    {
        if let Some(content) = changed {
            let idx = self.file_idx;
            let ghost before = self@;
            self.files[idx].reload(content);
            assert(files_view(self.files@) =~= before.files.update(
                idx as int,
                FileView { entries: parsed(content@, before.files[idx as int].format), ..before.files[idx as int] },
            ));
            let prev = self.selected;
            self.apply_filter();
            if self.follow {
                self.scroll_to_bottom();
            } else if let Some(sel) = prev {
                let len = self.filtered.len();
                let max = if len == 0 {
                    0
                } else {
                    len - 1
                };
                self.selected = Some(if sel <= max {
                    sel
                } else {
                    max
                });
            }
        }
    }

    /// Closes the picker and gives the list the focus.
    fn close_sidebar(&mut self)
        ensures
            final(self)@ == after_close_sidebar(old(self)@),
    {
        self.sidebar_open = false;
        self.focus = Focus::List;
    }

    /// Handles a key press; returns whether the viewer quits.
    pub fn handle_key(&mut self, k: KeyPress) -> (quit: bool)
        requires
            wf(old(self)@),
        ensures
            (final(self)@, quit) == after_key(old(self)@, k),
            wf(final(self)@),
    {
        let plain = k.mods == Mods::Plain;
        if self.focus == Focus::Sidebar {
            if k.key == Key::Esc || (k.key == Key::Char('p') && plain) {
                self.close_sidebar();
            } else if k.key == Key::Tab {
                self.toggle_focus();
            } else if k.key == Key::Enter {
                self.sidebar_confirm();
            } else if k.key == Key::Down || (k.key == Key::Char('j') && plain) {
                self.sidebar_down();
            } else if k.key == Key::Up || (k.key == Key::Char('k') && plain) {
                self.sidebar_up();
            }
            return false;
        }
        if (k.key == Key::Char('q') && plain) || (k.key == Key::Char('c') && k.mods
            == Mods::Control) {
            return true;
        }
        if k.key == Key::Esc {
            if self.sidebar_open {
                self.close_sidebar();
            } else if self.search.as_str().unicode_len() > 0 {
                self.search = String::new();
                self.apply_filter();
            } else {
                return true;
            }
        } else if k.key == Key::Char('p') && plain {
            self.toggle_sidebar();
        } else if k.key == Key::Tab && self.sidebar_open {
            self.toggle_focus();
        } else if k.key == Key::Down || (k.key == Key::Char('j') && plain) {
            self.move_down();
        } else if k.key == Key::Up || (k.key == Key::Char('k') && plain) {
            self.move_up();
        } else if k.key == Key::Char('J') {
            self.detail_down();
        } else if k.key == Key::Char('K') {
            self.detail_up();
        } else if k.key == Key::Char('G') || k.key == Key::End {
            self.scroll_to_bottom();
        } else if (k.key == Key::Char('g') && plain) || k.key == Key::Home {
            self.scroll_to_top();
        } else if k.key == Key::Char('f') && plain {
            self.toggle_follow();
        } else if k.key == Key::Backspace {
            pop_char(&mut self.search);
            self.apply_filter();
        } else if k.key == Key::Char('u') && k.mods == Mods::Control {
            self.search = String::new();
            self.apply_filter();
        } else {
            match k.key {
                Key::Char(c) => {
                    if plain || k.mods == Mods::Shift {
                        push_char(&mut self.search, c);
                        self.apply_filter();
                    }
                },
                _ => {},
            }
        }
        false
    }
}

/// The view of an optional text.
pub open spec fn opt_text_view(o: Option<&str>) -> Option<Seq<char>> {
    match o {
        Some(c) => Some(c@),
        None => None,
    }
}

// ── Laws ─────────────────────────────────────────────────────────────────────

/// The filter holds valid indices of entries, in increasing order, and holds
/// exactly the entries that pass the query.
pub proof fn lemma_matching_upto(es: Seq<EntryView>, q: Seq<char>, n: int)
    requires
        0 <= n <= es.len(),
        es.len() <= usize::MAX,
    ensures
        forall|k: int|
            0 <= k < matching_upto(es, q, n).len() ==> #[trigger] matching_upto(es, q, n)[k] < n,
        forall|a: int, b: int|
            0 <= a < b < matching_upto(es, q, n).len() ==> #[trigger] matching_upto(es, q, n)[a]
                < #[trigger] matching_upto(es, q, n)[b],
        forall|k: int|
            0 <= k < matching_upto(es, q, n).len() ==> entry_matches(
                es[#[trigger] matching_upto(es, q, n)[k] as int],
                q,
            ),
        forall|j: int|
            0 <= j < n && entry_matches(#[trigger] es[j], q) ==> matching_upto(es, q, n).contains(
                j as usize,
            ),
    decreases n,
{
    if n > 0 {
        lemma_matching_upto(es, q, n - 1);
        let p = matching_upto(es, q, n - 1);
        let r = matching_upto(es, q, n);
        if entry_matches(es[n - 1], q) {
            assert(r == p.push((n - 1) as usize));
            assert forall|a: int, b: int| 0 <= a < b < r.len() implies #[trigger] r[a]
                < #[trigger] r[b] by {
                if b < p.len() {
                    assert(r[a] == p[a] && r[b] == p[b]);
                } else {
                    assert(r[a] == p[a]);
                    assert(p[a] < n - 1);
                }
            }
            assert forall|k: int| 0 <= k < r.len() implies entry_matches(
                es[#[trigger] r[k] as int],
                q,
            ) by {
                if k < p.len() {
                    assert(r[k] == p[k]);
                }
            }
            assert forall|k: int| 0 <= k < r.len() implies #[trigger] r[k] < n by {
                if k < p.len() {
                    assert(r[k] == p[k]);
                }
            }
        }
        assert forall|j: int| 0 <= j < n && entry_matches(#[trigger] es[j], q) implies r.contains(
            j as usize,
        ) by {
            if j < n - 1 {
                assert(p.contains(j as usize));
                let k = choose|k: int| 0 <= k < p.len() && p[k] == j as usize;
                assert(r[k] == p[k]);
            } else {
                assert(r[r.len() - 1] == j as usize);
            }
        }
    }
}

/// The indices held by the filter point at entries of the open file.
pub proof fn lemma_filter_in_range(es: Seq<EntryView>, search: Seq<char>)
    requires
        es.len() <= usize::MAX,
    ensures
        forall|k: int|
            0 <= k < filter_of(es, search).len() ==> #[trigger] filter_of(es, search)[k] < es.len(),
{
    lemma_matching_upto(es, query_of(search), es.len() as int);
}

/// Every state change keeps the viewer well-formed: any key press, and any
/// poll of the open file.
pub proof fn lemma_transitions_keep_wf(s: AppView, k: KeyPress, changed: Option<Seq<char>>)
    requires
        wf(s),
    ensures
        wf(after_key(s, k).0),
        wf(after_tick(s, changed)),
{
}

/// Switching follow mode twice leaves it as it was.
pub proof fn lemma_follow_twice(s: AppView)
    ensures
        after_toggle_follow(after_toggle_follow(s)).follow == s.follow,
{
}

/// Moving the focus twice while the picker is open gives it back to the same
/// pane.
pub proof fn lemma_focus_twice(s: AppView)
    requires
        s.sidebar_open,
    ensures
        after_toggle_focus(after_toggle_focus(s)).focus == s.focus,
{
}

/// Moving down then up returns to the same row, unless the row was the last.
pub proof fn lemma_down_then_up(s: AppView, i: usize)
    requires
        s.selected == Some(i),
        i + 1 < s.filtered.len(),
        s.filtered.len() <= usize::MAX,
    ensures
        after_move_up(after_move_down(s)).selected == s.selected,
{
    let t = after_move_down(s);
    assert(t.selected == Some((i + 1) as usize));
    assert(t.filtered.len() > 0);
}

/// Scrolling the detail down then up returns to the same place, unless the
/// scroll was already at its limit.
pub proof fn lemma_detail_down_then_up(s: AppView)
    requires
        s.detail_scroll + 4 <= u16::MAX,
    ensures
        after_detail_up(after_detail_down(s)).detail_scroll == s.detail_scroll,
{
}

/// The list shows exactly the entries of the open file that pass the search,
/// each once, in file order.
pub proof fn lemma_filter_exact(es: Seq<EntryView>, search: Seq<char>)
    requires
        es.len() <= usize::MAX,
    ensures
        forall|k: int|
            0 <= k < filter_of(es, search).len() ==> #[trigger] filter_of(es, search)[k] < es.len()
                && entry_matches(es[filter_of(es, search)[k] as int], query_of(search)),
        forall|a: int, b: int|
            0 <= a < b < filter_of(es, search).len() ==> #[trigger] filter_of(es, search)[a]
                < #[trigger] filter_of(es, search)[b],
        forall|j: int|
            0 <= j < es.len() && entry_matches(#[trigger] es[j], query_of(search))
                ==> filter_of(es, search).contains(j as usize),
{
    lemma_matching_upto(es, query_of(search), es.len() as int);
}

/// An empty query shows every entry, in order.
pub proof fn lemma_empty_query_shows_all(es: Seq<EntryView>, search: Seq<char>)
    requires
        search.len() == 0,
        es.len() <= usize::MAX,
    ensures
        filter_of(es, search).len() == es.len(),
        forall|k: int| 0 <= k < es.len() ==> #[trigger] filter_of(es, search)[k] == k,
{
    lemma_all_match(es, query_of(search), es.len() as int);
}

/// In every well-formed state with an empty search, the list shows every
/// entry of the open file, in order.
pub proof fn lemma_empty_search_lists_all(s: AppView)
    requires
        wf(s),
        s.search.len() == 0,
        current_entries(s).len() <= usize::MAX,
    ensures
        s.filtered.len() == current_entries(s).len(),
        forall|k: int| 0 <= k < s.filtered.len() ==> #[trigger] s.filtered[k] == k,
{
    lemma_empty_query_shows_all(current_entries(s), s.search);
}

/// Narrowing the search never adds entries to the list: when the query of
/// `wide` occurs inside the query of `narrow`, every entry that `narrow`
/// keeps, `wide` keeps too.
pub proof fn lemma_narrower_query(es: Seq<EntryView>, wide: Seq<char>, narrow: Seq<char>)
    requires
        contains(query_of(narrow), query_of(wide)),
        es.len() <= usize::MAX,
    ensures
        forall|k: int|
            0 <= k < filter_of(es, narrow).len() ==> filter_of(es, wide).contains(
                #[trigger] filter_of(es, narrow)[k],
            ),
{
    let qw = query_of(wide);
    let qn = query_of(narrow);
    lemma_matching_upto(es, qw, es.len() as int);
    lemma_matching_upto(es, qn, es.len() as int);
    let fnar = filter_of(es, narrow);
    assert forall|k: int| 0 <= k < fnar.len() implies filter_of(es, wide).contains(
        #[trigger] fnar[k],
    ) by {
        let j = fnar[k] as int;
        let e = es[j];
        assert(entry_matches(es[j], qn));
        if qw.len() > 0 {
            if qn.len() == 0 {
                lemma_contains_in_empty(qw);
            }
            let ml = lowercase_of(e.message);
            let dl = lowercase_of(e.detail);
            if contains(ml, qn) {
                lemma_contains_trans(ml, qn, qw);
            } else if contains(dl, qn) {
                lemma_contains_trans(dl, qn, qw);
            } else {
                lemma_contains_trans(e.timestamp, qn, qw);
            }
        }
        assert(entry_matches(es[j], qw));
    }
}

proof fn lemma_all_match(es: Seq<EntryView>, q: Seq<char>, n: int)
    requires
        q.len() == 0,
        0 <= n <= es.len(),
        es.len() <= usize::MAX,
    ensures
        matching_upto(es, q, n).len() == n,
        forall|k: int| 0 <= k < n ==> #[trigger] matching_upto(es, q, n)[k] == k,
    decreases n,
{
    if n > 0 {
        lemma_all_match(es, q, n - 1);
        let p = matching_upto(es, q, n - 1);
        let r = matching_upto(es, q, n);
        assert forall|k: int| 0 <= k < n implies #[trigger] r[k] == k by {
            if k < n - 1 {
                assert(r[k] == p[k]);
            }
        }
    }
}

/// In follow mode, when the open file changes and the list is not empty, the
/// last entry is selected.
pub proof fn lemma_follow_selects_last(s: AppView, content: Seq<char>)
    requires
        wf(s),
        s.follow,
    ensures
        after_reload(s, content).filtered.len() > 0 ==> after_reload(s, content).selected == Some(
            (after_reload(s, content).filtered.len() - 1) as usize,
        ),
{
}

/// Whether a key press types its character into the search.
pub open spec fn types_into_search(k: KeyPress) -> bool {
    &&& k.key is Char
    &&& (k.mods == Mods::Plain || k.mods == Mods::Shift)
    &&& {
        let c = k.key->Char_0;
        &&& !(k.mods == Mods::Plain && (c == 'q' || c == 'p' || c == 'j' || c == 'k' || c == 'g'
            || c == 'f'))
        &&& c != 'J' && c != 'K' && c != 'G'
    }
}

/// With the list focused, typing a character into the search and then
/// pressing Backspace gives back the same search and the same list.
pub proof fn lemma_type_then_backspace(s: AppView, k: KeyPress, b: Mods)
    requires
        wf(s),
        s.focus == Focus::List,
        types_into_search(k),
    ensures
        ({
            let t = after_key(s, k).0;
            let u = after_key(t, KeyPress { key: Key::Backspace, mods: b }).0;
            u.search == s.search && u.filtered == s.filtered
        }),
{
    let t = after_key(s, k).0;
    assert(t.search == s.search.push(k.key->Char_0));
    assert(t.search.drop_last() =~= s.search);
}

/// Whether `t` keeps the open file, the search and the list of `s`.
pub open spec fn same_list(s: AppView, t: AppView) -> bool {
    t.files == s.files && t.file_idx == s.file_idx && t.search == s.search && t.filtered
        == s.filtered
}

/// With the list focused, Down (with any modifiers) and a plain `j` move the
/// selection one row down: from row `i` to row `i + 1`, staying on the last
/// row, and from no selection to the first row. The list itself is kept and
/// the viewer does not quit.
pub proof fn lemma_down_keys(s: AppView, m: Mods, i: usize)
    requires
        s.focus == Focus::List,
    ensures
        ({
            let down = after_key(s, KeyPress { key: Key::Down, mods: m });
            let j = after_key(s, KeyPress { key: Key::Char('j'), mods: Mods::Plain });
            &&& !down.1 && !j.1
            &&& same_list(s, down.0) && same_list(s, j.0)
            &&& (s.selected == Some(i) && i + 1 < s.filtered.len()) ==> down.0.selected == Some(
                (i + 1) as usize,
            ) && j.0.selected == Some((i + 1) as usize)
            &&& (s.selected == Some(i) && i + 1 == s.filtered.len()) ==> down.0.selected == Some(i)
                && j.0.selected == Some(i)
            &&& (s.selected is None && s.filtered.len() > 0) ==> down.0.selected == Some(0usize)
                && j.0.selected == Some(0usize)
        }),
{
}

/// With the list focused, Up (with any modifiers) and a plain `k` move the
/// selection one row up: from row `i > 0` to row `i - 1`, staying on the
/// first row. The list itself is kept and the viewer does not quit.
pub proof fn lemma_up_keys(s: AppView, m: Mods, i: usize)
    requires
        s.focus == Focus::List,
    ensures
        ({
            let up = after_key(s, KeyPress { key: Key::Up, mods: m });
            let k = after_key(s, KeyPress { key: Key::Char('k'), mods: Mods::Plain });
            &&& !up.1 && !k.1
            &&& same_list(s, up.0) && same_list(s, k.0)
            &&& (s.selected == Some(i) && 0 < i < s.filtered.len()) ==> up.0.selected == Some(
                (i - 1) as usize,
            ) && k.0.selected == Some((i - 1) as usize)
            &&& (s.selected == Some(0usize) && s.filtered.len() > 0) ==> up.0.selected == Some(
                0usize,
            ) && k.0.selected == Some(0usize)
        }),
{
}

/// With the list focused and the list not empty, `G` and End select the last
/// row, a plain `g` and Home the first; `J` scrolls the detail four lines
/// down and `K` four lines up (within bounds); a plain `f` switches follow
/// mode. None of them quits or changes the list.
pub proof fn lemma_jump_keys(s: AppView, m: Mods)
    requires
        s.focus == Focus::List,
        s.filtered.len() > 0,
    ensures
        ({
            let last = Some((s.filtered.len() - 1) as usize);
            let g_up = after_key(s, KeyPress { key: Key::Char('G'), mods: m });
            let end = after_key(s, KeyPress { key: Key::End, mods: m });
            let g = after_key(s, KeyPress { key: Key::Char('g'), mods: Mods::Plain });
            let home = after_key(s, KeyPress { key: Key::Home, mods: m });
            let jd = after_key(s, KeyPress { key: Key::Char('J'), mods: m });
            let kd = after_key(s, KeyPress { key: Key::Char('K'), mods: m });
            let f = after_key(s, KeyPress { key: Key::Char('f'), mods: Mods::Plain });
            &&& !g_up.1 && !end.1 && !g.1 && !home.1 && !jd.1 && !kd.1 && !f.1
            &&& g_up.0.selected == last && end.0.selected == last
            &&& g.0.selected == Some(0usize) && home.0.selected == Some(0usize)
            &&& same_list(s, g_up.0) && same_list(s, end.0) && same_list(s, g.0) && same_list(
                s,
                home.0,
            )
            &&& s.detail_scroll + 4 <= u16::MAX ==> jd.0.detail_scroll == s.detail_scroll + 4
            &&& s.detail_scroll >= 4 ==> kd.0.detail_scroll == s.detail_scroll - 4
            &&& s.detail_scroll < 4 ==> kd.0.detail_scroll == 0
            &&& jd.0.selected == s.selected && kd.0.selected == s.selected
            &&& f.0.follow == !s.follow && same_list(s, f.0)
        }),
{
}

/// With the list focused: typing a character that is no key binding adds it
/// to the search, Backspace removes the search's last character, Ctrl+U
/// clears it, and Esc clears a search (when the picker is closed); after each
/// the list is the filter of the new search. None of them quits.
pub proof fn lemma_search_keys(s: AppView, k: KeyPress, b: Mods)
    requires
        s.focus == Focus::List,
        types_into_search(k),
    ensures
        ({
            let typed = after_key(s, k);
            let back = after_key(s, KeyPress { key: Key::Backspace, mods: b });
            let clear = after_key(s, KeyPress { key: Key::Char('u'), mods: Mods::Control });
            let esc = after_key(s, KeyPress { key: Key::Esc, mods: b });
            &&& !typed.1 && typed.0.search == s.search.push(k.key->Char_0)
            &&& typed.0.filtered == filter_of(current_entries(s), s.search.push(k.key->Char_0))
            &&& !back.1 && (s.search.len() > 0 ==> back.0.search == s.search.drop_last())
            &&& back.0.filtered == filter_of(current_entries(s), back.0.search)
            &&& !clear.1 && clear.0.search.len() == 0
            &&& clear.0.filtered == filter_of(current_entries(s), seq![])
            &&& (!s.sidebar_open && s.search.len() > 0) ==> !esc.1 && esc.0.search.len() == 0
                && esc.0.filtered == filter_of(current_entries(s), seq![])
        }),
{
}

/// From the list, a plain `q` and Ctrl+C quit; Esc quits when the picker is
/// closed and the search is empty, and otherwise never.
pub proof fn lemma_quit_keys(s: AppView, b: Mods)
    requires
        s.focus == Focus::List,
    ensures
        after_key(s, KeyPress { key: Key::Char('q'), mods: Mods::Plain }).1,
        after_key(s, KeyPress { key: Key::Char('c'), mods: Mods::Control }).1,
        after_key(s, KeyPress { key: Key::Esc, mods: b }).1 <==> (!s.sidebar_open
            && s.search.len() == 0),
{
}

} // verus!
