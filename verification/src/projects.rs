//! The project picker: the list of known projects, filtering it by a query,
//! moving and showing the selection, keys, and what accepting an entry does.
use vstd::prelude::*;
use crate::json;
use crate::paths;
use crate::sorting::{self, SortOrder};
use crate::text;

verus! {

/// A project the picker lists: an open workspace or a repository on disk.
#[derive(Debug)]
pub struct ProjectPickerEntry {
    pub name: String,
    pub tab_name: Option<String>,
    pub path: String,
    pub workspace_idx: Option<usize>,
    pub tab_idx: Option<usize>,
}

/// Name, tab name, path, workspace index, tab index.
pub type EntryView = (Seq<char>, Option<Seq<char>>, Seq<char>, Option<usize>, Option<usize>);

impl View for ProjectPickerEntry {
    type V = EntryView;

    open spec fn view(&self) -> EntryView {
        (self.name@, text::opt_view(self.tab_name), self.path@, self.workspace_idx, self.tab_idx)
    }
}

impl ProjectPickerEntry {
    pub fn new(name: String, path: String, workspace_idx: Option<usize>) -> (r: Self)
        ensures
            r.name == name,
            r.path == path,
            r.tab_name is None,
            r.workspace_idx == workspace_idx,
            r.tab_idx is None,
    {
        ProjectPickerEntry { name, tab_name: None, path, workspace_idx, tab_idx: None }
    }
}

#[derive(Clone, Copy, Debug, PartialEq, Eq, Structural)]
pub enum Mode {
    Terminal,
    ProjectPicker,
}

/// The picker's own state.
#[derive(Debug)]
pub struct ProjectPicker {
    pub query: String,
    pub selected: usize,
    pub scroll: usize,
    pub error: Option<String>,
    pub entries: Vec<ProjectPickerEntry>,
}

/// The part of the application state the picker reads and changes.
#[derive(Debug)]
pub struct AppState {
    pub mode: Mode,
    pub project_picker: ProjectPicker,
    /// Sent to the root pane of a project the picker opens.
    pub project_command: String,
}

/// The application, as far as the picker acts on it.
#[derive(Debug)]
pub struct App {
    pub state: AppState,
}

/// The query as entries are matched against it: trimmed, then lower case.
pub open spec fn query_key(query: Seq<char>) -> Seq<char> {
    text::lowercase(text::trim(query))
}

/// An entry matches an empty query, or one that occurs in its lower-case
/// name or path.
pub open spec fn entry_matches(e: EntryView, key: Seq<char>) -> bool {
    ||| key.len() == 0
    ||| text::is_infix(key, text::lowercase(e.0))
    ||| text::is_infix(key, text::lowercase(e.2))
}

/// The indices of the matching entries, in order.
pub open spec fn filtered_indices(es: Seq<EntryView>, key: Seq<char>) -> Seq<usize>
    decreases es.len(),
{
    if es.len() == 0 {
        Seq::<usize>::empty()
    } else {
        let earlier = filtered_indices(es.drop_last(), key);
        if entry_matches(es.last(), key) {
            earlier.push((es.len() - 1) as usize)
        } else {
            earlier
        }
    }
}

pub proof fn lemma_filtered_indices_valid(es: Seq<EntryView>, key: Seq<char>)
    requires
        es.len() <= usize::MAX,
    ensures
        forall|k: int|
            0 <= k < filtered_indices(es, key).len() ==> #[trigger] filtered_indices(es, key)[k]
                < es.len() && entry_matches(es[filtered_indices(es, key)[k] as int], key),
        forall|k: int, m: int|
            0 <= k < m < filtered_indices(es, key).len() ==> #[trigger] filtered_indices(es, key)[k]
                < #[trigger] filtered_indices(es, key)[m],
        filtered_indices(es, key).len() <= es.len(),
    decreases es.len(),
{
    if es.len() > 0 {
        lemma_filtered_indices_valid(es.drop_last(), key);
        let f = filtered_indices(es, key);
        let e = filtered_indices(es.drop_last(), key);
        assert forall|k: int| 0 <= k < f.len() implies #[trigger] f[k] < es.len() && entry_matches(
            es[f[k] as int],
            key,
        ) by {
            if k < e.len() {
                assert(f[k] == e[k]);
                assert(es[e[k] as int] == es.drop_last()[e[k] as int]);
            } else {
                assert(f[k] as int == es.len() - 1);
            }
        }
        assert forall|k: int, m: int| 0 <= k < m < f.len() implies #[trigger] f[k] < #[trigger] f[m] by {
            assert(f[k] == e[k]);
            if m < e.len() {
                assert(f[m] == e[m]);
            } else {
                assert(f[m] as int == es.len() - 1);
            }
        }
    }
}

/// The filter ignores the case of ASCII letters in the query: two queries
/// that differ only in it match the same entries.
pub proof fn lemma_filter_ignores_query_case(es: Seq<EntryView>, first: Seq<char>, second: Seq<char>)
    requires
        text::is_ascii(first),
        text::is_ascii(second),
        text::ascii_lower(first) == text::ascii_lower(second),
    ensures
        filtered_indices(es, query_key(first)) == filtered_indices(es, query_key(second)),
{
    text::lemma_trim_ascii_lower(first);
    text::lemma_trim_ascii_lower(second);
    assert(query_key(first) == query_key(second));
}

/// An ASCII entry matches a non-blank ASCII query exactly when the trimmed
/// query occurs in its name or its path, the case of letters ignored.
pub proof fn lemma_entry_match_ignores_case(e: EntryView, query: Seq<char>)
    requires
        text::is_ascii(query),
        text::is_ascii(e.0),
        text::is_ascii(e.2),
        text::trim(query).len() > 0,
    ensures
        entry_matches(e, query_key(query)) <==> (text::is_infix(
            text::ascii_lower(text::trim(query)),
            text::ascii_lower(e.0),
        ) || text::is_infix(text::ascii_lower(text::trim(query)), text::ascii_lower(e.2))),
{
    text::lemma_trim_ascii_lower(query);
    assert(query_key(query).len() == text::trim(query).len());
}

/// A blank query matches every entry, in order.
pub proof fn lemma_blank_query_matches_all(es: Seq<EntryView>, query: Seq<char>)
    requires
        text::trim(query).len() == 0,
    ensures
        filtered_indices(es, query_key(query)) == Seq::new(es.len(), |i: int| i as usize),
    decreases es.len(),
{
    assert(text::is_ascii(text::trim(query)));
    assert(query_key(query).len() == 0);
    if es.len() > 0 {
        lemma_blank_query_matches_all(es.drop_last(), query);
        assert(filtered_indices(es, query_key(query)) =~= Seq::new(es.len(), |i: int| i as usize));
    } else {
        assert(filtered_indices(es, query_key(query)) =~= Seq::new(es.len(), |i: int| i as usize));
    }
}

pub open spec fn entries_view(es: Seq<ProjectPickerEntry>) -> Seq<EntryView> {
    es.map_values(|e: ProjectPickerEntry| e@)
}

impl ProjectPicker {
    pub open spec fn matching(self) -> Seq<usize> {
        filtered_indices(entries_view(self.entries@), query_key(self.query@))
    }
}

/// Whether entry `e` matches `key`, spelled out: the key is empty or occurs
/// in the entry's lower-case name or path.
pub open spec fn key_occurs(key: Seq<char>, e: EntryView) -> bool {
    ||| key.len() == 0
    ||| text::is_infix(key, text::lowercase(e.0))
    ||| text::is_infix(key, text::lowercase(e.2))
}

proof fn lemma_filter_lists_at(es: Seq<EntryView>, key: Seq<char>, i: int)
    requires
        es.len() <= usize::MAX,
        0 <= i < es.len(),
    ensures
        filtered_indices(es, key).contains(i as usize) <==> key_occurs(key, es[i]),
    decreases es.len(),
{
    let init = es.drop_last();
    let f = filtered_indices(es, key);
    let e = filtered_indices(init, key);
    lemma_filtered_indices_valid(init, key);
    if i < es.len() - 1 {
        lemma_filter_lists_at(init, key, i);
        assert(es[i] == init[i]);
        if f.contains(i as usize) {
            let k = choose|k: int| 0 <= k < f.len() && f[k] == i as usize;
            if k < e.len() {
                assert(f[k] == e[k]);
            } else {
                assert(f[k] as int == es.len() - 1);
            }
            assert(e.contains(i as usize));
        }
        if e.contains(i as usize) {
            let k = choose|k: int| 0 <= k < e.len() && e[k] == i as usize;
            assert(f[k] == e[k]);
            assert(f.contains(i as usize));
        }
    } else {
        if entry_matches(es.last(), key) {
            assert(f[e.len() as int] == i as usize);
            assert(f.contains(i as usize));
        } else {
            assert(f == e);
            if f.contains(i as usize) {
                let k = choose|k: int| 0 <= k < f.len() && f[k] == i as usize;
                assert(e[k] < init.len());
            }
        }
    }
}

/// The filter misses no match: an entry is listed exactly when the key is
/// empty or occurs in the entry's lower-case name or path.
pub proof fn lemma_filter_lists_every_match(es: Seq<EntryView>, key: Seq<char>)
    requires
        es.len() <= usize::MAX,
    ensures
        forall|i: int|
            0 <= i < es.len() ==> (#[trigger] filtered_indices(es, key).contains(i as usize)
                <==> key_occurs(key, es[i])),
{
    assert forall|i: int| 0 <= i < es.len() implies (#[trigger] filtered_indices(
        es,
        key,
    ).contains(i as usize) <==> key_occurs(key, es[i])) by {
        lemma_filter_lists_at(es, key, i);
    }
}

/// The picker lists entry `i` exactly when the trimmed, lower-case query is
/// empty or occurs in the entry's lower-case name or path: every matching
/// project can be found.
pub proof fn lemma_picker_lists_every_match(picker: ProjectPicker, i: int)
    requires
        0 <= i < picker.entries@.len(),
    ensures
        picker.matching().contains(i as usize) <==> ({
            let key = text::lowercase(text::trim(picker.query@));
            ||| key.len() == 0
            ||| text::is_infix(key, text::lowercase(picker.entries@[i].name@))
            ||| text::is_infix(key, text::lowercase(picker.entries@[i].path@))
        }),
{
    let es = entries_view(picker.entries@);
    assert(es.len() == picker.entries.len());
    assert(es[i] == picker.entries@[i]@);
    lemma_filter_lists_at(es, query_key(picker.query@), i);
}

fn entry_matches_exec(e: &ProjectPickerEntry, key: &Vec<char>) -> (r: bool)
    ensures
        r == entry_matches(e@, key@),
{
    if key.len() == 0 {
        return true;
    }
    let name = text::lowercase_chars(&text::chars_of(e.name.as_str()));
    if text::contains_chars(&name, key) {
        return true;
    }
    let path = text::lowercase_chars(&text::chars_of(e.path.as_str()));
    text::contains_chars(&path, key)
}

impl AppState {
    /// The indices of the entries that match the query, in order.
    pub fn filtered_project_indices(&self) -> (r: Vec<usize>)
        ensures
            r@ == self.project_picker.matching(),
    {
        let key = text::lowercase_chars(
            &text::trim_chars(&text::chars_of(self.project_picker.query.as_str())),
        );
        let entries = &self.project_picker.entries;
        let ghost es = entries_view(entries@);
        let mut r: Vec<usize> = Vec::new();
        let mut k: usize = 0;
        assert(es.take(0) =~= Seq::<EntryView>::empty());
        while k < entries.len()
            invariant
                k <= entries.len(),
                es == entries_view(entries@),
                key@ == query_key(self.project_picker.query@),
                r@ == filtered_indices(es.take(k as int), key@),
            decreases entries.len() - k,
        {
            assert(es.take(k + 1).drop_last() =~= es.take(k as int));
            assert(es.take(k + 1).last() == entries@[k as int]@);
            if entry_matches_exec(&entries[k], &key) {
                r.push(k);
            }
            k = k + 1;
        }
        assert(es.take(entries.len() as int) =~= es);
        r
    }

    /// The entries that match the query, in order.
    pub fn project_picker_visible_entries(&self) -> (r: Vec<&ProjectPickerEntry>)
        ensures
            r@.len() == self.project_picker.matching().len(),
            forall|k: int|
                0 <= k < r@.len() ==> *#[trigger] r@[k]
                    == self.project_picker.entries@[self.project_picker.matching()[k] as int],
    {
        let indices = self.filtered_project_indices();
        proof {
            assert(entries_view(self.project_picker.entries@).len()
                == self.project_picker.entries.len());
            lemma_filtered_indices_valid(
                entries_view(self.project_picker.entries@),
                query_key(self.project_picker.query@),
            );
        }
        let mut r: Vec<&ProjectPickerEntry> = Vec::new();
        let mut k: usize = 0;
        while k < indices.len()
            invariant
                k <= indices.len(),
                indices@ == self.project_picker.matching(),
                indices@.len() <= self.project_picker.entries.len(),
                forall|m: int|
                    0 <= m < indices@.len() ==> #[trigger] indices@[m]
                        < self.project_picker.entries.len(),
                r@.len() == k,
                forall|m: int|
                    0 <= m < k ==> *#[trigger] r@[m]
                        == self.project_picker.entries@[indices@[m] as int],
            decreases indices.len() - k,
        {
            r.push(&self.project_picker.entries[indices[k]]);
            k = k + 1;
        }
        r
    }
}

/// The scroll offset after making the selection visible in a viewport of
/// `viewport` rows.
pub open spec fn visible_scroll(selected: usize, scroll: usize, viewport: usize) -> usize {
    if viewport == 0 {
        0
    } else if selected < scroll {
        selected
    } else if selected >= scroll + viewport {
        let past: int = if selected < usize::MAX {
            selected + 1
        } else {
            selected as int
        };
        if past > viewport {
            (past - viewport) as usize
        } else {
            0
        }
    } else {
        scroll
    }
}

/// `scroll + viewport` is computed only where it fits in `usize`.
pub open spec fn scroll_fits(selected: usize, scroll: usize, viewport: usize) -> bool {
    viewport == 0 || selected < scroll || scroll + viewport <= usize::MAX
}

/// The selection as a signed number (`as isize`): values above
/// `isize::MAX` wrap around to negative ones.
pub open spec fn as_signed(selected: usize) -> int {
    if selected <= isize::MAX {
        selected as int
    } else {
        selected - usize::MAX - 1
    }
}

/// The selection after moving by `delta` among `count` matching entries.
pub open spec fn moved_selection(selected: usize, delta: int, count: nat) -> usize {
    if count == 0 {
        0
    } else if as_signed(selected) + delta < 0 {
        0
    } else if as_signed(selected) + delta > count - 1 {
        (count - 1) as usize
    } else {
        (as_signed(selected) + delta) as usize
    }
}

/// The selection kept within `count` matching entries.
pub open spec fn clamped_selection(selected: usize, count: nat) -> usize {
    if count == 0 {
        0
    } else if selected > count - 1 {
        (count - 1) as usize
    } else {
        selected
    }
}

/// Once the selection is made visible, it lies within the viewport, unless
/// the viewport has no rows.
pub proof fn lemma_visible_scroll_shows_selection(selected: usize, scroll: usize, viewport: usize)
    requires
        viewport > 0,
        selected < usize::MAX,
    ensures
        visible_scroll(selected, scroll, viewport) <= selected,
        selected < visible_scroll(selected, scroll, viewport) + viewport,
{
}

/// A selection that is already visible does not scroll.
pub proof fn lemma_visible_scroll_keeps_visible(selected: usize, scroll: usize, viewport: usize)
    requires
        scroll <= selected < scroll + viewport,
    ensures
        visible_scroll(selected, scroll, viewport) == scroll,
{
}

/// Moving or clamping keeps the selection on one of the matching entries,
/// where there is any.
pub proof fn lemma_selection_stays_on_matches(selected: usize, delta: int, count: nat)
    requires
        count > 0,
        count <= usize::MAX,
    ensures
        moved_selection(selected, delta, count) < count,
        clamped_selection(selected, count) < count,
        selected < count ==> clamped_selection(selected, count) == selected,
{
}

/// The keys the picker reads.
#[derive(Clone, Copy, Debug, PartialEq, Eq, Structural)]
pub enum PickerKeyCode {
    Esc,
    Enter,
    Backspace,
    Up,
    Down,
    Char(char),
    Other,
}

/// A key with its modifiers, as the bits of the terminal's key event: shift
/// is 1, control 2, alt 4, super 8, hyper 16, meta 32.
#[derive(Clone, Copy, Debug, PartialEq, Eq, Structural)]
pub struct PickerKey {
    pub code: PickerKeyCode,
    pub modifiers: u8,
}

pub const SHIFT: u8 = 1;

pub const CONTROL: u8 = 2;

/// What accepting the selection asks of the application.
pub enum AcceptAction {
    Nothing,
    /// Focus the open workspace.
    Focus { workspace_idx: usize },
    /// Open a workspace in `cwd` labelled `label`, then report the answer with
    /// `App::complete_project_open`.
    Open { cwd: String, label: String },
}

/// How opening a project ended.
pub enum ProjectOpenOutcome {
    /// The picker stays open and shows the error.
    Failed,
    /// The picker closed; `command`, when set, is typed into the new root pane
    /// followed by enter.
    Opened { pane_id: String, command: Option<String> },
}

pub open spec fn pop_last(s: Seq<char>) -> Seq<char> {
    if s.len() > 0 {
        s.drop_last()
    } else {
        s
    }
}

fn string_pop(s: &String) -> (r: String)
    ensures
        r@ == pop_last(s@),
{
    let chars = text::chars_of(s.as_str());
    if chars.len() == 0 {
        return String::new();
    }
    let kept = text::slice_chars(&chars, 0, chars.len() - 1);
    assert(kept@ =~= s@.drop_last());
    text::string_from_chars(kept.as_slice())
}

fn string_push(s: &String, c: char) -> (r: String)
    ensures
        r@ == s@.push(c),
{
    let mut chars = text::chars_of(s.as_str());
    chars.push(c);
    text::string_from_chars(chars.as_slice())
}

/// Accepting the selection: no change where no matching entry is selected;
/// for an open workspace, focus it and close the picker; otherwise ask to open
/// the repository's directory and change nothing yet.
pub open spec fn accepted(before: App, r: AcceptAction, after: App) -> bool {
    let m = before.state.project_picker.matching();
    let sel = before.state.project_picker.selected;
    if sel >= m.len() {
        r is Nothing && after == before
    } else {
        let e = before.state.project_picker.entries@[m[sel as int] as int];
        match e.workspace_idx {
            Some(w) => {
                &&& r == AcceptAction::Focus { workspace_idx: w }
                &&& after.state.mode == Mode::Terminal
                &&& after.state.project_picker.error is None
                &&& after.state.project_picker.query
                    == before.state.project_picker.query
                &&& after.state.project_picker.selected == sel
                &&& after.state.project_picker.scroll
                    == before.state.project_picker.scroll
                &&& after.state.project_picker.entries
                    == before.state.project_picker.entries
                &&& after.state.project_command
                    == before.state.project_command
            },
            None => {
                &&& r matches AcceptAction::Open { cwd, label } && cwd@ == e.path@
                    && label@ == e.name@
                &&& after == before
            },
        }
    }
}

/// Moving by `delta` stays within the machine's integers: the entries can be
/// counted as an `isize`, the moved position is one, and the viewport's end
/// is computed only where it fits.
pub open spec fn move_ok(before: App, delta: int, viewport: usize) -> bool {
    let picker = before.state.project_picker;
    let count = picker.matching().len();
    &&& picker.entries.len() <= isize::MAX
    &&& isize::MIN <= as_signed(picker.selected) + delta <= isize::MAX
    &&& count > 0 ==> scroll_fits(moved_selection(picker.selected, delta, count), picker.scroll, viewport)
}

/// Setting the query to `query` keeps the viewport's end computable.
pub open spec fn requery_ok(before: App, query: Seq<char>, viewport: usize) -> bool {
    let picker = before.state.project_picker;
    let count = filtered_indices(entries_view(picker.entries@), query_key(query)).len();
    scroll_fits(clamped_selection(picker.selected, count), picker.scroll, viewport)
}

/// Moving the selection by `delta` in a viewport of `viewport` rows: the
/// selection moves among the matching entries, staying on the first or last
/// one, and is made visible; where nothing matches it goes to the first row.
/// Nothing else changes.
pub open spec fn moved(before: App, delta: int, viewport: usize, after: App) -> bool {
    let old_picker = before.state.project_picker;
    let new_picker = after.state.project_picker;
    let count = old_picker.matching().len();
    let sel = moved_selection(old_picker.selected, delta, count);
    &&& new_picker.selected == sel
    &&& new_picker.scroll == if count == 0 {
        old_picker.scroll
    } else {
        visible_scroll(sel, old_picker.scroll, viewport)
    }
    &&& new_picker.query == old_picker.query
    &&& new_picker.error == old_picker.error
    &&& new_picker.entries == old_picker.entries
    &&& after.state.mode == before.state.mode
    &&& after.state.project_command == before.state.project_command
}

/// Setting the query to `query`: the selection is kept among the entries
/// that match the new query and made visible, and the error is cleared.
/// Nothing else changes.
pub open spec fn requeried(before: App, query: Seq<char>, viewport: usize, after: App) -> bool {
    let old_picker = before.state.project_picker;
    let new_picker = after.state.project_picker;
    let count = filtered_indices(entries_view(old_picker.entries@), query_key(query)).len();
    let sel = clamped_selection(old_picker.selected, count);
    &&& new_picker.query@ == query
    &&& new_picker.selected == sel
    &&& new_picker.scroll == visible_scroll(sel, old_picker.scroll, viewport)
    &&& new_picker.error is None
    &&& new_picker.entries == old_picker.entries
    &&& after.state.mode == before.state.mode
    &&& after.state.project_command == before.state.project_command
}

/// Closing the picker: back to the terminal, the error cleared, nothing else
/// changed.
pub open spec fn closed(before: App, after: App) -> bool {
    let old_picker = before.state.project_picker;
    let new_picker = after.state.project_picker;
    &&& after.state.mode == Mode::Terminal
    &&& new_picker.error is None
    &&& new_picker.query == old_picker.query
    &&& new_picker.selected == old_picker.selected
    &&& new_picker.scroll == old_picker.scroll
    &&& new_picker.entries == old_picker.entries
    &&& after.state.project_command == before.state.project_command
}

/// The key can be handled within the machine's integers (see `move_ok`
/// and `requery_ok`).
pub open spec fn key_ok(before: App, key: PickerKey, viewport: usize) -> bool {
    match key.code {
        PickerKeyCode::Backspace => requery_ok(
            before,
            pop_last(before.state.project_picker.query@),
            viewport,
        ),
        PickerKeyCode::Up => move_ok(before, -1, viewport),
        PickerKeyCode::Down => move_ok(before, 1, viewport),
        PickerKeyCode::Char(c) => if key.modifiers == CONTROL && c == 'n' {
            move_ok(before, 1, viewport)
        } else if key.modifiers == CONTROL && c == 'p' {
            move_ok(before, -1, viewport)
        } else if key.modifiers == CONTROL && c == 'u' {
            requery_ok(before, Seq::<char>::empty(), viewport)
        } else if key.modifiers == 0 || key.modifiers == SHIFT {
            requery_ok(before, before.state.project_picker.query@.push(c), viewport)
        } else {
            true
        },
        _ => true,
    }
}

/// The picker's numbers leave room for any key: the entries can be counted
/// as an `isize`, the selection can move one step either way as one, and
/// the viewport's end fits in `usize`.
pub open spec fn picker_in_range(before: App, viewport: usize) -> bool {
    let picker = before.state.project_picker;
    &&& picker.entries.len() <= isize::MAX
    &&& isize::MIN < as_signed(picker.selected) < isize::MAX
    &&& picker.scroll + viewport <= usize::MAX
}

/// What a key does to the picker: escape closes it, enter accepts the
/// selection, backspace, control-u and typed characters change the query,
/// the arrows and control-n and control-p move the selection; other keys
/// change nothing.
pub open spec fn key_handled(
    before: App,
    key: PickerKey,
    viewport: usize,
    r: AcceptAction,
    after: App,
) -> bool {
    match key.code {
        PickerKeyCode::Esc => r is Nothing && closed(before, after),
        PickerKeyCode::Enter => accepted(before, r, after),
        PickerKeyCode::Backspace => r is Nothing && requeried(
            before,
            pop_last(before.state.project_picker.query@),
            viewport,
            after,
        ),
        PickerKeyCode::Up => r is Nothing && moved(before, -1, viewport, after),
        PickerKeyCode::Down => r is Nothing && moved(before, 1, viewport, after),
        PickerKeyCode::Char(c) => r is Nothing && if key.modifiers == CONTROL && c == 'n' {
            moved(before, 1, viewport, after)
        } else if key.modifiers == CONTROL && c == 'p' {
            moved(before, -1, viewport, after)
        } else if key.modifiers == CONTROL && c == 'u' {
            requeried(before, Seq::<char>::empty(), viewport, after)
        } else if key.modifiers == 0 || key.modifiers == SHIFT {
            requeried(
                before,
                before.state.project_picker.query@.push(c),
                viewport,
                after,
            )
        } else {
            after == before
        },
        PickerKeyCode::Other => r is Nothing && after == before,
    }
}

impl App {
    /// Opens the picker on `entries` with an empty query and the first entry
    /// selected.
    pub fn open_project_picker(&mut self, entries: Vec<ProjectPickerEntry>)
        ensures
            final(self).state.project_picker.query@ == Seq::<char>::empty(),
            final(self).state.project_picker.selected == 0,
            final(self).state.project_picker.scroll == 0,
            final(self).state.project_picker.error is None,
            final(self).state.project_picker.entries@ == entries@,
            final(self).state.mode == Mode::ProjectPicker,
            final(self).state.project_command == old(self).state.project_command,
    {
        self.state.project_picker.query = String::new();
        self.state.project_picker.selected = 0;
        self.state.project_picker.scroll = 0;
        self.state.project_picker.error = None;
        self.state.project_picker.entries = entries;
        self.state.mode = Mode::ProjectPicker;
    }

    /// Scrolls so that the selection is within a viewport of `viewport` rows.
    pub fn ensure_project_picker_selection_visible(&mut self, viewport: usize)
        requires
            scroll_fits(
                old(self).state.project_picker.selected,
                old(self).state.project_picker.scroll,
                viewport,
            ),
        ensures
            final(self).state.project_picker.scroll == visible_scroll(
                old(self).state.project_picker.selected,
                old(self).state.project_picker.scroll,
                viewport,
            ),
            final(self).state.project_picker.selected == old(self).state.project_picker.selected,
            final(self).state.project_picker.query == old(self).state.project_picker.query,
            final(self).state.project_picker.error == old(self).state.project_picker.error,
            final(self).state.project_picker.entries == old(self).state.project_picker.entries,
            final(self).state.mode == old(self).state.mode,
            final(self).state.project_command == old(self).state.project_command,
    {
        let selected = self.state.project_picker.selected;
        let scroll = self.state.project_picker.scroll;
        if viewport == 0 {
            self.state.project_picker.scroll = 0;
        } else if selected < scroll {
            self.state.project_picker.scroll = selected;
        } else if selected >= scroll + viewport {
            self.state.project_picker.scroll = selected.saturating_add(1).saturating_sub(viewport);
        }
    }

    /// Moves the selection by `delta` among the matching entries, staying on
    /// the first or last one, and keeps it visible.
    pub fn move_project_picker_selection(&mut self, delta: isize, viewport: usize)
        requires
            move_ok(*old(self), delta as int, viewport),
        ensures
            moved(*old(self), delta as int, viewport, *final(self)),
    {
        let count = self.state.filtered_project_indices().len();
        if count == 0 {
            self.state.project_picker.selected = 0;
            return;
        }
        proof {
            assert(entries_view(self.state.project_picker.entries@).len()
                == self.state.project_picker.entries.len());
            lemma_filtered_indices_valid(
                entries_view(self.state.project_picker.entries@),
                query_key(self.state.project_picker.query@),
            );
        }
        let current = self.state.project_picker.selected;
        let signed: isize = if current <= isize::MAX as usize {
            current as isize
        } else {
            ((current - isize::MAX as usize - 1) as isize) + isize::MIN
        };
        assert(signed == as_signed(current));
        let target = signed + delta;
        let last = count as isize - 1;
        let selected: usize = if target < 0 {
            0
        } else if target > last {
            last as usize
        } else {
            target as usize
        };
        self.state.project_picker.selected = selected;
        self.ensure_project_picker_selection_visible(viewport);
    }

    /// Keeps the selection among the matching entries, clears the error and
    /// keeps the selection visible.
    pub fn clamp_project_picker_selection(&mut self, viewport: usize)
        requires
            requery_ok(*old(self), old(self).state.project_picker.query@, viewport),
        ensures
            requeried(*old(self), old(self).state.project_picker.query@, viewport, *final(self)),
            final(self).state.project_picker.query == old(self).state.project_picker.query,
    {
        let count = self.state.filtered_project_indices().len();
        let last = count.saturating_sub(1);
        if self.state.project_picker.selected > last {
            self.state.project_picker.selected = last;
        }
        self.state.project_picker.error = None;
        self.ensure_project_picker_selection_visible(viewport);
    }

    /// Leaves the picker for the terminal and clears its error.
    pub fn close_project_picker(&mut self)
        ensures
            closed(*old(self), *final(self)),
    {
        self.state.mode = Mode::Terminal;
        self.state.project_picker.error = None;
    }

    /// What accepting the selected entry asks for: nothing where no entry is
    /// selected, focusing an open workspace (the picker closes), or opening a
    /// workspace for a repository (the picker stays until the answer).
    pub fn accept_project_picker_selection(&mut self) -> (r: AcceptAction)
        ensures
            accepted(*old(self), r, *final(self)),
    {
        let indices = self.state.filtered_project_indices();
        proof {
            assert(entries_view(self.state.project_picker.entries@).len()
                == self.state.project_picker.entries.len());
            lemma_filtered_indices_valid(
                entries_view(self.state.project_picker.entries@),
                query_key(self.state.project_picker.query@),
            );
        }
        if self.state.project_picker.selected >= indices.len() {
            return AcceptAction::Nothing;
        }
        let entry_index = indices[self.state.project_picker.selected];
        let entry = &self.state.project_picker.entries[entry_index];
        match entry.workspace_idx {
            Some(workspace_idx) => {
                self.close_project_picker();
                AcceptAction::Focus { workspace_idx }
            },
            None => AcceptAction::Open { cwd: entry.path.clone(), label: entry.name.clone() },
        }
    }

    /// Reads the answer to opening a project: a parse failure or an error
    /// message is shown in the picker, an answer without a root pane too;
    /// otherwise the picker closes and the project command, trimmed, is sent
    /// to the root pane where it is not empty.
    #[verifier::rlimit(30)]
    pub fn complete_project_open(&mut self, response: &str) -> (r: ProjectOpenOutcome)
        ensures
            final(self).state.project_picker.query == old(self).state.project_picker.query,
            final(self).state.project_picker.selected == old(self).state.project_picker.selected,
            final(self).state.project_picker.scroll == old(self).state.project_picker.scroll,
            final(self).state.project_picker.entries == old(self).state.project_picker.entries,
            final(self).state.project_command == old(self).state.project_command,
            match json::json_parse_failure(response@) {
                Some(m) => {
                    &&& r is Failed
                    &&& final(self).state.mode == old(self).state.mode
                    &&& text::opt_view(final(self).state.project_picker.error) == Some(
                        "failed to open project: "@ + m,
                    )
                },
                None => match json::json_str_at(response@, "/error/message"@) {
                    Some(m) => {
                        &&& r is Failed
                        &&& final(self).state.mode == old(self).state.mode
                        &&& text::opt_view(final(self).state.project_picker.error) == Some(m)
                    },
                    None => match json::json_str_at(response@, "/result/root_pane/pane_id"@) {
                        None => {
                            &&& r is Failed
                            &&& final(self).state.mode == old(self).state.mode
                            &&& text::opt_view(final(self).state.project_picker.error) == Some(
                                "project opened without a root pane"@,
                            )
                        },
                        Some(p) => {
                            let cmd = text::trim(old(self).state.project_command@);
                            &&& r matches ProjectOpenOutcome::Opened { pane_id, command }
                                && pane_id@ == p && text::opt_view(command) == if cmd.len() > 0 {
                                Some(cmd)
                            } else {
                                None::<Seq<char>>
                            }
                            &&& final(self).state.mode == Mode::Terminal
                            &&& final(self).state.project_picker.error is None
                        },
                    },
                },
            },
    {
        let mut pointers: Vec<String> = Vec::new();
        pointers.push(String::from_str("/error/message"));
        pointers.push(String::from_str("/result/root_pane/pane_id"));
        let found = match json::strings_at(response, &pointers) {
            Err(error) => {
                let mut message = String::from_str("failed to open project: ");
                message.append(error.as_str());
                self.state.project_picker.error = Some(message);
                return ProjectOpenOutcome::Failed;
            },
            Ok(found) => found,
        };
        assert(text::opt_view(found@[0]) == json::json_str_at(response@, "/error/message"@));
        assert(text::opt_view(found@[1]) == json::json_str_at(
            response@,
            "/result/root_pane/pane_id"@,
        ));
        match &found[0] {
            Some(message) => {
                self.state.project_picker.error = Some(message.clone());
                return ProjectOpenOutcome::Failed;
            },
            None => {},
        }
        let pane_id = match &found[1] {
            Some(pane_id) => pane_id.clone(),
            None => {
                self.state.project_picker.error = Some(
                    String::from_str("project opened without a root pane"),
                );
                return ProjectOpenOutcome::Failed;
            },
        };
        let command = text::trim_chars(&text::chars_of(self.state.project_command.as_str()));
        let command = if command.len() > 0 {
            Some(text::string_from_chars(command.as_slice()))
        } else {
            None
        };
        self.close_project_picker();
        ProjectOpenOutcome::Opened { pane_id, command }
    }

    /// Handles a key while the picker is open: escape closes it, enter
    /// accepts the selection, backspace, control-u and typed characters edit
    /// the query, the arrows and control-n and control-p move the selection.
    #[verifier::rlimit(30)]
    pub fn handle_project_picker_key(&mut self, key: PickerKey, viewport: usize) -> (r:
        AcceptAction)
        requires
            key_ok(*old(self), key, viewport),
        ensures
            key_handled(*old(self), key, viewport, r, *final(self)),
    {
        match key.code {
            PickerKeyCode::Esc => {
                self.close_project_picker();
                AcceptAction::Nothing
            },
            PickerKeyCode::Enter => self.accept_project_picker_selection(),
            PickerKeyCode::Backspace => {
                self.state.project_picker.query = string_pop(&self.state.project_picker.query);
                self.clamp_project_picker_selection(viewport);
                AcceptAction::Nothing
            },
            PickerKeyCode::Up => {
                self.move_project_picker_selection(-1, viewport);
                AcceptAction::Nothing
            },
            PickerKeyCode::Down => {
                self.move_project_picker_selection(1, viewport);
                AcceptAction::Nothing
            },
            PickerKeyCode::Char(c) => {
                if c == 'n' && key.modifiers == CONTROL {
                    self.move_project_picker_selection(1, viewport);
                } else if c == 'p' && key.modifiers == CONTROL {
                    self.move_project_picker_selection(-1, viewport);
                } else if c == 'u' && key.modifiers == CONTROL {
                    self.state.project_picker.query = String::new();
                    self.clamp_project_picker_selection(viewport);
                } else if key.modifiers == 0 || key.modifiers == SHIFT {
                    self.state.project_picker.query = string_push(
                        &self.state.project_picker.query,
                        c,
                    );
                    self.clamp_project_picker_selection(viewport);
                }
                AcceptAction::Nothing
            },
            PickerKeyCode::Other => AcceptAction::Nothing,
        }
    }

    /// Handles a key where the picker's numbers leave room for it (see
    /// `picker_in_range`); otherwise changes nothing and gives none.
    pub fn handle_project_picker_key_checked(&mut self, key: PickerKey, viewport: usize) -> (r:
        Option<AcceptAction>)
        ensures
            picker_in_range(*old(self), viewport) ==> (r matches Some(a) && key_handled(
                *old(self),
                key,
                viewport,
                a,
                *final(self),
            )),
            !picker_in_range(*old(self), viewport) ==> r is None && *final(self) == *old(self),
    {
        let picker = &self.state.project_picker;
        let current = picker.selected;
        let in_range = picker.entries.len() <= isize::MAX as usize && current != isize::MAX as usize
            && current != isize::MAX as usize + 1 && viewport <= usize::MAX - picker.scroll;
        if !in_range {
            return None;
        }
        Some(self.handle_project_picker_key(key, viewport))
    }
}

/// A repository directory found on disk, with its canonical path.
#[derive(Debug)]
pub struct ProjectCandidate {
    pub path: String,
    pub canonical: String,
}

/// An open workspace: its directory, that directory's canonical path, and
/// the name it is shown under.
#[derive(Debug)]
pub struct WorkspaceIdentity {
    pub identity_cwd: String,
    pub canonical_cwd: String,
    pub display_name: String,
}

pub type CandidateView = (Seq<char>, Seq<char>);

/// Sort key, path, canonical path.
pub type KeyedView = (Seq<char>, Seq<char>, Seq<char>);

/// Directory, canonical directory, display name.
pub type WorkspaceView = (Seq<char>, Seq<char>, Seq<char>);

/// A candidate with its sort key: its project name in lower case.
pub struct KeyedCandidate {
    pub key: Vec<char>,
    pub path: String,
    pub canonical: String,
}

impl View for KeyedCandidate {
    type V = KeyedView;

    open spec fn view(&self) -> KeyedView {
        (self.key@, self.path@, self.canonical@)
    }
}

impl SortOrder for KeyedCandidate {
    open spec fn view_le(a: KeyedView, b: KeyedView) -> bool {
        text::lex_le(a.0, b.0)
    }

    fn le(&self, other: &Self) -> (r: bool) {
        text::chars_lex_le(&self.key, &other.key)
    }

    proof fn lemma_total(a: KeyedView, b: KeyedView) {
        text::lemma_lex_le_total(a.0, b.0);
    }

    proof fn lemma_transitive(a: KeyedView, b: KeyedView, c: KeyedView) {
        text::lemma_lex_le_transitive(a.0, b.0, c.0);
    }
}

/// An entry with its rank: open workspaces first, then by lower-case name.
pub struct RankedEntry {
    pub unopened: bool,
    pub key: Vec<char>,
    pub entry: ProjectPickerEntry,
}

pub type RankedView = (bool, Seq<char>, EntryView);

impl View for RankedEntry {
    type V = RankedView;

    open spec fn view(&self) -> RankedView {
        (self.unopened, self.key@, self.entry@)
    }
}

impl SortOrder for RankedEntry {
    open spec fn view_le(a: RankedView, b: RankedView) -> bool {
        (!a.0 && b.0) || (a.0 == b.0 && text::lex_le(a.1, b.1))
    }

    fn le(&self, other: &Self) -> (r: bool) {
        if self.unopened != other.unopened {
            return !self.unopened;
        }
        text::chars_lex_le(&self.key, &other.key)
    }

    proof fn lemma_total(a: RankedView, b: RankedView) {
        text::lemma_lex_le_total(a.1, b.1);
    }

    proof fn lemma_transitive(a: RankedView, b: RankedView, c: RankedView) {
        if a.0 == b.0 && b.0 == c.0 {
            text::lemma_lex_le_transitive(a.1, b.1, c.1);
        }
    }
}

/// The repositories found on disk, then the directories of the open
/// workspaces.
pub open spec fn candidate_views(repos: Seq<ProjectCandidate>, ws: Seq<WorkspaceIdentity>) -> Seq<
    CandidateView,
> {
    repos.map_values(|c: ProjectCandidate| (c.path@, c.canonical@)) + ws.map_values(
        |w: WorkspaceIdentity| (w.identity_cwd@, w.canonical_cwd@),
    )
}

pub open spec fn workspace_views(ws: Seq<WorkspaceIdentity>) -> Seq<WorkspaceView> {
    ws.map_values(|w: WorkspaceIdentity| (w.identity_cwd@, w.canonical_cwd@, w.display_name@))
}

pub open spec fn keyed(c: CandidateView) -> KeyedView {
    (text::lowercase(paths::project_name_spec(c.0)), c.0, c.1)
}

/// Drops each candidate whose canonical path names the same path, component
/// by component, as that of the one before it.
pub open spec fn dedup_canonical(s: Seq<KeyedView>) -> Seq<KeyedView>
    decreases s.len(),
{
    if s.len() <= 1 {
        s
    } else {
        let d = dedup_canonical(s.drop_last());
        if paths::same_path(s.last().2, s[s.len() - 2].2) {
            d
        } else {
            d.push(s.last())
        }
    }
}

/// The first open workspace whose canonical directory is the path
/// `canonical`, compared component by component.
pub open spec fn workspace_of(wsv: Seq<WorkspaceView>, canonical: Seq<char>) -> Option<usize>
    decreases wsv.len(),
{
    if wsv.len() == 0 {
        None
    } else {
        match workspace_of(wsv.drop_last(), canonical) {
            Some(i) => Some(i),
            None => if paths::same_path(wsv.last().1, canonical) {
                Some((wsv.len() - 1) as usize)
            } else {
                None
            },
        }
    }
}

/// The entry for a candidate: named and indexed after its open workspace,
/// if any, otherwise after its directory; its path is the canonical one.
pub open spec fn entry_for(c: KeyedView, wsv: Seq<WorkspaceView>) -> EntryView {
    match workspace_of(wsv, c.2) {
        Some(i) => (wsv[i as int].2, None, c.2, Some(i), None),
        None => (paths::project_name_spec(c.1), None, c.2, None, None),
    }
}

pub open spec fn ranked(e: EntryView) -> RankedView {
    (e.3 is None, text::lowercase(e.0), e)
}

/// The picker's entries: candidates sorted stably by lower-case project
/// name, those naming the canonical path of the one before dropped, made into
/// entries, then sorted stably with open workspaces first and by lower-case
/// name.
pub open spec fn discovered_entries(repos: Seq<ProjectCandidate>, ws: Seq<WorkspaceIdentity>) -> Seq<
    EntryView,
> {
    let wsv = workspace_views(ws);
    let sorted = sorting::stable_sorted::<KeyedCandidate>(
        candidate_views(repos, ws).map_values(|c: CandidateView| keyed(c)),
    );
    let entries = dedup_canonical(sorted).map_values(|c: KeyedView| entry_for(c, wsv));
    sorting::stable_sorted::<RankedEntry>(entries.map_values(|e: EntryView| ranked(e))).map_values(
        |r: RankedView| r.2,
    )
}

/// The picker lists open workspaces before repositories, and within each
/// group orders entries by lower-case name.
#[verifier::rlimit(30)]
pub proof fn lemma_open_workspaces_first(repos: Seq<ProjectCandidate>, ws: Seq<WorkspaceIdentity>)
    ensures
        ({
            let d = discovered_entries(repos, ws);
            forall|i: int, j: int|
                0 <= i < j < d.len() ==> ((#[trigger] d[i]).3 is None ==> (#[trigger] d[j]).3 is None)
                    && ((d[i].3 is None) == (d[j].3 is None) ==> text::lex_le(
                    text::lowercase(d[i].0),
                    text::lowercase(d[j].0),
                ))
        }),
{
    broadcast use vstd::seq_lib::group_to_multiset_ensures;

    let wsv = workspace_views(ws);
    let sorted_candidates = sorting::stable_sorted::<KeyedCandidate>(
        candidate_views(repos, ws).map_values(|c: CandidateView| keyed(c)),
    );
    let entries = dedup_canonical(sorted_candidates).map_values(|c: KeyedView| entry_for(c, wsv));
    let rs = entries.map_values(|e: EntryView| ranked(e));
    let sorted = sorting::stable_sorted::<RankedEntry>(rs);
    sorting::lemma_stable_sorted_sorted_permutation::<RankedEntry>(rs);
    let d = sorted.map_values(|r: RankedView| r.2);
    assert(d == discovered_entries(repos, ws));
    assert forall|i: int| 0 <= i < sorted.len() implies (#[trigger] sorted[i]) == ranked(
        sorted[i].2,
    ) by {
        assert(sorted.contains(sorted[i]));
        assert(sorted.to_multiset().count(sorted[i]) > 0);
        assert(rs.contains(sorted[i]));
        let k = choose|k: int| 0 <= k < rs.len() && rs[k] == sorted[i];
        assert(rs[k] == ranked(entries[k]));
    }
    assert forall|i: int, j: int| 0 <= i < j < d.len() implies ((#[trigger] d[i]).3 is None ==> (
    #[trigger] d[j]).3 is None) && ((d[i].3 is None) == (d[j].3 is None) ==> text::lex_le(
        text::lowercase(d[i].0),
        text::lowercase(d[j].0),
    )) by {
        assert(RankedEntry::view_le(sorted[i], sorted[j]));
        assert(sorted[i] == ranked(sorted[i].2));
        assert(sorted[j] == ranked(sorted[j].2));
    }
}

fn keyed_candidate(path: &String, canonical: &String) -> (r: KeyedCandidate)
    ensures
        r@ == keyed((path@, canonical@)),
{
    let name = paths::project_name(path.as_str());
    let key = text::chars_of(text::to_lowercase(name.as_str()).as_str());
    KeyedCandidate { key, path: path.clone(), canonical: canonical.clone() }
}

fn copy_keyed(c: &KeyedCandidate) -> (r: KeyedCandidate)
    ensures
        r@ == c@,
{
    let key = text::slice_chars(&c.key, 0, c.key.len());
    assert(key@ =~= c.key@);
    KeyedCandidate { key, path: c.path.clone(), canonical: c.canonical.clone() }
}

fn workspace_position(ws: &Vec<WorkspaceIdentity>, canonical: &String) -> (r: Option<usize>)
    ensures
        r == workspace_of(workspace_views(ws@), canonical@),
{
    let ghost wsv = workspace_views(ws@);
    let mut k: usize = 0;
    assert(wsv.take(0) =~= Seq::<WorkspaceView>::empty());
    while k < ws.len()
        invariant
            k <= ws.len(),
            wsv == workspace_views(ws@),
            workspace_of(wsv.take(k as int), canonical@) is None,
        decreases ws.len() - k,
    {
        assert(wsv.take(k + 1).drop_last() =~= wsv.take(k as int));
        assert(wsv.take(k + 1).last() == wsv[k as int]);
        if paths::same_path_str(ws[k].canonical_cwd.as_str(), canonical.as_str()) {
            assert(workspace_of(wsv.take(k + 1), canonical@) == Some(k));
            proof {
                lemma_workspace_of_prefix(wsv, canonical@, k + 1);
            }
            return Some(k);
        }
        k = k + 1;
    }
    assert(wsv.take(ws.len() as int) =~= wsv);
    None
}

proof fn lemma_workspace_of_prefix(wsv: Seq<WorkspaceView>, canonical: Seq<char>, n: int)
    requires
        0 <= n <= wsv.len(),
        workspace_of(wsv.take(n), canonical) is Some,
    ensures
        workspace_of(wsv, canonical) == workspace_of(wsv.take(n), canonical),
    decreases wsv.len() - n,
{
    if n < wsv.len() {
        assert(wsv.take(n + 1).drop_last() =~= wsv.take(n));
        lemma_workspace_of_prefix(wsv, canonical, n + 1);
    } else {
        assert(wsv.take(n) =~= wsv);
    }
}

proof fn lemma_workspace_of_bound(wsv: Seq<WorkspaceView>, canonical: Seq<char>)
    requires
        wsv.len() <= usize::MAX,
    ensures
        workspace_of(wsv, canonical) matches Some(i) ==> i < wsv.len(),
    decreases wsv.len(),
{
    if wsv.len() > 0 {
        lemma_workspace_of_bound(wsv.drop_last(), canonical);
    }
}

/// Builds the picker's entries from the repositories found on disk and the
/// open workspaces (see `discovered_entries`).
#[verifier::rlimit(30)]
pub fn discover_project_entries(repos: Vec<ProjectCandidate>, ws: &Vec<WorkspaceIdentity>) -> (r:
    Vec<ProjectPickerEntry>)
    ensures
        entries_view(r@) == discovered_entries(repos@, ws@),
{
    let ghost cands = candidate_views(repos@, ws@);
    let ghost wsv = workspace_views(ws@);
    let mut keyed_list: Vec<KeyedCandidate> = Vec::new();
    let mut k: usize = 0;
    while k < repos.len()
        invariant
            k <= repos.len(),
            cands == candidate_views(repos@, ws@),
            sorting::seq_views(keyed_list@) =~= cands.take(k as int).map_values(
                |c: CandidateView| keyed(c),
            ),
        decreases repos.len() - k,
    {
        let ghost before = keyed_list@;
        let kc = keyed_candidate(&repos[k].path, &repos[k].canonical);
        keyed_list.push(kc);
        assert(cands[k as int] == (repos@[k as int].path@, repos@[k as int].canonical@));
        assert(sorting::seq_views(keyed_list@) =~= sorting::seq_views(before).push(kc@));
        assert(cands.take(k + 1) =~= cands.take(k as int).push(cands[k as int]));
        k = k + 1;
    }
    let mut j: usize = 0;
    while j < ws.len()
        invariant
            j <= ws.len(),
            cands == candidate_views(repos@, ws@),
            cands.len() == repos.len() + ws.len(),
            sorting::seq_views(keyed_list@) =~= cands.take(repos.len() + j).map_values(
                |c: CandidateView| keyed(c),
            ),
        decreases ws.len() - j,
    {
        let ghost before = keyed_list@;
        let kc = keyed_candidate(&ws[j].identity_cwd, &ws[j].canonical_cwd);
        keyed_list.push(kc);
        assert(cands[repos.len() + j] == (ws@[j as int].identity_cwd@, ws@[j as int].canonical_cwd@));
        assert(sorting::seq_views(keyed_list@) =~= sorting::seq_views(before).push(kc@));
        assert(cands.take(repos.len() + j + 1) =~= cands.take(repos.len() + j).push(
            cands[repos.len() + j],
        ));
        j = j + 1;
    }
    assert(cands.take(repos.len() + ws.len()) =~= cands);
    let sorted = sorting::stable_sort(keyed_list);
    let ghost sv = sorting::seq_views(sorted@);
    // Drop candidates whose canonical path repeats the one before.
    let mut deduped: Vec<KeyedCandidate> = Vec::new();
    let mut i: usize = 0;
    assert(sv.take(0) =~= Seq::<KeyedView>::empty());
    while i < sorted.len()
        invariant
            i <= sorted.len(),
            sv == sorting::seq_views(sorted@),
            sorting::seq_views(deduped@) == dedup_canonical(sv.take(i as int)),
        decreases sorted.len() - i,
    {
        assert(sv.take(i + 1).drop_last() =~= sv.take(i as int));
        assert(sv.take(i + 1).last() == sorted@[i as int]@);
        assert(i > 0 ==> sv.take(i + 1)[i - 1] == sorted@[i - 1]@);
        let keep = i == 0 || !paths::same_path_str(
            sorted[i].canonical.as_str(),
            sorted[i - 1].canonical.as_str(),
        );
        if keep {
            let ghost before = deduped@;
            let c = copy_keyed(&sorted[i]);
            deduped.push(c);
            assert(sorting::seq_views(deduped@) =~= sorting::seq_views(before).push(c@));
            assert(i == 0 ==> sv.take(1) =~= seq![sv[0]]);
            assert(i == 0 ==> dedup_canonical(sv.take(0)) =~= Seq::<KeyedView>::empty());
        }
        i = i + 1;
    }
    assert(sv.take(sorted.len() as int) =~= sv);
    let ghost dv = sorting::seq_views(deduped@);
    // Make entries and rank them.
    let mut ranked_list: Vec<RankedEntry> = Vec::new();
    let mut m: usize = 0;
    proof {
        assert(wsv.len() == ws.len());
        lemma_workspace_of_bound(wsv, Seq::<char>::empty());
    }
    while m < deduped.len()
        invariant
            m <= deduped.len(),
            dv == sorting::seq_views(deduped@),
            wsv == workspace_views(ws@),
            wsv.len() == ws.len(),
            sorting::seq_views(ranked_list@) =~= dv.take(m as int).map_values(
                |c: KeyedView| entry_for(c, wsv),
            ).map_values(|e: EntryView| ranked(e)),
        decreases deduped.len() - m,
    {
        let c = &deduped[m];
        let pos = workspace_position(ws, &c.canonical);
        proof {
            lemma_workspace_of_bound(wsv, c.canonical@);
        }
        let name = match pos {
            Some(w) => ws[w].display_name.clone(),
            None => paths::project_name(c.path.as_str()),
        };
        let key = text::chars_of(text::to_lowercase(name.as_str()).as_str());
        let entry = ProjectPickerEntry {
            name,
            tab_name: None,
            path: c.canonical.clone(),
            workspace_idx: pos,
            tab_idx: None,
        };
        let ghost before = ranked_list@;
        let re = RankedEntry { unopened: pos.is_none(), key, entry };
        ranked_list.push(re);
        assert(dv[m as int] == c@);
        assert(re@ == ranked(entry_for(dv[m as int], wsv)));
        assert(sorting::seq_views(ranked_list@) =~= sorting::seq_views(before).push(re@));
        assert(dv.take(m + 1) =~= dv.take(m as int).push(dv[m as int]));
        m = m + 1;
    }
    assert(dv.take(deduped.len() as int) =~= dv);
    let ranked_sorted = sorting::stable_sort(ranked_list);
    let ghost rv = sorting::seq_views(ranked_sorted@);
    let mut rest = ranked_sorted;
    let mut out: Vec<ProjectPickerEntry> = Vec::new();
    let ghost mut done: int = 0;
    assert(rv.skip(0) =~= rv);
    while rest.len() > 0
        invariant
            0 <= done <= rv.len(),
            sorting::seq_views(rest@) == rv.skip(done),
            entries_view(out@) =~= rv.take(done).map_values(|r: RankedView| r.2),
        decreases rest.len(),
    {
        let ghost old_rest = rest@;
        assert(sorting::seq_views(old_rest).len() == old_rest.len());
        assert(sorting::seq_views(old_rest)[0] == old_rest[0]@);
        let ranked_entry = rest.remove(0);
        assert(rest@ =~= old_rest.subrange(1, old_rest.len() as int));
        assert forall|q: int| 0 <= q < rest.len() implies #[trigger] sorting::seq_views(rest@)[q]
            == rv.skip(done + 1)[q] by {
            assert(sorting::seq_views(rest@)[q] == rest@[q]@);
            assert(rest@[q] == old_rest[q + 1]);
            assert(sorting::seq_views(old_rest)[q + 1] == old_rest[q + 1]@);
        }
        assert(sorting::seq_views(rest@) =~= rv.skip(done + 1));
        let ghost before = out@;
        out.push(ranked_entry.entry);
        assert(entries_view(out@) =~= entries_view(before).push(rv[done].2));
        assert(rv.take(done + 1) =~= rv.take(done).push(rv[done]));
        proof {
            done = done + 1;
        }
    }
    assert(rv.take(done) =~= rv);
    out
}

/// A directory is a bare repository where it holds a `HEAD` file and an
/// `objects` directory.
pub fn is_bare_repository(head_is_file: bool, objects_is_dir: bool) -> (r: bool)
    ensures
        r == (head_is_file && objects_is_dir),
{
    head_is_file && objects_is_dir
}

/// The search line shows the query, or a hint while it is empty.
pub fn picker_search_text(query: &str) -> (r: String)
    ensures
        query@.len() == 0 ==> r@ == "type to search projects"@,
        query@.len() > 0 ==> r@ == query@,
{
    if query.unicode_len() == 0 {
        String::from_str("type to search projects")
    } else {
        String::from_str(query)
    }
}

/// An entry's status column: `open` for an open workspace, `repo` otherwise.
pub fn entry_status_text(entry: &ProjectPickerEntry) -> (r: &'static str)
    ensures
        entry.workspace_idx is Some ==> r@ == "open"@,
        entry.workspace_idx is None ==> r@ == "repo"@,
{
    if entry.workspace_idx.is_some() {
        "open"
    } else {
        "repo"
    }
}

/// The footer shows the picker's error, or the key hints.
pub fn picker_footer_text(error: &Option<String>) -> (r: String)
    ensures
        match error {
            Some(e) => r@ == e@,
            None => r@ == "enter open  esc close"@,
        },
{
    match error {
        Some(e) => e.clone(),
        None => String::from_str("enter open  esc close"),
    }
}

/// The rows shown: from the scroll offset (at most the entry count), as many
/// as the body has lines.
pub fn picker_visible_rows(scroll: usize, entry_count: usize, body_height: u16) -> (r: (usize, usize))
    ensures
        r.0 == if scroll < entry_count {
            scroll
        } else {
            entry_count
        },
        r.1 == r.0 + if body_height < entry_count - r.0 {
            body_height as int
        } else {
            entry_count - r.0
        },
{
    let start = if scroll < entry_count {
        scroll
    } else {
        entry_count
    };
    let room = entry_count - start;
    let shown = if (body_height as usize) < room {
        body_height as usize
    } else {
        room
    };
    (start, start + shown)
}

/// The columns a row leaves for the names: the row less eight for the status
/// and four of padding.
pub fn picker_label_width(row_width: u16) -> (r: usize)
    ensures
        r == if row_width > 12 {
            row_width - 12
        } else {
            0
        },
{
    row_width.saturating_sub(12) as usize
}

/// The columns left for the tab name after the workspace name and a space,
/// where any are.
pub fn picker_tab_name_room(label_width: usize, workspace_width: usize) -> (r: Option<usize>)
    ensures
        ({
            let used: int = if workspace_width < usize::MAX {
                workspace_width + 1
            } else {
                workspace_width as int
            };
            if label_width > used {
                r == Some((label_width - used) as usize)
            } else {
                r is None
            }
        }),
{
    let remaining = label_width.saturating_sub(workspace_width.saturating_add(1));
    if remaining > 0 {
        Some(remaining)
    } else {
        None
    }
}

/// The width the status is right-aligned in: the row less two columns and
/// the names drawn (their width taken modulo 65536, as a `u16`).
pub open spec fn status_column_width_spec(row_width: u16, rendered_label_width: usize) -> int {
    let avail = if row_width > 2 {
        row_width - 2
    } else {
        0
    };
    let drawn = rendered_label_width as int % 65536;
    if avail > drawn {
        avail - drawn
    } else {
        0
    }
}

fn low_u16(n: usize) -> (r: u16)
    ensures
        r == n as int % 65536,
{
    let r = (n % 65536) as u16;
    r
}

pub fn picker_status_width(row_width: u16, rendered_label_width: usize) -> (r: usize)
    ensures
        r == status_column_width_spec(row_width, rendered_label_width),
{
    row_width.saturating_sub(2).saturating_sub(low_u16(rendered_label_width)) as usize
}

/// `text` right-aligned in `width` columns: spaces before it up to the width.
pub open spec fn right_aligned_spec(t: Seq<char>, width: usize) -> Seq<char> {
    crate::tabs::spaces(width - t.len()) + t
}

pub fn right_aligned(t: &str, width: usize) -> (r: String)
    ensures
        r@ == right_aligned_spec(t@, width),
{
    let chars = text::chars_of(t);
    let mut out: Vec<char> = Vec::new();
    let mut k: usize = chars.len();
    while k < width
        invariant
            chars.len() <= k,
            k <= width || k == chars.len(),
            out@ == crate::tabs::spaces(k - chars.len()),
        decreases width - k,
    {
        out.push(' ');
        k = k + 1;
        assert(out@ =~= crate::tabs::spaces(k - chars.len()));
    }
    assert(out@ =~= crate::tabs::spaces(width - chars@.len()));
    text::push_all(&mut out, &chars);
    text::string_from_chars(out.as_slice())
}

} // verus!
