use vstd::prelude::*;

use crate::entries::Entry;
use crate::keys::{KeyCode, KeyEvent, KeyModifiers};
use crate::paths::{file_name, join, parent, path_equal, path_file_name, path_join, path_parent, same_path};
use crate::scroll::{adjust_scroll, scrolled_offset, MAX_VISIBLE};
use crate::text::{pop_char, push_char};
use vstd::string::StrSliceExecFns;

verus! {

/// Where the navigator stands: the directory shown, the cursor, the filter
/// text and the display settings.
pub struct NavState {
    pub cwd: String,
    pub selected: usize,
    pub query: String,
    pub show_hidden: bool,
    pub show_files: bool,
    pub scroll_offset: usize,
}

/// How a session ended.
pub enum NavigationResult {
    Selected(String),
    Cancelled,
}

/// What to do with a path once it has been made canonical.
#[derive(Clone, Copy, PartialEq, Eq, Debug)]
pub enum Request {
    /// Accept it as the chosen directory.
    Accept,
    /// Browse into it.
    Enter,
    /// Copy it to the clipboard.
    Copy,
}

/// What the caller does after a key press.
pub enum Action {
    /// Nothing: redraw and wait for the next key.
    Continue,
    /// End the session with this directory chosen.
    Accept(String),
    /// End the session without a choice.
    Cancel,
    /// Copy this path to the clipboard.
    CopyPath(String),
    /// Make this path canonical on the file system, then hand the outcome to
    /// `NavState::resolved` with the request.
    Resolve(Request, String),
    /// Read the entries of the (new) current directory, then hand them to
    /// `NavState::relisted` with this name.
    Relist(String),
}

/// The navigator state as plain values.
pub struct NavView {
    pub cwd: Seq<char>,
    pub selected: usize,
    pub query: Seq<char>,
    pub show_hidden: bool,
    pub show_files: bool,
    pub scroll_offset: usize,
}

/// An action as plain values.
pub enum ActionView {
    Continue,
    Accept(Seq<char>),
    Cancel,
    CopyPath(Seq<char>),
    Resolve(Request, Seq<char>),
    Relist(Seq<char>),
}

impl View for NavState {
    type V = NavView;

    open spec fn view(&self) -> NavView {
        NavView {
            cwd: self.cwd@,
            selected: self.selected,
            query: self.query@,
            show_hidden: self.show_hidden,
            show_files: self.show_files,
            scroll_offset: self.scroll_offset,
        }
    }
}

impl View for Action {
    type V = ActionView;

    open spec fn view(&self) -> ActionView {
        match self {
            Action::Continue => ActionView::Continue,
            Action::Accept(p) => ActionView::Accept(p@),
            Action::Cancel => ActionView::Cancel,
            Action::CopyPath(p) => ActionView::CopyPath(p@),
            Action::Resolve(r, p) => ActionView::Resolve(*r, p@),
            Action::Relist(n) => ActionView::Relist(n@),
        }
    }
}

/// A key is `c` with Control held.
pub open spec fn is_ctrl_char(key: KeyEvent, c: char) -> bool {
    key.code == KeyCode::Char(c) && key.modifiers.control
}

/// Esc or Ctrl+C.
pub open spec fn is_cancel_key(key: KeyEvent) -> bool {
    key.code == KeyCode::Esc || is_ctrl_char(key, 'c')
}

/// Up arrow or Ctrl+K.
pub open spec fn is_up_key(key: KeyEvent) -> bool {
    key.code == KeyCode::Up || is_ctrl_char(key, 'k')
}

/// Down arrow or Ctrl+J.
pub open spec fn is_down_key(key: KeyEvent) -> bool {
    key.code == KeyCode::Down || is_ctrl_char(key, 'j')
}

/// The cursor one step up, wrapping from the top to the bottom.
pub open spec fn moved_up(selected: usize, total: nat) -> usize {
    if total == 0 {
        selected
    } else if selected == 0 {
        (total - 1) as usize
    } else {
        (selected - 1) as usize
    }
}

/// The cursor one step down, wrapping from the bottom to the top.
pub open spec fn moved_down(selected: usize, total: nat) -> usize {
    if total == 0 {
        selected
    } else {
        ((selected + 1) % (total as int)) as usize
    }
}

/// The cursor is on one of the listed entries.
pub open spec fn on_entry(s: NavView, listed: Seq<Entry>) -> bool {
    listed.len() > 0 && s.selected < listed.len()
}

/// The cursor is on one of the listed entries, and that entry is a directory.
pub open spec fn on_directory(s: NavView, listed: Seq<Entry>) -> bool {
    on_entry(s, listed) && listed[s.selected as int].is_dir
}

/// The path of the entry under the cursor.
pub open spec fn target_of(s: NavView, listed: Seq<Entry>) -> Seq<char> {
    path_join(s.cwd, listed[s.selected as int].name@)
}

/// The state with the filter cleared and the cursor and scroll at the top.
pub open spec fn reset_view(s: NavView) -> NavView {
    NavView { query: Seq::empty(), selected: 0, scroll_offset: 0, ..s }
}

/// Left arrow: go up to the parent directory when there is one that differs
/// from the current one; the filter and scroll are reset, and the directory
/// just left is to be selected once the parent's entries are read.
pub open spec fn left_step(s: NavView) -> (NavView, ActionView) {
    match path_parent(s.cwd) {
        Some(p) => if !path_equal(p, s.cwd) {
            let moved = NavView { cwd: p, query: Seq::empty(), scroll_offset: 0, ..s };
            match path_file_name(s.cwd) {
                Some(n) => (moved, ActionView::Relist(n)),
                None => (NavView { selected: 0, ..moved }, ActionView::Continue),
            }
        } else {
            (s, ActionView::Continue)
        },
        None => (s, ActionView::Continue),
    }
}

/// What a key press does to the state, given the entries on screen, and what
/// the caller is to do next.
pub open spec fn key_step_view(s: NavView, key: KeyEvent, listed: Seq<Entry>) -> (NavView, ActionView) {
    let total = listed.len();
    if is_cancel_key(key) {
        (s, ActionView::Cancel)
    } else if is_up_key(key) {
        (NavView { selected: moved_up(s.selected, total), ..s }, ActionView::Continue)
    } else if is_down_key(key) {
        (NavView { selected: moved_down(s.selected, total), ..s }, ActionView::Continue)
    } else if key.code == KeyCode::Enter {
        if on_directory(s, listed) {
            (s, ActionView::Resolve(Request::Accept, target_of(s, listed)))
        } else {
            (s, ActionView::Continue)
        }
    } else if key.code == KeyCode::Right {
        if on_directory(s, listed) {
            (s, ActionView::Resolve(Request::Enter, target_of(s, listed)))
        } else {
            (s, ActionView::Continue)
        }
    } else if key.code == KeyCode::Left {
        left_step(s)
    } else if key.code == KeyCode::Tab {
        (s, ActionView::Accept(s.cwd))
    } else if key.code == KeyCode::Char('Y') {
        if on_entry(s, listed) {
            (s, ActionView::Resolve(Request::Copy, target_of(s, listed)))
        } else {
            (s, ActionView::Continue)
        }
    } else if is_ctrl_char(key, 'h') {
        (NavView { show_hidden: !s.show_hidden, ..reset_view(s) }, ActionView::Continue)
    } else if is_ctrl_char(key, 'f') {
        (NavView { show_files: !s.show_files, ..reset_view(s) }, ActionView::Continue)
    } else if key.code == KeyCode::Backspace {
        let q = if s.query.len() > 0 { s.query.drop_last() } else { s.query };
        (NavView { query: q, selected: 0, scroll_offset: 0, ..s }, ActionView::Continue)
    } else if key.code is Char && !key.modifiers.control {
        (
            NavView { query: s.query.push(key.code->Char_0), selected: 0, scroll_offset: 0, ..s },
            ActionView::Continue,
        )
    } else {
        (s, ActionView::Continue)
    }
}

/// Handles one key press: updates the state and says what the caller is to
/// do next (see `key_step_view` for the whole table).
pub fn handle_key(key: KeyEvent, state: &mut NavState, filtered: &[Entry]) -> (action: Action)
    requires
        is_down_key(key) && filtered@.len() > 0 ==> old(state).selected < usize::MAX,
    ensures
        (final(state)@, action@) == key_step_view(old(state)@, key, filtered@),
{
    let total = filtered.len();
    let ctrl = key.modifiers.contains(KeyModifiers::control());
    let action = match key.code {
        KeyCode::Esc => Action::Cancel,
        KeyCode::Char('c') if ctrl => Action::Cancel,
        KeyCode::Up => {
            move_up(state, total);
            Action::Continue
        },
        KeyCode::Char('k') if ctrl => {
            move_up(state, total);
            Action::Continue
        },
        KeyCode::Down => {
            move_down(state, total);
            Action::Continue
        },
        KeyCode::Char('j') if ctrl => {
            move_down(state, total);
            Action::Continue
        },
        KeyCode::Enter => {
            if total > 0 && state.selected < total && filtered[state.selected].is_dir {
                Action::Resolve(
                    Request::Accept,
                    join(state.cwd.as_str(), filtered[state.selected].name.as_str()),
                )
            } else {
                Action::Continue
            }
        },
        KeyCode::Right => {
            if total > 0 && state.selected < total && filtered[state.selected].is_dir {
                Action::Resolve(
                    Request::Enter,
                    join(state.cwd.as_str(), filtered[state.selected].name.as_str()),
                )
            } else {
                Action::Continue
            }
        },
        KeyCode::Left => go_to_parent(state),
        KeyCode::Tab => Action::Accept(state.cwd.clone()),
        KeyCode::Char('Y') => {
            if total > 0 && state.selected < total {
                Action::Resolve(
                    Request::Copy,
                    join(state.cwd.as_str(), filtered[state.selected].name.as_str()),
                )
            } else {
                Action::Continue
            }
        },
        KeyCode::Char('h') if ctrl => {
            state.show_hidden = !state.show_hidden;
            state.query = String::new();
            state.selected = 0;
            state.scroll_offset = 0;
            Action::Continue
        },
        KeyCode::Char('f') if ctrl => {
            state.show_files = !state.show_files;
            state.query = String::new();
            state.selected = 0;
            state.scroll_offset = 0;
            Action::Continue
        },
        KeyCode::Backspace => {
            shorten_query(state);
            state.selected = 0;
            state.scroll_offset = 0;
            Action::Continue
        },
        KeyCode::Char(c) if !ctrl => {
            extend_query(state, c);
            state.selected = 0;
            state.scroll_offset = 0;
            Action::Continue
        },
        _ => Action::Continue,
    };
    proof {
        assert(has_resolved(state));
    }
    action
}

fn shorten_query(state: &mut NavState)
    ensures
        final(state)@ == (NavView {
            query: if old(state)@.query.len() > 0 { old(state)@.query.drop_last() } else { old(state)@.query },
            ..old(state)@
        }),
{
    let _ = pop_char(&mut state.query);
}

fn extend_query(state: &mut NavState, c: char)
    ensures
        final(state)@ == (NavView { query: old(state)@.query.push(c), ..old(state)@ }),
{
    push_char(&mut state.query, c);
}

/// Left arrow: see `left_step`.
fn go_to_parent(state: &mut NavState) -> (action: Action)
    ensures
        (final(state)@, action@) == left_step(old(state)@),
{
    let current_name = file_name(state.cwd.as_str());
    match parent(state.cwd.as_str()) {
        Some(p) => {
            if !same_path(p.as_str(), state.cwd.as_str()) {
                state.cwd = p;
                state.query = String::new();
                state.scroll_offset = 0;
                match current_name {
                    Some(name) => Action::Relist(name),
                    None => {
                        state.selected = 0;
                        Action::Continue
                    },
                }
            } else {
                Action::Continue
            }
        },
        None => Action::Continue,
    }
}

/// The state and action once a `Resolve` request has been carried out:
/// `canonical` is the canonical path, or `None` when it could not be made.
pub open spec fn resolve_step(s: NavView, request: Request, canonical: Option<Seq<char>>) -> (NavView, ActionView) {
    match canonical {
        None => (s, ActionView::Continue),
        Some(c) => match request {
            Request::Accept => (s, ActionView::Accept(c)),
            Request::Copy => (s, ActionView::CopyPath(c)),
            Request::Enter => (NavView { cwd: c, ..reset_view(s) }, ActionView::Continue),
        },
    }
}

/// The text of an optional string.
pub open spec fn opt_view(o: Option<String>) -> Option<Seq<char>> {
    match o {
        Some(s) => Some(s@),
        None => None,
    }
}

/// The first position in `entries` whose name is `name`, if any.
pub open spec fn first_named(entries: Seq<Entry>, name: Seq<char>, i: int) -> bool {
    &&& 0 <= i < entries.len()
    &&& entries[i].name@ == name
    &&& forall|j: int| 0 <= j < i ==> (#[trigger] entries[j]).name@ != name
}

/// The position of the first entry named `name`, or 0 when no entry has it.
pub open spec fn position_named(entries: Seq<Entry>, name: Seq<char>) -> int {
    if exists|i: int| first_named(entries, name, i) {
        choose|i: int| first_named(entries, name, i)
    } else {
        0
    }
}

/// The state once the entries of the current directory are known after a
/// `Relist`: the cursor moves to `position_named`; nothing else changes.
pub open spec fn relist_step(s: NavView, entries: Seq<Entry>, name: Seq<char>) -> NavView {
    NavView { selected: position_named(entries, name) as usize, ..s }
}

/// At most one position is the first with a given name.
pub proof fn lemma_first_named_unique(entries: Seq<Entry>, name: Seq<char>, i: int)
    requires
        first_named(entries, name, i),
    ensures
        position_named(entries, name) == i,
{
    let k = choose|k: int| first_named(entries, name, k);
    assert(first_named(entries, name, k));
    if k < i {
        assert(entries[k].name@ != name);
    } else if i < k {
        assert(entries[i].name@ != name);
    }
}

impl NavState {
    /// Finishes a `Resolve` action with the outcome of making its path
    /// canonical: accepting or copying the canonical path, or browsing into
    /// it with the filter, cursor and scroll reset. A failed resolution does
    /// nothing.
    pub fn resolved(&mut self, request: Request, canonical: Option<String>) -> (action: Action)
        ensures
            (final(self)@, action@) == resolve_step(old(self)@, request, opt_view(canonical)),
    {
        match canonical {
            None => Action::Continue,
            Some(c) => match request {
                Request::Accept => Action::Accept(c),
                Request::Copy => Action::CopyPath(c),
                Request::Enter => {
                    self.cwd = c;
                    self.selected = 0;
                    self.query = String::new();
                    self.scroll_offset = 0;
                    Action::Continue
                },
            },
        }
    }

    /// Finishes a `Relist` action: puts the cursor on the first entry named
    /// `name`, or on the first entry when there is none.
    pub fn relisted(&mut self, entries: &[Entry], name: &str)
        ensures
            final(self)@ == relist_step(old(self)@, entries@, name@),
    {
        let mut i: usize = 0;
        while i < entries.len()
            invariant
                i <= entries.len(),
                *self == *old(self),
                forall|j: int| 0 <= j < i ==> (#[trigger] entries@[j]).name@ != name@,
            decreases entries.len() - i,
        {
            if same_text(entries[i].name.as_str(), name) {
                proof {
                    assert(first_named(entries@, name@, i as int));
                    lemma_first_named_unique(entries@, name@, i as int);
                }
                self.selected = i;
                return;
            }
            i = i + 1;
        }
        self.selected = 0;
    }

    /// Keeps the cursor on the list of `total` entries (on the last entry when
    /// it was past the end, at 0 when the list is empty) and scrolls so that
    /// it is visible.
    pub fn settle(&mut self, total: usize)
        requires
            total > MAX_VISIBLE && clamped(old(self).selected, total as nat) >= old(self).scroll_offset
                ==> old(self).scroll_offset + MAX_VISIBLE <= usize::MAX,
        ensures
            final(self).cwd == old(self).cwd,
            final(self).query == old(self).query,
            final(self).show_hidden == old(self).show_hidden,
            final(self).show_files == old(self).show_files,
            final(self).selected == clamped(old(self).selected, total as nat),
            final(self).scroll_offset == scrolled_offset(
                total as int,
                final(self).selected as int,
                old(self).scroll_offset as int,
            ),
    {
        if total == 0 {
            self.selected = 0;
        } else if self.selected >= total {
            self.selected = total - 1;
        }
        assert(self.selected < total || total == 0);
        adjust_scroll(total, self.selected, &mut self.scroll_offset);
    }
}

/// The cursor kept on a list of `total` entries.
pub open spec fn clamped(selected: usize, total: nat) -> usize {
    if total == 0 {
        0
    } else if selected >= total {
        (total - 1) as usize
    } else {
        selected
    }
}

/// Up undoes Down and Down undoes Up, for a cursor on the list.
pub proof fn lemma_up_down_inverse(selected: usize, total: nat)
    requires
        selected < total <= usize::MAX,
    ensures
        moved_up(moved_down(selected, total), total) == selected,
        moved_down(moved_up(selected, total), total) == selected,
        moved_up(selected, total) < total,
        moved_down(selected, total) < total,
{
    if selected + 1 < total {
        vstd::arithmetic::div_mod::lemma_small_mod((selected + 1) as nat, total);
    } else {
        assert((selected + 1) % (total as int) == 0) by {
            vstd::arithmetic::div_mod::lemma_mod_self_0(total as int);
        }
    }
    if selected > 0 {
        vstd::arithmetic::div_mod::lemma_small_mod(selected as nat, total);
    } else {
        vstd::arithmetic::div_mod::lemma_small_mod((total - 1) as nat, total);
        assert(((total - 1) + 1) % (total as int) == 0) by {
            vstd::arithmetic::div_mod::lemma_mod_self_0(total as int);
        }
    }
}

/// The cursor after `k` presses of Down.
pub open spec fn moved_down_times(selected: usize, total: nat, k: nat) -> usize
    decreases k,
{
    if k == 0 {
        selected
    } else {
        moved_down(moved_down_times(selected, total, (k - 1) as nat), total)
    }
}

/// Down moves through the list cyclically: `k` presses move the cursor `k`
/// places on, modulo the list length, so `total` presses bring it back.
pub proof fn lemma_down_cycles(selected: usize, total: nat, k: nat)
    requires
        selected < total <= usize::MAX,
    ensures
        moved_down_times(selected, total, k) == (selected + k) % (total as int),
        moved_down_times(selected, total, total) == selected,
    decreases k,
{
    lemma_down_cycles_step(selected, total, k);
    lemma_down_cycles_step(selected, total, total);
    vstd::arithmetic::div_mod::lemma_mod_add_multiples_vanish(selected as int, total as int);
    vstd::arithmetic::div_mod::lemma_small_mod(selected as nat, total);
}

proof fn lemma_down_cycles_step(selected: usize, total: nat, k: nat)
    requires
        selected < total <= usize::MAX,
    ensures
        moved_down_times(selected, total, k) == (selected + k) % (total as int),
    decreases k,
{
    if k == 0 {
        vstd::arithmetic::div_mod::lemma_small_mod(selected as nat, total);
    } else {
        lemma_down_cycles_step(selected, total, (k - 1) as nat);
        let x = (selected + k - 1) as int;
        vstd::arithmetic::div_mod::lemma_mod_bound(x, total as int);
        vstd::arithmetic::div_mod::lemma_add_mod_noop(x, 1, total as int);
        if total == 1 {
            assert(1int % 1int == 0) by {
                vstd::arithmetic::div_mod::lemma_mod_self_0(1);
            }
            vstd::arithmetic::div_mod::lemma_add_mod_noop(x % (total as int), 1, total as int);
        } else {
            vstd::arithmetic::div_mod::lemma_small_mod(1, total);
        }
    }
}

/// The cursor keys move only the cursor, and keep it on the list.
pub proof fn lemma_moves_only_cursor(s: NavView, key: KeyEvent, listed: Seq<Entry>)
    requires
        is_up_key(key) || is_down_key(key),
        s.selected < listed.len() <= usize::MAX,
    ensures
        key_step_view(s, key, listed).0.selected < listed.len(),
        key_step_view(s, key, listed).0 == (NavView { selected: key_step_view(s, key, listed).0.selected, ..s }),
        key_step_view(s, key, listed).1 == ActionView::Continue,
{
    lemma_up_down_inverse(s.selected, listed.len());
}

/// Down and Ctrl+J move the cursor one entry down, from the last entry to the
/// first; Up and Ctrl+K move it one entry up, from the first entry to the last.
/// Nothing else changes and the navigator goes on. Each vim key does exactly
/// what its arrow does.
pub proof fn lemma_cursor_keys(s: NavView, key: KeyEvent, listed: Seq<Entry>)
    requires
        s.selected < listed.len() <= usize::MAX,
    ensures
        (key.code == KeyCode::Down || (key.code == KeyCode::Char('j') && key.modifiers.control)) ==> {
            let (t, a) = key_step_view(s, key, listed);
            &&& t.selected == (if s.selected + 1 == listed.len() { 0 } else { s.selected + 1 })
            &&& t.cwd == s.cwd && t.query == s.query && t.scroll_offset == s.scroll_offset
            &&& t.show_hidden == s.show_hidden && t.show_files == s.show_files
            &&& a == ActionView::Continue
        },
        (key.code == KeyCode::Up || (key.code == KeyCode::Char('k') && key.modifiers.control)) ==> {
            let (t, a) = key_step_view(s, key, listed);
            &&& t.selected == (if s.selected == 0 { listed.len() - 1 } else { s.selected - 1 })
            &&& t.cwd == s.cwd && t.query == s.query && t.scroll_offset == s.scroll_offset
            &&& t.show_hidden == s.show_hidden && t.show_files == s.show_files
            &&& a == ActionView::Continue
        },
        key.code == KeyCode::Char('j') && key.modifiers.control ==> key_step_view(s, key, listed)
            == key_step_view(s, KeyEvent { code: KeyCode::Down, modifiers: key.modifiers }, listed),
        key.code == KeyCode::Char('k') && key.modifiers.control ==> key_step_view(s, key, listed)
            == key_step_view(s, KeyEvent { code: KeyCode::Up, modifiers: key.modifiers }, listed),
{
    let total = listed.len();
    if s.selected + 1 < total {
        vstd::arithmetic::div_mod::lemma_small_mod((s.selected + 1) as nat, total);
    } else {
        vstd::arithmetic::div_mod::lemma_mod_self_0(total as int);
    }
}

/// Esc and Ctrl+C cancel and leave the state as it was.
pub proof fn lemma_cancel_keeps_state(s: NavView, key: KeyEvent, listed: Seq<Entry>)
    requires
        is_cancel_key(key),
    ensures
        key_step_view(s, key, listed) == (s, ActionView::Cancel),
{
}

/// Pressing Ctrl+H twice restores the hidden-file setting; each press clears
/// the filter and puts the cursor and scroll at the top. Ctrl+F likewise
/// restores the file setting.
pub proof fn lemma_toggle_twice(s: NavView, key: KeyEvent, first: Seq<Entry>, second: Seq<Entry>)
    requires
        is_ctrl_char(key, 'h') || is_ctrl_char(key, 'f'),
    ensures
        ({
            let once = key_step_view(s, key, first).0;
            let twice = key_step_view(once, key, second).0;
            &&& twice == reset_view(s)
            &&& once.query.len() == 0 && once.selected == 0 && once.scroll_offset == 0
            &&& (is_ctrl_char(key, 'h') ==> once.show_hidden != s.show_hidden)
            &&& (is_ctrl_char(key, 'f') ==> once.show_files != s.show_files)
        }),
{
    let once = key_step_view(s, key, first).0;
    assert(once.query =~= Seq::<char>::empty());
}

/// Typing a character into the filter and then pressing Backspace gives the
/// filter back as it was, with the cursor and scroll at the top.
pub proof fn lemma_type_then_erase(s: NavView, c: char, typed: KeyEvent, erase: KeyEvent, first: Seq<Entry>, second: Seq<Entry>)
    requires
        typed.code == KeyCode::Char(c),
        !typed.modifiers.control,
        c != 'Y',
        erase.code == KeyCode::Backspace,
    ensures
        ({
            let once = key_step_view(s, typed, first).0;
            let twice = key_step_view(once, erase, second).0;
            &&& once.query == s.query.push(c)
            &&& twice == (NavView { selected: 0, scroll_offset: 0, ..s })
        }),
{
    let once = key_step_view(s, typed, first).0;
    assert(once.query.drop_last() =~= s.query);
}

/// Going back to the parent directory and reading its entries puts the cursor
/// on the directory just left, when the parent lists it.
pub proof fn lemma_back_selects_previous(s: NavView, key: KeyEvent, listed: Seq<Entry>, parent_entries: Seq<Entry>, i: int)
    requires
        key.code == KeyCode::Left,
        path_parent(s.cwd) matches Some(p) && !path_equal(p, s.cwd),
        path_file_name(s.cwd) matches Some(n) && first_named(parent_entries, n, i),
        parent_entries.len() <= usize::MAX,
    ensures
        key_step_view(s, key, listed).1 == ActionView::Relist(path_file_name(s.cwd)->0),
        ({
            let moved = key_step_view(s, key, listed).0;
            let back = relist_step(moved, parent_entries, path_file_name(s.cwd)->0);
            &&& back.cwd == path_parent(s.cwd)->0
            &&& back.selected == i
            &&& back.query.len() == 0
            &&& back.scroll_offset == 0
        }),
{
    lemma_first_named_unique(parent_entries, path_file_name(s.cwd)->0, i);
}

/// Browsing into a directory: Right on a directory asks for its path, and once
/// that path is canonical the navigator stands in it with the filter cleared
/// and the cursor and scroll at the top.
pub proof fn lemma_right_enters(s: NavView, key: KeyEvent, listed: Seq<Entry>, canonical: Seq<char>)
    requires
        key.code == KeyCode::Right,
        on_directory(s, listed),
    ensures
        key_step_view(s, key, listed) == (s, ActionView::Resolve(Request::Enter, target_of(s, listed))),
        ({
            let inside = resolve_step(s, Request::Enter, Some(canonical)).0;
            &&& inside.cwd == canonical
            &&& inside.selected == 0 && inside.scroll_offset == 0 && inside.query.len() == 0
            &&& inside.show_hidden == s.show_hidden && inside.show_files == s.show_files
        }),
{
}

/// After settling on a list, the cursor is on the list (or at 0 when it is
/// empty), and whenever the list is longer than the window the cursor lies
/// inside the window.
pub proof fn lemma_settled_cursor_visible(selected: usize, offset: usize, total: nat)
    ensures
        total > 0 ==> clamped(selected, total) < total,
        total == 0 ==> clamped(selected, total) == 0,
        total <= MAX_VISIBLE ==> scrolled_offset(total as int, clamped(selected, total) as int, offset as int) == 0,
        total > MAX_VISIBLE ==> ({
            let o = scrolled_offset(total as int, clamped(selected, total) as int, offset as int);
            o <= clamped(selected, total) < o + MAX_VISIBLE
        }),
{
    if total > MAX_VISIBLE {
        crate::scroll::lemma_selection_in_window(total as int, clamped(selected, total) as int, offset as int);
    }
}

fn same_text(a: &str, b: &str) -> (r: bool)
    ensures
        r == (a@ == b@),
{
    let n = a.unicode_len();
    if n != b.unicode_len() {
        return false;
    }
    let mut i: usize = 0;
    while i < n
        invariant
            n == a@.len(),
            n == b@.len(),
            i <= n,
            forall|j: int| 0 <= j < i ==> a@[j] == b@[j],
        decreases n - i,
    {
        if a.get_char(i) != b.get_char(i) {
            return false;
        }
        i = i + 1;
    }
    assert(a@ =~= b@);
    true
}

fn move_up(state: &mut NavState, total: usize)
    ensures
        final(state)@ == (NavView { selected: moved_up(old(state).selected, total as nat), ..old(state)@ }),
{
    if total > 0 {
        state.selected = if state.selected == 0 {
            total - 1
        } else {
            state.selected - 1
        };
    }
}

fn move_down(state: &mut NavState, total: usize)
    requires
        total > 0 ==> old(state).selected < usize::MAX,
    ensures
        final(state)@ == (NavView { selected: moved_down(old(state).selected, total as nat), ..old(state)@ }),
{
    if total > 0 {
        state.selected = (state.selected + 1) % total;
    }
}

} // verus!
