//! The interactive interface: its views and how keys drive them.
//!
//! `App::handle_key` decides what a key press does. What needs the outside world (loading the
//! source list, deleting or pruning sources, opening an editor) comes back as an `AppAction`
//! for the caller to carry out; the caller then hands the outcome to the view concerned.
pub mod indexes;
pub mod search;

use vstd::prelude::*;
use vstd::utf8::encode_utf8;
use crate::index::db::SourceSummary;
use crate::text::lemma_char_width;
use indexes::{initial_indexes_state, IndexesState, IndexesView};
use search::{initial_search_state, SearchView};

verus! {

/// Which view is shown.
#[derive(PartialEq, Eq, Structural, Clone, Copy, Debug)]
pub enum Screen {
    Search,
    Indexes,
    Help,
}

/// A key press, by the key's code.
#[derive(PartialEq, Eq, Structural, Clone, Copy, Debug)]
pub enum Key {
    Char(char),
    Esc,
    Tab,
    Up,
    Down,
    Enter,
    Backspace,
    Left,
    Right,
    Home,
    End,
    /// Any other key.
    Other,
}

/// Work that a key press leaves to the caller.
#[derive(Debug)]
pub enum AppAction {
    /// Nothing.
    Nothing,
    /// Open this file in the user's editor.
    OpenEditor(String),
    /// Load the source list, then call `show_indexes` with it.
    ShowIndexes,
    /// Delete the source whose deletion was confirmed (`IndexesView::delete_target`), then
    /// call `IndexesView::confirm_delete` with the outcome.
    ConfirmDelete,
    /// Prune all sources, then call `IndexesView::prune_all` with the outcome.
    PruneAll,
}

/// Main TUI application state.
pub struct App<M> {
    pub view: Screen,
    pub search_view: SearchView<M>,
    pub indexes_view: IndexesView,
    pub should_quit: bool,
}

/// Whether typing `c` (with Ctrl held when `ctrl`) in the search view inserts it into the
/// query, rather than being a command.
pub open spec fn is_typed(c: char, ctrl: bool) -> bool {
    !(c == 'c' && ctrl) && c != 'q' && c != '?' && c != 'i'
}

impl<M> App<M> {
    /// Only the search view and the quit flag differ between `self` and `new`.
    pub open spec fn same_but_search(self, new: App<M>) -> bool {
        &&& new.view == self.view
        &&& new.indexes_view@ == self.indexes_view@
        &&& new.should_quit == self.should_quit
    }

    /// Only the indexes view differs between `self` and `new`.
    pub open spec fn same_but_indexes(self, new: App<M>) -> bool {
        &&& new.view == self.view
        &&& new.search_view@ == self.search_view@
        &&& new.should_quit == self.should_quit
    }

    /// Nothing differs between `self` and `new` but, perhaps, the view and the quit flag.
    pub open spec fn same_views(self, new: App<M>) -> bool {
        &&& new.search_view@ == self.search_view@
        &&& new.indexes_view@ == self.indexes_view@
    }

    /// A key press leaves no panic behind: in the search view, a typed character goes on a
    /// character boundary (and the query stays within memory), and backspace removes a whole
    /// character.
    pub open spec fn safe_key(self, key: Key, ctrl: bool) -> bool {
        let s = self.search_view@;
        self.view == Screen::Search ==> match key {
            Key::Char(c) => is_typed(c, ctrl) ==> s.can_insert() && s.bytes().len() + 4
                <= usize::MAX,
            Key::Backspace => s.can_delete(),
            _ => true,
        }
    }

    /// What a key press does in the search view.
    pub open spec fn search_key(self, new: App<M>, key: Key, ctrl: bool, now: u64, a: AppAction)
        -> bool
    {
        let s = self.search_view@;
        let t = new.search_view@;
        let quit = new.should_quit && new.view == self.view && self.same_views(new) && a
            is Nothing;
        let same = new.view == self.view && new.should_quit == self.should_quit
            && self.same_views(new);
        match key {
            Key::Char(c) => if (c == 'c' && ctrl) || c == 'q' {
                quit
            } else if c == '?' {
                new.view == Screen::Help && new.should_quit == self.should_quit && self.same_views(
                    new,
                ) && a is Nothing
            } else if c == 'i' {
                same && a is ShowIndexes
            } else {
                s.inserted(t, c, now) && self.same_but_search(new) && a is Nothing
            },
            Key::Esc => quit,
            Key::Tab => t == s.toggled(now) && self.same_but_search(new) && a is Nothing,
            Key::Up => t == s.selected_previous() && self.same_but_search(new) && a is Nothing,
            Key::Down => t == s.selected_next() && self.same_but_search(new) && a is Nothing,
            Key::Enter => same && match s.selected_path() {
                Some(p) => a matches AppAction::OpenEditor(q) && q@ == p,
                None => a is Nothing,
            },
            Key::Backspace => s.deleted(t, now) && self.same_but_search(new) && a is Nothing,
            Key::Left => t == s.moved_left() && self.same_but_search(new) && a is Nothing,
            Key::Right => t == s.moved_right() && self.same_but_search(new) && a is Nothing,
            Key::Home => t == s.moved_home() && self.same_but_search(new) && a is Nothing,
            Key::End => t == s.moved_end() && self.same_but_search(new) && a is Nothing,
            Key::Other => same && a is Nothing,
        }
    }

    /// What a key press does in the indexes view.
    pub open spec fn indexes_key(self, new: App<M>, key: Key, a: AppAction) -> bool {
        let x = self.indexes_view@;
        let y = new.indexes_view@;
        let same = new.view == self.view && new.should_quit == self.should_quit
            && self.same_views(new);
        if x.confirm_delete is Some {
            match key {
                Key::Char(c) => if c == 'y' || c == 'Y' {
                    same && a is ConfirmDelete
                } else if c == 'n' || c == 'N' {
                    y == (IndexesState { confirm_delete: None, ..x }) && self.same_but_indexes(
                        new,
                    ) && a is Nothing
                } else {
                    same && a is Nothing
                },
                Key::Esc => y == (IndexesState { confirm_delete: None, ..x })
                    && self.same_but_indexes(new) && a is Nothing,
                _ => same && a is Nothing,
            }
        } else {
            match key {
                Key::Char(c) => if c == 'q' {
                    new.should_quit && new.view == self.view && self.same_views(new) && a is Nothing
                } else if c == '?' || c == 's' {
                    new.view == (if c == '?' {
                        Screen::Help
                    } else {
                        Screen::Search
                    }) && new.should_quit == self.should_quit && self.same_views(new) && a is Nothing
                } else if c == 'd' {
                    y == match x.selected {
                        Some(i) => IndexesState { confirm_delete: Some(i), message: None, ..x },
                        None => x,
                    } && self.same_but_indexes(new) && a is Nothing
                } else if c == 'g' {
                    same && a is PruneAll
                } else {
                    same && a is Nothing
                },
                Key::Esc => new.should_quit && new.view == self.view && self.same_views(new) && a
                    is Nothing,
                Key::Up => y == x.selected_previous() && self.same_but_indexes(new) && a is Nothing,
                Key::Down => y == x.selected_next() && self.same_but_indexes(new) && a is Nothing,
                Key::Enter => y == (IndexesState { message: None, ..x }) && self.same_but_indexes(
                    new,
                ) && a is Nothing,
                _ => same && a is Nothing,
            }
        }
    }

    /// What a key press does in the help view.
    pub open spec fn help_key(self, new: App<M>, key: Key, a: AppAction) -> bool {
        let leaves = match key {
            Key::Char(c) => c == 'q' || c == '?',
            Key::Esc => true,
            _ => false,
        };
        &&& new.view == (if leaves {
            Screen::Search
        } else {
            self.view
        })
        &&& new.should_quit == self.should_quit
        &&& self.same_views(new)
        &&& a is Nothing
    }

    /// The search view, a fresh indexes view, and nothing to quit.
    pub fn new() -> (r: Self)
        ensures
            r.view == Screen::Search,
            r.search_view@ == initial_search_state(),
            r.search_view@.wf(),
            r.indexes_view@ == initial_indexes_state(),
            !r.should_quit,
    {
        App {
            view: Screen::Search,
            search_view: SearchView::new(),
            indexes_view: IndexesView::new(),
            should_quit: false,
        }
    }

    /// Whether handling `key` now would not panic.
    pub fn key_is_safe(&self, key: Key, ctrl: bool) -> (r: bool)
        requires
            self.search_view@.wf(),
        ensures
            r == self.safe_key(key, ctrl),
    {
        if self.view != Screen::Search {
            return true;
        }
        match key {
            Key::Char(c) => {
                if !(c == 'c' && ctrl) && c != 'q' && c != '?' && c != 'i' {
                    self.search_view.can_insert() && self.search_view.query().len()
                        <= usize::MAX - 4
                } else {
                    true
                }
            },
            Key::Backspace => self.search_view.can_delete(),
            _ => true,
        }
    }

    /// Handle a key press (`ctrl` when Ctrl was held) at time `now_ms`.
    pub fn handle_key(&mut self, key: Key, ctrl: bool, now_ms: u64) -> (a: AppAction)
        requires
            old(self).search_view@.wf(),
            old(self).safe_key(key, ctrl),
        ensures
            final(self).search_view@.wf(),
            old(self).view == Screen::Search ==> old(self).search_key(
                *final(self),
                key,
                ctrl,
                now_ms,
                a,
            ),
            old(self).view == Screen::Indexes ==> old(self).indexes_key(*final(self), key, a),
            old(self).view == Screen::Help ==> old(self).help_key(*final(self), key, a),
            old(self).view == Screen::Search && key == Key::Up ==> final(self).view == Screen::Search
                && final(self).search_view@.results == old(self).search_view@.results && (old(self).search_view@.selected matches Some(i) ==> final(self).search_view@.selected == Some(
                if i > 0 {
                    i - 1
                } else {
                    i
                },
            )) && (old(self).search_view@.selected is None ==> final(self).search_view@.selected is None),
            old(self).view == Screen::Search && key == Key::Down ==> final(self).view
                == Screen::Search && final(self).search_view@.results == old(self).search_view@.results && (old(self).search_view@.selected matches Some(i) ==> final(self).search_view@.selected == Some(
                if i + 1 < old(self).search_view@.results.len() {
                    i + 1
                } else {
                    i
                },
            )) && (old(self).search_view@.selected is None ==> final(self).search_view@.selected
                == (if old(self).search_view@.results.len() > 1 {
                Some(1int)
            } else {
                None
            })),
            old(self).view == Screen::Indexes && old(self).indexes_view@.confirm_delete is None
                && key == Key::Up ==> final(self).indexes_view@ == old(self).indexes_view@.selected_previous(),
            old(self).view == Screen::Indexes && old(self).indexes_view@.confirm_delete is None
                && key == Key::Down ==> final(self).indexes_view@ == old(self).indexes_view@.selected_next(),
    {
        match self.view {
            Screen::Search => self.handle_search_key(key, ctrl, now_ms),
            Screen::Indexes => self.handle_indexes_key(key),
            Screen::Help => {
                match key {
                    Key::Char(c) => {
                        if c == 'q' || c == '?' {
                            self.view = Screen::Search;
                        }
                    },
                    Key::Esc => {
                        self.view = Screen::Search;
                    },
                    _ => {},
                }
                AppAction::Nothing
            },
        }
    }

    fn handle_search_key(&mut self, key: Key, ctrl: bool, now_ms: u64) -> (a: AppAction)
        requires
            old(self).view == Screen::Search,
            old(self).search_view@.wf(),
            old(self).safe_key(key, ctrl),
        ensures
            final(self).search_view@.wf(),
            old(self).search_key(*final(self), key, ctrl, now_ms, a),
    {
        match key {
            Key::Char(c) => {
                if (c == 'c' && ctrl) || c == 'q' {
                    self.should_quit = true;
                } else if c == '?' {
                    self.view = Screen::Help;
                } else if c == 'i' {
                    return AppAction::ShowIndexes;
                } else {
                    proof {
                        lemma_char_width(c);
                    }
                    self.search_view.insert_char(c, now_ms);
                }
                AppAction::Nothing
            },
            Key::Esc => {
                self.should_quit = true;
                AppAction::Nothing
            },
            Key::Tab => {
                self.search_view.toggle_mode(now_ms);
                AppAction::Nothing
            },
            Key::Up => {
                self.search_view.previous_result();
                AppAction::Nothing
            },
            Key::Down => {
                self.search_view.next_result();
                AppAction::Nothing
            },
            Key::Enter => {
                match self.search_view.selected_path() {
                    Some(p) => AppAction::OpenEditor(p),
                    None => AppAction::Nothing,
                }
            },
            Key::Backspace => {
                self.search_view.delete_char(now_ms);
                AppAction::Nothing
            },
            Key::Left => {
                self.search_view.move_cursor_left();
                AppAction::Nothing
            },
            Key::Right => {
                self.search_view.move_cursor_right();
                AppAction::Nothing
            },
            Key::Home => {
                self.search_view.move_cursor_home();
                AppAction::Nothing
            },
            Key::End => {
                self.search_view.move_cursor_end();
                AppAction::Nothing
            },
            Key::Other => AppAction::Nothing,
        }
    }

    fn handle_indexes_key(&mut self, key: Key) -> (a: AppAction)
        requires
            old(self).view == Screen::Indexes,
            old(self).search_view@.wf(),
        ensures
            final(self).search_view@.wf(),
            old(self).indexes_key(*final(self), key, a),
    {
        if self.indexes_view.confirm_pending() {
            match key {
                Key::Char(c) => {
                    if c == 'y' || c == 'Y' {
                        return AppAction::ConfirmDelete;
                    } else if c == 'n' || c == 'N' {
                        self.indexes_view.cancel_delete();
                    }
                },
                Key::Esc => {
                    self.indexes_view.cancel_delete();
                },
                _ => {},
            }
            return AppAction::Nothing;
        }
        match key {
            Key::Char(c) => {
                if c == 'q' {
                    self.should_quit = true;
                } else if c == '?' {
                    self.view = Screen::Help;
                } else if c == 's' {
                    self.view = Screen::Search;
                } else if c == 'd' {
                    self.indexes_view.request_delete();
                } else if c == 'g' {
                    return AppAction::PruneAll;
                }
            },
            Key::Esc => {
                self.should_quit = true;
            },
            Key::Up => {
                self.indexes_view.previous();
            },
            Key::Down => {
                self.indexes_view.next();
            },
            Key::Enter => {
                self.indexes_view.clear_message();
            },
            _ => {},
        }
        AppAction::Nothing
    }

    /// Show the indexes view with a freshly loaded source list.
    pub fn show_indexes(&mut self, sources: Vec<SourceSummary>)
        ensures
            final(self).view == Screen::Indexes,
            final(self).indexes_view@ == old(self).indexes_view@.refreshed(sources@),
            final(self).search_view@ == old(self).search_view@,
            final(self).should_quit == old(self).should_quit,
    {
        self.indexes_view.refresh(sources);
        self.view = Screen::Indexes;
    }
}

} // verus!
