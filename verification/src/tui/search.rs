//! The search view of the interactive interface: the query being edited, its cursor, the
//! search mode, the results and the selection, and when the next search is due.
//!
//! Times are milliseconds read from a monotonic clock. The embedding model, once loaded, is
//! kept here as an opaque value of type `M`.
use vstd::prelude::*;
use vstd::utf8::{decode_utf8, encode_utf8, is_char_boundary};
use crate::search::{FileResult, SearchMode};
use crate::text::{
    chars_of, is_whitespace_char, is_ws, lemma_char_width, string_insert, string_remove,
};

verus! {

/// Milliseconds of quiet after an edit before the query is searched.
pub const DEBOUNCE_MS: u64 = 200;

/// The abstract state of a search view.
#[verifier::ext_equal]
pub struct SearchViewState {
    pub query: Seq<char>,
    /// The cursor, as a byte offset into the query's UTF-8 encoding.
    pub cursor_pos: int,
    pub mode: SearchMode,
    pub results: Seq<FileResult>,
    pub selected: Option<int>,
    pub last_query_ms: Option<u64>,
    pub needs_search: bool,
    pub has_model: bool,
    pub error: Option<Seq<char>>,
}

/// The mode that follows `m` when the mode is toggled: hybrid, lexical, semantic, hybrid, ...
pub open spec fn next_mode(m: SearchMode) -> SearchMode {
    match m {
        SearchMode::Hybrid => SearchMode::LexicalOnly,
        SearchMode::LexicalOnly => SearchMode::SemanticOnly,
        SearchMode::SemanticOnly => SearchMode::Hybrid,
    }
}

/// Whether every character of `q` is whitespace (so that `q.trim()` is empty).
pub open spec fn is_blank(q: Seq<char>) -> bool {
    forall|i: int| 0 <= i < q.len() ==> is_ws(#[trigger] q[i])
}

/// The text shown when the embedding model cannot be loaded, before the reason.
pub open spec fn model_error_prefix() -> Seq<char> {
    "Failed to load embedding model: "@
}

impl SearchViewState {
    /// The query's UTF-8 bytes.
    pub open spec fn bytes(self) -> Seq<u8> {
        encode_utf8(self.query)
    }

    /// The cursor lies within the query (whose length fits a `usize`), and a selection
    /// points at a result.
    pub open spec fn wf(self) -> bool {
        &&& 0 <= self.cursor_pos <= self.bytes().len() <= usize::MAX
        &&& self.selected matches Some(i) ==> 0 <= i < self.results.len()
    }

    /// The state with a search scheduled at time `now`.
    pub open spec fn scheduled(self, now: u64) -> SearchViewState {
        SearchViewState { last_query_ms: Some(now), needs_search: true, ..self }
    }

    /// Inserting at the cursor needs the cursor on a character boundary.
    pub open spec fn can_insert(self) -> bool {
        is_char_boundary(self.bytes(), self.cursor_pos)
    }

    /// Deleting before the cursor needs the byte before the cursor to start a character.
    pub open spec fn can_delete(self) -> bool {
        self.cursor_pos == 0 || is_char_boundary(self.bytes(), self.cursor_pos - 1)
    }

    /// `new` is this state after `c` was typed at time `now`: `c` is inserted at the cursor,
    /// the cursor moves one byte right, and a search is scheduled.
    pub open spec fn inserted(self, new: SearchViewState, c: char, now: u64) -> bool {
        &&& new.bytes() == self.bytes().take(self.cursor_pos) + encode_utf8(seq![c])
            + self.bytes().skip(self.cursor_pos)
        &&& new == SearchViewState {
            query: new.query,
            cursor_pos: self.cursor_pos + 1,
            ..self.scheduled(now)
        }
    }

    /// `new` is this state after backspace at time `now`: with the cursor at the start
    /// nothing changes; otherwise the character starting one byte before the cursor is
    /// removed, the cursor moves one byte left, and a search is scheduled.
    pub open spec fn deleted(self, new: SearchViewState, now: u64) -> bool {
        if self.cursor_pos == 0 {
            new == self
        } else {
            let b = self.bytes();
            let i = self.cursor_pos - 1;
            &&& exists|c: char|
                {
                    let w = #[trigger] encode_utf8(seq![c]);
                    &&& i + w.len() <= b.len()
                    &&& b.subrange(i, i + w.len()) == w
                    &&& new.bytes() == b.take(i) + b.skip(i + w.len())
                }
            &&& new == SearchViewState { query: new.query, cursor_pos: i, ..self.scheduled(now) }
        }
    }

    pub open spec fn moved_left(self) -> SearchViewState {
        if self.cursor_pos > 0 {
            SearchViewState { cursor_pos: self.cursor_pos - 1, ..self }
        } else {
            self
        }
    }

    pub open spec fn moved_right(self) -> SearchViewState {
        if self.cursor_pos < self.bytes().len() {
            SearchViewState { cursor_pos: self.cursor_pos + 1, ..self }
        } else {
            self
        }
    }

    pub open spec fn moved_home(self) -> SearchViewState {
        SearchViewState { cursor_pos: 0, ..self }
    }

    pub open spec fn moved_end(self) -> SearchViewState {
        SearchViewState { cursor_pos: self.bytes().len() as int, ..self }
    }

    pub open spec fn toggled(self, now: u64) -> SearchViewState {
        SearchViewState { mode: next_mode(self.mode), ..self.scheduled(now) }
    }

    /// The selection moved one result up (nothing happens at the top or without results).
    pub open spec fn selected_previous(self) -> SearchViewState {
        let i = match self.selected {
            Some(i) => i,
            None => 0,
        };
        if self.results.len() > 0 && i > 0 {
            SearchViewState { selected: Some(i - 1), ..self }
        } else {
            self
        }
    }

    /// The selection moved one result down (nothing happens at the bottom or without results).
    pub open spec fn selected_next(self) -> SearchViewState {
        let i = match self.selected {
            Some(i) => i,
            None => 0,
        };
        if self.results.len() > 0 && i < self.results.len() - 1 {
            SearchViewState { selected: Some(i + 1), ..self }
        } else {
            self
        }
    }

    /// The path of the selected result, if a result is selected.
    pub open spec fn selected_path(self) -> Option<Seq<char>> {
        match self.selected {
            Some(i) => if 0 <= i < self.results.len() {
                Some(self.results[i].file_path@)
            } else {
                None
            },
            None => None,
        }
    }

    /// A search is due when one was scheduled at least `DEBOUNCE_MS` before `now`.
    pub open spec fn search_due(self, now: u64) -> bool {
        &&& self.needs_search
        &&& self.last_query_ms matches Some(t) && now - t >= DEBOUNCE_MS
    }
}

/// What a search run needs next.
#[derive(PartialEq, Eq, Structural, Clone, Copy, Debug)]
pub enum SearchStep {
    /// The query is blank: the results were cleared and nothing is to be searched.
    Cleared,
    /// The mode needs the embedding model, which is not loaded yet.
    LoadModel,
    /// Search in the current mode and hand the results to `finish_search`.
    Run,
}

/// The state of a new search view: an empty query in hybrid mode, with no results and
/// nothing scheduled.
pub open spec fn initial_search_state() -> SearchViewState {
    SearchViewState {
        query: Seq::empty(),
        cursor_pos: 0,
        mode: SearchMode::Hybrid,
        results: Seq::empty(),
        selected: None,
        last_query_ms: None,
        needs_search: false,
        has_model: false,
        error: None,
    }
}

/// Search view state.
pub struct SearchView<M> {
    query: String,
    cursor_pos: usize,
    mode: SearchMode,
    results: Vec<FileResult>,
    selected: Option<usize>,
    last_query_ms: Option<u64>,
    needs_search: bool,
    embedding_model: Option<M>,
    error: Option<String>,
}

impl<M> View for SearchView<M> {
    type V = SearchViewState;

    closed spec fn view(&self) -> SearchViewState {
        SearchViewState {
            query: self.query@,
            cursor_pos: self.cursor_pos as int,
            mode: self.mode,
            results: self.results@,
            selected: match self.selected {
                Some(i) => Some(i as int),
                None => None,
            },
            last_query_ms: self.last_query_ms,
            needs_search: self.needs_search,
            has_model: self.embedding_model is Some,
            error: match self.error {
                Some(e) => Some(e@),
                None => None,
            },
        }
    }
}

impl<M> SearchView<M> {
    /// An empty query in hybrid mode, with no results and nothing scheduled.
    pub fn new() -> (r: Self)
        ensures
            r@ == initial_search_state(),
            r@.wf(),
    {
        let r = SearchView {
            query: String::new(),
            cursor_pos: 0,
            mode: SearchMode::Hybrid,
            results: Vec::new(),
            selected: None,
            last_query_ms: None,
            needs_search: false,
            embedding_model: None,
            error: None,
        };
        assert(r@.query =~= Seq::<char>::empty());
        r
    }

    fn schedule_search(&mut self, now_ms: u64)
        ensures
            final(self)@ == old(self)@.scheduled(now_ms),
    {
        self.last_query_ms = Some(now_ms);
        self.needs_search = true;
    }

    /// Whether typing a character now would insert it cleanly (the cursor is on a
    /// character boundary; otherwise `String::insert` panics).
    pub fn can_insert(&self) -> (r: bool)
        ensures
            r == self@.can_insert(),
    {
        self.query.as_str().is_char_boundary(self.cursor_pos)
    }

    /// Whether backspace now would delete cleanly.
    pub fn can_delete(&self) -> (r: bool)
        ensures
            r == self@.can_delete(),
    {
        self.cursor_pos == 0 || self.query.as_str().is_char_boundary(self.cursor_pos - 1)
    }

    /// Handle character input at time `now_ms`.
    pub fn insert_char(&mut self, c: char, now_ms: u64)
        requires
            old(self)@.wf(),
            old(self)@.can_insert(),
            old(self)@.bytes().len() + encode_utf8(seq![c]).len() <= usize::MAX,
        ensures
            old(self)@.inserted(final(self)@, c, now_ms),
            final(self)@.wf(),
    {
        string_insert(&mut self.query, self.cursor_pos, c);
        self.cursor_pos = self.cursor_pos + 1;
        self.schedule_search(now_ms);
        proof {
            lemma_char_width(c);
        }
    }

    /// Handle backspace at time `now_ms`.
    pub fn delete_char(&mut self, now_ms: u64)
        requires
            old(self)@.wf(),
            old(self)@.can_delete(),
        ensures
            old(self)@.deleted(final(self)@, now_ms),
            final(self)@.wf(),
    {
        if self.cursor_pos > 0 {
            let ghost b = encode_utf8(self.query@);
            let c = string_remove(&mut self.query, self.cursor_pos - 1);
            self.cursor_pos = self.cursor_pos - 1;
            self.schedule_search(now_ms);
            proof {
                let w = encode_utf8(seq![c]);
                let i = self.cursor_pos as int;
                assert(i + w.len() <= b.len() && b.subrange(i, i + w.len()) == w
                    && encode_utf8(self.query@) == b.take(i) + b.skip(i + w.len()));
            }
        }
    }

    /// Move cursor left.
    pub fn move_cursor_left(&mut self)
        requires
            old(self)@.wf(),
        ensures
            final(self)@ == old(self)@.moved_left(),
            final(self)@.wf(),
    {
        if self.cursor_pos > 0 {
            self.cursor_pos = self.cursor_pos - 1;
        }
    }

    /// Move cursor right.
    pub fn move_cursor_right(&mut self)
        requires
            old(self)@.wf(),
        ensures
            final(self)@ == old(self)@.moved_right(),
            final(self)@.wf(),
    {
        if self.cursor_pos < self.query.as_str().len() {
            self.cursor_pos = self.cursor_pos + 1;
        }
    }

    /// Move cursor to start.
    pub fn move_cursor_home(&mut self)
        requires
            old(self)@.wf(),
        ensures
            final(self)@ == old(self)@.moved_home(),
            final(self)@.wf(),
    {
        self.cursor_pos = 0;
    }

    /// Move cursor to end.
    pub fn move_cursor_end(&mut self)
        requires
            old(self)@.wf(),
        ensures
            final(self)@ == old(self)@.moved_end(),
            final(self)@.wf(),
    {
        self.cursor_pos = self.query.as_str().len();
    }

    /// Toggle search mode at time `now_ms`.
    pub fn toggle_mode(&mut self, now_ms: u64)
        requires
            old(self)@.wf(),
        ensures
            final(self)@ == old(self)@.toggled(now_ms),
            final(self)@.wf(),
    {
        self.mode =
        match self.mode {
            SearchMode::Hybrid => SearchMode::LexicalOnly,
            SearchMode::LexicalOnly => SearchMode::SemanticOnly,
            SearchMode::SemanticOnly => SearchMode::Hybrid,
        };
        self.schedule_search(now_ms);
    }

    /// Navigate to previous result.
    pub fn previous_result(&mut self)
        requires
            old(self)@.wf(),
        ensures
            final(self)@ == old(self)@.selected_previous(),
            final(self)@.wf(),
    {
        if self.results.len() > 0 {
            let i = match self.selected {
                Some(i) => i,
                None => 0,
            };
            if i > 0 {
                self.selected = Some(i - 1);
            }
        }
    }

    /// Navigate to next result.
    pub fn next_result(&mut self)
        requires
            old(self)@.wf(),
        ensures
            final(self)@ == old(self)@.selected_next(),
            final(self)@.wf(),
    {
        if self.results.len() > 0 {
            let i = match self.selected {
                Some(i) => i,
                None => 0,
            };
            if i < self.results.len() - 1 {
                self.selected = Some(i + 1);
            }
        }
    }

    /// Get selected result path.
    pub fn selected_path(&self) -> (r: Option<String>)
        ensures
            match r {
                Some(p) => self@.selected_path() == Some(p@),
                None => self@.selected_path() is None,
            },
    {
        match self.selected {
            Some(i) => if i < self.results.len() {
                Some(self.results[i].file_path.clone())
            } else {
                None
            },
            None => None,
        }
    }

    /// Check if it's time to execute the search.
    pub fn should_search(&self, now_ms: u64) -> (r: bool)
        ensures
            r == self@.search_due(now_ms),
    {
        if !self.needs_search {
            return false;
        }
        match self.last_query_ms {
            Some(t) => now_ms >= t && now_ms - t >= DEBOUNCE_MS,
            None => false,
        }
    }

    /// Start a search: the scheduled search is consumed and the error cleared; a blank
    /// query clears the results; otherwise the step says whether the model must be loaded
    /// first.
    pub fn begin_search(&mut self) -> (r: SearchStep)
        requires
            old(self)@.wf(),
        ensures
            final(self)@.wf(),
            is_blank(old(self)@.query) ==> r == SearchStep::Cleared && final(self)@ == (
            SearchViewState {
                needs_search: false,
                error: None,
                results: Seq::empty(),
                selected: None,
                ..old(self)@
            }),
            !is_blank(old(self)@.query) ==> final(self)@ == (SearchViewState {
                needs_search: false,
                error: None,
                ..old(self)@
            }),
            !is_blank(old(self)@.query) ==> (r == SearchStep::LoadModel <==> (old(self)@.mode
                != SearchMode::LexicalOnly && !old(self)@.has_model)),
            !is_blank(old(self)@.query) ==> r != SearchStep::Cleared,
    {
        self.needs_search = false;
        self.error = None;
        if self.query_is_blank() {
            self.results = Vec::new();
            self.selected = None;
            assert(self@.results =~= Seq::<FileResult>::empty());
            return SearchStep::Cleared;
        }
        if self.mode != SearchMode::LexicalOnly && self.embedding_model.is_none() {
            SearchStep::LoadModel
        } else {
            SearchStep::Run
        }
    }

    fn query_is_blank(&self) -> (r: bool)
        ensures
            r == is_blank(self@.query),
    {
        let cs = chars_of(self.query.as_str());
        let mut i: usize = 0;
        while i < cs.len()
            invariant
                i <= cs@.len(),
                cs@ == self@.query,
                forall|k: int| 0 <= k < i ==> is_ws(#[trigger] cs@[k]),
            decreases cs@.len() - i,
        {
            if !is_whitespace_char(cs[i]) {
                return false;
            }
            i = i + 1;
        }
        true
    }

    /// Keep the loaded embedding model.
    pub fn set_model(&mut self, model: M)
        ensures
            final(self)@ == (SearchViewState { has_model: true, ..old(self)@ }),
    {
        self.embedding_model = Some(model);
    }

    /// Record that the embedding model could not be loaded, for the reason `reason`.
    pub fn model_failed(&mut self, reason: &str)
        ensures
            final(self)@ == (SearchViewState {
                error: Some(model_error_prefix() + reason@),
                ..old(self)@
            }),
    {
        let mut e = String::from_str("Failed to load embedding model: ");
        e.append(reason);
        self.error = Some(e);
    }

    /// Take the results of a search: the first `limit` of them are kept, and the first is
    /// selected when there is one.
    pub fn finish_search(&mut self, file_results: Vec<FileResult>, limit: usize)
        requires
            old(self)@.wf(),
        ensures
            final(self)@ == (SearchViewState {
                results: if limit < file_results@.len() {
                    file_results@.take(limit as int)
                } else {
                    file_results@
                },
                selected: if limit > 0 && file_results@.len() > 0 {
                    Some(0)
                } else {
                    None
                },
                ..old(self)@
            }),
            final(self)@.wf(),
    {
        let mut results = file_results;
        results.truncate(limit);
        self.results = results;
        if self.results.len() > 0 {
            self.selected = Some(0);
        } else {
            self.selected = None;
        }
    }

    /// The embedding model, once loaded.
    pub fn model(&self) -> (r: Option<&M>)
        ensures
            r is Some <==> self@.has_model,
    {
        self.embedding_model.as_ref()
    }

    /// The query being edited.
    pub fn query(&self) -> (r: &str)
        ensures
            r@ == self@.query,
    {
        self.query.as_str()
    }

    /// The cursor, as a byte offset into the query.
    pub fn cursor_pos(&self) -> (r: usize)
        ensures
            r == self@.cursor_pos,
    {
        self.cursor_pos
    }

    /// The search mode.
    pub fn mode(&self) -> (r: SearchMode)
        ensures
            r == self@.mode,
    {
        self.mode
    }

    /// The results of the last search.
    pub fn results(&self) -> (r: &Vec<FileResult>)
        ensures
            r@ == self@.results,
    {
        &self.results
    }

    /// The index of the selected result.
    pub fn selected(&self) -> (r: Option<usize>)
        ensures
            match r {
                Some(i) => self@.selected == Some(i as int),
                None => self@.selected is None,
            },
    {
        self.selected
    }

    /// The error of the last search, if it failed.
    pub fn error(&self) -> (r: Option<&String>)
        ensures
            match r {
                Some(e) => self@.error == Some(e@),
                None => self@.error is None,
            },
    {
        self.error.as_ref()
    }
}

/// Toggling the mode three times comes back to the same mode.
pub proof fn lemma_mode_cycle(m: SearchMode)
    ensures
        next_mode(next_mode(next_mode(m))) == m,
        next_mode(m) != m,
{
}

/// Backspace right after typing a character undoes it: the query and the cursor are as they
/// were before the character was typed (and so are the mode, the results and the selection).
pub proof fn lemma_backspace_undoes_typing(
    s: SearchViewState,
    t: SearchViewState,
    u: SearchViewState,
    c: char,
    typed_at: u64,
    deleted_at: u64,
)
    requires
        s.can_insert(),
        s.inserted(t, c, typed_at),
        t.deleted(u, deleted_at),
    ensures
        u.query == s.query,
        u.cursor_pos == s.cursor_pos,
        u.mode == s.mode,
        u.results == s.results,
        u.selected == s.selected,
{
    broadcast use vstd::utf8::encode_utf8_decode_utf8;

    let b = s.bytes();
    let i = s.cursor_pos;
    let e = encode_utf8(seq![c]);
    let tb = t.bytes();
    lemma_char_width(c);
    assert(0 <= i <= b.len()) by {
        vstd::utf8::encode_utf8_valid_utf8(s.query);
        reveal_with_fuel(is_char_boundary, 1);
    }
    assert(t.cursor_pos == i + 1);
    let c2 = choose|c2: char|
        {
            let w = #[trigger] encode_utf8(seq![c2]);
            &&& i + w.len() <= tb.len()
            &&& tb.subrange(i, i + w.len()) == w
            &&& u.bytes() == tb.take(i) + tb.skip(i + w.len())
        };
    let w = encode_utf8(seq![c2]);
    lemma_char_width(c2);
    assert(tb == b.take(i) + e + b.skip(i));
    assert(w[0] == tb[i]);
    assert(e[0] == tb[i]);
    vstd::utf8::encode_utf8_first_scalar(seq![c]);
    vstd::utf8::encode_utf8_first_scalar(seq![c2]);
    lemma_single_encoding(c);
    lemma_single_encoding(c2);
    assert(w.len() == e.len());
    assert(u.bytes() =~= b);
    assert(decode_utf8(u.bytes()) == u.query);
    assert(decode_utf8(b) == s.query);
}

proof fn lemma_single_encoding(c: char)
    ensures
        encode_utf8(seq![c]) == vstd::utf8::encode_scalar(c as u32),
{
    reveal_with_fuel(encode_utf8, 2);
    assert(seq![c].drop_first() =~= Seq::<char>::empty());
    assert(encode_utf8(seq![c]) =~= vstd::utf8::encode_scalar(c as u32));
}

/// Moving through the results: up goes from result `i > 0` to result `i - 1` and stays on the
/// first, never to a later result; down goes from `i` to `i + 1` unless `i` is the last, never
/// to an earlier result. Neither changes the query, the cursor, the mode or the results.
pub proof fn lemma_result_navigation(s: SearchViewState)
    requires
        s.wf(),
    ensures
        ({
            let p = s.selected_previous();
            let n = s.selected_next();
            &&& p.query == s.query && p.cursor_pos == s.cursor_pos && p.mode == s.mode
                && p.results == s.results
            &&& n.query == s.query && n.cursor_pos == s.cursor_pos && n.mode == s.mode
                && n.results == s.results
            &&& s.selected matches Some(i) ==> (p.selected == Some(if i > 0 { i - 1 } else { i })
                && n.selected == Some(if i + 1 < s.results.len() { i + 1 } else { i }))
            &&& s.selected is None ==> p.selected is None
            &&& s.selected is None ==> n.selected == (if s.results.len() > 1 {
                Some(1int)
            } else {
                None
            })
            &&& p.wf() && n.wf()
        }),
{
}

} // verus!
