//! The indexes view of the interactive interface: the indexed sources, the selection, a
//! pending deletion, and the message about the last operation.
//!
//! The database work (listing, deleting and pruning sources) is done by the caller; this
//! view takes what came of it and decides what is shown.
use vstd::prelude::*;
use crate::display::{dec, push_decimal};
use crate::index::db::{GcSummary, SourceSummary};

verus! {

/// The abstract state of an indexes view.
#[verifier::ext_equal]
pub struct IndexesState {
    pub sources: Seq<SourceSummary>,
    pub selected: Option<int>,
    pub confirm_delete: Option<int>,
    pub message: Option<Seq<char>>,
    pub is_error: bool,
}

/// How a source is named to the user and to the database: its label, or else its path.
pub open spec fn source_identifier(s: SourceSummary) -> Seq<char> {
    match s.label {
        Some(l) => l@,
        None => s.path@,
    }
}

/// What came of deleting a source.
pub enum DeleteOutcome {
    /// The source was deleted; these are the sources that remain.
    Deleted(Vec<SourceSummary>),
    /// No source matched.
    NotFound,
    /// The database reported this error.
    Failed(String),
}

/// What came of pruning all sources.
pub enum PruneOutcome {
    /// The prune ran; these are the sources afterwards.
    Done(GcSummary, Vec<SourceSummary>),
    /// The database reported this error.
    Failed(String),
}

pub open spec fn deleted_message(id: Seq<char>) -> Seq<char> {
    "Deleted '"@ + id + "'"@
}

pub open spec fn not_found_message(id: Seq<char>) -> Seq<char> {
    "Source '"@ + id + "' not found"@
}

pub open spec fn delete_error_message(e: Seq<char>) -> Seq<char> {
    "Error deleting source: "@ + e
}

pub open spec fn prune_message(files_removed: nat, chunks_removed: nat) -> Seq<char> {
    if files_removed == 0 {
        "No files to remove"@
    } else {
        "Removed "@ + dec(files_removed) + " files ("@ + dec(chunks_removed) + " chunks)"@
    }
}

pub open spec fn prune_error_message(e: Seq<char>) -> Seq<char> {
    "Error running prune: "@ + e
}

pub open spec fn prune_source_message(removed: nat, id: Seq<char>) -> Seq<char> {
    if removed == 0 {
        "No files to remove from '"@ + id + "'"@
    } else {
        "Removed "@ + dec(removed) + " files from '"@ + id + "'"@
    }
}

impl IndexesState {
    /// The state after the source list was reloaded: the first source is selected when
    /// nothing was selected before.
    pub open spec fn refreshed(self, sources: Seq<SourceSummary>) -> IndexesState {
        IndexesState {
            sources: sources,
            selected: if sources.len() > 0 && self.selected is None {
                Some(0)
            } else {
                self.selected
            },
            ..self
        }
    }

    /// The index of the source whose deletion awaits confirmation, if it exists.
    pub open spec fn delete_target(self) -> Option<int> {
        match self.confirm_delete {
            Some(i) => if 0 <= i < self.sources.len() {
                Some(i)
            } else {
                None
            },
            None => None,
        }
    }

    /// The index of the selected source, if it exists.
    pub open spec fn selected_source(self) -> Option<int> {
        match self.selected {
            Some(i) => if 0 <= i < self.sources.len() {
                Some(i)
            } else {
                None
            },
            None => None,
        }
    }

    pub open spec fn selected_previous(self) -> IndexesState {
        let i = match self.selected {
            Some(i) => i,
            None => 0,
        };
        if self.sources.len() > 0 {
            IndexesState {
                selected: if i > 0 {
                    Some(i - 1)
                } else {
                    self.selected
                },
                confirm_delete: None,
                ..self
            }
        } else {
            self
        }
    }

    pub open spec fn selected_next(self) -> IndexesState {
        let i = match self.selected {
            Some(i) => i,
            None => 0,
        };
        if self.sources.len() > 0 {
            IndexesState {
                selected: if i < self.sources.len() - 1 {
                    Some(i + 1)
                } else {
                    self.selected
                },
                confirm_delete: None,
                ..self
            }
        } else {
            self
        }
    }

    /// The state after the deletion awaiting confirmation was carried out with `outcome`
    /// (`outcome` only matters when there is a source to delete).
    pub open spec fn after_delete(self, outcome: DeleteOutcome) -> IndexesState {
        match self.delete_target() {
            None => IndexesState { confirm_delete: None, ..self },
            Some(i) => {
                let id = source_identifier(self.sources[i]);
                match outcome {
                    DeleteOutcome::Deleted(rest) => {
                        let s = IndexesState {
                            message: Some(deleted_message(id)),
                            is_error: false,
                            ..self
                        }.refreshed(rest@);
                        IndexesState {
                            selected: if rest@.len() == 0 {
                                None
                            } else if i >= rest@.len() {
                                Some(rest@.len() - 1)
                            } else {
                                s.selected
                            },
                            confirm_delete: None,
                            ..s
                        }
                    },
                    DeleteOutcome::NotFound => IndexesState {
                        message: Some(not_found_message(id)),
                        is_error: true,
                        confirm_delete: None,
                        ..self
                    },
                    DeleteOutcome::Failed(e) => IndexesState {
                        message: Some(delete_error_message(e@)),
                        is_error: true,
                        confirm_delete: None,
                        ..self
                    },
                }
            },
        }
    }

    /// The state after pruning all sources came out as `outcome`.
    pub open spec fn after_prune_all(self, outcome: PruneOutcome) -> IndexesState {
        match outcome {
            PruneOutcome::Done(summary, sources) => IndexesState {
                message: Some(
                    prune_message(summary.files_removed as nat, summary.chunks_removed as nat),
                ),
                is_error: false,
                ..self
            }.refreshed(sources@),
            PruneOutcome::Failed(e) => IndexesState {
                message: Some(prune_error_message(e@)),
                is_error: true,
                ..self
            },
        }
    }
}

/// The state of a new indexes view: no sources, nothing selected, no message.
pub open spec fn initial_indexes_state() -> IndexesState {
    IndexesState {
        sources: Seq::empty(),
        selected: None,
        confirm_delete: None,
        message: None,
        is_error: false,
    }
}

/// Indexes view state.
pub struct IndexesView {
    sources: Vec<SourceSummary>,
    selected: Option<usize>,
    confirm_delete: Option<usize>,
    message: Option<String>,
    is_error: bool,
}

impl View for IndexesView {
    type V = IndexesState;

    closed spec fn view(&self) -> IndexesState {
        IndexesState {
            sources: self.sources@,
            selected: match self.selected {
                Some(i) => Some(i as int),
                None => None,
            },
            confirm_delete: match self.confirm_delete {
                Some(i) => Some(i as int),
                None => None,
            },
            message: match self.message {
                Some(m) => Some(m@),
                None => None,
            },
            is_error: self.is_error,
        }
    }
}

fn identifier(s: &SourceSummary) -> (r: String)
    ensures
        r@ == source_identifier(*s),
{
    match &s.label {
        Some(l) => l.clone(),
        None => s.path.clone(),
    }
}

impl IndexesView {
    /// No sources, nothing selected, no message.
    pub fn new() -> (r: Self)
        ensures
            r@ == initial_indexes_state(),
    {
        IndexesView {
            sources: Vec::new(),
            selected: None,
            confirm_delete: None,
            message: None,
            is_error: false,
        }
    }

    /// Take a freshly loaded list of sources.
    pub fn refresh(&mut self, sources: Vec<SourceSummary>)
        ensures
            final(self)@ == old(self)@.refreshed(sources@),
    {
        self.sources = sources;
        if self.sources.len() > 0 && self.selected.is_none() {
            self.selected = Some(0);
        }
    }

    /// Navigate to previous source.
    pub fn previous(&mut self)
        ensures
            final(self)@ == old(self)@.selected_previous(),
            final(self)@.sources == old(self)@.sources,
            old(self)@.sources.len() > 0 ==> (old(self)@.selected matches Some(i) ==> final(self)@.selected == Some(if i > 0 { i - 1 } else { i })),
            old(self)@.selected is None ==> final(self)@.selected is None,
    {
        if self.sources.len() > 0 {
            let i = match self.selected {
                Some(i) => i,
                None => 0,
            };
            if i > 0 {
                self.selected = Some(i - 1);
            }
            self.confirm_delete = None;
        }
    }

    /// Navigate to next source.
    pub fn next(&mut self)
        ensures
            final(self)@ == old(self)@.selected_next(),
            final(self)@.sources == old(self)@.sources,
            old(self)@.sources.len() > 0 ==> (old(self)@.selected matches Some(i) ==> final(self)@.selected == Some(if i + 1 < old(self)@.sources.len() { i + 1 } else { i })),
            old(self)@.selected is None ==> final(self)@.selected == (if old(self)@.sources.len()
                > 1 {
                Some(1int)
            } else {
                None
            }),
    {
        if self.sources.len() > 0 {
            let i = match self.selected {
                Some(i) => i,
                None => 0,
            };
            if i < self.sources.len() - 1 {
                self.selected = Some(i + 1);
            }
            self.confirm_delete = None;
        }
    }

    /// Request deletion confirmation for selected source.
    pub fn request_delete(&mut self)
        ensures
            final(self)@ == match old(self)@.selected {
                Some(i) => IndexesState { confirm_delete: Some(i), message: None, ..old(self)@ },
                None => old(self)@,
            },
    {
        if let Some(i) = self.selected {
            self.confirm_delete = Some(i);
            self.message = None;
        }
    }

    /// Cancel deletion.
    pub fn cancel_delete(&mut self)
        ensures
            final(self)@ == (IndexesState { confirm_delete: None, ..old(self)@ }),
    {
        self.confirm_delete = None;
    }

    /// Whether a deletion awaits confirmation.
    pub fn confirm_pending(&self) -> (r: bool)
        ensures
            r == self@.confirm_delete is Some,
    {
        self.confirm_delete.is_some()
    }

    /// The identifier (label, or else path) of the source whose deletion awaits
    /// confirmation, when there is such a source.
    pub fn delete_target(&self) -> (r: Option<String>)
        ensures
            match self@.delete_target() {
                Some(i) => r matches Some(id) && id@ == source_identifier(self@.sources[i]),
                None => r is None,
            },
    {
        match self.confirm_delete {
            Some(i) => if i < self.sources.len() {
                Some(identifier(&self.sources[i]))
            } else {
                None
            },
            None => None,
        }
    }

    /// Finish the deletion awaiting confirmation, which came out as `outcome`: report it,
    /// take the remaining sources and keep the selection within them.
    pub fn confirm_delete(&mut self, outcome: DeleteOutcome)
        ensures
            final(self)@ == old(self)@.after_delete(outcome),
    {
        if let Some(i) = self.confirm_delete {
            if i < self.sources.len() {
                let id = identifier(&self.sources[i]);
                match outcome {
                    DeleteOutcome::Deleted(rest) => {
                        let mut m = String::from_str("Deleted '");
                        m.append(id.as_str());
                        m.append("'");
                        self.message = Some(m);
                        self.is_error = false;
                        self.refresh(rest);
                        if self.sources.len() == 0 {
                            self.selected = None;
                        } else if i >= self.sources.len() {
                            self.selected = Some(self.sources.len() - 1);
                        }
                    },
                    DeleteOutcome::NotFound => {
                        let mut m = String::from_str("Source '");
                        m.append(id.as_str());
                        m.append("' not found");
                        self.message = Some(m);
                        self.is_error = true;
                    },
                    DeleteOutcome::Failed(e) => {
                        let mut m = String::from_str("Error deleting source: ");
                        m.append(e.as_str());
                        self.message = Some(m);
                        self.is_error = true;
                    },
                }
            }
        }
        self.confirm_delete = None;
    }

    /// Report a prune of all sources that came out as `outcome`, and take the sources it
    /// left.
    pub fn prune_all(&mut self, outcome: PruneOutcome)
        ensures
            final(self)@ == old(self)@.after_prune_all(outcome),
    {
        match outcome {
            PruneOutcome::Done(summary, sources) => {
                let m = if summary.files_removed == 0 {
                    String::from_str("No files to remove")
                } else {
                    let mut m = String::from_str("Removed ");
                    push_decimal(&mut m, summary.files_removed as u128);
                    m.append(" files (");
                    push_decimal(&mut m, summary.chunks_removed as u128);
                    m.append(" chunks)");
                    m
                };
                self.message = Some(m);
                self.is_error = false;
                self.refresh(sources);
            },
            PruneOutcome::Failed(e) => {
                let mut m = String::from_str("Error running prune: ");
                m.append(e.as_str());
                self.message = Some(m);
                self.is_error = true;
            },
        }
    }

    /// The id and identifier of the selected source, when one is selected.
    pub fn selected_source(&self) -> (r: Option<(i64, String)>)
        ensures
            match self@.selected_source() {
                Some(i) => r matches Some((id, name)) && id == self@.sources[i].id && name@
                    == source_identifier(self@.sources[i]),
                None => r is None,
            },
    {
        match self.selected {
            Some(i) => if i < self.sources.len() {
                Some((self.sources[i].id, identifier(&self.sources[i])))
            } else {
                None
            },
            None => None,
        }
    }

    /// Report a prune of the selected source that removed `removed` files, and take the
    /// sources afterwards (nothing happens when no source is selected).
    pub fn prune_selected(&mut self, removed: usize, sources: Vec<SourceSummary>)
        ensures
            final(self)@ == match old(self)@.selected_source() {
                Some(i) => IndexesState {
                    message: Some(
                        prune_source_message(
                            removed as nat,
                            source_identifier(old(self)@.sources[i]),
                        ),
                    ),
                    is_error: false,
                    ..old(self)@
                }.refreshed(sources@),
                None => old(self)@,
            },
    {
        if let Some(i) = self.selected {
            if i < self.sources.len() {
                let id = identifier(&self.sources[i]);
                let m = if removed == 0 {
                    let mut m = String::from_str("No files to remove from '");
                    m.append(id.as_str());
                    m.append("'");
                    m
                } else {
                    let mut m = String::from_str("Removed ");
                    push_decimal(&mut m, removed as u128);
                    m.append(" files from '");
                    m.append(id.as_str());
                    m.append("'");
                    m
                };
                self.message = Some(m);
                self.is_error = false;
                self.refresh(sources);
            }
        }
    }

    /// Take the selection as the list widget drew it (drawing moves a selection past the end
    /// of the list to its last source).
    pub fn set_selected(&mut self, selected: Option<usize>)
        ensures
            final(self)@ == (IndexesState {
                selected: match selected {
                    Some(i) => Some(i as int),
                    None => None,
                },
                ..old(self)@
            }),
    {
        self.selected = selected;
    }

    /// Clear message.
    pub fn clear_message(&mut self)
        ensures
            final(self)@ == (IndexesState { message: None, ..old(self)@ }),
    {
        self.message = None;
    }

    /// Number of sources listed.
    pub fn source_count(&self) -> (r: usize)
        ensures
            r == self@.sources.len(),
    {
        self.sources.len()
    }

    /// The sources listed.
    pub fn sources(&self) -> (r: &Vec<SourceSummary>)
        ensures
            r@ == self@.sources,
    {
        &self.sources
    }

    /// The index of the selected source.
    pub fn selected(&self) -> (r: Option<usize>)
        ensures
            match r {
                Some(i) => self@.selected == Some(i as int),
                None => self@.selected is None,
            },
    {
        self.selected
    }

    /// The message about the last operation, and whether it reports an error.
    pub fn message(&self) -> (r: (Option<&String>, bool))
        ensures
            match r.0 {
                Some(m) => self@.message == Some(m@),
                None => self@.message is None,
            },
            r.1 == self@.is_error,
    {
        (self.message.as_ref(), self.is_error)
    }
}

/// After a confirmed deletion of the selected source, the selection points at one of the
/// remaining sources, and there is a selection exactly when sources remain.
pub proof fn lemma_delete_keeps_selection(x: IndexesState, rest: Vec<SourceSummary>)
    requires
        x.confirm_delete == x.selected,
        x.delete_target() is Some,
    ensures
        ({
            let y = x.after_delete(DeleteOutcome::Deleted(rest));
            &&& y.sources == rest@
            &&& y.confirm_delete is None
            &&& y.selected is None <==> rest@.len() == 0
            &&& y.selected matches Some(j) ==> 0 <= j < rest@.len()
        }),
{
}

/// Moving up through the sources: from source `i > 0` to source `i - 1`, staying on the first
/// one, never to a later source; moving down: from `i` to `i + 1` unless `i` is the last,
/// never to an earlier source. Either move cancels a pending deletion; neither changes the
/// sources or the message. Without sources nothing changes.
pub proof fn lemma_indexes_navigation(x: IndexesState)
    ensures
        ({
            let p = x.selected_previous();
            let n = x.selected_next();
            &&& p.sources == x.sources && n.sources == x.sources
            &&& p.message == x.message && n.message == x.message
            &&& x.sources.len() == 0 ==> p == x && n == x
            &&& x.sources.len() > 0 ==> p.confirm_delete is None && n.confirm_delete is None
            &&& x.sources.len() > 0 ==> (x.selected matches Some(i) ==> (p.selected == Some(
                if i > 0 {
                    i - 1
                } else {
                    i
                },
            ) && n.selected == Some(
                if i + 1 < x.sources.len() {
                    i + 1
                } else {
                    i
                },
            )))
            &&& x.selected matches Some(i) ==> (p.selected matches Some(j) && j <= i)
            &&& x.selected matches Some(i) ==> (n.selected matches Some(j) && j >= i)
            &&& x.selected is None ==> p.selected is None
        }),
{
}

} // verus!
