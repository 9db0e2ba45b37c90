//! Search results, modes and queries, and the ranking logic that combines them.
pub mod expand;
pub mod fusion;
pub mod score;
pub mod semantic;

use vstd::prelude::*;

verus! {

/// Source of a search result.
#[derive(Debug, Clone, Copy, PartialEq, Eq, Structural)]
pub enum ResultSource {
    Lexical,
    Semantic,
    Both,
}

/// The tag shown for a result source.
pub open spec fn source_label(s: ResultSource) -> Seq<char> {
    match s {
        ResultSource::Lexical => seq!['[', 'l', 'e', 'x', ']'],
        ResultSource::Semantic => seq!['[', 's', 'e', 'm', ']'],
        ResultSource::Both => seq!['[', 'l', 'e', 'x', '+', 's', 'e', 'm', ']'],
    }
}

impl ResultSource {
    /// The tag shown for this source: `[lex]`, `[sem]` or `[lex+sem]`.
    pub fn label(&self) -> (r: String)
        ensures
            r@ == source_label(*self),
    {
        match self {
            ResultSource::Lexical => {
                proof {
                    reveal_strlit("[lex]");
                }
                "[lex]".to_string()
            },
            ResultSource::Semantic => {
                proof {
                    reveal_strlit("[sem]");
                }
                "[sem]".to_string()
            },
            ResultSource::Both => {
                proof {
                    reveal_strlit("[lex+sem]");
                }
                "[lex+sem]".to_string()
            },
        }
    }
}

/// Search mode.
#[derive(Debug, Clone, Copy, PartialEq, Eq, Structural)]
pub enum SearchMode {
    Hybrid,
    LexicalOnly,
    SemanticOnly,
}

/// Search query parameters.
pub struct SearchQuery {
    pub query: String,
    pub limit: usize,
    pub mode: SearchMode,
}

impl SearchQuery {
    pub fn new(query: String, limit: usize, mode: SearchMode) -> (r: Self)
        ensures
            r.query == query,
            r.limit == limit,
            r.mode == mode,
    {
        SearchQuery { query, limit, mode }
    }
}

/// The mode selected by the command-line flags: lexical-only wins over semantic-only,
/// and neither flag means hybrid.
pub fn mode_from_flags(lexical_only: bool, semantic_only: bool) -> (m: SearchMode)
    ensures
        lexical_only ==> m == SearchMode::LexicalOnly,
        !lexical_only && semantic_only ==> m == SearchMode::SemanticOnly,
        !lexical_only && !semantic_only ==> m == SearchMode::Hybrid,
{
    if lexical_only {
        SearchMode::LexicalOnly
    } else if semantic_only {
        SearchMode::SemanticOnly
    } else {
        SearchMode::Hybrid
    }
}

/// A search result for a chunk of text. The score is an `f32`, held by its IEEE-754 bits.
pub struct ChunkResult {
    pub chunk_id: i64,
    pub file_id: i64,
    pub file_path: String,
    pub chunk_seq: usize,
    pub body: String,
    pub score_bits: u32,
    pub source: ResultSource,
}

/// A search result deduplicated to file level. The score is an `f32`, held by its bits.
pub struct FileResult {
    pub file_id: i64,
    pub file_path: String,
    pub score_bits: u32,
    pub snippet: String,
    pub source: ResultSource,
}

} // verus!
