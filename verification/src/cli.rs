//! The command line: what the user asked for, as plain values.
//!
//! Paths are held as the bytes of the operating system's path.
use vstd::prelude::*;
use crate::text::{chars_of, is_whitespace_char, is_ws};

verus! {

/// Hybrid full-text and semantic search over local text content.
pub struct Cli {
    /// The subcommand; none launches the interactive interface.
    pub command: Option<Command>,
    /// Path to the SQLite database.
    pub db: Option<Vec<u8>>,
}

/// A subcommand.
pub enum Command {
    /// Manage indexed sources.
    Index { command: IndexCommand },
    /// Show resolved configuration.
    Config,
    /// Search indexed content.
    Search {
        /// Search query.
        query: String,
        /// Maximum number of results to return.
        limit: usize,
        /// Use only lexical (FTS5) search.
        lexical_only: bool,
        /// Use only semantic (vector) search.
        semantic_only: bool,
        /// Output results as JSON.
        json: bool,
    },
}

/// A subcommand of `index`.
pub enum IndexCommand {
    /// Add files or directories to the index.
    Add {
        /// Paths to index (files or directories).
        paths: Vec<Vec<u8>>,
        /// Optional label for this source.
        name: Option<String>,
        /// Include hidden files and directories.
        hidden: bool,
        /// Disable embedding generation (lexical indexing only).
        no_embeddings: bool,
    },
    /// List all indexed sources.
    List,
    /// Delete an indexed source.
    Delete {
        /// Source path or label to delete.
        path_or_label: String,
        /// Skip confirmation prompt.
        yes: bool,
    },
    /// Remove index entries for files no longer on disk.
    Prune,
}

/// The number of results a search returns when `--limit` is not given.
pub const DEFAULT_SEARCH_LIMIT: usize = 10;

/// `s` without its leading whitespace.
pub open spec fn trim_ws_start(s: Seq<char>) -> Seq<char>
    decreases s.len(),
{
    if s.len() > 0 && is_ws(s[0]) {
        trim_ws_start(s.drop_first())
    } else {
        s
    }
}

/// `s` without its trailing whitespace.
pub open spec fn trim_ws_end(s: Seq<char>) -> Seq<char>
    decreases s.len(),
{
    if s.len() > 0 && is_ws(s.last()) {
        trim_ws_end(s.drop_last())
    } else {
        s
    }
}

/// `s` without leading and trailing whitespace (`str::trim`).
pub open spec fn trim_ws(s: Seq<char>) -> Seq<char> {
    trim_ws_end(trim_ws_start(s))
}

/// Whether an answer to a yes/no prompt says yes: it is `y` or `Y`, give or take surrounding
/// whitespace.
pub open spec fn says_yes(response: Seq<char>) -> bool {
    trim_ws(response) == seq!['y'] || trim_ws(response) == seq!['Y']
}

/// Whether the answer typed at a confirmation prompt says yes.
pub fn is_yes(response: &str) -> (r: bool)
    ensures
        r == says_yes(response@),
{
    let cs = chars_of(response);
    let ghost s = cs@;
    let n = cs.len();
    let mut i: usize = 0;
    assert(s.skip(0) =~= s);
    while i < n && is_whitespace_char(cs[i])
        invariant
            i <= n == s.len(),
            s == cs@,
            trim_ws_start(s) == trim_ws_start(s.skip(i as int)),
        decreases n - i,
    {
        assert(s.skip(i as int).drop_first() =~= s.skip(i + 1));
        i = i + 1;
    }
    let ghost front = s.skip(i as int);
    assert(trim_ws_start(front) == front) by {
        if i < n {
            assert(front[0] == s[i as int]);
        } else {
            assert(front.len() == 0);
        }
    }
    let mut j: usize = n;
    while j > i && is_whitespace_char(cs[j - 1])
        invariant
            i <= j <= n == s.len(),
            s == cs@,
            front == s.skip(i as int),
            trim_ws_end(front) == trim_ws_end(s.subrange(i as int, j as int)),
        decreases j - i,
    {
        let ghost t = s.subrange(i as int, j as int);
        assert(t.last() == s[j - 1]);
        assert(t.drop_last() =~= s.subrange(i as int, j - 1));
        j = j - 1;
    }
    let ghost mid = s.subrange(i as int, j as int);
    assert(trim_ws_end(mid) == mid) by {
        if j > i {
            assert(mid.last() == s[j - 1]);
        }
    }
    assert(trim_ws(s) == mid);
    if j - i == 1 {
        assert(mid =~= seq![s[i as int]]);
        cs[i] == 'y' || cs[i] == 'Y'
    } else {
        assert(mid.len() != 1);
        false
    }
}

} // verus!
