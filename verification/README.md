# sift

Hybrid full-text and semantic search over local text content: files are read, chunked into
overlapping word windows and stored in SQLite with an FTS5 index and per-chunk embeddings;
searches run lexically (BM25), semantically (cosine similarity of embeddings) or both, merged
by reciprocal rank fusion and deduplicated to one result per file.

## Layout

- `src/` — the library, written in Verus. Every function carries a contract that Verus proves,
  except the few small wrappers (marked `#[verifier::external_body]`) around calls into std,
  `sha2` and `chrono`, whose contracts are trusted as those libraries document them.
  - `text.rs` — Unicode whitespace, splitting text into words and joining them again.
  - `index/` — binary detection and text decoding, chunking (`read.rs`), SHA-256 checksums,
    change detection and the counters of an indexing run (`mod.rs`), the stored form of an
    embedding (`db.rs`).
  - `search/` — results and modes (`mod.rs`), the order of `f32` scores held by their bits
    (`score.rs`), reciprocal rank fusion, stable sorting and deduplication (`fusion.rs`),
    tokenizing, term frequencies and query expansion (`expand.rs`), decoding embeddings and
    ranking by similarity (`semantic.rs`).
  - `display.rs` — human-readable sizes (exactly as `{:.1}` prints them), timestamps and
    truncation.
  - `config.rs` — `~` expansion and the order in which configuration sources apply.
  - `cli.rs` — the command line as plain values.
  - `tui/` — the interactive interface as state machines: the search view (query editing,
    debounce, results), the indexes view (selection, deletion, pruning) and key handling.
- `app/` — the program around the library: argument parsing, configuration files, SQLite,
  the embedding model, the terminal interface and the floating-point scoring.
- `tests/` — tests of the library.

## Proved properties

Besides each function's contract, `src/` proves laws such as: chunks hold at most 400 words,
consecutive chunks share 50 words and together cover every word; splitting a chunk gives back
its window of words; fusion keeps one entry per chunk and marks chunks found by both searches;
deduplication keeps, for each file, its highest-scoring chunk; sorting by score is stable;
decoding a stored embedding gives back the embedding; the indexing counters stay consistent;
backspace right after typing restores the query and cursor; the cursor never leaves the query
and the selection never leaves the results.
