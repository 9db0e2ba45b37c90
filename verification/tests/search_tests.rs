use sift::index::db::embedding_to_bytes;
use sift::search::expand::{
    compute_tf, expanded_query, expansion_candidates, is_stop_word, query_terms, quote_fts_term,
    tokenize,
};
use sift::search::fusion::{
    best_chunks_per_file, deduplicate_to_files, extract_snippet, rrf_fuse, sort_by_score_desc,
    RRF_CONSTANT,
};
use sift::search::semantic::{embedding_from_bytes, rank_chunks};
use sift::search::{mode_from_flags, ChunkResult, ResultSource, SearchMode, SearchQuery};

fn make_chunk(id: i64, file_id: i64, score: f32, source: ResultSource) -> ChunkResult {
    ChunkResult {
        chunk_id: id,
        file_id,
        file_path: format!("/test/file{}.txt", file_id),
        chunk_seq: 0,
        body: "test body".to_string(),
        score_bits: score.to_bits(),
        source,
    }
}

fn rrf(rank: usize) -> f32 {
    1.0 / (RRF_CONSTANT as f32 + rank as f32 + 1.0)
}

#[test]
fn test_tokenize() {
    let text = "Hello, world! This is a test.";
    let tokens = tokenize(text);
    assert_eq!(tokens, vec!["Hello", "world", "This", "is", "a", "test"]);
}

#[test]
fn tokenize_strips_only_outer_punctuation() {
    assert_eq!(tokenize("--don't-- (x) ... naïve!"), vec!["don't", "x", "naïve"]);
    assert!(tokenize("  !!  ?? ").is_empty());
}

#[test]
fn test_compute_tf() {
    let text = "kubernetes kubernetes istio mesh mesh mesh";
    let tf = compute_tf(text);

    let get = |t: &str| tf.iter().find(|(term, _)| term == t).map(|(_, c)| *c);
    assert_eq!(get("kubernetes"), Some(2));
    assert_eq!(get("istio"), Some(1));
    assert_eq!(get("mesh"), Some(3));
}

#[test]
fn tf_lowercases_and_keeps_first_occurrence_order() {
    let tf = compute_tf("Mesh, mesh. ISTIO mesh");
    assert_eq!(tf, vec![("mesh".to_string(), 3), ("istio".to_string(), 1)]);
}

#[test]
fn expansion_filters_stop_words_short_and_query_terms() {
    let tf = compute_tf("the quick brown fox jumps with the lazy dog kubernetes ab");
    let query = query_terms("Kubernetes Istio");
    assert_eq!(query, vec!["kubernetes", "istio"]);
    let kept: Vec<String> =
        expansion_candidates(tf, &query).into_iter().map(|(t, _)| t).collect();
    assert_eq!(kept, vec!["quick", "brown", "fox", "jumps", "lazy", "dog"]);
    assert!(is_stop_word("with"));
    // length is counted in characters, not bytes
    let tf = compute_tf("éé ééé 日本 東京都");
    let kept: Vec<String> =
        expansion_candidates(tf, &Vec::new()).into_iter().map(|(t, _)| t).collect();
    assert_eq!(kept, vec!["ééé", "東京都"]);
    assert!(!is_stop_word("fox"));
}

#[test]
fn fts_terms_are_quoted() {
    assert_eq!(quote_fts_term("mesh"), "\"mesh\"");
    assert_eq!(quote_fts_term("a\"b"), "\"a\"\"b\"");
    let terms = vec!["service".to_string(), "mesh".to_string()];
    assert_eq!(expanded_query("istio", &terms), "istio \"service\" \"mesh\"");
}

#[test]
fn test_extract_snippet() {
    let text = "one two three four five six seven eight nine ten";
    let snippet = extract_snippet(text, 5);
    assert_eq!(snippet, "one two three four five...");

    let short = "one two three";
    let snippet = extract_snippet(short, 5);
    assert_eq!(snippet, "one two three");
}

#[test]
fn snippet_of_zero_words_is_an_ellipsis() {
    assert_eq!(extract_snippet("a b", 0), "...");
    assert_eq!(extract_snippet("", 0), "");
}

#[test]
fn test_rrf_merge_disjoint() {
    let lex = vec![
        make_chunk(1, 1, 10.0, ResultSource::Lexical),
        make_chunk(2, 2, 9.0, ResultSource::Lexical),
    ];

    let sem = vec![
        make_chunk(3, 3, 0.95, ResultSource::Semantic),
        make_chunk(4, 4, 0.90, ResultSource::Semantic),
    ];

    let merged = rrf_fuse(lex, sem);

    assert_eq!(merged.len(), 4);
    // All should have RRF scores based on their rank
    let first = &merged[0];
    let score = first.lexical_rank.map(rrf).unwrap_or(0.0)
        + first.semantic_ranks.iter().map(|r| rrf(*r)).sum::<f32>();
    assert!(score > 0.0);
}

#[test]
fn test_rrf_merge_overlap() {
    let lex = vec![
        make_chunk(1, 1, 10.0, ResultSource::Lexical),
        make_chunk(2, 2, 9.0, ResultSource::Lexical),
    ];

    let sem = vec![
        make_chunk(1, 1, 0.95, ResultSource::Semantic), // Same chunk
        make_chunk(3, 3, 0.90, ResultSource::Semantic),
    ];

    let merged = rrf_fuse(lex, sem);

    assert_eq!(merged.len(), 3);
    // Chunk 1 should have source=Both and highest score (sum of two RRF contributions)
    let chunk1 = merged.iter().find(|r| r.result.chunk_id == 1).unwrap();
    assert_eq!(chunk1.result.source, ResultSource::Both);
}

#[test]
fn rrf_records_ranks_and_sources() {
    let lex = vec![make_chunk(5, 1, 3.0, ResultSource::Lexical), make_chunk(6, 2, 2.0, ResultSource::Lexical)];
    let sem = vec![make_chunk(7, 3, 0.9, ResultSource::Semantic), make_chunk(6, 2, 0.8, ResultSource::Semantic)];
    let merged = rrf_fuse(lex, sem);
    let ids: Vec<i64> = merged.iter().map(|e| e.result.chunk_id).collect();
    assert_eq!(ids, vec![5, 6, 7]);
    assert_eq!(merged[0].lexical_rank, Some(0));
    assert!(merged[0].semantic_ranks.is_empty());
    assert_eq!(merged[0].result.source, ResultSource::Lexical);
    assert_eq!(merged[1].lexical_rank, Some(1));
    assert_eq!(merged[1].semantic_ranks, vec![1]);
    assert_eq!(merged[1].result.source, ResultSource::Both);
    assert_eq!(merged[2].lexical_rank, None);
    assert_eq!(merged[2].semantic_ranks, vec![0]);
    assert_eq!(merged[2].result.source, ResultSource::Semantic);
}

#[test]
fn test_deduplicate() {
    let chunks = vec![
        make_chunk(1, 1, 0.9, ResultSource::Both),
        make_chunk(2, 1, 0.7, ResultSource::Lexical), // Same file, lower score
        make_chunk(3, 2, 0.8, ResultSource::Semantic),
    ];

    let files = deduplicate_to_files(chunks);

    assert_eq!(files.len(), 2);
    // File 1 should keep chunk 1 (highest score)
    let file1 = files.iter().find(|f| f.file_id == 1).unwrap();
    assert!((f32::from_bits(file1.score_bits) - 0.9).abs() < 1e-6);
}

#[test]
fn dedup_orders_files_by_best_score() {
    let chunks = vec![
        make_chunk(1, 1, 0.2, ResultSource::Lexical),
        make_chunk(2, 2, 0.5, ResultSource::Semantic),
        make_chunk(3, 1, 0.7, ResultSource::Both),
        make_chunk(4, 3, -1.0, ResultSource::Lexical),
    ];
    let files = deduplicate_to_files(chunks);
    let ids: Vec<i64> = files.iter().map(|f| f.file_id).collect();
    assert_eq!(ids, vec![1, 2, 3]);
    assert_eq!(files[0].source, ResultSource::Both);
    assert_eq!(files[0].snippet, "test body");
    assert_eq!(files[0].file_path, "/test/file1.txt");
}

#[test]
fn sort_is_by_score_descending() {
    let v = vec![
        make_chunk(1, 1, 0.1, ResultSource::Lexical),
        make_chunk(2, 1, 3.0, ResultSource::Lexical),
        make_chunk(3, 1, -2.0, ResultSource::Lexical),
        make_chunk(4, 1, 0.0, ResultSource::Lexical),
    ];
    let ids: Vec<i64> = sort_by_score_desc(v).iter().map(|c| c.chunk_id).collect();
    assert_eq!(ids, vec![2, 1, 4, 3]);
}

#[test]
fn ranking_keeps_the_best_limit() {
    let v = vec![
        make_chunk(1, 1, 0.3, ResultSource::Semantic),
        make_chunk(2, 2, 0.9, ResultSource::Semantic),
        make_chunk(3, 3, 0.6, ResultSource::Semantic),
    ];
    let ids: Vec<i64> = rank_chunks(v, 2).iter().map(|c| c.chunk_id).collect();
    assert_eq!(ids, vec![2, 3]);
}

#[test]
fn stored_embeddings_decode_back() {
    let v: Vec<u32> = (0..384u32).map(|i| (i as f32 - 300.25).to_bits()).collect();
    let bytes = embedding_to_bytes(&v).unwrap();
    assert_eq!(embedding_from_bytes(&bytes), v);
    // trailing bytes that do not make a whole component are ignored
    let mut odd = 1.5f32.to_le_bytes().to_vec();
    odd.push(7);
    assert_eq!(embedding_from_bytes(&odd), vec![1.5f32.to_bits()]);
}

#[test]
fn result_source_labels() {
    assert_eq!(ResultSource::Lexical.label(), "[lex]");
    assert_eq!(ResultSource::Semantic.label(), "[sem]");
    assert_eq!(ResultSource::Both.label(), "[lex+sem]");
}

#[test]
fn mode_flags() {
    assert_eq!(mode_from_flags(true, true), SearchMode::LexicalOnly);
    assert_eq!(mode_from_flags(false, true), SearchMode::SemanticOnly);
    assert_eq!(mode_from_flags(false, false), SearchMode::Hybrid);
    let q = SearchQuery::new("mesh".to_string(), 10, SearchMode::Hybrid);
    assert_eq!(q.query, "mesh");
    assert_eq!(q.limit, 10);
    assert_eq!(q.mode, SearchMode::Hybrid);
}

#[test]
fn equal_scores_keep_their_order() {
    let v = vec![
        make_chunk(1, 1, 0.5, ResultSource::Lexical),
        make_chunk(2, 1, 0.9, ResultSource::Lexical),
        make_chunk(3, 1, 0.5, ResultSource::Lexical),
        make_chunk(4, 1, 0.5, ResultSource::Lexical),
        make_chunk(5, 1, 0.9, ResultSource::Lexical),
        make_chunk(6, 1, -0.0, ResultSource::Lexical),
        make_chunk(7, 1, 0.0, ResultSource::Lexical),
    ];
    let ids: Vec<i64> = sort_by_score_desc(v).iter().map(|c| c.chunk_id).collect();
    assert_eq!(ids, vec![2, 5, 1, 3, 4, 6, 7]);
    let v = vec![
        make_chunk(1, 1, 0.5, ResultSource::Semantic),
        make_chunk(2, 2, 0.5, ResultSource::Semantic),
        make_chunk(3, 3, 0.5, ResultSource::Semantic),
    ];
    let ids: Vec<i64> = rank_chunks(v, 2).iter().map(|c| c.chunk_id).collect();
    assert_eq!(ids, vec![1, 2]);
}

#[test]
fn dedup_of_kept_chunks_is_the_same() {
    let chunks = vec![
        make_chunk(1, 1, 0.2, ResultSource::Lexical),
        make_chunk(2, 2, f32::NAN, ResultSource::Semantic),
        make_chunk(3, 1, 0.7, ResultSource::Both),
        make_chunk(4, 2, 0.9, ResultSource::Lexical),
    ];
    let kept = best_chunks_per_file(chunks);
    let ids: Vec<i64> = kept.iter().map(|c| c.chunk_id).collect();
    // a NaN score is never beaten, so file 2 keeps its first chunk
    assert_eq!(ids, vec![3, 2]);
    let again: Vec<i64> = best_chunks_per_file(kept).iter().map(|c| c.chunk_id).collect();
    assert_eq!(again, vec![3, 2]);
}
