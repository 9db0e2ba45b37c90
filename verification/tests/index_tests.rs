use sift::cli::is_yes;
use sift::index::db::{embedding_to_bytes, EmbeddingError, STORED_EMBEDDING_DIM};
use sift::index::read::{chunk_text, text_from_bytes, CHUNK_OVERLAP_WORDS, CHUNK_SIZE_WORDS};
use sift::index::{classify_change, compute_checksum, path_to_string, FileIndexResult, IndexStats};

#[test]
fn test_chunk_text_empty() {
    let chunks = chunk_text("");
    assert_eq!(chunks.len(), 1);
    assert_eq!(chunks[0], "");
}

#[test]
fn test_chunk_text_small() {
    let text = "word ".repeat(100);
    let chunks = chunk_text(&text);
    assert_eq!(chunks.len(), 1);
}

#[test]
fn test_chunk_text_exact_boundary() {
    let text = "word ".repeat(CHUNK_SIZE_WORDS);
    let chunks = chunk_text(&text);
    assert_eq!(chunks.len(), 1);
}

#[test]
fn test_chunk_text_multiple_chunks() {
    let text = "word ".repeat(600);
    let chunks = chunk_text(&text);
    assert!(chunks.len() > 1);

    // Verify overlap exists between consecutive chunks
    if chunks.len() >= 2 {
        let first_words: Vec<&str> = chunks[0].split_whitespace().collect();
        let second_words: Vec<&str> = chunks[1].split_whitespace().collect();
        let overlap_start = &first_words[first_words.len() - CHUNK_OVERLAP_WORDS..];
        let second_start = &second_words[..CHUNK_OVERLAP_WORDS.min(second_words.len())];
        assert_eq!(overlap_start, second_start);
    }
}

#[test]
fn test_chunk_text_preserves_word_boundaries() {
    let text = "one two three four five";
    let chunks = chunk_text(text);
    assert_eq!(chunks.len(), 1);
    assert!(chunks[0].contains("one two three four five"));
}

#[test]
fn test_chunking_edge_cases() {
    // Empty text
    let chunks = chunk_text("");
    assert_eq!(chunks.len(), 1);

    // Small text (less than chunk size)
    let small_text = "word ".repeat(100);
    let chunks = chunk_text(&small_text);
    assert_eq!(chunks.len(), 1);

    // Text exactly at chunk boundary
    let boundary_text = "word ".repeat(400);
    let chunks = chunk_text(&boundary_text);
    assert_eq!(chunks.len(), 1);

    // Large text requiring multiple chunks
    let large_text = "word ".repeat(1000);
    let chunks = chunk_text(&large_text);
    assert!(chunks.len() > 1, "Large text should produce multiple chunks");
}

fn numbered_words(n: usize) -> String {
    (0..n).map(|i| format!("w{}", i)).collect::<Vec<_>>().join("\n ")
}

#[test]
fn chunk_windows_have_exact_sizes_and_overlap() {
    // 1000 words: windows start at 0, 350, 700; the last one holds the final 300 words.
    let text = numbered_words(1000);
    let chunks = chunk_text(&text);
    assert_eq!(chunks.len(), 3);
    let sizes: Vec<usize> = chunks.iter().map(|c| c.split_whitespace().count()).collect();
    assert_eq!(sizes, vec![400, 400, 300]);
    assert!(chunks[0].starts_with("w0 w1 w2"));
    assert!(chunks[1].starts_with("w350 w351"));
    assert!(chunks[2].starts_with("w700 "));
    assert!(chunks[2].ends_with("w999"));
    for k in 0..chunks.len() - 1 {
        let a: Vec<&str> = chunks[k].split_whitespace().collect();
        let b: Vec<&str> = chunks[k + 1].split_whitespace().collect();
        assert_eq!(&a[a.len() - CHUNK_OVERLAP_WORDS..], &b[..CHUNK_OVERLAP_WORDS]);
    }
}

#[test]
fn chunks_join_words_with_single_spaces() {
    let text = numbered_words(401);
    let chunks = chunk_text(&text);
    assert_eq!(chunks.len(), 2);
    assert!(!chunks[0].contains('\n'));
    assert!(!chunks[0].contains("  "));
    assert_eq!(chunks[1].split_whitespace().count(), 51);
}

#[test]
fn short_text_is_kept_verbatim() {
    let text = "  spaced\tout\n text  ";
    let chunks = chunk_text(text);
    assert_eq!(chunks, vec![text.to_string()]);
}

#[test]
fn every_word_lands_in_a_chunk() {
    let text = numbered_words(777);
    let chunks = chunk_text(&text);
    for i in 0..777 {
        let w = format!("w{}", i);
        assert!(chunks.iter().any(|c| c.split_whitespace().any(|x| x == w)), "{} missing", w);
    }
}

#[test]
fn binary_detection_looks_at_leading_bytes() {
    assert_eq!(text_from_bytes(b"hello"), Some("hello".to_string()));
    assert_eq!(text_from_bytes(b""), Some(String::new()));
    assert_eq!(text_from_bytes(b"a\0b"), None);
    let mut late = vec![b'a'; 8192];
    late.push(0);
    assert!(text_from_bytes(&late).is_some());
    let mut edge = vec![b'a'; 8191];
    edge.push(0);
    assert_eq!(text_from_bytes(&edge), None);
}

#[test]
fn invalid_utf8_is_replaced() {
    let bytes = [b'a', 0xff, b'b'];
    assert_eq!(text_from_bytes(&bytes), Some("a\u{FFFD}b".to_string()));
    assert_eq!(text_from_bytes("héllo".as_bytes()), Some("héllo".to_string()));
}

#[test]
fn checksum_is_sha256_hex() {
    assert_eq!(
        compute_checksum(""),
        "e3b0c44298fc1c149afbf4c8996fb92427ae41e4649b934ca495991b7852b855"
    );
    assert_eq!(
        compute_checksum("abc"),
        "ba7816bf8f01cfea414140de5dae2223b00361a396177a9cb410ff61f20015ad"
    );
    assert_eq!(compute_checksum("hello world").len(), 64);
}

#[test]
fn change_classification() {
    let sum = compute_checksum("contents");
    assert_eq!(classify_change(None, &sum), FileIndexResult::Added);
    assert_eq!(classify_change(Some(sum.as_str()), &sum), FileIndexResult::Skipped);
    let other = compute_checksum("other contents");
    assert_eq!(classify_change(Some(other.as_str()), &sum), FileIndexResult::Updated);
}

#[test]
fn stats_count_each_outcome() {
    let mut stats = IndexStats::default();
    stats.record(FileIndexResult::Added);
    stats.record(FileIndexResult::Added);
    stats.record(FileIndexResult::Updated);
    stats.record(FileIndexResult::Skipped);
    stats.record_failure();
    assert_eq!(stats.scanned, 4);
    assert_eq!(stats.added, 2);
    assert_eq!(stats.updated, 1);
    assert_eq!(stats.skipped, 1);
    assert_eq!(stats.failed, 1);
    assert_eq!(stats.scanned, stats.added + stats.updated + stats.skipped);
}

#[test]
fn paths_must_be_utf8() {
    assert_eq!(path_to_string(b"/tmp/notes.md"), Some("/tmp/notes.md".to_string()));
    assert_eq!(path_to_string(&[b'/', 0xff]), None);
}

#[test]
fn embeddings_are_stored_little_endian() {
    let v: Vec<u32> = (0..STORED_EMBEDDING_DIM as u32).map(|i| (i as f32 * 0.5).to_bits()).collect();
    let bytes = embedding_to_bytes(&v).unwrap();
    let expected: Vec<u8> = v.iter().flat_map(|b| f32::from_bits(*b).to_le_bytes()).collect();
    assert_eq!(bytes, expected);
    assert_eq!(bytes.len(), 4 * STORED_EMBEDDING_DIM);
}

#[test]
fn embeddings_of_other_dimensions_are_refused() {
    let v = vec![1.0f32.to_bits(); 768];
    assert_eq!(
        embedding_to_bytes(&v),
        Err(EmbeddingError::InvalidDimension { expected: 384, got: 768 })
    );
    assert!(embedding_to_bytes(&[]).is_err());
}

#[test]
fn confirmation_answers() {
    assert!(is_yes("y\n"));
    assert!(is_yes("  Y  "));
    assert!(!is_yes("yes\n"));
    assert!(!is_yes("n"));
    assert!(!is_yes(""));
    assert!(!is_yes(" \n"));
    assert!(!is_yes("y y"));
}
