//! Turning file contents into text and text into overlapping word chunks.
use vstd::prelude::*;
use vstd::utf8::{decode_utf8, valid_utf8};
use crate::text::{
    all_words, join, lemma_words_are_words, lemma_words_of_join, push_joined, space,
    split_words, words,
};

verus! {

/// Number of words in a full chunk.
pub const CHUNK_SIZE_WORDS: usize = 400;

/// Number of words shared by consecutive chunks.
pub const CHUNK_OVERLAP_WORDS: usize = 50;

/// Distance in words between the starts of consecutive chunks.
pub open spec fn chunk_step() -> int {
    CHUNK_SIZE_WORDS - CHUNK_OVERLAP_WORDS
}

/// Number of chunks for a text of `n` words.
pub open spec fn chunk_count(n: int) -> int {
    if n <= CHUNK_SIZE_WORDS {
        1
    } else {
        (n - CHUNK_SIZE_WORDS + chunk_step() - 1) / chunk_step() + 1
    }
}

/// First word index of chunk `k`.
pub open spec fn window_start(k: int) -> int {
    chunk_step() * k
}

/// One past the last word index of chunk `k` in a text of `n` words.
pub open spec fn window_end(n: int, k: int) -> int {
    if window_start(k) + CHUNK_SIZE_WORDS < n {
        window_start(k) + CHUNK_SIZE_WORDS
    } else {
        n
    }
}

/// The words of chunk `k` of a text with words `ws` (which has more than a chunk's worth).
pub open spec fn window(ws: Seq<Seq<char>>, k: int) -> Seq<Seq<char>> {
    ws.subrange(window_start(k), window_end(ws.len() as int, k))
}

/// What `chunk_text` returns: the whole text when it has at most `CHUNK_SIZE_WORDS` words,
/// otherwise each window of words joined by single spaces.
pub open spec fn spec_chunk_text(text: Seq<char>) -> Seq<Seq<char>> {
    let ws = words(text);
    if ws.len() <= CHUNK_SIZE_WORDS {
        seq![text]
    } else {
        Seq::new(chunk_count(ws.len() as int) as nat, |k: int| join(window(ws, k), space()))
    }
}

proof fn lemma_count_facts(n: int, k: int)
    requires
        n > CHUNK_SIZE_WORDS,
        0 <= k,
    ensures
        (k < chunk_count(n) - 1) <==> window_start(k) + CHUNK_SIZE_WORDS < n,
        window_start(k) + CHUNK_SIZE_WORDS >= n && (k == 0 || window_start(k - 1)
            + CHUNK_SIZE_WORDS < n) ==> k == chunk_count(n) - 1,
        k < chunk_count(n) ==> window_start(k) < n,
{
    assert((k < chunk_count(n) - 1) <==> 350 * k + 400 < n) by (nonlinear_arith)
        requires
            chunk_count(n) == (n - 400 + 349) / 350 + 1,
            n > 400,
            k >= 0,
    ;
    assert(k < chunk_count(n) ==> 350 * k < n) by (nonlinear_arith)
        requires
            chunk_count(n) == (n - 400 + 349) / 350 + 1,
            n > 400,
            k >= 0,
    ;
}

/// Number of leading bytes searched for a NUL byte when deciding whether a file is binary.
pub const BINARY_DETECTION_SIZE: usize = 8192;

/// Whether file contents count as binary: a NUL byte among the first
/// `BINARY_DETECTION_SIZE` bytes.
pub open spec fn is_binary(bytes: Seq<u8>) -> bool {
    exists|i: int| 0 <= i < bytes.len() && i < BINARY_DETECTION_SIZE && #[trigger] bytes[i] == 0
}

/// The characters that `String::from_utf8_lossy` decodes from `bytes`.
pub uninterp spec fn utf8_lossy(bytes: Seq<u8>) -> Seq<char>;

/// `String::from_utf8_lossy`: decodes `bytes`, replacing each invalid sequence with U+FFFD;
/// valid UTF-8 decodes to exactly its characters.
#[verifier::external_body]
fn from_utf8_lossy(bytes: &[u8]) -> (r: String)
    ensures
        r@ == utf8_lossy(bytes@),
        valid_utf8(bytes@) ==> r@ == decode_utf8(bytes@),
{
    String::from_utf8_lossy(bytes).into_owned()
}

/// File contents as text: `None` for a binary file, otherwise the contents decoded as UTF-8
/// with invalid sequences replaced.
pub fn text_from_bytes(bytes: &[u8]) -> (r: Option<String>)
    ensures
        r is None <==> is_binary(bytes@),
        r matches Some(t) ==> t@ == utf8_lossy(bytes@),
        r matches Some(t) ==> valid_utf8(bytes@) ==> t@ == decode_utf8(bytes@),
{
    let check_size = if bytes.len() < BINARY_DETECTION_SIZE {
        bytes.len()
    } else {
        BINARY_DETECTION_SIZE
    };
    let mut i: usize = 0;
    while i < check_size
        invariant
            i <= check_size <= bytes@.len(),
            check_size <= BINARY_DETECTION_SIZE,
            check_size == bytes@.len() || check_size == BINARY_DETECTION_SIZE,
            forall|j: int| 0 <= j < i ==> bytes@[j] != 0,
        decreases check_size - i,
    {
        if bytes[i] == 0 {
            assert(bytes@[i as int] == 0);
            return None;
        }
        i = i + 1;
    }
    Some(from_utf8_lossy(bytes))
}

/// Split text into overlapping chunks by word boundaries.
///
/// Chunks are `CHUNK_SIZE_WORDS` words each, consecutive chunks sharing `CHUNK_OVERLAP_WORDS`
/// words (the last chunk may be shorter). A text of at most `CHUNK_SIZE_WORDS` words is
/// returned whole, as a single chunk.
pub fn chunk_text(text: &str) -> (r: Vec<String>)
    ensures
        r@.len() == spec_chunk_text(text@).len(),
        forall|k: int| 0 <= k < r@.len() ==> (#[trigger] r@[k])@ == spec_chunk_text(text@)[k],
{
    let ws = split_words(text);
    let ghost sw = words(text@);
    let ghost n = sw.len() as int;
    if ws.len() <= CHUNK_SIZE_WORDS {
        let mut r: Vec<String> = Vec::new();
        r.push(text.to_string());
        return r;
    }
    let nw = ws.len();
    let mut chunks: Vec<String> = Vec::new();
    let step = CHUNK_SIZE_WORDS - CHUNK_OVERLAP_WORDS;
    let mut start: usize = 0;
    loop
        invariant_except_break
            start == window_start(chunks@.len() as int),
            start < nw,
            chunks@.len() < chunk_count(n),
        invariant
            nw == ws@.len() == n == sw.len(),
            n > CHUNK_SIZE_WORDS,
            step == chunk_step(),
            forall|j: int| 0 <= j < ws@.len() ==> (#[trigger] ws@[j])@ == sw[j],
            sw == words(text@),
            forall|j: int|
                0 <= j < chunks@.len() ==> (#[trigger] chunks@[j])@ == join(window(sw, j), space()),
        ensures
            chunks@.len() == chunk_count(n),
            forall|j: int|
                0 <= j < chunks@.len() ==> (#[trigger] chunks@[j])@ == join(window(sw, j), space()),
        decreases nw - start,
    {
        let ghost k = chunks@.len() as int;
        let end = if nw - start > CHUNK_SIZE_WORDS {
            start + CHUNK_SIZE_WORDS
        } else {
            nw
        };
        proof {
            lemma_count_facts(n, k);
            lemma_count_facts(n, k + 1);
            if k > 0 {
                lemma_count_facts(n, k - 1);
            }
        }
        let mut chunk = String::new();
        push_joined(&mut chunk, &ws, start, end);
        assert(window_start(k) == start);
        assert(window_end(n, k) == end);
        assert(window(sw, k).len() == end - start);
        let ghost mapped = ws@.subrange(start as int, end as int).map_values(|w: Vec<char>| w@);
        assert forall|i: int| 0 <= i < end - start implies #[trigger] mapped[i] == window(
            sw,
            k,
        )[i] by {
            assert(ws@[start + i]@ == sw[start + i]);
        }
        assert(mapped =~= window(sw, k));
        assert(chunk@ =~= join(window(sw, k), space()));
        chunks.push(chunk);
        assert(chunks@[k] == chunk);
        if end == nw {
            break;
        }
        start = start + step;
    }
    proof {
        let cnt = chunk_count(n);
        assert(spec_chunk_text(text@).len() == cnt);
    }
    chunks
}

/// Each chunk of a long text holds between one and `CHUNK_SIZE_WORDS` words, and every chunk
/// but the last holds exactly `CHUNK_SIZE_WORDS`.
pub proof fn lemma_chunk_sizes(ws: Seq<Seq<char>>, k: int)
    requires
        ws.len() > CHUNK_SIZE_WORDS,
        0 <= k < chunk_count(ws.len() as int),
    ensures
        1 <= window(ws, k).len() <= CHUNK_SIZE_WORDS,
        k < chunk_count(ws.len() as int) - 1 ==> window(ws, k).len() == CHUNK_SIZE_WORDS,
{
    lemma_count_facts(ws.len() as int, k);
}

/// Consecutive chunks overlap: the last `CHUNK_OVERLAP_WORDS` words of a chunk are the first
/// `CHUNK_OVERLAP_WORDS` words of the next one.
pub proof fn lemma_chunk_overlap(ws: Seq<Seq<char>>, k: int)
    requires
        ws.len() > CHUNK_SIZE_WORDS,
        0 <= k,
        k + 1 < chunk_count(ws.len() as int),
    ensures
        window(ws, k).subrange(chunk_step(), CHUNK_SIZE_WORDS as int) == window(ws, k + 1).subrange(
            0,
            CHUNK_OVERLAP_WORDS as int,
        ),
{
    let n = ws.len() as int;
    lemma_count_facts(n, k);
    lemma_count_facts(n, k + 1);
    assert(window_end(n, k + 1) >= window_start(k + 1) + CHUNK_OVERLAP_WORDS);
    assert(window(ws, k).subrange(chunk_step(), CHUNK_SIZE_WORDS as int) =~= window(
        ws,
        k + 1,
    ).subrange(0, CHUNK_OVERLAP_WORDS as int));
}

/// The chunks cover the text: the first starts at the first word, the last ends at the last
/// word, and every word lies in some chunk.
pub proof fn lemma_chunk_cover(ws: Seq<Seq<char>>, i: int)
    requires
        ws.len() > CHUNK_SIZE_WORDS,
        0 <= i < ws.len(),
    ensures
        window_start(0) == 0,
        window_end(ws.len() as int, chunk_count(ws.len() as int) - 1) == ws.len(),
        exists|k: int|
            0 <= k < chunk_count(ws.len() as int) && #[trigger] window_start(k) <= i < window_end(
                ws.len() as int,
                k,
            ),
{
    let n = ws.len() as int;
    let last = chunk_count(n) - 1;
    lemma_count_facts(n, last);
    let q = i / chunk_step();
    assert(350 * q <= i < 350 * q + 350) by (nonlinear_arith)
        requires
            q == i / 350,
            i >= 0,
    ;
    let k = if q < last {
        q
    } else {
        last
    };
    lemma_count_facts(n, k);
    if q >= last {
        assert(350 * q >= 350 * last) by (nonlinear_arith)
            requires
                q >= last,
        ;
    }
    assert(window_start(k) <= i < window_end(n, k));
}

/// Splitting a chunk of a long text into words gives back exactly the words of its window.
pub proof fn lemma_chunk_words(text: Seq<char>, k: int)
    requires
        words(text).len() > CHUNK_SIZE_WORDS,
        0 <= k < chunk_count(words(text).len() as int),
    ensures
        words(spec_chunk_text(text)[k]) == window(words(text), k),
{
    let ws = words(text);
    lemma_words_are_words(text);
    let w = window(ws, k);
    lemma_count_facts(ws.len() as int, k);
    assert(all_words(w)) by {
        assert forall|i: int| 0 <= i < w.len() implies (#[trigger] w[i]).len() > 0
            && crate::text::no_ws(w[i]) by {
            assert(w[i] == ws[window_start(k) + i]);
        }
    }
    lemma_words_of_join(w);
}

} // verus!
