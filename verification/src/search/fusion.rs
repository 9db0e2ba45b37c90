//! Combining ranked result lists (reciprocal rank fusion), ordering by score, and
//! deduplicating chunk results to files.
use vstd::prelude::*;
use vstd::multiset::Multiset;
use crate::search::{ChunkResult, FileResult, ResultSource};
use crate::search::score::{is_nan, key_at_least, order_key, score_greater, score_gt};
use crate::text::{join, push_joined, space, split_words, words};

verus! {

broadcast use vstd::multiset::group_multiset_axioms;

/// Number of words kept in a file result's snippet.
pub const SNIPPET_WORDS: usize = 150;

/// The RRF constant `k` in `1 / (k + rank)`.
pub const RRF_CONSTANT: u32 = 60;

pub open spec fn ellipsis() -> Seq<char> {
    seq!['.', '.', '.']
}

/// What `extract_snippet` returns: the text itself when it has at most `max_length` words,
/// otherwise its first `max_length` words joined by single spaces, followed by `...`.
pub open spec fn spec_snippet(text: Seq<char>, max_length: int) -> Seq<char> {
    if words(text).len() <= max_length {
        text
    } else {
        join(words(text).take(max_length), space()) + ellipsis()
    }
}

/// Extract a snippet from text, truncating to `max_length` words.
pub fn extract_snippet(text: &str, max_length: usize) -> (r: String)
    ensures
        r@ == spec_snippet(text@, max_length as int),
{
    let ws = split_words(text);
    if ws.len() <= max_length {
        return text.to_string();
    }
    let mut r = String::new();
    if max_length > 0 {
        push_joined(&mut r, &ws, 0, max_length);
        assert(ws@.subrange(0, max_length as int).map_values(|w: Vec<char>| w@) =~= words(
            text@,
        ).take(max_length as int));
    } else {
        assert(words(text@).take(0) =~= Seq::<Seq<char>>::empty());
    }
    let ghost before = r@;
    crate::text::push_char(&mut r, '.');
    crate::text::push_char(&mut r, '.');
    crate::text::push_char(&mut r, '.');
    assert(r@ =~= before + ellipsis());
    r
}

/// Something with an `f32` score held by its bits.
pub trait Scored {
    spec fn score_of(&self) -> u32;

    fn score(&self) -> (r: u32)
        ensures
            r == self.score_of(),
    ;
}

impl Scored for ChunkResult {
    open spec fn score_of(&self) -> u32 {
        self.score_bits
    }

    fn score(&self) -> (r: u32) {
        self.score_bits
    }
}

impl Scored for FileResult {
    open spec fn score_of(&self) -> u32 {
        self.score_bits
    }

    fn score(&self) -> (r: u32) {
        self.score_bits
    }
}

/// Ordered by score, highest first.
pub open spec fn sorted_desc<T: Scored>(s: Seq<T>) -> bool {
    forall|i: int, j: int|
        0 <= i < j < s.len() ==> order_key(#[trigger] s[i].score_of()) >= order_key(
            #[trigger] s[j].score_of(),
        )
}

/// No element has a NaN score.
pub open spec fn no_nan<T: Scored>(s: Seq<T>) -> bool {
    forall|i: int| 0 <= i < s.len() ==> !is_nan(#[trigger] s[i].score_of())
}

/// `p` shows `r` to be `orig` reordered, with elements of equal score in their original
/// relative order: `r[k]` is `orig[p[k]]`, no index is used twice, and of two elements of
/// equal score the earlier in `r` is the earlier in `orig`.
pub open spec fn stable_reordering<T: Scored>(p: Seq<int>, r: Seq<T>, orig: Seq<T>) -> bool {
    &&& p.len() == r.len() == orig.len()
    &&& forall|k: int| 0 <= k < r.len() ==> 0 <= #[trigger] p[k] < orig.len() && r[k] == orig[p[k]]
    &&& forall|k1: int, k2: int|
        0 <= k1 < k2 < r.len() ==> #[trigger] p[k1] != #[trigger] p[k2]
    &&& forall|k1: int, k2: int|
        0 <= k1 < k2 < r.len() && order_key(#[trigger] r[k1].score_of()) == order_key(
            #[trigger] r[k2].score_of(),
        ) ==> p[k1] < p[k2]
}

/// `r` is `orig` sorted by score, highest first, by a stable sort.
pub open spec fn stable_sorted_desc<T: Scored>(r: Seq<T>, orig: Seq<T>) -> bool {
    &&& sorted_desc(r)
    &&& exists|p: Seq<int>| stable_reordering(p, r, orig)
}

/// Sort by score, highest first (`sort_by(|a, b| b.score.partial_cmp(&a.score).unwrap())`).
/// Elements of equal score keep their relative order.
pub fn sort_by_score_desc<T: Scored>(v: Vec<T>) -> (r: Vec<T>)
    requires
        v@.len() < 2 || no_nan(v@),
    ensures
        r@.to_multiset() == v@.to_multiset(),
        sorted_desc(r@),
        stable_sorted_desc(r@, v@),
{
    let ghost orig = v@;
    let ghost n = orig.len() as int;
    let mut rest = v;
    let mut out: Vec<T> = Vec::new();
    let ghost mut p: Seq<int> = Seq::empty();
    proof {
        broadcast use vstd::seq_lib::group_to_multiset_ensures;

        assert(out@.to_multiset() =~= Multiset::<T>::empty());
        assert(rest@ =~= orig.take(n));
    }
    while rest.len() > 0
        invariant
            rest@.to_multiset().add(out@.to_multiset()) == orig.to_multiset(),
            sorted_desc(out@),
            n == orig.len(),
            rest@ == orig.take(rest@.len() as int),
            out@.len() + rest@.len() == n,
            p.len() == out@.len(),
            forall|k: int|
                0 <= k < out@.len() ==> rest@.len() <= #[trigger] p[k] < n && out@[k] == orig[p[k]],
            forall|k1: int, k2: int|
                0 <= k1 < k2 < out@.len() ==> #[trigger] p[k1] != #[trigger] p[k2],
            forall|k1: int, k2: int|
                0 <= k1 < k2 < out@.len() && order_key(#[trigger] out@[k1].score_of()) == order_key(
                    #[trigger] out@[k2].score_of(),
                ) ==> p[k1] < p[k2],
        decreases rest@.len(),
    {
        let ghost before = rest@;
        let x = rest.pop().unwrap();
        let ghost m = rest@.len() as int;
        proof {
            assert(before =~= rest@.push(x));
            vstd::seq_lib::to_multiset_build(rest@, x);
            assert(rest@ =~= orig.take(m));
            assert(x == orig[m]);
        }
        let xs = x.score();
        let mut pos: usize = 0;
        while pos < out.len() && !key_at_least(xs, out[pos].score())
            invariant
                pos <= out@.len(),
                forall|i: int| 0 <= i < pos ==> order_key(#[trigger] out@[i].score_of()) > order_key(
                    xs,
                ),
            decreases out@.len() - pos,
        {
            pos = pos + 1;
        }
        let ghost prev = out@;
        let ghost pp = p;
        out.insert(pos, x);
        proof {
            p = pp.insert(pos as int, m);
            vstd::seq_lib::to_multiset_insert(prev, pos as int, x);
            assert(out@ == prev.insert(pos as int, x));
            assert forall|k: int| 0 <= k < out@.len() implies m <= #[trigger] p[k] < n && out@[k]
                == orig[p[k]] by {
                if k < pos {
                    assert(p[k] == pp[k] && out@[k] == prev[k]);
                } else if k > pos {
                    assert(p[k] == pp[k - 1] && out@[k] == prev[k - 1]);
                }
            }
            assert forall|k1: int, k2: int| 0 <= k1 < k2 < out@.len() implies #[trigger] p[k1]
                != #[trigger] p[k2] by {
                if k1 != pos && k2 != pos {
                    let a = if k1 < pos { k1 } else { k1 - 1 };
                    let b = if k2 < pos { k2 } else { k2 - 1 };
                    assert(p[k1] == pp[a] && p[k2] == pp[b]);
                } else if k1 == pos {
                    assert(p[k2] == pp[k2 - 1]);
                } else {
                    assert(p[k1] == pp[k1]);
                }
            }
            assert forall|k1: int, k2: int|
                0 <= k1 < k2 < out@.len() && order_key(#[trigger] out@[k1].score_of()) == order_key(
                    #[trigger] out@[k2].score_of(),
                ) implies p[k1] < p[k2] by {
                if k1 != pos && k2 != pos {
                    let a = if k1 < pos { k1 } else { k1 - 1 };
                    let b = if k2 < pos { k2 } else { k2 - 1 };
                    assert(p[k1] == pp[a] && p[k2] == pp[b]);
                    assert(out@[k1] == prev[a] && out@[k2] == prev[b]);
                } else if k1 == pos {
                    assert(p[k2] == pp[k2 - 1]);
                } else {
                    assert(out@[k1] == prev[k1]);
                    assert(order_key(prev[k1].score_of()) > order_key(xs));
                }
            }
            assert forall|i: int, j: int| 0 <= i < j < out@.len() implies order_key(
                #[trigger] out@[i].score_of(),
            ) >= order_key(#[trigger] out@[j].score_of()) by {
                if j < pos {
                    assert(out@[i] == prev[i] && out@[j] == prev[j]);
                } else if j == pos {
                    assert(out@[i] == prev[i]);
                } else if i == pos {
                    assert(out@[j] == prev[j - 1]);
                    assert(order_key(prev[pos as int].score_of()) <= order_key(xs));
                    if j - 1 > pos {
                        assert(order_key(prev[pos as int].score_of()) >= order_key(
                            prev[j - 1].score_of(),
                        ));
                    }
                } else if i < pos {
                    assert(out@[i] == prev[i] && out@[j] == prev[j - 1]);
                } else {
                    assert(out@[i] == prev[i - 1] && out@[j] == prev[j - 1]);
                }
            }
        }
    }
    proof {
        broadcast use vstd::seq_lib::group_to_multiset_ensures;

        assert(rest@.to_multiset().len() == 0);
        assert(rest@.to_multiset() =~= Multiset::<T>::empty());
        assert(stable_reordering(p, out@, orig));
    }
    out
}

/// Index of the first element of `s` for file `fid`.
pub open spec fn file_index(s: Seq<ChunkResult>, fid: i64) -> Option<int>
    decreases s.len(),
{
    if s.len() == 0 {
        None
    } else {
        match file_index(s.drop_last(), fid) {
            Some(j) => Some(j),
            None => if s.last().file_id == fid {
                Some(s.len() - 1)
            } else {
                None
            },
        }
    }
}

/// The chunk kept for each file, in the order files first appear: the first chunk of the
/// file, replaced by any later chunk of the file whose score is strictly greater.
pub open spec fn best_per_file(cs: Seq<ChunkResult>) -> Seq<ChunkResult>
    decreases cs.len(),
{
    if cs.len() == 0 {
        Seq::empty()
    } else {
        let acc = best_per_file(cs.drop_last());
        let c = cs.last();
        match file_index(acc, c.file_id) {
            Some(j) => if score_gt(c.score_bits, acc[j].score_bits) {
                acc.update(j, c)
            } else {
                acc
            },
            None => acc.push(c),
        }
    }
}

/// The abstract value of a file result.
pub struct FileResultView {
    pub file_id: i64,
    pub file_path: Seq<char>,
    pub score_bits: u32,
    pub snippet: Seq<char>,
    pub source: ResultSource,
}

impl View for FileResult {
    type V = FileResultView;

    open spec fn view(&self) -> FileResultView {
        FileResultView {
            file_id: self.file_id,
            file_path: self.file_path@,
            score_bits: self.score_bits,
            snippet: self.snippet@,
            source: self.source,
        }
    }
}

/// The file result made from the chunk kept for a file: its file, score and source, and a
/// snippet of its body.
pub open spec fn file_view(c: ChunkResult) -> FileResultView {
    FileResultView {
        file_id: c.file_id,
        file_path: c.file_path@,
        score_bits: c.score_bits,
        snippet: spec_snippet(c.body@, SNIPPET_WORDS as int),
        source: c.source,
    }
}

proof fn lemma_file_index(s: Seq<ChunkResult>, fid: i64)
    ensures
        file_index(s, fid) matches Some(j) ==> 0 <= j < s.len() && s[j].file_id == fid && forall|
            i: int,
        | 0 <= i < j ==> s[i].file_id != fid,
        file_index(s, fid) is None ==> forall|i: int| 0 <= i < s.len() ==> s[i].file_id != fid,
    decreases s.len(),
{
    if s.len() > 0 {
        lemma_file_index(s.drop_last(), fid);
        assert forall|i: int| 0 <= i < s.len() - 1 implies s[i] == s.drop_last()[i] by {}
    }
}

/// Position of file `fid` in `acc`, by a scan.
fn find_file(acc: &Vec<ChunkResult>, fid: i64) -> (r: Option<usize>)
    ensures
        r matches Some(j) ==> j < acc@.len() && file_index(acc@, fid) == Some(j as int),
        r is None ==> file_index(acc@, fid) is None,
{
    proof {
        lemma_file_index(acc@, fid);
    }
    let mut i: usize = 0;
    while i < acc.len()
        invariant
            i <= acc@.len(),
            forall|k: int| 0 <= k < i ==> acc@[k].file_id != fid,
            file_index(acc@, fid) matches Some(j) ==> 0 <= j < acc@.len() && acc@[j].file_id
                == fid && forall|k: int| 0 <= k < j ==> acc@[k].file_id != fid,
            file_index(acc@, fid) is None ==> forall|k: int|
                0 <= k < acc@.len() ==> acc@[k].file_id != fid,
        decreases acc@.len() - i,
    {
        if acc[i].file_id == fid {
            return Some(i);
        }
        i = i + 1;
    }
    None
}

/// Keep, for each file, its best chunk (see `best_per_file`), in order of first appearance.
pub fn best_chunks_per_file(chunk_results: Vec<ChunkResult>) -> (r: Vec<ChunkResult>)
    ensures
        r@ == best_per_file(chunk_results@),
{
    let mut acc: Vec<ChunkResult> = Vec::new();
    let ghost input = chunk_results@;
    for c in it: chunk_results.into_iter()
        invariant
            input == it.seq(),
            acc@ == best_per_file(it.seq().take(it.index() as int)),
    {
        let ghost k = it.index() as int;
        proof {
            assert(it.seq().take(k + 1).drop_last() =~= it.seq().take(k));
            assert(it.seq().take(k + 1).last() == c);
        }
        match find_file(&acc, c.file_id) {
            Some(j) => {
                if score_greater(c.score_bits, acc[j].score_bits) {
                    acc.set(j, c);
                }
            },
            None => {
                acc.push(c);
            },
        }
    }
    proof {
        assert(input.take(input.len() as int) =~= input);
    }
    acc
}

/// Deduplicate chunk results to file level, keeping the highest-scoring chunk per file,
/// ordered by score, highest first.
pub fn deduplicate_to_files(chunk_results: Vec<ChunkResult>) -> (r: Vec<FileResult>)
    requires
        best_per_file(chunk_results@).len() < 2 || no_nan(best_per_file(chunk_results@)),
    ensures
        sorted_desc(r@),
        exists|ss: Seq<ChunkResult>|
            #![trigger ss.to_multiset()]
            {
                &&& ss.to_multiset() == best_per_file(chunk_results@).to_multiset()
                &&& ss.len() == r@.len()
                &&& forall|k: int| 0 <= k < r@.len() ==> (#[trigger] r@[k])@ == file_view(ss[k])
            },
{
    let ghost bpf = best_per_file(chunk_results@);
    let best = best_chunks_per_file(chunk_results);
    let sorted = sort_by_score_desc(best);
    let ghost ss = sorted@;
    assert(sorted_desc(ss));
    let mut r: Vec<FileResult> = Vec::new();
    for c in it: sorted.into_iter()
        invariant
            it.seq() == ss,
            r@.len() == it.index(),
            forall|k: int| 0 <= k < r@.len() ==> (#[trigger] r@[k])@ == file_view(ss[k]),
    {
        let snippet = extract_snippet(c.body.as_str(), SNIPPET_WORDS);
        r.push(
            FileResult {
                file_id: c.file_id,
                file_path: c.file_path,
                score_bits: c.score_bits,
                snippet,
                source: c.source,
            },
        );
    }
    proof {
        assert forall|i: int, j: int| 0 <= i < j < r@.len() implies order_key(
            #[trigger] r@[i].score_of(),
        ) >= order_key(#[trigger] r@[j].score_of()) by {
            assert(r@[i].score_bits == ss[i].score_bits);
            assert(r@[j].score_bits == ss[j].score_bits);
            assert(order_key(ss[i].score_of()) >= order_key(ss[j].score_of()));
        }
        assert(ss.to_multiset() == bpf.to_multiset());
    }
    r
}

/// A chunk of the fused ranking with the ranks (0-based) at which it was found.
pub struct RrfEntry {
    pub result: ChunkResult,
    pub lexical_rank: Option<usize>,
    pub semantic_ranks: Vec<usize>,
}

/// The abstract value of a fused entry.
pub struct RrfEntryView {
    pub result: ChunkResult,
    pub lexical_rank: Option<usize>,
    pub semantic_ranks: Seq<usize>,
}

impl View for RrfEntry {
    type V = RrfEntryView;

    open spec fn view(&self) -> RrfEntryView {
        RrfEntryView {
            result: self.result,
            lexical_rank: self.lexical_rank,
            semantic_ranks: self.semantic_ranks@,
        }
    }
}

/// Index of the entry for chunk `id`.
pub open spec fn entry_index(s: Seq<RrfEntryView>, id: i64) -> Option<int>
    decreases s.len(),
{
    if s.len() == 0 {
        None
    } else {
        match entry_index(s.drop_last(), id) {
            Some(j) => Some(j),
            None => if s.last().result.chunk_id == id {
                Some(s.len() - 1)
            } else {
                None
            },
        }
    }
}

/// Entries after the lexical list: one per chunk in order of first appearance; a chunk
/// listed again takes the later result and rank.
pub open spec fn fuse_lexical(lex: Seq<ChunkResult>) -> Seq<RrfEntryView>
    decreases lex.len(),
{
    if lex.len() == 0 {
        Seq::empty()
    } else {
        let acc = fuse_lexical(lex.drop_last());
        let c = lex.last();
        let e = RrfEntryView {
            result: c,
            lexical_rank: Some((lex.len() - 1) as usize),
            semantic_ranks: Seq::empty(),
        };
        match entry_index(acc, c.chunk_id) {
            Some(j) => acc.update(j, e),
            None => acc.push(e),
        }
    }
}

/// Entries after the semantic list: a chunk already present gains the semantic rank;
/// a new chunk is added with it.
pub open spec fn fuse_semantic(acc0: Seq<RrfEntryView>, sem: Seq<ChunkResult>) -> Seq<
    RrfEntryView,
>
    decreases sem.len(),
{
    if sem.len() == 0 {
        acc0
    } else {
        let acc = fuse_semantic(acc0, sem.drop_last());
        let c = sem.last();
        let r = (sem.len() - 1) as usize;
        match entry_index(acc, c.chunk_id) {
            Some(j) => acc.update(
                j,
                RrfEntryView { semantic_ranks: acc[j].semantic_ranks.push(r), ..acc[j] },
            ),
            None => acc.push(
                RrfEntryView { result: c, lexical_rank: None, semantic_ranks: seq![r] },
            ),
        }
    }
}

/// The source of a fused entry: lexical when only the lexical list had it, semantic when
/// only the semantic list had it once, both otherwise.
pub open spec fn source_of(e: RrfEntryView) -> ResultSource {
    if e.semantic_ranks.len() == 0 {
        ResultSource::Lexical
    } else if e.lexical_rank is None && e.semantic_ranks.len() == 1 {
        ResultSource::Semantic
    } else {
        ResultSource::Both
    }
}

/// The fused entries of two ranked lists, with their sources set.
pub open spec fn spec_fuse(lex: Seq<ChunkResult>, sem: Seq<ChunkResult>) -> Seq<RrfEntryView> {
    fuse_semantic(fuse_lexical(lex), sem).map_values(
        |e: RrfEntryView| RrfEntryView { result: ChunkResult { source: source_of(e), ..e.result }, ..e },
    )
}

proof fn lemma_entry_index(s: Seq<RrfEntryView>, id: i64)
    ensures
        entry_index(s, id) matches Some(j) ==> 0 <= j < s.len() && s[j].result.chunk_id == id,
        entry_index(s, id) is None ==> forall|i: int|
            0 <= i < s.len() ==> s[i].result.chunk_id != id,
    decreases s.len(),
{
    if s.len() > 0 {
        lemma_entry_index(s.drop_last(), id);
        assert forall|i: int| 0 <= i < s.len() - 1 implies s[i] == s.drop_last()[i] by {}
    }
}

fn find_entry(acc: &Vec<RrfEntry>, id: i64) -> (r: Option<usize>)
    ensures
        r matches Some(j) ==> j < acc@.len() && entry_index(acc@.map_values(|e: RrfEntry| e@), id)
            == Some(j as int),
        r is None ==> entry_index(acc@.map_values(|e: RrfEntry| e@), id) is None,
{
    let ghost s = acc@.map_values(|e: RrfEntry| e@);
    proof {
        lemma_entry_index_first(s, id);
    }
    let mut i: usize = 0;
    while i < acc.len()
        invariant
            i <= acc@.len(),
            s == acc@.map_values(|e: RrfEntry| e@),
            forall|k: int| 0 <= k < i ==> s[k].result.chunk_id != id,
            entry_index(s, id) matches Some(j) ==> 0 <= j < s.len() && s[j].result.chunk_id == id
                && forall|k: int| 0 <= k < j ==> s[k].result.chunk_id != id,
            entry_index(s, id) is None ==> forall|k: int|
                0 <= k < s.len() ==> s[k].result.chunk_id != id,
        decreases acc@.len() - i,
    {
        if acc[i].result.chunk_id == id {
            assert(s[i as int].result.chunk_id == id);
            return Some(i);
        }
        i = i + 1;
    }
    None
}

proof fn lemma_entry_index_first(s: Seq<RrfEntryView>, id: i64)
    ensures
        entry_index(s, id) matches Some(j) ==> 0 <= j < s.len() && s[j].result.chunk_id == id
            && forall|k: int| 0 <= k < j ==> s[k].result.chunk_id != id,
        entry_index(s, id) is None ==> forall|k: int|
            0 <= k < s.len() ==> s[k].result.chunk_id != id,
    decreases s.len(),
{
    if s.len() > 0 {
        lemma_entry_index_first(s.drop_last(), id);
        assert forall|i: int| 0 <= i < s.len() - 1 implies s[i] == s.drop_last()[i] by {}
    }
}

/// Reciprocal rank fusion of a lexical and a semantic ranking: one entry per chunk, in order
/// of first appearance, recording the ranks at which each list holds it and its source.
/// The fused score `sum 1 / (RRF_CONSTANT + rank + 1)` is computed from these ranks.
pub fn rrf_fuse(lexical_results: Vec<ChunkResult>, semantic_results: Vec<ChunkResult>) -> (r: Vec<
    RrfEntry,
>)
    ensures
        r@.map_values(|e: RrfEntry| e@) == spec_fuse(lexical_results@, semantic_results@),
        forall|k: int|
            0 <= k < r@.len() ==> ((#[trigger] r@[k]).lexical_rank matches Some(p) ==> p
                < lexical_results@.len() && lexical_results@[p as int].chunk_id
                == r@[k].result.chunk_id),
        forall|k: int, j: int|
            0 <= k < r@.len() && 0 <= j < r@[k].semantic_ranks@.len() ==> #[trigger] r@[k].semantic_ranks@[j]
                < semantic_results@.len() && semantic_results@[r@[k].semantic_ranks@[j] as int].chunk_id
                == (#[trigger] r@[k]).result.chunk_id,
{
    let ghost lex = lexical_results@;
    let ghost sem = semantic_results@;
    let mut acc: Vec<RrfEntry> = Vec::new();
    let mut rank: usize = 0;
    let nlex = lexical_results.len();
    let nsem = semantic_results.len();
    for c in it: lexical_results.into_iter()
        invariant
            lex == it.seq(),
            nlex == lex.len(),
            rank <= nlex,
            rank == it.index(),
            acc@.map_values(|e: RrfEntry| e@) == fuse_lexical(lex.take(rank as int)),
    {
        let ghost old_acc = acc@.map_values(|e: RrfEntry| e@);
        proof {
            assert(lex.take(rank + 1).drop_last() =~= lex.take(rank as int));
            assert(lex.take(rank + 1).last() == c);
        }
        let id = c.chunk_id;
        let e = RrfEntry { result: c, lexical_rank: Some(rank), semantic_ranks: Vec::new() };
        match find_entry(&acc, id) {
            Some(j) => {
                acc.set(j, e);
                assert(acc@.map_values(|e: RrfEntry| e@) =~= old_acc.update(
                    j as int,
                    e@,
                ));
            },
            None => {
                acc.push(e);
                assert(acc@.map_values(|e: RrfEntry| e@) =~= old_acc.push(e@));
            },
        }
        rank = rank + 1;
    }
    proof {
        assert(lex.take(lex.len() as int) =~= lex);
    }
    let ghost base = fuse_lexical(lex);
    rank = 0;
    for c in it: semantic_results.into_iter()
        invariant
            sem == it.seq(),
            nsem == sem.len(),
            rank <= nsem,
            rank == it.index(),
            acc@.map_values(|e: RrfEntry| e@) == fuse_semantic(base, sem.take(rank as int)),
    {
        let ghost old_acc = acc@.map_values(|e: RrfEntry| e@);
        proof {
            assert(sem.take(rank + 1).drop_last() =~= sem.take(rank as int));
            assert(sem.take(rank + 1).last() == c);
        }
        match find_entry(&acc, c.chunk_id) {
            Some(j) => {
                let mut e = acc.remove(j);
                e.semantic_ranks.push(rank);
                acc.insert(j, e);
                assert(acc@.map_values(|e: RrfEntry| e@) =~= old_acc.update(
                    j as int,
                    RrfEntryView {
                        semantic_ranks: old_acc[j as int].semantic_ranks.push(rank),
                        ..old_acc[j as int]
                    },
                ));
            },
            None => {
                let mut ranks: Vec<usize> = Vec::new();
                ranks.push(rank);
                let e = RrfEntry { result: c, lexical_rank: None, semantic_ranks: ranks };
                acc.push(e);
                assert(acc@.map_values(|e: RrfEntry| e@) =~= old_acc.push(e@));
            },
        }
        rank = rank + 1;
    }
    proof {
        assert(sem.take(sem.len() as int) =~= sem);
    }
    let ghost fused = acc@.map_values(|e: RrfEntry| e@);
    let mut out: Vec<RrfEntry> = Vec::new();
    for e in it: acc.into_iter()
        invariant
            it.seq().map_values(|e: RrfEntry| e@) == fused,
            fused == fuse_semantic(fuse_lexical(lex), sem),
            out@.len() <= fused.len(),
            out@.len() == it.index(),
            forall|k: int|
                0 <= k < out@.len() ==> (#[trigger] out@[k])@ == spec_fuse(lex, sem)[k],
    {
        let ghost k = it.index() as int;
        let RrfEntry { result, lexical_rank, semantic_ranks } = e;
        let source = if semantic_ranks.len() == 0 {
            ResultSource::Lexical
        } else if lexical_rank.is_none() && semantic_ranks.len() == 1 {
            ResultSource::Semantic
        } else {
            ResultSource::Both
        };
        assert(fused[k] == e@);
        let result = ChunkResult { source, ..result };
        out.push(RrfEntry { result, lexical_rank, semantic_ranks });
    }
    assert(out@.map_values(|e: RrfEntry| e@) =~= spec_fuse(lex, sem));
    proof {
        assert forall|k: int| 0 <= k < out@.len() implies ((#[trigger] out@[k]).lexical_rank matches Some(
            p,
        ) ==> p < lex.len() && lex[p as int].chunk_id == out@[k].result.chunk_id) by {
            lemma_rrf_ranks(lex, sem, k);
            assert(out@[k]@ == spec_fuse(lex, sem)[k]);
        }
        assert forall|k: int, j: int|
            0 <= k < out@.len() && 0 <= j < out@[k].semantic_ranks@.len() implies #[trigger] out@[k].semantic_ranks@[j]
                < sem.len() && sem[out@[k].semantic_ranks@[j] as int].chunk_id
                == (#[trigger] out@[k]).result.chunk_id by {
            lemma_rrf_ranks(lex, sem, k);
            assert(out@[k]@ == spec_fuse(lex, sem)[k]);
            assert(out@[k].semantic_ranks@ == spec_fuse(lex, sem)[k].semantic_ranks);
        }
    }
    out
}

/// Whether chunk `id` occurs in `s`.
pub open spec fn lists_chunk(s: Seq<ChunkResult>, id: i64) -> bool {
    exists|i: int| 0 <= i < s.len() && (#[trigger] s[i]).chunk_id == id
}

/// The positions of chunk `id` in `s`, in increasing order.
pub open spec fn positions(s: Seq<ChunkResult>, id: i64) -> Seq<usize>
    decreases s.len(),
{
    if s.len() == 0 {
        Seq::empty()
    } else if s.last().chunk_id == id {
        positions(s.drop_last(), id).push((s.len() - 1) as usize)
    } else {
        positions(s.drop_last(), id)
    }
}

/// No chunk is listed twice.
pub open spec fn no_duplicate_chunks(s: Seq<ChunkResult>) -> bool {
    forall|i: int, j: int|
        0 <= i < j < s.len() ==> (#[trigger] s[i]).chunk_id != (#[trigger] s[j]).chunk_id
}

pub open spec fn distinct_entries(s: Seq<RrfEntryView>) -> bool {
    forall|i: int, j: int|
        0 <= i < j < s.len() ==> (#[trigger] s[i]).result.chunk_id != (
        #[trigger] s[j]).result.chunk_id
}

pub open spec fn has_entry(s: Seq<RrfEntryView>, id: i64) -> bool {
    exists|k: int| 0 <= k < s.len() && (#[trigger] s[k]).result.chunk_id == id
}

proof fn lemma_has_entry(s: Seq<RrfEntryView>, id: i64)
    ensures
        (entry_index(s, id) is Some) == has_entry(s, id),
        entry_index(s, id) matches Some(j) ==> 0 <= j < s.len() && s[j].result.chunk_id == id,
{
    lemma_entry_index_first(s, id);
    if entry_index(s, id) is Some {
        let j = entry_index(s, id)->0;
        assert(s[j].result.chunk_id == id);
    }
}

proof fn lemma_lists_chunk_last(s: Seq<ChunkResult>, id: i64)
    requires
        s.len() > 0,
    ensures
        lists_chunk(s, id) == (lists_chunk(s.drop_last(), id) || s.last().chunk_id == id),
{
    if lists_chunk(s, id) {
        let i = choose|i: int| 0 <= i < s.len() && (#[trigger] s[i]).chunk_id == id;
        if i < s.len() - 1 {
            assert(s.drop_last()[i] == s[i]);
        }
    }
    if lists_chunk(s.drop_last(), id) {
        let i = choose|i: int| 0 <= i < s.drop_last().len() && (#[trigger] s.drop_last()[i]).chunk_id
            == id;
        assert(s.drop_last()[i] == s[i]);
    }
    if s.last().chunk_id == id {
        assert(s[s.len() - 1].chunk_id == id);
    }
}

/// Replacing an entry by one for the same chunk, or adding an entry for a new chunk.
proof fn lemma_entries_step(acc: Seq<RrfEntryView>, f: Seq<RrfEntryView>, new_id: i64)
    requires
        distinct_entries(acc),
        (entry_index(acc, new_id) matches Some(j) && f.len() == acc.len() && f[j].result.chunk_id
            == new_id && forall|k: int| 0 <= k < acc.len() && k != j ==> f[k] == acc[k]) || (
        entry_index(acc, new_id) is None && f.len() == acc.len() + 1 && f.last().result.chunk_id
            == new_id && forall|k: int| 0 <= k < acc.len() ==> f[k] == acc[k]),
    ensures
        distinct_entries(f),
        forall|id: i64| #[trigger] has_entry(f, id) == (has_entry(acc, id) || id == new_id),
{
    lemma_has_entry(acc, new_id);
    lemma_entry_index(acc, new_id);
    assert forall|i: int, j: int| 0 <= i < j < f.len() implies (#[trigger] f[i]).result.chunk_id
        != (#[trigger] f[j]).result.chunk_id by {
        if entry_index(acc, new_id) is Some {
            let m = entry_index(acc, new_id)->0;
            if i != m && j != m {
                assert(f[i] == acc[i] && f[j] == acc[j]);
            } else if i == m {
                assert(f[j] == acc[j]);
                assert(acc[m].result.chunk_id == new_id);
            } else {
                assert(f[i] == acc[i]);
                assert(acc[m].result.chunk_id == new_id);
            }
        } else {
            if j < acc.len() {
                assert(f[i] == acc[i] && f[j] == acc[j]);
            } else {
                assert(f[i] == acc[i]);
            }
        }
    }
    assert forall|id: i64| #[trigger] has_entry(f, id) == (has_entry(acc, id) || id == new_id) by {
        if has_entry(f, id) {
            let k = choose|k: int| 0 <= k < f.len() && (#[trigger] f[k]).result.chunk_id == id;
            if k < acc.len() && f[k] == acc[k] {
                assert(acc[k].result.chunk_id == id);
            }
        }
        if has_entry(acc, id) {
            let k = choose|k: int| 0 <= k < acc.len() && (#[trigger] acc[k]).result.chunk_id == id;
            if let Some(m) = entry_index(acc, new_id) {
                if k == m {
                    assert(f[m].result.chunk_id == id);
                } else {
                    assert(f[k] == acc[k]);
                }
            } else {
                assert(f[k] == acc[k]);
            }
        }
        if id == new_id {
            if let Some(m) = entry_index(acc, new_id) {
                assert(f[m].result.chunk_id == id);
            } else {
                assert(f[f.len() - 1].result.chunk_id == id);
            }
        }
    }
}

proof fn lemma_fuse_lexical(lex: Seq<ChunkResult>)
    ensures
        distinct_entries(fuse_lexical(lex)),
        forall|id: i64| #[trigger] has_entry(fuse_lexical(lex), id) == lists_chunk(lex, id),
        forall|k: int|
            0 <= k < fuse_lexical(lex).len() ==> (#[trigger] fuse_lexical(lex)[k]).semantic_ranks.len()
                == 0 && fuse_lexical(lex)[k].lexical_rank is Some,
    decreases lex.len(),
{
    if lex.len() > 0 {
        let init = lex.drop_last();
        lemma_fuse_lexical(init);
        let acc = fuse_lexical(init);
        let c = lex.last();
        let f = fuse_lexical(lex);
        lemma_entry_index(acc, c.chunk_id);
        lemma_entries_step(acc, f, c.chunk_id);
        assert forall|id: i64| #[trigger] has_entry(f, id) == lists_chunk(lex, id) by {
            lemma_lists_chunk_last(lex, id);
        }
    }
}

proof fn lemma_fuse_semantic(acc0: Seq<RrfEntryView>, sem: Seq<ChunkResult>)
    requires
        distinct_entries(acc0),
    ensures
        distinct_entries(fuse_semantic(acc0, sem)),
        fuse_semantic(acc0, sem).len() >= acc0.len(),
        forall|id: i64|
            #[trigger] has_entry(fuse_semantic(acc0, sem), id) == (has_entry(acc0, id)
                || lists_chunk(sem, id)),
        forall|k: int|
            0 <= k < acc0.len() ==> {
                let e = #[trigger] fuse_semantic(acc0, sem)[k];
                &&& e.result == acc0[k].result
                &&& e.lexical_rank == acc0[k].lexical_rank
                &&& e.semantic_ranks == acc0[k].semantic_ranks + positions(
                    sem,
                    acc0[k].result.chunk_id,
                )
            },
        forall|k: int|
            acc0.len() <= k < fuse_semantic(acc0, sem).len() ==> {
                let e = #[trigger] fuse_semantic(acc0, sem)[k];
                &&& e.lexical_rank is None
                &&& e.semantic_ranks == positions(sem, e.result.chunk_id)
                &&& !has_entry(acc0, e.result.chunk_id)
            },
    decreases sem.len(),
{
    if sem.len() == 0 {
        assert forall|k: int| 0 <= k < acc0.len() implies {
            let e = #[trigger] fuse_semantic(acc0, sem)[k];
            &&& e.result == acc0[k].result
            &&& e.lexical_rank == acc0[k].lexical_rank
            &&& e.semantic_ranks == acc0[k].semantic_ranks + positions(sem, acc0[k].result.chunk_id)
        } by {
            assert(acc0[k].semantic_ranks + Seq::<usize>::empty() =~= acc0[k].semantic_ranks);
        }
        assert forall|id: i64| #[trigger] has_entry(fuse_semantic(acc0, sem), id) == (has_entry(
            acc0,
            id,
        ) || lists_chunk(sem, id)) by {}
    } else {
        let init = sem.drop_last();
        lemma_fuse_semantic(acc0, init);
        let acc = fuse_semantic(acc0, init);
        let c = sem.last();
        let r = (sem.len() - 1) as usize;
        let f = fuse_semantic(acc0, sem);
        lemma_has_entry(acc, c.chunk_id);
        lemma_entry_index(acc, c.chunk_id);
        lemma_entries_step(acc, f, c.chunk_id);
        assert forall|id: i64| #[trigger] has_entry(f, id) == (has_entry(acc0, id) || lists_chunk(
            sem,
            id,
        )) by {
            lemma_lists_chunk_last(sem, id);
        }
        assert forall|k: int| 0 <= k < acc0.len() implies {
            let e = #[trigger] f[k];
            &&& e.result == acc0[k].result
            &&& e.lexical_rank == acc0[k].lexical_rank
            &&& e.semantic_ranks == acc0[k].semantic_ranks + positions(sem, acc0[k].result.chunk_id)
        } by {
            let id = acc0[k].result.chunk_id;
            assert(acc[k].result == acc0[k].result);
            if c.chunk_id == id {
                let j = entry_index(acc, c.chunk_id)->0;
                if j != k {
                    assert(acc[j].result.chunk_id == acc[k].result.chunk_id);
                    assert(false);
                }
                assert(acc0[k].semantic_ranks + positions(init, id).push(r) =~= (
                acc0[k].semantic_ranks + positions(init, id)).push(r));
            } else {
                if let Some(j) = entry_index(acc, c.chunk_id) {
                    assert(j != k);
                }
            }
        }
        assert forall|k: int| acc0.len() <= k < f.len() implies {
            let e = #[trigger] f[k];
            &&& e.lexical_rank is None
            &&& e.semantic_ranks == positions(sem, e.result.chunk_id)
            &&& !has_entry(acc0, e.result.chunk_id)
        } by {
            if k < acc.len() {
                let id = acc[k].result.chunk_id;
                if c.chunk_id == id {
                    let j = entry_index(acc, c.chunk_id)->0;
                    if j != k {
                        assert(acc[j].result.chunk_id == acc[k].result.chunk_id);
                        assert(false);
                    }
                } else {
                    if let Some(j) = entry_index(acc, c.chunk_id) {
                        assert(j != k);
                    }
                }
            } else {
                let id = c.chunk_id;
                assert(f[k].result == c);
                assert(!has_entry(acc, id));
                if has_entry(acc0, id) {
                    let m = choose|m: int| 0 <= m < acc0.len() && (#[trigger] acc0[m]).result.chunk_id
                        == id;
                    assert(acc[m].result.chunk_id == id);
                }
                assert(!lists_chunk(init, id)) by {
                    if lists_chunk(init, id) {
                        assert(has_entry(acc, id));
                    }
                }
                lemma_positions_absent(init, id);
                assert(positions(init, id) =~= Seq::<usize>::empty());
                assert(positions(sem, id) =~= seq![r]);
            }
        }
    }
}

proof fn lemma_positions_unique(s: Seq<ChunkResult>, id: i64)
    requires
        no_duplicate_chunks(s),
    ensures
        positions(s, id).len() == (if lists_chunk(s, id) {
            1int
        } else {
            0int
        }),
    decreases s.len(),
{
    if s.len() > 0 {
        let init = s.drop_last();
        assert(no_duplicate_chunks(init)) by {
            assert forall|i: int, j: int| 0 <= i < j < init.len() implies (#[trigger] init[i]).chunk_id
                != (#[trigger] init[j]).chunk_id by {
                assert(init[i] == s[i] && init[j] == s[j]);
            }
        }
        lemma_positions_unique(init, id);
        lemma_lists_chunk_last(s, id);
        if s.last().chunk_id == id && lists_chunk(init, id) {
            let i = choose|i: int| 0 <= i < init.len() && (#[trigger] init[i]).chunk_id == id;
            assert(s[i] == init[i]);
            assert(s[i].chunk_id == s[s.len() - 1].chunk_id);
        }
    } else {
        if lists_chunk(s, id) {
            let i = choose|i: int| 0 <= i < s.len() && (#[trigger] s[i]).chunk_id == id;
        }
    }
}

/// Reciprocal rank fusion keeps exactly one entry per chunk: entries are for distinct chunks,
/// and a chunk has an entry exactly when either list holds it.
pub proof fn lemma_rrf_one_entry_per_chunk(lex: Seq<ChunkResult>, sem: Seq<ChunkResult>)
    ensures
        forall|i: int, j: int|
            0 <= i < j < spec_fuse(lex, sem).len() ==> (#[trigger] spec_fuse(lex, sem)[i]).result.chunk_id
                != (#[trigger] spec_fuse(lex, sem)[j]).result.chunk_id,
        forall|id: i64|
            #[trigger] has_entry(spec_fuse(lex, sem), id) == (lists_chunk(lex, id) || lists_chunk(
                sem,
                id,
            )),
{
    lemma_fuse_lexical(lex);
    let acc0 = fuse_lexical(lex);
    lemma_fuse_semantic(acc0, sem);
    let f = fuse_semantic(acc0, sem);
    let g = spec_fuse(lex, sem);
    assert forall|k: int| 0 <= k < g.len() implies (#[trigger] g[k]).result.chunk_id
        == f[k].result.chunk_id by {}
    assert forall|id: i64| #[trigger] has_entry(g, id) == has_entry(f, id) by {
        if has_entry(g, id) {
            let k = choose|k: int| 0 <= k < g.len() && (#[trigger] g[k]).result.chunk_id == id;
            assert(f[k].result.chunk_id == id);
        }
        if has_entry(f, id) {
            let k = choose|k: int| 0 <= k < f.len() && (#[trigger] f[k]).result.chunk_id == id;
            assert(g[k].result.chunk_id == id);
        }
    }
    assert forall|i: int, j: int| 0 <= i < j < g.len() implies (#[trigger] g[i]).result.chunk_id
        != (#[trigger] g[j]).result.chunk_id by {
        assert(f[i].result.chunk_id != f[j].result.chunk_id);
    }
}

/// For rankings that list each chunk at most once, a fused chunk is marked as found by both
/// searches exactly when both lists hold it, and otherwise by the one list that holds it;
/// it carries its rank in each list that holds it.
pub proof fn lemma_rrf_sources(lex: Seq<ChunkResult>, sem: Seq<ChunkResult>, k: int)
    requires
        no_duplicate_chunks(lex),
        no_duplicate_chunks(sem),
        0 <= k < spec_fuse(lex, sem).len(),
    ensures
        ({
            let e = spec_fuse(lex, sem)[k];
            let id = e.result.chunk_id;
            &&& e.result.source == (if lists_chunk(lex, id) && lists_chunk(sem, id) {
                ResultSource::Both
            } else if lists_chunk(lex, id) {
                ResultSource::Lexical
            } else {
                ResultSource::Semantic
            })
            &&& (e.lexical_rank is Some) == lists_chunk(lex, id)
            &&& e.semantic_ranks.len() == (if lists_chunk(sem, id) {
                1int
            } else {
                0int
            })
            &&& lists_chunk(lex, id) || lists_chunk(sem, id)
        }),
{
    lemma_fuse_lexical(lex);
    let acc0 = fuse_lexical(lex);
    lemma_fuse_semantic(acc0, sem);
    let f = fuse_semantic(acc0, sem);
    let e = f[k];
    let id = e.result.chunk_id;
    lemma_positions_unique(sem, id);
    assert(has_entry(f, id));
    if k < acc0.len() {
        assert(acc0[k].result.chunk_id == id);
        assert(has_entry(acc0, id));
        assert(lists_chunk(lex, id));
        assert(acc0[k].semantic_ranks.len() == 0);
        assert(e.semantic_ranks.len() == positions(sem, id).len());
    } else {
        assert(!has_entry(acc0, id));
        assert(!lists_chunk(lex, id));
        assert(lists_chunk(sem, id));
    }
}

proof fn lemma_positions_absent(s: Seq<ChunkResult>, id: i64)
    requires
        !lists_chunk(s, id),
    ensures
        positions(s, id).len() == 0,
    decreases s.len(),
{
    if s.len() > 0 {
        assert(s[s.len() - 1].chunk_id != id);
        assert(!lists_chunk(s.drop_last(), id)) by {
            if lists_chunk(s.drop_last(), id) {
                let i = choose|i: int|
                    0 <= i < s.drop_last().len() && (#[trigger] s.drop_last()[i]).chunk_id == id;
                assert(s[i] == s.drop_last()[i]);
            }
        }
        lemma_positions_absent(s.drop_last(), id);
    }
}

/// Whether some chunk of `s` belongs to file `fid`.
pub open spec fn has_file(s: Seq<ChunkResult>, fid: i64) -> bool {
    exists|i: int| 0 <= i < s.len() && (#[trigger] s[i]).file_id == fid
}

proof fn lemma_best_per_file(cs: Seq<ChunkResult>)
    ensures
        forall|i: int, j: int|
            0 <= i < j < best_per_file(cs).len() ==> (#[trigger] best_per_file(cs)[i]).file_id != (
            #[trigger] best_per_file(cs)[j]).file_id,
        forall|fid: i64| #[trigger] has_file(best_per_file(cs), fid) == has_file(cs, fid),
        forall|k: int|
            0 <= k < best_per_file(cs).len() ==> cs.contains(#[trigger] best_per_file(cs)[k]),
        no_nan(cs) ==> forall|k: int, i: int|
            0 <= k < best_per_file(cs).len() && 0 <= i < cs.len() && (#[trigger] cs[i]).file_id == (
            #[trigger] best_per_file(cs)[k]).file_id ==> order_key(cs[i].score_bits) <= order_key(
                best_per_file(cs)[k].score_bits,
            ),
    decreases cs.len(),
{
    if cs.len() > 0 {
        let init = cs.drop_last();
        lemma_best_per_file(init);
        let acc = best_per_file(init);
        let c = cs.last();
        let b = best_per_file(cs);
        lemma_file_index(acc, c.file_id);
        assert(cs[cs.len() - 1] == c);
        assert forall|i: int| 0 <= i < init.len() implies #[trigger] init[i] == cs[i] by {}
        // distinct files
        assert forall|i: int, j: int| 0 <= i < j < b.len() implies (#[trigger] b[i]).file_id != (
        #[trigger] b[j]).file_id by {
            if let Some(m) = file_index(acc, c.file_id) {
                assert(b[i].file_id == acc[i].file_id && b[j].file_id == acc[j].file_id);
            } else {
                if j < acc.len() {
                    assert(b[i] == acc[i] && b[j] == acc[j]);
                } else {
                    assert(b[i] == acc[i]);
                }
            }
        }
        // same files
        assert forall|fid: i64| #[trigger] has_file(b, fid) == has_file(cs, fid) by {
            if has_file(cs, fid) {
                let i = choose|i: int| 0 <= i < cs.len() && (#[trigger] cs[i]).file_id == fid;
                if i < init.len() {
                    assert(init[i].file_id == fid);
                    assert(has_file(acc, fid));
                    let k = choose|k: int| 0 <= k < acc.len() && (#[trigger] acc[k]).file_id == fid;
                    assert(b[k].file_id == fid);
                } else {
                    if let Some(m) = file_index(acc, c.file_id) {
                        assert(b[m].file_id == fid);
                    } else {
                        assert(b[b.len() - 1].file_id == fid);
                    }
                }
            }
            if has_file(b, fid) {
                let k = choose|k: int| 0 <= k < b.len() && (#[trigger] b[k]).file_id == fid;
                if k < acc.len() && b[k].file_id == acc[k].file_id {
                    assert(has_file(acc, fid));
                    let i = choose|i: int| 0 <= i < init.len() && (#[trigger] init[i]).file_id == fid;
                    assert(cs[i].file_id == fid);
                } else {
                    assert(c.file_id == fid);
                }
            }
        }
        // kept chunks come from the input
        assert forall|k: int| 0 <= k < b.len() implies cs.contains(#[trigger] b[k]) by {
            if b[k] == c {
            } else {
                assert(b[k] == acc[k]);
                assert(init.contains(acc[k]));
                let i = choose|i: int| 0 <= i < init.len() && init[i] == acc[k];
                assert(cs[i] == acc[k]);
            }
        }
        // the kept chunk has the greatest score of its file
        if no_nan(cs) {
            assert(no_nan(init)) by {
                assert forall|i: int| 0 <= i < init.len() implies !is_nan(
                    #[trigger] init[i].score_of(),
                ) by {
                    assert(!is_nan(cs[i].score_of()));
                }
            }
            assert forall|k: int, i: int|
                0 <= k < b.len() && 0 <= i < cs.len() && (#[trigger] cs[i]).file_id == (
                #[trigger] b[k]).file_id implies order_key(cs[i].score_bits) <= order_key(
                b[k].score_bits,
            ) by {
                assert(!is_nan(cs[i].score_of()));
                assert(!is_nan(cs[cs.len() - 1].score_of()));
                if let Some(m) = file_index(acc, c.file_id) {
                    assert(!is_nan(acc[m].score_bits)) by {
                        let t = choose|t: int| 0 <= t < init.len() && init[t] == acc[m];
                        assert(init[t].score_bits == acc[m].score_bits);
                        assert(!is_nan(init[t].score_of()));
                    }
                    if k == m {
                        if i < init.len() {
                            assert(init[i].file_id == acc[m].file_id);
                        }
                    } else {
                        assert(b[k] == acc[k]);
                        if i < init.len() {
                            assert(init[i].file_id == acc[k].file_id);
                        } else {
                            assert(acc[k].file_id != acc[m].file_id);
                        }
                    }
                } else {
                    if k < acc.len() {
                        assert(b[k] == acc[k]);
                        if i < init.len() {
                            assert(init[i].file_id == acc[k].file_id);
                        } else {
                            assert(acc[k].file_id != c.file_id);
                        }
                    } else {
                        if i < init.len() {
                            assert(has_file(init, c.file_id));
                            assert(has_file(acc, c.file_id));
                            let t = choose|t: int| 0 <= t < acc.len() && (#[trigger] acc[t]).file_id
                                == c.file_id;
                            assert(false);
                        }
                    }
                }
            }
        }
    }
}

/// Deduplication keeps one chunk per file: the kept chunks are chunks of the input, for
/// distinct files, and every file of the input keeps a chunk.
pub proof fn lemma_dedup_one_chunk_per_file(cs: Seq<ChunkResult>)
    ensures
        forall|i: int, j: int|
            0 <= i < j < best_per_file(cs).len() ==> (#[trigger] best_per_file(cs)[i]).file_id != (
            #[trigger] best_per_file(cs)[j]).file_id,
        forall|fid: i64| #[trigger] has_file(best_per_file(cs), fid) == has_file(cs, fid),
        forall|k: int|
            0 <= k < best_per_file(cs).len() ==> cs.contains(#[trigger] best_per_file(cs)[k]),
{
    lemma_best_per_file(cs);
}

/// When no score is NaN, the chunk kept for a file has the highest score among the chunks of
/// that file.
pub proof fn lemma_dedup_keeps_highest_score(cs: Seq<ChunkResult>)
    requires
        no_nan(cs),
    ensures
        forall|k: int, i: int|
            0 <= k < best_per_file(cs).len() && 0 <= i < cs.len() && (#[trigger] cs[i]).file_id == (
            #[trigger] best_per_file(cs)[k]).file_id ==> order_key(cs[i].score_bits) <= order_key(
                best_per_file(cs)[k].score_bits,
            ),
{
    lemma_best_per_file(cs);
}

proof fn lemma_best_per_file_distinct(s: Seq<ChunkResult>)
    requires
        forall|i: int, j: int|
            0 <= i < j < s.len() ==> (#[trigger] s[i]).file_id != (#[trigger] s[j]).file_id,
    ensures
        best_per_file(s) == s,
    decreases s.len(),
{
    if s.len() > 0 {
        let init = s.drop_last();
        assert forall|i: int, j: int| 0 <= i < j < init.len() implies (#[trigger] init[i]).file_id
            != (#[trigger] init[j]).file_id by {
            assert(init[i] == s[i] && init[j] == s[j]);
        }
        lemma_best_per_file_distinct(init);
        lemma_file_index(init, s.last().file_id);
        if let Some(m) = file_index(init, s.last().file_id) {
            assert(init[m] == s[m]);
            assert(s[m].file_id == s[s.len() - 1].file_id);
        }
        assert(init.push(s.last()) =~= s);
    }
}

/// Deduplicating chunks that are already one per file changes nothing: deduplication is
/// idempotent.
pub proof fn lemma_dedup_idempotent(cs: Seq<ChunkResult>)
    ensures
        best_per_file(best_per_file(cs)) == best_per_file(cs),
{
    lemma_best_per_file(cs);
    lemma_best_per_file_distinct(best_per_file(cs));
}

proof fn lemma_positions(s: Seq<ChunkResult>, id: i64)
    requires
        s.len() <= usize::MAX,
    ensures
        forall|j: int|
            0 <= j < positions(s, id).len() ==> 0 <= #[trigger] positions(s, id)[j] < s.len()
                && s[positions(s, id)[j] as int].chunk_id == id,
        forall|j1: int, j2: int|
            0 <= j1 < j2 < positions(s, id).len() ==> #[trigger] positions(s, id)[j1]
                < #[trigger] positions(s, id)[j2],
        forall|i: int|
            0 <= i < s.len() && (#[trigger] s[i]).chunk_id == id ==> positions(s, id).contains(
                i as usize,
            ),
    decreases s.len(),
{
    if s.len() > 0 {
        let init = s.drop_last();
        lemma_positions(init, id);
        let pi = positions(init, id);
        let ps = positions(s, id);
        assert forall|i: int| 0 <= i < init.len() implies #[trigger] init[i] == s[i] by {}
        assert forall|i: int| 0 <= i < s.len() && (#[trigger] s[i]).chunk_id == id implies ps.contains(
            i as usize,
        ) by {
            if i < s.len() - 1 {
                assert(init[i] == s[i]);
                let j = choose|j: int| 0 <= j < pi.len() && pi[j] == i as usize;
                assert(ps[j] == pi[j]);
            } else {
                assert(ps[ps.len() - 1] == i as usize);
            }
        }
    }
}

proof fn lemma_fuse_lexical_ranks(lex: Seq<ChunkResult>)
    requires
        lex.len() <= usize::MAX,
    ensures
        forall|k: int|
            0 <= k < fuse_lexical(lex).len() ==> {
                let e = #[trigger] fuse_lexical(lex)[k];
                &&& e.lexical_rank matches Some(p) && 0 <= p < lex.len() && lex[p as int]
                    == e.result && forall|q: int|
                    p < q < lex.len() ==> (#[trigger] lex[q]).chunk_id != e.result.chunk_id
            },
    decreases lex.len(),
{
    if lex.len() > 0 {
        let init = lex.drop_last();
        lemma_fuse_lexical_ranks(init);
        lemma_fuse_lexical(init);
        let acc = fuse_lexical(init);
        let c = lex.last();
        let f = fuse_lexical(lex);
        lemma_entry_index(acc, c.chunk_id);
        assert forall|i: int| 0 <= i < init.len() implies #[trigger] init[i] == lex[i] by {}
        assert forall|k: int| 0 <= k < f.len() implies {
            let e = #[trigger] f[k];
            &&& e.lexical_rank matches Some(p) && 0 <= p < lex.len() && lex[p as int] == e.result
                && forall|q: int| p < q < lex.len() ==> (#[trigger] lex[q]).chunk_id
                != e.result.chunk_id
        } by {
            let is_new = match entry_index(acc, c.chunk_id) {
                Some(j) => k == j,
                None => k == acc.len(),
            };
            if is_new {
                assert(f[k].lexical_rank == Some((lex.len() - 1) as usize));
                assert(lex[lex.len() - 1] == c);
            } else {
                assert(f[k] == acc[k]);
                if let Some(j) = entry_index(acc, c.chunk_id) {
                    assert(acc[j].result.chunk_id == c.chunk_id);
                    assert(acc[k].result.chunk_id != c.chunk_id);
                } else {
                    assert(acc[k].result.chunk_id != c.chunk_id);
                }
                let p = acc[k].lexical_rank->0;
                assert(lex[p as int] == init[p as int]);
                assert forall|q: int| p < q < lex.len() implies (#[trigger] lex[q]).chunk_id
                    != f[k].result.chunk_id by {
                    if q < lex.len() - 1 {
                        assert(lex[q] == init[q]);
                    } else {
                        assert(lex[q] == c);
                    }
                }
            }
        }
    }
}

/// The ranks that fusion records are the chunk's places in the two rankings: a lexical rank
/// `p` is the (last) place of the chunk in the lexical list, and there is none exactly when
/// that list does not hold the chunk; the semantic ranks are, in increasing order, all the
/// places of the chunk in the semantic list. So with a lexical list that repeats no chunk,
/// the chunk at place `i` gets lexical rank `i`.
pub proof fn lemma_rrf_ranks(lex: Seq<ChunkResult>, sem: Seq<ChunkResult>, k: int)
    requires
        lex.len() <= usize::MAX,
        sem.len() <= usize::MAX,
        0 <= k < spec_fuse(lex, sem).len(),
    ensures
        ({
            let e = spec_fuse(lex, sem)[k];
            let id = e.result.chunk_id;
            let ranks = e.semantic_ranks;
            &&& e.lexical_rank matches Some(p) ==> 0 <= p < lex.len() && lex[p as int].chunk_id
                == id && forall|q: int| p < q < lex.len() ==> (#[trigger] lex[q]).chunk_id != id
            &&& e.lexical_rank is None <==> !lists_chunk(lex, id)
            &&& forall|i: int|
                no_duplicate_chunks(lex) && 0 <= i < lex.len() && (#[trigger] lex[i]).chunk_id
                    == id ==> e.lexical_rank == Some(i as usize)
            &&& forall|j: int|
                0 <= j < ranks.len() ==> 0 <= #[trigger] ranks[j] < sem.len() && sem[ranks[j] as int].chunk_id
                    == id
            &&& forall|j1: int, j2: int|
                0 <= j1 < j2 < ranks.len() ==> #[trigger] ranks[j1] < #[trigger] ranks[j2]
            &&& forall|i: int|
                0 <= i < sem.len() && (#[trigger] sem[i]).chunk_id == id ==> ranks.contains(
                    i as usize,
                )
        }),
{
    lemma_fuse_lexical(lex);
    lemma_fuse_lexical_ranks(lex);
    let acc0 = fuse_lexical(lex);
    lemma_fuse_semantic(acc0, sem);
    let f = fuse_semantic(acc0, sem);
    let e = spec_fuse(lex, sem)[k];
    let id = e.result.chunk_id;
    assert(f[k].result.chunk_id == id);
    assert(e.lexical_rank == f[k].lexical_rank);
    assert(e.semantic_ranks == f[k].semantic_ranks);
    lemma_positions(sem, id);
    if k < acc0.len() {
        assert(acc0[k].semantic_ranks.len() == 0);
        assert(f[k].semantic_ranks =~= positions(sem, id));
        assert(has_entry(acc0, id));
        assert(lists_chunk(lex, id));
        let p = acc0[k].lexical_rank->0;
        assert(lex[p as int].chunk_id == id);
        assert forall|i: int|
            no_duplicate_chunks(lex) && 0 <= i < lex.len() && (#[trigger] lex[i]).chunk_id
                == id implies e.lexical_rank == Some(i as usize) by {
            if i != p as int {
                assert(lex[i].chunk_id != lex[p as int].chunk_id);
            }
        }
    } else {
        assert(!has_entry(acc0, id));
        assert(!lists_chunk(lex, id));
    }
}

} // verus!
