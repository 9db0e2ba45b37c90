//! Semantic search: decoding stored embeddings and ranking chunks by similarity.
use vstd::prelude::*;
use crate::index::db::{components_le_bytes, le_bytes, lemma_components_at};
use crate::search::ChunkResult;
use crate::search::fusion::{no_nan, sort_by_score_desc, stable_sorted_desc};

verus! {

/// The `u32` whose little-endian bytes are `b[0..4]`.
pub open spec fn from_le(b: Seq<u8>) -> u32 {
    (b[0] + 256 * b[1] + 65536 * b[2] + 16777216 * b[3]) as u32
}

/// The components decoded from a stored embedding: one per whole group of four bytes,
/// in order; trailing bytes that do not make a group are ignored.
pub open spec fn spec_embedding_from_bytes(blob: Seq<u8>) -> Seq<u32> {
    Seq::new(blob.len() / 4, |i: int| from_le(blob.subrange(4 * i, 4 * i + 4)))
}

/// Decode a stored embedding into the bits of its `f32` components
/// (`blob.chunks_exact(4).map(f32::from_le_bytes)`).
pub fn embedding_from_bytes(blob: &[u8]) -> (r: Vec<u32>)
    ensures
        r@ == spec_embedding_from_bytes(blob@),
{
    let len = blob.len();
    let n = len / 4;
    let mut r: Vec<u32> = Vec::new();
    let mut i: usize = 0;
    while i < n
        invariant
            len == blob@.len(),
            n == len / 4,
            i <= n,
            r@.len() == i,
            forall|k: int| 0 <= k < i ==> r@[k] == from_le(blob@.subrange(4 * k, 4 * k + 4)),
        decreases n - i,
    {
        assert(4 * i + 4 <= blob@.len()) by (nonlinear_arith)
            requires
                i < n,
                n == len / 4,
                len == blob@.len(),
        ;
        let j = 4 * i;
        let x = blob[j] as u32 + (blob[j + 1] as u32) * 256 + (blob[j + 2] as u32) * 65536 + (
        blob[j + 3] as u32) * 16777216;
        proof {
            let b = blob@.subrange(4 * i, 4 * i + 4);
            assert(b[0] == blob@[j as int] && b[1] == blob@[j + 1] && b[2] == blob@[j + 2] && b[3]
                == blob@[j + 3]);
        }
        r.push(x);
        i = i + 1;
    }
    assert(r@ =~= spec_embedding_from_bytes(blob@));
    r
}

proof fn lemma_from_le_bytes(x: u32)
    ensures
        from_le(le_bytes(x)) == x,
{
    let b = le_bytes(x);
    assert(b[0] == x % 256 && b[1] == x / 256 % 256 && b[2] == x / 65536 % 256 && b[3] == x
        / 16777216);
    assert(x % 256 + 256 * (x / 256 % 256) + 65536 * (x / 65536 % 256) + 16777216 * (x
        / 16777216) == x) by (nonlinear_arith);
}

/// Decoding what `embedding_to_bytes` stored gives back the embedding, component for
/// component.
pub proof fn lemma_embedding_round_trip(v: Seq<u32>)
    ensures
        spec_embedding_from_bytes(components_le_bytes(v)) == v,
{
    let b = components_le_bytes(v);
    lemma_components_len(v);
    assert forall|i: int| 0 <= i < v.len() implies #[trigger] spec_embedding_from_bytes(b)[i]
        == v[i] by {
        lemma_components_at(v, i);
        lemma_from_le_bytes(v[i]);
    }
    assert(spec_embedding_from_bytes(b) =~= v);
}

proof fn lemma_components_len(v: Seq<u32>)
    ensures
        components_le_bytes(v).len() == 4 * v.len(),
    decreases v.len(),
{
    if v.len() > 0 {
        lemma_components_len(v.drop_last());
    }
}

/// The best `limit` chunks by similarity, highest first
/// (`sort_by(|a, b| b.score.partial_cmp(&a.score).unwrap())`, then `truncate(limit)`).
pub fn rank_chunks(results: Vec<ChunkResult>, limit: usize) -> (r: Vec<ChunkResult>)
    requires
        results@.len() < 2 || no_nan(results@),
    ensures
        r@.len() == if limit < results@.len() {
            limit as int
        } else {
            results@.len() as int
        },
        exists|s: Seq<ChunkResult>|
            #![trigger stable_sorted_desc(s, results@)]
            stable_sorted_desc(s, results@) && r@ == s.take(r@.len() as int),
{
    let ghost n = results@.len();
    let ghost orig = results@;
    let mut v = sort_by_score_desc(results);
    proof {
        broadcast use vstd::seq_lib::group_to_multiset_ensures;

        assert(v@.to_multiset().len() == orig.to_multiset().len());
    }
    let ghost s = v@;
    v.truncate(limit);
    assert(v@ =~= s.take(v@.len() as int));
    v
}

} // verus!
