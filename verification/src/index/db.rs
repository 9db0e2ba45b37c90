//! What the database holds for a source, a garbage collection, and an embedding.
use vstd::prelude::*;

verus! {

/// Summary of an indexed source for display.
pub struct SourceSummary {
    pub id: i64,
    pub path: String,
    pub label: Option<String>,
    pub indexed_at: String,
    pub file_count: usize,
    pub total_size_bytes: u64,
}

/// Summary of garbage collection operation.
pub struct GcSummary {
    pub files_removed: usize,
    pub chunks_removed: usize,
}

/// Number of components an embedding must have to be stored.
pub const STORED_EMBEDDING_DIM: usize = 384;

/// Why an embedding could not be stored.
#[derive(PartialEq, Eq, Structural, Clone, Copy, Debug)]
pub enum EmbeddingError {
    /// The embedding has `got` components where `expected` are required.
    InvalidDimension { expected: usize, got: usize },
}

/// The four little-endian bytes of `x`.
pub open spec fn le_bytes(x: u32) -> Seq<u8> {
    seq![
        (x % 256) as u8,
        (x / 256 % 256) as u8,
        (x / 65536 % 256) as u8,
        (x / 16777216) as u8,
    ]
}

/// The little-endian bytes of each component in turn.
pub open spec fn components_le_bytes(v: Seq<u32>) -> Seq<u8>
    decreases v.len(),
{
    if v.len() == 0 {
        Seq::empty()
    } else {
        components_le_bytes(v.drop_last()) + le_bytes(v.last())
    }
}

proof fn lemma_components_len(v: Seq<u32>)
    ensures
        components_le_bytes(v).len() == 4 * v.len(),
    decreases v.len(),
{
    if v.len() > 0 {
        lemma_components_len(v.drop_last());
    }
}

/// Component `i` of `v` occupies bytes `4 i .. 4 i + 4` of its encoding.
pub proof fn lemma_components_at(v: Seq<u32>, i: int)
    requires
        0 <= i < v.len(),
    ensures
        components_le_bytes(v).subrange(4 * i, 4 * i + 4) == le_bytes(v[i]),
    decreases v.len(),
{
    lemma_components_len(v.drop_last());
    if i < v.len() - 1 {
        lemma_components_at(v.drop_last(), i);
        assert(components_le_bytes(v).subrange(4 * i, 4 * i + 4) =~= components_le_bytes(
            v.drop_last(),
        ).subrange(4 * i, 4 * i + 4));
    } else {
        assert(components_le_bytes(v).subrange(4 * i, 4 * i + 4) =~= le_bytes(v.last()));
    }
}

/// The bytes stored for an embedding whose components are given by their `f32` bits: each
/// component's four little-endian bytes in turn. Only embeddings of `STORED_EMBEDDING_DIM`
/// components are accepted.
pub fn embedding_to_bytes(embedding: &[u32]) -> (r: Result<Vec<u8>, EmbeddingError>)
    ensures
        r is Ok <==> embedding@.len() == STORED_EMBEDDING_DIM,
        r matches Ok(b) ==> b@ == components_le_bytes(embedding@),
        r matches Err(e) ==> e == (EmbeddingError::InvalidDimension {
            expected: STORED_EMBEDDING_DIM,
            got: embedding@.len() as usize,
        }),
{
    if embedding.len() != STORED_EMBEDDING_DIM {
        return Err(
            EmbeddingError::InvalidDimension {
                expected: STORED_EMBEDDING_DIM,
                got: embedding.len(),
            },
        );
    }
    let mut out: Vec<u8> = Vec::new();
    let mut i: usize = 0;
    while i < embedding.len()
        invariant
            i <= embedding@.len(),
            out@ == components_le_bytes(embedding@.take(i as int)),
        decreases embedding@.len() - i,
    {
        let x = embedding[i];
        out.push((x % 256) as u8);
        out.push((x / 256 % 256) as u8);
        out.push((x / 65536 % 256) as u8);
        out.push((x / 16777216) as u8);
        proof {
            assert(embedding@.take(i + 1).drop_last() =~= embedding@.take(i as int));
            assert(embedding@.take(i + 1).last() == x);
        }
        i = i + 1;
        assert(out@ =~= components_le_bytes(embedding@.take(i as int)));
    }
    assert(embedding@.take(embedding@.len() as int) =~= embedding@);
    Ok(out)
}

} // verus!
