//! Indexing: reading and chunking files, change detection, and the bookkeeping of a run.
pub mod db;
pub mod read;

use sha2::Digest;
use vstd::prelude::*;
use vstd::string::StringSliceAdditionalSpecFns;
use vstd::utf8::{decode_utf8, valid_utf8};
use crate::search::expand::str_eq;
use crate::text::{push_char, str_from_utf8};

verus! {

/// Statistics from an indexing operation.
pub struct IndexStats {
    pub scanned: usize,
    pub added: usize,
    pub updated: usize,
    pub skipped: usize,
    pub failed: usize,
}

/// What indexing one file did.
#[derive(PartialEq, Eq, Structural, Clone, Copy, Debug)]
pub enum FileIndexResult {
    /// The file was not in the index and now is.
    Added,
    /// The file was in the index with other contents and has been re-indexed.
    Updated,
    /// The file is binary, or unchanged since it was last indexed.
    Skipped,
}

impl Default for IndexStats {
    fn default() -> (r: IndexStats)
        ensures
            r.scanned == 0 && r.added == 0 && r.updated == 0 && r.skipped == 0 && r.failed == 0,
    {
        IndexStats { scanned: 0, added: 0, updated: 0, skipped: 0, failed: 0 }
    }
}

impl IndexStats {
    /// Every file indexed without error is counted once as added, updated or skipped.
    pub open spec fn consistent(self) -> bool {
        self.scanned == self.added + self.updated + self.skipped
    }

    /// The counters after one more file was indexed with outcome `result`.
    pub open spec fn recorded(self, result: FileIndexResult) -> IndexStats {
        match result {
            FileIndexResult::Added => IndexStats {
                scanned: (self.scanned + 1) as usize,
                added: (self.added + 1) as usize,
                ..self
            },
            FileIndexResult::Updated => IndexStats {
                scanned: (self.scanned + 1) as usize,
                updated: (self.updated + 1) as usize,
                ..self
            },
            FileIndexResult::Skipped => IndexStats {
                scanned: (self.scanned + 1) as usize,
                skipped: (self.skipped + 1) as usize,
                ..self
            },
        }
    }

    /// Whether the counters that `recorded(result)` increments are below `usize::MAX`.
    pub open spec fn can_record(self, result: FileIndexResult) -> bool {
        &&& self.scanned < usize::MAX
        &&& match result {
            FileIndexResult::Added => self.added < usize::MAX,
            FileIndexResult::Updated => self.updated < usize::MAX,
            FileIndexResult::Skipped => self.skipped < usize::MAX,
        }
    }

    /// Count a file that was indexed with outcome `result`.
    pub fn record(&mut self, result: FileIndexResult)
        requires
            old(self).can_record(result),
        ensures
            *final(self) == old(self).recorded(result),
    {
        self.scanned = self.scanned + 1;
        match result {
            FileIndexResult::Added => self.added = self.added + 1,
            FileIndexResult::Updated => self.updated = self.updated + 1,
            FileIndexResult::Skipped => self.skipped = self.skipped + 1,
        }
    }

    /// Count a file whose indexing failed.
    pub fn record_failure(&mut self)
        requires
            old(self).failed < usize::MAX,
        ensures
            *final(self) == (IndexStats { failed: (old(self).failed + 1) as usize, ..*old(self) }),
    {
        self.failed = self.failed + 1;
    }
}

/// Counting keeps the tally consistent: a file that indexes without error adds one to
/// `scanned` and one to exactly the counter of its outcome, and a failure touches neither.
pub proof fn lemma_record_consistent(s: IndexStats, result: FileIndexResult)
    requires
        s.consistent(),
        s.can_record(result),
    ensures
        s.recorded(result).consistent(),
        s.recorded(result).failed == s.failed,
        (IndexStats { failed: (s.failed + 1) as usize, ..s }).consistent(),
{
}

/// Whether a file needs indexing, given the checksum stored for its path (if any) and the
/// checksum of its current contents.
pub open spec fn spec_classify_change(existing: Option<Seq<char>>, checksum: Seq<char>)
    -> FileIndexResult
{
    match existing {
        None => FileIndexResult::Added,
        Some(e) => if e == checksum {
            FileIndexResult::Skipped
        } else {
            FileIndexResult::Updated
        },
    }
}

/// Decide what indexing a file does: a path not in the index is added, one whose stored
/// checksum matches its contents is skipped, any other is updated.
pub fn classify_change(existing: Option<&str>, checksum: &str) -> (r: FileIndexResult)
    ensures
        r == spec_classify_change(
            match existing {
                Some(e) => Some(e@),
                None => None,
            },
            checksum@,
        ),
{
    match existing {
        None => FileIndexResult::Added,
        Some(e) => if str_eq(e, checksum) {
            FileIndexResult::Skipped
        } else {
            FileIndexResult::Updated
        },
    }
}

/// The SHA-256 digest of `data` (as computed by the `sha2` crate).
pub uninterp spec fn sha256_of(data: Seq<u8>) -> Seq<u8>;

/// `sha2::Sha256`: hashes `data`; the result is the digest `sha256_of(data)`, 32 bytes long.
#[verifier::external_body]
fn sha256(data: &[u8]) -> (r: Vec<u8>)
    ensures
        r@ == sha256_of(data@),
        r@.len() == 32,
{
    let mut hasher = sha2::Sha256::new();
    hasher.update(data);
    hasher.finalize().to_vec()
}

/// The lowercase hexadecimal digit for `d` (`0 <= d < 16`).
pub open spec fn hex_digit(d: int) -> char {
    if d < 10 {
        (48 + d) as char
    } else {
        (87 + d) as char
    }
}

/// `bytes` as lowercase hexadecimal, two digits per byte, most significant digit first.
pub open spec fn hex_lower(bytes: Seq<u8>) -> Seq<char>
    decreases bytes.len(),
{
    if bytes.len() == 0 {
        Seq::empty()
    } else {
        hex_lower(bytes.drop_last()) + seq![
            hex_digit(bytes.last() as int / 16),
            hex_digit(bytes.last() as int % 16),
        ]
    }
}

proof fn lemma_hex_len(bytes: Seq<u8>)
    ensures
        hex_lower(bytes).len() == 2 * bytes.len(),
    decreases bytes.len(),
{
    if bytes.len() > 0 {
        lemma_hex_len(bytes.drop_last());
    }
}

fn hex_char(d: u8) -> (c: char)
    requires
        d < 16,
    ensures
        c == hex_digit(d as int),
{
    if d < 10 {
        (d + 48) as char
    } else {
        (d + 87) as char
    }
}

/// The SHA-256 checksum of the text's UTF-8 bytes, as 64 lowercase hexadecimal digits.
pub fn compute_checksum(text: &str) -> (r: String)
    ensures
        r@ == hex_lower(sha256_of(text.spec_bytes())),
        r@.len() == 64,
{
    let digest = sha256(text.as_bytes());
    let ghost d = digest@;
    let mut r = String::new();
    let mut i: usize = 0;
    while i < digest.len()
        invariant
            i <= digest@.len(),
            d == digest@,
            r@ == hex_lower(d.take(i as int)),
        decreases digest@.len() - i,
    {
        let b = digest[i];
        push_char(&mut r, hex_char(b / 16));
        push_char(&mut r, hex_char(b % 16));
        proof {
            assert(d.take(i + 1).drop_last() =~= d.take(i as int));
            assert(d.take(i + 1).last() == b);
        }
        i = i + 1;
        assert(r@ =~= hex_lower(d.take(i as int)));
    }
    proof {
        assert(d.take(d.len() as int) =~= d);
        lemma_hex_len(d);
    }
    r
}

/// The path (given by its bytes) as a string, or `None` when it is not valid UTF-8.
pub fn path_to_string(path: &[u8]) -> (r: Option<String>)
    ensures
        r is Some <==> valid_utf8(path@),
        r matches Some(s) ==> s@ == decode_utf8(path@),
{
    match str_from_utf8(path) {
        Some(s) => {
            proof {
                vstd::utf8::decode_utf8_encode_utf8(path@);
                vstd::utf8::encode_utf8_decode_utf8(s@);
            }
            Some(s.to_string())
        },
        None => None,
    }
}

} // verus!
