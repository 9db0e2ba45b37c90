//! Query expansion: tokenizing, term frequencies, and choosing candidate expansion terms.
use vstd::prelude::*;
use vstd::string::StringSliceAdditionalSpecFns;
use crate::text::{chars_of, push_char, split_words, string_from_chars, words};

verus! {

/// What `char::is_alphanumeric` returns for `c` (Unicode `Alphabetic` or `Numeric`).
pub uninterp spec fn char_is_alphanumeric(c: char) -> bool;

/// `char::is_alphanumeric`.
#[verifier::external_body]
fn is_alphanumeric(c: char) -> (r: bool)
    ensures
        r == char_is_alphanumeric(c),
{
    c.is_alphanumeric()
}

/// What `str::to_lowercase` returns for the characters `s` (Unicode lowercase mapping).
pub uninterp spec fn str_to_lowercase(s: Seq<char>) -> Seq<char>;

/// `str::to_lowercase`.
#[verifier::external_body]
fn to_lowercase(s: &str) -> (r: String)
    ensures
        r@ == str_to_lowercase(s@),
{
    s.to_lowercase()
}

/// `w` without its leading non-alphanumeric characters.
pub open spec fn trim_start(w: Seq<char>) -> Seq<char>
    decreases w.len(),
{
    if w.len() > 0 && !char_is_alphanumeric(w[0]) {
        trim_start(w.drop_first())
    } else {
        w
    }
}

/// `w` without its trailing non-alphanumeric characters.
pub open spec fn trim_end(w: Seq<char>) -> Seq<char>
    decreases w.len(),
{
    if w.len() > 0 && !char_is_alphanumeric(w.last()) {
        trim_end(w.drop_last())
    } else {
        w
    }
}

/// `w.trim_matches(|c| !c.is_alphanumeric())`.
pub open spec fn trim_word(w: Seq<char>) -> Seq<char> {
    trim_end(trim_start(w))
}

/// The trimmed words that are not empty, in order.
pub open spec fn tokens_of(ws: Seq<Seq<char>>) -> Seq<Seq<char>>
    decreases ws.len(),
{
    if ws.len() == 0 {
        Seq::empty()
    } else if trim_word(ws.last()).len() > 0 {
        tokens_of(ws.drop_last()).push(trim_word(ws.last()))
    } else {
        tokens_of(ws.drop_last())
    }
}

/// What `tokenize` returns: the whitespace-separated words of `text`, stripped of leading and
/// trailing non-alphanumeric characters, dropping those that become empty.
pub open spec fn spec_tokenize(text: Seq<char>) -> Seq<Seq<char>> {
    tokens_of(words(text))
}

proof fn lemma_trim_start_step(w: Seq<char>, i: int)
    requires
        0 <= i < w.len(),
        !char_is_alphanumeric(w[i]),
    ensures
        trim_start(w.subrange(i, w.len() as int)) == trim_start(w.subrange(i + 1, w.len() as int)),
{
    let s = w.subrange(i, w.len() as int);
    assert(s[0] == w[i]);
    assert(s.drop_first() =~= w.subrange(i + 1, w.len() as int));
}

proof fn lemma_trim_end_step(w: Seq<char>, i: int, j: int)
    requires
        0 <= i < j <= w.len(),
        !char_is_alphanumeric(w[j - 1]),
    ensures
        trim_end(w.subrange(i, j)) == trim_end(w.subrange(i, j - 1)),
{
    let s = w.subrange(i, j);
    assert(s.last() == w[j - 1]);
    assert(s.drop_last() =~= w.subrange(i, j - 1));
}

/// `trim_word(w)` as the bounds `[i, j)` of `w`.
fn trim_bounds(w: &Vec<char>) -> (r: (usize, usize))
    ensures
        r.0 <= r.1 <= w@.len(),
        w@.subrange(r.0 as int, r.1 as int) == trim_word(w@),
{
    let n = w.len();
    let mut i: usize = 0;
    assert(w@.subrange(0, n as int) =~= w@);
    while i < n && !is_alphanumeric(w[i])
        invariant
            i <= n == w@.len(),
            trim_start(w@) == trim_start(w@.subrange(i as int, n as int)),
        decreases n - i,
    {
        proof {
            lemma_trim_start_step(w@, i as int);
        }
        i = i + 1;
    }
    let ghost ts = w@.subrange(i as int, n as int);
    assert(trim_start(ts) == ts) by {
        if ts.len() > 0 {
            assert(ts[0] == w@[i as int]);
        }
    }
    let mut j: usize = n;
    assert(w@.subrange(i as int, j as int) == ts);
    while j > i && !is_alphanumeric(w[j - 1])
        invariant
            i <= j <= n == w@.len(),
            trim_end(ts) == trim_end(w@.subrange(i as int, j as int)),
        decreases j - i,
    {
        proof {
            lemma_trim_end_step(w@, i as int, j as int);
        }
        j = j - 1;
    }
    let ghost te = w@.subrange(i as int, j as int);
    assert(trim_end(te) == te) by {
        if te.len() > 0 {
            assert(te.last() == w@[j - 1]);
        }
    }
    (i, j)
}

/// Simple tokenizer: split on whitespace and strip non-alphanumeric characters from the ends
/// of each word, dropping words that become empty.
pub fn tokenize(text: &str) -> (r: Vec<String>)
    ensures
        r@.len() == spec_tokenize(text@).len(),
        forall|k: int| 0 <= k < r@.len() ==> (#[trigger] r@[k])@ == spec_tokenize(text@)[k],
{
    let ws = split_words(text);
    let ghost sw = words(text@);
    let mut r: Vec<String> = Vec::new();
    let mut k: usize = 0;
    while k < ws.len()
        invariant
            k <= ws@.len() == sw.len(),
            sw == words(text@),
            forall|j: int| 0 <= j < ws@.len() ==> (#[trigger] ws@[j])@ == sw[j],
            r@.len() == tokens_of(sw.take(k as int)).len(),
            forall|j: int| 0 <= j < r@.len() ==> (#[trigger] r@[j])@ == tokens_of(sw.take(k as int))[j],
        decreases ws@.len() - k,
    {
        let (a, b) = trim_bounds(&ws[k]);
        proof {
            assert(sw.take(k + 1).drop_last() =~= sw.take(k as int));
            assert(sw.take(k + 1).last() == ws@[k as int]@);
        }
        if a < b {
            let t = string_from_chars(&ws[k], a, b);
            r.push(t);
        }
        k = k + 1;
    }
    assert(sw.take(sw.len() as int) =~= sw);
    r
}

/// Whether two strings have the same characters.
pub fn str_eq(a: &str, b: &str) -> (r: bool)
    ensures
        r == (a@ == b@),
{
    let ca = chars_of(a);
    let cb = chars_of(b);
    if ca.len() != cb.len() {
        return false;
    }
    let mut i: usize = 0;
    while i < ca.len()
        invariant
            i <= ca@.len() == cb@.len(),
            ca@ == a@,
            cb@ == b@,
            forall|k: int| 0 <= k < i ==> ca@[k] == cb@[k],
        decreases ca@.len() - i,
    {
        if ca[i] != cb[i] {
            assert(a@[i as int] != b@[i as int]);
            return false;
        }
        i = i + 1;
    }
    assert(ca@ =~= cb@);
    true
}

/// Stop words excluded from expansion terms.
pub const STOP_WORDS: [&'static str; 60] = [
    "the",
    "and",
    "for",
    "are",
    "but",
    "not",
    "you",
    "all",
    "can",
    "had",
    "her",
    "was",
    "one",
    "our",
    "out",
    "day",
    "get",
    "has",
    "him",
    "his",
    "how",
    "its",
    "may",
    "new",
    "now",
    "old",
    "see",
    "two",
    "who",
    "did",
    "use",
    "way",
    "with",
    "this",
    "that",
    "from",
    "they",
    "will",
    "have",
    "been",
    "when",
    "what",
    "your",
    "each",
    "she",
    "there",
    "their",
    "which",
    "also",
    "into",
    "more",
    "than",
    "then",
    "them",
    "these",
    "some",
    "would",
    "other",
    "about",
    "after",
];

/// Whether `t` is one of `STOP_WORDS`.
pub open spec fn is_stop_word_spec(t: Seq<char>) -> bool {
    exists|i: int| 0 <= i < STOP_WORDS@.len() && (#[trigger] STOP_WORDS@[i])@ == t
}

/// Whether `term` is a stop word.
pub fn is_stop_word(term: &str) -> (r: bool)
    ensures
        r == is_stop_word_spec(term@),
{
    let list = STOP_WORDS;
    let mut i: usize = 0;
    while i < 60
        invariant
            i <= 60,
            list@ == STOP_WORDS@,
            forall|k: int| 0 <= k < i ==> (#[trigger] STOP_WORDS@[k])@ != term@,
        decreases 60 - i,
    {
        if str_eq(list[i], term) {
            return true;
        }
        i = i + 1;
    }
    false
}

/// Lower-cased tokens of `text`.
pub open spec fn lower_tokens(text: Seq<char>) -> Seq<Seq<char>> {
    spec_tokenize(text).map_values(|t: Seq<char>| str_to_lowercase(t))
}

/// Index of term `t` in a frequency table.
pub open spec fn term_index(acc: Seq<(Seq<char>, nat)>, t: Seq<char>) -> Option<int>
    decreases acc.len(),
{
    if acc.len() == 0 {
        None
    } else {
        match term_index(acc.drop_last(), t) {
            Some(j) => Some(j),
            None => if acc.last().0 == t {
                Some(acc.len() - 1)
            } else {
                None
            },
        }
    }
}

/// Term frequencies of `terms`: each distinct term with its number of occurrences, in order
/// of first occurrence.
pub open spec fn term_counts(terms: Seq<Seq<char>>) -> Seq<(Seq<char>, nat)>
    decreases terms.len(),
{
    if terms.len() == 0 {
        Seq::empty()
    } else {
        let acc = term_counts(terms.drop_last());
        let t = terms.last();
        match term_index(acc, t) {
            Some(j) => acc.update(j, (t, acc[j].1 + 1)),
            None => acc.push((t, 1nat)),
        }
    }
}

proof fn lemma_term_index(acc: Seq<(Seq<char>, nat)>, t: Seq<char>)
    ensures
        term_index(acc, t) matches Some(j) ==> 0 <= j < acc.len() && acc[j].0 == t && forall|
            k: int,
        | 0 <= k < j ==> acc[k].0 != t,
        term_index(acc, t) is None ==> forall|k: int| 0 <= k < acc.len() ==> acc[k].0 != t,
    decreases acc.len(),
{
    if acc.len() > 0 {
        lemma_term_index(acc.drop_last(), t);
        assert forall|i: int| 0 <= i < acc.len() - 1 implies acc[i] == acc.drop_last()[i] by {}
    }
}

proof fn lemma_term_counts_bound(terms: Seq<Seq<char>>)
    ensures
        forall|k: int|
            0 <= k < term_counts(terms).len() ==> #[trigger] term_counts(terms)[k].1 <= terms.len(),
    decreases terms.len(),
{
    if terms.len() > 0 {
        lemma_term_counts_bound(terms.drop_last());
        lemma_term_index(term_counts(terms.drop_last()), terms.last());
    }
}

fn find_term(acc: &Vec<(String, usize)>, t: &String, Ghost(model): Ghost<Seq<(Seq<char>, nat)>>) -> (r: Option<usize>)
    requires
        acc@.len() == model.len(),
        forall|k: int| 0 <= k < acc@.len() ==> (#[trigger] acc@[k]).0@ == model[k].0,
    ensures
        r matches Some(j) ==> j < acc@.len() && term_index(model, t@) == Some(j as int),
        r is None ==> term_index(model, t@) is None,
{
    proof {
        lemma_term_index(model, t@);
    }
    let mut i: usize = 0;
    while i < acc.len()
        invariant
            i <= acc@.len() == model.len(),
            forall|k: int| 0 <= k < acc@.len() ==> (#[trigger] acc@[k]).0@ == model[k].0,
            forall|k: int| 0 <= k < i ==> model[k].0 != t@,
            term_index(model, t@) matches Some(j) ==> 0 <= j < model.len() && model[j].0 == t@
                && forall|k: int| 0 <= k < j ==> model[k].0 != t@,
            term_index(model, t@) is None ==> forall|k: int|
                0 <= k < model.len() ==> model[k].0 != t@,
        decreases acc@.len() - i,
    {
        if acc[i].0 == *t {
            return Some(i);
        }
        i = i + 1;
    }
    None
}

/// Compute term frequency (TF) for all terms in text: each distinct lower-cased token with
/// its number of occurrences, in order of first occurrence.
pub fn compute_tf(text: &str) -> (r: Vec<(String, usize)>)
    ensures
        r@.len() == term_counts(lower_tokens(text@)).len(),
        forall|k: int|
            0 <= k < r@.len() ==> (#[trigger] r@[k]).0@ == term_counts(lower_tokens(text@))[k].0
                && r@[k].1 == term_counts(lower_tokens(text@))[k].1,
{
    let tokens = tokenize(text);
    assert forall|j: int| 0 <= j < tokens@.len() implies str_to_lowercase((#[trigger] tokens@[j])@)
        == lower_tokens(text@)[j] by {}
    let ghost lt = lower_tokens(text@);
    let mut acc: Vec<(String, usize)> = Vec::new();
    let mut k: usize = 0;
    while k < tokens.len()
        invariant
            k <= tokens@.len() == lt.len(),
            lt == lower_tokens(text@),
            forall|j: int| 0 <= j < tokens@.len() ==> str_to_lowercase((#[trigger] tokens@[j])@) == lt[j],
            acc@.len() == term_counts(lt.take(k as int)).len(),
            forall|j: int|
                0 <= j < acc@.len() ==> (#[trigger] acc@[j]).0@ == term_counts(lt.take(k as int))[j].0
                    && acc@[j].1 == term_counts(lt.take(k as int))[j].1,
        decreases tokens@.len() - k,
    {
        let term = to_lowercase(tokens[k].as_str());
        let ghost prev = term_counts(lt.take(k as int));
        proof {
            assert(lt.take(k + 1).drop_last() =~= lt.take(k as int));
            assert(lt.take(k + 1).last() == term@);
            lemma_term_counts_bound(lt.take(k as int));
        }
        match find_term(&acc, &term, Ghost(prev)) {
            Some(j) => {
                let ghost before = acc@;
                let (t, c) = acc.remove(j);
                assert(prev[j as int].1 <= k);
                acc.insert(j, (t, c + 1));
                assert forall|i: int| 0 <= i < acc@.len() implies (#[trigger] acc@[i]).0@ == term_counts(
                    lt.take(k + 1),
                )[i].0 && acc@[i].1 == term_counts(lt.take(k + 1))[i].1 by {
                    lemma_term_index(prev, term@);
                    assert(term_counts(lt.take(k + 1)) == prev.update(
                        j as int,
                        (term@, prev[j as int].1 + 1),
                    ));
                    if i != j {
                        assert(acc@[i] == before[i]);
                    } else {
                        assert(t == before[j as int].0);
                        assert(c == before[j as int].1);
                    }
                }
            },
            None => {
                acc.push((term, 1));
            },
        }
        k = k + 1;
    }
    assert(lt.take(lt.len() as int) =~= lt);
    acc
}

/// The lower-cased tokens of a query, which expansion terms must not repeat.
pub fn query_terms(query: &str) -> (r: Vec<String>)
    ensures
        r@.len() == lower_tokens(query@).len(),
        forall|k: int| 0 <= k < r@.len() ==> (#[trigger] r@[k])@ == lower_tokens(query@)[k],
{
    let tokens = tokenize(query);
    let mut r: Vec<String> = Vec::new();
    let mut k: usize = 0;
    while k < tokens.len()
        invariant
            k <= tokens@.len() == spec_tokenize(query@).len(),
            forall|j: int| 0 <= j < tokens@.len() ==> (#[trigger] tokens@[j])@ == spec_tokenize(query@)[j],
            r@.len() == k,
            forall|j: int| 0 <= j < k ==> (#[trigger] r@[j])@ == lower_tokens(query@)[j],
        decreases tokens@.len() - k,
    {
        let t = to_lowercase(tokens[k].as_str());
        r.push(t);
        k = k + 1;
    }
    r
}

/// Whether a term may be proposed for expansion: not a stop word, not already in the query,
/// and at least three characters long.
pub open spec fn is_candidate(t: Seq<char>, query: Seq<Seq<char>>) -> bool {
    &&& !is_stop_word_spec(t)
    &&& !query.contains(t)
    &&& t.len() >= 3
}

/// The entries of a frequency table whose terms may be proposed for expansion, in order.
pub open spec fn candidates(tf: Seq<(Seq<char>, nat)>, query: Seq<Seq<char>>) -> Seq<(Seq<char>, nat)>
    decreases tf.len(),
{
    if tf.len() == 0 {
        Seq::empty()
    } else if is_candidate(tf.last().0, query) {
        candidates(tf.drop_last(), query).push(tf.last())
    } else {
        candidates(tf.drop_last(), query)
    }
}

/// The view of a term-frequency table.
pub open spec fn tf_view(v: Seq<(String, usize)>) -> Seq<(Seq<char>, nat)> {
    v.map_values(|e: (String, usize)| (e.0@, e.1 as nat))
}

fn contains_string(v: &Vec<String>, t: &String) -> (r: bool)
    ensures
        r == v@.map_values(|s: String| s@).contains(t@),
{
    let ghost m = v@.map_values(|s: String| s@);
    let mut i: usize = 0;
    while i < v.len()
        invariant
            i <= v@.len() == m.len(),
            m == v@.map_values(|s: String| s@),
            forall|k: int| 0 <= k < i ==> m[k] != t@,
        decreases v@.len() - i,
    {
        if v[i] == *t {
            assert(m[i as int] == t@);
            return true;
        }
        i = i + 1;
    }
    false
}

/// Keep the term frequencies of terms that may be proposed for expansion (see `is_candidate`).
pub fn expansion_candidates(tf: Vec<(String, usize)>, query_tokens: &Vec<String>) -> (r: Vec<
    (String, usize),
>)
    ensures
        tf_view(r@) == candidates(tf_view(tf@), query_tokens@.map_values(|s: String| s@)),
        forall|k: int, j: int|
            0 <= k < r@.len() && 0 <= j < query_tokens@.len() ==> (#[trigger] r@[k]).0@
                != (#[trigger] query_tokens@[j])@,
{
    let ghost q = query_tokens@.map_values(|s: String| s@);
    let ghost all = tf_view(tf@);
    let mut r: Vec<(String, usize)> = Vec::new();
    let mut k: usize = 0;
    let n = tf.len();
    for e in it: tf.into_iter()
        invariant
            tf_view(it.seq()) == all,
            n == it.seq().len(),
            k == it.index(),
            k <= n,
            q == query_tokens@.map_values(|s: String| s@),
            tf_view(r@) == candidates(all.take(k as int), q),
    {
        proof {
            assert(all.take(k + 1).drop_last() =~= all.take(k as int));
            assert(all.take(k + 1).last() == (e.0@, e.1 as nat));
        }
        let stop = is_stop_word(e.0.as_str());
        let in_query = contains_string(query_tokens, &e.0);
        let long_enough = chars_of(e.0.as_str()).len() >= 3;
        if !stop && !in_query && long_enough {
            let ghost before = r@;
            r.push(e);
            assert(tf_view(r@) =~= tf_view(before).push((e.0@, e.1 as nat)));
        }
        k = k + 1;
    }
    proof {
        assert(all.take(all.len() as int) =~= all);
        lemma_expansion_candidates(all, q);
        assert forall|k: int, j: int|
            0 <= k < r@.len() && 0 <= j < query_tokens@.len() implies (#[trigger] r@[k]).0@
                != (#[trigger] query_tokens@[j])@ by {
            assert(tf_view(r@)[k].0 == r@[k].0@);
            assert(q[j] == query_tokens@[j]@);
        }
    }
    r
}

/// `s` with every double quote doubled.
pub open spec fn double_quotes(s: Seq<char>) -> Seq<char>
    decreases s.len(),
{
    if s.len() == 0 {
        Seq::empty()
    } else if s.last() == '"' {
        double_quotes(s.drop_last()) + seq!['"', '"']
    } else {
        double_quotes(s.drop_last()).push(s.last())
    }
}

/// The term quoted as an FTS5 string literal: `"` + term with `"` doubled + `"`.
pub open spec fn spec_quote(t: Seq<char>) -> Seq<char> {
    seq!['"'] + double_quotes(t) + seq!['"']
}

fn push_quoted(out: &mut String, term: &str)
    ensures
        final(out)@ == old(out)@ + spec_quote(term@),
{
    let cs = chars_of(term);
    push_char(out, '"');
    let ghost start = out@;
    let mut i: usize = 0;
    while i < cs.len()
        invariant
            i <= cs@.len(),
            cs@ == term@,
            out@ == start + double_quotes(cs@.take(i as int)),
        decreases cs@.len() - i,
    {
        proof {
            assert(cs@.take(i + 1).drop_last() =~= cs@.take(i as int));
            assert(cs@.take(i + 1).last() == cs@[i as int]);
        }
        if cs[i] == '"' {
            push_char(out, '"');
            push_char(out, '"');
        } else {
            push_char(out, cs[i]);
        }
        assert(out@ =~= start + double_quotes(cs@.take(i + 1)));
        i = i + 1;
    }
    assert(cs@.take(cs@.len() as int) =~= cs@);
    push_char(out, '"');
    assert(out@ =~= old(out)@ + spec_quote(term@));
}

/// Quote a term for FTS5 so that it is matched as a literal string, not as a column name or
/// an operator.
pub fn quote_fts_term(term: &str) -> (r: String)
    ensures
        r@ == spec_quote(term@),
{
    let mut r = String::new();
    push_quoted(&mut r, term);
    assert(r@ =~= spec_quote(term@));
    r
}

/// The quoted terms joined by single spaces.
pub open spec fn quoted_join(ts: Seq<Seq<char>>) -> Seq<char>
    decreases ts.len(),
{
    if ts.len() == 0 {
        Seq::empty()
    } else if ts.len() == 1 {
        spec_quote(ts[0])
    } else {
        quoted_join(ts.drop_last()) + seq![' '] + spec_quote(ts.last())
    }
}

/// The expanded FTS5 query: the original query, a space, then each expansion term quoted,
/// separated by spaces.
pub fn expanded_query(query: &str, terms: &Vec<String>) -> (r: String)
    ensures
        r@ == query@ + seq![' '] + quoted_join(terms@.map_values(|s: String| s@)),
{
    let ghost ts = terms@.map_values(|s: String| s@);
    let mut r = query.to_string();
    push_char(&mut r, ' ');
    let ghost start = r@;
    let mut i: usize = 0;
    while i < terms.len()
        invariant
            i <= terms@.len() == ts.len(),
            ts == terms@.map_values(|s: String| s@),
            r@ == start + quoted_join(ts.take(i as int)),
        decreases terms@.len() - i,
    {
        proof {
            assert(ts.take(i + 1).drop_last() =~= ts.take(i as int));
            assert(ts.take(i + 1).last() == terms@[i as int]@);
        }
        if i > 0 {
            push_char(&mut r, ' ');
        }
        push_quoted(&mut r, terms[i].as_str());
        if i == 0 {
            assert(ts.take(1).len() == 1);
            assert(r@ =~= start + quoted_join(ts.take(1)));
        } else {
            assert(r@ =~= start + quoted_join(ts.take(i + 1)));
        }
        i = i + 1;
    }
    assert(ts.take(ts.len() as int) =~= ts);
    r
}

/// What expansion keeps: a kept entry is an entry of the table whose term is none of the
/// query's tokens, none of the stop words, and at least three characters long; and every
/// entry of the table with such a term is kept, in the table's order.
pub proof fn lemma_expansion_candidates(tf: Seq<(Seq<char>, nat)>, query: Seq<Seq<char>>)
    ensures
        ({
            let c = candidates(tf, query);
            &&& c.len() <= tf.len()
            &&& forall|k: int, j: int|
                0 <= k < c.len() && 0 <= j < query.len() ==> (#[trigger] c[k]).0 != #[trigger] query[j]
            &&& forall|k: int, w: int|
                0 <= k < c.len() && 0 <= w < STOP_WORDS@.len() ==> (#[trigger] c[k]).0 != (
                #[trigger] STOP_WORDS@[w])@
            &&& forall|k: int| 0 <= k < c.len() ==> (#[trigger] c[k]).0.len() >= 3 && tf.contains(c[k])
            &&& forall|i: int|
                0 <= i < tf.len() && (#[trigger] tf[i]).0.len() >= 3 && (forall|j: int|
                    0 <= j < query.len() ==> query[j] != tf[i].0) && (forall|w: int|
                    0 <= w < STOP_WORDS@.len() ==> (#[trigger] STOP_WORDS@[w])@ != tf[i].0)
                    ==> c.contains(tf[i])
        }),
    decreases tf.len(),
{
    if tf.len() > 0 {
        let init = tf.drop_last();
        lemma_expansion_candidates(init, query);
        let ci = candidates(init, query);
        let c = candidates(tf, query);
        let last = tf.last();
        assert forall|i: int| 0 <= i < init.len() implies #[trigger] init[i] == tf[i] by {}
        assert forall|k: int| 0 <= k < c.len() implies (#[trigger] c[k]).0.len() >= 3 && tf.contains(
            c[k],
        ) by {
            if k < ci.len() {
                assert(c[k] == ci[k]);
                let i = choose|i: int| 0 <= i < init.len() && init[i] == ci[k];
                assert(tf[i] == init[i]);
            } else {
                assert(c[k] == last);
                assert(tf[tf.len() - 1] == last);
            }
        }
        assert forall|k: int, j: int|
            0 <= k < c.len() && 0 <= j < query.len() implies (#[trigger] c[k]).0 != #[trigger] query[j] by {
            if k < ci.len() {
                assert(c[k] == ci[k]);
            } else {
                assert(c[k] == last);
                assert(!query.contains(last.0));
            }
        }
        assert forall|k: int, w: int|
            0 <= k < c.len() && 0 <= w < STOP_WORDS@.len() implies (#[trigger] c[k]).0 != (
            #[trigger] STOP_WORDS@[w])@ by {
            if k < ci.len() {
                assert(c[k] == ci[k]);
            } else {
                assert(c[k] == last);
                assert(!is_stop_word_spec(last.0));
            }
        }
        assert forall|i: int|
            0 <= i < tf.len() && (#[trigger] tf[i]).0.len() >= 3 && (forall|j: int|
                0 <= j < query.len() ==> query[j] != tf[i].0) && (forall|w: int|
                0 <= w < STOP_WORDS@.len() ==> (#[trigger] STOP_WORDS@[w])@ != tf[i].0)
                implies c.contains(tf[i]) by {
            if i < tf.len() - 1 {
                assert(init[i] == tf[i]);
                assert(ci.contains(init[i]));
                let k = choose|k: int| 0 <= k < ci.len() && ci[k] == init[i];
                assert(c[k] == ci[k]);
            } else {
                assert(tf[i] == last);
                assert(!query.contains(last.0));
                assert(!is_stop_word_spec(last.0));
                assert(c[c.len() - 1] == last);
            }
        }
    }
}

} // verus!
