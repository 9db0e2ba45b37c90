//! Character-level text primitives: Unicode whitespace, word splitting and joining.
use vstd::prelude::*;
use vstd::string::StringSliceAdditionalSpecFns;
use vstd::utf8::{encode_utf8, is_char_boundary, valid_utf8};

verus! {

/// The Unicode `White_Space` property, which is what `char::is_whitespace` tests.
pub open spec fn is_ws(c: char) -> bool {
    let u = c as u32;
    ||| 0x09 <= u <= 0x0D
    ||| u == 0x20
    ||| u == 0x85
    ||| u == 0xA0
    ||| u == 0x1680
    ||| 0x2000 <= u <= 0x200A
    ||| u == 0x2028
    ||| u == 0x2029
    ||| u == 0x202F
    ||| u == 0x205F
    ||| u == 0x3000
}

/// Whether `c` is Unicode whitespace.
pub fn is_whitespace_char(c: char) -> (r: bool)
    ensures
        r == is_ws(c),
{
    let u = c as u32;
    (0x09 <= u && u <= 0x0D) || u == 0x20 || u == 0x85 || u == 0xA0 || u == 0x1680 || (0x2000
        <= u && u <= 0x200A) || u == 0x2028 || u == 0x2029 || u == 0x202F || u == 0x205F || u
        == 0x3000
}

/// A sequence of characters none of which is whitespace.
pub open spec fn no_ws(w: Seq<char>) -> bool {
    forall|i: int| 0 <= i < w.len() ==> !is_ws(#[trigger] w[i])
}

/// Scanning `s` from the left: the words already closed by a whitespace character,
/// and the (possibly empty) word still being read.
pub open spec fn split_ws(s: Seq<char>) -> (Seq<Seq<char>>, Seq<char>)
    decreases s.len(),
{
    if s.len() == 0 {
        (Seq::empty(), Seq::empty())
    } else {
        let (done, cur) = split_ws(s.drop_last());
        let c = s.last();
        if is_ws(c) {
            if cur.len() > 0 {
                (done.push(cur), Seq::empty())
            } else {
                (done, Seq::empty())
            }
        } else {
            (done, cur.push(c))
        }
    }
}

/// The maximal runs of non-whitespace characters of `s`, in order
/// (what `str::split_whitespace` yields).
pub open spec fn words(s: Seq<char>) -> Seq<Seq<char>> {
    let (done, cur) = split_ws(s);
    if cur.len() > 0 {
        done.push(cur)
    } else {
        done
    }
}

/// `ws` joined with `sep` between consecutive elements (what `[&str]::join` gives).
pub open spec fn join(ws: Seq<Seq<char>>, sep: Seq<char>) -> Seq<char>
    decreases ws.len(),
{
    if ws.len() == 0 {
        Seq::empty()
    } else if ws.len() == 1 {
        ws[0]
    } else {
        join(ws.drop_last(), sep) + sep + ws.last()
    }
}

/// Every element is a word: non-empty and free of whitespace.
pub open spec fn all_words(ws: Seq<Seq<char>>) -> bool {
    forall|i: int| 0 <= i < ws.len() ==> (#[trigger] ws[i]).len() > 0 && no_ws(ws[i])
}

pub open spec fn space() -> Seq<char> {
    seq![' ']
}

/// Whether `s` consists of whitespace only (or nothing): `s.trim().is_empty()`.
pub open spec fn blank(s: Seq<char>) -> bool {
    forall|i: int| 0 <= i < s.len() ==> is_ws(#[trigger] s[i])
}

proof fn lemma_split_ws_state(s: Seq<char>)
    ensures
        all_words(split_ws(s).0),
        no_ws(split_ws(s).1),
    decreases s.len(),
{
    if s.len() > 0 {
        lemma_split_ws_state(s.drop_last());
        let (done, cur) = split_ws(s.drop_last());
        assert forall|i: int| 0 <= i < split_ws(s).0.len() implies (#[trigger] split_ws(
            s,
        ).0[i]).len() > 0 && no_ws(split_ws(s).0[i]) by {
            if i < done.len() {
                assert(split_ws(s).0[i] == done[i]);
            }
        }
        assert forall|i: int| 0 <= i < split_ws(s).1.len() implies !is_ws(
            #[trigger] split_ws(s).1[i],
        ) by {
            if i < cur.len() {
                assert(split_ws(s).1[i] == cur[i]);
            }
        }
    }
}

/// Every element of `words(s)` is a word.
pub proof fn lemma_words_are_words(s: Seq<char>)
    ensures
        all_words(words(s)),
{
    lemma_split_ws_state(s);
    let (done, cur) = split_ws(s);
    assert forall|i: int| 0 <= i < words(s).len() implies (#[trigger] words(s)[i]).len() > 0
        && no_ws(words(s)[i]) by {
        if i < done.len() {
            assert(words(s)[i] == done[i]);
        }
    }
}

/// Reading whitespace-free characters extends the pending word.
proof fn lemma_split_append_word(p: Seq<char>, w: Seq<char>)
    requires
        no_ws(w),
    ensures
        split_ws(p + w) == (split_ws(p).0, split_ws(p).1 + w),
    decreases w.len(),
{
    if w.len() == 0 {
        assert(p + w =~= p);
        assert(split_ws(p).1 + w =~= split_ws(p).1);
    } else {
        let w0 = w.drop_last();
        assert(no_ws(w0)) by {
            assert forall|i: int| 0 <= i < w0.len() implies !is_ws(#[trigger] w0[i]) by {
                assert(w0[i] == w[i]);
            }
        }
        lemma_split_append_word(p, w0);
        assert((p + w).drop_last() =~= p + w0);
        assert((p + w).last() == w.last());
        assert(!is_ws(w[w.len() - 1]));
        assert((split_ws(p).1 + w0).push(w.last()) =~= split_ws(p).1 + w);
    }
}

/// Joining words with single spaces and splitting again gives the words back.
pub proof fn lemma_words_of_join(ws: Seq<Seq<char>>)
    requires
        all_words(ws),
    ensures
        words(join(ws, space())) == ws,
    decreases ws.len(),
{
    lemma_split_of_join(ws);
    if ws.len() > 0 {
        assert(ws.drop_last().push(ws.last()) =~= ws);
    }
}

proof fn lemma_split_of_join(ws: Seq<Seq<char>>)
    requires
        all_words(ws),
    ensures
        ws.len() == 0 ==> split_ws(join(ws, space())) == (Seq::<Seq<char>>::empty(), Seq::<
            char,
        >::empty()),
        ws.len() > 0 ==> split_ws(join(ws, space())) == (ws.drop_last(), ws.last()),
    decreases ws.len(),
{
    if ws.len() == 0 {
    } else if ws.len() == 1 {
        assert(ws[0].len() > 0 && no_ws(ws[0]));
        let e = Seq::<char>::empty();
        lemma_split_append_word(e, ws[0]);
        assert(e + ws[0] =~= ws[0]);
        assert(e + ws[0] =~= ws[0]);
        assert(ws.drop_last() =~= Seq::<Seq<char>>::empty());
    } else {
        let init = ws.drop_last();
        assert(all_words(init)) by {
            assert forall|i: int| 0 <= i < init.len() implies (#[trigger] init[i]).len() > 0
                && no_ws(init[i]) by {
                assert(init[i] == ws[i]);
            }
        }
        lemma_split_of_join(init);
        let j = join(init, space());
        assert(split_ws(j) == (init.drop_last(), init.last()));
        // reading the separating space closes the last word of `init`
        let js = j + space();
        assert(js.drop_last() =~= j);
        assert(js.last() == ' ');
        assert(is_ws(' '));
        assert(init.last() == ws[ws.len() - 2]);
        assert(init.last().len() > 0);
        assert(split_ws(js) == (init.drop_last().push(init.last()), Seq::<char>::empty()));
        assert(init.drop_last().push(init.last()) =~= init);
        // then the last word is read into the pending word
        assert(ws.last() == ws[ws.len() - 1]);
        lemma_split_append_word(js, ws.last());
        assert(Seq::<char>::empty() + ws.last() =~= ws.last());
        assert(join(ws, space()) == js + ws.last());
    }
}

/// The characters of `s`, in order.
pub fn chars_of(s: &str) -> (r: Vec<char>)
    ensures
        r@ == s@,
{
    let mut r: Vec<char> = Vec::new();
    for c in it: s.chars()
        invariant
            r@ == it.seq().take(it.index() as int),
    {
        r.push(c);
    }
    r
}

/// Appends one character to a `String` (`String::push`).
#[verifier::external_body]
pub(crate) fn push_char(s: &mut String, c: char)
    ensures
        final(s)@ == old(s)@.push(c),
{
    s.push(c);
}

/// `std::str::from_utf8`: the bytes as a string when they are valid UTF-8.
#[verifier::external_body]
pub(crate) fn str_from_utf8(b: &[u8]) -> (r: Option<&str>)
    ensures
        r is Some <==> valid_utf8(b@),
        r matches Some(s) ==> s.spec_bytes() == b@,
{
    std::str::from_utf8(b).ok()
}

/// `String::insert`: puts `c` at byte position `idx`, which must be a character boundary.
#[verifier::external_body]
pub(crate) fn string_insert(s: &mut String, idx: usize, c: char)
    requires
        is_char_boundary(encode_utf8(old(s)@), idx as int),
    ensures
        encode_utf8(final(s)@) == encode_utf8(old(s)@).take(idx as int) + encode_utf8(seq![c])
            + encode_utf8(old(s)@).skip(idx as int),
{
    s.insert(idx, c);
}

/// `String::remove`: takes out and returns the character that starts at byte position `idx`,
/// which must be a character boundary before the end.
#[verifier::external_body]
pub(crate) fn string_remove(s: &mut String, idx: usize) -> (c: char)
    requires
        is_char_boundary(encode_utf8(old(s)@), idx as int),
        idx < encode_utf8(old(s)@).len(),
    ensures
        idx + encode_utf8(seq![c]).len() <= encode_utf8(old(s)@).len(),
        encode_utf8(old(s)@).subrange(idx as int, idx + encode_utf8(seq![c]).len())
            == encode_utf8(seq![c]),
        encode_utf8(final(s)@) == encode_utf8(old(s)@).take(idx as int) + encode_utf8(old(s)@).skip(
            idx + encode_utf8(seq![c]).len(),
        ),
{
    s.remove(idx)
}

/// The UTF-8 encoding of a single character is one to four bytes long.
pub proof fn lemma_char_width(c: char)
    ensures
        1 <= encode_utf8(seq![c]).len() <= 4,
{
    reveal_with_fuel(encode_utf8, 2);
    assert(seq![c].drop_first() =~= Seq::<char>::empty());
}

/// A `String` holding exactly the characters `cs[from..to]`.
pub fn string_from_chars(cs: &Vec<char>, from: usize, to: usize) -> (r: String)
    requires
        from <= to <= cs.len(),
    ensures
        r@ == cs@.subrange(from as int, to as int),
{
    let mut r = String::new();
    let mut i = from;
    while i < to
        invariant
            from <= i <= to <= cs.len(),
            r@ == cs@.subrange(from as int, i as int),
        decreases to - i,
    {
        push_char(&mut r, cs[i]);
        i = i + 1;
        assert(r@ =~= cs@.subrange(from as int, i as int));
    }
    r
}

/// The whitespace-separated words of `cs`, each as the index range `[start, end)` it occupies.
pub fn word_spans(cs: &Vec<char>) -> (r: Vec<(usize, usize)>)
    ensures
        r@.len() == words(cs@).len(),
        forall|k: int|
            0 <= k < r@.len() ==> {
                &&& (#[trigger] r@[k]).0 < r@[k].1 <= cs@.len()
                &&& cs@.subrange(r@[k].0 as int, r@[k].1 as int) == words(cs@)[k]
            },
{
    let mut r: Vec<(usize, usize)> = Vec::new();
    let mut start: usize = 0;
    let mut i: usize = 0;
    let n = cs.len();
    while i < n
        invariant
            n == cs.len(),
            start <= i <= n,
            split_ws(cs@.take(i as int)).0.len() == r@.len(),
            split_ws(cs@.take(i as int)).1 == cs@.subrange(start as int, i as int),
            forall|k: int|
                0 <= k < r@.len() ==> {
                    &&& (#[trigger] r@[k]).0 < r@[k].1 <= i
                    &&& cs@.subrange(r@[k].0 as int, r@[k].1 as int) == split_ws(
                        cs@.take(i as int),
                    ).0[k]
                },
        decreases n - i,
    {
        let c = cs[i];
        let ghost pre = cs@.take(i as int);
        let ghost post = cs@.take(i + 1);
        assert(post.drop_last() =~= pre);
        assert(post.last() == c);
        if is_whitespace_char(c) {
            if start < i {
                r.push((start, i));
            }
            start = i + 1;
            assert(cs@.subrange(start as int, (i + 1) as int) =~= Seq::<char>::empty());
        } else {
            assert(cs@.subrange(start as int, (i + 1) as int) =~= cs@.subrange(
                start as int,
                i as int,
            ).push(c));
        }
        i = i + 1;
    }
    assert(cs@.take(n as int) =~= cs@);
    if start < n {
        r.push((start, n));
    }
    r
}

/// The words of `s` (`str::split_whitespace`), as character vectors.
pub fn split_words(s: &str) -> (r: Vec<Vec<char>>)
    ensures
        r@.len() == words(s@).len(),
        forall|k: int| 0 <= k < r@.len() ==> (#[trigger] r@[k])@ == words(s@)[k],
{
    let cs = chars_of(s);
    let spans = word_spans(&cs);
    let mut r: Vec<Vec<char>> = Vec::new();
    let mut k: usize = 0;
    while k < spans.len()
        invariant
            k <= spans@.len(),
            cs@ == s@,
            spans@.len() == words(cs@).len(),
            forall|j: int|
                0 <= j < spans@.len() ==> {
                    &&& (#[trigger] spans@[j]).0 < spans@[j].1 <= cs@.len()
                    &&& cs@.subrange(spans@[j].0 as int, spans@[j].1 as int) == words(cs@)[j]
                },
            r@.len() == k,
            forall|j: int| 0 <= j < k ==> (#[trigger] r@[j])@ == words(s@)[j],
        decreases spans@.len() - k,
    {
        let (a, b) = spans[k];
        let mut w: Vec<char> = Vec::new();
        let mut i = a;
        while i < b
            invariant
                a <= i <= b <= cs@.len(),
                w@ == cs@.subrange(a as int, i as int),
            decreases b - i,
        {
            w.push(cs[i]);
            i = i + 1;
            assert(w@ =~= cs@.subrange(a as int, i as int));
        }
        r.push(w);
        k = k + 1;
    }
    r
}

/// Appends `ws[from..to]` to `out`, separated by single spaces.
pub fn push_joined(out: &mut String, ws: &Vec<Vec<char>>, from: usize, to: usize)
    requires
        from < to <= ws@.len(),
    ensures
        final(out)@ == old(out)@ + join(
            ws@.subrange(from as int, to as int).map_values(|w: Vec<char>| w@),
            space(),
        ),
{
    let ghost orig = out@;
    let mut k = from;
    while k < to
        invariant
            from <= k <= to <= ws@.len(),
            k == from ==> out@ == orig,
            k > from ==> out@ == orig + join(
                ws@.subrange(from as int, k as int).map_values(|w: Vec<char>| w@),
                space(),
            ),
        decreases to - k,
    {
        let ghost before = out@;
        if k > from {
            push_char(out, ' ');
        }
        let w = &ws[k];
        let mut i: usize = 0;
        while i < w.len()
            invariant
                i <= w@.len(),
                w@ == ws@[k as int]@,
                k == from ==> out@ == before + w@.take(i as int),
                k > from ==> out@ == before + space() + w@.take(i as int),
            decreases w@.len() - i,
        {
            push_char(out, w[i]);
            i = i + 1;
            assert(w@.take(i as int) =~= w@.take((i - 1) as int).push(w@[i - 1]));
        }
        assert(w@.take(w@.len() as int) =~= w@);
        let ghost part = ws@.subrange(from as int, (k + 1) as int).map_values(
            |w: Vec<char>| w@,
        );
        let ghost prev = ws@.subrange(from as int, k as int).map_values(|w: Vec<char>| w@);
        assert(part.drop_last() =~= prev);
        assert(part.last() == ws@[k as int]@);
        if k == from {
            assert(part.len() == 1);
            assert(join(part, space()) == part[0]);
            assert(out@ =~= orig + join(part, space()));
        } else {
            assert(join(part, space()) == join(prev, space()) + space() + part.last());
            assert(out@ =~= orig + join(part, space()));
        }
        k = k + 1;
    }
}

} // verus!
