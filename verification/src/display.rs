//! Formatting for display: human-readable sizes, timestamps and truncated strings.
use vstd::prelude::*;
use vstd::string::StringSliceAdditionalSpecFns;
use vstd::utf8::{decode_utf8, encode_utf8, is_char_boundary};
use crate::text::push_char;

verus! {

broadcast use vstd::utf8::encode_utf8_decode_utf8;

pub open spec fn ellipsis() -> Seq<char> {
    seq!['.', '.', '.']
}

/// Where `truncate` cuts a string longer than `max_len` bytes.
pub open spec fn truncate_cut(max_len: int) -> int {
    if max_len >= 3 {
        max_len - 3
    } else {
        0
    }
}

/// What `truncate` returns: the text itself when its UTF-8 encoding has at most `max_len`
/// bytes, otherwise its first `max_len - 3` bytes (none when `max_len < 3`) followed by `...`.
pub open spec fn spec_truncate(text: Seq<char>, max_len: int) -> Seq<char> {
    let bytes = encode_utf8(text);
    if bytes.len() <= max_len {
        text
    } else {
        decode_utf8(bytes.take(truncate_cut(max_len))) + ellipsis()
    }
}

/// Truncate a string to a maximum length in bytes, adding an ellipsis if needed.
///
/// The cut must fall on a character boundary (the byte slice would panic otherwise).
pub fn truncate(s: &str, max_len: usize) -> (r: String)
    requires
        s.spec_bytes().len() <= usize::MAX,
        s.spec_bytes().len() <= max_len || is_char_boundary(
            s.spec_bytes(),
            truncate_cut(max_len as int),
        ),
    ensures
        r@ == spec_truncate(s@, max_len as int),
{
    if s.len() <= max_len {
        return s.to_string();
    }
    let cut = if max_len >= 3 {
        max_len - 3
    } else {
        0
    };
    let (head, _tail) = s.split_at(cut);
    let mut r = head.to_owned();
    proof {
        assert(head.spec_bytes() == encode_utf8(head@));
        vstd::utf8::encode_utf8_decode_utf8(head@);
        assert(s.spec_bytes().subrange(0, cut as int) =~= s.spec_bytes().take(cut as int));
    }
    push_char(&mut r, '.');
    push_char(&mut r, '.');
    push_char(&mut r, '.');
    assert(r@ =~= head@ + ellipsis());
    r
}

/// The digit character for `d < 10`.
pub open spec fn digit(d: nat) -> char {
    ((d + 48) as u8) as char
}

/// The decimal representation of `n`, without leading zeros.
pub open spec fn dec(n: nat) -> Seq<char>
    decreases n,
{
    if n < 10 {
        seq![digit(n)]
    } else {
        dec(n / 10).push(digit(n % 10))
    }
}

fn digit_char(d: u128) -> (c: char)
    requires
        d < 10,
    ensures
        c == digit(d as nat),
{
    let b: u8 = d as u8 + 48;
    b as char
}

/// Appends the decimal representation of `n` (`format!("{}", n)`).
pub fn push_decimal(out: &mut String, n: u128)
    ensures
        final(out)@ == old(out)@ + dec(n as nat),
    decreases n,
{
    if n >= 10 {
        push_decimal(out, n / 10);
    }
    let c = digit_char(n % 10);
    push_char(out, c);
    proof {
        if n >= 10 {
            assert(dec(n as nat) == dec((n / 10) as nat).push(digit((n % 10) as nat)));
        } else {
            assert(dec(n as nat) == seq![digit(n as nat)]);
        }
    }
    assert(out@ =~= old(out)@ + dec(n as nat));
}

/// The decimal representation of `n` as a `String`.
pub fn decimal_string(n: u128) -> (r: String)
    ensures
        r@ == dec(n as nat),
{
    let mut r = String::new();
    push_decimal(&mut r, n);
    assert(r@ =~= dec(n as nat));
    r
}

/// Powers of two.
pub open spec fn p2(e: nat) -> nat
    decreases e,
{
    if e == 0 {
        1
    } else {
        2 * p2((e - 1) as nat)
    }
}

/// Number of binary digits of `n` (0 for 0).
pub open spec fn bit_len(n: nat) -> nat
    decreases n,
{
    if n == 0 {
        0
    } else {
        1 + bit_len(n / 2)
    }
}

/// The value of `n as f64`: `n` rounded to 53 significant bits, to nearest, ties to even.
pub open spec fn to_f64(n: nat) -> nat {
    if bit_len(n) <= 53 {
        n
    } else {
        let e = (bit_len(n) - 53) as nat;
        let q = n / p2(e);
        let r = n % p2(e);
        let h = p2((e - 1) as nat);
        (if r > h || (r == h && q % 2 == 1) {
            q + 1
        } else {
            q
        }) * p2(e)
    }
}

/// `num / den` rounded to the nearest integer, ties to even.
pub open spec fn round_half_even(num: nat, den: nat) -> nat {
    let q = num / den;
    let r = num % den;
    if 2 * r > den || (2 * r == den && q % 2 == 1) {
        q + 1
    } else {
        q
    }
}

/// `v / 2^k` printed with one decimal (`{:.1}`), exact value rounded ties to even,
/// followed by `unit`.
pub open spec fn one_decimal(v: nat, k: nat, unit: Seq<char>) -> Seq<char> {
    let t = round_half_even(10 * v, p2(k));
    dec(t / 10) + seq!['.', digit(t % 10), ' '] + unit
}

pub const KB: u64 = 1024;

pub const MB: u64 = 1024 * 1024;

pub const GB: u64 = 1024 * 1024 * 1024;

/// What `format_size` returns: `"{:.1} GB"`, `"{:.1} MB"` or `"{:.1} KB"` of the size as an
/// `f64` divided by the unit, for sizes of at least one unit, else `"{} B"`.
pub open spec fn spec_format_size(bytes: u64) -> Seq<char> {
    if bytes >= GB {
        one_decimal(to_f64(bytes as nat), 30, seq!['G', 'B'])
    } else if bytes >= MB {
        one_decimal(bytes as nat, 20, seq!['M', 'B'])
    } else if bytes >= KB {
        one_decimal(bytes as nat, 10, seq!['K', 'B'])
    } else {
        dec(bytes as nat) + seq![' ', 'B']
    }
}

proof fn lemma_p2_pos(e: nat)
    ensures
        p2(e) >= 1,
    decreases e,
{
    if e > 0 {
        lemma_p2_pos((e - 1) as nat);
    }
}

proof fn lemma_p2_64()
    ensures
        p2(64) == 0x1_0000_0000_0000_0000,
{
    reveal_with_fuel(p2, 65);
}

proof fn lemma_p2_small(i: nat)
    requires
        i <= 11,
    ensures
        p2(i) <= 2048,
        i > 0 ==> p2(i) == 2 * p2((i - 1) as nat),
{
    lemma_p2_mono(i, 11);
    assert(p2(11) == 2048) by {
        reveal_with_fuel(p2, 12);
    }
}

proof fn lemma_p2_values()
    ensures
        p2(10) == 1024,
        p2(20) == 1024 * 1024,
        p2(30) == 1024 * 1024 * 1024,
{
    reveal_with_fuel(p2, 31);
}

proof fn lemma_bit_len_bound(n: nat, k: nat)
    requires
        n < p2(k),
    ensures
        bit_len(n) <= k,
    decreases k,
{
    if n > 0 {
        assert(k > 0);
        assert(n / 2 < p2((k - 1) as nat));
        lemma_bit_len_bound(n / 2, (k - 1) as nat);
    }
}

proof fn lemma_p2_mono(a: nat, b: nat)
    requires
        a <= b,
    ensures
        p2(a) <= p2(b),
    decreases b,
{
    if a < b {
        lemma_p2_mono(a, (b - 1) as nat);
    }
}

/// The value of `n as f64`, exactly.
pub fn u64_as_f64_value(n: u64) -> (r: u128)
    ensures
        r == to_f64(n as nat),
        r <= 0x1_0000_0000_0000_0800u128,
{
    // number of binary digits
    let mut m: u64 = n;
    let mut b: u64 = 0;
    proof {
        lemma_p2_64();
        lemma_bit_len_bound(n as nat, 64);
    }
    while m > 0
        invariant
            b + bit_len(m as nat) == bit_len(n as nat),
            bit_len(n as nat) <= 64,
        decreases m,
    {
        m = m / 2;
        b = b + 1;
    }
    if b <= 53 {
        return n as u128;
    }
    let e = b - 53;
    let mut p: u128 = 1;
    let mut i: u64 = 0;
    while i < e
        invariant
            i <= e <= 11,
            p == p2(i as nat),
        decreases e - i,
    {
        proof {
            lemma_p2_small(i as nat);
        }
        p = p * 2;
        i = i + 1;
    }
    proof {
        lemma_p2_pos(e as nat);
    }
    let half = p / 2;
    let nn = n as u128;
    let q = nn / p;
    let r = nn % p;
    proof {
        lemma_p2_pos(e as nat);
        assert(p2(e as nat) == 2 * p2((e - 1) as nat));
        assert(half == p2((e - 1) as nat));
        assert(q * p <= nn) by (nonlinear_arith)
            requires
                q == nn / p,
                p > 0,
        ;
        lemma_p2_small(e as nat);
    }
    let qq = if r > half || (r == half && q % 2 == 1) {
        q + 1
    } else {
        q
    };
    proof {
        assert(qq * p <= nn + p) by (nonlinear_arith)
            requires
                qq <= q + 1,
                q * p <= nn,
        ;
    }
    qq * p
}

/// `num / den` rounded to nearest, ties to even.
fn round_tenths(num: u128, den: u128) -> (t: u128)
    requires
        0 < den < 0x1_0000_0000_0000_0000u128,
        num < 0x8000_0000_0000_0000_0000_0000_0000_0000u128,
    ensures
        t == round_half_even(num as nat, den as nat),
{
    let q = num / den;
    let r = num % den;
    if 2 * r > den || (2 * r == den && q % 2 == 1) {
        q + 1
    } else {
        q
    }
}

fn push_one_decimal(out: &mut String, v: u128, den: u128, k: Ghost<nat>, u1: char, u2: char)
    requires
        den == p2(k@),
        0 < den < 0x1_0000_0000_0000_0000u128,
        v <= 0x1_0000_0000_0000_0800u128,
    ensures
        final(out)@ == old(out)@ + one_decimal(v as nat, k@, seq![u1, u2]),
{
    let t = round_tenths(v * 10, den);
    push_decimal(out, t / 10);
    push_char(out, '.');
    let c = digit_char(t % 10);
    push_char(out, c);
    push_char(out, ' ');
    push_char(out, u1);
    push_char(out, u2);
    assert(10 * (v as nat) == (v * 10) as nat);
    assert(out@ =~= old(out)@ + one_decimal(v as nat, k@, seq![u1, u2]));
}

/// Format bytes as human-readable size.
pub fn format_size(bytes: u64) -> (r: String)
    ensures
        r@ == spec_format_size(bytes),
{
    proof {
        lemma_p2_values();
    }
    let mut r = String::new();
    if bytes >= GB {
        let v = u64_as_f64_value(bytes);
        push_one_decimal(&mut r, v, GB as u128, Ghost(30), 'G', 'B');
    } else if bytes >= MB {
        push_one_decimal(&mut r, bytes as u128, MB as u128, Ghost(20), 'M', 'B');
    } else if bytes >= KB {
        push_one_decimal(&mut r, bytes as u128, KB as u128, Ghost(10), 'K', 'B');
    } else {
        push_decimal(&mut r, bytes as u128);
        push_char(&mut r, ' ');
        push_char(&mut r, 'B');
    }
    assert(r@ =~= spec_format_size(bytes));
    r
}

/// Whether `chrono` accepts `ts` as an RFC 3339 date and time.
pub uninterp spec fn rfc3339_valid(ts: Seq<char>) -> bool;

/// `chrono::DateTime::parse_from_rfc3339`, and the parsed time written as
/// `%Y-%m-%d %H:%M` (in its own offset). The parser reads a fixed ASCII layout
/// `YYYY-MM-DD?HH:MM:SS...` (any of `T`, `t` or a space between date and time), so the written
/// text is the date, a space, and the hour and minute exactly as they appear in `ts`.
#[verifier::external_body]
fn rfc3339_minutes(ts: &str) -> (r: Option<String>)
    ensures
        r is Some <==> rfc3339_valid(ts@),
        r matches Some(s) ==> ts@.len() >= 16 && s@ == ts@.take(10) + seq![' '] + ts@.subrange(
            11,
            16,
        ),
{
    match chrono::DateTime::parse_from_rfc3339(ts) {
        Ok(dt) => Some(dt.format("%Y-%m-%d %H:%M").to_string()),
        Err(_) => None,
    }
}

/// What `format_timestamp` returns: for an RFC 3339 timestamp, its date and its hour and
/// minute (`2024-01-01 09:30`); any other text unchanged.
pub open spec fn spec_format_timestamp(ts: Seq<char>) -> Seq<char> {
    if rfc3339_valid(ts) {
        ts.take(10) + seq![' '] + ts.subrange(11, 16)
    } else {
        ts
    }
}

/// Format an ISO 8601 timestamp as date and time, falling back to the raw string.
pub fn format_timestamp(timestamp: &str) -> (r: String)
    ensures
        r@ == spec_format_timestamp(timestamp@),
{
    match rfc3339_minutes(timestamp) {
        Some(s) => s,
        None => timestamp.to_string(),
    }
}

} // verus!
