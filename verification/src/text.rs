//! Text building blocks: decimal and fixed-point formatting, decimal parsing,
//! and conversions between `String` and character vectors.

use vstd::prelude::*;
use vstd::string::StringExecFns;

verus! {

/// The character that writes the decimal digit `d`.
pub open spec fn digit_char(d: nat) -> char {
    (d + 48) as char
}

/// The shortest decimal representation of `n`.
pub open spec fn decimal(n: nat) -> Seq<char>
    decreases n,
{
    if n < 10 {
        seq![digit_char(n)]
    } else {
        decimal(n / 10).push(digit_char(n % 10))
    }
}

/// Calls `String::push`, which std documents as appending `c` to the end
/// of the string; the contract says exactly that.
#[verifier::external_body]
fn string_push(s: &mut String, c: char)
    ensures
        final(s)@ == old(s)@.push(c),
{
    s.push(c)
}

/// Builds a `String` from its characters.
pub fn string_from_chars(v: &Vec<char>) -> (s: String)
    ensures
        s@ == v@,
{
    let mut s = String::new();
    let mut i: usize = 0;
    while i < v.len()
        invariant
            i <= v.len(),
            s@ == v@.take(i as int),
        decreases v.len() - i,
    {
        string_push(&mut s, v[i]);
        assert(v@.take(i as int + 1) =~= v@.take(i as int).push(v@[i as int]));
        i = i + 1;
    }
    assert(v@.take(v.len() as int) =~= v@);
    s
}

/// The characters of `s`, in order.
pub fn chars_of(s: &str) -> (v: Vec<char>)
    ensures
        v@ == s@,
{
    broadcast use vstd::string::group_string_axioms;
    let mut v: Vec<char> = Vec::new();
    for c in it: s.chars()
        invariant
            v@ == it.seq().take(it.index() as int),
            it.seq() == s@,
    {
        v.push(c);
    }
    v
}

/// Appends the decimal representation of `n` to `out`.
pub fn push_decimal(out: &mut Vec<char>, n: u128)
    ensures
        final(out)@ == old(out)@ + decimal(n as nat),
    decreases n,
{
    let ghost start = out@;
    if n >= 10 {
        push_decimal(out, n / 10);
    }
    let d: u8 = (n % 10) as u8;
    out.push((d + 48) as char);
    assert(out@ =~= start + decimal(n as nat));
}


/// Appends the characters of `lit` to `out`.
pub fn push_str(out: &mut Vec<char>, lit: &str)
    ensures
        final(out)@ == old(out)@ + lit@,
{
    let cs = chars_of(lit);
    let ghost start = out@;
    let mut i: usize = 0;
    while i < cs.len()
        invariant
            i <= cs.len(),
            cs@ == lit@,
            out@ == start + cs@.take(i as int),
        decreases cs.len() - i,
    {
        out.push(cs[i]);
        assert(cs@.take(i as int + 1) =~= cs@.take(i as int).push(cs@[i as int]));
        i = i + 1;
    }
    assert(cs@.take(cs.len() as int) =~= cs@);
}

/// Appends all of `src` to `out`.
pub fn push_chars(out: &mut Vec<char>, src: &Vec<char>)
    ensures
        final(out)@ == old(out)@ + src@,
{
    let ghost start = out@;
    let mut i: usize = 0;
    while i < src.len()
        invariant
            i <= src.len(),
            out@ == start + src@.take(i as int),
        decreases src.len() - i,
    {
        out.push(src[i]);
        assert(src@.take(i as int + 1) =~= src@.take(i as int).push(src@[i as int]));
        i = i + 1;
    }
    assert(src@.take(src.len() as int) =~= src@);
}

/// `10` raised to `k`.
pub open spec fn pow10(k: nat) -> nat
    decreases k,
{
    if k == 0 {
        1
    } else {
        10 * pow10((k - 1) as nat)
    }
}

/// The last `k` decimal digits of `n`, with leading zeros.
pub open spec fn padded_digits(n: nat, k: nat) -> Seq<char>
    decreases k,
{
    if k == 0 {
        Seq::empty()
    } else {
        padded_digits(n / 10, (k - 1) as nat).push(digit_char(n % 10))
    }
}

/// `v / 10^k` written with exactly `k` digits after the decimal point.
pub open spec fn fixed_point(v: nat, k: nat) -> Seq<char> {
    if k == 0 {
        decimal(v)
    } else {
        decimal(v / pow10(k)) + seq!['.'] + padded_digits(v % pow10(k), k)
    }
}

/// `n / d` rounded to the nearest integer, ties to the even neighbour.
pub open spec fn round_half_even(n: nat, d: nat) -> nat
    recommends
        d > 0,
{
    let q = n / d;
    let r = n % d;
    if 2 * r > d || (2 * r == d && q % 2 == 1) {
        q + 1
    } else {
        q
    }
}

pub proof fn lemma_pow10_positive(k: nat)
    ensures
        pow10(k) >= 1,
    decreases k,
{
    if k > 0 {
        lemma_pow10_positive((k - 1) as nat);
    }
}

/// Appends the last `k` decimal digits of `n` with leading zeros.
pub fn push_padded(out: &mut Vec<char>, n: u128, k: u32)
    ensures
        final(out)@ == old(out)@ + padded_digits(n as nat, k as nat),
    decreases k,
{
    let ghost start = out@;
    if k > 0 {
        push_padded(out, n / 10, k - 1);
        let d: u8 = (n % 10) as u8;
        out.push((d + 48) as char);
    }
    assert(out@ =~= start + padded_digits(n as nat, k as nat));
}

/// Computes `10^k` for small `k`.
pub fn pow10_exec(k: u32) -> (r: u128)
    requires
        k <= 18,
    ensures
        r == pow10(k as nat),
        r <= 1_000_000_000_000_000_000,
    decreases k,
{
    proof {
        lemma_pow10_mono(k as nat, 18);
        lemma_pow10_18();
    }
    if k == 0 {
        1
    } else {
        let p = pow10_exec(k - 1);
        10 * p
    }
}

pub proof fn lemma_pow10_18()
    ensures
        pow10(18) == 1_000_000_000_000_000_000,
{
    reveal_with_fuel(pow10, 19);
}

pub proof fn lemma_pow10_mono(a: nat, b: nat)
    requires
        a <= b,
    ensures
        pow10(a) <= pow10(b),
    decreases b,
{
    if a < b {
        lemma_pow10_mono(a, (b - 1) as nat);
        lemma_pow10_positive((b - 1) as nat);
    }
}

/// Appends `v / 10^k` written with `k` digits after the point.
pub fn push_fixed(out: &mut Vec<char>, v: u128, k: u32)
    requires
        k <= 18,
    ensures
        final(out)@ == old(out)@ + fixed_point(v as nat, k as nat),
{
    let ghost start = out@;
    if k == 0 {
        push_decimal(out, v);
    } else {
        let p = pow10_exec(k);
        proof { lemma_pow10_positive(k as nat); }
        push_decimal(out, v / p);
        out.push('.');
        push_padded(out, v % p, k);
    }
    assert(out@ =~= start + fixed_point(v as nat, k as nat));
}

/// `n / d` rounded to the nearest integer, ties to even.
pub fn round_half_even_exec(n: u128, d: u128) -> (r: u128)
    requires
        d > 0,
        n / d < u128::MAX,
    ensures
        r == round_half_even(n as nat, d as nat),
{
    let q = n / d;
    let r = n % d;
    let twice_r_gt = r > d - r;
    let twice_r_eq = r == d - r;
    if twice_r_gt || (twice_r_eq && q % 2 == 1) {
        q + 1
    } else {
        q
    }
}


/// `c` is one of the ASCII digits `0`..`9`.
pub open spec fn is_digit(c: char) -> bool {
    '0' <= c && c <= '9'
}

/// The value of the ASCII digit `c`.
pub open spec fn digit_value(c: char) -> nat {
    (c as int - 48) as nat
}

/// Every character of `s` is an ASCII digit.
pub open spec fn all_digits(s: Seq<char>) -> bool {
    forall|i: int| 0 <= i < s.len() ==> is_digit(#[trigger] s[i])
}

/// The number that the digit string `s` writes in base ten.
pub open spec fn digits_value(s: Seq<char>) -> nat
    decreases s.len(),
{
    if s.len() == 0 {
        0
    } else {
        digits_value(s.drop_last()) * 10 + digit_value(s.last())
    }
}

/// What `u64::from_str` accepts: an optional `+`, then one or more
/// digits whose value fits in 64 bits.
pub open spec fn u64_text(s: Seq<char>) -> Option<u64> {
    let body = if s.len() > 0 && s[0] == '+' { s.skip(1) } else { s };
    if body.len() > 0 && all_digits(body) && digits_value(body) <= u64::MAX {
        Some(digits_value(body) as u64)
    } else {
        None
    }
}

pub proof fn lemma_digits_value_prefix_grows(s: Seq<char>, i: int, j: int)
    requires
        0 <= i <= j <= s.len(),
    ensures
        digits_value(s.take(i)) <= digits_value(s.take(j)),
    decreases j - i,
{
    if i < j {
        lemma_digits_value_prefix_grows(s, i, j - 1);
        assert(s.take(j).drop_last() =~= s.take(j - 1));
    }
}

/// Parses `s` as `u64::from_str` does.
pub fn parse_u64_text(s: &Vec<char>) -> (r: Option<u64>)
    ensures
        r == u64_text(s@),
{
    let start: usize = if s.len() > 0 && s[0] == '+' { 1 } else { 0 };
    let ghost body = if s@.len() > 0 && s@[0] == '+' { s@.skip(1) } else { s@ };
    assert(body =~= s@.skip(start as int));
    if start >= s.len() {
        return None;
    }
    let mut acc: u128 = 0;
    let mut i: usize = start;
    while i < s.len()
        invariant
            start <= i <= s.len(),
            start < s.len(),
            body == (if s@.len() > 0 && s@[0] == '+' { s@.skip(1) } else { s@ }),
            body =~= s@.skip(start as int),
            all_digits(body.take(i - start)),
            acc == digits_value(body.take(i - start)),
            acc <= u64::MAX,
        decreases s.len() - i,
    {
        let c = s[i];
        if !('0' <= c && c <= '9') {
            assert(body[i - start] == c);
            assert(!is_digit(body[i - start]));
            assert(!all_digits(body));
            return None;
        }
        let ghost k = i - start;
        assert(body.take(k + 1).drop_last() =~= body.take(k));
        assert(body.take(k + 1).last() == c);
        let d: u128 = (c as u32 - 48) as u128;
        acc = acc * 10 + d;
        i = i + 1;
        assert(all_digits(body.take(i - start))) by {
            assert forall|m: int| 0 <= m < body.take(i - start).len() implies is_digit(
                #[trigger] body.take(i - start)[m],
            ) by {
                if m < k {
                    assert(body.take(i - start)[m] == body.take(k)[m]);
                }
            }
        }
        if acc > 0xffff_ffff_ffff_ffffu128 {
            proof {
                lemma_digits_value_prefix_grows(body, i - start, body.len() as int);
                assert(body.take(body.len() as int) =~= body);
            }
            return None;
        }
    }
    assert(body.take(i - start) =~= body);
    Some(acc as u64)
}

/// What `char::is_whitespace` accepts: the characters with the Unicode
/// `White_Space` property.
pub open spec fn is_white(c: char) -> bool {
    ||| ('\t' <= c && c <= '\r')
    ||| c == ' '
    ||| c == '\u{85}'
    ||| c == '\u{a0}'
    ||| c == '\u{1680}'
    ||| ('\u{2000}' <= c && c <= '\u{200a}')
    ||| c == '\u{2028}'
    ||| c == '\u{2029}'
    ||| c == '\u{202f}'
    ||| c == '\u{205f}'
    ||| c == '\u{3000}'
}

pub fn is_white_exec(c: char) -> (r: bool)
    ensures
        r == is_white(c),
{
    ('\t' <= c && c <= '\r') || c == ' ' || c == '\u{85}' || c == '\u{a0}' || c == '\u{1680}'
        || ('\u{2000}' <= c && c <= '\u{200a}') || c == '\u{2028}' || c == '\u{2029}'
        || c == '\u{202f}' || c == '\u{205f}' || c == '\u{3000}'
}

/// `s` without leading and trailing white space, as `str::trim` gives it:
/// `s.subrange(lo, hi)` for the first and one past the last character that
/// is not white space.
pub open spec fn is_trim_of(t: Seq<char>, s: Seq<char>) -> bool {
    exists|lo: int, hi: int|
        0 <= lo <= hi <= s.len() && t == s.subrange(lo, hi) && (forall|k: int|
            0 <= k < lo ==> is_white(#[trigger] s[k])) && (forall|k: int|
            hi <= k < s.len() ==> is_white(#[trigger] s[k])) && (lo < hi ==> !is_white(s[lo])
            && !is_white(s[hi - 1]))
}

/// `s` without leading and trailing white space.
pub open spec fn trimmed(s: Seq<char>) -> Seq<char> {
    choose|t: Seq<char>| is_trim_of(t, s)
}

/// There is only one way to trim a text.
pub proof fn lemma_trim_unique(t1: Seq<char>, t2: Seq<char>, s: Seq<char>)
    requires
        is_trim_of(t1, s),
        is_trim_of(t2, s),
    ensures
        t1 == t2,
{
    let (lo1, hi1) = choose|lo: int, hi: int|
        0 <= lo <= hi <= s.len() && t1 == s.subrange(lo, hi) && (forall|k: int|
            0 <= k < lo ==> is_white(#[trigger] s[k])) && (forall|k: int|
            hi <= k < s.len() ==> is_white(#[trigger] s[k])) && (lo < hi ==> !is_white(s[lo])
            && !is_white(s[hi - 1]));
    let (lo2, hi2) = choose|lo: int, hi: int|
        0 <= lo <= hi <= s.len() && t2 == s.subrange(lo, hi) && (forall|k: int|
            0 <= k < lo ==> is_white(#[trigger] s[k])) && (forall|k: int|
            hi <= k < s.len() ==> is_white(#[trigger] s[k])) && (lo < hi ==> !is_white(s[lo])
            && !is_white(s[hi - 1]));
    if lo1 < hi1 && lo2 < hi2 {
        if lo1 < lo2 {
            assert(is_white(s[lo1]));
        }
        if lo2 < lo1 {
            assert(is_white(s[lo2]));
        }
        if hi1 < hi2 {
            assert(is_white(s[hi2 - 1]));
        }
        if hi2 < hi1 {
            assert(is_white(s[hi1 - 1]));
        }
    } else if lo1 < hi1 {
        if lo1 < lo2 {
            assert(is_white(s[lo1]));
        } else {
            assert(is_white(s[lo1]));
        }
    } else if lo2 < hi2 {
        if lo2 < lo1 {
            assert(is_white(s[lo2]));
        } else {
            assert(is_white(s[lo2]));
        }
    } else {
        assert(t1 =~= t2);
    }
}

/// Removes leading and trailing white space.
pub fn trim_chars(s: &Vec<char>) -> (t: Vec<char>)
    ensures
        is_trim_of(t@, s@),
        t@ == trimmed(s@),
{
    let mut lo: usize = 0;
    while lo < s.len() && is_white_exec(s[lo])
        invariant
            lo <= s.len(),
            forall|k: int| 0 <= k < lo ==> is_white(#[trigger] s@[k]),
        decreases s.len() - lo,
    {
        lo = lo + 1;
    }
    let mut hi: usize = s.len();
    while hi > lo && is_white_exec(s[hi - 1])
        invariant
            lo <= hi <= s.len(),
            forall|k: int| hi <= k < s.len() ==> is_white(#[trigger] s@[k]),
            lo < s.len() ==> !is_white(s@[lo as int]),
        decreases hi,
    {
        hi = hi - 1;
    }
    let mut t: Vec<char> = Vec::new();
    let mut i: usize = lo;
    while i < hi
        invariant
            lo <= i <= hi,
            hi <= s.len(),
            t@ == s@.subrange(lo as int, i as int),
        decreases hi - i,
    {
        t.push(s[i]);
        assert(s@.subrange(lo as int, i + 1) =~= s@.subrange(lo as int, i as int).push(s@[i as int]));
        i = i + 1;
    }
    assert(is_trim_of(t@, s@)) by {
        assert(0 <= lo <= hi <= s.len());
    }
    proof {
        lemma_trim_unique(t@, trimmed(s@), s@);
    }
    t
}


/// A number read the way Rust reads a floating-point text: a finite value
/// with its sign and its magnitude in millionths, rounded up to the next
/// millionth and held at `u64::MAX`; an infinity with its sign; or not a
/// number.
#[derive(Clone, Copy, Debug, PartialEq, Eq, Structural)]
pub enum Reading {
    Finite { negative: bool, micros: u64 },
    Infinite { negative: bool },
    NotANumber,
}

/// Length of the sign in front of a number: one for `+` or `-`, else zero.
pub open spec fn sign_len(s: Seq<char>) -> int {
    if s.len() > 0 && (s[0] == '+' || s[0] == '-') {
        1
    } else {
        0
    }
}

/// `k` is the length of the run of digits at the start of `b`.
pub open spec fn is_digit_run(b: Seq<char>, k: int) -> bool {
    0 <= k <= b.len() && all_digits(b.take(k)) && (k == b.len() || !is_digit(b[k]))
}

/// The length of the run of digits at the start of `b`.
pub open spec fn digit_run(b: Seq<char>) -> int {
    choose|k: int| is_digit_run(b, k)
}

/// Some digit of `f` is not `0`.
pub open spec fn has_nonzero_digit(f: Seq<char>) -> bool {
    exists|k: int| 0 <= k < f.len() && f[k] != '0'
}

/// `v` held at `u64::MAX`.
pub open spec fn saturate_u64(v: nat) -> u64 {
    if v > u64::MAX {
        u64::MAX
    } else {
        v as u64
    }
}

proof fn lemma_digit_run_unique(b: Seq<char>, k: int)
    requires
        is_digit_run(b, k),
    ensures
        digit_run(b) == k,
{
    let c = digit_run(b);
    assert(is_digit_run(b, c));
    if c < k {
        assert(b.take(k)[c] == b[c]);
    }
    if k < c {
        assert(b.take(c)[k] == b[k]);
    }
}

proof fn lemma_step_digit(t: Seq<char>, c: char)
    requires
        is_digit(c),
    ensures
        digits_value(t.push(c)) == digits_value(t) * 10 + digit_value(c),
{
    assert(t.push(c).drop_last() =~= t);
}

/// An owned copy of `s`.
pub fn owned(s: &str) -> (r: String)
    ensures
        r@ == s@,
{
    String::from_str(s)
}

/// The decimal representation of `n` as a `String`.
pub fn decimal_string(n: u128) -> (r: String)
    ensures
        r@ == decimal(n as nat),
{
    let mut v: Vec<char> = Vec::new();
    push_decimal(&mut v, n);
    assert(v@ =~= decimal(n as nat));
    string_from_chars(&v)
}

/// `s` ends with `suffix`.
pub open spec fn ends_with(s: Seq<char>, suffix: Seq<char>) -> bool {
    suffix.len() <= s.len() && s.skip(s.len() - suffix.len()) == suffix
}

/// `s` starts with `prefix`.
pub open spec fn starts_with(s: Seq<char>, prefix: Seq<char>) -> bool {
    prefix.len() <= s.len() && s.take(prefix.len() as int) == prefix
}

/// `needle` occurs in `s` as a contiguous piece.
pub open spec fn contains_seq(s: Seq<char>, needle: Seq<char>) -> bool {
    exists|i: int| 0 <= i <= s.len() - needle.len() && #[trigger] s.subrange(i, i + needle.len()) == needle
}

/// Compares `a[at..at + b.len()]` with `b`.
pub fn matches_at(a: &Vec<char>, at: usize, b: &Vec<char>) -> (r: bool)
    requires
        at + b.len() <= a.len(),
    ensures
        r == (a@.subrange(at as int, at + b.len()) == b@),
{
    let mut i: usize = 0;
    while i < b.len()
        invariant
            i <= b.len(),
            at + b.len() <= a.len(),
            forall|k: int| 0 <= k < i ==> a@[at + k] == b@[k],
        decreases b.len() - i,
    {
        if a[at + i] != b[i] {
            assert(a@.subrange(at as int, at + b.len())[i as int] != b@[i as int]);
            return false;
        }
        i = i + 1;
    }
    assert(a@.subrange(at as int, at + b.len()) =~= b@);
    true
}

/// Whether `s` ends with `suffix`.
pub fn ends_with_exec(s: &Vec<char>, suffix: &str) -> (r: bool)
    ensures
        r == ends_with(s@, suffix@),
{
    let t = chars_of(suffix);
    if t.len() > s.len() {
        return false;
    }
    let r = matches_at(s, s.len() - t.len(), &t);
    assert(s@.skip(s.len() - t.len()) =~= s@.subrange(s.len() - t.len(), s.len() as int));
    r
}

/// Whether `s` starts with `prefix`.
pub fn starts_with_exec(s: &Vec<char>, prefix: &str) -> (r: bool)
    ensures
        r == starts_with(s@, prefix@),
{
    let t = chars_of(prefix);
    if t.len() > s.len() {
        return false;
    }
    let r = matches_at(s, 0, &t);
    assert(s@.take(t.len() as int) =~= s@.subrange(0, t.len() as int));
    r
}

/// Whether `needle` occurs in `s`.
pub fn contains_exec(s: &Vec<char>, needle: &str) -> (r: bool)
    ensures
        r == contains_seq(s@, needle@),
{
    let t = chars_of(needle);
    if t.len() > s.len() {
        return false;
    }
    let last = s.len() - t.len();
    let mut i: usize = 0;
    loop
        invariant
            t@ == needle@,
            t.len() <= s.len(),
            last == s.len() - t.len(),
            i <= last,
            forall|k: int| 0 <= k < i ==> #[trigger] s@.subrange(k, k + t.len()) != t@,
        decreases last - i,
    {
        if matches_at(s, i, &t) {
            return true;
        }
        if i == last {
            return false;
        }
        i = i + 1;
    }
}

/// Whether two strings hold the same characters.
pub fn same_text(a: &String, b: &str) -> (r: bool)
    ensures
        r == (a@ == b@),
{
    *a == owned(b)
}


/// `k` is the position of the first `c` in `s`, or the length of `s` when
/// `c` does not occur.
pub open spec fn is_first_index(s: Seq<char>, c: char, k: int) -> bool {
    0 <= k <= s.len() && (forall|j: int| 0 <= j < k ==> s[j] != c) && (k == s.len() || s[k] == c)
}

/// The position of the first `c` in `s`, or the length of `s`.
pub open spec fn first_index(s: Seq<char>, c: char) -> int {
    choose|k: int| is_first_index(s, c, k)
}

proof fn lemma_first_index_unique(s: Seq<char>, c: char, k: int)
    requires
        is_first_index(s, c, k),
    ensures
        first_index(s, c) == k,
{
    let f = first_index(s, c);
    assert(is_first_index(s, c, f));
}

/// Finds the first `c` in `s[from..]`, as a position in `s`.
pub fn find_char(s: &Vec<char>, c: char, from: usize) -> (k: usize)
    requires
        from <= s.len(),
    ensures
        from <= k <= s.len(),
        k - from == first_index(s@.skip(from as int), c),
        k < s.len() ==> s@[k as int] == c,
        forall|j: int| from <= j < k ==> s@[j] != c,
{
    let mut k = from;
    while k < s.len() && s[k] != c
        invariant
            from <= k <= s.len(),
            forall|j: int| from <= j < k ==> s@[j] != c,
        decreases s.len() - k,
    {
        k = k + 1;
    }
    proof {
        let t = s@.skip(from as int);
        assert(is_first_index(t, c, k - from)) by {
            assert forall|j: int| 0 <= j < k - from implies t[j] != c by {
                assert(t[j] == s@[from + j]);
            }
            if k < s.len() {
                assert(t[k - from] == s@[k as int]);
            }
        }
        lemma_first_index_unique(t, c, k - from);
    }
    k
}

/// The characters `s[from..to]`.
pub fn slice_chars(s: &Vec<char>, from: usize, to: usize) -> (r: Vec<char>)
    requires
        from <= to <= s.len(),
    ensures
        r@ == s@.subrange(from as int, to as int),
{
    let mut r: Vec<char> = Vec::new();
    let mut i = from;
    while i < to
        invariant
            from <= i <= to,
            to <= s.len(),
            r@ == s@.subrange(from as int, i as int),
        decreases to - i,
    {
        r.push(s[i]);
        assert(s@.subrange(from as int, i + 1) =~= s@.subrange(from as int, i as int).push(
            s@[i as int],
        ));
        i = i + 1;
    }
    r
}

/// ASCII upper-case letters become lower case; all else stays.
pub open spec fn ascii_lower(c: char) -> char {
    if 'A' <= c && c <= 'Z' {
        ((c as u32) + 32) as char
    } else {
        c
    }
}

/// `s` with ASCII letters in lower case, as `str::to_ascii_lowercase`.
pub open spec fn ascii_lowercase(s: Seq<char>) -> Seq<char> {
    s.map_values(|c: char| ascii_lower(c))
}

/// Lower-cases the ASCII letters of `s`.
pub fn ascii_lowercase_exec(s: &Vec<char>) -> (r: Vec<char>)
    ensures
        r@ == ascii_lowercase(s@),
{
    let mut r: Vec<char> = Vec::new();
    let mut i: usize = 0;
    while i < s.len()
        invariant
            i <= s.len(),
            r@ == ascii_lowercase(s@.take(i as int)),
        decreases s.len() - i,
    {
        let c = s[i];
        let l = if 'A' <= c && c <= 'Z' { ((c as u32) as u8 + 32) as char } else { c };
        r.push(l);
        assert(ascii_lowercase(s@.take(i + 1)) =~= ascii_lowercase(s@.take(i as int)).push(
            ascii_lower(c),
        ));
        i = i + 1;
    }
    assert(s@.take(s.len() as int) =~= s@);
    r
}


/// The lower-case hexadecimal digit of `d`.
pub open spec fn hex_char(d: nat) -> char {
    if d < 10 {
        (d + 48) as char
    } else {
        (d + 87) as char
    }
}

/// The last `k` hexadecimal digits of `n`, lower case, with leading zeros.
pub open spec fn hex_padded(n: nat, k: nat) -> Seq<char>
    decreases k,
{
    if k == 0 {
        Seq::empty()
    } else {
        hex_padded(n / 16, (k - 1) as nat).push(hex_char(n % 16))
    }
}

/// Appends the last `k` hexadecimal digits of `n` with leading zeros.
pub fn push_hex_padded(out: &mut Vec<char>, n: u64, k: u32)
    ensures
        final(out)@ == old(out)@ + hex_padded(n as nat, k as nat),
    decreases k,
{
    let ghost start = out@;
    if k > 0 {
        push_hex_padded(out, n / 16, k - 1);
        let d: u8 = (n % 16) as u8;
        let c: char = if d < 10 { (d + 48) as char } else { (d + 87) as char };
        out.push(c);
    }
    assert(out@ =~= start + hex_padded(n as nat, k as nat));
}


proof fn lemma_digit_char(d: nat)
    requires
        d < 10,
    ensures
        digit_value(digit_char(d)) == d,
        is_digit(digit_char(d)),
{
    assert(((d + 48) as char) as int == d + 48);
}

proof fn lemma_decimal_digits(n: nat)
    ensures
        decimal(n).len() > 0,
        all_digits(decimal(n)),
        digits_value(decimal(n)) == n,
    decreases n,
{
    if n >= 10 {
        lemma_decimal_digits(n / 10);
        let s = decimal(n / 10);
        let c = digit_char(n % 10);
        lemma_digit_char(n % 10);
        assert(decimal(n) == s.push(c));
        assert(s.push(c).drop_last() =~= s);
        assert(s.push(c).last() == c);
        assert(digits_value(s.push(c)) == digits_value(s) * 10 + digit_value(c));
        assert(digits_value(s) * 10 + digit_value(c) == (n / 10) * 10 + n % 10);
        assert((n / 10) * 10 + n % 10 == n);
        assert forall|i: int| 0 <= i < s.push(c).len() implies is_digit(#[trigger] s.push(c)[i]) by {
            if i < s.len() {
                assert(s.push(c)[i] == s[i]);
            }
        }
    } else {
        lemma_digit_char(n);
        assert(decimal(n).drop_last() =~= Seq::<char>::empty());
        assert(digits_value(decimal(n)) == digits_value(Seq::<char>::empty()) * 10 + digit_value(
            digit_char(n),
        ));
    }
}

/// A number written in decimal reads back as itself.
pub proof fn decimal_reads_back(n: u64)
    ensures
        u64_text(decimal(n as nat)) == Some(n),
{
    lemma_decimal_digits(n as nat);
    let s = decimal(n as nat);
    assert(is_digit(s[0]));
}


/// The value of an exponent written as an optional sign and one or more
/// digits.
pub open spec fn exponent_value(e: Seq<char>) -> Option<int> {
    let d = e.skip(sign_len(e));
    if d.len() > 0 && all_digits(d) {
        Some(
            if sign_len(e) == 1 && e[0] == '-' {
                -(digits_value(d) as int)
            } else {
                digits_value(d) as int
            },
        )
    } else {
        None
    }
}

/// `m * 10^s`, rounded up to a whole number.
pub open spec fn scaled_up(m: nat, s: int) -> nat {
    if s >= 0 {
        m * pow10(s as nat)
    } else {
        let p = pow10((-s) as nat);
        ((m + p - 1) / (p as int)) as nat
    }
}

/// What `f64::from_str` accepts, read exactly: an optional sign, then
/// `inf`, `infinity` or `nan` in any case of letters, or digits with an
/// optional point and fraction (at least one digit in all) followed by an
/// optional exponent (`e` or `E`, an optional sign, one or more digits).
/// A finite value is given in millionths, rounded up.
pub open spec fn reading_text(s: Seq<char>) -> Option<Reading> {
    let negative = sign_len(s) == 1 && s[0] == '-';
    let b = s.skip(sign_len(s));
    let w = ascii_lowercase(b);
    if w == "inf"@ || w == "infinity"@ {
        Some(Reading::Infinite { negative })
    } else if w == "nan"@ {
        Some(Reading::NotANumber)
    } else {
        finite_text(b, negative)
    }
}

/// Digits with an optional point and fraction, then an optional exponent,
/// read as a finite value of sign `negative`.
pub open spec fn finite_text(b: Seq<char>, negative: bool) -> Option<Reading> {
    let k = digit_run(b);
    let rs = if k < b.len() && b[k] == '.' {
        k + 1
    } else {
        k
    };
    let rest = b.skip(rs);
    let f = digit_run(rest);
    let digits = b.take(k) + rest.take(f);
    let tail = rest.skip(f);
    let exp: Option<int> = if tail.len() == 0 {
        Some(0)
    } else if tail[0] == 'e' || tail[0] == 'E' {
        exponent_value(tail.skip(1))
    } else {
        None
    };
    if digits.len() == 0 || exp is None {
        None
    } else {
        Some(
            Reading::Finite {
                negative,
                micros: saturate_u64(scaled_up(digits_value(digits), exp->0 - f + 6)),
            },
        )
    }
}

/// Above every `u64`.
spec fn above_u64() -> nat {
    0x1_0000_0000_0000_0000
}

/// `v` held at `cap`.
pub open spec fn capped(v: nat, cap: nat) -> nat {
    if v >= cap {
        cap
    } else {
        v
    }
}

proof fn lemma_value_concat(a: Seq<char>, b: Seq<char>)
    ensures
        digits_value(a + b) == digits_value(a) * pow10(b.len()) + digits_value(b),
    decreases b.len(),
{
    if b.len() == 0 {
        assert(a + b =~= a);
        assert(pow10(0) == 1);
        assert(digits_value(a) * 1 == digits_value(a));
    } else {
        let u = b.drop_last();
        lemma_value_concat(a, u);
        assert((a + b).drop_last() =~= a + u);
        assert((a + b).last() == b.last());
        let x = digits_value(a);
        let p = pow10(u.len());
        assert(b.drop_last() =~= u);
        assert(digits_value(b) == digits_value(u) * 10 + digit_value(b.last()));
        assert(digits_value(a + b) == digits_value(a + u) * 10 + digit_value(b.last()));
        assert(pow10(b.len()) == 10 * p);
        assert(x * p * 10 == x * (10 * p)) by (nonlinear_arith);
    }
}

proof fn lemma_value_below(s: Seq<char>)
    requires
        all_digits(s),
    ensures
        digits_value(s) < pow10(s.len()),
    decreases s.len(),
{
    if s.len() > 0 {
        let u = s.drop_last();
        assert(all_digits(u)) by {
            assert forall|m: int| 0 <= m < u.len() implies is_digit(#[trigger] u[m]) by {
                assert(u[m] == s[m]);
            }
        }
        lemma_value_below(u);
        assert(is_digit(s[s.len() - 1]));
    }
}

proof fn lemma_value_zero(s: Seq<char>)
    requires
        all_digits(s),
    ensures
        (digits_value(s) == 0) == !has_nonzero_digit(s),
    decreases s.len(),
{
    if s.len() > 0 {
        let u = s.drop_last();
        assert(all_digits(u)) by {
            assert forall|m: int| 0 <= m < u.len() implies is_digit(#[trigger] u[m]) by {
                assert(u[m] == s[m]);
            }
        }
        lemma_value_zero(u);
        assert(is_digit(s[s.len() - 1]));
        if has_nonzero_digit(u) {
            let w = choose|k: int| 0 <= k < u.len() && u[k] != '0';
            assert(s[w] != '0');
        }
        if has_nonzero_digit(s) && s.last() == '0' {
            let w = choose|k: int| 0 <= k < s.len() && s[k] != '0';
            assert(u[w] != '0');
        }
    } else {
        assert(!has_nonzero_digit(s));
    }
}

proof fn lemma_ceil_split(q: nat, r: nat, p: nat)
    requires
        p >= 1,
        r < p,
    ensures
        (q * p + r + p - 1) / (p as int) == q + (if r > 0 {
            1int
        } else {
            0
        }),
{
    if r == 0 {
        vstd::arithmetic::div_mod::lemma_fundamental_div_mod_converse(
            q * p + p - 1,
            p as int,
            q as int,
            p - 1,
        );
    } else {
        assert((q + 1) * p == q * p + p) by (nonlinear_arith);
        vstd::arithmetic::div_mod::lemma_fundamental_div_mod_converse(
            q * p + r + p - 1,
            p as int,
            q + 1int,
            r - 1,
        );
    }
}

proof fn lemma_pow10_20()
    ensures
        pow10(20) == 100_000_000_000_000_000_000,
{
    reveal_with_fuel(pow10, 21);
}

/// A shift far up saturates any value but zero.
proof fn lemma_far_up(m: nat, s: int)
    requires
        s >= 20,
    ensures
        saturate_u64(scaled_up(m, s)) == (if m == 0 {
            0u64
        } else {
            u64::MAX
        }),
{
    lemma_pow10_mono(20, s as nat);
    lemma_pow10_20();
    let p = pow10(s as nat);
    if m > 0 {
        assert(m * p >= p) by (nonlinear_arith)
            requires
                m >= 1,
                p >= 0,
        ;
    }
}

/// A shift far down leaves one of any value but zero, rounded up.
proof fn lemma_far_down(m: nat, len: nat, s: int)
    requires
        m < pow10(len),
        -s >= len,
    ensures
        scaled_up(m, s) == (if m == 0 {
            0nat
        } else {
            1nat
        }),
{
    let p = pow10((-s) as nat);
    lemma_pow10_mono(len, (-s) as nat);
    lemma_pow10_positive((-s) as nat);
    lemma_ceil_split(0, m, p);
}

/// The text is exactly `lit`.
fn same_chars(v: &Vec<char>, lit: &str) -> (r: bool)
    ensures
        r == (v@ == lit@),
{
    let l = chars_of(lit);
    if v.len() != l.len() {
        return false;
    }
    let r = matches_at(v, 0, &l);
    assert(v@.subrange(0, l.len() as int) =~= v@);
    r
}

/// The end of the run of digits that starts at `from`.
fn digit_run_from(v: &Vec<char>, from: usize) -> (e: usize)
    requires
        from <= v.len(),
    ensures
        from <= e <= v.len(),
        digit_run(v@.skip(from as int)) == e - from,
        is_digit_run(v@.skip(from as int), e - from),
{
    let mut e = from;
    while e < v.len() && '0' <= v[e] && v[e] <= '9'
        invariant
            from <= e <= v.len(),
            all_digits(v@.subrange(from as int, e as int)),
        decreases v.len() - e,
    {
        assert(all_digits(v@.subrange(from as int, e + 1))) by {
            assert forall|m: int| 0 <= m < e + 1 - from implies is_digit(
                #[trigger] v@.subrange(from as int, e + 1)[m],
            ) by {
                if m < e - from {
                    assert(v@.subrange(from as int, e + 1)[m] == v@.subrange(
                        from as int,
                        e as int,
                    )[m]);
                }
            }
        }
        e = e + 1;
    }
    proof {
        let b = v@.skip(from as int);
        assert(b.take(e - from) =~= v@.subrange(from as int, e as int));
        assert(is_digit_run(b, e - from)) by {
            if e < v.len() {
                assert(b[e - from] == v@[e as int]);
            }
        }
        lemma_digit_run_unique(b, e - from);
    }
    e
}

/// The value of the digits `v[from..to]`, held at `cap`.
fn capped_value(v: &Vec<char>, from: usize, to: usize, cap: u128) -> (r: u128)
    requires
        from <= to <= v.len(),
        all_digits(v@.subrange(from as int, to as int)),
        1 <= cap <= 0x10_0000_0000_0000_0000_0000_0000,
    ensures
        r == capped(digits_value(v@.subrange(from as int, to as int)), cap as nat),
{
    let mut acc: u128 = 0;
    let mut i = from;
    assert(v@.subrange(from as int, from as int) =~= Seq::<char>::empty());
    while i < to
        invariant
            from <= i <= to,
            to <= v.len(),
            all_digits(v@.subrange(from as int, to as int)),
            1 <= cap <= 0x10_0000_0000_0000_0000_0000_0000,
            acc == capped(digits_value(v@.subrange(from as int, i as int)), cap as nat),
        decreases to - i,
    {
        let c = v[i];
        let ghost t = v@.subrange(from as int, i as int);
        assert(v@.subrange(from as int, i + 1) =~= t.push(c));
        assert(is_digit(c)) by {
            assert(v@.subrange(from as int, to as int)[i - from] == c);
        }
        proof {
            lemma_step_digit(t, c);
        }
        let d: u128 = (c as u32 - 48) as u128;
        if acc < cap {
            let x = acc * 10 + d;
            acc = if x >= cap {
                cap
            } else {
                x
            };
        }
        i = i + 1;
    }
    acc
}

/// Some digit of `v[from..to]` is not zero.
fn any_nonzero(v: &Vec<char>, from: usize, to: usize) -> (r: bool)
    requires
        from <= to <= v.len(),
    ensures
        r == has_nonzero_digit(v@.subrange(from as int, to as int)),
{
    let mut i = from;
    while i < to
        invariant
            from <= i <= to,
            to <= v.len(),
            !has_nonzero_digit(v@.subrange(from as int, i as int)),
        decreases to - i,
    {
        if v[i] != '0' {
            assert(v@.subrange(from as int, to as int)[i - from] != '0');
            return true;
        }
        assert(!has_nonzero_digit(v@.subrange(from as int, i + 1))) by {
            let t = v@.subrange(from as int, i + 1);
            if has_nonzero_digit(t) {
                let w = choose|k: int| 0 <= k < t.len() && #[trigger] t[k] != '0';
                if w < i - from {
                    assert(v@.subrange(from as int, i as int)[w] != '0');
                }
            }
        }
        i = i + 1;
    }
    false
}

/// `saturate_u64(scaled_up(digits_value(d), s))` for a shift up.
fn shift_up(d: &Vec<char>, s: u128) -> (r: u64)
    requires
        all_digits(d@),
    ensures
        r == saturate_u64(scaled_up(digits_value(d@), s as int)),
{
    let ghost m = digits_value(d@);
    assert(d@.subrange(0, d@.len() as int) =~= d@);
    let mut acc = capped_value(d, 0, d.len(), 0x1_0000_0000_0000_0000);
    let mut i: u128 = 0;
    assert(pow10(0) == 1);
    assert(m * 1 == m);
    while i < s && acc != 0 && acc < 0x1_0000_0000_0000_0000
        invariant
            0 <= i <= s,
            acc == capped(m * pow10(i as nat), above_u64()),
        decreases s - i,
    {
        let ghost v = m * pow10(i as nat);
        assert(m * pow10((i + 1) as nat) == v * 10) by {
            assert(pow10((i + 1) as nat) == 10 * pow10(i as nat));
            assert(m * (10 * pow10(i as nat)) == m * pow10(i as nat) * 10) by (nonlinear_arith);
        }
        let x = acc * 10;
        acc = if x >= 0x1_0000_0000_0000_0000 {
            0x1_0000_0000_0000_0000
        } else {
            x
        };
        i = i + 1;
    }
    proof {
        lemma_pow10_mono(i as nat, s as nat);
        lemma_pow10_positive(i as nat);
        let pi = pow10(i as nat);
        let ps = pow10(s as nat);
        assert(m * pi <= m * ps) by (nonlinear_arith)
            requires
                pi <= ps,
        ;
        if acc == 0 {
            assert(m == 0) by (nonlinear_arith)
                requires
                    m * pi == 0,
                    pi >= 1,
            ;
            assert(m * ps == 0);
        }
    }
    if acc >= 0x1_0000_0000_0000_0000 {
        u64::MAX
    } else {
        acc as u64
    }
}

/// `saturate_u64(scaled_up(digits_value(d), -k))`: a shift down, rounded up.
fn shift_down(d: &Vec<char>, k: u128) -> (r: u64)
    requires
        all_digits(d@),
        k >= 1,
    ensures
        r == saturate_u64(scaled_up(digits_value(d@), -(k as int))),
{
    let ghost m = digits_value(d@);
    assert(d@.subrange(0, d@.len() as int) =~= d@);
    proof {
        lemma_value_below(d@);
        lemma_value_zero(d@);
    }
    if k >= d.len() as u128 {
        proof {
            lemma_far_down(m, d@.len(), -(k as int));
        }
        return if any_nonzero(d, 0, d.len()) {
            1
        } else {
            0
        };
    }
    let cut: usize = d.len() - k as usize;
    let ghost pre = d@.subrange(0, cut as int);
    let ghost rest = d@.subrange(cut as int, d@.len() as int);
    proof {
        assert(d@ =~= pre + rest);
        lemma_value_concat(pre, rest);
        assert(all_digits(rest)) by {
            assert forall|j: int| 0 <= j < rest.len() implies is_digit(#[trigger] rest[j]) by {
                assert(rest[j] == d@[cut + j]);
            }
        }
        assert(all_digits(pre)) by {
            assert forall|j: int| 0 <= j < pre.len() implies is_digit(#[trigger] pre[j]) by {
                assert(pre[j] == d@[j]);
            }
        }
        lemma_value_below(rest);
        lemma_value_zero(rest);
        assert(rest.len() == k);
        lemma_ceil_split(digits_value(pre), digits_value(rest), pow10(k as nat));
    }
    let head = capped_value(d, 0, cut, 0x1_0000_0000_0000_0000);
    let up = any_nonzero(d, cut, d.len());
    if head >= 0x1_0000_0000_0000_0000 {
        u64::MAX
    } else {
        let v: u128 = if up {
            head + 1
        } else {
            head
        };
        if v > 0xffff_ffff_ffff_ffff {
            u64::MAX
        } else {
            v as u64
        }
    }
}

/// Exponents beyond this are read as this; the result is the same.
spec fn exponent_cap() -> nat {
    0x40_0000_0000_0000_0000
}

/// The digits of an exponent.
spec fn exponent_digits(e: Seq<char>) -> Seq<char> {
    e.skip(sign_len(e))
}

/// Reads the exponent `b[from..]`: its sign and its size held at
/// `exponent_cap()`.
fn exponent_at(b: &Vec<char>, from: usize) -> (r: Option<(bool, u128)>)
    requires
        from <= b.len(),
    ensures
        (r is None) == (exponent_value(b@.skip(from as int)) is None),
        r matches Some((neg, ev)) ==> {
            let e = b@.skip(from as int);
            &&& neg == (sign_len(e) == 1 && e[0] == '-')
            &&& ev == capped(digits_value(exponent_digits(e)), exponent_cap())
        },
{
    let ghost e = b@.skip(from as int);
    let esl: usize = if from < b.len() && (b[from] == '+' || b[from] == '-') {
        1
    } else {
        0
    };
    assert(esl as int == sign_len(e));
    let neg = esl == 1 && b[from] == '-';
    let ds = from + esl;
    let de = digit_run_from(&b, ds);
    let ghost ed = exponent_digits(e);
    assert(ed =~= b@.skip(ds as int));
    let ghost q = de - ds;
    if de == ds || de < b.len() {
        proof {
            if de < b.len() && de > ds {
                assert(!is_digit(ed[q]));
            }
        }
        return None;
    }
    assert(ed.take(q) =~= ed);
    assert(ed =~= b@.subrange(ds as int, de as int));
    let ev = capped_value(&b, ds, de, 0x40_0000_0000_0000_0000);
    Some((neg, ev))
}

/// The finite value of mantissa digits `d` with `f` digits after the point
/// and an exponent of sign `neg` and size `mag` (held at `ev`).
fn finite_micros(d: &Vec<char>, f: usize, neg: bool, ev: u128, Ghost(mag): Ghost<nat>) -> (r: u64)
    requires
        all_digits(d@),
        f <= d.len(),
        ev == capped(mag, exponent_cap()),
    ensures
        r == saturate_u64(
            scaled_up(
                digits_value(d@),
                (if neg {
                    -(mag as int)
                } else {
                    mag as int
                }) - f + 6,
            ),
        ),
{
    let ghost ex: int = if neg {
        -(mag as int)
    } else {
        mag as int
    };
    if ev >= 0x40_0000_0000_0000_0000 {
        assert(d@.subrange(0, d@.len() as int) =~= d@);
        let nz = any_nonzero(d, 0, d.len());
        proof {
            lemma_value_zero(d@);
            lemma_value_below(d@);
            if neg {
                lemma_far_down(digits_value(d@), d@.len(), ex - f + 6);
            } else {
                lemma_far_up(digits_value(d@), ex - f + 6);
            }
        }
        if neg {
            return if nz {
                1
            } else {
                0
            };
        } else {
            return if nz {
                u64::MAX
            } else {
                0
            };
        }
    }
    let sh: i128 = (if neg {
        -(ev as i128)
    } else {
        ev as i128
    }) - f as i128 + 6;
    if sh >= 0 {
        shift_up(d, sh as u128)
    } else {
        shift_down(d, (-sh) as u128)
    }
}

/// Reads `s` as `reading_text` does.
pub fn parse_reading(s: &Vec<char>) -> (r: Option<Reading>)
    ensures
        r == reading_text(s@),
{
    proof {
        reveal_strlit("inf");
        reveal_strlit("infinity");
        reveal_strlit("nan");
    }
    let n = s.len();
    let sl: usize = if n > 0 && (s[0] == '+' || s[0] == '-') {
        1
    } else {
        0
    };
    let negative = sl == 1 && s[0] == '-';
    let b = slice_chars(s, sl, n);
    assert(b@ =~= s@.skip(sl as int));
    let w = ascii_lowercase_exec(&b);
    if same_chars(&w, "inf") || same_chars(&w, "infinity") {
        return Some(Reading::Infinite { negative });
    }
    if same_chars(&w, "nan") {
        return Some(Reading::NotANumber);
    }
    parse_finite(&b, negative)
}

/// Reads `b` as `finite_text` does.
fn parse_finite(b: &Vec<char>, negative: bool) -> (r: Option<Reading>)
    ensures
        r == finite_text(b@, negative),
{
    assert(b@.skip(0) =~= b@);
    let k = digit_run_from(b, 0);
    let rs: usize = if k < b.len() && b[k] == '.' {
        k + 1
    } else {
        k
    };
    let fe = digit_run_from(b, rs);
    let ghost rest = b@.skip(rs as int);
    let ghost f = fe - rs;
    let mut digits = slice_chars(b, 0, k);
    let fr = slice_chars(b, rs, fe);
    push_chars(&mut digits, &fr);
    proof {
        assert(b@.take(k as int) =~= b@.subrange(0, k as int));
        assert(rest.take(f) =~= b@.subrange(rs as int, fe as int));
        assert(all_digits(digits@)) by {
            assert forall|j: int| 0 <= j < digits@.len() implies is_digit(#[trigger] digits@[j]) by {
                if j < k {
                    assert(digits@[j] == b@.take(k as int)[j]);
                } else {
                    assert(digits@[j] == rest.take(f)[j - k]);
                }
            }
        }
        assert(rest.skip(f) =~= b@.skip(fe as int));
    }
    if digits.len() == 0 {
        return None;
    }
    if fe == b.len() {
        let micros = finite_micros(&digits, fe - rs, false, 0, Ghost(0));
        return Some(Reading::Finite { negative, micros });
    }
    if !(b[fe] == 'e' || b[fe] == 'E') {
        return None;
    }
    assert(b@.skip(fe as int).skip(1) =~= b@.skip(fe + 1));
    match exponent_at(b, fe + 1) {
        None => None,
        Some((neg, ev)) => {
            let ghost mag = digits_value(exponent_digits(b@.skip(fe + 1)));
            let micros = finite_micros(&digits, fe - rs, neg, ev, Ghost(mag));
            Some(Reading::Finite { negative, micros })
        },
    }
}


/// A plain run of digits reads as itself: a non-negative finite value,
/// in millionths.
pub proof fn lemma_reading_of_digits(s: Seq<char>)
    requires
        s.len() > 0,
        all_digits(s),
    ensures
        reading_text(s) == Some(
            Reading::Finite { negative: false, micros: saturate_u64(digits_value(s) * 1_000_000) },
        ),
{
    reveal_strlit("inf");
    reveal_strlit("infinity");
    reveal_strlit("nan");
    assert(is_digit(s[0]));
    assert(sign_len(s) == 0);
    assert(s.skip(0) =~= s);
    let w = ascii_lowercase(s);
    assert(w[0] == s[0]);
    assert(w != "inf"@ && w != "infinity"@ && w != "nan"@) by {
        assert("inf"@[0] == 'i');
        assert("infinity"@[0] == 'i');
        assert("nan"@[0] == 'n');
    }
    assert(s.take(s.len() as int) =~= s);
    assert(is_digit_run(s, s.len() as int));
    lemma_digit_run_unique(s, s.len() as int);
    let rest = s.skip(s.len() as int);
    assert(rest =~= Seq::<char>::empty());
    assert(is_digit_run(rest, 0));
    lemma_digit_run_unique(rest, 0);
    assert(s.take(s.len() as int) + rest.take(0) =~= s);
    assert(rest.skip(0).len() == 0);
    reveal_with_fuel(pow10, 7);
}

/// A plain run of digits has no white space to trim.
pub proof fn lemma_digits_trimmed(s: Seq<char>)
    requires
        s.len() > 0,
        all_digits(s),
    ensures
        trimmed(s) == s,
{
    assert(is_digit(s[0]) && is_digit(s[s.len() - 1]));
    assert(s.subrange(0, s.len() as int) =~= s);
    assert(is_trim_of(s, s)) by {
        assert(0 <= 0 <= s.len() as int <= s.len() && s == s.subrange(0, s.len() as int));
    }
    assert(is_trim_of(trimmed(s), s));
    lemma_trim_unique(trimmed(s), s, s);
}

/// Decimal text is a plain run of digits worth `n`.
pub proof fn lemma_decimal_is_digits(n: nat)
    ensures
        decimal(n).len() > 0,
        all_digits(decimal(n)),
        digits_value(decimal(n)) == n,
{
    lemma_decimal_digits(n);
}

} // verus!
