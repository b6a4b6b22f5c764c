//! Character-level scanning shared by the `/proc` parsers: line and
//! whitespace splitting as `str::lines` and `str::split_whitespace` do it,
//! decimal parsing as `str::parse::<u64>` does it, and the wrapping
//! digit-prefix reader used for `/proc/stat` counters.

use vstd::prelude::*;
use vstd::wrapping::u64_specs;
use vstd::utf8::{decode_utf8, valid_utf8};

verus! {

// ---------------------------------------------------------------------------
// Specification
// ---------------------------------------------------------------------------

/// Unicode `White_Space`, the property that `char::is_whitespace` and
/// `str::split_whitespace` use.
pub open spec fn is_whitespace(c: char) -> bool {
    ||| '\u{9}' <= c <= '\u{d}'
    ||| c == ' '
    ||| c == '\u{85}'
    ||| c == '\u{a0}'
    ||| c == '\u{1680}'
    ||| '\u{2000}' <= c <= '\u{200a}'
    ||| c == '\u{2028}'
    ||| c == '\u{2029}'
    ||| c == '\u{202f}'
    ||| c == '\u{205f}'
    ||| c == '\u{3000}'
}

/// Index of the first `'\n'` at or after `i`, or `s.len()` when there is none:
/// the end of the line that starts at `i`.
pub open spec fn line_end(s: Seq<char>, i: int) -> int
    decreases s.len() - i,
{
    if i >= s.len() {
        s.len() as int
    } else if s[i] == '\n' {
        i
    } else {
        line_end(s, i + 1)
    }
}

/// First index in `[i, e)` holding a non-whitespace character, or `e`.
pub open spec fn skip_whitespace(s: Seq<char>, i: int, e: int) -> int
    decreases e - i,
{
    if i >= e {
        e
    } else if is_whitespace(s[i]) {
        skip_whitespace(s, i + 1, e)
    } else {
        i
    }
}

/// First index in `[i, e)` holding a whitespace character, or `e`:
/// the end of the word that starts at `i`.
pub open spec fn word_end(s: Seq<char>, i: int, e: int) -> int
    decreases e - i,
{
    if i >= e {
        e
    } else if is_whitespace(s[i]) {
        i
    } else {
        word_end(s, i + 1, e)
    }
}

/// The next whitespace-separated word of `s` in `[i, e)`, as its start and end.
pub open spec fn next_word(s: Seq<char>, i: int, e: int) -> Option<(int, int)> {
    let a = skip_whitespace(s, i, e);
    if a >= e {
        None
    } else {
        Some((a, word_end(s, a, e)))
    }
}

pub open spec fn is_ascii_digit(c: char) -> bool {
    '0' <= c <= '9'
}

pub open spec fn all_ascii_digits(t: Seq<char>) -> bool {
    forall|i: int| 0 <= i < t.len() ==> is_ascii_digit(#[trigger] t[i])
}

/// The value of a string of ASCII digits, read in base ten.
pub open spec fn decimal_value(t: Seq<char>) -> nat
    decreases t.len(),
{
    if t.len() == 0 {
        0
    } else {
        decimal_value(t.drop_last()) * 10 + (t.last() as nat - '0' as nat) as nat
    }
}

/// What `str::parse::<u64>` returns, as an `Option`: an optional leading `'+'`,
/// then one or more ASCII digits whose value fits in a `u64`.
pub open spec fn parse_u64(t: Seq<char>) -> Option<u64> {
    let digits = if t.len() > 0 && t[0] == '+' {
        t.drop_first()
    } else {
        t
    };
    if digits.len() > 0 && all_ascii_digits(digits) && decimal_value(digits) <= u64::MAX {
        Some(decimal_value(digits) as u64)
    } else {
        None
    }
}

/// Character codes of a byte string.
pub open spec fn byte_codes(b: Seq<u8>) -> Seq<int> {
    b.map_values(|x: u8| x as int)
}

/// Character codes of a character string.
pub open spec fn char_codes(s: Seq<char>) -> Seq<int> {
    s.map_values(|c: char| c as int)
}

pub open spec fn is_digit_code(x: int) -> bool {
    48 <= x <= 57
}

/// Index of the first code at or after `i` that is not an ASCII digit, or the length.
pub open spec fn digit_run_end(codes: Seq<int>, i: int) -> int
    decreases codes.len() - i,
{
    if i >= codes.len() {
        codes.len() as int
    } else if is_digit_code(codes[i]) {
        digit_run_end(codes, i + 1)
    } else {
        i
    }
}

/// The first `k` codes (all ASCII digits) read in base ten with wrapping `u64` arithmetic.
pub open spec fn wrapping_decimal(codes: Seq<int>, k: int) -> u64
    decreases k,
{
    if k <= 0 {
        0
    } else {
        u64_specs::wrapping_add(
            u64_specs::wrapping_mul(wrapping_decimal(codes, k - 1), 10),
            (codes[k - 1] - 48) as u64,
        )
    }
}

/// The leading run of ASCII digits, read in base ten with wrapping `u64`
/// arithmetic; 0 when the codes do not start with a digit.
pub open spec fn leading_decimal_wrapping(codes: Seq<int>) -> u64 {
    wrapping_decimal(codes, digit_run_end(codes, 0))
}

// ---------------------------------------------------------------------------
// Lemmas
// ---------------------------------------------------------------------------

pub proof fn lemma_line_end_bounds(s: Seq<char>, i: int)
    requires
        0 <= i,
    ensures
        i <= s.len() ==> i <= line_end(s, i) <= s.len(),
        i > s.len() ==> line_end(s, i) == s.len(),
        line_end(s, i) < s.len() ==> s[line_end(s, i)] == '\n',
    decreases s.len() - i,
{
    if i < s.len() && s[i] != '\n' {
        lemma_line_end_bounds(s, i + 1);
    }
}

pub proof fn lemma_skip_whitespace_bounds(s: Seq<char>, i: int, e: int)
    requires
        i <= e,
    ensures
        i <= skip_whitespace(s, i, e) <= e,
        skip_whitespace(s, i, e) < e ==> !is_whitespace(s[skip_whitespace(s, i, e)]),
    decreases e - i,
{
    if i < e && is_whitespace(s[i]) {
        lemma_skip_whitespace_bounds(s, i + 1, e);
    }
}

pub proof fn lemma_word_end_bounds(s: Seq<char>, i: int, e: int)
    requires
        i <= e,
    ensures
        i <= word_end(s, i, e) <= e,
    decreases e - i,
{
    if i < e && !is_whitespace(s[i]) {
        lemma_word_end_bounds(s, i + 1, e);
    }
}

/// Scanning text that follows `a` gives the positions that scanning the text
/// alone gives, moved by the length of `a`.
pub proof fn lemma_scan_shift(a: Seq<char>, b: Seq<char>, i: int, e: int)
    requires
        0 <= i <= e <= b.len(),
    ensures
        skip_whitespace(a + b, a.len() + i, a.len() + e) == a.len() + skip_whitespace(b, i, e),
        word_end(a + b, a.len() + i, a.len() + e) == a.len() + word_end(b, i, e),
    decreases e - i,
{
    if i < e {
        assert((a + b)[a.len() + i] == b[i]);
        lemma_scan_shift(a, b, i + 1, e);
    }
}

/// The next word of text that follows `a` is found where it is found in the
/// text alone, moved by the length of `a`.
pub proof fn lemma_next_word_shift(a: Seq<char>, b: Seq<char>, i: int, e: int)
    requires
        0 <= i <= e <= b.len(),
    ensures
        next_word(a + b, a.len() + i, a.len() + e) == match next_word(b, i, e) {
            None => None,
            Some((x, y)) => Some((a.len() + x, a.len() + y)),
        },
        next_word(b, i, e) matches Some((x, y)) ==> i <= x < y <= e && (a + b).subrange(
            a.len() + x,
            a.len() + y,
        ) == b.subrange(x, y),
{
    lemma_scan_shift(a, b, i, e);
    lemma_skip_whitespace_bounds(b, i, e);
    let x = skip_whitespace(b, i, e);
    if x < e {
        lemma_scan_shift(a, b, x, e);
        lemma_word_end_bounds(b, x + 1, e);
        let y = word_end(b, x, e);
        assert((a + b).subrange(a.len() + x, a.len() + y) =~= b.subrange(x, y));
    }
}

/// Lines of text that follows `a` end where they end in the text alone,
/// moved by the length of `a`.
pub proof fn lemma_line_end_shift(a: Seq<char>, b: Seq<char>, q: int)
    requires
        0 <= q <= b.len(),
    ensures
        line_end(a + b, a.len() + q) == a.len() + line_end(b, q),
    decreases b.len() - q,
{
    if q < b.len() {
        assert((a + b)[a.len() + q] == b[q]);
        lemma_line_end_shift(a, b, q + 1);
    }
}

/// Whitespace skipping and word ends within `[i, e)` depend only on the
/// characters there.
pub proof fn lemma_scan_depends_on_range(s1: Seq<char>, s2: Seq<char>, i: int, e: int)
    requires
        0 <= i <= e <= s1.len(),
        e <= s2.len(),
        forall|k: int| i <= k < e ==> s1[k] == s2[k],
    ensures
        skip_whitespace(s1, i, e) == skip_whitespace(s2, i, e),
        word_end(s1, i, e) == word_end(s2, i, e),
    decreases e - i,
{
    if i < e {
        lemma_scan_depends_on_range(s1, s2, i + 1, e);
    }
}

/// The next word within `[i, e)` depends only on the characters there.
pub proof fn lemma_words_depend_on_range(s1: Seq<char>, s2: Seq<char>, i: int, e: int)
    requires
        0 <= i <= e <= s1.len(),
        e <= s2.len(),
        forall|k: int| i <= k < e ==> s1[k] == s2[k],
    ensures
        next_word(s1, i, e) == next_word(s2, i, e),
        next_word(s1, i, e) matches Some((x, y)) ==> i <= x < y <= e && s1.subrange(x, y)
            == s2.subrange(x, y),
{
    lemma_scan_depends_on_range(s1, s2, i, e);
    lemma_skip_whitespace_bounds(s1, i, e);
    let x = skip_whitespace(s1, i, e);
    if x < e {
        lemma_scan_depends_on_range(s1, s2, x, e);
        lemma_word_end_bounds(s1, x, e);
        lemma_word_end_bounds(s1, x + 1, e);
        let y = word_end(s1, x, e);
        assert(s1.subrange(x, y) =~= s2.subrange(x, y));
    }
}

/// A line that ends inside `a` ends at the same place once more text follows `a`.
pub proof fn lemma_line_end_extend(a: Seq<char>, b: Seq<char>, p: int)
    requires
        0 <= p <= a.len(),
        line_end(a, p) < a.len(),
    ensures
        line_end(a + b, p) == line_end(a, p),
    decreases a.len() - p,
{
    if a[p] != '\n' {
        lemma_line_end_extend(a, b, p + 1);
    }
}

/// A line starting at `p` ends no later than any line break at or after `p`.
pub proof fn lemma_line_end_not_past_break(s: Seq<char>, p: int, k: int)
    requires
        0 <= p <= k < s.len(),
        s[k] == '\n',
    ensures
        line_end(s, p) <= k,
    decreases k - p,
{
    if s[p] != '\n' {
        lemma_line_end_not_past_break(s, p + 1, k);
    }
}

/// Text `t` that is one non-empty line: no line break but, possibly, a last
/// one that ends it.
pub open spec fn is_one_line(t: Seq<char>) -> bool {
    &&& t.len() > 0
    &&& forall|i: int| 0 <= i < t.len() - 1 ==> t[i] != '\n'
}

/// Where the content of the one line `t` ends: before its line break, if it
/// has one, else at its end.
pub open spec fn one_line_end(t: Seq<char>) -> int {
    if t.last() == '\n' {
        t.len() - 1
    } else {
        t.len() as int
    }
}

pub proof fn lemma_one_line_end(t: Seq<char>, p: int)
    requires
        is_one_line(t),
        0 <= p < t.len(),
    ensures
        line_end(t, p) == one_line_end(t),
    decreases t.len() - p,
{
    if p < t.len() - 1 {
        lemma_one_line_end(t, p + 1);
    } else if t[p] != '\n' {
        assert(line_end(t, p + 1) == t.len());
    }
}

/// Text that is empty or ends with a line break: appending to it starts a new line.
pub open spec fn ends_at_line_start(a: Seq<char>) -> bool {
    a.len() == 0 || a.last() == '\n'
}

/// The value of a prefix of a digit string never exceeds the value of the whole.
pub proof fn lemma_decimal_value_prefix(t: Seq<char>, k: int)
    requires
        0 <= k <= t.len(),
    ensures
        decimal_value(t.take(k)) <= decimal_value(t),
    decreases t.len(),
{
    if k < t.len() {
        assert(t.drop_last().take(k) =~= t.take(k));
        lemma_decimal_value_prefix(t.drop_last(), k);
    } else {
        assert(t.take(k) =~= t);
    }
}

/// The wrapping reading of the first `k` codes depends only on those codes.
proof fn lemma_wrapping_decimal_prefix(c1: Seq<int>, c2: Seq<int>, k: int)
    requires
        0 <= k <= c1.len(),
        k <= c2.len(),
        forall|i: int| 0 <= i < k ==> c1[i] == c2[i],
    ensures
        wrapping_decimal(c1, k) == wrapping_decimal(c2, k),
    decreases k,
{
    if k > 0 {
        lemma_wrapping_decimal_prefix(c1, c2, k - 1);
    }
}

/// The digit run that starts at `i` in codes that are all digits up to `k`,
/// where `k` is the length or holds a non-digit, ends at `k`.
proof fn lemma_digit_run_end_at(codes: Seq<int>, i: int, k: int)
    requires
        0 <= i <= k <= codes.len(),
        forall|j: int| i <= j < k ==> is_digit_code(codes[j]),
        k < codes.len() ==> !is_digit_code(codes[k]),
    ensures
        digit_run_end(codes, i) == k,
    decreases k - i,
{
    if i < k {
        lemma_digit_run_end_at(codes, i + 1, k);
    }
}

/// The fast reader stops at the first byte that is not a digit: whatever
/// follows that byte does not change what it reads.
pub proof fn lemma_fast_reader_stops_at_non_digit(digits: Seq<u8>, stop: u8, rest: Seq<u8>)
    requires
        forall|i: int| 0 <= i < digits.len() ==> 48 <= #[trigger] digits[i] <= 57,
        !(48 <= stop <= 57),
    ensures
        leading_decimal_wrapping(byte_codes(digits + seq![stop] + rest))
            == leading_decimal_wrapping(byte_codes(digits)),
{
    let whole = byte_codes(digits + seq![stop] + rest);
    let part = byte_codes(digits);
    assert forall|j: int| 0 <= j < digits.len() implies whole[j] == part[j] && is_digit_code(
        part[j],
    ) by {
        assert((digits + seq![stop] + rest)[j] == digits[j]);
    }
    assert(whole[digits.len() as int] == stop as int) by {
        assert((digits + seq![stop] + rest)[digits.len() as int] == stop);
    }
    lemma_digit_run_end_at(whole, 0, digits.len() as int);
    lemma_digit_run_end_at(part, 0, digits.len() as int);
    lemma_wrapping_decimal_prefix(whole, part, digits.len() as int);
}

/// On a word that `str::parse::<u64>` accepts without a sign, the fast reader
/// gives the same value: its wrapping arithmetic never wraps there.
pub proof fn lemma_fast_reader_agrees_with_parse(t: Seq<char>)
    requires
        parse_u64(t) is Some,
        t[0] != '+',
    ensures
        leading_decimal_wrapping(char_codes(t)) == parse_u64(t)->Some_0,
{
    let codes = char_codes(t);
    assert forall|j: int| 0 <= j < t.len() implies is_digit_code(codes[j]) by {
        assert(is_ascii_digit(t[j]));
    }
    lemma_digit_run_end_at(codes, 0, t.len() as int);
    lemma_wrapping_decimal_exact(t, t.len() as int);
    assert(t.take(t.len() as int) =~= t);
}

/// Reading the first `k` digits of a digit string whose value fits in a `u64`
/// never wraps, and gives the value of those digits.
proof fn lemma_wrapping_decimal_exact(t: Seq<char>, k: int)
    requires
        0 <= k <= t.len(),
        all_ascii_digits(t),
        decimal_value(t) <= u64::MAX,
    ensures
        wrapping_decimal(char_codes(t), k) == decimal_value(t.take(k)),
    decreases k,
{
    if k > 0 {
        lemma_wrapping_decimal_exact(t, k - 1);
        lemma_decimal_value_prefix(t, k);
        assert(t.take(k).drop_last() =~= t.take(k - 1));
        assert(is_ascii_digit(t[k - 1]));
        let v = decimal_value(t.take(k - 1));
        let d = t[k - 1] as int - '0' as int;
        assert(decimal_value(t.take(k)) == v * 10 + d);
        assert(v * 10 <= u64::MAX);
        assert(u64_specs::wrapping_mul(v as u64, 10) == v * 10) by {
            assert((v as nat * 10nat) % 0x1_0000_0000_0000_0000nat == v * 10) by (nonlinear_arith)
                requires
                    0 <= v * 10 <= u64::MAX,
            ;
        }
    }
}

// ---------------------------------------------------------------------------
// Executable scanning
// ---------------------------------------------------------------------------

/// `std::str::from_utf8`: `Ok` exactly when the bytes are valid UTF-8, and
/// then the returned string holds the characters those bytes encode.
#[verifier::external_body]
pub(crate) fn str_from_utf8(bytes: &[u8]) -> (res: Option<&str>)
    ensures
        res is Some <==> valid_utf8(bytes@),
        res matches Some(s) ==> s@ == decode_utf8(bytes@),
{
    std::str::from_utf8(bytes).ok()
}

/// The characters of `s`, in order.
pub fn chars_of(s: &str) -> (res: Vec<char>)
    ensures
        res@ == s@,
{
    let mut res: Vec<char> = Vec::new();
    for c in it: s.chars()
        invariant
            res@ == it.seq().take(it.index() as int),
    {
        res.push(c);
    }
    res
}

/// `char::is_whitespace`.
pub fn is_whitespace_char(c: char) -> (res: bool)
    ensures
        res == is_whitespace(c),
{
    ('\u{9}' <= c && c <= '\u{d}') || c == ' ' || c == '\u{85}' || c == '\u{a0}' || c == '\u{1680}'
        || ('\u{2000}' <= c && c <= '\u{200a}') || c == '\u{2028}' || c == '\u{2029}' || c
        == '\u{202f}' || c == '\u{205f}' || c == '\u{3000}'
}

/// End of the line that starts at `i`.
pub fn find_line_end(s: &[char], i: usize) -> (res: usize)
    requires
        i <= s@.len(),
    ensures
        res == line_end(s@, i as int),
        i <= res <= s@.len(),
{
    let mut j = i;
    while j < s.len() && s[j] != '\n'
        invariant
            i <= j <= s@.len(),
            line_end(s@, j as int) == line_end(s@, i as int),
        decreases s@.len() - j,
    {
        j = j + 1;
    }
    j
}

/// First non-whitespace position in `[i, e)`, or `e`.
pub fn find_non_whitespace(s: &[char], i: usize, e: usize) -> (res: usize)
    requires
        i <= e <= s@.len(),
    ensures
        res == skip_whitespace(s@, i as int, e as int),
        i <= res <= e,
{
    let mut j = i;
    while j < e && is_whitespace_char(s[j])
        invariant
            i <= j <= e <= s@.len(),
            skip_whitespace(s@, j as int, e as int) == skip_whitespace(s@, i as int, e as int),
        decreases e - j,
    {
        j = j + 1;
    }
    j
}

/// First whitespace position in `[i, e)`, or `e`.
pub fn find_word_end(s: &[char], i: usize, e: usize) -> (res: usize)
    requires
        i <= e <= s@.len(),
    ensures
        res == word_end(s@, i as int, e as int),
        i <= res <= e,
{
    let mut j = i;
    while j < e && !is_whitespace_char(s[j])
        invariant
            i <= j <= e <= s@.len(),
            word_end(s@, j as int, e as int) == word_end(s@, i as int, e as int),
        decreases e - j,
    {
        j = j + 1;
    }
    j
}

/// The next whitespace-separated word in `[i, e)`.
pub fn find_next_word(s: &[char], i: usize, e: usize) -> (res: Option<(usize, usize)>)
    requires
        i <= e <= s@.len(),
    ensures
        res matches Some((a, b)) ==> next_word(s@, i as int, e as int) == Some((a as int, b as int))
            && i <= a < b <= e,
        res is None ==> next_word(s@, i as int, e as int) is None,
{
    let a = find_non_whitespace(s, i, e);
    if a >= e {
        None
    } else {
        let b = find_word_end(s, a, e);
        proof {
            lemma_skip_whitespace_bounds(s@, i as int, e as int);
            lemma_word_end_bounds(s@, a + 1, e as int);
        }
        Some((a, b))
    }
}

/// Whether `s[a..b]` is the string `key`.
pub fn range_equals(s: &[char], a: usize, b: usize, key: &[char]) -> (res: bool)
    requires
        a <= b <= s@.len(),
    ensures
        res == (s@.subrange(a as int, b as int) == key@),
{
    if b - a != key.len() {
        return false;
    }
    let mut k: usize = 0;
    while k < key.len()
        invariant
            a <= b <= s@.len(),
            b - a == key@.len(),
            0 <= k <= key@.len(),
            forall|j: int| 0 <= j < k ==> s@[a + j] == key@[j],
        decreases key@.len() - k,
    {
        if s[a + k] != key[k] {
            assert(s@.subrange(a as int, b as int)[k as int] != key@[k as int]);
            return false;
        }
        k = k + 1;
    }
    assert(s@.subrange(a as int, b as int) =~= key@);
    true
}

/// `str::parse::<u64>` on `s[start..end]`, as an `Option`.
pub fn parse_u64_range(s: &[char], start: usize, end: usize) -> (res: Option<u64>)
    requires
        start <= end <= s@.len(),
    ensures
        res == parse_u64(s@.subrange(start as int, end as int)),
{
    let ghost t = s@.subrange(start as int, end as int);
    let d0 = if start < end && s[start] == '+' {
        start + 1
    } else {
        start
    };
    let ghost digits = s@.subrange(d0 as int, end as int);
    assert(digits =~= (if t.len() > 0 && t[0] == '+' { t.drop_first() } else { t }));
    if d0 >= end {
        return None;
    }
    let mut acc: u64 = 0;
    let mut j = d0;
    while j < end
        invariant
            d0 <= j <= end <= s@.len(),
            t == s@.subrange(start as int, end as int),
            digits == s@.subrange(d0 as int, end as int),
            digits == (if t.len() > 0 && t[0] == '+' { t.drop_first() } else { t }),
            forall|i: int| d0 <= i < j ==> is_ascii_digit(#[trigger] s@[i]),
            acc == decimal_value(s@.subrange(d0 as int, j as int)),
        decreases end - j,
    {
        let c = s[j];
        if !('0' <= c && c <= '9') {
            assert(!is_ascii_digit(digits[j - d0]));
            assert(!all_ascii_digits(digits));
            return None;
        }
        let ghost prefix = s@.subrange(d0 as int, j + 1);
        assert(prefix.drop_last() =~= s@.subrange(d0 as int, j as int));
        let digit = (c as u32 - '0' as u32) as u64;
        assert(digit == (prefix.last() as nat - '0' as nat));
        let next = match acc.checked_mul(10) {
            Some(x) => x.checked_add(digit),
            None => None,
        };
        match next {
            Some(x) => {
                acc = x;
            },
            None => {
                proof {
                    assert(decimal_value(prefix) > u64::MAX);
                    if all_ascii_digits(digits) {
                        assert(digits.take(j + 1 - d0) =~= prefix);
                        lemma_decimal_value_prefix(digits, j + 1 - d0);
                    }
                }
                return None;
            },
        }
        j = j + 1;
    }
    assert(s@.subrange(d0 as int, j as int) =~= digits);
    assert(all_ascii_digits(digits)) by {
        assert forall|i: int| 0 <= i < digits.len() implies is_ascii_digit(#[trigger] digits[i]) by {
            assert(digits[i] == s@[d0 + i]);
        }
    }
    Some(acc)
}

/// The leading run of ASCII digits of `s[start..end]`, read with wrapping `u64` arithmetic.
pub fn leading_decimal_wrapping_range(s: &[char], start: usize, end: usize) -> (res: u64)
    requires
        start <= end <= s@.len(),
    ensures
        res == leading_decimal_wrapping(char_codes(s@.subrange(start as int, end as int))),
{
    let ghost codes = char_codes(s@.subrange(start as int, end as int));
    let mut val: u64 = 0;
    let mut j = start;
    while j < end && '0' <= s[j] && s[j] <= '9'
        invariant
            start <= j <= end <= s@.len(),
            codes == char_codes(s@.subrange(start as int, end as int)),
            codes.len() == end - start,
            forall|i: int| 0 <= i < j - start ==> is_digit_code(#[trigger] codes[i]),
            digit_run_end(codes, j - start) == digit_run_end(codes, 0),
            val == wrapping_decimal(codes, j - start),
        decreases end - j,
    {
        assert(codes[j - start] == s@[j as int] as int);
        let digit = (s[j] as u32 - '0' as u32) as u64;
        val = val.wrapping_mul(10).wrapping_add(digit);
        j = j + 1;
    }
    proof {
        if j < end {
            assert(codes[j - start] == s@[j as int] as int);
        }
    }
    val
}

} // verus!
