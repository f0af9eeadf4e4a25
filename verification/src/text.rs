//! Character-level helpers: std's float-literal grammar, `str::trim`, and decimal text.

use vstd::prelude::*;

use crate::numeric::{
    digit_value, is_digit, lemma_parse_integer_of_padded_digits, lemma_scan_leading_zeros, parse_integer, scan_digits, zeros,
    IntegerError,
};

verus! {

/// Why a text is not a float literal: the kinds of std's `ParseFloatError`.
#[derive(Debug, Clone, Copy, PartialEq, Eq, Structural)]
pub enum FloatError {
    Empty,
    Invalid,
}

/// The end of the run of decimal digits that starts at `i`.
pub open spec fn digits_end(s: Seq<char>, i: int) -> int
    decreases s.len() - i,
{
    if 0 <= i < s.len() && is_digit(s[i]) {
        digits_end(s, i + 1)
    } else {
        i
    }
}

/// A `+` or a `-`.
pub open spec fn is_sign(c: char) -> bool {
    c == '+' || c == '-'
}

/// `s[i..]` is an exponent: `e` or `E`, an optional sign, and at least one digit, up to the end.
pub open spec fn is_exponent_at(s: Seq<char>, i: int) -> bool {
    &&& 0 <= i < s.len()
    &&& (s[i] == 'e' || s[i] == 'E')
    &&& {
        let j = if i + 1 < s.len() && is_sign(s[i + 1]) {
            i + 2
        } else {
            i + 1
        };
        j < s.len() && digits_end(s, j) == s.len()
    }
}

/// `s[i..]` is a `Number` of the grammar: digits, optionally a point and more digits, at least
/// one digit in all, then optionally an exponent, up to the end.
pub open spec fn is_number_at(s: Seq<char>, i: int) -> bool {
    let a = digits_end(s, i);
    let has_point = a < s.len() && s[a] == '.';
    let b = if has_point {
        digits_end(s, a + 1)
    } else {
        a
    };
    let n_digits = if has_point {
        (a - i) + (b - (a + 1))
    } else {
        a - i
    };
    n_digits >= 1 && (b == s.len() || is_exponent_at(s, b))
}

/// The ASCII lower-case form of `c`.
pub open spec fn ascii_lower(c: char) -> char {
    if 'A' <= c <= 'Z' {
        ((c as u32) + 32) as char
    } else {
        c
    }
}

/// `s[i..]` is `word` up to ASCII case.
pub open spec fn word_at(s: Seq<char>, i: int, word: Seq<char>) -> bool {
    &&& 0 <= i
    &&& s.len() - i == word.len()
    &&& forall|k: int| 0 <= k < word.len() ==> ascii_lower(#[trigger] s[i + k]) == word[k]
}

/// `s[i..]` is `inf`, `infinity` or `nan`, in any ASCII case.
pub open spec fn is_special_at(s: Seq<char>, i: int) -> bool {
    ||| word_at(s, i, seq!['i', 'n', 'f'])
    ||| word_at(s, i, seq!['i', 'n', 'f', 'i', 'n', 'i', 't', 'y'])
    ||| word_at(s, i, seq!['n', 'a', 'n'])
}

/// Where the body of a float literal starts: after an optional leading sign.
pub open spec fn float_body_start(s: Seq<char>) -> int {
    if s.len() > 0 && is_sign(s[0]) {
        1
    } else {
        0
    }
}

/// The grammar that std documents for `f32` and `f64` `from_str`:
/// `Sign? ( 'inf' | 'infinity' | 'nan' | Number )`, where `Number` is
/// `( Digit+ | Digit+ '.' Digit* | Digit* '.' Digit+ ) Exp?` and `Exp` is `'e' Sign? Digit+`,
/// letters in any case.
pub open spec fn is_float_literal(s: Seq<char>) -> bool {
    is_special_at(s, float_body_start(s)) || is_number_at(s, float_body_start(s))
}

/// What `str::parse::<f32>` or `str::parse::<f64>` decides about `s`: whether it is a float and,
/// if not, which error it reports.
pub open spec fn float_check(s: Seq<char>) -> Result<(), FloatError> {
    if s.len() == 0 {
        Err(FloatError::Empty)
    } else if is_float_literal(s) {
        Ok(())
    } else {
        Err(FloatError::Invalid)
    }
}

/// Every character of `d` is a decimal digit.
pub open spec fn all_digits(d: Seq<char>) -> bool {
    forall|k: int| 0 <= k < d.len() ==> is_digit(#[trigger] d[k])
}

/// A run of digits from `i` that stops at `j` ends at `j`.
proof fn lemma_digits_end_of_run(s: Seq<char>, i: int, j: int)
    requires
        0 <= i <= j <= s.len(),
        forall|k: int| i <= k < j ==> is_digit(#[trigger] s[k]),
        j == s.len() || !is_digit(s[j]),
    ensures
        digits_end(s, i) == j,
    decreases j - i,
{
    if i < j {
        lemma_digits_end_of_run(s, i + 1, j);
    }
}

proof fn lemma_digits_end_bounds(s: Seq<char>, i: int)
    requires
        0 <= i <= s.len(),
    ensures
        i <= digits_end(s, i) <= s.len(),
    decreases s.len() - i,
{
    if i < s.len() && is_digit(s[i]) {
        lemma_digits_end_bounds(s, i + 1);
    }
}

/// One character in front shifts every digit run by one.
proof fn lemma_digits_end_shift(c: char, t: Seq<char>, j: int)
    requires
        0 <= j <= t.len(),
    ensures
        digits_end(seq![c] + t, j + 1) == digits_end(t, j) + 1,
    decreases t.len() - j,
{
    let s = seq![c] + t;
    if j < t.len() {
        assert(s[j + 1] == t[j]);
        lemma_digits_end_shift(c, t, j + 1);
    }
}

/// One character in front changes nothing about what follows it being a number or a special
/// word.
proof fn lemma_body_shift(c: char, t: Seq<char>)
    ensures
        is_number_at(seq![c] + t, 1) == is_number_at(t, 0),
        is_special_at(seq![c] + t, 1) == is_special_at(t, 0),
{
    let s = seq![c] + t;
    assert forall|k: int| 0 <= k < t.len() implies #[trigger] s[k + 1] == t[k] by {}
    lemma_digits_end_shift(c, t, 0);
    lemma_digits_end_bounds(t, 0);
    let a = digits_end(t, 0);
    if a < t.len() {
        assert(s[a + 1] == t[a]);
        lemma_digits_end_shift(c, t, a + 1);
        lemma_digits_end_bounds(t, a + 1);
    }
    let has_point = a < t.len() && t[a] == '.';
    let b = if has_point {
        digits_end(t, a + 1)
    } else {
        a
    };
    if 0 <= b < t.len() {
        assert(s[b + 1] == t[b]);
        if b + 1 < t.len() {
            assert(s[b + 2] == t[b + 1]);
        }
        let j = if b + 1 < t.len() && is_sign(t[b + 1]) {
            b + 2
        } else {
            b + 1
        };
        if j <= t.len() {
            lemma_digits_end_shift(c, t, j);
        }
        assert(is_exponent_at(s, b + 1) == is_exponent_at(t, b));
    }
    let w3 = seq!['i', 'n', 'f'];
    let w8 = seq!['i', 'n', 'f', 'i', 'n', 'i', 't', 'y'];
    let wn = seq!['n', 'a', 'n'];
    assert(word_at(s, 1, w3) == word_at(t, 0, w3)) by {
        if word_at(t, 0, w3) {
            assert forall|k: int| 0 <= k < w3.len() implies ascii_lower(#[trigger] s[1 + k])
                == w3[k] by {
                assert(s[1 + k] == t[0 + k]);
            }
        }
        if word_at(s, 1, w3) {
            assert forall|k: int| 0 <= k < w3.len() implies ascii_lower(#[trigger] t[0 + k])
                == w3[k] by {
                assert(s[1 + k] == t[0 + k]);
            }
        }
    }
    assert(word_at(s, 1, w8) == word_at(t, 0, w8)) by {
        if word_at(t, 0, w8) {
            assert forall|k: int| 0 <= k < w8.len() implies ascii_lower(#[trigger] s[1 + k])
                == w8[k] by {
                assert(s[1 + k] == t[0 + k]);
            }
        }
        if word_at(s, 1, w8) {
            assert forall|k: int| 0 <= k < w8.len() implies ascii_lower(#[trigger] t[0 + k])
                == w8[k] by {
                assert(s[1 + k] == t[0 + k]);
            }
        }
    }
    assert(word_at(s, 1, wn) == word_at(t, 0, wn)) by {
        if word_at(t, 0, wn) {
            assert forall|k: int| 0 <= k < wn.len() implies ascii_lower(#[trigger] s[1 + k])
                == wn[k] by {
                assert(s[1 + k] == t[0 + k]);
            }
        }
        if word_at(s, 1, wn) {
            assert forall|k: int| 0 <= k < wn.len() implies ascii_lower(#[trigger] t[0 + k])
                == wn[k] by {
                assert(s[1 + k] == t[0 + k]);
            }
        }
    }
}

/// A sign in front of a text decides nothing: `-t` and `+t` are float literals alike, and when
/// `t` carries no sign of its own they are literals exactly when `t` is. So every literal has a
/// negative counterpart, e.g. `-1.5` with `1.5`.
pub proof fn lemma_float_sign_is_symmetric(t: Seq<char>)
    ensures
        is_float_literal(seq!['-'] + t) == is_float_literal(seq!['+'] + t),
        t.len() == 0 || !is_sign(t[0]) ==> is_float_literal(seq!['-'] + t) == is_float_literal(t),
        t.len() == 0 || !is_sign(t[0]) ==> is_float_literal(seq!['+'] + t) == is_float_literal(t),
{
    lemma_body_shift('-', t);
    lemma_body_shift('+', t);
    assert((seq!['-'] + t)[0] == '-');
    assert((seq!['+'] + t)[0] == '+');
}

/// Digits at `i..i + n1`, a point, and digits up to the end, at least one digit in all, form a
/// number.
proof fn lemma_point_number_at(s: Seq<char>, i: int, n1: int, n2: int)
    requires
        0 <= i,
        0 <= n1,
        0 <= n2,
        n1 + n2 >= 1,
        s.len() == i + n1 + 1 + n2,
        forall|k: int| i <= k < i + n1 ==> is_digit(#[trigger] s[k]),
        s[i + n1] == '.',
        forall|k: int| i + n1 + 1 <= k < s.len() ==> is_digit(#[trigger] s[k]),
    ensures
        is_number_at(s, i),
{
    lemma_digits_end_of_run(s, i, i + n1);
    lemma_digits_end_of_run(s, i + n1 + 1, s.len() as int);
}

/// Digits from `i` to the end, at least one, form a number.
proof fn lemma_integer_number_at(s: Seq<char>, i: int)
    requires
        0 <= i < s.len(),
        forall|k: int| i <= k < s.len() ==> is_digit(#[trigger] s[k]),
    ensures
        is_number_at(s, i),
{
    lemma_digits_end_of_run(s, i, s.len() as int);
}

/// Every decimal written as digits, a point and digits, with at least one digit on either side
/// and any count of digits on each, is a float literal, with or without a sign in front; so is
/// every non-empty run of digits.
pub proof fn lemma_decimals_are_float_literals(d1: Seq<char>, d2: Seq<char>)
    requires
        all_digits(d1),
        all_digits(d2),
    ensures
        d1.len() + d2.len() >= 1 ==> is_float_literal(d1 + seq!['.'] + d2),
        d1.len() + d2.len() >= 1 ==> is_float_literal(seq!['-'] + d1 + seq!['.'] + d2),
        d1.len() + d2.len() >= 1 ==> is_float_literal(seq!['+'] + d1 + seq!['.'] + d2),
        d1.len() >= 1 ==> is_float_literal(d1),
        d1.len() >= 1 ==> is_float_literal(seq!['-'] + d1),
        d1.len() >= 1 ==> is_float_literal(seq!['+'] + d1),
{
    let t = d1 + seq!['.'] + d2;
    let n1 = d1.len() as int;
    let n2 = d2.len() as int;
    assert forall|k: int| 0 <= k < n1 implies #[trigger] t[k] == d1[k] by {}
    assert(t[n1] == '.');
    assert forall|k: int| n1 + 1 <= k < t.len() implies #[trigger] t[k] == d2[k - n1 - 1] by {}
    if n1 + n2 >= 1 {
        lemma_point_number_at(t, 0, n1, n2);
        assert(!is_sign(t[0]));
        lemma_float_sign_is_symmetric(t);
        assert(seq!['-'] + d1 + seq!['.'] + d2 =~= seq!['-'] + t);
        assert(seq!['+'] + d1 + seq!['.'] + d2 =~= seq!['+'] + t);
    }
    if n1 >= 1 {
        lemma_integer_number_at(d1, 0);
        assert(!is_sign(d1[0]));
        lemma_float_sign_is_symmetric(d1);
    }
}

/// The end of the run of digits starting at `i`.
fn skip_digits(s: &[char], i: usize) -> (end: usize)
    requires
        i <= s@.len(),
    ensures
        end == digits_end(s@, i as int),
        i <= end <= s@.len(),
{
    let mut j = i;
    while j < s.len() && '0' <= s[j] && s[j] <= '9'
        invariant
            i <= j <= s@.len(),
            digits_end(s@, i as int) == digits_end(s@, j as int),
        decreases s@.len() - j,
    {
        j = j + 1;
    }
    j
}

/// Whether `s[i..]` is an exponent.
fn exponent_at(s: &[char], i: usize) -> (res: bool)
    requires
        i <= s@.len(),
    ensures
        res == is_exponent_at(s@, i as int),
{
    if i >= s.len() || !(s[i] == 'e' || s[i] == 'E') {
        return false;
    }
    let j: usize = if i + 1 < s.len() && (s[i + 1] == '+' || s[i + 1] == '-') {
        i + 2
    } else {
        i + 1
    };
    if j >= s.len() {
        return false;
    }
    skip_digits(s, j) == s.len()
}

/// Whether `s[i..]` is a `Number`.
fn number_at(s: &[char], i: usize) -> (res: bool)
    requires
        i <= s@.len(),
    ensures
        res == is_number_at(s@, i as int),
{
    let a = skip_digits(s, i);
    let has_point = a < s.len() && s[a] == '.';
    let b = if has_point {
        skip_digits(s, a + 1)
    } else {
        a
    };
    let n_digits: usize = if has_point {
        (a - i) + (b - (a + 1))
    } else {
        a - i
    };
    n_digits >= 1 && (b == s.len() || exponent_at(s, b))
}

/// Whether `c` is the ASCII letter `lower` in either case.
fn same_letter(c: char, lower: char) -> (res: bool)
    requires
        'a' <= lower <= 'z',
    ensures
        res == (ascii_lower(c) == lower),
{
    let u = c as u32;
    if 'A' <= c && c <= 'Z' {
        assert(((u + 32) as char) as u32 == u + 32);
        u + 32 == lower as u32
    } else {
        c == lower
    }
}

/// Whether `s[i..]` is `word` up to ASCII case.
fn word_matches(s: &[char], i: usize, word: &[char]) -> (res: bool)
    requires
        i <= s@.len(),
        forall|k: int| 0 <= k < word@.len() ==> 'a' <= #[trigger] word@[k] <= 'z',
    ensures
        res == word_at(s@, i as int, word@),
{
    if s.len() - i != word.len() {
        return false;
    }
    let n = s.len();
    let mut k: usize = 0;
    while k < word.len()
        invariant
            k <= word@.len(),
            n == s@.len(),
            i <= s@.len(),
            s@.len() - i == word@.len(),
            forall|m: int| 0 <= m < word@.len() ==> 'a' <= #[trigger] word@[m] <= 'z',
            forall|m: int| 0 <= m < k ==> ascii_lower(#[trigger] s@[i + m]) == word@[m],
        decreases word@.len() - k,
    {
        if !same_letter(s[i + k], word[k]) {
            return false;
        }
        k = k + 1;
    }
    true
}

/// What `str::parse::<f32>` or `str::parse::<f64>` decides about the characters `s`.
pub fn check_float(s: &[char]) -> (res: Result<(), FloatError>)
    ensures
        res == float_check(s@),
{
    if s.len() == 0 {
        return Err(FloatError::Empty);
    }
    let start: usize = if s[0] == '+' || s[0] == '-' {
        1
    } else {
        0
    };
    let special = word_matches(s, start, &['i', 'n', 'f']) || word_matches(
        s,
        start,
        &['i', 'n', 'f', 'i', 'n', 'i', 't', 'y'],
    ) || word_matches(s, start, &['n', 'a', 'n']);
    if special || number_at(s, start) {
        Ok(())
    } else {
        Err(FloatError::Invalid)
    }
}

/// Whether `c` has the Unicode `White_Space` property, which is what `char::is_whitespace` tests.
pub open spec fn is_white_space(c: char) -> bool {
    ||| c == ' '
    ||| '\u{9}' <= c <= '\u{d}'
    ||| c == '\u{85}'
    ||| c == '\u{a0}'
    ||| c == '\u{1680}'
    ||| '\u{2000}' <= c <= '\u{200a}'
    ||| c == '\u{2028}'
    ||| c == '\u{2029}'
    ||| c == '\u{202f}'
    ||| c == '\u{205f}'
    ||| c == '\u{3000}'
}

/// The first position at or after `i` that does not hold white space.
pub open spec fn trim_start(s: Seq<char>, i: int) -> int
    decreases s.len() - i,
{
    if 0 <= i < s.len() && is_white_space(s[i]) {
        trim_start(s, i + 1)
    } else {
        i
    }
}

/// The end of `s[lo..j]` once the white space at its end is removed.
pub open spec fn trim_end(s: Seq<char>, j: int, lo: int) -> int
    decreases j - lo,
{
    if lo < j <= s.len() && is_white_space(s[j - 1]) {
        trim_end(s, j - 1, lo)
    } else {
        j
    }
}

/// `str::trim`: `s` without the white space at its start and at its end.
pub open spec fn trimmed(s: Seq<char>) -> Seq<char> {
    let a = trim_start(s, 0);
    s.subrange(a, trim_end(s, s.len() as int, a))
}

/// Whether `c` has the Unicode `White_Space` property.
pub fn is_whitespace_char(c: char) -> (res: bool)
    ensures
        res == is_white_space(c),
{
    c == ' ' || ('\u{9}' <= c && c <= '\u{d}') || c == '\u{85}' || c == '\u{a0}' || c
        == '\u{1680}' || ('\u{2000}' <= c && c <= '\u{200a}') || c == '\u{2028}' || c
        == '\u{2029}' || c == '\u{202f}' || c == '\u{205f}' || c == '\u{3000}'
}

/// The bounds of `trimmed(s)` within `s`.
pub fn trim_bounds(s: &[char]) -> (res: (usize, usize))
    ensures
        res.0 == trim_start(s@, 0),
        res.1 == trim_end(s@, s@.len() as int, res.0 as int),
        res.0 <= res.1 <= s@.len(),
        s@.subrange(res.0 as int, res.1 as int) == trimmed(s@),
{
    let n = s.len();
    let mut a: usize = 0;
    while a < n && is_whitespace_char(s[a])
        invariant
            n == s@.len(),
            a <= n,
            trim_start(s@, 0) == trim_start(s@, a as int),
        decreases n - a,
    {
        a = a + 1;
    }
    let mut b: usize = n;
    while a < b && is_whitespace_char(s[b - 1])
        invariant
            n == s@.len(),
            a <= b <= n,
            trim_start(s@, 0) == a,
            trim_end(s@, n as int, a as int) == trim_end(s@, b as int, a as int),
        decreases b - a,
    {
        b = b - 1;
    }
    (a, b)
}

/// The character of the decimal digit `d`.
pub open spec fn digit_char(d: int) -> char {
    (('0' as int) + d) as char
}

/// The decimal text of `n`, without sign or leading zeros: what `Display` writes for an integer.
pub open spec fn decimal_text(n: nat) -> Seq<char>
    decreases n,
{
    if n < 10 {
        seq![digit_char(n as int)]
    } else {
        decimal_text(n / 10).push(digit_char((n % 10) as int))
    }
}

/// The one-character text of the decimal digit `d`.
fn digit_str(d: u8) -> (res: &'static str)
    requires
        d < 10,
    ensures
        res@ == seq![digit_char(d as int)],
{
    proof {
        reveal_strlit("0");
        reveal_strlit("1");
        reveal_strlit("2");
        reveal_strlit("3");
        reveal_strlit("4");
        reveal_strlit("5");
        reveal_strlit("6");
        reveal_strlit("7");
        reveal_strlit("8");
        reveal_strlit("9");
    }
    match d {
        0 => "0",
        1 => "1",
        2 => "2",
        3 => "3",
        4 => "4",
        5 => "5",
        6 => "6",
        7 => "7",
        8 => "8",
        _ => "9",
    }
}

/// The decimal text of `n`, as `format!("{}", n)` writes it.
pub fn u8_decimal(n: u8) -> (res: String)
    ensures
        res@ == decimal_text(n as nat),
{
    if n < 10 {
        String::from_str(digit_str(n))
    } else if n < 100 {
        let res = String::from_str(digit_str(n / 10)).concat(digit_str(n % 10));
        proof {
            assert(decimal_text((n / 10) as nat) == seq![digit_char((n / 10) as int)]);
            assert(decimal_text(n as nat) == decimal_text((n / 10) as nat).push(
                digit_char((n % 10) as int),
            ));
            assert(res@ =~= decimal_text(n as nat));
        }
        res
    } else {
        let res = String::from_str(digit_str(n / 100)).concat(digit_str((n / 10) % 10)).concat(
            digit_str(n % 10),
        );
        proof {
            let t = (n / 10) as nat;
            assert(t / 10 == n / 100);
            assert(t % 10 == (n / 10) % 10);
            assert(decimal_text(t / 10) == seq![digit_char((t / 10) as int)]);
            assert(decimal_text(t) == decimal_text(t / 10).push(digit_char((t % 10) as int)));
            assert(decimal_text(n as nat) == decimal_text(t).push(digit_char((n % 10) as int)));
            assert(res@ =~= decimal_text(n as nat));
        }
        res
    }
}

/// Decimal text consists of digits and is never empty, and reading it back gives the number.
proof fn lemma_decimal_text_scans(m: nat, bound: int, overflow: IntegerError)
    requires
        m <= bound,
    ensures
        decimal_text(m).len() >= 1,
        is_digit(decimal_text(m)[0]),
        scan_digits(decimal_text(m), bound, overflow) == Ok::<int, IntegerError>(m as int),
    decreases m,
{
    let t = decimal_text(m);
    if m < 10 {
        assert(t.drop_last() =~= Seq::<char>::empty());
        assert(t.last() == digit_char(m as int));
        assert(digit_value(digit_char(m as int)) == m);
        assert(is_digit(t.last()));
        assert(scan_digits(t.drop_last(), bound, overflow) == Ok::<int, IntegerError>(0));
        assert(10 * 0 + digit_value(t.last()) == m);
    } else {
        lemma_decimal_text_scans(m / 10, bound, overflow);
        assert(t.drop_last() =~= decimal_text(m / 10));
        assert(t.last() == digit_char((m % 10) as int));
        assert(digit_value(digit_char((m % 10) as int)) == m % 10);
        assert(is_digit(t.last()));
        assert(10 * (m / 10) + m % 10 == m);
        assert(scan_digits(t.drop_last(), bound, overflow) == Ok::<int, IntegerError>(
            (m / 10) as int,
        ));
        assert(t[0] == decimal_text(m / 10)[0]);
    }
}

/// Reading back what `format!` writes for a `u8` gives the same `u8`: `parse::<u8>` undoes
/// the decimal text for every value.
pub proof fn lemma_u8_decimal_round_trip(n: u8)
    ensures
        parse_integer(decimal_text(n as nat), 0, 255) == Ok::<int, IntegerError>(n as int),
{
    lemma_decimal_text_scans(n as nat, 255, IntegerError::PosOverflow);
}

/// A decimal number written with any count of leading zeros reads back as itself, and with a
/// `-` in front as its negation (where the type is signed), for every value that fits the type:
/// e.g. `-001500` reads as -1500 for an `i16`.
pub proof fn lemma_padded_decimal_reads_as_its_value(k: nat, n: nat, min: int, max: int)
    requires
        min <= 0 <= max,
    ensures
        n <= max ==> parse_integer(zeros(k) + decimal_text(n), min, max) == Ok::<int, IntegerError>(
            n as int,
        ),
        n <= max ==> parse_integer(seq!['+'] + zeros(k) + decimal_text(n), min, max) == Ok::<
            int,
            IntegerError,
        >(n as int),
        min < 0 && n <= -min ==> parse_integer(seq!['-'] + zeros(k) + decimal_text(n), min, max)
            == Ok::<int, IntegerError>(-n),
{
    assert forall|bound: int, ov: IntegerError| n <= bound implies #[trigger] scan_digits(
        decimal_text(n),
        bound,
        ov,
    ) == Ok::<int, IntegerError>(n as int) by {
        lemma_decimal_text_scans(n, bound, ov);
    }
    lemma_decimal_text_scans(n, n as int, IntegerError::PosOverflow);
    lemma_parse_integer_of_padded_digits(k, decimal_text(n), n as int, min, max);
}

/// The decimal text of a number above `bound` fails to scan, by overflow.
proof fn lemma_decimal_text_overflows(n: nat, bound: int, overflow: IntegerError)
    requires
        0 <= bound < n,
    ensures
        scan_digits(decimal_text(n), bound, overflow) == Err::<int, IntegerError>(overflow),
    decreases n,
{
    let t = decimal_text(n);
    if n < 10 {
        assert(t.drop_last() =~= Seq::<char>::empty());
        assert(digit_value(digit_char(n as int)) == n);
    } else {
        assert(t.drop_last() =~= decimal_text(n / 10));
        assert(digit_value(digit_char((n % 10) as int)) == n % 10);
        if n / 10 > bound {
            lemma_decimal_text_overflows(n / 10, bound, overflow);
        } else {
            lemma_decimal_text_scans(n / 10, bound, overflow);
        }
    }
}

/// How integer reading fails: an empty text is `Empty`; a lone sign is `InvalidDigit`; a
/// number too large for the type is `PosOverflow`, and a negative one too small `NegOverflow`,
/// whatever zeros pad it.
pub proof fn lemma_integer_errors(k: nat, n: nat, min: int, max: int)
    requires
        min <= 0 <= max,
    ensures
        parse_integer(Seq::empty(), min, max) == Err::<int, IntegerError>(IntegerError::Empty),
        parse_integer(seq!['+'], min, max) == Err::<int, IntegerError>(IntegerError::InvalidDigit),
        parse_integer(seq!['-'], min, max) == Err::<int, IntegerError>(IntegerError::InvalidDigit),
        n > max ==> parse_integer(zeros(k) + decimal_text(n), min, max) == Err::<int, IntegerError>(
            IntegerError::PosOverflow,
        ),
        min < 0 && n > -min ==> parse_integer(seq!['-'] + zeros(k) + decimal_text(n), min, max)
            == Err::<int, IntegerError>(IntegerError::NegOverflow),
{
    lemma_decimal_text_scans(n, n as int, IntegerError::PosOverflow);
    let z = zeros(k) + decimal_text(n);
    if k > 0 {
        assert(z[0] == '0');
    } else {
        assert(z[0] == decimal_text(n)[0]);
    }
    assert(z.len() >= 1);
    assert((seq!['-'] + z).drop_first() =~= z);
    assert(seq!['-'] + zeros(k) + decimal_text(n) =~= seq!['-'] + z);
    if n > max {
        lemma_decimal_text_overflows(n, max, IntegerError::PosOverflow);
        lemma_scan_leading_zeros(k, decimal_text(n), max, IntegerError::PosOverflow);
    }
    if min < 0 && n > -min {
        lemma_decimal_text_overflows(n, -min, IntegerError::NegOverflow);
        lemma_scan_leading_zeros(k, decimal_text(n), -min, IntegerError::NegOverflow);
    }
}

/// `trimmed(s)` is `s` with the white space at both ends cut off: `s` is white space, then
/// `trimmed(s)`, then white space, and `trimmed(s)` neither starts nor ends with white space.
pub proof fn lemma_trimmed_cuts_white_space_ends(s: Seq<char>)
    ensures
        exists|a: int, b: int|
            #![trigger s.subrange(a, b)]
            0 <= a <= b <= s.len() && s.subrange(a, b) == trimmed(s) && (forall|k: int|
                0 <= k < a ==> is_white_space(#[trigger] s[k])) && (forall|k: int|
                b <= k < s.len() ==> is_white_space(#[trigger] s[k])),
        trimmed(s).len() > 0 ==> !is_white_space(trimmed(s)[0]) && !is_white_space(
            trimmed(s).last(),
        ),
{
    let a = trim_start(s, 0);
    lemma_trim_start(s, 0);
    let b = trim_end(s, s.len() as int, a);
    lemma_trim_end(s, s.len() as int, a);
    assert(s.subrange(a, b) == trimmed(s));
    if b > a {
        assert(trimmed(s)[0] == s[a]);
        assert(trimmed(s).last() == s[b - 1]);
    }
}

proof fn lemma_trim_start(s: Seq<char>, i: int)
    requires
        0 <= i <= s.len(),
    ensures
        i <= trim_start(s, i) <= s.len(),
        forall|k: int| i <= k < trim_start(s, i) ==> is_white_space(#[trigger] s[k]),
        trim_start(s, i) < s.len() ==> !is_white_space(s[trim_start(s, i)]),
    decreases s.len() - i,
{
    if i < s.len() && is_white_space(s[i]) {
        lemma_trim_start(s, i + 1);
    }
}

proof fn lemma_trim_end(s: Seq<char>, j: int, lo: int)
    requires
        0 <= lo <= j <= s.len(),
        forall|k: int| j <= k < s.len() ==> is_white_space(#[trigger] s[k]),
    ensures
        lo <= trim_end(s, j, lo) <= j,
        forall|k: int| trim_end(s, j, lo) <= k < s.len() ==> is_white_space(#[trigger] s[k]),
        trim_end(s, j, lo) > lo ==> !is_white_space(s[trim_end(s, j, lo) - 1]),
    decreases j - lo,
{
    if lo < j && is_white_space(s[j - 1]) {
        lemma_trim_end(s, j - 1, lo);
    }
}

/// A character that may stand in a float literal: a digit, a sign, the point, or a letter of
/// `e`, `inf`, `infinity` or `nan` in either case.
pub open spec fn is_float_char(c: char) -> bool {
    ||| is_digit(c)
    ||| is_sign(c)
    ||| c == '.'
    ||| ascii_lower(c) == 'e'
    ||| ascii_lower(c) == 'i'
    ||| ascii_lower(c) == 'n'
    ||| ascii_lower(c) == 'f'
    ||| ascii_lower(c) == 't'
    ||| ascii_lower(c) == 'y'
    ||| ascii_lower(c) == 'a'
}

/// Everything from `i` to the end of its digit run is a digit.
proof fn lemma_digit_run_is_digits(s: Seq<char>, i: int)
    requires
        0 <= i <= s.len(),
    ensures
        i <= digits_end(s, i) <= s.len(),
        forall|k: int| i <= k < digits_end(s, i) ==> is_digit(#[trigger] s[k]),
    decreases s.len() - i,
{
    if i < s.len() && is_digit(s[i]) {
        lemma_digit_run_is_digits(s, i + 1);
    }
}

/// A float literal holds nothing but digits, signs, the point and the letters of `e`, `inf`,
/// `infinity` and `nan`; in particular it holds no white space.
pub proof fn lemma_float_literal_alphabet(s: Seq<char>)
    ensures
        is_float_literal(s) ==> forall|k: int|
            0 <= k < s.len() ==> is_float_char(#[trigger] s[k]) && !is_white_space(s[k]),
{
    if is_float_literal(s) {
        let i = float_body_start(s);
        if is_special_at(s, i) {
            assert forall|k: int| i <= k < s.len() implies is_float_char(#[trigger] s[k]) by {
                let w3 = seq!['i', 'n', 'f'];
                let w8 = seq!['i', 'n', 'f', 'i', 'n', 'i', 't', 'y'];
                let wn = seq!['n', 'a', 'n'];
                if word_at(s, i, w3) {
                    assert(ascii_lower(s[i + (k - i)]) == w3[k - i]);
                } else if word_at(s, i, w8) {
                    assert(ascii_lower(s[i + (k - i)]) == w8[k - i]);
                } else {
                    assert(ascii_lower(s[i + (k - i)]) == wn[k - i]);
                }
            }
        } else {
            lemma_digit_run_is_digits(s, i);
            let a = digits_end(s, i);
            let has_point = a < s.len() && s[a] == '.';
            if has_point {
                lemma_digit_run_is_digits(s, a + 1);
            }
            let b = if has_point {
                digits_end(s, a + 1)
            } else {
                a
            };
            if b < s.len() {
                let j = if b + 1 < s.len() && is_sign(s[b + 1]) {
                    b + 2
                } else {
                    b + 1
                };
                lemma_digit_run_is_digits(s, j);
                assert(ascii_lower(s[b]) == 'e');
            }
        }
        assert forall|k: int| 0 <= k < s.len() implies is_float_char(#[trigger] s[k])
            && !is_white_space(s[k]) by {
            if k < i {
                assert(is_sign(s[0]));
            }
        }
    }
}

} // verus!
