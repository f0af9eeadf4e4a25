//! Reading decimal integers from text, with the grammar and error kinds of std's `str::parse`.

use vstd::prelude::*;

verus! {

/// Why a text is not an integer of the wanted type: the kinds of std's `IntErrorKind`.
#[derive(Debug, Clone, Copy, PartialEq, Eq, Structural)]
pub enum IntegerError {
    Empty,
    InvalidDigit,
    PosOverflow,
    NegOverflow,
}

/// An ASCII decimal digit.
pub open spec fn is_digit(c: char) -> bool {
    '0' <= c <= '9'
}

/// The value of an ASCII decimal digit.
pub open spec fn digit_value(c: char) -> int {
    c as int - '0' as int
}

/// Reads `digits` left to right as a magnitude. It fails at the first character that is not a
/// digit, or at the first prefix whose value exceeds `bound`, whichever comes first.
pub open spec fn scan_digits(digits: Seq<char>, bound: int, overflow: IntegerError) -> Result<
    int,
    IntegerError,
>
    decreases digits.len(),
{
    if digits.len() == 0 {
        Ok(0)
    } else {
        match scan_digits(digits.drop_last(), bound, overflow) {
            Err(e) => Err(e),
            Ok(v) => if !is_digit(digits.last()) {
                Err(IntegerError::InvalidDigit)
            } else if 10 * v + digit_value(digits.last()) > bound {
                Err(overflow)
            } else {
                Ok(10 * v + digit_value(digits.last()))
            },
        }
    }
}

/// What `str::parse` gives for an integer type whose values are `min ..= max`: an optional sign
/// (`-` only where `min < 0`) and then decimal digits, nothing else.
pub open spec fn parse_integer(s: Seq<char>, min: int, max: int) -> Result<int, IntegerError> {
    if s.len() == 0 {
        Err(IntegerError::Empty)
    } else if s.len() == 1 && (s[0] == '+' || s[0] == '-') {
        Err(IntegerError::InvalidDigit)
    } else if s[0] == '+' {
        scan_digits(s.drop_first(), max, IntegerError::PosOverflow)
    } else if s[0] == '-' && min < 0 {
        match scan_digits(s.drop_first(), -min, IntegerError::NegOverflow) {
            Ok(v) => Ok(-v),
            Err(e) => Err(e),
        }
    } else {
        scan_digits(s, max, IntegerError::PosOverflow)
    }
}

/// Once a prefix fails, every extension of it fails in the same way.
proof fn lemma_scan_digits_failure_extends(digits: Seq<char>, k: int, bound: int, overflow: IntegerError)
    requires
        0 <= k <= digits.len(),
        scan_digits(digits.take(k), bound, overflow) is Err,
    ensures
        scan_digits(digits, bound, overflow) == scan_digits(digits.take(k), bound, overflow),
    decreases digits.len() - k,
{
    if k < digits.len() {
        assert(digits.take(k + 1).drop_last() =~= digits.take(k));
        lemma_scan_digits_failure_extends(digits, k + 1, bound, overflow);
    } else {
        assert(digits.take(k) =~= digits);
    }
}

/// `k` zero characters.
pub open spec fn zeros(k: nat) -> Seq<char> {
    Seq::new(k, |_i: int| '0')
}

/// A successful scan stays within `0 ..= bound`, and what it scanned was digits only.
proof fn lemma_scan_digits_ok(digits: Seq<char>, bound: int, overflow: IntegerError)
    requires
        bound >= 0,
    ensures
        scan_digits(digits, bound, overflow) matches Ok(v) ==> 0 <= v <= bound,
        scan_digits(digits, bound, overflow) is Ok ==> forall|k: int|
            0 <= k < digits.len() ==> is_digit(#[trigger] digits[k]),
    decreases digits.len(),
{
    if digits.len() > 0 {
        lemma_scan_digits_ok(digits.drop_last(), bound, overflow);
        if scan_digits(digits, bound, overflow) is Ok {
            assert forall|k: int| 0 <= k < digits.len() implies is_digit(#[trigger] digits[k]) by {
                if k < digits.len() - 1 {
                    assert(digits.drop_last()[k] == digits[k]);
                }
            }
        }
    }
}

/// Zeros in front of digits change nothing about how they scan.
pub(crate) proof fn lemma_scan_leading_zeros(k: nat, d: Seq<char>, bound: int, overflow: IntegerError)
    requires
        bound >= 0,
    ensures
        scan_digits(zeros(k) + d, bound, overflow) == scan_digits(d, bound, overflow),
    decreases d.len() + k,
{
    if d.len() == 0 {
        assert(zeros(k) + d =~= zeros(k));
        if k > 0 {
            assert(zeros(k).drop_last() =~= zeros((k - 1) as nat) + d);
            lemma_scan_leading_zeros((k - 1) as nat, d, bound, overflow);
            assert(zeros(k).last() == '0');
        }
    } else {
        assert((zeros(k) + d).drop_last() =~= zeros(k) + d.drop_last());
        assert((zeros(k) + d).last() == d.last());
        lemma_scan_leading_zeros(k, d.drop_last(), bound, overflow);
    }
}

/// An accepted integer text is, after an optional sign (`-` only for a signed type), made of
/// decimal digits only, and its value lies in `min ..= max`.
pub proof fn lemma_parse_integer_accepts_only_digits(s: Seq<char>, min: int, max: int)
    requires
        min <= 0 <= max,
    ensures
        parse_integer(s, min, max) matches Ok(v) ==> {
            &&& min <= v <= max
            &&& s.len() >= 1
            &&& forall|k: int|
                0 <= k < s.len() ==> is_digit(#[trigger] s[k]) || (k == 0 && (s[0] == '+' || (
                s[0] == '-' && min < 0)))
        },
{
    lemma_scan_digits_ok(s, max, IntegerError::PosOverflow);
    if s.len() >= 1 {
        lemma_scan_digits_ok(s.drop_first(), max, IntegerError::PosOverflow);
        lemma_scan_digits_ok(s.drop_first(), -min, IntegerError::NegOverflow);
        if parse_integer(s, min, max) is Ok && (s[0] == '+' || (s[0] == '-' && min < 0)) {
            assert forall|k: int| 0 < k < s.len() implies is_digit(#[trigger] s[k]) by {
                assert(s.drop_first()[k - 1] == s[k]);
            }
        }
    }
}

/// Digits that scan to `m`, with zeros in front and optionally a sign, read as `m` or `-m`.
pub(crate) proof fn lemma_parse_integer_of_padded_digits(
    k: nat,
    d: Seq<char>,
    m: int,
    min: int,
    max: int,
)
    requires
        min <= 0 <= max,
        d.len() >= 1,
        is_digit(d[0]),
        forall|bound: int, ov: IntegerError|
            m <= bound ==> #[trigger] scan_digits(d, bound, ov) == Ok::<int, IntegerError>(m),
    ensures
        m <= max ==> parse_integer(zeros(k) + d, min, max) == Ok::<int, IntegerError>(m),
        m <= max ==> parse_integer(seq!['+'] + zeros(k) + d, min, max) == Ok::<int, IntegerError>(
            m,
        ),
        min < 0 && m <= -min ==> parse_integer(seq!['-'] + zeros(k) + d, min, max) == Ok::<
            int,
            IntegerError,
        >(-m),
{
    let z = zeros(k) + d;
    if k > 0 {
        assert(z[0] == '0');
    } else {
        assert(z[0] == d[0]);
    }
    assert((seq!['+'] + z).drop_first() =~= z);
    assert((seq!['-'] + z).drop_first() =~= z);
    assert(seq!['+'] + zeros(k) + d =~= seq!['+'] + z);
    assert(seq!['-'] + zeros(k) + d =~= seq!['-'] + z);
    if m <= max {
        lemma_scan_leading_zeros(k, d, max, IntegerError::PosOverflow);
        let _ = scan_digits(d, max, IntegerError::PosOverflow);
    }
    if min < 0 && m <= -min {
        lemma_scan_leading_zeros(k, d, -min, IntegerError::NegOverflow);
        let _ = scan_digits(d, -min, IntegerError::NegOverflow);
    }
}

/// Scans `s[start..]` as a magnitude, as `scan_digits` says.
fn scan_magnitude(s: &[char], start: usize, bound: u32, overflow: IntegerError) -> (res: Result<
    u32,
    IntegerError,
>)
    requires
        start <= s@.len(),
        bound <= 100_000,
    ensures
        match res {
            Ok(v) => scan_digits(s@.skip(start as int), bound as int, overflow) == Ok::<int, IntegerError>(v as int),
            Err(e) => scan_digits(s@.skip(start as int), bound as int, overflow) == Err::<int, IntegerError>(e),
        },
{
    let ghost digits = s@.skip(start as int);
    let mut value: u32 = 0;
    let mut i: usize = start;
    while i < s.len()
        invariant
            start <= i <= s@.len(),
            bound <= 100_000,
            digits == s@.skip(start as int),
            scan_digits(digits.take(i - start), bound as int, overflow) == Ok::<int, IntegerError>(
                value as int,
            ),
            value <= bound,
        decreases s@.len() - i,
    {
        let c = s[i];
        proof {
            assert(digits.take(i - start + 1).drop_last() =~= digits.take(i - start));
            assert(digits.take(i - start + 1).last() == c);
        }
        if !('0' <= c && c <= '9') {
            proof {
                lemma_scan_digits_failure_extends(digits, i - start + 1, bound as int, overflow);
            }
            return Err(IntegerError::InvalidDigit);
        }
        let d: u32 = (c as u32) - ('0' as u32);
        let next: u32 = value * 10 + d;
        if next > bound {
            proof {
                lemma_scan_digits_failure_extends(digits, i - start + 1, bound as int, overflow);
            }
            return Err(overflow);
        }
        value = next;
        i = i + 1;
    }
    proof {
        assert(digits.take(i - start) =~= digits);
    }
    Ok(value)
}

/// `str::parse::<u8>` on the characters `s`.
pub fn parse_u8(s: &[char]) -> (res: Result<u8, IntegerError>)
    ensures
        match res {
            Ok(v) => parse_integer(s@, 0, 255) == Ok::<int, IntegerError>(v as int),
            Err(e) => parse_integer(s@, 0, 255) == Err::<int, IntegerError>(e),
        },
{
    if s.len() == 0 {
        return Err(IntegerError::Empty);
    }
    if s.len() == 1 && (s[0] == '+' || s[0] == '-') {
        return Err(IntegerError::InvalidDigit);
    }
    let start: usize = if s[0] == '+' { 1 } else { 0 };
    proof {
        assert(s@.skip(0) =~= s@);
        assert(s@.skip(1) =~= s@.drop_first());
    }
    match scan_magnitude(s, start, 255, IntegerError::PosOverflow) {
        Ok(v) => Ok(v as u8),
        Err(e) => Err(e),
    }
}

/// `str::parse::<i16>` on the characters `s`.
pub fn parse_i16(s: &[char]) -> (res: Result<i16, IntegerError>)
    ensures
        match res {
            Ok(v) => parse_integer(s@, -32768, 32767) == Ok::<int, IntegerError>(v as int),
            Err(e) => parse_integer(s@, -32768, 32767) == Err::<int, IntegerError>(e),
        },
{
    if s.len() == 0 {
        return Err(IntegerError::Empty);
    }
    if s.len() == 1 && (s[0] == '+' || s[0] == '-') {
        return Err(IntegerError::InvalidDigit);
    }
    proof {
        assert(s@.skip(0) =~= s@);
        assert(s@.skip(1) =~= s@.drop_first());
    }
    if s[0] == '-' {
        match scan_magnitude(s, 1, 32768, IntegerError::NegOverflow) {
            Ok(v) => {
                let neg: i32 = 0 - (v as i32);
                Ok(neg as i16)
            },
            Err(e) => Err(e),
        }
    } else {
        let start: usize = if s[0] == '+' { 1 } else { 0 };
        match scan_magnitude(s, start, 32767, IntegerError::PosOverflow) {
            Ok(v) => Ok(v as i16),
            Err(e) => Err(e),
        }
    }
}

} // verus!
