//! Reading a decimal number as a fixed-point number in thousandths.
//!
//! A number is an optional sign, then digits with at most one point among
//! them and at least one digit in all: `7`, `-0.25`, `+.5`, `12.`. Digits
//! after the third decimal place are read and dropped. Nothing else is a
//! number: no exponent, no blank, no empty text.
use vstd::prelude::*;

verus! {

/// The byte `+`.
pub const PLUS: u8 = 43;

/// The byte `-`.
pub const MINUS: u8 = 45;

/// The byte `.`.
pub const POINT: u8 = 46;

/// The byte `0`.
pub const ZERO: u8 = 48;

/// The byte `9`.
pub const NINE: u8 = 57;

/// The greatest whole part whose thousandths may still fit 32 bits.
pub const GREATEST_WHOLE: i64 = 2147483;

pub open spec fn spec_is_digit(c: u8) -> bool {
    ZERO <= c <= NINE
}

/// Whether `c` is a decimal digit.
#[verifier::when_used_as_spec(spec_is_digit)]
pub fn is_digit(c: u8) -> (r: bool)
    ensures
        r == spec_is_digit(c),
{
    ZERO <= c && c <= NINE
}

/// How many bytes the sign at the start of `s` takes: one or none.
pub open spec fn sign_len(s: Seq<u8>) -> int {
    if s.len() > 0 && (s[0] == PLUS || s[0] == MINUS) {
        1
    } else {
        0
    }
}

/// Where the run of digits that starts at `from` ends.
pub open spec fn digits_end(s: Seq<u8>, from: int) -> int
    decreases s.len() - from,
{
    if 0 <= from < s.len() && spec_is_digit(s[from]) {
        digits_end(s, from + 1)
    } else {
        from
    }
}

/// The number that a string of digits writes; zero for the empty string.
pub open spec fn digits_value(s: Seq<u8>) -> int
    decreases s.len(),
{
    if s.len() == 0 {
        0
    } else {
        digits_value(s.drop_last()) * 10 + (s.last() - ZERO)
    }
}

/// The digit at place `i` of `s`, zero where `s` has ended.
pub open spec fn digit_at(s: Seq<u8>, i: int) -> int {
    if 0 <= i < s.len() {
        s[i] - ZERO
    } else {
        0
    }
}

/// The thousandths that the digits after the point write: the first three
/// count, the rest are dropped.
pub open spec fn thousandths(fraction: Seq<u8>) -> int {
    digit_at(fraction, 0) * 100 + digit_at(fraction, 1) * 10 + digit_at(fraction, 2)
}

/// The number that `s` writes, in thousandths, if `s` is a number.
pub open spec fn parse_decimal(s: Seq<u8>) -> Option<int> {
    let start = sign_len(s);
    let mid = digits_end(s, start);
    let after = if mid < s.len() && s[mid] == POINT {
        mid + 1
    } else {
        mid
    };
    let end = digits_end(s, after);
    if end == s.len() && (mid - start) + (end - after) > 0 {
        let magnitude = digits_value(s.subrange(start, mid)) * 1000 + thousandths(
            s.subrange(after, end),
        );
        Some(
            if s[0] == MINUS {
                -magnitude
            } else {
                magnitude
            },
        )
    } else {
        None
    }
}

/// The number that `s` writes, in thousandths, if `s` is a number and the
/// thousandths fit 32 bits.
pub open spec fn spec_parse_thousandths(s: Seq<u8>) -> Option<i32> {
    match parse_decimal(s) {
        Some(v) => if i32::MIN <= v <= i32::MAX {
            Some(v as i32)
        } else {
            None
        },
        None => None,
    }
}

/// A run of digits ends where the first byte that is no digit stands.
pub proof fn lemma_digits_end(s: Seq<u8>, from: int, to: int)
    requires
        0 <= from <= to <= s.len(),
        forall|j: int| from <= j < to ==> spec_is_digit(#[trigger] s[j]),
    ensures
        digits_end(s, from) == digits_end(s, to),
        from <= to <= digits_end(s, to) <= s.len(),
        forall|j: int| from <= j < digits_end(s, to) ==> spec_is_digit(#[trigger] s[j]),
    decreases s.len() - from,
{
    if from < to {
        lemma_digits_end(s, from + 1, to);
    } else if from < s.len() && spec_is_digit(s[from]) {
        lemma_digits_end(s, from + 1, from + 1);
    }
}

/// A string of digits writes no less than any of its beginnings.
pub proof fn lemma_digits_value_grows(s: Seq<u8>, k: int)
    requires
        0 <= k <= s.len(),
        forall|j: int| 0 <= j < s.len() ==> spec_is_digit(#[trigger] s[j]),
    ensures
        0 <= digits_value(s.subrange(0, k)) <= digits_value(s),
    decreases s.len() - k,
{
    if k == s.len() {
        assert(s.subrange(0, k) =~= s);
        lemma_digits_value_nonnegative(s);
    } else {
        lemma_digits_value_grows(s, k + 1);
        let longer = s.subrange(0, k + 1);
        assert(longer.drop_last() =~= s.subrange(0, k));
        assert(longer.last() == s[k]);
        lemma_digits_value_nonnegative(s.subrange(0, k));
    }
}

/// The thousandths that a string of digits writes are below a thousand.
pub proof fn lemma_thousandths_bounds(s: Seq<u8>)
    requires
        forall|j: int| 0 <= j < s.len() ==> spec_is_digit(#[trigger] s[j]),
    ensures
        0 <= thousandths(s) <= 999,
{
    assert(0 <= digit_at(s, 0) <= 9);
    assert(0 <= digit_at(s, 1) <= 9);
    assert(0 <= digit_at(s, 2) <= 9);
}

/// A string of digits writes a natural number.
pub proof fn lemma_digits_value_nonnegative(s: Seq<u8>)
    requires
        forall|j: int| 0 <= j < s.len() ==> spec_is_digit(#[trigger] s[j]),
    ensures
        0 <= digits_value(s),
    decreases s.len(),
{
    if s.len() > 0 {
        lemma_digits_value_nonnegative(s.drop_last());
    }
}

/// Reads `bytes` as a decimal number and answers it in thousandths, or
/// `None` where `bytes` is no number or the thousandths do not fit 32 bits.
pub fn parse_thousandths(bytes: &[u8]) -> (r: Option<i32>)
    ensures
        r == spec_parse_thousandths(bytes@),
{
    let n = bytes.len();
    let negative = n > 0 && bytes[0] == MINUS;
    let start: usize = if n > 0 && (bytes[0] == PLUS || bytes[0] == MINUS) {
        1
    } else {
        0
    };
    let ghost s = bytes@;
    let ghost mid = digits_end(s, start as int);
    proof {
        lemma_digits_end(s, start as int, start as int);
    }
    let mut whole: i64 = 0;
    let mut i: usize = start;
    while i < n && is_digit(bytes[i])
        invariant
            s == bytes@,
            n == s.len(),
            start == sign_len(s),
            start <= i <= n,
            mid == digits_end(s, i as int),
            forall|j: int| start <= j < i ==> spec_is_digit(#[trigger] s[j]),
            whole == digits_value(s.subrange(start as int, i as int)),
            0 <= whole <= GREATEST_WHOLE,
        decreases n - i,
    {
        let digit: i64 = (bytes[i] - ZERO) as i64;
        proof {
            let longer = s.subrange(start as int, i + 1);
            assert(longer.drop_last() =~= s.subrange(start as int, i as int));
            assert(longer.last() == s[i as int]);
            lemma_digits_end(s, i as int, i + 1);
        }
        whole = whole * 10 + digit;
        i += 1;
        if whole > GREATEST_WHOLE {
            proof {
                lemma_digits_end(s, start as int, i as int);
                let run = s.subrange(start as int, mid);
                assert(run.subrange(0, i - start) =~= s.subrange(start as int, i as int));
                assert forall|j: int| 0 <= j < run.len() implies spec_is_digit(
                    #[trigger] run[j],
                ) by {
                    assert(run[j] == s[start + j]);
                }
                lemma_digits_value_grows(run, i - start);
                let after = if mid < s.len() && s[mid] == POINT {
                    mid + 1
                } else {
                    mid
                };
                lemma_digits_end(s, after, after);
                let fraction = s.subrange(after, digits_end(s, after));
                assert forall|j: int| 0 <= j < fraction.len() implies spec_is_digit(
                    #[trigger] fraction[j],
                ) by {
                    assert(fraction[j] == s[after + j]);
                }
                lemma_thousandths_bounds(fraction);
            }
            return None;
        }
    }
    assert(mid == i);
    let after: usize = if i < n && bytes[i] == POINT {
        i + 1
    } else {
        i
    };
    let ghost end = digits_end(s, after as int);
    proof {
        lemma_digits_end(s, after as int, after as int);
    }
    let mut fraction: i64 = 0;
    let mut k: usize = after;
    while k < n && is_digit(bytes[k])
        invariant
            s == bytes@,
            n == s.len(),
            after <= k <= n,
            end == digits_end(s, k as int),
            forall|j: int| after <= j < k ==> spec_is_digit(#[trigger] s[j]),
            fraction == thousandths(s.subrange(after as int, k as int)),
            0 <= fraction <= 999,
        decreases n - k,
    {
        let digit: i64 = (bytes[k] - ZERO) as i64;
        proof {
            lemma_digits_end(s, k as int, k + 1);
        }
        if k == after {
            fraction = digit * 100;
        } else if k == after + 1 {
            fraction = fraction + digit * 10;
        } else if k == after + 2 {
            fraction = fraction + digit;
        }
        k += 1;
    }
    assert(end == k);
    if k < n || (i - start) + (k - after) == 0 {
        return None;
    }
    let magnitude: i64 = whole * 1000 + fraction;
    let value: i64 = if negative {
        -magnitude
    } else {
        magnitude
    };
    if value < -2147483648 || value > 2147483647 {
        None
    } else {
        Some(value as i32)
    }
}

} // verus!
