//! The numeric layer: the character classes the grammar reads, the value of a
//! digit string, and the lexer for a signed 64-bit integer literal.

use vstd::prelude::*;

use crate::ParseError;

verus! {

/// Whitespace the grammar skips around tokens: blanks and tabs.
pub open spec fn is_space(c: char) -> bool {
    c == ' ' || c == '\t'
}

/// A decimal digit.
pub open spec fn is_digit(c: char) -> bool {
    '0' as u32 <= c as u32 && c as u32 <= '9' as u32
}

/// The numeric value of a decimal digit character.
pub open spec fn digit_val(c: char) -> int {
    c as u32 - '0' as u32
}

/// How many whitespace characters `s` starts with.
pub open spec fn space_run(s: Seq<char>) -> nat
    decreases s.len(),
{
    if s.len() > 0 && is_space(s[0]) {
        (1 + space_run(s.drop_first())) as nat
    } else {
        0
    }
}

/// How many decimal digits `s` starts with.
pub open spec fn digit_run(s: Seq<char>) -> nat
    decreases s.len(),
{
    if s.len() > 0 && is_digit(s[0]) {
        (1 + digit_run(s.drop_first())) as nat
    } else {
        0
    }
}

/// The value of a digit string read in base ten.
pub open spec fn digits_value(ds: Seq<char>) -> int
    decreases ds.len(),
{
    if ds.len() == 0 {
        0
    } else {
        digits_value(ds.drop_last()) * 10 + digit_val(ds.last())
    }
}

pub proof fn lemma_space_run_le_len(s: Seq<char>)
    ensures
        space_run(s) <= s.len(),
    decreases s.len(),
{
    if s.len() > 0 && is_space(s[0]) {
        lemma_space_run_le_len(s.drop_first());
    }
}

pub proof fn lemma_digit_run_le_len(s: Seq<char>)
    ensures
        digit_run(s) <= s.len(),
    decreases s.len(),
{
    if s.len() > 0 && is_digit(s[0]) {
        lemma_digit_run_le_len(s.drop_first());
    }
}

/// What is left of `s` after a rule consumed `k` characters. A rule that
/// matches always consumes between one character and the whole input, but
/// that is a proved fact, not one the type system gives; the clamp makes the
/// remainder visibly shorter than `s`, which is what lets the mutually
/// recursive grammar rules terminate.
pub open spec fn rest_after(s: Seq<char>, k: nat) -> Seq<char> {
    if 1 <= k <= s.len() {
        s.skip(k as int)
    } else {
        Seq::empty()
    }
}

/// Unrolls `space_run` at position `i` of `s`: the run of the suffix at `i`
/// is one more than the run of the suffix at `i + 1` when `s[i]` is a space.
pub proof fn lemma_space_run_unfold(s: Seq<char>, i: int)
    requires
        0 <= i <= s.len(),
    ensures
        space_run(s.skip(i)) == if i < s.len() && is_space(s[i]) {
            1 + space_run(s.skip(i + 1))
        } else {
            0nat
        },
{
    if i < s.len() {
        assert(s.skip(i)[0] == s[i]);
        if is_space(s[i]) {
            assert(s.skip(i).drop_first() =~= s.skip(i + 1));
        }
    } else {
        assert(s.skip(i).len() == 0);
    }
}

/// Unrolls `digit_run` at position `i` of `s`.
pub proof fn lemma_digit_run_unfold(s: Seq<char>, i: int)
    requires
        0 <= i <= s.len(),
    ensures
        digit_run(s.skip(i)) == if i < s.len() && is_digit(s[i]) {
            1 + digit_run(s.skip(i + 1))
        } else {
            0nat
        },
{
    if i < s.len() {
        assert(s.skip(i)[0] == s[i]);
        if is_digit(s[i]) {
            assert(s.skip(i).drop_first() =~= s.skip(i + 1));
        }
    } else {
        assert(s.skip(i).len() == 0);
    }
}

/// Every character inside the leading digit run is a digit, and the first
/// character past it, if any, is not.
pub proof fn lemma_digit_run_chars(s: Seq<char>)
    ensures
        forall|i: int| 0 <= i < digit_run(s) ==> is_digit(#[trigger] s[i]),
        digit_run(s) < s.len() ==> !is_digit(s[digit_run(s) as int]),
    decreases s.len(),
{
    lemma_digit_run_le_len(s);
    if s.len() > 0 && is_digit(s[0]) {
        lemma_digit_run_chars(s.drop_first());
        lemma_digit_run_le_len(s.drop_first());
        assert forall|i: int| 0 <= i < digit_run(s) implies is_digit(#[trigger] s[i]) by {
            if i > 0 {
                assert(s.drop_first()[i - 1] == s[i]);
            }
        }
        if digit_run(s) < s.len() {
            assert(s.drop_first()[digit_run(s) - 1] == s[digit_run(s) as int]);
        }
    }
}

/// Reading more digits never shrinks the value: the value of a prefix of a
/// digit string is at most the value of the whole.
pub proof fn lemma_digits_value_prefix_le(ds: Seq<char>, m: int)
    requires
        0 <= m <= ds.len(),
        forall|i: int| 0 <= i < ds.len() ==> is_digit(#[trigger] ds[i]),
    ensures
        digits_value(ds.take(m)) <= digits_value(ds),
    decreases ds.len() - m,
{
    if m < ds.len() {
        lemma_digits_value_prefix_le(ds, m + 1);
        assert(ds.take(m + 1).drop_last() =~= ds.take(m));
        assert(ds.take(m + 1).last() == ds[m]);
        lemma_digits_value_nonneg(ds.take(m));
        assert(digits_value(ds.take(m)) * 10 >= digits_value(ds.take(m)));
        assert(digit_val(ds[m]) >= 0);
        assert(digits_value(ds.take(m)) <= digits_value(ds.take(m + 1)));
    } else {
        assert(ds.take(m) =~= ds);
    }
}

/// A string that is digits throughout reads as all its characters.
pub proof fn lemma_digit_run_exact_all(ds: Seq<char>)
    requires
        forall|i: int| 0 <= i < ds.len() ==> is_digit(#[trigger] ds[i]),
    ensures
        digit_run(ds) == ds.len(),
    decreases ds.len(),
{
    if ds.len() > 0 {
        lemma_digit_run_exact_all(ds.drop_first());
    }
}

pub proof fn lemma_digits_value_nonneg(ds: Seq<char>)
    requires
        forall|i: int| 0 <= i < ds.len() ==> is_digit(#[trigger] ds[i]),
    ensures
        digits_value(ds) >= 0,
    decreases ds.len(),
{
    if ds.len() > 0 {
        lemma_digits_value_nonneg(ds.drop_last());
    }
}

/// Skips the leading whitespace of `s`, returning how many characters it
/// covers.
pub fn skip_spaces(s: &str, from: usize) -> (n: usize)
    requires
        from <= s@.len(),
    ensures
        n == space_run(s@.skip(from as int)),
        from + n <= s@.len(),
{
    let len = s.unicode_len();
    let mut i = from;
    loop
        invariant
            from <= i <= len,
            len == s@.len(),
            space_run(s@.skip(from as int)) == i - from + space_run(s@.skip(i as int)),
        decreases len - i,
    {
        proof {
            lemma_space_run_unfold(s@, i as int);
        }
        if i < len {
            let c = s.get_char(i);
            if c == ' ' || c == '\t' {
                i += 1;
                continue;
            }
        }
        proof {
            lemma_space_run_le_len(s@.skip(from as int));
        }
        return i - from;
    }
}

/// Scans the run of decimal digits of `s` that starts at `from`.
pub fn scan_digits(s: &str, from: usize) -> (n: usize)
    requires
        from <= s@.len(),
    ensures
        n == digit_run(s@.skip(from as int)),
        from + n <= s@.len(),
{
    let len = s.unicode_len();
    let mut i = from;
    loop
        invariant
            from <= i <= len,
            len == s@.len(),
            digit_run(s@.skip(from as int)) == i - from + digit_run(s@.skip(i as int)),
        decreases len - i,
    {
        proof {
            lemma_digit_run_unfold(s@, i as int);
        }
        if i < len {
            let c = s.get_char(i);
            if c as u32 >= '0' as u32 && c as u32 <= '9' as u32 {
                i += 1;
                continue;
            }
        }
        proof {
            lemma_digit_run_le_len(s@.skip(from as int));
        }
        return i - from;
    }
}

/// `s` spells one integer literal and nothing else: an optional minus sign
/// directly followed by one or more digits.
pub open spec fn is_integer_literal(s: Seq<char>) -> bool {
    if s.len() > 0 && s[0] == '-' {
        s.len() >= 2 && forall|i: int| 1 <= i < s.len() ==> is_digit(#[trigger] s[i])
    } else {
        s.len() >= 1 && forall|i: int| 0 <= i < s.len() ==> is_digit(#[trigger] s[i])
    }
}

/// The signed value an integer literal spells.
pub open spec fn literal_value(s: Seq<char>) -> int {
    if s.len() > 0 && s[0] == '-' {
        -digits_value(s.skip(1))
    } else {
        digits_value(s)
    }
}

/// What a signed integer literal at the head of `s` lexes to: how many
/// characters it covers and its value. There is no literal when `s` does not
/// begin with an optional minus sign directly followed by at least one digit,
/// or when the written value does not fit in an `i64`. The sign must be
/// adjacent to the digits; surrounding whitespace is the caller's business.
pub open spec fn spec_integer(s: Seq<char>) -> Option<(nat, i64)> {
    let neg = s.len() > 0 && s[0] == '-';
    let j: nat = if neg {
        1
    } else {
        0
    };
    let nd = digit_run(s.skip(j as int));
    if nd == 0 {
        None
    } else {
        let m = digits_value(s.subrange(j as int, (j + nd) as int));
        let v: int = if neg {
            -m
        } else {
            m
        };
        if v < i64::MIN || i64::MAX < v {
            None
        } else {
            Some((j + nd, v as i64))
        }
    }
}

/// A matched integer literal covers at least one character and at most the
/// whole input.
pub proof fn lemma_spec_integer_bounds(s: Seq<char>)
    ensures
        match spec_integer(s) {
            Some((k, _)) => 1 <= k <= s.len(),
            None => true,
        },
{
    let neg = s.len() > 0 && s[0] == '-';
    let j: nat = if neg {
        1
    } else {
        0
    };
    lemma_digit_run_le_len(s.skip(j as int));
}

/// Lexes a signed 64-bit integer literal from the head of `input`: an
/// optional minus sign directly followed by one or more digits. A literal
/// whose value does not fit in an `i64` is no match, as if the digits had not
/// been recognized at all.
pub fn integer(input: &str) -> (r: Result<(&str, i64), ParseError>)
    ensures
        crate::matches_outcome(r, input@, spec_integer(input@)),
{
    let ghost s = input@;
    let len = input.unicode_len();
    let neg = len > 0 && input.get_char(0) == '-';
    let j: usize = if neg {
        1
    } else {
        0
    };
    let nd = scan_digits(input, j);
    if nd == 0 {
        return Err(ParseError::NoMatch);
    }
    proof {
        lemma_digit_run_chars(s.skip(j as int));
        assert forall|q: int| j <= q < j + nd implies is_digit(#[trigger] s[q]) by {
            assert(s.skip(j as int)[q - j] == s[q]);
        }
    }
    let ghost ds = s.subrange(j as int, j + nd);
    let mut mag: u64 = 0;
    let mut i: usize = j;
    while i < j + nd
        invariant
            neg == (s.len() > 0 && s[0] == '-'),
            j == if neg {
                1usize
            } else {
                0usize
            },
            j <= i <= j + nd,
            j + nd <= len,
            len == s.len(),
            s == input@,
            nd == digit_run(s.skip(j as int)),
            ds == s.subrange(j as int, j + nd),
            forall|q: int| j <= q < j + nd ==> is_digit(#[trigger] s[q]),
            mag == digits_value(s.subrange(j as int, i as int)),
        decreases j + nd - i,
    {
        let c = input.get_char(i);
        assert(is_digit(s[i as int]));
        let d = (c as u32 - '0' as u32) as u64;
        if mag > (u64::MAX - d) / 10 {
            // The digits written here exceed any 64-bit value, so the
            // literal cannot be one: the prefix read so far is already
            // too large, and more digits only increase the value.
            proof {
                assert(neg == (s.len() > 0 && s[0] == '-'));
                lemma_too_many_digits(s, j as int, i as int, nd as int, mag, d);
            }
            return Err(ParseError::NoMatch);
        }
        proof {
            vstd::arithmetic::div_mod::lemma_fundamental_div_mod(
                (u64::MAX - d) as int,
                10,
            );
            assert(s.subrange(j as int, i + 1).drop_last() =~= s.subrange(j as int, i as int));
            assert(s.subrange(j as int, i + 1).last() == s[i as int]);
        }
        mag = mag * 10 + d;
        i += 1;
    }
    assert(s.subrange(j as int, i as int) == ds);
    let val: i64;
    if neg {
        if mag > 9223372036854775808u64 {
            proof {
                lemma_digits_value_nonneg(ds);
            }
            return Err(ParseError::NoMatch);
        }
        if mag == 9223372036854775808u64 {
            val = i64::MIN;
        } else {
            val = -(mag as i64);
        }
    } else {
        if mag > i64::MAX as u64 {
            proof {
                lemma_digits_value_nonneg(ds);
            }
            return Err(ParseError::NoMatch);
        }
        val = mag as i64;
    }
    let rest = input.substring_char(j + nd, len);
    proof {
        assert(rest@ =~= s.skip(j + nd));
    }
    Ok((rest, val))
}

/// When even the digits read so far exceed `u64::MAX`, the whole literal is
/// out of range for an `i64` and the integer rule yields nothing.
proof fn lemma_too_many_digits(s: Seq<char>, j: int, i: int, nd: int, mag: u64, d: u64)
    requires
        j == if s.len() > 0 && s[0] == '-' {
            1int
        } else {
            0int
        },
        0 <= j <= i < j + nd <= s.len(),
        nd == digit_run(s.skip(j)),
        forall|q: int| j <= q < j + nd ==> is_digit(#[trigger] s[q]),
        mag == digits_value(s.subrange(j, i)),
        d == digit_val(s[i]),
        mag > (u64::MAX - d) / 10,
    ensures
        spec_integer(s) is None,
{
    let ds = s.subrange(j, j + nd);
    vstd::arithmetic::div_mod::lemma_fundamental_div_mod((u64::MAX - d) as int, 10);
    assert(mag * 10 + d > u64::MAX) by {
        assert(mag >= (u64::MAX - d) / 10 + 1);
        vstd::arithmetic::mul::lemma_mul_inequality((u64::MAX - d) / 10 + 1, mag as int, 10);
    }
    assert(s.subrange(j, i + 1).drop_last() =~= s.subrange(j, i));
    assert(s.subrange(j, i + 1).last() == s[i]);
    assert(digits_value(s.subrange(j, i + 1)) == mag * 10 + d);
    assert(ds.take(i + 1 - j) =~= s.subrange(j, i + 1));
    assert forall|q: int| 0 <= q < ds.len() implies is_digit(#[trigger] ds[q]) by {
        assert(ds[q] == s[j + q]);
    }
    lemma_digits_value_prefix_le(ds, i + 1 - j);
    assert(digits_value(ds) > u64::MAX);
}

/// Truncating 64-bit division: the quotient of `a` by `b` rounded toward
/// zero. Like the other fixed-width operations it wraps on the one
/// overflowing case, `i64::MIN / -1`.
pub open spec fn div_trunc(a: i64, b: i64) -> i64 {
    if a == i64::MIN && b == -1 {
        i64::MIN
    } else {
        a.checked_div(b)->0
    }
}

/// Divides with the fixed-width truncating semantics, reporting a zero
/// divisor instead of failing.
pub fn div_i64(a: i64, b: i64) -> (r: Result<i64, ParseError>)
    ensures
        r == if b == 0 {
            Err::<i64, ParseError>(ParseError::DivisionByZero)
        } else {
            Ok::<i64, ParseError>(div_trunc(a, b))
        },
{
    if b == 0 {
        Err(ParseError::DivisionByZero)
    } else if a == i64::MIN && b == -1 {
        Ok(i64::MIN)
    } else {
        proof {
            lemma_checked_div_fits(a, b);
        }
        match a.checked_div(b) {
            Some(q) => Ok(q),
            None => Err(ParseError::DivisionByZero),
        }
    }
}

/// Outside the one overflowing case, a 64-bit quotient always fits.
proof fn lemma_checked_div_fits(a: i64, b: i64)
    requires
        b != 0,
        !(a == i64::MIN && b == -1),
    ensures
        a.checked_div(b) is Some,
{
    let x = a as int;
    let d = b as int;
    if x == 0 {
    } else if x > 0 && d > 0 {
        vstd::arithmetic::div_mod::lemma_div_pos_is_pos(x, d);
        vstd::arithmetic::div_mod::lemma_div_nonincreasing(x, d);
    } else if x < 0 && d < 0 {
        vstd::arithmetic::div_mod::lemma_div_pos_is_pos(-x, -d);
        vstd::arithmetic::div_mod::lemma_div_nonincreasing(-x, -d);
        if -d >= 2 {
            vstd::arithmetic::div_mod::lemma_div_is_ordered_by_denominator(-x, 2, -d);
            assert((-x) / 2 <= (i64::MAX as int)) by {
                vstd::arithmetic::div_mod::lemma_fundamental_div_mod(-x, 2);
            }
        }
    } else if x < 0 {
        vstd::arithmetic::div_mod::lemma_div_pos_is_pos(-x, d);
        vstd::arithmetic::div_mod::lemma_div_nonincreasing(-x, d);
    } else {
        vstd::arithmetic::div_mod::lemma_div_pos_is_pos(x, -d);
        vstd::arithmetic::div_mod::lemma_div_nonincreasing(x, -d);
    }
}

} // verus!
