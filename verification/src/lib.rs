//! A calculator core: a recursive-descent parser for arithmetic expressions
//! over four precedence levels (expression, term, factor, constant), an
//! evaluator that reduces the parsed tree to a 64-bit integer, and the
//! editing state of an interactive front end.

use vstd::prelude::*;

pub mod ast;
pub mod num;
pub mod render;
pub mod state;

verus! {

/// Why a parse or an evaluation produced no value.
#[derive(Clone, Copy, Debug, PartialEq, Eq, Structural)]
pub enum ParseError {
    /// The input does not conform to the grammar at the attempted production.
    NoMatch,
    /// A full-input parse matched a prefix but left unconsumed text behind.
    TrailingInput,
    /// Integer evaluation reached a division whose right operand is zero.
    DivisionByZero,
}

/// Relates what a parsing function returned to the outcome its grammar rule
/// prescribes: on `Some((k, v))` the rule consumes `k` characters of `s` and
/// yields `v`, so the call must return `v` with the rest of the input; on
/// `None` the rule does not apply and the call must report `NoMatch`.
pub open spec fn matches_outcome<T: View>(
    r: Result<(&str, T), ParseError>,
    s: Seq<char>,
    out: Option<(nat, T::V)>,
) -> bool {
    match (r, out) {
        (Ok((rem, v)), Some((k, w))) => rem@ == s.skip(k as int) && v@ == w,
        (Err(e), None) => e == ParseError::NoMatch,
        _ => false,
    }
}

/// Relies on `String::push`: appends exactly the one character at the end.
#[verifier::external_body]
pub(crate) fn push_char(s: &mut String, c: char)
    ensures
        final(s)@ == old(s)@.push(c),
{
    s.push(c);
}

/// Skipping `a` characters and then `b` more is skipping `a + b` at once.
pub proof fn lemma_skip_skip(s: Seq<char>, a: int, b: int)
    requires
        0 <= a <= s.len(),
        0 <= b <= s.len() - a,
    ensures
        s.skip(a).skip(b) == s.skip(a + b),
{
    assert(s.skip(a).skip(b) =~= s.skip(a + b));
}

} // verus!
