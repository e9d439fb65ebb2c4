//! The lowest grammar level: a signed integer literal with whitespace
//! allowed around it.

use vstd::prelude::*;

use crate::ParseError;
use crate::num::integer;
use crate::num::skip_spaces;
use crate::num::space_run;
use crate::num::spec_integer;

verus! {

/// A literal node: the integer it denotes, with an optional leading minus
/// sign already folded into the value.
#[derive(Clone, Copy, Debug, PartialEq, Eq, Structural)]
pub struct Constant {
    pub value: i64,
}

impl Constant {
    pub fn new(value: i64) -> (c: Constant)
        ensures
            c.value == value,
    {
        Constant { value }
    }
}

impl View for Constant {
    type V = i64;

    open spec fn view(&self) -> i64 {
        self.value
    }
}

impl crate::ast::Calculatable for Constant {
    open spec fn eval_spec(&self) -> Result<i64, ParseError> {
        Ok(self.value)
    }

    fn calc(&self) -> (r: Result<i64, ParseError>) {
        Ok(self.value)
    }
}

/// What the constant rule yields on `s`: leading whitespace, an integer
/// literal, trailing whitespace. The literal's sign must touch its digits;
/// only the whole literal may be surrounded by whitespace.
pub open spec fn spec_constant(s: Seq<char>) -> Option<(nat, i64)> {
    let a = space_run(s);
    match spec_integer(s.skip(a as int)) {
        Some((k, v)) => {
            let b = space_run(s.skip((a + k) as int));
            Some((a + k + b, v))
        },
        None => None,
    }
}

/// A matched constant covers at least its one digit and at most the input.
pub proof fn lemma_spec_constant_bounds(s: Seq<char>)
    ensures
        match spec_constant(s) {
            Some((k, _)) => 1 <= k <= s.len(),
            None => true,
        },
{
    crate::num::lemma_space_run_le_len(s);
    let a = space_run(s);
    crate::num::lemma_spec_integer_bounds(s.skip(a as int));
    if spec_integer(s.skip(a as int)) is Some {
        let k = (spec_integer(s.skip(a as int))->0).0;
        crate::num::lemma_space_run_le_len(s.skip((a + k) as int));
    }
}

/// Parses a constant: whitespace, a signed integer literal, whitespace.
pub fn constant(input: &str) -> (r: Result<(&str, Constant), ParseError>)
    ensures
        crate::matches_outcome(r, input@, spec_constant(input@)),
{
    let len = input.unicode_len();
    let a = skip_spaces(input, 0);
    let rest1 = input.substring_char(a, len);
    proof {
        assert(input@.skip(0) =~= input@);
        assert(rest1@ =~= input@.skip(a as int));
    }
    match integer(rest1) {
        Ok((rest2, v)) => {
            let ghost k = (spec_integer(rest1@)->0).0;
            proof {
                crate::num::lemma_spec_integer_bounds(rest1@);
                crate::lemma_skip_skip(input@, a as int, k as int);
            }
            let rest2_len = rest2.unicode_len();
            let b = skip_spaces(rest2, 0);
            let rest3 = rest2.substring_char(b, rest2_len);
            proof {
                assert(rest2@.skip(0) =~= rest2@);
                assert(rest3@ =~= rest2@.skip(b as int));
                crate::lemma_skip_skip(input@, (a + k) as int, b as int);
            }
            Ok((rest3, Constant::new(v)))
        },
        Err(e) => Err(e),
    }
}

} // verus!
