//! The abstract syntax of an arithmetic expression, one module per grammar
//! level, and the entry points that parse a whole input and reduce it to a
//! value.

use vstd::prelude::*;

pub mod constant;
pub mod expr;
pub mod factor;
pub mod term;

pub use constant::Constant;
pub use expr::Expr;
pub use factor::Factor;
pub use term::Term;

use crate::ParseError;

verus! {

/// A node of the tree that reduces to a 64-bit integer.
pub trait Calculatable {
    /// The value the node reduces to, or the error that reduction reports.
    spec fn eval_spec(&self) -> Result<i64, ParseError>;

    /// Reduces the node to its value, walking the tree bottom-up and folding
    /// every tail sequence left to right.
    fn calc(&self) -> (r: Result<i64, ParseError>)
        ensures
            r == self.eval_spec(),
    ;
}

/// The outcome of parsing a whole input: the expression tree when the
/// expression rule matches and covers every character; `TrailingInput` when
/// it matches a proper prefix; `NoMatch` when it does not match at all.
pub open spec fn spec_parse(s: Seq<char>) -> Result<expr::ExprV, ParseError> {
    match expr::spec_expr(s) {
        Some((k, e)) => if k == s.len() {
            Ok(e)
        } else {
            Err(ParseError::TrailingInput)
        },
        None => Err(ParseError::NoMatch),
    }
}

/// The value a whole input evaluates to: its tree reduced bottom-up, or the
/// first error the parse or the reduction meets.
pub open spec fn spec_evaluate(s: Seq<char>) -> Result<i64, ParseError> {
    match spec_parse(s) {
        Ok(e) => expr::eval_expr(e),
        Err(err) => Err(err),
    }
}

/// Parses the entire input as one expression. Input that the expression
/// rule only partly covers is rejected as `TrailingInput`, so that text such
/// as a well-formed expression followed by a stray closing parenthesis does
/// not pass for valid.
pub fn parse(input: &str) -> (r: Result<Expr, ParseError>)
    ensures
        match (r, spec_parse(input@)) {
            (Ok(e), Ok(ev)) => e@ == ev,
            (Err(e1), Err(e2)) => e1 == e2,
            _ => false,
        },
{
    match expr::expr(input) {
        Ok((rest, e)) => {
            proof {
                expr::lemma_spec_expr_bounds(input@);
            }
            if rest.unicode_len() == 0 {
                Ok(e)
            } else {
                Err(ParseError::TrailingInput)
            }
        },
        Err(e) => Err(e),
    }
}

/// Parses the entire input and reduces the tree to a value: the single
/// operation the expression core offers its callers.
pub fn evaluate(input: &str) -> (r: Result<i64, ParseError>)
    ensures
        r == spec_evaluate(input@),
{
    match parse(input) {
        Ok(e) => e.calc(),
        Err(err) => Err(err),
    }
}

/// Evaluating a lone integer literal yields exactly the value it spells:
/// the constant rule folds an adjacent sign into the value and changes
/// nothing else on the way from text to number.
pub proof fn lemma_evaluate_literal(s: Seq<char>)
    requires
        crate::num::is_integer_literal(s),
        i64::MIN <= crate::num::literal_value(s) <= i64::MAX,
    ensures
        spec_evaluate(s) == Ok::<i64, ParseError>(crate::num::literal_value(s) as i64),
{
    let neg = s[0] == '-';
    let j: nat = if neg {
        1
    } else {
        0
    };
    let ds = s.skip(j as int);
    let v = crate::num::literal_value(s);
    if !neg {
        assert(crate::num::is_digit(s[0]));
    }
    assert(crate::num::space_run(s) == 0);
    assert(s.skip(0) =~= s);
    assert(forall|i: int| 0 <= i < ds.len() ==> crate::num::is_digit(#[trigger] ds[i]));
    assert(ds + Seq::<char>::empty() =~= ds);
    crate::num::lemma_digit_run_exact_all(ds);
    assert(s.subrange(j as int, s.len() as int) =~= ds);
    assert(s.skip(s.len() as int) =~= Seq::<char>::empty());
    assert(crate::num::spec_integer(s) == Some::<(nat, i64)>((s.len() as nat, v as i64)));
    assert(constant::spec_constant(s) == Some::<(nat, i64)>((s.len() as nat, v as i64)));
    let fv = factor::FactorV::Constant(v as i64);
    assert(factor::spec_factor(s) == Some::<(nat, factor::FactorV)>((s.len() as nat, fv)));
    assert(crate::num::rest_after(s, s.len() as nat) =~= Seq::<char>::empty());
    let tv = term::TermV { head: fv, tail: Seq::empty() };
    assert(term::spec_term(s) == Some::<(nat, term::TermV)>((s.len() as nat, tv)));
    let ev = expr::ExprV { head: tv, tail: Seq::empty() };
    assert(expr::spec_expr(s) == Some::<(nat, expr::ExprV)>((s.len() as nat, ev)));
    assert(spec_parse(s) == Ok::<expr::ExprV, ParseError>(ev));
    assert(expr::eval_expr(ev) == Ok::<i64, ParseError>(v as i64));
}

/// Parsing is a pure function of the text: the outcome is fixed by the
/// input alone, so parsing the same text twice yields structurally equal
/// trees, and the same error on the same rejected input.
pub proof fn lemma_parse_deterministic(
    s: Seq<char>,
    r1: Result<expr::ExprV, ParseError>,
    r2: Result<expr::ExprV, ParseError>,
)
    requires
        r1 == spec_parse(s),
        r2 == spec_parse(s),
    ensures
        r1 == r2,
{
}

} // verus!
