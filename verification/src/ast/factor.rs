//! The grammar level between a literal and a full expression: a bare
//! constant, or an expression wrapped in parentheses.

use vstd::prelude::*;

use crate::ParseError;
use crate::ast::constant::Constant;
use crate::ast::constant::spec_constant;
use crate::ast::constant::lemma_spec_constant_bounds;
use crate::ast::expr::Expr;
use crate::ast::expr::ExprV;
use crate::ast::expr::spec_expr;
use crate::ast::expr::view_expr;
use crate::ast::expr::eval_expr;
use crate::ast::expr::lemma_spec_expr_bounds;
use crate::num::space_run;

verus! {

/// A factor: a constant, or a parenthesized sub-expression. The second
/// variant is the grammar's one recursion point; nesting depth in the input
/// is recursion depth here.
#[derive(Debug, PartialEq, Eq)]
pub enum Factor {
    Constant(Constant),
    ExprInParen(Box<Expr>),
}

/// The mathematical shape of a factor node.
pub enum FactorV {
    Constant(i64),
    ExprInParen(Box<ExprV>),
}

pub open spec fn view_factor(f: Factor) -> FactorV
    decreases f,
{
    match f {
        Factor::Constant(c) => FactorV::Constant(c.value),
        Factor::ExprInParen(e) => FactorV::ExprInParen(Box::new(view_expr(*e))),
    }
}

impl View for Factor {
    type V = FactorV;

    open spec fn view(&self) -> FactorV {
        view_factor(*self)
    }
}

/// What the factor rule yields on `s`: a constant if one matches, else a
/// parenthesized expression, else nothing.
pub open spec fn spec_factor(s: Seq<char>) -> Option<(nat, FactorV)>
    decreases s.len(), 1int,
{
    match spec_constant(s) {
        Some((k, v)) => Some((k, FactorV::Constant(v))),
        None => spec_expr_in_paren(s),
    }
}

/// What the parenthesized alternative yields on `s`: whitespace, an opening
/// parenthesis, a full expression, a closing parenthesis, whitespace.
pub open spec fn spec_expr_in_paren(s: Seq<char>) -> Option<(nat, FactorV)>
    decreases s.len(), 0int,
{
    let a = space_run(s);
    if a < s.len() && s[a as int] == '(' {
        match spec_expr(s.skip((a + 1) as int)) {
            Some((k, e)) => {
                let p = a + 1 + k;
                if p < s.len() && s[p as int] == ')' {
                    let b = space_run(s.skip((p + 1) as int));
                    Some(((p + 1 + b) as nat, FactorV::ExprInParen(Box::new(e))))
                } else {
                    None
                }
            },
            None => None,
        }
    } else {
        None
    }
}

/// A matched parenthesized expression covers at least its parentheses and at
/// most the input.
pub proof fn lemma_spec_expr_in_paren_bounds(s: Seq<char>)
    ensures
        match spec_expr_in_paren(s) {
            Some((k, _)) => 1 <= k <= s.len(),
            None => true,
        },
    decreases s.len(), 0int,
{
    crate::num::lemma_space_run_le_len(s);
    let a = space_run(s);
    if a < s.len() && s[a as int] == '(' {
        lemma_spec_expr_bounds(s.skip((a + 1) as int));
        match spec_expr(s.skip((a + 1) as int)) {
            Some((k, _)) => {
                let p = a + 1 + k;
                if p < s.len() && s[p as int] == ')' {
                    crate::num::lemma_space_run_le_len(s.skip((p + 1) as int));
                }
            },
            None => (),
        }
    }
}

/// A matched factor covers at least one character and at most the input.
pub proof fn lemma_spec_factor_bounds(s: Seq<char>)
    ensures
        match spec_factor(s) {
            Some((k, _)) => 1 <= k <= s.len(),
            None => true,
        },
    decreases s.len(), 1int,
{
    lemma_spec_constant_bounds(s);
    lemma_spec_expr_in_paren_bounds(s);
}

/// Parses a factor: a constant if one matches, else a parenthesized
/// expression.
pub fn factor(input: &str) -> (r: Result<(&str, Factor), ParseError>)
    ensures
        crate::matches_outcome(r, input@, spec_factor(input@)),
    decreases input@.len(), 1int,
{
    match crate::ast::constant::constant(input) {
        Ok((rest, c)) => Ok((rest, Factor::Constant(c))),
        Err(_) => expr_in_paren(input),
    }
}

/// Parses the parenthesized alternative: whitespace, an opening parenthesis,
/// an expression, a closing parenthesis, whitespace.
fn expr_in_paren(input: &str) -> (r: Result<(&str, Factor), ParseError>)
    ensures
        crate::matches_outcome(r, input@, spec_expr_in_paren(input@)),
    decreases input@.len(), 0int,
{
    let len = input.unicode_len();
    let a = crate::num::skip_spaces(input, 0);
    proof {
        assert(input@.skip(0) =~= input@);
    }
    if a >= len {
        return Err(ParseError::NoMatch);
    }
    let c = input.get_char(a);
    if c != '(' {
        return Err(ParseError::NoMatch);
    }
    let rest1 = input.substring_char(a + 1, len);
    proof {
        assert(rest1@ =~= input@.skip((a + 1) as int));
    }
    match crate::ast::expr::expr(rest1) {
        Ok((rest2, e)) => {
            let ghost k = (spec_expr(rest1@)->0).0;
            proof {
                lemma_spec_expr_bounds(rest1@);
                crate::lemma_skip_skip(input@, (a + 1) as int, k as int);
            }
            let ghost p = a + 1 + k;
            let rest2_len = rest2.unicode_len();
            if rest2_len == 0 {
                return Err(ParseError::NoMatch);
            }
            let c2 = rest2.get_char(0);
            if c2 != ')' {
                return Err(ParseError::NoMatch);
            }
            let b = crate::num::skip_spaces(rest2, 1);
            let rest3 = rest2.substring_char(1 + b, rest2_len);
            proof {
                assert(rest3@ =~= rest2@.skip((1 + b) as int));
                assert(rest2@.skip(1) =~= input@.skip((p + 1) as int));
                crate::lemma_skip_skip(input@, p as int, (1 + b) as int);
            }
            Ok((rest3, Factor::ExprInParen(Box::new(e))))
        },
        Err(e) => Err(e),
    }
}

/// The value of a factor: the constant it holds, or the value of the
/// expression inside its parentheses.
pub open spec fn eval_factor(f: FactorV) -> Result<i64, ParseError>
    decreases f,
{
    match f {
        FactorV::Constant(v) => Ok(v),
        FactorV::ExprInParen(e) => eval_expr(*e),
    }
}

pub(crate) fn calc_factor(f: &Factor) -> (r: Result<i64, ParseError>)
    ensures
        r == eval_factor(view_factor(*f)),
    decreases *f,
{
    match f {
        Factor::Constant(c) => Ok(c.value),
        Factor::ExprInParen(e) => crate::ast::expr::calc_expr(e),
    }
}

impl crate::ast::Calculatable for Factor {
    open spec fn eval_spec(&self) -> Result<i64, ParseError> {
        eval_factor(view_factor(*self))
    }

    fn calc(&self) -> (r: Result<i64, ParseError>) {
        calc_factor(self)
    }
}

} // verus!
