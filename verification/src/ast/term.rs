//! The multiplicative grammar level: a head factor followed by
//! (multiply-or-divide, factor) pairs, reduced left to right.

use vstd::prelude::*;

use crate::ParseError;
use crate::ast::factor::Factor;
use crate::ast::factor::FactorV;
use crate::ast::factor::spec_factor;
use crate::ast::factor::view_factor;
use crate::ast::factor::eval_factor;
use crate::ast::factor::lemma_spec_factor_bounds;
use crate::num::div_trunc;
use crate::num::rest_after;

verus! {

/// A term: a head factor plus an ordered tail of multiplied or divided
/// factors. The tail order mirrors the source text; reduction follows it
/// left to right, which is what makes division left-associative.
#[derive(Debug, PartialEq, Eq)]
pub enum Term {
    Factors { head: Factor, tail: Vec<FactorWithOperator> },
}

/// One tail element of a term: the operator that joins it and the factor it
/// contributes.
#[derive(Debug, PartialEq, Eq)]
pub struct FactorWithOperator {
    pub operator: Operator,
    pub factor: Factor,
}

/// The operators of the multiplicative level.
#[derive(Clone, Copy, Debug, PartialEq, Eq, Structural)]
pub enum Operator {
    Multiply,
    Divide,
}

/// The mathematical shape of a term node.
pub struct TermV {
    pub head: FactorV,
    pub tail: Seq<FactorWithOperatorV>,
}

/// The mathematical shape of one multiplicative tail element.
pub struct FactorWithOperatorV {
    pub operator: Operator,
    pub factor: FactorV,
}

pub open spec fn view_factor_with_operator(f: FactorWithOperator) -> FactorWithOperatorV
    decreases f,
{
    FactorWithOperatorV { operator: f.operator, factor: view_factor(f.factor) }
}

pub open spec fn view_term_tail(fs: Seq<FactorWithOperator>) -> Seq<FactorWithOperatorV>
    decreases fs,
{
    if fs.len() == 0 {
        Seq::empty()
    } else {
        view_term_tail(fs.drop_last()).push(view_factor_with_operator(fs.last()))
    }
}

pub open spec fn view_term(t: Term) -> TermV
    decreases t,
{
    match t {
        Term::Factors { head, tail } => TermV {
            head: view_factor(head),
            tail: view_term_tail(tail@),
        },
    }
}

impl View for Term {
    type V = TermV;

    open spec fn view(&self) -> TermV {
        view_term(*self)
    }
}

impl View for FactorWithOperator {
    type V = FactorWithOperatorV;

    open spec fn view(&self) -> FactorWithOperatorV {
        view_factor_with_operator(*self)
    }
}

/// The element-wise reading of `view_term_tail`.
pub proof fn lemma_view_term_tail(fs: Seq<FactorWithOperator>)
    ensures
        view_term_tail(fs).len() == fs.len(),
        forall|i: int|
            0 <= i < fs.len() ==> view_term_tail(fs)[i] == view_factor_with_operator(
                #[trigger] fs[i],
            ),
    decreases fs.len(),
{
    if fs.len() > 0 {
        lemma_view_term_tail(fs.drop_last());
        assert(forall|i: int| 0 <= i < fs.len() - 1 ==> fs.drop_last()[i] == #[trigger] fs[i]);
    }
}

/// What the multiply-or-divide rule yields on `s`.
pub open spec fn spec_operator(s: Seq<char>) -> Option<(nat, Operator)> {
    if s.len() > 0 && s[0] == '*' {
        Some((1nat, Operator::Multiply))
    } else if s.len() > 0 && s[0] == '/' {
        Some((1nat, Operator::Divide))
    } else {
        None
    }
}

/// What the (operator, factor) pair rule yields on `s`: a multiply or divide
/// sign directly followed by a factor.
pub open spec fn spec_factor_with_operator(s: Seq<char>) -> Option<(nat, FactorWithOperatorV)>
    decreases s.len(), 2int,
{
    match spec_operator(s) {
        Some((k1, op)) => match spec_factor(s.skip(k1 as int)) {
            Some((k2, f)) => Some((k1 + k2, FactorWithOperatorV { operator: op, factor: f })),
            None => None,
        },
        None => None,
    }
}

/// The multiplicative tail of `s`: as many (operator, factor) pairs as
/// match, in order. Zero pairs is a valid tail, so this rule never fails.
pub open spec fn spec_term_tail(s: Seq<char>) -> (nat, Seq<FactorWithOperatorV>)
    decreases s.len(), 3int,
{
    if s.len() == 0 {
        (0nat, Seq::empty())
    } else {
        match spec_factor_with_operator(s) {
            Some((k, p)) => {
                let (k2, ps) = spec_term_tail(rest_after(s, k));
                ((k + k2) as nat, seq![p] + ps)
            },
            None => (0nat, Seq::empty()),
        }
    }
}

/// What the term rule yields on `s`: a factor and its multiplicative tail.
pub open spec fn spec_term(s: Seq<char>) -> Option<(nat, TermV)>
    decreases s.len(), 4int,
{
    match spec_factor(s) {
        Some((k, f)) => {
            let (k2, ps) = spec_term_tail(rest_after(s, k));
            Some(((k + k2) as nat, TermV { head: f, tail: ps }))
        },
        None => None,
    }
}

/// A matched pair covers its operator and at most the input.
pub proof fn lemma_spec_factor_with_operator_bounds(s: Seq<char>)
    ensures
        match spec_factor_with_operator(s) {
            Some((k, _)) => 1 <= k <= s.len(),
            None => true,
        },
    decreases s.len(), 2int,
{
    match spec_operator(s) {
        Some((k1, _)) => lemma_spec_factor_bounds(s.skip(k1 as int)),
        None => (),
    }
}

/// A multiplicative tail covers at most the input.
pub proof fn lemma_spec_term_tail_bounds(s: Seq<char>)
    ensures
        spec_term_tail(s).0 <= s.len(),
    decreases s.len(), 3int,
{
    if s.len() > 0 {
        lemma_spec_factor_with_operator_bounds(s);
        match spec_factor_with_operator(s) {
            Some((k, _)) => lemma_spec_term_tail_bounds(rest_after(s, k)),
            None => (),
        }
    }
}

/// A matched term covers at least one character and at most the input.
pub proof fn lemma_spec_term_bounds(s: Seq<char>)
    ensures
        match spec_term(s) {
            Some((k, _)) => 1 <= k <= s.len(),
            None => true,
        },
    decreases s.len(), 4int,
{
    lemma_spec_factor_bounds(s);
    match spec_factor(s) {
        Some((k, _)) => lemma_spec_term_tail_bounds(rest_after(s, k)),
        None => (),
    }
}

impl View for Operator {
    type V = Operator;

    open spec fn view(&self) -> Operator {
        *self
    }
}

/// Parses a multiply or divide sign.
pub fn operator(input: &str) -> (r: Result<(&str, Operator), ParseError>)
    ensures
        crate::matches_outcome(r, input@, spec_operator(input@)),
{
    let len = input.unicode_len();
    if len > 0 {
        let c = input.get_char(0);
        if c == '*' || c == '/' {
            let rest = input.substring_char(1, len);
            proof {
                assert(rest@ =~= input@.skip(1));
            }
            let op = if c == '*' {
                Operator::Multiply
            } else {
                Operator::Divide
            };
            return Ok((rest, op));
        }
    }
    Err(ParseError::NoMatch)
}

/// Parses one multiplicative tail element: a multiply or divide sign
/// directly followed by a factor.
pub fn factor_with_operator(input: &str) -> (r: Result<(&str, FactorWithOperator), ParseError>)
    ensures
        crate::matches_outcome(r, input@, spec_factor_with_operator(input@)),
    decreases input@.len(), 2int,
{
    let (rest1, op) = match operator(input) {
        Ok(p) => p,
        Err(e) => {
            return Err(e);
        },
    };
    let (rest2, f) = match crate::ast::factor::factor(rest1) {
        Ok(p) => p,
        Err(e) => {
            return Err(e);
        },
    };
    proof {
        lemma_spec_factor_bounds(rest1@);
        let k2 = (spec_factor(rest1@)->0).0;
        crate::lemma_skip_skip(input@, 1, k2 as int);
    }
    Ok((rest2, FactorWithOperator { operator: op, factor: f }))
}

/// Parses a term: a factor, then as many (operator, factor) pairs as match.
pub fn term(input: &str) -> (r: Result<(&str, Term), ParseError>)
    ensures
        crate::matches_outcome(r, input@, spec_term(input@)),
    decreases input@.len(), 4int,
{
    let (first_rest, head) = match crate::ast::factor::factor(input) {
        Ok(p) => p,
        Err(e) => {
            return Err(e);
        },
    };
    proof {
        lemma_spec_factor_bounds(input@);
    }
    let ghost k1 = (spec_factor(input@)->0).0;
    let ghost hv = (spec_factor(input@)->0).1;
    let mut rem = first_rest;
    let mut tail: Vec<FactorWithOperator> = Vec::new();
    let ghost mut done: nat = k1;
    proof {
        assert(view_term_tail(tail@) + spec_term_tail(rem@).1 =~= spec_term_tail(rem@).1);
    }
    loop
        invariant
            1 <= done <= input@.len(),
            rem@ == input@.skip(done as int),
            spec_factor(input@) == Some::<(nat, FactorV)>((k1, hv)),
            head@ == hv,
            ({
                let (k2, ps) = spec_term_tail(rem@);
                spec_term(input@) == Some::<(nat, TermV)>(
                    ((done + k2) as nat, TermV { head: hv, tail: view_term_tail(tail@) + ps }),
                )
            }),
        decreases rem@.len(),
    {
        match factor_with_operator(rem) {
            Ok((rem2, pair)) => {
                proof {
                    lemma_spec_factor_with_operator_bounds(rem@);
                    let kp = (spec_factor_with_operator(rem@)->0).0;
                    crate::lemma_skip_skip(input@, done as int, kp as int);
                    let pushed = tail@.push(pair);
                    assert(pushed.drop_last() =~= tail@);
                    assert(view_term_tail(pushed) == view_term_tail(tail@).push(pair@));
                    let (k2n, psn) = spec_term_tail(rem2@);
                    assert(view_term_tail(tail@) + (seq![pair@] + psn) =~= view_term_tail(
                        pushed,
                    ) + psn);
                    done = done + kp;
                }
                tail.push(pair);
                rem = rem2;
            },
            Err(_) => {
                proof {
                    assert(spec_term_tail(rem@).1 =~= Seq::<FactorWithOperatorV>::empty());
                    assert(view_term_tail(tail@) + Seq::<FactorWithOperatorV>::empty()
                        =~= view_term_tail(tail@));
                }
                return Ok((rem, Term::Factors { head, tail }));
            },
        }
    }
}

/// Folds a multiplicative tail onto an accumulated value, left to right:
/// multiplication wraps in the fixed width, division truncates toward zero,
/// and a zero divisor turns the fold into a `DivisionByZero` error. An
/// error, once met, is kept.
pub open spec fn eval_term_tail(
    acc: Result<i64, ParseError>,
    fs: Seq<FactorWithOperatorV>,
) -> Result<i64, ParseError>
    decreases fs,
{
    if fs.len() == 0 {
        acc
    } else {
        let next = match (acc, eval_factor(fs[0].factor)) {
            (Ok(a), Ok(v)) => match fs[0].operator {
                Operator::Multiply => Ok(a.wrapping_mul(v)),
                Operator::Divide => if v == 0 {
                    Err(ParseError::DivisionByZero)
                } else {
                    Ok(div_trunc(a, v))
                },
            },
            (Err(e), _) => Err(e),
            (_, Err(e)) => Err(e),
        };
        eval_term_tail(next, fs.drop_first())
    }
}

/// The value of a term: its head factor's value with every tail factor
/// multiplied or divided in source order.
pub open spec fn eval_term(t: TermV) -> Result<i64, ParseError>
    decreases t,
{
    eval_term_tail(eval_factor(t.head), t.tail)
}

pub(crate) fn calc_term(t: &Term) -> (r: Result<i64, ParseError>)
    ensures
        r == eval_term(view_term(*t)),
    decreases *t,
{
    match t {
        Term::Factors { head, tail } => {
            let ghost fsv = view_term_tail(tail@);
            proof {
                lemma_view_term_tail(tail@);
                assert(fsv.skip(0) =~= fsv);
            }
            let mut acc = crate::ast::factor::calc_factor(head);
            let mut i: usize = 0;
            while i < tail.len()
                invariant
                    0 <= i <= tail.len(),
                    fsv == view_term_tail(tail@),
                    fsv.len() == tail.len(),
                    forall|q: int|
                        0 <= q < tail.len() ==> fsv[q] == view_factor_with_operator(
                            #[trigger] tail@[q],
                        ),
                    eval_term_tail(acc, fsv.skip(i as int)) == eval_term(view_term(*t)),
                    *t == (Term::Factors { head: *head, tail: *tail }),
                decreases tail.len() - i,
            {
                proof {
                    assert(decreases_to!(*t => tail@[i as int]));
                    assert(fsv.skip(i as int)[0] == fsv[i as int]);
                    assert(fsv.skip(i as int).drop_first() =~= fsv.skip(i + 1));
                }
                let d = crate::ast::factor::calc_factor(&tail[i].factor);
                acc = match (acc, d) {
                    (Ok(a), Ok(v)) => match tail[i].operator {
                        Operator::Multiply => Ok(a.wrapping_mul(v)),
                        Operator::Divide => crate::num::div_i64(a, v),
                    },
                    (Err(err), _) => Err(err),
                    (_, Err(err)) => Err(err),
                };
                i += 1;
            }
            proof {
                assert(fsv.skip(tail.len() as int) =~= Seq::<FactorWithOperatorV>::empty());
            }
            acc
        },
    }
}

impl crate::ast::Calculatable for Term {
    open spec fn eval_spec(&self) -> Result<i64, ParseError> {
        eval_term(view_term(*self))
    }

    fn calc(&self) -> (r: Result<i64, ParseError>) {
        calc_term(self)
    }
}

} // verus!
