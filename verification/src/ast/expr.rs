//! The top grammar level: a head term followed by (plus-or-minus, term)
//! pairs, reduced left to right.

use vstd::prelude::*;

use crate::ParseError;
use crate::ast::term::Term;
use crate::ast::term::TermV;
use crate::ast::term::spec_term;
use crate::ast::term::view_term;
use crate::ast::term::eval_term;
use crate::ast::term::lemma_spec_term_bounds;
use crate::num::rest_after;

verus! {

/// An expression: a head term plus an ordered tail of signed terms. The tail
/// order mirrors the source text; reduction follows it left to right.
#[derive(Debug, PartialEq, Eq)]
pub enum Expr {
    Terms { head: Term, tail: Vec<TermWithOperator> },
}

/// One tail element of an expression: the operator that joins it and the
/// term it contributes.
#[derive(Debug, PartialEq, Eq)]
pub struct TermWithOperator {
    pub operator: Operator,
    pub term: Term,
}

/// The operators of the additive level.
#[derive(Clone, Copy, Debug, PartialEq, Eq, Structural)]
pub enum Operator {
    Plus,
    Minus,
}

/// The mathematical shape of an expression node.
pub struct ExprV {
    pub head: TermV,
    pub tail: Seq<TermWithOperatorV>,
}

/// The mathematical shape of one additive tail element.
pub struct TermWithOperatorV {
    pub operator: Operator,
    pub term: TermV,
}

pub open spec fn view_term_with_operator(t: TermWithOperator) -> TermWithOperatorV
    decreases t,
{
    TermWithOperatorV { operator: t.operator, term: view_term(t.term) }
}

pub open spec fn view_expr_tail(ts: Seq<TermWithOperator>) -> Seq<TermWithOperatorV>
    decreases ts,
{
    if ts.len() == 0 {
        Seq::empty()
    } else {
        view_expr_tail(ts.drop_last()).push(view_term_with_operator(ts.last()))
    }
}

pub open spec fn view_expr(e: Expr) -> ExprV
    decreases e,
{
    match e {
        Expr::Terms { head, tail } => ExprV {
            head: view_term(head),
            tail: view_expr_tail(tail@),
        },
    }
}

impl View for Expr {
    type V = ExprV;

    open spec fn view(&self) -> ExprV {
        view_expr(*self)
    }
}

impl View for TermWithOperator {
    type V = TermWithOperatorV;

    open spec fn view(&self) -> TermWithOperatorV {
        view_term_with_operator(*self)
    }
}

/// The element-wise reading of `view_expr_tail`.
pub proof fn lemma_view_expr_tail(ts: Seq<TermWithOperator>)
    ensures
        view_expr_tail(ts).len() == ts.len(),
        forall|i: int|
            0 <= i < ts.len() ==> view_expr_tail(ts)[i] == view_term_with_operator(#[trigger] ts[i]),
    decreases ts.len(),
{
    if ts.len() > 0 {
        lemma_view_expr_tail(ts.drop_last());
        assert(forall|i: int| 0 <= i < ts.len() - 1 ==> ts.drop_last()[i] == #[trigger] ts[i]);
    }
}

/// What the plus-or-minus rule yields on `s`.
pub open spec fn spec_operator(s: Seq<char>) -> Option<(nat, Operator)> {
    if s.len() > 0 && s[0] == '+' {
        Some((1nat, Operator::Plus))
    } else if s.len() > 0 && s[0] == '-' {
        Some((1nat, Operator::Minus))
    } else {
        None
    }
}

/// What the (operator, term) pair rule yields on `s`: a plus or minus sign
/// directly followed by a term.
pub open spec fn spec_term_with_operator(s: Seq<char>) -> Option<(nat, TermWithOperatorV)>
    decreases s.len(), 4int,
{
    match spec_operator(s) {
        Some((k1, op)) => match spec_term(s.skip(k1 as int)) {
            Some((k2, t)) => Some((k1 + k2, TermWithOperatorV { operator: op, term: t })),
            None => None,
        },
        None => None,
    }
}

/// The additive tail of `s`: as many (operator, term) pairs as match, in
/// order. Zero pairs is a valid tail, so this rule never fails.
pub open spec fn spec_expr_tail(s: Seq<char>) -> (nat, Seq<TermWithOperatorV>)
    decreases s.len(), 5int,
{
    if s.len() == 0 {
        (0nat, Seq::empty())
    } else {
        match spec_term_with_operator(s) {
            Some((k, p)) => {
                let (k2, ps) = spec_expr_tail(rest_after(s, k));
                ((k + k2) as nat, seq![p] + ps)
            },
            None => (0nat, Seq::empty()),
        }
    }
}

/// What the expression rule yields on `s`: a term and its additive tail.
pub open spec fn spec_expr(s: Seq<char>) -> Option<(nat, ExprV)>
    decreases s.len(), 6int,
{
    match spec_term(s) {
        Some((k, t)) => {
            let (k2, ps) = spec_expr_tail(rest_after(s, k));
            Some(((k + k2) as nat, ExprV { head: t, tail: ps }))
        },
        None => None,
    }
}

/// A matched pair covers its operator and at most the input.
pub proof fn lemma_spec_term_with_operator_bounds(s: Seq<char>)
    ensures
        match spec_term_with_operator(s) {
            Some((k, _)) => 1 <= k <= s.len(),
            None => true,
        },
    decreases s.len(), 4int,
{
    match spec_operator(s) {
        Some((k1, _)) => lemma_spec_term_bounds(s.skip(k1 as int)),
        None => (),
    }
}

/// An additive tail covers at most the input.
pub proof fn lemma_spec_expr_tail_bounds(s: Seq<char>)
    ensures
        spec_expr_tail(s).0 <= s.len(),
    decreases s.len(), 5int,
{
    if s.len() > 0 {
        lemma_spec_term_with_operator_bounds(s);
        match spec_term_with_operator(s) {
            Some((k, _)) => lemma_spec_expr_tail_bounds(rest_after(s, k)),
            None => (),
        }
    }
}

/// A matched expression covers at least one character and at most the input.
pub proof fn lemma_spec_expr_bounds(s: Seq<char>)
    ensures
        match spec_expr(s) {
            Some((k, _)) => 1 <= k <= s.len(),
            None => true,
        },
    decreases s.len(), 6int,
{
    lemma_spec_term_bounds(s);
    match spec_term(s) {
        Some((k, _)) => lemma_spec_expr_tail_bounds(rest_after(s, k)),
        None => (),
    }
}

impl View for Operator {
    type V = Operator;

    open spec fn view(&self) -> Operator {
        *self
    }
}

/// Parses a plus or minus sign.
pub fn operator(input: &str) -> (r: Result<(&str, Operator), ParseError>)
    ensures
        crate::matches_outcome(r, input@, spec_operator(input@)),
{
    let len = input.unicode_len();
    if len > 0 {
        let c = input.get_char(0);
        if c == '+' || c == '-' {
            let rest = input.substring_char(1, len);
            proof {
                assert(rest@ =~= input@.skip(1));
            }
            let op = if c == '+' {
                Operator::Plus
            } else {
                Operator::Minus
            };
            return Ok((rest, op));
        }
    }
    Err(ParseError::NoMatch)
}

/// Parses one additive tail element: a plus or minus sign directly followed
/// by a term.
pub fn term_with_operator(input: &str) -> (r: Result<(&str, TermWithOperator), ParseError>)
    ensures
        crate::matches_outcome(r, input@, spec_term_with_operator(input@)),
    decreases input@.len(), 4int,
{
    let (rest1, op) = match operator(input) {
        Ok(p) => p,
        Err(e) => {
            return Err(e);
        },
    };
    let (rest2, t) = match crate::ast::term::term(rest1) {
        Ok(p) => p,
        Err(e) => {
            return Err(e);
        },
    };
    proof {
        lemma_spec_term_bounds(rest1@);
        let k2 = (spec_term(rest1@)->0).0;
        crate::lemma_skip_skip(input@, 1, k2 as int);
    }
    Ok((rest2, TermWithOperator { operator: op, term: t }))
}

/// Parses an expression: a term, then as many (operator, term) pairs as
/// match.
pub fn expr(input: &str) -> (r: Result<(&str, Expr), ParseError>)
    ensures
        crate::matches_outcome(r, input@, spec_expr(input@)),
    decreases input@.len(), 6int,
{
    let (first_rest, head) = match crate::ast::term::term(input) {
        Ok(p) => p,
        Err(e) => {
            return Err(e);
        },
    };
    proof {
        lemma_spec_term_bounds(input@);
    }
    let ghost k1 = (spec_term(input@)->0).0;
    let ghost hv = (spec_term(input@)->0).1;
    let mut rem = first_rest;
    let mut tail: Vec<TermWithOperator> = Vec::new();
    let ghost mut done: nat = k1;
    proof {
        assert(view_expr_tail(tail@) + spec_expr_tail(rem@).1 =~= spec_expr_tail(rem@).1);
    }
    loop
        invariant
            1 <= done <= input@.len(),
            rem@ == input@.skip(done as int),
            spec_term(input@) == Some::<(nat, TermV)>((k1, hv)),
            head@ == hv,
            ({
                let (k2, ps) = spec_expr_tail(rem@);
                spec_expr(input@) == Some::<(nat, ExprV)>(
                    ((done + k2) as nat, ExprV { head: hv, tail: view_expr_tail(tail@) + ps }),
                )
            }),
        decreases rem@.len(),
    {
        match term_with_operator(rem) {
            Ok((rem2, pair)) => {
                proof {
                    lemma_spec_term_with_operator_bounds(rem@);
                    let kp = (spec_term_with_operator(rem@)->0).0;
                    crate::lemma_skip_skip(input@, done as int, kp as int);
                    let pushed = tail@.push(pair);
                    assert(pushed.drop_last() =~= tail@);
                    assert(view_expr_tail(pushed) == view_expr_tail(tail@).push(pair@));
                    let (k2n, psn) = spec_expr_tail(rem2@);
                    assert(view_expr_tail(tail@) + (seq![pair@] + psn) =~= view_expr_tail(
                        pushed,
                    ) + psn);
                    done = done + kp;
                }
                tail.push(pair);
                rem = rem2;
            },
            Err(_) => {
                proof {
                    assert(spec_expr_tail(rem@).1 =~= Seq::<TermWithOperatorV>::empty());
                    assert(view_expr_tail(tail@) + Seq::<TermWithOperatorV>::empty()
                        =~= view_expr_tail(tail@));
                }
                return Ok((rem, Expr::Terms { head, tail }));
            },
        }
    }
}

/// The signed value one additive tail element contributes: the term's value,
/// negated after a minus sign.
pub open spec fn eval_term_with_operator(t: TermWithOperatorV) -> Result<i64, ParseError>
    decreases t,
{
    match eval_term(t.term) {
        Ok(v) => Ok(
            if t.operator == Operator::Minus {
                (0i64).wrapping_sub(v)
            } else {
                v
            },
        ),
        Err(e) => Err(e),
    }
}

/// Folds an additive tail onto an accumulated value, left to right, with
/// fixed-width wrapping addition; an error, once met, is kept.
pub open spec fn eval_expr_tail(
    acc: Result<i64, ParseError>,
    ts: Seq<TermWithOperatorV>,
) -> Result<i64, ParseError>
    decreases ts,
{
    if ts.len() == 0 {
        acc
    } else {
        let next = match (acc, eval_term_with_operator(ts[0])) {
            (Ok(a), Ok(d)) => Ok(a.wrapping_add(d)),
            (Err(e), _) => Err(e),
            (_, Err(e)) => Err(e),
        };
        eval_expr_tail(next, ts.drop_first())
    }
}

/// The value of an expression: its head term's value with every tail term
/// added or subtracted in source order.
pub open spec fn eval_expr(e: ExprV) -> Result<i64, ParseError>
    decreases e,
{
    eval_expr_tail(eval_term(e.head), e.tail)
}

pub(crate) fn calc_term_with_operator(t: &TermWithOperator) -> (r: Result<i64, ParseError>)
    ensures
        r == eval_term_with_operator(view_term_with_operator(*t)),
    decreases *t,
{
    match crate::ast::term::calc_term(&t.term) {
        Ok(v) => Ok(
            match t.operator {
                Operator::Minus => (0i64).wrapping_sub(v),
                Operator::Plus => v,
            },
        ),
        Err(e) => Err(e),
    }
}

pub(crate) fn calc_expr(e: &Expr) -> (r: Result<i64, ParseError>)
    ensures
        r == eval_expr(view_expr(*e)),
    decreases *e,
{
    match e {
        Expr::Terms { head, tail } => {
            let ghost tsv = view_expr_tail(tail@);
            proof {
                lemma_view_expr_tail(tail@);
                assert(tsv.skip(0) =~= tsv);
            }
            let mut acc = crate::ast::term::calc_term(head);
            let mut i: usize = 0;
            while i < tail.len()
                invariant
                    0 <= i <= tail.len(),
                    tsv == view_expr_tail(tail@),
                    tsv.len() == tail.len(),
                    forall|q: int|
                        0 <= q < tail.len() ==> tsv[q] == view_term_with_operator(
                            #[trigger] tail@[q],
                        ),
                    eval_expr_tail(acc, tsv.skip(i as int)) == eval_expr(view_expr(*e)),
                    *e == (Expr::Terms { head: *head, tail: *tail }),
                decreases tail.len() - i,
            {
                proof {
                    assert(decreases_to!(*e => tail@[i as int]));
                    assert(tsv.skip(i as int)[0] == tsv[i as int]);
                    assert(tsv.skip(i as int).drop_first() =~= tsv.skip(i + 1));
                }
                let d = calc_term_with_operator(&tail[i]);
                acc = match (acc, d) {
                    (Ok(a), Ok(v)) => Ok(a.wrapping_add(v)),
                    (Err(err), _) => Err(err),
                    (_, Err(err)) => Err(err),
                };
                i += 1;
            }
            proof {
                assert(tsv.skip(tail.len() as int) =~= Seq::<TermWithOperatorV>::empty());
            }
            acc
        },
    }
}

impl crate::ast::Calculatable for Expr {
    open spec fn eval_spec(&self) -> Result<i64, ParseError> {
        eval_expr(view_expr(*self))
    }

    fn calc(&self) -> (r: Result<i64, ParseError>) {
        calc_expr(self)
    }
}

impl crate::ast::Calculatable for TermWithOperator {
    open spec fn eval_spec(&self) -> Result<i64, ParseError> {
        eval_term_with_operator(view_term_with_operator(*self))
    }

    fn calc(&self) -> (r: Result<i64, ParseError>) {
        calc_term_with_operator(self)
    }
}

} // verus!
