//! Canonical text for a parsed tree, and the proof that re-parsing that
//! text gives the tree back unchanged.
//!
//! The canonical form spells every node without whitespace: a constant as
//! its decimal digits with a minus sign folded in, a tail element as its
//! operator character followed by its operand, a parenthesized expression
//! inside its parentheses.

use vstd::prelude::*;
use vstd::string::StringExecFns;

use crate::ParseError;
use crate::ast::constant::spec_constant;
use crate::ast::expr::ExprV;
use crate::ast::expr::TermWithOperatorV;
use crate::ast::expr::spec_expr;
use crate::ast::factor::FactorV;
use crate::ast::factor::spec_expr_in_paren;
use crate::ast::factor::spec_factor;
use crate::ast::term::TermV;
use crate::ast::term::FactorWithOperatorV;
use crate::ast::term::spec_term;
use crate::num::digit_run;
use crate::num::digit_val;
use crate::num::digits_value;
use crate::num::is_digit;
use crate::num::is_space;
use crate::num::space_run;
use crate::num::spec_integer;

verus! {

/// The digit character for a value below ten.
pub open spec fn digit_char(d: nat) -> char {
    ((48 + d) as u8) as char
}

/// The decimal digits of `n`, most significant first, with no leading zero
/// except for zero itself.
pub open spec fn digits_of(n: nat) -> Seq<char>
    decreases n,
{
    if n < 10 {
        seq![digit_char(n)]
    } else {
        digits_of(n / 10).push(digit_char(n % 10))
    }
}

/// The canonical text of a literal value: its digits, after a minus sign
/// when it is negative.
pub open spec fn spec_render_int(v: i64) -> Seq<char> {
    if v < 0 {
        seq!['-'] + digits_of((-(v as int)) as nat)
    } else {
        digits_of(v as nat)
    }
}

/// The character of a multiplicative operator.
pub open spec fn mul_op_char(op: crate::ast::term::Operator) -> char {
    match op {
        crate::ast::term::Operator::Multiply => '*',
        crate::ast::term::Operator::Divide => '/',
    }
}

/// The character of an additive operator.
pub open spec fn add_op_char(op: crate::ast::expr::Operator) -> char {
    match op {
        crate::ast::expr::Operator::Plus => '+',
        crate::ast::expr::Operator::Minus => '-',
    }
}

pub open spec fn spec_render_factor(f: FactorV) -> Seq<char>
    decreases f, 0int,
{
    match f {
        FactorV::Constant(v) => spec_render_int(v),
        FactorV::ExprInParen(e) => seq!['('] + spec_render_expr(*e) + seq![')'],
    }
}

pub open spec fn spec_render_factor_with_operator(p: FactorWithOperatorV) -> Seq<char>
    decreases p, 1int,
{
    seq![mul_op_char(p.operator)] + spec_render_factor(p.factor)
}

pub open spec fn spec_render_term_tail(ps: Seq<FactorWithOperatorV>) -> Seq<char>
    decreases ps, 2int,
{
    if ps.len() == 0 {
        Seq::empty()
    } else {
        spec_render_factor_with_operator(ps[0]) + spec_render_term_tail(ps.drop_first())
    }
}

pub open spec fn spec_render_term(t: TermV) -> Seq<char>
    decreases t, 3int,
{
    spec_render_factor(t.head) + spec_render_term_tail(t.tail)
}

pub open spec fn spec_render_term_with_operator(p: TermWithOperatorV) -> Seq<char>
    decreases p, 4int,
{
    seq![add_op_char(p.operator)] + spec_render_term(p.term)
}

pub open spec fn spec_render_expr_tail(ps: Seq<TermWithOperatorV>) -> Seq<char>
    decreases ps, 5int,
{
    if ps.len() == 0 {
        Seq::empty()
    } else {
        spec_render_term_with_operator(ps[0]) + spec_render_expr_tail(ps.drop_first())
    }
}

pub open spec fn spec_render_expr(e: ExprV) -> Seq<char>
    decreases e, 6int,
{
    spec_render_term(e.head) + spec_render_expr_tail(e.tail)
}

/// Text that cannot extend a constant: it starts with neither a digit nor
/// whitespace.
pub open spec fn stops_constant(t: Seq<char>) -> bool {
    t.len() == 0 || (!is_digit(t[0]) && !is_space(t[0]))
}

/// Text that cannot extend a term: it also starts with no multiplicative
/// operator.
pub open spec fn stops_term(t: Seq<char>) -> bool {
    stops_constant(t) && (t.len() == 0 || (t[0] != '*' && t[0] != '/'))
}

/// Text that cannot extend an expression: it also starts with no additive
/// operator. In a rendering this is only ever a closing parenthesis or the
/// end of the text.
pub open spec fn stops_expr(t: Seq<char>) -> bool {
    stops_term(t) && (t.len() == 0 || (t[0] != '+' && t[0] != '-'))
}

/// The character of a value below ten is a digit and reads back as that
/// value.
proof fn lemma_digit_char_val(d: nat)
    requires
        d < 10,
    ensures
        is_digit(digit_char(d)),
        digit_val(digit_char(d)) == d,
{
    assert(((48 + d) as u8) as char as u32 == 48 + d);
}

/// The digits of `n` are digits, and there is at least one of them.
proof fn lemma_digits_of_wf(n: nat)
    ensures
        digits_of(n).len() >= 1,
        forall|i: int| 0 <= i < digits_of(n).len() ==> is_digit(#[trigger] digits_of(n)[i]),
    decreases n,
{
    if n < 10 {
        lemma_digit_char_val(n);
    } else {
        lemma_digits_of_wf(n / 10);
        lemma_digit_char_val(n % 10);
    }
}

/// Reading the digits of `n` back in base ten gives `n`.
proof fn lemma_digits_of_value(n: nat)
    ensures
        digits_value(digits_of(n)) == n,
    decreases n,
{
    if n < 10 {
        lemma_digit_char_val(n);
        let ds = digits_of(n);
        assert(ds.len() == 1);
        assert(ds.drop_last() =~= Seq::<char>::empty());
        assert(ds.last() == digit_char(n));
        assert(digits_value(Seq::<char>::empty()) == 0);
        assert(digits_value(ds) == digits_value(ds.drop_last()) * 10 + digit_val(ds.last()));
    } else {
        lemma_digits_of_value(n / 10);
        lemma_digit_char_val(n % 10);
        let ds = digits_of(n);
        assert(ds == digits_of(n / 10).push(digit_char(n % 10)));
        assert(ds.drop_last() =~= digits_of(n / 10));
        assert(ds.last() == digit_char(n % 10));
        assert(digits_value(ds) == digits_value(ds.drop_last()) * 10 + digit_val(ds.last()));
        vstd::arithmetic::div_mod::lemma_fundamental_div_mod(n as int, 10);
    }
}

/// A digit string followed by text that starts with no digit reads as
/// exactly that digit string.
proof fn lemma_digit_run_exact(ds: Seq<char>, t: Seq<char>)
    requires
        forall|i: int| 0 <= i < ds.len() ==> is_digit(#[trigger] ds[i]),
        t.len() == 0 || !is_digit(t[0]),
    ensures
        digit_run(ds + t) == ds.len(),
    decreases ds.len(),
{
    if ds.len() == 0 {
        assert(ds + t =~= t);
    } else {
        lemma_digit_run_exact(ds.drop_first(), t);
        assert((ds + t).drop_first() =~= ds.drop_first() + t);
        assert((ds + t)[0] == ds[0]);
    }
}

/// A rendered literal, followed by text that extends neither its digits nor
/// its whitespace, reads back as exactly that literal.
proof fn lemma_rt_int(v: i64, t: Seq<char>)
    requires
        stops_constant(t),
    ensures
        spec_constant(spec_render_int(v) + t) == Some::<(nat, i64)>(
            (spec_render_int(v).len() as nat, v),
        ),
{
    let lit = spec_render_int(v);
    let s = lit + t;
    let m: nat = if v < 0 {
        (-(v as int)) as nat
    } else {
        v as nat
    };
    lemma_digits_of_wf(m);
    lemma_digits_of_value(m);
    let ds = digits_of(m);
    let neg = v < 0;
    let j: nat = if neg {
        1
    } else {
        0
    };
    if neg {
        assert(s[0] == '-');
    } else {
        assert(s[0] == ds[0]);
        assert(is_digit(s[0]));
    }
    assert(space_run(s) == 0);
    assert(s.skip(0) =~= s);
    assert((s.len() > 0 && s[0] == '-') == neg);
    assert(s.skip(j as int) =~= ds + t);
    lemma_digit_run_exact(ds, t);
    assert(s.subrange(j as int, (j + ds.len()) as int) =~= ds);
    assert(s.skip((j + ds.len()) as int) =~= t);
    assert(space_run(t) == 0);
    assert(spec_integer(s) == Some::<(nat, i64)>(((j + ds.len()) as nat, v)));
}

/// A rendered factor is at least one character long.
proof fn lemma_render_factor_len(f: FactorV)
    ensures
        spec_render_factor(f).len() >= 1,
{
    match f {
        FactorV::Constant(v) => {
            let m: nat = if v < 0 {
                (-(v as int)) as nat
            } else {
                v as nat
            };
            lemma_digits_of_wf(m);
        },
        FactorV::ExprInParen(_) => {},
    }
}

/// A rendered factor, followed by text that cannot extend a constant, reads
/// back as exactly that factor.
proof fn lemma_rt_factor(f: FactorV, t: Seq<char>)
    requires
        stops_constant(t),
    ensures
        spec_factor(spec_render_factor(f) + t) == Some::<(nat, FactorV)>(
            (spec_render_factor(f).len() as nat, f),
        ),
    decreases f, 1int,
{
    match f {
        FactorV::Constant(v) => {
            lemma_rt_int(v, t);
        },
        FactorV::ExprInParen(b) => {
            let inner = spec_render_expr(*b);
            let s = spec_render_factor(f) + t;
            assert(s[0] == '(');
            assert(space_run(s) == 0);
            assert(s.skip(0) =~= s);
            assert(digit_run(s) == 0);
            assert(spec_constant(s) is None);
            let t2 = seq![')'] + t;
            assert(s.skip(1) =~= inner + t2);
            lemma_rt_expr(*b, t2);
            let p: nat = 1 + inner.len();
            assert(s[p as int] == ')');
            assert(s.skip((p + 1) as int) =~= t);
            assert(space_run(t) == 0);
            assert(spec_expr_in_paren(s) == Some::<(nat, FactorV)>(((p + 1) as nat, f)));
        },
    }
}

/// A rendered multiplicative tail, followed by text that cannot extend a
/// term, reads back as exactly that tail.
#[verifier::rlimit(100)]
proof fn lemma_rt_term_tail(ps: Seq<FactorWithOperatorV>, t: Seq<char>)
    requires
        stops_term(t),
    ensures
        crate::ast::term::spec_term_tail(spec_render_term_tail(ps) + t) == ((
            spec_render_term_tail(ps).len() as nat,
            ps,
        )),
    decreases ps, 2int,
{
    if ps.len() == 0 {
        assert(spec_render_term_tail(ps) + t =~= t);
        assert(ps =~= Seq::<FactorWithOperatorV>::empty());
        assert(crate::ast::term::spec_operator(t) is None);
        assert(crate::ast::term::spec_factor_with_operator(t) is None);
        assert(crate::ast::term::spec_term_tail(t) == ((0nat, ps)));
        assert(spec_render_term_tail(ps).len() == 0);
    } else {
        let p = ps[0];
        let rest = ps.drop_first();
        let pr = spec_render_factor_with_operator(p);
        let rr = spec_render_term_tail(rest);
        let s = spec_render_term_tail(ps) + t;
        assert(s =~= pr + (rr + t));
        assert(s[0] == mul_op_char(p.operator));
        assert(s.skip(1) =~= spec_render_factor(p.factor) + (rr + t));
        if rest.len() > 0 {
            assert(rr == spec_render_factor_with_operator(rest[0]) + spec_render_term_tail(
                rest.drop_first(),
            ));
            assert(rr[0] == mul_op_char(rest[0].operator));
            assert((rr + t)[0] == mul_op_char(rest[0].operator));
        }
        lemma_rt_factor(p.factor, rr + t);
        lemma_render_factor_len(p.factor);
        assert(crate::ast::term::spec_factor_with_operator(s) == Some::<(
            nat,
            FactorWithOperatorV,
        )>((pr.len() as nat, p)));
        assert(crate::num::rest_after(s, pr.len() as nat) =~= rr + t);
        lemma_rt_term_tail(rest, t);
        assert(seq![p] + rest =~= ps);
        assert(spec_render_term_tail(ps) == pr + rr);
        assert((pr + rr).len() == pr.len() + rr.len());
        assert(spec_render_term_tail(ps).len() == pr.len() + rr.len());
        assert(crate::ast::term::spec_term_tail(s) == (((pr.len() + rr.len()) as nat, ps)));
    }
}

/// A rendered term, followed by text that cannot extend a term, reads back
/// as exactly that term.
proof fn lemma_rt_term(tm: TermV, t: Seq<char>)
    requires
        stops_term(t),
    ensures
        spec_term(spec_render_term(tm) + t) == Some::<(nat, TermV)>(
            (spec_render_term(tm).len() as nat, tm),
        ),
    decreases tm, 3int,
{
    let hr = spec_render_factor(tm.head);
    let tr = spec_render_term_tail(tm.tail);
    let s = spec_render_term(tm) + t;
    assert(s =~= hr + (tr + t));
    if tm.tail.len() > 0 {
        assert(tr == spec_render_factor_with_operator(tm.tail[0]) + spec_render_term_tail(
            tm.tail.drop_first(),
        ));
        assert((tr + t)[0] == mul_op_char(tm.tail[0].operator));
    }
    lemma_rt_factor(tm.head, tr + t);
    lemma_render_factor_len(tm.head);
    assert(crate::num::rest_after(s, hr.len() as nat) =~= tr + t);
    lemma_rt_term_tail(tm.tail, t);
    assert(tm == (TermV { head: tm.head, tail: tm.tail }));
}

/// A rendered additive tail, followed by text that cannot extend an
/// expression, reads back as exactly that tail.
#[verifier::rlimit(100)]
proof fn lemma_rt_expr_tail(ps: Seq<TermWithOperatorV>, t: Seq<char>)
    requires
        stops_expr(t),
    ensures
        crate::ast::expr::spec_expr_tail(spec_render_expr_tail(ps) + t) == ((
            spec_render_expr_tail(ps).len() as nat,
            ps,
        )),
    decreases ps, 5int,
{
    if ps.len() == 0 {
        assert(spec_render_expr_tail(ps) + t =~= t);
        assert(ps =~= Seq::<TermWithOperatorV>::empty());
        assert(crate::ast::expr::spec_operator(t) is None);
        assert(crate::ast::expr::spec_term_with_operator(t) is None);
        assert(crate::ast::expr::spec_expr_tail(t) == ((0nat, ps)));
        assert(spec_render_expr_tail(ps).len() == 0);
    } else {
        let p = ps[0];
        let rest = ps.drop_first();
        let pr = spec_render_term_with_operator(p);
        let rr = spec_render_expr_tail(rest);
        let s = spec_render_expr_tail(ps) + t;
        assert(s =~= pr + (rr + t));
        assert(s[0] == add_op_char(p.operator));
        assert(s.skip(1) =~= spec_render_term(p.term) + (rr + t));
        if rest.len() > 0 {
            assert(rr == spec_render_term_with_operator(rest[0]) + spec_render_expr_tail(
                rest.drop_first(),
            ));
            assert(rr[0] == add_op_char(rest[0].operator));
            assert((rr + t)[0] == add_op_char(rest[0].operator));
        }
        lemma_rt_term(p.term, rr + t);
        lemma_render_term_len(p.term);
        assert(crate::ast::expr::spec_term_with_operator(s) == Some::<(nat, TermWithOperatorV)>(
            (pr.len() as nat, p),
        ));
        assert(crate::num::rest_after(s, pr.len() as nat) =~= rr + t);
        lemma_rt_expr_tail(rest, t);
        assert(seq![p] + rest =~= ps);
        assert(spec_render_expr_tail(ps) == pr + rr);
        assert((pr + rr).len() == pr.len() + rr.len());
        assert(spec_render_expr_tail(ps).len() == pr.len() + rr.len());
        assert(crate::ast::expr::spec_expr_tail(s) == (((pr.len() + rr.len()) as nat, ps)));
    }
}

/// A rendered term is at least one character long.
proof fn lemma_render_term_len(tm: TermV)
    ensures
        spec_render_term(tm).len() >= 1,
{
    lemma_render_factor_len(tm.head);
}

/// A rendered expression, followed by text that cannot extend an
/// expression, reads back as exactly that expression.
proof fn lemma_rt_expr(e: ExprV, t: Seq<char>)
    requires
        stops_expr(t),
    ensures
        spec_expr(spec_render_expr(e) + t) == Some::<(nat, ExprV)>(
            (spec_render_expr(e).len() as nat, e),
        ),
    decreases e, 6int,
{
    let hr = spec_render_term(e.head);
    let tr = spec_render_expr_tail(e.tail);
    let s = spec_render_expr(e) + t;
    assert(s =~= hr + (tr + t));
    if e.tail.len() > 0 {
        assert(tr == spec_render_term_with_operator(e.tail[0]) + spec_render_expr_tail(
            e.tail.drop_first(),
        ));
        assert((tr + t)[0] == add_op_char(e.tail[0].operator));
    }
    lemma_rt_term(e.head, tr + t);
    lemma_render_term_len(e.head);
    assert(crate::num::rest_after(s, hr.len() as nat) =~= tr + t);
    lemma_rt_expr_tail(e.tail, t);
    assert(e == (ExprV { head: e.head, tail: e.tail }));
}

/// Round trip: parsing the canonical rendering of any tree yields exactly
/// that tree, with nothing left over.
pub proof fn lemma_parse_render(e: ExprV)
    ensures
        crate::ast::spec_parse(spec_render_expr(e)) == Ok::<ExprV, ParseError>(e),
{
    lemma_rt_expr(e, Seq::empty());
    assert(spec_render_expr(e) + Seq::<char>::empty() =~= spec_render_expr(e));
}

/// The decimal digits of `m`, most significant first.
fn digit_chars(m: u64) -> (ds: Vec<char>)
    ensures
        ds@ == digits_of(m as nat),
    decreases m,
{
    let low = (48 + (m % 10) as u8) as char;
    proof {
        assert(low == digit_char((m % 10) as nat));
    }
    if m < 10 {
        let mut v: Vec<char> = Vec::new();
        v.push(low);
        proof {
            assert(v@ =~= digits_of(m as nat));
        }
        v
    } else {
        let mut v = digit_chars(m / 10);
        v.push(low);
        v
    }
}

/// The canonical text of a literal value.
fn render_int(v: i64) -> (r: String)
    ensures
        r@ == spec_render_int(v),
{
    let mut out = String::new();
    if v < 0 {
        crate::push_char(&mut out, '-');
        let m = (-(v as i128)) as u64;
        let ds = digit_chars(m);
        push_chars(&mut out, &ds);
        proof {
            assert(out@ =~= spec_render_int(v));
        }
    } else {
        let ds = digit_chars(v as u64);
        push_chars(&mut out, &ds);
        proof {
            assert(out@ =~= spec_render_int(v));
        }
    }
    out
}

/// Appends every character of `cs` to `out`, in order.
fn push_chars(out: &mut String, cs: &Vec<char>)
    ensures
        final(out)@ == old(out)@ + cs@,
{
    let mut i: usize = 0;
    while i < cs.len()
        invariant
            i <= cs.len(),
            out@ == old(out)@ + cs@.take(i as int),
        decreases cs.len() - i,
    {
        crate::push_char(out, cs[i]);
        proof {
            assert(cs@.take(i + 1).drop_last() =~= cs@.take(i as int));
            assert((old(out)@ + cs@.take(i as int)).push(cs@[i as int]) =~= old(out)@ + cs@.take(
                i + 1,
            ));
        }
        i += 1;
    }
    proof {
        assert(cs@.take(cs.len() as int) =~= cs@);
    }
}

impl crate::ast::Factor {
    /// The canonical text of this factor.
    pub fn render(&self) -> (r: String)
        ensures
            r@ == spec_render_factor(self@),
        decreases *self,
    {
        match self {
            crate::ast::Factor::Constant(c) => render_int(c.value),
            crate::ast::Factor::ExprInParen(e) => {
                let mut out = String::new();
                crate::push_char(&mut out, '(');
                let inner = e.render();
                out.append(inner.as_str());
                crate::push_char(&mut out, ')');
                proof {
                    assert(out@ =~= spec_render_factor(self@));
                }
                out
            },
        }
    }
}

impl crate::ast::Term {
    /// The canonical text of this term.
    pub fn render(&self) -> (r: String)
        ensures
            r@ == spec_render_term(self@),
        decreases *self,
    {
        match self {
            crate::ast::Term::Factors { head, tail } => {
                let ghost fsv = crate::ast::term::view_term_tail(tail@);
                proof {
                    crate::ast::term::lemma_view_term_tail(tail@);
                }
                let mut out = head.render();
                proof {
                    assert(fsv.skip(0) =~= fsv);
                }
                let mut i: usize = 0;
                while i < tail.len()
                    invariant
                        i <= tail.len(),
                        fsv == crate::ast::term::view_term_tail(tail@),
                        fsv.len() == tail.len(),
                        forall|q: int|
                            0 <= q < tail.len() ==> fsv[q]
                                == crate::ast::term::view_factor_with_operator(
                                #[trigger] tail@[q],
                            ),
                        *self == (crate::ast::Term::Factors { head: *head, tail: *tail }),
                        out@ + spec_render_term_tail(fsv.skip(i as int)) == spec_render_term(
                            self@,
                        ),
                    decreases tail.len() - i,
                {
                    proof {
                        assert(decreases_to!(*self => tail@[i as int]));
                        assert(fsv.skip(i as int)[0] == fsv[i as int]);
                        assert(fsv.skip(i as int).drop_first() =~= fsv.skip(i + 1));
                    }
                    let ghost out0 = out@;
                    let op = match tail[i].operator {
                        crate::ast::term::Operator::Multiply => '*',
                        crate::ast::term::Operator::Divide => '/',
                    };
                    crate::push_char(&mut out, op);
                    let fr = tail[i].factor.render();
                    out.append(fr.as_str());
                    proof {
                        let pv = fsv[i as int];
                        assert(out@ =~= out0 + spec_render_factor_with_operator(pv));
                        assert(spec_render_term_tail(fsv.skip(i as int))
                            == spec_render_factor_with_operator(pv) + spec_render_term_tail(
                            fsv.skip(i + 1),
                        ));
                        assert((out0 + spec_render_factor_with_operator(pv))
                            + spec_render_term_tail(fsv.skip(i + 1)) =~= out0 + (
                        spec_render_factor_with_operator(pv) + spec_render_term_tail(
                            fsv.skip(i + 1),
                        )));
                    }
                    i += 1;
                }
                proof {
                    assert(fsv.skip(tail.len() as int) =~= Seq::<FactorWithOperatorV>::empty());
                    assert(out@ + Seq::<char>::empty() =~= out@);
                }
                out
            },
        }
    }
}

impl crate::ast::Expr {
    /// The canonical text of this expression: every node spelled without
    /// whitespace, ready to be parsed back.
    pub fn render(&self) -> (r: String)
        ensures
            r@ == spec_render_expr(self@),
        decreases *self,
    {
        match self {
            crate::ast::Expr::Terms { head, tail } => {
                let ghost tsv = crate::ast::expr::view_expr_tail(tail@);
                proof {
                    crate::ast::expr::lemma_view_expr_tail(tail@);
                }
                let mut out = head.render();
                proof {
                    assert(tsv.skip(0) =~= tsv);
                }
                let mut i: usize = 0;
                while i < tail.len()
                    invariant
                        i <= tail.len(),
                        tsv == crate::ast::expr::view_expr_tail(tail@),
                        tsv.len() == tail.len(),
                        forall|q: int|
                            0 <= q < tail.len() ==> tsv[q]
                                == crate::ast::expr::view_term_with_operator(
                                #[trigger] tail@[q],
                            ),
                        *self == (crate::ast::Expr::Terms { head: *head, tail: *tail }),
                        out@ + spec_render_expr_tail(tsv.skip(i as int)) == spec_render_expr(
                            self@,
                        ),
                    decreases tail.len() - i,
                {
                    proof {
                        assert(decreases_to!(*self => tail@[i as int]));
                        assert(tsv.skip(i as int)[0] == tsv[i as int]);
                        assert(tsv.skip(i as int).drop_first() =~= tsv.skip(i + 1));
                    }
                    let ghost out0 = out@;
                    let op = match tail[i].operator {
                        crate::ast::expr::Operator::Plus => '+',
                        crate::ast::expr::Operator::Minus => '-',
                    };
                    crate::push_char(&mut out, op);
                    let tr = tail[i].term.render();
                    out.append(tr.as_str());
                    proof {
                        let pv = tsv[i as int];
                        assert(out@ =~= out0 + spec_render_term_with_operator(pv));
                        assert(spec_render_expr_tail(tsv.skip(i as int))
                            == spec_render_term_with_operator(pv) + spec_render_expr_tail(
                            tsv.skip(i + 1),
                        ));
                        assert((out0 + spec_render_term_with_operator(pv))
                            + spec_render_expr_tail(tsv.skip(i + 1)) =~= out0 + (
                        spec_render_term_with_operator(pv) + spec_render_expr_tail(
                            tsv.skip(i + 1),
                        )));
                    }
                    i += 1;
                }
                proof {
                    assert(tsv.skip(tail.len() as int) =~= Seq::<TermWithOperatorV>::empty());
                    assert(out@ + Seq::<char>::empty() =~= out@);
                }
                out
            },
        }
    }
}

} // verus!
