use rxpr::ast::Calculatable;
use rxpr::ast::expr::Expr;
use rxpr::ast::expr::Operator;
use rxpr::ast::expr::TermWithOperator;
use rxpr::ast::expr::expr;
use rxpr::ast::expr::operator;
use rxpr::ast::expr::term_with_operator;
use rxpr::ast::term::term;

#[test]
fn expr_operator_ok() {
    assert_eq!(operator("+"), Ok(("", Operator::Plus)));
    assert_eq!(operator("-"), Ok(("", Operator::Minus)));
}

#[test]
fn expr_operator_err() {
    assert!(operator("a").is_err());
}

#[test]
fn term_with_operator_ok() {
    assert_eq!(
        term_with_operator("+ 123"),
        Ok((
            "",
            TermWithOperator {
                operator: Operator::Plus,
                term: term("123").unwrap().1,
            }
        ))
    );
}

#[test]
fn term_with_operator_err() {
    assert!(term_with_operator("123").is_err());
    assert!(term_with_operator("+ ").is_err());
}

#[test]
fn expr_ok() {
    assert_eq!(
        expr("1"),
        Ok((
            "",
            Expr::Terms {
                head: term("1").unwrap().1,
                tail: vec![]
            }
        ))
    );
    assert_eq!(
        expr("1 + 2 - 3"),
        Ok((
            "",
            Expr::Terms {
                head: term("1").unwrap().1,
                tail: vec![
                    TermWithOperator {
                        operator: Operator::Plus,
                        term: term("2").unwrap().1,
                    },
                    TermWithOperator {
                        operator: Operator::Minus,
                        term: term("3").unwrap().1,
                    }
                ]
            }
        ))
    );
}

#[test]
fn expr_err() {
    assert!(expr("+").is_err());
}

#[test]
fn integration() {
    assert_eq!(expr("(1 + 2) * 3").unwrap().1.calc(), Ok(9));
}
