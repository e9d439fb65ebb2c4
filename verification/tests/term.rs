use rxpr::ast::factor::factor;
use rxpr::ast::term::FactorWithOperator;
use rxpr::ast::term::Operator;
use rxpr::ast::term::Term;
use rxpr::ast::term::factor_with_operator;
use rxpr::ast::term::operator;
use rxpr::ast::term::term;

#[test]
fn term_operator_ok() {
    assert_eq!(operator("*"), Ok(("", Operator::Multiply)));
    assert_eq!(operator("/"), Ok(("", Operator::Divide)));
}

#[test]
fn term_operator_err() {
    assert!(operator("a").is_err());
}

#[test]
fn factor_with_operator_ok() {
    assert_eq!(
        factor_with_operator("* 123"),
        Ok((
            "",
            FactorWithOperator {
                operator: Operator::Multiply,
                factor: factor("123").unwrap().1,
            }
        ))
    );
}

#[test]
fn term_ok() {
    assert_eq!(
        term("123"),
        Ok((
            "",
            Term::Factors {
                head: factor("123").unwrap().1,
                tail: vec![]
            }
        )),
    );
}

#[test]
fn term_err() {
    assert!(term("abc").is_err());
}
