use rxpr::ast::expr::expr;
use rxpr::ast::factor::Factor;
use rxpr::ast::factor::factor;
use rxpr::ast::constant::constant;

#[test]
fn factor_ok() {
    assert_eq!(
        factor("123"),
        Ok(("", Factor::Constant(constant("123").unwrap().1)))
    );
    assert_eq!(
        factor(" (123 + 456) "),
        Ok((
            "",
            Factor::ExprInParen(Box::new(expr("123 + 456").unwrap().1))
        ))
    );
}

#[test]
fn factor_err() {
    assert!(factor("abc").is_err());
    assert!(factor("(1 + 2").is_err());
}
