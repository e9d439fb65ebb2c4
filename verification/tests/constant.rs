use rxpr::ast::constant::Constant;
use rxpr::ast::constant::constant;

#[test]
fn constant_ok() {
    assert_eq!(constant("123"), Ok(("", Constant::new(123))));
    assert_eq!(constant(" 123 "), Ok(("", Constant::new(123))));
    assert_eq!(constant("-123"), Ok(("", Constant::new(-123))));
}

#[test]
fn constant_err() {
    assert!(constant("abc").is_err());
    assert!(constant("- 123").is_err());
}

#[test]
fn constant_leaves_rest() {
    assert_eq!(constant("7 + 8"), Ok(("+ 8", Constant::new(7))));
}

#[test]
fn constant_extremes() {
    assert_eq!(
        constant("9223372036854775807"),
        Ok(("", Constant::new(i64::MAX)))
    );
    assert_eq!(
        constant("-9223372036854775808"),
        Ok(("", Constant::new(i64::MIN)))
    );
    assert!(constant("9223372036854775808").is_err());
    assert!(constant("-9223372036854775809").is_err());
    assert!(constant("99999999999999999999999999999999").is_err());
}
