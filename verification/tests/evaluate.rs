use rxpr::ParseError;
use rxpr::ast::evaluate;
use rxpr::ast::parse;

#[test]
fn literal_values() {
    assert_eq!(evaluate("123"), Ok(123));
    assert_eq!(evaluate("-123"), Ok(-123));
    assert_eq!(evaluate(" 0 "), Ok(0));
    assert_eq!(evaluate("9223372036854775807"), Ok(i64::MAX));
    assert_eq!(evaluate("-9223372036854775808"), Ok(i64::MIN));
    assert_eq!(evaluate("9223372036854775808"), Err(ParseError::NoMatch));
}

#[test]
fn precedence_and_associativity() {
    assert_eq!(evaluate("(1 + 2) * 3"), Ok(9));
    assert_eq!(evaluate("1 + 2 * 3"), Ok(7));
    assert_eq!(evaluate("10 - 3 - 2"), Ok(5));
    assert_eq!(evaluate("10 / 2 / 5"), Ok(1));
}

#[test]
fn sign_must_touch_digits() {
    assert_eq!(evaluate("- 123"), Err(ParseError::NoMatch));
}

#[test]
fn trailing_input_is_rejected() {
    assert_eq!(evaluate("1 + 2 )"), Err(ParseError::TrailingInput));
}

#[test]
fn nonsense_is_no_match() {
    assert_eq!(evaluate("abc"), Err(ParseError::NoMatch));
    assert_eq!(evaluate(""), Err(ParseError::NoMatch));
    assert_eq!(evaluate("   "), Err(ParseError::NoMatch));
}

#[test]
fn division_by_zero_is_reported() {
    assert_eq!(evaluate("5 / 0"), Err(ParseError::DivisionByZero));
    assert_eq!(evaluate("1 + 6 / (3 - 3)"), Err(ParseError::DivisionByZero));
}

#[test]
fn division_truncates_toward_zero() {
    assert_eq!(evaluate("-7 / 2"), Ok(-3));
    assert_eq!(evaluate("7 / -2"), Ok(-3));
    assert_eq!(evaluate("-7 / -2"), Ok(3));
}

#[test]
fn fixed_width_arithmetic_wraps() {
    assert_eq!(evaluate("9223372036854775807 + 1"), Ok(i64::MIN));
    assert_eq!(evaluate("-9223372036854775808 / -1"), Ok(i64::MIN));
    assert_eq!(evaluate("-9223372036854775808 - 1"), Ok(i64::MAX));
}

#[test]
fn deep_nesting() {
    assert_eq!(evaluate("((((5))))"), Ok(5));
    assert_eq!(evaluate("(((1 + 2)) * ((3)))"), Ok(9));
}

#[test]
fn whitespace_is_free_around_tokens() {
    assert_eq!(evaluate("  1  +  2  "), Ok(3));
    assert_eq!(evaluate("\t4\t*\t2\t"), Ok(8));
}

#[test]
fn negative_operands_in_tails() {
    assert_eq!(evaluate("1--5"), Ok(6));
    assert_eq!(evaluate("2*-3"), Ok(-6));
    assert_eq!(evaluate("6/-2"), Ok(-3));
}

#[test]
fn render_round_trip() {
    let tree = parse(" ( 1 + 2 ) * 3 ").unwrap();
    let text = tree.render();
    assert_eq!(text, "(1+2)*3");
    assert_eq!(parse(&text).unwrap(), tree);

    let tree2 = parse("10 - -3 - 2 * (4 / 2)").unwrap();
    let text2 = tree2.render();
    assert_eq!(parse(&text2).unwrap(), tree2);
}

#[test]
fn parsing_is_repeatable() {
    let a = parse("1 + 2 * (3 - 4)").unwrap();
    let b = parse("1 + 2 * (3 - 4)").unwrap();
    assert_eq!(a, b);
}
