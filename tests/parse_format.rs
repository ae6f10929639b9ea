use fraction_literal::grammar::parse_fraction;
use fraction_literal::value::{Fraction, ParseError, Sign};

fn pos(n: u64, d: u64) -> Fraction {
    Fraction::new(Sign::Plus, n, d).unwrap()
}

fn neg(n: u64, d: u64) -> Fraction {
    Fraction::new(Sign::Minus, n, d).unwrap()
}

fn parse(text: &str) -> Result<Fraction, ParseError> {
    Fraction::input(text)
}

#[test]
fn test_parse_fraction() {
    for (text, expected) in [
        ("1", pos(1, 1)),
        ("-1", neg(1, 1)),
        ("- 1", neg(1, 1)),
        ("1/1", pos(1, 1)),
        ("1 /1", pos(1, 1)),
        ("1/ 1", pos(1, 1)),
        ("1 / 1", pos(1, 1)),
        ("-1/1", neg(1, 1)),
        ("-1 /1", neg(1, 1)),
        ("-1/ 1", neg(1, 1)),
        ("-1 / 1", neg(1, 1)),
        ("- 1/1", neg(1, 1)),
        ("- 1 /1", neg(1, 1)),
        ("- 1/ 1", neg(1, 1)),
        ("- 1 / 1", neg(1, 1)),
        ("1/2", pos(1, 2)),
        ("2/1", pos(2, 1)),
    ] {
        let result = parse_fraction(text).unwrap();
        assert_eq!(result.0, expected, "{}", text);
        assert_eq!(result.1, "", "{}", text);
    }
}

#[test]
fn round_trip_through_text() {
    for (sign, n, d) in [
        (Sign::Plus, 1u64, 2u64),
        (Sign::Minus, 6, 4),
        (Sign::Plus, 0, 7),
        (Sign::Minus, 0, 3),
        (Sign::Plus, 10, 5),
        (Sign::Minus, u64::MAX, 1),
        (Sign::Plus, u64::MAX - 1, u64::MAX),
        (Sign::Plus, 100, 30),
    ] {
        let f = Fraction::new(sign, n, d).unwrap();
        assert_eq!(parse(&f.output()), Ok(f));
    }
}

#[test]
fn whitespace_around_slash() {
    let expected = parse("1/2").unwrap();
    for text in ["1 /2", "1/ 2", "1 / 2", "1   /   2"] {
        assert_eq!(parse(text), Ok(expected), "{}", text);
    }
    assert_eq!(expected, pos(1, 2));
}

#[test]
fn sign_placement() {
    let expected = parse("-1/2").unwrap();
    for text in ["- 1/2", "- 1 /2", "- 1 / 2"] {
        assert_eq!(parse(text), Ok(expected), "{}", text);
    }
    assert_eq!(expected.sign(), Sign::Minus);
    assert_eq!(expected.numer(), 1);
    assert_eq!(expected.denom(), 2);
}

#[test]
fn bare_integer_has_denominator_one() {
    assert_eq!(parse("7"), parse("7/1"));
    assert_eq!(parse("7").unwrap().denom(), 1);
    assert_eq!(parse("7").unwrap().numer(), 7);
}

#[test]
fn rejects_zero_denominator() {
    assert_eq!(parse("1/0"), Err(ParseError::ZeroDenominator));
    assert_eq!(parse("0/0"), Err(ParseError::ZeroDenominator));
    assert_eq!(parse("-3 / 000"), Err(ParseError::ZeroDenominator));
    assert_eq!(Fraction::new(Sign::Plus, 1, 0), Err(ParseError::ZeroDenominator));
}

#[test]
fn rejects_malformed_text() {
    for text in ["", "abc", "1/", "/1", "-", "- ", "1.5", "1 1/2", "1/2x", " 1", "1 ", "--1", "+1", "1//2", "1/-2"] {
        assert_eq!(parse(text), Err(ParseError::Syntax), "{:?}", text);
    }
}

#[test]
fn rejects_wide_digit_runs() {
    assert_eq!(parse("18446744073709551616"), Err(ParseError::NumericRange));
    assert_eq!(parse("-99999999999999999999999"), Err(ParseError::NumericRange));
    assert_eq!(parse("1/18446744073709551616"), Err(ParseError::NumericRange));
    assert_eq!(parse("18446744073709551616/0"), Err(ParseError::NumericRange));
    assert_eq!(parse("18446744073709551615").unwrap().numer(), u64::MAX);
}

#[test]
fn reduces_to_lowest_terms() {
    assert_eq!(parse("2/4"), parse("1/2"));
    let f = parse("12/18").unwrap();
    assert_eq!((f.numer(), f.denom()), (2, 3));
    let g = Fraction::new(Sign::Minus, 2, 4).unwrap();
    assert_eq!((g.sign(), g.numer(), g.denom()), (Sign::Minus, 1, 2));
}

#[test]
fn concrete_scenarios() {
    assert_eq!(parse("-1"), parse("-1/1"));
    assert_eq!(parse("1 / 1"), parse("1"));
    assert_eq!(parse("2/1").unwrap().output(), "2");
}

#[test]
fn canonical_text() {
    assert_eq!(pos(3, 4).output(), "3/4");
    assert_eq!(neg(3, 4).output(), "-3/4");
    assert_eq!(neg(8, 2).output(), "-4");
    assert_eq!(pos(0, 9).output(), "0");
    assert_eq!(neg(0, 9).output(), "0");
    assert_eq!(pos(1234567890, 1).output(), "1234567890");
    assert_eq!(pos(u64::MAX, 7).output(), "18446744073709551615/7");
}

#[test]
fn zero_has_one_form() {
    assert_eq!(parse("-0"), parse("0"));
    assert_eq!(parse("- 0/5"), parse("0"));
    assert_eq!(parse("-0").unwrap().sign(), Sign::Plus);
    assert_eq!(parse("0/5").unwrap().denom(), 1);
}

#[test]
fn prefix_parse_leaves_rest() {
    let (f, rest) = parse_fraction("1/2abc").unwrap();
    assert_eq!(f, pos(1, 2));
    assert_eq!(rest, "abc");
    let (f, rest) = parse_fraction("3 /").unwrap();
    assert_eq!(f, pos(3, 1));
    assert_eq!(rest, " /");
    let (f, rest) = parse_fraction("-4/ 6 é").unwrap();
    assert_eq!(f, neg(2, 3));
    assert_eq!(rest, " é");
    assert_eq!(parse_fraction("x1"), Err(ParseError::Syntax));
    assert_eq!(parse_fraction("1/0 rest"), Err(ParseError::ZeroDenominator));
}

#[test]
fn spacing_keeps_errors_and_values() {
    assert_eq!(parse("3   /   0"), parse("3/0"));
    assert_eq!(parse("3   /   0"), Err(ParseError::ZeroDenominator));
    assert_eq!(parse("-   99999999999999999999 / 2"), parse("-99999999999999999999/2"));
    assert_eq!(parse("-99999999999999999999/2"), Err(ParseError::NumericRange));
    assert_eq!(parse("-  12  /  18"), Ok(neg(2, 3)));
    assert_eq!(parse("-  5"), parse("-5/1"));
    assert_eq!(parse("40/60"), parse("2/3"));
}
