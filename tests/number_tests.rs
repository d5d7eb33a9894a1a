use yolo_io::number::{parse_isize, ONE};
use yolo_io::Decimal;

#[test]
fn decimals_are_exact() {
    assert_eq!(Decimal::parse("0.5"), Some(Decimal { units: ONE / 2 }));
    assert_eq!(Decimal::parse("0.50"), Decimal::parse(".5"));
    assert_eq!(Decimal::parse("1."), Some(Decimal { units: ONE }));
    assert_eq!(Decimal::parse("+1"), Some(Decimal { units: ONE }));
    assert_eq!(Decimal::parse("-0.0001"), Some(Decimal { units: -100_000_000_000_000 }));
    assert_eq!(Decimal::parse("0.000000000000000001"), Some(Decimal { units: 1 }));
}

#[test]
fn malformed_decimals_are_refused() {
    for t in ["", ".", "-", "a", "1.2.3", "1e", "e5", ".e1", "1e+", "0.5x", " 1", "1e-3.0"] {
        assert_eq!(Decimal::parse(t), None, "{}", t);
    }
}

#[test]
fn exponent_notation_is_read() {
    assert_eq!(Decimal::parse("1e-1"), Decimal::parse("0.1"));
    assert_eq!(Decimal::parse("1E-05"), Decimal::parse("0.00001"));
    assert_eq!(Decimal::parse("2.5e+1"), Some(Decimal { units: 25 * ONE }));
    assert_eq!(Decimal::parse("-.5e1"), Some(Decimal { units: -5 * ONE }));
    assert_eq!(Decimal::parse("5e-19"), Some(Decimal { units: 1 }));
    assert_eq!(Decimal::parse("4e-19"), Some(Decimal { units: 0 }));
    assert_eq!(Decimal::parse("1e999999999999999999999999999999999999"), Decimal::parse("1e20"));
    assert_eq!(Decimal::parse("0e999999999999999999999999999999999999"), Some(Decimal { units: 0 }));
    assert_eq!(Decimal::parse("1e-999999999999999999999999999999999999"), Some(Decimal { units: 0 }));
}

#[test]
fn long_fractions_are_rounded() {
    assert_eq!(Decimal::parse("0.0000000000000000001"), Some(Decimal { units: 0 }));
    assert_eq!(Decimal::parse("0.0000000000000000005"), Some(Decimal { units: 1 }));
    assert_eq!(Decimal::parse("0.12345678901234567894999"), Some(Decimal { units: 123_456_789_012_345_679 }));
    assert_eq!(
        Decimal::parse("00000000000000000000000000001.5000000000000000000000"),
        Decimal::parse("1.5")
    );
}

#[test]
fn decimals_are_written_out() {
    assert_eq!(Decimal::parse("1.5").unwrap().to_text(), "1.5");
    assert_eq!(Decimal::parse("1.000").unwrap().to_text(), "1");
    assert_eq!(Decimal::parse("-0.0001").unwrap().to_text(), "-0.0001");
    assert_eq!(Decimal { units: i128::MIN }.to_text().chars().next(), Some('-'));
}

#[test]
fn integers_follow_the_standard_grammar() {
    assert_eq!(parse_isize("0"), Some(0));
    assert_eq!(parse_isize("-12"), Some(-12));
    assert_eq!(parse_isize("+7"), Some(7));
    assert_eq!(parse_isize("007"), Some(7));
    assert_eq!(parse_isize("a"), None);
    assert_eq!(parse_isize("-"), None);
    assert_eq!(parse_isize(""), None);
    assert_eq!(parse_isize("1.0"), None);
    assert_eq!(parse_isize(&isize::MAX.to_string()), Some(isize::MAX));
    assert_eq!(parse_isize(&isize::MIN.to_string()), Some(isize::MIN));
    assert_eq!(parse_isize("99999999999999999999999"), None);
}
