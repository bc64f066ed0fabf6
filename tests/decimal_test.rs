use currency_client::decimal::{multiply_rounded, parse_decimal, Decimal};

#[test]
fn parses_plain_decimals() {
    assert_eq!(parse_decimal("184.83"), Some(Decimal { digits: 18483, scale: 2 }));
    assert_eq!(parse_decimal("7"), Some(Decimal { digits: 7, scale: 0 }));
    assert_eq!(parse_decimal("0.05"), Some(Decimal { digits: 5, scale: 2 }));
    assert_eq!(parse_decimal("18446744073709551615"), Some(Decimal { digits: u64::MAX, scale: 0 }));
}

#[test]
fn rejects_other_text() {
    assert_eq!(parse_decimal(""), None);
    assert_eq!(parse_decimal(".5"), None);
    assert_eq!(parse_decimal("5."), None);
    assert_eq!(parse_decimal("1.2.3"), None);
    assert_eq!(parse_decimal("-1"), None);
    assert_eq!(parse_decimal("1e5"), None);
    assert_eq!(parse_decimal("abc"), None);
    assert_eq!(parse_decimal("18446744073709551616"), None);
    assert_eq!(parse_decimal("0.1234567890123456789"), None);
}

#[test]
fn writes_decimals() {
    assert_eq!(Decimal { digits: 1216, scale: 1 }.to_text(), "121.6");
    assert_eq!(Decimal { digits: 5, scale: 2 }.to_text(), "0.05");
    assert_eq!(Decimal { digits: 42, scale: 0 }.to_text(), "42");
    assert_eq!(Decimal { digits: 0, scale: 3 }.to_text(), "0.000");
}

#[test]
fn multiplies_and_rounds() {
    let a = Decimal { digits: 1216, scale: 1 };
    let b = Decimal { digits: 152, scale: 2 };
    assert_eq!(multiply_rounded(a, b), Some(Decimal { digits: 18483, scale: 2 }));
    let whole = Decimal { digits: 3, scale: 0 };
    assert_eq!(multiply_rounded(whole, whole), Some(Decimal { digits: 900, scale: 2 }));
    let half_cent = Decimal { digits: 5, scale: 3 };
    let one = Decimal { digits: 1, scale: 0 };
    assert_eq!(multiply_rounded(half_cent, one), Some(Decimal { digits: 1, scale: 2 }));
    let big = Decimal { digits: u64::MAX, scale: 0 };
    assert_eq!(multiply_rounded(big, one), None);
}
