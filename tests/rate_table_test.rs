use currency_client::decimal::{parse_decimal, Decimal};
use currency_client::error::RequestError;
use currency_client::rates::RateTable;

fn dec(text: &str) -> Decimal {
    parse_decimal(text).unwrap()
}

fn row(pairs: &[(&str, &str)]) -> Vec<(String, Decimal)> {
    pairs.iter().map(|(c, r)| (c.to_string(), dec(r))).collect()
}

fn sample_table() -> RateTable {
    RateTable::new(vec![
        (
            "USD".to_string(),
            row(&[("USD", "1.0"), ("PLN", "3.96"), ("AUD", "1.52"), ("EUR", "0.92")]),
        ),
        (
            "PLN".to_string(),
            row(&[("PLN", "1.0"), ("USD", "0.25"), ("AUD", "0.38"), ("EUR", "0.23")]),
        ),
    ])
}

#[test]
fn test_exchange_currency_request() {
    let table = sample_table();
    let value = table.convert(dec("121.6"), "USD", "AUD").unwrap();
    assert_eq!(value, Decimal { digits: 18483, scale: 2 });
    assert_eq!(value.to_text(), "184.83");
}

#[test]
fn convert_ignores_case_of_codes() {
    let table = RateTable::new(vec![("USD".to_string(), row(&[("AUD", "1.52")]))]);
    let value = table.convert(dec("121.6"), "usd", "aud").unwrap();
    assert_eq!(value.to_text(), "184.83");
}

#[test]
fn convert_rounds_half_up() {
    let table = RateTable::new(vec![("USD".to_string(), row(&[("EUR", "0.5")]))]);
    assert_eq!(table.convert(dec("0.01"), "USD", "EUR").unwrap().to_text(), "0.01");
    assert_eq!(table.convert(dec("0.03"), "USD", "EUR").unwrap().to_text(), "0.02");
    assert_eq!(table.convert(dec("3"), "USD", "EUR").unwrap().to_text(), "1.50");
}

#[test]
fn convert_same_currency_keeps_amount() {
    let table = sample_table();
    assert_eq!(table.convert(dec("123.6"), "PLN", "PLN").unwrap().to_text(), "123.60");
}

#[test]
fn test_exchange_currency_request_non_existant_currency_to_returns_err() {
    let table = sample_table();
    assert_eq!(table.convert(dec("123.6"), "USD", "xd"), Err(RequestError::UnknownCurrency));
}

#[test]
fn test_exchange_currency_request_non_existant_currency_from_returns_err() {
    let table = sample_table();
    assert_eq!(table.convert(dec("123.6"), "xd", "AUD"), Err(RequestError::UnknownCurrency));
}

#[test]
fn convert_reports_overflow() {
    let table = RateTable::new(vec![("USD".to_string(), row(&[("EUR", "18446744073709551615")]))]);
    assert_eq!(table.convert(dec("2"), "USD", "EUR"), Err(RequestError::Overflow));
}

#[test]
fn test_ratios_list_request_succesful() {
    let table = sample_table();
    let usd = table.ratios("USD").unwrap();
    assert_eq!(usd.len(), 4);
    assert_eq!(usd[0], ("USD".to_string(), dec("1.0")));
    assert_eq!(usd[1], ("PLN".to_string(), dec("3.96")));
    assert_eq!(usd[2], ("AUD".to_string(), dec("1.52")));
    assert_eq!(usd[3], ("EUR".to_string(), dec("0.92")));

    let pln = table.ratios("pln").unwrap();
    assert_eq!(pln.len(), 4);
    assert_eq!(pln[0], ("PLN".to_string(), dec("1.0")));
    assert_eq!(pln[1], ("USD".to_string(), dec("0.25")));
    assert_eq!(pln[2], ("AUD".to_string(), dec("0.38")));
    assert_eq!(pln[3], ("EUR".to_string(), dec("0.23")));
}

#[test]
fn test_ratios_list_request_non_existant_currency_base_returns_err() {
    let table = sample_table();
    assert_eq!(table.ratios("XD"), Err(RequestError::InvalidBase));
    assert_eq!(table.ratios("xd"), Err(RequestError::InvalidBase));
}

#[test]
fn ratios_of_empty_table_is_invalid_base() {
    let table = RateTable::new(Vec::new());
    assert_eq!(table.ratios("USD"), Err(RequestError::InvalidBase));
}
