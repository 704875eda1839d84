use stocks::{
    after_lookup, class_name, distinct_symbols, divide_rounded, figures, first_lookup,
    holding_from_fields, ConfigError,
    hundredths_string, lookup_url, parse_decimal, parse_price, quote_from_body,
    quote_from_fields, report, row, Account, Amount, AssetClass, Holding, Next, Quote,
    QuoteTable,
};

fn amt(micros: i64) -> Amount {
    Amount { micros }
}

fn quote(price: i64, net: i64) -> Quote {
    Quote { price: amt(price), net_change: amt(net) }
}

fn holding(symbol: &str, qty: i64, cost: i64) -> Holding {
    Holding { symbol: symbol.to_string(), quantity: amt(qty), cost_basis: amt(cost) }
}

#[test]
fn price_with_dollar_parses() {
    assert_eq!(parse_price("$123.45"), Some(amt(123_450_000)));
}

#[test]
fn price_without_dollar_is_no_result() {
    assert_eq!(parse_price("123.45"), None);
}

#[test]
fn price_with_non_numeric_payload_is_no_result() {
    assert_eq!(parse_price("$abc"), None);
    assert_eq!(parse_price("$"), None);
    assert_eq!(parse_price(""), None);
    assert_eq!(parse_price("$1.2.3"), None);
}

#[test]
fn decimal_forms() {
    assert_eq!(parse_decimal("-0.25"), Some(amt(-250_000)));
    assert_eq!(parse_decimal("+1.2"), Some(amt(1_200_000)));
    assert_eq!(parse_decimal("5."), Some(amt(5_000_000)));
    assert_eq!(parse_decimal(".5"), Some(amt(500_000)));
    assert_eq!(parse_decimal("007"), Some(amt(7_000_000)));
    assert_eq!(parse_decimal("0.000001"), Some(amt(1)));
}

#[test]
fn decimal_rejects() {
    assert_eq!(parse_decimal(""), None);
    assert_eq!(parse_decimal("."), None);
    assert_eq!(parse_decimal("-"), None);
    assert_eq!(parse_decimal("1.2345678"), None);
    assert_eq!(parse_decimal("1e5"), None);
    assert_eq!(parse_decimal("1000000000"), None);
    assert_eq!(parse_decimal("999999999.999999"), Some(amt(999_999_999_999_999)));
}

#[test]
fn fields_make_a_quote() {
    assert_eq!(quote_from_fields("$6.00", "-0.35"), Some(quote(6_000_000, -350_000)));
    assert_eq!(quote_from_fields("6.00", "-0.35"), None);
    assert_eq!(quote_from_fields("$6.00", "N/A"), None);
}

#[test]
fn body_with_both_fields() {
    let body = r#"{"data":{"primaryData":{"lastSalePrice":"$123.45","netChange":"-1.2"}}}"#;
    assert_eq!(quote_from_body(body), Some(quote(123_450_000, -1_200_000)));
}

#[test]
fn body_missing_field_or_not_json() {
    assert_eq!(quote_from_body(r#"{"data":{"primaryData":{"lastSalePrice":"$1"}}}"#), None);
    assert_eq!(quote_from_body(r#"{"data":null}"#), None);
    assert_eq!(quote_from_body("not json"), None);
    assert_eq!(
        quote_from_body(r#"{"data":{"primaryData":{"lastSalePrice":1,"netChange":"1"}}}"#),
        None
    );
}

#[test]
fn stock_hit_settles() {
    assert_eq!(first_lookup(), AssetClass::Stocks);
    let q = quote(10_000_000, 1_000_000);
    assert_eq!(after_lookup(AssetClass::Stocks, Some(q)), Next::Done(q));
}

#[test]
fn stock_miss_falls_back_to_etf() {
    assert_eq!(after_lookup(AssetClass::Stocks, None), Next::Retry(AssetClass::Etf));
    let etf = quote(42_000_000, -500_000);
    assert_eq!(after_lookup(AssetClass::Etf, Some(etf)), Next::Done(etf));
}

#[test]
fn both_misses_give_zero_quote() {
    assert_eq!(after_lookup(AssetClass::Etf, None), Next::Done(quote(0, 0)));
}

#[test]
fn urls_name_symbol_and_class() {
    assert_eq!(class_name(AssetClass::Etf), "etf");
    assert_eq!(
        lookup_url("AAPL", AssetClass::Stocks),
        "https://api.nasdaq.com/api/quote/AAPL/info?assetclass=stocks"
    );
    assert_eq!(
        lookup_url("VOO", AssetClass::Etf),
        "https://api.nasdaq.com/api/quote/VOO/info?assetclass=etf"
    );
}

#[test]
fn symbols_are_distinct_and_complete() {
    let accounts = vec![
        Account {
            name: "a".to_string(),
            holdings: vec![holding("X", 1, 1), holding("Y", 1, 1), holding("X", 2, 2)],
        },
        Account { name: "b".to_string(), holdings: vec![] },
        Account { name: "c".to_string(), holdings: vec![holding("Z", 1, 1), holding("Y", 1, 1)] },
    ];
    let s = distinct_symbols(&accounts);
    assert_eq!(s, vec!["X".to_string(), "Y".to_string(), "Z".to_string()]);
    assert!(distinct_symbols(&vec![]).is_empty());
}

#[test]
fn table_has_one_entry_per_symbol() {
    let results = vec![
        ("X".to_string(), quote(1, 0)),
        ("Y".to_string(), quote(2, 0)),
        ("X".to_string(), quote(3, 0)),
    ];
    let t = QuoteTable::from_results(&results);
    assert_eq!(t.len(), 2);
    assert_eq!(t.get(&"X".to_string()), Some(quote(3, 0)));
    assert_eq!(t.get(&"Y".to_string()), Some(quote(2, 0)));
    assert_eq!(t.get(&"Q".to_string()), None);
}

#[test]
fn table_insert_replaces() {
    let mut t = QuoteTable::new();
    t.insert("A".to_string(), quote(1, 1));
    t.insert("A".to_string(), quote(2, 2));
    assert_eq!(t.len(), 1);
    assert_eq!(t.get(&"A".to_string()), Some(quote(2, 2)));
}

#[test]
fn example_holding_figures() {
    let h = holding("X", 10_000_000, 5_000_000);
    let f = figures(&h, &quote(6_000_000, 1_000_000));
    assert_eq!(f.total_gain, 1000);
    assert_eq!(f.total_percent, Some(2000));
    assert_eq!(f.intraday_gain, 1000);
    assert_eq!(f.intraday_percent, Some(2000));
}

#[test]
fn losses_are_negative() {
    let h = holding("X", 3_000_000, 10_000_000);
    let f = figures(&h, &quote(8_000_000, -2_000_000));
    assert_eq!(f.intraday_gain, -600);
    assert_eq!(f.intraday_percent, Some(-2000));
    assert_eq!(f.total_gain, -600);
    assert_eq!(f.total_percent, Some(-2000));
}

#[test]
fn zero_bases_give_no_percent() {
    let f = figures(&holding("X", 10_000_000, 0), &quote(0, 0));
    assert_eq!(f.total_percent, None);
    assert_eq!(f.intraday_percent, None);
    assert_eq!(f.total_gain, 0);
}

#[test]
fn rounding_is_half_away_from_zero() {
    assert_eq!(divide_rounded(5, 2), 3);
    assert_eq!(divide_rounded(-5, 2), -3);
    assert_eq!(divide_rounded(4, 3), 1);
    assert_eq!(divide_rounded(-7, -2), 4);
    assert_eq!(divide_rounded(7, -3), -2);
}

#[test]
fn hundredths_written_with_two_decimals() {
    assert_eq!(hundredths_string(-1234), "-12.34");
    assert_eq!(hundredths_string(5), "0.05");
    assert_eq!(hundredths_string(0), "0.00");
    assert_eq!(hundredths_string(123456), "1234.56");
}

#[test]
fn example_row_text() {
    let h = holding("X", 10_000_000, 5_000_000);
    let r = row(&h, &quote(6_000_000, 1_000_000));
    assert_eq!(
        r,
        "\tX\t$   6.00  \x1b[38;5;2m$ 10.00\x1b[0m  \x1b[38;5;2m 20.00%\x1b[0m  \x1b[38;5;2m$    10.00\x1b[0m  \x1b[38;5;2m 20.00%\x1b[0m"
    );
}

#[test]
fn report_is_deterministic() {
    let accounts = vec![Account {
        name: "Brokerage".to_string(),
        holdings: vec![holding("X", 10_000_000, 5_000_000), holding("Y", 1_000_000, 0)],
    }];
    let mut t = QuoteTable::new();
    t.insert("X".to_string(), quote(6_000_000, 1_000_000));
    t.insert("Y".to_string(), quote(2_000_000, -1_000_000));
    let a = report(&accounts, &t);
    let b = report(&accounts, &t);
    assert_eq!(a, b);
    let expected = format!(
        "Brokerage:\n\x1b[1m\tSymbol\t  Price      Net     Net %      Total   Total %\x1b[0m\n{}\n{}\n",
        row(&accounts[0].holdings[0], &quote(6_000_000, 1_000_000)),
        row(&accounts[0].holdings[1], &quote(2_000_000, -1_000_000)),
    );
    assert_eq!(a, expected);
    assert!(a.contains("  N/A%"));
    assert!(a.contains("\x1b[38;5;1m$ -1.00"));
}

#[test]
fn config_fields_make_a_holding() {
    let h = holding_from_fields("AAPL".to_string(), Some("10"), Some("150.25")).unwrap();
    assert_eq!(h.symbol, "AAPL");
    assert_eq!(h.quantity, amt(10_000_000));
    assert_eq!(h.cost_basis, amt(150_250_000));
}

#[test]
fn config_missing_fields_are_errors() {
    assert_eq!(
        holding_from_fields("A".to_string(), None, Some("1")).unwrap_err(),
        ConfigError::MissingQuantity
    );
    assert_eq!(
        holding_from_fields("A".to_string(), Some("1"), None).unwrap_err(),
        ConfigError::MissingCostBasis
    );
    assert_eq!(
        holding_from_fields("A".to_string(), None, None).unwrap_err(),
        ConfigError::MissingQuantity
    );
}

#[test]
fn config_bad_numbers_are_errors() {
    assert_eq!(
        holding_from_fields("A".to_string(), Some("\"ten\""), Some("1")).unwrap_err(),
        ConfigError::BadQuantity
    );
    assert_eq!(
        holding_from_fields("A".to_string(), Some("1"), Some("true")).unwrap_err(),
        ConfigError::BadCostBasis
    );
}
