use argent::{Amount, Currency};

fn currency(symbol: &str, ratio: i32, decimal_mark: char, group_mark: char) -> Currency {
    Currency {
        iso_code: None,
        iso_numeric: None,
        name: None,
        symbol: symbol.to_string(),
        minor_ratio: ratio,
        symbol_first: true,
        decimal_mark,
        group_mark,
    }
}

#[test]
fn simple_currency_has_defaults() {
    let c = Currency::simple("$");
    assert_eq!(c.symbol, "$");
    assert_eq!(c.iso_code, None);
    assert_eq!(c.iso_numeric, None);
    assert_eq!(c.name, None);
    assert_eq!(c.minor_ratio, 100);
    assert!(c.symbol_first);
    assert_eq!(c.decimal_mark, '.');
    assert_eq!(c.group_mark, ',');
}

#[test]
fn default_currency_has_empty_symbol() {
    let c = Currency::default();
    assert_eq!(c.symbol, "");
    assert_eq!(c.minor_ratio, 100);
    assert_eq!(Amount::of(&c, 1234).format(), "12.34");
}

#[test]
fn currencies_compare_by_value() {
    assert!(Currency::simple("$") == Currency::simple("$"));
    assert!(Currency::simple("$") != Currency::simple("&"));
    let mut named = Currency::simple("$");
    named.name = Some("Dollar".to_string());
    assert!(named != Currency::simple("$"));
    let mut coded = Currency::simple("$");
    coded.iso_numeric = Some(840);
    assert!(coded != Currency::simple("$"));
}

#[test]
fn trailing_zeros_kept_for_whole_amounts() {
    let c = currency("$", 1000, '.', ',');
    assert_eq!(Amount::of(&c, 5000).format(), "$5.000");
    assert_eq!(Amount::of(&c, 0).format(), "$0.000");
}

#[test]
fn fraction_is_zero_padded() {
    let c = Currency::simple("$");
    assert_eq!(Amount::of(&c, 5).format(), "$0.05");
    assert_eq!(Amount::of(&c, 1234567).format(), "$12,345.67");
}

#[test]
fn grouping_boundaries() {
    let c = Currency::simple("");
    assert_eq!(Amount::of(&c, 99999).format(), "999.99");
    assert_eq!(Amount::of(&c, 100000).format(), "1,000.00");
    assert_eq!(Amount::of(&c, 12345678900).format(), "123,456,789.00");
}

#[test]
fn custom_marks() {
    let c = currency("EUR ", 100, ',', '.');
    assert_eq!(Amount::of(&c, 123456789).format(), "EUR 1.234.567,89");
}

#[test]
fn stripping_group_marks_gives_the_digits() {
    let c = Currency::simple("$");
    let text = Amount::of(&c, 987654321012).format();
    let whole: String = text[1..text.find('.').unwrap()].chars().filter(|ch| *ch != ',').collect();
    assert_eq!(whole, "9876543210");
}

#[test]
fn negative_sign_sits_after_symbol() {
    let c = Currency::simple("$");
    assert_eq!(Amount::of(&c, -150).format(), "$-1.50");
    assert_eq!(Amount::of(&c, -5).format(), "$-0.05");
    assert_eq!(Amount::of(&c, -100000).format(), "$-1,000.00");
}

#[test]
fn extreme_quantities() {
    let c = Currency::simple("$");
    assert_eq!(Amount::of(&c, i64::MAX).format(), "$92,233,720,368,547,758.07");
    assert_eq!(Amount::of(&c, i64::MIN).format(), "$-92,233,720,368,547,758.08");
}

#[test]
fn ratio_one_has_no_fraction() {
    let c = currency("$", 1, '.', ',');
    assert_eq!(Amount::of(&c, 1234).format(), "$1,234");
}

#[test]
fn non_positive_ratio_gives_nan() {
    let zero = currency("$", 0, '.', ',');
    assert_eq!(Amount::of(&zero, 1234).format(), "$NaN");
    let negative = currency("$", -100, '.', ',');
    assert_eq!(Amount::of(&negative, 1234).format(), "$NaN");
}

#[test]
fn symbol_first_flag_does_not_move_the_symbol() {
    // The flag is stored but the layout always puts the symbol first.
    let c = Currency { symbol_first: false, ..Currency::simple("$") };
    assert_eq!(Amount::of(&c, 10000).format(), "$100.00");
}
