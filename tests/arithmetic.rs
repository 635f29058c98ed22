use argent::{Amount, Currency};

#[test]
fn same_currency_by_value_adds() {
    let a = Currency::simple("$");
    let b = Currency::simple("$");
    let result = Amount::of(&a, 100) + Amount::of(&b, 23);
    assert_eq!(result.quantity, 123);
    assert!(*result.currency == a);
}

#[test]
fn subtraction_can_go_negative() {
    let c = Currency::simple("$");
    let result = Amount::of(&c, 100) - Amount::of(&c, 250);
    assert_eq!(result.quantity, -150);
    assert_eq!(result.format(), "$-1.50");
}

#[test]
fn mismatch_keeps_left_currency() {
    let a = Currency::simple("$");
    let mut b = Currency::simple("$");
    b.minor_ratio = 1000;
    let result = Amount::of(&a, 7) + Amount::of(&b, 3);
    assert_eq!(result.quantity, 7);
    assert!(*result.currency == a);
    let result = Amount::of(&a, 7) - Amount::of(&b, 3);
    assert_eq!(result.quantity, 7);
}

#[test]
fn sums_near_the_limits() {
    let c = Currency::simple("$");
    let result = Amount::of(&c, i64::MAX - 1) + Amount::of(&c, 1);
    assert_eq!(result.quantity, i64::MAX);
    let result = Amount::of(&c, i64::MIN + 1) - Amount::of(&c, 1);
    assert_eq!(result.quantity, i64::MIN);
}
