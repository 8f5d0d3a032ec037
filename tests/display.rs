use drew_clicker::state::Player;
use drew_clicker::text::{format_amount, format_owned, format_price, update_text};

#[test]
fn amount_zero() {
    assert_eq!(format_amount(0), "0.0");
}

#[test]
fn amount_with_one_decimal() {
    assert_eq!(format_amount(1234), "123.4");
    assert_eq!(format_amount(7), "0.7");
    assert_eq!(format_amount(120), "12.0");
}

#[test]
fn amount_just_below_threshold() {
    assert_eq!(format_amount(999_999_999), "99999999.9");
}

#[test]
fn amount_at_threshold_is_scientific() {
    assert_eq!(format_amount(1_000_000_000), "1.000000e8");
}

#[test]
fn amount_scientific_rounds() {
    assert_eq!(format_amount(12_345_678_949), "1.234568e9");
    assert_eq!(format_amount(12_345_674_999), "1.234567e9");
    assert_eq!(format_amount(99_999_995_000), "1.000000e10");
}

#[test]
fn amount_largest() {
    assert_eq!(format_amount(u128::MAX), "3.402824e37");
}

#[test]
fn price_text_plain_and_scientific() {
    assert_eq!(format_price(Some(1100)), "110");
    assert_eq!(format_price(Some(1105)), "110");
    assert_eq!(format_price(Some(12_345_678_900)), "1.235e9");
    assert_eq!(format_price(None), "out of reach");
}

#[test]
fn owned_line() {
    assert_eq!(format_owned(3), "\nOwned: 3");
    assert_eq!(format_owned(0), "\nOwned: 0");
}

#[test]
fn status_lines() {
    let mut p = Player::new();
    p.droodles = 1234;
    p.dps = 10;
    let (money, income) = update_text(&p);
    assert_eq!(money, "Droodles: 123.4");
    assert_eq!(income, "DPS: 1.0");
}

#[test]
fn amount_exact_half_goes_to_even() {
    assert_eq!(format_amount(10_000_005_000), "1.000000e9");
    assert_eq!(format_amount(10_000_015_000), "1.000002e9");
    assert_eq!(format_amount(10_000_005_001), "1.000001e9");
}

#[test]
fn status_lines_at_exact_half() {
    let mut p = Player::new();
    p.droodles = 10_000_005_000;
    p.dps = 10_000_005_000;
    let (money, income) = update_text(&p);
    assert_eq!(money, "Droodles: 1.000000e9");
    assert_eq!(income, "DPS: 1.000000e9");
}

#[test]
fn price_exact_half_goes_up() {
    assert_eq!(format_price(Some(12_345_000_000)), "1.235e9");
    assert_eq!(format_price(Some(12_355_000_000)), "1.236e9");
}
