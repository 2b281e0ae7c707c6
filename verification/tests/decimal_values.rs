use dex_indexer::decimal::{
    checked_product, div_or_zero, divide_by, divide_integers, gcd_u128, mul_or_zero, pow10_u64,
    round, token_factor, DecimalValue,
};
use dex_indexer::gigadex::{base_lots_to_number, price_lots_to_number};
use dex_indexer::openbook::ObMarketInfo;
use dex_indexer::pubkey::Pubkey;
use dex_indexer::slab::{readable_price, readable_quantity};
use sqlx::types::Decimal;
use std::str::FromStr;

fn dec(value: DecimalValue) -> Decimal {
    Decimal::from_i128_with_scale(value.mantissa(), value.scale())
}

fn text(s: &str) -> Decimal {
    Decimal::from_str(s).unwrap()
}

fn ob_market(base_decimals: u8, quote_decimals: u8, base_lot: u64, quote_lot: u64) -> ObMarketInfo {
    ObMarketInfo {
        name: "sol-usdc".to_string(),
        address: Pubkey::new_from_array([1u8; 32]),
        base_mint: Pubkey::new_from_array([2u8; 32]),
        quote_mint: Pubkey::new_from_array([3u8; 32]),
        bids: Pubkey::new_from_array([4u8; 32]),
        asks: Pubkey::new_from_array([5u8; 32]),
        event_queue: Pubkey::new_from_array([6u8; 32]),
        base_decimals,
        quote_decimals,
        base_lot_size: base_lot,
        quote_lot_size: quote_lot,
    }
}

#[test]
fn token_factor_is_a_power_of_ten() {
    assert_eq!(token_factor(0).mantissa(), 1);
    assert_eq!(token_factor(6).mantissa(), 1_000_000);
    assert_eq!(token_factor(6).scale(), 0);
    assert_eq!(pow10_u64(19), 10_000_000_000_000_000_000u64);
}

#[test]
fn decimal_value_bounds() {
    assert!(DecimalValue::new(0xFFFF_FFFF_FFFF_FFFF_FFFF_FFFF, 28).is_some());
    assert!(DecimalValue::new(0x1_0000_0000_0000_0000_0000_0000, 0).is_none());
    assert!(DecimalValue::new(-0x1_0000_0000_0000_0000_0000_0000, 0).is_none());
    assert!(DecimalValue::new(1, 29).is_none());
    assert!(DecimalValue::new(-5, 1).is_some());
    assert!(DecimalValue::zero().is_zero());
    assert!(DecimalValue::new(0, 5).unwrap().is_zero());
    assert!(!DecimalValue::from_u64(7).is_zero());
}

#[test]
fn checked_product_stops_at_96_bits() {
    assert_eq!(checked_product(3, 4), Some(12));
    assert_eq!(checked_product(1u128 << 95, 2), None);
    assert_eq!(checked_product((1u128 << 96) - 1, 1), Some((1u128 << 96) - 1));
    assert_eq!(checked_product(u128::MAX, 2), None);
    assert_eq!(checked_product(0, u128::MAX), Some(0));
}

#[test]
fn divide_integers_divides() {
    assert_eq!(dec(divide_integers(1, 4).unwrap()), text("0.25"));
    assert_eq!(dec(divide_integers(10, 5).unwrap()), text("2"));
    assert!(divide_integers(1, 0).is_none());
    assert!(divide_integers(1u128 << 96, 1).is_none());
    assert!(divide_integers(1, 1u128 << 96).is_none());
}

#[test]
fn products_and_quotients_fall_back_to_zero() {
    let big = DecimalValue::new(0xFFFF_FFFF_FFFF_FFFF_FFFF_FFFF, 0).unwrap();
    assert!(mul_or_zero(big, big).is_zero());
    assert_eq!(dec(mul_or_zero(DecimalValue::from_u64(6), DecimalValue::from_u64(7))), text("42"));
    assert!(div_or_zero(DecimalValue::from_u64(6), DecimalValue::zero()).is_zero());
    assert_eq!(dec(div_or_zero(DecimalValue::from_u64(6), DecimalValue::from_u64(4))), text("1.5"));
}

#[test]
fn readable_price_follows_the_formula() {
    // 250 lots * 10 * 10^9 / (100 * 10^6) = 25000
    let market = ob_market(9, 6, 100, 10);
    assert_eq!(dec(readable_price(250, &market).unwrap()), text("25000"));
    // 3 lots * 1 * 10^6 / (8 * 10^6) = 0.375
    let market = ob_market(6, 6, 8, 1);
    assert_eq!(dec(readable_price(3, &market).unwrap()), text("0.375"));
}

#[test]
fn readable_quantity_follows_the_formula() {
    // 7 lots * 100 / 10^6 = 0.0007
    let market = ob_market(6, 6, 100, 10);
    assert_eq!(dec(readable_quantity(7, &market).unwrap()), text("0.0007"));
}

#[test]
fn readable_values_refuse_what_does_not_fit() {
    let market = ob_market(20, 6, 100, 10);
    assert!(readable_price(1, &market).is_none());
    assert!(readable_quantity(1, &market).is_none());
    let market = ob_market(6, 20, 100, 10);
    assert!(readable_price(1, &market).is_none());
    assert!(readable_quantity(1, &market).is_some());
    // u64::MAX * u64::MAX * 10^19 needs more than 96 bits
    let market = ob_market(19, 0, 1, u64::MAX);
    assert!(readable_price(u64::MAX, &market).is_none());
    // a base lot size of zero divides by zero
    let market = ob_market(6, 6, 0, 10);
    assert!(readable_price(1, &market).is_none());
}

#[test]
fn rescaling_lot_sizes_and_factors_keeps_readable_values() {
    // doubling both lot sizes leaves price unchanged
    let market = ob_market(6, 6, 100, 10);
    let doubled = ob_market(6, 6, 200, 20);
    for lots in [1u64, 7, 250, 1_000_003] {
        assert_eq!(
            dec(readable_price(lots, &market).unwrap()),
            dec(readable_price(lots, &doubled).unwrap())
        );
    }
    // multiplying the base lot size and the base factor by ten leaves quantity unchanged
    let market = ob_market(5, 6, 10, 10);
    let scaled = ob_market(6, 6, 100, 10);
    for lots in [1u64, 7, 250, 1_000_003] {
        assert_eq!(
            dec(readable_quantity(lots, &market).unwrap()),
            dec(readable_quantity(lots, &scaled).unwrap())
        );
    }
}

#[test]
fn gd_price_with_and_without_multiplier() {
    // 0.002 / 10^6 * 10^9 / 10^6 = 0.000002
    let lots = DecimalValue::new(2, 3).unwrap();
    let price = price_lots_to_number(lots, 9, 6, 1_000_000).unwrap();
    assert_eq!(dec(price), text("0.000002"));
    // without a multiplier: 0.002 * 10^9 / 10^6 = 2
    let price = price_lots_to_number(lots, 9, 6, 0).unwrap();
    assert_eq!(dec(price), text("2"));
    assert!(price_lots_to_number(lots, 20, 6, 0).is_none());
    assert!(price_lots_to_number(lots, 9, 20, 0).is_none());
}

#[test]
fn gd_amount_divides_by_the_base_factor() {
    assert_eq!(dec(base_lots_to_number(1_000_000_000, 9).unwrap()), text("1"));
    assert_eq!(dec(base_lots_to_number(1_500, 3).unwrap()), text("1.5"));
    assert!(base_lots_to_number(1, 20).is_none());
}

#[test]
fn rounding_is_the_rounding_of_the_decimal_type() {
    for scale in 0..6u32 {
        for m in -2600i128..=2600 {
            let value = DecimalValue::new(m, scale).unwrap();
            let rounded = round(value);
            let theirs = Decimal::from_i128_with_scale(m, scale).round();
            assert_eq!(rounded.scale(), 0);
            assert_eq!(rounded.scale(), theirs.scale());
            assert_eq!(rounded.mantissa(), theirs.mantissa());
        }
    }
    for (m, scale) in [
        (0xFFFF_FFFF_FFFF_FFFF_FFFF_FFFFi128, 0u32),
        (0xFFFF_FFFF_FFFF_FFFF_FFFF_FFFF, 1),
        (0xFFFF_FFFF_FFFF_FFFF_FFFF_FFFF, 28),
        (-0xFFFF_FFFF_FFFF_FFFF_FFFF_FFFF, 13),
        (-0xFFFF_FFFF_FFFF_FFFF_FFFF_FFFF, 0),
        (5_000_000_000_000_000_000_000_000_000, 28),
        (15_000_000_000_000_000_000_000_000_000, 28),
        (25_000_000_000_000_000_000_000_000_000, 28),
        (-25_000_000_000_000_000_000_000_000_000, 28),
        (5, 28),
        (0, 28),
    ] {
        let rounded = round(DecimalValue::new(m, scale).unwrap());
        let theirs = Decimal::from_i128_with_scale(m, scale).round();
        assert_eq!(rounded.scale(), 0);
        assert_eq!(rounded.mantissa(), theirs.mantissa());
    }
    // midpoints go to the even neighbour
    assert_eq!(round(DecimalValue::new(25, 1).unwrap()).mantissa(), 2);
    assert_eq!(round(DecimalValue::new(35, 1).unwrap()).mantissa(), 4);
    assert_eq!(round(DecimalValue::new(-25, 1).unwrap()).mantissa(), -2);
    assert_eq!(round(DecimalValue::new(-35, 1).unwrap()).mantissa(), -4);
    assert_eq!(round(DecimalValue::new(2002, 2).unwrap()).mantissa(), 20);
}

#[test]
fn decimal_order_is_the_order_of_the_numbers() {
    let values: Vec<DecimalValue> = [(0i128, 0u32), (0, 5), (1, 0), (10, 1), (1, 1), (-1, 0), (-10, 1), (-1, 28), (15, 1), (149, 2), (0xFFFF_FFFF_FFFF_FFFF_FFFF_FFFF, 0), (-0xFFFF_FFFF_FFFF_FFFF_FFFF_FFFF, 28)]
        .iter()
        .map(|(m, s)| DecimalValue::new(*m, *s).unwrap())
        .collect();
    for a in &values {
        for b in &values {
            // a.m * 10^b.s < b.m * 10^a.s, in integers wide enough for 96 + 94 bits
            let left = (a.mantissa() as f64) * 10f64.powi(b.scale() as i32);
            let right = (b.mantissa() as f64) * 10f64.powi(a.scale() as i32);
            assert_eq!(dec(*a) < dec(*b), left < right);
        }
    }
}

#[test]
fn greatest_common_divisors() {
    assert_eq!(gcd_u128(0, 0), 0);
    assert_eq!(gcd_u128(0, 7), 7);
    assert_eq!(gcd_u128(7, 0), 7);
    assert_eq!(gcd_u128(12, 18), 6);
    assert_eq!(gcd_u128(18, 12), 6);
    assert_eq!(gcd_u128(17, 5), 1);
    assert_eq!(gcd_u128(1_001_000_000_000, 500_000_000_000), 1_000_000_000);
    assert_eq!(gcd_u128(u128::MAX, u128::MAX), u128::MAX);
    assert_eq!(gcd_u128(1u128 << 100, 1u128 << 64), 1u128 << 64);
}

#[test]
fn division_in_lowest_terms_gives_the_decimal_of_the_plain_division() {
    let numbers: [u128; 16] = [
        0,
        1,
        2,
        3,
        6,
        7,
        10,
        12,
        250,
        1_000,
        999_983,
        1_001_000,
        500_000_000_000,
        10_000_000_000_000_000_000,
        18_446_744_073_709_551_615,
        79_228_162_514_264_337_593_543_950_335,
    ];
    for a in numbers {
        for b in numbers {
            let plain = Decimal::from_i128_with_scale(a as i128, 0)
                .checked_div(Decimal::from_i128_with_scale(b as i128, 0));
            assert_eq!(divide_integers(a, b).map(dec), plain);
            if b <= u64::MAX as u128 {
                for scale in [0u32, 3, 28] {
                    for sign in [1i128, -1] {
                        let value = DecimalValue::new(sign * a as i128, scale).unwrap();
                        let plain =
                            dec(value).checked_div(Decimal::from_i128_with_scale(b as i128, 0));
                        assert_eq!(divide_by(value, b as u64).map(dec), plain);
                    }
                }
            }
        }
    }
}

#[test]
fn rescaling_leaves_the_readable_values_of_the_second_venue() {
    for (mantissa, scale) in [(2i128, 3u32), (1, 0), (3_000_000, 0), (7, 28), (123_456_789, 5)] {
        let lots = DecimalValue::new(mantissa, scale).unwrap();
        for k in [2i128, 3, 10, 1_000] {
            let more = DecimalValue::new(k * mantissa, scale).unwrap();
            for multiplier in [1u64, 3, 1_000_000, 999_983] {
                assert_eq!(
                    price_lots_to_number(more, 9, 6, k as u64 * multiplier),
                    price_lots_to_number(lots, 9, 6, multiplier)
                );
            }
        }
        for multiplier in [0u64, 1, 1_000_000] {
            for (base, quote) in [(9u8, 6u8), (6, 9), (0, 0), (18, 18), (3, 18)] {
                assert_eq!(
                    price_lots_to_number(lots, base + 1, quote + 1, multiplier),
                    price_lots_to_number(lots, base, quote, multiplier)
                );
            }
        }
    }
    for lots in [0u64, 1, 7, 1_500, 1_000_000_007] {
        for decimals in [0u8, 3, 9, 18] {
            assert_eq!(
                base_lots_to_number(10 * lots, decimals + 1),
                base_lots_to_number(lots, decimals)
            );
            assert!(base_lots_to_number(lots, decimals).is_some());
        }
    }
}

#[test]
fn rescaling_leaves_the_readable_values_of_the_order_book() {
    for lots in [0u64, 1, 7, 250, 1_000_003] {
        let market = ob_market(6, 6, 100, 10);
        for k in [2u64, 3, 10, 1_000] {
            let scaled = ob_market(6, 6, 100 * k, 10 * k);
            assert_eq!(readable_price(lots, &scaled), readable_price(lots, &market));
            assert!(readable_price(lots, &market).is_some());
        }
        let shifted = ob_market(7, 7, 100, 10);
        assert_eq!(readable_price(lots, &shifted), readable_price(lots, &market));
        let tenfold = ob_market(7, 6, 1_000, 10);
        assert_eq!(readable_quantity(lots, &tenfold), readable_quantity(lots, &market));
    }
}

#[test]
fn the_price_of_the_second_venue_follows_the_formula() {
    // lots / multiplier * 10^base / 10^quote, for values that have exact decimals
    for (lots, multiplier, base, quote, expected) in [
        ("3000000", 1_000_000u64, 9u8, 6u8, "3000"),
        ("0.002", 1_000_000, 9, 6, "0.000002"),
        ("0.002", 0, 9, 6, "2"),
        ("5", 4, 6, 9, "0.00125"),
        ("5", 0, 6, 9, "0.005"),
        ("12.5", 5, 6, 6, "2.5"),
        ("-12.5", 5, 7, 6, "-25"),
    ] {
        let d = text(lots);
        let value = DecimalValue::new(d.mantissa(), d.scale()).unwrap();
        let price = price_lots_to_number(value, base, quote, multiplier).unwrap();
        assert_eq!(dec(price), text(expected));
    }
}
