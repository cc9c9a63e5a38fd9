use depth_book::decimal::{format_decimal, parse_decimal, parse_decimal_bytes, ONE, SCALE_DIGITS};
use depth_book::messages::{parse_level, parse_levels, Level, OrderBookUpdate, Snapshot};

fn pair(price: &str, qty: &str) -> [String; 2] {
    [price.to_string(), qty.to_string()]
}

#[test]
fn one_is_ten_to_the_scale() {
    assert_eq!(ONE, 10u64.pow(SCALE_DIGITS as u32));
}

#[test]
fn whole_numbers_are_scaled() {
    assert_eq!(parse_decimal("0"), Some(0));
    assert_eq!(parse_decimal("1"), Some(ONE));
    assert_eq!(parse_decimal("100"), Some(100 * ONE));
    assert_eq!(parse_decimal("000123"), Some(123 * ONE));
    assert_eq!(parse_decimal("184467440737"), Some(18_446_744_073_700_000_000));
}

#[test]
fn fractions_fill_up_to_eight_places() {
    assert_eq!(parse_decimal("0.5"), Some(50_000_000));
    assert_eq!(parse_decimal("1.5"), Some(150_000_000));
    assert_eq!(parse_decimal("0.00000001"), Some(1));
    assert_eq!(parse_decimal("0.00100000"), Some(100_000));
    assert_eq!(parse_decimal("43251.12000000"), Some(4_325_112_000_000));
    assert_eq!(parse_decimal("0.0"), Some(0));
    assert_eq!(parse_decimal("0.00000000"), Some(0));
    assert_eq!(parse_decimal("12.34567891"), Some(1_234_567_891));
}

#[test]
fn equal_decimals_are_equal_units() {
    assert_eq!(parse_decimal("100"), parse_decimal("100.0"));
    assert_eq!(parse_decimal("100"), parse_decimal("0100.00000000"));
    assert_eq!(parse_decimal("2.50"), parse_decimal("2.5"));
}

#[test]
fn largest_value_fits_and_the_next_does_not() {
    assert_eq!(parse_decimal("184467440737.09551615"), Some(u64::MAX));
    assert_eq!(parse_decimal("184467440737.09551616"), None);
    assert_eq!(parse_decimal("184467440738"), None);
    assert_eq!(parse_decimal("184467440737.1"), None);
    assert_eq!(parse_decimal("99999999999999999999999999"), None);
    assert_eq!(parse_decimal("18446744073709551615"), None);
    assert_eq!(parse_decimal("00000000000000000000000001"), Some(ONE));
}

#[test]
fn what_is_not_a_decimal_has_no_value() {
    for text in [
        "", ".", ".5", "5.", "-1", "+1", "1e3", "1.2.3", "1..2", " 1", "1 ", "12a", "a12", "1,5",
        "1.123456789", "0.000000000", "inf", "NaN", "0x10", "１２",
    ] {
        assert_eq!(parse_decimal(text), None, "{:?}", text);
    }
}

#[test]
fn bytes_are_read_like_text() {
    assert_eq!(parse_decimal_bytes(b"7.25"), Some(725_000_000));
    assert_eq!(parse_decimal_bytes(b"7.25\0"), None);
    assert_eq!(parse_decimal_bytes(&[0xff, 0x31]), None);
    assert_eq!(parse_decimal_bytes(b""), None);
}

#[test]
fn level_needs_both_numbers() {
    assert_eq!(parse_level(&pair("100", "1")), Some(Level { price: 100 * ONE, qty: ONE }));
    assert_eq!(parse_level(&pair("99.5", "0")), Some(Level { price: 9_950_000_000, qty: 0 }));
    assert_eq!(parse_level(&pair("x", "1")), None);
    assert_eq!(parse_level(&pair("1", "")), None);
}

#[test]
fn one_bad_pair_spoils_the_list() {
    assert_eq!(parse_levels(&vec![]), Some(vec![]));
    assert_eq!(
        parse_levels(&vec![pair("2", "1"), pair("1", "0.5")]),
        Some(vec![Level { price: 2 * ONE, qty: ONE }, Level { price: ONE, qty: 50_000_000 }])
    );
    assert_eq!(parse_levels(&vec![pair("2", "1"), pair("1", "-0.5")]), None);
    assert_eq!(parse_levels(&vec![pair("two", "1"), pair("1", "0.5")]), None);
}

#[test]
fn update_is_built_from_the_fields_of_a_frame() {
    let update = OrderBookUpdate::from_wire(
        "depthUpdate".to_string(),
        1_672_515_782_136,
        "BNBBTC".to_string(),
        157,
        160,
        &vec![pair("0.0024", "10")],
        &vec![pair("0.0026", "100"), pair("0.0027", "0")],
    )
    .unwrap();
    assert_eq!(
        update,
        OrderBookUpdate {
            event_type: "depthUpdate".to_string(),
            event_time: 1_672_515_782_136,
            symbol: "BNBBTC".to_string(),
            first_trade_id: 157,
            last_trade_id: 160,
            bids: vec![Level { price: 240_000, qty: 10 * ONE }],
            asks: vec![Level { price: 260_000, qty: 100 * ONE }, Level { price: 270_000, qty: 0 }],
        }
    );
}

#[test]
fn frame_with_a_bad_number_is_not_an_update() {
    let bad_bid = OrderBookUpdate::from_wire(
        "depthUpdate".to_string(),
        0,
        "BNBBTC".to_string(),
        1,
        1,
        &vec![pair("0.0024", "ten")],
        &vec![],
    );
    assert_eq!(bad_bid, None);
    let bad_ask = OrderBookUpdate::from_wire(
        "depthUpdate".to_string(),
        0,
        "BNBBTC".to_string(),
        1,
        1,
        &vec![],
        &vec![pair("1e9", "1")],
    );
    assert_eq!(bad_ask, None);
}

#[test]
fn snapshot_is_built_from_the_fields_of_a_response() {
    let snapshot = Snapshot::from_wire(1027024, &vec![pair("4.00000000", "431.00000000")], &vec![
        pair("4.00000200", "12.00000000"),
    ]);
    assert_eq!(
        snapshot,
        Some(Snapshot {
            last_update_id: 1027024,
            bids: vec![Level { price: 4 * ONE, qty: 431 * ONE }],
            asks: vec![Level { price: 400_000_200, qty: 12 * ONE }],
        })
    );
    assert_eq!(Snapshot::from_wire(1, &vec![pair("4", "4")], &vec![pair("", "1")]), None);
    assert_eq!(Snapshot::from_wire(1, &vec![pair("4", "4.")], &vec![]), None);
}

fn written(units: u64) -> String {
    String::from_utf8(format_decimal(units)).unwrap()
}

#[test]
fn numbers_are_written_as_the_shortest_decimal() {
    assert_eq!(written(0), "0");
    assert_eq!(written(1), "0.00000001");
    assert_eq!(written(10), "0.0000001");
    assert_eq!(written(ONE), "1");
    assert_eq!(written(ONE - 1), "0.99999999");
    assert_eq!(written(ONE + 1), "1.00000001");
    assert_eq!(written(150_000_000), "1.5");
    assert_eq!(written(100 * ONE), "100");
    assert_eq!(written(4_325_112_000_000), "43251.12");
    assert_eq!(written(1_234_567_891), "12.34567891");
    assert_eq!(written(u64::MAX), "184467440737.09551615");
    assert_eq!(written(18_446_744_073_700_000_000), "184467440737");
}

#[test]
fn what_is_written_reads_back() {
    let mut units: u64 = 0;
    for step in 0..2000u64 {
        assert_eq!(parse_decimal_bytes(&format_decimal(units)), Some(units));
        assert_eq!(parse_decimal_bytes(&format_decimal(u64::MAX - units)), Some(u64::MAX - units));
        units = units.wrapping_mul(6364136223846793005).wrapping_add(1442695040888963407 + step) >> 3;
    }
    for units in [1, 9, 10, 99, 100, ONE - 1, ONE, ONE + 1, 10 * ONE, u64::MAX] {
        assert_eq!(parse_decimal_bytes(&format_decimal(units)), Some(units));
    }
}
