use linesort::number::{
    factor_of, is_not_a_number, number_less, numeric_request, numeric_value, parse_with_suffix,
    suffix_request, ReadRequest, INFINITY, LEAST_FINITE, SIGN_BIT, ZERO,
};

fn read(request: &ReadRequest) -> Option<u64> {
    match request.text.parse::<f64>() {
        Ok(number) => Some((number * f64::from(request.scale)).to_bits()),
        Err(_) => None,
    }
}

fn plain(key: &str) -> f64 {
    f64::from_bits(numeric_value(read(&numeric_request(key))))
}

fn scaled(key: &str) -> f64 {
    f64::from_bits(parse_with_suffix(key, read(&suffix_request(key))))
}

#[test]
fn named_patterns() {
    assert_eq!(LEAST_FINITE, f64::MIN.to_bits());
    assert_eq!(ZERO, 0.0f64.to_bits());
    assert_eq!(INFINITY, f64::INFINITY.to_bits());
    assert_eq!(SIGN_BIT, (-0.0f64).to_bits());
}

#[test]
fn plain_parse_of_text_is_the_least_finite_number() {
    assert_eq!(plain("abc"), f64::MIN);
    assert_eq!(plain(""), f64::MIN);
    assert_eq!(plain("4 2"), f64::MIN);
    assert_eq!(numeric_value(None), f64::MIN.to_bits());
}

#[test]
fn plain_parse_of_numbers() {
    assert_eq!(plain("42"), 42.0);
    assert_eq!(plain("-3.5"), -3.5);
    assert_eq!(plain("1e3"), 1000.0);
    assert_eq!(plain("inf"), f64::INFINITY);
    assert_eq!(numeric_value(Some(42.0f64.to_bits())), 42.0f64.to_bits());
}

#[test]
fn plain_request_is_the_key_unscaled() {
    let request = numeric_request(" 12K ");
    assert_eq!(request.text, " 12K ");
    assert_eq!(request.scale, 1);
}

#[test]
fn suffix_parse_scales_by_the_last_character() {
    assert_eq!(scaled("5K"), 5000.0);
    assert_eq!(scaled("5k"), 5000.0);
    assert_eq!(scaled("2.5M"), 2_500_000.0);
    assert_eq!(scaled("2.5m"), 2_500_000.0);
    assert_eq!(scaled("3G"), 3_000_000_000.0);
    assert_eq!(scaled("3g"), 3_000_000_000.0);
    assert_eq!(scaled("-1.5K"), -1500.0);
}

#[test]
fn suffix_parse_of_short_keys() {
    assert_eq!(scaled(""), f64::MIN);
    assert_eq!(scaled("9"), 9.0);
    assert_eq!(scaled("K"), f64::MIN);
    assert_eq!(scaled("x"), f64::MIN);
    assert_eq!(scaled("\u{e9}"), f64::MIN);
}

#[test]
fn suffix_parse_drops_an_unknown_last_character() {
    assert_eq!(scaled("7X"), 7.0);
    assert_eq!(scaled("500"), 50.0);
    assert_eq!(scaled("12\u{e9}"), 12.0);
}

#[test]
fn suffix_parse_counts_a_bad_prefix_as_zero() {
    assert_eq!(scaled("xK").to_bits(), 0.0f64.to_bits());
    assert_eq!(scaled("abc").to_bits(), 0.0f64.to_bits());
    assert_eq!(scaled("KK").to_bits(), 0.0f64.to_bits());
    assert_eq!(parse_with_suffix("ab", None), ZERO);
    assert_eq!(parse_with_suffix("a", None), LEAST_FINITE);
    assert_eq!(parse_with_suffix("", None), LEAST_FINITE);
}

#[test]
fn plain_and_suffix_fallbacks_differ() {
    assert_eq!(plain("abc"), f64::MIN);
    assert_eq!(scaled("abc"), 0.0);
}

#[test]
fn suffix_request_splits_the_key() {
    let request = suffix_request("10K");
    assert_eq!(request.text, "10");
    assert_eq!(request.scale, 1_000);
    let request = suffix_request("1.5m");
    assert_eq!(request.text, "1.5");
    assert_eq!(request.scale, 1_000_000);
    let request = suffix_request("8G");
    assert_eq!(request.text, "8");
    assert_eq!(request.scale, 1_000_000_000);
    let request = suffix_request("77");
    assert_eq!(request.text, "7");
    assert_eq!(request.scale, 1);
    let request = suffix_request("7");
    assert_eq!(request.text, "7");
    assert_eq!(request.scale, 1);
    let request = suffix_request("K");
    assert_eq!(request.text, "K");
    assert_eq!(request.scale, 1);
    let request = suffix_request("");
    assert_eq!(request.text, "");
    assert_eq!(request.scale, 1);
    let request = suffix_request("5\u{e9}");
    assert_eq!(request.text, "5");
    assert_eq!(request.scale, 1);
}

#[test]
fn factors_of_characters() {
    assert_eq!(factor_of('K'), 1_000);
    assert_eq!(factor_of('k'), 1_000);
    assert_eq!(factor_of('M'), 1_000_000);
    assert_eq!(factor_of('m'), 1_000_000);
    assert_eq!(factor_of('G'), 1_000_000_000);
    assert_eq!(factor_of('g'), 1_000_000_000);
    assert_eq!(factor_of('T'), 1);
    assert_eq!(factor_of('0'), 1);
}

fn samples() -> Vec<f64> {
    vec![
        f64::NEG_INFINITY,
        f64::MIN,
        -1.0e300,
        -2.5,
        -1.0,
        -f64::MIN_POSITIVE,
        -5e-324,
        -0.0,
        0.0,
        5e-324,
        f64::MIN_POSITIVE,
        0.1,
        1.0,
        1.0000000000000002,
        2.5,
        1000.0,
        1.0e300,
        f64::MAX,
        f64::INFINITY,
        f64::NAN,
        -f64::NAN,
        f64::from_bits(0x7ff0_0000_0000_0001),
        f64::from_bits(0xffff_ffff_ffff_ffff),
    ]
}

#[test]
fn number_order_agrees_with_the_numbers() {
    for a in samples() {
        for b in samples() {
            assert_eq!(number_less(a.to_bits(), b.to_bits()), a < b, "{:?} < {:?}", a, b);
        }
    }
}

#[test]
fn zeros_are_equal_in_order() {
    assert!(!number_less(SIGN_BIT, ZERO));
    assert!(!number_less(ZERO, SIGN_BIT));
}

#[test]
fn not_a_number_agrees_with_the_numbers() {
    for a in samples() {
        assert_eq!(is_not_a_number(a.to_bits()), a.is_nan(), "{:?}", a);
    }
    assert!(!is_not_a_number(INFINITY));
    assert!(is_not_a_number(INFINITY + 1));
    assert!(!is_not_a_number(LEAST_FINITE));
}
