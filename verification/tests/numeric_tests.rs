use marker_extract::numeric::parse_dec_field;
use marker_extract::numeric::parse_u32_field;
use marker_extract::numeric::SCALE;

fn dec(s: &str) -> Option<u64> {
    parse_dec_field(&s.as_bytes().to_vec())
}

fn int32(s: &str) -> Option<u32> {
    parse_u32_field(&s.as_bytes().to_vec())
}

#[test]
fn parses_integers_scaled() {
    assert_eq!(dec("0"), Some(0));
    assert_eq!(dec("1"), Some(SCALE));
    assert_eq!(dec("2000"), Some(2000 * SCALE));
}

#[test]
fn parses_fractions_exactly() {
    assert_eq!(dec("2.5"), Some(2_500_000_000));
    assert_eq!(dec("0.25"), Some(250_000_000));
    assert_eq!(dec("0.000000001"), Some(1));
    assert_eq!(dec("17.5"), Some(17_500_000_000));
}

#[test]
fn truncates_past_ninth_fraction_digit() {
    assert_eq!(dec("1.2345678901"), Some(1_234_567_890));
    assert_eq!(dec("0.0000000009"), Some(0));
}

#[test]
fn rejects_malformed_decimals() {
    assert_eq!(dec(""), None);
    assert_eq!(dec("1."), None);
    assert_eq!(dec(".5"), None);
    assert_eq!(dec("12a"), None);
    assert_eq!(dec("1.2.3"), None);
    assert_eq!(dec("-1"), None);
    assert_eq!(dec("1e3"), None);
}

#[test]
fn parses_small_integers() {
    assert_eq!(int32("2022"), Some(2022));
    assert_eq!(int32("0"), Some(0));
    assert_eq!(int32("4294967295"), Some(u32::MAX));
}

#[test]
fn rejects_out_of_range_integers() {
    assert_eq!(int32("4294967296"), None);
    assert_eq!(int32(""), None);
    assert_eq!(int32("12.5"), None);
}
