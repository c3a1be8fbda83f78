use near_intents_derivatives::canonicalization::{normalize_symbol, Canonicalizer};
use near_intents_derivatives::decimal::{signed_text, unsigned_text, wide_text};
use near_intents_derivatives::error::{CanonError, ErrorKind};
use near_intents_derivatives::json::{JsonNumber, JsonValue};
use near_intents_derivatives::text::{chars_of, string_of, to_lowercase, to_uppercase, trim};

fn text(s: &str) -> JsonValue {
    JsonValue::String(s.to_string())
}

fn decimal(literal: &str, min: &str, max: &str, precision: usize) -> Result<String, CanonError> {
    Canonicalizer::canonicalize_decimal(&text(literal), min, max, precision)
        .map(|v| v.as_str().unwrap().to_string())
}

fn size(literal: &str) -> Result<String, CanonError> {
    decimal(literal, "0.00000001", "1000000", 8)
}

#[test]
fn timestamp_loses_its_fraction() {
    assert_eq!(
        Canonicalizer::normalize_timestamp("2024-01-23T11:00:00.123Z").unwrap(),
        "2024-01-23T11:00:00Z"
    );
    assert_eq!(
        Canonicalizer::normalize_timestamp("2024-01-23T11:00:00Z").unwrap(),
        "2024-01-23T11:00:00Z"
    );
}

#[test]
fn timestamp_with_offset_is_rejected() {
    let e = Canonicalizer::normalize_timestamp("2024-01-23T11:00:00+00:00").unwrap_err();
    assert_eq!(e, CanonError::MalformedTimestamp { literal: "2024-01-23T11:00:00+00:00".to_string() });
    assert_eq!(e.kind(), ErrorKind::MalformedTimestamp);
    assert_eq!(e.message(), "Invalid timestamp: 2024-01-23T11:00:00+00:00");
}

#[test]
fn timestamp_of_wrong_shape_is_rejected() {
    for raw in [
        "",
        "Z",
        "2024-01-23T11:00:00",
        "2024-01-23 11:00:00Z",
        "2024-01-23T11:00Z",
        "2024-01-23T11:00:00.1.2Z",
        "2024-01-2T311:00:00Z",
        "2024-01-23T11:00:00+01:00Z",
    ] {
        let e = Canonicalizer::normalize_timestamp(raw).unwrap_err();
        assert_eq!(e.kind(), ErrorKind::MalformedTimestamp, "{raw}");
    }
}

#[test]
fn timestamp_of_any_century_is_taken() {
    for raw in ["1999-12-31T23:59:59Z", "1970-01-01T00:00:00.000Z", " 2100-06-15T12:30:45Z\n"] {
        let normalized = Canonicalizer::normalize_timestamp(raw).unwrap();
        assert_eq!(normalized.len(), 20);
        assert_eq!(&normalized[..19], &raw.trim()[..19]);
    }
}

#[test]
fn timestamp_with_a_sign_behind_the_date_is_rejected() {
    for raw in [
        "2024-01-23T11:00-01Z",
        "2024-01-23T11:00+01Z",
        "2024-01-23T11-00-00Z",
        "2024-01-23T11:00:00.5-05Z",
        "2024-01-23T11:00:00-05:00",
    ] {
        let e = Canonicalizer::normalize_timestamp(raw).unwrap_err();
        assert_eq!(e, CanonError::MalformedTimestamp { literal: raw.to_string() }, "{raw}");
    }
}

#[test]
fn normalized_timestamp_stays_as_it_is() {
    let once = Canonicalizer::normalize_timestamp("2025-12-31T23:59:59.999999Z").unwrap();
    let twice = Canonicalizer::normalize_timestamp(&once).unwrap();
    assert_eq!(once, "2025-12-31T23:59:59Z");
    assert_eq!(twice, once);
    assert_eq!(twice.chars().count(), 20);
}

#[test]
fn signer_length_is_bounded() {
    let longest = "a".repeat(64);
    assert_eq!(Canonicalizer::normalize_signer_id(&longest).unwrap(), longest);
    let padded = format!("  {}\t", longest);
    assert_eq!(Canonicalizer::normalize_signer_id(&padded).unwrap(), longest);
    let too_long = "a".repeat(65);
    assert_eq!(
        Canonicalizer::normalize_signer_id(&too_long).unwrap_err(),
        CanonError::OutOfRange { literal: too_long.clone() }
    );
    assert_eq!(
        Canonicalizer::normalize_signer_id("").unwrap_err(),
        CanonError::OutOfRange { literal: String::new() }
    );
}

#[test]
fn signer_beyond_ascii_is_lowered() {
    assert_eq!(Canonicalizer::normalize_signer_id(" ÉCOLE.Near ").unwrap(), "école.near");
}

#[test]
fn normalized_signer_stays_as_it_is() {
    let once = Canonicalizer::normalize_signer_id("  Alice.NEAR ").unwrap();
    assert_eq!(Canonicalizer::normalize_signer_id(&once).unwrap(), once);
}

#[test]
fn nonce_is_a_trimmed_string_or_a_number() {
    assert_eq!(Canonicalizer::normalize_nonce(&text("  abc-1 ")).unwrap(), "abc-1");
    assert_eq!(
        Canonicalizer::normalize_nonce(&JsonValue::Number(JsonNumber::Unsigned(12345))).unwrap(),
        "12345"
    );
    assert_eq!(
        Canonicalizer::normalize_nonce(&JsonValue::Number(JsonNumber::Unsigned(u64::MAX))).unwrap(),
        "18446744073709551615"
    );
    assert_eq!(
        Canonicalizer::normalize_nonce(&JsonValue::Number(JsonNumber::Signed(-7))).unwrap(),
        "-7"
    );
    assert_eq!(
        Canonicalizer::normalize_nonce(&JsonValue::Number(JsonNumber::Real("1.5".to_string())))
            .unwrap(),
        "1.5"
    );
}

#[test]
fn nonce_of_another_kind_is_rejected() {
    for nonce in [
        JsonValue::Null,
        JsonValue::Bool(true),
        JsonValue::Array(vec![]),
        JsonValue::Object(vec![]),
    ] {
        let e = Canonicalizer::normalize_nonce(&nonce).unwrap_err();
        assert_eq!(e, CanonError::InvalidNonce);
        assert_eq!(e.kind(), ErrorKind::InvalidNonce);
        assert_eq!(e.message(), "Nonce must be string or number");
    }
}

#[test]
fn symbol_is_raised_and_needs_a_hyphen() {
    assert_eq!(normalize_symbol(" eth-usd ").unwrap(), "ETH-USD");
    assert_eq!(normalize_symbol("BTC-USD").unwrap(), "BTC-USD");
    let e = normalize_symbol("ethusd").unwrap_err();
    assert_eq!(
        e,
        CanonError::InvalidEnum { field: "symbol".to_string(), value: "ETHUSD".to_string() }
    );
    assert_eq!(e.message(), "Invalid symbol: ETHUSD");
}

#[test]
fn symbol_beyond_ascii_is_raised() {
    assert_eq!(normalize_symbol("straße-usd").unwrap(), "STRASSE-USD");
}

#[test]
fn normalized_symbol_stays_as_it_is() {
    let once = normalize_symbol("  sol-usd").unwrap();
    assert_eq!(normalize_symbol(&once).unwrap(), once);
}

#[test]
fn decimal_in_scientific_notation_is_rejected() {
    assert_eq!(size("1e6").unwrap_err(), CanonError::MalformedDecimal { literal: "1e6".to_string() });
    assert_eq!(size("1E6").unwrap_err().kind(), ErrorKind::MalformedDecimal);
    assert_eq!(size("1e6").unwrap_err().message(), "Invalid decimal: 1e6");
}

#[test]
fn decimal_with_leading_zero_or_sign_is_rejected() {
    for literal in ["00.5", "01", "007", "+10", "-1", "-0", "+0.5"] {
        assert_eq!(
            size(literal).unwrap_err(),
            CanonError::MalformedDecimal { literal: literal.to_string() },
            "{literal}"
        );
    }
}

#[test]
fn decimal_that_is_no_number_is_rejected() {
    for literal in ["", ".", "abc", "1.2.3", "1,5", "nan", "inf", "infinity", "0x10", "1 5", "١٢"] {
        assert_eq!(size(literal).unwrap_err().kind(), ErrorKind::MalformedDecimal, "{literal}");
    }
    for value in [JsonValue::Null, JsonValue::Bool(false), JsonValue::Array(vec![])] {
        assert_eq!(
            Canonicalizer::canonicalize_decimal(&value, "0", "10", 2).unwrap_err(),
            CanonError::MalformedDecimal { literal: String::new() }
        );
    }
}

#[test]
fn decimal_loses_trailing_zeros() {
    assert_eq!(size("1.50000").unwrap(), "1.5");
    assert_eq!(size("1.0").unwrap(), "1");
    assert_eq!(size("1.").unwrap(), "1");
    assert_eq!(size(".5").unwrap(), "0.5");
    assert_eq!(size("0.5").unwrap(), "0.5");
    assert_eq!(size("10").unwrap(), "10");
    assert_eq!(size(" 2.50 ").unwrap(), "2.5");
    assert_eq!(size("0.00000001").unwrap(), "0.00000001");
    assert_eq!(size("999999.99999999").unwrap(), "999999.99999999");
    assert_eq!(size("1000000").unwrap(), "1000000");
    assert_eq!(size("1000000.0").unwrap(), "1000000");
}

#[test]
fn zero_is_written_as_one_digit() {
    assert_eq!(decimal("0", "0", "10", 2).unwrap(), "0");
    assert_eq!(decimal("0.0", "0", "10", 2).unwrap(), "0");
    assert_eq!(decimal("0.00", "0", "10", 2).unwrap(), "0");
    assert_eq!(decimal(".0", "0", "10", 2).unwrap(), "0");
}

#[test]
fn decimal_outside_its_bounds_is_rejected() {
    assert_eq!(size("0").unwrap_err(), CanonError::OutOfRange { literal: "0".to_string() });
    assert_eq!(size("0.000000001").unwrap_err().kind(), ErrorKind::OutOfRange);
    assert_eq!(size("1000000.00000001").unwrap_err().kind(), ErrorKind::OutOfRange);
    assert_eq!(size("1000001").unwrap_err().kind(), ErrorKind::OutOfRange);
    assert_eq!(decimal("0.99", "1", "100", 2).unwrap_err().kind(), ErrorKind::OutOfRange);
    assert_eq!(decimal("100.01", "1", "100", 2).unwrap_err().kind(), ErrorKind::OutOfRange);
    assert_eq!(decimal("100", "1", "100", 2).unwrap(), "100");
    assert_eq!(decimal("1", "1", "100", 2).unwrap(), "1");
    assert_eq!(size("0").unwrap_err().message(), "Value out of range: 0");
    assert_eq!(
        size("100000000000000000000000000000000000000000").unwrap_err().kind(),
        ErrorKind::OutOfRange
    );
}

#[test]
fn decimal_with_too_many_places_is_rejected() {
    assert_eq!(
        size("1.123456789").unwrap_err(),
        CanonError::PrecisionExceeded { literal: "1.123456789".to_string() }
    );
    assert_eq!(decimal("1.005", "1", "100", 2).unwrap_err().kind(), ErrorKind::PrecisionExceeded);
    assert_eq!(decimal("1.500", "1", "100", 2).unwrap_err().kind(), ErrorKind::PrecisionExceeded);
    assert_eq!(
        size("1000000.000000000000000000").unwrap_err().kind(),
        ErrorKind::PrecisionExceeded
    );
    assert_eq!(size("1.123456789").unwrap_err().message(), "Too many decimal places: 1.123456789");
}

#[test]
fn decimal_given_as_a_number() {
    let ten = JsonValue::Number(JsonNumber::Unsigned(10));
    assert_eq!(Canonicalizer::canonicalize_decimal(&ten, "1", "100", 2).unwrap(), text("10"));
    let real = JsonValue::Number(JsonNumber::Real("2.50".to_string()));
    assert_eq!(Canonicalizer::canonicalize_decimal(&real, "1", "100", 2).unwrap(), text("2.5"));
    let negative = JsonValue::Number(JsonNumber::Signed(-3));
    assert_eq!(
        Canonicalizer::canonicalize_decimal(&negative, "1", "100", 2).unwrap_err(),
        CanonError::MalformedDecimal { literal: "-3".to_string() }
    );
}

#[test]
fn canonical_decimal_keeps_its_value() {
    for literal in ["1.50000", "0.10", "42", "999999.99999999", "0.00000001", "7.0"] {
        let canonical = size(literal).unwrap();
        let before: f64 = literal.parse().unwrap();
        let after: f64 = canonical.parse().unwrap();
        assert_eq!(before, after, "{literal}");
        assert_eq!(size(&canonical).unwrap(), canonical);
    }
}

#[test]
fn whole_numbers_are_written_in_decimal() {
    assert_eq!(unsigned_text(0), vec!['0']);
    assert_eq!(unsigned_text(1090).iter().collect::<String>(), "1090");
    assert_eq!(signed_text(i64::MIN).iter().collect::<String>(), "-9223372036854775808");
    assert_eq!(signed_text(15).iter().collect::<String>(), "15");
    assert_eq!(
        wide_text(u128::MAX).iter().collect::<String>(),
        "340282366920938463463374607431768211455"
    );
}

#[test]
fn texts_are_trimmed_of_unicode_whitespace() {
    let raw = chars_of("\u{2003}\t a b \n\u{a0}");
    assert_eq!(string_of(&trim(&raw)), "a b");
    assert_eq!(string_of(&trim(&chars_of("   "))), "");
    assert_eq!(string_of(&trim(&chars_of("x"))), "x");
}

#[test]
fn case_is_changed_letter_by_letter() {
    assert_eq!(string_of(&to_lowercase(&chars_of("GMX-V2 Ab"))), "gmx-v2 ab");
    assert_eq!(string_of(&to_uppercase(&chars_of("gmx-v2 Ab"))), "GMX-V2 AB");
    assert_eq!(string_of(&to_lowercase(&chars_of("ÀÉÎ"))), "àéî");
    assert_eq!(string_of(&to_uppercase(&chars_of("àéî"))), "ÀÉÎ");
}
