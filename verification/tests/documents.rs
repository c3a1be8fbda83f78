use near_intents_derivatives::canonicalization::Canonicalizer;
use near_intents_derivatives::error::{CanonError, ErrorKind};
use near_intents_derivatives::json::{find, JsonNumber, JsonValue};
use near_intents_derivatives::pipeline::HashRefusal;

fn text(s: &str) -> JsonValue {
    JsonValue::String(s.to_string())
}

fn number(n: u64) -> JsonValue {
    JsonValue::Number(JsonNumber::Unsigned(n))
}

fn list(items: &[&str]) -> JsonValue {
    JsonValue::Array(items.iter().map(|s| text(s)).collect())
}

fn object(members: Vec<(&str, JsonValue)>) -> JsonValue {
    JsonValue::Object(members.into_iter().map(|(k, v)| (k.to_string(), v)).collect())
}

fn members(value: &JsonValue) -> &Vec<(String, JsonValue)> {
    value.as_object().unwrap()
}

fn perp() -> Vec<(&'static str, JsonValue)> {
    vec![
        ("instrument", text("PERP")),
        ("symbol", text("eth-usd")),
        ("side", text("LONG")),
        ("size", text("1.50000")),
        ("collateral", object(vec![("token", text(" usdc.near ")), ("chain", text("NEAR"))])),
    ]
}

fn intent_with(derivatives: JsonValue) -> Vec<(&'static str, JsonValue)> {
    vec![
        ("version", text("1.0.0")),
        ("intent_type", text("derivatives")),
        ("derivatives", derivatives),
        ("signer_id", text("Alice.NEAR")),
        ("deadline", text("2024-01-23T11:00:00.000Z")),
        ("nonce", number(12345)),
    ]
}

fn without(mut list: Vec<(&'static str, JsonValue)>, key: &str) -> Vec<(&'static str, JsonValue)> {
    list.retain(|(k, _)| *k != key);
    list
}

fn with(
    mut list: Vec<(&'static str, JsonValue)>,
    key: &'static str,
    value: JsonValue,
) -> Vec<(&'static str, JsonValue)> {
    list.retain(|(k, _)| *k != key);
    list.push((key, value));
    list
}

fn default_constraints() -> JsonValue {
    object(vec![
        ("max_fee_bps", number(30)),
        ("max_funding_bps_8h", number(50)),
        ("max_slippage_bps", number(100)),
        ("venue_allowlist", list(&[])),
    ])
}

fn canonical_perp() -> JsonValue {
    object(vec![
        ("collateral", object(vec![("chain", text("near")), ("token", text("usdc.near"))])),
        ("constraints", default_constraints()),
        ("instrument", text("perp")),
        ("leverage", text("1")),
        ("option", JsonValue::Null),
        ("side", text("long")),
        ("size", text("1.5")),
        ("symbol", text("ETH-USD")),
    ])
}

const CANONICAL_TEXT: &str = "{\"deadline\":\"2024-01-23T11:00:00Z\",\"derivatives\":{\"collateral\":{\"chain\":\"near\",\"token\":\"usdc.near\"},\"constraints\":{\"max_fee_bps\":30,\"max_funding_bps_8h\":50,\"max_slippage_bps\":100,\"venue_allowlist\":[]},\"instrument\":\"perp\",\"leverage\":\"1\",\"option\":null,\"side\":\"long\",\"size\":\"1.5\",\"symbol\":\"ETH-USD\"},\"intent_type\":\"derivatives\",\"nonce\":\"12345\",\"signer_id\":\"alice.near\",\"version\":\"1.0.0\"}";

const DIGEST: &str = "888aa8e377bab2d2bbb51bebb5eede0028ea291dd78c5e6f545abf25df0e17f8";

#[test]
fn derivatives_get_their_canonical_form() {
    let given = object(perp());
    let canonical = Canonicalizer::canonicalize_derivatives(members(&given)).unwrap();
    assert_eq!(canonical, canonical_perp());
}

#[test]
fn intent_gets_its_canonical_form() {
    let canonical = Canonicalizer::canonicalize_intent(&object(intent_with(object(perp())))).unwrap();
    assert_eq!(
        canonical,
        object(vec![
            ("deadline", text("2024-01-23T11:00:00Z")),
            ("derivatives", canonical_perp()),
            ("intent_type", text("derivatives")),
            ("nonce", text("12345")),
            ("signer_id", text("alice.near")),
            ("version", text("1.0.0")),
        ])
    );
    assert_eq!(canonical.to_text().unwrap(), CANONICAL_TEXT);
}

#[test]
fn intent_has_a_known_digest() {
    let intent = object(intent_with(object(perp())));
    assert_eq!(Canonicalizer::canonical_text(&intent).unwrap(), CANONICAL_TEXT);
    assert_eq!(Canonicalizer::intent_digest(&intent).unwrap(), DIGEST);
    assert_eq!(Canonicalizer::compute_hash(CANONICAL_TEXT), DIGEST);
}

#[test]
fn canonicalizing_twice_gives_the_same() {
    let intent = object(intent_with(object(perp())));
    let first = Canonicalizer::canonicalize_intent(&intent).unwrap();
    let second = Canonicalizer::canonicalize_intent(&intent).unwrap();
    assert_eq!(first, second);
    assert_eq!(
        Canonicalizer::intent_digest(&intent).unwrap(),
        Canonicalizer::intent_digest(&intent).unwrap()
    );
    let again = Canonicalizer::canonicalize_intent(&first).unwrap();
    assert_eq!(again, first);
}

#[test]
fn order_of_keys_does_not_matter() {
    let one = object(intent_with(object(perp())));
    let mut inner = perp();
    inner.reverse();
    inner[0] = ("collateral", object(vec![("chain", text("NEAR")), ("token", text(" usdc.near "))]));
    let mut outer = intent_with(object(inner));
    outer.reverse();
    outer.swap(1, 4);
    let other = object(outer);
    assert_ne!(one, other);
    assert_eq!(
        Canonicalizer::canonicalize_intent(&one).unwrap(),
        Canonicalizer::canonicalize_intent(&other).unwrap()
    );
    assert_eq!(Canonicalizer::intent_digest(&other).unwrap(), DIGEST);
}

#[test]
fn digest_is_sixty_four_lowercase_hex_digits() {
    for input in ["", "abc", CANONICAL_TEXT, "é"] {
        let digest = Canonicalizer::compute_hash(input);
        assert_eq!(digest.len(), 64);
        assert!(digest.chars().all(|c| c.is_ascii_digit() || ('a'..='f').contains(&c)));
    }
    assert_eq!(
        Canonicalizer::compute_hash(""),
        "e3b0c44298fc1c149afbf4c8996fb92427ae41e4649b934ca495991b7852b855"
    );
    assert_eq!(
        Canonicalizer::compute_hash("é"),
        "4a99557e4033c3539de2eb65472017cad5f9557f7a0625a09f1c3f6e2ba69c4c"
    );
}

#[test]
fn extra_root_key_is_named() {
    let intent = object(with(intent_with(object(perp())), "memo", text("x")));
    let e = Canonicalizer::canonicalize_intent(&intent).unwrap_err();
    assert_eq!(e.kind(), ErrorKind::SchemaViolation);
    let expected: Vec<String> =
        ["deadline", "derivatives", "intent_type", "nonce", "signer_id", "version"]
            .iter()
            .map(|s| s.to_string())
            .collect();
    let actual: Vec<String> =
        ["deadline", "derivatives", "intent_type", "memo", "nonce", "signer_id", "version"]
            .iter()
            .map(|s| s.to_string())
            .collect();
    assert_eq!(
        e,
        CanonError::SchemaViolation { object: "intent".to_string(), expected, actual }
    );
    assert_eq!(
        e.message(),
        "Invalid root fields. Expected [deadline, derivatives, intent_type, nonce, signer_id, version], got [deadline, derivatives, intent_type, memo, nonce, signer_id, version]"
    );
}

#[test]
fn any_extra_or_missing_root_key_is_a_schema_violation() {
    for extra in ["a", "zzz", "Version", "derivative", ""] {
        let intent = object(with(intent_with(object(perp())), extra, JsonValue::Null));
        let e = Canonicalizer::canonicalize_intent(&intent).unwrap_err();
        assert_eq!(e.kind(), ErrorKind::SchemaViolation, "{extra}");
    }
    for missing in ["version", "intent_type", "derivatives", "signer_id", "deadline", "nonce"] {
        let intent = object(without(intent_with(object(perp())), missing));
        let e = Canonicalizer::canonicalize_intent(&intent).unwrap_err();
        assert_eq!(e.kind(), ErrorKind::SchemaViolation, "{missing}");
    }
    let e = Canonicalizer::canonicalize_intent(&object(vec![])).unwrap_err();
    assert_eq!(e.kind(), ErrorKind::SchemaViolation);
}

#[test]
fn intent_that_is_no_object_is_rejected() {
    for value in [JsonValue::Null, text("intent"), JsonValue::Array(vec![]), number(1)] {
        assert!(Canonicalizer::canonicalize_intent(&value).is_err());
    }
}

#[test]
fn version_and_type_are_pinned() {
    let intent = object(with(intent_with(object(perp())), "version", text("2.0.0")));
    assert_eq!(
        Canonicalizer::canonicalize_intent(&intent).unwrap_err(),
        CanonError::InvalidEnum { field: "version".to_string(), value: "2.0.0".to_string() }
    );
    let intent = object(with(intent_with(object(perp())), "intent_type", text("spot")));
    assert_eq!(
        Canonicalizer::canonicalize_intent(&intent).unwrap_err(),
        CanonError::InvalidEnum { field: "intent_type".to_string(), value: "spot".to_string() }
    );
    let intent = object(with(intent_with(object(perp())), "version", number(1)));
    assert_eq!(
        Canonicalizer::canonicalize_intent(&intent).unwrap_err(),
        CanonError::MissingField { field: "version".to_string() }
    );
}

#[test]
fn root_members_are_checked() {
    let intent = object(with(intent_with(object(perp())), "deadline", text("tomorrow")));
    assert_eq!(
        Canonicalizer::canonicalize_intent(&intent).unwrap_err().kind(),
        ErrorKind::MalformedTimestamp
    );
    let intent = object(with(intent_with(object(perp())), "nonce", JsonValue::Bool(true)));
    assert_eq!(Canonicalizer::canonicalize_intent(&intent).unwrap_err(), CanonError::InvalidNonce);
    let intent = object(with(intent_with(object(perp())), "signer_id", text("  ")));
    assert_eq!(
        Canonicalizer::canonicalize_intent(&intent).unwrap_err().kind(),
        ErrorKind::OutOfRange
    );
    let intent = object(with(intent_with(object(perp())), "derivatives", text("perp")));
    assert_eq!(
        Canonicalizer::canonicalize_intent(&intent).unwrap_err(),
        CanonError::MissingField { field: "derivatives".to_string() }
    );
}

#[test]
fn derivatives_members_are_checked() {
    let e = Canonicalizer::canonicalize_derivatives(members(&object(with(perp(), "fee", number(1)))))
        .unwrap_err();
    assert_eq!(e.kind(), ErrorKind::SchemaViolation);
    assert!(e.message().starts_with("Invalid fields in derivatives. Expected ["));
    for missing in ["instrument", "symbol", "side", "size", "collateral"] {
        let given = object(without(perp(), missing));
        let e = Canonicalizer::canonicalize_derivatives(members(&given)).unwrap_err();
        assert_eq!(e.kind(), ErrorKind::SchemaViolation, "{missing}");
    }
    let given = object(with(perp(), "instrument", text("future")));
    assert_eq!(
        Canonicalizer::canonicalize_derivatives(members(&given)).unwrap_err(),
        CanonError::InvalidEnum { field: "instrument".to_string(), value: "future".to_string() }
    );
    let given = object(with(perp(), "side", text(" Hold ")));
    assert_eq!(
        Canonicalizer::canonicalize_derivatives(members(&given)).unwrap_err(),
        CanonError::InvalidEnum { field: "side".to_string(), value: "hold".to_string() }
    );
    let given = object(with(perp(), "symbol", text("ethusd")));
    assert_eq!(
        Canonicalizer::canonicalize_derivatives(members(&given)).unwrap_err().kind(),
        ErrorKind::InvalidEnum
    );
    let given = object(with(perp(), "size", text("0")));
    assert_eq!(
        Canonicalizer::canonicalize_derivatives(members(&given)).unwrap_err().kind(),
        ErrorKind::OutOfRange
    );
    let given = object(with(perp(), "size", JsonValue::Null));
    assert_eq!(
        Canonicalizer::canonicalize_derivatives(members(&given)).unwrap_err().kind(),
        ErrorKind::MalformedDecimal
    );
    let given = object(with(perp(), "side", number(1)));
    assert_eq!(
        Canonicalizer::canonicalize_derivatives(members(&given)).unwrap_err(),
        CanonError::MissingField { field: "side".to_string() }
    );
    assert_eq!(
        Canonicalizer::canonicalize_derivatives(members(&given)).unwrap_err().message(),
        "Missing or invalid side"
    );
}

#[test]
fn every_side_and_chain_is_taken() {
    for side in ["long", "short", "buy", "sell"] {
        let given = object(with(perp(), "side", text(&side.to_uppercase())));
        let canonical = Canonicalizer::canonicalize_derivatives(members(&given)).unwrap();
        assert_eq!(canonical.get("side").unwrap().as_str(), Some(side));
    }
    for chain in ["near", "ethereum", "arbitrum", "base", "solana"] {
        let collateral = object(vec![("token", text("USDC")), ("chain", text(&format!(" {chain} ")))]);
        let canonical = Canonicalizer::canonicalize_collateral(members(&collateral)).unwrap();
        assert_eq!(canonical, object(vec![("chain", text(chain)), ("token", text("USDC"))]));
    }
}

#[test]
fn leverage_is_a_decimal_from_one_to_a_hundred() {
    let given = object(with(perp(), "leverage", text("10.50")));
    let canonical = Canonicalizer::canonicalize_derivatives(members(&given)).unwrap();
    assert_eq!(canonical.get("leverage").unwrap().as_str(), Some("10.5"));
    let given = object(with(perp(), "leverage", number(100)));
    let canonical = Canonicalizer::canonicalize_derivatives(members(&given)).unwrap();
    assert_eq!(canonical.get("leverage").unwrap().as_str(), Some("100"));
    let given = object(with(perp(), "leverage", text("0.5")));
    assert_eq!(
        Canonicalizer::canonicalize_derivatives(members(&given)).unwrap_err(),
        CanonError::OutOfRange { literal: "0.5".to_string() }
    );
    let given = object(with(perp(), "leverage", text("2.125")));
    assert_eq!(
        Canonicalizer::canonicalize_derivatives(members(&given)).unwrap_err().kind(),
        ErrorKind::PrecisionExceeded
    );
    let given = object(with(perp(), "leverage", JsonValue::Null));
    assert_eq!(
        Canonicalizer::canonicalize_derivatives(members(&given)).unwrap_err().kind(),
        ErrorKind::MalformedDecimal
    );
}

#[test]
fn collateral_keeps_the_case_of_the_token() {
    let collateral = object(vec![("chain", text("Base")), ("token", text("  0xAbCd  "))]);
    assert_eq!(
        Canonicalizer::canonicalize_collateral(members(&collateral)).unwrap(),
        object(vec![("chain", text("base")), ("token", text("0xAbCd"))])
    );
    let collateral = object(vec![("chain", text("polygon")), ("token", text("USDC"))]);
    assert_eq!(
        Canonicalizer::canonicalize_collateral(members(&collateral)).unwrap_err(),
        CanonError::InvalidEnum { field: "chain".to_string(), value: "polygon".to_string() }
    );
    let collateral = object(vec![("chain", text("near"))]);
    let e = Canonicalizer::canonicalize_collateral(members(&collateral)).unwrap_err();
    assert_eq!(e.kind(), ErrorKind::SchemaViolation);
    assert_eq!(e.message(), "Invalid fields in collateral. Expected [chain, token], got [chain]");
    let collateral = object(vec![("chain", text("near")), ("token", number(1))]);
    assert_eq!(
        Canonicalizer::canonicalize_collateral(members(&collateral)).unwrap_err(),
        CanonError::MissingField { field: "token".to_string() }
    );
}

fn call() -> Vec<(&'static str, JsonValue)> {
    vec![
        ("kind", text(" CALL ")),
        ("strike", text("3000.00")),
        ("expiry", text("2024-12-31T00:00:00.000Z")),
    ]
}

#[test]
fn option_gets_its_canonical_form() {
    assert_eq!(
        Canonicalizer::canonicalize_option(members(&object(call()))).unwrap(),
        object(vec![
            ("expiry", text("2024-12-31T00:00:00Z")),
            ("kind", text("call")),
            ("strike", text("3000")),
        ])
    );
}

#[test]
fn option_members_are_checked() {
    let given = object(with(call(), "kind", text("straddle")));
    assert_eq!(
        Canonicalizer::canonicalize_option(members(&given)).unwrap_err(),
        CanonError::InvalidEnum { field: "kind".to_string(), value: "straddle".to_string() }
    );
    let given = object(with(call(), "strike", text("0.001")));
    assert_eq!(
        Canonicalizer::canonicalize_option(members(&given)).unwrap_err().kind(),
        ErrorKind::OutOfRange
    );
    let given = object(with(call(), "strike", text("1000000000.01")));
    assert_eq!(
        Canonicalizer::canonicalize_option(members(&given)).unwrap_err().kind(),
        ErrorKind::OutOfRange
    );
    let given = object(with(call(), "strike", text("10.125")));
    assert_eq!(
        Canonicalizer::canonicalize_option(members(&given)).unwrap_err().kind(),
        ErrorKind::PrecisionExceeded
    );
    let given = object(with(call(), "expiry", text("2024-12-31")));
    assert_eq!(
        Canonicalizer::canonicalize_option(members(&given)).unwrap_err().kind(),
        ErrorKind::MalformedTimestamp
    );
    let given = object(without(call(), "strike"));
    assert_eq!(
        Canonicalizer::canonicalize_option(members(&given)).unwrap_err().kind(),
        ErrorKind::SchemaViolation
    );
    let given = object(with(call(), "style", text("european")));
    assert_eq!(
        Canonicalizer::canonicalize_option(members(&given)).unwrap_err().kind(),
        ErrorKind::SchemaViolation
    );
}

#[test]
fn option_goes_with_the_instrument() {
    let given = object(with(with(perp(), "instrument", text("Option")), "option", object(call())));
    let canonical = Canonicalizer::canonicalize_derivatives(members(&given)).unwrap();
    assert_eq!(canonical.get("instrument").unwrap().as_str(), Some("option"));
    assert_eq!(
        canonical.get("option").unwrap(),
        &object(vec![
            ("expiry", text("2024-12-31T00:00:00Z")),
            ("kind", text("call")),
            ("strike", text("3000")),
        ])
    );
    let given = object(with(perp(), "instrument", text("option")));
    assert_eq!(
        Canonicalizer::canonicalize_derivatives(members(&given)).unwrap_err(),
        CanonError::MissingField { field: "option".to_string() }
    );
    let given = object(with(perp(), "option", object(call())));
    let canonical = Canonicalizer::canonicalize_derivatives(members(&given)).unwrap();
    assert_eq!(canonical.get("option").unwrap(), &JsonValue::Null);
}

#[test]
fn absent_constraints_are_the_default_ones() {
    assert_eq!(Canonicalizer::canonicalize_constraints(None).unwrap(), default_constraints());
    let empty = object(vec![]);
    assert_eq!(
        Canonicalizer::canonicalize_constraints(Some(members(&empty))).unwrap(),
        default_constraints()
    );
}

#[test]
fn each_constraint_has_its_own_default() {
    let given = object(vec![("max_fee_bps", number(10))]);
    assert_eq!(
        Canonicalizer::canonicalize_constraints(Some(members(&given))).unwrap(),
        object(vec![
            ("max_fee_bps", number(10)),
            ("max_funding_bps_8h", number(50)),
            ("max_slippage_bps", number(100)),
            ("venue_allowlist", list(&[])),
        ])
    );
    let given = object(vec![("venue_allowlist", list(&["b", "a"])), ("max_slippage_bps", number(0))]);
    assert_eq!(
        Canonicalizer::canonicalize_constraints(Some(members(&given))).unwrap(),
        object(vec![
            ("max_fee_bps", number(30)),
            ("max_funding_bps_8h", number(50)),
            ("max_slippage_bps", number(0)),
            ("venue_allowlist", list(&["a", "b"])),
        ])
    );
}

#[test]
fn constraints_are_bounded() {
    let given = object(vec![("max_fee_bps", number(100)), ("max_slippage_bps", number(1000))]);
    assert!(Canonicalizer::canonicalize_constraints(Some(members(&given))).is_ok());
    let given = object(vec![("max_fee_bps", number(101))]);
    assert_eq!(
        Canonicalizer::canonicalize_constraints(Some(members(&given))).unwrap_err(),
        CanonError::OutOfRange { literal: "101".to_string() }
    );
    let given = object(vec![("max_funding_bps_8h", number(101))]);
    assert_eq!(
        Canonicalizer::canonicalize_constraints(Some(members(&given))).unwrap_err().kind(),
        ErrorKind::OutOfRange
    );
    let given = object(vec![("max_slippage_bps", number(1001))]);
    assert_eq!(
        Canonicalizer::canonicalize_constraints(Some(members(&given))).unwrap_err().kind(),
        ErrorKind::OutOfRange
    );
    let given = object(vec![("max_fee_bps", text("30"))]);
    assert_eq!(
        Canonicalizer::canonicalize_constraints(Some(members(&given))).unwrap_err(),
        CanonError::MissingField { field: "max_fee_bps".to_string() }
    );
    let given = object(vec![("venue_allowlist", text("gmx"))]);
    assert_eq!(
        Canonicalizer::canonicalize_constraints(Some(members(&given))).unwrap_err(),
        CanonError::MissingField { field: "venue_allowlist".to_string() }
    );
    let given = object(vec![("venue_allowlist", JsonValue::Array(vec![text("gmx"), number(1)]))]);
    assert_eq!(
        Canonicalizer::canonicalize_constraints(Some(members(&given))).unwrap_err().kind(),
        ErrorKind::MissingField
    );
    let given = object(vec![("max_gas", number(1))]);
    let e = Canonicalizer::canonicalize_constraints(Some(members(&given))).unwrap_err();
    assert_eq!(e.kind(), ErrorKind::SchemaViolation);
    assert!(e.message().starts_with("Unknown constraint field. Expected ["));
}

#[test]
fn venues_are_sorted_and_told_apart() {
    for (given, expected) in [
        (vec!["GMX-V2", "aevo", "gmx-v2", "AEVO"], vec!["aevo", "gmx-v2"]),
        (vec![], vec![]),
        (vec!["x", "x", "x"], vec!["x"]),
        (vec![" b ", "a", "B", "c", "A", "b"], vec!["a", "b", "c"]),
        (vec!["lyra", "Lyra-v2", "lyr"], vec!["lyr", "lyra", "lyra-v2"]),
        (vec!["z", "é", "a"], vec!["a", "z", "é"]),
    ] {
        let constraints = object(vec![("venue_allowlist", list(&given))]);
        let canonical = Canonicalizer::canonicalize_constraints(Some(members(&constraints))).unwrap();
        assert_eq!(canonical.get("venue_allowlist").unwrap(), &list(&expected));
    }
}

#[test]
fn members_are_found_by_their_key() {
    let given = object(perp());
    assert_eq!(find(members(&given), "side"), Some(&text("LONG")));
    assert_eq!(find(members(&given), "Side"), None);
    assert_eq!(given.get("size").unwrap().as_str(), Some("1.50000"));
    assert!(given.get("collateral").unwrap().as_object().is_some());
    assert!(text("x").get("x").is_none());
    assert_eq!(number(7).as_u64(), Some(7));
    assert_eq!(JsonValue::Number(JsonNumber::Signed(7)).as_u64(), Some(7));
    assert_eq!(JsonValue::Number(JsonNumber::Signed(-7)).as_u64(), None);
    assert_eq!(text("7").as_u64(), None);
    assert!(list(&["a"]).as_array().is_some());
    assert!(text("a").as_array().is_none());
}

#[test]
fn json_text_is_read() {
    let read = JsonValue::from_text(
        " { \"b\" : [1, -2, 1.5, true, null], \"a\" : \"x\\ny \\u00e9\" } ",
    )
    .unwrap();
    assert_eq!(read.as_object().unwrap().len(), 2);
    assert_eq!(read.get("a"), Some(&text("x\ny é")));
    assert_eq!(
        read.get("b"),
        Some(&JsonValue::Array(vec![
            number(1),
            JsonValue::Number(JsonNumber::Signed(-2)),
            JsonValue::Number(JsonNumber::Real("1.5".to_string())),
            JsonValue::Bool(true),
            JsonValue::Null,
        ]))
    );
    assert_eq!(
        JsonValue::from_text("{\"a\":{\"b\":[{\"c\":18446744073709551615}]}}"),
        Some(object(vec![(
            "a",
            object(vec![("b", JsonValue::Array(vec![object(vec![("c", number(u64::MAX))])]))])
        )]))
    );
    assert_eq!(JsonValue::from_text("{"), None);
    assert_eq!(JsonValue::from_text(""), None);
    assert_eq!(JsonValue::from_text("{\"a\":1} x"), None);
    assert_eq!(JsonValue::from_text("\"abc\""), Some(text("abc")));
    assert_eq!(JsonValue::from_text(" null "), Some(JsonValue::Null));
}

#[test]
fn json_text_is_written() {
    let value = object(vec![
        ("a", text("x\ny \"é\"")),
        ("b", JsonValue::Array(vec![number(1), JsonValue::Number(JsonNumber::Signed(-2)), JsonValue::Null])),
        ("c", object(vec![("d", JsonValue::Bool(false))])),
    ]);
    assert_eq!(
        value.to_text().unwrap(),
        "{\"a\":\"x\\ny \\\"é\\\"\",\"b\":[1,-2,null],\"c\":{\"d\":false}}"
    );
    assert_eq!(JsonValue::from_text(&value.to_text().unwrap()), Some(value));
    assert_eq!(text("plain").to_text().unwrap(), "\"plain\"");
}

#[test]
fn only_sorted_objects_are_written_as_canonical_text() {
    let unsorted = object(vec![("b", number(1)), ("a", number(2))]);
    assert_eq!(unsorted.to_text(), None);
    let twice = object(vec![("a", number(1)), ("a", number(2))]);
    assert_eq!(twice.to_text(), None);
    let nested = JsonValue::Array(vec![object(vec![("b", number(1)), ("a", number(2))])]);
    assert_eq!(nested.to_text(), None);
    let real = JsonValue::Number(JsonNumber::Real("1.5".to_string()));
    assert_eq!(real.to_text(), None);
    assert_eq!(object(vec![]).to_text().unwrap(), "{}");
    assert_eq!(JsonValue::Array(vec![]).to_text().unwrap(), "[]");
}

#[test]
fn any_document_is_written_as_it_is_held() {
    let value = object(vec![
        ("b", number(1)),
        ("a\"", text("x\ny")),
        (
            "list",
            JsonValue::Array(vec![
                JsonValue::Null,
                JsonValue::Bool(true),
                JsonValue::Bool(false),
                JsonValue::Number(JsonNumber::Signed(-12)),
                JsonValue::Number(JsonNumber::Real("1.5".to_string())),
                object(vec![("z", JsonValue::Array(vec![])), ("y", object(vec![]))]),
            ]),
        ),
    ]);
    assert_eq!(
        value.to_held_text(),
        "{\"b\":1,\"a\\\"\":\"x\\ny\",\"list\":[null,true,false,-12,1.5,{\"z\":[],\"y\":{}}]}"
    );
    let read = JsonValue::from_text(&value.to_held_text()).unwrap();
    assert_eq!(read.get("b"), value.get("b"));
    assert_eq!(read.get("a\""), value.get("a\""));
    assert_eq!(read.get("list").unwrap().as_array().unwrap().len(), 6);
    let sorted = object(vec![("a", number(1)), ("b", JsonValue::Array(vec![text("c"), number(2)]))]);
    assert_eq!(sorted.to_text().unwrap(), sorted.to_held_text());
}

#[test]
fn intent_text_has_its_digest() {
    let written = "{\"nonce\":12345,\"deadline\":\"2024-01-23T11:00:00.000Z\",\"signer_id\":\"Alice.NEAR\",\"derivatives\":{\"collateral\":{\"token\":\" usdc.near \",\"chain\":\"NEAR\"},\"size\":\"1.50000\",\"side\":\"LONG\",\"symbol\":\"eth-usd\",\"instrument\":\"PERP\"},\"intent_type\":\"derivatives\",\"version\":\"1.0.0\"}";
    assert_eq!(Canonicalizer::compute_intent_hash(written).unwrap(), DIGEST);
    assert_eq!(Canonicalizer::compute_intent_hash(CANONICAL_TEXT).unwrap(), DIGEST);
}

#[test]
fn text_that_is_no_intent_has_no_digest() {
    assert_eq!(Canonicalizer::compute_intent_hash("{\"version\":"), Err(HashRefusal::NotJson));
    match Canonicalizer::compute_intent_hash("{\"version\":\"1.0.0\"}") {
        Err(HashRefusal::Rejected(e)) => assert_eq!(e.kind(), ErrorKind::SchemaViolation),
        other => panic!("{other:?}"),
    }
    match Canonicalizer::compute_intent_hash("[]") {
        Err(HashRefusal::Rejected(_)) => {}
        other => panic!("{other:?}"),
    }
}

#[test]
fn batch_has_a_digest_for_each_intent() {
    let batch = format!("[{CANONICAL_TEXT}, {CANONICAL_TEXT}]");
    assert_eq!(
        Canonicalizer::compute_batch_hashes(&batch).unwrap(),
        vec![DIGEST.to_string(), DIGEST.to_string()]
    );
    assert_eq!(Canonicalizer::compute_batch_hashes("[]").unwrap(), Vec::<String>::new());
    assert_eq!(Canonicalizer::compute_batch_hashes(CANONICAL_TEXT), Err(HashRefusal::NotJson));
    assert_eq!(Canonicalizer::compute_batch_hashes("[1,"), Err(HashRefusal::NotJson));
    let broken = format!("[{CANONICAL_TEXT}, {{\"version\":\"1.0.0\"}}, 5]");
    match Canonicalizer::compute_batch_hashes(&broken) {
        Err(HashRefusal::Rejected(e)) => assert_eq!(e.kind(), ErrorKind::SchemaViolation),
        other => panic!("{other:?}"),
    }
    let intents = vec![object(intent_with(object(perp())))];
    assert_eq!(Canonicalizer::batch_digests(&intents).unwrap(), vec![DIGEST.to_string()]);
}
