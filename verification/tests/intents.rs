use near_intents_derivatives::canonicalization::Canonicalizer;
use near_intents_derivatives::events::{EventEmitter, IntentSubmittedData, Nep297Event};
use near_intents_derivatives::host::{ExecutionLog, IntentMetadata};
use near_intents_derivatives::intent::{
    CollateralInfo, Constraints, DerivativesAction, DerivativesIntent,
};
use near_intents_derivatives::json::{JsonNumber, JsonValue};

fn text(s: &str) -> JsonValue {
    JsonValue::String(s.to_string())
}

fn number(n: u64) -> JsonValue {
    JsonValue::Number(JsonNumber::Unsigned(n))
}

fn object(members: Vec<(&str, JsonValue)>) -> JsonValue {
    JsonValue::Object(members.into_iter().map(|(k, v)| (k.to_string(), v)).collect())
}

fn members(value: &JsonValue) -> &Vec<(String, JsonValue)> {
    value.as_object().unwrap()
}

fn create_test_intent() -> DerivativesIntent {
    DerivativesIntent {
        version: "1.0.0".to_string(),
        intent_type: "derivatives".to_string(),
        derivatives: DerivativesAction {
            collateral: CollateralInfo { token: "USDC".to_string(), chain: "near".to_string() },
            constraints: Some(Constraints {
                max_fee_bps: Some(30),
                max_funding_bps_8h: Some(50),
                max_slippage_bps: Some(100),
                venue_allowlist: Some(vec!["binance".to_string(), "okx".to_string()]),
            }),
            instrument: "perp".to_string(),
            side: "long".to_string(),
            size: "1000.0".to_string(),
            symbol: "BTC-USD".to_string(),
            leverage: Some("10.0".to_string()),
            option: None,
        },
        signer_id: "bob.near".to_string(),
        deadline: "2025-12-31T23:59:59Z".to_string(),
        nonce: "12345".to_string(),
    }
}

#[test]
fn test_strict_field_validation() {
    let intent = object(vec![
        ("version", text("1.0.0")),
        ("intent_type", text("derivatives")),
        ("extra_field", text("should fail")),
        (
            "derivatives",
            object(vec![
                ("instrument", text("perp")),
                ("symbol", text("ETH-USD")),
                ("side", text("long")),
                ("size", text("1")),
                ("collateral", object(vec![("token", text("usdc.near")), ("chain", text("near"))])),
            ]),
        ),
        ("signer_id", text("alice.near")),
        ("deadline", text("2024-01-23T11:00:00Z")),
        ("nonce", text("123")),
    ]);

    let result = Canonicalizer::canonicalize_intent(&intent);
    assert!(result.is_err());
    assert!(result.unwrap_err().message().contains("Invalid root fields"));
}

#[test]
fn test_venue_allowlist_deduplication() {
    let constraints = object(vec![(
        "venue_allowlist",
        JsonValue::Array(vec![text("GMX-V2"), text("aevo"), text("gmx-v2"), text("AEVO")]),
    )]);

    let result = Canonicalizer::canonicalize_constraints(Some(members(&constraints))).unwrap();

    let venues = result.get("venue_allowlist").unwrap().as_array().unwrap();

    assert_eq!(venues.len(), 2);
    assert_eq!(venues[0], text("aevo"));
    assert_eq!(venues[1], text("gmx-v2"));
}

#[test]
fn test_unknown_constraint_field() {
    let constraints = object(vec![("max_slippage_bps", number(50)), ("unknown_field", text("bad"))]);

    let result = Canonicalizer::canonicalize_constraints(Some(members(&constraints)));

    assert!(result.is_err());
    assert!(result.unwrap_err().message().contains("Unknown constraint field"));
}

#[test]
fn test_full_canonicalization() {
    let intent = object(vec![
        ("version", text("1.0.0")),
        ("intent_type", text("derivatives")),
        (
            "derivatives",
            object(vec![
                ("instrument", text("PERP")),
                ("symbol", text("eth-usd")),
                ("side", text("LONG")),
                ("size", text("1.50000")),
                ("leverage", text("10.00")),
                (
                    "constraints",
                    object(vec![
                        ("max_slippage_bps", number(20)),
                        (
                            "venue_allowlist",
                            JsonValue::Array(vec![text("HYPERLIQUID"), text("gmx-v2"), text("gmx-v2")]),
                        ),
                    ]),
                ),
                ("collateral", object(vec![("token", text(" usdc.near ")), ("chain", text("NEAR"))])),
            ]),
        ),
        ("signer_id", text("Alice.NEAR")),
        ("deadline", text("2024-01-23T11:00:00.000Z")),
        ("nonce", number(12345)),
    ]);

    let canonical = Canonicalizer::canonicalize_intent(&intent).unwrap();

    let deriv = canonical.get("derivatives").unwrap();
    assert_eq!(deriv.get("instrument").unwrap().as_str(), Some("perp"));
    assert_eq!(deriv.get("symbol").unwrap().as_str(), Some("ETH-USD"));
    assert_eq!(deriv.get("side").unwrap().as_str(), Some("long"));
    assert_eq!(deriv.get("size").unwrap().as_str(), Some("1.5"));
    assert_eq!(deriv.get("leverage").unwrap().as_str(), Some("10"));

    let collateral = deriv.get("collateral").unwrap();
    assert_eq!(collateral.get("chain").unwrap().as_str(), Some("near"));
    assert_eq!(collateral.get("token").unwrap().as_str(), Some("usdc.near"));

    assert_eq!(canonical.get("signer_id").unwrap().as_str(), Some("alice.near"));
    assert_eq!(canonical.get("deadline").unwrap().as_str(), Some("2024-01-23T11:00:00Z"));
    assert_eq!(canonical.get("nonce").unwrap().as_str(), Some("12345"));
}

#[test]
fn test_event_format() {
    let event = Nep297Event::new("test_event", vec![object(vec![("key", text("value"))])]);

    let parsed = event.into_document();

    assert_eq!(parsed.get("standard").unwrap().as_str(), Some("deltanear_derivatives"));
    assert_eq!(parsed.get("version").unwrap().as_str(), Some("1.0.0"));
    assert_eq!(parsed.get("event").unwrap().as_str(), Some("test_event"));
    assert!(parsed.get("data").unwrap().as_array().is_some());
    assert_eq!(parsed.get("data").unwrap().as_array().unwrap().len(), 1);
}

#[test]
fn test_timestamp_format() {
    let data = IntentSubmittedData {
        intent_hash: "test".to_string(),
        signer_id: "alice.near".to_string(),
        instrument: "perp".to_string(),
        symbol: "ETH-USD".to_string(),
        side: "long".to_string(),
        size: "1.5".to_string(),
        timestamp_ns: 1_000_000_000_000_000,
    };

    let json = data.to_document();
    assert_eq!(json.get("timestamp_ns").unwrap().as_u64(), Some(1_000_000_000_000_000u64));
    let line = EventEmitter::emit_intent_submitted(&data);
    assert_eq!(
        line,
        "EVENT_JSON:{\"standard\":\"deltanear_derivatives\",\"version\":\"1.0.0\",\"event\":\"intent_submitted\",\"data\":[{\"intent_hash\":\"test\",\"signer_id\":\"alice.near\",\"instrument\":\"perp\",\"symbol\":\"ETH-USD\",\"side\":\"long\",\"size\":\"1.5\",\"timestamp_ns\":1000000000000000}]}"
    );
}

#[test]
fn test_constraints_defaults() {
    let constraints = Constraints {
        max_fee_bps: Some(30),
        max_funding_bps_8h: Some(50),
        max_slippage_bps: Some(100),
        venue_allowlist: Some(vec!["binance".to_string(), "okx".to_string()]),
    };

    assert_eq!(constraints.max_fee_bps, Some(30));
    assert_eq!(constraints.max_funding_bps_8h, Some(50));
    assert_eq!(constraints.max_slippage_bps, Some(100));
    assert_eq!(constraints.venue_allowlist.unwrap().len(), 2);
}

#[test]
fn test_constraints_max_values() {
    let constraints = Constraints {
        max_fee_bps: Some(100),
        max_funding_bps_8h: Some(100),
        max_slippage_bps: Some(1000),
        venue_allowlist: Some(vec![]),
    };

    assert!(constraints.max_fee_bps.unwrap() <= 100);
    assert!(constraints.max_funding_bps_8h.unwrap() <= 100);
    assert!(constraints.max_slippage_bps.unwrap() <= 1000);
    let document = constraints.to_document();
    assert!(Canonicalizer::canonicalize_constraints(Some(members(&document))).is_ok());
}

#[test]
fn test_collateral_chains() {
    let chains = vec!["near", "ethereum", "arbitrum", "base", "solana"];

    for chain in chains {
        let collateral = CollateralInfo { token: "USDC".to_string(), chain: chain.to_string() };
        assert!(!collateral.chain.is_empty());
        assert!(!collateral.token.is_empty());
        let document = collateral.to_document();
        assert!(Canonicalizer::canonicalize_collateral(members(&document)).is_ok());
    }
}

#[test]
fn test_option_derivatives() {
    let derivatives = DerivativesAction {
        collateral: CollateralInfo { token: "USDC".to_string(), chain: "ethereum".to_string() },
        constraints: Some(Constraints {
            max_fee_bps: Some(30),
            max_funding_bps_8h: Some(50),
            max_slippage_bps: Some(100),
            venue_allowlist: Some(vec!["deribit".to_string()]),
        }),
        instrument: "option".to_string(),
        side: "buy".to_string(),
        size: "10.0".to_string(),
        symbol: "ETH-USD".to_string(),
        leverage: Some("1.0".to_string()),
        option: None,
    };

    assert_eq!(derivatives.instrument, "option");
    assert_eq!(derivatives.side, "buy");
}

#[test]
fn test_derivatives_data_perp() {
    let derivatives = DerivativesAction {
        collateral: CollateralInfo { token: "USDC".to_string(), chain: "near".to_string() },
        constraints: Some(Constraints {
            max_fee_bps: Some(30),
            max_funding_bps_8h: Some(50),
            max_slippage_bps: Some(100),
            venue_allowlist: Some(vec!["binance".to_string()]),
        }),
        instrument: "perp".to_string(),
        side: "long".to_string(),
        size: "1000.0".to_string(),
        symbol: "BTC-USD".to_string(),
        leverage: Some("10.0".to_string()),
        option: None,
    };

    assert_eq!(derivatives.instrument, "perp");
    assert_eq!(derivatives.leverage, Some("10.0".to_string()));
}

#[test]
fn test_derivatives_data_option() {
    let derivatives = DerivativesAction {
        collateral: CollateralInfo { token: "USDT".to_string(), chain: "ethereum".to_string() },
        constraints: Some(Constraints {
            max_fee_bps: Some(25),
            max_funding_bps_8h: Some(40),
            max_slippage_bps: Some(75),
            venue_allowlist: Some(vec!["deribit".to_string()]),
        }),
        instrument: "option".to_string(),
        side: "buy".to_string(),
        size: "10.0".to_string(),
        symbol: "ETH-USD".to_string(),
        leverage: Some("1.0".to_string()),
        option: None,
    };

    assert_eq!(derivatives.instrument, "option");
    assert_eq!(derivatives.leverage, Some("1.0".to_string()));
}

#[test]
fn test_intent_metadata() {
    let metadata = IntentMetadata {
        intent_hash: "abc123".to_string(),
        solver_id: "bob.near".to_string(),
        instrument: "perp".to_string(),
        symbol: "BTC-USD".to_string(),
        side: "long".to_string(),
        size: "1000.0".to_string(),
        leverage: None,
        strike: None,
        expiry: None,
        created_at: 1000000000,
    };

    assert_eq!(metadata.intent_hash, "abc123");
    assert_eq!(metadata.solver_id, "bob.near".to_string());
    assert_eq!(metadata.instrument, "perp");
    assert_eq!(metadata.symbol, "BTC-USD");
    assert_eq!(metadata.side, "long");
    assert_eq!(metadata.size, "1000.0");
    assert_eq!(metadata.created_at, 1000000000);
}

#[test]
fn test_execution_log() {
    let log = ExecutionLog {
        intent_hash: "abc123".to_string(),
        solver_id: "bob.near".to_string(),
        venue: "binance".to_string(),
        fill_price: "50000.0".to_string(),
        notional: 50000,
        fees_bps: 30,
        pnl: None,
        status: "completed".to_string(),
        timestamp: 1000000000,
    };

    assert_eq!(log.intent_hash, "abc123");
    assert_eq!(log.solver_id, "bob.near".to_string());
    assert_eq!(log.venue, "binance");
    assert_eq!(log.fill_price, "50000.0");
    assert_eq!(log.notional, 50000);
    assert_eq!(log.fees_bps, 30);
    assert_eq!(log.status, "completed");
    assert_eq!(log.timestamp, 1000000000);
}

#[test]
fn test_json_serialization() {
    let intent = create_test_intent();

    let json_value = intent.to_document();
    assert!(json_value.as_object().is_some());
    assert_eq!(json_value.get("version").unwrap().as_str(), Some("1.0.0"));
    assert_eq!(json_value.get("intent_type").unwrap().as_str(), Some("derivatives"));
    let derivatives = json_value.get("derivatives").unwrap();
    assert_eq!(derivatives.get("symbol").unwrap().as_str(), Some("BTC-USD"));
    assert_eq!(derivatives.get("collateral").unwrap().get("chain").unwrap().as_str(), Some("near"));
    assert_eq!(
        derivatives.get("constraints").unwrap().get("max_fee_bps").unwrap().as_u64(),
        Some(30)
    );
}

#[test]
fn test_venue_allowlist() {
    let intent = create_test_intent();
    let venues = intent.derivatives.constraints.as_ref().unwrap().venue_allowlist.as_ref().unwrap();

    assert_eq!(venues.len(), 2);
    assert!(venues.contains(&"binance".to_string()));
    assert!(venues.contains(&"okx".to_string()));

    for venue in venues {
        assert_eq!(venue.to_lowercase(), *venue);
    }
}

#[test]
fn test_timestamp_normalization() {
    let ts_with_ms = "2024-01-23T11:00:00.123Z";
    let normalized = Canonicalizer::normalize_timestamp(ts_with_ms).unwrap();
    assert_eq!(normalized, "2024-01-23T11:00:00Z");

    let ts_with_offset = "2024-01-23T11:00:00+00:00";
    let result = Canonicalizer::normalize_timestamp(ts_with_offset);
    assert!(result.is_err());
}

#[test]
fn test_decimal_canonicalization() {
    let sci = text("1e6");
    let result = Canonicalizer::canonicalize_decimal(&sci, "0", "10000000", 8);
    assert!(result.is_err());

    let leading = text("00.5");
    let result = Canonicalizer::canonicalize_decimal(&leading, "0", "1", 8);
    assert!(result.is_err());

    let positive = text("+10");
    let result = Canonicalizer::canonicalize_decimal(&positive, "0", "100", 2);
    assert!(result.is_err());

    let valid = text("1.50000");
    let result = Canonicalizer::canonicalize_decimal(&valid, "0", "100", 8).unwrap();
    assert_eq!(result, text("1.5"));
}
