use near_intents_derivatives::events::{
    EventEmitter, ExecutionLoggedData, IntentSubmittedData, Nep297Event, SettlementCompletedData,
    SettlementInitiatedData, SimulationCompletedData, SolverAssignedData,
};
use near_intents_derivatives::json::{JsonNumber, JsonValue};

fn text(s: &str) -> JsonValue {
    JsonValue::String(s.to_string())
}

fn number(n: u64) -> JsonValue {
    JsonValue::Number(JsonNumber::Unsigned(n))
}

fn object(members: Vec<(&str, JsonValue)>) -> JsonValue {
    JsonValue::Object(members.into_iter().map(|(k, v)| (k.to_string(), v)).collect())
}

fn line(event: &str, data: &str) -> String {
    format!(
        "EVENT_JSON:{{\"standard\":\"deltanear_derivatives\",\"version\":\"1.0.0\",\"event\":\"{event}\",\"data\":[{data}]}}"
    )
}

#[test]
fn line_of_a_submitted_intent() {
    let data = IntentSubmittedData {
        intent_hash: "abc".to_string(),
        signer_id: "alice.near".to_string(),
        instrument: "perp".to_string(),
        symbol: "ETH-USD".to_string(),
        side: "long".to_string(),
        size: "1.5".to_string(),
        timestamp_ns: 1_700_000_000_000_000_000,
    };
    assert_eq!(
        EventEmitter::emit_intent_submitted(&data),
        line(
            "intent_submitted",
            "{\"intent_hash\":\"abc\",\"signer_id\":\"alice.near\",\"instrument\":\"perp\",\"symbol\":\"ETH-USD\",\"side\":\"long\",\"size\":\"1.5\",\"timestamp_ns\":1700000000000000000}"
        )
    );
}

#[test]
fn line_of_a_logged_execution() {
    let data = ExecutionLoggedData {
        intent_hash: "abc".to_string(),
        solver_id: "solver.near".to_string(),
        venue: "gmx-v2".to_string(),
        fill_price: "3650.50".to_string(),
        notional: "5475.75".to_string(),
        status: "filled".to_string(),
        timestamp_ns: 9,
    };
    assert_eq!(
        EventEmitter::emit_execution_logged(&data),
        line(
            "execution_logged",
            "{\"intent_hash\":\"abc\",\"solver_id\":\"solver.near\",\"venue\":\"gmx-v2\",\"fill_price\":\"3650.50\",\"notional\":\"5475.75\",\"status\":\"filled\",\"timestamp_ns\":9}"
        )
    );
}

#[test]
fn line_of_an_assigned_solver() {
    let data = SolverAssignedData {
        intent_hash: "abc".to_string(),
        solver_id: "solver.near".to_string(),
        timestamp_ns: 0,
    };
    assert_eq!(
        EventEmitter::emit_solver_assigned(&data),
        line(
            "solver_assigned",
            "{\"intent_hash\":\"abc\",\"solver_id\":\"solver.near\",\"timestamp_ns\":0}"
        )
    );
}

#[test]
fn line_of_a_completed_simulation() {
    let data = SimulationCompletedData {
        intent_hash: "abc".to_string(),
        simulation_hash: "def".to_string(),
        success: true,
        error_message: None,
        timestamp_ns: u64::MAX,
    };
    assert_eq!(
        EventEmitter::emit_simulation_completed(&data),
        line(
            "simulation_completed",
            "{\"intent_hash\":\"abc\",\"simulation_hash\":\"def\",\"success\":true,\"error_message\":null,\"timestamp_ns\":18446744073709551615}"
        )
    );
    let data = SimulationCompletedData {
        success: false,
        error_message: Some("the \"book\" is thin".to_string()),
        ..data
    };
    assert_eq!(
        EventEmitter::emit_simulation_completed(&data),
        line(
            "simulation_completed",
            "{\"intent_hash\":\"abc\",\"simulation_hash\":\"def\",\"success\":false,\"error_message\":\"the \\\"book\\\" is thin\",\"timestamp_ns\":18446744073709551615}"
        )
    );
}

#[test]
fn line_of_a_settlement() {
    let diff = object(vec![("account_id", text("alice.near")), ("amount_delta", text("-5"))]);
    let data = SettlementInitiatedData {
        intent_hash: "abc".to_string(),
        token_diff: diff,
        timestamp_ns: 3,
    };
    assert_eq!(
        EventEmitter::emit_settlement_initiated(data),
        line(
            "settlement_initiated",
            "{\"intent_hash\":\"abc\",\"token_diff\":{\"account_id\":\"alice.near\",\"amount_delta\":\"-5\"},\"timestamp_ns\":3}"
        )
    );
    let unsorted = object(vec![("token_id", text("usdc")), ("account_id", text("alice.near"))]);
    let data = SettlementInitiatedData {
        intent_hash: "abc".to_string(),
        token_diff: unsorted,
        timestamp_ns: 3,
    };
    assert_eq!(
        EventEmitter::emit_settlement_initiated(data),
        line(
            "settlement_initiated",
            "{\"intent_hash\":\"abc\",\"token_diff\":{\"token_id\":\"usdc\",\"account_id\":\"alice.near\"},\"timestamp_ns\":3}"
        )
    );
    let data = SettlementCompletedData {
        intent_hash: "abc".to_string(),
        tx_hash: "0xfeed".to_string(),
        timestamp_ns: 4,
    };
    assert_eq!(
        EventEmitter::emit_settlement_completed(&data),
        line(
            "settlement_completed",
            "{\"intent_hash\":\"abc\",\"tx_hash\":\"0xfeed\",\"timestamp_ns\":4}"
        )
    );
}

#[test]
fn line_of_any_event() {
    assert_eq!(
        EventEmitter::emit_event("test_event", object(vec![("key", text("value"))])),
        line("test_event", "{\"key\":\"value\"}")
    );
    assert_eq!(
        EventEmitter::emit_event("a\"b", number(5)),
        "EVENT_JSON:{\"standard\":\"deltanear_derivatives\",\"version\":\"1.0.0\",\"event\":\"a\\\"b\",\"data\":[5]}"
    );
    let real = JsonValue::Number(JsonNumber::Real("1.5".to_string()));
    assert_eq!(
        EventEmitter::emit_event("test_event", object(vec![("key", real)])),
        line("test_event", "{\"key\":1.5}")
    );
}

#[test]
fn record_holds_standard_and_version() {
    let event = Nep297Event::new("test_event", vec![number(1), number(2)]);
    assert_eq!(event.standard, "deltanear_derivatives");
    assert_eq!(event.version, "1.0.0");
    assert_eq!(event.event, "test_event");
    let again = Nep297Event::new("test_event", vec![number(1), number(2)]);
    assert_eq!(
        again.into_line(),
        "EVENT_JSON:{\"standard\":\"deltanear_derivatives\",\"version\":\"1.0.0\",\"event\":\"test_event\",\"data\":[1,2]}"
    );
    assert_eq!(
        event.into_document(),
        object(vec![
            ("standard", text("deltanear_derivatives")),
            ("version", text("1.0.0")),
            ("event", text("test_event")),
            ("data", JsonValue::Array(vec![number(1), number(2)])),
        ])
    );
}
