use near_intents_derivatives::canonicalization::Canonicalizer;
use near_intents_derivatives::digest::{digest_text, hash_text, to_hex};
use near_intents_derivatives::gating::{ExecutionReceipt, SimulationReport};
use near_intents_derivatives::host::{
    ExecutionLog, FeeConfig, FeeRefusal, Gate, Guardrails, IntentMetadata, SimulationData,
    SimulationResult, StorageKey, FEE_CEILING_BPS, FRESHNESS_WINDOW_NS,
};
use near_intents_derivatives::json::{JsonNumber, JsonValue};

fn text(s: &str) -> JsonValue {
    JsonValue::String(s.to_string())
}

fn object(members: Vec<(&str, JsonValue)>) -> JsonValue {
    JsonValue::Object(members.into_iter().map(|(k, v)| (k.to_string(), v)).collect())
}

fn quote(timestamp: u64) -> SimulationData {
    SimulationData {
        simulation_hash: String::new(),
        timestamp,
        estimated_fill: "100.50".to_string(),
        estimated_fees: "0.25".to_string(),
        venue: "lyra-v2".to_string(),
        valid: true,
        error: None,
    }
}

fn rails(tag: &str) -> Guardrails {
    Guardrails {
        max_position_size: tag.to_string(),
        max_leverage: "5".to_string(),
        max_daily_volume: "10".to_string(),
        allowed_instruments: vec!["perp".to_string()],
        cooldown_seconds: 1,
    }
}

const SIMULATION_HASH: &str = "9a72be1181e0fd447aa3accbdd727e33ab724761d187671336bb2d7ab5a36148";

#[test]
fn simulation_has_a_known_hash() {
    assert_eq!(Canonicalizer::compute_simulation_hash("abc", &quote(1000)), SIMULATION_HASH);
    assert_ne!(Canonicalizer::compute_simulation_hash("abd", &quote(1000)), SIMULATION_HASH);
    assert_ne!(Canonicalizer::compute_simulation_hash("abc", &quote(1001)), SIMULATION_HASH);
}

#[test]
fn sealed_simulation_carries_its_hash() {
    let sealed = quote(1000).sealed("abc");
    assert_eq!(sealed.simulation_hash, SIMULATION_HASH);
    assert_eq!(SimulationData { simulation_hash: String::new(), ..sealed }, quote(1000));
}

#[test]
fn execution_needs_a_simulation() {
    assert_eq!(SimulationData::gate(None, 5, ""), Gate::SimulationRequired);
}

#[test]
fn execution_needs_a_fresh_simulation() {
    let sealed = quote(1000).sealed("abc");
    let hash = sealed.simulation_hash.clone();
    assert_eq!(SimulationData::gate(Some(&sealed), 1000, &hash), Gate::Execute);
    assert_eq!(SimulationData::gate(Some(&sealed), 1000 + FRESHNESS_WINDOW_NS, &hash), Gate::Execute);
    assert_eq!(
        SimulationData::gate(Some(&sealed), 1001 + FRESHNESS_WINDOW_NS, &hash),
        Gate::SimulationExpired
    );
    assert_eq!(SimulationData::gate(Some(&sealed), 0, &hash), Gate::Execute);
    assert_eq!(FRESHNESS_WINDOW_NS, 300_000_000_000);
}

#[test]
fn execution_needs_the_simulation_of_this_intent() {
    let sealed = quote(1000).sealed("abc");
    let other = Canonicalizer::compute_simulation_hash("abd", &sealed);
    assert_eq!(SimulationData::gate(Some(&sealed), 2000, &other), Gate::SimulationHashMismatch);
    assert_eq!(
        SimulationData::gate(Some(&sealed), 2000 + FRESHNESS_WINDOW_NS, &other),
        Gate::SimulationExpired
    );
}

#[test]
fn refusals_have_their_words() {
    assert_eq!(Gate::Execute.words(), None);
    assert_eq!(
        Gate::SimulationRequired.words(),
        Some(("SIMULATION_REQUIRED", "no_prior_simulation", "Intent must be simulated before execution"))
    );
    assert_eq!(
        Gate::SimulationExpired.words(),
        Some(("SIMULATION_EXPIRED", "simulation_expired", "Simulation older than 5 minutes"))
    );
    assert_eq!(
        Gate::SimulationHashMismatch.words(),
        Some((
            "SIMULATION_HASH_MISMATCH",
            "simulation_hash_mismatch",
            "Intent parameters changed since simulation"
        ))
    );
}

#[test]
fn refusal_leaves_a_record() {
    assert_eq!(Gate::Execute.notice("abc"), None);
    assert_eq!(
        Gate::SimulationExpired.notice("abc").unwrap(),
        "EVENT_JSON:{\"standard\":\"deltanear_derivatives\",\"version\":\"1.0.0\",\"event\":\"simulation_required\",\"data\":[{\"intent_hash\":\"abc\",\"reason\":\"simulation_expired\",\"attempted_execution\":true}]}"
    );
}

#[test]
fn receipt_tells_executed_from_refused() {
    let mut receipt = ExecutionReceipt::new();
    assert!(receipt.success);
    assert_eq!(receipt.total_fee, "0");
    receipt.record("one", Gate::Execute);
    assert!(receipt.success);
    receipt.record("two", Gate::SimulationRequired);
    receipt.record("three", Gate::Execute);
    receipt.record("four", Gate::SimulationHashMismatch);
    assert!(!receipt.success);
    assert_eq!(receipt.executed, vec!["one".to_string(), "three".to_string()]);
    assert_eq!(
        receipt.failed,
        vec![
            object(vec![
                ("intent_hash", text("two")),
                ("error", text("SIMULATION_REQUIRED")),
                ("message", text("Intent must be simulated before execution")),
            ]),
            object(vec![
                ("intent_hash", text("four")),
                ("error", text("SIMULATION_HASH_MISMATCH")),
                ("message", text("Intent parameters changed since simulation")),
            ]),
        ]
    );
    assert!(receipt.settlements.is_empty());
}

#[test]
fn report_tells_valid_from_invalid() {
    let mut report = SimulationReport::new();
    assert!(report.valid);
    let sealed = quote(1000).sealed("abc");
    report.record("abc", &sealed);
    assert!(report.valid);
    let failed = SimulationData { valid: false, error: Some("no venue".to_string()), ..quote(7) };
    report.record("def", &failed);
    let silent = SimulationData { valid: false, ..quote(7) };
    report.record("ghi", &silent);
    assert!(!report.valid);
    assert_eq!(
        report.simulated,
        vec![object(vec![
            ("intent_hash", text("abc")),
            ("simulation_hash", text(SIMULATION_HASH)),
            ("estimated_fill", text("100.50")),
            ("venue", text("lyra-v2")),
        ])]
    );
    assert_eq!(
        report.errors,
        vec![
            object(vec![("intent_hash", text("def")), ("error", text("no venue"))]),
            object(vec![("intent_hash", text("ghi")), ("error", JsonValue::Null)]),
        ]
    );
    assert_eq!(report.estimated_fees, "0");
    assert!(report.warnings.is_empty());
}

#[test]
fn guardrails_of_the_account_come_first() {
    let chosen = Guardrails::select(Some(rails("user")), Some(rails("symbol")), rails("default"));
    assert_eq!(chosen, rails("user"));
    let chosen = Guardrails::select(None, Some(rails("symbol")), rails("default"));
    assert_eq!(chosen, rails("symbol"));
    let chosen = Guardrails::select(None, None, rails("default"));
    assert_eq!(chosen, rails("default"));
    let chosen = Guardrails::select(Some(rails("user")), None, rails("default"));
    assert_eq!(chosen, rails("user"));
}

#[test]
fn new_host_has_its_guardrails_and_fees() {
    assert_eq!(
        Guardrails::initial(),
        Guardrails {
            max_position_size: "100000".to_string(),
            max_leverage: "20".to_string(),
            max_daily_volume: "1000000".to_string(),
            allowed_instruments: vec!["perp".to_string(), "option".to_string()],
            cooldown_seconds: 60,
        }
    );
    assert_eq!(
        FeeConfig::initial("treasury.near".to_string(), 20, 70),
        FeeConfig {
            protocol_fee_bps: 20,
            solver_rebate_bps: 70,
            min_fee_usdc: "0.10".to_string(),
            max_fee_bps: 100,
            treasury: "treasury.near".to_string(),
        }
    );
}

#[test]
fn fees_are_changed_by_the_treasury_within_the_ceiling() {
    let mut fees = FeeConfig::initial("treasury.near".to_string(), 1000, 70);
    fees.max_fee_bps = 1000;
    assert_eq!(FEE_CEILING_BPS, 1000);
    assert_eq!(fees.check_update("treasury.near", "treasury.near"), Ok(()));
    assert_eq!(fees.check_update("alice.near", "treasury.near"), Err(FeeRefusal::NotTreasury));
    fees.protocol_fee_bps = 1001;
    fees.max_fee_bps = 1001;
    assert_eq!(
        fees.check_update("treasury.near", "treasury.near"),
        Err(FeeRefusal::ProtocolFeeTooHigh)
    );
    assert_eq!(fees.check_update("alice.near", "treasury.near"), Err(FeeRefusal::NotTreasury));
    fees.protocol_fee_bps = 5;
    assert_eq!(fees.check_update("treasury.near", "treasury.near"), Err(FeeRefusal::MaxFeeTooHigh));
    assert!(fees.admits("treasury.near"));
    assert!(!fees.admits("Treasury.near"));
}

#[test]
fn only_a_successful_simulation_counts() {
    let won = SimulationResult::recorded("abc", "def", true, None, 5);
    let lost = SimulationResult::recorded("abc", "def", false, Some("thin book".to_string()), 5);
    assert!(SimulationResult::has_succeeded(Some(&won)));
    assert!(!SimulationResult::has_succeeded(Some(&lost)));
    assert!(!SimulationResult::has_succeeded(None));
    assert_eq!(lost.intent_hash, "abc");
    assert_eq!(lost.simulation_hash, "def");
    assert_eq!(lost.timestamp, 5);
    let published = lost.completed();
    assert_eq!(published.intent_hash, "abc");
    assert_eq!(published.simulation_hash, "def");
    assert!(!published.success);
    assert_eq!(published.error_message, Some("thin book".to_string()));
    assert_eq!(published.timestamp_ns, 5);
}

#[test]
fn records_are_published_with_the_time() {
    let metadata = IntentMetadata {
        intent_hash: "abc".to_string(),
        instrument: "perp".to_string(),
        symbol: "ETH-USD".to_string(),
        side: "long".to_string(),
        size: "1.5".to_string(),
        leverage: None,
        strike: None,
        expiry: None,
        solver_id: "solver.near".to_string(),
        created_at: 1,
    };
    let submitted = metadata.submitted("abc", 77);
    assert_eq!(submitted.signer_id, "solver.near");
    assert_eq!(submitted.symbol, "ETH-USD");
    assert_eq!(submitted.timestamp_ns, 77);
    let log = ExecutionLog {
        intent_hash: "abc".to_string(),
        solver_id: "solver.near".to_string(),
        venue: "gmx-v2".to_string(),
        fill_price: "3650.50".to_string(),
        notional: 5_475_750_000_000_000_000_000,
        fees_bps: 5,
        pnl: None,
        status: "filled".to_string(),
        timestamp: 2,
    };
    let logged = log.logged("abc", 78);
    assert_eq!(logged.notional, "5475750000000000000000");
    assert_eq!(logged.venue, "gmx-v2");
    assert_eq!(logged.fill_price, "3650.50");
    assert_eq!(logged.status, "filled");
    assert_eq!(logged.timestamp_ns, 78);
}

#[test]
fn execution_is_logged_from_its_simulation() {
    let log = ExecutionLog::executed("abc", &quote(1000).sealed("abc"), "host.near", 2000);
    assert_eq!(
        log,
        ExecutionLog {
            intent_hash: "abc".to_string(),
            solver_id: "host.near".to_string(),
            venue: "lyra-v2".to_string(),
            fill_price: "100.50".to_string(),
            notional: 0,
            fees_bps: 0,
            pnl: None,
            status: "executed".to_string(),
            timestamp: 2000,
        }
    );
}

#[test]
fn venues_of_a_symbol_are_kept_under_its_hash() {
    assert_eq!(
        StorageKey::venues_by_symbol("ETH-USD"),
        StorageKey::VenuesBySymbol {
            symbol_hash: vec![
                213, 12, 255, 162, 62, 177, 15, 23, 106, 242, 24, 196, 152, 157, 195, 140, 171, 53,
                155, 195, 92, 216, 61, 42, 220, 216, 15, 169, 63, 170, 81, 92
            ]
        }
    );
}

#[test]
fn bytes_are_written_in_hex() {
    assert_eq!(to_hex(&vec![]), "");
    assert_eq!(to_hex(&vec![0, 1, 15, 16, 171, 255]), "00010f10abff");
    assert_eq!(hash_text("abc").len(), 32);
    assert_eq!(to_hex(&hash_text("abc")), digest_text("abc"));
    assert_eq!(
        digest_text("abc"),
        "ba7816bf8f01cfea414140de5dae2223b00361a396177a9cb410ff61f20015ad"
    );
    assert_eq!(JsonNumber::Unsigned(5).to_text(), vec!['5']);
}
