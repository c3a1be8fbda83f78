//! The rules of the host that keeps intents by their digest: which
//! guardrails apply, which fee configuration is accepted, and whether an
//! intent may be executed on the strength of its simulation.
//!
//! The host reads its storage and its clock and hands the values in; these
//! functions decide.

use vstd::prelude::*;
use crate::decimal::{nat_text, wide_text};
use crate::digest::{hash_text, sha256};
use crate::events::{ExecutionLoggedData, IntentSubmittedData, SimulationCompletedData};
use crate::text::{string_of, text_equals};

verus! {

/// The fees of the protocol.
#[derive(Clone, Debug, PartialEq, Eq)]
pub struct FeeConfig {
    pub protocol_fee_bps: u16,
    pub solver_rebate_bps: u16,
    pub min_fee_usdc: String,
    pub max_fee_bps: u16,
    pub treasury: String,
}

/// Limits on what an account or a symbol may trade.
#[derive(Clone, Debug, PartialEq, Eq)]
pub struct Guardrails {
    pub max_position_size: String,
    pub max_leverage: String,
    pub max_daily_volume: String,
    pub allowed_instruments: Vec<String>,
    pub cooldown_seconds: u32,
}

/// A symbol that can be traded.
#[derive(Clone, Debug, PartialEq, Eq)]
pub struct SymbolConfig {
    pub symbol: String,
    pub instruments: Vec<String>,
    pub min_size: String,
    pub max_size: String,
    pub tick_size: String,
}

/// A venue on which intents are executed.
#[derive(Clone, Debug, PartialEq, Eq)]
pub struct VenueConfig {
    pub venue_id: String,
    pub chain: String,
    pub supported_instruments: Vec<String>,
    pub fee_bps: u16,
}

/// What is recorded of an intent when it is submitted.
#[derive(Clone, Debug, PartialEq, Eq)]
pub struct IntentMetadata {
    pub intent_hash: String,
    pub instrument: String,
    pub symbol: String,
    pub side: String,
    pub size: String,
    pub leverage: Option<String>,
    pub strike: Option<String>,
    pub expiry: Option<String>,
    pub solver_id: String,
    pub created_at: u64,
}

/// What is recorded of an execution.
#[derive(Clone, Debug, PartialEq, Eq)]
pub struct ExecutionLog {
    pub intent_hash: String,
    pub solver_id: String,
    pub venue: String,
    pub fill_price: String,
    pub notional: u128,
    pub fees_bps: u16,
    pub pnl: Option<String>,
    pub status: String,
    pub timestamp: u64,
}

/// The recorded outcome of a simulation.
#[derive(Clone, Debug, PartialEq, Eq)]
pub struct SimulationResult {
    pub intent_hash: String,
    pub simulation_hash: String,
    pub success: bool,
    pub error_message: Option<String>,
    pub timestamp: u64,
}

/// What a simulation found, kept until the intent is executed.
#[derive(Clone, Debug, PartialEq, Eq)]
pub struct SimulationData {
    pub simulation_hash: String,
    pub timestamp: u64,
    pub estimated_fill: String,
    pub estimated_fees: String,
    pub venue: String,
    pub valid: bool,
    pub error: Option<String>,
}

/// A change of one account's balance of one token.
#[derive(Clone, Debug, PartialEq, Eq)]
pub struct TokenDiff {
    pub account_id: String,
    pub token_id: String,
    pub amount_delta: String,
    pub direction: String,
}

/// The collections that the host keeps, each under its own key.
#[derive(Clone, Debug, PartialEq, Eq)]
pub enum StorageKey {
    Metadata,
    ExecutionLogs,
    SymbolConfigs,
    VenueConfigs,
    VenuesBySymbol { symbol_hash: Vec<u8> },
    UserGuardrails,
    SymbolGuardrails,
    SimulationResults,
}

/// Why a new fee configuration is refused.
#[derive(Clone, Copy, Debug, PartialEq, Eq, Structural)]
pub enum FeeRefusal {
    /// The caller is not the treasury.
    NotTreasury,
    /// The protocol fee is above 10%.
    ProtocolFeeTooHigh,
    /// The maximum fee is above 10%.
    MaxFeeTooHigh,
}

/// Whether an intent may be executed.
#[derive(Clone, Copy, Debug, PartialEq, Eq, Structural)]
pub enum Gate {
    /// The simulation is there, fresh, and made for this intent.
    Execute,
    /// No simulation is recorded for the intent.
    SimulationRequired,
    /// The simulation is older than the freshness window.
    SimulationExpired,
    /// The simulation was not made for the intent as it now stands.
    SimulationHashMismatch,
}

/// The freshness window of a simulation: 300 seconds, in nanoseconds.
pub const FRESHNESS_WINDOW_NS: u64 = 300_000_000_000;

/// The highest fee, in basis points, that a fee configuration may name.
pub const FEE_CEILING_BPS: u16 = 1000;

/// The guardrails that apply: those of the account where there are any, else
/// those of the symbol where there are any, else the default ones.
pub open spec fn applicable_guardrails(
    user: Option<Guardrails>,
    symbol: Option<Guardrails>,
    default: Guardrails,
) -> Guardrails {
    match user {
        Some(g) => g,
        None => match symbol {
            Some(g) => g,
            None => default,
        },
    }
}

/// The refusal of a new fee configuration; `None` where it is accepted.
pub open spec fn fee_refusal(config: FeeConfig, caller: Seq<char>, treasury: Seq<char>) -> Option<
    FeeRefusal,
> {
    if caller != treasury {
        Some(FeeRefusal::NotTreasury)
    } else if config.protocol_fee_bps > FEE_CEILING_BPS {
        Some(FeeRefusal::ProtocolFeeTooHigh)
    } else if config.max_fee_bps > FEE_CEILING_BPS {
        Some(FeeRefusal::MaxFeeTooHigh)
    } else {
        None
    }
}

/// Whether an intent may be executed at the time `now`, given the simulation
/// recorded for it, if any, and the simulation hash computed for the intent
/// as it now stands.
pub open spec fn gate_of(simulation: Option<SimulationData>, now: u64, current_hash: Seq<char>)
    -> Gate {
    match simulation {
        None => Gate::SimulationRequired,
        Some(data) => if now - data.timestamp > FRESHNESS_WINDOW_NS {
            Gate::SimulationExpired
        } else if data.simulation_hash@ != current_hash {
            Gate::SimulationHashMismatch
        } else {
            Gate::Execute
        },
    }
}

impl Guardrails {
    /// The guardrails of a new host: positions up to 100000, leverage up to
    /// 20, a daily volume up to 1000000, both instruments, a cooldown of 60
    /// seconds.
    pub fn initial() -> (out: Guardrails)
        ensures
            out.max_position_size@ == "100000"@,
            out.max_leverage@ == "20"@,
            out.max_daily_volume@ == "1000000"@,
            out.allowed_instruments@.len() == 2,
            out.allowed_instruments@[0]@ == "perp"@,
            out.allowed_instruments@[1]@ == "option"@,
            out.cooldown_seconds == 60,
    {
        let mut allowed: Vec<String> = Vec::new();
        allowed.push("perp".to_owned());
        allowed.push("option".to_owned());
        Guardrails {
            max_position_size: "100000".to_owned(),
            max_leverage: "20".to_owned(),
            max_daily_volume: "1000000".to_owned(),
            allowed_instruments: allowed,
            cooldown_seconds: 60,
        }
    }

    /// The guardrails that apply: account before symbol before default.
    pub fn select(user: Option<Guardrails>, symbol: Option<Guardrails>, default: Guardrails) -> (out:
        Guardrails)
        ensures
            out == applicable_guardrails(user, symbol, default),
    {
        match user {
            Some(g) => g,
            None => match symbol {
                Some(g) => g,
                None => default,
            },
        }
    }
}

impl FeeConfig {
    /// The fees of a new host: a minimum fee of 0.10 and a maximum of 100
    /// basis points.
    pub fn initial(treasury: String, protocol_fee_bps: u16, solver_rebate_bps: u16) -> (out:
        FeeConfig)
        ensures
            out.protocol_fee_bps == protocol_fee_bps,
            out.solver_rebate_bps == solver_rebate_bps,
            out.min_fee_usdc@ == "0.10"@,
            out.max_fee_bps == 100,
            out.treasury == treasury,
    {
        FeeConfig {
            protocol_fee_bps,
            solver_rebate_bps,
            min_fee_usdc: "0.10".to_owned(),
            max_fee_bps: 100,
            treasury,
        }
    }

    /// Whether `caller` is the treasury, who alone may change the
    /// configuration of the host.
    pub fn admits(&self, caller: &str) -> (out: bool)
        ensures
            out == (caller@ == self.treasury@),
    {
        text_equals(caller, self.treasury.as_str())
    }

    /// Decides on a new fee configuration that `caller` puts forward.
    pub fn check_update(&self, caller: &str, treasury: &str) -> (out: Result<(), FeeRefusal>)
        ensures
            match out {
                Ok(_) => fee_refusal(*self, caller@, treasury@) is None,
                Err(r) => fee_refusal(*self, caller@, treasury@) == Some(r),
            },
    {
        if !text_equals(caller, treasury) {
            Err(FeeRefusal::NotTreasury)
        } else if self.protocol_fee_bps > FEE_CEILING_BPS {
            Err(FeeRefusal::ProtocolFeeTooHigh)
        } else if self.max_fee_bps > FEE_CEILING_BPS {
            Err(FeeRefusal::MaxFeeTooHigh)
        } else {
            Ok(())
        }
    }
}

impl IntentMetadata {
    /// What is published of the intent with the identity `intent_hash` when
    /// it is submitted at the time `now`.
    pub fn submitted(&self, intent_hash: &str, now: u64) -> (out: IntentSubmittedData)
        ensures
            out.intent_hash@ == intent_hash@,
            out.signer_id@ == self.solver_id@,
            out.instrument@ == self.instrument@,
            out.symbol@ == self.symbol@,
            out.side@ == self.side@,
            out.size@ == self.size@,
            out.timestamp_ns == now,
    {
        IntentSubmittedData {
            intent_hash: intent_hash.to_owned(),
            signer_id: self.solver_id.clone(),
            instrument: self.instrument.clone(),
            symbol: self.symbol.clone(),
            side: self.side.clone(),
            size: self.size.clone(),
            timestamp_ns: now,
        }
    }
}

impl ExecutionLog {
    /// What is recorded of the execution, by `solver` at the time `now`, of
    /// the intent with the identity `intent_hash` on the strength of the
    /// simulation `data`: the venue and the fill of the simulation, no
    /// notional value, no fees and no profit or loss yet.
    pub fn executed(intent_hash: &str, data: &SimulationData, solver: &str, now: u64) -> (out:
        ExecutionLog)
        ensures
            out.intent_hash@ == intent_hash@,
            out.solver_id@ == solver@,
            out.venue@ == data.venue@,
            out.fill_price@ == data.estimated_fill@,
            out.notional == 0,
            out.fees_bps == 0,
            out.pnl is None,
            out.status@ == "executed"@,
            out.timestamp == now,
    {
        ExecutionLog {
            intent_hash: intent_hash.to_owned(),
            solver_id: solver.to_owned(),
            venue: data.venue.clone(),
            fill_price: data.estimated_fill.clone(),
            notional: 0,
            fees_bps: 0,
            pnl: None,
            status: "executed".to_owned(),
            timestamp: now,
        }
    }

    /// What is published of the execution of the intent with the identity
    /// `intent_hash` when it is logged at the time `now`. The notional value
    /// is written in decimal.
    pub fn logged(&self, intent_hash: &str, now: u64) -> (out: ExecutionLoggedData)
        ensures
            out.intent_hash@ == intent_hash@,
            out.solver_id@ == self.solver_id@,
            out.venue@ == self.venue@,
            out.fill_price@ == self.fill_price@,
            out.notional@ == nat_text(self.notional as nat),
            out.status@ == self.status@,
            out.timestamp_ns == now,
    {
        let notional = wide_text(self.notional);
        ExecutionLoggedData {
            intent_hash: intent_hash.to_owned(),
            solver_id: self.solver_id.clone(),
            venue: self.venue.clone(),
            fill_price: self.fill_price.clone(),
            notional: string_of(&notional),
            status: self.status.clone(),
            timestamp_ns: now,
        }
    }
}

impl SimulationResult {
    /// The outcome of a simulation of the intent with the identity
    /// `intent_hash`, recorded at the time `now`.
    pub fn recorded(
        intent_hash: &str,
        simulation_hash: &str,
        success: bool,
        error_message: Option<String>,
        now: u64,
    ) -> (out: SimulationResult)
        ensures
            out.intent_hash@ == intent_hash@,
            out.simulation_hash@ == simulation_hash@,
            out.success == success,
            out.error_message == error_message,
            out.timestamp == now,
    {
        SimulationResult {
            intent_hash: intent_hash.to_owned(),
            simulation_hash: simulation_hash.to_owned(),
            success,
            error_message,
            timestamp: now,
        }
    }

    /// What is published of this outcome.
    pub fn completed(&self) -> (out: SimulationCompletedData)
        ensures
            out.intent_hash@ == self.intent_hash@,
            out.simulation_hash@ == self.simulation_hash@,
            out.success == self.success,
            out.error_message == self.error_message,
            out.timestamp_ns == self.timestamp,
    {
        SimulationCompletedData {
            intent_hash: self.intent_hash.clone(),
            simulation_hash: self.simulation_hash.clone(),
            success: self.success,
            error_message: self.error_message.clone(),
            timestamp_ns: self.timestamp,
        }
    }

    /// Whether a successful simulation is recorded.
    pub fn has_succeeded(recorded: Option<&SimulationResult>) -> (out: bool)
        ensures
            out == (recorded matches Some(r) && r.success),
    {
        match recorded {
            Some(r) => r.success,
            None => false,
        }
    }
}

impl SimulationData {
    /// Decides whether an intent may be executed.
    pub fn gate(simulation: Option<&SimulationData>, now: u64, current_hash: &str) -> (out: Gate)
        ensures
            out == gate_of(
                match simulation {
                    Some(d) => Some(*d),
                    None => None,
                },
                now,
                current_hash@,
            ),
    {
        match simulation {
            None => Gate::SimulationRequired,
            Some(data) => {
                if now > data.timestamp && now - data.timestamp > FRESHNESS_WINDOW_NS {
                    Gate::SimulationExpired
                } else if !text_equals(data.simulation_hash.as_str(), current_hash) {
                    Gate::SimulationHashMismatch
                } else {
                    Gate::Execute
                }
            },
        }
    }
}

impl StorageKey {
    /// The key under which the venues of `symbol` are kept: the SHA-256 hash
    /// of the symbol.
    pub fn venues_by_symbol(symbol: &str) -> (out: StorageKey)
        ensures
            out matches StorageKey::VenuesBySymbol { symbol_hash } && symbol_hash@ == sha256(
                vstd::utf8::encode_utf8(symbol@),
            ),
    {
        StorageKey::VenuesBySymbol { symbol_hash: hash_text(symbol) }
    }
}

} // verus!
