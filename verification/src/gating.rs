//! Batches of intents at the host: the identities of a batch, and the
//! receipts that say which intents were simulated and which were executed.

use vstd::prelude::*;
use crate::canonicalization::Canonicalizer;
use crate::codec::{held_text, parsed_json};
use crate::digest::digest_of;
use crate::error::{names, CanonError, Failure};
use crate::events::{event_line, nullable_text, EventEmitter};
use crate::host::{gate_of, Gate, SimulationData, TokenDiff, FRESHNESS_WINDOW_NS};
use crate::json::{items_of, lemma_array_view, lemma_object_view, members_of, Json, JsonValue};
use crate::pipeline::{intent_identity, simulation_document, HashRefusal};

verus! {

/// The identities of the intents of a batch, in order; the failure of the
/// first intent that is rejected, where one is.
pub open spec fn identities(intents: Seq<Json>) -> Result<Seq<Seq<char>>, Failure>
    decreases intents.len(),
{
    if intents.len() == 0 {
        Ok(Seq::empty())
    } else {
        match identities(intents.drop_last()) {
            Err(f) => Err(f),
            Ok(earlier) => match intent_identity(intents.last()) {
                Ok(digest) => Ok(earlier.push(digest)),
                Err(f) => Err(f),
            },
        }
    }
}

/// The identities of the intents that a JSON text lists; `None` where the
/// text is no JSON array.
pub open spec fn listed_identities(text: Seq<char>) -> Option<Result<Seq<Seq<char>>, Failure>> {
    match parsed_json(text) {
        Some(Json::Array(intents)) => Some(identities(intents)),
        _ => None,
    }
}

/// The code, the reason and the explanation with which an execution is
/// refused; `None` where it is not refused.
pub open spec fn refusal_words(gate: Gate) -> Option<(Seq<char>, Seq<char>, Seq<char>)> {
    match gate {
        Gate::Execute => None,
        Gate::SimulationRequired => Some(
            (
                "SIMULATION_REQUIRED"@,
                "no_prior_simulation"@,
                "Intent must be simulated before execution"@,
            ),
        ),
        Gate::SimulationExpired => Some(
            ("SIMULATION_EXPIRED"@, "simulation_expired"@, "Simulation older than 5 minutes"@),
        ),
        Gate::SimulationHashMismatch => Some(
            (
                "SIMULATION_HASH_MISMATCH"@,
                "simulation_hash_mismatch"@,
                "Intent parameters changed since simulation"@,
            ),
        ),
    }
}

/// What a receipt says of an intent that was not executed.
pub open spec fn refusal_document(intent_hash: Seq<char>, code: Seq<char>, message: Seq<char>)
    -> Json {
    Json::Object(
        seq![
            ("intent_hash"@, Json::String(intent_hash)),
            ("error"@, Json::String(code)),
            ("message"@, Json::String(message)),
        ],
    )
}

/// The data of the record that a refused execution leaves.
pub open spec fn notice_document(intent_hash: Seq<char>, reason: Seq<char>) -> Json {
    Json::Object(
        seq![
            ("intent_hash"@, Json::String(intent_hash)),
            ("reason"@, Json::String(reason)),
            ("attempted_execution"@, Json::Bool(true)),
        ],
    )
}

/// What a report says of an intent whose simulation is valid.
pub open spec fn quote_document(intent_hash: Seq<char>, data: SimulationData) -> Json {
    Json::Object(
        seq![
            ("intent_hash"@, Json::String(intent_hash)),
            ("simulation_hash"@, Json::String(data.simulation_hash@)),
            ("estimated_fill"@, Json::String(data.estimated_fill@)),
            ("venue"@, Json::String(data.venue@)),
        ],
    )
}

/// What a report says of an intent whose simulation is not valid.
pub open spec fn fault_document(intent_hash: Seq<char>, data: SimulationData) -> Json {
    Json::Object(
        seq![("intent_hash"@, Json::String(intent_hash)), ("error"@, nullable_text(data.error))],
    )
}

impl Canonicalizer {
    /// The identities of the intents of a batch, in order.
    pub fn batch_digests(intents: &Vec<JsonValue>) -> (out: Result<Vec<String>, CanonError>)
        ensures
            match out {
                Ok(digests) => identities(items_of(intents@)) == Ok::<Seq<Seq<char>>, Failure>(
                    names(digests@),
                ),
                Err(e) => identities(items_of(intents@)) == Err::<Seq<Seq<char>>, Failure>(e@),
            },
    {
        let mut digests: Vec<String> = Vec::new();
        let mut i: usize = 0;
        proof {
            assert(items_of(intents@).take(0) =~= Seq::<Json>::empty());
            assert(names(digests@) =~= Seq::<Seq<char>>::empty());
        }
        while i < intents.len()
            invariant
                0 <= i <= intents.len(),
                identities(items_of(intents@).take(i as int)) == Ok::<Seq<Seq<char>>, Failure>(
                    names(digests@),
                ),
            decreases intents.len() - i,
        {
            let ghost before = names(digests@);
            let ghost upto = items_of(intents@).take(i + 1);
            proof {
                assert(upto.drop_last() =~= items_of(intents@).take(i as int));
                assert(upto.last() == intents@[i as int]@);
            }
            match Canonicalizer::intent_digest(&intents[i]) {
                Ok(digest) => {
                    digests.push(digest);
                    proof {
                        assert(names(digests@) =~= before.push(digest@));
                    }
                },
                Err(e) => {
                    proof {
                        lemma_first_failure(items_of(intents@), i + 1);
                    }
                    return Err(e);
                },
            }
            i += 1;
        }
        proof {
            assert(items_of(intents@).take(i as int) =~= items_of(intents@));
        }
        Ok(digests)
    }

    /// The identities of the intents that a JSON text lists, in order.
    pub fn compute_batch_hashes(intents_json: &str) -> (out: Result<Vec<String>, HashRefusal>)
        ensures
            match out {
                Ok(digests) => listed_identities(intents_json@) == Some(
                    Ok::<Seq<Seq<char>>, Failure>(names(digests@)),
                ),
                Err(HashRefusal::NotJson) => listed_identities(intents_json@) is None,
                Err(HashRefusal::Rejected(e)) => listed_identities(intents_json@) == Some(
                    Err::<Seq<Seq<char>>, Failure>(e@),
                ),
            },
    {
        match JsonValue::from_text(intents_json) {
            Some(JsonValue::Array(intents)) => {
                proof {
                    lemma_array_view(intents);
                }
                match Canonicalizer::batch_digests(&intents) {
                    Ok(digests) => Ok(digests),
                    Err(e) => Err(HashRefusal::Rejected(e)),
                }
            },
            _ => Err(HashRefusal::NotJson),
        }
    }
}

/// A batch with a prefix that fails, fails as the prefix does.
pub proof fn lemma_first_failure(intents: Seq<Json>, n: int)
    requires
        0 <= n <= intents.len(),
        identities(intents.take(n)) is Err,
    ensures
        identities(intents) == identities(intents.take(n)),
    decreases intents.len() - n,
{
    if n == intents.len() {
        assert(intents.take(n) =~= intents);
    } else {
        let longer = intents.take(n + 1);
        assert(longer.drop_last() =~= intents.take(n));
        lemma_first_failure(intents, n + 1);
    }
}

impl Gate {
    /// The code, the reason and the explanation with which an execution is
    /// refused.
    pub fn words(&self) -> (out: Option<(&'static str, &'static str, &'static str)>)
        ensures
            match out {
                Some((code, reason, message)) => refusal_words(*self) == Some(
                    (code@, reason@, message@),
                ),
                None => refusal_words(*self) is None,
            },
    {
        match self {
            Gate::Execute => None,
            Gate::SimulationRequired => Some(
                (
                    "SIMULATION_REQUIRED",
                    "no_prior_simulation",
                    "Intent must be simulated before execution",
                ),
            ),
            Gate::SimulationExpired => Some(
                ("SIMULATION_EXPIRED", "simulation_expired", "Simulation older than 5 minutes"),
            ),
            Gate::SimulationHashMismatch => Some(
                (
                    "SIMULATION_HASH_MISMATCH",
                    "simulation_hash_mismatch",
                    "Intent parameters changed since simulation",
                ),
            ),
        }
    }

    /// The line of the record that a refused execution leaves; `None` where
    /// the execution is not refused.
    pub fn notice(&self, intent_hash: &str) -> (out: Option<String>)
        ensures
            match out {
                Some(line) => refusal_words(*self) matches Some(words) && line@ == event_line(
                    "simulation_required"@,
                    notice_document(intent_hash@, words.1),
                ),
                None => *self == Gate::Execute,
            },
    {
        match self.words() {
            None => None,
            Some((_, reason, _)) => {
                let mut members: Vec<(String, JsonValue)> = Vec::new();
                members.push(("intent_hash".to_owned(), JsonValue::String(intent_hash.to_owned())));
                members.push(("reason".to_owned(), JsonValue::String(reason.to_owned())));
                members.push(("attempted_execution".to_owned(), JsonValue::Bool(true)));
                proof {
                    lemma_object_view(members);
                    assert(members_of(members@) =~= notice_document(
                        intent_hash@,
                        reason@,
                    )->Object_0);
                }
                Some(EventEmitter::emit_event("simulation_required", JsonValue::Object(members)))
            },
        }
    }
}

impl SimulationData {
    /// These data with the hash of the simulation set, as they are kept for
    /// the intent with the identity `intent_hash`.
    pub fn sealed(self, intent_hash: &str) -> (out: SimulationData)
        ensures
            out.simulation_hash@ == simulation_hash(intent_hash@, self),
            out.timestamp == self.timestamp,
            out.estimated_fill == self.estimated_fill,
            out.estimated_fees == self.estimated_fees,
            out.venue == self.venue,
            out.valid == self.valid,
            out.error == self.error,
    {
        let hash = Canonicalizer::compute_simulation_hash(intent_hash, &self);
        SimulationData {
            simulation_hash: hash,
            timestamp: self.timestamp,
            estimated_fill: self.estimated_fill,
            estimated_fees: self.estimated_fees,
            venue: self.venue,
            valid: self.valid,
            error: self.error,
        }
    }
}

/// The hash that the host computes for the simulation `data` of the intent
/// with the identity `intent_hash`.
pub open spec fn simulation_hash(intent_hash: Seq<char>, data: SimulationData) -> Seq<char> {
    digest_of(held_text(simulation_document(intent_hash, data)))
}

/// A simulation that is kept as it was sealed lets its intent through for as
/// long as it is fresh: the hash computed from what is kept is the hash it
/// was sealed with.
pub proof fn law_sealed_simulation_passes(
    intent_hash: Seq<char>,
    data: SimulationData,
    kept: SimulationData,
    now: u64,
)
    requires
        kept.simulation_hash@ == simulation_hash(intent_hash, data),
        kept.timestamp == data.timestamp,
        kept.estimated_fill@ == data.estimated_fill@,
        kept.estimated_fees@ == data.estimated_fees@,
        kept.venue@ == data.venue@,
        now - kept.timestamp <= FRESHNESS_WINDOW_NS,
    ensures
        gate_of(Some(kept), now, simulation_hash(intent_hash, kept)) == Gate::Execute,
{
    assert(simulation_document(intent_hash, kept) == simulation_document(intent_hash, data));
}

/// What became of a batch of intents that was to be executed.
#[derive(Debug, PartialEq, Eq)]
pub struct ExecutionReceipt {
    /// Whether every intent was executed.
    pub success: bool,
    /// The identities of the intents that were executed, in order.
    pub executed: Vec<String>,
    /// A document for each intent that was not executed, in order.
    pub failed: Vec<JsonValue>,
    pub total_fee: String,
    pub settlements: Vec<TokenDiff>,
}

impl ExecutionReceipt {
    /// The receipt of the empty batch.
    pub fn new() -> (out: ExecutionReceipt)
        ensures
            out.success,
            out.executed@.len() == 0,
            out.failed@.len() == 0,
            out.total_fee@ == "0"@,
            out.settlements@.len() == 0,
    {
        ExecutionReceipt {
            success: true,
            executed: Vec::new(),
            failed: Vec::new(),
            total_fee: "0".to_owned(),
            settlements: Vec::new(),
        }
    }

    /// Enters the next intent of the batch: as executed where it is let
    /// through, and else with the code and the explanation of the refusal.
    pub fn record(&mut self, intent_hash: &str, gate: Gate)
        ensures
            match refusal_words(gate) {
                None => names(final(self).executed@) == names(old(self).executed@).push(
                    intent_hash@,
                ) && final(self).failed == old(self).failed,
                Some(words) => final(self).executed == old(self).executed && items_of(
                    final(self).failed@,
                ) == items_of(old(self).failed@).push(
                    refusal_document(intent_hash@, words.0, words.2),
                ),
            },
            final(self).success == (final(self).failed@.len() == 0),
            final(self).total_fee == old(self).total_fee,
            final(self).settlements == old(self).settlements,
    {
        match gate.words() {
            None => {
                let ghost before = names(self.executed@);
                self.executed.push(intent_hash.to_owned());
                proof {
                    assert(names(self.executed@) =~= before.push(intent_hash@));
                }
            },
            Some((code, _, message)) => {
                let mut members: Vec<(String, JsonValue)> = Vec::new();
                members.push(("intent_hash".to_owned(), JsonValue::String(intent_hash.to_owned())));
                members.push(("error".to_owned(), JsonValue::String(code.to_owned())));
                members.push(("message".to_owned(), JsonValue::String(message.to_owned())));
                proof {
                    lemma_object_view(members);
                    assert(members_of(members@) =~= refusal_document(
                        intent_hash@,
                        code@,
                        message@,
                    )->Object_0);
                }
                let ghost before = items_of(self.failed@);
                self.failed.push(JsonValue::Object(members));
                proof {
                    assert(items_of(self.failed@) =~= before.push(
                        refusal_document(intent_hash@, code@, message@),
                    ));
                }
            },
        }
        self.success = self.failed.len() == 0;
    }
}

/// What became of a batch of intents that was to be simulated.
#[derive(Debug, PartialEq, Eq)]
pub struct SimulationReport {
    /// Whether every simulation is valid.
    pub valid: bool,
    /// A document for each intent whose simulation is valid, in order.
    pub simulated: Vec<JsonValue>,
    /// A document for each intent whose simulation is not valid, in order.
    pub errors: Vec<JsonValue>,
    pub estimated_fees: String,
    pub warnings: Vec<String>,
}

impl SimulationReport {
    /// The report of the empty batch.
    pub fn new() -> (out: SimulationReport)
        ensures
            out.valid,
            out.simulated@.len() == 0,
            out.errors@.len() == 0,
            out.estimated_fees@ == "0"@,
            out.warnings@.len() == 0,
    {
        SimulationReport {
            valid: true,
            simulated: Vec::new(),
            errors: Vec::new(),
            estimated_fees: "0".to_owned(),
            warnings: Vec::new(),
        }
    }

    /// Enters the simulation of the next intent of the batch.
    pub fn record(&mut self, intent_hash: &str, data: &SimulationData)
        ensures
            if data.valid {
                items_of(final(self).simulated@) == items_of(old(self).simulated@).push(
                    quote_document(intent_hash@, *data),
                ) && final(self).errors == old(self).errors
            } else {
                final(self).simulated == old(self).simulated && items_of(final(self).errors@)
                    == items_of(old(self).errors@).push(fault_document(intent_hash@, *data))
            },
            final(self).valid == (final(self).errors@.len() == 0),
            final(self).estimated_fees == old(self).estimated_fees,
            final(self).warnings == old(self).warnings,
    {
        let mut members: Vec<(String, JsonValue)> = Vec::new();
        if data.valid {
            members.push(("intent_hash".to_owned(), JsonValue::String(intent_hash.to_owned())));
            members.push(
                ("simulation_hash".to_owned(), JsonValue::String(data.simulation_hash.clone())),
            );
            members.push(
                ("estimated_fill".to_owned(), JsonValue::String(data.estimated_fill.clone())),
            );
            members.push(("venue".to_owned(), JsonValue::String(data.venue.clone())));
            proof {
                lemma_object_view(members);
                assert(members_of(members@) =~= quote_document(intent_hash@, *data)->Object_0);
            }
            let ghost before = items_of(self.simulated@);
            self.simulated.push(JsonValue::Object(members));
            proof {
                assert(items_of(self.simulated@) =~= before.push(
                    quote_document(intent_hash@, *data),
                ));
            }
        } else {
            let error = match &data.error {
                Some(t) => JsonValue::String(t.clone()),
                None => JsonValue::Null,
            };
            members.push(("intent_hash".to_owned(), JsonValue::String(intent_hash.to_owned())));
            members.push(("error".to_owned(), error));
            proof {
                lemma_object_view(members);
                assert(members_of(members@) =~= fault_document(intent_hash@, *data)->Object_0);
            }
            let ghost before = items_of(self.errors@);
            self.errors.push(JsonValue::Object(members));
            proof {
                assert(items_of(self.errors@) =~= before.push(fault_document(intent_hash@, *data)));
            }
        }
        self.valid = self.errors.len() == 0;
    }
}

} // verus!
