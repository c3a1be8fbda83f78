//! The records that the host publishes, one for each step in the life of an
//! intent. The line of a record is `EVENT_JSON:` and the record as a JSON
//! object: the standard, its version, the name of the event and the list of
//! its data, written in this order.

use vstd::prelude::*;
use vstd::string::StringExecFns;
use crate::codec::held_text;
use crate::json::{
    items_of, lemma_array_view, lemma_object_view, members_of, Json, JsonNumber, JsonValue, Num,
};

verus! {

/// The name of the standard that the records follow.
pub open spec fn standard() -> Seq<char> {
    "deltanear_derivatives"@
}

/// The version of the records.
pub open spec fn version() -> Seq<char> {
    "1.0.0"@
}

/// What opens the line of a record.
pub open spec fn line_prefix() -> Seq<char> {
    "EVENT_JSON:"@
}

/// A simulation has been completed.
#[derive(Clone, Debug, PartialEq, Eq)]
pub struct SimulationCompletedData {
    pub intent_hash: String,
    pub simulation_hash: String,
    pub success: bool,
    pub error_message: Option<String>,
    /// Nanoseconds since the Unix epoch.
    pub timestamp_ns: u64,
}

/// A settlement has been completed.
#[derive(Clone, Debug, PartialEq, Eq)]
pub struct SettlementCompletedData {
    pub intent_hash: String,
    pub tx_hash: String,
    /// Nanoseconds since the Unix epoch.
    pub timestamp_ns: u64,
}

/// An intent has been submitted.
#[derive(Clone, Debug, PartialEq, Eq)]
pub struct IntentSubmittedData {
    pub intent_hash: String,
    pub signer_id: String,
    pub instrument: String,
    pub symbol: String,
    pub side: String,
    pub size: String,
    /// Nanoseconds since the Unix epoch.
    pub timestamp_ns: u64,
}

/// An execution has been logged.
#[derive(Clone, Debug, PartialEq, Eq)]
pub struct ExecutionLoggedData {
    pub intent_hash: String,
    pub solver_id: String,
    pub venue: String,
    pub fill_price: String,
    /// The notional value, as text.
    pub notional: String,
    pub status: String,
    /// Nanoseconds since the Unix epoch.
    pub timestamp_ns: u64,
}

/// A solver has been assigned.
#[derive(Clone, Debug, PartialEq, Eq)]
pub struct SolverAssignedData {
    pub intent_hash: String,
    pub solver_id: String,
    /// Nanoseconds since the Unix epoch.
    pub timestamp_ns: u64,
}

/// A settlement has been initiated.
#[derive(Debug, PartialEq, Eq)]
pub struct SettlementInitiatedData {
    pub intent_hash: String,
    /// The change of balance, as a document.
    pub token_diff: JsonValue,
    /// Nanoseconds since the Unix epoch.
    pub timestamp_ns: u64,
}

/// A record: the standard, its version, the name of the event and the data.
#[derive(Debug, PartialEq, Eq)]
pub struct Nep297Event {
    pub standard: String,
    pub version: String,
    pub event: String,
    pub data: Vec<JsonValue>,
}

/// A text that may be absent: a string, or null.
pub open spec fn nullable_text(text: Option<String>) -> Json {
    match text {
        Some(t) => Json::String(t@),
        None => Json::Null,
    }
}

/// A whole number as a document.
pub open spec fn count(n: u64) -> Json {
    Json::Number(Num::Integer(n as int))
}

/// The document of the record of the event `event` with the data `data`.
pub open spec fn event_document(event: Seq<char>, data: Seq<Json>) -> Json {
    Json::Object(
        seq![
            ("standard"@, Json::String(standard())),
            ("version"@, Json::String(version())),
            ("event"@, Json::String(event)),
            ("data"@, Json::Array(data)),
        ],
    )
}

/// The line of the record of the event `event` with the one item `item`.
pub open spec fn event_line(event: Seq<char>, item: Json) -> Seq<char> {
    line_prefix() + held_text(event_document(event, seq![item]))
}

impl SimulationCompletedData {
    /// The document of these data, its members in the order of the fields.
    pub open spec fn document(self) -> Json {
        Json::Object(
            seq![
                ("intent_hash"@, Json::String(self.intent_hash@)),
                ("simulation_hash"@, Json::String(self.simulation_hash@)),
                ("success"@, Json::Bool(self.success)),
                ("error_message"@, nullable_text(self.error_message)),
                ("timestamp_ns"@, count(self.timestamp_ns)),
            ],
        )
    }

    /// The document of these data.
    pub fn to_document(&self) -> (out: JsonValue)
        ensures
            out@ == self.document(),
    {
        let mut members: Vec<(String, JsonValue)> = Vec::new();
        members.push(("intent_hash".to_owned(), JsonValue::String(self.intent_hash.clone())));
        members.push(("simulation_hash".to_owned(), JsonValue::String(self.simulation_hash.clone())));
        members.push(("success".to_owned(), JsonValue::Bool(self.success)));
        let error_message = match &self.error_message {
            Some(t) => JsonValue::String(t.clone()),
            None => JsonValue::Null,
        };
        members.push(("error_message".to_owned(), error_message));
        members.push(("timestamp_ns".to_owned(), JsonValue::Number(JsonNumber::Unsigned(self.timestamp_ns))));
        proof {
            lemma_object_view(members);
            assert(members_of(members@) =~= self.document()->Object_0);
        }
        JsonValue::Object(members)
    }

}

impl SettlementCompletedData {
    /// The document of these data, its members in the order of the fields.
    pub open spec fn document(self) -> Json {
        Json::Object(
            seq![
                ("intent_hash"@, Json::String(self.intent_hash@)),
                ("tx_hash"@, Json::String(self.tx_hash@)),
                ("timestamp_ns"@, count(self.timestamp_ns)),
            ],
        )
    }

    /// The document of these data.
    pub fn to_document(&self) -> (out: JsonValue)
        ensures
            out@ == self.document(),
    {
        let mut members: Vec<(String, JsonValue)> = Vec::new();
        members.push(("intent_hash".to_owned(), JsonValue::String(self.intent_hash.clone())));
        members.push(("tx_hash".to_owned(), JsonValue::String(self.tx_hash.clone())));
        members.push(("timestamp_ns".to_owned(), JsonValue::Number(JsonNumber::Unsigned(self.timestamp_ns))));
        proof {
            lemma_object_view(members);
            assert(members_of(members@) =~= self.document()->Object_0);
        }
        JsonValue::Object(members)
    }

}

impl IntentSubmittedData {
    /// The document of these data, its members in the order of the fields.
    pub open spec fn document(self) -> Json {
        Json::Object(
            seq![
                ("intent_hash"@, Json::String(self.intent_hash@)),
                ("signer_id"@, Json::String(self.signer_id@)),
                ("instrument"@, Json::String(self.instrument@)),
                ("symbol"@, Json::String(self.symbol@)),
                ("side"@, Json::String(self.side@)),
                ("size"@, Json::String(self.size@)),
                ("timestamp_ns"@, count(self.timestamp_ns)),
            ],
        )
    }

    /// The document of these data.
    pub fn to_document(&self) -> (out: JsonValue)
        ensures
            out@ == self.document(),
    {
        let mut members: Vec<(String, JsonValue)> = Vec::new();
        members.push(("intent_hash".to_owned(), JsonValue::String(self.intent_hash.clone())));
        members.push(("signer_id".to_owned(), JsonValue::String(self.signer_id.clone())));
        members.push(("instrument".to_owned(), JsonValue::String(self.instrument.clone())));
        members.push(("symbol".to_owned(), JsonValue::String(self.symbol.clone())));
        members.push(("side".to_owned(), JsonValue::String(self.side.clone())));
        members.push(("size".to_owned(), JsonValue::String(self.size.clone())));
        members.push(("timestamp_ns".to_owned(), JsonValue::Number(JsonNumber::Unsigned(self.timestamp_ns))));
        proof {
            lemma_object_view(members);
            assert(members_of(members@) =~= self.document()->Object_0);
        }
        JsonValue::Object(members)
    }

}

impl ExecutionLoggedData {
    /// The document of these data, its members in the order of the fields.
    pub open spec fn document(self) -> Json {
        Json::Object(
            seq![
                ("intent_hash"@, Json::String(self.intent_hash@)),
                ("solver_id"@, Json::String(self.solver_id@)),
                ("venue"@, Json::String(self.venue@)),
                ("fill_price"@, Json::String(self.fill_price@)),
                ("notional"@, Json::String(self.notional@)),
                ("status"@, Json::String(self.status@)),
                ("timestamp_ns"@, count(self.timestamp_ns)),
            ],
        )
    }

    /// The document of these data.
    pub fn to_document(&self) -> (out: JsonValue)
        ensures
            out@ == self.document(),
    {
        let mut members: Vec<(String, JsonValue)> = Vec::new();
        members.push(("intent_hash".to_owned(), JsonValue::String(self.intent_hash.clone())));
        members.push(("solver_id".to_owned(), JsonValue::String(self.solver_id.clone())));
        members.push(("venue".to_owned(), JsonValue::String(self.venue.clone())));
        members.push(("fill_price".to_owned(), JsonValue::String(self.fill_price.clone())));
        members.push(("notional".to_owned(), JsonValue::String(self.notional.clone())));
        members.push(("status".to_owned(), JsonValue::String(self.status.clone())));
        members.push(("timestamp_ns".to_owned(), JsonValue::Number(JsonNumber::Unsigned(self.timestamp_ns))));
        proof {
            lemma_object_view(members);
            assert(members_of(members@) =~= self.document()->Object_0);
        }
        JsonValue::Object(members)
    }

}

impl SolverAssignedData {
    /// The document of these data, its members in the order of the fields.
    pub open spec fn document(self) -> Json {
        Json::Object(
            seq![
                ("intent_hash"@, Json::String(self.intent_hash@)),
                ("solver_id"@, Json::String(self.solver_id@)),
                ("timestamp_ns"@, count(self.timestamp_ns)),
            ],
        )
    }

    /// The document of these data.
    pub fn to_document(&self) -> (out: JsonValue)
        ensures
            out@ == self.document(),
    {
        let mut members: Vec<(String, JsonValue)> = Vec::new();
        members.push(("intent_hash".to_owned(), JsonValue::String(self.intent_hash.clone())));
        members.push(("solver_id".to_owned(), JsonValue::String(self.solver_id.clone())));
        members.push(("timestamp_ns".to_owned(), JsonValue::Number(JsonNumber::Unsigned(self.timestamp_ns))));
        proof {
            lemma_object_view(members);
            assert(members_of(members@) =~= self.document()->Object_0);
        }
        JsonValue::Object(members)
    }

}

impl SettlementInitiatedData {
    /// The document of these data, its members in the order of the fields.
    pub open spec fn document(self) -> Json {
        Json::Object(
            seq![
                ("intent_hash"@, Json::String(self.intent_hash@)),
                ("token_diff"@, self.token_diff@),
                ("timestamp_ns"@, count(self.timestamp_ns)),
            ],
        )
    }

    /// The document of these data. The data are used up.
    pub fn into_document(self) -> (out: JsonValue)
        ensures
            out@ == self.document(),
    {
        let mut members: Vec<(String, JsonValue)> = Vec::new();
        members.push(("intent_hash".to_owned(), JsonValue::String(self.intent_hash)));
        members.push(("token_diff".to_owned(), self.token_diff));
        members.push(("timestamp_ns".to_owned(), JsonValue::Number(JsonNumber::Unsigned(self.timestamp_ns))));
        proof {
            lemma_object_view(members);
            assert(members_of(members@) =~= self.document()->Object_0);
        }
        JsonValue::Object(members)
    }

}

impl Nep297Event {
    /// The record of the event `event` with the data `data`.
    pub fn new(event: &str, data: Vec<JsonValue>) -> (out: Nep297Event)
        ensures
            out.standard@ == standard(),
            out.version@ == version(),
            out.event@ == event@,
            out.data == data,
    {
        Nep297Event {
            standard: "deltanear_derivatives".to_owned(),
            version: "1.0.0".to_owned(),
            event: event.to_owned(),
            data,
        }
    }

    /// The document of this record, its members in the order of the fields.
    pub open spec fn document(self) -> Json {
        Json::Object(
            seq![
                ("standard"@, Json::String(self.standard@)),
                ("version"@, Json::String(self.version@)),
                ("event"@, Json::String(self.event@)),
                ("data"@, Json::Array(items_of(self.data@))),
            ],
        )
    }

    /// The line of this record.
    pub open spec fn line(self) -> Seq<char> {
        line_prefix() + held_text(self.document())
    }

    /// The document of this record. The record is used up.
    pub fn into_document(self) -> (out: JsonValue)
        ensures
            out@ == self.document(),
    {
        let mut members: Vec<(String, JsonValue)> = Vec::new();
        proof {
            lemma_array_view(self.data);
        }
        members.push(("standard".to_owned(), JsonValue::String(self.standard)));
        members.push(("version".to_owned(), JsonValue::String(self.version)));
        members.push(("event".to_owned(), JsonValue::String(self.event)));
        members.push(("data".to_owned(), JsonValue::Array(self.data)));
        proof {
            lemma_object_view(members);
            assert(members_of(members@) =~= self.document()->Object_0);
        }
        JsonValue::Object(members)
    }

    /// The line of this record. The record is used up.
    pub fn into_line(self) -> (line: String)
        ensures
            line@ == self.line(),
    {
        "EVENT_JSON:".to_owned().concat(self.into_document().to_held_text().as_str())
    }
}

/// Makes the lines that the host publishes.
pub struct EventEmitter;

impl EventEmitter {
    /// The line of the event `event` with the one item `item` as its data.
    pub fn emit_event(event: &str, item: JsonValue) -> (line: String)
        ensures
            line@ == event_line(event@, item@),
    {
        let mut data: Vec<JsonValue> = Vec::new();
        data.push(item);
        assert(items_of(data@) =~= seq![item@]);
        Nep297Event::new(event, data).into_line()
    }

    /// The line for an intent that has been submitted.
    pub fn emit_intent_submitted(data: &IntentSubmittedData) -> (line: String)
        ensures
            line@ == event_line("intent_submitted"@, data.document()),
    {
        EventEmitter::emit_event("intent_submitted", data.to_document())
    }

    /// The line for an execution that has been logged.
    pub fn emit_execution_logged(data: &ExecutionLoggedData) -> (line: String)
        ensures
            line@ == event_line("execution_logged"@, data.document()),
    {
        EventEmitter::emit_event("execution_logged", data.to_document())
    }

    /// The line for a solver that has been assigned.
    pub fn emit_solver_assigned(data: &SolverAssignedData) -> (line: String)
        ensures
            line@ == event_line("solver_assigned"@, data.document()),
    {
        EventEmitter::emit_event("solver_assigned", data.to_document())
    }

    /// The line for a simulation that has been completed.
    pub fn emit_simulation_completed(data: &SimulationCompletedData) -> (line: String)
        ensures
            line@ == event_line("simulation_completed"@, data.document()),
    {
        EventEmitter::emit_event("simulation_completed", data.to_document())
    }

    /// The line for a settlement that has been initiated.
    pub fn emit_settlement_initiated(data: SettlementInitiatedData) -> (line: String)
        ensures
            line@ == event_line("settlement_initiated"@, data.document()),
    {
        EventEmitter::emit_event("settlement_initiated", data.into_document())
    }

    /// The line for a settlement that has been completed.
    pub fn emit_settlement_completed(data: &SettlementCompletedData) -> (line: String)
        ensures
            line@ == event_line("settlement_completed"@, data.document()),
    {
        EventEmitter::emit_event("settlement_completed", data.to_document())
    }
}

} // verus!
