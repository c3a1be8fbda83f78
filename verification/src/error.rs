//! Why a document was rejected.

use vstd::prelude::*;
use vstd::string::StringExecFns;

verus! {

/// The kinds of rejection.
#[derive(Clone, Copy, Debug, PartialEq, Eq, Structural)]
pub enum ErrorKind {
    /// An object's keys are not those of its schema.
    SchemaViolation,
    /// A field is absent, or its value is not of the JSON type that the
    /// field's rule reads.
    MissingField,
    /// A value is outside the fixed set that the field permits.
    InvalidEnum,
    /// A decimal is not a plain, unsigned decimal literal without leading
    /// zeros.
    MalformedDecimal,
    /// A value is outside the field's bounds.
    OutOfRange,
    /// A decimal has more fractional digits than the field permits.
    PrecisionExceeded,
    /// A timestamp is not a UTC instant of the expected shape.
    MalformedTimestamp,
    /// A nonce is neither a string nor a number.
    InvalidNonce,
}

/// A rejection, as a mathematical value.
pub enum Failure {
    SchemaViolation { object: Seq<char>, expected: Seq<Seq<char>>, actual: Seq<Seq<char>> },
    MissingField { field: Seq<char> },
    InvalidEnum { field: Seq<char>, value: Seq<char> },
    MalformedDecimal { literal: Seq<char> },
    OutOfRange { literal: Seq<char> },
    PrecisionExceeded { literal: Seq<char> },
    MalformedTimestamp { literal: Seq<char> },
    InvalidNonce,
}

/// A rejection: its kind, with the keys, field or literal that caused it.
#[derive(Debug, PartialEq, Eq)]
pub enum CanonError {
    /// The object, the keys that its schema allows, and the keys found, in
    /// ascending order.
    SchemaViolation { object: String, expected: Vec<String>, actual: Vec<String> },
    /// The name of the field.
    MissingField { field: String },
    /// The name of the field and the value found, normalized.
    InvalidEnum { field: String, value: String },
    /// The literal found.
    MalformedDecimal { literal: String },
    /// The literal found.
    OutOfRange { literal: String },
    /// The literal found.
    PrecisionExceeded { literal: String },
    /// The literal found.
    MalformedTimestamp { literal: String },
    InvalidNonce,
}

/// The texts held by a vector of strings.
pub open spec fn names(v: Seq<String>) -> Seq<Seq<char>> {
    Seq::new(v.len(), |i: int| v[i]@)
}

impl View for CanonError {
    type V = Failure;

    open spec fn view(&self) -> Failure {
        match self {
            CanonError::SchemaViolation { object, expected, actual } => Failure::SchemaViolation {
                object: object@,
                expected: names(expected@),
                actual: names(actual@),
            },
            CanonError::MissingField { field } => Failure::MissingField { field: field@ },
            CanonError::InvalidEnum { field, value } => Failure::InvalidEnum {
                field: field@,
                value: value@,
            },
            CanonError::MalformedDecimal { literal } => Failure::MalformedDecimal {
                literal: literal@,
            },
            CanonError::OutOfRange { literal } => Failure::OutOfRange { literal: literal@ },
            CanonError::PrecisionExceeded { literal } => Failure::PrecisionExceeded {
                literal: literal@,
            },
            CanonError::MalformedTimestamp { literal } => Failure::MalformedTimestamp {
                literal: literal@,
            },
            CanonError::InvalidNonce => Failure::InvalidNonce,
        }
    }
}

impl Failure {
    /// The kind of this rejection.
    pub open spec fn kind(self) -> ErrorKind {
        match self {
            Failure::SchemaViolation { .. } => ErrorKind::SchemaViolation,
            Failure::MissingField { .. } => ErrorKind::MissingField,
            Failure::InvalidEnum { .. } => ErrorKind::InvalidEnum,
            Failure::MalformedDecimal { .. } => ErrorKind::MalformedDecimal,
            Failure::OutOfRange { .. } => ErrorKind::OutOfRange,
            Failure::PrecisionExceeded { .. } => ErrorKind::PrecisionExceeded,
            Failure::MalformedTimestamp { .. } => ErrorKind::MalformedTimestamp,
            Failure::InvalidNonce => ErrorKind::InvalidNonce,
        }
    }
}

impl CanonError {
    /// The kind of this rejection.
    pub fn kind(&self) -> (kind: ErrorKind)
        ensures
            kind == self@.kind(),
    {
        match self {
            CanonError::SchemaViolation { .. } => ErrorKind::SchemaViolation,
            CanonError::MissingField { .. } => ErrorKind::MissingField,
            CanonError::InvalidEnum { .. } => ErrorKind::InvalidEnum,
            CanonError::MalformedDecimal { .. } => ErrorKind::MalformedDecimal,
            CanonError::OutOfRange { .. } => ErrorKind::OutOfRange,
            CanonError::PrecisionExceeded { .. } => ErrorKind::PrecisionExceeded,
            CanonError::MalformedTimestamp { .. } => ErrorKind::MalformedTimestamp,
            CanonError::InvalidNonce => ErrorKind::InvalidNonce,
        }
    }
}

/// The texts of `list` from index `from` on, each after a comma and a space.
pub open spec fn listed_from(list: Seq<Seq<char>>, from: int) -> Seq<char>
    decreases list.len() - from,
{
    if from < 0 || from >= list.len() {
        Seq::empty()
    } else {
        ", "@ + list[from] + listed_from(list, from + 1)
    }
}

/// The texts of `list` between square brackets, with a comma and a space
/// between one and the next.
pub open spec fn bracketed(list: Seq<Seq<char>>) -> Seq<char> {
    if list.len() == 0 {
        "[]"@
    } else {
        "["@ + list[0] + listed_from(list, 1) + "]"@
    }
}

/// How the rejection of an object for its keys begins.
pub open spec fn schema_phrase(object: Seq<char>) -> Seq<char> {
    if object == "intent"@ {
        "Invalid root fields"@
    } else if object == "constraints"@ {
        "Unknown constraint field"@
    } else {
        "Invalid fields in "@ + object
    }
}

impl Failure {
    /// The rejection in words.
    pub open spec fn message(self) -> Seq<char> {
        match self {
            Failure::SchemaViolation { object, expected, actual } => schema_phrase(object)
                + ". Expected "@ + bracketed(expected) + ", got "@ + bracketed(actual),
            Failure::MissingField { field } => "Missing or invalid "@ + field,
            Failure::InvalidEnum { field, value } => "Invalid "@ + field + ": "@ + value,
            Failure::MalformedDecimal { literal } => "Invalid decimal: "@ + literal,
            Failure::OutOfRange { literal } => "Value out of range: "@ + literal,
            Failure::PrecisionExceeded { literal } => "Too many decimal places: "@ + literal,
            Failure::MalformedTimestamp { literal } => "Invalid timestamp: "@ + literal,
            Failure::InvalidNonce => "Nonce must be string or number"@,
        }
    }
}

/// `list` between square brackets.
fn write_bracketed(list: &Vec<String>) -> (out: String)
    ensures
        out@ == bracketed(names(list@)),
{
    if list.len() == 0 {
        return "[]".to_owned();
    }
    let ghost texts = names(list@);
    let mut rest = String::new();
    let mut i: usize = list.len();
    assert(listed_from(texts, i as int) == Seq::<char>::empty());
    while i > 1
        invariant
            1 <= i <= list.len(),
            texts == names(list@),
            rest@ == listed_from(texts, i as int),
        decreases i,
    {
        i -= 1;
        let piece = ", ".to_owned().concat(list[i].as_str()).concat(rest.as_str());
        assert(texts[i as int] == list@[i as int]@);
        rest = piece;
    }
    assert(texts[0] == list@[0]@);
    "[".to_owned().concat(list[0].as_str()).concat(rest.as_str()).concat("]")
}

impl CanonError {
    /// The rejection in words.
    pub fn message(&self) -> (out: String)
        ensures
            out@ == self@.message(),
    {
        match self {
            CanonError::SchemaViolation { object, expected, actual } => {
                let phrase = if crate::text::text_equals(object.as_str(), "intent") {
                    "Invalid root fields".to_owned()
                } else if crate::text::text_equals(object.as_str(), "constraints") {
                    "Unknown constraint field".to_owned()
                } else {
                    "Invalid fields in ".to_owned().concat(object.as_str())
                };
                phrase.concat(". Expected ").concat(write_bracketed(expected).as_str()).concat(
                    ", got ",
                ).concat(write_bracketed(actual).as_str())
            },
            CanonError::MissingField { field } => "Missing or invalid ".to_owned().concat(
                field.as_str(),
            ),
            CanonError::InvalidEnum { field, value } => "Invalid ".to_owned().concat(
                field.as_str(),
            ).concat(": ").concat(value.as_str()),
            CanonError::MalformedDecimal { literal } => "Invalid decimal: ".to_owned().concat(
                literal.as_str(),
            ),
            CanonError::OutOfRange { literal } => "Value out of range: ".to_owned().concat(
                literal.as_str(),
            ),
            CanonError::PrecisionExceeded { literal } => "Too many decimal places: ".to_owned().concat(
                literal.as_str(),
            ),
            CanonError::MalformedTimestamp { literal } => "Invalid timestamp: ".to_owned().concat(
                literal.as_str(),
            ),
            CanonError::InvalidNonce => "Nonce must be string or number".to_owned(),
        }
    }
}

} // verus!
