//! The failures that the optimizer reports to its host.
use vstd::prelude::*;
use vstd::string::StringExecFns;

verus! {

/// What went wrong.
#[derive(Clone, Copy, PartialEq, Eq, Debug, Structural)]
pub enum ErrorKind {
    /// A payload from the host could not be read.
    ConfigParseError,
    /// A result could not be encoded for the host.
    SerializationError,
    /// A boolean operation was asked for under an unknown name.
    InvalidOperation,
    /// An index names a vertex that the vertex buffer does not hold.
    IndexOutOfRange,
}

/// A failure: its kind, and a message for a human reader.
#[derive(Debug)]
pub struct OptimizerError {
    pub kind: ErrorKind,
    pub message: String,
}

/// The message of a payload that could not be read.
pub open spec fn parse_message(what: Seq<char>, detail: Seq<char>) -> Seq<char> {
    "Failed to parse "@ + what + ": "@ + detail
}

/// The message of a result that could not be encoded.
pub open spec fn serialize_message(what: Seq<char>, detail: Seq<char>) -> Seq<char> {
    "Failed to serialize "@ + what + ": "@ + detail
}

impl OptimizerError {
    /// The failure of an index that names no vertex, with its message.
    pub open spec fn is_index_out_of_range(&self) -> bool {
        self.kind == ErrorKind::IndexOutOfRange && self.message@ == "Index out of range"@
    }

    /// The failure of an unknown operation name, with its message.
    pub open spec fn is_invalid_operation(&self) -> bool {
        self.kind == ErrorKind::InvalidOperation && self.message@ == "Invalid boolean operation"@
    }

    /// The host handed over a payload named `what` that could not be read;
    /// `detail` is the parser's own account.
    pub fn parse_failure(what: &str, detail: &str) -> (e: OptimizerError)
        ensures
            e.kind == ErrorKind::ConfigParseError,
            e.message@ == parse_message(what@, detail@),
    {
        let message = "Failed to parse ".to_owned().concat(what).concat(": ").concat(detail);
        OptimizerError { kind: ErrorKind::ConfigParseError, message }
    }

    /// A result named `what` could not be encoded; `detail` is the encoder's
    /// own account.
    pub fn serialize_failure(what: &str, detail: &str) -> (e: OptimizerError)
        ensures
            e.kind == ErrorKind::SerializationError,
            e.message@ == serialize_message(what@, detail@),
    {
        let message = "Failed to serialize ".to_owned().concat(what).concat(": ").concat(detail);
        OptimizerError { kind: ErrorKind::SerializationError, message }
    }

    /// An unknown name was given for a boolean operation.
    pub fn invalid_operation() -> (e: OptimizerError)
        ensures
            e.is_invalid_operation(),
    {
        OptimizerError {
            kind: ErrorKind::InvalidOperation,
            message: "Invalid boolean operation".to_owned(),
        }
    }

    /// An index names a vertex that is not there.
    pub fn index_out_of_range() -> (e: OptimizerError)
        ensures
            e.is_index_out_of_range(),
    {
        OptimizerError {
            kind: ErrorKind::IndexOutOfRange,
            message: "Index out of range".to_owned(),
        }
    }

    /// The kind of the failure.
    pub fn kind(&self) -> (k: ErrorKind)
        ensures
            k == self.kind,
    {
        self.kind
    }

    /// The message, as the host shows it.
    pub fn describe(&self) -> (s: String)
        ensures
            s@ == self.message@,
    {
        self.message.clone()
    }
}

} // verus!
