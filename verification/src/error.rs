//! What goes wrong.

use vstd::prelude::*;

verus! {

/// Why an operation was refused.
#[derive(Debug, Clone, PartialEq, Eq)]
pub enum DuckLakeError {
    /// The catalog, or a request, is not configured the way the operation needs.
    InvalidConfig(String),
    /// Something that the catalog's own rules exclude.
    Internal(String),
    /// A value or a type that cannot be handled.
    Unsupported(String),
}

impl DuckLakeError {
    /// The message without its kind.
    pub open spec fn message_view(self) -> Seq<char> {
        match self {
            DuckLakeError::InvalidConfig(message) => message@,
            DuckLakeError::Internal(message) => message@,
            DuckLakeError::Unsupported(message) => message@,
        }
    }

    /// The message, with the kind in front of it for a configuration error.
    pub fn description(&self) -> (out: String)
        ensures
            out@ == (match self {
                DuckLakeError::InvalidConfig(message) => "Invalid configuration: "@ + message@,
                _ => self.message_view(),
            }),
    {
        match self {
            DuckLakeError::InvalidConfig(message) => {
                let mut out = "Invalid configuration: ".to_string();
                out.append(message.as_str());
                out
            },
            DuckLakeError::Internal(message) => message.clone(),
            DuckLakeError::Unsupported(message) => message.clone(),
        }
    }
}

/// Whether `result` is refused as a configuration error with this message.
pub open spec fn invalid_config<T>(result: Result<T, DuckLakeError>, message: Seq<char>) -> bool {
    match result {
        Err(DuckLakeError::InvalidConfig(text)) => text@ == message,
        _ => false,
    }
}

/// Whether `result` is refused as unsupported with this message.
pub open spec fn unsupported<T>(result: Result<T, DuckLakeError>, message: Seq<char>) -> bool {
    match result {
        Err(DuckLakeError::Unsupported(text)) => text@ == message,
        _ => false,
    }
}

/// Whether `result` is refused as an internal error with this message.
pub open spec fn internal<T>(result: Result<T, DuckLakeError>, message: Seq<char>) -> bool {
    match result {
        Err(DuckLakeError::Internal(text)) => text@ == message,
        _ => false,
    }
}

/// A refusal is an error of its kind, and says what it is to say and nothing else; it is
/// none of another kind.
pub proof fn lemma_refusals<T>(result: Result<T, DuckLakeError>, message: Seq<char>)
    ensures
        invalid_config(result, message) <==> (result matches Err(error) && error is InvalidConfig
            && error.message_view() == message),
        internal(result, message) <==> (result matches Err(error) && error is Internal
            && error.message_view() == message),
        unsupported(result, message) <==> (result matches Err(error) && error is Unsupported
            && error.message_view() == message),
        result matches Err(DuckLakeError::InvalidConfig(text)) ==> result->Err_0.message_view()
            == text@,
        result matches Err(DuckLakeError::Internal(text)) ==> result->Err_0.message_view() == text@,
        result matches Err(DuckLakeError::Unsupported(text)) ==> result->Err_0.message_view()
            == text@,
{
}

} // verus!
