use vstd::prelude::*;

verus! {

/// `std::io::Error`, carried through opaque: what the disk reported.
#[verifier::external_type_specification]
#[verifier::external_body]
pub struct ExIoError(std::io::Error);

/// `serde_json::Error`, carried through opaque: why text could not be read
/// or written as JSON.
#[verifier::external_type_specification]
#[verifier::external_body]
pub struct ExJsonError(serde_json::Error);

/// Why an operation on the store failed.
#[derive(Debug)]
pub enum DQError {
    /// Reading, writing, creating or listing on the disk failed.
    IO(std::io::Error),
    /// A partition's text is not a well-formed list of questions, or a
    /// question could not be encoded.
    Json(serde_json::Error),
    /// A holder of the store's lock failed while holding it.
    Sync,
    /// A question of a write does not belong to the partition written.
    QuestionsDisagree,
}

impl From<std::io::Error> for DQError {
    fn from(err: std::io::Error) -> (r: DQError)
        ensures
            r == DQError::IO(err),
    {
        DQError::IO(err)
    }
}

impl vstd::std_specs::convert::FromSpecImpl<std::io::Error> for DQError {
    open spec fn obeys_from_spec() -> bool {
        true
    }

    open spec fn from_spec(err: std::io::Error) -> DQError {
        DQError::IO(err)
    }
}

impl From<serde_json::Error> for DQError {
    fn from(err: serde_json::Error) -> (r: DQError)
        ensures
            r == DQError::Json(err),
    {
        DQError::Json(err)
    }
}

impl vstd::std_specs::convert::FromSpecImpl<serde_json::Error> for DQError {
    open spec fn obeys_from_spec() -> bool {
        true
    }

    open spec fn from_spec(err: serde_json::Error) -> DQError {
        DQError::Json(err)
    }
}

} // verus!
