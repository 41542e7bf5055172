//! The reasons for which a message or a record is dropped, or an export
//! fails.

use vstd::prelude::*;

verus! {

/// Why a message produced no stored position.
///
/// None of these ends the ingestion: the message at hand is dropped and the
/// next one is taken up.
#[derive(Clone, Copy, PartialEq, Eq, Structural, Debug)]
pub enum Error {
    /// The payload matches none of the known schemas.
    SchemaMismatch,
    /// A fixed-point coordinate could not be decoded.
    MalformedCoordinate,
    /// The topic matches none of the known grammars.
    UnresolvedTopic,
    /// The storage collaborator failed to write a record.
    StorageFailure,
    /// The transport failed to deliver.
    TransportFailure,
    /// A stored record cannot be rendered; the export fails as a whole.
    MalformedRecord,
}

impl Error {
    /// The words that describe the error.
    pub open spec fn words(self) -> Seq<char> {
        match self {
            Error::SchemaMismatch => "payload matches no known schema"@,
            Error::MalformedCoordinate => "malformed coordinate"@,
            Error::UnresolvedTopic => "topic matches no known grammar"@,
            Error::StorageFailure => "storage failed"@,
            Error::TransportFailure => "transport failed"@,
            Error::MalformedRecord => "stored record cannot be rendered"@,
        }
    }

    /// The words that describe the error, for a log or a response.
    pub fn describe(self) -> (r: String)
        ensures
            r@ == self.words(),
    {
        match self {
            Error::SchemaMismatch => "payload matches no known schema".to_owned(),
            Error::MalformedCoordinate => "malformed coordinate".to_owned(),
            Error::UnresolvedTopic => "topic matches no known grammar".to_owned(),
            Error::StorageFailure => "storage failed".to_owned(),
            Error::TransportFailure => "transport failed".to_owned(),
            Error::MalformedRecord => "stored record cannot be rendered".to_owned(),
        }
    }

    /// Whether the drop is reported as an error; a schema mismatch is
    /// expected noise and is not.
    pub open spec fn spec_is_logged(self) -> bool {
        self != Error::SchemaMismatch
    }

    /// Whether the drop is reported as an error; a schema mismatch is
    /// expected noise and is not.
    #[verifier::when_used_as_spec(spec_is_logged)]
    pub fn is_logged(self) -> (r: bool)
        ensures
            r == self.spec_is_logged(),
    {
        match self {
            Error::SchemaMismatch => false,
            _ => true,
        }
    }
}

} // verus!
