//! The errors that the store reports.

use vstd::prelude::*;

verus! {

/// What a lookup did not find.
#[derive(Clone, Copy, Debug, PartialEq, Eq, Structural)]
pub enum Missing {
    /// No database stands at the index.
    Database,
    /// No collection stands at the index.
    Collection,
    /// No entry has the key.
    Key,
}

/// Every way in which an operation of the store can fail.
#[derive(Clone, Copy, Debug, PartialEq, Eq, Structural)]
pub enum Error {
    /// A count would pass 255, or a string is longer than 255 bytes.
    CapacityExceeded,
    /// A database, a collection or a key is not there.
    NotFound(Missing),
    /// The entry exists but does not hold a string.
    TypeMismatch,
    /// The bytes are not the encoding of any world.
    MalformedStream,
    /// A writer reported a failure. A vector takes every write, so no operation
    /// of the store fails this way; it is what a refused outcome is turned into.
    Sink,
}

impl Error {
    /// The text that stands for the error in a reply.
    pub open spec fn spec_message(self) -> Seq<char> {
        match self {
            Error::CapacityExceeded => "This data is too large"@,
            Error::NotFound(Missing::Database) => "This database does not exist"@,
            Error::NotFound(Missing::Collection) => "This collection does not exist"@,
            Error::NotFound(Missing::Key) => "This data does not exist"@,
            Error::TypeMismatch => "This data is not supported"@,
            Error::MalformedStream => "This stream is malformed"@,
            Error::Sink => "This sink refused the data"@,
        }
    }

    /// The text that stands for the error in a reply.
    pub fn message(&self) -> (text: String)
        ensures
            text@ == self.spec_message(),
    {
        match self {
            Error::CapacityExceeded => "This data is too large".to_string(),
            Error::NotFound(Missing::Database) => "This database does not exist".to_string(),
            Error::NotFound(Missing::Collection) => "This collection does not exist".to_string(),
            Error::NotFound(Missing::Key) => "This data does not exist".to_string(),
            Error::TypeMismatch => "This data is not supported".to_string(),
            Error::MalformedStream => "This stream is malformed".to_string(),
            Error::Sink => "This sink refused the data".to_string(),
        }
    }
}

} // verus!
