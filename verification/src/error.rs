//! What can go wrong in a run, and what the user is told of it.

use vstd::prelude::*;
use vstd::string::StringExecFns;

verus! {

/// A failure of a run, by the part that failed. Each kind holds the cause in
/// the words of the part that reported it.
#[derive(Debug, PartialEq, Eq)]
pub enum Error {
    /// The file system.
    Io(String),
    /// The network.
    Reqwest(String),
    /// A payload that is not the JSON expected.
    Serde(String),
    /// The CSV output.
    Csv(String),
    /// The store.
    Structsy(String),
}

impl Error {
    /// The cause, in the words of the part that reported it.
    pub open spec fn cause(&self) -> Seq<char> {
        match self {
            Error::Io(cause) => cause@,
            Error::Reqwest(cause) => cause@,
            Error::Serde(cause) => cause@,
            Error::Csv(cause) => cause@,
            Error::Structsy(cause) => cause@,
        }
    }

    /// The words that introduce the cause.
    pub open spec fn heading(&self) -> Seq<char> {
        match self {
            Error::Io(_) => "IO failure: "@,
            Error::Reqwest(_) => "Network failure: "@,
            Error::Serde(_) => "JSON Data failure: "@,
            Error::Csv(_) => "CSV Data failure: "@,
            Error::Structsy(_) => "Structsy error: "@,
        }
    }

    /// The message of the failure: the heading of its kind, then the cause.
    pub open spec fn message(&self) -> Seq<char> {
        self.heading() + self.cause()
    }

    /// Whether the network failed.
    pub open spec fn is_network(&self) -> bool {
        self is Reqwest
    }

    /// Writes the message of the failure.
    pub fn to_string(&self) -> (text: String)
        ensures
            text@ == self.message(),
    {
        match self {
            Error::Io(cause) => String::from_str("IO failure: ").concat(cause.as_str()),
            Error::Reqwest(cause) => String::from_str("Network failure: ").concat(cause.as_str()),
            Error::Serde(cause) => String::from_str("JSON Data failure: ").concat(cause.as_str()),
            Error::Csv(cause) => String::from_str("CSV Data failure: ").concat(cause.as_str()),
            Error::Structsy(cause) => String::from_str("Structsy error: ").concat(cause.as_str()),
        }
    }
}

/// What the program prints when a run has ended: the message of its failure,
/// unless the network failed, which is passed over in silence, as is success.
pub fn closing_message(outcome: &Result<(), Error>) -> (printed: Option<String>)
    ensures
        match *outcome {
            Ok(_) => printed is None,
            Err(failure) => if failure.is_network() {
                printed is None
            } else {
                printed matches Some(text) && text@ == failure.message()
            },
        },
{
    match outcome {
        Ok(_) => None,
        Err(Error::Reqwest(_)) => None,
        Err(failure) => Some(failure.to_string()),
    }
}

} // verus!
