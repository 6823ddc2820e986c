//! What can go wrong while fetching and storing.

use vstd::prelude::*;
use vstd::string::StringExecFns;

verus! {

/// A failure, with the message of its cause where there is one.
#[derive(Debug, Clone, PartialEq, Eq)]
pub enum Error {
    /// The store refused a statement or the transaction.
    DbErr(String),
    /// The request to the scoring service failed in transit.
    Reqwest(String),
    /// The window to fetch does not start before it ends.
    InvalidDateRange,
    /// The answer of the scoring service could not be decoded.
    Serde(String),
    /// Anything else.
    Other(String),
}

impl Error {
    /// The text before the cause in the message of a failure.
    pub open spec fn prefix(self) -> Seq<char> {
        match self {
            Error::DbErr(_) => "Database error: "@,
            Error::Reqwest(_) => "Reqwest error: "@,
            Error::InvalidDateRange => "Invalid date range"@,
            Error::Serde(_) => "Serde error: "@,
            Error::Other(_) => "Other error: "@,
        }
    }

    /// The cause carried by a failure; empty where it carries none.
    pub open spec fn cause(self) -> Seq<char> {
        match self {
            Error::DbErr(m) => m@,
            Error::Reqwest(m) => m@,
            Error::InvalidDateRange => Seq::<char>::empty(),
            Error::Serde(m) => m@,
            Error::Other(m) => m@,
        }
    }

    /// The message of the failure: the kind, then the cause.
    pub fn to_string(&self) -> (r: String)
        ensures
            r@ == self.prefix() + self.cause(),
    {
        match self {
            Error::DbErr(m) => String::from_str("Database error: ").concat(m.as_str()),
            Error::Reqwest(m) => String::from_str("Reqwest error: ").concat(m.as_str()),
            Error::InvalidDateRange => {
                let r = String::from_str("Invalid date range");
                assert(r@ + Seq::<char>::empty() =~= r@);
                r
            },
            Error::Serde(m) => String::from_str("Serde error: ").concat(m.as_str()),
            Error::Other(m) => String::from_str("Other error: ").concat(m.as_str()),
        }
    }
}

} // verus!
