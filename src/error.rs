use vstd::prelude::*;

verus! {

/// The errors of the job queue.
#[derive(Debug, Clone)]
pub enum Error {
    BadConfig(String),
    ConnectingToDatabase(String),
    Internal(String),
    NotFound(String),
    DatabaseMigration(String),
}

pub open spec fn row_not_found_text() -> Seq<char> {
    "row not found"@
}

impl Error {
    /// The error for a failed store statement: `NotFound` when it matched no
    /// row, else `Internal` carrying the driver's description.
    pub fn from_driver(row_not_found: bool, description: String) -> (r: Error)
        ensures
            row_not_found ==> (r matches Error::NotFound(m) && m@ == row_not_found_text()),
            !row_not_found ==> r == Error::Internal(description),
    {
        if row_not_found {
            Error::NotFound(String::from_str("row not found"))
        } else {
            Error::Internal(description)
        }
    }
}

} // verus!
