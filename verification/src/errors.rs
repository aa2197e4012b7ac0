//! The error taxonomy of the pipeline. Every failure aborts the invocation
//! and is surfaced to the caller; nothing is retried or locally recovered.

use vstd::prelude::*;

verus! {

/// Why a load or a query failed.
#[derive(Debug, PartialEq, Eq)]
pub enum ZsqlError {
    /// The input file path could not be opened for reading.
    FileNotFound { path: String },
    /// The file had no readable header line (zero-byte or unreadable).
    EmptyOrUnreadable { path: String },
    /// The relational store rejected a creation, insert or query request;
    /// its own words are carried verbatim.
    Engine { message: String },
}

/// The human-readable text of each error; the file errors name the offending
/// path verbatim.
pub open spec fn error_message_spec(e: ZsqlError) -> Seq<char> {
    match e {
        ZsqlError::FileNotFound { path } => "No such file '"@ + path@ + "'"@,
        ZsqlError::EmptyOrUnreadable { path } => "Unable to read contents of '"@ + path@ + "'"@,
        ZsqlError::Engine { message } => message@,
    }
}

impl ZsqlError {
    /// Render the error as text.
    pub fn message(&self) -> (r: String)
        ensures
            r@ == error_message_spec(*self),
    {
        match self {
            ZsqlError::FileNotFound { path } => {
                let mut s = "No such file '".to_owned();
                s.append(path.as_str());
                s.append("'");
                s
            },
            ZsqlError::EmptyOrUnreadable { path } => {
                let mut s = "Unable to read contents of '".to_owned();
                s.append(path.as_str());
                s.append("'");
                s
            },
            ZsqlError::Engine { message } => message.clone(),
        }
    }
}

} // verus!
