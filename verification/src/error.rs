//! The errors that the engines report.

use vstd::prelude::*;
use vstd::string::StringExecFns;

verus! {

/// What an engine operation can fail with.
#[derive(Debug)]
pub enum KvsError {
    /// A log file could not be opened or read; holds the reason.
    IoErr(String),
    /// A record could not be encoded or decoded; holds the reason.
    SerdeErr(String),
    /// `remove` was asked for a key that is not in the store.
    KeyNotFound,
    /// An indexed position held a record other than a `Set`.
    UnexpectedCommandErr,
    /// The sled engine failed; holds the reason.
    SledErr(String),
    /// A stored value is not valid UTF-8.
    Utf8Err,
    /// The data directory was written by another engine than the one asked
    /// for.
    EngineMismatch,
}

pub type Result<T> = core::result::Result<T, KvsError>;

impl KvsError {
    /// The text that describes the error to a user.
    pub open spec fn message_spec(self) -> Seq<char> {
        match self {
            KvsError::IoErr(reason) => reason@,
            KvsError::SerdeErr(reason) => reason@,
            KvsError::KeyNotFound => "Key not found"@,
            KvsError::UnexpectedCommandErr => "Unexpected command"@,
            KvsError::SledErr(_) => "Sled err"@,
            KvsError::Utf8Err => "utf8 conversion error"@,
            KvsError::EngineMismatch => "Engine mismatch"@,
        }
    }

    /// Returns the text that describes the error to a user.
    pub fn message(&self) -> (text: String)
        ensures
            text@ == self.message_spec(),
    {
        match self {
            KvsError::IoErr(reason) => reason.clone(),
            KvsError::SerdeErr(reason) => reason.clone(),
            KvsError::KeyNotFound => String::from_str("Key not found"),
            KvsError::UnexpectedCommandErr => String::from_str("Unexpected command"),
            KvsError::SledErr(_) => String::from_str("Sled err"),
            KvsError::Utf8Err => String::from_str("utf8 conversion error"),
            KvsError::EngineMismatch => String::from_str("Engine mismatch"),
        }
    }
}

} // verus!
