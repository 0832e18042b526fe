//! The engine's error taxonomy.
//!
//! Transient I/O failures are retried internally and only surface as
//! `CopyFailed` / `MoveFailed` after the retry budget is exhausted.

use vstd::prelude::*;
use vstd::string::StringExecFns;
use crate::text::{dec_digits, dec_str};

verus! {

/// One failure of an engine operation, naming the offending path where
/// there is one.
#[derive(Debug)]
pub enum FsError {
    /// The path does not exist.
    NotFound { path: String },
    /// The path exists but is not a directory.
    NotADirectory { path: String },
    /// A copy/move destination is missing or is not a directory.
    DestinationInvalid { path: String },
    /// A batch source does not exist; the remaining sources are not touched.
    SourceMissing { path: String },
    /// A path has no usable final component.
    InvalidName { path: String },
    /// A file copy still failed after the given number of attempts.
    CopyFailed { path: String, attempts: u32 },
    /// A rename still failed after the given number of attempts.
    MoveFailed { path: String, attempts: u32 },
    /// A search/rename pattern does not compile.
    PatternError { pattern: String },
}

impl FsError {
    /// The short descriptive text shown for this failure, naming the
    /// offending path and the cause.
    pub open spec fn spec_message(self) -> Seq<char> {
        match self {
            FsError::NotFound { path } => "Path does not exist: "@ + path@,
            FsError::NotADirectory { path } => "Path is not a directory: "@ + path@,
            FsError::DestinationInvalid { path } => "Invalid destination: "@ + path@,
            FsError::SourceMissing { path } => "Source does not exist: "@ + path@,
            FsError::InvalidName { path } => "Invalid file name: "@ + path@,
            FsError::CopyFailed { path, attempts } => "Failed to copy "@ + path@ + " after "@
                + dec_digits(attempts as nat) + " attempts"@,
            FsError::MoveFailed { path, attempts } => "Failed to move "@ + path@ + " after "@
                + dec_digits(attempts as nat) + " attempts"@,
            FsError::PatternError { pattern } => "Invalid pattern: "@ + pattern@,
        }
    }

    /// Formats the failure for the user; no failure is silent.
    pub fn message(&self) -> (r: String)
        ensures
            r@ == self.spec_message(),
    {
        match self {
            FsError::NotFound { path } => prefixed("Path does not exist: ", path),
            FsError::NotADirectory { path } => prefixed("Path is not a directory: ", path),
            FsError::DestinationInvalid { path } => prefixed("Invalid destination: ", path),
            FsError::SourceMissing { path } => prefixed("Source does not exist: ", path),
            FsError::InvalidName { path } => prefixed("Invalid file name: ", path),
            FsError::CopyFailed { path, attempts } => attempts_message(
                "Failed to copy ",
                path,
                *attempts,
            ),
            FsError::MoveFailed { path, attempts } => attempts_message(
                "Failed to move ",
                path,
                *attempts,
            ),
            FsError::PatternError { pattern } => prefixed("Invalid pattern: ", pattern),
        }
    }
}

fn prefixed(prefix: &str, path: &String) -> (r: String)
    ensures
        r@ == prefix@ + path@,
{
    let mut s = String::from_str(prefix);
    s.append(path.as_str());
    s
}

fn attempts_message(prefix: &str, path: &String, attempts: u32) -> (r: String)
    ensures
        r@ == prefix@ + path@ + " after "@ + dec_digits(attempts as nat) + " attempts"@,
{
    let mut s = String::from_str(prefix);
    s.append(path.as_str());
    s.append(" after ");
    let d = dec_str(attempts as u64);
    s.append(d.as_str());
    s.append(" attempts");
    proof {
        assert(s@ =~= prefix@ + path@ + " after "@ + dec_digits(attempts as nat) + " attempts"@);
    }
    s
}

} // verus!
