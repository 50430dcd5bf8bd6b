//! The ways in which organizing an archive can fail.

use vstd::prelude::*;

verus! {

/// An error that ends a run.
#[derive(Debug, Clone, PartialEq, Eq)]
pub enum OrganizerError {
    /// A path that cannot be taken apart as text; it holds the path.
    WrongPathBuf(String),
    /// A record whose timestamp lies outside the dates that can be
    /// represented; it holds the timestamp.
    TimestampOutOfRange(i64),
    /// A record without timestamp whose upload date is no calendar date; it
    /// holds the text of the upload date.
    WrongUploadDate(String),
    /// A directory or link could not be made.
    WriteFailed,
}

} // verus!
