//! The error taxonomy of the protocol.  Item-scoped kinds are recorded in a
//! single item's outcome and never abort the job; the others are job-scoped
//! and end the job with one exception.

use vstd::prelude::*;

verus! {

#[derive(Clone, Copy, PartialEq, Eq, Structural, Debug)]
pub enum ErrorKind {
    /// The channel to the host is unavailable or failed.
    Transport,
    /// A malformed envelope, an unknown message kind, or a message out of turn.
    Protocol,
    /// The job request does not match its schema.
    Schema,
    /// A named secret could not be resolved for one item.
    SecretNotFound,
    /// One item's downloaded bytes do not hash to the declared digest.
    ChecksumMismatch,
    /// The download of one item failed.
    Download,
    /// The cache directory cannot be read or written.
    CacheIo,
}

impl ErrorKind {
    /// Whether this kind stays confined to one item of a job.  Everything
    /// else is an infrastructure failure and escalates to a job exception.
    pub open spec fn is_item_scoped(self) -> bool {
        match self {
            ErrorKind::SecretNotFound => true,
            ErrorKind::ChecksumMismatch => true,
            ErrorKind::Download => true,
            _ => false,
        }
    }
}

} // verus!
