use vstd::prelude::*;

verus! {

/// Why a wire read failed.
#[derive(Clone, Copy, PartialEq, Eq, Structural, Debug)]
pub enum ReadErrorKind {
    /// The input ended before the record was complete.
    UnexpectedEnd,
    /// A variable-length integer did not fit the target type.
    Overflow,
    /// A transport TLV type byte was not recognised.
    UnknownTlvType,
    /// An application TLV type byte was not recognised.
    UnknownAppTlvType,
    /// The application id in a host information record was not recognised.
    UnknownApplication,
    /// An error message carried an unknown error code.
    UnknownErrorCode,
    /// A TLV body consumed a different number of bytes than announced.
    LengthMismatch,
    /// The frame checksum did not match the transmitted value.
    Checksum,
    /// A wire string was not valid UTF-8.
    InvalidUtf8,
    /// Any other failure, described only by the message.
    Other,
}

/// A structured parse error: a kind for callers that dispatch on it,
/// and a human-readable message.
#[derive(Debug)]
pub struct ReadError {
    pub kind: ReadErrorKind,
    pub what: String,
}

impl ReadError {
    /// An error of kind `Other` carrying only a message.
    pub fn new(msg: &str) -> (r: ReadError)
        ensures
            r.kind == ReadErrorKind::Other,
            r.what@ == msg@,
    {
        ReadError { kind: ReadErrorKind::Other, what: msg.to_string() }
    }

    /// An error with an explicit kind.
    pub fn of_kind(kind: ReadErrorKind, msg: &str) -> (r: ReadError)
        ensures
            r.kind == kind,
            r.what@ == msg@,
    {
        ReadError { kind, what: msg.to_string() }
    }
}

/// Outcome of reading one record.
pub enum ReadResult {
    Success,
    Failure(ReadError),
}

} // verus!
