//! The error taxonomy of the runtime, one to one with the public result codes.

use vstd::prelude::*;

verus! {

/// Runtime errors.
#[derive(Debug, Clone, Copy, PartialEq, Eq, Hash, Structural)]
pub enum CoreError {
    /// The operation succeeded (no error).
    Success,
    /// The operation was cancelled (typically by the caller).
    Cancelled,
    /// An unknown error occurred.
    Unknown,
    /// The caller passed an invalid argument (handle value, option, ...).
    InvalidArgument,
    /// The deadline expired before the operation completed.
    DeadlineExceeded,
    /// The requested entity was not found.
    NotFound,
    /// The entity already exists.
    AlreadyExists,
    /// The caller does not have permission.
    PermissionDenied,
    /// A resource limit was exceeded (handle table full, ...).
    ResourceExhausted,
    /// The operation could not proceed given the current state.
    FailedPrecondition,
    /// The operation was aborted.
    Aborted,
    /// The argument was out of range.
    OutOfRange,
    /// The operation is unimplemented.
    Unimplemented,
    /// An internal error occurred.
    Internal,
    /// The service is unavailable.
    Unavailable,
    /// Data was lost.
    DataLoss,
    /// A resource is busy.
    Busy,
    /// The operation would block (non-blocking mode).
    ShouldWait,
}

impl CoreError {
    /// The public name of the code.
    pub open spec fn spec_name(self) -> Seq<char> {
        match self {
            CoreError::Success => "MOJO_RESULT_OK"@,
            CoreError::Cancelled => "MOJO_RESULT_CANCELLED"@,
            CoreError::Unknown => "MOJO_RESULT_UNKNOWN"@,
            CoreError::InvalidArgument => "MOJO_RESULT_INVALID_ARGUMENT"@,
            CoreError::DeadlineExceeded => "MOJO_RESULT_DEADLINE_EXCEEDED"@,
            CoreError::NotFound => "MOJO_RESULT_NOT_FOUND"@,
            CoreError::AlreadyExists => "MOJO_RESULT_ALREADY_EXISTS"@,
            CoreError::PermissionDenied => "MOJO_RESULT_PERMISSION_DENIED"@,
            CoreError::ResourceExhausted => "MOJO_RESULT_RESOURCE_EXHAUSTED"@,
            CoreError::FailedPrecondition => "MOJO_RESULT_FAILED_PRECONDITION"@,
            CoreError::Aborted => "MOJO_RESULT_ABORTED"@,
            CoreError::OutOfRange => "MOJO_RESULT_OUT_OF_RANGE"@,
            CoreError::Unimplemented => "MOJO_RESULT_UNIMPLEMENTED"@,
            CoreError::Internal => "MOJO_RESULT_INTERNAL"@,
            CoreError::Unavailable => "MOJO_RESULT_UNAVAILABLE"@,
            CoreError::DataLoss => "MOJO_RESULT_DATA_LOSS"@,
            CoreError::Busy => "MOJO_RESULT_BUSY"@,
            CoreError::ShouldWait => "MOJO_RESULT_SHOULD_WAIT"@,
        }
    }

    /// The public name of the code.
    pub fn name(self) -> (r: &'static str)
        ensures
            r@ == self.spec_name(),
    {
        match self {
            CoreError::Success => "MOJO_RESULT_OK",
            CoreError::Cancelled => "MOJO_RESULT_CANCELLED",
            CoreError::Unknown => "MOJO_RESULT_UNKNOWN",
            CoreError::InvalidArgument => "MOJO_RESULT_INVALID_ARGUMENT",
            CoreError::DeadlineExceeded => "MOJO_RESULT_DEADLINE_EXCEEDED",
            CoreError::NotFound => "MOJO_RESULT_NOT_FOUND",
            CoreError::AlreadyExists => "MOJO_RESULT_ALREADY_EXISTS",
            CoreError::PermissionDenied => "MOJO_RESULT_PERMISSION_DENIED",
            CoreError::ResourceExhausted => "MOJO_RESULT_RESOURCE_EXHAUSTED",
            CoreError::FailedPrecondition => "MOJO_RESULT_FAILED_PRECONDITION",
            CoreError::Aborted => "MOJO_RESULT_ABORTED",
            CoreError::OutOfRange => "MOJO_RESULT_OUT_OF_RANGE",
            CoreError::Unimplemented => "MOJO_RESULT_UNIMPLEMENTED",
            CoreError::Internal => "MOJO_RESULT_INTERNAL",
            CoreError::Unavailable => "MOJO_RESULT_UNAVAILABLE",
            CoreError::DataLoss => "MOJO_RESULT_DATA_LOSS",
            CoreError::Busy => "MOJO_RESULT_BUSY",
            CoreError::ShouldWait => "MOJO_RESULT_SHOULD_WAIT",
        }
    }

    /// The numeric value of the code: the codes are numbered from 0 on.
    pub open spec fn spec_code(self) -> u32 {
        match self {
            CoreError::Success => 0,
            CoreError::Cancelled => 1,
            CoreError::Unknown => 2,
            CoreError::InvalidArgument => 3,
            CoreError::DeadlineExceeded => 4,
            CoreError::NotFound => 5,
            CoreError::AlreadyExists => 6,
            CoreError::PermissionDenied => 7,
            CoreError::ResourceExhausted => 8,
            CoreError::FailedPrecondition => 9,
            CoreError::Aborted => 10,
            CoreError::OutOfRange => 11,
            CoreError::Unimplemented => 12,
            CoreError::Internal => 13,
            CoreError::Unavailable => 14,
            CoreError::DataLoss => 15,
            CoreError::Busy => 16,
            CoreError::ShouldWait => 17,
        }
    }

    /// The numeric value of the code.
    pub fn code(self) -> (r: u32)
        ensures
            r == self.spec_code(),
    {
        match self {
            CoreError::Success => 0,
            CoreError::Cancelled => 1,
            CoreError::Unknown => 2,
            CoreError::InvalidArgument => 3,
            CoreError::DeadlineExceeded => 4,
            CoreError::NotFound => 5,
            CoreError::AlreadyExists => 6,
            CoreError::PermissionDenied => 7,
            CoreError::ResourceExhausted => 8,
            CoreError::FailedPrecondition => 9,
            CoreError::Aborted => 10,
            CoreError::OutOfRange => 11,
            CoreError::Unimplemented => 12,
            CoreError::Internal => 13,
            CoreError::Unavailable => 14,
            CoreError::DataLoss => 15,
            CoreError::Busy => 16,
            CoreError::ShouldWait => 17,
        }
    }
}

/// Result alias for runtime operations.
pub type CoreResult<T> = Result<T, CoreError>;

/// No two errors share a code, and the codes are the numbers below 18.
pub proof fn law_codes_are_distinct(a: CoreError, b: CoreError)
    ensures
        a.spec_code() == b.spec_code() ==> a == b,
        a.spec_code() < 18,
{
}

} // verus!
