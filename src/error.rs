//! The errors of a transfer and of the task registry.
use vstd::prelude::*;

verus! {

/// Why a transfer, or an operation on a task, did not succeed.
#[derive(Clone, Copy, Debug, PartialEq, Eq, Structural)]
pub enum TransferError {
    /// The probe response carried neither a usable length nor a range total.
    SizeUnavailable,
    /// The request could not be sent or its body not read.
    NetworkFailure,
    /// The server answered with a status that is not a success.
    HttpStatus(u16),
    /// A chunk arrived without a single byte.
    ChunkEmpty,
    /// A chunk could not be written to its artifact.
    ChunkWriteFailure,
    /// A chunk failed once more after its last allowed retry.
    RetriesExhausted,
    /// A chunk failed while every failure permit was taken.
    TooManyParallelFailures,
    /// The assembled output does not have the announced length.
    SizeMismatch,
    /// The assembled output does not have the expected digest.
    HashMismatch,
    /// The parts could not be read or the output not written.
    MergeIOError,
    /// The task is not in a state from which the operation may start.
    InvalidStateTransition,
    /// No task is registered under the given URL.
    TaskNotFound,
    /// A task is already registered under the given URL.
    TaskAlreadyExists,
    /// No chunk may be in flight, or the size cannot be planned in chunks of
    /// the given size.
    InvalidConfiguration,
    /// The failure budget is larger than the number of chunks in flight.
    FailureBudgetExceedsConcurrency,
    /// Retries are set without a failure budget, or a failure budget without
    /// retries.
    RetryBudgetMismatch,
    /// A proxy URL does not begin with `http://` or `https://`.
    InvalidProxyUrl,
}

} // verus!
