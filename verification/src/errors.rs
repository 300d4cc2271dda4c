//! Error signals surfaced verbatim to callers.

use vstd::prelude::*;

verus! {

/// Every way a clock-in or a record read can fail.
///
/// - `AddressMismatch`: the caller-supplied slot address does not match the
///   recomputed canonical address; a client bug or a tamper attempt.
/// - `AlreadyRecordedToday`: the target slot already holds data; the owner
///   has already clocked in on that day.
/// - `AddressAlreadyAllocated`: the substrate reports the slot as non-empty
///   at the allocation step; the hard backstop against duplicate records.
/// - `UserNotRegistered`: the caller has not completed registration.
/// - `InsufficientPayerFunds`: the funding transfer cannot be covered.
/// - `MalformedRecord`: stored bytes do not match the expected encoding.
#[derive(Clone, Copy, Debug, PartialEq, Eq, Structural)]
pub enum ErrorCode {
    AddressMismatch,
    AlreadyRecordedToday,
    AddressAlreadyAllocated,
    UserNotRegistered,
    InsufficientPayerFunds,
    MalformedRecord,
}

} // verus!
