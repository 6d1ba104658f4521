//! Errors of the selection and resolution run.
//!
//! Every fallible step surfaces its error immediately and aborts the whole
//! run; callers must treat the mutated arguments of a failed run as undefined.

use vstd::prelude::*;

verus! {

/// The error kinds a selection or resolution run can end with.
#[derive(Clone, Copy, PartialEq, Eq, Structural, Debug)]
pub enum Error {
    /// Adding two amounts or native-token balances would exceed `u64::MAX`.
    Overflow,
    /// The ledger holds no output for a chain address that must be unlocked.
    OutputNotFound,
    /// A continuation output could not be built: advancing the alias state
    /// index would exceed `u32::MAX`.
    InvalidContinuation,
}

} // verus!
