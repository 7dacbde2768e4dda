//! Interpreting the results of the OS readiness primitives.
//!
//! The readiness check itself is a system call made by the surrounding
//! program; what the library pins down is how its raw return value maps to
//! "readable", "nothing ready" or an error, so both platform primitives
//! expose identical semantics to the pipeline.

use vstd::prelude::*;

verus! {

/// The return value a poll-style readiness wait uses for failure.
pub const POLL_ERROR: i32 = -1;

/// Interprets the return value of a poll-style readiness wait over one
/// descriptor: a positive count means data is ready, zero means the wait
/// timed out with nothing ready, and the error value carries the failure.
pub fn poll_readiness(result: i32) -> (r: Result<bool, i32>)
    ensures
        result > 0 ==> r == Ok::<bool, i32>(true),
        result == 0 ==> r == Ok::<bool, i32>(false),
        result < 0 ==> r == Err::<bool, i32>(result),
{
    if result > 0 {
        Ok(true)
    } else if result == 0 {
        Ok(false)
    } else {
        Err(result)
    }
}

/// Interprets the result of a select-style readiness wait: the wait itself
/// failed with the error value, and otherwise the descriptor's membership
/// in the read set after the wait is its readiness.
pub fn select_readiness(result: i32, fd_in_read_set: bool) -> (r: Result<bool, i32>)
    ensures
        result < 0 ==> r == Err::<bool, i32>(result),
        result >= 0 ==> r == Ok::<bool, i32>(fd_in_read_set),
{
    if result < 0 {
        Err(result)
    } else {
        Ok(fd_in_read_set)
    }
}

} // verus!
