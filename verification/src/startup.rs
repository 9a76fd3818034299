//! The start of the program.

use vstd::prelude::*;

verus! {

/// Seconds between two attempts to reach the database.
pub const RETRY_SECONDS: u64 = 2;

/// Whether the attempt with this number, counted from one, to reach the database is made: if so,
/// the seconds to wait after it fails.
pub fn retry_after(attempt: u32, max_attempts: u32) -> (r: Option<u64>)
    ensures
        r == (if attempt <= max_attempts {
            Some(RETRY_SECONDS)
        } else {
            None
        }),
{
    if attempt <= max_attempts {
        Some(RETRY_SECONDS)
    } else {
        None
    }
}

} // verus!
