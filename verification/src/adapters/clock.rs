//! The wall clock: the one place that reads the time of the system.
//!
//! The core asks the time only of a [`Clock`]; this is the real one. The wall
//! clock (not a monotonic one) is read because instants are stored and must
//! keep their meaning across restarts.

use vstd::prelude::*;

use crate::domain::{clamp_millis, Clock, Timestamp, MAX_UNIX_MILLIS, MIN_UNIX_MILLIS};

verus! {

/// `std::time::SystemTime::now().duration_since(UNIX_EPOCH)`, in milliseconds:
/// `Ok` after the epoch, `Err` with the distance before it. It reads the time,
/// so nothing is stated of the result.
#[verifier::external_body]
fn read_wall_clock() -> (elapsed: Result<u128, u128>) {
    match std::time::SystemTime::now().duration_since(std::time::UNIX_EPOCH) {
        Ok(elapsed) => Ok(elapsed.as_millis()),
        Err(error) => Err(error.duration().as_millis()),
    }
}

/// The instant of a reading of the wall clock: milliseconds after the epoch
/// (`Ok`) or before it (`Err`), clamped to the representable range.
pub open spec fn instant_of(elapsed: Result<u128, u128>) -> int {
    match elapsed {
        Ok(after) => clamp_millis(if after <= i64::MAX {
            after as int
        } else {
            MAX_UNIX_MILLIS as int
        }),
        Err(before) => clamp_millis(if before <= i64::MAX {
            -(before as int)
        } else {
            MIN_UNIX_MILLIS as int
        }),
    }
}

/// The instant of a reading of the wall clock. A time before the epoch stays
/// negative; a reading out of range goes to the nearest end of the range that
/// can be written and read back.
pub fn instant_of_elapsed(elapsed: Result<u128, u128>) -> (now: Timestamp)
    ensures
        now@ == instant_of(elapsed),
{
    let millis: i64 = match elapsed {
        Ok(after) => if after <= 9_223_372_036_854_775_807u128 {
            after as i64
        } else {
            MAX_UNIX_MILLIS
        },
        Err(before) => if before <= 9_223_372_036_854_775_807u128 {
            -(before as i64)
        } else {
            MIN_UNIX_MILLIS
        },
    };
    Timestamp::from_unix_millis(millis)
}

/// The wall clock of the system.
#[derive(Debug, Clone, Copy, Default)]
pub struct SystemClock;

impl SystemClock {
    /// The present instant, within the representable range.
    pub fn read(&self) -> (now: Timestamp)
        ensures
            MIN_UNIX_MILLIS <= now@ <= MAX_UNIX_MILLIS,
    {
        instant_of_elapsed(read_wall_clock())
    }
}

impl Clock for SystemClock {
    fn now(&self) -> (now: Timestamp)
        ensures
            MIN_UNIX_MILLIS <= now@ <= MAX_UNIX_MILLIS,
    {
        self.read()
    }
}

} // verus!
