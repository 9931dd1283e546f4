//! Ports: what the core asks of the outside world, in the core's own words.
//!
//! - [`storage`] — persistence: restore the last committed state, and write
//!   what one operation settles in a single transaction.

pub mod storage;
