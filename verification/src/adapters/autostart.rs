//! Registration at login.
//!
//! The crate that reads the registration cannot tell "never registered" from
//! "removed by the user", so the first registration leaves a marker, and after
//! it nothing registers again: a removal by the user is never undone.

use vstd::prelude::*;

verus! {

/// The file name of the marker left by the one-time registration.
pub const REGISTRATION_MARKER: &'static str = "autostart-registered";

/// Whether to register at login: only the first time, and never over a
/// registration or a removal by the user.
pub fn should_register(already_attempted: bool, currently_enabled: bool) -> (register: bool)
    ensures
        register == (!already_attempted && !currently_enabled),
{
    !already_attempted && !currently_enabled
}

} // verus!
