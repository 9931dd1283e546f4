//! A resident task companion: tasks made of ordered steps, a single current
//! position that points at one step, interruption notes left when switching,
//! and a rest timer that raises an intervention after a stretch of continuous
//! work.
//!
//! - [`domain`] — the core that knows nothing of the operating system
//! - [`ports`] — what the core asks of the outside world
//! - [`adapters`] — the decisions of the adapters that talk to the operating system
//! - [`commands`] — the command boundary between the overlay and the core
//! - [`text`] — character-level helpers shared by the above

pub mod adapters;
pub mod commands;
pub mod domain;
pub mod ports;
pub mod text;

use vstd::prelude::*;

use adapters::hotkey::{opt_text, HotkeyStatus, ACCELERATOR};
use adapters::presentation::OVERLAY_LABEL;
use text::owned;

verus! {

/// The name of the event that tells the presentation layer that the current
/// position changed. Events are named `noun_past_participle`.
pub const CURRENT_POSITION_CHANGED: &'static str = "current_position_changed";

/// Decides whether an exit request must be refused.
///
/// `None` is an exit nobody asked for (the last window went away); `Some(_)`
/// comes from an explicit exit and passes.
pub fn should_prevent_exit(code: Option<i32>) -> (prevent: bool)
    ensures
        prevent == code.is_none(),
{
    code.is_none()
}

/// Why the hotkey cannot work when the overlay window was not created at start.
pub open spec fn overlay_missing_text() -> Seq<char> {
    "オーバーレイウィンドウ `"@ + OVERLAY_LABEL@ + "` が起動時に生成されなかった。ホットキーを押しても何も出ない。"@
}

/// The hotkey's status when the overlay window is missing at start: it is not
/// registered at all, since pressing it could show nothing, and saying it works
/// would be worse than saying it does not.
pub fn hotkey_status_without_overlay() -> (status: HotkeyStatus)
    ensures
        status.accelerator@ == ACCELERATOR@,
        !status.registered,
        opt_text(status.error) == Some(overlay_missing_text()),
{
    let mut reason = owned("オーバーレイウィンドウ `");
    reason.append(OVERLAY_LABEL);
    reason.append("` が起動時に生成されなかった。ホットキーを押しても何も出ない。");
    HotkeyStatus::failed(reason)
}

/// What the start of the process does after its checks.
#[derive(Debug, Clone, Copy, PartialEq, Eq, Structural)]
pub struct StartupActions {
    /// Show the overlay at once, to tell why the hotkey does not work.
    pub show_overlay: bool,
    /// Quit: without the status item there would be no way to quit at all.
    pub exit: bool,
}

/// The actions at start: a hotkey that failed is reported on screen at once
/// (it is the only way to call the overlay), and a status item that could not
/// be installed ends the process (it is the only explicit way to quit).
pub fn startup_actions(hotkey: &HotkeyStatus, status_item_installed: bool) -> (actions: StartupActions)
    ensures
        actions.show_overlay == !hotkey.registered,
        actions.exit == !status_item_installed,
{
    StartupActions { show_overlay: !hotkey.registered, exit: !status_item_installed }
}

} // verus!
