//! The status item: the one visible surface, and the only explicit way to quit.
//!
//! Its menu holds three items only: "open", "quit", and an inert line telling
//! the state of the hotkey. No badge, count or progress.

use vstd::prelude::*;

use super::hotkey::HotkeyStatus;
use crate::text::owned;

verus! {

/// The id of the "open" item.
pub const OPEN_ITEM_ID: &'static str = "open";

/// The id of the "quit" item.
pub const QUIT_ITEM_ID: &'static str = "quit";

/// The id of the inert line telling the state of the hotkey.
pub const HOTKEY_STATUS_ITEM_ID: &'static str = "hotkey-status";

/// The line telling the state of the hotkey: its accelerator, then whether it
/// works; success and failure read differently.
pub open spec fn status_text(accelerator: Seq<char>, registered: bool) -> Seq<char> {
    "ホットキー "@ + accelerator + if registered {
        " — 有効"@
    } else {
        " — 登録できなかった"@
    }
}

/// The line telling the state of the hotkey.
pub fn status_line(status: &HotkeyStatus) -> (line: String)
    ensures
        line@ == status_text(status.accelerator@, status.registered),
{
    let mut line = owned("ホットキー ");
    line.append(status.accelerator.as_str());
    if status.registered {
        line.append(" — 有効");
    } else {
        line.append(" — 登録できなかった");
    }
    line
}

} // verus!
