//! Global hotkeys: the one that calls the overlay, and the two that answer an
//! intervention while it is on show.
//!
//! The shortcut plugin fires twice per keypress (pressed, then released); only
//! the press counts, or one keypress would toggle twice and seem to do nothing.
//! A failed registration never stops the resident process: it is a value,
//! carried to the user.

use vstd::prelude::*;

use crate::domain::rest::InterventionChoice;
use crate::text::owned;

verus! {

/// The accelerator shown to the user for calling the overlay. Control + Option
/// + Space collides neither with Spotlight nor with switching input sources.
pub const ACCELERATOR: &'static str = "Control + Option + Space";

/// The accelerator of "take a rest".
pub const REST_ACCELERATOR: &'static str = "Control + Option + R";

/// The accelerator of "ask again after the grace period".
pub const GRACE_ACCELERATOR: &'static str = "Control + Option + G";

/// Whether a shortcut event is a press or a release.
#[derive(Debug, Clone, Copy, PartialEq, Eq, Structural)]
pub enum KeyState {
    /// The key went down.
    Pressed,
    /// The key came up.
    Released,
}

/// The text of an optional string.
pub open spec fn opt_text(text: Option<String>) -> Option<Seq<char>> {
    match text {
        Some(t) => Some(t@),
        None => None,
    }
}

fn clone_opt(text: &Option<String>) -> (copy: Option<String>)
    ensures
        opt_text(copy) == opt_text(*text),
{
    match text {
        Some(t) => Some(t.clone()),
        None => None,
    }
}

/// The result of registering the overlay hotkey.
#[derive(Debug)]
pub struct HotkeyStatus {
    /// The accelerator shown to the user.
    pub accelerator: String,
    /// Whether the registration succeeded.
    pub registered: bool,
    /// Why it failed, shown to the user.
    pub error: Option<String>,
}

impl Clone for HotkeyStatus {
    fn clone(&self) -> (copy: Self)
        ensures
            copy.accelerator@ == self.accelerator@,
            copy.registered == self.registered,
            opt_text(copy.error) == opt_text(self.error),
    {
        HotkeyStatus {
            accelerator: self.accelerator.clone(),
            registered: self.registered,
            error: clone_opt(&self.error),
        }
    }
}

impl HotkeyStatus {
    /// The hotkey was registered.
    pub fn registered() -> (status: Self)
        ensures
            status.accelerator@ == ACCELERATOR@,
            status.registered,
            status.error.is_none(),
    {
        HotkeyStatus { accelerator: owned(ACCELERATOR), registered: true, error: None }
    }

    /// The hotkey could not be registered, for the given reason.
    pub fn failed(error: String) -> (status: Self)
        ensures
            status.accelerator@ == ACCELERATOR@,
            !status.registered,
            opt_text(status.error) == Some(error@),
    {
        HotkeyStatus { accelerator: owned(ACCELERATOR), registered: false, error: Some(error) }
    }
}

/// The result of registering the two answering hotkeys. A failure never
/// keeps the intervention from showing: it can still be answered by clicking.
#[derive(Debug)]
pub struct ResponseHotkeyStatus {
    /// The accelerator of "take a rest".
    pub rest_accelerator: String,
    /// The accelerator of "ask again later".
    pub grace_accelerator: String,
    /// Whether both were registered.
    pub registered: bool,
    /// Why not, shown to the user.
    pub error: Option<String>,
}

/// `parts` joined with `separator` between them.
pub open spec fn joined(parts: Seq<Seq<char>>, separator: Seq<char>) -> Seq<char>
    decreases parts.len(),
{
    if parts.len() == 0 {
        Seq::empty()
    } else if parts.len() == 1 {
        parts[0]
    } else {
        joined(parts.drop_last(), separator) + separator + parts.last()
    }
}

/// The texts of a list of strings.
pub open spec fn string_texts(strings: Seq<String>) -> Seq<Seq<char>> {
    strings.map_values(|s: String| s@)
}

/// The prefix of the message of a failed registration of the answering hotkeys.
pub open spec fn response_failure_prefix() -> Seq<char> {
    "応答のホットキーを登録できなかった (他のアプリケーションが同じ打鍵を保持している可能性がある) — "@
}

impl ResponseHotkeyStatus {
    /// Both were registered.
    pub fn registered() -> (status: Self)
        ensures
            status.rest_accelerator@ == REST_ACCELERATOR@,
            status.grace_accelerator@ == GRACE_ACCELERATOR@,
            status.registered,
            status.error.is_none(),
    {
        ResponseHotkeyStatus {
            rest_accelerator: owned(REST_ACCELERATOR),
            grace_accelerator: owned(GRACE_ACCELERATOR),
            registered: true,
            error: None,
        }
    }

    /// They could not be registered, for the given reason.
    pub fn failed(error: String) -> (status: Self)
        ensures
            status.rest_accelerator@ == REST_ACCELERATOR@,
            status.grace_accelerator@ == GRACE_ACCELERATOR@,
            !status.registered,
            opt_text(status.error) == Some(error@),
    {
        ResponseHotkeyStatus {
            rest_accelerator: owned(REST_ACCELERATOR),
            grace_accelerator: owned(GRACE_ACCELERATOR),
            registered: false,
            error: Some(error),
        }
    }

    /// The status after trying to register both: registered when nothing
    /// failed, else failed with every failure, joined by ` / `.
    pub fn from_failures(failures: &[String]) -> (status: Self)
        ensures
            failures@.len() == 0 ==> status.registered && status.error.is_none(),
            failures@.len() > 0 ==> !status.registered && opt_text(status.error) == Some(
                response_failure_prefix() + joined(string_texts(failures@), " / "@),
            ),
            status.rest_accelerator@ == REST_ACCELERATOR@,
            status.grace_accelerator@ == GRACE_ACCELERATOR@,
    {
        if failures.len() == 0 {
            return Self::registered();
        }
        let ghost parts = string_texts(failures@);
        let mut message = owned("応答のホットキーを登録できなかった (他のアプリケーションが同じ打鍵を保持している可能性がある) — ");
        let ghost prefix = message@;
        message.append(failures[0].as_str());
        let mut i: usize = 1;
        proof {
            assert(parts.subrange(0, 1).drop_last() =~= Seq::<Seq<char>>::empty());
            assert(joined(parts.subrange(0, 1), " / "@) == parts[0]);
        }
        while i < failures.len()
            invariant
                1 <= i <= failures@.len(),
                parts == string_texts(failures@),
                message@ == prefix + joined(parts.subrange(0, i as int), " / "@),
            decreases failures.len() - i,
        {
            message.append(" / ");
            message.append(failures[i].as_str());
            proof {
                assert(parts.subrange(0, i + 1).drop_last() =~= parts.subrange(0, i as int));
                assert(parts.subrange(0, i + 1).last() == failures@[i as int]@);
            }
            i = i + 1;
        }
        assert(parts.subrange(0, failures@.len() as int) =~= parts);
        Self::failed(message)
    }
}

/// Whether one event of the handler toggles the overlay: only the press of the
/// overlay's own shortcut — one keypress, one toggle.
pub fn should_toggle(state: KeyState, is_overlay_shortcut: bool) -> (toggle: bool)
    ensures
        toggle == (is_overlay_shortcut && state == KeyState::Pressed),
{
    is_overlay_shortcut && state == KeyState::Pressed
}

/// The answer an event of the handler gives: only a press counts, and only a
/// shortcut that is exactly one of the two; an event matching both or neither
/// chooses nothing.
pub fn response_choice(state: KeyState, is_rest_shortcut: bool, is_grace_shortcut: bool) -> (choice: Option<InterventionChoice>)
    ensures
        choice == (if state != KeyState::Pressed {
            None
        } else if is_rest_shortcut && !is_grace_shortcut {
            Some(InterventionChoice::Rest)
        } else if !is_rest_shortcut && is_grace_shortcut {
            Some(InterventionChoice::Grace)
        } else {
            None
        }),
{
    if state != KeyState::Pressed {
        return None;
    }
    match (is_rest_shortcut, is_grace_shortcut) {
        (true, false) => Some(InterventionChoice::Rest),
        (false, true) => Some(InterventionChoice::Grace),
        _ => None,
    }
}

} // verus!
