//! Showing and hiding the overlay.
//!
//! The overlay is created hidden at start and never destroyed: a close request
//! hides it. What to do next is decided from the recorded visibility alone, by
//! the pure functions here.

use vstd::prelude::*;

verus! {

/// The label of the overlay window.
pub const OVERLAY_LABEL: &'static str = "main";

/// What to do to the overlay next.
#[derive(Debug, Clone, Copy, PartialEq, Eq, Structural)]
pub enum OverlayAction {
    /// Show it and give it the focus.
    Show,
    /// Hide it and hand the focus back to the previous application.
    Hide,
}

/// What the hotkey does: hide a visible overlay, show a hidden one.
pub fn toggle_action(is_visible: bool) -> (action: OverlayAction)
    ensures
        action == (if is_visible {
            OverlayAction::Hide
        } else {
            OverlayAction::Show
        }),
{
    if is_visible {
        OverlayAction::Hide
    } else {
        OverlayAction::Show
    }
}

/// What a close request (Escape, losing the focus) does: hide a visible
/// overlay; nothing when it is hidden — a close request never opens it.
pub fn close_action(is_visible: bool) -> (action: Option<OverlayAction>)
    ensures
        action == (if is_visible {
            Some(OverlayAction::Hide)
        } else {
            None::<OverlayAction>
        }),
{
    if is_visible {
        Some(OverlayAction::Hide)
    } else {
        None
    }
}

/// How a close request ends.
#[derive(Debug, Clone, Copy, PartialEq, Eq, Structural)]
pub enum HideOutcome {
    /// Hide it.
    Apply(OverlayAction),
    /// It is already hidden: nothing to do, and no failure.
    AlreadyHidden,
    /// The window does not exist: never to be reported as success.
    WindowMissing,
}

/// How a close request ends, from the visibility and whether the window exists.
pub fn hide_outcome(is_visible: bool, window_present: bool) -> (outcome: HideOutcome)
    ensures
        outcome == (if !window_present {
            HideOutcome::WindowMissing
        } else if is_visible {
            HideOutcome::Apply(OverlayAction::Hide)
        } else {
            HideOutcome::AlreadyHidden
        }),
{
    if !window_present {
        return HideOutcome::WindowMissing;
    }
    match close_action(is_visible) {
        Some(action) => HideOutcome::Apply(action),
        None => HideOutcome::AlreadyHidden,
    }
}

/// Whether the overlay is visible after the action.
pub open spec fn visible_after(action: OverlayAction) -> bool {
    action == OverlayAction::Show
}

/// Whether the overlay is visible after the action.
pub fn visibility_after(action: OverlayAction) -> (visible: bool)
    ensures
        visible == visible_after(action),
{
    match action {
        OverlayAction::Show => true,
        OverlayAction::Hide => false,
    }
}

/// The visibility after a toggle.
pub open spec fn toggled(is_visible: bool) -> bool {
    visible_after(if is_visible {
        OverlayAction::Hide
    } else {
        OverlayAction::Show
    })
}

/// The visibility after a close request.
pub open spec fn closed(is_visible: bool) -> bool {
    match (if is_visible {
        Some(OverlayAction::Hide)
    } else {
        None::<OverlayAction>
    }) {
        Some(action) => visible_after(action),
        None => is_visible,
    }
}

/// The toggle flips the visibility, so two presses return to where they began.
pub proof fn law_toggle_is_an_involution(is_visible: bool)
    ensures
        toggled(is_visible) == !is_visible,
        toggled(toggled(is_visible)) == is_visible,
{
}

/// A close request never shows the overlay, always leaves it hidden, and a
/// second one changes nothing.
pub proof fn law_close_never_opens(is_visible: bool)
    ensures
        !closed(is_visible),
        closed(closed(is_visible)) == closed(is_visible),
        (if is_visible {
            Some(OverlayAction::Hide)
        } else {
            None::<OverlayAction>
        }) != Some(OverlayAction::Show),
{
}

} // verus!
