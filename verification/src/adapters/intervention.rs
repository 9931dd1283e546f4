//! The intervention panel: a non-activating panel that never takes the keyboard.
//!
//! It is a window of its own, separate from the overlay; it has no toggle — an
//! intervention closes only when the user answers it.

use vstd::prelude::*;

use crate::text::owned;

verus! {

/// The label of the panel window (distinct from the overlay's, so that close
/// requests are never mistaken for one another).
pub const INTERVENTION_LABEL: &'static str = "intervention";

/// What to do to the panel next. There is no toggle.
#[derive(Debug, Clone, Copy, PartialEq, Eq, Structural)]
pub enum PanelAction {
    /// Show it, without taking the focus.
    Show,
    /// Hide it.
    Hide,
}

/// Whether the panel is visible after the action.
pub fn visibility_after(action: PanelAction) -> (visible: bool)
    ensures
        visible == (action == PanelAction::Show),
{
    match action {
        PanelAction::Show => true,
        PanelAction::Hide => false,
    }
}

/// The action still to take: none when the panel is already as asked (never
/// shown twice, never hidden twice).
pub fn action_for(target: PanelAction, is_visible: bool) -> (action: Option<PanelAction>)
    ensures
        action == (if (target == PanelAction::Show) == is_visible {
            None
        } else {
            Some(target)
        }),
{
    if visibility_after(target) == is_visible {
        None
    } else {
        Some(target)
    }
}

/// `min(v, i32::MAX)`, as `i32::try_from(v).unwrap_or(i32::MAX)`.
pub open spec fn clamped_size(v: u32) -> int {
    if v <= i32::MAX {
        v as int
    } else {
        i32::MAX as int
    }
}

/// `v` when it fits in `i32`, else zero, as `i32::try_from(v).unwrap_or(0)`.
pub open spec fn size_or_zero(v: u32) -> int {
    if v <= i32::MAX {
        v as int
    } else {
        0
    }
}

/// Each step of `origin + screen - panel - margin` stays within `i32`.
pub open spec fn corner_fits(origin: i32, screen: u32, panel: u32, margin: i32) -> bool {
    &&& i32::MIN <= origin + clamped_size(screen) <= i32::MAX
    &&& i32::MIN <= origin + clamped_size(screen) - size_or_zero(panel) <= i32::MAX
    &&& i32::MIN <= origin + clamped_size(screen) - size_or_zero(panel) - margin <= i32::MAX
}

/// The position that puts the panel in the bottom right corner of the screen,
/// `margin` inside its edges; the screen's origin is added, so that a panel on
/// a second screen is not placed off the main one.
pub fn corner_position(
    screen_origin: (i32, i32),
    screen_size: (u32, u32),
    panel_size: (u32, u32),
    margin: i32,
) -> (position: (i32, i32))
    requires
        corner_fits(screen_origin.0, screen_size.0, panel_size.0, margin),
        corner_fits(screen_origin.1, screen_size.1, panel_size.1, margin),
    ensures
        position.0 == screen_origin.0 + clamped_size(screen_size.0) - size_or_zero(panel_size.0) - margin,
        position.1 == screen_origin.1 + clamped_size(screen_size.1) - size_or_zero(panel_size.1) - margin,
{
    let screen_w: i32 = if screen_size.0 <= 2147483647 {
        screen_size.0 as i32
    } else {
        2147483647
    };
    let panel_w: i32 = if panel_size.0 <= 2147483647 {
        panel_size.0 as i32
    } else {
        0
    };
    let screen_h: i32 = if screen_size.1 <= 2147483647 {
        screen_size.1 as i32
    } else {
        2147483647
    };
    let panel_h: i32 = if panel_size.1 <= 2147483647 {
        panel_size.1 as i32
    } else {
        0
    };
    let x = screen_origin.0 + screen_w - panel_w - margin;
    let y = screen_origin.1 + screen_h - panel_h - margin;
    (x, y)
}

/// Why an operation on the panel failed.
#[derive(Debug, Clone, PartialEq, Eq)]
pub enum InterventionError {
    /// The panel's window does not exist.
    WindowMissing(&'static str),
    /// The window was not turned into a non-activating panel.
    NotAPanel(&'static str),
    /// A call to the operating system failed.
    Window(String),
}

impl InterventionError {
    /// The message shown for this error.
    pub fn message(&self) -> (message: String)
        ensures
            message@ == match *self {
                InterventionError::WindowMissing(label) => "介入パネルのウィンドウ `"@ + label@ + "` が存在しない"@,
                InterventionError::NotAPanel(label) => "ウィンドウ `"@ + label@
                    + "` が非活性パネルになっていない — 介入は入力先を奪わない形で出せない"@,
                InterventionError::Window(detail) => "介入パネルの操作に失敗した: "@ + detail@,
            },
    {
        match self {
            InterventionError::WindowMissing(label) => {
                let mut message = owned("介入パネルのウィンドウ `");
                message.append(label);
                message.append("` が存在しない");
                message
            },
            InterventionError::NotAPanel(label) => {
                let mut message = owned("ウィンドウ `");
                message.append(label);
                message.append("` が非活性パネルになっていない — 介入は入力先を奪わない形で出せない");
                message
            },
            InterventionError::Window(detail) => {
                let mut message = owned("介入パネルの操作に失敗した: ");
                message.append(detail.as_str());
                message
            },
        }
    }
}

} // verus!
