//! The application menu, which gives the editing shortcuts back.
//!
//! On macOS a shortcut with a modifier is a key equivalent, resolved through
//! the main menu; without an Edit menu nothing turns Command-V into "paste".
//! The menu built from these tables holds no quit item, so Command-Q stays
//! bound to nothing; the only way to quit remains the status item.

use vstd::prelude::*;

verus! {

/// The title of the Edit menu.
pub const EDIT_SUBMENU_TITLE: &'static str = "編集";

/// A row of the application menu, as data, so that its properties can be checked.
#[derive(Debug, Clone, Copy, PartialEq, Eq)]
pub struct MenuRow {
    /// The item's id.
    pub id: &'static str,
    /// The label shown.
    pub label: &'static str,
    /// Whether it can be chosen.
    pub enabled: bool,
    /// The key bound to it.
    pub accelerator: Option<&'static str>,
}

/// The contents of the application menu (the first submenu): one inert row
/// that only fills the place, so that the Edit menu is not taken for the
/// application menu. It binds no key and cannot be chosen.
pub fn application_menu() -> (rows: [MenuRow; 1])
    ensures
        !rows[0].enabled,
        rows[0].accelerator.is_none(),
        rows[0].id@ == "appmenu-placeholder"@,
        rows[0].label@ == "終了はメニューバーの項目から"@,
{
    [
        MenuRow {
            id: "appmenu-placeholder",
            label: "終了はメニューバーの項目から",
            enabled: false,
            accelerator: None,
        },
    ]
}

/// The kinds of top-level submenus; the first one shows as the application menu.
#[derive(Debug, Clone, Copy, PartialEq, Eq, Structural)]
pub enum TopLevelSubmenu {
    /// The application menu (macOS titles it with the application's name).
    Application,
    /// The Edit menu: it turns editing shortcuts into actions.
    Edit,
}

/// The top level, in order: the application menu first.
pub const TOP_LEVEL: [TopLevelSubmenu; 2] = [TopLevelSubmenu::Application, TopLevelSubmenu::Edit];

/// The items the Edit menu may hold: standard items of the system. There is no
/// quit and no close among them, so none can slip into the Edit menu.
#[derive(Debug, Clone, Copy, PartialEq, Eq, Structural)]
pub enum EditItem {
    /// Undo (Command-Z).
    Undo,
    /// Redo (Shift-Command-Z).
    Redo,
    /// Cut (Command-X).
    Cut,
    /// Copy (Command-C).
    Copy,
    /// Paste (Command-V).
    Paste,
    /// Select all (Command-A).
    SelectAll,
    /// A separator line.
    Separator,
}

/// The label of an item; a separator has none.
pub open spec fn label_of(item: EditItem) -> Option<Seq<char>> {
    match item {
        EditItem::Undo => Some("取り消し"@),
        EditItem::Redo => Some("やり直し"@),
        EditItem::Cut => Some("切り取り"@),
        EditItem::Copy => Some("コピー"@),
        EditItem::Paste => Some("貼り付け"@),
        EditItem::SelectAll => Some("すべてを選択"@),
        EditItem::Separator => None,
    }
}

/// The name of each variant.
pub open spec fn variant_name_of(item: EditItem) -> Seq<char> {
    match item {
        EditItem::Undo => "Undo"@,
        EditItem::Redo => "Redo"@,
        EditItem::Cut => "Cut"@,
        EditItem::Copy => "Copy"@,
        EditItem::Paste => "Paste"@,
        EditItem::SelectAll => "SelectAll"@,
        EditItem::Separator => "Separator"@,
    }
}

/// The constructor that makes each item: the variant's name in snake case.
pub open spec fn constructor_name_of(item: EditItem) -> Seq<char> {
    match item {
        EditItem::Undo => "undo"@,
        EditItem::Redo => "redo"@,
        EditItem::Cut => "cut"@,
        EditItem::Copy => "copy"@,
        EditItem::Paste => "paste"@,
        EditItem::SelectAll => "select_all"@,
        EditItem::Separator => "separator"@,
    }
}

impl EditItem {
    /// The label shown; a separator has none.
    pub fn label(self) -> (label: Option<&'static str>)
        ensures
            match label {
                Some(text) => label_of(self) == Some(text@),
                None => label_of(self).is_none(),
            },
    {
        match self {
            EditItem::Undo => Some("取り消し"),
            EditItem::Redo => Some("やり直し"),
            EditItem::Cut => Some("切り取り"),
            EditItem::Copy => Some("コピー"),
            EditItem::Paste => Some("貼り付け"),
            EditItem::SelectAll => Some("すべてを選択"),
            EditItem::Separator => None,
        }
    }

    /// The name of the variant.
    pub fn variant_name(self) -> (name: &'static str)
        ensures
            name@ == variant_name_of(self),
    {
        match self {
            EditItem::Undo => "Undo",
            EditItem::Redo => "Redo",
            EditItem::Cut => "Cut",
            EditItem::Copy => "Copy",
            EditItem::Paste => "Paste",
            EditItem::SelectAll => "SelectAll",
            EditItem::Separator => "Separator",
        }
    }

    /// The name of the system's constructor of the standard item; the menu
    /// builder makes each item with the constructor of this name.
    pub fn constructor_name(self) -> (name: &'static str)
        ensures
            name@ == constructor_name_of(self),
    {
        match self {
            EditItem::Undo => "undo",
            EditItem::Redo => "redo",
            EditItem::Cut => "cut",
            EditItem::Copy => "copy",
            EditItem::Paste => "paste",
            EditItem::SelectAll => "select_all",
            EditItem::Separator => "separator",
        }
    }
}

/// The Edit menu, in order.
pub const EDIT_MENU: [EditItem; 8] = [
    EditItem::Undo,
    EditItem::Redo,
    EditItem::Separator,
    EditItem::Cut,
    EditItem::Copy,
    EditItem::Paste,
    EditItem::Separator,
    EditItem::SelectAll,
];

} // verus!
