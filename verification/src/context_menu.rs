//! The file tree's context menu: its entries, in order.

use vstd::prelude::*;

verus! {

/// One line of the context menu.
#[derive(Debug)]
pub enum MenuItem {
    /// A command with its label and key shortcut; a disabled one is greyed.
    Action { label: String, shortcut: String, enabled: bool },
    Separator,
}

pub enum MenuItemView {
    Action(Seq<char>, Seq<char>, bool),
    Separator,
}

pub open spec fn menu_item_view(m: MenuItem) -> MenuItemView {
    match m {
        MenuItem::Action { label, shortcut, enabled } => MenuItemView::Action(label@, shortcut@, enabled),
        MenuItem::Separator => MenuItemView::Separator,
    }
}

/// The entries of the menu: create, reveal, clipboard (paste only when
/// something was cut or copied), paths, and rename and removal, in groups.
pub open spec fn file_menu_spec(has_clipboard: bool) -> Seq<MenuItemView> {
    seq![
        MenuItemView::Action("New File"@, "\u{2318}N"@, true),
        MenuItemView::Action("New Folder"@, "\u{2325}\u{2318}N"@, true),
        MenuItemView::Separator,
        MenuItemView::Action("Reveal in Finder"@, "\u{2325}\u{2318}R"@, true),
        MenuItemView::Action("Open in Terminal"@, ""@, true),
        MenuItemView::Separator,
        MenuItemView::Action("Cut"@, "\u{2318}X"@, true),
        MenuItemView::Action("Copy"@, "\u{2318}C"@, true),
        MenuItemView::Action("Duplicate"@, "\u{2318}D"@, true),
        MenuItemView::Action("Paste"@, "\u{2318}V"@, has_clipboard),
        MenuItemView::Separator,
        MenuItemView::Action("Copy Path"@, "\u{2325}\u{2318}C"@, true),
        MenuItemView::Action("Copy Relative Path"@, "\u{2325}\u{2318}\u{21e7}C"@, true),
        MenuItemView::Separator,
        MenuItemView::Action("Rename"@, "F2"@, true),
        MenuItemView::Action("Trash"@, "\u{232b}"@, true),
        MenuItemView::Action("Delete"@, "\u{2325}\u{2318}\u{232b}"@, true),
    ]
}

fn action(label: &str, shortcut: &str, enabled: bool) -> (m: MenuItem)
    ensures
        menu_item_view(m) == MenuItemView::Action(label@, shortcut@, enabled),
{
    MenuItem::Action { label: label.to_owned(), shortcut: shortcut.to_owned(), enabled }
}

/// The context menu of an entry.
pub fn file_context_menu(has_clipboard: bool) -> (items: Vec<MenuItem>)
    ensures
        items@.map_values(|m: MenuItem| menu_item_view(m)) == file_menu_spec(has_clipboard),
{
    let mut out: Vec<MenuItem> = Vec::new();
    out.push(action("New File", "\u{2318}N", true));
    out.push(action("New Folder", "\u{2325}\u{2318}N", true));
    out.push(MenuItem::Separator);
    out.push(action("Reveal in Finder", "\u{2325}\u{2318}R", true));
    out.push(action("Open in Terminal", "", true));
    out.push(MenuItem::Separator);
    out.push(action("Cut", "\u{2318}X", true));
    out.push(action("Copy", "\u{2318}C", true));
    out.push(action("Duplicate", "\u{2318}D", true));
    out.push(action("Paste", "\u{2318}V", has_clipboard));
    out.push(MenuItem::Separator);
    out.push(action("Copy Path", "\u{2325}\u{2318}C", true));
    out.push(action("Copy Relative Path", "\u{2325}\u{2318}\u{21e7}C", true));
    out.push(MenuItem::Separator);
    out.push(action("Rename", "F2", true));
    out.push(action("Trash", "\u{232b}", true));
    out.push(action("Delete", "\u{2325}\u{2318}\u{232b}", true));
    assert(out@.map_values(|m: MenuItem| menu_item_view(m)) =~= file_menu_spec(has_clipboard));
    out
}

} // verus!
