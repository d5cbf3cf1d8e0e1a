//! Decisions of the focus view: which panels show, whether the terminal
//! needs resizing, and what the close shortcut closes.

use vstd::prelude::*;

use crate::paths::opt_view;
use crate::text::{chars_of, push_chars, string_from_chars};

verus! {

/// The panels the focus view shows.
#[derive(Debug, Clone, Copy, PartialEq, Eq, Structural)]
pub struct PanelVisibility {
    pub sidebar: bool,
    pub editor: bool,
    pub terminal: bool,
}

/// A plain terminal instance shows only its terminal; a project instance
/// shows the panels the settings turn on.
pub fn panel_visibility(is_terminal: bool, sidebar_on: bool, editor_on: bool, terminal_on: bool) -> (v:
    PanelVisibility)
    ensures
        v.sidebar == (!is_terminal && sidebar_on),
        v.editor == (!is_terminal && editor_on),
        v.terminal == (is_terminal || terminal_on),
{
    PanelVisibility { sidebar: !is_terminal && sidebar_on, editor: !is_terminal && editor_on, terminal: is_terminal || terminal_on }
}

/// The terminal's size only matters where a terminal shows: not when the
/// editor shows alone.
pub fn terminal_needs_resize(v: PanelVisibility) -> (r: bool)
    ensures
        r == !(v.editor && !v.terminal),
{
    !(v.editor && !v.terminal)
}

/// What the close shortcut closes.
#[derive(Debug, Clone, Copy, PartialEq, Eq, Structural)]
pub enum CloseTarget {
    /// The active shell tab of the instance.
    ShellTab,
    /// The instance itself (its primary terminal tab was active).
    Instance,
    /// The active editor tab.
    EditorTab,
}

/// With the terminal focused, a shell tab closes itself and the primary
/// tab closes the instance; otherwise the active editor tab closes.
pub fn close_target(terminal_focused: bool, active_is_shell: bool) -> (t: CloseTarget)
    ensures
        t == if !terminal_focused {
            CloseTarget::EditorTab
        } else if active_is_shell {
            CloseTarget::ShellTab
        } else {
            CloseTarget::Instance
        },
{
    if !terminal_focused {
        CloseTarget::EditorTab
    } else if active_is_shell {
        CloseTarget::ShellTab
    } else {
        CloseTarget::Instance
    }
}

/// Which screen the window shows.
#[derive(Debug, Clone, Copy, PartialEq, Eq, Structural)]
pub enum ViewMode {
    Overview,
    Focus,
    Settings,
}

/// The window's keyboard actions.
#[derive(Debug, Clone, Copy, PartialEq, Eq, Structural)]
pub enum AppAction {
    NewInstance,
    ReturnToOverview,
    CloseTab,
    NewTerminalTab,
    SaveFile,
    ToggleMarkdownPreview,
    ToggleSidebar,
    ToggleEditor,
    ToggleTerminal,
    ToggleGitPanel,
    ToggleOverviewSidebar,
    OpenSettings,
    CloseSettings,
    /// Focus the instance with this number (from 1).
    FocusInstance(usize),
}

pub open spec fn action_allowed_spec(mode: ViewMode, action: AppAction) -> bool {
    match action {
        AppAction::CloseTab | AppAction::SaveFile => mode == ViewMode::Focus,
        AppAction::CloseSettings => mode == ViewMode::Settings,
        _ => true,
    }
}

/// Closing a tab and saving act only in the focus view, closing the
/// settings only on the settings screen; every other action always acts.
pub fn action_allowed(mode: ViewMode, action: AppAction) -> (b: bool)
    ensures
        b == action_allowed_spec(mode, action),
{
    match action {
        AppAction::CloseTab | AppAction::SaveFile => mode == ViewMode::Focus,
        AppAction::CloseSettings => mode == ViewMode::Settings,
        _ => true,
    }
}

/// The settings shortcut toggles: it closes the settings screen where it
/// shows (`false`), and opens it, with the settings reloaded, elsewhere
/// (`true`).
pub fn settings_shortcut_opens(mode: ViewMode) -> (open: bool)
    ensures
        open == (mode != ViewMode::Settings),
{
    mode != ViewMode::Settings
}

/// The name under which closing an instance is confirmed: its title, or
/// `Instance ` and its id.
pub open spec fn close_instance_title_spec(title: Option<Seq<char>>, id: Seq<char>) -> Seq<char> {
    match title {
        Some(t) => t,
        None => seq!['I', 'n', 's', 't', 'a', 'n', 'c', 'e', ' '] + id,
    }
}

pub fn close_instance_title(title: Option<String>, id: &str) -> (t: String)
    ensures
        t@ == close_instance_title_spec(opt_view(title), id@),
{
    match title {
        Some(t) => t,
        None => {
            let mut cs = chars_of("Instance ");
            proof {
                reveal_strlit("Instance ");
            }
            let idc = chars_of(id);
            push_chars(&mut cs, &idc);
            string_from_chars(cs.as_slice())
        },
    }
}

} // verus!
