//! Verified core of the Conescope user interface: colour arithmetic,
//! path checks, editor tab bookkeeping, the file tree model and the
//! markdown block builder.

pub mod colors;
pub mod text;
pub mod paths;
pub mod editor_tabs;
pub mod file_kinds;
pub mod sorting;
pub mod id_set;
pub mod file_tree;
pub mod markdown;
pub mod layout;
pub mod worktree;
pub mod sidebar;
pub mod context_menu;
pub mod settings;
pub mod git_view;
pub mod focus;
pub mod question;
pub mod session;
