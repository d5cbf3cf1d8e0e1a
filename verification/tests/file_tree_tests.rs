use conescope::file_tree::{
    git_status_color, rename_decision, ClickOutcome, EntryKind, FileStatus, FileTree, KeyOutcome,
    RawDirEntry, RenameDecision, RenameStep, RowColor, VcsColor,
};

fn item(dir: &str, name: &str, is_dir: bool) -> RawDirEntry {
    RawDirEntry { name: name.to_string(), abs_path: format!("{dir}/{name}"), is_dir }
}

/// The disk as a fixed listing per folder.
fn listing(dir: &str) -> Vec<RawDirEntry> {
    match dir {
        "/p" => vec![item(dir, "src", true), item(dir, "README.md", false), item(dir, ".git", true), item(dir, "docs", true)],
        "/p/src" => vec![item(dir, "main.rs", false), item(dir, "Lib.rs", false), item(dir, "util", true)],
        "/p/docs" => vec![item(dir, "guide", true)],
        "/p/docs/guide" => vec![item(dir, "intro.md", false)],
        _ => vec![],
    }
}

/// Rebuilds the tree from the listing, reading expanded folders depth first.
fn rebuild(tree: &mut FileTree) {
    let root = match tree.rebuild_begin() {
        Some(r) => r,
        None => return,
    };
    let mut stack = tree.add_listing(None, &listing(&root));
    stack.reverse();
    while let Some(p) = stack.pop() {
        let mut more = tree.add_listing(Some(p.parent), &listing(&p.abs_path));
        more.reverse();
        stack.extend(more);
    }
    tree.recompute_visible();
}

fn rows(tree: &FileTree) -> Vec<(String, usize, Option<String>)> {
    let mut out = Vec::new();
    for i in 0..tree.visible_count() {
        let r = tree.visible_row(i).unwrap();
        let e = tree.entry(r.entry_id).unwrap();
        out.push((e.name.clone(), r.depth, r.folded_name.clone()));
    }
    out
}

fn row(name: &str, depth: usize, folded: Option<&str>) -> (String, usize, Option<String>) {
    (name.to_string(), depth, folded.map(|s| s.to_string()))
}

fn project() -> FileTree {
    let mut t = FileTree::new();
    assert!(t.set_root(Some("/p".to_string())));
    rebuild(&mut t);
    t
}

#[test]
fn collapsed_tree_shows_top_level_sorted_folders_first() {
    let t = project();
    assert_eq!(rows(&t), vec![row("docs", 0, None), row("src", 0, None), row("README.md", 0, None)]);
    // Hidden names are left out.
    assert_eq!(t.find_entry_id_by_path("/p/.git"), None);
}

#[test]
fn expanding_a_folder_shows_its_children() {
    let mut t = project();
    let src = t.find_entry_id_by_path("/p/src").unwrap();
    assert!(t.toggle_dir(src));
    rebuild(&mut t);
    assert!(t.is_expanded("/p/src"));
    assert_eq!(
        rows(&t),
        vec![
            row("docs", 0, None),
            row("src", 0, None),
            row("util", 1, None),
            row("Lib.rs", 1, None),
            row("main.rs", 1, None),
            row("README.md", 0, None),
        ]
    );
}

#[test]
fn toggling_twice_restores_expansion() {
    let mut t = project();
    let src = t.find_entry_id_by_path("/p/src").unwrap();
    t.toggle_dir(src);
    t.toggle_dir(src);
    assert!(!t.is_expanded("/p/src"));
    rebuild(&mut t);
    assert_eq!(rows(&t), vec![row("docs", 0, None), row("src", 0, None), row("README.md", 0, None)]);
    assert!(!t.toggle_dir(9999));
}

#[test]
fn single_child_folder_chain_folds() {
    let mut t = project();
    t.insert_expanded("/p/docs");
    t.insert_expanded("/p/docs/guide");
    rebuild(&mut t);
    assert_eq!(
        rows(&t),
        vec![
            row("guide", 0, Some("docs/guide")),
            row("intro.md", 2, None),
            row("src", 0, None),
            row("README.md", 0, None),
        ]
    );
    // With only the top folder expanded the chain does not fold.
    t.remove_expanded("/p/docs/guide");
    rebuild(&mut t);
    assert_eq!(
        rows(&t),
        vec![row("docs", 0, None), row("guide", 1, None), row("src", 0, None), row("README.md", 0, None)]
    );
}

#[test]
fn clicks_select_toggle_and_mark() {
    let mut t = project();
    // Row 2 is README.md: a plain click opens it.
    match t.handle_click(2, false, false) {
        ClickOutcome::OpenFile(p) => assert_eq!(p, "/p/README.md"),
        other => panic!("unexpected {other:?}"),
    }
    let readme = t.find_entry_id_by_path("/p/README.md").unwrap();
    assert_eq!(t.selected(), Some(readme));
    // Command-click twice marks and unmarks.
    assert!(matches!(t.handle_click(2, true, false), ClickOutcome::Selected));
    assert!(t.is_marked(readme));
    assert!(matches!(t.handle_click(2, true, false), ClickOutcome::Selected));
    assert!(!t.is_marked(readme));
    // A folder click toggles it.
    assert!(matches!(t.handle_click(1, false, false), ClickOutcome::DirToggled));
    assert!(t.is_expanded("/p/src"));
    // Out of range.
    assert!(matches!(t.handle_click(99, false, false), ClickOutcome::Ignored));
}

#[test]
fn shift_click_marks_files_in_range() {
    let mut t = project();
    let src = t.find_entry_id_by_path("/p/src").unwrap();
    t.toggle_dir(src);
    rebuild(&mut t);
    // Rows: docs, src, util, Lib.rs, main.rs, README.md.
    t.handle_click(3, false, false);
    assert!(matches!(t.handle_click(5, false, true), ClickOutcome::Selected));
    let lib = t.find_entry_id_by_path("/p/src/Lib.rs").unwrap();
    let main = t.find_entry_id_by_path("/p/src/main.rs").unwrap();
    let readme = t.find_entry_id_by_path("/p/README.md").unwrap();
    let util = t.find_entry_id_by_path("/p/src/util").unwrap();
    assert!(t.is_marked(lib) && t.is_marked(main) && t.is_marked(readme));
    assert!(!t.is_marked(util));
    assert_eq!(
        t.selected_paths(),
        vec!["/p/README.md".to_string(), "/p/src/main.rs".to_string(), "/p/src/Lib.rs".to_string()]
    );
}

#[test]
fn keyboard_navigation() {
    let mut t = project();
    // No selection: down selects the first row.
    assert!(matches!(t.on_key_nav("down"), KeyOutcome::ScrollTo(1)));
    assert!(matches!(t.on_key_nav("up"), KeyOutcome::ScrollTo(0)));
    assert!(matches!(t.on_key_nav("up"), KeyOutcome::ScrollTo(0)));
    let docs = t.find_entry_id_by_path("/p/docs").unwrap();
    assert_eq!(t.selected(), Some(docs));
    assert!(matches!(t.on_key_nav("right"), KeyOutcome::DirToggled));
    assert!(t.is_expanded("/p/docs"));
    assert!(matches!(t.on_key_nav("right"), KeyOutcome::Ignored));
    assert!(matches!(t.on_key_nav("left"), KeyOutcome::DirToggled));
    assert!(!t.is_expanded("/p/docs"));
    assert!(matches!(t.on_key_nav("space"), KeyOutcome::DirToggled));
    assert!(matches!(t.on_key_nav("x"), KeyOutcome::Ignored));
    t.on_key_nav("down");
    t.on_key_nav("down");
    match t.on_key_nav("enter") {
        KeyOutcome::OpenFile(p) => assert_eq!(p, "/p/README.md"),
        other => panic!("unexpected {other:?}"),
    }
    // Moving past the end stays on the last row.
    assert!(matches!(t.on_key_nav("down"), KeyOutcome::ScrollTo(2)));
}

#[test]
fn left_on_a_file_selects_its_folder() {
    let mut t = project();
    let src = t.find_entry_id_by_path("/p/src").unwrap();
    t.toggle_dir(src);
    rebuild(&mut t);
    let src = t.find_entry_id_by_path("/p/src").unwrap();
    t.handle_click(4, false, false);
    assert!(matches!(t.on_key_nav("left"), KeyOutcome::Selected));
    assert_eq!(t.selected(), Some(src));
}

#[test]
fn rename_is_ignored_by_keys_and_steps() {
    let mut t = project();
    let readme = t.find_entry_id_by_path("/p/README.md").unwrap();
    assert!(matches!(t.rename_step("x"), RenameStep::NotEditing));
    assert_eq!(t.start_rename(readme, false), Some("README.md".to_string()));
    assert!(matches!(t.on_key_nav("down"), KeyOutcome::Ignored));
    assert!(matches!(t.rename_step("  ../x "), RenameStep::Cancel));
    match t.rename_step("  NOTES.md ") {
        RenameStep::Candidate { old_path, new_path, open_new_file } => {
            assert_eq!(old_path, "/p/README.md");
            assert_eq!(new_path, "/p/NOTES.md");
            assert!(!open_new_file);
        },
        other => panic!("unexpected {other:?}"),
    }
    t.end_rename();
    assert_eq!(t.edit_state(), None);
}

#[test]
fn rename_decisions() {
    assert_eq!(rename_decision("/p/a", "/q/a", false, false), RenameDecision::Cancel);
    assert_eq!(rename_decision("/p/a", "/p/b", true, false), RenameDecision::Rename);
    assert_eq!(rename_decision("/p/a", "/p/b", true, true), RenameDecision::Keep);
    assert_eq!(rename_decision("/p/a", "/p/a", true, false), RenameDecision::Keep);
}

#[test]
fn cut_copy_and_paste_plan() {
    let mut t = project();
    assert!(t.paste_plan().is_none());
    let readme = t.find_entry_id_by_path("/p/README.md").unwrap();
    let src = t.find_entry_id_by_path("/p/src").unwrap();
    t.set_selected(Some(readme));
    t.cut_selected();
    assert!(t.has_clipboard());
    t.set_selected(Some(src));
    let plan = t.paste_plan().unwrap();
    assert_eq!(plan.src_path, "/p/README.md");
    assert_eq!(plan.dest_base, "/p/src/README.md");
    assert!(plan.is_cut);
    assert_eq!(plan.dir, "/p/src");
    t.finish_paste(&plan);
    assert!(!t.has_clipboard());
    assert!(t.is_expanded("/p/src"));
    t.set_selected(Some(readme));
    t.copy_selected();
    t.set_selected(None);
    let plan = t.paste_plan().unwrap();
    assert_eq!(plan.dir, "/p");
    assert!(!plan.is_cut);
    t.finish_paste(&plan);
    assert!(t.has_clipboard());
}

#[test]
fn new_entries_go_into_the_target_folder() {
    let mut t = project();
    assert_eq!(t.new_entry_base(true), Some(("/p".to_string(), "/p/new-folder".to_string())));
    let readme = t.find_entry_id_by_path("/p/README.md").unwrap();
    t.set_selected(Some(readme));
    assert_eq!(t.target_dir(), Some("/p".to_string()));
    assert_eq!(t.selected_path(), Some("/p/README.md".to_string()));
    let src = t.find_entry_id_by_path("/p/src").unwrap();
    t.set_selected(Some(src));
    assert_eq!(t.new_entry_base(false), Some(("/p/src".to_string(), "/p/src/untitled".to_string())));
    let empty = FileTree::new();
    assert_eq!(empty.new_entry_base(false), None);
}

#[test]
fn git_statuses_colour_rows() {
    let mut t = project();
    t.set_git_statuses(vec![
        ("src/main.rs".to_string(), FileStatus::Added),
        ("README.md".to_string(), FileStatus::Untracked),
        ("README.md".to_string(), FileStatus::Modified),
    ]);
    rebuild(&mut t);
    let readme = t.find_entry_id_by_path("/p/README.md").unwrap();
    let src = t.find_entry_id_by_path("/p/src").unwrap();
    let docs = t.find_entry_id_by_path("/p/docs").unwrap();
    assert_eq!(t.entry(readme).unwrap().git_status, Some(FileStatus::Modified));
    assert_eq!(t.row_color(readme), RowColor::Vcs(VcsColor::Modified));
    assert_eq!(t.row_color(src), RowColor::VcsModified);
    assert_eq!(t.row_color(docs), RowColor::TextMuted);
    assert_eq!(t.entry(src).unwrap().kind, EntryKind::Dir);
    assert_eq!(git_status_color(FileStatus::Deleted), VcsColor::Deleted);
    assert_eq!(t.rel_path_str("/p/src/main.rs"), "src/main.rs");
    assert_eq!(t.rel_path_str("/q/x"), "/q/x");
}

#[test]
fn context_menu_and_clear_selection() {
    let mut t = project();
    let src = t.find_entry_id_by_path("/p/src").unwrap();
    t.open_context_menu(src);
    assert_eq!(t.context_menu(), Some(src));
    t.handle_click(0, true, false);
    t.clear_selection();
    assert_eq!(t.selected(), None);
    assert_eq!(t.context_menu(), None);
    t.open_context_menu(src);
    t.close_context_menu();
    assert_eq!(t.context_menu(), None);
}

#[test]
fn set_root_resets_expansion() {
    let mut t = project();
    t.insert_expanded("/p/src");
    assert!(!t.set_root(Some("/p".to_string())));
    assert!(t.is_expanded("/p/src"));
    assert!(t.set_root(Some("/q".to_string())));
    assert!(!t.is_expanded("/p/src"));
    assert_eq!(t.root_path(), Some("/q".to_string()));
}

#[test]
fn terminal_dir_and_relative_path() {
    let mut t = project();
    assert_eq!(t.terminal_dir(), None);
    assert_eq!(t.selected_rel_path(), None);
    let readme = t.find_entry_id_by_path("/p/README.md").unwrap();
    t.set_selected(Some(readme));
    assert_eq!(t.terminal_dir(), Some("/p".to_string()));
    assert_eq!(t.selected_rel_path(), Some("README.md".to_string()));
    let docs = t.find_entry_id_by_path("/p/docs").unwrap();
    t.set_selected(Some(docs));
    assert_eq!(t.terminal_dir(), Some("/p/docs".to_string()));
    assert_eq!(t.selected_rel_path(), Some("docs".to_string()));
}

#[test]
fn removal_takes_selection_paths_and_clears() {
    let mut t = project();
    assert!(t.take_paths_for_removal().is_empty());
    assert_eq!(t.reveal_path(), Some("/p".to_string()));
    let readme = t.find_entry_id_by_path("/p/README.md").unwrap();
    t.set_selected(Some(readme));
    t.open_context_menu(readme);
    assert_eq!(t.reveal_path(), Some("/p/README.md".to_string()));
    assert_eq!(t.take_paths_for_removal(), vec!["/p/README.md".to_string()]);
    assert_eq!(t.selected(), None);
    assert_eq!(t.context_menu(), None);
    assert_eq!(
        conescope::paths::finder_trash_script("/p/a \"b\".txt"),
        "tell application \"Finder\" to delete POSIX file \"/p/a \\\"b\\\".txt\""
    );
}

#[test]
fn row_display_shows_names_marks_and_colours() {
    let mut t = project();
    t.insert_expanded("/p/docs");
    t.insert_expanded("/p/docs/guide");
    t.set_git_statuses(vec![("README.md".to_string(), FileStatus::Added)]);
    rebuild(&mut t);
    let r = t.row_display(0).unwrap();
    assert_eq!(r.name, "docs/guide");
    assert_eq!(r.depth, 0);
    assert!(r.is_dir && !r.selected && !r.marked);
    assert_eq!(r.color, RowColor::TextMuted);
    t.handle_click(3, false, false);
    t.handle_click(3, true, false);
    let r = t.row_display(3).unwrap();
    assert_eq!(r.name, "README.md");
    assert!(!r.is_dir && r.selected && r.marked);
    assert_eq!(r.color, RowColor::Vcs(VcsColor::Added));
    assert!(t.row_display(4).is_none());
}

#[test]
fn disk_refresh_waits_for_rename() {
    let mut t = project();
    assert!(t.fs_refresh_allowed());
    let readme = t.find_entry_id_by_path("/p/README.md").unwrap();
    t.start_rename(readme, false);
    assert!(!t.fs_refresh_allowed());
    t.end_rename();
    assert!(t.fs_refresh_allowed());
}

#[test]
fn next_id_counts_listed_entries() {
    let mut t = FileTree::new();
    assert_eq!(t.next_id(), 1);
    assert!(t.set_root(Some("/p".to_string())));
    let root = t.rebuild_begin().unwrap();
    let before = t.next_id();
    let _ = t.add_listing(None, &listing(&root));
    assert_eq!(t.next_id(), before + 3);
}

#[test]
fn right_click_selects_the_entry_the_menu_acts_on() {
    let mut t = project();
    let readme = t.find_entry_id_by_path("/p/README.md").unwrap();
    let src = t.find_entry_id_by_path("/p/src").unwrap();
    t.set_selected(Some(src));
    t.open_context_menu(readme);
    assert_eq!(t.selected(), Some(readme));
    assert_eq!(t.context_menu(), Some(readme));
    t.cut_selected();
    t.set_selected(Some(src));
    let plan = t.paste_plan().unwrap();
    assert_eq!(plan.src_path, "/p/README.md");
    assert!(plan.is_cut);
}
