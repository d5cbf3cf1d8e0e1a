use conescope::editor_tabs::{archive_destination, scratch_project_id, EditorTabs, EditorTabsEvent};

#[test]
fn open_tab_appends_and_activates() {
    let mut t = EditorTabs::new();
    assert_eq!(t.tab_count(), 0);
    assert_eq!(t.active_path(), None);
    assert_eq!(t.open_tab("/p/a.rs"), EditorTabsEvent::SelectTab(0));
    assert_eq!(t.open_tab("/p/b.rs"), EditorTabsEvent::SelectTab(1));
    assert_eq!(t.tab_count(), 2);
    assert_eq!(t.active_path(), Some("/p/b.rs"));
    let tab = t.active_tab().unwrap();
    assert_eq!(tab.name, "b.rs");
    assert!(!tab.modified);
    assert_eq!(tab.diff_mode, None);
}

#[test]
fn open_tab_twice_focuses_existing() {
    let mut t = EditorTabs::new();
    t.open_tab("/p/a.rs");
    t.open_tab("/p/b.rs");
    assert_eq!(t.open_tab("/p/a.rs"), EditorTabsEvent::SelectTab(0));
    assert_eq!(t.tab_count(), 2);
    assert_eq!(t.active_path(), Some("/p/a.rs"));
    assert_eq!(t.open_tab("/p/a.rs"), EditorTabsEvent::SelectTab(0));
    assert_eq!(t.tab_count(), 2);
}

#[test]
fn diff_tabs_are_separate_per_staging() {
    let mut t = EditorTabs::new();
    t.open_tab("/p/a.rs");
    assert_eq!(t.open_diff_tab("/p/a.rs", false), EditorTabsEvent::SelectTab(1));
    assert_eq!(t.active_tab().unwrap().name, "a.rs [diff]");
    assert_eq!(t.active_tab().unwrap().diff_mode, Some(false));
    assert_eq!(t.open_diff_tab("/p/a.rs", true), EditorTabsEvent::SelectTab(2));
    assert_eq!(t.open_diff_tab("/p/a.rs", false), EditorTabsEvent::SelectTab(1));
    assert_eq!(t.tab_count(), 3);
    // A diff tab is not a session path.
    assert_eq!(t.tab_paths(), vec!["/p/a.rs".to_string()]);
    // Opening the file focuses its file tab, not a diff tab.
    assert_eq!(t.open_tab("/p/a.rs"), EditorTabsEvent::SelectTab(0));
}

#[test]
fn open_tab_is_not_satisfied_by_a_diff_tab() {
    let mut t = EditorTabs::new();
    assert_eq!(t.open_diff_tab("/p/a.rs", true), EditorTabsEvent::SelectTab(0));
    assert_eq!(t.open_tab("/p/a.rs"), EditorTabsEvent::SelectTab(1));
    let tab = t.active_tab().unwrap();
    assert_eq!(tab.name, "a.rs");
    assert_eq!(tab.diff_mode, None);
    assert!(!tab.modified);
    assert_eq!(t.tab_count(), 2);
}

#[test]
fn untitled_counter_follows_the_largest_number() {
    let mut t = EditorTabs::new();
    let names = vec!["Untitled-1".to_string(), "Untitled-2".to_string(), "Untitled-3".to_string()];
    t.init_counter_from_names(&names);
    assert_eq!(t.take_untitled_id(), 4);
    t.init_counter_from_names(&["Untitled-0".to_string()]);
    assert_eq!(t.take_untitled_id(), 1);
}

#[test]
fn close_tab_keeps_active_on_same_tab() {
    let mut t = EditorTabs::new();
    t.open_tab("/a");
    t.open_tab("/b");
    t.open_tab("/c");
    // Active is the last tab; closing the first moves it down by one.
    assert_eq!(t.close_tab(0), Some(EditorTabsEvent::CloseTab(0)));
    assert_eq!(t.active_path(), Some("/c"));
    // Out of range: nothing happens.
    assert_eq!(t.close_tab(5), None);
    assert_eq!(t.tab_count(), 2);
    // Closing the active last tab moves to the new last tab.
    assert_eq!(t.close_active_tab(), Some(EditorTabsEvent::CloseTab(1)));
    assert_eq!(t.active_path(), Some("/b"));
    assert_eq!(t.close_active_tab(), Some(EditorTabsEvent::CloseTab(0)));
    assert_eq!(t.active_path(), None);
    assert_eq!(t.close_active_tab(), None);
}

#[test]
fn close_after_open_restores_tabs() {
    let mut t = EditorTabs::new();
    t.open_tab("/a");
    t.open_tab("/b");
    let before = t.tab_paths();
    t.open_tab("/new");
    t.close_tab(2);
    assert_eq!(t.tab_paths(), before);
    assert_eq!(t.active_path(), Some("/b"));
}

#[test]
fn set_modified_marks_first_tab_on_path() {
    let mut t = EditorTabs::new();
    t.open_tab("/a");
    t.open_tab("/b");
    assert!(t.set_modified("/a", true));
    assert!(!t.set_modified("/zzz", true));
    t.open_tab("/a");
    assert!(t.active_tab().unwrap().modified);
    assert!(t.set_modified("/a", false));
    assert!(!t.active_tab().unwrap().modified);
}

#[test]
fn restore_tabs_then_paths_round_trips() {
    let mut t = EditorTabs::new();
    t.open_tab("/old");
    let paths = vec!["/x/one.rs".to_string(), "/x/two.rs".to_string(), "/x/three.rs".to_string()];
    t.restore_tabs(&paths, Some("/x/two.rs"));
    assert_eq!(t.tab_paths(), paths);
    assert_eq!(t.active_path(), Some("/x/two.rs"));
    t.restore_tabs(&paths, Some("/missing"));
    assert_eq!(t.active_path(), Some("/x/one.rs"));
    t.restore_tabs(&[], None);
    assert_eq!(t.tab_count(), 0);
    assert_eq!(t.active_path(), None);
}

#[test]
fn untitled_counter_from_scratch_names() {
    let mut t = EditorTabs::new();
    let names = vec![
        "Untitled-3".to_string(),
        "notes.md".to_string(),
        "Untitled-12".to_string(),
        "Untitled-x".to_string(),
        "Untitled-".to_string(),
    ];
    t.init_counter_from_names(&names);
    assert_eq!(t.take_untitled_id(), 13);
    assert_eq!(t.take_untitled_id(), 14);
    t.init_counter_from_names(&[]);
    assert_eq!(t.take_untitled_id(), 0);
}

#[test]
fn update_active_path_renames_active_tab() {
    let mut t = EditorTabs::new();
    assert!(!t.update_active_path("/p/new.rs"));
    t.open_tab("/tmp/Untitled-1");
    t.set_modified("/tmp/Untitled-1", true);
    assert!(t.update_active_path("/p/new.rs"));
    let tab = t.active_tab().unwrap();
    assert_eq!(tab.path, "/p/new.rs");
    assert_eq!(tab.name, "new.rs");
    assert!(!tab.modified);
}

#[test]
fn scratch_files_name_their_project_by_folder() {
    assert_eq!(scratch_project_id("/home/u/.conescope/scratch/proj-1/Untitled-3"), Some("proj-1".to_string()));
    assert_eq!(scratch_project_id("/Untitled-1"), None);
    assert_eq!(scratch_project_id("/"), None);
}

#[test]
fn archived_scratch_files_keep_their_name() {
    assert_eq!(
        archive_destination("/s/proj/Untitled-2", "/a/proj"),
        Some("/a/proj/Untitled-2".to_string())
    );
    assert_eq!(archive_destination("/", "/a"), None);
}

#[test]
fn tabs_by_position_and_untitled_counter() {
    let mut t = EditorTabs::new();
    t.open_tab("/p/a.rs");
    t.open_diff_tab("/p/b.rs", true);
    assert_eq!(t.tab_at(0).map(|x| x.path.as_str()), Some("/p/a.rs"));
    assert_eq!(t.tab_at(1).map(|x| x.diff_mode), Some(Some(true)));
    assert!(t.tab_at(2).is_none());
    assert_eq!(t.untitled_counter(), 0);
    assert_eq!(t.take_untitled_id(), 0);
    assert_eq!(t.untitled_counter(), 1);
}
