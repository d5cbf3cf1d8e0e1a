use conescope::context_menu::{file_context_menu, MenuItem};
use conescope::file_tree::FileStatus;
use conescope::git_view::{
    diff_line_style, diff_line_text, git_entry_color, git_entry_label, git_sections, is_selected_entry,
    line_number_label, LineOrigin, StageStatus, StatusColor,
};
use conescope::settings::{filter_font_names, font_size_from_input, sorted_font_names, stepped_font_size, stored_font_size};
use conescope::text::parse_i64;

fn labels(items: &[MenuItem]) -> Vec<String> {
    items
        .iter()
        .map(|m| match m {
            MenuItem::Action { label, enabled, .. } => {
                if *enabled {
                    label.clone()
                } else {
                    format!("({label})")
                }
            },
            MenuItem::Separator => "-".to_string(),
        })
        .collect()
}

#[test]
fn context_menu_enables_paste_only_with_clipboard() {
    let with = labels(&file_context_menu(true));
    let without = labels(&file_context_menu(false));
    assert_eq!(
        with,
        vec![
            "New File",
            "New Folder",
            "-",
            "Reveal in Finder",
            "Open in Terminal",
            "-",
            "Cut",
            "Copy",
            "Duplicate",
            "Paste",
            "-",
            "Copy Path",
            "Copy Relative Path",
            "-",
            "Rename",
            "Trash",
            "Delete"
        ]
    );
    assert_eq!(without[9], "(Paste)");
    match &file_context_menu(true)[14] {
        MenuItem::Action { shortcut, .. } => assert_eq!(shortcut, "F2"),
        MenuItem::Separator => panic!("expected an action"),
    }
}

#[test]
fn font_sizes() {
    assert_eq!(font_size_from_input("15"), 15);
    assert_eq!(font_size_from_input("-3"), -3);
    assert_eq!(font_size_from_input("abc"), 13);
    assert_eq!(font_size_from_input(""), 13);
    assert_eq!(stored_font_size(None), 13);
    assert_eq!(stored_font_size(Some(20)), 20);
    assert_eq!(stepped_font_size(13, true), 14);
    assert_eq!(stepped_font_size(8, false), 8);
    assert_eq!(stepped_font_size(32, true), 32);
    assert_eq!(stepped_font_size(100, false), 32);
}

#[test]
fn parse_i64_as_std_does() {
    let p = |s: &str| parse_i64(&s.chars().collect());
    assert_eq!(p("9223372036854775807"), Some(i64::MAX));
    assert_eq!(p("-9223372036854775808"), Some(i64::MIN));
    assert_eq!(p("9223372036854775808"), None);
    assert_eq!(p("+12"), Some(12));
    assert_eq!(p("-"), None);
    assert_eq!(p("1_0"), None);
    for s in ["0", "-0", "42", "-17", " 1", "1 ", "++1", "00012"] {
        assert_eq!(p(s), s.parse::<i64>().ok(), "{s}");
    }
}

#[test]
fn font_names_sorted_and_deduplicated() {
    let names: Vec<String> = ["menlo", "Arial", "Menlo", "arial", "Arial", "Courier"].iter().map(|s| s.to_string()).collect();
    assert_eq!(sorted_font_names(&names), vec!["Arial", "arial", "Arial", "Courier", "menlo", "Menlo"]);
    let names: Vec<String> = ["B", "A", "A", "b"].iter().map(|s| s.to_string()).collect();
    assert_eq!(sorted_font_names(&names), vec!["A", "B", "b"]);
}

#[test]
fn font_filter_is_case_insensitive() {
    let names: Vec<String> = ["Fira Code", "Menlo", "SF Mono", "Monaco"].iter().map(|s| s.to_string()).collect();
    assert_eq!(filter_font_names(&names, "mon"), vec![2, 3]);
    assert_eq!(filter_font_names(&names, ""), vec![0, 1, 2, 3]);
    assert_eq!(filter_font_names(&names, "CODE"), vec![0]);
    assert_eq!(filter_font_names(&names, "zz"), Vec::<usize>::new());
}

#[test]
fn git_panel_sections_and_entries() {
    let stages = vec![StageStatus::Unstaged, StageStatus::Staged, StageStatus::Unstaged, StageStatus::Staged];
    let (staged, unstaged) = git_sections(&stages);
    assert_eq!(staged, vec![1, 3]);
    assert_eq!(unstaged, vec![0, 2]);
    assert_eq!(git_entry_color(FileStatus::Modified), StatusColor::Accent);
    assert_eq!(git_entry_color(FileStatus::Added), StatusColor::Fixed(0x73c9_91ff));
    assert_eq!(git_entry_color(FileStatus::Untracked), StatusColor::Faint);
    assert_eq!(git_entry_label("src/views/app.rs"), "app.rs");
    assert_eq!(git_entry_label(".."), "..");
    assert!(is_selected_entry(Some(("a.rs", StageStatus::Staged)), "a.rs", StageStatus::Staged));
    assert!(!is_selected_entry(Some(("a.rs", StageStatus::Staged)), "a.rs", StageStatus::Unstaged));
    assert!(!is_selected_entry(None, "a.rs", StageStatus::Staged));
}

#[test]
fn diff_lines() {
    let s = diff_line_style(LineOrigin::Addition);
    assert_eq!((s.background, s.prefix, s.text), (0x2a3a_2aff, '+', Some(0x98c3_79ff)));
    let s = diff_line_style(LineOrigin::Context);
    assert_eq!((s.background, s.prefix, s.text), (0, ' ', None));
    assert_eq!(diff_line_style(LineOrigin::Deletion).prefix, '-');
    assert_eq!(line_number_label(Some(120)), "120");
    assert_eq!(line_number_label(None), "");
    assert_eq!(diff_line_text("let x = 1;\n\n"), "let x = 1;");
    assert_eq!(diff_line_text("\n"), "");
    assert_eq!(diff_line_text("a\nb"), "a\nb");
}
