use conescope::focus::{close_target, panel_visibility, terminal_needs_resize, CloseTarget};
use conescope::file_kinds::{file_ext_color, lang_from_path};
use conescope::id_set::{ids_contain, ids_insert, ids_remove};
use conescope::layout::{grid_dimensions, scrollbar_opacity, scrollbar_thumb_color, ScrollbarOpacity};
use conescope::sidebar::{focused_position, instance_label, instance_location, shortcut_index, total_tokens};
use conescope::sorting::{lex_le_exec, stable_sort_order};
use conescope::text::{decimal_chars, parse_usize};
use conescope::worktree::{
    branch_choice, branch_placeholder, gather_create_data, plan_worktree, project_display_name, worktree_color, worktree_index,
    worktree_menu_action, worktree_siblings, worktree_title, InstanceInfo, WorktreeMenuAction,
};

fn chars(s: &str) -> Vec<char> {
    s.chars().collect()
}

#[test]
fn languages_by_extension() {
    assert_eq!(lang_from_path("/a/b/main.rs"), "rust");
    assert_eq!(lang_from_path("app.tsx"), "typescript");
    assert_eq!(lang_from_path("x.py"), "python");
    assert_eq!(lang_from_path("Makefile"), "rust");
    assert_eq!(lang_from_path("notes.md"), "markdown");
    assert_eq!(lang_from_path("a.hpp"), "cpp");
    assert_eq!(lang_from_path("run.zsh"), "bash");
    assert_eq!(lang_from_path("archive.tar.exs"), "elixir");
}

#[test]
fn tree_colours_by_extension() {
    assert_eq!(file_ext_color("main.rs"), 0xdea5_84ff);
    assert_eq!(file_ext_color("Cargo.lock"), 0x6666_66ff);
    assert_eq!(file_ext_color("config.yml"), 0x9ece_6aff);
    assert_eq!(file_ext_color("README"), 0xcccc_ccff);
    assert_eq!(file_ext_color("style.less"), 0xce9f_c9ff);
}

#[test]
fn grid_shapes() {
    assert_eq!(grid_dimensions(0), (1, 1));
    assert_eq!(grid_dimensions(1), (1, 1));
    assert_eq!(grid_dimensions(2), (2, 1));
    assert_eq!(grid_dimensions(3), (2, 2));
    assert_eq!(grid_dimensions(4), (2, 2));
    assert_eq!(grid_dimensions(5), (3, 2));
    assert_eq!(grid_dimensions(6), (3, 2));
    assert_eq!(grid_dimensions(7), (3, 3));
    assert_eq!(grid_dimensions(10), (3, 4));
}

#[test]
fn scrollbar_states() {
    assert_eq!(scrollbar_opacity(true, true, true), ScrollbarOpacity::Active);
    assert_eq!(scrollbar_opacity(false, true, false), ScrollbarOpacity::Hover);
    assert_eq!(scrollbar_opacity(false, false, true), ScrollbarOpacity::Visible);
    assert_eq!(scrollbar_opacity(false, false, false), ScrollbarOpacity::Hidden);
    assert_eq!(scrollbar_thumb_color(true), 0x007a_ccff);
    assert_eq!(scrollbar_thumb_color(false), 0x8888_88ff);
}

#[test]
fn stable_sort_keeps_ties_in_order() {
    let keys = vec![chars("b"), chars("a"), chars("b"), chars(""), chars("ab")];
    assert_eq!(stable_sort_order(&keys), vec![3, 1, 4, 0, 2]);
    assert!(lex_le_exec(&chars("ab"), &chars("b")));
    assert!(!lex_le_exec(&chars("b"), &chars("ab")));
    assert!(lex_le_exec(&chars("a"), &chars("a")));
}

#[test]
fn text_helpers() {
    assert_eq!(parse_usize(&chars("42")), Some(42));
    assert_eq!(parse_usize(&chars("+7")), Some(7));
    assert_eq!(parse_usize(&chars("")), None);
    assert_eq!(parse_usize(&chars("4a")), None);
    assert_eq!(parse_usize(&chars("99999999999999999999999")), None);
    assert_eq!(decimal_chars(1205), chars("1205"));
    assert_eq!(decimal_chars(0), chars("0"));
}

#[test]
fn id_sets_stay_sorted() {
    let mut v: Vec<u64> = Vec::new();
    ids_insert(&mut v, 5);
    ids_insert(&mut v, 2);
    ids_insert(&mut v, 9);
    ids_insert(&mut v, 5);
    assert_eq!(v, vec![2, 5, 9]);
    assert!(ids_contain(&v, 9));
    ids_remove(&mut v, 5);
    assert_eq!(v, vec![2, 9]);
    assert!(!ids_contain(&v, 5));
    ids_remove(&mut v, 7);
    assert_eq!(v, vec![2, 9]);
}

#[test]
fn sidebar_labels_and_locations() {
    assert_eq!(instance_label(None, 3), "Instance 3");
    assert_eq!(instance_label(Some("api".to_string()), 3), "api");
    assert_eq!(instance_location(Some("/home/u/src"), Some("/x"), "/home/u"), "~/src");
    assert_eq!(instance_location(None, Some("/opt/p"), "/home/u"), "/opt/p");
    assert_eq!(instance_location(None, None, "/home/u"), "~");
    let ids = vec!["a".to_string(), "b".to_string(), "b".to_string()];
    assert_eq!(focused_position(&ids, "b"), Some(1));
    assert_eq!(focused_position(&ids, "z"), None);
    assert_eq!(shortcut_index(1, 3), Some(0));
    assert_eq!(shortcut_index(3, 3), Some(2));
    assert_eq!(shortcut_index(0, 3), None);
    assert_eq!(shortcut_index(4, 3), None);
    assert_eq!(total_tokens(&vec![10, -3, 200]), 207);
    assert_eq!(total_tokens(&vec![]), 0);
}

fn inst(id: &str, title: Option<&str>, project: Option<&str>, parent: Option<&str>, wt: bool) -> InstanceInfo {
    InstanceInfo {
        id: id.to_string(),
        title: title.map(|s| s.to_string()),
        project_id: project.map(|s| s.to_string()),
        parent_instance_id: parent.map(|s| s.to_string()),
        worktree_path: if wt { Some(format!("/wt/{id}")) } else { None },
        worktree_branch: if wt { Some(format!("br-{id}")) } else { None },
        git_branch: Some("main".to_string()),
        cwd: Some(format!("/code/{id}")),
        color: None,
    }
}

#[test]
fn worktree_family() {
    let list = vec![
        inst("root", Some("Root"), Some("p1"), None, false),
        inst("c1", None, Some("p1"), Some("root"), true),
        inst("w2", Some("W2"), Some("p1"), None, true),
        inst("other", Some("O"), Some("p2"), None, true),
    ];
    let p1 = Some("p1".to_string());
    let items = worktree_siblings(&list, "c1", &p1, &Some("root".to_string()));
    let ids: Vec<&str> = items.iter().map(|d| d.id.as_str()).collect();
    assert_eq!(ids, vec!["root", "w2"]);
    assert_eq!(items[0].title, "Root");
    assert_eq!(items[0].branch, Some("main".to_string()));
    assert_eq!(items[1].branch, Some("br-w2".to_string()));
    let items = worktree_siblings(&list, "root", &p1, &None);
    let ids: Vec<&str> = items.iter().map(|d| d.id.as_str()).collect();
    assert_eq!(ids, vec!["c1", "w2"]);
    assert_eq!(items[0].title, "Untitled");
    assert_eq!(worktree_index(&list, "root", &p1), 2);
    assert_eq!(worktree_index(&list, "root", &None), 1);
    assert_eq!(worktree_index(&list, "nobody", &None), 0);
}

#[test]
fn worktree_naming() {
    assert_eq!(branch_choice("", "brave-fox"), "brave-fox");
    assert_eq!(branch_choice("fix-1", "brave-fox"), "fix-1");
    assert_eq!(project_display_name(Some("Conescope".to_string()), "/x/y"), "Conescope");
    assert_eq!(project_display_name(None, "/x/myapp"), "myapp");
    assert_eq!(project_display_name(None, "/"), "project");
    assert_eq!(worktree_title("myapp", "fix-1"), "myapp [fix-1]");
    let p = branch_placeholder();
    assert!(p.chars().all(|c| c.is_ascii_lowercase() || c == '-'));
    let cs: Vec<char> = p.chars().collect();
    assert!(cs.len() >= 3);
    assert!((1..cs.len() - 1).any(|i| cs[i] == '-'));
    assert_eq!(worktree_color(None, 0), "#1EB2F5");
    assert_eq!(worktree_color(Some("#4FC3F7"), 1), "#0BA8EF");
}

#[test]
fn worktree_plan_combines_the_rules() {
    let list = vec![
        inst("root", Some("Root"), Some("p1"), None, false),
        inst("c1", None, Some("p1"), Some("root"), true),
    ];
    let plan = plan_worktree(&list, "root", Some("#FF5722"), "/code/myapp", &Some("p1".to_string()), None, "", "brave-fox");
    assert_eq!(plan.branch, "brave-fox");
    assert_eq!(plan.project_name, "myapp");
    assert_eq!(plan.index, 1);
    assert_eq!(plan.color, worktree_color(Some("#FF5722"), 1));
    assert_eq!(plan.title, "myapp [brave-fox]");
    let plan = plan_worktree(&list, "c1", None, "/x", &None, Some("Proj".to_string()), "fix", "p");
    assert_eq!(plan.index, 0);
    assert_eq!(plan.color, "#1EB2F5");
    assert_eq!(plan.title, "Proj [fix]");
}

#[test]
fn focus_view_decisions() {
    let v = panel_visibility(true, true, true, false);
    assert!(!v.sidebar && !v.editor && v.terminal);
    let v = panel_visibility(false, true, true, false);
    assert!(v.sidebar && v.editor && !v.terminal);
    assert!(!terminal_needs_resize(v));
    assert!(terminal_needs_resize(panel_visibility(false, false, true, true)));
    assert_eq!(close_target(false, true), CloseTarget::EditorTab);
    assert_eq!(close_target(true, true), CloseTarget::ShellTab);
    assert_eq!(close_target(true, false), CloseTarget::Instance);
}

#[test]
fn worktree_button() {
    assert_eq!(worktree_menu_action(true, true, 3), WorktreeMenuAction::CloseDropdown);
    assert_eq!(worktree_menu_action(false, false, 3), WorktreeMenuAction::Nothing);
    assert_eq!(worktree_menu_action(false, true, 0), WorktreeMenuAction::OpenCreateDialog);
    assert_eq!(worktree_menu_action(false, true, 2), WorktreeMenuAction::OpenDropdown);
}

#[test]
fn gather_create_data_looks_the_source_up() {
    let mut list = vec![
        inst("root", Some("Root"), Some("p1"), None, false),
        inst("c1", None, Some("p1"), Some("root"), true),
    ];
    list[0].color = Some("#FF5722".to_string());
    let projects = vec![("p0".to_string(), "Other".to_string()), ("p1".to_string(), "Conescope".to_string())];
    assert!(gather_create_data(&list, &projects, None, "", "brave-fox").is_none());
    assert!(gather_create_data(&list, &projects, Some("nobody"), "", "brave-fox").is_none());
    let d = gather_create_data(&list, &projects, Some("root"), "", "brave-fox").unwrap();
    assert_eq!(d.branch, "brave-fox");
    assert_eq!(d.project_name, "Conescope");
    assert_eq!(d.index, 1);
    assert_eq!(d.color, worktree_color(Some("#FF5722"), 1));
    assert_eq!(d.title, "Conescope [brave-fox]");
    // No project: the folder's name; no colour: the default one.
    list[1].project_id = None;
    let d = gather_create_data(&list, &projects, Some("c1"), "fix", "p").unwrap();
    assert_eq!(d.project_name, "c1");
    assert_eq!(d.index, 0);
    assert_eq!(d.color, "#1EB2F5");
    assert_eq!(d.title, "c1 [fix]");
}
