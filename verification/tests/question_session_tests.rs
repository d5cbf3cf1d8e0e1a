use conescope::focus::{action_allowed, close_instance_title, settings_shortcut_opens, AppAction, ViewMode};
use conescope::question::{question_choice_label, question_key_action, QuestionKeyAction};
use conescope::session::{editor_should_auto_hide, scratch_paths_to_restore};

#[test]
fn question_keys_move_answer_and_dismiss() {
    // Three choices and "More context": four entries.
    assert_eq!(question_key_action("down", 0, 3), QuestionKeyAction::Select(1));
    assert_eq!(question_key_action("down", 3, 3), QuestionKeyAction::Select(0));
    assert_eq!(question_key_action("up", 0, 3), QuestionKeyAction::Select(3));
    assert_eq!(question_key_action("up", 2, 3), QuestionKeyAction::Select(1));
    assert_eq!(question_key_action("enter", 1, 3), QuestionKeyAction::Answer(1));
    assert_eq!(question_key_action("enter", 3, 3), QuestionKeyAction::FocusInstance);
    assert_eq!(question_key_action("escape", 2, 3), QuestionKeyAction::Dismiss);
    assert_eq!(question_key_action("x", 2, 3), QuestionKeyAction::Nothing);
    // No choices: only "More context".
    assert_eq!(question_key_action("down", 0, 0), QuestionKeyAction::Select(0));
    assert_eq!(question_key_action("up", 0, 0), QuestionKeyAction::Select(0));
    assert_eq!(question_key_action("enter", 0, 0), QuestionKeyAction::FocusInstance);
    assert_eq!(question_key_action("down", usize::MAX, 0), QuestionKeyAction::Select(0));
}

#[test]
fn question_labels_are_numbered_from_one() {
    assert_eq!(question_choice_label(0, "Yes"), "1. Yes");
    assert_eq!(question_choice_label(9, "No, tell me more"), "10. No, tell me more");
}

#[test]
fn scratch_files_restored_sorted_without_open_ones() {
    let open = vec!["/s/Untitled-2".to_string(), "/p/main.rs".to_string()];
    let entries: Vec<(String, String)> = [
        ("Untitled-3", "/s/Untitled-3"),
        ("notes.md", "/s/notes.md"),
        ("Untitled-2", "/s/Untitled-2"),
        ("Untitled-10", "/s/Untitled-10"),
        ("Untitled", "/s/Untitled"),
    ]
    .iter()
    .map(|(a, b)| (a.to_string(), b.to_string()))
    .collect();
    assert_eq!(
        scratch_paths_to_restore(&open, &entries),
        vec!["/s/Untitled-10".to_string(), "/s/Untitled-3".to_string()]
    );
    assert!(scratch_paths_to_restore(&open, &[]).is_empty());
    assert!(editor_should_auto_hide(0, true));
    assert!(!editor_should_auto_hide(0, false));
    assert!(!editor_should_auto_hide(2, true));
}

#[test]
fn actions_respect_the_view_mode() {
    assert!(action_allowed(ViewMode::Focus, AppAction::CloseTab));
    assert!(!action_allowed(ViewMode::Overview, AppAction::CloseTab));
    assert!(!action_allowed(ViewMode::Settings, AppAction::SaveFile));
    assert!(action_allowed(ViewMode::Settings, AppAction::CloseSettings));
    assert!(!action_allowed(ViewMode::Focus, AppAction::CloseSettings));
    assert!(action_allowed(ViewMode::Overview, AppAction::FocusInstance(2)));
    assert!(settings_shortcut_opens(ViewMode::Focus));
    assert!(!settings_shortcut_opens(ViewMode::Settings));
}

#[test]
fn closing_an_instance_names_it_by_title_or_id() {
    assert_eq!(close_instance_title(Some("api".to_string()), "i-7"), "api");
    assert_eq!(close_instance_title(None, "i-7"), "Instance i-7");
    assert_eq!(close_instance_title(Some(String::new()), "x"), "");
}
