//! The question card over an instance that asks something: its choice
//! labels and what the keys do.

use vstd::prelude::*;

use vstd::arithmetic::div_mod::lemma_add_mod_noop_right;

use crate::text::{chars_of, decimal_chars, decimal_spec, push_chars, str_eq, string_from_chars};

verus! {

/// What a key press on the question card does.
#[derive(Debug, Clone, Copy, PartialEq, Eq, Structural)]
pub enum QuestionKeyAction {
    /// Highlight entry `n` (the choices, then "More context").
    Select(usize),
    /// Answer with choice `n`.
    Answer(usize),
    /// Show the instance for more context.
    FocusInstance,
    /// Dismiss the question.
    Dismiss,
    Nothing,
}

/// The keys of the card, where `selected` is the highlighted entry among
/// the `choice_count` choices and the last entry, "More context": up and
/// down move the highlight round the entries, enter answers the highlighted
/// choice (or focuses the instance on "More context"), escape dismisses.
pub fn question_key_action(key: &str, selected: usize, choice_count: usize) -> (a: QuestionKeyAction)
    requires
        choice_count < usize::MAX,
        selected + choice_count <= usize::MAX,
    ensures
        key@ == "up"@ ==> a == QuestionKeyAction::Select(((selected + choice_count) % (choice_count + 1)) as usize),
        key@ == "down"@ ==> a == QuestionKeyAction::Select(((selected + 1) % (choice_count + 1)) as usize),
        key@ == "enter"@ ==> a == if selected < choice_count {
            QuestionKeyAction::Answer(selected)
        } else {
            QuestionKeyAction::FocusInstance
        },
        key@ == "escape"@ ==> a == QuestionKeyAction::Dismiss,
        key@ != "up"@ && key@ != "down"@ && key@ != "enter"@ && key@ != "escape"@ ==> a == QuestionKeyAction::Nothing,
{
    proof {
        reveal_strlit("up");
        reveal_strlit("down");
        reveal_strlit("enter");
        reveal_strlit("escape");
        assert("up"@.len() == 2 && "down"@.len() == 4 && "enter"@.len() == 5 && "escape"@.len() == 6);
    }
    let total = choice_count + 1;
    if str_eq(key, "up") {
        QuestionKeyAction::Select((selected + choice_count) % total)
    } else if str_eq(key, "down") {
        let r = selected % total;
        proof {
            lemma_add_mod_noop_right(1, selected as int, total as int);
        }
        QuestionKeyAction::Select((r + 1) % total)
    } else if str_eq(key, "enter") {
        if selected < choice_count {
            QuestionKeyAction::Answer(selected)
        } else {
            QuestionKeyAction::FocusInstance
        }
    } else if str_eq(key, "escape") {
        QuestionKeyAction::Dismiss
    } else {
        QuestionKeyAction::Nothing
    }
}

/// The label of choice `i` (from 0): its number from 1, a dot, a space and
/// the choice.
pub fn question_choice_label(i: usize, choice: &str) -> (l: String)
    requires
        i < usize::MAX,
    ensures
        l@ == decimal_spec((i + 1) as nat) + ". "@ + choice@,
{
    let mut cs = decimal_chars(i + 1);
    cs.push('.');
    cs.push(' ');
    let c = chars_of(choice);
    push_chars(&mut cs, &c);
    proof {
        reveal_strlit(". ");
    }
    assert(cs@ =~= decimal_spec((i + 1) as nat) + ". "@ + choice@);
    string_from_chars(cs.as_slice())
}

} // verus!
