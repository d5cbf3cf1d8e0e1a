//! What the git panel and the diff viewer show: the staged and unstaged
//! sections, each entry's label and colour, and how a diff line looks.

use vstd::prelude::*;

use crate::file_tree::FileStatus;
use crate::paths::{file_name_of, path_file_name};
use crate::text::{decimal_chars, decimal_spec, str_eq, string_from_chars};

verus! {

/// Which side of the index a changed file is on.
#[derive(Debug, Clone, Copy, PartialEq, Eq, Structural)]
pub enum StageStatus {
    Staged,
    Unstaged,
}

/// The positions of the staged and of the unstaged entries, each in list
/// order.
pub fn git_sections(stages: &Vec<StageStatus>) -> (sections: (Vec<usize>, Vec<usize>))
    ensures
        forall|k: int| 0 <= k < sections.0@.len() ==> #[trigger] sections.0@[k] < stages@.len(),
        forall|k: int| 0 <= k < sections.1@.len() ==> #[trigger] sections.1@[k] < stages@.len(),
        forall|a: int, b: int| 0 <= a < b < sections.0@.len() ==> sections.0@[a] < sections.0@[b],
        forall|a: int, b: int| 0 <= a < b < sections.1@.len() ==> sections.1@[a] < sections.1@[b],
        forall|i: int|
            0 <= i < stages@.len() ==> (sections.0@.contains(i as usize) <==> #[trigger] stages@[i]
                == StageStatus::Staged),
        forall|i: int|
            0 <= i < stages@.len() ==> (sections.1@.contains(i as usize) <==> #[trigger] stages@[i]
                == StageStatus::Unstaged),
{
    let mut staged: Vec<usize> = Vec::new();
    let mut unstaged: Vec<usize> = Vec::new();
    let mut i: usize = 0;
    while i < stages.len()
        invariant
            i <= stages@.len(),
            forall|k: int| 0 <= k < staged@.len() ==> #[trigger] staged@[k] < i,
            forall|k: int| 0 <= k < unstaged@.len() ==> #[trigger] unstaged@[k] < i,
            forall|a: int, b: int| 0 <= a < b < staged@.len() ==> staged@[a] < staged@[b],
            forall|a: int, b: int| 0 <= a < b < unstaged@.len() ==> unstaged@[a] < unstaged@[b],
            forall|j: int| 0 <= j < i ==> (staged@.contains(j as usize) <==> #[trigger] stages@[j] == StageStatus::Staged),
            forall|j: int| 0 <= j < i ==> (unstaged@.contains(j as usize) <==> #[trigger] stages@[j] == StageStatus::Unstaged),
        decreases stages@.len() - i,
    {
        let ghost ps = staged@;
        let ghost pu = unstaged@;
        if stages[i] == StageStatus::Staged {
            staged.push(i);
        } else {
            unstaged.push(i);
        }
        assert forall|j: int| 0 <= j < i + 1 implies (staged@.contains(j as usize) <==> #[trigger] stages@[j]
            == StageStatus::Staged) by {
            if staged@.contains(j as usize) {
                let m = choose|m: int| 0 <= m < staged@.len() && staged@[m] == j as usize;
                if m < ps.len() {
                    assert(staged@[m] == ps[m]);
                    assert(ps.contains(j as usize));
                }
            }
            if j < i && ps.contains(j as usize) {
                let m = choose|m: int| 0 <= m < ps.len() && ps[m] == j as usize;
                assert(staged@[m] == ps[m]);
            }
            if j == i && stages@[j] == StageStatus::Staged {
                assert(staged@[staged@.len() - 1] == i);
            }
        }
        assert forall|j: int| 0 <= j < i + 1 implies (unstaged@.contains(j as usize) <==> #[trigger] stages@[j]
            == StageStatus::Unstaged) by {
            if unstaged@.contains(j as usize) {
                let m = choose|m: int| 0 <= m < unstaged@.len() && unstaged@[m] == j as usize;
                if m < pu.len() {
                    assert(unstaged@[m] == pu[m]);
                    assert(pu.contains(j as usize));
                }
            }
            if j < i && pu.contains(j as usize) {
                let m = choose|m: int| 0 <= m < pu.len() && pu[m] == j as usize;
                assert(unstaged@[m] == pu[m]);
            }
            if j == i && stages@[j] == StageStatus::Unstaged {
                assert(unstaged@[unstaged@.len() - 1] == i);
            }
        }
        i = i + 1;
    }
    (staged, unstaged)
}

/// The colour of an entry's status letter: the theme accent, a fixed
/// colour (0xRRGGBBAA), or the theme's faint text.
#[derive(Debug, Clone, Copy, PartialEq, Eq, Structural)]
pub enum StatusColor {
    Accent,
    Fixed(u32),
    Faint,
}

pub open spec fn status_color_spec(status: FileStatus) -> StatusColor {
    match status {
        FileStatus::Modified => StatusColor::Accent,
        FileStatus::Added => StatusColor::Fixed(0x73c9_91ff),
        FileStatus::Deleted => StatusColor::Fixed(0xe06c_75ff),
        FileStatus::Renamed => StatusColor::Fixed(0xe5c0_7bff),
        FileStatus::Untracked => StatusColor::Faint,
    }
}

/// The colour of a git panel entry's status.
pub fn git_entry_color(status: FileStatus) -> (c: StatusColor)
    ensures
        c == status_color_spec(status),
{
    match status {
        FileStatus::Modified => StatusColor::Accent,
        FileStatus::Added => StatusColor::Fixed(0x73c9_91ff),
        FileStatus::Deleted => StatusColor::Fixed(0xe06c_75ff),
        FileStatus::Renamed => StatusColor::Fixed(0xe5c0_7bff),
        FileStatus::Untracked => StatusColor::Faint,
    }
}

/// The label of a git panel entry: the file name of its path, or the path.
pub fn git_entry_label(path: &str) -> (label: String)
    ensures
        label@ == match path_file_name(path@) {
            Some(n) => n,
            None => path@,
        },
{
    match file_name_of(path) {
        Some(n) => n,
        None => path.to_owned(),
    }
}

/// An entry is highlighted when it is the selected path on the same side.
pub fn is_selected_entry(selected: Option<(&str, StageStatus)>, path: &str, stage: StageStatus) -> (r: bool)
    ensures
        r == match selected {
            Some((p, s)) => p@ == path@ && s == stage,
            None => false,
        },
{
    match selected {
        Some((p, s)) => str_eq(p, path) && s == stage,
        None => false,
    }
}

/// Where a diff line comes from.
#[derive(Debug, Clone, Copy, PartialEq, Eq, Structural)]
pub enum LineOrigin {
    Addition,
    Deletion,
    Context,
}

/// How a diff line looks: background (0xRRGGBBAA), the prefix shown
/// before it, and its text colour (`None`: the theme's text colour).
#[derive(Debug, Clone, Copy, PartialEq, Eq, Structural)]
pub struct DiffLineStyle {
    pub background: u32,
    pub prefix: char,
    pub text: Option<u32>,
}

pub open spec fn diff_line_style_spec(origin: LineOrigin) -> DiffLineStyle {
    match origin {
        LineOrigin::Addition => DiffLineStyle { background: 0x2a3a_2aff, prefix: '+', text: Some(0x98c3_79ff) },
        LineOrigin::Deletion => DiffLineStyle { background: 0x3a2a_2aff, prefix: '-', text: Some(0xe06c_75ff) },
        LineOrigin::Context => DiffLineStyle { background: 0, prefix: ' ', text: None },
    }
}

pub fn diff_line_style(origin: LineOrigin) -> (s: DiffLineStyle)
    ensures
        s == diff_line_style_spec(origin),
{
    match origin {
        LineOrigin::Addition => DiffLineStyle { background: 0x2a3a_2aff, prefix: '+', text: Some(0x98c3_79ff) },
        LineOrigin::Deletion => DiffLineStyle { background: 0x3a2a_2aff, prefix: '-', text: Some(0xe06c_75ff) },
        LineOrigin::Context => DiffLineStyle { background: 0, prefix: ' ', text: None },
    }
}

/// A line number in the gutter, or nothing.
pub fn line_number_label(n: Option<u32>) -> (label: String)
    ensures
        label@ == match n {
            Some(v) => decimal_spec(v as nat),
            None => Seq::<char>::empty(),
        },
{
    match n {
        Some(v) => {
            let cs = decimal_chars(v as usize);
            string_from_chars(cs.as_slice())
        },
        None => String::new(),
    }
}

/// `s` without its trailing newlines.
pub open spec fn without_trailing_newlines(s: Seq<char>) -> Seq<char>
    decreases s.len(),
{
    if s.len() > 0 && s.last() == '\n' {
        without_trailing_newlines(s.drop_last())
    } else {
        s
    }
}

/// The text of a diff line as shown: trailing newlines removed.
pub fn diff_line_text(content: &str) -> (text: String)
    ensures
        text@ == without_trailing_newlines(content@),
{
    let cs = crate::text::chars_of(content);
    let mut end = cs.len();
    assert(cs@.take(end as int) =~= cs@);
    while end > 0 && cs[end - 1] == '\n'
        invariant
            end <= cs@.len(),
            cs@ == content@,
            without_trailing_newlines(content@) == without_trailing_newlines(cs@.take(end as int)),
        decreases end,
    {
        assert(cs@.take(end as int).drop_last() =~= cs@.take(end - 1));
        end = end - 1;
    }
    assert(without_trailing_newlines(cs@.take(end as int)) == cs@.take(end as int));
    let mut kept: Vec<char> = Vec::new();
    let mut i: usize = 0;
    while i < end
        invariant
            i <= end <= cs@.len(),
            kept@ == cs@.take(i as int),
        decreases end - i,
    {
        kept.push(cs[i]);
        assert(cs@.take(i + 1) =~= cs@.take(i as int).push(cs@[i as int]));
        i = i + 1;
    }
    string_from_chars(kept.as_slice())
}

} // verus!
