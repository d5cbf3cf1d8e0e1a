//! Worktree instances: which instances are siblings of the focused one,
//! and the branch, title, position and colour of a new worktree.

use vstd::prelude::*;
use vstd::string::*;
use vstd::utf8::encode_utf8;

use crate::colors::{hex_slices_ok, parsed_hex, variant_rgb, hex_color_string, worktree_color_variant};
use crate::paths::{file_name_of, path_file_name, opt_view};
use crate::text::{str_eq, push_chars, chars_of, string_from_chars};

verus! {

/// What the worktree logic reads of an instance.
#[derive(Debug)]
pub struct InstanceInfo {
    pub id: String,
    pub title: Option<String>,
    pub project_id: Option<String>,
    pub parent_instance_id: Option<String>,
    /// Set for instances running in a worktree.
    pub worktree_path: Option<String>,
    /// The worktree's branch, where the instance knows it.
    pub worktree_branch: Option<String>,
    /// The branch git reports for the instance's folder.
    pub git_branch: Option<String>,
    /// The instance's working folder, where known.
    pub cwd: Option<String>,
    /// The instance's colour (`#RRGGBB`), where one was given.
    pub color: Option<String>,
}

/// An entry of the worktree drop-down.
#[derive(Debug)]
pub struct WorktreeDropdownItem {
    pub id: String,
    pub title: String,
    pub branch: Option<String>,
}

pub open spec fn dropdown_view(d: WorktreeDropdownItem) -> (Seq<char>, Seq<char>, Option<Seq<char>>) {
    (d.id@, d.title@, opt_view(d.branch))
}

/// An instance belongs to the worktree family rooted at `root_id`: the
/// root itself, a child of it, or a worktree of the same project.
pub open spec fn is_sibling(inst: InstanceInfo, root_id: Seq<char>, project_id: Option<Seq<char>>) -> bool {
    ||| inst.id@ == root_id
    ||| opt_view(inst.parent_instance_id) == Some(root_id)
    ||| (project_id is Some && opt_view(inst.project_id) == project_id && inst.worktree_path is Some)
}

/// The drop-down entry of an instance: its title (or `Untitled`) and its
/// worktree branch (or git branch).
pub open spec fn dropdown_entry(inst: InstanceInfo) -> (Seq<char>, Seq<char>, Option<Seq<char>>) {
    (
        inst.id@,
        match inst.title {
            Some(t) => t@,
            None => "Untitled"@,
        },
        match inst.worktree_branch {
            Some(b) => Some(b@),
            None => opt_view(inst.git_branch),
        },
    )
}

/// The siblings of the focused instance, in list order, without it.
pub open spec fn siblings_spec(
    instances: Seq<InstanceInfo>,
    focused_id: Seq<char>,
    project_id: Option<Seq<char>>,
    parent_id: Option<Seq<char>>,
) -> Seq<(Seq<char>, Seq<char>, Option<Seq<char>>)>
    decreases instances.len(),
{
    if instances.len() == 0 {
        seq![]
    } else {
        let rest = siblings_spec(instances.drop_last(), focused_id, project_id, parent_id);
        let inst = instances.last();
        let root_id = match parent_id {
            Some(p) => p,
            None => focused_id,
        };
        if is_sibling(inst, root_id, project_id) && inst.id@ != focused_id {
            rest.push(dropdown_entry(inst))
        } else {
            rest
        }
    }
}

fn opt_eq(a: &Option<String>, b: &Option<String>) -> (r: bool)
    ensures
        r == (opt_view(*a) == opt_view(*b)),
{
    match (a, b) {
        (Some(x), Some(y)) => str_eq(x.as_str(), y.as_str()),
        (None, None) => true,
        _ => false,
    }
}

fn opt_clone(a: &Option<String>) -> (r: Option<String>)
    ensures
        opt_view(r) == opt_view(*a),
{
    match a {
        Some(x) => Some(x.clone()),
        None => None,
    }
}

/// The worktree siblings of the focused instance for the drop-down.
pub fn worktree_siblings(
    instances: &Vec<InstanceInfo>,
    focused_id: &str,
    project_id: &Option<String>,
    parent_id: &Option<String>,
) -> (items: Vec<WorktreeDropdownItem>)
    ensures
        items@.map_values(|d: WorktreeDropdownItem| dropdown_view(d)) == siblings_spec(
            instances@,
            focused_id@,
            opt_view(*project_id),
            opt_view(*parent_id),
        ),
{
    let mut out: Vec<WorktreeDropdownItem> = Vec::new();
    let mut i: usize = 0;
    while i < instances.len()
        invariant
            i <= instances@.len(),
            out@.map_values(|d: WorktreeDropdownItem| dropdown_view(d)) == siblings_spec(
                instances@.take(i as int),
                focused_id@,
                opt_view(*project_id),
                opt_view(*parent_id),
            ),
        decreases instances@.len() - i,
    {
        let ghost t1 = instances@.take(i + 1);
        assert(t1.drop_last() =~= instances@.take(i as int));
        assert(t1.last() == instances@[i as int]);
        let inst = &instances[i];
        let root_matches = match parent_id {
            Some(p) => str_eq(inst.id.as_str(), p.as_str()),
            None => str_eq(inst.id.as_str(), focused_id),
        };
        let parent_matches = match (&inst.parent_instance_id, parent_id) {
            (Some(ip), Some(p)) => str_eq(ip.as_str(), p.as_str()),
            (Some(ip), None) => str_eq(ip.as_str(), focused_id),
            (None, _) => false,
        };
        let project_matches = project_id.is_some() && opt_eq(&inst.project_id, project_id)
            && inst.worktree_path.is_some();
        let sibling = root_matches || parent_matches || project_matches;
        if sibling && !str_eq(inst.id.as_str(), focused_id) {
            let title = match &inst.title {
                Some(t) => t.clone(),
                None => String::from_str("Untitled"),
            };
            let branch = match &inst.worktree_branch {
                Some(b) => Some(b.clone()),
                None => opt_clone(&inst.git_branch),
            };
            let ghost prev = out@;
            out.push(WorktreeDropdownItem { id: inst.id.clone(), title, branch });
            assert(out@.map_values(|d: WorktreeDropdownItem| dropdown_view(d)) =~= prev.map_values(
                |d: WorktreeDropdownItem| dropdown_view(d),
            ).push(dropdown_entry(instances@[i as int])));
        }
        i = i + 1;
    }
    assert(instances@.take(instances@.len() as int) =~= instances@);
    out
}

/// The instances that count towards a new worktree's position: children
/// of the source instance, and worktrees of the same project.
pub open spec fn counts_for_index(inst: InstanceInfo, source_id: Seq<char>, project_id: Option<Seq<char>>) -> bool {
    ||| opt_view(inst.parent_instance_id) == Some(source_id)
    ||| (project_id is Some && opt_view(inst.project_id) == project_id && inst.worktree_path is Some)
}

pub open spec fn worktree_index_spec(instances: Seq<InstanceInfo>, source_id: Seq<char>, project_id: Option<Seq<char>>) -> int
    decreases instances.len(),
{
    if instances.len() == 0 {
        0
    } else {
        worktree_index_spec(instances.drop_last(), source_id, project_id) + if counts_for_index(
            instances.last(),
            source_id,
            project_id,
        ) {
            1int
        } else {
            0int
        }
    }
}

proof fn lemma_index_le_len(instances: Seq<InstanceInfo>, source_id: Seq<char>, project_id: Option<Seq<char>>)
    ensures
        0 <= worktree_index_spec(instances, source_id, project_id) <= instances.len(),
    decreases instances.len(),
{
    if instances.len() > 0 {
        lemma_index_le_len(instances.drop_last(), source_id, project_id);
    }
}

/// The position of a new worktree of `source_id`: how many worktrees of it
/// (or of its project) exist already.
pub fn worktree_index(instances: &Vec<InstanceInfo>, source_id: &str, project_id: &Option<String>) -> (n: usize)
    ensures
        n as int == worktree_index_spec(instances@, source_id@, opt_view(*project_id)),
{
    let mut n: usize = 0;
    let mut i: usize = 0;
    while i < instances.len()
        invariant
            i <= instances@.len(),
            n as int == worktree_index_spec(instances@.take(i as int), source_id@, opt_view(*project_id)),
        decreases instances@.len() - i,
    {
        let ghost t1 = instances@.take(i + 1);
        assert(t1.drop_last() =~= instances@.take(i as int));
        assert(t1.last() == instances@[i as int]);
        proof {
            lemma_index_le_len(instances@.take(i as int), source_id@, opt_view(*project_id));
        }
        let inst = &instances[i];
        let child = match &inst.parent_instance_id {
            Some(p) => str_eq(p.as_str(), source_id),
            None => false,
        };
        let same_project = project_id.is_some() && opt_eq(&inst.project_id, project_id) && inst.worktree_path.is_some();
        if child || same_project {
            n = n + 1;
        }
        i = i + 1;
    }
    assert(instances@.take(instances@.len() as int) =~= instances@);
    n
}

/// The branch of a new worktree: what was typed, or the suggested name.
pub fn branch_choice(typed: &str, placeholder: &str) -> (b: String)
    ensures
        b@ == if typed@.len() == 0 {
            placeholder@
        } else {
            typed@
        },
{
    if typed.is_empty() {
        placeholder.to_owned()
    } else {
        typed.to_owned()
    }
}

/// The display name of the project a worktree belongs to: the project's
/// name, or the source folder's name, or `project`.
pub open spec fn project_display_name_spec(project_name: Option<Seq<char>>, source_path: Seq<char>) -> Seq<char> {
    match project_name {
        Some(n) => n,
        None => match path_file_name(source_path) {
            Some(n) => n,
            None => "project"@,
        },
    }
}

pub fn project_display_name(project_name: Option<String>, source_path: &str) -> (n: String)
    ensures
        n@ == project_display_name_spec(opt_view(project_name), source_path@),
{
    match project_name {
        Some(n) => n,
        None => match file_name_of(source_path) {
            Some(n) => n,
            None => String::from_str("project"),
        },
    }
}

/// The title of a worktree instance: `project [branch]`.
pub fn worktree_title(project: &str, branch: &str) -> (t: String)
    ensures
        t@ == project@ + seq![' ', '['] + branch@ + seq![']'],
{
    let mut cs = chars_of(project);
    cs.push(' ');
    cs.push('[');
    let bc = chars_of(branch);
    push_chars(&mut cs, &bc);
    cs.push(']');
    assert(cs@ =~= project@ + seq![' ', '['] + branch@ + seq![']']);
    string_from_chars(cs.as_slice())
}

/// The colour of a new worktree: the parent instance's colour (or the
/// default `#4FC3F7`) shifted for position `index`.
pub fn worktree_color(parent_color: Option<&str>, index: usize) -> (c: String)
    requires
        match parent_color {
            Some(p) => hex_slices_ok(p.spec_bytes()),
            None => true,
        },
    ensures
        match parent_color {
            Some(p) => {
                let (pr, pg, pb) = parsed_hex(p.spec_bytes());
                let (r, g, b) = variant_rgb(pr, pg, pb, index as int);
                c@ == hex_color_string(r, g, b)
            },
            None => {
                let (r, g, b) = variant_rgb(0x4F, 0xC3, 0xF7, index as int);
                c@ == hex_color_string(r, g, b)
            },
        },
{
    match parent_color {
        Some(p) => worktree_color_variant(p, index),
        None => {
            let c = crate::colors::variant_channels(crate::colors::Rgb8 { r: 0x4F, g: 0xC3, b: 0xF7 }, index);
            crate::colors::hex_string_of(c)
        },
    }
}

/// What a new worktree instance gets: its branch, the project name that
/// names its folder, its position among the source's worktrees, its colour
/// and its title.
#[derive(Debug)]
pub struct WorktreePlan {
    pub branch: String,
    pub project_name: String,
    pub index: usize,
    pub color: String,
    pub title: String,
}

/// `plan` is the worktree of instance `source_id` (colour `source_color`,
/// folder `source_path`, project `project_id` named `project_name`) for the
/// typed branch, or the placeholder where nothing was typed: its position
/// counts the source's worktrees, its colour is the source's colour (or
/// `#4FC3F7`) shifted for that position, its title `project [branch]`.
pub open spec fn is_plan(
    plan: WorktreePlan,
    instances: Seq<InstanceInfo>,
    source_id: Seq<char>,
    source_color: Option<Seq<char>>,
    source_path: Seq<char>,
    project_id: Option<Seq<char>>,
    project_name: Option<Seq<char>>,
    typed: Seq<char>,
    placeholder: Seq<char>,
) -> bool {
    &&& plan.branch@ == if typed.len() == 0 {
        placeholder
    } else {
        typed
    }
    &&& plan.project_name@ == project_display_name_spec(project_name, source_path)
    &&& plan.index as int == worktree_index_spec(instances, source_id, project_id)
    &&& plan.title@ == plan.project_name@ + seq![' ', '['] + plan.branch@ + seq![']']
    &&& match source_color {
        Some(c) => {
            let (pr, pg, pb) = parsed_hex(encode_utf8(c));
            let (r, g, b) = variant_rgb(pr, pg, pb, plan.index as int);
            plan.color@ == hex_color_string(r, g, b)
        },
        None => {
            let (r, g, b) = variant_rgb(0x4F, 0xC3, 0xF7, plan.index as int);
            plan.color@ == hex_color_string(r, g, b)
        },
    }
}

/// Plans a worktree of instance `source_id` (with colour `source_color`,
/// folder `source_path`, project `project_id` named `project_name`) for
/// the typed branch, or the placeholder where nothing was typed.
pub fn plan_worktree(
    instances: &Vec<InstanceInfo>,
    source_id: &str,
    source_color: Option<&str>,
    source_path: &str,
    project_id: &Option<String>,
    project_name: Option<String>,
    typed: &str,
    placeholder: &str,
) -> (plan: WorktreePlan)
    requires
        match source_color {
            Some(p) => hex_slices_ok(p.spec_bytes()),
            None => true,
        },
    ensures
        is_plan(
            plan,
            instances@,
            source_id@,
            match source_color {
                Some(p) => Some(p@),
                None => None,
            },
            source_path@,
            opt_view(*project_id),
            opt_view(project_name),
            typed@,
            placeholder@,
        ),
{
    let branch = branch_choice(typed, placeholder);
    let name = project_display_name(project_name, source_path);
    let index = worktree_index(instances, source_id, project_id);
    let color = worktree_color(source_color, index);
    let title = worktree_title(name.as_str(), branch.as_str());
    WorktreePlan { branch, project_name: name, index, color, title }
}

/// The position of the first instance with id `id`.
pub open spec fn instance_index(instances: Seq<InstanceInfo>, id: Seq<char>) -> Option<int>
    decreases instances.len(),
{
    if instances.len() == 0 {
        None
    } else if instances[0].id@ == id {
        Some(0)
    } else {
        match instance_index(instances.drop_first(), id) {
            Some(k) => Some(k + 1),
            None => None,
        }
    }
}

proof fn lemma_instance_index_bound(instances: Seq<InstanceInfo>, id: Seq<char>)
    ensures
        instance_index(instances, id) matches Some(k) ==> 0 <= k < instances.len() && instances[k].id@ == id,
    decreases instances.len(),
{
    if instances.len() > 0 && instances[0].id@ != id {
        lemma_instance_index_bound(instances.drop_first(), id);
    }
}

fn find_instance(instances: &Vec<InstanceInfo>, id: &str) -> (r: Option<usize>)
    ensures
        match r {
            Some(i) => instance_index(instances@, id@) == Some(i as int),
            None => instance_index(instances@, id@) is None,
        },
{
    let mut i: usize = 0;
    assert(instances@.skip(0) =~= instances@);
    while i < instances.len()
        invariant
            i <= instances@.len(),
            instance_index(instances@, id@) == match instance_index(instances@.skip(i as int), id@) {
                Some(k) => Some(k + i),
                None => None::<int>,
            },
        decreases instances@.len() - i,
    {
        let ghost rest = instances@.skip(i as int);
        assert(rest[0] == instances@[i as int]);
        assert(rest.drop_first() =~= instances@.skip(i + 1));
        if str_eq(instances[i].id.as_str(), id) {
            return Some(i);
        }
        i = i + 1;
    }
    assert(instances@.skip(i as int).len() == 0);
    None
}

/// The display name of the first project with id `pid`.
pub open spec fn project_lookup(projects: Seq<(String, String)>, pid: Seq<char>) -> Option<Seq<char>>
    decreases projects.len(),
{
    if projects.len() == 0 {
        None
    } else if projects[0].0@ == pid {
        Some(projects[0].1@)
    } else {
        project_lookup(projects.drop_first(), pid)
    }
}

fn find_project_name(projects: &Vec<(String, String)>, pid: &str) -> (n: Option<String>)
    ensures
        opt_view(n) == project_lookup(projects@, pid@),
{
    let mut i: usize = 0;
    assert(projects@.skip(0) =~= projects@);
    while i < projects.len()
        invariant
            i <= projects@.len(),
            project_lookup(projects@, pid@) == project_lookup(projects@.skip(i as int), pid@),
        decreases projects@.len() - i,
    {
        let ghost rest = projects@.skip(i as int);
        assert(rest[0] == projects@[i as int]);
        assert(rest.drop_first() =~= projects@.skip(i + 1));
        if str_eq(projects[i].0.as_str(), pid) {
            return Some(projects[i].1.clone());
        }
        i = i + 1;
    }
    None
}

/// The colour of the source instance may be parsed (see `hex_slices_ok`).
pub open spec fn source_color_ok(instances: Seq<InstanceInfo>, source_id: Option<Seq<char>>) -> bool {
    match source_id {
        Some(s) => match instance_index(instances, s) {
            Some(i) => match instances[i].color {
                Some(c) => hex_slices_ok(encode_utf8(c@)),
                None => true,
            },
            None => true,
        },
        None => true,
    }
}

/// Gathers what a new worktree of the dialog's source instance needs: none
/// where no source is set or no instance has its id; else the plan for the
/// first instance with that id, from its folder (or the empty path), its
/// colour, and its project's display name in `projects` (id, name).
pub fn gather_create_data(
    instances: &Vec<InstanceInfo>,
    projects: &Vec<(String, String)>,
    source_id: Option<&str>,
    typed: &str,
    placeholder: &str,
) -> (d: Option<WorktreePlan>)
    requires
        source_color_ok(
            instances@,
            match source_id {
                Some(s) => Some(s@),
                None => None,
            },
        ),
    ensures
        match source_id {
            None => d is None,
            Some(s) => match instance_index(instances@, s@) {
                None => d is None,
                Some(i) => {
                    let src = instances@[i];
                    let pname = match src.project_id {
                        Some(pid) => project_lookup(projects@, pid@),
                        None => None,
                    };
                    let path = match src.cwd {
                        Some(c) => c@,
                        None => Seq::<char>::empty(),
                    };
                    d matches Some(p) && is_plan(
                        p,
                        instances@,
                        s@,
                        opt_view(src.color),
                        path,
                        opt_view(src.project_id),
                        pname,
                        typed@,
                        placeholder@,
                    )
                },
            },
        },
{
    let sid = match source_id {
        Some(s) => s,
        None => {
            return None;
        },
    };
    let i = match find_instance(instances, sid) {
        Some(i) => i,
        None => {
            return None;
        },
    };
    proof {
        lemma_instance_index_bound(instances@, sid@);
    }
    let src = &instances[i];
    let pname = match &src.project_id {
        Some(pid) => find_project_name(projects, pid.as_str()),
        None => None,
    };
    let path = match &src.cwd {
        Some(c) => c.clone(),
        None => String::new(),
    };
    let color: Option<&str> = match &src.color {
        Some(c) => Some(c.as_str()),
        None => None,
    };
    Some(plan_worktree(instances, sid, color, path.as_str(), &src.project_id, pname, typed, placeholder))
}

/// What a click on the worktree button does.
#[derive(Debug, Clone, Copy, PartialEq, Eq, Structural)]
pub enum WorktreeMenuAction {
    /// Close the open drop-down.
    CloseDropdown,
    /// Nothing is focused: nothing happens.
    Nothing,
    /// No siblings yet: open the dialog that creates a worktree.
    OpenCreateDialog,
    /// Show the siblings in the drop-down.
    OpenDropdown,
}

/// The worktree button: it closes an open drop-down; else, for a focused
/// instance, it lists the siblings, or offers to create the first worktree.
pub fn worktree_menu_action(dropdown_open: bool, has_focus: bool, sibling_count: usize) -> (a: WorktreeMenuAction)
    ensures
        a == if dropdown_open {
            WorktreeMenuAction::CloseDropdown
        } else if !has_focus {
            WorktreeMenuAction::Nothing
        } else if sibling_count == 0 {
            WorktreeMenuAction::OpenCreateDialog
        } else {
            WorktreeMenuAction::OpenDropdown
        },
{
    if dropdown_open {
        WorktreeMenuAction::CloseDropdown
    } else if !has_focus {
        WorktreeMenuAction::Nothing
    } else if sibling_count == 0 {
        WorktreeMenuAction::OpenCreateDialog
    } else {
        WorktreeMenuAction::OpenDropdown
    }
}

/// A word of the `names` crate's lists: not empty, lower-case ASCII
/// letters and `-` only.
pub open spec fn is_name_word(w: Seq<char>) -> bool {
    &&& w.len() > 0
    &&& forall|i: int| 0 <= i < w.len() ==> ('a' <= #[trigger] w[i] <= 'z' || w[i] == '-')
}

/// A name of the form `adjective-noun`: two words of the lists joined by `-`.
pub open spec fn is_adjective_noun(name: Seq<char>) -> bool {
    exists|a: Seq<char>, b: Seq<char>| is_name_word(a) && is_name_word(b) && name == a + seq!['-'] + b
}

/// A random `adjective-noun` name from the `names` crate's default
/// generator (`Generator::default().next()`): its source always gives
/// `Some` of an adjective and a noun of its word lists (non-empty,
/// lower-case ASCII letters and `-`) joined by `-`. Which words come is
/// left open: they are drawn at random.
#[verifier::external_body]
fn random_name() -> (name: Option<String>)
    ensures
        name is Some,
        is_adjective_noun(name->0@),
{
    names::Generator::default().next()
}

/// The branch name suggested for a new worktree: a random
/// `adjective-noun` name (`feature` would stand in, should none come).
pub fn branch_placeholder() -> (name: String)
    ensures
        is_adjective_noun(name@),
{
    match random_name() {
        Some(n) => n,
        None => String::from_str("feature"),
    }
}

} // verus!
