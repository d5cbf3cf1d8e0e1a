//! The editor's tab strip: which files and diffs are open, which one is
//! active, and the counter that names new scratch files.

use vstd::prelude::*;
use vstd::string::*;

use crate::paths::{file_name_of, join_path, opt_view, parent_of, path_file_name, path_join, path_parent};
use crate::text::{parse_usize, parse_usize_spec, str_eq, chars_of, chars_eq};

verus! {

/// What the tab strip asks its host to do after a change.
#[derive(Debug, Clone, Copy, PartialEq, Eq, Structural)]
pub enum EditorTabsEvent {
    SelectTab(usize),
    CloseTab(usize),
    NewUntitled,
}

/// One open tab.
#[derive(Debug)]
pub struct EditorTab {
    pub path: String,
    pub name: String,
    pub modified: bool,
    /// `Some(staged)` for diff tabs, `None` for file tabs.
    pub diff_mode: Option<bool>,
}

/// The label of a file tab: the file name of its path, or the whole path
/// where it has none.
pub open spec fn tab_label(path: Seq<char>) -> Seq<char> {
    match path_file_name(path) {
        Some(n) => n,
        None => path,
    }
}

/// The label of a diff tab.
pub open spec fn diff_tab_label(path: Seq<char>) -> Seq<char> {
    tab_label(path) + " [diff]"@
}

/// `i` is the first tab whose path is `p`.
pub open spec fn first_with_path(tabs: Seq<EditorTab>, p: Seq<char>, i: int) -> bool {
    &&& 0 <= i < tabs.len()
    &&& tabs[i].path@ == p
    &&& forall|j: int| 0 <= j < i ==> tabs[j].path@ != p
}

pub open spec fn has_path(tabs: Seq<EditorTab>, p: Seq<char>) -> bool {
    exists|j: int| 0 <= j < tabs.len() && tabs[j].path@ == p
}

/// A file tab (not a diff tab) on path `p`.
pub open spec fn is_file_tab_on(t: EditorTab, p: Seq<char>) -> bool {
    t.path@ == p && t.diff_mode is None
}

/// `i` is the first file tab on path `p`.
pub open spec fn first_file_tab(tabs: Seq<EditorTab>, p: Seq<char>, i: int) -> bool {
    &&& 0 <= i < tabs.len()
    &&& is_file_tab_on(tabs[i], p)
    &&& forall|j: int| 0 <= j < i ==> !is_file_tab_on(#[trigger] tabs[j], p)
}

/// Some file tab is open on path `p`.
pub open spec fn has_file_tab(tabs: Seq<EditorTab>, p: Seq<char>) -> bool {
    exists|j: int| 0 <= j < tabs.len() && is_file_tab_on(#[trigger] tabs[j], p)
}

/// `i` is the first diff tab for `p` with the given staging.
pub open spec fn first_with_diff(tabs: Seq<EditorTab>, p: Seq<char>, staged: bool, i: int) -> bool {
    &&& 0 <= i < tabs.len()
    &&& tabs[i].path@ == p && tabs[i].diff_mode == Some(staged)
    &&& forall|j: int| 0 <= j < i ==> !(tabs[j].path@ == p && tabs[j].diff_mode == Some(staged))
}

pub open spec fn has_diff(tabs: Seq<EditorTab>, p: Seq<char>, staged: bool) -> bool {
    exists|j: int| 0 <= j < tabs.len() && tabs[j].path@ == p && tabs[j].diff_mode == Some(staged)
}

/// A fresh, unmodified file tab for `path`.
pub open spec fn is_fresh_file_tab(t: EditorTab, path: Seq<char>) -> bool {
    t.path@ == path && t.name@ == tab_label(path) && !t.modified && t.diff_mode is None
}

/// The active position after tab `index` was removed, leaving `new_len` tabs.
pub open spec fn active_after_close(old: Option<usize>, index: int, new_len: int) -> Option<int> {
    if new_len == 0 {
        None
    } else {
        match old {
            Some(a) => if a >= new_len {
                Some(new_len - 1)
            } else if a > index {
                Some(a - 1)
            } else {
                Some(a as int)
            },
            None => None,
        }
    }
}

pub open spec fn opt_int(o: Option<usize>) -> Option<int> {
    match o {
        Some(a) => Some(a as int),
        None => None,
    }
}

/// The paths of the file tabs (diff tabs left out), in tab order.
pub open spec fn file_tab_paths(tabs: Seq<EditorTab>) -> Seq<Seq<char>>
    decreases tabs.len(),
{
    if tabs.len() == 0 {
        seq![]
    } else {
        let rest = file_tab_paths(tabs.drop_last());
        if tabs.last().diff_mode is None {
            rest.push(tabs.last().path@)
        } else {
            rest
        }
    }
}

pub open spec fn strings_view(v: Seq<String>) -> Seq<Seq<char>> {
    v.map_values(|s: String| s@)
}

/// The scratch-file number that a file name `Untitled-N` carries.
pub open spec fn untitled_number(name: Seq<char>) -> Option<int> {
    if name.len() >= 9 && name.take(9) == "Untitled-"@ {
        parse_usize_spec(name.skip(9))
    } else {
        None
    }
}

/// The largest scratch-file number among `names`, if any name is
/// `Untitled-N`.
pub open spec fn max_untitled(names: Seq<Seq<char>>) -> Option<int>
    decreases names.len(),
{
    if names.len() == 0 {
        None
    } else {
        let rest = max_untitled(names.drop_last());
        match untitled_number(names.last()) {
            Some(n) => match rest {
                Some(r) => if n > r {
                    Some(n)
                } else {
                    Some(r)
                },
                None => Some(n),
            },
            None => rest,
        }
    }
}

/// The number the next scratch file takes: one past the largest existing
/// `Untitled-N` (kept at `usize::MAX` there), or 0 where there is none.
pub open spec fn next_untitled(names: Seq<Seq<char>>) -> int {
    match max_untitled(names) {
        Some(m) => if m < usize::MAX {
            m + 1
        } else {
            usize::MAX as int
        },
        None => 0,
    }
}

/// What `open_tab(path)` does: focus the first file tab already open on
/// `path`, or append a fresh file tab and focus it (a diff tab on the same
/// path does not count).
pub open spec fn opened_tab(before: EditorTabs, after: EditorTabs, path: Seq<char>, ev: EditorTabsEvent) -> bool {
    &&& has_file_tab(before.tabs_spec(), path) ==> {
        &&& after.tabs_spec() == before.tabs_spec()
        &&& after.active_spec() matches Some(i)
        &&& first_file_tab(before.tabs_spec(), path, i as int)
        &&& ev == EditorTabsEvent::SelectTab(i)
    }
    &&& !has_file_tab(before.tabs_spec(), path) ==> {
        &&& after.tabs_spec().len() == before.tabs_spec().len() + 1
        &&& after.tabs_spec().drop_last() == before.tabs_spec()
        &&& is_fresh_file_tab(after.tabs_spec().last(), path)
        &&& after.active_spec() == Some(before.tabs_spec().len() as usize)
        &&& ev == EditorTabsEvent::SelectTab(before.tabs_spec().len() as usize)
    }
}

/// What `close_tab(index)` does: remove tab `index` and keep the active
/// position on the same tab where it can; out of range, nothing.
pub open spec fn closed_tab(before: EditorTabs, after: EditorTabs, index: usize, ev: Option<EditorTabsEvent>) -> bool {
    &&& index >= before.tabs_spec().len() ==> {
        &&& after.tabs_spec() == before.tabs_spec()
        &&& after.active_spec() == before.active_spec()
        &&& ev is None
    }
    &&& index < before.tabs_spec().len() ==> {
        &&& after.tabs_spec() == before.tabs_spec().remove(index as int)
        &&& opt_int(after.active_spec()) == active_after_close(
            before.active_spec(),
            index as int,
            before.tabs_spec().len() - 1,
        )
        &&& ev == Some(EditorTabsEvent::CloseTab(index))
    }
}

/// The tab strip.
pub struct EditorTabs {
    tabs: Vec<EditorTab>,
    active_index: Option<usize>,
    next_untitled_id: usize,
    /// Current `project_id` for scratch file creation.
    pub current_project_id: Option<String>,
}

impl EditorTabs {
    /// The open tabs, in order.
    pub closed spec fn tabs_spec(&self) -> Seq<EditorTab> {
        self.tabs@
    }

    /// The position of the active tab.
    pub closed spec fn active_spec(&self) -> Option<usize> {
        self.active_index
    }

    /// The number that the next scratch file takes.
    pub closed spec fn untitled_spec(&self) -> usize {
        self.next_untitled_id
    }

    /// The project that new scratch files belong to.
    pub closed spec fn project_spec(&self) -> Option<String> {
        self.current_project_id
    }

    /// A tab is active exactly when some tab is open, and it is one of them.
    pub open spec fn wf(&self) -> bool {
        &&& self.tabs_spec().len() <= usize::MAX
        &&& (self.active_spec() is None <==> self.tabs_spec().len() == 0)
        &&& (self.active_spec() matches Some(a) ==> a < self.tabs_spec().len())
    }

    pub fn new() -> (t: Self)
        ensures
            t.wf(),
            t.tabs_spec().len() == 0,
            t.active_spec() is None,
            t.untitled_spec() == 0,
            t.project_spec() is None,
    {
        EditorTabs { tabs: Vec::new(), active_index: None, next_untitled_id: 0, current_project_id: None }
    }

    fn position_of_path(&self, path: &str) -> (r: Option<usize>)
        ensures
            match r {
                Some(i) => first_with_path(self.tabs@, path@, i as int),
                None => !has_path(self.tabs@, path@),
            },
    {
        let mut i: usize = 0;
        while i < self.tabs.len()
            invariant
                i <= self.tabs@.len(),
                forall|j: int| 0 <= j < i ==> self.tabs@[j].path@ != path@,
            decreases self.tabs@.len() - i,
        {
            if str_eq(self.tabs[i].path.as_str(), path) {
                return Some(i);
            }
            i = i + 1;
        }
        None
    }

    fn position_of_file_tab(&self, path: &str) -> (r: Option<usize>)
        ensures
            match r {
                Some(i) => first_file_tab(self.tabs@, path@, i as int),
                None => !has_file_tab(self.tabs@, path@),
            },
    {
        let mut i: usize = 0;
        while i < self.tabs.len()
            invariant
                i <= self.tabs@.len(),
                forall|j: int| 0 <= j < i ==> !is_file_tab_on(#[trigger] self.tabs@[j], path@),
            decreases self.tabs@.len() - i,
        {
            if self.tabs[i].diff_mode.is_none() && str_eq(self.tabs[i].path.as_str(), path) {
                return Some(i);
            }
            i = i + 1;
        }
        None
    }

    /// Opens a file tab on `path`, or focuses the first file tab already
    /// open on it.
    pub fn open_tab(&mut self, path: &str) -> (ev: EditorTabsEvent)
        requires
            old(self).wf(),
        ensures
            final(self).wf(),
            final(self).untitled_spec() == old(self).untitled_spec(),
            final(self).project_spec() == old(self).project_spec(),
            opened_tab(*old(self), *final(self), path@, ev),
    {
        match self.position_of_file_tab(path) {
            Some(idx) => {
                self.active_index = Some(idx);
                EditorTabsEvent::SelectTab(idx)
            },
            None => {
                let name = match file_name_of(path) {
                    Some(n) => n,
                    None => path.to_owned(),
                };
                self.tabs.push(EditorTab { path: path.to_owned(), name, modified: false, diff_mode: None });
                assert(self.tabs@.drop_last() =~= old(self).tabs@);
                let idx = self.tabs.len() - 1;
                self.active_index = Some(idx);
                EditorTabsEvent::SelectTab(idx)
            },
        }
    }

    /// Opens a diff tab, or focuses the first diff tab for the same path
    /// and staging.
    pub fn open_diff_tab(&mut self, path: &str, staged: bool) -> (ev: EditorTabsEvent)
        requires
            old(self).wf(),
        ensures
            final(self).wf(),
            final(self).untitled_spec() == old(self).untitled_spec(),
            final(self).project_spec() == old(self).project_spec(),
            has_diff(old(self).tabs_spec(), path@, staged) ==> {
                &&& final(self).tabs_spec() == old(self).tabs_spec()
                &&& final(self).active_spec() matches Some(i)
                &&& first_with_diff(old(self).tabs_spec(), path@, staged, i as int)
                &&& ev == EditorTabsEvent::SelectTab(i)
            },
            !has_diff(old(self).tabs_spec(), path@, staged) ==> {
                let t = final(self).tabs_spec().last();
                &&& final(self).tabs_spec().len() == old(self).tabs_spec().len() + 1
                &&& final(self).tabs_spec().drop_last() == old(self).tabs_spec()
                &&& t.path@ == path@ && t.name@ == diff_tab_label(path@)
                &&& !t.modified && t.diff_mode == Some(staged)
                &&& final(self).active_spec() == Some(old(self).tabs_spec().len() as usize)
                &&& ev == EditorTabsEvent::SelectTab(old(self).tabs_spec().len() as usize)
            },
    {
        let mut i: usize = 0;
        while i < self.tabs.len()
            invariant
                i <= self.tabs@.len(),
                self.tabs@ == old(self).tabs@,
                self.active_index == old(self).active_index,
                self.next_untitled_id == old(self).next_untitled_id,
                self.current_project_id == old(self).current_project_id,
                forall|j: int|
                    0 <= j < i ==> !(self.tabs@[j].path@ == path@ && self.tabs@[j].diff_mode == Some(
                        staged,
                    )),
            decreases self.tabs@.len() - i,
        {
            let same_mode = match self.tabs[i].diff_mode {
                Some(s) => s == staged,
                None => false,
            };
            if same_mode && str_eq(self.tabs[i].path.as_str(), path) {
                self.active_index = Some(i);
                return EditorTabsEvent::SelectTab(i);
            }
            i = i + 1;
        }
        let mut name = match file_name_of(path) {
            Some(n) => n,
            None => path.to_owned(),
        };
        name.append(" [diff]");
        self.tabs.push(EditorTab { path: path.to_owned(), name, modified: false, diff_mode: Some(staged) });
        assert(self.tabs@.drop_last() =~= old(self).tabs@);
        let idx = self.tabs.len() - 1;
        self.active_index = Some(idx);
        EditorTabsEvent::SelectTab(idx)
    }

    /// Closes tab `index`; the active position follows the tab it was on,
    /// or moves to the last tab. Out of range, nothing happens.
    pub fn close_tab(&mut self, index: usize) -> (ev: Option<EditorTabsEvent>)
        requires
            old(self).wf(),
        ensures
            final(self).wf(),
            final(self).untitled_spec() == old(self).untitled_spec(),
            final(self).project_spec() == old(self).project_spec(),
            closed_tab(*old(self), *final(self), index, ev),
    {
        if index >= self.tabs.len() {
            return None;
        }
        let _removed = self.tabs.remove(index);
        if self.tabs.len() == 0 {
            self.active_index = None;
        } else {
            match self.active_index {
                Some(active) => {
                    if active >= self.tabs.len() {
                        self.active_index = Some(self.tabs.len() - 1);
                    } else if active > index {
                        self.active_index = Some(active - 1);
                    }
                },
                None => {},
            }
        }
        Some(EditorTabsEvent::CloseTab(index))
    }

    /// Closes the active tab, if there is one.
    pub fn close_active_tab(&mut self) -> (ev: Option<EditorTabsEvent>)
        requires
            old(self).wf(),
        ensures
            final(self).wf(),
            final(self).untitled_spec() == old(self).untitled_spec(),
            final(self).project_spec() == old(self).project_spec(),
            old(self).active_spec() is None ==> {
                &&& final(self).tabs_spec() == old(self).tabs_spec()
                &&& final(self).active_spec() is None
                &&& ev is None
            },
            old(self).active_spec() matches Some(a) ==> closed_tab(*old(self), *final(self), a, ev),
    {
        match self.active_index {
            Some(idx) => self.close_tab(idx),
            None => None,
        }
    }

    /// Sets the modified mark of the first tab open on `path`; reports
    /// whether there was one.
    pub fn set_modified(&mut self, path: &str, modified: bool) -> (found: bool)
        requires
            old(self).wf(),
        ensures
            final(self).wf(),
            final(self).active_spec() == old(self).active_spec(),
            final(self).untitled_spec() == old(self).untitled_spec(),
            final(self).project_spec() == old(self).project_spec(),
            final(self).tabs_spec().len() == old(self).tabs_spec().len(),
            found == has_path(old(self).tabs_spec(), path@),
            forall|i: int|
                #![trigger final(self).tabs_spec()[i]]
                0 <= i < old(self).tabs_spec().len() ==> {
                    let o = old(self).tabs_spec()[i];
                    let n = final(self).tabs_spec()[i];
                    &&& n.path == o.path && n.name == o.name && n.diff_mode == o.diff_mode
                    &&& n.modified == if first_with_path(old(self).tabs_spec(), path@, i) {
                        modified
                    } else {
                        o.modified
                    }
                },
    {
        match self.position_of_path(path) {
            Some(idx) => {
                let mut tab = self.tabs.remove(idx);
                tab.modified = modified;
                self.tabs.insert(idx, tab);
                assert forall|i: int| 0 <= i < old(self).tabs@.len() && i != idx implies
                    !first_with_path(old(self).tabs@, path@, i) by {
                    if i > idx {
                        assert(old(self).tabs@[idx as int].path@ == path@);
                    }
                }
                true
            },
            None => {
                assert forall|i: int| 0 <= i < old(self).tabs@.len() implies
                    !first_with_path(old(self).tabs@, path@, i) by {
                    if first_with_path(old(self).tabs@, path@, i) {
                        assert(has_path(old(self).tabs@, path@));
                    }
                }
                false
            },
        }
    }

    /// The path of the active tab.
    pub fn active_path(&self) -> (p: Option<&str>)
        requires
            self.wf(),
        ensures
            match self.active_spec() {
                Some(a) => p matches Some(s) && s@ == self.tabs_spec()[a as int].path@,
                None => p is None,
            },
    {
        match self.active_index {
            Some(idx) => Some(self.tabs[idx].path.as_str()),
            None => None,
        }
    }

    /// The active tab.
    pub fn active_tab(&self) -> (t: Option<&EditorTab>)
        requires
            self.wf(),
        ensures
            match self.active_spec() {
                Some(a) => t == Some(&self.tabs_spec()[a as int]),
                None => t is None,
            },
    {
        match self.active_index {
            Some(idx) => Some(&self.tabs[idx]),
            None => None,
        }
    }

    /// The tab at position `index`, if there is one.
    pub fn tab_at(&self, index: usize) -> (t: Option<&EditorTab>)
        ensures
            index < self.tabs_spec().len() ==> t == Some(&self.tabs_spec()[index as int]),
            index >= self.tabs_spec().len() ==> t is None,
    {
        if index < self.tabs.len() {
            Some(&self.tabs[index])
        } else {
            None
        }
    }

    /// The number of open tabs.
    pub fn tab_count(&self) -> (n: usize)
        ensures
            n == self.tabs_spec().len(),
    {
        self.tabs.len()
    }

    /// The paths of the open file tabs, diff tabs left out (for the
    /// session store).
    pub fn tab_paths(&self) -> (paths: Vec<String>)
        ensures
            strings_view(paths@) == file_tab_paths(self.tabs_spec()),
    {
        let mut out: Vec<String> = Vec::new();
        let mut i: usize = 0;
        while i < self.tabs.len()
            invariant
                i <= self.tabs@.len(),
                strings_view(out@) == file_tab_paths(self.tabs@.take(i as int)),
            decreases self.tabs@.len() - i,
        {
            assert(self.tabs@.take(i + 1).drop_last() =~= self.tabs@.take(i as int));
            if self.tabs[i].diff_mode.is_none() {
                let ghost prev = out@;
                out.push(self.tabs[i].path.clone());
                assert(strings_view(out@) =~= strings_view(prev).push(self.tabs@[i as int].path@));
            }
            i = i + 1;
        }
        assert(self.tabs@.take(self.tabs@.len() as int) =~= self.tabs@);
        out
    }

    /// Replaces the tabs by fresh file tabs for `paths`; the tab on
    /// `active` becomes active, else the first one. Emits nothing.
    pub fn restore_tabs(&mut self, paths: &[String], active: Option<&str>)
        requires
            old(self).wf(),
        ensures
            final(self).wf(),
            final(self).untitled_spec() == old(self).untitled_spec(),
            final(self).project_spec() == old(self).project_spec(),
            final(self).tabs_spec().len() == paths@.len(),
            forall|i: int|
                0 <= i < paths@.len() ==> is_fresh_file_tab(
                    #[trigger] final(self).tabs_spec()[i],
                    paths@[i]@,
                ),
            match active {
                Some(a) => if has_path(final(self).tabs_spec(), a@) {
                    final(self).active_spec() matches Some(i) && first_with_path(
                        final(self).tabs_spec(),
                        a@,
                        i as int,
                    )
                } else {
                    final(self).active_spec() == if paths@.len() == 0 {
                        None
                    } else {
                        Some(0usize)
                    }
                },
                None => final(self).active_spec() == if paths@.len() == 0 {
                    None
                } else {
                    Some(0usize)
                },
            },
    {
        let mut tabs: Vec<EditorTab> = Vec::new();
        let mut i: usize = 0;
        while i < paths.len()
            invariant
                i <= paths@.len(),
                tabs@.len() == i,
                forall|j: int| 0 <= j < i ==> is_fresh_file_tab(#[trigger] tabs@[j], paths@[j]@),
            decreases paths@.len() - i,
        {
            let path = paths[i].as_str();
            let name = match file_name_of(path) {
                Some(n) => n,
                None => path.to_owned(),
            };
            tabs.push(EditorTab { path: path.to_owned(), name, modified: false, diff_mode: None });
            i = i + 1;
        }
        self.tabs = tabs;
        self.active_index = match active {
            Some(a) => self.position_of_path(a),
            None => None,
        };
        if self.active_index.is_none() && self.tabs.len() > 0 {
            self.active_index = Some(0);
        }
    }

    /// The untitled number that the next scratch file takes.
    pub fn untitled_counter(&self) -> (n: usize)
        ensures
            n == self.untitled_spec(),
    {
        self.next_untitled_id
    }

    /// Gives the untitled number that the next scratch file takes and
    /// moves the counter on.
    pub fn take_untitled_id(&mut self) -> (id: usize)
        requires
            old(self).wf(),
            old(self).untitled_spec() < usize::MAX,
        ensures
            final(self).wf(),
            id == old(self).untitled_spec(),
            final(self).untitled_spec() == old(self).untitled_spec() + 1,
            final(self).tabs_spec() == old(self).tabs_spec(),
            final(self).active_spec() == old(self).active_spec(),
            final(self).project_spec() == old(self).project_spec(),
    {
        let id = self.next_untitled_id;
        self.next_untitled_id = id + 1;
        id
    }

    /// Sets the untitled counter one past the largest `N` among scratch
    /// files named `Untitled-N` (0 when there is none).
    pub fn init_counter_from_names(&mut self, names: &[String])
        requires
            old(self).wf(),
        ensures
            final(self).wf(),
            final(self).untitled_spec() as int == next_untitled(strings_view(names@)),
            final(self).tabs_spec() == old(self).tabs_spec(),
            final(self).active_spec() == old(self).active_spec(),
            final(self).project_spec() == old(self).project_spec(),
    {
        let prefix = chars_of("Untitled-");
        let mut best: Option<usize> = None;
        let mut i: usize = 0;
        while i < names.len()
            invariant
                i <= names@.len(),
                prefix@ == "Untitled-"@,
                match best {
                    Some(b) => max_untitled(strings_view(names@.take(i as int))) == Some(b as int),
                    None => max_untitled(strings_view(names@.take(i as int))) is None,
                },
            decreases names@.len() - i,
        {
            let ghost before = strings_view(names@.take(i as int));
            let ghost after = strings_view(names@.take(i + 1));
            assert(after.drop_last() =~= before);
            assert(after.last() == names@[i as int]@);
            assert(after.len() > 0);
            let name = chars_of(names[i].as_str());
            let n = untitled_number_of(&name, &prefix);
            match n {
                Some(v) => {
                    best = match best {
                        Some(b) => if v > b {
                            Some(v)
                        } else {
                            Some(b)
                        },
                        None => Some(v),
                    };
                },
                None => {},
            }
            i = i + 1;
        }
        assert(names@.take(names@.len() as int) =~= names@);
        self.next_untitled_id = match best {
            Some(b) => if b < usize::MAX {
                b + 1
            } else {
                usize::MAX
            },
            None => 0,
        };
    }

    /// Points the active tab at `new_path` (after "save as") and clears its
    /// modified mark; reports whether a tab was active.
    pub fn update_active_path(&mut self, new_path: &str) -> (changed: bool)
        requires
            old(self).wf(),
        ensures
            final(self).wf(),
            final(self).active_spec() == old(self).active_spec(),
            final(self).untitled_spec() == old(self).untitled_spec(),
            final(self).project_spec() == old(self).project_spec(),
            changed == old(self).active_spec() is Some,
            match old(self).active_spec() {
                Some(a) => {
                    let t = final(self).tabs_spec()[a as int];
                    &&& final(self).tabs_spec().len() == old(self).tabs_spec().len()
                    &&& t.path@ == new_path@ && t.name@ == tab_label(new_path@) && !t.modified
                    &&& t.diff_mode == old(self).tabs_spec()[a as int].diff_mode
                    &&& forall|j: int|
                        #![trigger final(self).tabs_spec()[j]]
                        0 <= j < old(self).tabs_spec().len() && j != a ==> final(self).tabs_spec()[j]
                            == old(self).tabs_spec()[j]
                },
                None => final(self).tabs_spec() == old(self).tabs_spec(),
            },
    {
        match self.active_index {
            Some(idx) => {
                let mut tab = self.tabs.remove(idx);
                tab.path = new_path.to_owned();
                tab.name = match file_name_of(new_path) {
                    Some(n) => n,
                    None => new_path.to_owned(),
                };
                tab.modified = false;
                self.tabs.insert(idx, tab);
                true
            },
            None => false,
        }
    }
}

/// Opening a path leaves a file tab on that path active.
pub proof fn law_open_tab_activates(
    before: EditorTabs,
    after: EditorTabs,
    path: Seq<char>,
    ev: EditorTabsEvent,
)
    requires
        before.wf(),
        after.wf(),
        opened_tab(before, after, path, ev),
    ensures
        after.active_spec() matches Some(i) && is_file_tab_on(after.tabs_spec()[i as int], path),
        ev == EditorTabsEvent::SelectTab(after.active_spec().unwrap()),
{
    if !has_file_tab(before.tabs_spec(), path) {
        assert(after.tabs_spec()[before.tabs_spec().len() as int] == after.tabs_spec().last());
    }
}

/// Opening the same path a second time changes nothing: same tabs, same
/// active tab, same event.
pub proof fn law_open_tab_idempotent(
    s0: EditorTabs,
    s1: EditorTabs,
    s2: EditorTabs,
    path: Seq<char>,
    ev1: EditorTabsEvent,
    ev2: EditorTabsEvent,
)
    requires
        s0.wf(),
        opened_tab(s0, s1, path, ev1),
        opened_tab(s1, s2, path, ev2),
    ensures
        s2.tabs_spec() == s1.tabs_spec(),
        s2.active_spec() == s1.active_spec(),
        ev2 == ev1,
{
    if has_file_tab(s0.tabs_spec(), path) {
        let i = s1.active_spec().unwrap();
        assert(is_file_tab_on(s1.tabs_spec()[i as int], path));
        assert(has_file_tab(s1.tabs_spec(), path));
        let k = s2.active_spec().unwrap();
        if k < i {
            assert(!is_file_tab_on(s0.tabs_spec()[k as int], path));
        } else if k > i {
            assert(is_file_tab_on(s1.tabs_spec()[i as int], path));
        }
    } else {
        let n = s0.tabs_spec().len();
        assert(s1.tabs_spec()[n as int] == s1.tabs_spec().last());
        assert(is_file_tab_on(s1.tabs_spec()[n as int], path));
        assert(has_file_tab(s1.tabs_spec(), path));
        let k = s2.active_spec().unwrap();
        if k < n {
            assert(s1.tabs_spec()[k as int] == s1.tabs_spec().drop_last()[k as int]);
            assert(is_file_tab_on(s0.tabs_spec()[k as int], path));
            assert(has_file_tab(s0.tabs_spec(), path));
        }
    }
}

/// Closing the tab that opening a new path appended gives back the tab
/// list as it was before.
pub proof fn law_close_undoes_open(
    s0: EditorTabs,
    s1: EditorTabs,
    s2: EditorTabs,
    path: Seq<char>,
    ev1: EditorTabsEvent,
    ev2: Option<EditorTabsEvent>,
    index: usize,
)
    requires
        s0.wf(),
        !has_file_tab(s0.tabs_spec(), path),
        opened_tab(s0, s1, path, ev1),
        index == s0.tabs_spec().len(),
        closed_tab(s1, s2, index, ev2),
    ensures
        s2.tabs_spec() == s0.tabs_spec(),
        s2.active_spec() == if s0.tabs_spec().len() == 0 {
            None
        } else {
            Some((index - 1) as usize)
        },
{
    assert(s1.tabs_spec().remove(index as int) =~= s1.tabs_spec().drop_last());
}

proof fn lemma_fresh_tab_paths(tabs: Seq<EditorTab>, paths: Seq<String>)
    requires
        tabs.len() == paths.len(),
        forall|i: int| 0 <= i < paths.len() ==> is_fresh_file_tab(#[trigger] tabs[i], paths[i]@),
    ensures
        file_tab_paths(tabs) == strings_view(paths),
    decreases tabs.len(),
{
    if tabs.len() > 0 {
        lemma_fresh_tab_paths(tabs.drop_last(), paths.drop_last());
        assert(strings_view(paths) =~= strings_view(paths.drop_last()).push(paths.last()@));
        assert(is_fresh_file_tab(tabs[tabs.len() - 1], paths[paths.len() - 1]@));
    } else {
        assert(strings_view(paths) =~= seq![]);
    }
}

/// Restoring a session from a list of paths and reading the session paths
/// back gives the same list.
pub proof fn law_restore_then_paths(after: EditorTabs, paths: Seq<String>)
    requires
        after.tabs_spec().len() == paths.len(),
        forall|i: int|
            0 <= i < paths.len() ==> is_fresh_file_tab(#[trigger] after.tabs_spec()[i], paths[i]@),
    ensures
        file_tab_paths(after.tabs_spec()) == strings_view(paths),
{
    lemma_fresh_tab_paths(after.tabs_spec(), paths);
}

fn untitled_number_of(name: &Vec<char>, prefix: &Vec<char>) -> (n: Option<usize>)
    requires
        prefix@ == "Untitled-"@,
    ensures
        match n {
            Some(v) => untitled_number(name@) == Some(v as int),
            None => untitled_number(name@) is None,
        },
{
    proof {
        reveal_strlit("Untitled-");
    }
    if name.len() < 9 {
        return None;
    }
    let head = slice_to_vec(name, 0, 9);
    if !chars_eq(&head, prefix) {
        return None;
    }
    let tail = slice_to_vec(name, 9, name.len());
    assert(tail@ == name@.skip(9));
    parse_usize(&tail)
}

fn slice_to_vec(v: &Vec<char>, from: usize, to: usize) -> (out: Vec<char>)
    requires
        from <= to <= v@.len(),
    ensures
        out@ == v@.subrange(from as int, to as int),
{
    let mut out: Vec<char> = Vec::new();
    let mut i = from;
    while i < to
        invariant
            from <= i <= to,
            to <= v@.len(),
            out@ == v@.subrange(from as int, i as int),
        decreases to - i,
    {
        out.push(v[i]);
        i = i + 1;
    }
    out
}

/// The project a scratch file belongs to: scratch files lie at
/// `scratch/{project}/Untitled-N`, so it is the name of the file's folder.
pub fn scratch_project_id(path: &str) -> (pid: Option<String>)
    ensures
        opt_view(pid) == match path_parent(path@) {
            Some(parent) => path_file_name(parent),
            None => None,
        },
{
    match parent_of(path) {
        Some(parent) => file_name_of(parent.as_str()),
        None => None,
    }
}

/// Where a closed scratch file is moved: its file name under the archive
/// folder; none where the path has no file name.
pub fn archive_destination(path: &str, archive_dir: &str) -> (dest: Option<String>)
    ensures
        opt_view(dest) == match path_file_name(path@) {
            Some(name) => Some(path_join(archive_dir@, name)),
            None => None,
        },
{
    match file_name_of(path) {
        Some(name) => Some(join_path(archive_dir, name.as_str())),
        None => None,
    }
}

/// Closing a tab keeps the shown file where it can: closing any tab but
/// the active one leaves the same tab active; closing the active tab
/// activates the tab that moves into its place, or, when it was the last,
/// the tab before it.
pub proof fn law_close_keeps_active_tab(before: EditorTabs, after: EditorTabs, index: usize, ev: Option<EditorTabsEvent>)
    requires
        before.wf(),
        closed_tab(before, after, index, ev),
        index < before.tabs_spec().len(),
        before.active_spec() is Some,
    ensures
        ({
            let a = before.active_spec().unwrap() as int;
            let n = before.tabs_spec().len();
            &&& a != index ==> (after.active_spec() matches Some(b) && after.tabs_spec()[b as int]
                == before.tabs_spec()[a])
            &&& a == index && index + 1 < n ==> (after.active_spec() matches Some(b) && after.tabs_spec()[b as int]
                == before.tabs_spec()[index + 1])
            &&& a == index && index + 1 == n && n > 1 ==> (after.active_spec() matches Some(b)
                && after.tabs_spec()[b as int] == before.tabs_spec()[index - 1])
            &&& n == 1 ==> after.active_spec() is None
        }),
{
    let a = before.active_spec().unwrap() as int;
    let n = before.tabs_spec().len();
    if n > 1 {
        let b = active_after_close(before.active_spec(), index as int, n - 1).unwrap();
        assert(0 <= b < n - 1);
        assert(after.active_spec() matches Some(x) && x == b);
        if b < index {
            assert(after.tabs_spec()[b] == before.tabs_spec()[b]);
        } else {
            assert(after.tabs_spec()[b] == before.tabs_spec()[b + 1]);
        }
    }
}

} // verus!
