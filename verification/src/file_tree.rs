//! The file tree's model: entries read from the project folder, which
//! folders are expanded, the rows that are shown (with single-child
//! folder chains folded into one row), selection, clipboard and the git
//! colouring of rows. Reading the disk is the host's part: it hands each
//! folder listing to the model and reads the folders the model asks for.

use vstd::prelude::*;
use vstd::string::*;

use crate::paths::{strip_prefix_of, path_strip_prefix, parent_of, path_parent, opt_view};
use crate::sorting::{key_before, stable_sort_order, is_stable_order, keys_view};
use crate::text::{lowercase_of, lowercase, chars_of, trim_of, trimmed, str_eq};
use crate::paths::{valid_rename_spec, is_valid_rename};
use crate::id_set::{strictly_ascending, ids_contain, ids_insert, ids_remove};
use crate::paths::{file_name_of, path_file_name, join_path, path_join};

verus! {

/// Whether an entry is a folder or a file.
#[derive(Debug, Clone, Copy, PartialEq, Eq, Structural)]
pub enum EntryKind {
    Dir,
    File,
}

/// The git status of a changed path.
#[derive(Debug, Clone, Copy, PartialEq, Eq, Structural)]
pub enum FileStatus {
    Modified,
    Added,
    Deleted,
    Renamed,
    Untracked,
}

/// One entry of the tree.
#[derive(Debug)]
pub struct Entry {
    pub id: u64,
    pub kind: EntryKind,
    pub abs_path: String,
    pub name: String,
    pub git_status: Option<FileStatus>,
}

/// One item of a folder listing, as the disk gave it.
#[derive(Debug)]
pub struct RawDirEntry {
    pub name: String,
    pub abs_path: String,
    pub is_dir: bool,
}

/// A folder that the host should read next, as a child of `parent`.
#[derive(Debug)]
pub struct PendingDir {
    pub parent: u64,
    pub abs_path: String,
}

/// A row of the tree: an entry at an indentation depth; a folded chain of
/// single-child folders shows the last folder under the joined names.
#[derive(Debug)]
pub struct VisibleEntry {
    pub entry_id: u64,
    pub depth: usize,
    pub folded_name: Option<String>,
}

/// An inline rename in progress.
#[derive(Debug, Clone, Copy, PartialEq, Eq, Structural)]
pub struct EditState {
    pub entry_id: u64,
    pub is_new: bool,
    pub is_dir: bool,
    pub processing: bool,
}

/// An entry waiting on the clipboard.
#[derive(Debug, Clone, Copy, PartialEq, Eq, Structural)]
pub enum ClipboardOp {
    Cut(u64),
    Copied(u64),
}

/// Names starting with `.` are hidden.
pub open spec fn is_hidden(name: Seq<char>) -> bool {
    name.len() > 0 && name[0] == '.'
}

/// The listing without hidden names, in disk order.
pub open spec fn shown(raw: Seq<RawDirEntry>) -> Seq<RawDirEntry>
    decreases raw.len(),
{
    if raw.len() == 0 {
        seq![]
    } else if is_hidden(raw.last().name@) {
        shown(raw.drop_last())
    } else {
        shown(raw.drop_last()).push(raw.last())
    }
}

/// The sort keys of a listing: lower-cased names.
pub open spec fn name_keys(kept: Seq<RawDirEntry>) -> Seq<Seq<char>> {
    kept.map_values(|e: RawDirEntry| lowercase(e.name@))
}

/// `s` lists each folder (or each file) of `kept` once, sorted by
/// lower-cased name, ties in disk order.
pub open spec fn is_listing_order(kept: Seq<RawDirEntry>, want_dir: bool, s: Seq<usize>) -> bool {
    &&& forall|a: int| #![trigger s[a]] 0 <= a < s.len() ==> s[a] < kept.len() && kept[s[a] as int].is_dir == want_dir
    &&& forall|a: int, b: int| 0 <= a < b < s.len() ==> s[a] != s[b]
    &&& forall|k: int|
        0 <= k < kept.len() && #[trigger] kept[k].is_dir == want_dir ==> s.contains(k as usize)
    &&& forall|a: int, b: int|
        0 <= a < b < s.len() ==> key_before(name_keys(kept), #[trigger] s[a] as int, #[trigger] s[b] as int)
}

/// The value of `key` in a status list where later entries win.
pub open spec fn status_lookup(m: Seq<(String, FileStatus)>, key: Seq<char>) -> Option<FileStatus>
    decreases m.len(),
{
    if m.len() == 0 {
        None
    } else if m.last().0@ == key {
        Some(m.last().1)
    } else {
        status_lookup(m.drop_last(), key)
    }
}

/// A path relative to the project root where it lies under it.
pub open spec fn rel_path_spec(root: Option<String>, abs: Seq<char>) -> Seq<char> {
    match root {
        Some(r) => match path_strip_prefix(abs, r@) {
            Some(p) => p,
            None => abs,
        },
        None => abs,
    }
}

pub open spec fn contains_str(v: Seq<String>, s: Seq<char>) -> bool {
    exists|i: int| 0 <= i < v.len() && v[i]@ == s
}

/// The folders above `path` (nearest first) that git marks as holding
/// changes, up to the first empty parent; the walk takes at most `fuel`
/// steps (the path length, which a chain of parents never exceeds).
pub open spec fn ancestor_dirs(path: Seq<char>, fuel: nat) -> Seq<Seq<char>>
    decreases fuel,
{
    if fuel == 0 {
        seq![]
    } else {
        match path_parent(path) {
            Some(d) => if d.len() == 0 {
                seq![]
            } else {
                seq![d] + ancestor_dirs(d, (fuel - 1) as nat)
            },
            None => seq![],
        }
    }
}

/// The folder `k` parent steps above `path` (`path` itself for no step),
/// where every step has a parent.
pub open spec fn nth_parent(path: Seq<char>, k: nat) -> Option<Seq<char>>
    decreases k,
{
    if k == 0 {
        Some(path)
    } else {
        match path_parent(path) {
            Some(d) => nth_parent(d, (k - 1) as nat),
            None => None,
        }
    }
}

/// The first `k` parents above `path` all exist and are not empty.
pub open spec fn parents_nonempty(path: Seq<char>, k: nat) -> bool {
    forall|j: nat| 1 <= j <= k ==> ((#[trigger] nth_parent(path, j)) matches Some(x) && x.len() > 0)
}

proof fn lemma_ancestor_reached(path: Seq<char>, fuel: nat, k: nat)
    requires
        1 <= k <= fuel,
        parents_nonempty(path, k),
    ensures
        ancestor_dirs(path, fuel).contains(nth_parent(path, k)->0),
    decreases k,
{
    assert(nth_parent(path, 1) matches Some(x) && x.len() > 0);
    let d = path_parent(path)->0;
    assert(nth_parent(d, 0) == Some(d));
    let rest = ancestor_dirs(d, (fuel - 1) as nat);
    assert(ancestor_dirs(path, fuel) == seq![d] + rest);
    if k == 1 {
        assert((seq![d] + rest)[0] == d);
    } else {
        assert forall|j: nat| 1 <= j <= (k - 1) as nat implies ((#[trigger] nth_parent(d, j)) matches Some(x) && x.len()
            > 0) by {
            assert(nth_parent(path, j + 1) == nth_parent(d, j));
        }
        assert(nth_parent(path, k) == nth_parent(d, (k - 1) as nat));
        lemma_ancestor_reached(d, (fuel - 1) as nat, (k - 1) as nat);
        let x = nth_parent(path, k)->0;
        let i = choose|i: int| 0 <= i < rest.len() && rest[i] == x;
        assert((seq![d] + rest)[i + 1] == x);
    }
}

proof fn lemma_dirty_has_ancestors(statuses: Seq<(String, FileStatus)>, i: int, x: Seq<char>)
    requires
        0 <= i < statuses.len(),
        ancestor_dirs(statuses[i].0@, statuses[i].0@.len()).contains(x),
    ensures
        dirty_dirs_spec(statuses).contains(x),
    decreases statuses.len(),
{
    let init = statuses.drop_last();
    let p = statuses.last().0@;
    let a = ancestor_dirs(p, p.len());
    assert(dirty_dirs_spec(statuses) == dirty_dirs_spec(init) + a);
    if i == statuses.len() - 1 {
        let k = choose|k: int| 0 <= k < a.len() && a[k] == x;
        assert((dirty_dirs_spec(init) + a)[dirty_dirs_spec(init).len() + k] == x);
    } else {
        assert(init[i] == statuses[i]);
        lemma_dirty_has_ancestors(init, i, x);
        let k = choose|k: int| 0 <= k < dirty_dirs_spec(init).len() && dirty_dirs_spec(init)[k] == x;
        assert((dirty_dirs_spec(init) + a)[k] == x);
    }
}

/// Git marks every folder above a changed path: each non-empty folder
/// reached from a status path by one or more parent steps (before the walk
/// meets an empty parent, and within the path's length in steps, which a
/// chain of parents never exceeds) is among the dirty folders.
pub proof fn law_dirty_marks_every_ancestor(statuses: Seq<(String, FileStatus)>, i: int, k: nat)
    requires
        0 <= i < statuses.len(),
        1 <= k <= statuses[i].0@.len(),
        parents_nonempty(statuses[i].0@, k),
    ensures
        dirty_dirs_spec(statuses).contains(nth_parent(statuses[i].0@, k)->0),
{
    lemma_ancestor_reached(statuses[i].0@, statuses[i].0@.len(), k);
    lemma_dirty_has_ancestors(statuses, i, nth_parent(statuses[i].0@, k)->0);
}

/// The folders that hold a changed path.
pub open spec fn dirty_dirs_spec(statuses: Seq<(String, FileStatus)>) -> Seq<Seq<char>>
    decreases statuses.len(),
{
    if statuses.len() == 0 {
        seq![]
    } else {
        let p = statuses.last().0@;
        dirty_dirs_spec(statuses.drop_last()) + ancestor_dirs(p, p.len())
    }
}

/// The entry that the `k`-th shown item of a listing becomes.
pub open spec fn entry_from_raw(e: RawDirEntry, id: u64, status: Option<FileStatus>) -> Entry {
    Entry {
        id,
        kind: if e.is_dir {
            EntryKind::Dir
        } else {
            EntryKind::File
        },
        abs_path: e.abs_path,
        name: e.name,
        git_status: status,
    }
}

/// `c` is the child list of a listing whose shown items got the ids
/// `first ..`: the folders sorted by lower-cased name, then the files.
pub open spec fn is_child_list(kept: Seq<RawDirEntry>, first: u64, c: Seq<u64>) -> bool {
    exists|d: Seq<usize>, f: Seq<usize>|
        #![trigger is_listing_order(kept, true, d), is_listing_order(kept, false, f)]
        is_listing_order(kept, true, d) && is_listing_order(kept, false, f) && c == (d + f).map_values(
            |k: usize| (first + k) as u64,
        )
}

/// The folders of a child list that are expanded and so must be read next,
/// in list order.
pub open spec fn pending_spec(kept: Seq<RawDirEntry>, first: u64, c: Seq<u64>, expanded: Seq<String>) -> Seq<(u64, Seq<char>)>
    decreases c.len(),
{
    if c.len() == 0 {
        seq![]
    } else {
        let rest = pending_spec(kept, first, c.drop_last(), expanded);
        let e = kept[c.last() - first];
        if e.is_dir && contains_str(expanded, e.abs_path@) {
            rest.push((c.last(), e.abs_path@))
        } else {
            rest
        }
    }
}

pub open spec fn pending_view(p: Seq<PendingDir>) -> Seq<(u64, Seq<char>)> {
    p.map_values(|d: PendingDir| (d.parent, d.abs_path@))
}

fn clone_raw(e: &RawDirEntry) -> (c: RawDirEntry)
    ensures
        c == *e,
{
    RawDirEntry { name: e.name.clone(), abs_path: e.abs_path.clone(), is_dir: e.is_dir }
}

fn name_is_hidden(name: &String) -> (h: bool)
    ensures
        h == is_hidden(name@),
{
    let s = name.as_str();
    s.unicode_len() > 0 && s.get_char(0) == '.'
}

/// The listing with hidden names left out.
fn shown_listing(raw: &Vec<RawDirEntry>) -> (kept: Vec<RawDirEntry>)
    ensures
        kept@ == shown(raw@),
{
    let mut kept: Vec<RawDirEntry> = Vec::new();
    let mut i: usize = 0;
    while i < raw.len()
        invariant
            i <= raw@.len(),
            kept@ == shown(raw@.take(i as int)),
        decreases raw@.len() - i,
    {
        assert(raw@.take(i + 1).drop_last() =~= raw@.take(i as int));
        assert(raw@.take(i + 1).last() == raw@[i as int]);
        if !name_is_hidden(&raw[i].name) {
            kept.push(clone_raw(&raw[i]));
        }
        i = i + 1;
    }
    assert(raw@.take(raw@.len() as int) =~= raw@);
    kept
}

/// The positions of the folders (or the files) of a listing, ascending.
fn kind_positions(kept: &Vec<RawDirEntry>, want_dir: bool) -> (pos: Vec<usize>)
    ensures
        forall|a: int| #![trigger pos@[a]] 0 <= a < pos@.len() ==> pos@[a] < kept@.len() && kept@[pos@[a] as int].is_dir == want_dir,
        forall|a: int, b: int| 0 <= a < b < pos@.len() ==> pos@[a] < pos@[b],
        forall|k: int| 0 <= k < kept@.len() && #[trigger] kept@[k].is_dir == want_dir ==> pos@.contains(k as usize),
{
    let mut pos: Vec<usize> = Vec::new();
    let mut i: usize = 0;
    while i < kept.len()
        invariant
            i <= kept@.len(),
            forall|a: int| #![trigger pos@[a]] 0 <= a < pos@.len() ==> pos@[a] < i && kept@[pos@[a] as int].is_dir == want_dir,
            forall|a: int, b: int| 0 <= a < b < pos@.len() ==> pos@[a] < pos@[b],
            forall|k: int| 0 <= k < i && #[trigger] kept@[k].is_dir == want_dir ==> pos@.contains(k as usize),
        decreases kept@.len() - i,
    {
        if kept[i].is_dir == want_dir {
            let ghost before = pos@;
            pos.push(i);
            assert forall|k: int| 0 <= k < i + 1 && #[trigger] kept@[k].is_dir == want_dir implies pos@.contains(k as usize) by {
                if k == i {
                    assert(pos@[pos@.len() - 1] == i);
                } else {
                    let a = choose|a: int| 0 <= a < before.len() && before[a] == k as usize;
                    assert(pos@[a] == before[a]);
                }
            }
        }
        i = i + 1;
    }
    pos
}

/// The folders (or files) of a listing in the order the tree shows them.
fn sorted_positions(kept: &Vec<RawDirEntry>, want_dir: bool) -> (s: Vec<usize>)
    ensures
        is_listing_order(kept@, want_dir, s@),
{
    let pos = kind_positions(kept, want_dir);
    let mut keys: Vec<Vec<char>> = Vec::new();
    let mut i: usize = 0;
    while i < pos.len()
        invariant
            i <= pos@.len(),
            forall|a: int| 0 <= a < pos@.len() ==> pos@[a] < kept@.len(),
            keys@.len() == i,
            forall|a: int| 0 <= a < i ==> #[trigger] keys@[a]@ == name_keys(kept@)[pos@[a] as int],
        decreases pos@.len() - i,
    {
        let low = lowercase_of(kept[pos[i]].name.as_str());
        keys.push(chars_of(low.as_str()));
        i = i + 1;
    }
    let order = stable_sort_order(&keys);
    let ghost ks = keys_view(keys@);
    assert forall|a: int| 0 <= a < pos@.len() implies #[trigger] ks[a] == name_keys(kept@)[pos@[a] as int] by {
        assert(keys@[a]@ == name_keys(kept@)[pos@[a] as int]);
    }
    let mut out: Vec<usize> = Vec::new();
    let mut j: usize = 0;
    while j < order.len()
        invariant
            j <= order@.len(),
            is_stable_order(ks, order@),
            ks.len() == pos@.len(),
            forall|a: int| #![trigger pos@[a]] 0 <= a < pos@.len() ==> pos@[a] < kept@.len() && kept@[pos@[a] as int].is_dir == want_dir,
            forall|a: int, b: int| 0 <= a < b < pos@.len() ==> pos@[a] < pos@[b],
            forall|a: int| #![trigger ks[a]] 0 <= a < pos@.len() ==> pos@[a] < kept@.len() && ks[a] == name_keys(kept@)[pos@[a] as int],
            out@.len() == j,
            forall|a: int| 0 <= a < j ==> #[trigger] out@[a] == pos@[order@[a] as int],
        decreases order@.len() - j,
    {
        out.push(pos[order[j]]);
        j = j + 1;
    }
    proof {
        assert forall|a: int, b: int| 0 <= a < b < out@.len() implies out@[a] != out@[b] by {
            assert(order@[a] != order@[b]);
            let x = order@[a] as int;
            let y = order@[b] as int;
            if x < y {
                assert(pos@[x] < pos@[y]);
            } else {
                assert(pos@[y] < pos@[x]);
            }
        }
        assert forall|a: int, b: int| 0 <= a < b < out@.len() implies key_before(
            name_keys(kept@),
            #[trigger] out@[a] as int,
            #[trigger] out@[b] as int,
        ) by {
            let x = order@[a] as int;
            let y = order@[b] as int;
            assert(key_before(ks, x, y));
            assert(ks[x] == name_keys(kept@)[pos@[x] as int]);
            assert(ks[y] == name_keys(kept@)[pos@[y] as int]);
            if x < y {
                assert(pos@[x] < pos@[y]);
            } else if y < x {
                assert(pos@[y] < pos@[x]);
            }
        }
        assert forall|k: int| 0 <= k < kept@.len() && #[trigger] kept@[k].is_dir == want_dir implies out@.contains(
            k as usize,
        ) by {
            assert(pos@.contains(k as usize));
            let x = choose|x: int| 0 <= x < pos@.len() && pos@[x] == k as usize;
            assert(order@.contains(x as usize));
            let a = choose|a: int| 0 <= a < order@.len() && order@[a] == x as usize;
            assert(out@[a] == pos@[x]);
        }
        assert forall|a: int| 0 <= a < out@.len() implies out@[a] < kept@.len() && #[trigger] kept@[out@[a] as int].is_dir == want_dir by {
            assert(out@[a] == pos@[order@[a] as int]);
        }
    }
    out
}

/// The file tree.
pub struct FileTree {
    entries: Vec<Entry>,
    children: Vec<Option<Vec<u64>>>,
    base_id: u64,
    next_id: u64,
    root_entries: Vec<u64>,
    expanded: Vec<String>,
    root_path: Option<String>,
    git_status_map: Vec<(String, FileStatus)>,
    git_dirty_dirs: Vec<String>,
    visible_entries: Vec<VisibleEntry>,
    selected: Option<u64>,
    marked_entries: Vec<u64>,
    last_clicked_index: Option<usize>,
    edit_state: Option<EditState>,
    context_menu: Option<u64>,
    clipboard: Option<ClipboardOp>,
}

impl FileTree {
    /// The row, selection, rename, menu and clipboard state is the same.
    pub closed spec fn ui_unchanged(&self, other: &FileTree) -> bool {
        &&& self.visible_entries@ == other.visible_entries@
        &&& self.selected == other.selected
        &&& self.marked_entries@ == other.marked_entries@
        &&& self.last_clicked_index == other.last_clicked_index
        &&& self.edit_state == other.edit_state
        &&& self.context_menu == other.context_menu
        &&& self.clipboard == other.clipboard
    }

    pub closed spec fn entries_spec(&self) -> Seq<Entry> {
        self.entries@
    }

    pub closed spec fn children_spec(&self) -> Seq<Option<Vec<u64>>> {
        self.children@
    }

    pub closed spec fn base_spec(&self) -> u64 {
        self.base_id
    }

    pub closed spec fn next_id_spec(&self) -> u64 {
        self.next_id
    }

    pub closed spec fn roots_spec(&self) -> Seq<u64> {
        self.root_entries@
    }

    pub closed spec fn expanded_spec(&self) -> Seq<String> {
        self.expanded@
    }

    pub closed spec fn root_path_spec(&self) -> Option<String> {
        self.root_path
    }

    pub closed spec fn statuses_spec(&self) -> Seq<(String, FileStatus)> {
        self.git_status_map@
    }

    pub closed spec fn dirty_spec(&self) -> Seq<String> {
        self.git_dirty_dirs@
    }

    /// The position in the entry list of the entry with id `id`.
    pub open spec fn index_of(&self, id: u64) -> int {
        id - self.base_spec()
    }

    pub open spec fn has_entry(&self, id: u64) -> bool {
        self.base_spec() <= id && id < self.base_spec() + self.entries_spec().len()
    }

    pub open spec fn entry_spec(&self, id: u64) -> Entry {
        self.entries_spec()[self.index_of(id)]
    }

    pub open spec fn is_expanded_path(&self, p: Seq<char>) -> bool {
        contains_str(self.expanded_spec(), p)
    }

    /// Entries carry the consecutive ids `base ..`; children come after
    /// their folder; the next id follows the last entry.
    pub closed spec fn wf(&self) -> bool {
        &&& self.entries@.len() == self.children@.len()
        &&& self.next_id == self.base_id + self.entries@.len()
        &&& forall|i: int| 0 <= i < self.entries@.len() ==> #[trigger] self.entries@[i].id == self.base_id + i
        &&& forall|i: int, k: int|
            0 <= i < self.children@.len() && self.children@[i] is Some && 0 <= k
                < self.children@[i].unwrap()@.len() ==> {
                let c = #[trigger] self.children@[i].unwrap()@[k];
                self.base_id + i < c && c < self.next_id
            }
        &&& forall|k: int|
            0 <= k < self.root_entries@.len() ==> self.base_id <= #[trigger] self.root_entries@[k] && self.root_entries@[k]
                < self.next_id
        &&& strictly_ascending(self.marked_entries@)
    }

    /// What `add_listing` does: the shown items get the next ids, in disk
    /// order, and become the children of `parent` (or the top level).
    pub open spec fn listing_added(
        before: FileTree,
        after: FileTree,
        parent: Option<u64>,
        raw: Seq<RawDirEntry>,
        pending: Seq<(u64, Seq<char>)>,
    ) -> bool {
        let kept = shown(raw);
        let n0 = before.entries_spec().len();
        let first = before.next_id_spec();
        &&& after.base_spec() == before.base_spec()
        &&& after.expanded_spec() == before.expanded_spec()
        &&& after.root_path_spec() == before.root_path_spec()
        &&& after.statuses_spec() == before.statuses_spec()
        &&& after.dirty_spec() == before.dirty_spec()
        &&& after.ui_unchanged(&before)
        &&& after.entries_spec().len() == n0 + kept.len()
        &&& after.entries_spec().take(n0 as int) == before.entries_spec()
        &&& forall|k: int|
            0 <= k < kept.len() ==> #[trigger] after.entries_spec()[n0 + k] == entry_from_raw(
                kept[k],
                (first + k) as u64,
                status_lookup(before.statuses_spec(), rel_path_spec(before.root_path_spec(), kept[k].abs_path@)),
            )
        &&& forall|k: int| n0 <= k < after.children_spec().len() ==> #[trigger] after.children_spec()[k] is None
        &&& match parent {
            Some(pid) => {
                &&& after.children_spec()[before.index_of(pid)] matches Some(c)
                &&& is_child_list(kept, first, c@)
                &&& pending == pending_spec(kept, first, c@, before.expanded_spec())
                &&& after.roots_spec() == before.roots_spec()
                &&& forall|k: int|
                    0 <= k < n0 && k != before.index_of(pid) ==> #[trigger] after.children_spec()[k]
                        == before.children_spec()[k]
            },
            None => {
                &&& is_child_list(kept, first, after.roots_spec())
                &&& pending == pending_spec(kept, first, after.roots_spec(), before.expanded_spec())
                &&& forall|k: int| 0 <= k < n0 ==> #[trigger] after.children_spec()[k] == before.children_spec()[k]
            },
        }
    }

    /// An empty tree with no project folder.
    pub fn new() -> (t: Self)
        ensures
            t.wf(),
            t.entries_spec().len() == 0,
            t.roots_spec().len() == 0,
            t.expanded_spec().len() == 0,
            t.root_path_spec() is None,
            t.statuses_spec().len() == 0,
            t.dirty_spec().len() == 0,
            t.next_id_spec() == 1,
    {
        FileTree {
            entries: Vec::new(),
            children: Vec::new(),
            base_id: 1,
            next_id: 1,
            root_entries: Vec::new(),
            expanded: Vec::new(),
            root_path: None,
            git_status_map: Vec::new(),
            git_dirty_dirs: Vec::new(),
            visible_entries: Vec::new(),
            selected: None,
            marked_entries: Vec::new(),
            last_clicked_index: None,
            edit_state: None,
            context_menu: None,
            clipboard: None,
        }
    }
}

impl FileTree {
    /// Whether the folder at `path` is expanded.
    pub fn is_expanded(&self, path: &str) -> (r: bool)
        ensures
            r == self.is_expanded_path(path@),
    {
        let mut i: usize = 0;
        while i < self.expanded.len()
            invariant
                i <= self.expanded@.len(),
                forall|j: int| 0 <= j < i ==> self.expanded@[j]@ != path@,
            decreases self.expanded@.len() - i,
        {
            if crate::text::str_eq(self.expanded[i].as_str(), path) {
                return true;
            }
            i = i + 1;
        }
        false
    }

    /// The project folder shown.
    pub fn root_path(&self) -> (r: Option<String>)
        ensures
            r == self.root_path_spec(),
    {
        match &self.root_path {
            Some(p) => Some(p.clone()),
            None => None,
        }
    }

    /// A path relative to the project folder, where it lies inside it.
    pub fn rel_path_str(&self, abs_path: &str) -> (rel: String)
        ensures
            rel@ == rel_path_spec(self.root_path_spec(), abs_path@),
    {
        match &self.root_path {
            Some(root) => match strip_prefix_of(abs_path, root.as_str()) {
                Some(p) => p,
                None => abs_path.to_owned(),
            },
            None => abs_path.to_owned(),
        }
    }

    fn status_of(&self, rel: &str) -> (st: Option<FileStatus>)
        ensures
            st == status_lookup(self.git_status_map@, rel@),
    {
        let mut i = self.git_status_map.len();
        assert(self.git_status_map@.take(i as int) =~= self.git_status_map@);
        while i > 0
            invariant
                i <= self.git_status_map@.len(),
                status_lookup(self.git_status_map@, rel@) == status_lookup(self.git_status_map@.take(i as int), rel@),
            decreases i,
        {
            let ghost t = self.git_status_map@.take(i as int);
            assert(t.drop_last() =~= self.git_status_map@.take(i - 1));
            if crate::text::str_eq(self.git_status_map[i - 1].0.as_str(), rel) {
                return Some(self.git_status_map[i - 1].1);
            }
            i = i - 1;
        }
        None
    }

    /// Starts a rebuild from disk: the entries are dropped (ids are never
    /// reused) and the project folder, if any, is returned for reading.
    pub fn rebuild_begin(&mut self) -> (root: Option<String>)
        requires
            old(self).wf(),
        ensures
            final(self).wf(),
            root == old(self).root_path_spec(),
            final(self).entries_spec().len() == 0,
            final(self).roots_spec().len() == 0,
            final(self).base_spec() == old(self).next_id_spec(),
            final(self).next_id_spec() == old(self).next_id_spec(),
            final(self).expanded_spec() == old(self).expanded_spec(),
            final(self).root_path_spec() == old(self).root_path_spec(),
            final(self).statuses_spec() == old(self).statuses_spec(),
            final(self).dirty_spec() == old(self).dirty_spec(),
            final(self).ui_unchanged(old(self)),
    {
        self.entries = Vec::new();
        self.children = Vec::new();
        self.root_entries = Vec::new();
        self.base_id = self.next_id;
        self.root_path()
    }

    /// The id the next listed entry gets.
    pub fn next_id(&self) -> (n: u64)
        ensures
            n == self.next_id_spec(),
    {
        self.next_id
    }

    /// Adds one folder listing: hidden names are dropped, the rest get the
    /// next ids in disk order and become the children of `parent` (the top
    /// level for `None`), folders first, each group sorted by lower-cased
    /// name. Returns the expanded folders among them, which the host reads
    /// next (depth first, in this order).
    pub fn add_listing(&mut self, parent: Option<u64>, raw: &Vec<RawDirEntry>) -> (pending: Vec<PendingDir>)
        requires
            old(self).wf(),
            parent matches Some(pid) ==> old(self).has_entry(pid),
            old(self).next_id_spec() + raw@.len() <= u64::MAX,
        ensures
            final(self).wf(),
            FileTree::listing_added(*old(self), *final(self), parent, raw@, pending_view(pending@)),
    {
        let kept = shown_listing(raw);
        let n0 = self.entries.len();
        let first = self.next_id;
        assert(kept@.len() <= raw@.len()) by {
            lemma_shown_len(raw@);
        }
        let mut k: usize = 0;
        while k < kept.len()
            invariant
                0 <= k <= kept@.len(),
                kept@ == shown(raw@),
                first == old(self).next_id_spec(),
                first + kept@.len() <= u64::MAX,
                n0 == old(self).entries_spec().len(),
                self.entries@.len() == n0 + k,
                self.children@.len() == n0 + k,
                self.base_id == old(self).base_id,
                self.next_id == first + k,
                self.entries@.take(n0 as int) == old(self).entries@,
                self.children@.take(n0 as int) == old(self).children@,
                forall|j: int| n0 <= j < self.children@.len() ==> #[trigger] self.children@[j] is None,
                forall|j: int|
                    0 <= j < k ==> #[trigger] self.entries@[n0 + j] == entry_from_raw(
                        kept@[j],
                        (first + j) as u64,
                        status_lookup(old(self).git_status_map@, rel_path_spec(old(self).root_path, kept@[j].abs_path@)),
                    ),
                self.expanded@ == old(self).expanded@,
                self.root_path == old(self).root_path,
                self.git_status_map@ == old(self).git_status_map@,
                self.git_dirty_dirs@ == old(self).git_dirty_dirs@,
                self.root_entries@ == old(self).root_entries@,
                self.ui_unchanged(old(self)),
            decreases kept@.len() - k,
        {
            let rel = self.rel_path_str(kept[k].abs_path.as_str());
            let status = self.status_of(rel.as_str());
            let e = Entry {
                id: first + k as u64,
                kind: if kept[k].is_dir {
                    EntryKind::Dir
                } else {
                    EntryKind::File
                },
                abs_path: kept[k].abs_path.clone(),
                name: kept[k].name.clone(),
                git_status: status,
            };
            let ghost ents = self.entries@;
            let ghost chs = self.children@;
            self.entries.push(e);
            self.children.push(None);
            assert(self.entries@.take(n0 as int) =~= ents.take(n0 as int));
            assert(self.children@.take(n0 as int) =~= chs.take(n0 as int));
            self.next_id = self.next_id + 1;
            k = k + 1;
        }
        let d = sorted_positions(&kept, true);
        let f = sorted_positions(&kept, false);
        let mut df: Vec<usize> = Vec::new();
        let mut b: usize = 0;
        while b < d.len()
            invariant
                b <= d@.len(),
                df@ == d@.take(b as int),
            decreases d@.len() - b,
        {
            df.push(d[b]);
            assert(d@.take(b + 1) =~= d@.take(b as int).push(d@[b as int]));
            b = b + 1;
        }
        let mut b2: usize = 0;
        assert(d@.take(d@.len() as int) =~= d@);
        while b2 < f.len()
            invariant
                b2 <= f@.len(),
                df@ == d@ + f@.take(b2 as int),
            decreases f@.len() - b2,
        {
            df.push(f[b2]);
            assert(d@ + f@.take(b2 + 1) =~= (d@ + f@.take(b2 as int)).push(f@[b2 as int]));
            b2 = b2 + 1;
        }
        assert(f@.take(f@.len() as int) =~= f@);
        assert forall|q: int| 0 <= q < df@.len() implies #[trigger] df@[q] < kept@.len() by {
            if q < d@.len() {
                assert(df@[q] == d@[q]);
            } else {
                assert(df@[q] == f@[q - d@.len()]);
            }
        }
        let mut c: Vec<u64> = Vec::new();
        let mut pending: Vec<PendingDir> = Vec::new();
        let mut a: usize = 0;
        while a < df.len()
            invariant
                a <= df@.len(),
                df@ == d@ + f@,
                is_listing_order(kept@, true, d@),
                is_listing_order(kept@, false, f@),
                forall|q: int| 0 <= q < df@.len() ==> #[trigger] df@[q] < kept@.len(),
                first + kept@.len() <= u64::MAX,
                c@ == df@.take(a as int).map_values(|x: usize| (first + x) as u64),
                pending_view(pending@) == pending_spec(kept@, first, c@, self.expanded@),
            decreases df@.len() - a,
        {
            let x = df[a];
            let id = first + x as u64;
            let ghost c0 = c@;
            c.push(id);
            assert(c@ =~= df@.take(a + 1).map_values(|x: usize| (first + x) as u64));
            assert(c@.drop_last() =~= c0);
            assert(c@.last() - first == x);
            let ghost p0 = pending@;
            if kept[x].is_dir && self.is_expanded(kept[x].abs_path.as_str()) {
                pending.push(PendingDir { parent: id, abs_path: kept[x].abs_path.clone() });
                assert(pending_view(pending@) =~= pending_view(p0).push((id, kept@[x as int].abs_path@)));
            }
            a = a + 1;
        }
        assert(df@.take(df@.len() as int) =~= df@);
        assert(is_child_list(kept@, first, c@));
        match parent {
            Some(pid) => {
                let idx = (pid - self.base_id) as usize;
                let ghost chs = self.children@;
                self.children.set(idx, Some(c));
            },
            None => {
                self.root_entries = c;
            },
        }
        proof {
            assert forall|i: int, j: int|
                0 <= i < self.children@.len() && self.children@[i] is Some && 0 <= j
                    < self.children@[i].unwrap()@.len() implies {
                let ch = #[trigger] self.children@[i].unwrap()@[j];
                self.base_id + i < ch && ch < self.next_id
            } by {
                if i < n0 {
                    if parent matches Some(pid) && i == pid - self.base_id {
                        let x = df@[j];
                        assert(self.children@[i].unwrap()@[j] == first + x);
                    } else {
                        assert(self.children@[i] == old(self).children@[i]);
                    }
                }
            }
            assert(self.entries@.len() == self.children@.len());
            assert(self.next_id == self.base_id + self.entries@.len());
            assert forall|i: int| 0 <= i < self.entries@.len() implies #[trigger] self.entries@[i].id == self.base_id + i by {
                if i < n0 {
                    assert(self.entries@[i] == self.entries@.take(n0 as int)[i]);
                } else {
                    assert(self.entries@[n0 + (i - n0)].id == first + (i - n0));
                }
            }
            assert forall|k: int| 0 <= k < self.root_entries@.len() implies self.has_entry(#[trigger] self.root_entries@[k]) by {
                assert(first == self.base_id + n0);
                if parent is None {
                    assert(self.root_entries@[k] == first + df@[k]);
                    assert(df@[k] < kept@.len());
                } else {
                    assert(self.root_entries@[k] == old(self).root_entries@[k]);
                    assert(old(self).has_entry(old(self).root_entries@[k]));
                }
            }
        }
        pending
    }
}

pub open spec fn strs_view(v: Seq<String>) -> Seq<Seq<char>> {
    v.map_values(|s: String| s@)
}

/// The entries after a status refresh: the same, each with the status of
/// its path relative to the project folder.
pub open spec fn restatused(before: Seq<Entry>, after: Seq<Entry>, statuses: Seq<(String, FileStatus)>, root: Option<String>) -> bool {
    &&& after.len() == before.len()
    &&& forall|i: int|
        0 <= i < before.len() ==> {
            let b = before[i];
            let a = #[trigger] after[i];
            &&& a.id == b.id && a.kind == b.kind && a.abs_path == b.abs_path && a.name == b.name
            &&& a.git_status == status_lookup(statuses, rel_path_spec(root, b.abs_path@))
        }
}

fn opt_string_eq(a: &Option<String>, b: &Option<String>) -> (r: bool)
    ensures
        r == (opt_view(*a) == opt_view(*b)),
{
    match (a, b) {
        (Some(x), Some(y)) => x.eq(y),
        (None, None) => true,
        _ => false,
    }
}

/// The ancestors of `path` that git marks as holding changes.
fn ancestors_of(path: &str) -> (out: Vec<String>)
    ensures
        strs_view(out@) == ancestor_dirs(path@, path@.len()),
{
    let mut out: Vec<String> = Vec::new();
    let mut cur = path.to_owned();
    let mut fuel: usize = path.unicode_len();
    let mut done = false;
    assert(strs_view(out@) =~= seq![]);
    assert(seq![] + ancestor_dirs(cur@, fuel as nat) =~= ancestor_dirs(cur@, fuel as nat));
    while fuel > 0 && !done
        invariant
            done ==> ancestor_dirs(cur@, fuel as nat) == Seq::<Seq<char>>::empty(),
            strs_view(out@) + ancestor_dirs(cur@, fuel as nat) == ancestor_dirs(path@, path@.len()),
        decreases fuel + if done {
            0int
        } else {
            1int
        },
    {
        match parent_of(cur.as_str()) {
            Some(d) => {
                if d.unicode_len() == 0 {
                    done = true;
                } else {
                    let ghost prev = out@;
                    out.push(d.clone());
                    assert(strs_view(out@) =~= strs_view(prev).push(d@));
                    assert(strs_view(prev) + (seq![d@] + ancestor_dirs(d@, (fuel - 1) as nat)) =~= strs_view(out@)
                        + ancestor_dirs(d@, (fuel - 1) as nat));
                    cur = d;
                    fuel = fuel - 1;
                }
            },
            None => {
                done = true;
            },
        }
    }
    assert(ancestor_dirs(cur@, fuel as nat) == Seq::<Seq<char>>::empty());
    assert(strs_view(out@) + Seq::<Seq<char>>::empty() =~= strs_view(out@));
    out
}

impl FileTree {
    /// Shows the project folder `path`; a change of folder collapses every
    /// folder. Reports whether it changed (the host then rebuilds from
    /// disk and restarts its watcher).
    pub fn set_root(&mut self, path: Option<String>) -> (changed: bool)
        requires
            old(self).wf(),
        ensures
            final(self).wf(),
            changed == (opt_view(path) != opt_view(old(self).root_path_spec())),
            changed ==> final(self).root_path_spec() == path && final(self).expanded_spec().len() == 0,
            !changed ==> final(self).root_path_spec() == old(self).root_path_spec() && final(self).expanded_spec()
                == old(self).expanded_spec(),
            final(self).entries_spec() == old(self).entries_spec(),
            final(self).children_spec() == old(self).children_spec(),
            final(self).roots_spec() == old(self).roots_spec(),
            final(self).base_spec() == old(self).base_spec(),
            final(self).next_id_spec() == old(self).next_id_spec(),
            final(self).statuses_spec() == old(self).statuses_spec(),
            final(self).dirty_spec() == old(self).dirty_spec(),
            final(self).ui_unchanged(old(self)),
    {
        if opt_string_eq(&self.root_path, &path) {
            return false;
        }
        self.root_path = path;
        self.expanded = Vec::new();
        true
    }

    /// Marks the folder at `path` expanded (a set insertion).
    pub fn insert_expanded(&mut self, path: &str)
        requires
            old(self).wf(),
        ensures
            final(self).wf(),
            forall|q: Seq<char>| final(self).is_expanded_path(q) == (old(self).is_expanded_path(q) || q == path@),
            final(self).entries_spec() == old(self).entries_spec(),
            final(self).children_spec() == old(self).children_spec(),
            final(self).roots_spec() == old(self).roots_spec(),
            final(self).base_spec() == old(self).base_spec(),
            final(self).next_id_spec() == old(self).next_id_spec(),
            final(self).root_path_spec() == old(self).root_path_spec(),
            final(self).statuses_spec() == old(self).statuses_spec(),
            final(self).dirty_spec() == old(self).dirty_spec(),
            final(self).ui_unchanged(old(self)),
    {
        if !self.is_expanded(path) {
            let ghost before = self.expanded@;
            self.expanded.push(path.to_owned());
            assert forall|q: Seq<char>| self.is_expanded_path(q) == (old(self).is_expanded_path(q) || q == path@) by {
                if contains_str(before, q) {
                    let i = choose|i: int| 0 <= i < before.len() && before[i]@ == q;
                    assert(self.expanded@[i] == before[i]);
                }
                if contains_str(self.expanded@, q) {
                    let i = choose|i: int| 0 <= i < self.expanded@.len() && self.expanded@[i]@ == q;
                    if i < before.len() {
                        assert(self.expanded@[i] == before[i]);
                    }
                }
                if q == path@ {
                    assert(self.expanded@[before.len() as int]@ == path@);
                }
            }
        }
    }

    /// Unmarks the folder at `path` (a set removal).
    pub fn remove_expanded(&mut self, path: &str)
        requires
            old(self).wf(),
        ensures
            final(self).wf(),
            forall|q: Seq<char>| final(self).is_expanded_path(q) == (old(self).is_expanded_path(q) && q != path@),
            final(self).entries_spec() == old(self).entries_spec(),
            final(self).children_spec() == old(self).children_spec(),
            final(self).roots_spec() == old(self).roots_spec(),
            final(self).base_spec() == old(self).base_spec(),
            final(self).next_id_spec() == old(self).next_id_spec(),
            final(self).root_path_spec() == old(self).root_path_spec(),
            final(self).statuses_spec() == old(self).statuses_spec(),
            final(self).dirty_spec() == old(self).dirty_spec(),
            final(self).ui_unchanged(old(self)),
    {
        let mut kept: Vec<String> = Vec::new();
        let mut i: usize = 0;
        while i < self.expanded.len()
            invariant
                i <= self.expanded@.len(),
                forall|q: Seq<char>| contains_str(kept@, q) == (contains_str(self.expanded@.take(i as int), q) && q != path@),
            decreases self.expanded@.len() - i,
        {
            let ghost before = kept@;
            let ghost t = self.expanded@.take(i as int);
            let ghost t1 = self.expanded@.take(i + 1);
            assert(t1 =~= t.push(self.expanded@[i as int]));
            if !crate::text::str_eq(self.expanded[i].as_str(), path) {
                kept.push(self.expanded[i].clone());
            }
            assert forall|q: Seq<char>| contains_str(kept@, q) == (contains_str(t1, q) && q != path@) by {
                if contains_str(kept@, q) {
                    let j = choose|j: int| 0 <= j < kept@.len() && kept@[j]@ == q;
                    if j < before.len() {
                        assert(kept@[j] == before[j]);
                        assert(contains_str(before, q));
                        let m = choose|m: int| 0 <= m < t.len() && t[m]@ == q;
                        assert(t1[m] == t[m]);
                    } else {
                        assert(t1[i as int]@ == q);
                    }
                }
                if contains_str(t1, q) && q != path@ {
                    let m = choose|m: int| 0 <= m < t1.len() && t1[m]@ == q;
                    if m < i {
                        assert(t[m] == t1[m]);
                        assert(contains_str(before, q));
                        let j = choose|j: int| 0 <= j < before.len() && before[j]@ == q;
                        assert(kept@[j] == before[j]);
                    } else {
                        assert(kept@[kept@.len() - 1]@ == q);
                    }
                }
            }
            i = i + 1;
        }
        assert(self.expanded@.take(self.expanded@.len() as int) =~= self.expanded@);
        self.expanded = kept;
    }

    /// Takes a new git status list (later entries win for a path): marks the
    /// folders above every changed path and recolours the entries.
    pub fn set_git_statuses(&mut self, statuses: Vec<(String, FileStatus)>)
        requires
            old(self).wf(),
        ensures
            final(self).wf(),
            final(self).statuses_spec() == statuses@,
            strs_view(final(self).dirty_spec()) == dirty_dirs_spec(statuses@),
            restatused(old(self).entries_spec(), final(self).entries_spec(), statuses@, old(self).root_path_spec()),
            final(self).children_spec() == old(self).children_spec(),
            final(self).roots_spec() == old(self).roots_spec(),
            final(self).base_spec() == old(self).base_spec(),
            final(self).next_id_spec() == old(self).next_id_spec(),
            final(self).expanded_spec() == old(self).expanded_spec(),
            final(self).root_path_spec() == old(self).root_path_spec(),
            final(self).ui_unchanged(old(self)),
    {
        let mut dirty: Vec<String> = Vec::new();
        let mut i: usize = 0;
        while i < statuses.len()
            invariant
                i <= statuses@.len(),
                strs_view(dirty@) == dirty_dirs_spec(statuses@.take(i as int)),
            decreases statuses@.len() - i,
        {
            let ghost t1 = statuses@.take(i + 1);
            assert(t1.drop_last() =~= statuses@.take(i as int));
            assert(t1.last() == statuses@[i as int]);
            let anc = ancestors_of(statuses[i].0.as_str());
            let mut k: usize = 0;
            let ghost base = dirty@;
            assert(strs_view(anc@.take(0)) =~= seq![]);
            assert(strs_view(base) + strs_view(anc@.take(0)) =~= strs_view(base));
            while k < anc.len()
                invariant
                    k <= anc@.len(),
                    strs_view(dirty@) == strs_view(base) + strs_view(anc@.take(k as int)),
                decreases anc@.len() - k,
            {
                let ghost prev = dirty@;
                dirty.push(anc[k].clone());
                assert(strs_view(dirty@) =~= strs_view(prev).push(anc@[k as int]@));
                assert(strs_view(anc@.take(k + 1)) =~= strs_view(anc@.take(k as int)).push(anc@[k as int]@));
                assert(strs_view(dirty@) =~= strs_view(base) + strs_view(anc@.take(k + 1)));
                k = k + 1;
            }
            assert(anc@.take(anc@.len() as int) =~= anc@);
            i = i + 1;
        }
        assert(statuses@.take(statuses@.len() as int) =~= statuses@);
        self.git_status_map = statuses;
        self.git_dirty_dirs = dirty;
        let mut j: usize = 0;
        while j < self.entries.len()
            invariant
                self.wf(),
                self.git_status_map@ == statuses@,
                self.root_path == old(self).root_path,
                self.expanded@ == old(self).expanded@,
                self.ui_unchanged(old(self)),
                strs_view(self.git_dirty_dirs@) == dirty_dirs_spec(statuses@),
                j <= self.entries@.len(),
                self.entries@.len() == old(self).entries@.len(),
                self.children@ == old(self).children@,
                self.root_entries@ == old(self).root_entries@,
                self.base_id == old(self).base_id,
                self.next_id == old(self).next_id,
                forall|m: int|
                    j <= m < self.entries@.len() ==> #[trigger] self.entries@[m] == old(self).entries@[m],
                forall|m: int|
                    0 <= m < j ==> {
                        let b = old(self).entries@[m];
                        let a = #[trigger] self.entries@[m];
                        &&& a.id == b.id && a.kind == b.kind && a.abs_path == b.abs_path && a.name == b.name
                        &&& a.git_status == status_lookup(statuses@, rel_path_spec(old(self).root_path, b.abs_path@))
                    },
            decreases self.entries@.len() - j,
        {
            let rel = self.rel_path_str(self.entries[j].abs_path.as_str());
            let st = self.status_of(rel.as_str());
            let mut e = self.entries.remove(j);
            e.git_status = st;
            self.entries.insert(j, e);
            j = j + 1;
        }
    }
}

/// A row as plain values: entry id, depth, folded name.
pub open spec fn row_view(v: VisibleEntry) -> (u64, int, Option<Seq<char>>) {
    (v.entry_id, v.depth as int, opt_view(v.folded_name))
}

pub open spec fn rows_view(v: Seq<VisibleEntry>) -> Seq<(u64, int, Option<Seq<char>>)> {
    v.map_values(|r: VisibleEntry| row_view(r))
}

/// Names joined with `/`.
pub open spec fn join_names(names: Seq<Seq<char>>) -> Seq<char>
    decreases names.len(),
{
    if names.len() == 0 {
        seq![]
    } else if names.len() == 1 {
        names[0]
    } else {
        join_names(names.drop_last()).push('/') + names.last()
    }
}

/// The end of a fold walk: a chain of two or more folders folds.
pub open spec fn fold_finish(cur: u64, names: Seq<Seq<char>>, depth: int) -> Option<(u64, Seq<char>, int)> {
    if names.len() > 1 {
        Some((cur, join_names(names), depth))
    } else {
        None
    }
}

impl FileTree {
    /// The entry with id `id`, if this build holds it.
    pub closed spec fn entry_of(&self, id: u64) -> Option<Entry> {
        if self.base_id <= id && id < self.base_id + self.entries@.len() {
            Some(self.entries@[id - self.base_id])
        } else {
            None
        }
    }

    /// The children of entry `id`, where its folder was read.
    pub closed spec fn kids_of(&self, id: u64) -> Option<Seq<u64>> {
        if self.base_id <= id && id < self.base_id + self.entries@.len() {
            match self.children@[id - self.base_id] {
                Some(v) => Some(v@),
                None => None,
            }
        } else {
            None
        }
    }

    pub open spec fn is_expanded_id_spec(&self, id: u64) -> bool {
        self.entry_of(id) matches Some(e) && self.is_expanded_path(e.abs_path@)
    }

    /// Walks down a chain of folders that each hold exactly one entry, a
    /// folder, while the folder walked is expanded; the leaf must have been
    /// read. Gives the leaf, the joined names and the leaf's depth where
    /// two or more folders fold.
    spec fn fold_walk(&self, cur: u64, depth: int, names: Seq<Seq<char>>) -> Option<(u64, Seq<char>, int)>
        decreases self.base_id + self.entries@.len() - cur,
    {
        match self.entry_of(cur) {
            None => None,
            Some(e) => if e.kind != EntryKind::Dir {
                None
            } else {
                let names2 = names.push(e.name@);
                match self.kids_of(cur) {
                    None => None,
                    Some(kids) => if kids.len() != 1 {
                        fold_finish(cur, names2, depth)
                    } else {
                        let child = kids[0];
                        match self.entry_of(child) {
                            None => None,
                            Some(ce) => if ce.kind != EntryKind::Dir {
                                fold_finish(cur, names2, depth)
                            } else if !self.is_expanded_id_spec(cur) {
                                fold_finish(cur, names2, depth)
                            } else if child <= cur {
                                fold_finish(cur, names2, depth)
                            } else {
                                self.fold_walk(child, depth + 1, names2)
                            },
                        }
                    },
                }
            },
        }
    }

    /// The rows of one entry and, where it is an expanded folder, of
    /// everything below it.
    spec fn flat_node(&self, id: u64, depth: int) -> Seq<(u64, int, Option<Seq<char>>)>
        decreases self.base_id + self.entries@.len() - id, 0int, 0int,
    {
        match self.entry_of(id) {
            None => seq![],
            Some(e) => {
                let plain = if e.kind == EntryKind::Dir && self.is_expanded_path(e.abs_path@) {
                    match self.kids_of(id) {
                        Some(kids) => seq![(id, depth, None::<Seq<char>>)] + self.flat_list(kids, depth + 1, id + 1),
                        None => seq![(id, depth, None::<Seq<char>>)],
                    }
                } else {
                    seq![(id, depth, None::<Seq<char>>)]
                };
                if e.kind == EntryKind::Dir {
                    match self.fold_walk(id, depth, seq![]) {
                        Some((leaf, name, ld)) => if self.entry_of(leaf) is Some && leaf >= id {
                            let head = seq![(leaf, depth, Some(name))];
                            if self.is_expanded_id_spec(leaf) {
                                match self.kids_of(leaf) {
                                    Some(kids) => head + self.flat_list(kids, ld + 1, leaf + 1),
                                    None => head,
                                }
                            } else {
                                head
                            }
                        } else {
                            plain
                        },
                        None => plain,
                    }
                } else {
                    plain
                }
            },
        }
    }

    /// The rows of a list of sibling entries, in order (ids below `lo`
    /// are skipped; a well-formed tree has none).
    spec fn flat_list(&self, ids: Seq<u64>, depth: int, lo: int) -> Seq<(u64, int, Option<Seq<char>>)>
        decreases self.base_id + self.entries@.len() - lo, 1int, ids.len(),
    {
        if ids.len() == 0 {
            seq![]
        } else {
            let first = ids[0];
            let head = if first >= lo && self.entry_of(first) is Some {
                self.flat_node(first, depth)
            } else {
                seq![]
            };
            head + self.flat_list(ids.drop_first(), depth, lo)
        }
    }

    /// The rows the tree shows.
    pub closed spec fn visible_spec(&self) -> Seq<(u64, int, Option<Seq<char>>)> {
        rows_view(self.visible_entries@)
    }

    /// The rows that the current entries and expansion give.
    pub closed spec fn computed_rows(&self) -> Seq<(u64, int, Option<Seq<char>>)> {
        self.flat_list(self.root_entries@, 0, self.base_id as int)
    }

    proof fn lemma_collapsed_list(&self, ids: Seq<u64>)
        requires
            self.wf(),
            forall|q: Seq<char>| !self.is_expanded_path(q),
            forall|k: int| 0 <= k < ids.len() ==> self.base_id <= #[trigger] ids[k] && ids[k] < self.next_id,
        ensures
            self.flat_list(ids, 0, self.base_id as int) == ids.map_values(|id: u64| (id, 0int, None::<Seq<char>>)),
        decreases ids.len(),
    {
        if ids.len() > 0 {
            let first = ids[0];
            let e = self.entry_of(first).unwrap();
            assert(!self.is_expanded_path(e.abs_path@));
            assert(!self.is_expanded_id_spec(first));
            assert(self.fold_walk(first, 0, seq![]) is None);
            assert(self.flat_node(first, 0) == seq![(first, 0int, None::<Seq<char>>)]);
            let rest = ids.drop_first();
            assert forall|k: int| 0 <= k < rest.len() implies self.base_id <= #[trigger] rest[k] && rest[k] < self.next_id by {
                assert(rest[k] == ids[k + 1]);
            }
            self.lemma_collapsed_list(rest);
            assert(ids.map_values(|id: u64| (id, 0int, None::<Seq<char>>)) =~= seq![(first, 0int, None::<Seq<char>>)]
                + rest.map_values(|id: u64| (id, 0int, None::<Seq<char>>)));
        } else {
            assert(ids.map_values(|id: u64| (id, 0int, None::<Seq<char>>)) =~= seq![]);
        }
    }

    /// With no folder expanded, the rows are the top-level entries, in
    /// order, at depth 0 and not folded.
    pub proof fn law_collapsed_rows(&self)
        requires
            self.wf(),
            forall|q: Seq<char>| !self.is_expanded_path(q),
        ensures
            self.computed_rows() == self.roots_spec().map_values(|id: u64| (id, 0int, None::<Seq<char>>)),
    {
        self.lemma_collapsed_list(self.root_entries@);
    }
}

fn join_with_slash(names: &Vec<String>) -> (out: String)
    ensures
        out@ == join_names(strs_view(names@)),
{
    let mut cs: Vec<char> = Vec::new();
    let mut i: usize = 0;
    while i < names.len()
        invariant
            i <= names@.len(),
            cs@ == join_names(strs_view(names@.take(i as int))),
        decreases names@.len() - i,
    {
        let ghost t1 = strs_view(names@.take(i + 1));
        assert(t1.drop_last() =~= strs_view(names@.take(i as int)));
        assert(t1.last() == names@[i as int]@);
        if i > 0 {
            cs.push('/');
        } else {
            assert(cs@ =~= seq![]);
        }
        let nc = chars_of(names[i].as_str());
        crate::text::push_chars(&mut cs, &nc);
        if i == 0 {
            assert(cs@ =~= t1[0]);
        }
        i = i + 1;
    }
    assert(names@.take(names@.len() as int) =~= names@);
    crate::text::string_from_chars(cs.as_slice())
}

impl FileTree {
    /// The entry with id `id`.
    pub fn entry(&self, id: u64) -> (e: Option<&Entry>)
        ensures
            match e {
                Some(x) => self.entry_of(id) == Some(*x),
                None => self.entry_of(id) is None,
            },
    {
        if self.base_id <= id && id - self.base_id < self.entries.len() as u64 {
            Some(&self.entries[(id - self.base_id) as usize])
        } else {
            None
        }
    }

    fn kids(&self, id: u64) -> (k: Option<&Vec<u64>>)
        requires
            self.wf(),
        ensures
            match k {
                Some(v) => self.kids_of(id) == Some(v@),
                None => self.kids_of(id) is None,
            },
    {
        if self.base_id <= id && id - self.base_id < self.entries.len() as u64 {
            match &self.children[(id - self.base_id) as usize] {
                Some(v) => Some(v),
                None => None,
            }
        } else {
            None
        }
    }

    /// Whether entry `id` is an expanded folder.
    pub fn is_expanded_id(&self, id: u64) -> (r: bool)
        ensures
            r == self.is_expanded_id_spec(id),
    {
        match self.entry(id) {
            Some(e) => self.is_expanded(e.abs_path.as_str()),
            None => false,
        }
    }

    proof fn lemma_fold_walk(&self, cur: u64, depth: int, names: Seq<Seq<char>>)
        ensures
            self.fold_walk(cur, depth, names) matches Some((leaf, _n, ld)) ==> {
                &&& self.entry_of(leaf) is Some
                &&& leaf >= cur
                &&& ld - depth <= leaf - cur
            },
        decreases self.base_id + self.entries@.len() - cur,
    {
        if let Some(e) = self.entry_of(cur) {
            if e.kind == EntryKind::Dir {
                let names2 = names.push(e.name@);
                if let Some(kids) = self.kids_of(cur) {
                    if kids.len() == 1 {
                        let child = kids[0];
                        if let Some(ce) = self.entry_of(child) {
                            if ce.kind == EntryKind::Dir && self.is_expanded_id_spec(cur) && child > cur {
                                self.lemma_fold_walk(child, depth + 1, names2);
                            }
                        }
                    }
                }
            }
        }
    }

    /// Entry `id` is an expanded folder whose read listing holds exactly
    /// one entry, itself a folder: a chain of single-child folders goes on
    /// below it.
    pub open spec fn chain_goes_on(&self, id: u64) -> bool {
        &&& (self.entry_of(id) matches Some(e) && e.kind == EntryKind::Dir)
        &&& self.is_expanded_id_spec(id)
        &&& (self.kids_of(id) matches Some(kids) && kids.len() == 1 && (self.entry_of(kids[0]) matches Some(c)
            && c.kind == EntryKind::Dir))
    }

    /// No folded row among `rows` ends where the chain goes on.
    pub open spec fn folds_reach_end(&self, rows: Seq<(u64, int, Option<Seq<char>>)>) -> bool {
        forall|k: int| 0 <= k < rows.len() && (#[trigger] rows[k]).2 is Some ==> !self.chain_goes_on(rows[k].0)
    }

    proof fn lemma_folds_concat(&self, a: Seq<(u64, int, Option<Seq<char>>)>, b: Seq<(u64, int, Option<Seq<char>>)>)
        requires
            self.folds_reach_end(a),
            self.folds_reach_end(b),
        ensures
            self.folds_reach_end(a + b),
    {
        assert forall|k: int| 0 <= k < (a + b).len() && (#[trigger] (a + b)[k]).2 is Some implies !self.chain_goes_on(
            (a + b)[k].0,
        ) by {
            if k < a.len() {
                assert((a + b)[k] == a[k]);
            } else {
                assert((a + b)[k] == b[k - a.len()]);
            }
        }
    }

    proof fn lemma_fold_walk_end(&self, cur: u64, depth: int, names: Seq<Seq<char>>)
        requires
            self.wf(),
        ensures
            self.fold_walk(cur, depth, names) matches Some((leaf, _n, _ld)) ==> !self.chain_goes_on(leaf),
        decreases self.base_id + self.entries@.len() - cur,
    {
        if let Some(e) = self.entry_of(cur) {
            if e.kind == EntryKind::Dir {
                let names2 = names.push(e.name@);
                if let Some(kids) = self.kids_of(cur) {
                    if kids.len() == 1 {
                        let child = kids[0];
                        let i = cur - self.base_id;
                        assert(self.children@[i] is Some);
                        assert(self.children@[i].unwrap()@[0] == child);
                        assert(child > cur);
                        if let Some(ce) = self.entry_of(child) {
                            if ce.kind == EntryKind::Dir && self.is_expanded_id_spec(cur) {
                                self.lemma_fold_walk_end(child, depth + 1, names2);
                            }
                        }
                    }
                }
            }
        }
    }

    proof fn lemma_node_folds(&self, id: u64, depth: int)
        requires
            self.wf(),
        ensures
            self.folds_reach_end(self.flat_node(id, depth)),
        decreases self.base_id + self.entries@.len() - id, 0int, 0int,
    {
        if let Some(e) = self.entry_of(id) {
            let single = seq![(id, depth, None::<Seq<char>>)];
            assert(self.folds_reach_end(single));
            if e.kind == EntryKind::Dir && self.is_expanded_path(e.abs_path@) {
                if let Some(kids) = self.kids_of(id) {
                    self.lemma_list_folds(kids, depth + 1, id + 1);
                    self.lemma_folds_concat(single, self.flat_list(kids, depth + 1, id + 1));
                }
            }
            if e.kind == EntryKind::Dir {
                if let Some((leaf, name, ld)) = self.fold_walk(id, depth, seq![]) {
                    if self.entry_of(leaf) is Some && leaf >= id {
                        self.lemma_fold_walk_end(id, depth, seq![]);
                        let head = seq![(leaf, depth, Some(name))];
                        assert(head[0] == (leaf, depth, Some(name)));
                        assert(self.folds_reach_end(head));
                        if self.is_expanded_id_spec(leaf) {
                            if let Some(kids) = self.kids_of(leaf) {
                                self.lemma_list_folds(kids, ld + 1, leaf + 1);
                                self.lemma_folds_concat(head, self.flat_list(kids, ld + 1, leaf + 1));
                            }
                        }
                    }
                }
            }
        }
    }

    proof fn lemma_list_folds(&self, ids: Seq<u64>, depth: int, lo: int)
        requires
            self.wf(),
        ensures
            self.folds_reach_end(self.flat_list(ids, depth, lo)),
        decreases self.base_id + self.entries@.len() - lo, 1int, ids.len(),
    {
        if ids.len() > 0 {
            let first = ids[0];
            let head = if first >= lo && self.entry_of(first) is Some {
                self.lemma_node_folds(first, depth);
                self.flat_node(first, depth)
            } else {
                seq![]
            };
            self.lemma_list_folds(ids.drop_first(), depth, lo);
            self.lemma_folds_concat(head, self.flat_list(ids.drop_first(), depth, lo));
        }
    }

    /// A folded row stands for the whole chain of single-child folders: its
    /// entry is never an expanded folder whose only entry is a folder, so
    /// the walk stops only at a folder with other than one entry, with a
    /// file, or collapsed.
    pub proof fn law_folds_cover_whole_chain(&self, k: int)
        requires
            self.wf(),
            0 <= k < self.computed_rows().len(),
            self.computed_rows()[k].2 is Some,
        ensures
            !self.chain_goes_on(self.computed_rows()[k].0),
    {
        self.lemma_list_folds(self.root_entries@, 0, self.base_id as int);
    }

    /// Walks a chain of single-child folders from `start` for folding.
    fn compute_fold_chain(&self, start: u64, start_depth: usize) -> (r: Option<(u64, String, usize)>)
        requires
            self.wf(),
            start >= self.base_spec(),
            start_depth <= start - self.base_spec(),
        ensures
            match r {
                Some((leaf, name, ld)) => self.fold_walk(start, start_depth as int, seq![]) == Some(
                    (leaf, name@, ld as int),
                ),
                None => self.fold_walk(start, start_depth as int, seq![]) is None,
            },
    {
        let mut cur = start;
        let mut depth = start_depth;
        let mut names: Vec<String> = Vec::new();
        assert(strs_view(names@) =~= seq![]);
        loop
            invariant
                self.wf(),
                self.entries@.len() == self.entries.len(),
                cur >= start,
                depth as int - start_depth <= cur - start,
                start_depth <= start - self.base_id,
                self.fold_walk(start, start_depth as int, seq![]) == self.fold_walk(cur, depth as int, strs_view(names@)),
            decreases self.base_id + self.entries@.len() - cur,
        {
            let e = match self.entry(cur) {
                Some(e) => e,
                None => {
                    return None;
                },
            };
            if e.kind != EntryKind::Dir {
                return None;
            }
            let ghost prev = names@;
            names.push(e.name.clone());
            assert(strs_view(names@) =~= strs_view(prev).push(e.name@));
            let kids = match self.kids(cur) {
                Some(k) => k,
                None => {
                    return None;
                },
            };
            let mut stop = kids.len() != 1;
            if !stop {
                let child = kids[0];
                match self.entry(child) {
                    Some(ce) => {
                        if ce.kind != EntryKind::Dir || !self.is_expanded_id(cur) || child <= cur {
                            stop = true;
                        } else {
                            cur = child;
                            depth = depth + 1;
                        }
                    },
                    None => {
                        return None;
                    },
                }
            }
            if stop {
                if names.len() > 1 {
                    let joined = join_with_slash(&names);
                    return Some((cur, joined, depth));
                } else {
                    return None;
                }
            }
        }
    }

    /// Appends the rows of entry `id` (and what it shows below it).
    fn flatten_node(&self, id: u64, depth: usize, out: &mut Vec<VisibleEntry>)
        requires
            self.wf(),
            id >= self.base_spec(),
            depth <= id - self.base_spec(),
        ensures
            rows_view(final(out)@) == rows_view(old(out)@) + self.flat_node(id, depth as int),
        decreases self.base_id + self.entries@.len() - id, 0int,
    {
        assert(self.entries@.len() == self.entries.len());
        let e = match self.entry(id) {
            Some(e) => e,
            None => {
                assert(rows_view(out@) =~= rows_view(out@) + seq![]);
                return;
            },
        };
        if e.kind == EntryKind::Dir {
            match self.compute_fold_chain(id, depth) {
                Some((leaf, name, ld)) => {
                    proof {
                        self.lemma_fold_walk(id, depth as int, seq![]);
                    }
                    let ghost o0 = out@;
                    out.push(VisibleEntry { entry_id: leaf, depth, folded_name: Some(name) });
                    assert(rows_view(out@) =~= rows_view(o0) + seq![(leaf, depth as int, Some(name@))]);
                    if self.is_expanded_id(leaf) {
                        match self.kids(leaf) {
                            Some(kids) => {
                                self.flatten_list(kids, ld + 1, leaf + 1, out);
                            },
                            None => {},
                        }
                    }
                    return;
                },
                None => {},
            }
        }
        let ghost o0 = out@;
        out.push(VisibleEntry { entry_id: id, depth, folded_name: None });
        assert(rows_view(out@) =~= rows_view(o0) + seq![(id, depth as int, None::<Seq<char>>)]);
        if e.kind == EntryKind::Dir && self.is_expanded(e.abs_path.as_str()) {
            match self.kids(id) {
                Some(kids) => {
                    self.flatten_list(kids, depth + 1, id + 1, out);
                },
                None => {},
            }
        }
    }

    /// Appends the rows of a list of siblings.
    fn flatten_list(&self, ids: &Vec<u64>, depth: usize, lo: u64, out: &mut Vec<VisibleEntry>)
        requires
            self.wf(),
            lo >= self.base_spec(),
            depth <= lo - self.base_spec(),
        ensures
            rows_view(final(out)@) == rows_view(old(out)@) + self.flat_list(ids@, depth as int, lo as int),
        decreases self.base_id + self.entries@.len() - lo, 1int,
    {
        let mut k: usize = 0;
        assert(ids@.skip(0) =~= ids@);
        assert(rows_view(out@) + self.flat_list(ids@, depth as int, lo as int) =~= rows_view(old(out)@) + self.flat_list(ids@, depth as int, lo as int));
        while k < ids.len()
            invariant
                self.wf(),
                lo >= self.base_spec(),
                depth <= lo - self.base_spec(),
                k <= ids@.len(),
                rows_view(out@) + self.flat_list(ids@.skip(k as int), depth as int, lo as int) == rows_view(old(out)@)
                    + self.flat_list(ids@, depth as int, lo as int),
            decreases ids@.len() - k,
        {
            let first = ids[k];
            assert(ids@.skip(k as int).drop_first() =~= ids@.skip(k + 1));
            assert(ids@.skip(k as int)[0] == first);
            let ghost o0 = rows_view(out@);
            if first >= lo && self.entry(first).is_some() {
                self.flatten_node(first, depth, out);
            }
            assert(rows_view(out@) + self.flat_list(ids@.skip(k + 1), depth as int, lo as int) =~= o0 + self.flat_list(ids@.skip(k as int), depth as int, lo as int));
            k = k + 1;
        }
        assert(self.flat_list(ids@.skip(k as int), depth as int, lo as int) =~= seq![]);
        assert(rows_view(out@) + seq![] =~= rows_view(out@));
    }

    /// Recomputes the rows from the entries and the expanded folders.
    pub fn recompute_visible(&mut self)
        requires
            old(self).wf(),
        ensures
            final(self).wf(),
            final(self).visible_spec() == old(self).computed_rows(),
            final(self).entries_spec() == old(self).entries_spec(),
            final(self).children_spec() == old(self).children_spec(),
            final(self).roots_spec() == old(self).roots_spec(),
            final(self).base_spec() == old(self).base_spec(),
            final(self).next_id_spec() == old(self).next_id_spec(),
            final(self).expanded_spec() == old(self).expanded_spec(),
            final(self).root_path_spec() == old(self).root_path_spec(),
            final(self).statuses_spec() == old(self).statuses_spec(),
            final(self).dirty_spec() == old(self).dirty_spec(),
    {
        let mut out: Vec<VisibleEntry> = Vec::new();
        assert(rows_view(out@) =~= seq![]);
        self.flatten_list(&self.root_entries, 0, self.base_id, &mut out);
        assert(rows_view(out@) =~= self.computed_rows());
        self.visible_entries = out;
    }
}

/// What a row of the tree shows.
#[derive(Debug)]
pub struct RowDisplay {
    pub name: String,
    pub depth: usize,
    pub is_dir: bool,
    pub selected: bool,
    pub marked: bool,
    pub color: RowColor,
}

/// What a click on a row asks of the host.
#[derive(Debug)]
pub enum ClickOutcome {
    /// Nothing happened (no such row or entry).
    Ignored,
    /// A folder was toggled: rebuild from disk and recompute the rows.
    DirToggled,
    /// The selection changed.
    Selected,
    /// The file at this path was selected and should open.
    OpenFile(String),
}

/// What a key press asks of the host.
#[derive(Debug)]
pub enum KeyOutcome {
    Ignored,
    /// The selection moved to this row: scroll it into view.
    ScrollTo(usize),
    DirToggled,
    Selected,
    OpenFile(String),
}

impl FileTree {
    pub closed spec fn selected_spec(&self) -> Option<u64> {
        self.selected
    }

    pub closed spec fn marked_spec(&self) -> Set<u64> {
        self.marked_entries@.to_set()
    }

    pub closed spec fn last_clicked_spec(&self) -> Option<usize> {
        self.last_clicked_index
    }

    pub closed spec fn edit_spec(&self) -> Option<EditState> {
        self.edit_state
    }

    pub closed spec fn menu_spec(&self) -> Option<u64> {
        self.context_menu
    }

    pub closed spec fn clipboard_spec(&self) -> Option<ClipboardOp> {
        self.clipboard
    }

    /// The tree data (entries, expansion, git state and rows) is the same.
    pub closed spec fn data_unchanged(&self, other: &FileTree) -> bool {
        &&& self.entries@ == other.entries@
        &&& self.children@ == other.children@
        &&& self.base_id == other.base_id
        &&& self.next_id == other.next_id
        &&& self.root_entries@ == other.root_entries@
        &&& self.expanded@ == other.expanded@
        &&& self.root_path == other.root_path
        &&& self.git_status_map@ == other.git_status_map@
        &&& self.git_dirty_dirs@ == other.git_dirty_dirs@
        &&& self.visible_entries@ == other.visible_entries@
    }

    pub open spec fn is_file_entry(&self, x: u64) -> bool {
        self.entry_of(x) matches Some(e) && e.kind == EntryKind::File
    }

    /// The file entries shown in rows `start ..= end`.
    pub open spec fn range_files(&self, start: int, end: int) -> Set<u64> {
        Set::new(
            |x: u64|
                exists|i: int|
                    start <= i <= end && 0 <= i < self.visible_spec().len() && #[trigger] self.visible_spec()[i].0 == x
                        && self.is_file_entry(x),
        )
    }

    /// The number of rows shown.
    pub fn visible_count(&self) -> (n: usize)
        ensures
            n == self.visible_spec().len(),
    {
        self.visible_entries.len()
    }

    /// Row `i`, if there is one.
    pub fn visible_row(&self, i: usize) -> (r: Option<&VisibleEntry>)
        ensures
            match r {
                Some(v) => i < self.visible_spec().len() && row_view(*v) == self.visible_spec()[i as int],
                None => i >= self.visible_spec().len(),
            },
    {
        if i < self.visible_entries.len() {
            Some(&self.visible_entries[i])
        } else {
            None
        }
    }

    /// The selected entry.
    pub fn selected(&self) -> (r: Option<u64>)
        ensures
            r == self.selected_spec(),
    {
        self.selected
    }

    /// Whether entry `id` is marked (multi-selection).
    pub fn is_marked(&self, id: u64) -> (r: bool)
        ensures
            r == self.marked_spec().contains(id),
    {
        ids_contain(&self.marked_entries, id)
    }

    /// Expands a collapsed folder or collapses an expanded one; reports
    /// whether entry `id` exists (the host then rebuilds from disk).
    pub fn toggle_dir(&mut self, id: u64) -> (toggled: bool)
        requires
            old(self).wf(),
        ensures
            final(self).wf(),
            toggled == (old(self).entry_of(id) is Some),
            toggled ==> FileTree::dir_toggled(*old(self), *final(self), id),
            match old(self).entry_of(id) {
                Some(e) => forall|q: Seq<char>|
                    final(self).is_expanded_path(q) == if q == e.abs_path@ {
                        !old(self).is_expanded_path(q)
                    } else {
                        old(self).is_expanded_path(q)
                    },
                None => final(self).expanded_spec() == old(self).expanded_spec(),
            },
            final(self).entries_spec() == old(self).entries_spec(),
            final(self).children_spec() == old(self).children_spec(),
            final(self).roots_spec() == old(self).roots_spec(),
            final(self).base_spec() == old(self).base_spec(),
            final(self).next_id_spec() == old(self).next_id_spec(),
            final(self).root_path_spec() == old(self).root_path_spec(),
            final(self).statuses_spec() == old(self).statuses_spec(),
            final(self).dirty_spec() == old(self).dirty_spec(),
            final(self).ui_unchanged(old(self)),
    {
        let path = match self.entry(id) {
            Some(e) => e.abs_path.clone(),
            None => {
                return false;
            },
        };
        if self.is_expanded(path.as_str()) {
            self.remove_expanded(path.as_str());
        } else {
            self.insert_expanded(path.as_str());
        }
        true
    }

    /// Selects entry `id` as a single selection; gives its path to open.
    pub fn select_file(&mut self, id: u64) -> (open: Option<String>)
        requires
            old(self).wf(),
        ensures
            final(self).wf(),
            final(self).selected_spec() == Some(id),
            final(self).marked_spec().is_empty(),
            final(self).data_unchanged(old(self)),
            final(self).last_clicked_spec() == old(self).last_clicked_spec(),
            final(self).edit_spec() == old(self).edit_spec(),
            final(self).menu_spec() == old(self).menu_spec(),
            final(self).clipboard_spec() == old(self).clipboard_spec(),
            match old(self).entry_of(id) {
                Some(e) => open matches Some(p) && p@ == e.abs_path@,
                None => open is None,
            },
    {
        self.selected = Some(id);
        self.marked_entries = Vec::new();
        assert(self.marked_entries@.to_set() =~= Set::empty());
        match self.entry(id) {
            Some(e) => Some(e.abs_path.clone()),
            None => None,
        }
    }

    /// A click on row `visible_idx`, with command or shift held. A folder
    /// is selected and toggled; command toggles a file in the marked set;
    /// shift marks the files between the last clicked row and this one;
    /// a plain click selects the file alone and opens it.
    pub fn handle_click(&mut self, visible_idx: usize, cmd: bool, shift: bool) -> (out: ClickOutcome)
        requires
            old(self).wf(),
        ensures
            final(self).wf(),
            final(self).root_path_spec() == old(self).root_path_spec(),
            final(self).edit_spec() == old(self).edit_spec(),
            final(self).clipboard_spec() == old(self).clipboard_spec(),
            final(self).menu_spec() == old(self).menu_spec(),
            visible_idx >= old(self).visible_spec().len() || old(self).entry_of(
                old(self).visible_spec()[visible_idx as int].0,
            ) is None ==> {
                &&& out is Ignored
                &&& final(self).data_unchanged(old(self))
                &&& final(self).ui_unchanged(old(self))
            },
            (visible_idx < old(self).visible_spec().len() && old(self).entry_of(
                old(self).visible_spec()[visible_idx as int].0,
            ) is Some) ==> {
                let id = old(self).visible_spec()[visible_idx as int].0;
                let e = old(self).entry_of(id).unwrap();
                &&& final(self).selected_spec() == Some(id)
                &&& final(self).last_clicked_spec() == Some(visible_idx)
                &&& e.kind == EntryKind::Dir ==> {
                    &&& out is DirToggled
                    &&& final(self).marked_spec().is_empty()
                    &&& forall|q: Seq<char>|
                        final(self).is_expanded_path(q) == if q == e.abs_path@ {
                            !old(self).is_expanded_path(q)
                        } else {
                            old(self).is_expanded_path(q)
                        }
                }
                &&& e.kind == EntryKind::File && cmd ==> {
                    &&& out is Selected
                    &&& FileTree::cmd_clicked(*old(self), *final(self), visible_idx as int)
                }
                &&& e.kind == EntryKind::File && !cmd && shift ==> {
                    &&& out is Selected
                    &&& final(self).marked_spec() == match old(self).last_clicked_spec() {
                        Some(last) => if last < visible_idx {
                            old(self).range_files(last as int, visible_idx as int)
                        } else {
                            old(self).range_files(visible_idx as int, last as int)
                        },
                        None => old(self).marked_spec(),
                    }
                    &&& final(self).data_unchanged(old(self))
                }
                &&& e.kind == EntryKind::File && !cmd && !shift ==> {
                    &&& out matches ClickOutcome::OpenFile(p) && p@ == e.abs_path@
                    &&& final(self).marked_spec().is_empty()
                    &&& final(self).data_unchanged(old(self))
                }
            },
    {
        if visible_idx >= self.visible_entries.len() {
            return ClickOutcome::Ignored;
        }
        let entry_id = self.visible_entries[visible_idx].entry_id;
        assert(self.visible_spec()[visible_idx as int].0 == entry_id);
        let kind = match self.entry(entry_id) {
            Some(e) => e.kind,
            None => {
                return ClickOutcome::Ignored;
            },
        };
        if kind == EntryKind::Dir {
            self.selected = Some(entry_id);
            self.marked_entries = Vec::new();
            assert(self.marked_entries@.to_set() =~= Set::empty());
            self.last_clicked_index = Some(visible_idx);
            let ghost mid = *self;
            self.toggle_dir(entry_id);
            assert(mid.entry_of(entry_id) == old(self).entry_of(entry_id));
            assert(forall|q: Seq<char>| mid.is_expanded_path(q) == old(self).is_expanded_path(q));
            return ClickOutcome::DirToggled;
        }
        let out = if cmd {
            if ids_contain(&self.marked_entries, entry_id) {
                ids_remove(&mut self.marked_entries, entry_id);
            } else {
                ids_insert(&mut self.marked_entries, entry_id);
            }
            self.selected = Some(entry_id);
            ClickOutcome::Selected
        } else if shift {
            match self.last_clicked_index {
                Some(last) => {
                    let (start, end) = if last < visible_idx {
                        (last, visible_idx)
                    } else {
                        (visible_idx, last)
                    };
                    self.mark_range(start, end);
                },
                None => {},
            }
            self.selected = Some(entry_id);
            ClickOutcome::Selected
        } else {
            self.marked_entries = Vec::new();
            match self.select_file(entry_id) {
                Some(p) => ClickOutcome::OpenFile(p),
                None => ClickOutcome::Selected,
            }
        };
        self.last_clicked_index = Some(visible_idx);
        out
    }

    /// Marks exactly the files shown in rows `start ..= end`.
    fn mark_range(&mut self, start: usize, end: usize)
        requires
            old(self).wf(),
            start <= end,
        ensures
            final(self).wf(),
            final(self).marked_spec() == old(self).range_files(start as int, end as int),
            final(self).data_unchanged(old(self)),
            final(self).selected == old(self).selected,
            final(self).last_clicked_index == old(self).last_clicked_index,
            final(self).edit_state == old(self).edit_state,
            final(self).context_menu == old(self).context_menu,
            final(self).clipboard == old(self).clipboard,
    {
        self.marked_entries = Vec::new();
        let n = self.visible_entries.len();
        let mut i = start;
        let ghost target = old(self).range_files(start as int, end as int);
        while i < n && i <= end
            invariant
                self.wf(),
                old(self).wf(),
                n == self.visible_entries@.len(),
                start <= i,
                i <= end + 1,
                self.data_unchanged(old(self)),
                self.selected == old(self).selected,
                self.last_clicked_index == old(self).last_clicked_index,
                self.edit_state == old(self).edit_state,
                self.context_menu == old(self).context_menu,
                self.clipboard == old(self).clipboard,
                self.marked_entries@.to_set() == old(self).range_files(start as int, (i - 1) as int),
            decreases n - i,
        {
            let id = self.visible_entries[i].entry_id;
            let is_file = match self.entry(id) {
                Some(e) => e.kind == EntryKind::File,
                None => false,
            };
            let ghost prev = self.marked_entries@.to_set();
            if is_file {
                ids_insert(&mut self.marked_entries, id);
            }
            assert(self.marked_entries@.to_set() =~= old(self).range_files(start as int, i as int)) by {
                assert forall|x: u64| #[trigger] old(self).range_files(start as int, i as int).contains(x) implies self.marked_entries@.to_set().contains(x) by {
                    let j = choose|j: int|
                        start <= j <= i && 0 <= j < old(self).visible_spec().len() && #[trigger] old(self).visible_spec()[j].0 == x
                            && old(self).is_file_entry(x);
                    if j < i {
                        assert(old(self).range_files(start as int, (i - 1) as int).contains(x));
                    }
                }
                assert forall|x: u64| self.marked_entries@.to_set().contains(x) implies #[trigger] old(self).range_files(start as int, i as int).contains(x) by {
                    if prev.contains(x) {
                        let j = choose|j: int|
                            start <= j <= i - 1 && 0 <= j < old(self).visible_spec().len() && #[trigger] old(self).visible_spec()[j].0 == x
                                && old(self).is_file_entry(x);
                    } else {
                        assert(old(self).visible_spec()[i as int].0 == x);
                    }
                }
            }
            i = i + 1;
        }
        assert(self.marked_entries@.to_set() =~= old(self).range_files(start as int, end as int)) by {
            assert forall|x: u64| #[trigger] old(self).range_files(start as int, end as int).contains(x) implies old(self).range_files(start as int, (i - 1) as int).contains(x) by {
                let j = choose|j: int|
                    start <= j <= end && 0 <= j < old(self).visible_spec().len() && #[trigger] old(self).visible_spec()[j].0 == x
                        && old(self).is_file_entry(x);
            }
            assert forall|x: u64| old(self).range_files(start as int, (i - 1) as int).contains(x) implies #[trigger] old(self).range_files(start as int, end as int).contains(x) by {
                let j = choose|j: int|
                    start <= j <= i - 1 && 0 <= j < old(self).visible_spec().len() && #[trigger] old(self).visible_spec()[j].0 == x
                        && old(self).is_file_entry(x);
            }
        }
    }
}

/// A set of marks with `id` flipped.
pub open spec fn mark_toggled(m: Set<u64>, id: u64) -> Set<u64> {
    if m.contains(id) {
        m.remove(id)
    } else {
        m.insert(id)
    }
}

/// The first row showing entry `id`.
pub open spec fn first_row_of(rows: Seq<(u64, int, Option<Seq<char>>)>, id: u64, i: int) -> bool {
    &&& 0 <= i < rows.len()
    &&& rows[i].0 == id
    &&& forall|j: int| 0 <= j < i ==> rows[j].0 != id
}

/// The row that the selection moves to: `delta` rows from the selected
/// entry's first row (row 0 without one), kept within the rows.
pub open spec fn moved_row(rows: Seq<(u64, int, Option<Seq<char>>)>, selected: Option<u64>, delta: int) -> int {
    let cur = match selected {
        Some(id) => if exists|i: int| first_row_of(rows, id, i) {
            choose|i: int| first_row_of(rows, id, i)
        } else {
            0
        },
        None => 0,
    };
    let t = cur + delta;
    if t < 0 {
        0
    } else if t > rows.len() - 1 {
        rows.len() - 1
    } else {
        t
    }
}

/// From a row showing an entry that no other row shows, the selection
/// moves by the clamped distance.
proof fn lemma_moved_from_row(rows: Seq<(u64, int, Option<Seq<char>>)>, n: int, delta: int)
    requires
        0 <= n < rows.len(),
        forall|i: int, j: int| 0 <= i < j < rows.len() ==> #[trigger] rows[i].0 != #[trigger] rows[j].0,
    ensures
        moved_row(rows, Some(rows[n].0), delta) == if n + delta < 0 {
            0
        } else if n + delta > rows.len() - 1 {
            rows.len() - 1
        } else {
            n + delta
        },
{
    let id = rows[n].0;
    assert(first_row_of(rows, id, n));
    let c = choose|i: int| first_row_of(rows, id, i);
    if c < n {
        assert(rows[c].0 != rows[n].0);
    } else if c > n {
        assert(rows[n].0 != id);
    }
    assert(n == (if exists|i: int| first_row_of(rows, id, i) {
        choose|i: int| first_row_of(rows, id, i)
    } else {
        0
    }));
    let sel = Some(id);
    assert(sel matches Some(x) && x == id);
    let cur = match sel {
        Some(x) => if exists|i: int| first_row_of(rows, x, i) {
            choose|i: int| first_row_of(rows, x, i)
        } else {
            0
        },
        None => 0,
    };
    assert(cur == n);
}

/// Git's colouring of a row, as a slot of the theme.
#[derive(Debug, Clone, Copy, PartialEq, Eq, Structural)]
pub enum VcsColor {
    Modified,
    Added,
    Deleted,
}

/// The theme colour of a row's name.
#[derive(Debug, Clone, Copy, PartialEq, Eq, Structural)]
pub enum RowColor {
    Vcs(VcsColor),
    /// A folder holding changes.
    VcsModified,
    /// A folder.
    TextMuted,
    /// A file.
    Text,
}

pub open spec fn vcs_color_spec(status: FileStatus) -> VcsColor {
    match status {
        FileStatus::Modified | FileStatus::Renamed => VcsColor::Modified,
        FileStatus::Added | FileStatus::Untracked => VcsColor::Added,
        FileStatus::Deleted => VcsColor::Deleted,
    }
}

/// The colour slot of a git status: modified and renamed, added and
/// untracked, deleted.
pub fn git_status_color(status: FileStatus) -> (c: VcsColor)
    ensures
        c == vcs_color_spec(status),
{
    match status {
        FileStatus::Modified | FileStatus::Renamed => VcsColor::Modified,
        FileStatus::Added | FileStatus::Untracked => VcsColor::Added,
        FileStatus::Deleted => VcsColor::Deleted,
    }
}

/// Where a paste goes.
#[derive(Debug)]
pub struct PastePlan {
    pub src_path: String,
    /// `dir/name` before uniqueness is applied.
    pub dest_base: String,
    pub is_cut: bool,
    pub dir: String,
}

/// The step a confirmed rename takes.
#[derive(Debug)]
pub enum RenameStep {
    /// No rename is in progress (or it is being processed).
    NotEditing,
    /// The name is not valid or the entry is gone: cancel.
    Cancel,
    /// The entry has no parent: keep the old name.
    Keep { old_path: String, open_new_file: bool },
    /// Rename `old_path` to `new_path` if the host's checks allow it.
    Candidate { old_path: String, new_path: String, open_new_file: bool },
}

/// What to do with a rename candidate.
#[derive(Debug, Clone, Copy, PartialEq, Eq, Structural)]
pub enum RenameDecision {
    Cancel,
    Rename,
    Keep,
}

/// A rename that would leave the project is cancelled; it happens when the
/// name changes and the target is free; otherwise the old name stays.
pub open spec fn rename_decision_spec(old_path: Seq<char>, new_path: Seq<char>, within_root: bool, new_exists: bool) -> RenameDecision {
    if !within_root {
        RenameDecision::Cancel
    } else if new_path != old_path && !new_exists {
        RenameDecision::Rename
    } else {
        RenameDecision::Keep
    }
}

/// Decides a rename candidate from the host's checks: whether the new path
/// stays within the project root and whether it exists already.
pub fn rename_decision(old_path: &str, new_path: &str, within_root: bool, new_exists: bool) -> (d: RenameDecision)
    ensures
        d == rename_decision_spec(old_path@, new_path@, within_root, new_exists),
{
    if !within_root {
        RenameDecision::Cancel
    } else if !str_eq(new_path, old_path) && !new_exists {
        RenameDecision::Rename
    } else {
        RenameDecision::Keep
    }
}

impl FileTree {
    pub open spec fn has_path_entry(&self, p: Seq<char>) -> bool {
        exists|i: int| 0 <= i < self.entries_spec().len() && (#[trigger] self.entries_spec()[i]).abs_path@ == p
    }

    /// The marked ids in ascending order.
    pub closed spec fn marked_ids(&self) -> Seq<u64> {
        self.marked_entries@
    }

    /// The folder a new entry or a paste goes in: the selected folder, the
    /// selected file's parent, or the project folder.
    pub open spec fn target_dir_spec(&self) -> Option<Seq<char>> {
        match self.selected_spec() {
            Some(id) => match self.entry_of(id) {
                Some(e) => if e.kind == EntryKind::Dir {
                    Some(e.abs_path@)
                } else {
                    path_parent(e.abs_path@)
                },
                None => opt_view(self.root_path_spec()),
            },
            None => opt_view(self.root_path_spec()),
        }
    }

    /// The paths of the entries listed in `ids` that exist, in order.
    pub open spec fn paths_of_ids(&self, ids: Seq<u64>) -> Seq<Seq<char>>
        decreases ids.len(),
    {
        if ids.len() == 0 {
            seq![]
        } else {
            let rest = self.paths_of_ids(ids.drop_last());
            match self.entry_of(ids.last()) {
                Some(e) => rest.push(e.abs_path@),
                None => rest,
            }
        }
    }

    /// The paths an action on the selection applies to: the marked
    /// entries in id order, else the selected entry.
    pub open spec fn selected_paths_spec(&self) -> Seq<Seq<char>> {
        if self.marked_ids().len() > 0 {
            self.paths_of_ids(self.marked_ids())
        } else {
            match self.selected_spec() {
                Some(id) => match self.entry_of(id) {
                    Some(e) => seq![e.abs_path@],
                    None => seq![],
                },
                None => seq![],
            }
        }
    }

    /// The colour of a row's name: its git status, else modified for a
    /// folder holding changes, else muted for folders and plain for files.
    pub open spec fn row_color_spec(&self, id: u64) -> RowColor {
        match self.entry_of(id) {
            Some(e) => match e.git_status {
                Some(st) => RowColor::Vcs(vcs_color_spec(st)),
                None => if e.kind == EntryKind::Dir && contains_str(
                    self.dirty_spec(),
                    rel_path_spec(self.root_path_spec(), e.abs_path@),
                ) {
                    RowColor::VcsModified
                } else if e.kind == EntryKind::Dir {
                    RowColor::TextMuted
                } else {
                    RowColor::Text
                },
            },
            None => RowColor::Text,
        }
    }

    /// The marked set is kept in ascending id order.
    pub proof fn lemma_marked_ids(&self)
        requires
            self.wf(),
        ensures
            strictly_ascending(self.marked_ids()),
            self.marked_ids().to_set() == self.marked_spec(),
    {
    }

    /// The entry whose path is `path`.
    pub fn find_entry_id_by_path(&self, path: &str) -> (r: Option<u64>)
        requires
            self.wf(),
        ensures
            match r {
                Some(id) => self.entry_of(id) matches Some(e) && e.abs_path@ == path@,
                None => !self.has_path_entry(path@),
            },
    {
        let mut i: usize = 0;
        while i < self.entries.len()
            invariant
                self.wf(),
                i <= self.entries@.len(),
                forall|j: int| 0 <= j < i ==> self.entries@[j].abs_path@ != path@,
            decreases self.entries@.len() - i,
        {
            if str_eq(self.entries[i].abs_path.as_str(), path) {
                let id = self.entries[i].id;
                assert(id == self.base_id + i);
                return Some(id);
            }
            i = i + 1;
        }
        None
    }

    /// Selects the folder above entry `id`, unless that is the project
    /// folder or is not in the tree; reports whether the selection moved.
    pub fn select_parent(&mut self, id: u64) -> (moved: bool)
        requires
            old(self).wf(),
        ensures
            final(self).wf(),
            final(self).data_unchanged(old(self)),
            final(self).last_clicked_spec() == old(self).last_clicked_spec(),
            final(self).edit_spec() == old(self).edit_spec(),
            final(self).menu_spec() == old(self).menu_spec(),
            final(self).clipboard_spec() == old(self).clipboard_spec(),
            moved ==> {
                &&& old(self).entry_of(id) matches Some(e)
                &&& path_parent(e.abs_path@) matches Some(p)
                &&& opt_view(old(self).root_path_spec()) != Some(p)
                &&& final(self).selected_spec() matches Some(pid)
                &&& old(self).entry_of(pid) matches Some(pe)
                &&& pe.abs_path@ == p
                &&& final(self).marked_spec().is_empty()
            },
            !moved ==> {
                &&& final(self).selected_spec() == old(self).selected_spec()
                &&& final(self).marked_spec() == old(self).marked_spec()
                &&& (old(self).entry_of(id) matches Some(e) ==> (path_parent(e.abs_path@) matches Some(p) ==> (
                opt_view(old(self).root_path_spec()) == Some(p) || !old(self).has_path_entry(p))))
            },
    {
        let path = match self.entry(id) {
            Some(e) => e.abs_path.clone(),
            None => {
                return false;
            },
        };
        let parent = match parent_of(path.as_str()) {
            Some(p) => p,
            None => {
                return false;
            },
        };
        let is_root = match &self.root_path {
            Some(r) => str_eq(r.as_str(), parent.as_str()),
            None => false,
        };
        if is_root {
            return false;
        }
        match self.find_entry_id_by_path(parent.as_str()) {
            Some(pid) => {
                self.selected = Some(pid);
                self.marked_entries = Vec::new();
                assert(self.marked_entries@.to_set() =~= Set::empty());
                true
            },
            None => false,
        }
    }

    /// What `move_selection(delta)` does.
    pub open spec fn moved_selection(before: FileTree, after: FileTree, delta: int, r: Option<usize>) -> bool {
        &&& after.data_unchanged(&before)
        &&& after.edit_spec() == before.edit_spec()
        &&& after.menu_spec() == before.menu_spec()
        &&& after.clipboard_spec() == before.clipboard_spec()
        &&& before.visible_spec().len() == 0 ==> {
            &&& r is None
            &&& after.ui_unchanged(&before)
        }
        &&& before.visible_spec().len() > 0 ==> {
            let n = moved_row(before.visible_spec(), before.selected_spec(), delta);
            &&& r == Some(n as usize)
            &&& after.selected_spec() == Some(before.visible_spec()[n].0)
            &&& after.marked_spec().is_empty()
            &&& after.last_clicked_spec() == Some(n as usize)
        }
    }

    /// Moving the selection `delta` rows and then `-delta` rows comes back
    /// to the row it started on, where the first move was not stopped by
    /// the ends and no entry shows on two rows.
    pub proof fn law_move_back_restores(t0: FileTree, t1: FileTree, t2: FileTree, delta: int, r1: Option<usize>, r2: Option<usize>)
        requires
            FileTree::moved_selection(t0, t1, delta, r1),
            FileTree::moved_selection(t1, t2, -delta, r2),
            t0.visible_spec().len() > 0,
            forall|i: int, j: int|
                0 <= i < j < t0.visible_spec().len() ==> #[trigger] t0.visible_spec()[i].0 != #[trigger] t0.visible_spec()[j].0,
            0 <= moved_row(t0.visible_spec(), t0.selected_spec(), 0) + delta < t0.visible_spec().len(),
        ensures
            r2 == Some(moved_row(t0.visible_spec(), t0.selected_spec(), 0) as usize),
            t2.selected_spec() == Some(t0.visible_spec()[moved_row(t0.visible_spec(), t0.selected_spec(), 0)].0),
    {
        let rows = t0.visible_spec();
        assert(t1.visible_spec() == rows);
        let c = moved_row(rows, t0.selected_spec(), 0);
        let n1 = moved_row(rows, t0.selected_spec(), delta);
        assert(n1 == c + delta);
        lemma_moved_from_row(rows, n1, -delta);
        assert(0 <= c < rows.len());
    }

    /// Moves the selection `delta` rows, within the rows; gives the row to
    /// scroll to.
    pub fn move_selection(&mut self, delta: i32) -> (r: Option<usize>)
        requires
            old(self).wf(),
            old(self).visible_spec().len() <= i32::MAX,
            old(self).visible_spec().len() > 0 ==> moved_row(old(self).visible_spec(), old(self).selected_spec(), 0)
                + delta <= i32::MAX,
        ensures
            final(self).wf(),
            FileTree::moved_selection(*old(self), *final(self), delta as int, r),
    {
        let n = self.visible_entries.len();
        if n == 0 {
            return None;
        }
        let cur: usize = match self.selected {
            Some(id) => match self.first_row_index(id) {
                Some(i) => {
                    proof {
                        let c = choose|c: int| first_row_of(self.visible_spec(), id, c);
                        if c < i {
                            assert(self.visible_spec()[c].0 != id);
                        } else if c > i {
                            assert(self.visible_spec()[i as int].0 == id);
                        }
                    }
                    i
                },
                None => 0,
            },
            None => 0,
        };
        assert(cur as int == match self.selected_spec() {
            Some(id) => if exists|i: int| first_row_of(self.visible_spec(), id, i) {
                choose|i: int| first_row_of(self.visible_spec(), id, i)
            } else {
                0
            },
            None => 0,
        });
        assert(cur < n);
        let t: i32 = cur as i32 + delta;
        let new_idx: usize = if t < 0 {
            0
        } else if t > n as i32 - 1 {
            n - 1
        } else {
            t as usize
        };
        let new_id = self.visible_entries[new_idx].entry_id;
        self.selected = Some(new_id);
        self.marked_entries = Vec::new();
        assert(self.marked_entries@.to_set() =~= Set::empty());
        self.last_clicked_index = Some(new_idx);
        Some(new_idx)
    }

    /// The folder a new entry or a paste goes in.
    pub fn target_dir(&self) -> (d: Option<String>)
        ensures
            opt_view(d) == self.target_dir_spec(),
    {
        match self.selected {
            Some(id) => match self.entry(id) {
                Some(e) => {
                    if e.kind == EntryKind::Dir {
                        return Some(e.abs_path.clone());
                    }
                    return parent_of(e.abs_path.as_str());
                },
                None => {},
            },
            None => {},
        }
        self.root_path()
    }

    /// The folder "Open in Terminal" opens: the selected folder, or the
    /// selected file's parent.
    pub fn terminal_dir(&self) -> (d: Option<String>)
        ensures
            opt_view(d) == match self.selected_spec() {
                Some(id) => match self.entry_of(id) {
                    Some(e) => if e.kind == EntryKind::Dir {
                        Some(e.abs_path@)
                    } else {
                        path_parent(e.abs_path@)
                    },
                    None => None,
                },
                None => None,
            },
    {
        match self.selected {
            Some(id) => match self.entry(id) {
                Some(e) => if e.kind == EntryKind::Dir {
                    Some(e.abs_path.clone())
                } else {
                    parent_of(e.abs_path.as_str())
                },
                None => None,
            },
            None => None,
        }
    }

    /// The selected entry's path relative to the project folder ("Copy
    /// Relative Path").
    pub fn selected_rel_path(&self) -> (p: Option<String>)
        ensures
            opt_view(p) == match self.selected_spec() {
                Some(id) => match self.entry_of(id) {
                    Some(e) => Some(rel_path_spec(self.root_path_spec(), e.abs_path@)),
                    None => None,
                },
                None => None,
            },
    {
        match self.selected {
            Some(id) => match self.entry(id) {
                Some(e) => Some(self.rel_path_str(e.abs_path.as_str())),
                None => None,
            },
            None => None,
        }
    }

    /// The paths an action on the selection applies to (trash, delete).
    pub fn selected_paths(&self) -> (paths: Vec<String>)
        requires
            self.wf(),
        ensures
            strs_view(paths@) == self.selected_paths_spec(),
    {
        let mut out: Vec<String> = Vec::new();
        if self.marked_entries.len() > 0 {
            let mut i: usize = 0;
            while i < self.marked_entries.len()
                invariant
                    i <= self.marked_entries@.len(),
                    strs_view(out@) == self.paths_of_ids(self.marked_entries@.take(i as int)),
                decreases self.marked_entries@.len() - i,
            {
                assert(self.marked_entries@.take(i + 1).drop_last() =~= self.marked_entries@.take(i as int));
                let ghost prev = out@;
                match self.entry(self.marked_entries[i]) {
                    Some(e) => {
                        out.push(e.abs_path.clone());
                        assert(strs_view(out@) =~= strs_view(prev).push(e.abs_path@));
                    },
                    None => {},
                }
                i = i + 1;
            }
            assert(self.marked_entries@.take(self.marked_entries@.len() as int) =~= self.marked_entries@);
            return out;
        }
        match self.selected {
            Some(id) => match self.entry(id) {
                Some(e) => {
                    out.push(e.abs_path.clone());
                    assert(strs_view(out@) =~= seq![e.abs_path@]);
                },
                None => {},
            },
            None => {},
        }
        assert(out@.len() == 0 ==> strs_view(out@) =~= seq![]);
        out
    }

    /// Takes the paths to trash or delete: the selection's paths; where
    /// there are any, the selection, the marks and the menu are cleared.
    pub fn take_paths_for_removal(&mut self) -> (paths: Vec<String>)
        requires
            old(self).wf(),
        ensures
            final(self).wf(),
            strs_view(paths@) == old(self).selected_paths_spec(),
            final(self).data_unchanged(old(self)),
            final(self).edit_spec() == old(self).edit_spec(),
            final(self).clipboard_spec() == old(self).clipboard_spec(),
            paths@.len() == 0 ==> final(self).ui_unchanged(old(self)),
            paths@.len() > 0 ==> {
                &&& final(self).selected_spec() is None
                &&& final(self).marked_spec().is_empty()
                &&& final(self).menu_spec() is None
                &&& final(self).last_clicked_spec() == old(self).last_clicked_spec()
            },
    {
        let paths = self.selected_paths();
        if paths.len() > 0 {
            self.clear_selection();
        }
        paths
    }

    /// What "Reveal in Finder" shows: the selected entry, else the project
    /// folder.
    pub fn reveal_path(&self) -> (p: Option<String>)
        ensures
            opt_view(p) == match self.selected_spec() {
                Some(id) => match self.entry_of(id) {
                    Some(e) => Some(e.abs_path@),
                    None => opt_view(self.root_path_spec()),
                },
                None => opt_view(self.root_path_spec()),
            },
    {
        match self.selected {
            Some(id) => match self.entry(id) {
                Some(e) => {
                    return Some(e.abs_path.clone());
                },
                None => {},
            },
            None => {},
        }
        self.root_path()
    }

    /// How row `i` shows: its name (the folded names where a chain folds),
    /// depth, whether it is a folder, selected or marked, and its colour.
    pub fn row_display(&self, i: usize) -> (d: Option<RowDisplay>)
        requires
            self.wf(),
        ensures
            i >= self.visible_spec().len() ==> d is None,
            i < self.visible_spec().len() ==> {
                let (id, depth, folded) = self.visible_spec()[i as int];
                match self.entry_of(id) {
                    None => d is None,
                    Some(e) => d matches Some(r) && {
                        &&& r.name@ == match folded {
                            Some(f) => f,
                            None => e.name@,
                        }
                        &&& r.depth as int == depth
                        &&& r.is_dir == (e.kind == EntryKind::Dir)
                        &&& r.selected == (self.selected_spec() == Some(id))
                        &&& r.marked == self.marked_spec().contains(id)
                        &&& r.color == self.row_color_spec(id)
                    },
                }
            },
    {
        let v = match self.visible_row(i) {
            Some(v) => v,
            None => {
                return None;
            },
        };
        let id = v.entry_id;
        let (name, is_dir) = match self.entry(id) {
            Some(e) => (
                match &v.folded_name {
                    Some(f) => f.clone(),
                    None => e.name.clone(),
                },
                e.kind == EntryKind::Dir,
            ),
            None => {
                return None;
            },
        };
        let selected = match self.selected {
            Some(s) => s == id,
            None => false,
        };
        Some(RowDisplay { name, depth: v.depth, is_dir, selected, marked: self.is_marked(id), color: self.row_color(id) })
    }

    fn dirty_contains(&self, rel: &str) -> (r: bool)
        ensures
            r == contains_str(self.git_dirty_dirs@, rel@),
    {
        let mut i: usize = 0;
        while i < self.git_dirty_dirs.len()
            invariant
                i <= self.git_dirty_dirs@.len(),
                forall|j: int| 0 <= j < i ==> self.git_dirty_dirs@[j]@ != rel@,
            decreases self.git_dirty_dirs@.len() - i,
        {
            if str_eq(self.git_dirty_dirs[i].as_str(), rel) {
                return true;
            }
            i = i + 1;
        }
        false
    }

    fn first_row_index(&self, id: u64) -> (r: Option<usize>)
        ensures
            match r {
                Some(i) => first_row_of(self.visible_spec(), id, i as int),
                None => !exists|c: int| first_row_of(self.visible_spec(), id, c),
            },
    {
        let n = self.visible_entries.len();
        let mut i: usize = 0;
        while i < n
            invariant
                n == self.visible_entries@.len(),
                i <= n,
                forall|j: int| 0 <= j < i ==> self.visible_spec()[j].0 != id,
            decreases n - i,
        {
            if self.visible_entries[i].entry_id == id {
                return Some(i);
            }
            i = i + 1;
        }
        None
    }

    /// The colour of a row's name.
    pub fn row_color(&self, id: u64) -> (c: RowColor)
        ensures
            c == self.row_color_spec(id),
    {
        match self.entry(id) {
            Some(e) => match e.git_status {
                Some(st) => RowColor::Vcs(git_status_color(st)),
                None => {
                    if e.kind == EntryKind::Dir {
                        let rel = self.rel_path_str(e.abs_path.as_str());
                        if self.dirty_contains(rel.as_str()) {
                            return RowColor::VcsModified;
                        }
                        RowColor::TextMuted
                    } else {
                        RowColor::Text
                    }
                },
            },
            None => RowColor::Text,
        }
    }
}

impl FileTree {
    /// What `toggle_dir(id)` does to the expansion of an existing folder.
    pub open spec fn dir_toggled(before: FileTree, after: FileTree, id: u64) -> bool {
        &&& before.entry_of(id) matches Some(e)
        &&& forall|q: Seq<char>|
            after.is_expanded_path(q) == if q == e.abs_path@ {
                !before.is_expanded_path(q)
            } else {
                before.is_expanded_path(q)
            }
        &&& after.entries_spec() == before.entries_spec()
        &&& after.base_spec() == before.base_spec()
        &&& after.ui_unchanged(&before)
    }

    /// Toggling the same folder twice leaves every folder's expansion as
    /// it was.
    pub proof fn law_toggle_twice_restores(t0: FileTree, t1: FileTree, t2: FileTree, id: u64)
        requires
            FileTree::dir_toggled(t0, t1, id),
            FileTree::dir_toggled(t1, t2, id),
        ensures
            forall|q: Seq<char>| t2.is_expanded_path(q) == t0.is_expanded_path(q),
    {
        assert(t1.entry_of(id) == t0.entry_of(id));
    }

    /// What a command-click on the file in row `row` does: the data stays,
    /// and that file's mark flips.
    pub open spec fn cmd_clicked(before: FileTree, after: FileTree, row: int) -> bool {
        &&& 0 <= row < before.visible_spec().len()
        &&& after.data_unchanged(&before)
        &&& after.marked_spec() == mark_toggled(before.marked_spec(), before.visible_spec()[row].0)
    }

    /// Command-clicking the same file row twice leaves the marked files as
    /// they were.
    pub proof fn law_cmd_click_twice_restores(t0: FileTree, t1: FileTree, t2: FileTree, row: int)
        requires
            FileTree::cmd_clicked(t0, t1, row),
            FileTree::cmd_clicked(t1, t2, row),
        ensures
            t2.marked_spec() == t0.marked_spec(),
    {
        assert(t1.visible_spec() == t0.visible_spec());
        let id = t0.visible_spec()[row].0;
        if t0.marked_spec().contains(id) {
            assert(t2.marked_spec() =~= t0.marked_spec());
        } else {
            assert(t2.marked_spec() =~= t0.marked_spec());
        }
    }

    /// A key press on the tree (ignored during a rename): up and down move
    /// the selection; right expands a collapsed folder; left collapses an
    /// expanded folder or selects the parent; enter toggles a folder or
    /// opens a file; space toggles a folder.
    pub fn on_key_nav(&mut self, key: &str) -> (out: KeyOutcome)
        requires
            old(self).wf(),
            old(self).visible_spec().len() <= i32::MAX,
        ensures
            final(self).wf(),
            final(self).edit_spec() == old(self).edit_spec(),
            old(self).edit_spec() is Some ==> {
                &&& out is Ignored
                &&& final(self).data_unchanged(old(self))
                &&& final(self).ui_unchanged(old(self))
            },
            old(self).edit_spec() is None && (key@ == "up"@ || key@ == "down"@) ==> FileTree::moved_selection(
                *old(self),
                *final(self),
                if key@ == "up"@ {
                    -1int
                } else {
                    1int
                },
                match out {
                    KeyOutcome::ScrollTo(n) => Some(n),
                    _ => None,
                },
            ),
            out is DirToggled ==> (old(self).selected_spec() matches Some(id) && FileTree::dir_toggled(
                *old(self),
                *final(self),
                id,
            )),
            out matches KeyOutcome::OpenFile(p) ==> {
                &&& old(self).selected_spec() matches Some(id)
                &&& old(self).entry_of(id) matches Some(e)
                &&& e.kind == EntryKind::File && p@ == e.abs_path@
                &&& (key@ == "enter"@ || key@ == "return"@)
            },
            out is Ignored ==> final(self).data_unchanged(old(self)) && final(self).selected_spec() == old(
                self,
            ).selected_spec(),
    {
        if self.edit_state.is_some() {
            return KeyOutcome::Ignored;
        }
        if str_eq(key, "up") || str_eq(key, "down") {
            let delta: i32 = if str_eq(key, "up") {
                -1
            } else {
                1
            };
            let r = self.move_selection(delta);
            assert(FileTree::moved_selection(*old(self), *self, delta as int, r));
            return match r {
                Some(n) => KeyOutcome::ScrollTo(n),
                None => KeyOutcome::Ignored,
            };
        }
        let id = match self.selected {
            Some(id) => id,
            None => {
                return KeyOutcome::Ignored;
            },
        };
        let kind = match self.entry(id) {
            Some(e) => e.kind,
            None => {
                return KeyOutcome::Ignored;
            },
        };
        let is_dir = kind == EntryKind::Dir;
        if str_eq(key, "right") {
            if is_dir && !self.is_expanded_id(id) {
                self.toggle_dir(id);
                return KeyOutcome::DirToggled;
            }
            KeyOutcome::Ignored
        } else if str_eq(key, "left") {
            if is_dir && self.is_expanded_id(id) {
                self.toggle_dir(id);
                KeyOutcome::DirToggled
            } else if self.select_parent(id) {
                KeyOutcome::Selected
            } else {
                KeyOutcome::Ignored
            }
        } else if str_eq(key, "enter") || str_eq(key, "return") {
            if is_dir {
                self.toggle_dir(id);
                KeyOutcome::DirToggled
            } else {
                match self.select_file(id) {
                    Some(p) => KeyOutcome::OpenFile(p),
                    None => KeyOutcome::Selected,
                }
            }
        } else if str_eq(key, "space") {
            if is_dir {
                self.toggle_dir(id);
                return KeyOutcome::DirToggled;
            }
            KeyOutcome::Ignored
        } else {
            KeyOutcome::Ignored
        }
    }

    /// Puts the selected entry on the clipboard to be moved, and closes
    /// the context menu.
    pub fn cut_selected(&mut self)
        requires
            old(self).wf(),
        ensures
            final(self).wf(),
            final(self).clipboard_spec() == match old(self).selected_spec() {
                Some(id) => Some(ClipboardOp::Cut(id)),
                None => old(self).clipboard_spec(),
            },
            final(self).menu_spec() is None,
            final(self).data_unchanged(old(self)),
            final(self).selected_spec() == old(self).selected_spec(),
            final(self).marked_spec() == old(self).marked_spec(),
            final(self).edit_spec() == old(self).edit_spec(),
    {
        if let Some(id) = self.selected {
            self.clipboard = Some(ClipboardOp::Cut(id));
        }
        self.context_menu = None;
    }

    /// Puts the selected entry on the clipboard to be copied, and closes
    /// the context menu.
    pub fn copy_selected(&mut self)
        requires
            old(self).wf(),
        ensures
            final(self).wf(),
            final(self).clipboard_spec() == match old(self).selected_spec() {
                Some(id) => Some(ClipboardOp::Copied(id)),
                None => old(self).clipboard_spec(),
            },
            final(self).menu_spec() is None,
            final(self).data_unchanged(old(self)),
            final(self).selected_spec() == old(self).selected_spec(),
            final(self).marked_spec() == old(self).marked_spec(),
            final(self).edit_spec() == old(self).edit_spec(),
    {
        if let Some(id) = self.selected {
            self.clipboard = Some(ClipboardOp::Copied(id));
        }
        self.context_menu = None;
    }

    /// Opens the context menu on entry `id`, which a right click also
    /// selects (the menu's actions then act on it).
    pub fn open_context_menu(&mut self, id: u64)
        requires
            old(self).wf(),
        ensures
            final(self).wf(),
            final(self).menu_spec() == Some(id),
            final(self).data_unchanged(old(self)),
            final(self).selected_spec() == Some(id),
            final(self).marked_spec() == old(self).marked_spec(),
            final(self).edit_spec() == old(self).edit_spec(),
            final(self).clipboard_spec() == old(self).clipboard_spec(),
    {
        self.selected = Some(id);
        self.context_menu = Some(id);
    }

    /// Closes the context menu.
    pub fn close_context_menu(&mut self)
        requires
            old(self).wf(),
        ensures
            final(self).wf(),
            final(self).menu_spec() is None,
            final(self).data_unchanged(old(self)),
            final(self).selected_spec() == old(self).selected_spec(),
            final(self).marked_spec() == old(self).marked_spec(),
            final(self).edit_spec() == old(self).edit_spec(),
            final(self).clipboard_spec() == old(self).clipboard_spec(),
    {
        self.context_menu = None;
    }

    /// The entry on the context menu.
    pub fn context_menu(&self) -> (m: Option<u64>)
        ensures
            m == self.menu_spec(),
    {
        self.context_menu
    }

    /// Whether something is on the clipboard.
    pub fn has_clipboard(&self) -> (r: bool)
        ensures
            r == (self.clipboard_spec() is Some),
    {
        self.clipboard.is_some()
    }

    /// Where a paste goes: the clipboard entry's file name (or `file`) in
    /// the target folder.
    pub open spec fn paste_plan_spec(&self) -> Option<(Seq<char>, Seq<char>, bool, Seq<char>)> {
        match self.clipboard_spec() {
            None => None,
            Some(clip) => match self.target_dir_spec() {
                None => None,
                Some(dir) => {
                    let (src_id, is_cut) = match clip {
                        ClipboardOp::Cut(i) => (i, true),
                        ClipboardOp::Copied(i) => (i, false),
                    };
                    match self.entry_of(src_id) {
                        None => None,
                        Some(e) => {
                            let name = match path_file_name(e.abs_path@) {
                                Some(n) => n,
                                None => "file"@,
                            };
                            Some((e.abs_path@, path_join(dir, name), is_cut, dir))
                        },
                    }
                },
            },
        }
    }

    /// The paste to perform, if the clipboard holds an entry and there is
    /// a target folder.
    pub fn paste_plan(&self) -> (plan: Option<PastePlan>)
        ensures
            match plan {
                Some(p) => self.paste_plan_spec() == Some((p.src_path@, p.dest_base@, p.is_cut, p.dir@)),
                None => self.paste_plan_spec() is None,
            },
    {
        let clip = match self.clipboard {
            Some(c) => c,
            None => {
                return None;
            },
        };
        let dir = match self.target_dir() {
            Some(d) => d,
            None => {
                return None;
            },
        };
        let (src_id, is_cut) = match clip {
            ClipboardOp::Cut(i) => (i, true),
            ClipboardOp::Copied(i) => (i, false),
        };
        let src = match self.entry(src_id) {
            Some(e) => e.abs_path.clone(),
            None => {
                return None;
            },
        };
        let name = match file_name_of(src.as_str()) {
            Some(n) => n,
            None => String::from_str("file"),
        };
        let dest_base = join_path(dir.as_str(), name.as_str());
        Some(PastePlan { src_path: src, dest_base, is_cut, dir })
    }

    /// After a paste: a cut empties the clipboard; the target folder is
    /// expanded and the menu closed (the host then refreshes).
    pub fn finish_paste(&mut self, plan: &PastePlan)
        requires
            old(self).wf(),
        ensures
            final(self).wf(),
            final(self).clipboard_spec() == if plan.is_cut {
                None
            } else {
                old(self).clipboard_spec()
            },
            final(self).is_expanded_path(plan.dir@),
            forall|q: Seq<char>| final(self).is_expanded_path(q) == (old(self).is_expanded_path(q) || q == plan.dir@),
            final(self).menu_spec() is None,
            final(self).entries_spec() == old(self).entries_spec(),
            final(self).selected_spec() == old(self).selected_spec(),
            final(self).marked_spec() == old(self).marked_spec(),
            final(self).edit_spec() == old(self).edit_spec(),
    {
        if plan.is_cut {
            self.clipboard = None;
        }
        self.context_menu = None;
        self.insert_expanded(plan.dir.as_str());
        assert(self.is_expanded_path(plan.dir@));
    }

    /// Starts an inline rename of entry `id`; gives the name to edit.
    pub fn start_rename(&mut self, id: u64, is_new: bool) -> (initial: Option<String>)
        requires
            old(self).wf(),
        ensures
            final(self).wf(),
            final(self).data_unchanged(old(self)),
            final(self).selected_spec() == old(self).selected_spec(),
            final(self).marked_spec() == old(self).marked_spec(),
            final(self).clipboard_spec() == old(self).clipboard_spec(),
            final(self).menu_spec() == old(self).menu_spec(),
            match old(self).entry_of(id) {
                Some(e) => {
                    &&& (initial matches Some(n) && n@ == e.name@)
                    &&& final(self).edit_spec() == Some(
                        EditState { entry_id: id, is_new, is_dir: e.kind == EntryKind::Dir, processing: false },
                    )
                },
                None => initial is None && final(self).edit_spec() == old(self).edit_spec(),
            },
    {
        let (is_dir, name) = match self.entry(id) {
            Some(e) => (e.kind == EntryKind::Dir, e.name.clone()),
            None => {
                return None;
            },
        };
        self.edit_state = Some(EditState { entry_id: id, is_new, is_dir, processing: false });
        Some(name)
    }

    /// Ends the rename in progress (confirmed or cancelled).
    pub fn end_rename(&mut self)
        requires
            old(self).wf(),
        ensures
            final(self).wf(),
            final(self).edit_spec() is None,
            final(self).data_unchanged(old(self)),
            final(self).selected_spec() == old(self).selected_spec(),
            final(self).marked_spec() == old(self).marked_spec(),
            final(self).clipboard_spec() == old(self).clipboard_spec(),
            final(self).menu_spec() == old(self).menu_spec(),
    {
        self.edit_state = None;
    }

    /// Whether a change on disk may rebuild the tree now: not while a
    /// rename is in progress (the new ids would lose the edited entry).
    pub fn fs_refresh_allowed(&self) -> (r: bool)
        ensures
            r == (self.edit_spec() is None),
    {
        self.edit_state.is_none()
    }

    /// The rename in progress.
    pub fn edit_state(&self) -> (e: Option<EditState>)
        ensures
            e == self.edit_spec(),
    {
        self.edit_state
    }

    /// Selects entry `id` (after a create, rename, duplicate).
    pub fn set_selected(&mut self, id: Option<u64>)
        requires
            old(self).wf(),
        ensures
            final(self).wf(),
            final(self).selected_spec() == id,
            final(self).data_unchanged(old(self)),
            final(self).marked_spec() == old(self).marked_spec(),
            final(self).edit_spec() == old(self).edit_spec(),
            final(self).clipboard_spec() == old(self).clipboard_spec(),
            final(self).menu_spec() == old(self).menu_spec(),
    {
        self.selected = id;
    }

    /// Clears the selection and the marks (before a trash or delete).
    pub fn clear_selection(&mut self)
        requires
            old(self).wf(),
        ensures
            final(self).wf(),
            final(self).selected_spec() is None,
            final(self).marked_spec().is_empty(),
            final(self).menu_spec() is None,
            final(self).data_unchanged(old(self)),
            final(self).edit_spec() == old(self).edit_spec(),
            final(self).clipboard_spec() == old(self).clipboard_spec(),
            final(self).last_clicked_spec() == old(self).last_clicked_spec(),
    {
        self.selected = None;
        self.marked_entries = Vec::new();
        assert(self.marked_entries@.to_set() =~= Set::empty());
        self.context_menu = None;
    }

    /// The rename step for the typed name (trimmed): cancel for an invalid
    /// name or a vanished entry; keep the old path where it has no parent;
    /// else the new path beside the old one.
    pub fn rename_step(&self, typed: &str) -> (step: RenameStep)
        ensures
            match self.edit_spec() {
                None => step is NotEditing,
                Some(edit) => if edit.processing {
                    step is NotEditing
                } else if !valid_rename_spec(trimmed(typed@)) {
                    step is Cancel
                } else {
                    match self.entry_of(edit.entry_id) {
                        None => step is Cancel,
                        Some(e) => {
                            let open_new = edit.is_new && !edit.is_dir;
                            match path_parent(e.abs_path@) {
                                None => (step matches RenameStep::Keep { old_path, open_new_file }
                                    && old_path@ == e.abs_path@ && open_new_file == open_new),
                                Some(par) => (step matches RenameStep::Candidate {
                                    old_path,
                                    new_path,
                                    open_new_file,
                                } && old_path@ == e.abs_path@ && new_path@ == path_join(par, trimmed(typed@))
                                    && open_new_file == open_new),
                            }
                        },
                    }
                },
            },
    {
        let edit = match self.edit_state {
            Some(e) => e,
            None => {
                return RenameStep::NotEditing;
            },
        };
        if edit.processing {
            return RenameStep::NotEditing;
        }
        let new_name = trim_of(typed);
        if !is_valid_rename(new_name.as_str()) {
            return RenameStep::Cancel;
        }
        let old_path = match self.entry(edit.entry_id) {
            Some(e) => e.abs_path.clone(),
            None => {
                return RenameStep::Cancel;
            },
        };
        let open_new_file = edit.is_new && !edit.is_dir;
        match parent_of(old_path.as_str()) {
            Some(par) => {
                let new_path = join_path(par.as_str(), new_name.as_str());
                RenameStep::Candidate { old_path, new_path, open_new_file }
            },
            None => RenameStep::Keep { old_path, open_new_file },
        }
    }

    /// Where a new file (`untitled`) or folder (`new-folder`) goes, before
    /// uniqueness is applied: the target folder and the base path.
    pub fn new_entry_base(&self, folder: bool) -> (r: Option<(String, String)>)
        ensures
            match r {
                Some((dir, base)) => self.target_dir_spec() == Some(dir@) && base@ == path_join(
                    dir@,
                    if folder {
                        "new-folder"@
                    } else {
                        "untitled"@
                    },
                ),
                None => self.target_dir_spec() is None,
            },
    {
        let dir = match self.target_dir() {
            Some(d) => d,
            None => {
                return None;
            },
        };
        let base = if folder {
            join_path(dir.as_str(), "new-folder")
        } else {
            join_path(dir.as_str(), "untitled")
        };
        Some((dir, base))
    }

    /// The path of the selected entry (what duplicate, rename and copy path
    /// act on).
    pub fn selected_path(&self) -> (p: Option<String>)
        ensures
            match p {
                Some(s) => (self.selected_spec() matches Some(id) && (self.entry_of(id) matches Some(e) && s@
                    == e.abs_path@)),
                None => self.selected_spec() is None || self.entry_of(self.selected_spec().unwrap()) is None,
            },
    {
        match self.selected {
            Some(id) => match self.entry(id) {
                Some(e) => Some(e.abs_path.clone()),
                None => None,
            },
            None => None,
        }
    }
}

proof fn lemma_shown_len(raw: Seq<RawDirEntry>)
    ensures
        shown(raw).len() <= raw.len(),
    decreases raw.len(),
{
    if raw.len() > 0 {
        lemma_shown_len(raw.drop_last());
    }
}

} // verus!
