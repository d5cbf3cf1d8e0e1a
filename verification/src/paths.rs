//! Paths as the standard library reads them, and the checks that the file
//! tree applies before it renames or creates an entry.

use vstd::prelude::*;
use vstd::string::*;

use crate::text::{chars_of, string_from_chars, str_eq, push_char, decimal_chars, decimal_spec, push_chars};

verus! {

/// One component of a path, as std's `Path::components` yields it.
#[derive(Debug)]
pub enum PathComponent {
    Prefix(String),
    RootDir,
    CurDir,
    ParentDir,
    Normal(String),
}

/// A path component as a plain value.
pub enum ComponentView {
    Prefix(Seq<char>),
    RootDir,
    CurDir,
    ParentDir,
    Normal(Seq<char>),
}

pub open spec fn component_view(c: PathComponent) -> ComponentView {
    match c {
        PathComponent::Prefix(s) => ComponentView::Prefix(s@),
        PathComponent::RootDir => ComponentView::RootDir,
        PathComponent::CurDir => ComponentView::CurDir,
        PathComponent::ParentDir => ComponentView::ParentDir,
        PathComponent::Normal(s) => ComponentView::Normal(s@),
    }
}

pub open spec fn components_view(cs: Seq<PathComponent>) -> Seq<ComponentView> {
    cs.map_values(|c: PathComponent| component_view(c))
}

/// What std's `Path::components` yields for a path.
pub uninterp spec fn path_components(path: Seq<char>) -> Seq<ComponentView>;

/// std's `Path::components`, collected. The contract only names the result.
#[verifier::external_body]
pub(crate) fn components_of(path: &str) -> (cs: Vec<PathComponent>)
    ensures
        components_view(cs@) == path_components(path@),
{
    let mut out = Vec::new();
    for c in std::path::Path::new(path).components() {
        out.push(match c {
            std::path::Component::Prefix(p) => PathComponent::Prefix(p.as_os_str().to_string_lossy().into_owned()),
            std::path::Component::RootDir => PathComponent::RootDir,
            std::path::Component::CurDir => PathComponent::CurDir,
            std::path::Component::ParentDir => PathComponent::ParentDir,
            std::path::Component::Normal(n) => PathComponent::Normal(n.to_string_lossy().into_owned()),
        });
    }
    out
}

/// What std's `Path::file_name` gives for a path: its final component,
/// unless that is `..` or the path has none.
pub uninterp spec fn path_file_name(path: Seq<char>) -> Option<Seq<char>>;

/// What std's `Path::parent` gives for a path.
pub uninterp spec fn path_parent(path: Seq<char>) -> Option<Seq<char>>;

/// The position of the last `.` in a name.
pub open spec fn last_dot(name: Seq<char>) -> Option<int>
    decreases name.len(),
{
    if name.len() == 0 {
        None
    } else if name.last() == '.' {
        Some(name.len() - 1)
    } else {
        last_dot(name.drop_last())
    }
}

/// The stem of a path, as std's `Path::file_stem` documents it: none
/// without a file name; the whole file name where it holds no `.` or only
/// a leading one; else the part before the final `.`.
pub open spec fn path_file_stem(path: Seq<char>) -> Option<Seq<char>> {
    match path_file_name(path) {
        None => None,
        Some(name) => match last_dot(name) {
            Some(i) if i > 0 => Some(name.take(i)),
            _ => Some(name),
        },
    }
}

/// The extension of a path, as std's `Path::extension` documents it: none
/// without a file name, or where the file name holds no `.` or only a
/// leading one; else the part after the final `.`.
pub open spec fn path_extension(path: Seq<char>) -> Option<Seq<char>> {
    match path_file_name(path) {
        None => None,
        Some(name) => match last_dot(name) {
            Some(i) if i > 0 => Some(name.skip(i + 1)),
            _ => None,
        },
    }
}

/// What std's `Path::join` gives for a base path and a name.
pub uninterp spec fn path_join(base: Seq<char>, name: Seq<char>) -> Seq<char>;

/// What std's `Path::strip_prefix` gives for a path and a base.
pub uninterp spec fn path_strip_prefix(path: Seq<char>, base: Seq<char>) -> Option<Seq<char>>;

pub open spec fn opt_view(o: Option<String>) -> Option<Seq<char>> {
    match o {
        Some(s) => Some(s@),
        None => None,
    }
}

/// std's `Path::file_name`, as a `String` (`to_string_lossy` is lossless
/// on a path made from a `&str`). The contract only names the result.
#[verifier::external_body]
pub(crate) fn file_name_of(path: &str) -> (name: Option<String>)
    ensures
        opt_view(name) == path_file_name(path@),
{
    match std::path::Path::new(path).file_name() {
        Some(n) => Some(n.to_string_lossy().into_owned()),
        None => None,
    }
}

/// std's `Path::parent`, as a `String`. The contract only names the result.
#[verifier::external_body]
pub(crate) fn parent_of(path: &str) -> (parent: Option<String>)
    ensures
        opt_view(parent) == path_parent(path@),
{
    match std::path::Path::new(path).parent() {
        Some(p) => Some(p.to_string_lossy().into_owned()),
        None => None,
    }
}

/// std's `Path::file_stem`, as a `String`; the contract states what its
/// documentation gives (see `path_file_stem`).
#[verifier::external_body]
pub(crate) fn file_stem_of(path: &str) -> (stem: Option<String>)
    ensures
        opt_view(stem) == path_file_stem(path@),
{
    match std::path::Path::new(path).file_stem() {
        Some(s) => Some(s.to_string_lossy().into_owned()),
        None => None,
    }
}

/// std's `Path::extension`, as a `String`; the contract states what its
/// documentation gives (see `path_extension`).
#[verifier::external_body]
pub(crate) fn extension_of(path: &str) -> (ext: Option<String>)
    ensures
        opt_view(ext) == path_extension(path@),
{
    match std::path::Path::new(path).extension() {
        Some(e) => Some(e.to_string_lossy().into_owned()),
        None => None,
    }
}

/// std's `Path::join`, as a `String`. The contract only names the result.
#[verifier::external_body]
pub(crate) fn join_path(base: &str, name: &str) -> (joined: String)
    ensures
        joined@ == path_join(base@, name@),
{
    std::path::Path::new(base).join(name).to_string_lossy().into_owned()
}

/// std's `Path::strip_prefix`, as a `String`; `None` where `base` is not a
/// prefix. The contract only names the result.
#[verifier::external_body]
pub(crate) fn strip_prefix_of(path: &str, base: &str) -> (rest: Option<String>)
    ensures
        opt_view(rest) == path_strip_prefix(path@, base@),
{
    match std::path::Path::new(path).strip_prefix(base) {
        Ok(p) => Some(p.to_string_lossy().into_owned()),
        Err(_) => None,
    }
}

/// A name that a file or folder may be renamed to: not empty, no `/` or
/// NUL, and not `.` or `..`.
pub open spec fn valid_rename_spec(name: Seq<char>) -> bool {
    &&& name.len() > 0
    &&& !name.contains('/')
    &&& !name.contains('\0')
    &&& name != seq!['.']
    &&& name != seq!['.', '.']
}

/// Validates a rename target name: rejects empty names, path separators,
/// NUL and the traversal names `.` and `..`.
pub fn is_valid_rename(name: &str) -> (ok: bool)
    ensures
        ok == valid_rename_spec(name@),
{
    let cs = chars_of(name);
    if cs.len() == 0 {
        return false;
    }
    let mut i: usize = 0;
    while i < cs.len()
        invariant
            i <= cs@.len(),
            cs@ == name@,
            forall|j: int| 0 <= j < i ==> cs@[j] != '/' && cs@[j] != '\0',
        decreases cs@.len() - i,
    {
        if cs[i] == '/' || cs[i] == '\0' {
            assert(name@[i as int] == cs@[i as int]);
            return false;
        }
        i = i + 1;
    }
    let is_dot = cs.len() == 1 && cs[0] == '.';
    let is_dotdot = cs.len() == 2 && cs[0] == '.' && cs[1] == '.';
    assert(is_dot == (cs@ == seq!['.'])) by {
        if cs@.len() == 1 && cs@[0] == '.' {
            assert(cs@ =~= seq!['.']);
        }
    }
    assert(is_dotdot == (cs@ == seq!['.', '.'])) by {
        if cs@.len() == 2 && cs@[0] == '.' && cs@[1] == '.' {
            assert(cs@ =~= seq!['.', '.']);
        }
    }
    !is_dot && !is_dotdot
}

/// The components of a path with `.` dropped and each `..` removing the
/// component before it (if any), as the lexical root check resolves them.
pub open spec fn normalize_components(cs: Seq<ComponentView>) -> Seq<ComponentView>
    decreases cs.len(),
{
    if cs.len() == 0 {
        seq![]
    } else {
        let acc = normalize_components(cs.drop_last());
        match cs.last() {
            ComponentView::ParentDir => if acc.len() > 0 {
                acc.drop_last()
            } else {
                acc
            },
            ComponentView::CurDir => acc,
            other => acc.push(other),
        }
    }
}

/// `base` is a component-wise prefix of `path` (std's `Path::starts_with`).
pub open spec fn components_start_with(path: Seq<ComponentView>, base: Seq<ComponentView>) -> bool {
    base.len() <= path.len() && path.take(base.len() as int) == base
}

/// Whether a renamed entry stays inside the project root. Where both
/// paths resolve on disk (`resolved` holds their canonical forms, computed
/// by the caller) the canonical path must start with the canonical root;
/// otherwise `.` and `..` are resolved lexically and the same prefix test
/// is made.
pub open spec fn stays_within_root_spec(
    new_path: Seq<char>,
    root: Seq<char>,
    resolved: Option<(Seq<char>, Seq<char>)>,
) -> bool {
    match resolved {
        Some((p, r)) => components_start_with(path_components(p), path_components(r)),
        None => components_start_with(
            normalize_components(path_components(new_path)),
            normalize_components(path_components(root)),
        ),
    }
}

fn component_clone(c: &PathComponent) -> (out: PathComponent)
    ensures
        component_view(out) == component_view(*c),
{
    match c {
        PathComponent::Prefix(s) => PathComponent::Prefix(s.clone()),
        PathComponent::RootDir => PathComponent::RootDir,
        PathComponent::CurDir => PathComponent::CurDir,
        PathComponent::ParentDir => PathComponent::ParentDir,
        PathComponent::Normal(s) => PathComponent::Normal(s.clone()),
    }
}

fn component_eq(a: &PathComponent, b: &PathComponent) -> (r: bool)
    ensures
        r == (component_view(*a) == component_view(*b)),
{
    match (a, b) {
        (PathComponent::Prefix(x), PathComponent::Prefix(y)) => x.eq(y),
        (PathComponent::RootDir, PathComponent::RootDir) => true,
        (PathComponent::CurDir, PathComponent::CurDir) => true,
        (PathComponent::ParentDir, PathComponent::ParentDir) => true,
        (PathComponent::Normal(x), PathComponent::Normal(y)) => x.eq(y),
        _ => false,
    }
}

/// Resolves `.` and `..` in a list of components without the file system.
pub fn normalize(cs: &Vec<PathComponent>) -> (out: Vec<PathComponent>)
    ensures
        components_view(out@) == normalize_components(components_view(cs@)),
{
    let mut out: Vec<PathComponent> = Vec::new();
    let mut i: usize = 0;
    while i < cs.len()
        invariant
            i <= cs@.len(),
            components_view(out@) == normalize_components(components_view(cs@.take(i as int))),
        decreases cs@.len() - i,
    {
        let ghost prev = out@;
        assert(components_view(cs@.take(i + 1)).drop_last() =~= components_view(cs@.take(i as int)));
        assert(components_view(cs@.take(i + 1)).last() == component_view(cs@[i as int]));
        match &cs[i] {
            PathComponent::ParentDir => {
                if out.len() > 0 {
                    out.pop();
                    assert(components_view(out@) =~= components_view(prev).drop_last());
                }
            },
            PathComponent::CurDir => {},
            other => {
                out.push(component_clone(other));
                assert(components_view(out@) =~= components_view(prev).push(component_view(*other)));
            },
        }
        i = i + 1;
    }
    assert(cs@.take(cs@.len() as int) =~= cs@);
    out
}

/// Whether `base` is a component-wise prefix of `path`.
pub fn starts_with_components(path: &Vec<PathComponent>, base: &Vec<PathComponent>) -> (r: bool)
    ensures
        r == components_start_with(components_view(path@), components_view(base@)),
{
    if base.len() > path.len() {
        return false;
    }
    let mut i: usize = 0;
    while i < base.len()
        invariant
            base@.len() <= path@.len(),
            i <= base@.len(),
            forall|j: int| 0 <= j < i ==> component_view(path@[j]) == component_view(base@[j]),
        decreases base@.len() - i,
    {
        if !component_eq(&path[i], &base[i]) {
            assert(components_view(path@).take(base@.len() as int)[i as int] != components_view(base@)[i as int]);
            return false;
        }
        i = i + 1;
    }
    assert(components_view(path@).take(base@.len() as int) =~= components_view(base@));
    true
}

/// Checks that `new_path` stays within `root` (no path traversal). Where
/// both resolve on disk the caller passes their canonical forms in
/// `resolved`; otherwise `.` and `..` are resolved lexically.
pub fn rename_stays_within_root(new_path: &str, root: &str, resolved: Option<(String, String)>) -> (ok: bool)
    ensures
        ok == stays_within_root_spec(
            new_path@,
            root@,
            match resolved {
                Some((p, r)) => Some((p@, r@)),
                None => None,
            },
        ),
{
    match resolved {
        Some((p, r)) => {
            let pc = components_of(p.as_str());
            let rc = components_of(r.as_str());
            starts_with_components(&pc, &rc)
        },
        None => {
            let pc = normalize(&components_of(new_path));
            let rc = normalize(&components_of(root));
            starts_with_components(&pc, &rc)
        },
    }
}

/// The file name `stem-i.ext` (or `stem-i` without an extension).
pub open spec fn numbered_name(stem: Seq<char>, i: nat, ext: Option<Seq<char>>) -> Seq<char> {
    let head = stem.push('-') + decimal_spec(i);
    match ext {
        Some(e) => head.push('.') + e,
        None => head,
    }
}

/// The file name `stem copy.ext` (or `stem copy`).
pub open spec fn copy_name(stem: Seq<char>, ext: Option<Seq<char>>) -> Seq<char> {
    let head = stem + seq![' ', 'c', 'o', 'p', 'y'];
    match ext {
        Some(e) => head.push('.') + e,
        None => head,
    }
}

/// The directory a sibling of `path` goes in: its parent, or the path
/// itself where it has none.
pub open spec fn sibling_dir(path: Seq<char>) -> Seq<char> {
    match path_parent(path) {
        Some(p) => p,
        None => path,
    }
}

/// The stem used to name siblings of `path`: its file stem, or `file`.
pub open spec fn sibling_stem(path: Seq<char>) -> Seq<char> {
    match path_file_stem(path) {
        Some(s) => s,
        None => "file"@,
    }
}

/// The `i`-th alternative to an occupied path `base`: `stem-i.ext` beside it.
pub open spec fn unique_candidate_spec(base: Seq<char>, i: nat) -> Seq<char> {
    path_join(sibling_dir(base), numbered_name(sibling_stem(base), i, path_extension(base)))
}

/// The first position `k <= j < 99` at which the probe found a free path.
pub open spec fn first_free(probes: Seq<bool>, k: int) -> Option<int>
    decreases 99 - k,
{
    if k >= 99 || k >= probes.len() || k < 0 {
        None
    } else if !probes[k] {
        Some(k)
    } else {
        first_free(probes, k + 1)
    }
}

/// The path that a new or pasted entry takes: `base` itself where it is
/// free, else the first free alternative `stem-1.ext` .. `stem-99.ext`
/// (probe `j` says whether alternative `j + 1` is taken), else `base`.
pub open spec fn unique_path_spec(base: Seq<char>, base_exists: bool, probes: Seq<bool>) -> Seq<char> {
    if !base_exists {
        base
    } else {
        match first_free(probes, 0) {
            Some(j) => unique_candidate_spec(base, (j + 1) as nat),
            None => base,
        }
    }
}

proof fn lemma_first_free(probes: Seq<bool>, k: int, j: int)
    requires
        0 <= k <= j < 99,
        j < probes.len(),
        !probes[j],
        forall|m: int| k <= m < j ==> probes[m],
    ensures
        first_free(probes, k) == Some(j),
    decreases j - k,
{
    if k < j {
        lemma_first_free(probes, k + 1, j);
    }
}

proof fn lemma_all_taken(probes: Seq<bool>, k: int)
    requires
        0 <= k,
        forall|m: int| k <= m < 99 && m < probes.len() ==> probes[m],
    ensures
        first_free(probes, k) is None,
    decreases 99 - k,
{
    if k < 99 && k < probes.len() {
        lemma_all_taken(probes, k + 1);
    }
}

/// A new entry takes the first free alternative: where alternative
/// `j + 1` is free and every earlier one is taken, the path is that
/// alternative; where all of the first 99 that were probed are taken, the
/// base stays.
pub proof fn law_unique_path_first_free(base: Seq<char>, probes: Seq<bool>)
    ensures
        forall|j: int|
            0 <= j < 99 && j < probes.len() && !probes[j] && (forall|m: int| 0 <= m < j ==> probes[m]) ==> #[trigger] unique_candidate_spec(base, (j + 1) as nat) == unique_path_spec(base, true, probes),
        (forall|m: int| 0 <= m < 99 && m < probes.len() ==> probes[m]) ==> unique_path_spec(base, true, probes) == base,
{
    assert forall|j: int|
        0 <= j < 99 && j < probes.len() && !probes[j] && (forall|m: int| 0 <= m < j ==> probes[m]) implies #[trigger] unique_candidate_spec(base, (j + 1) as nat) == unique_path_spec(base, true, probes) by {
        lemma_first_free(probes, 0, j);
    }
    if forall|m: int| 0 <= m < 99 && m < probes.len() ==> probes[m] {
        lemma_all_taken(probes, 0);
    }
}

fn sibling_stem_of(path: &str) -> (stem: String)
    ensures
        stem@ == sibling_stem(path@),
{
    match file_stem_of(path) {
        Some(s) => s,
        None => String::from_str("file"),
    }
}

fn sibling_dir_of(path: &str) -> (dir: String)
    ensures
        dir@ == sibling_dir(path@),
{
    match parent_of(path) {
        Some(p) => p,
        None => path.to_owned(),
    }
}

/// The `i`-th alternative to `base`: `stem-i.ext` in the same directory.
pub fn unique_path_candidate(base: &str, i: usize) -> (out: String)
    ensures
        out@ == unique_candidate_spec(base@, i as nat),
{
    let stem = sibling_stem_of(base);
    let mut name = chars_of(stem.as_str());
    name.push('-');
    let digits = decimal_chars(i);
    push_chars(&mut name, &digits);
    match extension_of(base) {
        Some(e) => {
            name.push('.');
            let ec = chars_of(e.as_str());
            push_chars(&mut name, &ec);
        },
        None => {},
    }
    let name_str = string_from_chars(name.as_slice());
    let dir = sibling_dir_of(base);
    join_path(dir.as_str(), name_str.as_str())
}

/// Chooses the path for a new entry at `base`: `base` where it is free,
/// else the first free alternative among `stem-1.ext` .. `stem-99.ext`,
/// else `base`. `probes[j]` tells whether alternative `j + 1` exists; the
/// caller probes in order and may stop at the first free one.
pub fn unique_path(base: &str, base_exists: bool, probes: &[bool]) -> (out: String)
    ensures
        out@ == unique_path_spec(base@, base_exists, probes@),
{
    if !base_exists {
        return base.to_owned();
    }
    let mut j: usize = 0;
    while j < probes.len() && j < 99
        invariant
            base_exists,
            j <= 99,
            j <= probes@.len(),
            first_free(probes@, 0) == first_free(probes@, j as int),
        decreases 99 - j,
    {
        if !probes[j] {
            assert(first_free(probes@, j as int) == Some(j as int));
            let out = unique_path_candidate(base, j + 1);
            assert(unique_path_spec(base@, base_exists, probes@) == unique_candidate_spec(base@, (j + 1) as nat));
            return out;
        }
        j = j + 1;
    }
    assert(first_free(probes@, j as int) is None);
    base.to_owned()
}

/// Where a duplicate of `src` goes: `stem copy.ext` beside it.
pub open spec fn duplicate_target_spec(src: Seq<char>) -> Seq<char> {
    path_join(sibling_dir(src), copy_name(sibling_stem(src), path_extension(src)))
}

/// The base path for a duplicate of `src` (before uniqueness is applied).
pub fn duplicate_target(src: &str) -> (out: String)
    ensures
        out@ == duplicate_target_spec(src@),
{
    let stem = sibling_stem_of(src);
    let mut name = chars_of(stem.as_str());
    name.push(' ');
    name.push('c');
    name.push('o');
    name.push('p');
    name.push('y');
    assert(name@ =~= stem@ + seq![' ', 'c', 'o', 'p', 'y']);
    match extension_of(src) {
        Some(e) => {
            name.push('.');
            let ec = chars_of(e.as_str());
            push_chars(&mut name, &ec);
        },
        None => {},
    }
    let name_str = string_from_chars(name.as_slice());
    let dir = sibling_dir_of(src);
    join_path(dir.as_str(), name_str.as_str())
}

/// A path with the home directory written as `~`.
pub open spec fn shorten_path_spec(path: Seq<char>, home: Seq<char>) -> Seq<char> {
    if home.len() > 0 && home.len() <= path.len() && path.take(home.len() as int) == home {
        seq!['~'] + path.skip(home.len() as int)
    } else {
        path
    }
}

/// Writes the home directory prefix of `path` as `~`; `home` is the
/// value of `$HOME` (empty when unset).
pub fn shorten_path(path: &str, home: &str) -> (out: String)
    ensures
        out@ == shorten_path_spec(path@, home@),
{
    let p = chars_of(path);
    let h = chars_of(home);
    if h.len() == 0 || h.len() > p.len() {
        return path.to_owned();
    }
    let mut i: usize = 0;
    while i < h.len()
        invariant
            p@ == path@,
            h@ == home@,
            h@.len() <= p@.len(),
            i <= h@.len(),
            forall|j: int| 0 <= j < i ==> p@[j] == h@[j],
        decreases h@.len() - i,
    {
        if p[i] != h[i] {
            assert(p@.take(h@.len() as int)[i as int] != h@[i as int]);
            return path.to_owned();
        }
        i = i + 1;
    }
    assert(p@.take(h@.len() as int) =~= h@);
    let mut out: Vec<char> = Vec::new();
    out.push('~');
    let mut k = h.len();
    while k < p.len()
        invariant
            h@.len() <= k <= p@.len(),
            out@ == seq!['~'] + p@.subrange(h@.len() as int, k as int),
        decreases p@.len() - k,
    {
        out.push(p[k]);
        assert(seq!['~'] + p@.subrange(h@.len() as int, k + 1) =~= (seq!['~'] + p@.subrange(h@.len() as int, k as int)).push(p@[k as int]));
        k = k + 1;
    }
    assert(p@.subrange(h@.len() as int, p@.len() as int) =~= p@.skip(h@.len() as int));
    string_from_chars(out.as_slice())
}

/// `s` with every `"` written as `\"`.
pub open spec fn escape_quotes(s: Seq<char>) -> Seq<char>
    decreases s.len(),
{
    if s.len() == 0 {
        seq![]
    } else if s.last() == '"' {
        escape_quotes(s.drop_last()) + seq!['\\', '"']
    } else {
        escape_quotes(s.drop_last()).push(s.last())
    }
}

/// The AppleScript that moves `path` to the Trash through the Finder.
pub fn finder_trash_script(path: &str) -> (script: String)
    ensures
        script@ == "tell application \"Finder\" to delete POSIX file \""@ + escape_quotes(path@) + seq!['"'],
{
    let p = chars_of(path);
    let mut out = chars_of("tell application \"Finder\" to delete POSIX file \"");
    let ghost head = out@;
    let mut i: usize = 0;
    while i < p.len()
        invariant
            i <= p@.len(),
            p@ == path@,
            out@ == head + escape_quotes(p@.take(i as int)),
        decreases p@.len() - i,
    {
        assert(p@.take(i + 1).drop_last() =~= p@.take(i as int));
        if p[i] == '"' {
            out.push('\\');
            out.push('"');
        } else {
            out.push(p[i]);
        }
        i = i + 1;
    }
    out.push('"');
    assert(p@.take(p@.len() as int) =~= p@);
    string_from_chars(out.as_slice())
}

} // verus!
