//! Restoring the editor's scratch files when the focus view opens or the
//! focused instance changes.

use vstd::prelude::*;

use crate::sorting::{is_stable_order, stable_sort_order};
use crate::text::{chars_of, str_eq};

verus! {

/// A scratch file's name: it starts with `Untitled-`.
pub open spec fn is_scratch_name(name: Seq<char>) -> bool {
    name.len() >= 9 && name.take(9) == "Untitled-"@
}

/// `p` is one of the open tab paths.
pub open spec fn is_open(open: Seq<String>, p: Seq<char>) -> bool {
    exists|j: int| 0 <= j < open.len() && #[trigger] open[j]@ == p
}

/// The paths of the scratch files among `entries` (name, path) that no
/// open tab shows, in listing order.
pub open spec fn restorable(open: Seq<String>, entries: Seq<(String, String)>) -> Seq<Seq<char>>
    decreases entries.len(),
{
    if entries.len() == 0 {
        seq![]
    } else {
        let rest = restorable(open, entries.drop_last());
        let (name, path) = entries.last();
        if is_scratch_name(name@) && !is_open(open, path@) {
            rest.push(path@)
        } else {
            rest
        }
    }
}

fn is_scratch_name_exec(name: &str) -> (r: bool)
    ensures
        r == is_scratch_name(name@),
{
    let cs = chars_of(name);
    let prefix = chars_of("Untitled-");
    proof {
        reveal_strlit("Untitled-");
    }
    assert(prefix@.len() == 9);
    if cs.len() < 9 {
        return false;
    }
    let mut i: usize = 0;
    while i < 9
        invariant
            i <= 9,
            cs@.len() >= 9,
            cs@ == name@,
            prefix@ == "Untitled-"@,
            prefix@.len() == 9,
            forall|j: int| 0 <= j < i ==> cs@[j] == prefix@[j],
        decreases 9 - i,
    {
        if cs[i] != prefix[i] {
            assert(cs@.take(9)[i as int] != "Untitled-"@[i as int]);
            return false;
        }
        i = i + 1;
    }
    assert(cs@.take(9) =~= "Untitled-"@);
    true
}

fn is_open_exec(open: &[String], p: &str) -> (r: bool)
    ensures
        r == is_open(open@, p@),
{
    let mut j: usize = 0;
    while j < open.len()
        invariant
            j <= open@.len(),
            forall|k: int| 0 <= k < j ==> open@[k]@ != p@,
        decreases open@.len() - j,
    {
        if str_eq(open[j].as_str(), p) {
            return true;
        }
        j = j + 1;
    }
    false
}

/// The scratch files to open as tabs: those named `Untitled-…` whose path
/// no tab shows yet, sorted by path.
pub fn scratch_paths_to_restore(open: &[String], entries: &[(String, String)]) -> (p: Vec<String>)
    ensures
        exists|order: Seq<usize>|
            is_stable_order(restorable(open@, entries@), order) && p@.map_values(|s: String| s@) == order.map_values(
                |i: usize| restorable(open@, entries@)[i as int],
            ),
{
    let mut kept: Vec<String> = Vec::new();
    let mut i: usize = 0;
    while i < entries.len()
        invariant
            i <= entries@.len(),
            kept@.map_values(|s: String| s@) == restorable(open@, entries@.take(i as int)),
        decreases entries@.len() - i,
    {
        let ghost t1 = entries@.take(i + 1);
        assert(t1.drop_last() =~= entries@.take(i as int));
        assert(t1.last() == entries@[i as int]);
        let name = entries[i].0.as_str();
        let path = entries[i].1.as_str();
        if is_scratch_name_exec(name) && !is_open_exec(open, path) {
            let ghost prev = kept@;
            kept.push(path.to_owned());
            assert(kept@.map_values(|s: String| s@) =~= prev.map_values(|s: String| s@).push(path@));
        }
        i = i + 1;
    }
    assert(entries@.take(entries@.len() as int) =~= entries@);
    let ghost all = restorable(open@, entries@);
    let mut keys: Vec<Vec<char>> = Vec::new();
    let mut k: usize = 0;
    while k < kept.len()
        invariant
            k <= kept@.len(),
            kept@.map_values(|s: String| s@) == all,
            keys@.len() == k,
            forall|j: int| 0 <= j < k ==> #[trigger] keys@[j]@ == all[j],
        decreases kept@.len() - k,
    {
        keys.push(chars_of(kept[k].as_str()));
        k = k + 1;
    }
    assert(crate::sorting::keys_view(keys@) =~= all);
    let order = stable_sort_order(&keys);
    let mut out: Vec<String> = Vec::new();
    let mut m: usize = 0;
    while m < order.len()
        invariant
            m <= order@.len(),
            is_stable_order(all, order@),
            kept@.map_values(|s: String| s@) == all,
            out@.len() == m,
            out@.map_values(|s: String| s@) == order@.take(m as int).map_values(|i: usize| all[i as int]),
        decreases order@.len() - m,
    {
        let ghost prev = out@;
        let idx = order[m];
        assert(idx < all.len());
        out.push(kept[idx].clone());
        assert(out@[m as int]@ == kept@[idx as int]@);
        assert(kept@.map_values(|s: String| s@)[idx as int] == all[idx as int]);
        assert forall|j: int| 0 <= j < m + 1 implies #[trigger] out@[j]@ == all[order@[j] as int] by {
            if j < m {
                assert(out@[j] == prev[j]);
                assert(prev.map_values(|s: String| s@)[j] == order@.take(m as int).map_values(|i: usize| all[i as int])[j]);
            }
        }
        assert(out@.map_values(|s: String| s@) =~= order@.take(m + 1).map_values(|i: usize| all[i as int]));
        m = m + 1;
    }
    assert(order@.take(order@.len() as int) =~= order@);
    out
}

/// The editor panel hides itself when it is shown with no tab open.
pub fn editor_should_auto_hide(tab_count: usize, editor_visible: bool) -> (b: bool)
    ensures
        b == (tab_count == 0 && editor_visible),
{
    tab_count == 0 && editor_visible
}

} // verus!
