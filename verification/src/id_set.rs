//! A set of entry ids kept as an ascending vector (the tree's marked
//! entries, walked in id order).

use vstd::prelude::*;

verus! {

pub open spec fn strictly_ascending(v: Seq<u64>) -> bool {
    forall|a: int, b: int| 0 <= a < b < v.len() ==> v[a] < v[b]
}

/// Whether `x` is in the ascending vector `v`.
pub fn ids_contain(v: &Vec<u64>, x: u64) -> (r: bool)
    ensures
        r == v@.contains(x),
{
    let mut i: usize = 0;
    while i < v.len()
        invariant
            i <= v@.len(),
            forall|j: int| 0 <= j < i ==> v@[j] != x,
        decreases v@.len() - i,
    {
        if v[i] == x {
            return true;
        }
        i = i + 1;
    }
    false
}

/// Inserts `x`, keeping the vector ascending.
pub fn ids_insert(v: &mut Vec<u64>, x: u64)
    requires
        strictly_ascending(old(v)@),
    ensures
        strictly_ascending(final(v)@),
        final(v)@.to_set() == old(v)@.to_set().insert(x),
{
    let mut p: usize = 0;
    while p < v.len() && v[p] < x
        invariant
            p <= v@.len(),
            forall|j: int| 0 <= j < p ==> v@[j] < x,
        decreases v@.len() - p,
    {
        p = p + 1;
    }
    if p < v.len() && v[p] == x {
        assert(v@.to_set().insert(x) =~= v@.to_set());
        return;
    }
    let ghost before = v@;
    v.insert(p, x);
    assert forall|a: int, b: int| 0 <= a < b < v@.len() implies v@[a] < v@[b] by {
        if b < p {
            assert(v@[a] == before[a] && v@[b] == before[b]);
        } else if b == p {
            assert(v@[a] == before[a]);
        } else if a == p {
            assert(v@[b] == before[b - 1]);
            assert(before[p as int] >= x);
            if b - 1 > p {
                assert(before[p as int] < before[b - 1]);
            }
        } else if a < p {
            assert(v@[a] == before[a] && v@[b] == before[b - 1]);
        } else {
            assert(v@[a] == before[a - 1] && v@[b] == before[b - 1]);
        }
    }
    assert(v@.to_set() =~= before.to_set().insert(x)) by {
        assert forall|y: u64| v@.to_set().contains(y) implies before.to_set().insert(x).contains(y) by {
            let a = choose|a: int| 0 <= a < v@.len() && v@[a] == y;
            if a < p {
                assert(before[a] == y);
            } else if a > p {
                assert(before[a - 1] == y);
            }
        }
        assert forall|y: u64| before.to_set().insert(x).contains(y) implies v@.to_set().contains(y) by {
            if y == x {
                assert(v@[p as int] == x);
            } else {
                let a = choose|a: int| 0 <= a < before.len() && before[a] == y;
                if a < p {
                    assert(v@[a] == y);
                } else {
                    assert(v@[a + 1] == y);
                }
            }
        }
    }
}

/// Removes `x`, keeping the vector ascending.
pub fn ids_remove(v: &mut Vec<u64>, x: u64)
    requires
        strictly_ascending(old(v)@),
    ensures
        strictly_ascending(final(v)@),
        final(v)@.to_set() == old(v)@.to_set().remove(x),
{
    let mut p: usize = 0;
    while p < v.len() && v[p] != x
        invariant
            p <= v@.len(),
            forall|j: int| 0 <= j < p ==> v@[j] != x,
        decreases v@.len() - p,
    {
        p = p + 1;
    }
    if p == v.len() {
        assert(v@.to_set().remove(x) =~= v@.to_set());
        return;
    }
    let ghost before = v@;
    v.remove(p);
    assert forall|a: int, b: int| 0 <= a < b < v@.len() implies v@[a] < v@[b] by {
        if b < p {
            assert(v@[a] == before[a] && v@[b] == before[b]);
        } else if a < p {
            assert(v@[a] == before[a] && v@[b] == before[b + 1]);
        } else {
            assert(v@[a] == before[a + 1] && v@[b] == before[b + 1]);
        }
    }
    assert(v@.to_set() =~= before.to_set().remove(x)) by {
        assert forall|y: u64| v@.to_set().contains(y) implies before.to_set().remove(x).contains(y) by {
            let a = choose|a: int| 0 <= a < v@.len() && v@[a] == y;
            if a < p {
                assert(before[a] == y);
            } else {
                assert(before[a + 1] == y);
                assert(before[p as int] == x);
            }
        }
        assert forall|y: u64| before.to_set().remove(x).contains(y) implies v@.to_set().contains(y) by {
            let a = choose|a: int| 0 <= a < before.len() && before[a] == y;
            if a < p {
                assert(v@[a] == y);
            } else {
                assert(a != p);
                assert(v@[a - 1] == y);
            }
        }
    }
}

} // verus!
