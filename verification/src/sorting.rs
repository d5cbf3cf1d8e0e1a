//! Ordering names the way the file tree lists them: a stable sort by a
//! string key.

use vstd::prelude::*;

verus! {

/// Lexicographic order on character sequences, the order of `str`'s `Ord`
/// (UTF-8 byte order and code point order agree).
pub open spec fn lex_le(a: Seq<char>, b: Seq<char>) -> bool
    decreases a.len(),
{
    if a.len() == 0 {
        true
    } else if b.len() == 0 {
        false
    } else if a[0] != b[0] {
        a[0] < b[0]
    } else {
        lex_le(a.drop_first(), b.drop_first())
    }
}

pub proof fn lemma_lex_total(a: Seq<char>, b: Seq<char>)
    ensures
        lex_le(a, b) || lex_le(b, a),
    decreases a.len(),
{
    if a.len() > 0 && b.len() > 0 && a[0] == b[0] {
        lemma_lex_total(a.drop_first(), b.drop_first());
    }
}

pub proof fn lemma_lex_trans(a: Seq<char>, b: Seq<char>, c: Seq<char>)
    requires
        lex_le(a, b),
        lex_le(b, c),
    ensures
        lex_le(a, c),
    decreases a.len(),
{
    if a.len() > 0 && b.len() > 0 && c.len() > 0 && a[0] == b[0] && b[0] == c[0] {
        lemma_lex_trans(a.drop_first(), b.drop_first(), c.drop_first());
    }
}

/// Entry `i` comes before entry `j` in a stable sort by `keys`: a smaller
/// key, or an equal key and an earlier position.
pub open spec fn key_before(keys: Seq<Seq<char>>, i: int, j: int) -> bool {
    &&& lex_le(keys[i], keys[j])
    &&& lex_le(keys[j], keys[i]) ==> i < j
}

/// `order` lists every position of `keys` once, in stable sorted order.
pub open spec fn is_stable_order(keys: Seq<Seq<char>>, order: Seq<usize>) -> bool {
    &&& order.len() == keys.len()
    &&& forall|a: int| 0 <= a < order.len() ==> order[a] < keys.len()
    &&& forall|a: int, b: int| 0 <= a < b < order.len() ==> order[a] != order[b]
    &&& forall|a: int, b: int|
        0 <= a < b < order.len() ==> key_before(keys, #[trigger] order[a] as int, #[trigger] order[b] as int)
    &&& forall|k: int| 0 <= k < keys.len() ==> #[trigger] order.contains(k as usize)
}

pub open spec fn keys_view(keys: Seq<Vec<char>>) -> Seq<Seq<char>> {
    keys.map_values(|k: Vec<char>| k@)
}

/// Whether `a <= b` lexicographically.
pub fn lex_le_exec(a: &Vec<char>, b: &Vec<char>) -> (r: bool)
    ensures
        r == lex_le(a@, b@),
{
    let mut i: usize = 0;
    assert(a@.skip(0) =~= a@ && b@.skip(0) =~= b@);
    while i < a.len() && i < b.len() && a[i] == b[i]
        invariant
            i <= a@.len(),
            i <= b@.len(),
            lex_le(a@, b@) == lex_le(a@.skip(i as int), b@.skip(i as int)),
        decreases a@.len() - i,
    {
        assert(a@.skip(i as int).drop_first() =~= a@.skip(i + 1));
        assert(b@.skip(i as int).drop_first() =~= b@.skip(i + 1));
        i = i + 1;
    }
    if i == a.len() {
        true
    } else if i == b.len() {
        false
    } else {
        assert(a@.skip(i as int)[0] == a@[i as int]);
        assert(b@.skip(i as int)[0] == b@[i as int]);
        a[i] < b[i]
    }
}

/// The positions of `keys` in stable sorted order.
pub fn stable_sort_order(keys: &Vec<Vec<char>>) -> (order: Vec<usize>)
    ensures
        is_stable_order(keys_view(keys@), order@),
{
    let ghost ks = keys_view(keys@);
    let mut out: Vec<usize> = Vec::new();
    let mut i: usize = 0;
    while i < keys.len()
        invariant
            ks == keys_view(keys@),
            i <= keys@.len(),
            out@.len() == i,
            forall|a: int| 0 <= a < out@.len() ==> out@[a] < i,
            forall|a: int, b: int| 0 <= a < b < out@.len() ==> out@[a] != out@[b],
            forall|a: int, b: int|
                0 <= a < b < out@.len() ==> key_before(ks, #[trigger] out@[a] as int, #[trigger] out@[b] as int),
            forall|k: int| 0 <= k < i ==> #[trigger] out@.contains(k as usize),
        decreases keys@.len() - i,
    {
        let mut p = out.len();
        while p > 0 && !lex_le_exec(&keys[out[p - 1]], &keys[i])
            invariant
                ks == keys_view(keys@),
                i < keys@.len(),
                p <= out@.len(),
                forall|a: int| 0 <= a < out@.len() ==> out@[a] < i,
                forall|q: int| p <= q < out@.len() ==> !lex_le(ks[out@[q] as int], ks[i as int]),
            decreases p,
        {
            p = p - 1;
        }
        proof {
            assert forall|a: int| 0 <= a < p implies key_before(ks, out@[a] as int, i as int) by {
                if a < p - 1 {
                    assert(key_before(ks, out@[a] as int, out@[p - 1] as int));
                    lemma_lex_trans(ks[out@[a] as int], ks[out@[p - 1] as int], ks[i as int]);
                }
            }
            assert forall|q: int| p <= q < out@.len() implies key_before(ks, i as int, out@[q] as int) by {
                lemma_lex_total(ks[out@[q] as int], ks[i as int]);
            }
        }
        let ghost before = out@;
        out.insert(p, i);
        proof {
            assert forall|a: int, b: int| 0 <= a < b < out@.len() implies key_before(
                ks,
                #[trigger] out@[a] as int,
                #[trigger] out@[b] as int,
            ) by {
                if b < p {
                    assert(out@[a] == before[a] && out@[b] == before[b]);
                } else if b == p {
                    assert(out@[a] == before[a]);
                } else if a == p {
                    assert(out@[b] == before[b - 1]);
                } else if a < p {
                    assert(out@[a] == before[a] && out@[b] == before[b - 1]);
                } else {
                    assert(out@[a] == before[a - 1] && out@[b] == before[b - 1]);
                }
            }
            assert forall|a: int, b: int| 0 <= a < b < out@.len() implies out@[a] != out@[b] by {
                if b < p {
                } else if b == p {
                    assert(out@[a] == before[a]);
                } else if a == p {
                    assert(out@[b] == before[b - 1]);
                } else if a < p {
                    assert(out@[a] == before[a] && out@[b] == before[b - 1]);
                } else {
                    assert(out@[a] == before[a - 1] && out@[b] == before[b - 1]);
                }
            }
            assert forall|k: int| 0 <= k < i + 1 implies #[trigger] out@.contains(k as usize) by {
                if k == i {
                    assert(out@[p as int] == i);
                } else {
                    assert(before.contains(k as usize));
                    let a = choose|a: int| 0 <= a < before.len() && before[a] == k as usize;
                    if a < p {
                        assert(out@[a] == before[a]);
                    } else {
                        assert(out@[a + 1] == before[a]);
                    }
                }
            }
            assert forall|a: int| 0 <= a < out@.len() implies out@[a] < i + 1 by {
                if a < p {
                    assert(out@[a] == before[a]);
                } else if a > p {
                    assert(out@[a] == before[a - 1]);
                }
            }
        }
        i = i + 1;
    }
    out
}

} // verus!
