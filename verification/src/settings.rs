//! The settings views' rules: font sizes and the font family list.

use vstd::prelude::*;

use crate::sorting::{is_stable_order, keys_view, stable_sort_order};
use crate::text::{chars_of, lowercase, lowercase_of, parse_i64, parse_i64_spec, str_eq};

verus! {

/// The font size used where none is stored or typed.
pub const DEFAULT_FONT_SIZE: i64 = 13;

pub const MIN_FONT_SIZE: i64 = 8;

pub const MAX_FONT_SIZE: i64 = 32;

/// A typed font size: its `i64` value, or 13 where it does not parse.
pub fn font_size_from_input(text: &str) -> (size: i64)
    ensures
        size as int == match parse_i64_spec(text@) {
            Some(v) => v,
            None => 13,
        },
{
    match parse_i64(&chars_of(text)) {
        Some(v) => v,
        None => DEFAULT_FONT_SIZE,
    }
}

/// A stored font size, or 13.
pub fn stored_font_size(stored: Option<i64>) -> (size: i64)
    ensures
        size == match stored {
            Some(v) => v,
            None => 13,
        },
{
    match stored {
        Some(v) => v,
        None => DEFAULT_FONT_SIZE,
    }
}

pub open spec fn clamp_spec(v: int, lo: int, hi: int) -> int {
    if v < lo {
        lo
    } else if v > hi {
        hi
    } else {
        v
    }
}

/// The size the stepper buttons store: one point smaller or larger, kept
/// within `8 ..= 32`.
pub fn stepped_font_size(current: i64, larger: bool) -> (size: i64)
    requires
        larger ==> current < i64::MAX,
        !larger ==> current > i64::MIN,
    ensures
        size as int == clamp_spec(
            if larger {
                current + 1
            } else {
                current - 1
            },
            8,
            32,
        ),
{
    let v = if larger {
        current + 1
    } else {
        current - 1
    };
    if v < MIN_FONT_SIZE {
        MIN_FONT_SIZE
    } else if v > MAX_FONT_SIZE {
        MAX_FONT_SIZE
    } else {
        v
    }
}

/// Neighbouring equal items collapsed to one.
pub open spec fn dedup_adjacent(s: Seq<Seq<char>>) -> Seq<Seq<char>>
    decreases s.len(),
{
    if s.len() == 0 {
        seq![]
    } else if s.len() > 1 && s[s.len() - 2] == s.last() {
        dedup_adjacent(s.drop_last())
    } else {
        dedup_adjacent(s.drop_last()).push(s.last())
    }
}

pub open spec fn strings_of(v: Seq<String>) -> Seq<Seq<char>> {
    v.map_values(|s: String| s@)
}

pub open spec fn lowered(v: Seq<String>) -> Seq<Seq<char>> {
    v.map_values(|s: String| lowercase(s@))
}

/// The font family list: sorted by lower-cased name (ties keep their
/// order), with repeated neighbours dropped.
pub fn sorted_font_names(names: &Vec<String>) -> (out: Vec<String>)
    ensures
        exists|order: Seq<usize>|
            is_stable_order(lowered(names@), order) && strings_of(out@) == dedup_adjacent(
                order.map_values(|i: usize| names@[i as int]@),
            ),
{
    let mut keys: Vec<Vec<char>> = Vec::new();
    let mut i: usize = 0;
    while i < names.len()
        invariant
            i <= names@.len(),
            keys@.len() == i,
            forall|j: int| 0 <= j < i ==> #[trigger] keys@[j]@ == lowercase(names@[j]@),
        decreases names@.len() - i,
    {
        let low = lowercase_of(names[i].as_str());
        keys.push(chars_of(low.as_str()));
        i = i + 1;
    }
    assert(keys_view(keys@) =~= lowered(names@));
    let order = stable_sort_order(&keys);
    let ghost sorted = order@.map_values(|i: usize| names@[i as int]@);
    let mut out: Vec<String> = Vec::new();
    let mut k: usize = 0;
    while k < order.len()
        invariant
            k <= order@.len(),
            order@.len() == names@.len(),
            forall|a: int| 0 <= a < order@.len() ==> #[trigger] order@[a] < names@.len(),
            sorted == order@.map_values(|i: usize| names@[i as int]@),
            strings_of(out@) == dedup_adjacent(sorted.take(k as int)),
            k > 0 ==> out@.len() > 0 && out@.last()@ == sorted[k - 1],
        decreases order@.len() - k,
    {
        let ghost t1 = sorted.take(k + 1);
        assert(t1.drop_last() =~= sorted.take(k as int));
        let name = &names[order[k]];
        let dup = k > 0 && str_eq(out[out.len() - 1].as_str(), name.as_str());
        if !dup {
            let ghost prev = out@;
            out.push(name.clone());
            assert(strings_of(out@) =~= strings_of(prev).push(name@));
        }
        k = k + 1;
    }
    assert(sorted.take(order@.len() as int) =~= sorted);
    out
}

/// `needle` occurs in `hay`.
pub open spec fn has_substring(hay: Seq<char>, needle: Seq<char>) -> bool {
    exists|i: int| 0 <= i && i + needle.len() <= hay.len() && #[trigger] hay.subrange(i, i + needle.len()) == needle
}

fn contains_chars(hay: &Vec<char>, needle: &Vec<char>) -> (r: bool)
    ensures
        r == has_substring(hay@, needle@),
{
    if needle.len() > hay.len() {
        return false;
    }
    if needle.len() == 0 {
        assert(has_substring(hay@, needle@)) by {
            assert(hay@.subrange(0int, 0int + needle@.len()) =~= needle@);
        }
        return true;
    }
    let last = hay.len() - needle.len();
    let mut i: usize = 0;
    while i <= last
        invariant
            0 < needle@.len() <= hay@.len(),
            last == hay@.len() - needle@.len(),
            last < hay.len(),
            i <= last + 1,
            forall|p: int| 0 <= p < i ==> #[trigger] hay@.subrange(p, p + needle@.len()) != needle@,
        decreases last + 1 - i,
    {
        let mut j: usize = 0;
        while j < needle.len() && hay[i + j] == needle[j]
            invariant
                i <= last,
                last == hay@.len() - needle@.len(),
                i + needle@.len() <= hay@.len(),
                last < hay.len(),
                j <= needle@.len(),
                forall|q: int| 0 <= q < j ==> hay@[i + q] == needle@[q],
            decreases needle@.len() - j,
        {
            j = j + 1;
        }
        if j == needle.len() {
            assert(hay@.subrange(i as int, i + needle@.len()) =~= needle@);
            return true;
        }
        assert(hay@.subrange(i as int, i + needle@.len())[j as int] != needle@[j as int]);
        i = i + 1;
    }
    assert forall|p: int| 0 <= p && p + needle@.len() <= hay@.len() implies #[trigger] hay@.subrange(p, p + needle@.len())
        != needle@ by {
        assert(p < i);
    }
    false
}

/// A font name is listed for a filter: the filter is empty, or the
/// lower-cased name contains the lower-cased filter.
pub open spec fn font_matches(name: Seq<char>, filter: Seq<char>) -> bool {
    filter.len() == 0 || has_substring(lowercase(name), lowercase(filter))
}

/// The font names the dropdown lists for a filter, by position, in order.
pub fn filter_font_names(names: &Vec<String>, filter: &str) -> (shown: Vec<usize>)
    ensures
        forall|k: int| 0 <= k < shown@.len() ==> #[trigger] shown@[k] < names@.len(),
        forall|a: int, b: int| 0 <= a < b < shown@.len() ==> shown@[a] < shown@[b],
        forall|i: int|
            0 <= i < names@.len() ==> (shown@.contains(i as usize) <==> #[trigger] font_matches(names@[i]@, filter@)),
{
    let needle = chars_of(lowercase_of(filter).as_str());
    let empty = filter.is_empty();
    let mut out: Vec<usize> = Vec::new();
    let mut i: usize = 0;
    while i < names.len()
        invariant
            i <= names@.len(),
            empty == (filter@.len() == 0),
            needle@ == lowercase(filter@),
            forall|k: int| 0 <= k < out@.len() ==> #[trigger] out@[k] < i,
            forall|a: int, b: int| 0 <= a < b < out@.len() ==> out@[a] < out@[b],
            forall|j: int| 0 <= j < i ==> (out@.contains(j as usize) <==> #[trigger] font_matches(names@[j]@, filter@)),
        decreases names@.len() - i,
    {
        let keep = if empty {
            true
        } else {
            let low = chars_of(lowercase_of(names[i].as_str()).as_str());
            contains_chars(&low, &needle)
        };
        assert(keep == font_matches(names@[i as int]@, filter@));
        let ghost prev = out@;
        if keep {
            out.push(i);
            assert(out@ == prev.push(i));
        }
        assert forall|j: int| 0 <= j < i + 1 implies (out@.contains(j as usize) <==> #[trigger] font_matches(
            names@[j]@,
            filter@,
        )) by {
            if j < i {
                assert(prev.contains(j as usize) <==> font_matches(names@[j]@, filter@));
                assert(out@.contains(j as usize) <==> prev.contains(j as usize)) by {
                    if out@.contains(j as usize) {
                        let m = choose|m: int| 0 <= m < out@.len() && out@[m] == j as usize;
                        if m < prev.len() {
                            assert(out@[m] == prev[m]);
                        }
                    }
                    if prev.contains(j as usize) {
                        let m = choose|m: int| 0 <= m < prev.len() && prev[m] == j as usize;
                        assert(out@[m] == prev[m]);
                    }
                }
            } else {
                assert(out@.contains(j as usize) <==> keep) by {
                    if keep {
                        assert(out@[out@.len() - 1] == j as usize);
                    }
                    if out@.contains(j as usize) {
                        let m = choose|m: int| 0 <= m < out@.len() && out@[m] == j as usize;
                        if m < prev.len() {
                            assert(out@[m] == prev[m]);
                        }
                    }
                }
            }
        }
        i = i + 1;
    }
    out
}

} // verus!
