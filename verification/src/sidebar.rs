//! What the sidebar, the top bar and the activity bar show of the
//! instance list: labels, locations, positions and the token total.

use vstd::prelude::*;

use crate::paths::{opt_view, shorten_path, shorten_path_spec};
use crate::text::{chars_of, decimal_chars, decimal_spec, push_chars, str_eq, string_from_chars};

verus! {

/// The label of the instance at 1-based position `num`: its title, or
/// `Instance N`.
pub open spec fn instance_label_spec(title: Option<Seq<char>>, num: nat) -> Seq<char> {
    match title {
        Some(t) => t,
        None => seq!['I', 'n', 's', 't', 'a', 'n', 'c', 'e', ' '] + decimal_spec(num),
    }
}

pub fn instance_label(title: Option<String>, num: usize) -> (label: String)
    ensures
        label@ == instance_label_spec(opt_view(title), num as nat),
{
    match title {
        Some(t) => t,
        None => {
            let mut cs = chars_of("Instance ");
            proof {
                reveal_strlit("Instance ");
            }
            let digits = decimal_chars(num);
            push_chars(&mut cs, &digits);
            string_from_chars(cs.as_slice())
        },
    }
}

/// Where an instance is shown to be: its working folder, else its
/// project's folder, else `~`, with the home folder written as `~`.
pub open spec fn instance_location_spec(
    cwd: Option<Seq<char>>,
    project_path: Option<Seq<char>>,
    home: Seq<char>,
) -> Seq<char> {
    let p = match cwd {
        Some(c) => c,
        None => match project_path {
            Some(pp) => pp,
            None => seq!['~'],
        },
    };
    shorten_path_spec(p, home)
}

pub fn instance_location(cwd: Option<&str>, project_path: Option<&str>, home: &str) -> (loc: String)
    ensures
        loc@ == instance_location_spec(
            match cwd {
                Some(c) => Some(c@),
                None => None,
            },
            match project_path {
                Some(p) => Some(p@),
                None => None,
            },
            home@,
        ),
{
    match cwd {
        Some(c) => shorten_path(c, home),
        None => match project_path {
            Some(p) => shorten_path(p, home),
            None => {
                proof {
                    reveal_strlit("~");
                }
                shorten_path("~", home)
            },
        },
    }
}

/// The position of the first instance with id `id`.
pub open spec fn first_position(ids: Seq<Seq<char>>, id: Seq<char>, i: int) -> bool {
    &&& 0 <= i < ids.len()
    &&& ids[i] == id
    &&& forall|j: int| 0 <= j < i ==> ids[j] != id
}

/// The 0-based position of the focused instance in the list, if it is
/// there (the top bar shows it 1-based).
pub fn focused_position(ids: &Vec<String>, focused: &str) -> (pos: Option<usize>)
    ensures
        match pos {
            Some(i) => first_position(ids@.map_values(|s: String| s@), focused@, i as int),
            None => forall|j: int| 0 <= j < ids@.len() ==> ids@[j]@ != focused@,
        },
{
    let mut i: usize = 0;
    while i < ids.len()
        invariant
            i <= ids@.len(),
            forall|j: int| 0 <= j < i ==> ids@[j]@ != focused@,
        decreases ids@.len() - i,
    {
        if str_eq(ids[i].as_str(), focused) {
            return Some(i);
        }
        i = i + 1;
    }
    None
}

/// The instance that the shortcut for number `n` focuses: position
/// `n - 1`, where `n` is from 1 to the number of instances.
pub fn shortcut_index(n: usize, count: usize) -> (idx: Option<usize>)
    ensures
        idx == if 1 <= n && n <= count {
            Some((n - 1) as usize)
        } else {
            None::<usize>
        },
{
    if n >= 1 && n <= count {
        Some(n - 1)
    } else {
        None
    }
}

pub open spec fn sum_tokens(tokens: Seq<i64>) -> int
    decreases tokens.len(),
{
    if tokens.len() == 0 {
        0
    } else {
        sum_tokens(tokens.drop_last()) + tokens.last()
    }
}

/// The tokens used by all instances together (the running total must
/// stay within `i64`, as the summing does not wrap).
pub fn total_tokens(tokens: &Vec<i64>) -> (total: i64)
    requires
        forall|k: int| 0 <= k <= tokens@.len() ==> i64::MIN <= #[trigger] sum_tokens(tokens@.take(k)) <= i64::MAX,
    ensures
        total == sum_tokens(tokens@),
{
    let mut acc: i64 = 0;
    let mut i: usize = 0;
    assert(tokens@.take(0) =~= seq![]);
    while i < tokens.len()
        invariant
            i <= tokens@.len(),
            acc == sum_tokens(tokens@.take(i as int)),
            forall|k: int| 0 <= k <= tokens@.len() ==> i64::MIN <= #[trigger] sum_tokens(tokens@.take(k)) <= i64::MAX,
        decreases tokens@.len() - i,
    {
        let ghost t1 = tokens@.take(i + 1);
        assert(t1.drop_last() =~= tokens@.take(i as int));
        assert(i64::MIN <= sum_tokens(t1) <= i64::MAX);
        acc = acc + tokens[i];
        i = i + 1;
    }
    assert(tokens@.take(tokens@.len() as int) =~= tokens@);
    acc
}

} // verus!
