//! Resolving a name against the known document slugs: by exact equality, or
//! else as the final path segment of a slug that has directories.

use vstd::prelude::*;
use crate::text::{ends_with, str_eq, ends_with_exec, push_str};

verus! {

/// `slug` names `name` as its final path segment: it ends with `/` and `name`.
pub open spec fn ends_in_segment(slug: Seq<char>, name: Seq<char>) -> bool {
    ends_with(slug, seq!['/'] + name)
}

/// Index of the first slug at or after `i` equal to `name`; `slugs.len()` if none.
pub open spec fn first_exact(slugs: Seq<Seq<char>>, name: Seq<char>, i: int) -> int
    decreases slugs.len() - i,
{
    if i < 0 || i >= slugs.len() {
        slugs.len() as int
    } else if slugs[i] == name {
        i
    } else {
        first_exact(slugs, name, i + 1)
    }
}

/// Index of the first slug at or after `i` whose final segment is `name`;
/// `slugs.len()` if none.
pub open spec fn first_in_segment(slugs: Seq<Seq<char>>, name: Seq<char>, i: int) -> int
    decreases slugs.len() - i,
{
    if i < 0 || i >= slugs.len() {
        slugs.len() as int
    } else if ends_in_segment(slugs[i], name) {
        i
    } else {
        first_in_segment(slugs, name, i + 1)
    }
}

/// The slug that `name` resolves to: the first equal to it, else the first
/// whose final path segment it is.
pub open spec fn resolve(slugs: Seq<Seq<char>>, name: Seq<char>) -> Option<int> {
    let e = first_exact(slugs, name, 0);
    let f = first_in_segment(slugs, name, 0);
    if e < slugs.len() {
        Some(e)
    } else if f < slugs.len() {
        Some(f)
    } else {
        None
    }
}

pub proof fn lemma_first_exact(slugs: Seq<Seq<char>>, name: Seq<char>, i: int)
    requires
        0 <= i,
    ensures
        i <= first_exact(slugs, name, i) <= slugs.len() || (i > slugs.len() && first_exact(slugs, name, i) == slugs.len()),
        first_exact(slugs, name, i) < slugs.len() ==> slugs[first_exact(slugs, name, i)] == name,
    decreases slugs.len() - i,
{
    if i < slugs.len() && slugs[i] != name {
        lemma_first_exact(slugs, name, i + 1);
    }
}

/// The views of a list of strings.
pub open spec fn strs_view(v: Seq<String>) -> Seq<Seq<char>> {
    v.map_values(|s: String| s@)
}

/// Whether `slug` ends with `/` followed by `name`.
pub fn ends_in_segment_exec(slug: &str, name: &str) -> (r: bool)
    ensures
        r == ends_in_segment(slug@, name@),
{
    let mut suffix = String::new();
    push_str(&mut suffix, "/");
    push_str(&mut suffix, name);
    proof {
        reveal_strlit("/");
        assert(suffix@ =~= seq!['/'] + name@);
    }
    ends_with_exec(slug, suffix.as_str())
}

/// The index of the slug that `name` resolves to, as `resolve` states it.
pub fn resolve_exec(slugs: &Vec<String>, name: &str) -> (r: Option<usize>)
    ensures
        match r {
            Some(k) => resolve(strs_view(slugs@), name@) == Some(k as int),
            None => resolve(strs_view(slugs@), name@) is None,
        },
{
    let ghost sv = strs_view(slugs@);
    let mut i: usize = 0;
    while i < slugs.len()
        invariant
            i <= slugs@.len(),
            sv == strs_view(slugs@),
            first_exact(sv, name@, 0) == first_exact(sv, name@, i as int),
        decreases slugs@.len() - i,
    {
        if str_eq(slugs[i].as_str(), name) {
            return Some(i);
        }
        i = i + 1;
    }
    let mut i: usize = 0;
    while i < slugs.len()
        invariant
            i <= slugs@.len(),
            sv == strs_view(slugs@),
            first_exact(sv, name@, 0) == sv.len(),
            first_in_segment(sv, name@, 0) == first_in_segment(sv, name@, i as int),
        decreases slugs@.len() - i,
    {
        if ends_in_segment_exec(slugs[i].as_str(), name) {
            return Some(i);
        }
        i = i + 1;
    }
    None
}


/// `name` matches no slug exactly and the final path segment of two or more:
/// which document it means is a configuration error to report.
pub open spec fn is_ambiguous(slugs: Seq<Seq<char>>, name: Seq<char>) -> bool {
    &&& first_exact(slugs, name, 0) >= slugs.len()
    &&& exists|i: int, j: int|
        0 <= i < j < slugs.len() && ends_in_segment(#[trigger] slugs[i], name) && ends_in_segment(
            #[trigger] slugs[j],
            name,
        )
}

/// Whether `name` is ambiguous among `slugs`, as `is_ambiguous` states it.
pub fn is_ambiguous_exec(slugs: &Vec<String>, name: &str) -> (r: bool)
    ensures
        r == is_ambiguous(strs_view(slugs@), name@),
{
    let ghost sv = strs_view(slugs@);
    let mut i: usize = 0;
    while i < slugs.len()
        invariant
            i <= slugs@.len(),
            sv == strs_view(slugs@),
            first_exact(sv, name@, 0) == first_exact(sv, name@, i as int),
        decreases slugs@.len() - i,
    {
        if str_eq(slugs[i].as_str(), name) {
            assert(sv[i as int] == slugs@[i as int]@);
            return false;
        }
        i = i + 1;
    }
    let mut first: Option<usize> = None;
    let mut k: usize = 0;
    while k < slugs.len()
        invariant
            k <= slugs@.len(),
            sv == strs_view(slugs@),
            first_exact(sv, name@, 0) >= sv.len(),
            match first {
                Some(f) => f < k && ends_in_segment(sv[f as int], name@) && forall|q: int|
                    0 <= q < k && q != f ==> !ends_in_segment(#[trigger] sv[q], name@),
                None => forall|q: int| 0 <= q < k ==> !ends_in_segment(#[trigger] sv[q], name@),
            },
        decreases slugs@.len() - k,
    {
        if ends_in_segment_exec(slugs[k].as_str(), name) {
            match first {
                Some(f) => {
                    assert(ends_in_segment(sv[f as int], name@) && ends_in_segment(sv[k as int], name@));
                    return true;
                },
                None => {
                    first = Some(k);
                },
            }
        }
        k = k + 1;
    }
    proof {
        assert forall|a: int, b: int| 0 <= a < b < sv.len() && ends_in_segment(#[trigger] sv[a], name@)
            implies !ends_in_segment(#[trigger] sv[b], name@) by {
            match first {
                Some(f) => {
                    assert(a == f);
                },
                None => {},
            }
        }
    }
    false
}

} // verus!
