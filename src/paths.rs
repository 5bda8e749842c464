//! Depth-relative path prefixes: how a page nested in directories reaches the
//! site root.

use vstd::prelude::*;
use crate::text::push_str;

verus! {

/// Number of `/` separators in a relative path: the directory segments that
/// stand before its file name.
pub open spec fn depth_of(path: Seq<char>) -> nat
    decreases path.len(),
{
    if path.len() == 0 {
        0
    } else {
        depth_of(path.drop_last()) + if path.last() == '/' { 1nat } else { 0nat }
    }
}

/// `d` repetitions of the parent-directory marker `../`.
pub open spec fn up_prefix(d: nat) -> Seq<char>
    decreases d,
{
    if d == 0 {
        Seq::empty()
    } else {
        up_prefix((d - 1) as nat) + "../"@
    }
}

/// Number of directory segments before the file name of `path`.
pub fn path_depth(path: &str) -> (r: usize)
    ensures
        r == depth_of(path@),
{
    let cs = crate::text::chars_of(path);
    let mut d: usize = 0;
    let mut i: usize = 0;
    while i < cs.len()
        invariant
            i <= cs@.len(),
            cs@ == path@,
            d == depth_of(cs@.subrange(0, i as int)),
            d <= i,
        decreases cs@.len() - i,
    {
        assert(cs@.subrange(0, i + 1).drop_last() == cs@.subrange(0, i as int));
        if cs[i] == '/' {
            d = d + 1;
        }
        i = i + 1;
    }
    assert(cs@.subrange(0, cs@.len() as int) == cs@);
    d
}

/// Appends `up_prefix(d)` to `out`.
fn push_up_prefix(out: &mut String, d: usize)
    ensures
        final(out)@ == old(out)@ + up_prefix(d as nat),
{
    let ghost start = out@;
    let mut k: usize = 0;
    while k < d
        invariant
            k <= d,
            out@ == start + up_prefix(k as nat),
        decreases d - k,
    {
        push_str(out, "../");
        proof {
            assert(up_prefix((k + 1) as nat) == up_prefix(k as nat) + "../"@);
            assert(start + up_prefix(k as nat) + "../"@ == start + (up_prefix(k as nat) + "../"@));
        }
        k = k + 1;
    }
    assert(start + up_prefix(0) =~= start);
}

/// The prefix that leads from the page at `relative_path` back to the site
/// root: one `../` per directory segment, empty at the root.
pub fn calculate_asset_prefix(relative_path: &str) -> (r: String)
    ensures
        r@ == up_prefix(depth_of(relative_path@)),
{
    let d = path_depth(relative_path);
    let mut out = String::new();
    push_up_prefix(&mut out, d);
    assert(out@ =~= up_prefix(d as nat));
    out
}

/// The link from the page at `from_path` to the page whose slug is `to_path`:
/// the root prefix of `from_path`, then the slug with the output extension.
pub fn calculate_relative_link_path(from_path: &str, to_path: &str) -> (r: String)
    ensures
        r@ == up_prefix(depth_of(from_path@)) + to_path@ + ".html"@,
{
    let mut out = calculate_asset_prefix(from_path);
    push_str(&mut out, to_path);
    push_str(&mut out, ".html");
    out
}

} // verus!
