//! The internal-link rewriter: every anchor of rendered HTML whose target is
//! a document of the site is retargeted to that document's output page.

use vstd::prelude::*;
use crate::math::{find_either, find_either_from, lemma_find_either};
use crate::slugs::{resolve, resolve_exec, strs_view};
use crate::text::{begins_with, begins_with_exec, chars_of, ends_with, ends_with_exec, occurs_at,
    occurs_at_exec, push_range, push_str, string_of_range};

verus! {

/// The pattern of an anchor's opening tag: the `href` value is the first
/// capture group, the attributes after it the second.
pub const ANCHOR_PATTERN: &'static str = "<a\\s+href=\"([^\"]+)\"([^>]*)>";

/// `p` occurs somewhere in `s`.
pub open spec fn contains_seq(s: Seq<char>, p: Seq<char>) -> bool {
    exists|i: int| occurs_at(s, i, p)
}

/// An href that is left as it is: a scheme, a mail address, a fragment of
/// the same page or an absolute path.
pub open spec fn is_external(h: Seq<char>) -> bool {
    begins_with(h, "http://"@) || begins_with(h, "https://"@) || begins_with(h, "mailto:"@)
        || begins_with(h, "#"@) || begins_with(h, "/"@) || contains_seq(h, "://"@)
}

/// Where an internal href is retargeted to, or `None` if it stays as it is.
///
/// The href is split at its first `#` or `?` into a base and a suffix. A base
/// ending in `.md` gets `.html` in place of that extension; a base without a
/// `.` that resolves to a known slug becomes that slug with `.html`. The
/// suffix is kept in both cases.
pub open spec fn href_target(h: Seq<char>, slugs: Seq<Seq<char>>) -> Option<Seq<char>> {
    let j = find_either(h, '#', '?') as int;
    let base = h.take(j);
    let suffix = h.skip(j);
    if is_external(h) {
        None
    } else if ends_with(base, ".md"@) {
        Some(base.take(base.len() - 3) + ".html"@ + suffix)
    } else if !base.contains('.') && resolve(slugs, base) is Some {
        Some(slugs[resolve(slugs, base)->0] + ".html"@ + suffix)
    } else {
        None
    }
}

/// Whether `p` occurs somewhere in `s`.
pub fn contains_exec(s: &str, p: &str) -> (r: bool)
    ensures
        r == contains_seq(s@, p@),
{
    let sc = chars_of(s);
    let pc = chars_of(p);
    let mut i: usize = 0;
    while i < sc.len()
        invariant
            i <= sc@.len(),
            sc@ == s@,
            pc@ == p@,
            forall|k: int| 0 <= k < i ==> !occurs_at(s@, k, p@),
        decreases sc@.len() - i,
    {
        if occurs_at_exec(&sc, i, &pc) {
            return true;
        }
        i = i + 1;
    }
    if occurs_at_exec(&sc, i, &pc) {
        return true;
    }
    assert forall|k: int| !occurs_at(s@, k, p@) by {
        if 0 <= k < i {
        }
    }
    false
}

/// Whether `s` holds the character `c`.
fn has_char(s: &Vec<char>, c: char) -> (r: bool)
    ensures
        r == s@.contains(c),
{
    let mut i: usize = 0;
    while i < s.len()
        invariant
            i <= s@.len(),
            forall|k: int| 0 <= k < i ==> s@[k] != c,
        decreases s@.len() - i,
    {
        if s[i] == c {
            return true;
        }
        i = i + 1;
    }
    false
}

/// Whether an href is left as it is.
pub fn is_external_exec(href: &str) -> (r: bool)
    ensures
        r == is_external(href@),
{
    begins_with_exec(href, "http://") || begins_with_exec(href, "https://") || begins_with_exec(
        href,
        "mailto:",
    ) || begins_with_exec(href, "#") || begins_with_exec(href, "/") || contains_exec(href, "://")
}

/// The new target of an href, given the slugs of the site's documents; `None`
/// where the href stays as it is.
pub fn rewrite_href(href: &str, slugs: &Vec<String>) -> (r: Option<String>)
    ensures
        match r {
            Some(t) => href_target(href@, strs_view(slugs@)) == Some(t@),
            None => href_target(href@, strs_view(slugs@)) is None,
        },
{
    if is_external_exec(href) {
        return None;
    }
    let cs = chars_of(href);
    let j = find_either_from(&cs, 0, '#', '?');
    assert(cs@.skip(0) =~= cs@);
    proof { lemma_find_either(cs@, '#', '?'); }
    let base = string_of_range(&cs, 0, j);
    assert(base@ =~= cs@.take(j as int));
    let bc = chars_of(base.as_str());
    if ends_with_exec(base.as_str(), ".md") {
        proof { reveal_strlit(".md"); }
        let mut out = string_of_range(&bc, 0, bc.len() - 3);
        push_str(&mut out, ".html");
        push_range(&mut out, &cs, j, cs.len());
        assert(cs@.subrange(j as int, cs@.len() as int) =~= cs@.skip(j as int));
        return Some(out);
    }
    if has_char(&bc, '.') {
        return None;
    }
    match resolve_exec(slugs, base.as_str()) {
        Some(k) => {
            let mut out = slugs[k].clone();
            push_str(&mut out, ".html");
            push_range(&mut out, &cs, j, cs.len());
            assert(cs@.subrange(j as int, cs@.len() as int) =~= cs@.skip(j as int));
            Some(out)
        },
        None => None,
    }
}

/// One match of a regular expression: its bounds, counted in characters, and
/// the text of each capture group after the whole match.
#[derive(Clone, Debug)]
pub struct Capture {
    pub start: usize,
    pub end: usize,
    pub groups: Vec<String>,
}

/// A match as a mathematical value.
pub open spec fn capture_view(c: Capture) -> (int, int, Seq<Seq<char>>) {
    (c.start as int, c.end as int, strs_view(c.groups@))
}

pub open spec fn captures_view(v: Seq<Capture>) -> Seq<(int, int, Seq<Seq<char>>)> {
    v.map_values(|c: Capture| capture_view(c))
}

pub open spec fn opt_captures_view(o: Option<Vec<Capture>>) -> Option<Seq<(int, int, Seq<Seq<char>>)>> {
    match o {
        Some(v) => Some(captures_view(v@)),
        None => None,
    }
}

/// Matches that lie within a text of length `len`, in order, none
/// overlapping the next.
pub open spec fn captures_ordered(cs: Seq<(int, int, Seq<Seq<char>>)>, len: int) -> bool {
    &&& forall|k: int| 0 <= k < cs.len() ==> 0 <= (#[trigger] cs[k]).0 <= cs[k].1 <= len
    &&& forall|k: int| 0 <= k < cs.len() - 1 ==> (#[trigger] cs[k]).1 <= cs[k + 1].0
}

/// What the regex crate finds of `pattern` in `hay`: `None` when the pattern
/// does not compile, else its successive matches.
pub uninterp spec fn regex_captures(pattern: Seq<char>, hay: Seq<char>) -> Option<Seq<(int, int, Seq<Seq<char>>)>>;

/// Relies on `regex::Regex::new` and `Regex::captures_iter`: the pattern's
/// successive non-overlapping matches, in order and within the text, each with
/// its bounds (byte offsets turned into character counts) and its groups'
/// text (empty for a group that took no part); `None` when the pattern fails
/// to compile.
#[verifier::external_body]
fn find_captures(pattern: &str, hay: &str) -> (r: Option<Vec<Capture>>)
    ensures
        opt_captures_view(r) == regex_captures(pattern@, hay@),
        r is Some ==> captures_ordered(captures_view(r->0@), hay@.len() as int),
{
    let re = regex::Regex::new(pattern).ok()?;
    let at = |b: usize| hay[..b].chars().count();
    Some(re.captures_iter(hay).map(|c| {
        let m = c.get(0).unwrap();
        let groups = (1..c.len()).map(|g| c.get(g).map_or(String::new(), |x| x.as_str().to_string()));
        Capture { start: at(m.start()), end: at(m.end()), groups: groups.collect() }
    }).collect())
}

/// What an anchor match becomes: the opening tag with its new target where
/// the href is internal, else the matched text unchanged.
pub open spec fn anchor_replacement(s: Seq<char>, c: (int, int, Seq<Seq<char>>), slugs: Seq<Seq<char>>) -> Seq<char> {
    if c.2.len() >= 2 && href_target(c.2[0], slugs) is Some {
        "<a href=\""@ + href_target(c.2[0], slugs)->0 + "\""@ + c.2[1] + ">"@
    } else {
        s.subrange(c.0, c.1)
    }
}

/// Where the text before match `k` starts: the end of the match before it.
pub open spec fn gap_start(cs: Seq<(int, int, Seq<Seq<char>>)>, k: int) -> int {
    if k == 0 { 0 } else { cs[k - 1].1 }
}

/// The output up to the end of the `m`-th match.
pub open spec fn rewritten_upto(s: Seq<char>, cs: Seq<(int, int, Seq<Seq<char>>)>, slugs: Seq<Seq<char>>, m: int) -> Seq<char>
    decreases m,
{
    if m <= 0 {
        Seq::empty()
    } else {
        rewritten_upto(s, cs, slugs, m - 1) + s.subrange(gap_start(cs, m - 1), cs[m - 1].0)
            + anchor_replacement(s, cs[m - 1], slugs)
    }
}

/// `s` with each match replaced as `anchor_replacement` says and the text
/// between matches unchanged.
pub open spec fn rewritten(s: Seq<char>, cs: Seq<(int, int, Seq<Seq<char>>)>, slugs: Seq<Seq<char>>) -> Seq<char> {
    rewritten_upto(s, cs, slugs, cs.len() as int) + s.subrange(gap_start(cs, cs.len() as int), s.len() as int)
}

/// Rewrites the anchors of `html` found at `caps`, a snapshot of match
/// positions taken before any replacement, each match's first group being
/// the href and its second the attributes that follow it.
pub fn rewrite_links(html: &str, caps: &Vec<Capture>, slugs: &Vec<String>) -> (r: String)
    requires
        captures_ordered(captures_view(caps@), html@.len() as int),
    ensures
        r@ == rewritten(html@, captures_view(caps@), strs_view(slugs@)),
{
    let ghost cv = captures_view(caps@);
    let ghost sv = strs_view(slugs@);
    let cs = chars_of(html);
    let mut out = String::new();
    let mut k: usize = 0;
    let mut last: usize = 0;
    while k < caps.len()
        invariant
            k <= caps@.len(),
            cs@ == html@,
            cv == captures_view(caps@),
            sv == strs_view(slugs@),
            captures_ordered(cv, html@.len() as int),
            last == gap_start(cv, k as int),
            last <= cs@.len(),
            out@ == rewritten_upto(html@, cv, sv, k as int),
        decreases caps@.len() - k,
    {
        let c = &caps[k];
        assert(cv[k as int] == capture_view(*c));
        proof {
            if k > 0 {
                assert(cv[k - 1].1 <= cv[k as int].0);
            }
        }
        push_range(&mut out, &cs, last, c.start);
        let mut replaced = false;
        if c.groups.len() >= 2 {
            assert(strs_view(c.groups@)[0] == c.groups@[0]@);
            assert(strs_view(c.groups@)[1] == c.groups@[1]@);
            match rewrite_href(c.groups[0].as_str(), slugs) {
                Some(t) => {
                    push_str(&mut out, "<a href=\"");
                    push_str(&mut out, t.as_str());
                    push_str(&mut out, "\"");
                    push_str(&mut out, c.groups[1].as_str());
                    push_str(&mut out, ">");
                    replaced = true;
                },
                None => {},
            }
        }
        if !replaced {
            push_range(&mut out, &cs, c.start, c.end);
        }
        proof {
            assert(out@ =~= rewritten_upto(html@, cv, sv, k as int) + html@.subrange(gap_start(cv, k as int), cv[k as int].0)
                + anchor_replacement(html@, cv[k as int], sv));
        }
        last = c.end;
        k = k + 1;
    }
    push_range(&mut out, &cs, last, cs.len());
    out
}

/// Retargets every internal anchor of rendered `html` to the output page of
/// the document it names, given the slugs of the site's documents; external
/// and unresolvable links stay as they are.
pub fn convert_internal_links(html: &str, slugs: &Vec<String>) -> (r: String)
    ensures
        r@ == match regex_captures(ANCHOR_PATTERN@, html@) {
            Some(cs) => rewritten(html@, cs, strs_view(slugs@)),
            None => html@,
        },
{
    match find_captures(ANCHOR_PATTERN, html) {
        Some(caps) => rewrite_links(html, &caps, slugs),
        None => {
            let mut out = String::new();
            push_str(&mut out, html);
            assert(out@ =~= html@);
            out
        },
    }
}

} // verus!
