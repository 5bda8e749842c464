//! Document intake: the optional metadata block at the head of a document,
//! and the slug, title and kind of a source file.

use vstd::prelude::*;
use crate::embed::leading_ws;
use crate::text::{begins_with, begins_with_exec, chars_of, ends_with, ends_with_exec, find_from,
    find_from_exec, lemma_find_from, push_char, push_str, string_of_range};

verus! {

/// The marker line that opens and closes a metadata block.
pub const MARKER: &'static str = "---\n";

/// The metadata of a document; only the title is used.
#[derive(Clone, Debug, PartialEq, Eq)]
pub struct FrontMatter {
    pub title: Option<String>,
}

/// The metadata region and the body of a document that opens with the
/// marker line and has a later marker line closing the region; `None` for
/// any other document.
pub open spec fn frontmatter_split(c: Seq<char>) -> Option<(Seq<char>, Seq<char>)> {
    let m = "---\n"@;
    let j = find_from(c, m, 4);
    if begins_with(c, m) && j < c.len() {
        Some((c.subrange(4, j), c.skip(j + 4)))
    } else {
        None
    }
}

/// Splits a document into its metadata region and its body.
pub fn split_frontmatter(content: &str) -> (r: Option<(String, String)>)
    ensures
        match r {
            Some((meta, body)) => frontmatter_split(content@) == Some((meta@, body@)),
            None => frontmatter_split(content@) is None,
        },
{
    proof { reveal_strlit("---\n"); }
    if !begins_with_exec(content, MARKER) {
        return None;
    }
    let cs = chars_of(content);
    let mc = chars_of(MARKER);
    let j = find_from_exec(&cs, &mc, 4);
    proof { lemma_find_from(cs@, mc@, 4); }
    if j >= cs.len() {
        return None;
    }
    let meta = string_of_range(&cs, 4, j);
    let body = string_of_range(&cs, j + 4, cs.len());
    assert(body@ =~= cs@.skip(j + 4));
    Some((meta, body))
}

/// What a document yields: its metadata and its body. `parsed` is what the
/// metadata deserializer made of the region that `split_frontmatter` finds
/// (`None` where it failed). Without a well-formed region, or where parsing
/// failed, the whole document is the body and there is no metadata.
pub fn extract_frontmatter(content: &str, parsed: Option<FrontMatter>) -> (r: (Option<FrontMatter>, String))
    ensures
        match (frontmatter_split(content@), parsed) {
            (Some((_, body)), Some(fm)) => r.0 == Some(fm) && r.1@ == body,
            _ => r.0 is None && r.1@ == content@,
        },
{
    match (split_frontmatter(content), parsed) {
        (Some((_, body)), Some(fm)) => (Some(fm), body),
        _ => {
            let mut all = String::new();
            push_str(&mut all, content);
            assert(all@ =~= content@);
            (None, all)
        },
    }
}

/// The title of a document: the metadata's title, else the file's stem,
/// else `Untitled`.
pub fn document_title(meta_title: Option<String>, file_stem: Option<&str>) -> (r: String)
    ensures
        r@ == match (meta_title, file_stem) {
            (Some(t), _) => t@,
            (None, Some(s)) => s@,
            (None, None) => "Untitled"@,
        },
{
    match (meta_title, file_stem) {
        (Some(t), _) => t,
        (None, Some(s)) => {
            let mut r = String::new();
            push_str(&mut r, s);
            assert(r@ =~= s@);
            r
        },
        (None, None) => {
            let mut r = String::new();
            push_str(&mut r, "Untitled");
            assert(r@ =~= "Untitled"@);
            r
        },
    }
}

/// A file stem that names a read-me file, in any ASCII case.
pub open spec fn is_readme(stem: Seq<char>) -> bool {
    stem.len() == 6 && forall|i: int|
        0 <= i < 6 ==> #[trigger] stem[i] == "README"@[i] || stem[i] == "readme"@[i]
}

/// Whether a file stem names a read-me file, which is not a document.
pub fn is_readme_exec(stem: &str) -> (r: bool)
    ensures
        r == is_readme(stem@),
{
    proof {
        reveal_strlit("README");
        reveal_strlit("readme");
    }
    let cs = chars_of(stem);
    let up = chars_of("README");
    let low = chars_of("readme");
    if cs.len() != 6 {
        return false;
    }
    assert(up@.len() == 6 && low@.len() == 6);
    let mut i: usize = 0;
    while i < 6
        invariant
            i <= 6,
            cs@ == stem@,
            up@ == "README"@,
            low@ == "readme"@,
            cs@.len() == 6,
            up@.len() == 6,
            low@.len() == 6,
            forall|k: int| 0 <= k < i ==> #[trigger] cs@[k] == up@[k] || cs@[k] == low@[k],
        decreases 6 - i,
    {
        if cs[i] != up[i] && cs[i] != low[i] {
            return false;
        }
        i = i + 1;
    }
    true
}

/// A file whose text, past leading white space, opens an HTML document: it
/// is taken as already rendered, not as markdown.
pub open spec fn is_html_text(content: Seq<char>) -> bool {
    let t = content.skip(leading_ws(content) as int);
    begins_with(t, "<!DOCTYPE"@) || begins_with(t, "<html"@)
}

/// Whether a file's text is already HTML.
pub fn is_html_text_exec(content: &str) -> (r: bool)
    ensures
        r == is_html_text(content@),
{
    let cs = chars_of(content);
    let mut lo: usize = 0;
    assert(cs@.skip(0) =~= cs@);
    while lo < cs.len() && crate::embed::is_white_space_exec(cs[lo])
        invariant
            lo <= cs@.len(),
            cs@ == content@,
            leading_ws(cs@) == lo + leading_ws(cs@.skip(lo as int)),
        decreases cs@.len() - lo,
    {
        assert(cs@.skip(lo as int).drop_first() =~= cs@.skip(lo + 1));
        lo = lo + 1;
    }
    let t = string_of_range(&cs, lo, cs.len());
    assert(t@ =~= cs@.skip(lo as int));
    begins_with_exec(t.as_str(), "<!DOCTYPE") || begins_with_exec(t.as_str(), "<html")
}

/// `/` in place of each `\`.
pub open spec fn normalize_separators(p: Seq<char>) -> Seq<char> {
    p.map_values(|c: char| if c == '\\' { '/' } else { c })
}

/// The slug of a source file's path relative to the content root: without
/// the `.md` extension, with `/` separators.
pub open spec fn slug_of(path: Seq<char>) -> Seq<char> {
    normalize_separators(if ends_with(path, ".md"@) { path.take(path.len() - 3) } else { path })
}

/// The slug of a source file's relative path.
pub fn slug_from_path(path: &str) -> (r: String)
    ensures
        r@ == slug_of(path@),
{
    proof { reveal_strlit(".md"); }
    let cs = chars_of(path);
    let end = if ends_with_exec(path, ".md") { cs.len() - 3 } else { cs.len() };
    let ghost stem = cs@.take(end as int);
    let mut out = String::new();
    let mut i: usize = 0;
    while i < end
        invariant
            i <= end <= cs@.len(),
            stem == cs@.take(end as int),
            out@ == normalize_separators(stem.take(i as int)),
        decreases end - i,
    {
        let c = cs[i];
        push_char(&mut out, if c == '\\' { '/' } else { c });
        assert(normalize_separators(stem.take(i + 1)) =~= normalize_separators(stem.take(i as int)).push(
            if c == '\\' { '/' } else { c },
        ));
        i = i + 1;
    }
    assert(stem.take(end as int) =~= stem);
    assert(cs@ == path@);
    out
}

} // verus!
