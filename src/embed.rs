//! The render-and-embed strategy: each math span is typeset at once and the
//! markup takes the place of the delimited span.

use vstd::prelude::*;
use crate::math::{Delim, Seg, Segment, close_of, is_display, open_of, segs, segs_view, scan_math};
use crate::text::{begins_with, chars_of, occurs_at, push_str};

verus! {

/// Unicode `White_Space`, the characters that `trim` removes.
pub open spec fn is_white_space(c: char) -> bool {
    let u = c as u32;
    (9 <= u <= 13) || u == 32 || u == 0x85 || u == 0xa0 || u == 0x1680 || (0x2000 <= u <= 0x200a)
        || u == 0x2028 || u == 0x2029 || u == 0x202f || u == 0x205f || u == 0x3000
}

/// Number of white-space characters at the start of `s`.
pub open spec fn leading_ws(s: Seq<char>) -> nat
    decreases s.len(),
{
    if s.len() > 0 && is_white_space(s[0]) {
        1 + leading_ws(s.drop_first())
    } else {
        0
    }
}

/// Number of white-space characters at the end of `s`.
pub open spec fn trailing_ws(s: Seq<char>) -> nat
    decreases s.len(),
{
    if s.len() > 0 && is_white_space(s.last()) {
        1 + trailing_ws(s.drop_last())
    } else {
        0
    }
}

proof fn lemma_trailing_ws(s: Seq<char>)
    ensures
        trailing_ws(s) <= s.len(),
    decreases s.len(),
{
    if s.len() > 0 && is_white_space(s.last()) {
        lemma_trailing_ws(s.drop_last());
    }
}

/// `s` without its leading and trailing white space.
pub open spec fn trimmed(s: Seq<char>) -> Seq<char> {
    let t = s.skip(leading_ws(s) as int);
    t.take(t.len() - trailing_ws(t))
}

pub fn is_white_space_exec(c: char) -> (r: bool)
    ensures
        r == is_white_space(c),
{
    let u = c as u32;
    (9 <= u && u <= 13) || u == 32 || u == 0x85 || u == 0xa0 || u == 0x1680 || (0x2000 <= u && u
        <= 0x200a) || u == 0x2028 || u == 0x2029 || u == 0x202f || u == 0x205f || u == 0x3000
}

/// `s` with leading and trailing white space removed.
pub fn trim(s: &str) -> (r: String)
    ensures
        r@ == trimmed(s@),
{
    let cs = chars_of(s);
    let mut lo: usize = 0;
    assert(cs@.skip(0) =~= cs@);
    while lo < cs.len() && is_white_space_exec(cs[lo])
        invariant
            lo <= cs@.len(),
            leading_ws(cs@) == lo + leading_ws(cs@.skip(lo as int)),
        decreases cs@.len() - lo,
    {
        assert(cs@.skip(lo as int).drop_first() =~= cs@.skip(lo + 1));
        lo = lo + 1;
    }
    let ghost t = cs@.skip(lo as int);
    let mut hi: usize = cs.len();
    assert(cs@.subrange(lo as int, hi as int) =~= t);
    while hi > lo && is_white_space_exec(cs[hi - 1])
        invariant
            lo <= hi <= cs@.len(),
            t == cs@.skip(lo as int),
            trailing_ws(t) == (cs@.len() - hi) + trailing_ws(cs@.subrange(lo as int, hi as int)),
        decreases hi - lo,
    {
        assert(cs@.subrange(lo as int, hi as int).drop_last() =~= cs@.subrange(lo as int, hi - 1));
        hi = hi - 1;
    }
    proof {
        lemma_trailing_ws(t);
        assert(t.take(t.len() - trailing_ws(t)) =~= cs@.subrange(lo as int, hi as int));
    }
    crate::text::string_of_range(&cs, lo, hi)
}

/// The markup that KaTeX produces for `tex`, in display or inline mode.
pub uninterp spec fn katex_markup(tex: Seq<char>, display: bool) -> Seq<char>;

/// Relies on `katex::render_with_opts`, with the display mode as given, errors
/// in the TeX typeset in place (`throw_on_error` off) and HTML plus MathML
/// output: a successful result is the markup for the source in that mode.
/// `None` stands for the crate's error (the script engine failed).
#[verifier::external_body]
fn render_tex(tex: &str, display: bool) -> (r: Option<String>)
    ensures
        r is Some ==> r->0@ == katex_markup(tex@, display),
{
    let opts = katex::Opts::builder()
        .display_mode(display)
        .throw_on_error(false)
        .output_type(katex::OutputType::HtmlAndMathml)
        .build()
        .unwrap();
    katex::render_with_opts(tex, opts).ok()
}

/// The visibly marked element that stands for a span that could not be
/// rendered: it carries the span's TeX source.
pub open spec fn error_markup(d: Delim, tex: Seq<char>) -> Seq<char> {
    if is_display(d) {
        "<pre class=\"math-error\">"@ + tex + "</pre>"@
    } else {
        "<code class=\"math-error\">"@ + tex + "</code>"@
    }
}

/// What a segment becomes, given the renderer's result for it.
pub open spec fn embed_seg(g: Seg, out: Option<Seq<char>>) -> Seq<char> {
    match g {
        Seg::Text(t) => t,
        Seg::Math(d, tex) => match out {
            Some(h) => h,
            None => error_markup(d, tex),
        },
    }
}

/// The text made of segments, each math span replaced by its rendered markup
/// (`outs[k]` for segment `k`) or by its error element.
pub open spec fn embed_all(gs: Seq<Seg>, outs: Seq<Option<Seq<char>>>) -> Seq<char>
    decreases gs.len(),
{
    if gs.len() == 0 {
        Seq::empty()
    } else {
        embed_all(gs.drop_last(), outs) + embed_seg(gs.last(), outs[gs.len() - 1])
    }
}

/// The views of optional strings.
pub open spec fn opt_views(v: Seq<Option<String>>) -> Seq<Option<Seq<char>>> {
    v.map_values(|o: Option<String>| match o {
        Some(h) => Some(h@),
        None => None,
    })
}

/// What a renderer may have returned for one segment: for a math span,
/// KaTeX's markup of its trimmed source or a failure; for text, nothing.
pub open spec fn outcome_valid(g: Seg, out: Option<Seq<char>>) -> bool {
    match g {
        Seg::Math(d, tex) => out is Some ==> out->0 == katex_markup(trimmed(tex), is_display(d)),
        Seg::Text(_) => out is None,
    }
}

/// What a renderer may have returned for each segment.
pub open spec fn outcomes_valid(gs: Seq<Seg>, outs: Seq<Option<Seq<char>>>) -> bool {
    &&& outs.len() == gs.len()
    &&& forall|k: int| 0 <= k < gs.len() ==> outcome_valid(gs[k], #[trigger] outs[k])
}

/// Substitutes rendered markup for each math span: `rendered[k]` is the
/// markup of segment `k`, or `None` where rendering failed, in which case the
/// error element takes its place. Text segments pass through unchanged.
pub fn embed_math(segments: &Vec<Segment>, rendered: &Vec<Option<String>>) -> (r: String)
    requires
        rendered@.len() == segments@.len(),
    ensures
        r@ == embed_all(segs_view(segments@), opt_views(rendered@)),
{
    let ghost gs = segs_view(segments@);
    let ghost outs = opt_views(rendered@);
    let mut out = String::new();
    let mut k: usize = 0;
    while k < segments.len()
        invariant
            k <= segments@.len() == rendered@.len(),
            gs == segs_view(segments@),
            outs == opt_views(rendered@),
            out@ == embed_all(gs.take(k as int), outs),
        decreases segments@.len() - k,
    {
        assert(gs.take(k + 1).drop_last() =~= gs.take(k as int));
        assert(gs.take(k + 1).last() == segments@[k as int]@);
        match &segments[k] {
            Segment::Text(t) => {
                push_str(&mut out, t.as_str());
            },
            Segment::Math(m) => {
                match &rendered[k] {
                    Some(h) => {
                        push_str(&mut out, h.as_str());
                    },
                    None => {
                        if m.delim.display() {
                            push_str(&mut out, "<pre class=\"math-error\">");
                            push_str(&mut out, m.tex.as_str());
                            push_str(&mut out, "</pre>");
                        } else {
                            push_str(&mut out, "<code class=\"math-error\">");
                            push_str(&mut out, m.tex.as_str());
                            push_str(&mut out, "</code>");
                        }
                    },
                }
            },
        }
        k = k + 1;
    }
    assert(gs.take(k as int) =~= gs);
    out
}

/// Typesets every math span of `md` with KaTeX and embeds the markup in place
/// of the delimited span; a span that fails to render is replaced by its
/// error element, and all other text passes through unchanged.
pub fn render_math(md: &str) -> (r: String)
    ensures
        exists|outs: Seq<Option<Seq<char>>>|
            outcomes_valid(segs(md@), outs) && r@ == embed_all(segs(md@), outs),
{
    let segments = scan_math(md);
    let ghost gs = segs_view(segments@);
    let mut rendered: Vec<Option<String>> = Vec::new();
    let mut k: usize = 0;
    while k < segments.len()
        invariant
            k <= segments@.len(),
            rendered@.len() == k,
            gs == segs_view(segments@),
            forall|m: int| 0 <= m < k ==> outcome_valid(gs[m], #[trigger] opt_views(rendered@)[m]),
        decreases segments@.len() - k,
    {
        let ghost before = rendered@;
        match &segments[k] {
            Segment::Text(_) => {
                rendered.push(None);
                assert(opt_views(rendered@)[k as int] is None);
                assert(outcome_valid(gs[k as int], opt_views(rendered@)[k as int]));
            },
            Segment::Math(m) => {
                let tex = trim(m.tex.as_str());
                let out = render_tex(tex.as_str(), m.delim.display());
                let ghost gout = out;
                rendered.push(out);
                assert(rendered@[k as int] == gout);
                assert(segments@[k as int]@ == Seg::Math(m.delim, m.tex@));
                assert(tex@ == trimmed(m.tex@));
                assert(opt_views(rendered@)[k as int] is Some ==> opt_views(rendered@)[k as int]->0 == gout->0@);
                assert(outcome_valid(gs[k as int], opt_views(rendered@)[k as int]));
            },
        }
        assert(gs[k as int] == segments@[k as int]@);
        assert(opt_views(rendered@)[k as int] == match rendered@[k as int] {
            Some(h) => Some(h@),
            None => None::<Seq<char>>,
        });
        assert forall|m: int| 0 <= m < k + 1 implies outcome_valid(gs[m], #[trigger] opt_views(rendered@)[m]) by {
            if m < k {
                assert(rendered@[m] == before[m]);
                assert(opt_views(rendered@)[m] == opt_views(before)[m]);
            }
        }
        k = k + 1;
    }
    let r = embed_math(&segments, &rendered);
    assert(outcomes_valid(gs, opt_views(rendered@)));
    r
}


proof fn lemma_embed_front_text(t: Seq<char>, rest: Seq<Seg>, outs: Seq<Option<Seq<char>>>)
    requires
        outs.len() == rest.len() + 1,
    ensures
        embed_all(seq![Seg::Text(t)] + rest, outs) == t + embed_all(rest, outs.drop_first()),
    decreases rest.len(),
{
    let all = seq![Seg::Text(t)] + rest;
    if rest.len() == 0 {
        assert(all.drop_last() =~= Seq::<Seg>::empty());
        assert(all.last() == Seg::Text(t));
        assert(embed_all(all, outs) == embed_all(all.drop_last(), outs) + t);
        assert(Seq::<char>::empty() + t =~= t);
        assert(t + Seq::<char>::empty() =~= t);
    } else {
        let r0 = rest.drop_last();
        lemma_embed_front_text(t, r0, outs.drop_last());
        assert(all.drop_last() =~= seq![Seg::Text(t)] + r0);
        lemma_embed_prefix_outs(all.drop_last(), outs, outs.drop_last());
        lemma_embed_prefix_outs(r0, outs.drop_first(), outs.drop_last().drop_first());
        let piece = embed_seg(rest.last(), outs[outs.len() - 1]);
        assert(embed_all(all, outs) == embed_all(all.drop_last(), outs) + piece);
        assert(outs.drop_first()[rest.len() - 1] == outs[outs.len() - 1]);
        assert(embed_all(rest, outs.drop_first()) == embed_all(r0, outs.drop_first()) + piece);
        assert(t + embed_all(r0, outs.drop_first()) + piece =~= t + (embed_all(r0, outs.drop_first()) + piece));
    }
}

/// `embed_all` reads only the first `gs.len()` outcomes.
proof fn lemma_embed_prefix_outs(gs: Seq<Seg>, o1: Seq<Option<Seq<char>>>, o2: Seq<Option<Seq<char>>>)
    requires
        gs.len() <= o1.len(),
        gs.len() <= o2.len(),
        forall|k: int| 0 <= k < gs.len() ==> o1[k] == o2[k],
    ensures
        embed_all(gs, o1) == embed_all(gs, o2),
    decreases gs.len(),
{
    if gs.len() > 0 {
        lemma_embed_prefix_outs(gs.drop_last(), o1, o2);
    }
}

/// An inline `$` whose line ends before any closing `$` is no math under
/// rendering either: whatever the renderer returned, the `$`, the scanned
/// text and the newline stand verbatim in the output, followed by the
/// rendering of the rest.
pub proof fn lemma_newline_inline_rendered(s: Seq<char>, j: int, outs: Seq<Option<Seq<char>>>)
    requires
        s.len() > 1,
        s[0] == '$',
        s[1] != '$',
        0 < j < s.len(),
        s[j] == '\n',
        forall|k: int| 0 < k < j ==> s[k] != '$' && s[k] != '\n',
        outs.len() == segs(s).len(),
    ensures
        embed_all(segs(s), outs) == s.take(j + 1) + embed_all(segs(s.skip(j + 1)), outs.drop_first()),
{
    crate::math::lemma_newline_ends_inline(s, j);
    lemma_embed_front_text(s.take(j + 1), segs(s.skip(j + 1)), outs);
}

/// An opening delimiter without a valid terminator leaves the text as it is
/// under rendering, whatever the renderer returned.
pub proof fn lemma_unterminated_rendered(s: Seq<char>, d: Delim, outs: Seq<Option<Seq<char>>>)
    requires
        begins_with(s, open_of(d)),
        d == Delim::Dollar ==> !begins_with(s, open_of(Delim::DoubleDollar)),
        forall|k: int| open_of(d).len() <= k ==> !occurs_at(s, k, close_of(d)),
        d == Delim::Dollar ==> forall|k: int| 0 < k < s.len() ==> s[k] != '\n',
        outs.len() == segs(s).len(),
    ensures
        embed_all(segs(s), outs) == s,
{
    crate::math::lemma_unterminated(s, d);
    lemma_embed_front_text(s, Seq::empty(), outs);
    assert(seq![Seg::Text(s)] + Seq::<Seg>::empty() =~= seq![Seg::Text(s)]);
    assert(s + Seq::<char>::empty() =~= s);
}

} // verus!
