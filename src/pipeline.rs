//! The per-document pipeline: math handling, markdown conversion and link
//! rewriting, with the math strategy chosen by configuration.

use vstd::prelude::*;
use crate::embed::{embed_all, outcomes_valid, render_math};
use crate::links::{ANCHOR_PATTERN, convert_internal_links, regex_captures, rewritten};
use crate::math::segs;
use crate::placeholder::{math_spans, protect_math, protect_text, restore, restore_math, unwrap_blocks};
use crate::slugs::strs_view;
use crate::text::str_eq;

verus! {

/// The HTML that the markdown converter makes of a text.
pub uninterp spec fn markdown_html(md: Seq<char>) -> Seq<char>;

/// Relies on `pulldown_cmark::Parser::new_ext` with `Options::all()` and
/// `pulldown_cmark::html::push_html`: the HTML of the markdown text, which
/// depends on the text alone.
#[verifier::external_body]
fn render_markdown(md: &str) -> (r: String)
    ensures
        r@ == markdown_html(md@),
{
    let mut out = String::new();
    pulldown_cmark::html::push_html(&mut out, pulldown_cmark::Parser::new_ext(md, pulldown_cmark::Options::all()));
    out
}

/// How the math of a document is handled.
#[derive(Clone, Copy, Debug, PartialEq, Eq, Structural)]
pub enum MathMode {
    /// Typeset each span at build time and embed the markup.
    RenderEmbed,
    /// Protect each span by a token through conversion and put its delimited
    /// source back afterwards, for a script to typeset on load.
    ProtectRestore,
}

/// The math mode that a configuration value names: `render` or `protect`.
pub open spec fn mode_named(name: Seq<char>) -> Option<MathMode> {
    if name == "render"@ {
        Some(MathMode::RenderEmbed)
    } else if name == "protect"@ {
        Some(MathMode::ProtectRestore)
    } else {
        None
    }
}

/// The math mode that a configuration value names, if any.
pub fn math_mode_named(name: &str) -> (r: Option<MathMode>)
    ensures
        r == mode_named(name@),
{
    if str_eq(name, "render") {
        Some(MathMode::RenderEmbed)
    } else if str_eq(name, "protect") {
        Some(MathMode::ProtectRestore)
    } else {
        None
    }
}

/// `html` with its internal anchors retargeted.
pub open spec fn linked(html: Seq<char>, slugs: Seq<Seq<char>>) -> Seq<char> {
    match regex_captures(ANCHOR_PATTERN@, html) {
        Some(cs) => rewritten(html, cs, slugs),
        None => html,
    }
}

/// The body HTML of a document under protect-and-restore.
pub open spec fn protected_page(md: Seq<char>, slugs: Seq<Seq<char>>) -> Seq<char> {
    let gs = segs(md);
    linked(restore(unwrap_blocks(markdown_html(protect_text(gs))), math_spans(gs)), slugs)
}

/// The body HTML of a document under render-and-embed, given what the math
/// renderer returned for each segment.
pub open spec fn embedded_page(md: Seq<char>, outs: Seq<Option<Seq<char>>>, slugs: Seq<Seq<char>>) -> Seq<char> {
    linked(markdown_html(embed_all(segs(md), outs)), slugs)
}

/// Converts a document body to HTML: its math handled as `mode` says, the
/// markdown converted, and its internal links retargeted to the output pages
/// of the documents whose slugs are `slugs`.
pub fn markdown_to_html(markdown: &str, slugs: &Vec<String>, mode: MathMode) -> (r: String)
    ensures
        mode == MathMode::ProtectRestore ==> r@ == protected_page(markdown@, strs_view(slugs@)),
        mode == MathMode::RenderEmbed ==> exists|outs: Seq<Option<Seq<char>>>|
            outcomes_valid(segs(markdown@), outs) && r@ == embedded_page(markdown@, outs, strs_view(slugs@)),
{
    match mode {
        MathMode::RenderEmbed => {
            let processed = render_math(markdown);
            let html = render_markdown(processed.as_str());
            convert_internal_links(html.as_str(), slugs)
        },
        MathMode::ProtectRestore => {
            let protected = protect_math(markdown);
            let html = render_markdown(protected.text.as_str());
            let restored = restore_math(html.as_str(), &protected.spans);
            convert_internal_links(restored.as_str(), slugs)
        },
    }
}

} // verus!
