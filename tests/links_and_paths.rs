use sitegen::links::{convert_internal_links, rewrite_href};
use sitegen::slugs::{is_ambiguous_exec, resolve_exec};
use sitegen::paths::{calculate_asset_prefix, calculate_relative_link_path, path_depth};

fn slugs(v: &[&str]) -> Vec<String> {
    v.iter().map(|s| s.to_string()).collect()
}

#[test]
fn external_hrefs_stay() {
    let known = slugs(&["page"]);
    for h in ["https://x", "#frag", "/abs", "mailto:a@b", "http://y", "ftp://z"] {
        assert_eq!(rewrite_href(h, &known), None);
    }
}

#[test]
fn internal_hrefs_are_retargeted() {
    let known = slugs(&["page"]);
    assert_eq!(rewrite_href("page.md", &known), Some("page.html".to_string()));
    assert_eq!(rewrite_href("page.md#sec", &known), Some("page.html#sec".to_string()));
    assert_eq!(rewrite_href("page", &known), Some("page.html".to_string()));
}

#[test]
fn bare_name_resolves_by_final_segment() {
    let known = slugs(&["index", "math/sir"]);
    assert_eq!(rewrite_href("sir?x=1", &known), Some("math/sir.html?x=1".to_string()));
    assert_eq!(rewrite_href("other", &known), None);
    assert_eq!(rewrite_href("img.png", &known), None);
}

#[test]
fn exact_slug_wins_over_segment() {
    let known = slugs(&["a/sir", "sir"]);
    assert_eq!(rewrite_href("sir", &known), Some("sir.html".to_string()));
}

#[test]
fn split_at_first_of_hash_or_question() {
    let known = slugs(&["page"]);
    assert_eq!(rewrite_href("page.md?a#b", &known), Some("page.html?a#b".to_string()));
}

#[test]
fn anchors_in_html_are_rewritten() {
    let known = slugs(&["page"]);
    let html = "<p><a href=\"https://x\">e</a> <a href=\"page.md#sec\" title=\"t\">p</a> <a href=\"page\">q</a></p>";
    assert_eq!(
        convert_internal_links(html, &known),
        "<p><a href=\"https://x\">e</a> <a href=\"page.html#sec\" title=\"t\">p</a> <a href=\"page.html\">q</a></p>"
    );
}

#[test]
fn html_without_anchors_is_unchanged() {
    let known = slugs(&["page"]);
    assert_eq!(convert_internal_links("<p>page.md</p>", &known), "<p>page.md</p>");
}

#[test]
fn asset_prefix_follows_depth() {
    assert_eq!(calculate_asset_prefix("math/sir.md"), "../");
    assert_eq!(calculate_asset_prefix("index.md"), "");
    assert_eq!(calculate_asset_prefix("a/b/c.md"), "../../");
    assert_eq!(path_depth("math/sir"), 1);
}

#[test]
fn relative_links_go_through_the_root() {
    assert_eq!(calculate_relative_link_path("math/sir.md", "index"), "../index.html");
    assert_eq!(calculate_relative_link_path("index.md", "math/sir"), "math/sir.html");
    assert_eq!(calculate_relative_link_path("math/a.md", "math/b"), "../math/b.html");
}

#[test]
fn shared_final_segment_is_ambiguous() {
    let known = slugs(&["a/intro", "b/intro", "c"]);
    assert!(is_ambiguous_exec(&known, "intro"));
    assert!(!is_ambiguous_exec(&known, "c"));
    assert!(!is_ambiguous_exec(&known, "a/intro"));
    assert_eq!(resolve_exec(&known, "intro"), Some(0));
    let with_exact = slugs(&["a/intro", "b/intro", "intro"]);
    assert!(!is_ambiguous_exec(&with_exact, "intro"));
    assert_eq!(resolve_exec(&with_exact, "intro"), Some(2));
}
