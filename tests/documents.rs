use sitegen::frontmatter::{
    document_title, extract_frontmatter, is_html_text_exec, is_readme_exec, slug_from_path,
    split_frontmatter, FrontMatter,
};
use sitegen::page::generate_html;
use sitegen::pipeline::{markdown_to_html, math_mode_named, MathMode};

#[test]
fn frontmatter_is_split_off() {
    let content = "---\ntitle: Hello\n---\n# Body\n";
    assert_eq!(
        split_frontmatter(content),
        Some(("title: Hello\n".to_string(), "# Body\n".to_string()))
    );
    let parsed = Some(FrontMatter { title: Some("Hello".to_string()) });
    let (fm, body) = extract_frontmatter(content, parsed.clone());
    assert_eq!(fm, parsed);
    assert_eq!(body, "# Body\n");
}

#[test]
fn frontmatter_without_close_keeps_everything() {
    let content = "---\ntitle: x\n# Body\n";
    assert_eq!(split_frontmatter(content), None);
    let (fm, body) = extract_frontmatter(content, Some(FrontMatter { title: None }));
    assert_eq!(fm, None);
    assert_eq!(body, content);
}

#[test]
fn failed_metadata_parse_keeps_everything() {
    let content = "---\n: : :\n---\nbody";
    let (fm, body) = extract_frontmatter(content, None);
    assert_eq!(fm, None);
    assert_eq!(body, content);
}

#[test]
fn no_marker_means_no_metadata() {
    assert_eq!(split_frontmatter("# Title\n---\n"), None);
    assert_eq!(split_frontmatter("---\n---\nrest"), Some((String::new(), "rest".to_string())));
}

#[test]
fn titles_fall_back_to_stem() {
    assert_eq!(document_title(Some("T".to_string()), Some("stem")), "T");
    assert_eq!(document_title(None, Some("stem")), "stem");
    assert_eq!(document_title(None, None), "Untitled");
}

#[test]
fn readme_and_html_files_are_not_documents() {
    assert!(is_readme_exec("README"));
    assert!(is_readme_exec("ReadMe"));
    assert!(!is_readme_exec("readmes"));
    assert!(is_html_text_exec("  \n<!DOCTYPE html><html>"));
    assert!(is_html_text_exec("<html>"));
    assert!(!is_html_text_exec("# <html>"));
}

#[test]
fn slugs_drop_extension_and_normalize() {
    assert_eq!(slug_from_path("math/sir.md"), "math/sir");
    assert_eq!(slug_from_path("math\\sir.md"), "math/sir");
    assert_eq!(slug_from_path("index.md"), "index");
}

#[test]
fn protected_pipeline_keeps_math_source() {
    let slugs = vec!["page".to_string()];
    let md = "Text with $a_1 * b_2$ and [link](page.md).\n\n$$\nx_1 * y_2\n$$\n";
    let html = markdown_to_html(md, &slugs, MathMode::ProtectRestore);
    assert!(html.contains("$a_1 * b_2$"));
    assert!(html.contains("$$\nx_1 * y_2\n$$"));
    assert!(!html.contains("<p>$$"));
    assert!(html.contains("<a href=\"page.html\">link</a>"));
}

#[test]
fn pipeline_is_repeatable() {
    let slugs = vec!["a".to_string(), "math/sir".to_string()];
    let md = "# T\n\nSee [s](sir) and $x^2$.\n";
    let one = markdown_to_html(md, &slugs, MathMode::ProtectRestore);
    let two = markdown_to_html(md, &slugs, MathMode::ProtectRestore);
    assert_eq!(one, two);
    assert_eq!(one, "<h1>T</h1>\n<p>See <a href=\"math/sir.html\">s</a> and $x^2$.</p>\n");
}

#[test]
fn markdown_is_converted() {
    let html = markdown_to_html("# Title\n\n*em*\n", &Vec::new(), MathMode::ProtectRestore);
    assert_eq!(html, "<h1>Title</h1>\n<p><em>em</em></p>\n");
}

#[test]
fn rendered_math_is_typeset() {
    let html = markdown_to_html("Inline $x^2$ here.\n", &Vec::new(), MathMode::RenderEmbed);
    assert!(!html.contains("$x^2$"));
    assert!(html.contains("katex"));
    let again = markdown_to_html("Inline $x^2$ here.\n", &Vec::new(), MathMode::RenderEmbed);
    assert_eq!(html, again);
}

#[test]
fn page_template_places_its_parts() {
    let html = generate_html("T", "<p>body</p>", "<nav></nav>", "../", "<footer/>");
    assert!(html.starts_with("<!DOCTYPE html>"));
    assert!(html.contains("<title>T</title>"));
    assert!(html.contains("href=\"../assets/logo.png\""));
    assert!(html.contains("href=\"../assets/vendor/katex/katex.min.css\""));
    assert!(html.contains("<nav></nav>"));
    assert!(html.contains("<p>body</p>"));
    assert!(html.contains("<footer/>"));
    assert!(html.ends_with("</html>"));
    assert!(html.contains("hljs.highlightAll();\n    });"));
}

#[test]
fn math_modes_are_named() {
    assert_eq!(math_mode_named("render"), Some(MathMode::RenderEmbed));
    assert_eq!(math_mode_named("protect"), Some(MathMode::ProtectRestore));
    assert_eq!(math_mode_named("tex"), None);
}
