use sitegen::embed::{embed_math, trim};
use sitegen::math::{scan_math, Delim, MathSpan, Segment};
use sitegen::placeholder::{protect_math, restore_math, restore_placeholders, unwrap_block_paragraphs};

fn describe(segs: &[Segment]) -> Vec<String> {
    segs.iter()
        .map(|s| match s {
            Segment::Text(t) => format!("T:{}", t),
            Segment::Math(m) => format!("M:{:?}:{}", m.delim, m.tex),
        })
        .collect()
}

#[test]
fn scans_all_four_grammars() {
    let segs = scan_math("a $x$ b $$y$$ c \\(z\\) d \\[w\\]");
    assert_eq!(
        describe(&segs),
        vec![
            "T:a ", "M:Dollar:x", "T: b ", "M:DoubleDollar:y", "T: c ", "M:Paren:z", "T: d ",
            "M:Bracket:w",
        ]
    );
}

#[test]
fn inline_math_stops_at_newline() {
    let segs = scan_math("cost $5 each\nand $x$");
    assert_eq!(describe(&segs), vec!["T:cost ", "T:$5 each\n", "T:and ", "M:Dollar:x"]);
}

#[test]
fn newline_inline_text_survives_protection() {
    let input = "price $3\nnext line";
    let p = protect_math(input);
    assert_eq!(p.text, input);
    assert!(p.spans.is_empty());
}

#[test]
fn unterminated_display_dollars_pass_through() {
    let p = protect_math("before $$x + y and $z$");
    assert_eq!(p.text, "before $$x + y and $z$");
    assert!(p.spans.is_empty());
}

#[test]
fn unterminated_inline_dollar_passes_through() {
    let p = protect_math("cost $5");
    assert_eq!(p.text, "cost $5");
}

#[test]
fn unterminated_paren_passes_through() {
    let p = protect_math("see \\(a + b");
    assert_eq!(p.text, "see \\(a + b");
}

#[test]
fn unterminated_bracket_passes_through() {
    let p = protect_math("see \\[a + b \\)");
    assert_eq!(p.text, "see \\[a + b \\)");
}

#[test]
fn lone_backslash_is_text() {
    let segs = scan_math("a\\b");
    assert_eq!(describe(&segs), vec!["T:a", "T:\\", "T:b"]);
}

#[test]
fn protection_numbers_spans_with_kinds() {
    let p = protect_math("$a$ and $$b$$");
    assert_eq!(p.text, "\u{E000}I0\u{E001} and \u{E000}B1\u{E001}");
    assert_eq!(p.spans.len(), 2);
    assert_eq!(p.spans[0].tex, "a");
    assert_eq!(p.spans[1].delim, Delim::DoubleDollar);
}

#[test]
fn round_trip_restores_source_exactly() {
    let input = "x $ a_1 * b $ y\n$$\n  \\sum_i i \n$$\nz \\( c \\) w \\[ d \\]";
    let p = protect_math(input);
    assert_eq!(p.spans.len(), 4);
    assert_eq!(restore_placeholders(&p.text, &p.spans), input);
}

#[test]
fn round_trip_with_many_spans() {
    let mut input = String::new();
    for i in 0..12 {
        input.push_str(&format!("t{} ${}$ ", i, i));
    }
    let p = protect_math(&input);
    assert_eq!(p.spans.len(), 12);
    assert!(p.text.contains("\u{E000}I11\u{E001}"));
    assert_eq!(restore_placeholders(&p.text, &p.spans), input);
}

#[test]
fn restore_ignores_unknown_tokens() {
    let spans = vec![MathSpan { delim: Delim::Dollar, tex: "q".to_string() }];
    assert_eq!(restore_placeholders("\u{E000}I7\u{E001}", &spans), "\u{E000}I7\u{E001}");
    assert_eq!(restore_placeholders("\u{E000}B0\u{E001}", &spans), "\u{E000}B0\u{E001}");
    assert_eq!(restore_placeholders("<\u{E000}I0\u{E001}>", &spans), "<$q$>");
}

#[test]
fn block_paragraph_wrapper_is_removed() {
    let spans = vec![MathSpan { delim: Delim::DoubleDollar, tex: "x".to_string() }];
    let html = "<p>\u{E000}B0\u{E001}</p>\n<p>text</p>";
    assert_eq!(unwrap_block_paragraphs(html), "\u{E000}B0\u{E001}\n<p>text</p>");
    assert_eq!(restore_math(html, &spans), "$$x$$\n<p>text</p>");
}

#[test]
fn inline_token_keeps_its_paragraph() {
    let spans = vec![MathSpan { delim: Delim::Dollar, tex: "x".to_string() }];
    assert_eq!(restore_math("<p>\u{E000}I0\u{E001}</p>", &spans), "<p>$x$</p>");
}

#[test]
fn failed_render_gives_error_element() {
    let segs = scan_math("a $x$ b $$y$$");
    let rendered = vec![None, None, None, None];
    assert_eq!(
        embed_math(&segs, &rendered),
        "a <code class=\"math-error\">x</code> b <pre class=\"math-error\">y</pre>"
    );
}

#[test]
fn rendered_markup_replaces_span() {
    let segs = scan_math("a $x$");
    let rendered = vec![None, Some("<span>X</span>".to_string())];
    assert_eq!(embed_math(&segs, &rendered), "a <span>X</span>");
}

#[test]
fn trim_removes_unicode_white_space() {
    assert_eq!(trim("  \t a b \n\u{3000}"), "a b");
    assert_eq!(trim("   "), "");
    assert_eq!(trim("x"), "x");
}
