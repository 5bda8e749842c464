//! The page template: the complete HTML document around a rendered body
//! and its navigation block.

use vstd::prelude::*;
use crate::text::push_str;

verus! {

pub const PAGE_OPEN: &'static str = r#"<!DOCTYPE html>
<html lang="en">
<head>
    <meta charset="UTF-8">
    <meta name="viewport" content="width=device-width, initial-scale=1.0">
    <title>"#;

pub const PAGE_AFTER_TITLE: &'static str = r#"</title>
    <link rel="icon" type="image/png" href=""#;

pub const PAGE_AFTER_ICON: &'static str = r#"assets/logo.png" />
    <link rel="stylesheet" href=""#;

pub const PAGE_AFTER_STYLES: &'static str = r#"assets/styles.css" type="text/css" />
    <script src="https://kit.fontawesome.com/1ffe760482.js" crossorigin="anonymous"></script>
    <!-- Highlight.js for code syntax highlighting -->
    <link rel="stylesheet" href="https://cdnjs.cloudflare.com/ajax/libs/highlight.js/11.9.0/styles/default.min.css">
    <script src="https://cdnjs.cloudflare.com/ajax/libs/highlight.js/11.9.0/highlight.min.js"></script>
    <script src="https://cdnjs.cloudflare.com/ajax/libs/highlight.js/11.9.0/languages/bash.min.js"></script>
    <script src="https://cdnjs.cloudflare.com/ajax/libs/highlight.js/11.9.0/languages/julia.min.js"></script>
    <script src="https://cdnjs.cloudflare.com/ajax/libs/highlight.js/11.9.0/languages/r.min.js"></script>
    <script src="https://cdnjs.cloudflare.com/ajax/libs/highlight.js/11.9.0/languages/python.min.js"></script>
    <script src="https://cdnjs.cloudflare.com/ajax/libs/highlight.js/11.9.0/languages/rust.min.js"></script>
    <script src="https://cdnjs.cloudflare.com/ajax/libs/highlight.js/11.9.0/languages/go.min.js"></script>
    <script src="https://cdnjs.cloudflare.com/ajax/libs/highlight.js/11.9.0/languages/javascript.min.js"></script>
    <script src="https://cdnjs.cloudflare.com/ajax/libs/highlight.js/11.9.0/languages/typescript.min.js"></script>
    <script src="https://cdnjs.cloudflare.com/ajax/libs/highlight.js/11.9.0/languages/java.min.js"></script>
    <script src="https://cdnjs.cloudflare.com/ajax/libs/highlight.js/11.9.0/languages/cpp.min.js"></script>
    <script src="https://cdnjs.cloudflare.com/ajax/libs/highlight.js/11.9.0/languages/c.min.js"></script>
    <script src="https://cdnjs.cloudflare.com/ajax/libs/highlight.js/11.9.0/languages/sql.min.js"></script>
    <script src="https://cdnjs.cloudflare.com/ajax/libs/highlight.js/11.9.0/languages/yaml.min.js"></script>
    <script src="https://cdnjs.cloudflare.com/ajax/libs/highlight.js/11.9.0/languages/json.min.js"></script>
    <script src="https://cdnjs.cloudflare.com/ajax/libs/highlight.js/11.9.0/languages/xml.min.js"></script>
    <script src="https://cdnjs.cloudflare.com/ajax/libs/highlight.js/11.9.0/languages/markdown.min.js"></script>
    <script>
    document.addEventListener('DOMContentLoaded', function() {
        hljs.highlightAll();
    });
    </script>
    <style>
    body {
        font-family: Arial, sans-serif;
        padding-bottom: 0;
        margin-bottom: 0;
    }
    h1 {
        font-family: Garamond, serif;
    }
    #content {
        font-family: Arial, sans-serif;
        margin-bottom: 40px;
    }
    .blogbody {
        font-family: Arial, sans-serif;
        padding-bottom: 20px;
    }
    
    /* Code block styling */
    pre {
        background-color: #f4f4f4;
        border: 1px solid #ddd;
        border-radius: 4px;
        padding: 15px;
        overflow-x: auto;
        margin: 20px 0;
    }
    
    code {
        font-family: 'Courier New', Courier, monospace;
        font-size: 0.9em;
    }
    
    pre code {
        display: block;
        padding: 0;
        background: transparent;
        border: none;
    }
    
    /* Mobile responsive styles */
    @media screen and (max-width: 768px) {
        #content {
            margin-left: 10px;
            margin-right: 10px;
            width: calc(100% - 20px);
            padding: 10px;
        }
        
        nav ul {
            flex-direction: column;
            gap: 10px !important;
            align-items: flex-start !important;
        }
        
        nav li {
            width: 100%;
        }
        
        .nav-link {
            display: block;
            padding: 10px 0;
        }
        
        .dropdown {
            width: 100%;
        }
        
        .dropdown > a {
            width: 100%;
            padding: 10px 0;
        }
        
        .dropdown-content {
            position: relative;
            width: 100%;
            box-shadow: none;
            border: none;
            margin-top: 5px;
        }
        
        .blogbody {
            font-size: 0.9rem;
            line-height: 1.6;
        }
        
        h1 {
            font-size: 1.8rem;
        }
        
        h2 {
            font-size: 1.4rem;
        }
        
        h3 {
            font-size: 1.2rem;
        }
    }
    
    @media screen and (max-width: 480px) {
        nav {
            padding: 5px;
        }
        
        nav ul {
            font-size: 1rem !important;
        }
        
        .nav-link img {
            height: 30px !important;
        }
        
        #content {
            margin-left: 5px;
            margin-right: 5px;
            width: calc(100% - 10px);
            padding: 5px;
        }
        
        .blogbody {
            font-size: 0.85rem;
        }
        
        h1 {
            font-size: 1.5rem;
        }
    }
    </style>
    "#;

pub const PAGE_AFTER_HEAD: &'static str = r#"
</head>
<body>
    "#;

pub const PAGE_AFTER_NAV: &'static str = r#"
    <div id="content">
        <div class="blogbody">
            "#;

pub const PAGE_AFTER_CONTENT: &'static str = r#"
        </div>
    </div>
    "#;

pub const PAGE_CLOSE: &'static str = r#"
</body>
</html>"#;

/// The style sheet link of the math fonts, relative to the page's depth.
pub open spec fn katex_css(prefix: Seq<char>) -> Seq<char> {
    "<link rel=\"stylesheet\" href=\""@ + prefix + "assets/vendor/katex/katex.min.css\" type=\"text/css\" />"@
}

/// The HTML document of a page.
pub open spec fn page_html(title: Seq<char>, content: Seq<char>, navbar: Seq<char>, prefix: Seq<char>, footer: Seq<char>) -> Seq<char> {
    PAGE_OPEN@ + title + PAGE_AFTER_TITLE@ + prefix + PAGE_AFTER_ICON@ + prefix + PAGE_AFTER_STYLES@
        + katex_css(prefix) + PAGE_AFTER_HEAD@ + navbar + PAGE_AFTER_NAV@ + content + PAGE_AFTER_CONTENT@
        + footer + PAGE_CLOSE@
}

/// Assembles the HTML document of a page from its title, rendered body,
/// navigation block, root prefix and footer.
pub fn generate_html(title: &str, content: &str, navbar: &str, asset_prefix: &str, footer: &str) -> (r: String)
    ensures
        r@ == page_html(title@, content@, navbar@, asset_prefix@, footer@),
{
    let mut out = String::new();
    push_str(&mut out, PAGE_OPEN);
    push_str(&mut out, title);
    push_str(&mut out, PAGE_AFTER_TITLE);
    push_str(&mut out, asset_prefix);
    push_str(&mut out, PAGE_AFTER_ICON);
    push_str(&mut out, asset_prefix);
    push_str(&mut out, PAGE_AFTER_STYLES);
    push_str(&mut out, "<link rel=\"stylesheet\" href=\"");
    push_str(&mut out, asset_prefix);
    push_str(&mut out, "assets/vendor/katex/katex.min.css\" type=\"text/css\" />");
    push_str(&mut out, PAGE_AFTER_HEAD);
    push_str(&mut out, navbar);
    push_str(&mut out, PAGE_AFTER_NAV);
    push_str(&mut out, content);
    push_str(&mut out, PAGE_AFTER_CONTENT);
    push_str(&mut out, footer);
    push_str(&mut out, PAGE_CLOSE);
    assert(out@ =~= page_html(title@, content@, navbar@, asset_prefix@, footer@));
    out
}

} // verus!
