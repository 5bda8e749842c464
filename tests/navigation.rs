use sitegen::nav::build_nav_entries;
use sitegen::navbar::{generate_navbar, NAV_HEAD, NAV_TAIL};
use sitegen::order::order_documents;
use sitegen::site::{
    Document, Dropdown, DropdownContent, DropdownItem, NavEntry, OrderItem, SiteConfig, UrlEntry,
};

fn doc(slug: &str, title: &str) -> Document {
    Document { slug: slug.to_string(), title: title.to_string() }
}

fn slugs_of(docs: &[Document]) -> Vec<String> {
    docs.iter().map(|d| d.slug.clone()).collect()
}

fn name(s: &str) -> OrderItem {
    OrderItem::Name(s.to_string())
}

fn page_slugs(entries: &[NavEntry]) -> Vec<String> {
    entries
        .iter()
        .map(|e| match e {
            NavEntry::PageLink { slug, .. } => format!("page:{}", slug),
            NavEntry::ExternalLink { url, .. } => format!("link:{}", url),
            NavEntry::DropdownGroup { name } => format!("group:{}", name),
        })
        .collect()
}

#[test]
fn page_order_sorts_listed_then_unlisted() {
    let docs = vec![doc("c", "C"), doc("a", "A"), doc("index", "I"), doc("b", "B")];
    let order = vec![name("b"), name("a")];
    let sorted = order_documents(docs, Some(&order));
    assert_eq!(slugs_of(&sorted), vec!["index", "b", "a", "c"]);
}

#[test]
fn default_order_is_index_then_alphabetical() {
    let docs = vec![doc("zeta", "Z"), doc("math/sir", "S"), doc("index", "I"), doc("alpha", "A")];
    let sorted = order_documents(docs, None);
    assert_eq!(slugs_of(&sorted), vec!["index", "alpha", "math/sir", "zeta"]);
}

#[test]
fn order_list_matches_final_segment() {
    let docs = vec![doc("x", "X"), doc("math/sir", "S")];
    let order = vec![name("sir")];
    let sorted = order_documents(docs, Some(&order));
    assert_eq!(slugs_of(&sorted), vec!["math/sir", "x"]);
}

#[test]
fn ordering_ignores_discovery_order() {
    let order = vec![name("b")];
    let one = order_documents(vec![doc("a", "A"), doc("b", "B"), doc("c", "C")], Some(&order));
    let two = order_documents(vec![doc("c", "C"), doc("b", "B"), doc("a", "A")], Some(&order));
    assert_eq!(slugs_of(&one), slugs_of(&two));
}

fn config_with(dropdowns: Vec<Dropdown>) -> SiteConfig {
    SiteConfig { page_order: None, navbar_order: None, dropdowns }
}

#[test]
fn item_sequence_dropdown_hides_its_pages() {
    let docs = vec![doc("index", "Home"), doc("a", "A"), doc("b", "B")];
    let config = config_with(vec![Dropdown {
        name: "More".to_string(),
        content: DropdownContent::Items(vec![DropdownItem::Page("b".to_string())]),
    }]);
    let entries = build_nav_entries(&docs, &config);
    assert_eq!(page_slugs(&entries), vec!["page:a", "group:More"]);
}

#[test]
fn name_to_url_dropdown_hides_nothing() {
    let docs = vec![doc("index", "Home"), doc("a", "A"), doc("b", "B")];
    let config = config_with(vec![Dropdown {
        name: "Syllabi".to_string(),
        content: DropdownContent::NameToUrl(vec![UrlEntry {
            key: "b".to_string(),
            url: "https://s/b.pdf".to_string(),
        }]),
    }]);
    let entries = build_nav_entries(&docs, &config);
    assert_eq!(page_slugs(&entries), vec!["page:a", "page:b", "group:Syllabi"]);
}

#[test]
fn page_order_entries_then_dropdowns() {
    let docs = vec![doc("index", "Home"), doc("a", "A"), doc("b", "B")];
    let mut config = config_with(vec![Dropdown {
        name: "More".to_string(),
        content: DropdownContent::Items(vec![DropdownItem::Page("a".to_string())]),
    }]);
    config.page_order = Some(vec![
        name("index"),
        name("b"),
        name("a"),
        OrderItem::Table { dropdown: None, url: Some("https://u".to_string()), text: Some("U".to_string()) },
        name("missing"),
    ]);
    let entries = build_nav_entries(&docs, &config);
    assert_eq!(page_slugs(&entries), vec!["page:b", "link:https://u", "group:More"]);
}

#[test]
fn navbar_order_takes_precedence() {
    let docs = vec![doc("index", "Home"), doc("a", "A"), doc("b", "B")];
    let mut config = config_with(vec![Dropdown {
        name: "More".to_string(),
        content: DropdownContent::Items(vec![DropdownItem::Page("a".to_string())]),
    }]);
    config.page_order = Some(vec![name("b")]);
    config.navbar_order = Some(vec![
        name("a"),
        name("More"),
        name("index"),
        OrderItem::Table { dropdown: Some("Other".to_string()), url: None, text: None },
        OrderItem::Table { dropdown: None, url: Some("https://u".to_string()), text: None },
    ]);
    let entries = build_nav_entries(&docs, &config);
    assert_eq!(page_slugs(&entries), vec!["page:a", "group:More", "group:Other"]);
}

#[test]
fn navbar_marks_current_page_and_prefixes_links() {
    let docs = vec![doc("index", "Home"), doc("math/sir", "SIR")];
    let entries = vec![
        NavEntry::PageLink { slug: "math/sir".to_string(), title: "SIR".to_string() },
        NavEntry::ExternalLink { url: "https://x".to_string(), text: "X".to_string() },
    ];
    let html = generate_navbar(&entries, &Vec::new(), &docs, Some("math/sir"), "../");
    assert!(html.starts_with(NAV_HEAD));
    assert!(html.ends_with(NAV_TAIL));
    assert!(html.contains("<li><a href=\"../index.html\" class=\"nav-link\""));
    assert!(html.contains("<img src=\"../assets/logo-wide.png\""));
    assert!(html.contains(">Home</a></li>"));
    assert!(html.contains("  <li><a href=\"../math/sir.html\" class=\"nav-link active\">SIR</a></li>\n"));
    assert!(html.contains(
        "  <li><a href=\"https://x\" class=\"nav-link\" target=\"_blank\" rel=\"noopener noreferrer\">X</a></li>\n"
    ));
}

#[test]
fn navbar_home_entry_active_on_index() {
    let docs = vec![doc("a", "A")];
    let html = generate_navbar(&Vec::new(), &Vec::new(), &docs, Some("index"), "");
    assert!(html.contains("<li><a href=\"index.html\" class=\"nav-link active\""));
    assert!(html.contains(">IDEEP</a></li>"));
}

#[test]
fn navbar_renders_dropdowns() {
    let docs = vec![doc("index", "Home"), doc("guides/setup", "Setup")];
    let dropdowns = vec![
        Dropdown {
            name: "Res".to_string(),
            content: DropdownContent::Items(vec![
                DropdownItem::Page("setup".to_string()),
                DropdownItem::Page("nothing".to_string()),
                DropdownItem::Link { url: "https://e".to_string(), text: "E".to_string() },
                DropdownItem::Link { url: "".to_string(), text: "skipped".to_string() },
            ]),
        },
        Dropdown {
            name: "Syl".to_string(),
            content: DropdownContent::NameToUrl(vec![
                UrlEntry { key: "index".to_string(), url: "u1".to_string() },
                UrlEntry { key: "zz".to_string(), url: "u2".to_string() },
            ]),
        },
    ];
    let entries = vec![
        NavEntry::DropdownGroup { name: "Res".to_string() },
        NavEntry::DropdownGroup { name: "Syl".to_string() },
        NavEntry::DropdownGroup { name: "Absent".to_string() },
    ];
    let html = generate_navbar(&entries, &dropdowns, &docs, None, "../");
    let expected_res = "  <li class=\"dropdown\">\n    <a>Res</a>\n    <div class=\"dropdown-content\">\n      <a href=\"../guides/setup.html\">Setup</a>\n      <a href=\"../nothing.html\">nothing</a>\n      <a href=\"https://e\" target=\"_blank\" rel=\"noopener noreferrer\">E</a>\n    </div>\n  </li>\n";
    let expected_syl = "  <li class=\"dropdown\">\n    <a>Syl</a>\n    <div class=\"dropdown-content\">\n      <a href=\"u1\">Home</a>\n      <a href=\"u2\">zz</a>\n    </div>\n  </li>\n";
    assert!(html.contains(expected_res));
    assert!(html.contains(expected_syl));
    assert!(!html.contains("Absent"));
    assert!(!html.contains("skipped"));
}
