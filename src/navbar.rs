//! The navigation block of a page: the home entry, then each navigation
//! entry, with every page link made relative to the page's depth.

use vstd::prelude::*;
use crate::site::{Document, Dropdown, DropdownContent, DropdownItem, NavEntry, NavView, UrlEntry,
    entries_view, slugs_of, slugs_of_exec};
use crate::slugs::{first_exact, lemma_first_exact, resolve, resolve_exec, strs_view};
use crate::text::{push_str, str_eq};

verus! {

/// The opening of the navigation block: its style sheet and the list.
pub const NAV_HEAD: &'static str = r#"<nav style="background: #000; padding: 10px; margin-bottom: 20px; border-bottom: 2px solid #333;">
<style>
.dropdown {
    position: relative;
    display: inline-block;
}
.dropdown-content {
    display: none;
    position: absolute;
    background-color: #222;
    min-width: 160px;
    box-shadow: 0px 8px 16px 0px rgba(0,0,0,0.5);
    z-index: 1000;
    top: 100%;
    left: 0;
    margin-top: 0;
    padding-top: 5px;
    border: 1px solid #444;
}
.dropdown:hover .dropdown-content,
.dropdown-content:hover {
    display: block;
}
.dropdown-content::before {
    content: '';
    position: absolute;
    top: -5px;
    left: 0;
    right: 0;
    height: 5px;
    background: transparent;
}
.dropdown-content a {
    color: #fff;
    padding: 12px 16px;
    text-decoration: none;
    display: block;
    white-space: nowrap;
}
.dropdown-content a:link {
    color: #fff;
    text-decoration: none;
}
.dropdown-content a:visited {
    color: #fff;
    text-decoration: none;
}
.dropdown-content a:hover {
    background-color: #333;
    color: #8C6D2C;
    text-decoration: none;
}
.dropdown-content a:active {
    color: #fff;
    text-decoration: none;
}
.dropdown > a {
    color: #fff;
    text-decoration: none;
    font-weight: bold;
    cursor: pointer;
    padding: 5px 0;
    display: block;
    font-family: Arial, sans-serif;
    font-size: 1.25rem;
}
.nav-link {
    color: #fff;
    text-decoration: none;
    font-weight: bold;
    font-family: Arial, sans-serif;
    font-size: 1.25rem;
}
.nav-link:link {
    color: #fff;
    text-decoration: none;
}
.nav-link:visited {
    color: #fff;
    text-decoration: none;
}
.nav-link:hover {
    color: #8C6D2C;
    text-decoration: none;
}
.nav-link:active {
    color: #fff;
    text-decoration: none;
}
.nav-link.active {
    color: #8C6D2C !important;
    text-decoration: none;
}
.nav-link.active:visited {
    color: #8C6D2C !important;
    text-decoration: none;
}
.nav-link.active:hover {
    color: #8C6D2C !important;
    text-decoration: none;
}
</style>
<ul style="list-style: none; margin: 0; padding: 0; display: flex; gap: 20px; align-items: center; font-size: 1.25rem;">
"#;

/// The close of the navigation block.
pub const NAV_TAIL: &'static str = "</ul>\n</nav>\n";

/// The home entry's text when the site has no `index` document.
pub const DEFAULT_HOME_TITLE: &'static str = "IDEEP";

/// The class of a page link, marked when it is the current page.
pub open spec fn link_class(active: bool) -> Seq<char> {
    if active { "nav-link active"@ } else { "nav-link"@ }
}

/// The view of an optional string.
pub open spec fn opt_str(o: Option<&str>) -> Option<Seq<char>> {
    match o {
        Some(s) => Some(s@),
        None => None,
    }
}

/// The title of the document whose slug is exactly `key`.
pub open spec fn title_of(docs: Seq<Document>, key: Seq<char>) -> Option<Seq<char>> {
    let e = first_exact(slugs_of(docs), key, 0);
    if 0 <= e < docs.len() { Some(docs[e].title@) } else { None }
}

/// The text of the home entry: the `index` document's title, or the default.
pub open spec fn home_title(docs: Seq<Document>) -> Seq<char> {
    match title_of(docs, "index"@) {
        Some(t) => t,
        None => DEFAULT_HOME_TITLE@,
    }
}

/// The home entry, always first, linked to the root page through `prefix`.
pub open spec fn home_html(docs: Seq<Document>, current: Option<Seq<char>>, prefix: Seq<char>) -> Seq<char> {
    "  <li><a href=\""@ + prefix + "index.html\" class=\""@ + link_class(current == Some("index"@))
        + "\" style=\"display: flex; align-items: center; gap: 10px;\"><img src=\""@ + prefix
        + "assets/logo-wide.png\" alt=\"Logo\" style=\"height: 40px; width: auto;\">"@ + home_title(docs)
        + "</a></li>\n"@
}

/// One link of a name-to-url dropdown: the key's document title, or the key.
pub open spec fn url_entry_html(e: UrlEntry, docs: Seq<Document>) -> Seq<char> {
    "      <a href=\""@ + e.url@ + "\">"@ + match title_of(docs, e.key@) {
        Some(t) => t,
        None => e.key@,
    } + "</a>\n"@
}

/// One link of an item-sequence dropdown. A bare slug links, through
/// `prefix`, to the document it resolves to, shown by its title (the name
/// itself where it resolves to none); a literal link opens in a new tab and
/// is left out unless both its fields are non-empty.
pub open spec fn item_html(it: DropdownItem, docs: Seq<Document>, prefix: Seq<char>) -> Seq<char> {
    match it {
        DropdownItem::Page(p) => {
            let (target, shown) = match resolve(slugs_of(docs), p@) {
                Some(k) => (docs[k].slug@, docs[k].title@),
                None => (p@, p@),
            };
            "      <a href=\""@ + prefix + target + ".html\">"@ + shown + "</a>\n"@
        },
        DropdownItem::Link { url, text } => if url@.len() > 0 && text@.len() > 0 {
            "      <a href=\""@ + url@ + "\" target=\"_blank\" rel=\"noopener noreferrer\">"@ + text@ + "</a>\n"@
        } else {
            Seq::empty()
        },
    }
}

pub open spec fn url_entries_html(v: Seq<UrlEntry>, docs: Seq<Document>, m: int) -> Seq<char>
    decreases m,
{
    if m <= 0 {
        Seq::empty()
    } else {
        url_entries_html(v, docs, m - 1) + url_entry_html(v[m - 1], docs)
    }
}

pub open spec fn items_html(v: Seq<DropdownItem>, docs: Seq<Document>, prefix: Seq<char>, m: int) -> Seq<char>
    decreases m,
{
    if m <= 0 {
        Seq::empty()
    } else {
        items_html(v, docs, prefix, m - 1) + item_html(v[m - 1], docs, prefix)
    }
}

/// The links inside a dropdown.
pub open spec fn content_html(c: DropdownContent, docs: Seq<Document>, prefix: Seq<char>) -> Seq<char> {
    match c {
        DropdownContent::NameToUrl(v) => url_entries_html(v@, docs, v@.len() as int),
        DropdownContent::Items(v) => items_html(v@, docs, prefix, v@.len() as int),
    }
}

/// Index of the first dropdown named `name`; the list's length if none.
pub open spec fn find_dropdown(ds: Seq<Dropdown>, name: Seq<char>, i: int) -> int
    decreases ds.len() - i,
{
    if i < 0 || i >= ds.len() {
        ds.len() as int
    } else if ds[i].name@ == name {
        i
    } else {
        find_dropdown(ds, name, i + 1)
    }
}

/// The HTML of one navigation entry on a page whose root prefix is `prefix`.
/// A page link to `index` gives nothing (the home entry stands for it), and
/// so does a group whose dropdown is not configured.
pub open spec fn entry_html(e: NavView, ds: Seq<Dropdown>, docs: Seq<Document>, current: Option<Seq<char>>, prefix: Seq<char>) -> Seq<char> {
    match e {
        NavView::Page(slug, title) => if slug == "index"@ {
            Seq::empty()
        } else {
            "  <li><a href=\""@ + prefix + slug + ".html\" class=\""@ + link_class(current == Some(slug))
                + "\">"@ + title + "</a></li>\n"@
        },
        NavView::External(url, text) => "  <li><a href=\""@ + url
            + "\" class=\"nav-link\" target=\"_blank\" rel=\"noopener noreferrer\">"@ + text + "</a></li>\n"@,
        NavView::Group(name) => {
            let i = find_dropdown(ds, name, 0);
            if 0 <= i < ds.len() {
                "  <li class=\"dropdown\">\n    <a>"@ + name + "</a>\n    <div class=\"dropdown-content\">\n"@
                    + content_html(ds[i].content, docs, prefix) + "    </div>\n  </li>\n"@
            } else {
                Seq::empty()
            }
        },
    }
}

pub open spec fn entries_html(es: Seq<NavView>, ds: Seq<Dropdown>, docs: Seq<Document>, current: Option<Seq<char>>, prefix: Seq<char>, m: int) -> Seq<char>
    decreases m,
{
    if m <= 0 {
        Seq::empty()
    } else {
        entries_html(es, ds, docs, current, prefix, m - 1) + entry_html(es[m - 1], ds, docs, current, prefix)
    }
}

/// The whole navigation block.
pub open spec fn navbar_html(es: Seq<NavView>, ds: Seq<Dropdown>, docs: Seq<Document>, current: Option<Seq<char>>, prefix: Seq<char>) -> Seq<char> {
    NAV_HEAD@ + home_html(docs, current, prefix) + entries_html(es, ds, docs, current, prefix, es.len() as int)
        + NAV_TAIL@
}


fn push_link_class(out: &mut String, active: bool)
    ensures
        final(out)@ == old(out)@ + link_class(active),
{
    if active {
        push_str(out, "nav-link active");
    } else {
        push_str(out, "nav-link");
    }
}

/// The index of the document whose slug is exactly `key`, as `title_of` finds it.
fn find_exact_doc(docs: &Vec<Document>, key: &str) -> (r: Option<usize>)
    ensures
        match r {
            Some(k) => k < docs@.len() && title_of(docs@, key@) == Some(docs@[k as int].title@),
            None => title_of(docs@, key@) is None,
        },
{
    let ghost sv = slugs_of(docs@);
    proof { lemma_first_exact(sv, key@, 0); }
    let mut i: usize = 0;
    while i < docs.len()
        invariant
            i <= docs@.len(),
            sv == slugs_of(docs@),
            first_exact(sv, key@, 0) == first_exact(sv, key@, i as int),
        decreases docs@.len() - i,
    {
        assert(sv[i as int] == docs@[i as int].slug@);
        if str_eq(docs[i].slug.as_str(), key) {
            return Some(i);
        }
        i = i + 1;
    }
    None
}

fn push_home(out: &mut String, docs: &Vec<Document>, current: Option<&str>, prefix: &str)
    ensures
        final(out)@ == old(out)@ + home_html(docs@, opt_str(current), prefix@),
{
    push_str(out, "  <li><a href=\"");
    push_str(out, prefix);
    push_str(out, "index.html\" class=\"");
    let active = match current {
        Some(c) => str_eq(c, "index"),
        None => false,
    };
    push_link_class(out, active);
    push_str(out, "\" style=\"display: flex; align-items: center; gap: 10px;\"><img src=\"");
    push_str(out, prefix);
    push_str(out, "assets/logo-wide.png\" alt=\"Logo\" style=\"height: 40px; width: auto;\">");
    match find_exact_doc(docs, "index") {
        Some(k) => push_str(out, docs[k].title.as_str()),
        None => push_str(out, DEFAULT_HOME_TITLE),
    }
    push_str(out, "</a></li>\n");
    assert(final(out)@ =~= old(out)@ + home_html(docs@, opt_str(current), prefix@));
}

fn push_url_entries(out: &mut String, v: &Vec<UrlEntry>, docs: &Vec<Document>)
    ensures
        final(out)@ == old(out)@ + url_entries_html(v@, docs@, v@.len() as int),
{
    let ghost start = out@;
    let mut i: usize = 0;
    while i < v.len()
        invariant
            i <= v@.len(),
            out@ == start + url_entries_html(v@, docs@, i as int),
        decreases v@.len() - i,
    {
        let ghost before = out@;
        let e = &v[i];
        push_str(out, "      <a href=\"");
        push_str(out, e.url.as_str());
        push_str(out, "\">");
        match find_exact_doc(docs, e.key.as_str()) {
            Some(k) => push_str(out, docs[k].title.as_str()),
            None => push_str(out, e.key.as_str()),
        }
        push_str(out, "</a>\n");
        assert(out@ =~= before + url_entry_html(v@[i as int], docs@));
        i = i + 1;
    }
}

fn push_items(out: &mut String, v: &Vec<DropdownItem>, docs: &Vec<Document>, slugs: &Vec<String>, prefix: &str)
    requires
        strs_view(slugs@) == slugs_of(docs@),
    ensures
        final(out)@ == old(out)@ + items_html(v@, docs@, prefix@, v@.len() as int),
{
    let ghost start = out@;
    let mut i: usize = 0;
    while i < v.len()
        invariant
            i <= v@.len(),
            strs_view(slugs@) == slugs_of(docs@),
            out@ == start + items_html(v@, docs@, prefix@, i as int),
        decreases v@.len() - i,
    {
        let ghost before = out@;
        match &v[i] {
            DropdownItem::Page(p) => {
                push_str(out, "      <a href=\"");
                push_str(out, prefix);
                let k = resolve_exec(slugs, p.as_str());
                match k {
                    Some(k) => push_str(out, docs[k].slug.as_str()),
                    None => push_str(out, p.as_str()),
                }
                push_str(out, ".html\">");
                match k {
                    Some(k) => push_str(out, docs[k].title.as_str()),
                    None => push_str(out, p.as_str()),
                }
                push_str(out, "</a>\n");
            },
            DropdownItem::Link { url, text } => {
                if !url.as_str().is_empty() && !text.as_str().is_empty() {
                    push_str(out, "      <a href=\"");
                    push_str(out, url.as_str());
                    push_str(out, "\" target=\"_blank\" rel=\"noopener noreferrer\">");
                    push_str(out, text.as_str());
                    push_str(out, "</a>\n");
                }
            },
        }
        assert(out@ =~= before + item_html(v@[i as int], docs@, prefix@));
        i = i + 1;
    }
}

fn find_dropdown_exec(ds: &Vec<Dropdown>, name: &str) -> (r: usize)
    ensures
        r as int == find_dropdown(ds@, name@, 0),
{
    let mut i: usize = 0;
    while i < ds.len()
        invariant
            i <= ds@.len(),
            find_dropdown(ds@, name@, 0) == find_dropdown(ds@, name@, i as int),
        decreases ds@.len() - i,
    {
        if str_eq(ds[i].name.as_str(), name) {
            return i;
        }
        i = i + 1;
    }
    i
}

fn push_entry_html(out: &mut String, e: &NavEntry, ds: &Vec<Dropdown>, docs: &Vec<Document>, slugs: &Vec<String>, current: Option<&str>, prefix: &str)
    requires
        strs_view(slugs@) == slugs_of(docs@),
    ensures
        final(out)@ == old(out)@ + entry_html(e@, ds@, docs@, opt_str(current), prefix@),
{
    match e {
        NavEntry::PageLink { slug, title } => {
            if !str_eq(slug.as_str(), "index") {
                push_str(out, "  <li><a href=\"");
                push_str(out, prefix);
                push_str(out, slug.as_str());
                push_str(out, ".html\" class=\"");
                let active = match current {
                    Some(c) => str_eq(c, slug.as_str()),
                    None => false,
                };
                push_link_class(out, active);
                push_str(out, "\">");
                push_str(out, title.as_str());
                push_str(out, "</a></li>\n");
            }
        },
        NavEntry::ExternalLink { url, text } => {
            push_str(out, "  <li><a href=\"");
            push_str(out, url.as_str());
            push_str(out, "\" class=\"nav-link\" target=\"_blank\" rel=\"noopener noreferrer\">");
            push_str(out, text.as_str());
            push_str(out, "</a></li>\n");
        },
        NavEntry::DropdownGroup { name } => {
            let i = find_dropdown_exec(ds, name.as_str());
            if i < ds.len() {
                push_str(out, "  <li class=\"dropdown\">\n    <a>");
                push_str(out, name.as_str());
                push_str(out, "</a>\n    <div class=\"dropdown-content\">\n");
                match &ds[i].content {
                    DropdownContent::NameToUrl(v) => push_url_entries(out, v, docs),
                    DropdownContent::Items(v) => push_items(out, v, docs, slugs, prefix),
                }
                push_str(out, "    </div>\n  </li>\n");
            }
        },
    }
    assert(final(out)@ =~= old(out)@ + entry_html(e@, ds@, docs@, opt_str(current), prefix@));
}

/// The navigation block of the page `current_page`, whose root prefix is
/// `asset_prefix`: the home entry, then one item per entry, as `navbar_html`
/// states it. The entry of the current page is marked active.
pub fn generate_navbar(entries: &Vec<NavEntry>, dropdowns: &Vec<Dropdown>, docs: &Vec<Document>, current_page: Option<&str>, asset_prefix: &str) -> (r: String)
    ensures
        r@ == navbar_html(entries_view(entries@), dropdowns@, docs@, opt_str(current_page), asset_prefix@),
{
    let ghost es = entries_view(entries@);
    let slugs = slugs_of_exec(docs);
    let mut out = String::new();
    push_str(&mut out, NAV_HEAD);
    push_home(&mut out, docs, current_page, asset_prefix);
    let ghost head = out@;
    let mut i: usize = 0;
    while i < entries.len()
        invariant
            i <= entries@.len(),
            es == entries_view(entries@),
            strs_view(slugs@) == slugs_of(docs@),
            out@ == head + entries_html(es, dropdowns@, docs@, opt_str(current_page), asset_prefix@, i as int),
        decreases entries@.len() - i,
    {
        push_entry_html(&mut out, &entries[i], dropdowns, docs, &slugs, current_page, asset_prefix);
        assert(es[i as int] == entries@[i as int]@);
        i = i + 1;
    }
    push_str(&mut out, NAV_TAIL);
    assert(out@ =~= navbar_html(es, dropdowns@, docs@, opt_str(current_page), asset_prefix@));
    out
}

} // verus!
