//! The site's data model: documents, the site configuration's ordering and
//! grouping directives, and navigation entries.

use vstd::prelude::*;

verus! {

/// A discovered document: its slug (path from the content root without the
/// extension, with `/` separators) and its display title.
#[derive(Clone, Debug)]
pub struct Document {
    pub slug: String,
    pub title: String,
}

/// An entry of an ordering list of the configuration.
#[derive(Clone, Debug)]
pub enum OrderItem {
    /// A bare string: a document slug, a file name, or a dropdown's name.
    Name(String),
    /// A mapping: a reference `{dropdown: name}` or an external link
    /// `{url, text}`; the keys that were absent or not strings are `None`.
    Table { dropdown: Option<String>, url: Option<String>, text: Option<String> },
}

/// One key of a name-to-url dropdown.
#[derive(Clone, Debug)]
pub struct UrlEntry {
    pub key: String,
    pub url: String,
}

/// One item of an item-sequence dropdown.
#[derive(Clone, Debug)]
pub enum DropdownItem {
    /// A bare document slug or file name.
    Page(String),
    /// A literal link; empty where the configuration gave no string.
    Link { url: String, text: String },
}

/// What a dropdown group holds.
#[derive(Clone, Debug)]
pub enum DropdownContent {
    /// Ordered key to url pairs; the urls are taken as they are.
    NameToUrl(Vec<UrlEntry>),
    /// Document slugs and literal links.
    Items(Vec<DropdownItem>),
}

/// A named dropdown group of the configuration.
#[derive(Clone, Debug)]
pub struct Dropdown {
    pub name: String,
    pub content: DropdownContent,
}

/// The site configuration: the optional ordering lists and the dropdown
/// groups, in the configuration's own key order.
#[derive(Clone, Debug)]
pub struct SiteConfig {
    pub page_order: Option<Vec<OrderItem>>,
    pub navbar_order: Option<Vec<OrderItem>>,
    pub dropdowns: Vec<Dropdown>,
}

/// An entry of the navigation list.
#[derive(Clone, Debug)]
pub enum NavEntry {
    PageLink { slug: String, title: String },
    ExternalLink { url: String, text: String },
    DropdownGroup { name: String },
}

/// A navigation entry as a mathematical value.
pub ghost enum NavView {
    Page(Seq<char>, Seq<char>),
    External(Seq<char>, Seq<char>),
    Group(Seq<char>),
}

impl View for NavEntry {
    type V = NavView;

    open spec fn view(&self) -> NavView {
        match self {
            NavEntry::PageLink { slug, title } => NavView::Page(slug@, title@),
            NavEntry::ExternalLink { url, text } => NavView::External(url@, text@),
            NavEntry::DropdownGroup { name } => NavView::Group(name@),
        }
    }
}

/// The views of a list of entries.
pub open spec fn entries_view(v: Seq<NavEntry>) -> Seq<NavView> {
    v.map_values(|e: NavEntry| e@)
}

/// The slugs of a list of documents.
pub open spec fn slugs_of(docs: Seq<Document>) -> Seq<Seq<char>> {
    docs.map_values(|d: Document| d.slug@)
}

/// The slugs of a list of documents.
pub fn slugs_of_exec(docs: &Vec<Document>) -> (r: Vec<String>)
    ensures
        crate::slugs::strs_view(r@) == slugs_of(docs@),
{
    let mut r: Vec<String> = Vec::new();
    let mut i: usize = 0;
    while i < docs.len()
        invariant
            i <= docs@.len(),
            r@.len() == i,
            crate::slugs::strs_view(r@) == slugs_of(docs@.take(i as int)),
        decreases docs@.len() - i,
    {
        let ghost before = r@;
        let c = docs[i].slug.clone();
        assert(c@ == docs@[i as int].slug@);
        r.push(c);
        assert forall|k: int| 0 <= k < i + 1 implies #[trigger] crate::slugs::strs_view(r@)[k] == slugs_of(
            docs@.take(i + 1),
        )[k] by {
            if k < i {
                assert(r@[k] == before[k]);
                assert(crate::slugs::strs_view(before)[k] == slugs_of(docs@.take(i as int))[k]);
            }
        }
        assert(crate::slugs::strs_view(r@) =~= slugs_of(docs@.take(i + 1)));
        i = i + 1;
    }
    assert(docs@.take(i as int) =~= docs@);
    r
}

} // verus!
