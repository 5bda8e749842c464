//! The navigation model: the ordered list of entries that the configuration
//! and the discovered documents give.

use vstd::prelude::*;
use crate::site::{Document, DropdownContent, DropdownItem, Dropdown, NavEntry, NavView, OrderItem,
    SiteConfig, entries_view, slugs_of, slugs_of_exec};
use crate::slugs::{resolve, resolve_exec};
use crate::text::str_eq;

verus! {

/// A dropdown item that is the bare slug `slug`.
pub open spec fn item_is_page(it: DropdownItem, slug: Seq<char>) -> bool {
    match it {
        DropdownItem::Page(p) => p@ == slug,
        _ => false,
    }
}

/// An item-sequence dropdown that lists the bare slug `slug`.
pub open spec fn group_lists(d: Dropdown, slug: Seq<char>) -> bool {
    match d.content {
        DropdownContent::Items(v) => exists|j: int| 0 <= j < v@.len() && item_is_page(#[trigger] v@[j], slug),
        DropdownContent::NameToUrl(_) => false,
    }
}

/// `slug` is listed in an item-sequence dropdown, and so is reachable only
/// through it.
pub open spec fn in_dropdown(ds: Seq<Dropdown>, slug: Seq<char>) -> bool {
    exists|i: int| 0 <= i < ds.len() && group_lists(#[trigger] ds[i], slug)
}

/// A dropdown of this name is configured.
pub open spec fn has_dropdown(ds: Seq<Dropdown>, name: Seq<char>) -> bool {
    exists|i: int| 0 <= i < ds.len() && (#[trigger] ds[i]).name@ == name
}

/// The page entry for the document that `name` resolves to, unless it is
/// `index` or `hide` says it goes in a dropdown.
pub open spec fn page_entry(docs: Seq<Document>, ds: Seq<Dropdown>, name: Seq<char>, hide: bool) -> Seq<NavView> {
    match resolve(slugs_of(docs), name) {
        Some(k) => {
            let d = docs[k];
            if d.slug@ == "index"@ || (hide && (in_dropdown(ds, d.slug@) || in_dropdown(ds, name))) {
                Seq::empty()
            } else {
                seq![NavView::Page(d.slug@, d.title@)]
            }
        },
        None => Seq::empty(),
    }
}

/// The external-link entry of a table with both `url` and `text`.
pub open spec fn link_entry(url: Option<String>, text: Option<String>) -> Seq<NavView> {
    match (url, text) {
        (Some(u), Some(t)) => seq![NavView::External(u@, t@)],
        _ => Seq::empty(),
    }
}

/// The entries of one item of `navbar_order`.
pub open spec fn navbar_item_entries(docs: Seq<Document>, ds: Seq<Dropdown>, it: OrderItem) -> Seq<NavView> {
    match it {
        OrderItem::Name(n) => if has_dropdown(ds, n@) {
            seq![NavView::Group(n@)]
        } else {
            page_entry(docs, ds, n@, false)
        },
        OrderItem::Table { dropdown, url, text } => match dropdown {
            Some(d) => seq![NavView::Group(d@)],
            None => link_entry(url, text),
        },
    }
}

/// The entries of one item of `page_order`.
pub open spec fn page_item_entries(docs: Seq<Document>, ds: Seq<Dropdown>, it: OrderItem) -> Seq<NavView> {
    match it {
        OrderItem::Name(n) => page_entry(docs, ds, n@, true),
        OrderItem::Table { dropdown, url, text } => link_entry(url, text),
    }
}

/// The entries of the first `m` items of an order list.
pub open spec fn order_entries(docs: Seq<Document>, ds: Seq<Dropdown>, items: Seq<OrderItem>, navbar: bool, m: int) -> Seq<NavView>
    decreases m,
{
    if m <= 0 {
        Seq::empty()
    } else {
        order_entries(docs, ds, items, navbar, m - 1) + if navbar {
            navbar_item_entries(docs, ds, items[m - 1])
        } else {
            page_item_entries(docs, ds, items[m - 1])
        }
    }
}

/// The page entries of the first `m` documents, without `index` and without
/// those that a dropdown lists.
pub open spec fn doc_entries(docs: Seq<Document>, ds: Seq<Dropdown>, m: int) -> Seq<NavView>
    decreases m,
{
    if m <= 0 {
        Seq::empty()
    } else {
        let d = docs[m - 1];
        doc_entries(docs, ds, m - 1) + if d.slug@ == "index"@ || in_dropdown(ds, d.slug@) {
            Seq::empty()
        } else {
            seq![NavView::Page(d.slug@, d.title@)]
        }
    }
}

/// One group entry per configured dropdown, in the configuration's order.
pub open spec fn group_entries(ds: Seq<Dropdown>) -> Seq<NavView> {
    ds.map_values(|d: Dropdown| NavView::Group(d.name@))
}

/// The navigation entries: from `navbar_order` if present; else from
/// `page_order` followed by every dropdown; else from the documents in their
/// order followed by every dropdown.
pub open spec fn nav_entries(docs: Seq<Document>, config: SiteConfig) -> Seq<NavView> {
    let ds = config.dropdowns@;
    match config.navbar_order {
        Some(o) => order_entries(docs, ds, o@, true, o@.len() as int),
        None => match config.page_order {
            Some(o) => order_entries(docs, ds, o@, false, o@.len() as int) + group_entries(ds),
            None => doc_entries(docs, ds, docs.len() as int) + group_entries(ds),
        },
    }
}

fn push_entry(out: &mut Vec<NavEntry>, e: NavEntry)
    ensures
        entries_view(final(out)@) == entries_view(old(out)@).push(e@),
{
    out.push(e);
    assert(entries_view(final(out)@) =~= entries_view(old(out)@).push(e@));
}

fn push_entries(out: &mut Vec<NavEntry>, es: Vec<NavEntry>)
    ensures
        entries_view(final(out)@) == entries_view(old(out)@) + entries_view(es@),
{
    let ghost start = entries_view(out@);
    let mut es = es;
    let ghost all = entries_view(es@);
    let mut i: usize = 0;
    let n = es.len();
    let mut rev: Vec<NavEntry> = Vec::new();
    while es.len() > 0
        invariant
            entries_view(es@) + entries_view(rev@).reverse() == all,
        decreases es@.len(),
    {
        let ghost before_es = es@;
        let ghost before_rev = rev@;
        let e = es.pop().unwrap();
        proof {
            assert(before_es == es@.push(e));
            assert(entries_view(before_es) =~= entries_view(es@).push(e@));
            assert(entries_view(rev@.push(e)) =~= entries_view(before_rev).push(e@));
            assert(entries_view(before_rev).push(e@).reverse() =~= seq![e@] + entries_view(before_rev).reverse());
        }
        rev.push(e);
        assert(entries_view(es@) + entries_view(rev@).reverse() =~= all);
    }
    assert(entries_view(es@) =~= Seq::<NavView>::empty());
    assert(entries_view(rev@).reverse() =~= all);
    while rev.len() > 0
        invariant
            entries_view(out@) + entries_view(rev@).reverse() == start + all,
        decreases rev@.len(),
    {
        let ghost before_rev = rev@;
        let e = rev.pop().unwrap();
        proof {
            assert(before_rev == rev@.push(e));
            assert(entries_view(before_rev) =~= entries_view(rev@).push(e@));
            assert(entries_view(rev@).push(e@).reverse() =~= seq![e@] + entries_view(rev@).reverse());
        }
        let ghost before_out = entries_view(out@);
        push_entry(out, e);
        assert(entries_view(out@) + entries_view(rev@).reverse() =~= before_out + (seq![e@] + entries_view(rev@).reverse()));
    }
    assert(entries_view(rev@).reverse() =~= Seq::<NavView>::empty());
    assert(entries_view(out@) =~= start + all);
}

/// Whether an item-sequence dropdown lists the bare slug `slug`.
fn in_dropdown_exec(ds: &Vec<Dropdown>, slug: &str) -> (r: bool)
    ensures
        r == in_dropdown(ds@, slug@),
{
    let mut i: usize = 0;
    while i < ds.len()
        invariant
            i <= ds@.len(),
            forall|q: int| 0 <= q < i ==> !group_lists(#[trigger] ds@[q], slug@),
        decreases ds@.len() - i,
    {
        match &ds[i].content {
            DropdownContent::Items(v) => {
                let mut j: usize = 0;
                assert(ds@[i as int].content is Items && ds@[i as int].content->Items_0 == *v);
                while j < v.len()
                    invariant
                        i < ds@.len(),
                        ds@[i as int].content is Items && ds@[i as int].content->Items_0 == *v,
                        j <= v@.len(),
                        forall|q: int| 0 <= q < j ==> !item_is_page(#[trigger] v@[q], slug@),
                    decreases v@.len() - j,
                {
                    match &v[j] {
                        DropdownItem::Page(p) => {
                            if str_eq(p.as_str(), slug) {
                                assert(item_is_page(v@[j as int], slug@));
                                assert(ds@[i as int].content is Items && ds@[i as int].content->Items_0 == *v);
                                assert(group_lists(ds@[i as int], slug@));
                                return true;
                            }
                        },
                        _ => {},
                    }
                    j = j + 1;
                }
                assert(ds@[i as int].content is Items && ds@[i as int].content->Items_0 == *v);
            },
            _ => {},
        }
        i = i + 1;
    }
    false
}

/// Whether a dropdown of this name is configured.
fn has_dropdown_exec(ds: &Vec<Dropdown>, name: &str) -> (r: bool)
    ensures
        r == has_dropdown(ds@, name@),
{
    let mut i: usize = 0;
    while i < ds.len()
        invariant
            i <= ds@.len(),
            forall|q: int| 0 <= q < i ==> (#[trigger] ds@[q]).name@ != name@,
        decreases ds@.len() - i,
    {
        if str_eq(ds[i].name.as_str(), name) {
            return true;
        }
        i = i + 1;
    }
    false
}

fn page_entry_exec(docs: &Vec<Document>, slugs: &Vec<String>, ds: &Vec<Dropdown>, name: &str, hide: bool) -> (r: Vec<NavEntry>)
    requires
        crate::slugs::strs_view(slugs@) == slugs_of(docs@),
    ensures
        entries_view(r@) == page_entry(docs@, ds@, name@, hide),
{
    let mut r: Vec<NavEntry> = Vec::new();
    match resolve_exec(slugs, name) {
        Some(k) => {
            let d = &docs[k];
            if str_eq(d.slug.as_str(), "index") || (hide && (in_dropdown_exec(ds, d.slug.as_str())
                || in_dropdown_exec(ds, name))) {
            } else {
                push_entry(&mut r, NavEntry::PageLink { slug: d.slug.clone(), title: d.title.clone() });
            }
        },
        None => {},
    }
    assert(entries_view(r@) =~= page_entry(docs@, ds@, name@, hide));
    r
}

fn link_entry_exec(url: &Option<String>, text: &Option<String>) -> (r: Vec<NavEntry>)
    ensures
        entries_view(r@) == link_entry(*url, *text),
{
    let mut r: Vec<NavEntry> = Vec::new();
    match (url, text) {
        (Some(u), Some(t)) => {
            push_entry(&mut r, NavEntry::ExternalLink { url: u.clone(), text: t.clone() });
        },
        _ => {},
    }
    assert(entries_view(r@) =~= link_entry(*url, *text));
    r
}

fn item_entries_exec(docs: &Vec<Document>, slugs: &Vec<String>, ds: &Vec<Dropdown>, it: &OrderItem, navbar: bool) -> (r: Vec<NavEntry>)
    requires
        crate::slugs::strs_view(slugs@) == slugs_of(docs@),
    ensures
        entries_view(r@) == if navbar {
            navbar_item_entries(docs@, ds@, *it)
        } else {
            page_item_entries(docs@, ds@, *it)
        },
{
    match it {
        OrderItem::Name(n) => {
            if navbar && has_dropdown_exec(ds, n.as_str()) {
                let mut r: Vec<NavEntry> = Vec::new();
                push_entry(&mut r, NavEntry::DropdownGroup { name: n.clone() });
                assert(entries_view(r@) =~= seq![NavView::Group(n@)]);
                r
            } else {
                page_entry_exec(docs, slugs, ds, n.as_str(), !navbar)
            }
        },
        OrderItem::Table { dropdown, url, text } => {
            match dropdown {
                Some(d) => {
                    if navbar {
                        let mut r: Vec<NavEntry> = Vec::new();
                        push_entry(&mut r, NavEntry::DropdownGroup { name: d.clone() });
                        assert(entries_view(r@) =~= seq![NavView::Group(d@)]);
                        return r;
                    }
                },
                None => {},
            }
            link_entry_exec(url, text)
        },
    }
}

/// Builds the navigation entries from the documents, in their order, and the
/// configuration, as `nav_entries` states it.
pub fn build_nav_entries(docs: &Vec<Document>, config: &SiteConfig) -> (r: Vec<NavEntry>)
    ensures
        entries_view(r@) == nav_entries(docs@, *config),
{
    let slugs = slugs_of_exec(docs);
    let ds = &config.dropdowns;
    let mut out: Vec<NavEntry> = Vec::new();
    let (items, navbar) = match &config.navbar_order {
        Some(o) => (Some(o), true),
        None => (config.page_order.as_ref(), false),
    };
    match items {
        Some(o) => {
            let mut i: usize = 0;
            while i < o.len()
                invariant
                    i <= o@.len(),
                    crate::slugs::strs_view(slugs@) == slugs_of(docs@),
                    entries_view(out@) == order_entries(docs@, ds@, o@, navbar, i as int),
                decreases o@.len() - i,
            {
                let es = item_entries_exec(docs, &slugs, ds, &o[i], navbar);
                push_entries(&mut out, es);
                i = i + 1;
            }
        },
        None => {
            let mut i: usize = 0;
            while i < docs.len()
                invariant
                    i <= docs@.len(),
                    entries_view(out@) == doc_entries(docs@, ds@, i as int),
                decreases docs@.len() - i,
            {
                let d = &docs[i];
                let ghost before = entries_view(out@);
                if !str_eq(d.slug.as_str(), "index") && !in_dropdown_exec(ds, d.slug.as_str()) {
                    push_entry(&mut out, NavEntry::PageLink { slug: d.slug.clone(), title: d.title.clone() });
                } else {
                    assert(before + Seq::<NavView>::empty() =~= before);
                }
                i = i + 1;
            }
        },
    }
    if !navbar {
        let ghost mid = entries_view(out@);
        let mut k: usize = 0;
        while k < ds.len()
            invariant
                k <= ds@.len(),
                entries_view(out@) == mid + group_entries(ds@.take(k as int)),
            decreases ds@.len() - k,
        {
            let ghost before = entries_view(out@);
            push_entry(&mut out, NavEntry::DropdownGroup { name: ds[k].name.clone() });
            assert(group_entries(ds@.take(k + 1)) =~= group_entries(ds@.take(k as int)).push(NavView::Group(ds@[k as int].name@)));
            assert(entries_view(out@) =~= mid + group_entries(ds@.take(k + 1)));
            k = k + 1;
        }
        assert(ds@.take(k as int) =~= ds@);
    }
    out
}


/// No page entry of `es` is `index` or a slug that a dropdown lists.
pub open spec fn pages_visible(es: Seq<NavView>, ds: Seq<Dropdown>) -> bool {
    forall|k: int|
        0 <= k < es.len() && (#[trigger] es[k]) is Page ==> es[k]->Page_0 != "index"@ && !in_dropdown(
            ds,
            es[k]->Page_0,
        )
}

proof fn lemma_visible_concat(a: Seq<NavView>, b: Seq<NavView>, ds: Seq<Dropdown>)
    requires
        pages_visible(a, ds),
        pages_visible(b, ds),
    ensures
        pages_visible(a + b, ds),
{
    assert forall|k: int| 0 <= k < (a + b).len() && (#[trigger] (a + b)[k]) is Page implies (a + b)[k]->Page_0
        != "index"@ && !in_dropdown(ds, (a + b)[k]->Page_0) by {
        if k < a.len() {
            assert((a + b)[k] == a[k]);
        } else {
            assert((a + b)[k] == b[k - a.len()]);
        }
    }
}

proof fn lemma_page_order_visible(docs: Seq<Document>, ds: Seq<Dropdown>, items: Seq<OrderItem>, m: int)
    ensures
        pages_visible(order_entries(docs, ds, items, false, m), ds),
    decreases m,
{
    if m > 0 {
        lemma_page_order_visible(docs, ds, items, m - 1);
        lemma_visible_concat(order_entries(docs, ds, items, false, m - 1), page_item_entries(docs, ds, items[m - 1]), ds);
    }
}

proof fn lemma_doc_entries_visible(docs: Seq<Document>, ds: Seq<Dropdown>, m: int)
    ensures
        pages_visible(doc_entries(docs, ds, m), ds),
    decreases m,
{
    if m > 0 {
        lemma_doc_entries_visible(docs, ds, m - 1);
        let d = docs[m - 1];
        let e = if d.slug@ == "index"@ || in_dropdown(ds, d.slug@) {
            Seq::<NavView>::empty()
        } else {
            seq![NavView::Page(d.slug@, d.title@)]
        };
        lemma_visible_concat(doc_entries(docs, ds, m - 1), e, ds);
    }
}

proof fn lemma_doc_entries_include(docs: Seq<Document>, ds: Seq<Dropdown>, m: int, i: int)
    requires
        0 <= i < m <= docs.len(),
        docs[i].slug@ != "index"@,
        !in_dropdown(ds, docs[i].slug@),
    ensures
        doc_entries(docs, ds, m).contains(NavView::Page(docs[i].slug@, docs[i].title@)),
    decreases m,
{
    let prev = doc_entries(docs, ds, m - 1);
    if i < m - 1 {
        lemma_doc_entries_include(docs, ds, m - 1, i);
        let k = choose|k: int| 0 <= k < prev.len() && prev[k] == NavView::Page(docs[i].slug@, docs[i].title@);
        assert(doc_entries(docs, ds, m)[k] == prev[k]);
    } else {
        assert(doc_entries(docs, ds, m)[prev.len() as int] == NavView::Page(docs[i].slug@, docs[i].title@));
    }
}

/// Dropdown suppression. Without `navbar_order`, no page entry is `index` or
/// a slug that an item-sequence dropdown lists. Without any order list, every
/// other document has its page entry: a name-to-url dropdown hides nothing.
pub proof fn lemma_dropdown_suppression(docs: Seq<Document>, config: SiteConfig)
    requires
        config.navbar_order is None,
    ensures
        pages_visible(nav_entries(docs, config), config.dropdowns@),
        config.page_order is None ==> forall|i: int|
            0 <= i < docs.len() && (#[trigger] docs[i]).slug@ != "index"@ && !in_dropdown(config.dropdowns@, docs[i].slug@)
                ==> nav_entries(docs, config).contains(NavView::Page(docs[i].slug@, docs[i].title@)),
{
    let ds = config.dropdowns@;
    let groups = group_entries(ds);
    assert(pages_visible(groups, ds));
    match config.page_order {
        Some(o) => {
            lemma_page_order_visible(docs, ds, o@, o@.len() as int);
            lemma_visible_concat(order_entries(docs, ds, o@, false, o@.len() as int), groups, ds);
        },
        None => {
            let es = doc_entries(docs, ds, docs.len() as int);
            lemma_doc_entries_visible(docs, ds, docs.len() as int);
            lemma_visible_concat(es, groups, ds);
            assert forall|i: int|
                0 <= i < docs.len() && (#[trigger] docs[i]).slug@ != "index"@ && !in_dropdown(ds, docs[i].slug@)
                    implies nav_entries(docs, config).contains(NavView::Page(docs[i].slug@, docs[i].title@)) by {
                lemma_doc_entries_include(docs, ds, docs.len() as int, i);
                let k = choose|k: int| 0 <= k < es.len() && es[k] == NavView::Page(docs[i].slug@, docs[i].title@);
                assert((es + groups)[k] == es[k]);
            }
        },
    }
}

} // verus!
