//! Document ordering: `index` first, then the documents named in the order
//! list by their position in it, then the rest by slug.

use vstd::prelude::*;
use crate::site::{Document, OrderItem};
use crate::slugs::{ends_in_segment, ends_in_segment_exec};
use crate::text::{chars_of, str_eq};

verus! {

broadcast use vstd::seq_lib::group_to_multiset_ensures;

/// Lexicographic order of strings by code point.
pub open spec fn seq_lt(a: Seq<char>, b: Seq<char>) -> bool
    decreases a.len(),
{
    if a.len() == 0 {
        b.len() > 0
    } else if b.len() == 0 {
        false
    } else if a[0] != b[0] {
        a[0] < b[0]
    } else {
        seq_lt(a.drop_first(), b.drop_first())
    }
}

pub proof fn lemma_seq_lt_irreflexive(a: Seq<char>)
    ensures
        !seq_lt(a, a),
    decreases a.len(),
{
    if a.len() > 0 {
        lemma_seq_lt_irreflexive(a.drop_first());
    }
}

pub proof fn lemma_seq_lt_transitive(a: Seq<char>, b: Seq<char>, c: Seq<char>)
    requires
        seq_lt(a, b),
        seq_lt(b, c),
    ensures
        seq_lt(a, c),
    decreases a.len(),
{
    if a.len() > 0 && b.len() > 0 && c.len() > 0 && a[0] == b[0] && b[0] == c[0] {
        lemma_seq_lt_transitive(a.drop_first(), b.drop_first(), c.drop_first());
    }
}

pub proof fn lemma_seq_lt_total(a: Seq<char>, b: Seq<char>)
    requires
        a != b,
    ensures
        seq_lt(a, b) || seq_lt(b, a),
    decreases a.len(),
{
    if a.len() > 0 && b.len() > 0 && a[0] == b[0] {
        if a.drop_first() == b.drop_first() {
            assert(a =~= seq![a[0]] + a.drop_first());
            assert(b =~= seq![b[0]] + b.drop_first());
        }
        lemma_seq_lt_total(a.drop_first(), b.drop_first());
    } else if a.len() == 0 && b.len() == 0 {
        assert(a =~= b);
    }
}

/// An order-list entry names a slug: equal to it, or its final path segment.
pub open spec fn names_slug(n: Seq<char>, slug: Seq<char>) -> bool {
    n == slug || ends_in_segment(slug, n)
}

/// Position at or after `i` of the first order-list entry that names `slug`;
/// the list's length if none.
pub open spec fn position_from(order: Seq<OrderItem>, slug: Seq<char>, i: int) -> int
    decreases order.len() - i,
{
    if i < 0 || i >= order.len() {
        order.len() as int
    } else if order[i] is Name && names_slug(order[i]->Name_0@, slug) {
        i
    } else {
        position_from(order, slug, i + 1)
    }
}

/// Where a document goes: `index` first, then by position in the order list,
/// then the unlisted documents.
pub open spec fn rank(slug: Seq<char>, order: Option<Seq<OrderItem>>) -> int {
    if slug == "index"@ {
        0
    } else {
        match order {
            None => 1,
            Some(o) => 1 + position_from(o, slug, 0),
        }
    }
}

/// `a` goes before `b`: lower rank, or equal rank and a smaller slug.
pub open spec fn precedes(a: Document, b: Document, order: Option<Seq<OrderItem>>) -> bool {
    rank(a.slug@, order) < rank(b.slug@, order) || (rank(a.slug@, order) == rank(b.slug@, order)
        && seq_lt(a.slug@, b.slug@))
}

/// No document of `s` goes before one that stands earlier.
pub open spec fn is_ordered(s: Seq<Document>, order: Option<Seq<OrderItem>>) -> bool {
    forall|i: int, j: int| 0 <= i < j < s.len() ==> !precedes(#[trigger] s[j], #[trigger] s[i], order)
}

pub proof fn lemma_precedes_transitive(a: Document, b: Document, c: Document, order: Option<Seq<OrderItem>>)
    requires
        precedes(a, b, order),
        precedes(b, c, order),
    ensures
        precedes(a, c, order),
{
    if rank(a.slug@, order) == rank(b.slug@, order) && rank(b.slug@, order) == rank(c.slug@, order) {
        lemma_seq_lt_transitive(a.slug@, b.slug@, c.slug@);
    }
}

fn seq_lt_exec(a: &str, b: &str) -> (r: bool)
    ensures
        r == seq_lt(a@, b@),
{
    let ac = chars_of(a);
    let bc = chars_of(b);
    let mut i: usize = 0;
    assert(ac@.skip(0) =~= ac@);
    assert(bc@.skip(0) =~= bc@);
    while i < ac.len() && i < bc.len() && ac[i] == bc[i]
        invariant
            i <= ac@.len(),
            i <= bc@.len(),
            seq_lt(a@, b@) == seq_lt(ac@.skip(i as int), bc@.skip(i as int)),
            ac@ == a@,
            bc@ == b@,
        decreases ac@.len() - i,
    {
        assert(ac@.skip(i as int).drop_first() =~= ac@.skip(i + 1));
        assert(bc@.skip(i as int).drop_first() =~= bc@.skip(i + 1));
        i = i + 1;
    }
    if i == ac.len() {
        i < bc.len()
    } else if i == bc.len() {
        false
    } else {
        assert(ac@.skip(i as int)[0] == ac@[i as int]);
        assert(bc@.skip(i as int)[0] == bc@[i as int]);
        ac[i] < bc[i]
    }
}

/// Position of the first order-list entry that names `slug`; the list's
/// length if none.
fn position_exec(o: &Vec<OrderItem>, slug: &str) -> (r: usize)
    ensures
        r as int == position_from(o@, slug@, 0),
{
    let mut i: usize = 0;
    while i < o.len()
        invariant
            i <= o@.len(),
            position_from(o@, slug@, 0) == position_from(o@, slug@, i as int),
        decreases o@.len() - i,
    {
        match &o[i] {
            OrderItem::Name(n) => {
                assert(o@[i as int] is Name && o@[i as int]->Name_0 == n);
                if str_eq(n.as_str(), slug) || ends_in_segment_exec(slug, n.as_str()) {
                    return i;
                }
            },
            _ => {},
        }
        i = i + 1;
    }
    i
}

fn precedes_exec(a: &Document, b: &Document, order: Option<&Vec<OrderItem>>) -> (r: bool)
    ensures
        r == precedes(*a, *b, match order { Some(o) => Some(o@), None => None }),
{
    let ai = str_eq(a.slug.as_str(), "index");
    let bi = str_eq(b.slug.as_str(), "index");
    let (pa, pb) = match order {
        None => (0, 0),
        Some(o) => (position_exec(o, a.slug.as_str()), position_exec(o, b.slug.as_str())),
    };
    let lower = (ai && !bi) || (!ai && !bi && pa < pb);
    let same = (ai && bi) || (!ai && !bi && pa == pb);
    lower || (same && seq_lt_exec(a.slug.as_str(), b.slug.as_str()))
}

/// Orders the documents: `index` first; then those named in `order` (by slug
/// or by final path segment) by their first position there; then the others
/// by slug. Without an order list all documents but `index` go by slug. Ties
/// of position go by slug.
pub fn order_documents(docs: Vec<Document>, order: Option<&Vec<OrderItem>>) -> (r: Vec<Document>)
    ensures
        r@.to_multiset() == docs@.to_multiset(),
        is_ordered(r@, match order { Some(o) => Some(o@), None => None }),
{
    let ghost ord = match order { Some(o) => Some(o@), None => None };
    let mut rest = docs;
    let mut out: Vec<Document> = Vec::new();
    assert(out@.to_multiset().add(rest@.to_multiset()) =~= docs@.to_multiset());
    while rest.len() > 0
        invariant
            ord == match order { Some(o) => Some(o@), None => None::<Seq<OrderItem>> },
            out@.to_multiset().add(rest@.to_multiset()) == docs@.to_multiset(),
            is_ordered(out@, ord),
            forall|i: int, k: int| 0 <= i < out@.len() && 0 <= k < rest@.len() ==> !precedes(
                #[trigger] rest@[k],
                #[trigger] out@[i],
                ord,
            ),
        decreases rest@.len(),
    {
        let mut m: usize = 0;
        let mut k: usize = 1;
        proof { lemma_seq_lt_irreflexive(rest@[0].slug@); }
        while k < rest.len()
            invariant
                ord == match order { Some(o) => Some(o@), None => None::<Seq<OrderItem>> },
                m < k <= rest@.len(),
                forall|q: int| 0 <= q < k ==> !precedes(#[trigger] rest@[q], rest@[m as int], ord),
            decreases rest@.len() - k,
        {
            if precedes_exec(&rest[k], &rest[m], order) {
                proof {
                    assert forall|q: int| 0 <= q < k + 1 implies !precedes(#[trigger] rest@[q], rest@[k as int], ord) by {
                        if q < k && precedes(rest@[q], rest@[k as int], ord) {
                            lemma_precedes_transitive(rest@[q], rest@[k as int], rest@[m as int], ord);
                        }
                        if q == k {
                            lemma_seq_lt_irreflexive(rest@[q].slug@);
                        }
                    }
                }
                m = k;
            }
            k = k + 1;
        }
        let ghost old_rest = rest@;
        let ghost old_out = out@;
        let d = rest.remove(m);
        out.push(d);
        proof {
            assert(old_rest.remove(m as int) == rest@);
            assert(out@ == old_out.push(d));
            assert(out@.to_multiset().add(rest@.to_multiset()) =~= docs@.to_multiset());
            assert forall|i: int, j: int| 0 <= i < j < out@.len() implies !precedes(#[trigger] out@[j], #[trigger] out@[i], ord) by {
                if j == out@.len() - 1 {
                    assert(old_rest[m as int] == d);
                }
            }
            assert forall|i: int, q: int| 0 <= i < out@.len() && 0 <= q < rest@.len() implies !precedes(
                #[trigger] rest@[q],
                #[trigger] out@[i],
                ord,
            ) by {
                let qq = if q < m { q } else { q + 1 };
                assert(rest@[q] == old_rest[qq]);
            }
        }
    }
    out
}


proof fn lemma_precedes_total(a: Document, b: Document, order: Option<Seq<OrderItem>>)
    requires
        a.slug@ != b.slug@,
    ensures
        precedes(a, b, order) || precedes(b, a, order),
{
    lemma_seq_lt_total(a.slug@, b.slug@);
}

/// The order does not depend on the order in which the documents were
/// discovered: two ordered arrangements of the same documents, whose slugs
/// are distinct, are the same sequence.
pub proof fn lemma_order_unique(a: Seq<Document>, b: Seq<Document>, order: Option<Seq<OrderItem>>)
    requires
        is_ordered(a, order),
        is_ordered(b, order),
        a.to_multiset() == b.to_multiset(),
        forall|i: int, j: int| 0 <= i < j < a.len() ==> (#[trigger] a[i]).slug@ != (#[trigger] a[j]).slug@,
    ensures
        a == b,
    decreases a.len(),
{
    a.to_multiset_ensures();
    b.to_multiset_ensures();
    if a.len() == 0 {
        assert(b.len() == 0);
        assert(a =~= b);
        return;
    }
    assert(b.len() == a.len());
    let x = a[0];
    let y = b[0];
    assert(a.to_multiset().count(x) > 0);
    assert(b.contains(x));
    let j = choose|j: int| 0 <= j < b.len() && b[j] == x;
    assert(b.to_multiset().count(y) > 0);
    assert(a.contains(y));
    let i = choose|i: int| 0 <= i < a.len() && a[i] == y;
    if i > 0 {
        assert(a[0].slug@ != a[i].slug@);
        lemma_precedes_total(x, y, order);
        assert(!precedes(a[i], a[0], order));
        if j > 0 {
            assert(!precedes(b[j], b[0], order));
        }
        assert(j != 0);
        assert(false);
    }
    assert(x == y);
    let a1 = a.drop_first();
    let b1 = b.drop_first();
    assert(a.remove(0) =~= a1);
    assert(b.remove(0) =~= b1);
    assert(a1.to_multiset() =~= b1.to_multiset());
    assert forall|p: int, q: int| 0 <= p < q < a1.len() implies !precedes(#[trigger] a1[q], #[trigger] a1[p], order) by {
        assert(a1[q] == a[q + 1] && a1[p] == a[p + 1]);
    }
    assert forall|p: int, q: int| 0 <= p < q < b1.len() implies !precedes(#[trigger] b1[q], #[trigger] b1[p], order) by {
        assert(b1[q] == b[q + 1] && b1[p] == b[p + 1]);
    }
    assert forall|p: int, q: int| 0 <= p < q < a1.len() implies (#[trigger] a1[p]).slug@ != (#[trigger] a1[q]).slug@ by {
        assert(a1[q] == a[q + 1] && a1[p] == a[p + 1]);
    }
    lemma_order_unique(a1, b1, order);
    assert forall|k: int| 0 <= k < a.len() implies a[k] == b[k] by {
        if k > 0 {
            assert(a[k] == a1[k - 1] && b[k] == b1[k - 1]);
        }
    }
    assert(a =~= b);
}

} // verus!
