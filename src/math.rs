//! The math scanner: one left-to-right pass that splits markdown text into
//! plain-text segments and math spans under four delimiter grammars.

use vstd::prelude::*;
use crate::text::{chars_of, string_of_range, begins_with, occurs_at};

verus! {

/// The four delimiter grammars of a math span.
#[derive(Clone, Copy, Debug, PartialEq, Eq, Structural)]
pub enum Delim {
    /// Display math written `$$…$$`.
    DoubleDollar,
    /// Inline math written `$…$`.
    Dollar,
    /// Inline math written `\(…\)`.
    Paren,
    /// Display math written `\[…\]`.
    Bracket,
}

/// Whether spans of this grammar are display (block) math.
pub open spec fn is_display(d: Delim) -> bool {
    d == Delim::DoubleDollar || d == Delim::Bracket
}

/// The opening delimiter of a grammar.
pub open spec fn open_of(d: Delim) -> Seq<char> {
    match d {
        Delim::DoubleDollar => seq!['$', '$'],
        Delim::Dollar => seq!['$'],
        Delim::Paren => seq!['\\', '('],
        Delim::Bracket => seq!['\\', '['],
    }
}

/// The closing delimiter of a grammar.
pub open spec fn close_of(d: Delim) -> Seq<char> {
    match d {
        Delim::DoubleDollar => seq!['$', '$'],
        Delim::Dollar => seq!['$'],
        Delim::Paren => seq!['\\', ')'],
        Delim::Bracket => seq!['\\', ']'],
    }
}

impl Delim {
    /// Whether spans of this grammar are display (block) math.
    pub fn display(&self) -> (r: bool)
        ensures
            r == is_display(*self),
    {
        match self {
            Delim::DoubleDollar | Delim::Bracket => true,
            _ => false,
        }
    }
}

/// A segment of scanned text, as a mathematical value.
pub ghost enum Seg {
    Text(Seq<char>),
    Math(Delim, Seq<char>),
}

/// A recognized math span: its grammar and its raw TeX source.
#[derive(Clone, Debug)]
pub struct MathSpan {
    pub delim: Delim,
    pub tex: String,
}

impl MathSpan {
    /// A copy of the span.
    pub fn clone_span(&self) -> (r: MathSpan)
        ensures
            r.delim == self.delim,
            r.tex@ == self.tex@,
    {
        MathSpan { delim: self.delim, tex: self.tex.clone() }
    }
}

/// A segment of scanned text: passed-through text or a math span.
#[derive(Clone, Debug)]
pub enum Segment {
    Text(String),
    Math(MathSpan),
}

impl View for Segment {
    type V = Seg;

    open spec fn view(&self) -> Seg {
        match self {
            Segment::Text(t) => Seg::Text(t@),
            Segment::Math(m) => Seg::Math(m.delim, m.tex@),
        }
    }
}

/// The views of a list of segments.
pub open spec fn segs_view(v: Seq<Segment>) -> Seq<Seg> {
    v.map_values(|x: Segment| x@)
}

/// The text a segment was scanned from.
pub open spec fn source_of(g: Seg) -> Seq<char> {
    match g {
        Seg::Text(t) => t,
        Seg::Math(d, tex) => open_of(d) + tex + close_of(d),
    }
}

/// The text a list of segments was scanned from.
pub open spec fn sources(gs: Seq<Seg>) -> Seq<char>
    decreases gs.len(),
{
    if gs.len() == 0 {
        Seq::empty()
    } else {
        sources(gs.drop_last()) + source_of(gs.last())
    }
}

/// Index of the first character of `s` equal to `a` or `b`; `s.len()` if none.
pub open spec fn find_either(s: Seq<char>, a: char, b: char) -> nat
    decreases s.len(),
{
    if s.len() == 0 {
        0
    } else if s[0] == a || s[0] == b {
        0
    } else {
        1 + find_either(s.drop_first(), a, b)
    }
}

/// Index of the first occurrence of the pair `a b` in `s`; `s.len()` if none.
pub open spec fn find_pair(s: Seq<char>, a: char, b: char) -> nat
    decreases s.len(),
{
    if s.len() < 2 {
        s.len()
    } else if s[0] == a && s[1] == b {
        0
    } else {
        1 + find_pair(s.drop_first(), a, b)
    }
}

pub proof fn lemma_find_either(s: Seq<char>, a: char, b: char)
    ensures
        find_either(s, a, b) <= s.len(),
        forall|k: int| 0 <= k < find_either(s, a, b) ==> s[k] != a && s[k] != b,
        find_either(s, a, b) < s.len() ==> (s[find_either(s, a, b) as int] == a
            || s[find_either(s, a, b) as int] == b),
    decreases s.len(),
{
    if s.len() > 0 && !(s[0] == a || s[0] == b) {
        lemma_find_either(s.drop_first(), a, b);
        assert forall|k: int| 0 <= k < find_either(s, a, b) implies s[k] != a && s[k] != b by {
            if k > 0 {
                assert(s[k] == s.drop_first()[k - 1]);
            }
        }
    }
}

pub proof fn lemma_find_pair(s: Seq<char>, a: char, b: char)
    ensures
        find_pair(s, a, b) <= s.len(),
        find_pair(s, a, b) < s.len() ==> find_pair(s, a, b) + 1 < s.len() && s[find_pair(s, a, b) as int] == a
            && s[find_pair(s, a, b) + 1int] == b,
        forall|k: int| 0 <= k < find_pair(s, a, b) && k + 1 < s.len() ==> !(#[trigger] s[k] == a && s[k + 1] == b),
    decreases s.len(),
{
    if s.len() >= 2 && !(s[0] == a && s[1] == b) {
        lemma_find_pair(s.drop_first(), a, b);
        assert forall|k: int| 0 <= k < find_pair(s, a, b) && k + 1 < s.len() implies !(#[trigger] s[k] == a && s[k + 1] == b) by {
            if k > 0 {
                assert(s[k] == s.drop_first()[k - 1]);
                assert(s[k + 1] == s.drop_first()[k]);
            }
        }
    }
}

/// The segments of `s` under the single left-to-right scan.
///
/// `$$` opens display math closed by the next `$$`; a lone `$` opens inline
/// math closed by the next `$`, unless a newline comes first; `\(` and `\[`
/// open math closed by `\)` and `\]`. An opening without its terminator is
/// passed through as text together with everything it scanned.
pub open spec fn segs(s: Seq<char>) -> Seq<Seg>
    decreases s.len(),
{
    if s.len() == 0 {
        Seq::empty()
    } else if s[0] == '$' {
        if s.len() > 1 && s[1] == '$' {
            let body = s.skip(2);
            let j = find_pair(body, '$', '$') as int;
            if j + 1 < body.len() {
                seq![Seg::Math(Delim::DoubleDollar, body.take(j))] + segs(body.skip(j + 2))
            } else {
                seq![Seg::Text(s)]
            }
        } else {
            let body = s.skip(1);
            let j = find_either(body, '$', '\n') as int;
            if j < body.len() {
                if body[j] == '\n' {
                    seq![Seg::Text(s.take(j + 2))] + segs(body.skip(j + 1))
                } else {
                    seq![Seg::Math(Delim::Dollar, body.take(j))] + segs(body.skip(j + 1))
                }
            } else {
                seq![Seg::Text(s)]
            }
        }
    } else if s[0] == '\\' && s.len() > 1 && (s[1] == '(' || s[1] == '[') {
        let d = if s[1] == '(' { Delim::Paren } else { Delim::Bracket };
        let close = if s[1] == '(' { ')' } else { ']' };
        let body = s.skip(2);
        let j = find_pair(body, '\\', close) as int;
        if j + 1 < body.len() {
            seq![Seg::Math(d, body.take(j))] + segs(body.skip(j + 2))
        } else {
            seq![Seg::Text(s)]
        }
    } else if s[0] == '\\' {
        seq![Seg::Text(s.take(1))] + segs(s.skip(1))
    } else {
        let j = find_either(s, '$', '\\') as int;
        proof {
            lemma_find_either(s, '$', '\\');
        }
        seq![Seg::Text(s.take(j))] + segs(s.skip(j))
    }
}


/// Position of the first character at or after `from` equal to `a` or `b`;
/// the length of `cs` if none.
pub fn find_either_from(cs: &Vec<char>, from: usize, a: char, b: char) -> (r: usize)
    requires
        from <= cs@.len(),
    ensures
        r == from + find_either(cs@.skip(from as int), a, b),
{
    let mut j: usize = from;
    while j < cs.len()
        invariant
            from <= j <= cs@.len(),
            from + find_either(cs@.skip(from as int), a, b) == j + find_either(cs@.skip(j as int), a, b),
        decreases cs@.len() - j,
    {
        if cs[j] == a || cs[j] == b {
            return j;
        }
        assert(cs@.skip(j as int).drop_first() =~= cs@.skip(j + 1));
        j = j + 1;
    }
    j
}

/// Position of the first occurrence of the pair `a b` at or after `from`; the
/// length of `cs` if none.
pub fn find_pair_from(cs: &Vec<char>, from: usize, a: char, b: char) -> (r: usize)
    requires
        from <= cs@.len(),
    ensures
        r == from + find_pair(cs@.skip(from as int), a, b),
{
    let mut j: usize = from;
    while cs.len() - j > 1
        invariant
            from <= j <= cs@.len(),
            from + find_pair(cs@.skip(from as int), a, b) == j + find_pair(cs@.skip(j as int), a, b),
        decreases cs@.len() - j,
    {
        if cs[j] == a && cs[j + 1] == b {
            return j;
        }
        assert(cs@.skip(j as int).drop_first() =~= cs@.skip(j + 1));
        j = j + 1;
    }
    cs.len()
}

proof fn lemma_push_segment(out: Seq<Segment>, x: Segment, tail: Seq<Seg>, whole: Seq<Seg>)
    requires
        segs_view(out) + (seq![x@] + tail) == whole,
    ensures
        segs_view(out.push(x)) + tail == whole,
{
    assert(segs_view(out.push(x)) =~= segs_view(out).push(x@));
    assert(segs_view(out) + (seq![x@] + tail) =~= segs_view(out).push(x@) + tail);
}

/// One step of the scan at position `i`: the next segment and the position
/// after it.
fn scan_step(cs: &Vec<char>, i: usize) -> (r: (Segment, usize))
    requires
        i < cs@.len(),
    ensures
        i < r.1 <= cs@.len(),
        seq![r.0@] + segs(cs@.skip(r.1 as int)) == segs(cs@.skip(i as int)),
{
    let n = cs.len();
    let ghost rest = cs@.skip(i as int);
    assert(rest[0] == cs@[i as int]);
    if cs[i] == '$' {
        if i + 1 < n && cs[i + 1] == '$' {
            assert(rest[1] == cs@[i + 1]);
            scan_pair(cs, i, Delim::DoubleDollar, '$', '$')
        } else {
            scan_inline_dollar(cs, i)
        }
    } else if cs[i] == '\\' && i + 1 < n && (cs[i + 1] == '(' || cs[i + 1] == '[') {
        assert(rest[1] == cs@[i + 1]);
        if cs[i + 1] == '(' {
            scan_pair(cs, i, Delim::Paren, '\\', ')')
        } else {
            scan_pair(cs, i, Delim::Bracket, '\\', ']')
        }
    } else if cs[i] == '\\' {
        let t = string_of_range(cs, i, i + 1);
        assert(rest.take(1) =~= cs@.subrange(i as int, i + 1));
        assert(rest.skip(1) =~= cs@.skip(i + 1));
        (Segment::Text(t), i + 1)
    } else {
        let j = find_either_from(cs, i, '$', '\\');
        proof { lemma_find_either(rest, '$', '\\'); }
        let t = string_of_range(cs, i, j);
        assert(rest.take(j - i) =~= cs@.subrange(i as int, j as int));
        assert(rest.skip(j - i) =~= cs@.skip(j as int));
        (Segment::Text(t), j)
    }
}

/// The scan step at a two-character opening delimiter, closed by the pair `a b`.
fn scan_pair(cs: &Vec<char>, i: usize, delim: Delim, a: char, b: char) -> (r: (Segment, usize))
    requires
        i + 1 < cs@.len(),
        open_of(delim).len() == 2,
        cs@[i as int] == open_of(delim)[0],
        cs@[i + 1] == open_of(delim)[1],
        close_of(delim) == seq![a, b],
        delim == Delim::DoubleDollar ==> cs@[i as int] == '$' && cs@[i + 1] == '$',
        delim == Delim::Paren ==> cs@[i as int] == '\\' && cs@[i + 1] == '(',
        delim == Delim::Bracket ==> cs@[i as int] == '\\' && cs@[i + 1] == '[',
        delim != Delim::Dollar,
    ensures
        i < r.1 <= cs@.len(),
        seq![r.0@] + segs(cs@.skip(r.1 as int)) == segs(cs@.skip(i as int)),
{
    let n = cs.len();
    let ghost rest = cs@.skip(i as int);
    assert(rest[0] == cs@[i as int]);
    assert(rest[1] == cs@[i + 1]);
    assert(rest.skip(2) =~= cs@.skip(i + 2));
    let j = find_pair_from(cs, i + 2, a, b);
    proof { lemma_find_pair(cs@.skip(i + 2), a, b); }
    if n - j > 1 {
        let tex = string_of_range(cs, i + 2, j);
        assert(rest.skip(2).take(j - i - 2) =~= cs@.subrange(i + 2, j as int));
        assert(rest.skip(2).skip(j - i - 2 + 2) =~= cs@.skip(j + 2));
        (Segment::Math(MathSpan { delim, tex }), j + 2)
    } else {
        let t = string_of_range(cs, i, n);
        assert(cs@.subrange(i as int, n as int) =~= rest);
        assert(cs@.skip(n as int) =~= Seq::<char>::empty());
        assert(seq![Seg::Text(rest)] =~= seq![Seg::Text(rest)] + segs(cs@.skip(n as int)));
        (Segment::Text(t), n)
    }
}

/// The scan step at a lone `$`.
fn scan_inline_dollar(cs: &Vec<char>, i: usize) -> (r: (Segment, usize))
    requires
        i < cs@.len(),
        cs@[i as int] == '$',
        !(i + 1 < cs@.len() && cs@[i + 1] == '$'),
    ensures
        i < r.1 <= cs@.len(),
        seq![r.0@] + segs(cs@.skip(r.1 as int)) == segs(cs@.skip(i as int)),
{
    let n = cs.len();
    let ghost rest = cs@.skip(i as int);
    assert(rest[0] == cs@[i as int]);
    assert(rest.len() > 1 ==> rest[1] == cs@[i + 1]);
    assert(rest.skip(1) =~= cs@.skip(i + 1));
    let j = find_either_from(cs, i + 1, '$', '\n');
    proof { lemma_find_either(cs@.skip(i + 1), '$', '\n'); }
    if j < n {
        assert(rest.skip(1)[j - i - 1] == cs@[j as int]);
        assert(rest.skip(1).skip(j - i - 1 + 1) =~= cs@.skip(j + 1));
        if cs[j] == '\n' {
            let t = string_of_range(cs, i, j + 1);
            assert(rest.take(j - i - 1 + 2) =~= cs@.subrange(i as int, j + 1));
            (Segment::Text(t), j + 1)
        } else {
            let tex = string_of_range(cs, i + 1, j);
            assert(rest.skip(1).take(j - i - 1) =~= cs@.subrange(i + 1, j as int));
            (Segment::Math(MathSpan { delim: Delim::Dollar, tex }), j + 1)
        }
    } else {
        let t = string_of_range(cs, i, n);
        assert(cs@.subrange(i as int, n as int) =~= rest);
        assert(cs@.skip(n as int) =~= Seq::<char>::empty());
        assert(seq![Seg::Text(rest)] =~= seq![Seg::Text(rest)] + segs(cs@.skip(n as int)));
        (Segment::Text(t), n)
    }
}

/// Splits `md` into text segments and math spans in one left-to-right pass.
pub fn scan_math(md: &str) -> (r: Vec<Segment>)
    ensures
        segs_view(r@) == segs(md@),
{
    let cs = chars_of(md);
    let n = cs.len();
    let mut out: Vec<Segment> = Vec::new();
    let mut i: usize = 0;
    assert(cs@.skip(0) =~= cs@);
    assert(segs_view(out@) + segs(cs@) =~= segs(cs@));
    while i < n
        invariant
            i <= n == cs@.len(),
            cs@ == md@,
            segs_view(out@) + segs(cs@.skip(i as int)) == segs(cs@),
        decreases n - i,
    {
        let (x, next) = scan_step(&cs, i);
        proof { lemma_push_segment(out@, x, segs(cs@.skip(next as int)), segs(cs@)); }
        out.push(x);
        i = next;
    }
    assert(cs@.skip(n as int) =~= Seq::<char>::empty());
    assert(segs_view(out@) + Seq::<Seg>::empty() =~= segs_view(out@));
    out
}


pub proof fn lemma_sources_concat(a: Seq<Seg>, b: Seq<Seg>)
    ensures
        sources(a + b) == sources(a) + sources(b),
    decreases b.len(),
{
    if b.len() == 0 {
        assert(a + b =~= a);
        assert(sources(a) + sources(b) =~= sources(a));
    } else {
        lemma_sources_concat(a, b.drop_last());
        assert((a + b).drop_last() =~= a + b.drop_last());
        assert((a + b).last() == b.last());
    }
}

proof fn lemma_sources_cons(g: Seg, rest: Seq<Seg>)
    ensures
        sources(seq![g] + rest) == source_of(g) + sources(rest),
{
    lemma_sources_concat(seq![g], rest);
    assert(seq![g].drop_last() =~= Seq::<Seg>::empty());
    assert(seq![g].last() == g);
    assert(sources(seq![g]) == sources(seq![g].drop_last()) + source_of(g));
    assert(Seq::<char>::empty() + source_of(g) =~= source_of(g));
}

/// The scan loses nothing: the segments, each written back with its own
/// delimiters, spell out the scanned text exactly.
pub proof fn lemma_segs_sources(s: Seq<char>)
    ensures
        sources(segs(s)) == s,
    decreases s.len(), 1nat,
{
    if s.len() == 0 {
        return;
    }
    if s[0] == '$' {
        if s.len() > 1 && s[1] == '$' {
            lemma_sources_pair(s);
        } else {
            lemma_sources_dollar(s);
        }
    } else if s[0] == '\\' && s.len() > 1 && (s[1] == '(' || s[1] == '[') {
        lemma_sources_pair(s);
    } else if s[0] == '\\' {
        lemma_segs_sources(s.skip(1));
        lemma_sources_cons(Seg::Text(s.take(1)), segs(s.skip(1)));
        assert(s.take(1) + s.skip(1) =~= s);
    } else {
        lemma_find_either(s, '$', '\\');
        let j = find_either(s, '$', '\\') as int;
        lemma_segs_sources(s.skip(j));
        lemma_sources_cons(Seg::Text(s.take(j)), segs(s.skip(j)));
        assert(s.take(j) + s.skip(j) =~= s);
    }
}

proof fn lemma_sources_pair(s: Seq<char>)
    requires
        s.len() > 1,
        (s[0] == '$' && s[1] == '$') || (s[0] == '\\' && (s[1] == '(' || s[1] == '[')),
    ensures
        sources(segs(s)) == s,
    decreases s.len(), 0nat,
{
    let d = if s[0] == '$' { Delim::DoubleDollar } else if s[1] == '(' { Delim::Paren } else { Delim::Bracket };
    let a = if s[0] == '$' { '$' } else { '\\' };
    let close = if s[0] == '$' { '$' } else if s[1] == '(' { ')' } else { ']' };
    let body = s.skip(2);
    lemma_find_pair(body, a, close);
    let j = find_pair(body, a, close) as int;
    if j + 1 < body.len() {
        let g = Seg::Math(d, body.take(j));
        lemma_segs_sources(body.skip(j + 2));
        lemma_sources_cons(g, segs(body.skip(j + 2)));
        assert(source_of(g) + body.skip(j + 2) =~= s);
    } else {
        lemma_sources_cons(Seg::Text(s), Seq::empty());
        assert(s + Seq::<char>::empty() =~= s);
    }
}

proof fn lemma_sources_dollar(s: Seq<char>)
    requires
        s.len() > 0,
        s[0] == '$',
        !(s.len() > 1 && s[1] == '$'),
    ensures
        sources(segs(s)) == s,
    decreases s.len(), 0nat,
{
    let body = s.skip(1);
    lemma_find_either(body, '$', '\n');
    let j = find_either(body, '$', '\n') as int;
    if j < body.len() {
        lemma_segs_sources(body.skip(j + 1));
        if body[j] == '\n' {
            let g = Seg::Text(s.take(j + 2));
            lemma_sources_cons(g, segs(body.skip(j + 1)));
            assert(source_of(g) + body.skip(j + 1) =~= s);
        } else {
            let g = Seg::Math(Delim::Dollar, body.take(j));
            lemma_sources_cons(g, segs(body.skip(j + 1)));
            assert(source_of(g) + body.skip(j + 1) =~= s);
        }
    } else {
        lemma_sources_cons(Seg::Text(s), Seq::empty());
        assert(s + Seq::<char>::empty() =~= s);
    }
}

/// An inline `$` whose line ends before any closing `$` is no math: the `$`,
/// the scanned text and the newline pass through as one text segment, and the
/// scan resumes after the newline.
pub proof fn lemma_newline_ends_inline(s: Seq<char>, j: int)
    requires
        s.len() > 1,
        s[0] == '$',
        s[1] != '$',
        0 < j < s.len(),
        s[j] == '\n',
        forall|k: int| 0 < k < j ==> s[k] != '$' && s[k] != '\n',
    ensures
        segs(s) == seq![Seg::Text(s.take(j + 1))] + segs(s.skip(j + 1)),
{
    let body = s.skip(1);
    lemma_find_either(body, '$', '\n');
    let f = find_either(body, '$', '\n') as int;
    if f < j - 1 {
        assert(body[f] == s[f + 1]);
    }
    if f > j - 1 {
        assert(body[j - 1] == s[j]);
    }
    assert(f == j - 1);
    assert(body[f] == s[j]);
    assert(body.skip(f + 1) =~= s.skip(j + 1));
}

/// An opening delimiter with no valid terminator after it is no math: the
/// delimiter and everything after it pass through as one text segment.
pub proof fn lemma_unterminated(s: Seq<char>, d: Delim)
    requires
        begins_with(s, open_of(d)),
        d == Delim::Dollar ==> !begins_with(s, open_of(Delim::DoubleDollar)),
        forall|k: int| open_of(d).len() <= k ==> !occurs_at(s, k, close_of(d)),
        d == Delim::Dollar ==> forall|k: int| 0 < k < s.len() ==> s[k] != '\n',
    ensures
        segs(s) == seq![Seg::Text(s)],
{
    let o = open_of(d);
    let c = close_of(d);
    assert(s[0] == s.subrange(0, o.len() as int)[0]);
    if d == Delim::Dollar {
        assert(s[0] == '$');
        if s.len() > 1 && s[1] == '$' {
            assert(s.subrange(0, 2) =~= open_of(Delim::DoubleDollar));
        }
        let body = s.skip(1);
        lemma_find_either(body, '$', '\n');
        let f = find_either(body, '$', '\n') as int;
        if f < body.len() {
            assert(body[f] == s[f + 1]);
            if body[f] == '$' {
                assert(s.subrange(f + 1, f + 2) =~= c);
                assert(occurs_at(s, f + 1, c));
            }
            assert(false);
        }
    } else {
        assert(s[1] == s.subrange(0, 2)[1]);
        let a = c[0];
        let b = c[1];
        let body = s.skip(2);
        lemma_find_pair(body, a, b);
        let f = find_pair(body, a, b) as int;
        if f + 1 < body.len() {
            assert(body[f] == s[f + 2]);
            assert(body[f + 1] == s[f + 3]);
            assert(s.subrange(f + 2, f + 4) =~= c);
            assert(occurs_at(s, f + 2, c));
            assert(false);
        }
        if d == Delim::DoubleDollar {
            assert(s[0] == '$' && s[1] == '$' && a == '$' && b == '$');
        } else if d == Delim::Paren {
            assert(s[0] == '\\' && s[1] == '(' && a == '\\' && b == ')');
        } else {
            assert(s[0] == '\\' && s[1] == '[' && a == '\\' && b == ']');
        }
    }
}

} // verus!
