//! The protect-and-restore strategy: before markdown conversion each math
//! span is replaced by a placeholder token and recorded in a registry; after
//! conversion each token is replaced by the delimited source it stood for.

use vstd::prelude::*;
use crate::math::{Delim, Seg, Segment, MathSpan, is_display, open_of, close_of, segs, segs_view,
    scan_math, source_of, sources, find_either, lemma_find_either, lemma_segs_sources};
use crate::text::{begins_with, chars_of, occurs_at, occurs_at_exec, push_char, push_range, push_str};

verus! {

/// Opens a placeholder token.
pub const TOKEN_OPEN: char = '\u{E000}';

/// Closes a placeholder token.
pub const TOKEN_CLOSE: char = '\u{E001}';

/// The decimal digit for `d < 10`.
pub open spec fn digit_char(d: nat) -> char {
    if d == 0 { '0' } else if d == 1 { '1' } else if d == 2 { '2' } else if d == 3 { '3' }
    else if d == 4 { '4' } else if d == 5 { '5' } else if d == 6 { '6' } else if d == 7 { '7' }
    else if d == 8 { '8' } else { '9' }
}

pub open spec fn is_digit(c: char) -> bool {
    48 <= (c as u32) <= 57
}

pub open spec fn digit_value(c: char) -> nat {
    ((c as u32) - 48) as nat
}

pub open spec fn all_digits(ds: Seq<char>) -> bool {
    forall|i: int| 0 <= i < ds.len() ==> is_digit(#[trigger] ds[i])
}

/// The decimal numeral of `n`, without leading zeros.
pub open spec fn decimal(n: nat) -> Seq<char>
    decreases n,
{
    if n < 10 {
        seq![digit_char(n)]
    } else {
        decimal(n / 10).push(digit_char(n % 10))
    }
}

/// The number that a string of digits denotes.
pub open spec fn value_of(ds: Seq<char>) -> nat
    decreases ds.len(),
{
    if ds.len() == 0 {
        0
    } else {
        value_of(ds.drop_last()) * 10 + digit_value(ds.last())
    }
}

/// The token kind: `B` for display (block) math, `I` for inline math.
pub open spec fn kind_char(display: bool) -> char {
    if display { 'B' } else { 'I' }
}

/// The placeholder token for the span with identifier `k`.
pub open spec fn token(k: nat, display: bool) -> Seq<char> {
    seq![TOKEN_OPEN, kind_char(display)] + decimal(k) + seq![TOKEN_CLOSE]
}

/// The registry's view: each recorded span's grammar and source.
pub open spec fn spans_view(v: Seq<MathSpan>) -> Seq<(Delim, Seq<char>)> {
    v.map_values(|m: MathSpan| (m.delim, m.tex@))
}

/// The math spans among the segments, in order: the registry, indexed by
/// identifier.
pub open spec fn math_spans(gs: Seq<Seg>) -> Seq<(Delim, Seq<char>)>
    decreases gs.len(),
{
    if gs.len() == 0 {
        Seq::empty()
    } else {
        let p = math_spans(gs.drop_last());
        match gs.last() {
            Seg::Math(d, t) => p.push((d, t)),
            Seg::Text(_) => p,
        }
    }
}

/// The protected text: text segments unchanged, the `k`-th math span replaced
/// by its token with identifier `k`.
pub open spec fn protect_text(gs: Seq<Seg>) -> Seq<char>
    decreases gs.len(),
{
    if gs.len() == 0 {
        Seq::empty()
    } else {
        protect_text(gs.drop_last()) + match gs.last() {
            Seg::Text(t) => t,
            Seg::Math(d, _) => token(math_spans(gs.drop_last()).len(), is_display(d)),
        }
    }
}

/// A recorded span written back with its own delimiters.
pub open spec fn span_source(sp: (Delim, Seq<char>)) -> Seq<char> {
    open_of(sp.0) + sp.1 + close_of(sp.0)
}

/// The token that begins `s`, if any names a span of `reg` of its own kind:
/// the span's identifier and the token's length.
pub open spec fn token_at(s: Seq<char>, reg: Seq<(Delim, Seq<char>)>) -> Option<(nat, nat)> {
    if s.len() >= 2 && s[0] == TOKEN_OPEN && (s[1] == 'B' || s[1] == 'I') {
        let body = s.skip(2);
        let j = find_either(body, TOKEN_CLOSE, TOKEN_CLOSE);
        let ds = body.take(j as int);
        if 0 < j < body.len() && all_digits(ds) && value_of(ds) < reg.len() && is_display(
            reg[value_of(ds) as int].0,
        ) == (s[1] == 'B') {
            Some((value_of(ds), j + 3))
        } else {
            None
        }
    } else {
        None
    }
}

pub proof fn lemma_token_at(s: Seq<char>, reg: Seq<(Delim, Seq<char>)>)
    ensures
        match token_at(s, reg) {
            Some(t) => 3 <= t.1 <= s.len() && t.0 < reg.len(),
            None => true,
        },
{
    if s.len() >= 2 {
        lemma_find_either(s.skip(2), TOKEN_CLOSE, TOKEN_CLOSE);
    }
}

/// `s` with every token that names a span of `reg` replaced by that span's
/// source; everything else unchanged.
pub open spec fn restore(s: Seq<char>, reg: Seq<(Delim, Seq<char>)>) -> Seq<char>
    decreases s.len(),
{
    if s.len() == 0 {
        Seq::empty()
    } else {
        proof {
            lemma_token_at(s, reg);
        }
        match token_at(s, reg) {
            Some(t) => span_source(reg[t.0 as int]) + restore(s.skip(t.1 as int), reg),
            None => seq![s[0]] + restore(s.skip(1), reg),
        }
    }
}

proof fn lemma_digit(d: nat)
    requires
        d < 10,
    ensures
        is_digit(digit_char(d)),
        digit_value(digit_char(d)) == d,
{
}

proof fn lemma_decimal(n: nat)
    ensures
        decimal(n).len() >= 1,
        all_digits(decimal(n)),
        value_of(decimal(n)) == n,
    decreases n,
{
    if n < 10 {
        lemma_digit(n);
        let d = decimal(n);
        assert(d.drop_last() =~= Seq::<char>::empty());
        assert(value_of(Seq::<char>::empty()) == 0);
        assert(value_of(d) == value_of(d.drop_last()) * 10 + digit_value(d.last()));
    } else {
        lemma_decimal(n / 10);
        lemma_digit(n % 10);
        let d = decimal(n);
        assert(d.drop_last() =~= decimal(n / 10));
        assert(d.last() == digit_char(n % 10));
        assert(value_of(d) == value_of(d.drop_last()) * 10 + digit_value(d.last()));
        assert(n == (n / 10) * 10 + n % 10);
        assert forall|i: int| 0 <= i < d.len() implies is_digit(#[trigger] d[i]) by {
            if i < d.len() - 1 {
                assert(d[i] == decimal(n / 10)[i]);
            }
        }
    }
}

proof fn lemma_value_prefix(ds: Seq<char>, m: int)
    requires
        0 <= m <= ds.len(),
    ensures
        value_of(ds.take(m)) <= value_of(ds),
    decreases ds.len(),
{
    if m < ds.len() {
        lemma_value_prefix(ds.drop_last(), m);
        assert(ds.drop_last().take(m) =~= ds.take(m));
    } else {
        assert(ds.take(m) =~= ds);
    }
}

proof fn lemma_restore_text(t: Seq<char>, x: Seq<char>, reg: Seq<(Delim, Seq<char>)>)
    requires
        forall|i: int| 0 <= i < t.len() ==> t[i] != TOKEN_OPEN,
    ensures
        restore(t + x, reg) == t + restore(x, reg),
    decreases t.len(),
{
    if t.len() == 0 {
        assert(t + x =~= x);
        assert(t + restore(x, reg) =~= restore(x, reg));
    } else {
        let s = t + x;
        assert(s[0] == t[0]);
        assert(token_at(s, reg) is None);
        assert(s.skip(1) =~= t.skip(1) + x);
        lemma_restore_text(t.skip(1), x, reg);
        assert(seq![t[0]] + (t.skip(1) + restore(x, reg)) =~= t + restore(x, reg));
    }
}

proof fn lemma_restore_token(k: nat, display: bool, x: Seq<char>, reg: Seq<(Delim, Seq<char>)>)
    requires
        k < reg.len(),
        is_display(reg[k as int].0) == display,
    ensures
        restore(token(k, display) + x, reg) == span_source(reg[k as int]) + restore(x, reg),
{
    let s = token(k, display) + x;
    let dec = decimal(k);
    lemma_decimal(k);
    let body = s.skip(2);
    assert(body =~= dec + seq![TOKEN_CLOSE] + x);
    lemma_find_either(body, TOKEN_CLOSE, TOKEN_CLOSE);
    let j = find_either(body, TOKEN_CLOSE, TOKEN_CLOSE) as int;
    if j < dec.len() {
        assert(body[j] == dec[j]);
        assert(is_digit(dec[j]));
    }
    if j > dec.len() {
        assert(body[dec.len() as int] == TOKEN_CLOSE);
    }
    assert(j == dec.len());
    assert(body.take(j) =~= dec);
    assert(s[0] == TOKEN_OPEN);
    assert(s[1] == kind_char(display));
    assert(token_at(s, reg) == Some((k, (j + 3) as nat)));
    assert(s.skip(j + 3) =~= x);
}

proof fn lemma_protect_restore(gs: Seq<Seg>, reg: Seq<(Delim, Seq<char>)>, x: Seq<char>)
    requires
        math_spans(gs).len() <= reg.len(),
        forall|i: int| 0 <= i < math_spans(gs).len() ==> reg[i] == #[trigger] math_spans(gs)[i],
        forall|i: int| 0 <= i < sources(gs).len() ==> sources(gs)[i] != TOKEN_OPEN,
    ensures
        restore(protect_text(gs) + x, reg) == sources(gs) + restore(x, reg),
    decreases gs.len(),
{
    if gs.len() == 0 {
        assert(protect_text(gs) + x =~= x);
        assert(sources(gs) + restore(x, reg) =~= restore(x, reg));
    } else {
        let g0 = gs.drop_last();
        let last = gs.last();
        let p0 = math_spans(g0);
        assert(sources(gs) == sources(g0) + source_of(last));
        assert forall|i: int| 0 <= i < sources(g0).len() implies sources(g0)[i] != TOKEN_OPEN by {
            assert(sources(gs)[i] == sources(g0)[i]);
        }
        assert forall|i: int| 0 <= i < p0.len() implies reg[i] == #[trigger] p0[i] by {
            assert(math_spans(gs)[i] == p0[i]);
        }
        match last {
            Seg::Text(t) => {
                assert forall|i: int| 0 <= i < t.len() implies t[i] != TOKEN_OPEN by {
                    assert(sources(gs)[sources(g0).len() + i] == t[i]);
                }
                assert(protect_text(gs) + x =~= protect_text(g0) + (t + x));
                lemma_protect_restore(g0, reg, t + x);
                lemma_restore_text(t, x, reg);
                assert(sources(g0) + (t + restore(x, reg)) =~= sources(gs) + restore(x, reg));
            },
            Seg::Math(d, tex) => {
                let k = p0.len();
                assert(math_spans(gs)[k as int] == (d, tex));
                let tok = token(k, is_display(d));
                assert(protect_text(gs) + x =~= protect_text(g0) + (tok + x));
                lemma_protect_restore(g0, reg, tok + x);
                lemma_restore_token(k, is_display(d), x, reg);
                assert(span_source(reg[k as int]) == source_of(last));
                assert(sources(g0) + (source_of(last) + restore(x, reg)) =~= sources(gs) + restore(x, reg));
            },
        }
    }
}

proof fn lemma_front_text(t: Seq<char>, rest: Seq<Seg>)
    ensures
        math_spans(seq![Seg::Text(t)] + rest) == math_spans(rest),
        protect_text(seq![Seg::Text(t)] + rest) == t + protect_text(rest),
    decreases rest.len(),
{
    let all = seq![Seg::Text(t)] + rest;
    if rest.len() == 0 {
        assert(all.drop_last() =~= Seq::<Seg>::empty());
        assert(all.last() == Seg::Text(t));
        assert(math_spans(all) == math_spans(all.drop_last()));
        assert(protect_text(all) == protect_text(all.drop_last()) + t);
        assert(Seq::<char>::empty() + t =~= t);
        assert(t + Seq::<char>::empty() =~= t);
    } else {
        let r0 = rest.drop_last();
        lemma_front_text(t, r0);
        assert(all.drop_last() =~= seq![Seg::Text(t)] + r0);
        assert(all.last() == rest.last());
        match rest.last() {
            Seg::Text(u) => {
                assert(math_spans(all) == math_spans(all.drop_last()));
                assert(math_spans(rest) == math_spans(r0));
                assert(protect_text(all) == protect_text(all.drop_last()) + u);
                assert(protect_text(rest) == protect_text(r0) + u);
                assert(t + protect_text(r0) + u =~= t + (protect_text(r0) + u));
            },
            Seg::Math(d, x) => {
                assert(math_spans(all) == math_spans(all.drop_last()).push((d, x)));
                assert(math_spans(rest) == math_spans(r0).push((d, x)));
                let tok = token(math_spans(r0).len(), is_display(d));
                assert(protect_text(all) == protect_text(all.drop_last()) + tok);
                assert(protect_text(rest) == protect_text(r0) + tok);
                assert(t + protect_text(r0) + tok =~= t + (protect_text(r0) + tok));
            },
        }
    }
}

/// An inline `$` whose line ends before any closing `$` is no math under
/// protection either: the `$`, the scanned text and the newline stand
/// verbatim in the protected text, followed by the protection of the rest.
pub proof fn lemma_newline_inline_verbatim(s: Seq<char>, j: int)
    requires
        s.len() > 1,
        s[0] == '$',
        s[1] != '$',
        0 < j < s.len(),
        s[j] == '\n',
        forall|k: int| 0 < k < j ==> s[k] != '$' && s[k] != '\n',
    ensures
        protect_text(segs(s)) == s.take(j + 1) + protect_text(segs(s.skip(j + 1))),
        math_spans(segs(s)) == math_spans(segs(s.skip(j + 1))),
{
    crate::math::lemma_newline_ends_inline(s, j);
    lemma_front_text(s.take(j + 1), segs(s.skip(j + 1)));
}

/// An opening delimiter without a valid terminator leaves the text as it is:
/// under protection nothing is replaced and nothing is recorded.
pub proof fn lemma_unterminated_verbatim(s: Seq<char>, d: Delim)
    requires
        begins_with(s, open_of(d)),
        d == Delim::Dollar ==> !begins_with(s, open_of(Delim::DoubleDollar)),
        forall|k: int| open_of(d).len() <= k ==> !occurs_at(s, k, close_of(d)),
        d == Delim::Dollar ==> forall|k: int| 0 < k < s.len() ==> s[k] != '\n',
    ensures
        protect_text(segs(s)) == s,
        math_spans(segs(s)) == Seq::<(Delim, Seq<char>)>::empty(),
{
    crate::math::lemma_unterminated(s, d);
    lemma_front_text(s, Seq::empty());
    assert(seq![Seg::Text(s)] + Seq::<Seg>::empty() =~= seq![Seg::Text(s)]);
    assert(s + Seq::<char>::empty() =~= s);
}

/// Round trip: for text free of the token opener, restoring the protected
/// text from its registry gives back the scanned text exactly, each math span
/// with its own delimiters and its source unchanged, white space included.
pub proof fn lemma_round_trip(s: Seq<char>)
    requires
        forall|i: int| 0 <= i < s.len() ==> s[i] != TOKEN_OPEN,
    ensures
        restore(protect_text(segs(s)), math_spans(segs(s))) == s,
{
    let gs = segs(s);
    lemma_segs_sources(s);
    lemma_protect_restore(gs, math_spans(gs), Seq::empty());
    assert(protect_text(gs) + Seq::<char>::empty() =~= protect_text(gs));
    assert(s + Seq::<char>::empty() =~= s);
}


/// Text whose math spans were replaced by placeholder tokens, with the
/// registry that maps each token's identifier to the span it stands for.
#[derive(Clone, Debug)]
pub struct Protected {
    pub text: String,
    pub spans: Vec<MathSpan>,
}

fn digit_exec(d: usize) -> (c: char)
    requires
        d < 10,
    ensures
        c == digit_char(d as nat),
{
    if d == 0 { '0' } else if d == 1 { '1' } else if d == 2 { '2' } else if d == 3 { '3' }
    else if d == 4 { '4' } else if d == 5 { '5' } else if d == 6 { '6' } else if d == 7 { '7' }
    else if d == 8 { '8' } else { '9' }
}

fn push_decimal(out: &mut String, n: usize)
    ensures
        final(out)@ == old(out)@ + decimal(n as nat),
    decreases n,
{
    if n >= 10 {
        push_decimal(out, n / 10);
    }
    push_char(out, digit_exec(n % 10));
    proof {
        if n < 10 {
            assert(old(out)@.push(digit_char(n as nat)) =~= old(out)@ + decimal(n as nat));
        } else {
            assert(decimal(n as nat) == decimal((n / 10) as nat).push(digit_char((n % 10) as nat)));
            assert((old(out)@ + decimal((n / 10) as nat)).push(digit_char((n % 10) as nat)) =~= old(out)@
                + decimal(n as nat));
        }
    }
}

/// Appends the placeholder token for identifier `k`.
fn push_token(out: &mut String, k: usize, display: bool)
    ensures
        final(out)@ == old(out)@ + token(k as nat, display),
{
    push_char(out, TOKEN_OPEN);
    push_char(out, if display { 'B' } else { 'I' });
    push_decimal(out, k);
    push_char(out, TOKEN_CLOSE);
    assert(final(out)@ =~= old(out)@ + token(k as nat, display));
}

/// Replaces each math span of `md` by a placeholder token, numbering the spans
/// from zero in order of appearance; the registry lists the spans in that
/// order. Display and inline spans get tokens of distinct kinds.
pub fn protect_math(md: &str) -> (r: Protected)
    ensures
        r.text@ == protect_text(segs(md@)),
        spans_view(r.spans@) == math_spans(segs(md@)),
{
    let segments = scan_math(md);
    let ghost gs = segs_view(segments@);
    let mut text = String::new();
    let mut spans: Vec<MathSpan> = Vec::new();
    let mut k: usize = 0;
    assert(gs.take(0) =~= Seq::<Seg>::empty());
    assert(spans_view(spans@) =~= Seq::<(Delim, Seq<char>)>::empty());
    while k < segments.len()
        invariant
            k <= segments@.len(),
            gs == segs_view(segments@),
            text@ == protect_text(gs.take(k as int)),
            spans_view(spans@) == math_spans(gs.take(k as int)),
        decreases segments@.len() - k,
    {
        assert(gs.take(k + 1).drop_last() =~= gs.take(k as int));
        assert(gs.take(k + 1).last() == segments@[k as int]@);
        match &segments[k] {
            Segment::Text(t) => {
                push_str(&mut text, t.as_str());
            },
            Segment::Math(m) => {
                push_token(&mut text, spans.len(), m.delim.display());
                let ghost before = spans@;
                spans.push(m.clone_span());
                assert(spans_view(spans@) =~= spans_view(before).push((m.delim, m.tex@)));
            },
        }
        k = k + 1;
    }
    assert(gs.take(k as int) =~= gs);
    Protected { text, spans }
}

/// Appends a recorded span written back with its own delimiters.
fn push_span_source(out: &mut String, sp: &MathSpan)
    ensures
        final(out)@ == old(out)@ + span_source((sp.delim, sp.tex@)),
{
    let (a, b, c, d) = match sp.delim {
        Delim::DoubleDollar => ('$', '$', '$', '$'),
        Delim::Dollar => ('$', '$', '$', '$'),
        Delim::Paren => ('\\', '(', '\\', ')'),
        Delim::Bracket => ('\\', '[', '\\', ']'),
    };
    push_char(out, a);
    if sp.delim != Delim::Dollar {
        push_char(out, b);
    }
    push_str(out, sp.tex.as_str());
    push_char(out, c);
    if sp.delim != Delim::Dollar {
        push_char(out, d);
    }
    assert(final(out)@ =~= old(out)@ + span_source((sp.delim, sp.tex@)));
}

/// The token at position `i` of `cs`, as `token_at` reads it: the span's
/// identifier and the token's length.
fn token_at_exec(cs: &Vec<char>, i: usize, spans: &Vec<MathSpan>) -> (r: Option<(usize, usize)>)
    requires
        i < cs@.len(),
    ensures
        r is Some <==> token_at(cs@.skip(i as int), spans_view(spans@)) is Some,
        match r {
            Some((k, len)) => token_at(cs@.skip(i as int), spans_view(spans@)) == Some(
                (k as nat, len as nat),
            ),
            None => true,
        },
{
    let ghost reg = spans_view(spans@);
    let ghost rest = cs@.skip(i as int);
    let n = cs.len();
    if n - i < 2 || cs[i] != TOKEN_OPEN || !(cs[i + 1] == 'B' || cs[i + 1] == 'I') {
        proof {
            if rest.len() >= 2 {
                assert(rest[0] == cs@[i as int]);
                assert(rest[1] == cs@[i + 1]);
            }
        }
        return None;
    }
    assert(rest[0] == cs@[i as int]);
    assert(rest[1] == cs@[i + 1]);
    assert(rest.skip(2) =~= cs@.skip(i + 2));
    let j = find_either_close(cs, i + 2);
    proof { lemma_find_either(cs@.skip(i + 2), TOKEN_CLOSE, TOKEN_CLOSE); }
    let ghost ds = cs@.subrange(i + 2, j as int);
    assert(rest.skip(2).take(j - i - 2) =~= ds);
    if j == i + 2 || j >= n {
        return None;
    }
    let mut v: usize = 0;
    let mut p: usize = i + 2;
    assert(cs@.subrange(i + 2, p as int) =~= Seq::<char>::empty());
    assert(token_at(rest, reg) is Some <==> (all_digits(ds) && value_of(ds) < reg.len() && is_display(
        reg[value_of(ds) as int].0,
    ) == (cs@[i + 1] == 'B')));
    assert(token_at(rest, reg) is Some ==> token_at(rest, reg) == Some((value_of(ds), (j - i + 1) as nat)));
    while p < j
        invariant
            i + 2 <= p <= j < n == cs@.len(),
            reg == spans_view(spans@),
            rest == cs@.skip(i as int),
            token_at(rest, reg) is Some <==> (all_digits(ds) && value_of(ds) < reg.len() && is_display(
                reg[value_of(ds) as int].0,
            ) == (cs@[i + 1] == 'B')),
            token_at(rest, reg) is Some ==> token_at(rest, reg) == Some((value_of(ds), (j - i + 1) as nat)),
            ds == cs@.subrange(i + 2, j as int),
            all_digits(cs@.subrange(i + 2, p as int)),
            v == value_of(cs@.subrange(i + 2, p as int)),
            p > i + 2 ==> v < spans@.len(),
        decreases j - p,
    {
        let c = cs[p];
        let ghost pre = cs@.subrange(i + 2, p as int);
        let ghost next = cs@.subrange(i + 2, p + 1);
        assert(next.drop_last() =~= pre);
        assert(ds.take(p + 1 - i - 2) =~= next);
        #[verifier::truncate]
        let cu = c as u32;
        if !(48 <= cu && cu <= 57) {
            assert(ds[p - i - 2] == c);
            assert(!is_digit(ds[p - i - 2]));
            return None;
        }
        let dv = (cu - 48) as usize;
        assert(next.last() == c);
        assert(value_of(next) == value_of(next.drop_last()) * 10 + digit_value(next.last()));
        assert(all_digits(next)) by {
            assert forall|m: int| 0 <= m < next.len() implies is_digit(#[trigger] next[m]) by {
                if m < pre.len() {
                    assert(next[m] == pre[m]);
                }
            }
        }
        let l = spans.len();
        proof { vstd::arithmetic::div_mod::lemma_fundamental_div_mod(l as int, 10); }
        if v > l / 10 || dv >= l - v * 10 {
            proof {
                if all_digits(ds) {
                    lemma_value_prefix(ds, p + 1 - i - 2);
                }
            }
            return None;
        }
        let v2 = v * 10 + dv;
        v = v2;
        p = p + 1;
    }
    assert(cs@.subrange(i + 2, p as int) == ds);
    let kind_b = cs[i + 1] == 'B';
    if spans[v].delim.display() != kind_b {
        return None;
    }
    Some((v, j - i + 1))
}

fn find_either_close(cs: &Vec<char>, from: usize) -> (r: usize)
    requires
        from <= cs@.len(),
    ensures
        r == from + find_either(cs@.skip(from as int), TOKEN_CLOSE, TOKEN_CLOSE),
{
    let mut j: usize = from;
    while j < cs.len()
        invariant
            from <= j <= cs@.len(),
            from + find_either(cs@.skip(from as int), TOKEN_CLOSE, TOKEN_CLOSE) == j + find_either(
                cs@.skip(j as int),
                TOKEN_CLOSE,
                TOKEN_CLOSE,
            ),
        decreases cs@.len() - j,
    {
        if cs[j] == TOKEN_CLOSE {
            return j;
        }
        assert(cs@.skip(j as int).drop_first() =~= cs@.skip(j + 1));
        j = j + 1;
    }
    j
}

/// Replaces every placeholder token in `html` that names a span of the
/// registry, of its own kind, by that span's delimited source.
pub fn restore_placeholders(html: &str, spans: &Vec<MathSpan>) -> (r: String)
    ensures
        r@ == restore(html@, spans_view(spans@)),
{
    let ghost reg = spans_view(spans@);
    let cs = chars_of(html);
    let n = cs.len();
    let mut out = String::new();
    let mut i: usize = 0;
    assert(cs@.skip(0) =~= cs@);
    assert(out@ + restore(cs@, reg) =~= restore(cs@, reg));
    while i < n
        invariant
            i <= n == cs@.len(),
            cs@ == html@,
            reg == spans_view(spans@),
            out@ + restore(cs@.skip(i as int), reg) == restore(cs@, reg),
        decreases n - i,
    {
        let ghost rest = cs@.skip(i as int);
        let ghost before = out@;
        proof { lemma_token_at(rest, reg); }
        match token_at_exec(&cs, i, spans) {
            Some((k, len)) => {
                push_span_source(&mut out, &spans[k]);
                assert(reg[k as int] == (spans@[k as int].delim, spans@[k as int].tex@));
                assert(rest.skip(len as int) =~= cs@.skip(i + len));
                assert(before + (span_source(reg[k as int]) + restore(rest.skip(len as int), reg))
                    =~= out@ + restore(cs@.skip(i + len), reg));
                i = i + len;
            },
            None => {
                push_char(&mut out, cs[i]);
                assert(rest[0] == cs@[i as int]);
                assert(rest.skip(1) =~= cs@.skip(i + 1));
                assert(before + (seq![cs@[i as int]] + restore(rest.skip(1), reg)) =~= out@ + restore(
                    cs@.skip(i + 1),
                    reg,
                ));
                i = i + 1;
            },
        }
    }
    assert(cs@.skip(n as int) =~= Seq::<char>::empty());
    assert(out@ + Seq::<char>::empty() =~= out@);
    out
}


/// The length of the display-math token that `s` holds right after an
/// opening paragraph tag, where a closing paragraph tag follows the token.
pub open spec fn wrapped_block_at(s: Seq<char>) -> Option<nat> {
    let t = s.skip(3);
    let body = t.skip(2);
    let j = find_either(body, TOKEN_CLOSE, TOKEN_CLOSE);
    if begins_with(s, "<p>"@) && t.len() >= 2 && t[0] == TOKEN_OPEN && t[1] == 'B' && 0 < j < body.len()
        && all_digits(body.take(j as int)) && occurs_at(t, j + 3int, "</p>"@) {
        Some(j + 3)
    } else {
        None
    }
}

/// `s` with the paragraph tags that stand directly around a display-math
/// token removed, so that the restored math is not wrapped in a paragraph.
pub open spec fn unwrap_blocks(s: Seq<char>) -> Seq<char>
    decreases s.len(),
{
    if s.len() == 0 {
        Seq::empty()
    } else {
        match wrapped_block_at(s) {
            Some(m) => {
                proof {
                    reveal_strlit("<p>");
                    reveal_strlit("</p>");
                    lemma_find_either(s.skip(3).skip(2), TOKEN_CLOSE, TOKEN_CLOSE);
                    assert(3 + m + 4 <= s.len());
                }
                s.subrange(3, 3 + m as int) + unwrap_blocks(s.skip(3 + m + 4int))
            },
            None => seq![s[0]] + unwrap_blocks(s.skip(1)),
        }
    }
}

/// The length of the wrapped display token at position `i`, as
/// `wrapped_block_at` reads it.
fn wrapped_block_exec(cs: &Vec<char>, i: usize) -> (r: Option<usize>)
    requires
        i < cs@.len(),
    ensures
        match r {
            Some(m) => wrapped_block_at(cs@.skip(i as int)) == Some(m as nat),
            None => wrapped_block_at(cs@.skip(i as int)) is None,
        },
{
    proof {
        reveal_strlit("<p>");
        reveal_strlit("</p>");
    }
    let ghost s = cs@.skip(i as int);
    let n = cs.len();
    let open_p = chars_of("<p>");
    let close_p = chars_of("</p>");
    if !occurs_at_exec(cs, i, &open_p) || n - i < 5 || cs[i + 3] != TOKEN_OPEN || cs[i + 4] != 'B' {
        proof {
            if begins_with(s, "<p>"@) {
                assert(s.subrange(0, 3) =~= cs@.subrange(i as int, i + 3));
            }
            if s.len() >= 5 {
                assert(s.skip(3)[0] == cs@[i + 3]);
                assert(s.skip(3)[1] == cs@[i + 4]);
            }
        }
        return None;
    }
    assert(s.subrange(0, 3) =~= cs@.subrange(i as int, i + 3));
    assert(s.skip(3)[0] == cs@[i + 3]);
    assert(s.skip(3)[1] == cs@[i + 4]);
    assert(s.skip(3).skip(2) =~= cs@.skip(i + 5));
    let j = find_either_close(cs, i + 5);
    proof { lemma_find_either(cs@.skip(i + 5), TOKEN_CLOSE, TOKEN_CLOSE); }
    if j == i + 5 || j >= n {
        return None;
    }
    let ghost ds = cs@.subrange(i + 5, j as int);
    assert(s.skip(3).skip(2).take(j - i - 5) =~= ds);
    assert(wrapped_block_at(s) is Some ==> all_digits(ds));
    let mut p: usize = i + 5;
    while p < j
        invariant
            i + 5 <= p <= j < n == cs@.len(),
            s == cs@.skip(i as int),
            wrapped_block_at(s) is Some ==> all_digits(ds),
            ds == cs@.subrange(i + 5, j as int),
            forall|q: int| i + 5 <= q < p ==> is_digit(#[trigger] cs@[q]),
        decreases j - p,
    {
        let cu = #[verifier::truncate] (cs[p] as u32);
        if !(48 <= cu && cu <= 57) {
            assert(ds[p - i - 5] == cs@[p as int]);
            assert(!is_digit(ds[p - i - 5]));
            return None;
        }
        p = p + 1;
    }
    assert(all_digits(ds)) by {
        assert forall|q: int| 0 <= q < ds.len() implies is_digit(#[trigger] ds[q]) by {
            assert(ds[q] == cs@[i + 5 + q]);
        }
    }
    let at = occurs_at_exec(cs, j + 1, &close_p);
    proof {
        let t = s.skip(3);
        let k = j - i - 5 + 3;
        if occurs_at(t, k, "</p>"@) {
            assert(t.subrange(k, k + 4) =~= cs@.subrange(j + 1, j + 5));
        }
        if at {
            assert(t.subrange(k, k + 4) =~= cs@.subrange(j + 1, j + 5));
        }
    }
    if at {
        Some(j - i - 5 + 3)
    } else {
        None
    }
}

/// Removes the paragraph tags that the markdown converter put directly
/// around a display-math token standing in a paragraph of its own.
pub fn unwrap_block_paragraphs(html: &str) -> (r: String)
    ensures
        r@ == unwrap_blocks(html@),
{
    let cs = chars_of(html);
    let n = cs.len();
    let mut out = String::new();
    let mut i: usize = 0;
    assert(cs@.skip(0) =~= cs@);
    assert(out@ + unwrap_blocks(cs@) =~= unwrap_blocks(cs@));
    while i < n
        invariant
            i <= n == cs@.len(),
            cs@ == html@,
            out@ + unwrap_blocks(cs@.skip(i as int)) == unwrap_blocks(html@),
        decreases n - i,
    {
        let ghost rest = cs@.skip(i as int);
        let ghost before = out@;
        match wrapped_block_exec(&cs, i) {
            Some(m) => {
                proof {
                    reveal_strlit("<p>");
                    reveal_strlit("</p>");
                    lemma_find_either(rest.skip(3).skip(2), TOKEN_CLOSE, TOKEN_CLOSE);
                    assert(rest == cs@.skip(i as int));
                    assert(3 + m + 4 <= rest.len());
                }
                assert(i + 3 + m + 4 <= n);
                push_range(&mut out, &cs, i + 3, i + 3 + m);
                assert(rest.subrange(3, 3 + m as int) =~= cs@.subrange(i + 3, i + 3 + m));
                assert(rest.skip(3 + m + 4) =~= cs@.skip(i + 3 + m + 4));
                assert(before + (rest.subrange(3, 3 + m as int) + unwrap_blocks(rest.skip(3 + m + 4)))
                    =~= out@ + unwrap_blocks(cs@.skip(i + 3 + m + 4)));
                i = i + 3 + m + 4;
            },
            None => {
                push_char(&mut out, cs[i]);
                assert(rest[0] == cs@[i as int]);
                assert(rest.skip(1) =~= cs@.skip(i + 1));
                assert(before + (seq![cs@[i as int]] + unwrap_blocks(rest.skip(1))) =~= out@ + unwrap_blocks(
                    cs@.skip(i + 1),
                ));
                i = i + 1;
            },
        }
    }
    assert(cs@.skip(n as int) =~= Seq::<char>::empty());
    assert(out@ + Seq::<char>::empty() =~= out@);
    out
}

/// Restores the math of converted HTML: first the paragraph tags around
/// display tokens go, then every token gives back its span's source.
pub fn restore_math(html: &str, spans: &Vec<MathSpan>) -> (r: String)
    ensures
        r@ == restore(unwrap_blocks(html@), spans_view(spans@)),
{
    let unwrapped = unwrap_block_paragraphs(html);
    restore_placeholders(unwrapped.as_str(), spans)
}

} // verus!
