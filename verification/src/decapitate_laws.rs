//! What holds of files whose function bodies were taken out.
use vstd::prelude::*;
use crate::decapitate;
use crate::decapitate::{BodyRules, LanguageKind};
use crate::languages::common;
use crate::splice;
use crate::splice::EditView;
use crate::syntax;
use crate::syntax::{TreeRules, TreeView};
use crate::text;

verus! {

/// Whether the pieces of source that the nodes of a tree stand for lie as the nodes do: those of
/// a subtree within that of its root, others before or after it.
pub open spec fn spans_nest(t: TreeView) -> bool {
    &&& forall|i: int| #[trigger] t.valid(i) ==> t.rows[i].start_byte <= t.rows[i].end_byte
    &&& forall|i: int, j: int| #[trigger]
        t.valid(i) && i < j < t.last(i) ==> t.rows[i].start_byte <= (#[trigger] t.rows[j]).start_byte && t.rows[j].end_byte
            <= t.rows[i].end_byte
    &&& forall|i: int, j: int| #[trigger] t.valid(i) && t.last(i) <= j && #[trigger] t.valid(j) ==> t.rows[i].end_byte <= t.rows[j].start_byte
}

/// Whether an edit lies outside the range of another.
pub open spec fn apart(e: EditView, from: EditView) -> bool {
    e.start <= e.end && (e.end <= from.start || e.start >= from.end)
}

proof fn lemma_bytes_between(s: Seq<char>, i: int, j: int)
    requires
        0 <= i <= j <= s.len(),
    ensures
        syntax::byte_len(s.take(j)) >= syntax::byte_len(s.take(i)) + (j - i),
{
    assert(s.take(j) == s.take(i) + s.subrange(i, j));
    syntax::law_byte_len_adds_up(s.take(i), s.subrange(i, j));
    syntax::law_byte_len_is_bounded(s.subrange(i, j));
}

proof fn lemma_index_of(s: Seq<char>, k: int)
    requires
        0 <= k <= s.len(),
    ensures
        syntax::char_index(s, syntax::byte_len(s.take(k))) == Some(k),
{
    let b = syntax::byte_len(s.take(k));
    let m = choose|m: int| 0 <= m <= s.len() && #[trigger] syntax::byte_len(s.take(m)) == b;
    assert(0 <= m <= s.len() && syntax::byte_len(s.take(m)) == b);
    if m < k {
        lemma_bytes_between(s, m, k);
    } else {
        lemma_bytes_between(s, k, m);
    }
}

proof fn lemma_index_found(s: Seq<char>, b: int)
    ensures
        syntax::char_index(s, b) matches Some(k) ==> 0 <= k <= s.len() && syntax::byte_len(s.take(k)) == b,
{
}

proof fn lemma_index_moves_one(a: Seq<char>, m: Seq<char>, n: Seq<char>, b: Seq<char>, at: int)
    requires
        syntax::byte_len(m) == syntax::byte_len(n),
        at <= syntax::byte_len(a) || at >= syntax::byte_len(a + m),
        syntax::char_index(a + m + b, at) is Some,
        m.len() > 0,
    ensures
        ({
            let k = syntax::char_index(a + m + b, at)->0;
            &&& at <= syntax::byte_len(a) ==> 0 <= k <= a.len() && syntax::char_index(a + n + b, at) == Some(k)
            &&& at >= syntax::byte_len(a + m) ==> a.len() + m.len() <= k <= a.len() + m.len() + b.len() && syntax::char_index(
                a + n + b,
                at,
            ) == Some(k - m.len() + n.len())
        }),
{
    let s = a + m + b;
    let u = a + n + b;
    let k = syntax::char_index(s, at)->0;
    lemma_index_found(s, at);
    let x = a.len() as int;
    let y = x + m.len();
    assert(s.take(x) == a);
    assert(s.take(y) == a + m);
    syntax::law_byte_len_adds_up(a, m);
    syntax::law_byte_len_adds_up(a, n);
    syntax::law_byte_len_is_bounded(m);
    if at <= syntax::byte_len(a) {
        if k > x {
            lemma_bytes_between(s, x, k);
        }
        assert(u.take(k) == s.take(k));
        lemma_index_of(u, k);
    } else {
        if k < y {
            lemma_bytes_between(s, k, y);
        }
        let rest = b.take(k - y);
        let l = k - m.len() + n.len();
        assert(s.take(k) == (a + m) + rest);
        assert(u.take(l) == (a + n) + rest);
        syntax::law_byte_len_adds_up(a + m, rest);
        syntax::law_byte_len_adds_up(a + n, rest);
        lemma_index_of(u, l);
    }
}

proof fn lemma_index_moves(a: Seq<char>, m: Seq<char>, n: Seq<char>, b: Seq<char>, at: int)
    requires
        syntax::byte_len(m) == syntax::byte_len(n),
        at <= syntax::byte_len(a) || at >= syntax::byte_len(a + m),
        m.len() > 0,
        n.len() > 0,
    ensures
        syntax::char_index(a + m + b, at) is Some == syntax::char_index(a + n + b, at) is Some,
        syntax::char_index(a + m + b, at) matches Some(k) ==> {
            &&& at <= syntax::byte_len(a) ==> 0 <= k <= a.len() && syntax::char_index(a + n + b, at) == Some(k)
            &&& at >= syntax::byte_len(a + m) ==> a.len() + m.len() <= k <= a.len() + m.len() + b.len() && syntax::char_index(
                a + n + b,
                at,
            ) == Some(k - m.len() + n.len())
        },
{
    syntax::law_byte_len_adds_up(a, m);
    syntax::law_byte_len_adds_up(a, n);
    if syntax::char_index(a + m + b, at) is Some {
        lemma_index_moves_one(a, m, n, b, at);
    }
    if syntax::char_index(a + n + b, at) is Some {
        lemma_index_moves_one(a, n, m, b, at);
    }
}

proof fn lemma_contains_rest(es: Seq<EditView>, e: EditView)
    requires
        es.contains(e),
        es[0] != e,
    ensures
        es.drop_first().contains(e),
{
    let j = choose|j: int| 0 <= j < es.len() && es[j] == e;
    assert(es.drop_first()[j - 1] == e);
}

/// What an edit takes out of a text makes no difference to the result, where the other edits lie
/// outside it.
proof fn lemma_spliced_same(
    a: Seq<char>,
    m: Seq<char>,
    n: Seq<char>,
    b: Seq<char>,
    es: Seq<EditView>,
    e: EditView,
    k: int,
    l: int,
)
    requires
        syntax::byte_len(m) == syntax::byte_len(n),
        m.len() > 0,
        n.len() > 0,
        e.start == syntax::byte_len(a),
        e.end == syntax::byte_len(a + m),
        splice::in_place(es),
        forall|j: int| 0 <= j < es.len() ==> #[trigger] es[j] == e || apart(es[j], e),
        (0 <= k <= a.len() && k == l && es.contains(e)) || (a.len() + m.len() <= k <= a.len() + m.len() + b.len() && l == k - m.len()
            + n.len()),
    ensures
        splice::spliced(a + m + b, es, k) == splice::spliced(a + n + b, es, l),
    decreases es.len(),
{
    let s = a + m + b;
    let u = a + n + b;
    let x = a.len() as int;
    syntax::law_byte_len_adds_up(a, m);
    syntax::law_byte_len_adds_up(a, n);
    syntax::law_byte_len_is_bounded(m);
    if es.len() == 0 {
        assert(s.subrange(k, s.len() as int) == u.subrange(l, u.len() as int));
    } else {
        let first = es[0];
        let rest = es.drop_first();
        assert forall|j: int| 0 <= j < rest.len() implies #[trigger] rest[j] == e || apart(rest[j], e) by {
            assert(rest[j] == es[j + 1]);
        }
        assert(splice::in_place(rest)) by {
            assert forall|i: int, j: int| 0 <= i < j < rest.len() implies !splice::sooner(#[trigger] rest[j], #[trigger] rest[i]) by {
                assert(rest[j] == es[j + 1] && rest[i] == es[i + 1]);
            }
        }
        lemma_index_moves(a, m, n, b, first.start);
        lemma_index_moves(a, m, n, b, first.end);
        if k <= x {
            if first == e {
                assert(s.take(x) == a && u.take(x) == a);
                assert(s.take(x + m.len()) == a + m && u.take(x + n.len()) == a + n);
                lemma_index_of(s, x);
                lemma_index_of(s, x + m.len());
                lemma_index_of(u, x);
                lemma_index_of(u, x + n.len());
                assert(s.subrange(k, x) == u.subrange(k, x));
                lemma_spliced_same(a, m, n, b, rest, e, x + m.len(), x + n.len());
            } else {
                lemma_contains_rest(es, e);
                if first.end <= e.start {
                    match splice::span_of(s, first, k) {
                        Some((p, q)) => {
                            assert(s.subrange(k, p) == u.subrange(k, p));
                            lemma_spliced_same(a, m, n, b, rest, e, q, q);
                        },
                        None => {
                            lemma_spliced_same(a, m, n, b, rest, e, k, k);
                        },
                    }
                } else {
                    let j = choose|j: int| 0 <= j < es.len() && es[j] == e;
                    assert(splice::sooner(es[j], es[0]));
                    assert(false);
                }
            }
        } else {
            if first == e {
                assert(s.take(x) == a && u.take(x) == a);
                lemma_index_of(s, x);
                lemma_index_of(u, x);
                lemma_spliced_same(a, m, n, b, rest, e, k, l);
            } else if first.end <= e.start {
                lemma_spliced_same(a, m, n, b, rest, e, k, l);
            } else {
                let d = n.len() - m.len();
                match splice::span_of(s, first, k) {
                    Some((p, q)) => {
                        assert(splice::span_of(u, first, l) == Some((p + d, q + d)));
                        assert(s.subrange(k, p) == u.subrange(l, p + d));
                        lemma_spliced_same(a, m, n, b, rest, e, q, q + d);
                    },
                    None => {
                        lemma_spliced_same(a, m, n, b, rest, e, k, l);
                    },
                }
            }
        }
    }
}

/// Whether a text stands somewhere in another.
pub open spec fn holds_text(s: Seq<char>, p: Seq<char>) -> bool {
    exists|x: Seq<char>, y: Seq<char>| s == #[trigger] (x + p + y)
}

proof fn lemma_spliced_holds(a: Seq<char>, m: Seq<char>, b: Seq<char>, es: Seq<EditView>, e: EditView, k: int)
    requires
        m.len() > 0,
        e.start == syntax::byte_len(a),
        e.end == syntax::byte_len(a + m),
        splice::in_place(es),
        forall|j: int| 0 <= j < es.len() ==> #[trigger] es[j] == e || apart(es[j], e),
        0 <= k <= a.len(),
        es.contains(e),
    ensures
        holds_text(splice::spliced(a + m + b, es, k), e.text),
    decreases es.len(),
{
    let s = a + m + b;
    let x = a.len() as int;
    let first = es[0];
    let rest = es.drop_first();
    syntax::law_byte_len_adds_up(a, m);
    syntax::law_byte_len_is_bounded(m);
    assert forall|j: int| 0 <= j < rest.len() implies #[trigger] rest[j] == e || apart(rest[j], e) by {
        assert(rest[j] == es[j + 1]);
    }
    assert(splice::in_place(rest)) by {
        assert forall|i: int, j: int| 0 <= i < j < rest.len() implies !splice::sooner(#[trigger] rest[j], #[trigger] rest[i]) by {
            assert(rest[j] == es[j + 1] && rest[i] == es[i + 1]);
        }
    }
    if first == e {
        assert(s.take(x) == a);
        assert(s.take(x + m.len()) == a + m);
        lemma_index_of(s, x);
        lemma_index_of(s, x + m.len());
        assert(splice::spliced(s, es, k) == s.subrange(k, x) + e.text + splice::spliced(s, rest, x + m.len()));
    } else {
        lemma_contains_rest(es, e);
        if first.end <= e.start {
            lemma_index_moves(a, m, m, b, first.start);
            lemma_index_moves(a, m, m, b, first.end);
            match splice::span_of(s, first, k) {
                Some((p, q)) => {
                    lemma_spliced_holds(a, m, b, rest, e, q);
                    let inner = splice::spliced(s, rest, q);
                    let (c, d) = choose|c: Seq<char>, d: Seq<char>| inner == #[trigger] (c + e.text + d);
                    let front = s.subrange(k, p) + first.text + c;
                    assert(splice::spliced(s, es, k) == front + e.text + d);
                },
                None => {
                    lemma_spliced_holds(a, m, b, rest, e, k);
                },
            }
        } else {
            let j = choose|j: int| 0 <= j < es.len() && es[j] == e;
            assert(splice::sooner(es[j], es[0]));
            assert(false);
        }
    }
}

/// Whether the edits at node `j` lie in the piece of source that it stands for.
spec fn edits_fit(t: TreeView, lang: LanguageKind, j: int) -> bool {
    let es = decapitate::node_edits(t, lang, j).0;
    forall|k: int|
        0 <= k < es.len() ==> t.rows[j].start_byte <= (#[trigger] es[k]).start <= es[k].end <= t.rows[j].end_byte
}

/// Whether each edit is a certain one or lies outside its range.
spec fn kept_apart(es: Seq<EditView>, e: EditView) -> bool {
    forall|j: int| 0 <= j < es.len() ==> #[trigger] es[j] == e || apart(es[j], e)
}

proof fn lemma_kept_apart_concat(x: Seq<EditView>, y: Seq<EditView>, e: EditView)
    requires
        kept_apart(x, e),
        kept_apart(y, e),
    ensures
        kept_apart(x + y, e),
{
    let all = x + y;
    assert forall|j: int| 0 <= j < all.len() implies #[trigger] all[j] == e || apart(all[j], e) by {
        if j < x.len() {
            assert(all[j] == x[j]);
        } else {
            assert(all[j] == y[j - x.len()]);
        }
    }
}

/// Whether the edits of a tree are such that the function at node `i` loses the range of `e`.
spec fn is_cut(t: TreeView, lang: LanguageKind, i: int, e: EditView) -> bool {
    &&& syntax::nested(t)
    &&& spans_nest(t)
    &&& t.valid(i)
    &&& t.rows[i].start_byte <= e.start <= e.end <= t.rows[i].end_byte
    &&& decapitate::node_edits(t, lang, i).1
    &&& decapitate::node_edits(t, lang, i).0.contains(e)
    &&& kept_apart(decapitate::node_edits(t, lang, i).0, e)
    &&& forall|j: int| #[trigger] t.valid(j) ==> edits_fit(t, lang, j)
    &&& forall|j: int| #[trigger]
        t.valid(j) && j < i < t.last(j) ==> !decapitate::node_edits(t, lang, j).1 && decapitate::node_edits(t, lang, j).0.len() == 0
}

proof fn lemma_edits_apart(
    t: TreeView,
    lang: LanguageKind,
    parent: Option<int>,
    lo: int,
    hi: int,
    depth: int,
    o: Seq<EditView>,
    i: int,
    e: EditView,
)
    requires
        is_cut(t, lang, i, e),
        0 <= lo,
        hi <= t.rows.len(),
        lo <= i || lo >= t.last(i),
        kept_apart(o, e),
    ensures
        kept_apart(syntax::walk::<BodyRules>(lang, t, parent, lo, hi, depth, 64, (), o), e),
    decreases hi - lo,
{
    if t.fits(lo, hi) {
        let (here, below) = BodyRules::on_node(lang, t, parent, lo, (), o);
        let es = decapitate::node_edits(t, lang, lo).0;
        assert(t.valid(lo) && t.valid(i));
        assert(t.last(lo) <= t.rows.len());
        assert(edits_fit(t, lang, lo));
        assert(kept_apart(es, e)) by {
            if lo != i {
                assert forall|j: int| 0 <= j < es.len() implies #[trigger] es[j] == e || apart(es[j], e) by {
                    if lo < i && t.last(lo) <= i {
                        assert(t.rows[lo].end_byte <= t.rows[i].start_byte);
                    } else if lo > i {
                        assert(t.rows[i].end_byte <= t.rows[lo].start_byte);
                    }
                }
            }
        }
        lemma_kept_apart_concat(o, es, e);
        assert(here == o + es);
        let after = match below {
            Some(inner) => if depth < 64 {
                syntax::walk::<BodyRules>(lang, t, Some(lo), lo + 1, t.last(lo), depth + 1, 64, inner, here)
            } else {
                here
            },
            None => here,
        };
        if below is Some && depth < 64 {
            lemma_edits_apart(t, lang, Some(lo), lo + 1, t.last(lo), depth + 1, here, i, e);
        }
        if lo < i && t.last(lo) > i {
            assert(t.last(i) <= t.last(lo));
        }
        lemma_edits_apart(t, lang, parent, t.last(lo), hi, depth, after, i, e);
    }
}

proof fn lemma_same_walk(
    t: TreeView,
    u: TreeView,
    lang: LanguageKind,
    parent: Option<int>,
    lo: int,
    hi: int,
    depth: int,
    o: Seq<EditView>,
    i: int,
    e: EditView,
)
    requires
        is_cut(t, lang, i, e),
        t.rows == u.rows,
        forall|j: int| #[trigger] t.valid(j) && (j <= i || j >= t.last(i)) ==> decapitate::node_edits(t, lang, j) == decapitate::node_edits(
            u,
            lang,
            j,
        ),
        0 <= lo,
        hi <= t.rows.len(),
        lo <= i || lo >= t.last(i),
    ensures
        syntax::walk::<BodyRules>(lang, t, parent, lo, hi, depth, 64, (), o) == syntax::walk::<BodyRules>(
            lang,
            u,
            parent,
            lo,
            hi,
            depth,
            64,
            (),
            o,
        ),
    decreases hi - lo,
{
    assert(t.fits(lo, hi) == u.fits(lo, hi));
    if t.fits(lo, hi) {
        assert(t.valid(lo) && t.valid(i));
        assert(t.last(lo) <= t.rows.len());
        assert(t.last(lo) == u.last(lo));
        let (here, below) = BodyRules::on_node(lang, t, parent, lo, (), o);
        assert((here, below) == BodyRules::on_node(lang, u, parent, lo, (), o));
        let after = match below {
            Some(inner) => if depth < 64 {
                syntax::walk::<BodyRules>(lang, t, Some(lo), lo + 1, t.last(lo), depth + 1, 64, inner, here)
            } else {
                here
            },
            None => here,
        };
        if below is Some && depth < 64 {
            lemma_same_walk(t, u, lang, Some(lo), lo + 1, t.last(lo), depth + 1, here, i, e);
        }
        if lo < i && t.last(lo) > i {
            assert(t.last(i) <= t.last(lo));
        }
        lemma_same_walk(t, u, lang, parent, t.last(lo), hi, depth, after, i, e);
    }
}

proof fn lemma_cut_is_made(t: TreeView, lang: LanguageKind, i: int, e: EditView)
    requires
        is_cut(t, lang, i, e),
        syntax::level(t, i) <= 64,
    ensures
        splice::in_place(decapitate::sorted_edits(t, lang)),
        decapitate::sorted_edits(t, lang).contains(e),
        kept_apart(decapitate::sorted_edits(t, lang), e),
{
    let found = decapitate::body_edits(t, lang);
    let sorted = decapitate::sorted_edits(t, lang);
    let seen = |o: Seq<EditView>| o.contains(e);
    assert forall|parent: Option<int>, c: (), o: Seq<EditView>|
        seen((#[trigger] <BodyRules as TreeRules>::on_node(lang, t, parent, i, c, o)).0) by {
        let es = decapitate::node_edits(t, lang, i).0;
        let k = choose|k: int| 0 <= k < es.len() && es[k] == e;
        assert((o + es)[o.len() + k] == e);
    }
    assert forall|parent: Option<int>, j: int, c: (), o: Seq<EditView>| seen(o) implies seen(
        (#[trigger] <BodyRules as TreeRules>::on_node(lang, t, parent, j, c, o)).0,
    ) by {
        let k = choose|k: int| 0 <= k < o.len() && o[k] == e;
        let es = decapitate::node_edits(t, lang, j).0;
        assert((o + es)[k] == e);
    }
    assert forall|parent: Option<int>, j: int, c: (), o: Seq<EditView>| 0 <= j < i < t.last(j) implies (
    #[trigger] <BodyRules as TreeRules>::on_node(lang, t, parent, j, c, o)).1 is Some by {
        assert(t.valid(j));
    }
    syntax::law_walks_reach_every_node::<BodyRules>(lang, t, 64, (), Seq::empty(), i, seen);
    assert(found.contains(e));
    lemma_edits_apart(t, lang, None, 0, t.rows.len() as int, 0, Seq::empty(), i, e);
    splice::law_by_place_sorts(found);
    found.to_multiset_ensures();
    sorted.to_multiset_ensures();
    assert(found.to_multiset().count(e) > 0);
    assert(sorted.contains(e));
    assert forall|j: int| 0 <= j < sorted.len() implies #[trigger] sorted[j] == e || apart(sorted[j], e) by {
        assert(sorted.contains(sorted[j]));
        assert(sorted.to_multiset().count(sorted[j]) > 0);
        assert(found.contains(sorted[j]));
        let k = choose|k: int| 0 <= k < found.len() && found[k] == sorted[j];
        assert(found[k] == e || apart(found[k], e));
    }
}

proof fn lemma_cut_leaves_nothing(
    t: TreeView,
    u: TreeView,
    lang: LanguageKind,
    i: int,
    e: EditView,
    a: Seq<char>,
    m: Seq<char>,
    n: Seq<char>,
    b: Seq<char>,
)
    requires
        is_cut(t, lang, i, e),
        syntax::level(t, i) <= 64,
        t.rows == u.rows,
        forall|j: int| #[trigger] t.valid(j) && (j <= i || j >= t.last(i)) ==> decapitate::node_edits(t, lang, j) == decapitate::node_edits(
            u,
            lang,
            j,
        ),
        t.src == a + m + b,
        u.src == a + n + b,
        syntax::byte_len(m) == syntax::byte_len(n),
        m.len() > 0,
        n.len() > 0,
        e.start == syntax::byte_len(a),
        e.end == syntax::byte_len(a + m),
    ensures
        decapitate::decapitated(t, lang) == decapitate::decapitated(u, lang),
        holds_text(decapitate::decapitated(t, lang), e.text),
{
    assert(t.valid(i));
    lemma_cut_is_made(t, lang, i, e);
    lemma_same_walk(t, u, lang, None, 0, t.rows.len() as int, 0, Seq::empty(), i, e);
    let es = decapitate::sorted_edits(t, lang);
    assert(es == decapitate::sorted_edits(u, lang));
    lemma_spliced_same(a, m, n, b, es, e, 0, 0);
    lemma_spliced_holds(a, m, b, es, e, 0);
}

proof fn lemma_same_siblings(t: TreeView, u: TreeView, lo: int, hi: int)
    requires
        t.rows == u.rows,
    ensures
        t.siblings(lo, hi) == u.siblings(lo, hi),
    decreases hi - lo,
{
    assert(t.fits(lo, hi) == u.fits(lo, hi));
    if t.fits(lo, hi) {
        assert(t.last(lo) == u.last(lo));
        lemma_same_siblings(t, u, t.last(lo), hi);
    }
}

proof fn lemma_same_parts(t: TreeView, u: TreeView, i: int, name: Seq<char>)
    requires
        t.rows == u.rows,
    ensures
        t.children(i) == u.children(i),
        t.named_children(i) == u.named_children(i),
        t.field(i, name) == u.field(i, name),
        t.child_of_kind(i, name) == u.child_of_kind(i, name),
{
    lemma_same_siblings(t, u, i + 1, t.last(i));
    assert((|k: int| t.rows[k].field == Some(name)) =~= (|k: int| u.rows[k].field == Some(name)));
    assert((|k: int| t.kind(k) == name) =~= (|k: int| u.kind(k) == name));
    assert((|k: int| t.named(k)) =~= (|k: int| u.named(k)));
}

proof fn lemma_filtered(ks: Seq<int>, keep: spec_fn(int) -> bool)
    ensures
        forall|j: int| 0 <= j < ks.filter(keep).len() ==> ks.contains(#[trigger] ks.filter(keep)[j]) && keep(ks.filter(keep)[j]),
    decreases ks.len(),
{
    reveal(Seq::filter);
    if ks.len() > 0 {
        let front = ks.drop_last();
        lemma_filtered(front, keep);
        let kept = ks.filter(keep);
        assert forall|j: int| 0 <= j < kept.len() implies ks.contains(#[trigger] kept[j]) && keep(kept[j]) by {
            if j < front.filter(keep).len() {
                assert(kept[j] == front.filter(keep)[j]);
                let k = choose|k: int| 0 <= k < front.len() && front[k] == kept[j];
                assert(ks[k] == kept[j]);
            } else {
                assert(kept[j] == ks.last());
                assert(ks[ks.len() - 1] == kept[j]);
            }
        }
    }
}

proof fn lemma_part_lies_within(t: TreeView, i: int, name: Seq<char>)
    ensures
        t.field(i, name) matches Some(k) ==> i < k < t.last(i) && t.valid(k) && t.children(i).contains(k) && t.rows[k].field == Some(
            name,
        ),
        t.child_of_kind(i, name) matches Some(k) ==> i < k < t.last(i) && t.valid(k) && t.kind(k) == name,
        forall|j: int| 0 <= j < t.named_children(i).len() ==> i < #[trigger] t.named_children(i)[j] < t.last(i) && t.valid(t.named_children(i)[j]),
{
    syntax::lemma_siblings_range(t, i + 1, t.last(i));
    let ks = t.children(i);
    lemma_filtered(ks, |k: int| t.rows[k].field == Some(name));
    lemma_filtered(ks, |k: int| t.kind(k) == name);
    lemma_filtered(ks, |k: int| t.named(k));
    if t.field(i, name) is Some {
        let k = t.field(i, name)->0;
        assert(t.field_children(i, name)[0] == k);
        let j = choose|j: int| 0 <= j < ks.len() && ks[j] == k;
        assert(i + 1 <= ks[j] < t.last(i));
    }
    if t.child_of_kind(i, name) is Some {
        let k = t.child_of_kind(i, name)->0;
        let kept = ks.filter(|k: int| t.kind(k) == name);
        assert(kept[0] == k);
        let j = choose|j: int| 0 <= j < ks.len() && ks[j] == k;
        assert(i + 1 <= ks[j] < t.last(i));
    }
    assert forall|j: int| 0 <= j < t.named_children(i).len() implies i < #[trigger] t.named_children(i)[j] < t.last(i) && t.valid(
        t.named_children(i)[j],
    ) by {
        let k = t.named_children(i)[j];
        assert(ks.contains(k));
        let l = choose|l: int| 0 <= l < ks.len() && ks[l] == k;
        assert(i + 1 <= ks[l] < t.last(i));
    }
}

proof fn lemma_first_statement(t: TreeView, ks: Seq<int>)
    ensures
        decapitate::first_statement(t, ks) matches Some(k) ==> ks.contains(k),
    decreases ks.len(),
{
    if ks.len() > 0 {
        if t.kind(ks[0]) != "comment"@ {
            assert(ks[0] == ks[0]);
        } else {
            let rest = ks.drop_first();
            lemma_first_statement(t, rest);
            if decapitate::first_statement(t, rest) is Some {
                let k = decapitate::first_statement(t, rest)->0;
                let j = choose|j: int| 0 <= j < rest.len() && rest[j] == k;
                assert(ks[j + 1] == k);
            }
        }
    }
}

proof fn lemma_docstring_lies_within(t: TreeView, body: int)
    ensures
        decapitate::docstring(t, body) matches Some(d) ==> body < d < t.last(body) && t.valid(d),
{
    let ks = t.named_children(body);
    lemma_part_lies_within(t, body, ""@);
    lemma_first_statement(t, ks);
    if decapitate::docstring(t, body) is Some {
        let d = decapitate::docstring(t, body)->0;
        let j = choose|j: int| 0 <= j < ks.len() && ks[j] == d;
        assert(body < ks[j] < t.last(body));
    }
}

proof fn lemma_edits_fit(t: TreeView, lang: LanguageKind, j: int)
    requires
        syntax::nested(t),
        spans_nest(t),
        t.valid(j),
    ensures
        edits_fit(t, lang, j),
{
    lemma_part_lies_within(t, j, "body"@);
    lemma_part_lies_within(t, j, "function_body"@);
    lemma_part_lies_within(t, j, "parameters"@);
    lemma_part_lies_within(t, j, "parameter"@);
    if decapitate::body_of(t, lang, j) is Some {
        let body = decapitate::body_of(t, lang, j)->0;
        assert(t.rows[body].start_byte >= t.rows[j].start_byte);
        lemma_docstring_lies_within(t, body);
        if decapitate::docstring(t, body) is Some {
            let d = decapitate::docstring(t, body)->0;
            assert(t.rows[d].start_byte >= t.rows[body].start_byte);
        }
        let p = common::else_node(t.field(j, "parameters"@), t.field(j, "parameter"@));
        if p is Some {
            assert(t.rows[p->0].start_byte >= t.rows[j].start_byte);
        }
    }
}

/// Whether nodes of a kind are functions, by the names that the grammars give them.
pub open spec fn is_function(lang: LanguageKind, kind: Seq<char>) -> bool {
    ||| lang == LanguageKind::Java && kind == "method_declaration"@
    ||| lang == LanguageKind::Java && kind == "constructor_declaration"@
    ||| lang == LanguageKind::CSharp && kind == "method_declaration"@
    ||| lang == LanguageKind::CSharp && kind == "constructor_declaration"@
    ||| lang == LanguageKind::Go && kind == "function_declaration"@
    ||| lang == LanguageKind::Go && kind == "method_declaration"@
    ||| lang == LanguageKind::TypeScript && kind == "method_definition"@
    ||| lang == LanguageKind::TypeScript && kind == "function_declaration"@
    ||| lang == LanguageKind::TypeScript && kind == "function_item"@
    ||| lang == LanguageKind::TypeScript && kind == "arrow_function"@
    ||| lang == LanguageKind::Rust && kind == "function_item"@
    ||| lang == LanguageKind::Cpp && kind == "function_definition"@
    ||| lang == LanguageKind::Python && kind == "function_definition"@
    ||| lang == LanguageKind::Scala && kind == "function_definition"@
    ||| lang == LanguageKind::Kotlin && kind == "function_declaration"@
    ||| lang == LanguageKind::Swift && kind == "function_declaration"@
    ||| lang == LanguageKind::Ruby && kind == "method"@
    ||| lang == LanguageKind::Ruby && kind == "singleton_method"@
    ||| lang == LanguageKind::Php && kind == "method_declaration"@
    ||| lang == LanguageKind::Php && kind == "function_definition"@
}

/// Whether node `i` of a file is a function that lies in no other.
pub open spec fn is_outermost(t: TreeView, lang: LanguageKind, i: int) -> bool {
    &&& syntax::nested(t)
    &&& spans_nest(t)
    &&& t.valid(i)
    &&& syntax::level(t, i) <= 64
    &&& is_function(lang, t.kind(i))
    &&& forall|j: int| #[trigger] t.valid(j) && j < i < t.last(j) ==> !is_function(lang, t.kind(j))
}

/// Whether two files are one but for the text from byte `start` up to byte `end`, and have the
/// same syntax tree.
pub open spec fn differ_within(
    t: TreeView,
    u: TreeView,
    start: int,
    end: int,
    a: Seq<char>,
    m: Seq<char>,
    n: Seq<char>,
    b: Seq<char>,
) -> bool {
    &&& t.rows == u.rows
    &&& t.src == a + m + b
    &&& u.src == a + n + b
    &&& syntax::byte_len(m) == syntax::byte_len(n)
    &&& m.len() > 0
    &&& n.len() > 0
    &&& start == syntax::byte_len(a)
    &&& end == syntax::byte_len(a + m)
}

proof fn lemma_single_cut(t: TreeView, lang: LanguageKind, i: int, e: EditView)
    requires
        is_outermost(t, lang, i),
        decapitate::node_edits(t, lang, i) == (seq![e], true),
    ensures
        is_cut(t, lang, i, e),
{
    assert forall|j: int| #[trigger] t.valid(j) implies edits_fit(t, lang, j) by {
        lemma_edits_fit(t, lang, j);
    }
    let es = decapitate::node_edits(t, lang, i).0;
    assert(edits_fit(t, lang, i));
    assert(es[0] == e);
    assert(es.contains(e));
    assert forall|j: int| #[trigger] t.valid(j) && j < i < t.last(j) implies !decapitate::node_edits(t, lang, j).1
        && decapitate::node_edits(t, lang, j).0.len() == 0 by {
        assert(!is_function(lang, t.kind(j)));
    }
    assert(kept_apart(es, e));
}

/// In Java, C#, Go, Rust, C++, Swift and PHP, no text of the body of a function is left: files
/// that differ within the body alone lose it alike, and `{ /* stripped */ }` takes its place.
pub proof fn law_bodies_are_stripped(
    t: TreeView,
    u: TreeView,
    lang: LanguageKind,
    i: int,
    body: int,
    a: Seq<char>,
    m: Seq<char>,
    n: Seq<char>,
    b: Seq<char>,
)
    requires
        lang == LanguageKind::Java || lang == LanguageKind::CSharp || lang == LanguageKind::Go || lang == LanguageKind::Rust || lang
            == LanguageKind::Cpp || lang == LanguageKind::Swift || lang == LanguageKind::Php,
        is_outermost(t, lang, i),
        t.field(i, "body"@) == Some(body),
        differ_within(t, u, t.rows[body].start_byte, t.rows[body].end_byte, a, m, n, b),
    ensures
        decapitate::decapitated(t, lang) == decapitate::decapitated(u, lang),
        holds_text(decapitate::decapitated(t, lang), "{ /* stripped */ }"@),
{
    let e = EditView { start: t.rows[body].start_byte, end: t.rows[body].end_byte, text: "{ /* stripped */ }"@ };
    lemma_single_cut(t, lang, i, e);
    assert forall|j: int| #[trigger] t.valid(j) implies decapitate::node_edits(t, lang, j) == decapitate::node_edits(u, lang, j) by {
        lemma_same_parts(t, u, j, "body"@);
    }
    lemma_cut_leaves_nothing(t, u, lang, i, e, a, m, n, b);
}

/// In Ruby no text of the body of a method is left, and a comment on a line of its own takes its
/// place; in Scala none is left, and a comment takes its place, in braces if the body is a block.
pub proof fn law_bodies_become_comments(
    t: TreeView,
    u: TreeView,
    lang: LanguageKind,
    i: int,
    body: int,
    a: Seq<char>,
    m: Seq<char>,
    n: Seq<char>,
    b: Seq<char>,
)
    requires
        lang == LanguageKind::Ruby || lang == LanguageKind::Scala,
        is_outermost(t, lang, i),
        t.field(i, "body"@) == Some(body),
        differ_within(t, u, t.rows[body].start_byte, t.rows[body].end_byte, a, m, n, b),
    ensures
        decapitate::decapitated(t, lang) == decapitate::decapitated(u, lang),
        lang == LanguageKind::Ruby ==> holds_text(decapitate::decapitated(t, lang), "\n  # stripped\n"@),
        lang == LanguageKind::Scala && t.kind(body) == "block"@ ==> holds_text(
            decapitate::decapitated(t, lang),
            "{ /* stripped */ }"@,
        ),
        lang == LanguageKind::Scala && t.kind(body) != "block"@ ==> holds_text(decapitate::decapitated(t, lang), "/* stripped */"@),
{
    let text = if lang == LanguageKind::Ruby {
        "\n  # stripped\n"@
    } else if t.kind(body) == "block"@ {
        "{ /* stripped */ }"@
    } else {
        "/* stripped */"@
    };
    let e = EditView { start: t.rows[body].start_byte, end: t.rows[body].end_byte, text };
    lemma_single_cut(t, lang, i, e);
    assert forall|j: int| #[trigger] t.valid(j) implies decapitate::node_edits(t, lang, j) == decapitate::node_edits(u, lang, j) by {
        lemma_same_parts(t, u, j, "body"@);
    }
    lemma_cut_leaves_nothing(t, u, lang, i, e, a, m, n, b);
}

proof fn lemma_same_first_char(
    t: TreeView,
    u: TreeView,
    k: int,
    start: int,
    end: int,
    a: Seq<char>,
    m: Seq<char>,
    n: Seq<char>,
    b: Seq<char>,
)
    requires
        differ_within(t, u, start, end, a, m, n, b),
        m[0] == n[0],
        t.rows[k].start_byte <= start || t.rows[k].start_byte >= end,
    ensures
        t.first_char(k) == u.first_char(k),
{
    lemma_index_moves(a, m, n, b, t.rows[k].start_byte);
    syntax::law_byte_len_adds_up(a, m);
    syntax::law_byte_len_is_bounded(m);
    if syntax::char_index(t.src, t.rows[k].start_byte) is Some {
        let p = syntax::char_index(t.src, t.rows[k].start_byte)->0;
        let q = syntax::char_index(u.src, t.rows[k].start_byte)->0;
        if p < a.len() {
            assert(t.src[p] == a[p] && u.src[q] == a[p]);
        } else if p == a.len() && t.rows[k].start_byte <= start {
            assert(t.src[p] == m[0] && u.src[q] == n[0]);
        } else if p < t.src.len() {
            assert(t.src[p] == b[p - a.len() - m.len()]);
            assert(u.src[q] == b[q - a.len() - n.len()]);
        }
    }
}

/// In Kotlin no text of the body of a function is left but for the sign that it starts with: a
/// block becomes `{ /* stripped */ }`, an expression `= /* stripped */`.
pub proof fn law_kotlin_bodies_are_stripped(
    t: TreeView,
    u: TreeView,
    i: int,
    body: int,
    a: Seq<char>,
    m: Seq<char>,
    n: Seq<char>,
    b: Seq<char>,
)
    requires
        is_outermost(t, LanguageKind::Kotlin, i),
        t.child_of_kind(i, "function_body"@) == Some(body),
        differ_within(t, u, t.rows[body].start_byte, t.rows[body].end_byte, a, m, n, b),
        m[0] == n[0],
    ensures
        decapitate::decapitated(t, LanguageKind::Kotlin) == decapitate::decapitated(u, LanguageKind::Kotlin),
        m[0] == '{' ==> holds_text(decapitate::decapitated(t, LanguageKind::Kotlin), "{ /* stripped */ }"@),
        m[0] != '{' ==> holds_text(decapitate::decapitated(t, LanguageKind::Kotlin), "= /* stripped */"@),
{
    let lang = LanguageKind::Kotlin;
    let start = t.rows[body].start_byte;
    let end = t.rows[body].end_byte;
    let text = if m[0] == '{' {
        "{ /* stripped */ }"@
    } else {
        "= /* stripped */"@
    };
    let e = EditView { start, end, text };
    assert(t.src.take(a.len() as int) == a);
    lemma_index_of(t.src, a.len() as int);
    assert(t.src[a.len() as int] == m[0]);
    lemma_single_cut(t, lang, i, e);
    assert forall|j: int| #[trigger] t.valid(j) && (j <= i || j >= t.last(i)) implies decapitate::node_edits(t, lang, j)
        == decapitate::node_edits(u, lang, j) by {
        lemma_same_parts(t, u, j, "function_body"@);
        lemma_part_lies_within(t, j, "function_body"@);
        lemma_part_lies_within(t, i, "function_body"@);
        assert(t.valid(i));
        if t.child_of_kind(j, "function_body"@) is Some {
            let k = t.child_of_kind(j, "function_body"@)->0;
            assert(t.rows[j].start_byte <= t.rows[k].start_byte);
            if decapitate::declares_function(lang, t.kind(j)) {
                assert(t.rows[k].start_byte <= start || t.rows[k].start_byte >= end) by {
                    if j < i && t.last(j) <= i {
                        assert(t.rows[j].end_byte <= t.rows[i].start_byte);
                        assert(t.rows[i].start_byte <= t.rows[body].start_byte);
                    } else if j >= t.last(i) {
                        assert(t.rows[i].end_byte <= t.rows[j].start_byte);
                        assert(t.rows[body].end_byte <= t.rows[i].end_byte);
                    }
                }
                lemma_same_first_char(t, u, k, start, end, a, m, n, b);
            }
        }
    }
    lemma_cut_leaves_nothing(t, u, lang, i, e, a, m, n, b);
}

proof fn lemma_same_first_statement(t: TreeView, u: TreeView, ks: Seq<int>)
    requires
        t.rows == u.rows,
    ensures
        decapitate::first_statement(t, ks) == decapitate::first_statement(u, ks),
    decreases ks.len(),
{
    if ks.len() > 0 {
        lemma_same_first_statement(t, u, ks.drop_first());
    }
}

proof fn lemma_same_python_edits(t: TreeView, u: TreeView, j: int)
    requires
        t.rows == u.rows,
    ensures
        decapitate::node_edits(t, LanguageKind::Python, j) == decapitate::node_edits(u, LanguageKind::Python, j),
{
    lemma_same_parts(t, u, j, "body"@);
    if t.field(j, "body"@) is Some {
        let body = t.field(j, "body"@)->0;
        lemma_same_parts(t, u, body, ""@);
        lemma_same_first_statement(t, u, t.named_children(body));
        if decapitate::first_statement(t, t.named_children(body)) is Some {
            let s = decapitate::first_statement(t, t.named_children(body))->0;
            lemma_same_parts(t, u, s, ""@);
        }
        assert(decapitate::docstring(t, body) == decapitate::docstring(u, body));
    }
}

/// In Python no text of the body of a function is left where it has no docstring: ` ...` takes its
/// place.
pub proof fn law_python_bodies_are_stripped(
    t: TreeView,
    u: TreeView,
    i: int,
    body: int,
    a: Seq<char>,
    m: Seq<char>,
    n: Seq<char>,
    b: Seq<char>,
)
    requires
        is_outermost(t, LanguageKind::Python, i),
        t.field(i, "body"@) == Some(body),
        t.named_children(body).len() > 0,
        t.kind(t.named_children(body)[0]) != "comment"@,
        t.kind(t.named_children(body)[0]) != "expression_statement"@,
        differ_within(t, u, t.rows[body].start_byte, t.rows[body].end_byte, a, m, n, b),
    ensures
        decapitate::decapitated(t, LanguageKind::Python) == decapitate::decapitated(u, LanguageKind::Python),
        holds_text(decapitate::decapitated(t, LanguageKind::Python), " ..."@),
{
    let lang = LanguageKind::Python;
    let e = EditView { start: t.rows[body].start_byte, end: t.rows[body].end_byte, text: " ..."@ };
    assert(decapitate::first_statement(t, t.named_children(body)) == Some(t.named_children(body)[0]));
    lemma_single_cut(t, lang, i, e);
    assert forall|j: int| #[trigger] t.valid(j) implies decapitate::node_edits(t, lang, j) == decapitate::node_edits(u, lang, j) by {
        lemma_same_python_edits(t, u, j);
    }
    lemma_cut_leaves_nothing(t, u, lang, i, e, a, m, n, b);
}

/// In Python a body that starts with a docstring keeps that alone: no text after it is left, and
/// `...` takes its place, on a line of its own below the docstring, or after a semicolon where the
/// function is on one line with it.
pub proof fn law_docstrings_are_kept(
    t: TreeView,
    u: TreeView,
    i: int,
    body: int,
    d: int,
    q: int,
    a: Seq<char>,
    m: Seq<char>,
    n: Seq<char>,
    b: Seq<char>,
)
    requires
        is_outermost(t, LanguageKind::Python, i),
        t.field(i, "body"@) == Some(body),
        t.named_children(body).len() > 0,
        t.named_children(body)[0] == d,
        t.kind(d) == "expression_statement"@,
        t.named_children(d).len() > 0,
        t.named_children(d)[0] == q,
        t.kind(q) == "string"@ || t.kind(q) == "concatenated_string"@,
        t.rows[d].start_column >= 0,
        differ_within(t, u, t.rows[d].end_byte, t.rows[body].end_byte, a, m, n, b),
    ensures
        decapitate::decapitated(t, LanguageKind::Python) == decapitate::decapitated(u, LanguageKind::Python),
        t.rows[d].start_row == t.rows[i].start_row ==> holds_text(decapitate::decapitated(t, LanguageKind::Python), "; ..."@),
        t.rows[d].start_row != t.rows[i].start_row ==> holds_text(
            decapitate::decapitated(t, LanguageKind::Python),
            "\n"@ + Seq::new(t.rows[d].start_column as nat, |j: int| ' ') + "..."@,
        ),
{
    let lang = LanguageKind::Python;
    let text = if t.rows[d].start_row == t.rows[i].start_row {
        "; ..."@
    } else {
        "\n"@ + Seq::new(t.rows[d].start_column as nat, |j: int| ' ') + "..."@
    };
    let e = EditView { start: t.rows[d].end_byte, end: t.rows[body].end_byte, text };
    reveal_strlit("comment");
    reveal_strlit("expression_statement");
    assert("comment"@.len() != "expression_statement"@.len());
    assert(decapitate::first_statement(t, t.named_children(body)) == Some(d));
    assert(decapitate::docstring(t, body) == Some(d));
    syntax::law_byte_len_adds_up(a, m);
    syntax::law_byte_len_is_bounded(m);
    assert(decapitate::spaces(t.rows[d].start_column) == Seq::new(t.rows[d].start_column as nat, |j: int| ' '));
    lemma_single_cut(t, lang, i, e);
    assert forall|j: int| #[trigger] t.valid(j) implies decapitate::node_edits(t, lang, j) == decapitate::node_edits(u, lang, j) by {
        lemma_same_python_edits(t, u, j);
    }
    lemma_cut_leaves_nothing(t, u, lang, i, e, a, m, n, b);
}

proof fn lemma_typescript_cut(t: TreeView, i: int, body: int, text: Seq<char>)
    requires
        is_outermost(t, LanguageKind::TypeScript, i),
        t.field(i, "body"@) == Some(body),
        t.rows[body].start_byte < t.rows[body].end_byte,
        t.kind(body) == "statement_block"@ && text == "{ /* stripped */ }"@ || t.kind(body) != "statement_block"@ && t.kind(i)
            == "arrow_function"@ && text == "/* stripped */"@,
    ensures
        is_cut(t, LanguageKind::TypeScript, i, (EditView { start: t.rows[body].start_byte, end: t.rows[body].end_byte, text })),
{
    let lang = LanguageKind::TypeScript;
    let e = EditView { start: t.rows[body].start_byte, end: t.rows[body].end_byte, text };
    assert forall|j: int| #[trigger] t.valid(j) implies edits_fit(t, lang, j) by {
        lemma_edits_fit(t, lang, j);
    }
    let made = decapitate::made_up_type(t, i, body);
    let es = decapitate::node_edits(t, lang, i).0;
    assert(es == made.push(e));
    assert(es[made.len() as int] == e);
    assert(es.contains(e));
    assert(edits_fit(t, lang, i));
    assert forall|j: int| #[trigger] t.valid(j) && j < i < t.last(j) implies !decapitate::node_edits(t, lang, j).1
        && decapitate::node_edits(t, lang, j).0.len() == 0 by {
        assert(!is_function(lang, t.kind(j)));
    }
    assert(kept_apart(es, e)) by {
        lemma_part_lies_within(t, i, "body"@);
        lemma_part_lies_within(t, i, "parameters"@);
        lemma_part_lies_within(t, i, "parameter"@);
        reveal_strlit("body");
        reveal_strlit("parameters");
        reveal_strlit("parameter");
        assert("body"@.len() == 4 && "parameters"@.len() == 10 && "parameter"@.len() == 9);
        assert forall|j: int| 0 <= j < es.len() implies #[trigger] es[j] == e || apart(es[j], e) by {
            if j < made.len() {
                assert(es[j] == made[j]);
                let p = common::else_node(t.field(i, "parameters"@), t.field(i, "parameter"@))->0;
                assert(p != body);
                lemma_siblings_part(t, i, p, body);
                assert(t.valid(p) && t.valid(body));
                if p < body {
                    assert(t.rows[p].end_byte <= t.rows[body].start_byte);
                } else {
                    assert(t.rows[body].end_byte <= t.rows[p].start_byte);
                }
            }
        }
    }
}

proof fn lemma_siblings_part(t: TreeView, i: int, p: int, q: int)
    requires
        t.children(i).contains(p),
        t.children(i).contains(q),
        p != q,
    ensures
        p < q ==> t.last(p) <= q,
        q < p ==> t.last(q) <= p,
{
    if p < q {
        lemma_siblings_part_from(t, i + 1, t.last(i), p, q);
    } else {
        lemma_siblings_part_from(t, i + 1, t.last(i), q, p);
    }
}

proof fn lemma_siblings_part_from(t: TreeView, lo: int, hi: int, p: int, q: int)
    requires
        t.siblings(lo, hi).contains(p),
        t.siblings(lo, hi).contains(q),
        p < q,
    ensures
        t.last(p) <= q,
    decreases hi - lo,
{
    let ks = t.siblings(lo, hi);
    let a = choose|a: int| 0 <= a < ks.len() && ks[a] == p;
    let b = choose|b: int| 0 <= b < ks.len() && ks[b] == q;
    let rest = t.siblings(t.last(lo), hi);
    syntax::lemma_siblings_range(t, t.last(lo), hi);
    assert(ks == seq![lo] + rest);
    syntax::lemma_siblings_range(t, lo, hi);
    if b == 0 {
        assert(lo <= ks[a]);
        assert(false);
    }
    assert(rest[b - 1] == q);
    if a > 0 {
        assert(rest[a - 1] == p);
        lemma_siblings_part_from(t, t.last(lo), hi, p, q);
    } else {
        assert(t.last(lo) <= rest[b - 1]);
    }
}

/// In TypeScript a block in the place of a body becomes `{ /* stripped */ }`, and the expression
/// of an arrow function `/* stripped */`.
pub proof fn law_typescript_bodies_are_replaced(t: TreeView, i: int, body: int, a: Seq<char>, m: Seq<char>, b: Seq<char>)
    requires
        is_outermost(t, LanguageKind::TypeScript, i),
        t.field(i, "body"@) == Some(body),
        differ_within(t, t, t.rows[body].start_byte, t.rows[body].end_byte, a, m, m, b),
    ensures
        t.kind(body) == "statement_block"@ ==> holds_text(
            decapitate::decapitated(t, LanguageKind::TypeScript),
            "{ /* stripped */ }"@,
        ),
        t.kind(body) != "statement_block"@ && t.kind(i) == "arrow_function"@ ==> holds_text(
            decapitate::decapitated(t, LanguageKind::TypeScript),
            "/* stripped */"@,
        ),
{
    let lang = LanguageKind::TypeScript;
    syntax::law_byte_len_adds_up(a, m);
    syntax::law_byte_len_is_bounded(m);
    let start = t.rows[body].start_byte;
    let end = t.rows[body].end_byte;
    if t.kind(body) == "statement_block"@ {
        lemma_typescript_cut(t, i, body, "{ /* stripped */ }"@);
        lemma_cut_leaves_nothing(t, t, lang, i, (EditView { start, end, text: "{ /* stripped */ }"@ }), a, m, m, b);
    } else if t.kind(i) == "arrow_function"@ {
        lemma_typescript_cut(t, i, body, "/* stripped */"@);
        lemma_cut_leaves_nothing(t, t, lang, i, (EditView { start, end, text: "/* stripped */"@ }), a, m, m, b);
    }
}

/// In TypeScript no text of the body of a function is left where every function states what it
/// returns.
pub proof fn law_typescript_bodies_are_stripped(
    t: TreeView,
    u: TreeView,
    i: int,
    body: int,
    a: Seq<char>,
    m: Seq<char>,
    n: Seq<char>,
    b: Seq<char>,
)
    requires
        is_outermost(t, LanguageKind::TypeScript, i),
        t.field(i, "body"@) == Some(body),
        t.kind(body) == "statement_block"@ || t.kind(i) == "arrow_function"@,
        forall|j: int| #[trigger] t.valid(j) && is_function(LanguageKind::TypeScript, t.kind(j)) ==> t.field(j, "return_type"@) is Some,
        differ_within(t, u, t.rows[body].start_byte, t.rows[body].end_byte, a, m, n, b),
    ensures
        decapitate::decapitated(t, LanguageKind::TypeScript) == decapitate::decapitated(u, LanguageKind::TypeScript),
{
    let lang = LanguageKind::TypeScript;
    syntax::law_byte_len_adds_up(a, m);
    syntax::law_byte_len_is_bounded(m);
    let text = if t.kind(body) == "statement_block"@ {
        "{ /* stripped */ }"@
    } else {
        "/* stripped */"@
    };
    lemma_typescript_cut(t, i, body, text);
    assert forall|j: int| #[trigger] t.valid(j) implies decapitate::node_edits(t, lang, j) == decapitate::node_edits(u, lang, j) by {
        lemma_same_parts(t, u, j, "body"@);
        lemma_same_parts(t, u, j, "return_type"@);
        lemma_same_parts(t, u, j, "parameters"@);
        lemma_same_parts(t, u, j, "parameter"@);
        if is_function(lang, t.kind(j)) {
            assert(t.field(j, "return_type"@) is Some);
        }
    }
    lemma_cut_leaves_nothing(
        t,
        u,
        lang,
        i,
        (EditView { start: t.rows[body].start_byte, end: t.rows[body].end_byte, text }),
        a,
        m,
        n,
        b,
    );
}

proof fn lemma_no_edits(t: TreeView, lang: LanguageKind, parent: Option<int>, lo: int, hi: int, depth: int)
    requires
        forall|j: int| #[trigger] t.valid(j) ==> !is_function(lang, t.kind(j)),
        0 <= lo,
        hi <= t.rows.len(),
    ensures
        syntax::walk::<BodyRules>(lang, t, parent, lo, hi, depth, 64, (), Seq::empty()).len() == 0,
    decreases hi - lo,
{
    if t.fits(lo, hi) {
        assert(t.valid(lo));
        let none = Seq::<EditView>::empty();
        let (here, below) = BodyRules::on_node(lang, t, parent, lo, (), none);
        assert(here == none);
        let after = match below {
            Some(inner) => if depth < 64 {
                syntax::walk::<BodyRules>(lang, t, Some(lo), lo + 1, t.last(lo), depth + 1, 64, inner, here)
            } else {
                here
            },
            None => here,
        };
        lemma_no_edits(t, lang, Some(lo), lo + 1, t.last(lo), depth + 1);
        assert(after == none);
        lemma_no_edits(t, lang, parent, t.last(lo), hi, depth);
    }
}

/// A file without functions is left as it is.
pub proof fn law_files_without_functions_stay(t: TreeView, lang: LanguageKind)
    requires
        forall|j: int| #[trigger] t.valid(j) ==> !is_function(lang, t.kind(j)),
    ensures
        decapitate::decapitated(t, lang) == t.src,
{
    lemma_no_edits(t, lang, None, 0, t.rows.len() as int, 0);
    assert(decapitate::body_edits(t, lang) == Seq::<EditView>::empty());
    assert(decapitate::sorted_edits(t, lang) == Seq::<EditView>::empty());
    assert(t.src.subrange(0, t.src.len() as int) == t.src);
}

/// The endings of file names, with the language that each one tells.
pub open spec fn ending(k: int) -> (Seq<char>, LanguageKind) {
    if k == 0 {
        (".proto"@, LanguageKind::Protobuf)
    } else if k == 1 {
        (".java"@, LanguageKind::Java)
    } else if k == 2 {
        (".go"@, LanguageKind::Go)
    } else if k == 3 {
        (".py"@, LanguageKind::Python)
    } else if k == 4 {
        (".ts"@, LanguageKind::TypeScript)
    } else if k == 5 {
        (".tsx"@, LanguageKind::TypeScript)
    } else if k == 6 {
        (".js"@, LanguageKind::TypeScript)
    } else if k == 7 {
        (".rs"@, LanguageKind::Rust)
    } else if k == 8 {
        (".kt"@, LanguageKind::Kotlin)
    } else if k == 9 {
        (".kts"@, LanguageKind::Kotlin)
    } else if k == 10 {
        (".cs"@, LanguageKind::CSharp)
    } else if k == 11 {
        (".rb"@, LanguageKind::Ruby)
    } else if k == 12 {
        (".rake"@, LanguageKind::Ruby)
    } else if k == 13 {
        (".php"@, LanguageKind::Php)
    } else if k == 14 {
        (".phtml"@, LanguageKind::Php)
    } else if k == 15 {
        (".swift"@, LanguageKind::Swift)
    } else if k == 16 {
        (".scala"@, LanguageKind::Scala)
    } else if k == 17 {
        (".sc"@, LanguageKind::Scala)
    } else if k == 18 {
        (".cpp"@, LanguageKind::Cpp)
    } else if k == 19 {
        (".cc"@, LanguageKind::Cpp)
    } else if k == 20 {
        (".cxx"@, LanguageKind::Cpp)
    } else if k == 21 {
        (".hpp"@, LanguageKind::Cpp)
    } else if k == 22 {
        (".hh"@, LanguageKind::Cpp)
    } else if k == 23 {
        (".hxx"@, LanguageKind::Cpp)
    } else if k == 24 {
        (".h"@, LanguageKind::Cpp)
    } else if k == 25 {
        (".yaml"@, LanguageKind::Yaml)
    } else {
        (".yml"@, LanguageKind::Yaml)
    }
}

/// Whether a text is a dot and what follows it up to the next.
pub open spec fn is_ending(s: Seq<char>) -> bool {
    s.len() > 0 && s[0] == '.' && forall|k: int| 0 < k < s.len() ==> #[trigger] s[k] != '.'
}

proof fn lemma_one_ending(p: Seq<char>, a: Seq<char>, b: Seq<char>)
    requires
        is_ending(a),
        is_ending(b),
    ensures
        text::ends_with(p + a, b) <==> a == b,
{
    let s = p + a;
    if a == b {
        assert(s.subrange(p.len() as int, s.len() as int) == a);
    }
    if text::ends_with(s, b) {
        let k = s.len() - b.len();
        let u = s.subrange(k, k + b.len());
        if b.len() < a.len() {
            assert(u[0] == s[k]);
            assert(s[k] == a[a.len() - b.len()]);
        } else if b.len() > a.len() {
            assert(u[b.len() - a.len()] == s[p.len() as int]);
            assert(s[p.len() as int] == a[0]);
            assert(b[b.len() - a.len()] != '.');
        } else {
            assert(u == a);
        }
    }
}

proof fn lemma_endings()
    ensures
        forall|k: int| 0 <= k <= 26 ==> is_ending((#[trigger] ending(k)).0),
        forall|k: int, l: int| 0 <= k < l <= 26 ==> (#[trigger] ending(k)).0 != (#[trigger] ending(l)).0,
{
    reveal_strlit(".proto");
    reveal_strlit(".java");
    reveal_strlit(".go");
    reveal_strlit(".py");
    reveal_strlit(".ts");
    reveal_strlit(".tsx");
    reveal_strlit(".js");
    reveal_strlit(".rs");
    reveal_strlit(".kt");
    reveal_strlit(".kts");
    reveal_strlit(".cs");
    reveal_strlit(".rb");
    reveal_strlit(".rake");
    reveal_strlit(".php");
    reveal_strlit(".phtml");
    reveal_strlit(".swift");
    reveal_strlit(".scala");
    reveal_strlit(".sc");
    reveal_strlit(".cpp");
    reveal_strlit(".cc");
    reveal_strlit(".cxx");
    reveal_strlit(".hpp");
    reveal_strlit(".hh");
    reveal_strlit(".hxx");
    reveal_strlit(".h");
    reveal_strlit(".yaml");
    reveal_strlit(".yml");
    assert forall|k: int, l: int| 0 <= k < l <= 26 implies (#[trigger] ending(k)).0 != (#[trigger] ending(l)).0 by {
        let x = ending(k).0;
        let y = ending(l).0;
        if x == y {
            assert(x.len() == y.len());
            assert(x[1] == y[1] && x[2] == y[2] && x[3] == y[3]);
        }
    }
}

/// A file is in the language that the ending of its name tells, whatever stands before that.
pub proof fn law_endings_tell_languages(stem: Seq<char>, k: int)
    requires
        0 <= k <= 26,
    ensures
        decapitate::language_of_path(stem + ending(k).0) == ending(k).1,
{
    lemma_endings();
    let a = ending(k).0;
    let p = stem + a;
    assert forall|l: int| 0 <= l <= 26 implies text::ends_with(p, (#[trigger] ending(l)).0) == (l == k) by {
        lemma_one_ending(stem, a, ending(l).0);
        if l < k {
            assert(ending(l).0 != ending(k).0);
        } else if l > k {
            assert(ending(k).0 != ending(l).0);
        }
    }
    lemma_endings_apart(p);
}

proof fn lemma_endings_apart(p: Seq<char>)
    ensures
        forall|k: int|
            0 <= k <= 26 && text::ends_with(p, (#[trigger] ending(k)).0) && (forall|l: int|
                0 <= l <= 26 && l != k ==> !text::ends_with(p, (#[trigger] ending(l)).0)) ==> decapitate::language_of_path(p) == ending(
                k,
            ).1,
        (forall|l: int| 0 <= l <= 26 ==> !text::ends_with(p, (#[trigger] ending(l)).0)) ==> decapitate::language_of_path(p)
            == LanguageKind::Unknown,
{
    let e0 = text::ends_with(p, ending(0).0);
    let e1 = text::ends_with(p, ending(1).0);
    let e2 = text::ends_with(p, ending(2).0);
    let e3 = text::ends_with(p, ending(3).0);
    let e4 = text::ends_with(p, ending(4).0);
    let e5 = text::ends_with(p, ending(5).0);
    let e6 = text::ends_with(p, ending(6).0);
    let e7 = text::ends_with(p, ending(7).0);
    let e8 = text::ends_with(p, ending(8).0);
    let e9 = text::ends_with(p, ending(9).0);
    let e10 = text::ends_with(p, ending(10).0);
    let e11 = text::ends_with(p, ending(11).0);
    let e12 = text::ends_with(p, ending(12).0);
    let e13 = text::ends_with(p, ending(13).0);
    let e14 = text::ends_with(p, ending(14).0);
    let e15 = text::ends_with(p, ending(15).0);
    let e16 = text::ends_with(p, ending(16).0);
    let e17 = text::ends_with(p, ending(17).0);
    let e18 = text::ends_with(p, ending(18).0);
    let e19 = text::ends_with(p, ending(19).0);
    let e20 = text::ends_with(p, ending(20).0);
    let e21 = text::ends_with(p, ending(21).0);
    let e22 = text::ends_with(p, ending(22).0);
    let e23 = text::ends_with(p, ending(23).0);
    let e24 = text::ends_with(p, ending(24).0);
    let e25 = text::ends_with(p, ending(25).0);
    let e26 = text::ends_with(p, ending(26).0);
}

/// A file whose name has none of the endings is in no known language.
pub proof fn law_other_files_are_unknown(path: Seq<char>)
    requires
        forall|l: int| 0 <= l <= 26 ==> !text::ends_with(path, (#[trigger] ending(l)).0),
    ensures
        decapitate::language_of_path(path) == LanguageKind::Unknown,
{
    lemma_endings_apart(path);
}

/// Bodies are left where they are asked for, in protobuf and YAML files, and in files of no known
/// language that take no more than 1,024 bytes; nowhere else.
pub proof fn law_files_that_are_left_alone(content: Seq<char>, lang: LanguageKind, include_body: bool)
    ensures
        decapitate::is_left_alone(content, lang, include_body) <==> include_body || lang == LanguageKind::Protobuf || lang
            == LanguageKind::Yaml || lang == LanguageKind::Unknown && vstd::utf8::encode_utf8(content).len() <= 1024,
{
    syntax::law_byte_len_is_utf8_len(content);
}

/// The type that is made up for a function tells the keys that it returns, each of any type, in
/// braces.
pub proof fn law_made_up_types(a: Seq<char>, b: Seq<char>)
    ensures
        decapitate::object_type(seq![a]) == ": { "@ + (a + ": any"@) + " }"@,
        decapitate::object_type(seq![a, b]) == ": { "@ + (a + ": any"@ + ", "@ + (b + ": any"@)) + " }"@,
{
    let one = seq![a].map_values(|k: Seq<char>| k + ": any"@);
    assert(one == seq![a + ": any"@]);
    assert(text::join(one, ", "@) == a + ": any"@);
    let two = seq![a, b].map_values(|k: Seq<char>| k + ": any"@);
    assert(two == seq![a + ": any"@, b + ": any"@]);
    assert(two.drop_last() == one);
    assert(text::join(two, ", "@) == a + ": any"@ + ", "@ + (b + ": any"@));
}

/// Whether node `c` gives an object the key: it is a pair with it, or a property named like it.
pub open spec fn gives_key(t: TreeView, c: int, key: Seq<char>) -> bool {
    ||| t.kind(c) == "pair"@ && t.field(c, "key"@) is Some && t.text(t.field(c, "key"@)->0) == Some(key)
    ||| (t.kind(c) == "shorthand_property_identifier"@ || t.kind(c) == "shorthand_property_identifier_pattern"@) && t.text(c) == Some(
        key,
    )
}

proof fn lemma_object_keys(t: TreeView, ks: Seq<int>, j: int, key: Seq<char>)
    requires
        0 <= j < ks.len(),
        gives_key(t, ks[j], key),
        key.len() > 0,
        text::trim(key) == key,
        forall|k: int| 0 <= k < key.len() ==> text::in_identifier(#[trigger] key[k]) || key[k] == '$',
    ensures
        decapitate::object_keys(t, ks).contains(key),
    decreases ks.len(),
{
    let front = ks.drop_last();
    let rest = decapitate::object_keys(t, front);
    let all = decapitate::object_keys(t, ks);
    if j < front.len() {
        lemma_object_keys(t, front, j, key);
        let k = choose|k: int| 0 <= k < rest.len() && rest[k] == key;
        assert(all[k] == key);
    } else {
        reveal_strlit("pair");
        reveal_strlit("shorthand_property_identifier");
        reveal_strlit("shorthand_property_identifier_pattern");
        assert("pair"@.len() != "shorthand_property_identifier"@.len());
        assert("pair"@.len() != "shorthand_property_identifier_pattern"@.len());
        assert(decapitate::part_key(t, ks.last()) == Some(key));
        assert(all[rest.len() as int] == key);
    }
}

/// The keys of an object stand in the type that is made up of it, whether it stands by itself, in
/// parentheses or before a type that it is taken as.
pub proof fn law_objects_show_their_keys(t: TreeView, i: int, j: int, key: Seq<char>, around: int, depth: int)
    requires
        t.kind(i) == "object"@,
        0 <= j < t.children(i).len(),
        gives_key(t, t.children(i)[j], key),
        key.len() > 0,
        text::trim(key) == key,
        forall|k: int| 0 <= k < key.len() ==> text::in_identifier(#[trigger] key[k]) || key[k] == '$',
        0 <= depth < 8,
        t.kind(around) == "parenthesized_expression"@ || t.kind(around) == "as_expression"@,
        t.named_children(around) == seq![i],
    ensures
        decapitate::value_keys(t, i, depth).contains(key),
        decapitate::value_keys(t, around, depth).contains(key),
{
    lemma_object_keys(t, t.children(i), j, key);
    reveal_strlit("object");
    reveal_strlit("parenthesized_expression");
    reveal_strlit("as_expression");
    assert("object"@.len() != "parenthesized_expression"@.len());
    assert("object"@.len() != "as_expression"@.len());
    let ks = seq![i];
    assert(ks.drop_last() == Seq::<int>::empty());
    assert(decapitate::all_keys(t, ks.drop_last(), depth + 1) == Seq::<Seq<char>>::empty());
    let inner = decapitate::value_keys(t, i, depth + 1);
    assert(ks.last() == i);
    assert(decapitate::all_keys(t, ks, depth + 1) == Seq::<Seq<char>>::empty() + inner);
    assert(Seq::<Seq<char>>::empty() + inner == inner);
}

proof fn lemma_returned(t: TreeView, ks: Seq<int>, j: int, i: int)
    requires
        0 <= j < ks.len(),
        t.kind(ks[j]) == "return_statement"@,
        t.named_child(ks[j], 0) == Some(i),
    ensures
        decapitate::returned(t, ks).contains(i),
    decreases ks.len(),
{
    let front = ks.drop_last();
    let rest = decapitate::returned(t, front);
    let all = decapitate::returned(t, ks);
    if j < front.len() {
        lemma_returned(t, front, j, i);
        let k = choose|k: int| 0 <= k < rest.len() && rest[k] == i;
        assert(all[k] == i);
    } else {
        assert(all[rest.len() as int] == i);
    }
}

proof fn lemma_all_keys(t: TreeView, ks: Seq<int>, i: int, depth: int, key: Seq<char>)
    requires
        ks.contains(i),
        depth <= 9,
        decapitate::value_keys(t, i, depth).contains(key),
    ensures
        decapitate::all_keys(t, ks, depth).contains(key),
    decreases ks.len(),
{
    let front = ks.drop_last();
    let rest = decapitate::all_keys(t, front, depth);
    let more = decapitate::value_keys(t, ks.last(), depth);
    let all = decapitate::all_keys(t, ks, depth);
    assert(all == rest + more);
    if ks.last() == i {
        let k = choose|k: int| 0 <= k < more.len() && more[k] == key;
        assert(all[rest.len() + k] == key);
    } else {
        let m = choose|m: int| 0 <= m < ks.len() && ks[m] == i;
        assert(front[m] == i);
        lemma_all_keys(t, front, i, depth, key);
        let k = choose|k: int| 0 <= k < rest.len() && rest[k] == key;
        assert(all[k] == key);
    }
}

/// The keys of what a function returns are those of all its return statements.
pub proof fn law_returned_keys_are_kept(t: TreeView, body: int, j: int, i: int, key: Seq<char>)
    requires
        t.kind(body) == "statement_block"@,
        0 <= j < t.children(body).len(),
        t.kind(t.children(body)[j]) == "return_statement"@,
        t.named_child(t.children(body)[j], 0) == Some(i),
        decapitate::value_keys(t, i, 1).contains(key),
    ensures
        decapitate::returned_keys(t, body).contains(key),
{
    let ks = t.children(body);
    lemma_returned(t, ks, j, i);
    reveal_strlit("object");
    reveal_strlit("parenthesized_expression");
    reveal_strlit("as_expression");
    reveal_strlit("statement_block");
    assert("statement_block"@.len() != "object"@.len());
    assert("statement_block"@.len() != "parenthesized_expression"@.len());
    assert("statement_block"@.len() != "as_expression"@.len());
    lemma_all_keys(t, decapitate::returned(t, ks), i, 1, key);
    let keys = decapitate::value_keys(t, body, 0);
    assert(keys.contains(key));
    crate::order::law_sorted_set(keys);
}

} // verus!
