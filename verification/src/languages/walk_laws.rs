//! What holds of walks over syntax trees that gather declarations.
use vstd::prelude::*;
use crate::languages::common;
use crate::languages::common::TopicCallView;
use crate::model::{ContractNodeView, NodeKind, RepoId};
use crate::syntax;
use crate::syntax::{TreeRules, TreeView};
use crate::text;

verus! {

/// Whether one of the items has a property.
pub open spec fn any<A>(s: Seq<A>, is: spec_fn(A) -> bool) -> bool {
    exists|k: int| 0 <= k < s.len() && is(#[trigger] s[k])
}

/// Whether all items have a property.
pub open spec fn all<A>(s: Seq<A>, is: spec_fn(A) -> bool) -> bool {
    forall|k: int| 0 <= k < s.len() ==> is(#[trigger] s[k])
}

/// Whether a declaration is the one of node `i`, of a name and a kind.
pub open spec fn is_declared(
    n: ContractNodeView,
    t: TreeView,
    i: int,
    path: Seq<char>,
    repo_id: RepoId,
    name: Seq<char>,
    kind: NodeKind,
) -> bool {
    &&& n.name == name
    &&& n.kind == kind
    &&& n.file_path == path
    &&& n.repo_id == repo_id
    &&& n.line_start == t.line(i)
    &&& n.line_end == t.end_line(i)
}

/// Whether a file declares, at the place of node `i`, something of a name and a kind.
pub open spec fn declares(
    nodes: Seq<ContractNodeView>,
    t: TreeView,
    i: int,
    path: Seq<char>,
    repo_id: RepoId,
    name: Seq<char>,
    kind: NodeKind,
) -> bool {
    any(nodes, |n: ContractNodeView| is_declared(n, t, i, path, repo_id, name, kind))
}

/// Whether a call on a topic is among those found, at the place of node `i`.
pub open spec fn reports_call(calls: Seq<TopicCallView>, t: TreeView, i: int, topic: Seq<char>, is_producer: bool) -> bool {
    any(
        calls,
        |c: TopicCallView| c.line_start == t.line(i) && c.line_end == t.end_line(i) && c.topic == topic && c.is_producer == is_producer,
    )
}

/// Whether node `i` can be reached by a walk: its tree is well-formed and it lies deep enough.
pub open spec fn within_reach(t: TreeView, i: int) -> bool {
    syntax::nested(t) && t.valid(i) && syntax::level(t, i) <= 64
}

/// What a step of a walk adds for node `i`, wherever it stands, is among what the walk gathers, if
/// the walk takes nothing away again.
pub proof fn lemma_walk_gathers<R: TreeRules, A>(
    r: <R as View>::V,
    t: TreeView,
    max: int,
    c: <R::Context as View>::V,
    o: <R::Output as View>::V,
    i: int,
    items: spec_fn(<R::Output as View>::V) -> Seq<A>,
    is: spec_fn(A) -> bool,
)
    requires
        syntax::nested(t),
        t.valid(i),
        syntax::level(t, i) <= max,
        forall|parent: Option<int>, d: <R::Context as View>::V, x: <R::Output as View>::V|
            any(items((#[trigger] R::on_node(r, t, parent, i, d, x)).0), is),
        forall|parent: Option<int>, j: int, d: <R::Context as View>::V, x: <R::Output as View>::V|
            items(x).is_prefix_of(items((#[trigger] R::on_node(r, t, parent, j, d, x)).0)),
        forall|parent: Option<int>, j: int, d: <R::Context as View>::V, x: <R::Output as View>::V|
            0 <= j < i < t.last(j) ==> (#[trigger] R::on_node(r, t, parent, j, d, x)).1 is Some,
    ensures
        any(items(syntax::walk_tree::<R>(r, t, max, c, o)), is),
{
    let seen = |x: <R::Output as View>::V| any(items(x), is);
    assert forall|parent: Option<int>, d: <R::Context as View>::V, x: <R::Output as View>::V|
        seen((#[trigger] R::on_node(r, t, parent, i, d, x)).0) by {
        assert(any(items(R::on_node(r, t, parent, i, d, x).0), is));
    }
    assert forall|parent: Option<int>, j: int, d: <R::Context as View>::V, x: <R::Output as View>::V| seen(x) implies seen(
        (#[trigger] R::on_node(r, t, parent, j, d, x)).0,
    ) by {
        let before = items(x);
        let after = items(R::on_node(r, t, parent, j, d, x).0);
        let k = choose|k: int| 0 <= k < before.len() && is(#[trigger] before[k]);
        assert(before.is_prefix_of(after));
        assert(after[k] == before[k]);
    }
    syntax::law_walks_reach_every_node::<R>(r, t, max, c, o, i, seen);
}

/// What holds of everything that a step of a walk gathers holds of all that the walk gathers.
pub proof fn lemma_walk_gathers_only<R: TreeRules, A>(
    r: <R as View>::V,
    t: TreeView,
    parent: Option<int>,
    lo: int,
    hi: int,
    depth: int,
    max: int,
    c: <R::Context as View>::V,
    o: <R::Output as View>::V,
    items: spec_fn(<R::Output as View>::V) -> Seq<A>,
    is: spec_fn(A) -> bool,
)
    requires
        hi <= t.rows.len(),
        all(items(o), is),
        forall|p: Option<int>, j: int, d: <R::Context as View>::V, x: <R::Output as View>::V|
            t.valid(j) && all(items(x), is) ==> all(items((#[trigger] R::on_node(r, t, p, j, d, x)).0), is),
    ensures
        all(items(syntax::walk::<R>(r, t, parent, lo, hi, depth, max, c, o)), is),
    decreases hi - lo,
{
    if t.fits(lo, hi) {
        assert(t.valid(lo));
        let (here, below) = R::on_node(r, t, parent, lo, c, o);
        assert(all(items(here), is));
        let after = match below {
            Some(inner) => if depth < max {
                syntax::walk::<R>(r, t, Some(lo), lo + 1, t.last(lo), depth + 1, max, inner, here)
            } else {
                here
            },
            None => here,
        };
        if below is Some && depth < max {
            lemma_walk_gathers_only::<R, A>(r, t, Some(lo), lo + 1, t.last(lo), depth + 1, max, below->0, here, items, is);
        }
        lemma_walk_gathers_only::<R, A>(r, t, parent, t.last(lo), hi, depth, max, c, after, items, is);
    }
}

/// Whether `p` stands somewhere in `s`.
pub open spec fn has_text(s: Seq<char>, p: Seq<char>) -> bool {
    exists|a: Seq<char>, b: Seq<char>| s == #[trigger] (a + p + b)
}

/// Looking for a text in another finds it exactly if the other is made of something, the text and
/// something more.
pub proof fn law_texts_are_found(s: Seq<char>, p: Seq<char>)
    ensures
        text::contains(s, p) <==> has_text(s, p),
{
    text::law_find_is_first(s, p);
    if text::contains(s, p) {
        let k = text::find(s, p)->0;
        assert(s == s.take(k) + p + s.skip(k + p.len()));
    }
    if has_text(s, p) {
        let (a, b) = choose|a: Seq<char>, b: Seq<char>| s == #[trigger] (a + p + b);
        assert(s.subrange(a.len() as int, (a.len() + p.len()) as int) == p);
        assert(text::at(s, p, a.len() as int));
    }
}

/// A text starts with another exactly if it is the other and something more, and ends with it
/// exactly if it is something and the other.
pub proof fn law_starts_and_endings(a: Seq<char>, p: Seq<char>)
    ensures
        text::starts_with(p + a, p),
        text::ends_with(a + p, p),
{
    assert((p + a).subrange(0, p.len() as int) == p);
    assert((a + p).subrange(a.len() as int, (a + p).len() as int) == p);
}

/// A call on a topic is a link from the smallest declaration that covers it, to the topic; there
/// are no other links. Calls that produce and calls that consume are kept apart.
pub proof fn law_calls_are_attributed(nodes: Seq<ContractNodeView>, calls: Seq<TopicCallView>, producing: bool, link: (int, Seq<char>))
    ensures
        common::attributed(nodes, calls, producing).contains(link) <==> any(
            calls,
            |c: TopicCallView|
                c.is_producer == producing && c.topic == link.1 && common::smallest(nodes, c.line_start, c.line_end) == Some(link.0),
        ),
    decreases calls.len(),
{
    let is = |c: TopicCallView|
        c.is_producer == producing && c.topic == link.1 && common::smallest(nodes, c.line_start, c.line_end) == Some(link.0);
    let links = common::attributed(nodes, calls, producing);
    if calls.len() > 0 {
        let front = calls.drop_last();
        law_calls_are_attributed(nodes, front, producing, link);
        let rest = common::attributed(nodes, front, producing);
        if links.contains(link) {
            let k = choose|k: int| 0 <= k < links.len() && links[k] == link;
            if k < rest.len() {
                assert(rest[k] == link);
                let j = choose|j: int| 0 <= j < front.len() && is(#[trigger] front[j]);
                assert(is(calls[j]));
            } else {
                assert(is(calls[calls.len() - 1]));
            }
        }
        if any(calls, is) {
            let j = choose|j: int| 0 <= j < calls.len() && is(#[trigger] calls[j]);
            if j < front.len() {
                assert(is(front[j]));
                let k = choose|k: int| 0 <= k < rest.len() && rest[k] == link;
                assert(links[k] == link);
            } else {
                assert(links[rest.len() as int] == link);
            }
        }
    }
}

/// A text without spaces stands in texts with spaces behind them exactly if it stands in one of
/// them.
pub proof fn lemma_text_in_parts(a: Seq<char>, s: Seq<char>, w: Seq<char>)
    requires
        a.len() > 0 ==> a.last() == ' ',
        w.len() > 0,
        !w.contains(' '),
    ensures
        has_text(a + s + " "@, w) == (has_text(a, w) || has_text(s, w)),
{
    reveal_strlit(" ");
    let whole = a + s + " "@;
    if has_text(a, w) {
        let (x, y) = choose|x: Seq<char>, y: Seq<char>| a == #[trigger] (x + w + y);
        assert(whole == x + w + (y + s + " "@));
    }
    if has_text(s, w) {
        let (x, y) = choose|x: Seq<char>, y: Seq<char>| s == #[trigger] (x + w + y);
        assert(whole == (a + x) + w + (y + " "@));
    }
    if has_text(whole, w) {
        let (x, y) = choose|x: Seq<char>, y: Seq<char>| whole == #[trigger] (x + w + y);
        let n = a.len() as int;
        let m = n + s.len();
        let p = x.len() as int;
        assert forall|k: int| 0 <= k < w.len() implies #[trigger] w[k] == whole[p + k] by {}
        assert(whole.len() == m + 1 && p + w.len() <= whole.len());
        if p + w.len() > m {
            assert(0 <= m - p < w.len());
            assert(w[m - p] == whole[m]);
            assert(w.contains(' '));
        }
        if p < n {
            if p + w.len() >= n {
                assert(w[n - 1 - p] == whole[n - 1]);
                assert(whole[n - 1] == a[n - 1]);
                assert(w.contains(' '));
            }
            assert(a == a.take(p) + w + a.skip(p + w.len()));
        } else {
            assert(s == s.take(p - n) + w + s.skip(p - n + w.len()));
        }
    }
}

/// Whether a node stands right below another, or below none.
pub open spec fn stands_under(t: TreeView, parent: Option<int>, j: int) -> bool {
    match parent {
        Some(p) => t.valid(p) && t.children(p).contains(j),
        None => forall|k: int| 0 <= k < j ==> #[trigger] t.last(k) <= j,
    }
}

proof fn lemma_next_sibling(t: TreeView, from: int, hi: int, lo: int)
    requires
        t.siblings(from, hi).contains(lo),
        t.fits(t.last(lo), hi),
    ensures
        t.siblings(from, hi).contains(t.last(lo)),
    decreases hi - from,
{
    let ks = t.siblings(from, hi);
    let rest = t.siblings(t.last(from), hi);
    assert(ks == seq![from] + rest);
    let k = choose|k: int| 0 <= k < ks.len() && ks[k] == lo;
    if k == 0 {
        assert(rest[0] == t.last(lo));
        assert(ks[1] == t.last(lo));
    } else {
        assert(rest[k - 1] == lo);
        lemma_next_sibling(t, t.last(from), hi, lo);
        let m = choose|m: int| 0 <= m < rest.len() && rest[m] == t.last(lo);
        assert(ks[m + 1] == t.last(lo));
    }
}

proof fn lemma_walk_finds<R: TreeRules, A>(
    r: <R as View>::V,
    t: TreeView,
    parent: Option<int>,
    lo: int,
    hi: int,
    depth: int,
    max: int,
    c: <R::Context as View>::V,
    o: <R::Output as View>::V,
    i: int,
    items: spec_fn(<R::Output as View>::V) -> Seq<A>,
    is: spec_fn(A) -> bool,
    inv: spec_fn(Option<int>, <R::Context as View>::V) -> bool,
)
    requires
        syntax::nested(t),
        forall|p: Option<int>, d: <R::Context as View>::V, x: <R::Output as View>::V|
            stands_under(t, p, i) && inv(p, d) ==> any(items((#[trigger] R::on_node(r, t, p, i, d, x)).0), is),
        forall|p: Option<int>, j: int, d: <R::Context as View>::V, x: <R::Output as View>::V|
            items(x).is_prefix_of(items((#[trigger] R::on_node(r, t, p, j, d, x)).0)),
        forall|p: Option<int>, j: int, d: <R::Context as View>::V, x: <R::Output as View>::V|
            0 <= j < i < t.last(j) && stands_under(t, p, j) && inv(p, d) ==> (#[trigger] R::on_node(r, t, p, j, d, x)).1 is Some,
        forall|p: Option<int>, j: int, d: <R::Context as View>::V, x: <R::Output as View>::V|
            t.valid(j) && stands_under(t, p, j) && inv(p, d) && (#[trigger] R::on_node(r, t, p, j, d, x)).1 is Some ==> inv(
                Some(j),
                R::on_node(r, t, p, j, d, x).1->0,
            ),
        inv(parent, c),
        0 <= lo <= i < hi <= t.rows.len(),
        forall|j: int| lo <= j < hi ==> #[trigger] t.last(j) <= hi,
        depth + syntax::level_from(t, lo, i) <= max,
        stands_under(t, parent, lo),
        parent matches Some(p) ==> hi == t.last(p),
    ensures
        any(items(syntax::walk::<R>(r, t, parent, lo, hi, depth, max, c, o)), is),
    decreases hi - lo,
{
    assert(t.valid(lo));
    assert(t.last(lo) <= hi);
    let last = t.last(lo);
    let (here, below) = R::on_node(r, t, parent, lo, c, o);
    let after = match below {
        Some(inner) => if depth < max {
            syntax::walk::<R>(r, t, Some(lo), lo + 1, last, depth + 1, max, inner, here)
        } else {
            here
        },
        None => here,
    };
    let keep = |k: <R::Context as View>::V, x: <R::Output as View>::V| any(items(x), is);
    assert(syntax::keeps::<R>(r, t, keep)) by {
        assert forall|
            p: Option<int>,
            j: int,
            k: <R::Context as View>::V,
            d: <R::Context as View>::V,
            x: <R::Output as View>::V,
        |
            #![trigger keep(k, x), R::on_node(r, t, p, j, d, x)]
            keep(k, x) && keep(d, x) implies ({
            let (y, e) = R::on_node(r, t, p, j, d, x);
            keep(k, y) && (e matches Some(inner) ==> keep(inner, y))
        }) by {
            let before = items(x);
            let y = R::on_node(r, t, p, j, d, x).0;
            assert(before.is_prefix_of(items(y)));
            let m = choose|m: int| 0 <= m < before.len() && is(#[trigger] before[m]);
            assert(items(y)[m] == before[m]);
        }
    }
    syntax::lemma_level_nonneg(t, lo + 1, i);
    if i < last {
        if i == lo {
            assert(any(items(here), is));
            assert(keep(c, here));
            if below is Some && depth < max {
                assert(keep(below->0, here));
                syntax::lemma_walk_keeps::<R>(r, t, Some(lo), lo + 1, last, depth + 1, max, below->0, below->0, here, keep);
            }
        } else {
            assert(below is Some);
            assert forall|j: int| lo + 1 <= j < last implies #[trigger] t.last(j) <= last by {}
            assert(t.valid(lo + 1));
            assert(t.fits(lo + 1, last));
            assert(t.children(lo)[0] == lo + 1);
            lemma_walk_finds::<R, A>(r, t, Some(lo), lo + 1, last, depth + 1, max, below->0, here, i, items, is, inv);
        }
        assert(keep(c, after));
        syntax::lemma_walk_keeps::<R>(r, t, parent, last, hi, depth, max, c, c, after, keep);
    } else {
        assert forall|j: int| lo <= j < last implies #[trigger] t.last(j) <= i by {
            if j > lo {
                assert(t.last(j) <= t.last(lo));
            }
        }
        syntax::lemma_level_skips(t, lo, last, i);
        assert(t.valid(last));
        assert(t.last(last) <= hi);
        assert(stands_under(t, parent, last)) by {
            match parent {
                Some(p) => {
                    lemma_next_sibling(t, p + 1, t.last(p), lo);
                },
                None => {
                    assert forall|k: int| 0 <= k < last implies #[trigger] t.last(k) <= last by {
                        if k < lo {
                            assert(t.last(k) <= lo);
                        } else if k > lo {
                            assert(t.last(k) <= t.last(lo));
                        }
                    }
                },
            }
        }
        lemma_walk_finds::<R, A>(r, t, parent, last, hi, depth, max, c, after, i, items, is, inv);
    }
}

/// What a step of a walk adds for node `i`, below whatever it stands, is among what the walk
/// gathers, if the walk takes nothing away again.
pub proof fn lemma_walk_gathers_below<R: TreeRules, A>(
    r: <R as View>::V,
    t: TreeView,
    max: int,
    c: <R::Context as View>::V,
    o: <R::Output as View>::V,
    i: int,
    items: spec_fn(<R::Output as View>::V) -> Seq<A>,
    is: spec_fn(A) -> bool,
    inv: spec_fn(Option<int>, <R::Context as View>::V) -> bool,
)
    requires
        syntax::nested(t),
        t.valid(i),
        syntax::level(t, i) <= max,
        inv(None, c),
        forall|p: Option<int>, d: <R::Context as View>::V, x: <R::Output as View>::V|
            stands_under(t, p, i) && inv(p, d) ==> any(items((#[trigger] R::on_node(r, t, p, i, d, x)).0), is),
        forall|p: Option<int>, j: int, d: <R::Context as View>::V, x: <R::Output as View>::V|
            items(x).is_prefix_of(items((#[trigger] R::on_node(r, t, p, j, d, x)).0)),
        forall|p: Option<int>, j: int, d: <R::Context as View>::V, x: <R::Output as View>::V|
            0 <= j < i < t.last(j) && stands_under(t, p, j) && inv(p, d) ==> (#[trigger] R::on_node(r, t, p, j, d, x)).1 is Some,
        forall|p: Option<int>, j: int, d: <R::Context as View>::V, x: <R::Output as View>::V|
            t.valid(j) && stands_under(t, p, j) && inv(p, d) && (#[trigger] R::on_node(r, t, p, j, d, x)).1 is Some ==> inv(
                Some(j),
                R::on_node(r, t, p, j, d, x).1->0,
            ),
    ensures
        any(items(syntax::walk_tree::<R>(r, t, max, c, o)), is),
{
    assert forall|j: int| 0 <= j < t.rows.len() implies #[trigger] t.last(j) <= t.rows.len() by {
        assert(t.valid(j));
    }
    lemma_walk_finds::<R, A>(r, t, None, 0, t.rows.len() as int, 0, max, c, o, i, items, is, inv);
}

/// A text starts with another exactly if it is the other and something more.
pub proof fn lemma_starts(s: Seq<char>, p: Seq<char>)
    ensures
        text::starts_with(s, p) <==> exists|b: Seq<char>| s == #[trigger] (p + b),
{
    if text::starts_with(s, p) {
        assert(s == p + s.skip(p.len() as int));
    }
    if exists|b: Seq<char>| s == #[trigger] (p + b) {
        let b = choose|b: Seq<char>| s == #[trigger] (p + b);
        law_starts_and_endings(b, p);
    }
}

/// A text ends with another exactly if it is something and the other.
pub proof fn lemma_ends(s: Seq<char>, p: Seq<char>)
    ensures
        text::ends_with(s, p) <==> exists|a: Seq<char>| s == #[trigger] (a + p),
{
    if text::ends_with(s, p) {
        assert(s == s.take(s.len() - p.len()) + p);
    }
    if exists|a: Seq<char>| s == #[trigger] (a + p) {
        let a = choose|a: Seq<char>| s == #[trigger] (a + p);
        law_starts_and_endings(a, p);
    }
}

/// What stands in a part of a text stands in the whole.
pub proof fn lemma_text_within(a: Seq<char>, s: Seq<char>, b: Seq<char>, p: Seq<char>)
    requires
        has_text(s, p),
    ensures
        has_text(a + s + b, p),
        has_text(a + s, p),
        has_text(s + b, p),
{
    let (x, y) = choose|x: Seq<char>, y: Seq<char>| s == #[trigger] (x + p + y);
    assert(a + s + b == (a + x) + p + (y + b));
    assert(a + s == (a + x) + p + y);
    assert(s + b == x + p + (y + b));
}

/// A text stands in itself.
pub proof fn lemma_text_itself(p: Seq<char>)
    ensures
        has_text(p, p),
{
    assert(p == Seq::<char>::empty() + p + Seq::<char>::empty());
}

} // verus!
