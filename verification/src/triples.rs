//! Sorted lists of triples of numbers.
use vstd::prelude::*;
use crate::syntax;

verus! {

/// Three numbers, which are compared one after the other.
pub type Triple = (i128, i128, i128);

/// A triple, as mathematical integers.
pub open spec fn triple_view(t: Triple) -> (int, int, int) {
    (t.0 as int, t.1 as int, t.2 as int)
}

/// A list of triples, as mathematical integers.
pub open spec fn triples_view(v: Seq<Triple>) -> Seq<(int, int, int)> {
    v.map_values(|t: Triple| triple_view(t))
}

/// Whether a triple comes before another.
pub open spec fn less(a: (int, int, int), b: (int, int, int)) -> bool {
    a.0 < b.0 || a.0 == b.0 && (a.1 < b.1 || a.1 == b.1 && a.2 < b.2)
}

/// Whether each triple comes before the next.
pub open spec fn ascending(s: Seq<(int, int, int)>) -> bool {
    forall|i: int, j: int| 0 <= i < j < s.len() ==> less(#[trigger] s[i], #[trigger] s[j])
}

/// A sorted list with a triple put in its place, unless it is there already.
pub open spec fn added(s: Seq<(int, int, int)>, x: (int, int, int)) -> Seq<(int, int, int)>
    decreases s.len(),
{
    if s.len() == 0 {
        seq![x]
    } else if s[0] == x {
        s
    } else if less(s[0], x) {
        seq![s[0]] + added(s.drop_first(), x)
    } else {
        seq![x] + s
    }
}

/// The triples of a list, sorted, each once.
pub open spec fn sorted_set(s: Seq<(int, int, int)>) -> Seq<(int, int, int)>
    decreases s.len(),
{
    if s.len() == 0 {
        Seq::empty()
    } else {
        added(sorted_set(s.drop_last()), s.last())
    }
}

proof fn lemma_added(s: Seq<(int, int, int)>, x: (int, int, int))
    requires
        ascending(s),
    ensures
        ascending(added(s, x)),
        forall|y: (int, int, int)| #[trigger] added(s, x).contains(y) <==> y == x || s.contains(y),
        added(s, x).len() == s.len() + if s.contains(x) {
            0int
        } else {
            1
        },
    decreases s.len(),
{
    let r = added(s, x);
    if s.len() == 0 {
        assert(r[0] == x);
        assert forall|y: (int, int, int)| r.contains(y) implies y == x by {
            let k = choose|k: int| 0 <= k < r.len() && r[k] == y;
        }
    } else if s[0] == x {
        assert(s.contains(x));
    } else if less(s[0], x) {
        let rest = s.drop_first();
        let inner = added(rest, x);
        assert(ascending(rest)) by {
            assert forall|i: int, j: int| 0 <= i < j < rest.len() implies less(#[trigger] rest[i], #[trigger] rest[j]) by {
                assert(rest[i] == s[i + 1] && rest[j] == s[j + 1]);
            }
        }
        lemma_added(rest, x);
        assert(r == seq![s[0]] + inner);
        assert forall|i: int, j: int| 0 <= i < j < r.len() implies less(#[trigger] r[i], #[trigger] r[j]) by {
            assert(r[j] == inner[j - 1]);
            if i > 0 {
                assert(r[i] == inner[i - 1]);
            } else {
                assert(inner.contains(inner[j - 1]));
                if inner[j - 1] != x {
                    let k = choose|k: int| 0 <= k < rest.len() && rest[k] == inner[j - 1];
                    assert(rest[k] == s[k + 1]);
                }
            }
        }
        assert forall|y: (int, int, int)| #[trigger] r.contains(y) <==> y == x || s.contains(y) by {
            if r.contains(y) {
                let k = choose|k: int| 0 <= k < r.len() && r[k] == y;
                if k == 0 {
                    assert(s[0] == y);
                } else {
                    assert(inner[k - 1] == y);
                    assert(inner.contains(y));
                    if y != x {
                        let m = choose|m: int| 0 <= m < rest.len() && rest[m] == y;
                        assert(s[m + 1] == y);
                    }
                }
            }
            if y == x {
                assert(inner.contains(x));
                let k = choose|k: int| 0 <= k < inner.len() && inner[k] == x;
                assert(r[k + 1] == x);
            } else if s.contains(y) {
                let m = choose|m: int| 0 <= m < s.len() && s[m] == y;
                if m == 0 {
                    assert(r[0] == y);
                } else {
                    assert(rest[m - 1] == y);
                    assert(inner.contains(y));
                    let k = choose|k: int| 0 <= k < inner.len() && inner[k] == y;
                    assert(r[k + 1] == y);
                }
            }
        }
        assert(s.contains(x) == rest.contains(x)) by {
            if s.contains(x) {
                let m = choose|m: int| 0 <= m < s.len() && s[m] == x;
                assert(rest[m - 1] == x);
            }
            if rest.contains(x) {
                let m = choose|m: int| 0 <= m < rest.len() && rest[m] == x;
                assert(s[m + 1] == x);
            }
        }
    } else {
        assert(r == seq![x] + s);
        assert forall|i: int, j: int| 0 <= i < j < r.len() implies less(#[trigger] r[i], #[trigger] r[j]) by {
            assert(r[j] == s[j - 1]);
            if i > 0 {
                assert(r[i] == s[i - 1]);
            } else if j > 1 {
                assert(less(s[0], s[j - 1]));
            }
        }
        assert forall|y: (int, int, int)| #[trigger] r.contains(y) <==> y == x || s.contains(y) by {
            if r.contains(y) {
                let k = choose|k: int| 0 <= k < r.len() && r[k] == y;
                if k > 0 {
                    assert(s[k - 1] == y);
                }
            }
            if y == x {
                assert(r[0] == y);
            } else if s.contains(y) {
                let m = choose|m: int| 0 <= m < s.len() && s[m] == y;
                assert(r[m + 1] == y);
            }
        }
        if s.contains(x) {
            let m = choose|m: int| 0 <= m < s.len() && s[m] == x;
            assert(m == 0 || less(s[0], s[m]));
            assert(false);
        }
    }
}

/// A sorted set is sorted and holds what the list holds.
pub proof fn law_sorted_set(s: Seq<(int, int, int)>)
    ensures
        ascending(sorted_set(s)),
        forall|y: (int, int, int)| #[trigger] sorted_set(s).contains(y) <==> s.contains(y),
        sorted_set(s).len() <= s.len(),
    decreases s.len(),
{
    if s.len() == 0 {
        assert forall|y: (int, int, int)| #[trigger] sorted_set(s).contains(y) <==> s.contains(y) by {}
    } else {
        let front = s.drop_last();
        law_sorted_set(front);
        lemma_added(sorted_set(front), s.last());
        assert forall|y: (int, int, int)| #[trigger] sorted_set(s).contains(y) <==> s.contains(y) by {
            if s.contains(y) && y != s.last() {
                let k = choose|k: int| 0 <= k < s.len() && s[k] == y;
                assert(front[k] == y);
            }
            if front.contains(y) {
                let k = choose|k: int| 0 <= k < front.len() && front[k] == y;
                assert(s[k] == y);
            }
            if y == s.last() {
                assert(s[s.len() - 1] == y);
            }
        }
    }
}

/// Sorting loses nothing of a list that holds nothing twice.
pub proof fn law_sorting_keeps_length(s: Seq<(int, int, int)>)
    requires
        s.no_duplicates(),
    ensures
        sorted_set(s).len() == s.len(),
    decreases s.len(),
{
    if s.len() > 0 {
        let front = s.drop_last();
        law_sorting_keeps_length(front);
        law_sorted_set(front);
        lemma_added(sorted_set(front), s.last());
        if front.contains(s.last()) {
            let k = choose|k: int| 0 <= k < front.len() && front[k] == s.last();
            assert(s[k] == s[s.len() - 1]);
        }
    }
}

fn precedes(a: Triple, b: Triple) -> (r: bool)
    ensures
        r == less(triple_view(a), triple_view(b)),
{
    a.0 < b.0 || a.0 == b.0 && (a.1 < b.1 || a.1 == b.1 && a.2 < b.2)
}

/// Puts a triple in its place in a sorted list, unless it is there already.
pub fn add_sorted(v: &mut Vec<Triple>, x: Triple)
    ensures
        triples_view(final(v)@) == added(triples_view(old(v)@), triple_view(x)),
{
    let ghost vv = triples_view(v@);
    let ghost xv = triple_view(x);
    let mut p: usize = 0;
    assert(vv.skip(0) == vv);
    assert(vv.take(0) + added(vv.skip(0), xv) == added(vv, xv));
    while p < v.len()
        invariant_except_break
            0 <= p <= v@.len(),
            xv == triple_view(x),
            vv == triples_view(v@),
            v@ == old(v)@,
            vv.take(p as int) + added(vv.skip(p as int), xv) == added(vv, xv),
        ensures
            0 <= p <= v@.len(),
            vv == triples_view(v@),
            v@ == old(v)@,
            vv.take(p as int) + (seq![xv] + vv.skip(p as int)) == added(vv, xv),
        decreases v@.len() - p,
    {
        let ghost rest = vv.skip(p as int);
        assert(rest[0] == vv[p as int] && vv[p as int] == triple_view(v@[p as int]));
        let y = v[p];
        if y.0 == x.0 && y.1 == x.1 && y.2 == x.2 {
            assert(vv.take(p as int) + rest == vv);
            return;
        }
        if !precedes(y, x) {
            break;
        }
        proof {
            assert(rest.drop_first() == vv.skip(p + 1));
            let inner = added(vv.skip(p + 1), xv);
            assert(vv.take(p as int) + (seq![vv[p as int]] + inner) == vv.take(p + 1) + inner);
        }
        p += 1;
        assert(p == v@.len() ==> vv.skip(p as int) == Seq::<(int, int, int)>::empty());
        assert(p == v@.len() ==> seq![xv] + vv.skip(p as int) == seq![xv]);
    }
    v.insert(p, x);
    assert(triples_view(v@) == vv.take(p as int) + (seq![xv] + vv.skip(p as int)));
}

/// The triples of a list, sorted, each once.
pub fn sort(ts: &Vec<Triple>) -> (r: Vec<Triple>)
    ensures
        triples_view(r@) == sorted_set(triples_view(ts@)),
{
    let ghost tv = triples_view(ts@);
    let mut out: Vec<Triple> = Vec::new();
    let mut j: usize = 0;
    assert(triples_view(out@) == sorted_set(tv.take(0)));
    while j < ts.len()
        invariant
            0 <= j <= ts@.len(),
            tv == triples_view(ts@),
            triples_view(out@) == sorted_set(tv.take(j as int)),
        decreases ts@.len() - j,
    {
        proof {
            syntax::lemma_take_step(tv, j as int);
            assert(tv[j as int] == triple_view(ts@[j as int]));
        }
        add_sorted(&mut out, ts[j]);
        j += 1;
    }
    assert(tv.take(j as int) == tv);
    out
}

} // verus!
