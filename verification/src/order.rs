//! The order of texts, and sorted lists of them.
use vstd::prelude::*;
use crate::text;

verus! {

/// Whether a text comes before another: character by character, a shorter one first.
pub open spec fn before(a: Seq<char>, b: Seq<char>) -> bool
    decreases a.len(),
{
    if b.len() == 0 {
        false
    } else if a.len() == 0 {
        true
    } else if a[0] == b[0] {
        before(a.drop_first(), b.drop_first())
    } else {
        a[0] < b[0]
    }
}

/// The order of texts is total: of two, either one comes before the other or they are the
/// same, and never both.
pub proof fn law_order_is_total(a: Seq<char>, b: Seq<char>)
    ensures
        a == b || before(a, b) || before(b, a),
        before(a, b) ==> a != b && !before(b, a),
    decreases a.len(),
{
    if a.len() > 0 && b.len() > 0 {
        law_order_is_total(a.drop_first(), b.drop_first());
        if a[0] == b[0] && a.drop_first() == b.drop_first() {
            assert(a == seq![a[0]] + a.drop_first());
            assert(b == seq![b[0]] + b.drop_first());
        }
    } else if a.len() == 0 && b.len() == 0 {
        assert(a == b);
    }
}

/// The order of texts is transitive.
pub proof fn law_order_is_transitive(a: Seq<char>, b: Seq<char>, c: Seq<char>)
    requires
        before(a, b),
        before(b, c),
    ensures
        before(a, c),
    decreases a.len(),
{
    if a.len() > 0 && a[0] == b[0] && b[0] == c[0] {
        law_order_is_transitive(a.drop_first(), b.drop_first(), c.drop_first());
    }
}

/// Whether a text comes before another.
pub fn precedes(a: &[char], b: &[char]) -> (r: bool)
    ensures
        r == before(a@, b@),
{
    let mut i: usize = 0;
    assert(a@.skip(0) == a@ && b@.skip(0) == b@);
    while i < a.len() && i < b.len()
        invariant
            0 <= i <= a@.len(),
            i <= b@.len(),
            before(a@, b@) == before(a@.skip(i as int), b@.skip(i as int)),
        decreases a@.len() - i,
    {
        assert(a@.skip(i as int).drop_first() == a@.skip(i + 1));
        assert(b@.skip(i as int).drop_first() == b@.skip(i + 1));
        if a[i] != b[i] {
            return a[i] < b[i];
        }
        i += 1;
    }
    i < b.len()
}

/// Whether each text comes before the next.
pub open spec fn ascending(s: Seq<Seq<char>>) -> bool {
    forall|i: int, j: int| 0 <= i < j < s.len() ==> before(#[trigger] s[i], #[trigger] s[j])
}

/// A sorted list with a text put in its place, unless it is there already.
pub open spec fn added(s: Seq<Seq<char>>, x: Seq<char>) -> Seq<Seq<char>>
    decreases s.len(),
{
    if s.len() == 0 {
        seq![x]
    } else if s[0] == x {
        s
    } else if before(s[0], x) {
        seq![s[0]] + added(s.drop_first(), x)
    } else {
        seq![x] + s
    }
}

/// The texts of a list, sorted, each once.
pub open spec fn sorted_set(s: Seq<Seq<char>>) -> Seq<Seq<char>>
    decreases s.len(),
{
    if s.len() == 0 {
        Seq::empty()
    } else {
        added(sorted_set(s.drop_last()), s.last())
    }
}

proof fn lemma_added(s: Seq<Seq<char>>, x: Seq<char>)
    requires
        ascending(s),
    ensures
        ascending(added(s, x)),
        forall|y: Seq<char>| #[trigger] added(s, x).contains(y) <==> y == x || s.contains(y),
    decreases s.len(),
{
    let r = added(s, x);
    if s.len() == 0 {
        assert(r == seq![x]);
        assert(r[0] == x);
        assert forall|y: Seq<char>| r.contains(y) implies y == x by {
            let k = choose|k: int| 0 <= k < r.len() && r[k] == y;
        }
    } else if s[0] == x {
        assert(s.contains(x));
    } else if before(s[0], x) {
        let rest = s.drop_first();
        let inner = added(rest, x);
        assert(ascending(rest)) by {
            assert forall|i: int, j: int| 0 <= i < j < rest.len() implies before(#[trigger] rest[i], #[trigger] rest[j]) by {
                assert(rest[i] == s[i + 1] && rest[j] == s[j + 1]);
            }
        }
        lemma_added(rest, x);
        assert(r == seq![s[0]] + inner);
        assert forall|i: int, j: int| 0 <= i < j < r.len() implies before(#[trigger] r[i], #[trigger] r[j]) by {
            assert(r[j] == inner[j - 1]);
            if i > 0 {
                assert(r[i] == inner[i - 1]);
            } else {
                assert(inner.contains(inner[j - 1]));
                if inner[j - 1] != x {
                    let k = choose|k: int| 0 <= k < rest.len() && rest[k] == inner[j - 1];
                    assert(rest[k] == s[k + 1]);
                }
            }
        }
        assert forall|y: Seq<char>| #[trigger] r.contains(y) <==> y == x || s.contains(y) by {
            if r.contains(y) {
                let k = choose|k: int| 0 <= k < r.len() && r[k] == y;
                if k == 0 {
                    assert(s[0] == y);
                } else {
                    assert(inner[k - 1] == y);
                    assert(inner.contains(y));
                    if y != x {
                        let m = choose|m: int| 0 <= m < rest.len() && rest[m] == y;
                        assert(s[m + 1] == y);
                    }
                }
            }
            if y == x {
                assert(inner.contains(x));
                let k = choose|k: int| 0 <= k < inner.len() && inner[k] == x;
                assert(r[k + 1] == x);
            } else if s.contains(y) {
                let m = choose|m: int| 0 <= m < s.len() && s[m] == y;
                if m == 0 {
                    assert(r[0] == y);
                } else {
                    assert(rest[m - 1] == y);
                    assert(inner.contains(y));
                    let k = choose|k: int| 0 <= k < inner.len() && inner[k] == y;
                    assert(r[k + 1] == y);
                }
            }
        }
    } else {
        law_order_is_total(s[0], x);
        assert(r == seq![x] + s);
        assert forall|i: int, j: int| 0 <= i < j < r.len() implies before(#[trigger] r[i], #[trigger] r[j]) by {
            assert(r[j] == s[j - 1]);
            if i > 0 {
                assert(r[i] == s[i - 1]);
            } else if j > 1 {
                assert(before(s[0], s[j - 1]));
                law_order_is_transitive(x, s[0], s[j - 1]);
            }
        }
        assert forall|y: Seq<char>| #[trigger] r.contains(y) <==> y == x || s.contains(y) by {
            if r.contains(y) {
                let k = choose|k: int| 0 <= k < r.len() && r[k] == y;
                if k > 0 {
                    assert(s[k - 1] == y);
                }
            }
            if y == x {
                assert(r[0] == y);
            } else if s.contains(y) {
                let m = choose|m: int| 0 <= m < s.len() && s[m] == y;
                assert(r[m + 1] == y);
            }
        }
    }
}

/// A sorted set is sorted and holds what the list holds.
pub proof fn law_sorted_set(s: Seq<Seq<char>>)
    ensures
        ascending(sorted_set(s)),
        forall|y: Seq<char>| #[trigger] sorted_set(s).contains(y) <==> s.contains(y),
    decreases s.len(),
{
    if s.len() == 0 {
        assert forall|y: Seq<char>| #[trigger] sorted_set(s).contains(y) <==> s.contains(y) by {}
    } else {
        let front = s.drop_last();
        law_sorted_set(front);
        lemma_added(sorted_set(front), s.last());
        assert forall|y: Seq<char>| #[trigger] sorted_set(s).contains(y) <==> s.contains(y) by {
            if s.contains(y) && y != s.last() {
                let k = choose|k: int| 0 <= k < s.len() && s[k] == y;
                assert(front[k] == y);
            }
            if front.contains(y) {
                let k = choose|k: int| 0 <= k < front.len() && front[k] == y;
                assert(s[k] == y);
            }
            if y == s.last() {
                assert(s[s.len() - 1] == y);
            }
        }
    }
}

/// Puts a text in its place in a sorted list, unless it is there already.
pub fn add_sorted(v: &mut Vec<String>, x: &[char])
    ensures
        text::strings(final(v)@) == added(text::strings(old(v)@), x@),
{
    let ghost vv = text::strings(v@);
    let mut p: usize = 0;
    assert(vv.skip(0) == vv);
    assert(vv.take(0) + added(vv.skip(0), x@) == added(vv, x@));
    while p < v.len()
        invariant_except_break
            0 <= p <= v@.len(),
            vv == text::strings(v@),
            v@ == old(v)@,
            vv.take(p as int) + added(vv.skip(p as int), x@) == added(vv, x@),
        ensures
            0 <= p <= v@.len(),
            vv == text::strings(v@),
            v@ == old(v)@,
            vv.take(p as int) + (seq![x@] + vv.skip(p as int)) == added(vv, x@),
        decreases v@.len() - p,
    {
        let s = text::chars_of(v[p].as_str());
        let ghost rest = vv.skip(p as int);
        assert(rest[0] == vv[p as int] && vv[p as int] == s@);
        if text::equal(s.as_slice(), x) {
            assert(vv.take(p as int) + rest == vv);
            return;
        }
        if !precedes(s.as_slice(), x) {
            break;
        }
        proof {
            assert(rest.drop_first() == vv.skip(p + 1));
            let inner = added(vv.skip(p + 1), x@);
            assert(vv.take(p as int) + (seq![vv[p as int]] + inner) == vv.take(p + 1) + inner);
        }
        p += 1;
        assert(p == v@.len() ==> vv.skip(p as int) == Seq::<Seq<char>>::empty());
        assert(p == v@.len() ==> seq![x@] + vv.skip(p as int) == seq![x@]);
    }
    v.insert(p, text::string_of(x));
    assert(text::strings(v@) == vv.take(p as int) + (seq![x@] + vv.skip(p as int)));
}

/// The texts of a list, sorted, each once.
pub fn sort_texts(names: &Vec<String>) -> (r: Vec<String>)
    ensures
        text::strings(r@) == sorted_set(text::strings(names@)),
{
    let ghost nv = text::strings(names@);
    let mut out: Vec<String> = Vec::new();
    let mut j: usize = 0;
    assert(text::strings(out@) == sorted_set(nv.take(0)));
    while j < names.len()
        invariant
            0 <= j <= names@.len(),
            nv == text::strings(names@),
            text::strings(out@) == sorted_set(nv.take(j as int)),
        decreases names@.len() - j,
    {
        proof {
            crate::syntax::lemma_take_step(nv, j as int);
            assert(nv[j as int] == names@[j as int]@);
        }
        let x = text::chars_of(names[j].as_str());
        add_sorted(&mut out, x.as_slice());
        j += 1;
    }
    assert(nv.take(j as int) == nv);
    out
}

} // verus!
