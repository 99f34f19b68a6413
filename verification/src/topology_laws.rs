//! What holds of every topology.
use vstd::prelude::*;
use crate::contracts::{ContractEdgeView, GraphView};
use crate::order;
use crate::topology;
use crate::topology::{Ends, GroupKind, GroupView, Lens, Parts};
use crate::triples;

verus! {

/// Whether the parts belong together: contracts belong to groups that there are, links lead
/// between such groups, and no group is of the kind that others are folded into.
pub open spec fn fits(p: Parts) -> bool {
    &&& p.owner.len() == p.nodes.len()
    &&& forall|i: int| 0 <= i < p.owner.len() ==> 0 <= #[trigger] p.owner[i] < p.kinds.len()
    &&& forall|j: int|
        0 <= j < p.ends.len() ==> 0 <= (#[trigger] p.ends[j]).from < p.kinds.len() && 0 <= p.ends[j].to < p.kinds.len() && 0
            <= p.ends[j].kind <= 5
    &&& forall|g: int| 0 <= g < p.kinds.len() ==> #[trigger] p.kinds[g] != GroupKind::Other
}

proof fn lemma_ends_below(edges: Seq<ContractEdgeView>, owner: Seq<int>, count: int)
    requires
        forall|i: int| 0 <= i < owner.len() ==> 0 <= #[trigger] owner[i] < count,
    ensures
        ({
            let es = topology::ends_of(edges, owner);
            forall|j: int|
                0 <= j < es.len() ==> 0 <= (#[trigger] es[j]).from < count && 0 <= es[j].to < count && 0 <= es[j].kind <= 5
        }),
    decreases edges.len(),
{
    if edges.len() > 0 {
        lemma_ends_below(edges.drop_last(), owner, count);
        let rest = topology::ends_of(edges.drop_last(), owner);
        let es = topology::ends_of(edges, owner);
        assert forall|j: int| 0 <= j < es.len() implies 0 <= (#[trigger] es[j]).from < count && 0 <= es[j].to < count && 0
            <= es[j].kind <= 5 by {
            if j < rest.len() {
                assert(es[j] == rest[j]);
            }
        }
    }
}

/// The parts of every graph belong together.
pub proof fn law_parts_fit(g: GraphView, lens: Lens)
    ensures
        fits(topology::parts_of(g, lens)),
{
    let p = topology::parts_of(g, lens);
    topology::law_every_contract_has_a_group(g.nodes, lens);
    assert forall|i: int| 0 <= i < p.owner.len() implies 0 <= #[trigger] p.owner[i] < p.kinds.len() by {
        assert(p.owner[i] == topology::owners(g.nodes, lens)[i]);
    }
    lemma_ends_below(g.edges, p.owner, p.kinds.len() as int);
}

pub proof fn lemma_first(s: Seq<int>, x: int, i: int)
    requires
        0 <= i <= s.len(),
    ensures
        i <= topology::first_from(s, x, i) <= s.len(),
        topology::first_from(s, x, i) < s.len() ==> s[topology::first_from(s, x, i)] == x,
        forall|j: int| i <= j < s.len() && #[trigger] s[j] == x ==> topology::first_from(s, x, i) <= j,
    decreases s.len() - i,
{
    if i < s.len() && s[i] != x {
        lemma_first(s, x, i + 1);
    }
}

proof fn lemma_kind_from(s: Seq<GroupKind>, x: GroupKind, i: int)
    requires
        0 <= i <= s.len(),
    ensures
        i <= topology::kind_from(s, x, i) <= s.len(),
        forall|j: int| i <= j < s.len() && #[trigger] s[j] == x ==> topology::kind_from(s, x, i) <= j,
    decreases s.len() - i,
{
    if i < s.len() && s[i] != x {
        lemma_kind_from(s, x, i + 1);
    }
}

/// Ranking puts every group in its place, once.
pub proof fn law_ranking_keeps_all(es: Seq<Ends>, owner: Seq<int>, count: int)
    requires
        0 <= count,
    ensures
        ({
            let r = topology::ranked(es, owner, count);
            &&& r.no_duplicates()
            &&& r.len() == count
            &&& forall|g: int| #[trigger] r.contains(g) <==> 0 <= g < count
        }),
{
    let list = topology::rank_list(es, owner, count);
    let sorted = triples::sorted_set(list);
    let r = topology::thirds(sorted);
    triples::law_sorted_set(list);
    assert(list.no_duplicates()) by {
        assert forall|i: int, j: int| 0 <= i < list.len() && 0 <= j < list.len() && i != j implies list[i] != list[j] by {
            assert(list[i].2 == i && list[j].2 == j);
        }
    }
    triples::law_sorting_keeps_length(list);
    assert forall|k: int| 0 <= k < sorted.len() implies 0 <= (#[trigger] sorted[k]).2 < count && sorted[k] == list[sorted[k].2] by {
        assert(sorted.contains(sorted[k]));
        assert(list.contains(sorted[k]));
        let m = choose|m: int| 0 <= m < list.len() && list[m] == sorted[k];
        assert(list[m].2 == m);
    }
    assert forall|i: int, j: int| 0 <= i < r.len() && 0 <= j < r.len() && i != j implies r[i] != r[j] by {
        assert(r[i] == sorted[i].2 && r[j] == sorted[j].2);
        if r[i] == r[j] {
            assert(sorted[i] == sorted[j]);
            if i < j {
                assert(triples::less(sorted[i], sorted[j]));
            } else {
                assert(triples::less(sorted[j], sorted[i]));
            }
        }
    }
    assert forall|g: int| #[trigger] r.contains(g) <==> 0 <= g < count by {
        if r.contains(g) {
            let k = choose|k: int| 0 <= k < r.len() && r[k] == g;
            assert(r[k] == sorted[k].2);
        }
        if 0 <= g < count {
            assert(list.contains(list[g]));
            assert(sorted.contains(list[g]));
            let k = choose|k: int| 0 <= k < sorted.len() && sorted[k] == list[g];
            assert(r[k] == g);
        }
    }
}

pub proof fn lemma_contracts_among(s: Seq<int>, kinds: Seq<GroupKind>)
    requires
        s.no_duplicates(),
    ensures
        ({
            let r = topology::contracts_among(s, kinds);
            &&& r.no_duplicates()
            &&& r.len() <= s.len()
            &&& forall|g: int| #[trigger] r.contains(g) ==> s.contains(g) && kinds[g] == GroupKind::Contract
        }),
    decreases s.len(),
{
    let r = topology::contracts_among(s, kinds);
    if s.len() > 0 {
        let front = s.drop_last();
        lemma_contracts_among(front, kinds);
        let rest = topology::contracts_among(front, kinds);
        assert forall|g: int| front.contains(g) implies s.contains(g) && g != s.last() by {
            let k = choose|k: int| 0 <= k < front.len() && front[k] == g;
            assert(s[k] == g);
            assert(s[s.len() - 1] == s.last());
        }
        assert(s.contains(s.last()));
        if kinds[s.last()] == GroupKind::Contract {
            assert(r == rest.push(s.last()));
            assert forall|i: int, j: int| 0 <= i < r.len() && 0 <= j < r.len() && i != j implies r[i] != r[j] by {
                if i < rest.len() {
                    assert(rest.contains(rest[i]));
                }
                if j < rest.len() {
                    assert(rest.contains(rest[j]));
                }
            }
            assert forall|g: int| #[trigger] r.contains(g) implies s.contains(g) && kinds[g] == GroupKind::Contract by {
                let k = choose|k: int| 0 <= k < r.len() && r[k] == g;
                if k < rest.len() {
                    assert(rest.contains(g));
                }
            }
        }
    }
}

pub proof fn lemma_neighbour_list(all: Seq<Ends>, es: Seq<Ends>, kinds: Seq<GroupKind>)
    ensures
        ({
            let r = topology::neighbour_list(all, es, kinds);
            forall|k: int|
                0 <= k < r.len() ==> #[trigger] r[k] == (-topology::degree(all, r[k].2), 0int, r[k].2) && kinds[r[k].2] != GroupKind::Contract
        }),
    decreases es.len(),
{
    if es.len() > 0 {
        lemma_neighbour_list(all, es.drop_last(), kinds);
        let rest = topology::neighbour_list(all, es.drop_last(), kinds);
        let r = topology::neighbour_list(all, es, kinds);
        assert forall|k: int| 0 <= k < r.len() implies #[trigger] r[k] == (-topology::degree(all, r[k].2), 0int, r[k].2) && kinds[r[k].2]
            != GroupKind::Contract by {
            if k < rest.len() {
                assert(r[k] == rest[k]);
            }
        }
    }
}

pub proof fn lemma_neighbours(es: Seq<Ends>, kinds: Seq<GroupKind>)
    ensures
        ({
            let r = topology::neighbours(es, kinds);
            &&& r.no_duplicates()
            &&& forall|g: int| #[trigger] r.contains(g) ==> kinds[g] != GroupKind::Contract
        }),
{
    let list = topology::neighbour_list(es, es, kinds);
    let sorted = triples::sorted_set(list);
    let r = topology::neighbours(es, kinds);
    triples::law_sorted_set(list);
    lemma_neighbour_list(es, es, kinds);
    assert forall|k: int| 0 <= k < sorted.len() implies #[trigger] sorted[k] == (-topology::degree(es, sorted[k].2), 0int, sorted[k].2)
        && kinds[sorted[k].2] != GroupKind::Contract by {
        assert(sorted.contains(sorted[k]));
        assert(list.contains(sorted[k]));
        let m = choose|m: int| 0 <= m < list.len() && list[m] == sorted[k];
        assert(list[m] == sorted[k]);
    }
    assert forall|i: int, j: int| 0 <= i < r.len() && 0 <= j < r.len() && i != j implies r[i] != r[j] by {
        assert(r[i] == sorted[i].2 && r[j] == sorted[j].2);
        if r[i] == r[j] {
            assert(sorted[i] == sorted[j]);
            if i < j {
                assert(triples::less(sorted[i], sorted[j]));
            } else {
                assert(triples::less(sorted[j], sorted[i]));
            }
        }
    }
    assert forall|g: int| #[trigger] r.contains(g) implies kinds[g] != GroupKind::Contract by {
        let k = choose|k: int| 0 <= k < r.len() && r[k] == g;
        assert(r[k] == sorted[k].2);
    }
}

pub proof fn lemma_some_of(s: Seq<int>, n: int)
    requires
        s.no_duplicates(),
    ensures
        topology::some_of(s, n).no_duplicates(),
        forall|g: int| #[trigger] topology::some_of(s, n).contains(g) ==> s.contains(g),
        topology::some_of(s, n).len() <= if n < 1 {
            1
        } else {
            n
        },
{
    let r = topology::some_of(s, n);
    assert forall|g: int| #[trigger] r.contains(g) implies s.contains(g) by {
        let k = choose|k: int| 0 <= k < r.len() && r[k] == g;
        assert(s[k] == g);
    }
}

/// The number of groups that are drawn at most: as many as are asked for, and at least one.
pub open spec fn at_least_one(n: int) -> int {
    if n < 1 {
        1
    } else {
        n
    }
}

/// No group is drawn twice, and no more are drawn than are asked for.
pub proof fn law_groups_are_drawn_once(p: Parts, max_groups: int, max_contracts: int)
    ensures
        ({
            let shown = topology::drawn(p.ends, p.owner, p.kinds, p.lens.focus is Some, max_groups, max_contracts);
            &&& shown.no_duplicates()
            &&& p.lens.focus is None ==> shown.len() <= at_least_one(max_groups)
            &&& p.lens.focus is Some ==> shown.len() <= at_least_one(max_groups) + at_least_one(max_contracts)
        }),
{
    let all = topology::ranked(p.ends, p.owner, p.kinds.len() as int);
    law_ranking_keeps_all(p.ends, p.owner, p.kinds.len() as int);
    lemma_some_of(all, max_groups);
    let a = topology::contracts_among(all, p.kinds);
    let b = topology::neighbours(p.ends, p.kinds);
    lemma_contracts_among(all, p.kinds);
    lemma_neighbours(p.ends, p.kinds);
    lemma_some_of(a, max_contracts);
    lemma_some_of(b, max_groups);
    let x = topology::some_of(a, max_contracts);
    let y = topology::some_of(b, max_groups);
    assert((x + y).no_duplicates()) by {
        assert forall|i: int, j: int| 0 <= i < (x + y).len() && 0 <= j < (x + y).len() && i != j implies (x + y)[i] != (x + y)[j] by {
            if i < x.len() && j >= x.len() {
                assert(x.contains(x[i]) && y.contains(y[j - x.len()]));
            } else if i >= x.len() && j < x.len() {
                assert(x.contains(x[j]) && y.contains(y[i - x.len()]));
            }
        }
    }
}

pub proof fn lemma_without(s: Seq<int>, other: Seq<int>)
    ensures
        forall|g: int| #[trigger] topology::without(s, other).contains(g) <==> s.contains(g) && !other.contains(g),
    decreases s.len(),
{
    let r = topology::without(s, other);
    if s.len() > 0 {
        let front = s.drop_last();
        lemma_without(front, other);
        let rest = topology::without(front, other);
        assert forall|g: int| #[trigger] r.contains(g) <==> s.contains(g) && !other.contains(g) by {
            if s.contains(g) && g != s.last() {
                let k = choose|k: int| 0 <= k < s.len() && s[k] == g;
                assert(front[k] == g);
            }
            if front.contains(g) {
                let k = choose|k: int| 0 <= k < front.len() && front[k] == g;
                assert(s[k] == g);
            }
            assert(s[s.len() - 1] == s.last());
            if !other.contains(s.last()) {
                assert(r == rest.push(s.last()));
                if r.contains(g) {
                    let k = choose|k: int| 0 <= k < r.len() && r[k] == g;
                    if k < rest.len() {
                        assert(rest.contains(g));
                    }
                }
                if rest.contains(g) {
                    let k = choose|k: int| 0 <= k < rest.len() && rest[k] == g;
                    assert(r[k] == g);
                }
                if g == s.last() {
                    assert(r[rest.len() as int] == g);
                }
            }
        }
    } else {
        assert forall|g: int| #[trigger] r.contains(g) <==> s.contains(g) && !other.contains(g) by {}
    }
}

proof fn lemma_kinds_among(s: Seq<int>, kinds: Seq<GroupKind>)
    ensures
        ({
            let r = topology::kinds_among(s, kinds);
            &&& r.no_duplicates()
            &&& forall|g: int| #[trigger] s.contains(g) ==> r.contains(kinds[g])
            &&& forall|k: int| 0 <= k < r.len() ==> exists|g: int| s.contains(g) && kinds[g] == #[trigger] r[k]
        }),
    decreases s.len(),
{
    let r = topology::kinds_among(s, kinds);
    if s.len() > 0 {
        let front = s.drop_last();
        lemma_kinds_among(front, kinds);
        let rest = topology::kinds_among(front, kinds);
        assert(s[s.len() - 1] == s.last());
        assert(forall|k: int| 0 <= k < rest.len() ==> #[trigger] r[k] == rest[k]);
        assert forall|g: int| #[trigger] s.contains(g) implies r.contains(kinds[g]) by {
            let k = choose|k: int| 0 <= k < s.len() && s[k] == g;
            if k < front.len() {
                assert(front[k] == g);
                assert(front.contains(g));
                let m = choose|m: int| 0 <= m < rest.len() && rest[m] == kinds[g];
                assert(r[m] == kinds[g]);
            } else if rest.contains(kinds[g]) {
                let m = choose|m: int| 0 <= m < rest.len() && rest[m] == kinds[g];
                assert(r[m] == kinds[g]);
            } else {
                assert(r[rest.len() as int] == kinds[g]);
            }
        }
        assert forall|k: int| 0 <= k < r.len() implies exists|g: int| s.contains(g) && kinds[g] == #[trigger] r[k] by {
            if k < rest.len() {
                assert(rest[k] == r[k]);
                let g = choose|g: int| front.contains(g) && kinds[g] == rest[k];
                let m = choose|m: int| 0 <= m < front.len() && front[m] == g;
                assert(s[m] == g);
                assert(s.contains(g) && kinds[g] == r[k]);
            } else {
                assert(s.contains(s.last()) && kinds[s.last()] == r[k]);
            }
        }
        assert(r.no_duplicates()) by {
            assert forall|i: int, j: int| 0 <= i < r.len() && 0 <= j < r.len() && i != j implies r[i] != r[j] by {
                if i < rest.len() && j == rest.len() {
                    assert(rest.contains(rest[i]));
                }
                if j < rest.len() && i == rest.len() {
                    assert(rest.contains(rest[j]));
                }
            }
        }
    }
}

/// Every group stands at a place of the topology: by itself exactly if it is drawn.
pub proof fn law_every_group_stands(p: Parts, max_groups: int, max_contracts: int)
    requires
        fits(p),
    ensures
        ({
            let shown = topology::drawn(p.ends, p.owner, p.kinds, p.lens.focus is Some, max_groups, max_contracts);
            let folded = topology::without(topology::ranked(p.ends, p.owner, p.kinds.len() as int), shown);
            let buckets = topology::kinds_among(folded, p.kinds);
            let stand = topology::stands(shown, buckets, p.kinds);
            forall|g: int|
                0 <= g < p.kinds.len() ==> 0 <= #[trigger] stand[g] < shown.len() + buckets.len() && (forall|k: int|
                    0 <= k < shown.len() ==> (stand[g] == k <==> #[trigger] shown[k] == g))
        }),
{
    let shown = topology::drawn(p.ends, p.owner, p.kinds, p.lens.focus is Some, max_groups, max_contracts);
    let all = topology::ranked(p.ends, p.owner, p.kinds.len() as int);
    let folded = topology::without(all, shown);
    let buckets = topology::kinds_among(folded, p.kinds);
    let stand = topology::stands(shown, buckets, p.kinds);
    law_groups_are_drawn_once(p, max_groups, max_contracts);
    law_ranking_keeps_all(p.ends, p.owner, p.kinds.len() as int);
    lemma_without(all, shown);
    lemma_kinds_among(folded, p.kinds);
    assert forall|g: int| 0 <= g < p.kinds.len() implies 0 <= #[trigger] stand[g] < shown.len() + buckets.len() && (forall|k: int|
        0 <= k < shown.len() ==> (stand[g] == k <==> #[trigger] shown[k] == g)) by {
        lemma_first(shown, g, 0);
        lemma_kind_from(buckets, p.kinds[g], 0);
        if shown.contains(g) {
            let m = choose|m: int| 0 <= m < shown.len() && shown[m] == g;
            assert(shown[m] == g);
        } else {
            assert(all.contains(g));
            assert(folded.contains(g));
            assert(buckets.contains(p.kinds[g]));
            let m = choose|m: int| 0 <= m < buckets.len() && buckets[m] == p.kinds[g];
            assert(buckets[m] == p.kinds[g]);
            assert forall|k: int| 0 <= k < shown.len() implies (stand[g] == k <==> #[trigger] shown[k] == g) by {
                assert(shown.contains(shown[k]));
            }
        }
    }
}

/// The contracts of groups, added up.
pub open spec fn contracts_in(groups: Seq<GroupView>) -> int
    decreases groups.len(),
{
    if groups.len() == 0 {
        0
    } else {
        contracts_in(groups.drop_last()) + groups.last().contracts
    }
}

/// The contracts that stand at the first `n` places, added up.
spec fn standing_below(owner: Seq<int>, stand: Seq<int>, n: int) -> int
    decreases n,
{
    if n <= 0 {
        0
    } else {
        standing_below(owner, stand, n - 1) + topology::standing_at(owner, stand, n - 1)
    }
}

proof fn lemma_standing_below(owner: Seq<int>, stand: Seq<int>, n: int)
    requires
        0 <= n,
    ensures
        owner.len() > 0 ==> standing_below(owner, stand, n) == standing_below(owner.drop_last(), stand, n) + if 0
            <= stand[owner.last()] < n {
            1int
        } else {
            0
        },
        owner.len() == 0 ==> standing_below(owner, stand, n) == 0,
    decreases n,
{
    if n > 0 {
        lemma_standing_below(owner, stand, n - 1);
    }
}

proof fn lemma_all_stand(owner: Seq<int>, stand: Seq<int>, n: int)
    requires
        0 <= n,
        forall|i: int| 0 <= i < owner.len() ==> 0 <= stand[#[trigger] owner[i]] < n,
    ensures
        standing_below(owner, stand, n) == owner.len(),
    decreases owner.len(),
{
    lemma_standing_below(owner, stand, n);
    if owner.len() > 0 {
        let front = owner.drop_last();
        assert forall|i: int| 0 <= i < front.len() implies 0 <= stand[#[trigger] front[i]] < n by {
            assert(front[i] == owner[i]);
        }
        lemma_all_stand(front, stand, n);
        assert(owner[owner.len() - 1] == owner.last());
    }
}

proof fn lemma_contracts_in(groups: Seq<GroupView>, owner: Seq<int>, stand: Seq<int>)
    requires
        forall|k: int| 0 <= k < groups.len() ==> (#[trigger] groups[k]).contracts == topology::standing_at(owner, stand, k),
    ensures
        contracts_in(groups) == standing_below(owner, stand, groups.len() as int),
    decreases groups.len(),
{
    if groups.len() > 0 {
        let front = groups.drop_last();
        assert forall|k: int| 0 <= k < front.len() implies (#[trigger] front[k]).contracts == topology::standing_at(owner, stand, k) by {
            assert(front[k] == groups[k]);
        }
        lemma_contracts_in(front, owner, stand);
        assert(groups.last() == groups[groups.len() - 1]);
    }
}

proof fn lemma_times_is_standing(owner: Seq<int>, stand: Seq<int>, g: int, k: int)
    requires
        forall|i: int| 0 <= i < owner.len() ==> (stand[#[trigger] owner[i]] == k <==> owner[i] == g),
    ensures
        topology::times(owner, g) == topology::standing_at(owner, stand, k),
    decreases owner.len(),
{
    if owner.len() > 0 {
        let front = owner.drop_last();
        assert forall|i: int| 0 <= i < front.len() implies (stand[#[trigger] front[i]] == k <==> front[i] == g) by {
            assert(front[i] == owner[i]);
        }
        lemma_times_is_standing(front, stand, g, k);
        assert(owner[owner.len() - 1] == owner.last());
    }
}

/// Folding loses no contract and counts none twice: the contracts of the groups add up to
/// those of the graph.
pub proof fn law_every_contract_is_counted(p: Parts, max_groups: int, max_contracts: int, total_edges: int)
    requires
        fits(p),
    ensures
        ({
            let t = topology::topology_of(p, max_groups, max_contracts, total_edges);
            contracts_in(t.groups) == t.total_contracts
        }),
{
    let t = topology::topology_of(p, max_groups, max_contracts, total_edges);
    let shown = topology::drawn(p.ends, p.owner, p.kinds, p.lens.focus is Some, max_groups, max_contracts);
    let folded = topology::without(topology::ranked(p.ends, p.owner, p.kinds.len() as int), shown);
    let buckets = topology::kinds_among(folded, p.kinds);
    let stand = topology::stands(shown, buckets, p.kinds);
    law_every_group_stands(p, max_groups, max_contracts);
    assert(t.groups.len() == shown.len() + buckets.len());
    assert forall|k: int| 0 <= k < t.groups.len() implies (#[trigger] t.groups[k]).contracts == topology::standing_at(p.owner, stand, k) by {
        if k < shown.len() {
            assert(t.groups[k] == topology::group_view(p, shown[k]));
            assert forall|i: int| 0 <= i < p.owner.len() implies (stand[#[trigger] p.owner[i]] == k <==> p.owner[i] == shown[k]) by {
                let g = p.owner[i];
                assert(0 <= stand[g]);
            }
            lemma_times_is_standing(p.owner, stand, shown[k], k);
        } else {
            let b = k - shown.len();
            assert(t.groups[k] == topology::other_view(p, folded, stand, buckets[b], shown.len() + b));
        }
    }
    lemma_contracts_in(t.groups, p.owner, stand);
    assert forall|i: int| 0 <= i < p.owner.len() implies 0 <= stand[#[trigger] p.owner[i]] < t.groups.len() by {
        let g = p.owner[i];
        assert(0 <= stand[g]);
    }
    lemma_all_stand(p.owner, stand, t.groups.len() as int);
}

proof fn lemma_few_kinds(s: Seq<GroupKind>)
    requires
        s.no_duplicates(),
        forall|k: int| 0 <= k < s.len() ==> #[trigger] s[k] != GroupKind::Other,
    ensures
        s.len() <= 3,
{
    if s.len() > 3 {
        assert(s[0] != s[1] && s[0] != s[2] && s[0] != s[3] && s[1] != s[2] && s[1] != s[3] && s[2] != s[3]);
    }
}

/// The topology stays as small as it is asked to be, whatever the graph holds: beside the
/// groups asked for it has at most one folded group for each kind.
pub proof fn law_size_is_bounded(p: Parts, max_groups: int, max_contracts: int, total_edges: int)
    requires
        fits(p),
    ensures
        ({
            let t = topology::topology_of(p, max_groups, max_contracts, total_edges);
            &&& t.focus is None ==> t.groups.len() <= at_least_one(max_groups) + 3
            &&& t.focus is Some ==> t.groups.len() <= at_least_one(max_groups) + at_least_one(max_contracts) + 3
        }),
{
    let shown = topology::drawn(p.ends, p.owner, p.kinds, p.lens.focus is Some, max_groups, max_contracts);
    let all = topology::ranked(p.ends, p.owner, p.kinds.len() as int);
    let folded = topology::without(all, shown);
    let buckets = topology::kinds_among(folded, p.kinds);
    law_groups_are_drawn_once(p, max_groups, max_contracts);
    law_ranking_keeps_all(p.ends, p.owner, p.kinds.len() as int);
    lemma_without(all, shown);
    lemma_kinds_among(folded, p.kinds);
    assert forall|k: int| 0 <= k < buckets.len() implies #[trigger] buckets[k] != GroupKind::Other by {
        let g = choose|g: int| folded.contains(g) && p.kinds[g] == buckets[k];
        assert(all.contains(g));
        assert(p.kinds[g] != GroupKind::Other);
    }
    lemma_few_kinds(buckets);
}

proof fn lemma_drawn_links(es: Seq<Ends>, stand: Seq<int>, count: int, places: int)
    requires
        forall|j: int| 0 <= j < es.len() ==> 0 <= (#[trigger] es[j]).from < count && 0 <= es[j].to < count,
        forall|g: int| 0 <= g < count ==> 0 <= #[trigger] stand[g] < places,
    ensures
        ({
            let r = topology::drawn_links(es, stand);
            forall|k: int|
                0 <= k < r.len() ==> 0 <= (#[trigger] r[k]).0 < places && 0 <= r[k].1 < places && r[k].0 != r[k].1 && topology::weight(
                    es,
                    stand,
                    r[k],
                ) >= 1
        }),
    decreases es.len(),
{
    if es.len() > 0 {
        let front = es.drop_last();
        assert forall|j: int| 0 <= j < front.len() implies 0 <= (#[trigger] front[j]).from < count && 0 <= front[j].to < count by {
            assert(front[j] == es[j]);
        }
        lemma_drawn_links(front, stand, count, places);
        let rest = topology::drawn_links(front, stand);
        let r = topology::drawn_links(es, stand);
        assert(es.last() == es[es.len() - 1]);
        assert(0 <= stand[es.last().from] < places && 0 <= stand[es.last().to] < places);
        assert forall|k: int| 0 <= k < r.len() implies 0 <= (#[trigger] r[k]).0 < places && 0 <= r[k].1 < places && r[k].0 != r[k].1
            && topology::weight(es, stand, r[k]) >= 1 by {
            lemma_weight_is_positive(front, stand, r[k]);
            if k < rest.len() {
                assert(r[k] == rest[k]);
            }
        }
    }
}

proof fn lemma_weight_is_positive(es: Seq<Ends>, stand: Seq<int>, l: (int, int, int))
    ensures
        topology::weight(es, stand, l) >= 0,
    decreases es.len(),
{
    if es.len() > 0 {
        lemma_weight_is_positive(es.drop_last(), stand, l);
    }
}

/// Every link joins two different groups that are drawn, and stands for at least one link of
/// the graph.
pub proof fn law_links_join_drawn_groups(p: Parts, max_groups: int, max_contracts: int, total_edges: int)
    requires
        fits(p),
    ensures
        ({
            let t = topology::topology_of(p, max_groups, max_contracts, total_edges);
            forall|k: int|
                0 <= k < t.links.len() ==> 0 <= (#[trigger] t.links[k]).from < t.groups.len() && 0 <= t.links[k].to < t.groups.len()
                    && t.links[k].from != t.links[k].to && t.links[k].count >= 1
        }),
{
    let t = topology::topology_of(p, max_groups, max_contracts, total_edges);
    let shown = topology::drawn(p.ends, p.owner, p.kinds, p.lens.focus is Some, max_groups, max_contracts);
    let folded = topology::without(topology::ranked(p.ends, p.owner, p.kinds.len() as int), shown);
    let buckets = topology::kinds_among(folded, p.kinds);
    let stand = topology::stands(shown, buckets, p.kinds);
    let places = (shown.len() + buckets.len()) as int;
    law_every_group_stands(p, max_groups, max_contracts);
    lemma_drawn_links(p.ends, stand, p.kinds.len() as int, places);
    let list = topology::drawn_links(p.ends, stand);
    let sorted = triples::sorted_set(list);
    triples::law_sorted_set(list);
    assert forall|k: int| 0 <= k < t.links.len() implies 0 <= (#[trigger] t.links[k]).from < t.groups.len() && 0 <= t.links[k].to
        < t.groups.len() && t.links[k].from != t.links[k].to && t.links[k].count >= 1 by {
        assert(sorted.contains(sorted[k]));
        assert(list.contains(sorted[k]));
        let m = choose|m: int| 0 <= m < list.len() && list[m] == sorted[k];
        assert(list[m] == sorted[k]);
    }
}

proof fn lemma_drawn_kinds(es: Seq<Ends>, stand: Seq<int>)
    requires
        forall|j: int| 0 <= j < es.len() ==> 0 <= (#[trigger] es[j]).kind <= 5,
    ensures
        ({
            let r = topology::drawn_links(es, stand);
            forall|k: int| 0 <= k < r.len() ==> 0 <= (#[trigger] r[k]).2 <= 5
        }),
    decreases es.len(),
{
    if es.len() > 0 {
        let front = es.drop_last();
        assert forall|j: int| 0 <= j < front.len() implies 0 <= (#[trigger] front[j]).kind <= 5 by {
            assert(front[j] == es[j]);
        }
        lemma_drawn_kinds(front, stand);
        assert(es[es.len() - 1] == es.last());
        let rest = topology::drawn_links(front, stand);
        let r = topology::drawn_links(es, stand);
        assert forall|k: int| 0 <= k < r.len() implies 0 <= (#[trigger] r[k]).2 <= 5 by {
            if k < rest.len() {
                assert(r[k] == rest[k]);
            }
        }
    }
}

/// Links of one kind between the same groups are drawn as one: no two start and end at the same
/// groups and are of the same kind.
pub proof fn law_links_differ(p: Parts, max_groups: int, max_contracts: int, total_edges: int)
    requires
        fits(p),
    ensures
        ({
            let t = topology::topology_of(p, max_groups, max_contracts, total_edges);
            forall|i: int, j: int|
                0 <= i < j < t.links.len() ==> (#[trigger] t.links[i]).from != (#[trigger] t.links[j]).from || t.links[i].to
                    != t.links[j].to || t.links[i].kind != t.links[j].kind
        }),
{
    let t = topology::topology_of(p, max_groups, max_contracts, total_edges);
    let shown = topology::drawn(p.ends, p.owner, p.kinds, p.lens.focus is Some, max_groups, max_contracts);
    let folded = topology::without(topology::ranked(p.ends, p.owner, p.kinds.len() as int), shown);
    let stand = topology::stands(shown, topology::kinds_among(folded, p.kinds), p.kinds);
    let list = topology::drawn_links(p.ends, stand);
    let sorted = triples::sorted_set(list);
    triples::law_sorted_set(list);
    lemma_drawn_kinds(p.ends, stand);
    assert forall|k: int| 0 <= k < sorted.len() implies 0 <= (#[trigger] sorted[k]).2 <= 5 by {
        assert(sorted.contains(sorted[k]));
        assert(list.contains(sorted[k]));
        let m = choose|m: int| 0 <= m < list.len() && list[m] == sorted[k];
        assert(list[m] == sorted[k]);
    }
    assert forall|i: int, j: int| 0 <= i < j < t.links.len() implies (#[trigger] t.links[i]).from != (#[trigger] t.links[j]).from
        || t.links[i].to != t.links[j].to || t.links[i].kind != t.links[j].kind by {
        assert(triples::less(sorted[i], sorted[j]));
        assert(t.links[i].kind == topology::kind_at(sorted[i].2));
        assert(t.links[j].kind == topology::kind_at(sorted[j].2));
    }
}

/// How many groups are drawn by themselves: those that no others are folded into.
pub open spec fn drawn_alone(groups: Seq<GroupView>) -> int
    decreases groups.len(),
{
    if groups.len() == 0 {
        0
    } else {
        drawn_alone(groups.drop_last()) + if groups.last().kind != GroupKind::Other {
            1int
        } else {
            0
        }
    }
}

proof fn lemma_drawn_alone(groups: Seq<GroupView>, n: int)
    requires
        0 <= n <= groups.len(),
        forall|k: int| 0 <= k < groups.len() ==> ((#[trigger] groups[k]).kind != GroupKind::Other <==> k < n),
    ensures
        drawn_alone(groups) == n,
    decreases groups.len(),
{
    if groups.len() > 0 {
        let front = groups.drop_last();
        let last = groups.len() - 1;
        assert(groups[last] == groups.last());
        assert forall|k: int| 0 <= k < front.len() implies ((#[trigger] front[k]).kind != GroupKind::Other <==> k < n) by {
            assert(front[k] == groups[k]);
        }
        if last < n {
            lemma_drawn_alone(front, n - 1);
        } else {
            lemma_drawn_alone(front, n);
        }
    }
}

proof fn lemma_hidden_len(s: Seq<(Seq<char>, int)>)
    ensures
        topology::hidden_sorted(s).len() == s.len(),
    decreases s.len(),
{
    if s.len() > 0 {
        lemma_hidden_len(s.drop_last());
        lemma_hidden_with_len(topology::hidden_sorted(s.drop_last()), s.last());
    }
}

proof fn lemma_hidden_with_len(s: Seq<(Seq<char>, int)>, x: (Seq<char>, int))
    ensures
        topology::hidden_with(s, x).len() == s.len() + 1,
    decreases s.len(),
{
    if s.len() > 0 && !topology::larger(x, s[0]) {
        lemma_hidden_with_len(s.drop_first(), x);
    }
}

proof fn lemma_without_len(s: Seq<int>, other: Seq<int>)
    requires
        s.no_duplicates(),
        other.no_duplicates(),
        forall|g: int| #[trigger] other.contains(g) ==> s.contains(g),
    ensures
        topology::without(s, other).len() + other.len() == s.len(),
{
    let r = topology::without(s, other);
    lemma_without(s, other);
    lemma_without_once(s, other);
    r.unique_seq_to_set();
    other.unique_seq_to_set();
    s.unique_seq_to_set();
    vstd::seq_lib::seq_to_set_is_finite(r);
    vstd::seq_lib::seq_to_set_is_finite(other);
    vstd::set_lib::lemma_set_disjoint_lens(r.to_set(), other.to_set());
    assert(r.to_set().disjoint(other.to_set())) by {
        assert forall|g: int| r.to_set().contains(g) implies !other.to_set().contains(g) by {
            assert(r.contains(g));
        }
    }
    assert(r.to_set() + other.to_set() =~= s.to_set()) by {
        assert forall|g: int| (r.to_set() + other.to_set()).contains(g) <==> s.to_set().contains(g) by {
            assert(r.contains(g) <==> s.contains(g) && !other.contains(g));
        }
    }
}

proof fn lemma_without_once(s: Seq<int>, other: Seq<int>)
    requires
        s.no_duplicates(),
    ensures
        topology::without(s, other).no_duplicates(),
    decreases s.len(),
{
    if s.len() > 0 {
        let front = s.drop_last();
        lemma_without_once(front, other);
        lemma_without(front, other);
        let rest = topology::without(front, other);
        assert(!rest.contains(s.last())) by {
            if rest.contains(s.last()) {
                assert(front.contains(s.last()));
                let k = choose|k: int| 0 <= k < front.len() && front[k] == s.last();
                assert(s[k] == s[s.len() - 1]);
            }
        }
        assert(rest.push(s.last()).no_duplicates()) by {
            let r = rest.push(s.last());
            assert forall|i: int, j: int| 0 <= i < r.len() && 0 <= j < r.len() && i != j implies r[i] != r[j] by {
                if i == rest.len() {
                    assert(rest.contains(rest[j]));
                } else if j == rest.len() {
                    assert(rest.contains(rest[i]));
                }
            }
        }
    }
}

pub proof fn lemma_neighbours_fit(all: Seq<Ends>, es: Seq<Ends>, kinds: Seq<GroupKind>)
    requires
        forall|j: int| 0 <= j < es.len() ==> 0 <= (#[trigger] es[j]).from < kinds.len() && 0 <= es[j].to < kinds.len(),
    ensures
        ({
            let r = topology::neighbour_list(all, es, kinds);
            forall|k: int| 0 <= k < r.len() ==> 0 <= (#[trigger] r[k]).2 < kinds.len()
        }),
    decreases es.len(),
{
    if es.len() > 0 {
        let front = es.drop_last();
        assert forall|j: int| 0 <= j < front.len() implies 0 <= (#[trigger] front[j]).from < kinds.len() && 0 <= front[j].to
            < kinds.len() by {
            assert(front[j] == es[j]);
        }
        lemma_neighbours_fit(all, front, kinds);
        assert(es[es.len() - 1] == es.last());
        let rest = topology::neighbour_list(all, front, kinds);
        let r = topology::neighbour_list(all, es, kinds);
        assert forall|k: int| 0 <= k < r.len() implies 0 <= (#[trigger] r[k]).2 < kinds.len() by {
            if k < rest.len() {
                assert(r[k] == rest[k]);
            }
        }
    }
}

pub proof fn lemma_drawn_exist(p: Parts, max_groups: int, max_contracts: int)
    requires
        fits(p),
    ensures
        ({
            let shown = topology::drawn(p.ends, p.owner, p.kinds, p.lens.focus is Some, max_groups, max_contracts);
            forall|g: int| #[trigger] shown.contains(g) ==> 0 <= g < p.kinds.len()
        }),
{
    let shown = topology::drawn(p.ends, p.owner, p.kinds, p.lens.focus is Some, max_groups, max_contracts);
    let all = topology::ranked(p.ends, p.owner, p.kinds.len() as int);
    law_ranking_keeps_all(p.ends, p.owner, p.kinds.len() as int);
    lemma_some_of(all, max_groups);
    let a = topology::contracts_among(all, p.kinds);
    let b = topology::neighbours(p.ends, p.kinds);
    lemma_contracts_among(all, p.kinds);
    lemma_neighbours(p.ends, p.kinds);
    lemma_some_of(a, max_contracts);
    lemma_some_of(b, max_groups);
    let list = topology::neighbour_list(p.ends, p.ends, p.kinds);
    let sorted = triples::sorted_set(list);
    triples::law_sorted_set(list);
    lemma_neighbours_fit(p.ends, p.ends, p.kinds);
    assert forall|g: int| #[trigger] b.contains(g) implies 0 <= g < p.kinds.len() by {
        let k = choose|k: int| 0 <= k < b.len() && b[k] == g;
        assert(b[k] == sorted[k].2);
        assert(sorted.contains(sorted[k]));
        assert(list.contains(sorted[k]));
        let m = choose|m: int| 0 <= m < list.len() && list[m] == sorted[k];
        assert(list[m] == sorted[k]);
    }
    let x = topology::some_of(a, max_contracts);
    let y = topology::some_of(b, max_groups);
    assert forall|g: int| #[trigger] shown.contains(g) implies 0 <= g < p.kinds.len() by {
        if p.lens.focus is Some {
            let k = choose|k: int| 0 <= k < shown.len() && shown[k] == g;
            if k < x.len() {
                assert(x.contains(x[k]));
                assert(a.contains(g));
                assert(all.contains(g));
            } else {
                assert(y.contains(y[k - x.len()]));
                assert(b.contains(g));
            }
        } else {
            assert(all.contains(g));
        }
    }
}

/// Every group is drawn by itself or hidden: the two together are all groups.
pub proof fn law_groups_are_drawn_or_hidden(p: Parts, max_groups: int, max_contracts: int, total_edges: int)
    requires
        fits(p),
    ensures
        ({
            let t = topology::topology_of(p, max_groups, max_contracts, total_edges);
            drawn_alone(t.groups) + t.hidden.len() == t.total_groups
        }),
{
    let t = topology::topology_of(p, max_groups, max_contracts, total_edges);
    let shown = topology::drawn(p.ends, p.owner, p.kinds, p.lens.focus is Some, max_groups, max_contracts);
    let all = topology::ranked(p.ends, p.owner, p.kinds.len() as int);
    let folded = topology::without(all, shown);
    law_ranking_keeps_all(p.ends, p.owner, p.kinds.len() as int);
    law_groups_are_drawn_once(p, max_groups, max_contracts);
    lemma_drawn_exist(p, max_groups, max_contracts);
    lemma_without_len(all, shown);
    lemma_hidden_len(folded.map_values(|g: int| (p.names[g], topology::times(p.owner, g))));
    assert forall|k: int| 0 <= k < t.groups.len() implies ((#[trigger] t.groups[k]).kind != GroupKind::Other <==> k < shown.len()) by {
        if k < shown.len() {
            assert(shown.contains(shown[k]));
            assert(t.groups[k] == topology::group_view(p, shown[k]));
        }
    }
    lemma_drawn_alone(t.groups, shown.len() as int);
}

/// Whether no hidden group stands behind one that it comes before.
pub open spec fn largest_first(s: Seq<(Seq<char>, int)>) -> bool {
    forall|i: int, j: int| 0 <= i < j < s.len() ==> !topology::larger(#[trigger] s[j], #[trigger] s[i])
}

proof fn lemma_larger(a: (Seq<char>, int), b: (Seq<char>, int), c: (Seq<char>, int))
    ensures
        topology::larger(a, b) && topology::larger(b, c) ==> topology::larger(a, c),
        topology::larger(a, b) ==> !topology::larger(b, a),
{
    order::law_order_is_total(a.0, b.0);
    if order::before(a.0, b.0) && order::before(b.0, c.0) {
        order::law_order_is_transitive(a.0, b.0, c.0);
    }
}

proof fn lemma_hidden_with(s: Seq<(Seq<char>, int)>, x: (Seq<char>, int))
    requires
        largest_first(s),
    ensures
        largest_first(topology::hidden_with(s, x)),
        forall|k: int|
            0 <= k < topology::hidden_with(s, x).len() ==> #[trigger] topology::hidden_with(s, x)[k] == x || s.contains(
                topology::hidden_with(s, x)[k],
            ),
    decreases s.len(),
{
    let r = topology::hidden_with(s, x);
    if s.len() > 0 && topology::larger(x, s[0]) {
        assert forall|k: int| 0 <= k < r.len() implies #[trigger] r[k] == x || s.contains(r[k]) by {
            if k > 0 {
                assert(r[k] == s[k - 1]);
            }
        }
        assert forall|i: int, j: int| 0 <= i < j < r.len() implies !topology::larger(#[trigger] r[j], #[trigger] r[i]) by {
            assert(r[j] == s[j - 1]);
            if i > 0 {
                assert(r[i] == s[i - 1]);
            } else {
                lemma_larger(s[j - 1], x, s[0]);
                lemma_larger(x, s[0], s[0]);
                assert(j - 1 > 0 ==> !topology::larger(s[j - 1], s[0]));
            }
        }
    } else if s.len() > 0 {
        let rest = s.drop_first();
        assert forall|i: int, j: int| 0 <= i < j < rest.len() implies !topology::larger(#[trigger] rest[j], #[trigger] rest[i]) by {
            assert(rest[i] == s[i + 1] && rest[j] == s[j + 1]);
        }
        lemma_hidden_with(rest, x);
        let inner = topology::hidden_with(rest, x);
        assert forall|k: int| 0 <= k < inner.len() implies (#[trigger] inner[k] == x || s.contains(inner[k])) && !topology::larger(
            inner[k],
            s[0],
        ) by {
            if inner[k] != x {
                let m = choose|m: int| 0 <= m < rest.len() && rest[m] == inner[k];
                assert(s[m + 1] == inner[k]);
                assert(!topology::larger(s[m + 1], s[0]));
            }
        }
        assert forall|k: int| 0 <= k < r.len() implies #[trigger] r[k] == x || s.contains(r[k]) by {
            if k > 0 {
                assert(r[k] == inner[k - 1]);
            } else {
                assert(r[0] == s[0]);
            }
        }
        assert forall|i: int, j: int| 0 <= i < j < r.len() implies !topology::larger(#[trigger] r[j], #[trigger] r[i]) by {
            assert(r[j] == inner[j - 1]);
            if i > 0 {
                assert(r[i] == inner[i - 1]);
            }
        }
    }
}

proof fn lemma_hidden_sorted(s: Seq<(Seq<char>, int)>)
    ensures
        largest_first(topology::hidden_sorted(s)),
    decreases s.len(),
{
    if s.len() > 0 {
        lemma_hidden_sorted(s.drop_last());
        lemma_hidden_with(topology::hidden_sorted(s.drop_last()), s.last());
    }
}

/// The hidden groups are listed from the largest down, those of one size by their names.
pub proof fn law_hidden_groups_come_largest_first(p: Parts, max_groups: int, max_contracts: int, total_edges: int)
    ensures
        largest_first(topology::topology_of(p, max_groups, max_contracts, total_edges).hidden),
{
    let shown = topology::drawn(p.ends, p.owner, p.kinds, p.lens.focus is Some, max_groups, max_contracts);
    let folded = topology::without(topology::ranked(p.ends, p.owner, p.kinds.len() as int), shown);
    lemma_hidden_sorted(folded.map_values(|g: int| (p.names[g], topology::times(p.owner, g))));
}

} // verus!
