//! What is drawn of a graph of contracts.
use vstd::prelude::*;
use crate::contracts::{ContractEdgeView, EdgeConfidence, EdgeKind, GraphView};
use crate::model::{ContractNodeView, NodeKind};
use crate::order;
use crate::text;
use crate::topology;
use crate::topology::{Ends, GroupKind, Lens, LinkView, Parts};
use crate::topology_laws;
use crate::triples;

verus! {

/// How many of the numbers from zero up to `n` have a property.
pub open spec fn how_many(n: int, has: spec_fn(int) -> bool) -> int
    decreases n,
{
    if n <= 0 {
        0
    } else {
        how_many(n - 1, has) + if has(n - 1) {
            1int
        } else {
            0
        }
    }
}

proof fn lemma_how_many_same(n: int, f: spec_fn(int) -> bool, h: spec_fn(int) -> bool)
    requires
        forall|j: int| 0 <= j < n ==> #[trigger] f(j) == h(j),
    ensures
        how_many(n, f) == how_many(n, h),
    decreases n,
{
    if n > 0 {
        lemma_how_many_same(n - 1, f, h);
        assert(f(n - 1) == h(n - 1));
    }
}

proof fn lemma_how_many_positive(n: int, f: spec_fn(int) -> bool, j: int)
    requires
        0 <= j < n,
        f(j),
    ensures
        how_many(n, f) >= 1,
    decreases n,
{
    lemma_how_many_nonneg(n - 1, f);
    if j < n - 1 {
        lemma_how_many_positive(n - 1, f, j);
    }
}

proof fn lemma_how_many_nonneg(n: int, f: spec_fn(int) -> bool)
    ensures
        how_many(n, f) >= 0,
    decreases n,
{
    if n > 0 {
        lemma_how_many_nonneg(n - 1, f);
    }
}

/// Whether an edge joins two contracts that there are.
pub open spec fn joins(g: GraphView, j: int) -> bool {
    &&& 0 <= j < g.edges.len()
    &&& 0 <= g.edges[j].from < g.nodes.len()
    &&& 0 <= g.edges[j].to < g.nodes.len()
}

/// Whether an edge joins a contract of group `k` with one that is drawn by itself because its
/// service is in focus, in either direction.
pub open spec fn edge_touches(g: GraphView, p: Parts, j: int, k: int) -> bool {
    &&& joins(g, j)
    &&& {
        ||| p.owner[g.edges[j].from] == k && p.kinds[p.owner[g.edges[j].to]] == GroupKind::Contract
        ||| p.owner[g.edges[j].to] == k && p.kinds[p.owner[g.edges[j].from]] == GroupKind::Contract
    }
}

/// Whether some edge joins group `k` with the service in focus.
pub open spec fn is_linked(g: GraphView, p: Parts, k: int) -> bool {
    exists|j: int| edge_touches(g, p, j, k)
}

/// The groups outside the service in focus that some edge joins with it.
pub open spec fn linked_groups(g: GraphView, p: Parts) -> Set<int> {
    Set::new(|k: int| 0 <= k < p.kinds.len() && p.kinds[k] != GroupKind::Contract && is_linked(g, p, k))
}

/// The groups that an edge joins, with its kind and the doubt about it.
spec fn end_of(g: GraphView, owner: Seq<int>, j: int) -> Ends {
    Ends {
        from: owner[g.edges[j].from],
        to: owner[g.edges[j].to],
        kind: topology::kind_place(g.edges[j].kind),
        doubt: topology::doubt(g.edges[j].confidence),
    }
}

/// Whether the ends of the first `n` edges are those that the edges have.
spec fn ends_match(g: GraphView, owner: Seq<int>, es: Seq<Ends>, n: int) -> bool {
    &&& forall|x: int| 0 <= x < es.len() ==> exists|j: int| 0 <= j < n && joins(g, j) && #[trigger] end_of(g, owner, j) == #[trigger] es[x]
    &&& forall|j: int| 0 <= j < n && joins(g, j) ==> es.contains(#[trigger] end_of(g, owner, j))
}

proof fn lemma_ends(g: GraphView, owner: Seq<int>, n: int)
    requires
        0 <= n <= g.edges.len(),
        owner.len() == g.nodes.len(),
    ensures
        ends_match(g, owner, topology::ends_of(g.edges.take(n), owner), n),
    decreases n,
{
    if n > 0 {
        lemma_ends(g, owner, n - 1);
        let before = g.edges.take(n - 1);
        let now = g.edges.take(n);
        assert(now.drop_last() == before);
        assert(now.last() == g.edges[n - 1]);
        let xs = topology::ends_of(before, owner);
        let es = topology::ends_of(now, owner);
        let end = end_of(g, owner, n - 1);
        if joins(g, n - 1) {
            assert(es == xs.push(end));
        } else {
            assert(es == xs);
        }
        assert forall|x: int| 0 <= x < es.len() implies exists|j: int|
            0 <= j < n && joins(g, j) && #[trigger] end_of(g, owner, j) == #[trigger] es[x] by {
            if x < xs.len() {
                assert(es[x] == xs[x]);
                let j = choose|j: int| 0 <= j < n - 1 && joins(g, j) && #[trigger] end_of(g, owner, j) == xs[x];
                assert(end_of(g, owner, j) == es[x]);
            } else {
                assert(end_of(g, owner, n - 1) == es[x]);
            }
        }
        assert forall|j: int| 0 <= j < n && joins(g, j) implies es.contains(#[trigger] end_of(g, owner, j)) by {
            if j < n - 1 {
                let x = choose|x: int| 0 <= x < xs.len() && xs[x] == end_of(g, owner, j);
                assert(es[x] == end_of(g, owner, j));
            } else {
                assert(es[xs.len() as int] == end);
            }
        }
    }
}

proof fn lemma_neighbour_found(all: Seq<Ends>, es: Seq<Ends>, kinds: Seq<GroupKind>, k: int)
    ensures
        (exists|x: int| 0 <= x < topology::neighbour_list(all, es, kinds).len() && (#[trigger] topology::neighbour_list(all, es, kinds)[x]).2
            == k) <==> (exists|y: int| 0 <= y < es.len() && topology::neighbour(#[trigger] es[y], kinds) == Some(k)),
    decreases es.len(),
{
    let list = topology::neighbour_list(all, es, kinds);
    if es.len() > 0 {
        let front = es.drop_last();
        lemma_neighbour_found(all, front, kinds, k);
        let rest = topology::neighbour_list(all, front, kinds);
        if exists|x: int| 0 <= x < list.len() && (#[trigger] list[x]).2 == k {
            let x = choose|x: int| 0 <= x < list.len() && (#[trigger] list[x]).2 == k;
            if x < rest.len() {
                assert(rest[x].2 == k);
                let y = choose|y: int| 0 <= y < front.len() && topology::neighbour(#[trigger] front[y], kinds) == Some(k);
                assert(topology::neighbour(es[y], kinds) == Some(k));
            } else {
                assert(topology::neighbour(es[es.len() - 1], kinds) == Some(k));
            }
        }
        if exists|y: int| 0 <= y < es.len() && topology::neighbour(#[trigger] es[y], kinds) == Some(k) {
            let y = choose|y: int| 0 <= y < es.len() && topology::neighbour(#[trigger] es[y], kinds) == Some(k);
            if y < front.len() {
                assert(topology::neighbour(front[y], kinds) == Some(k));
                let x = choose|x: int| 0 <= x < rest.len() && (#[trigger] rest[x]).2 == k;
                assert(list[x] == rest[x]);
                assert(list[x].2 == k);
            } else {
                assert(list[rest.len() as int].2 == k);
            }
        }
    }
}

proof fn lemma_linked(g: GraphView, lens: Lens, k: int)
    requires
        ({
            let p = topology::parts_of(g, lens);
            0 <= k < p.kinds.len() && p.kinds[k] != GroupKind::Contract
        }),
    ensures
        ({
            let p = topology::parts_of(g, lens);
            topology::neighbours(p.ends, p.kinds).contains(k) <==> is_linked(g, p, k)
        }),
{
    let p = topology::parts_of(g, lens);
    let list = topology::neighbour_list(p.ends, p.ends, p.kinds);
    let sorted = triples::sorted_set(list);
    let r = topology::neighbours(p.ends, p.kinds);
    topology_laws::law_parts_fit(g, lens);
    triples::law_sorted_set(list);
    lemma_neighbour_found(p.ends, p.ends, p.kinds, k);
    assert(g.edges.take(g.edges.len() as int) == g.edges);
    lemma_ends(g, p.owner, g.edges.len() as int);
    if r.contains(k) {
        let x = choose|x: int| 0 <= x < r.len() && r[x] == k;
        assert(sorted[x].2 == k);
        assert(sorted.contains(sorted[x]));
        assert(list.contains(sorted[x]));
        let z = choose|z: int| 0 <= z < list.len() && list[z] == sorted[x];
        assert(list[z].2 == k);
        let y = choose|y: int| 0 <= y < p.ends.len() && topology::neighbour(#[trigger] p.ends[y], p.kinds) == Some(k);
        let j = choose|j: int| 0 <= j < g.edges.len() && joins(g, j) && #[trigger] end_of(g, p.owner, j) == p.ends[y];
        assert(edge_touches(g, p, j, k));
    }
    if is_linked(g, p, k) {
        let j = choose|j: int| edge_touches(g, p, j, k);
        let end = end_of(g, p.owner, j);
        assert(p.ends.contains(end));
        let y = choose|y: int| 0 <= y < p.ends.len() && p.ends[y] == end;
        assert(topology::neighbour(p.ends[y], p.kinds) == Some(k));
        let x = choose|x: int| 0 <= x < list.len() && (#[trigger] list[x]).2 == k;
        assert(list.contains(list[x]));
        assert(sorted.contains(list[x]));
        let z = choose|z: int| 0 <= z < sorted.len() && sorted[z] == list[x];
        assert(r[z] == k);
    }
}

/// With a service in focus, and no more groups joined with it than may be drawn, a group outside
/// it is drawn by itself if and only if some edge joins one of its contracts with a contract of
/// the service, in either direction.
pub proof fn law_neighbours_on_both_sides_are_drawn(g: GraphView, lens: Lens, max_groups: int, max_contracts: int, k: int)
    requires
        lens.focus is Some,
        ({
            let p = topology::parts_of(g, lens);
            &&& 0 <= k < p.kinds.len()
            &&& p.kinds[k] != GroupKind::Contract
            &&& linked_groups(g, p).len() <= max_groups
        }),
    ensures
        ({
            let p = topology::parts_of(g, lens);
            topology::drawn(p.ends, p.owner, p.kinds, true, max_groups, max_contracts).contains(k) <==> is_linked(g, p, k)
        }),
{
    let p = topology::parts_of(g, lens);
    let all = topology::ranked(p.ends, p.owner, p.kinds.len() as int);
    let near = topology::neighbours(p.ends, p.kinds);
    let own = topology::contracts_among(all, p.kinds);
    let shown = topology::drawn(p.ends, p.owner, p.kinds, true, max_groups, max_contracts);
    topology_laws::law_parts_fit(g, lens);
    topology_laws::law_ranking_keeps_all(p.ends, p.owner, p.kinds.len() as int);
    topology_laws::lemma_neighbours(p.ends, p.kinds);
    topology_laws::lemma_contracts_among(all, p.kinds);
    topology_laws::lemma_some_of(own, max_contracts);
    lemma_neighbours_exist(p);
    assert(near.to_set() =~= linked_groups(g, p)) by {
        assert forall|h: int| near.to_set().contains(h) == linked_groups(g, p).contains(h) by {
            if 0 <= h < p.kinds.len() && p.kinds[h] != GroupKind::Contract {
                lemma_linked(g, lens, h);
            }
        }
    }
    near.unique_seq_to_set();
    assert(topology::some_of(near, max_groups) == near);
    lemma_linked(g, lens, k);
    let first = topology::some_of(own, max_contracts);
    if shown.contains(k) {
        let x = choose|x: int| 0 <= x < shown.len() && shown[x] == k;
        if x < first.len() {
            assert(first[x] == k);
            assert(first.contains(k));
            assert(false);
        } else {
            assert(near[x - first.len()] == k);
        }
    }
    if near.contains(k) {
        let x = choose|x: int| 0 <= x < near.len() && near[x] == k;
        assert(shown[first.len() + x] == k);
    }
}

proof fn lemma_neighbours_exist(p: Parts)
    requires
        topology_laws::fits(p),
    ensures
        forall|h: int| #[trigger] topology::neighbours(p.ends, p.kinds).contains(h) ==> 0 <= h < p.kinds.len(),
{
    let list = topology::neighbour_list(p.ends, p.ends, p.kinds);
    let sorted = triples::sorted_set(list);
    let near = topology::neighbours(p.ends, p.kinds);
    triples::law_sorted_set(list);
    topology_laws::lemma_neighbours_fit(p.ends, p.ends, p.kinds);
    assert forall|h: int| #[trigger] near.contains(h) implies 0 <= h < p.kinds.len() by {
        let x = choose|x: int| 0 <= x < near.len() && near[x] == h;
        assert(sorted.contains(sorted[x]));
        assert(list.contains(sorted[x]));
        let z = choose|z: int| 0 <= z < list.len() && list[z] == sorted[x];
        assert(0 <= list[z].2 < p.kinds.len());
    }
}

/// The edge in the other direction.
pub open spec fn turned(e: ContractEdgeView) -> ContractEdgeView {
    ContractEdgeView { from: e.to, to: e.from, ..e }
}

/// The graph with every edge in the other direction.
pub open spec fn turned_graph(g: GraphView) -> GraphView {
    GraphView { edges: g.edges.map_values(|e: ContractEdgeView| turned(e)), ..g }
}

spec fn turned_ends(es: Seq<Ends>) -> Seq<Ends> {
    es.map_values(|e: Ends| Ends { from: e.to, to: e.from, ..e })
}

proof fn lemma_turned_ends(edges: Seq<ContractEdgeView>, owner: Seq<int>)
    ensures
        topology::ends_of(edges.map_values(|e: ContractEdgeView| turned(e)), owner) == turned_ends(topology::ends_of(edges, owner)),
    decreases edges.len(),
{
    let other = edges.map_values(|e: ContractEdgeView| turned(e));
    if edges.len() > 0 {
        lemma_turned_ends(edges.drop_last(), owner);
        assert(other.drop_last() == edges.drop_last().map_values(|e: ContractEdgeView| turned(e)));
        assert(other.last() == turned(edges.last()));
        assert(topology::ends_of(other, owner) == turned_ends(topology::ends_of(edges, owner)));
    } else {
        assert(topology::ends_of(other, owner) == turned_ends(topology::ends_of(edges, owner)));
    }
}

proof fn lemma_turned_counts(es: Seq<Ends>, k: int)
    ensures
        topology::degree(turned_ends(es), k) == topology::degree(es, k),
        topology::inner_links(turned_ends(es), k) == topology::inner_links(es, k),
    decreases es.len(),
{
    if es.len() > 0 {
        lemma_turned_counts(es.drop_last(), k);
        assert(turned_ends(es).drop_last() == turned_ends(es.drop_last()));
    }
}

proof fn lemma_turned_neighbours(all: Seq<Ends>, es: Seq<Ends>, kinds: Seq<GroupKind>)
    ensures
        topology::neighbour_list(turned_ends(all), turned_ends(es), kinds) == topology::neighbour_list(all, es, kinds),
    decreases es.len(),
{
    if es.len() > 0 {
        lemma_turned_neighbours(all, es.drop_last(), kinds);
        assert(turned_ends(es).drop_last() == turned_ends(es.drop_last()));
        let e = es.last();
        assert(turned_ends(es).last() == (Ends { from: e.to, to: e.from, ..e }));
        assert(topology::neighbour(turned_ends(es).last(), kinds) == topology::neighbour(e, kinds));
        if topology::neighbour(e, kinds) is Some {
            lemma_turned_counts(all, topology::neighbour(e, kinds)->0);
        }
    }
}

/// Turning every edge round leaves the groups that are drawn, and what is drawn of each, as they
/// were.
pub proof fn law_direction_decides_no_group(g: GraphView, lens: Lens, max_groups: int, max_contracts: int, total_edges: int)
    ensures
        ({
            let p = topology::parts_of(g, lens);
            let q = topology::parts_of(turned_graph(g), lens);
            let a = topology::topology_of(p, max_groups, max_contracts, total_edges);
            let b = topology::topology_of(q, max_groups, max_contracts, total_edges);
            &&& topology::drawn(p.ends, p.owner, p.kinds, lens.focus is Some, max_groups, max_contracts) == topology::drawn(
                q.ends,
                q.owner,
                q.kinds,
                lens.focus is Some,
                max_groups,
                max_contracts,
            )
            &&& a.groups == b.groups
            &&& a.hidden == b.hidden
        }),
{
    let p = topology::parts_of(g, lens);
    let q = topology::parts_of(turned_graph(g), lens);
    lemma_turned_ends(g.edges, p.owner);
    assert(q.owner == p.owner && q.names == p.names && q.kinds == p.kinds && q.nodes == p.nodes);
    assert(q.ends == turned_ends(p.ends));
    let count = p.kinds.len() as int;
    assert(topology::rank_list(q.ends, q.owner, count) == topology::rank_list(p.ends, p.owner, count)) by {
        assert forall|k: int| 0 <= k < count implies topology::degree(q.ends, k) == topology::degree(p.ends, k) by {
            lemma_turned_counts(p.ends, k);
        }
    }
    lemma_turned_neighbours(p.ends, p.ends, p.kinds);
    let shown = topology::drawn(p.ends, p.owner, p.kinds, lens.focus is Some, max_groups, max_contracts);
    assert(shown == topology::drawn(q.ends, q.owner, q.kinds, lens.focus is Some, max_groups, max_contracts));
    assert forall|k: int| topology::group_view(p, k) == topology::group_view(q, k) by {
        lemma_turned_counts(p.ends, k);
    }
    let a = topology::topology_of(p, max_groups, max_contracts, total_edges);
    let b = topology::topology_of(q, max_groups, max_contracts, total_edges);
    let folded = topology::without(topology::ranked(p.ends, p.owner, p.kinds.len() as int), shown);
    let buckets = topology::kinds_among(folded, p.kinds);
    let stand = topology::stands(shown, buckets, p.kinds);
    assert forall|j: int| 0 <= j < buckets.len() implies topology::other_view(p, folded, stand, buckets[j], shown.len() + j)
        == topology::other_view(q, folded, stand, buckets[j], shown.len() + j) by {}
    assert(a.groups =~= b.groups);
    assert(folded.map_values(|k: int| (p.names[k], topology::times(p.owner, k))) =~= folded.map_values(
        |k: int| (q.names[k], topology::times(q.owner, k)),
    ));
}

/// Whether an edge is drawn from one place to another as a link of a kind.
pub open spec fn is_drawn(g: GraphView, owner: Seq<int>, stand: Seq<int>, j: int, from: int, to: int, kind: EdgeKind) -> bool {
    joins(g, j) && stand[owner[g.edges[j].from]] == from && stand[owner[g.edges[j].to]] == to && g.edges[j].kind == kind
}

/// The places that the groups of a graph have in its topology.
pub open spec fn places(p: Parts, max_groups: int, max_contracts: int) -> Seq<int> {
    let shown = topology::drawn(p.ends, p.owner, p.kinds, p.lens.focus is Some, max_groups, max_contracts);
    let folded = topology::without(topology::ranked(p.ends, p.owner, p.kinds.len() as int), shown);
    topology::stands(shown, topology::kinds_among(folded, p.kinds), p.kinds)
}

proof fn lemma_kind_places(a: EdgeKind, b: EdgeKind)
    ensures
        topology::kind_place(a) == topology::kind_place(b) <==> a == b,
        topology::kind_at(topology::kind_place(a)) == a,
{
}

proof fn lemma_weight(g: GraphView, owner: Seq<int>, stand: Seq<int>, n: int, from: int, to: int, kind: EdgeKind)
    requires
        0 <= n <= g.edges.len(),
        owner.len() == g.nodes.len(),
    ensures
        topology::weight(topology::ends_of(g.edges.take(n), owner), stand, (from, to, topology::kind_place(kind))) == how_many(
            n,
            |j: int| is_drawn(g, owner, stand, j, from, to, kind),
        ),
    decreases n,
{
    if n > 0 {
        let has = |j: int| is_drawn(g, owner, stand, j, from, to, kind);
        lemma_weight(g, owner, stand, n - 1, from, to, kind);
        let now = g.edges.take(n);
        assert(now.drop_last() == g.edges.take(n - 1));
        assert(now.last() == g.edges[n - 1]);
        let before = topology::ends_of(g.edges.take(n - 1), owner);
        let es = topology::ends_of(now, owner);
        lemma_kind_places(g.edges[n - 1].kind, kind);
        if joins(g, n - 1) {
            assert(es.drop_last() == before);
            assert(es.last() == end_of(g, owner, n - 1));
            assert(topology::is_drawn_as(es.last(), stand, (from, to, topology::kind_place(kind))) == has(n - 1));
        } else {
            assert(es == before);
        }
    } else {
        assert(g.edges.take(0) == Seq::<ContractEdgeView>::empty());
    }
}

proof fn lemma_worst(g: GraphView, owner: Seq<int>, stand: Seq<int>, n: int, from: int, to: int, kind: EdgeKind)
    requires
        0 <= n <= g.edges.len(),
        owner.len() == g.nodes.len(),
    ensures
        ({
            let w = topology::worst(topology::ends_of(g.edges.take(n), owner), stand, (from, to, topology::kind_place(kind)));
            &&& 0 <= w
            &&& forall|j: int| 0 <= j < n && #[trigger] is_drawn(g, owner, stand, j, from, to, kind) ==> topology::doubt(g.edges[j].confidence) <= w
            &&& w > 0 ==> exists|j: int|
                0 <= j < n && #[trigger] is_drawn(g, owner, stand, j, from, to, kind) && topology::doubt(g.edges[j].confidence) == w
        }),
    decreases n,
{
    if n > 0 {
        lemma_worst(g, owner, stand, n - 1, from, to, kind);
        let now = g.edges.take(n);
        assert(now.drop_last() == g.edges.take(n - 1));
        assert(now.last() == g.edges[n - 1]);
        let before = topology::ends_of(g.edges.take(n - 1), owner);
        let es = topology::ends_of(now, owner);
        lemma_kind_places(g.edges[n - 1].kind, kind);
        if joins(g, n - 1) {
            assert(es.drop_last() == before);
            assert(es.last() == end_of(g, owner, n - 1));
            assert(topology::is_drawn_as(es.last(), stand, (from, to, topology::kind_place(kind))) == is_drawn(
                g,
                owner,
                stand,
                n - 1,
                from,
                to,
                kind,
            ));
        } else {
            assert(es == before);
        }
    } else {
        assert(g.edges.take(0) == Seq::<ContractEdgeView>::empty());
    }
}

proof fn lemma_drawn_from_ends(es: Seq<Ends>, stand: Seq<int>, k: int)
    requires
        0 <= k < topology::drawn_links(es, stand).len(),
    ensures
        exists|x: int|
            0 <= x < es.len() && (stand[(#[trigger] es[x]).from], stand[es[x].to], es[x].kind) == topology::drawn_links(es, stand)[k],
    decreases es.len(),
{
    let front = es.drop_last();
    let rest = topology::drawn_links(front, stand);
    if k < rest.len() {
        lemma_drawn_from_ends(front, stand, k);
        let x = choose|x: int| 0 <= x < front.len() && (stand[(#[trigger] front[x]).from], stand[front[x].to], front[x].kind) == rest[k];
        assert(es[x] == front[x]);
    } else {
        assert(es[es.len() - 1] == es.last());
    }
}

proof fn lemma_ends_are_drawn(es: Seq<Ends>, stand: Seq<int>, x: int)
    requires
        0 <= x < es.len(),
        stand[es[x].from] != stand[es[x].to],
    ensures
        topology::drawn_links(es, stand).contains((stand[es[x].from], stand[es[x].to], es[x].kind)),
    decreases es.len(),
{
    let front = es.drop_last();
    let rest = topology::drawn_links(front, stand);
    let all = topology::drawn_links(es, stand);
    if x < front.len() {
        assert(front[x] == es[x]);
        lemma_ends_are_drawn(front, stand, x);
        let k = choose|k: int| 0 <= k < rest.len() && rest[k] == (stand[es[x].from], stand[es[x].to], es[x].kind);
        assert(all[k] == rest[k]);
    } else {
        assert(all[rest.len() as int] == (stand[es[x].from], stand[es[x].to], es[x].kind));
    }
}

/// A link stands for all edges of its kind from the contracts at its start to those at its end, and
/// counts them; it is as certain as the least certain of them.
pub proof fn law_links_count_edges(g: GraphView, lens: Lens, max_groups: int, max_contracts: int, total_edges: int, k: int)
    requires
        0 <= k < topology::topology_of(topology::parts_of(g, lens), max_groups, max_contracts, total_edges).links.len(),
    ensures
        ({
            let p = topology::parts_of(g, lens);
            let l = topology::topology_of(p, max_groups, max_contracts, total_edges).links[k];
            let stand = places(p, max_groups, max_contracts);
            &&& l.count == how_many(g.edges.len() as int, |j: int| is_drawn(g, p.owner, stand, j, l.from, l.to, l.kind))
            &&& forall|j: int| #[trigger]
                is_drawn(g, p.owner, stand, j, l.from, l.to, l.kind) ==> {
                    &&& g.edges[j].confidence == EdgeConfidence::Ambiguous ==> l.weakest == EdgeConfidence::Ambiguous
                    &&& g.edges[j].confidence == EdgeConfidence::Heuristic ==> l.weakest != EdgeConfidence::Exact
                }
            &&& exists|j: int| #[trigger] is_drawn(g, p.owner, stand, j, l.from, l.to, l.kind) && g.edges[j].confidence == l.weakest
        }),
{
    let p = topology::parts_of(g, lens);
    let t = topology::topology_of(p, max_groups, max_contracts, total_edges);
    let stand = places(p, max_groups, max_contracts);
    let l = t.links[k];
    topology_laws::law_parts_fit(g, lens);
    assert(g.edges.take(g.edges.len() as int) == g.edges);
    let raw = topology::drawn_links(p.ends, stand);
    let sorted = triples::sorted_set(raw);
    triples::law_sorted_set(raw);
    assert(sorted.contains(sorted[k]));
    assert(raw.contains(sorted[k]));
    let z = choose|z: int| 0 <= z < raw.len() && raw[z] == sorted[k];
    lemma_drawn_from_ends(p.ends, stand, z);
    let x = choose|x: int| 0 <= x < p.ends.len() && (stand[(#[trigger] p.ends[x]).from], stand[p.ends[x].to], p.ends[x].kind) == raw[z];
    lemma_ends(g, p.owner, g.edges.len() as int);
    let j = choose|j: int| 0 <= j < g.edges.len() && joins(g, j) && #[trigger] end_of(g, p.owner, j) == p.ends[x];
    lemma_kind_places(g.edges[j].kind, l.kind);
    assert(sorted[k] == (l.from, l.to, topology::kind_place(g.edges[j].kind)));
    assert(l.kind == g.edges[j].kind);
    assert(is_drawn(g, p.owner, stand, j, l.from, l.to, l.kind));
    lemma_weight(g, p.owner, stand, g.edges.len() as int, l.from, l.to, l.kind);
    lemma_worst(g, p.owner, stand, g.edges.len() as int, l.from, l.to, l.kind);
    let w = topology::worst(p.ends, stand, (l.from, l.to, topology::kind_place(l.kind)));
    assert(l.weakest == topology::confidence_of(w));
    if w > 0 {
        let m = choose|m: int|
            0 <= m < g.edges.len() && #[trigger] is_drawn(g, p.owner, stand, m, l.from, l.to, l.kind) && topology::doubt(
                g.edges[m].confidence,
            ) == w;
        assert(g.edges[m].confidence == l.weakest);
    } else {
        assert(topology::doubt(g.edges[j].confidence) <= w);
        assert(g.edges[j].confidence == l.weakest);
    }
}

/// Every edge between contracts that stand at different places is part of a link between these
/// places.
pub proof fn law_every_edge_is_linked(g: GraphView, lens: Lens, max_groups: int, max_contracts: int, total_edges: int, j: int)
    requires
        joins(g, j),
        ({
            let p = topology::parts_of(g, lens);
            let stand = places(p, max_groups, max_contracts);
            stand[p.owner[g.edges[j].from]] != stand[p.owner[g.edges[j].to]]
        }),
    ensures
        ({
            let p = topology::parts_of(g, lens);
            let stand = places(p, max_groups, max_contracts);
            let links = topology::topology_of(p, max_groups, max_contracts, total_edges).links;
            exists|k: int|
                0 <= k < links.len() && (#[trigger] links[k]).from == stand[p.owner[g.edges[j].from]] && links[k].to
                    == stand[p.owner[g.edges[j].to]] && links[k].kind == g.edges[j].kind
        }),
{
    let p = topology::parts_of(g, lens);
    let stand = places(p, max_groups, max_contracts);
    let t = topology::topology_of(p, max_groups, max_contracts, total_edges);
    topology_laws::law_parts_fit(g, lens);
    assert(g.edges.take(g.edges.len() as int) == g.edges);
    lemma_ends(g, p.owner, g.edges.len() as int);
    let end = end_of(g, p.owner, j);
    assert(p.ends.contains(end));
    let x = choose|x: int| 0 <= x < p.ends.len() && p.ends[x] == end;
    lemma_ends_are_drawn(p.ends, stand, x);
    let raw = topology::drawn_links(p.ends, stand);
    let sorted = triples::sorted_set(raw);
    triples::law_sorted_set(raw);
    let l = (stand[end.from], stand[end.to], end.kind);
    assert(sorted.contains(l));
    let k = choose|k: int| 0 <= k < sorted.len() && sorted[k] == l;
    lemma_kind_places(g.edges[j].kind, g.edges[j].kind);
    assert(t.links[k].from == l.0 && t.links[k].to == l.1 && t.links[k].kind == g.edges[j].kind);
}

/// The word for a contract of a kind.
pub open spec fn label(kind: NodeKind) -> Seq<char> {
    match kind {
        NodeKind::HttpEndpoint => "HTTP"@,
        NodeKind::ServiceClass => "class"@,
        NodeKind::GrpcMethod => "gRPC method"@,
        NodeKind::GrpcService => "gRPC service"@,
        NodeKind::Interface => "interface"@,
        NodeKind::ProtoMessage => "message"@,
        NodeKind::PostProcessor => "post-processor"@,
        NodeKind::Saga => "saga"@,
        NodeKind::KafkaTopic => "topic"@,
        NodeKind::EventStream => "topic"@,
        NodeKind::Queue => "topic"@,
    }
}

/// Whether contracts of two kinds are counted together.
pub open spec fn counted_alike(a: NodeKind, b: NodeKind) -> bool {
    a == b || (a == NodeKind::KafkaTopic || a == NodeKind::EventStream || a == NodeKind::Queue) && (b == NodeKind::KafkaTopic || b
        == NodeKind::EventStream || b == NodeKind::Queue)
}

proof fn lemma_labelled(nodes: Seq<ContractNodeView>, owner: Seq<int>, k: int, kind: NodeKind, n: int)
    ensures
        topology::labelled(nodes, owner, k, topology::label_rank(kind), n) == how_many(
            n,
            |x: int| owner[x] == k && counted_alike(nodes[x].kind, kind),
        ),
    decreases n,
{
    if n > 0 {
        lemma_labelled(nodes, owner, k, kind, n - 1);
        assert((topology::label_rank(nodes[n - 1].kind) == topology::label_rank(kind)) == counted_alike(nodes[n - 1].kind, kind));
    }
}

proof fn lemma_counts(nodes: Seq<ContractNodeView>, owner: Seq<int>, k: int, rank: int, n: int)
    requires
        0 <= rank < n,
        topology::labelled(nodes, owner, k, rank, nodes.len() as int) > 0,
    ensures
        topology::counts_of(nodes, owner, k, n).contains(
            (topology::label_at(rank), topology::labelled(nodes, owner, k, rank, nodes.len() as int)),
        ),
    decreases n,
{
    let rest = topology::counts_of(nodes, owner, k, n - 1);
    let all = topology::counts_of(nodes, owner, k, n);
    let entry = (topology::label_at(rank), topology::labelled(nodes, owner, k, rank, nodes.len() as int));
    if rank < n - 1 {
        lemma_counts(nodes, owner, k, rank, n - 1);
        let m = choose|m: int| 0 <= m < rest.len() && rest[m] == entry;
        assert(all[m] == rest[m]);
    } else {
        assert(all[rest.len() as int] == entry);
    }
}

proof fn lemma_times(owner: Seq<int>, k: int)
    ensures
        topology::times(owner, k) == how_many(owner.len() as int, |x: int| owner[x] == k),
    decreases owner.len(),
{
    if owner.len() > 0 {
        let front = owner.drop_last();
        lemma_times(front, k);
        lemma_how_many_same(front.len() as int, |x: int| front[x] == k, |x: int| owner[x] == k);
    }
}

/// A group tells how many contracts it has, and how many of each kind, under a word for the kind;
/// topics, streams and queues are counted together.
pub proof fn law_groups_count_their_contracts(g: GraphView, lens: Lens, i: int)
    requires
        0 <= i < g.nodes.len(),
    ensures
        ({
            let p = topology::parts_of(g, lens);
            let k = p.owner[i];
            let view = topology::group_view(p, k);
            &&& view.contracts == how_many(p.owner.len() as int, |x: int| p.owner[x] == k)
            &&& p.kinds[k] != GroupKind::Contract ==> view.by_kind.contains(
                (
                    label(g.nodes[i].kind),
                    how_many(g.nodes.len() as int, |x: int| p.owner[x] == k && counted_alike(g.nodes[x].kind, g.nodes[i].kind)),
                ),
            )
            &&& view.name == p.names[k] && view.kind == p.kinds[k] && view.folded == 0
        }),
{
    let p = topology::parts_of(g, lens);
    let k = p.owner[i];
    let kind = g.nodes[i].kind;
    topology_laws::law_parts_fit(g, lens);
    lemma_times(p.owner, k);
    let has = |x: int| p.owner[x] == k && counted_alike(g.nodes[x].kind, kind);
    lemma_labelled(g.nodes, p.owner, k, kind, g.nodes.len() as int);
    assert(has(i));
    lemma_how_many_positive(g.nodes.len() as int, has, i);
    let rank = topology::label_rank(kind);
    assert(topology::label_at(rank) == label(kind));
    lemma_counts(g.nodes, p.owner, k, rank, 9);
}

/// A contract outside the focus belongs to the group of its topic if it is a topic, stream or queue
/// of no repository; else to the service named after its repository, where contracts are grouped so,
/// or after its package, or `shared` if it has none.
pub proof fn law_contracts_belong_to_services(g: GraphView, lens: Lens, i: int)
    requires
        0 <= i < g.nodes.len(),
        !topology::in_focus(g.nodes[i], lens),
    ensures
        ({
            let p = topology::parts_of(g, lens);
            let n = g.nodes[i];
            let k = p.owner[i];
            let is_hub = n.repo_id == u32::MAX && (n.kind == NodeKind::EventStream || n.kind == NodeKind::KafkaTopic || n.kind
                == NodeKind::Queue);
            let by_root = lens.by_root && n.repo_id < lens.repos.len();
            &&& is_hub ==> p.names[k] == n.name && p.kinds[k] == GroupKind::Topic
            &&& !is_hub ==> p.kinds[k] == GroupKind::Service
            &&& !is_hub && by_root ==> p.names[k] == lens.repos[n.repo_id as int]
            &&& !is_hub && !by_root && n.package.len() == 0 ==> p.names[k] == "shared"@
            &&& !is_hub && !by_root && n.package.len() > 0 ==> p.names[k] == n.package
        }),
{
    let p = topology::parts_of(g, lens);
    let k = p.owner[i];
    topology::law_every_contract_has_a_group(g.nodes, lens);
    topology_laws::law_parts_fit(g, lens);
    topology_laws::lemma_first(p.owner, k, 0);
    let f = topology::first_from(p.owner, k, 0);
    assert(f <= i);
    assert(p.owner[f] == k);
    assert(topology::owners(g.nodes, lens)[f] == topology::owners(g.nodes, lens)[i]);
    let a = topology::key_of(g.nodes[f], lens);
    let b = topology::key_of(g.nodes[i], lens);
    assert(a == b);
    reveal_strlit("0");
    reveal_strlit("1");
    reveal_strlit("2");
    reveal_strlit("3");
    let (name, kind) = topology::service_of(g.nodes[i], lens.repos, lens.by_root);
    assert(b[0] == kind.digit()[0]);
    assert(b.skip(1) == name);
    if topology::in_focus(g.nodes[f], lens) {
        assert(a[0] == '3');
        assert(false);
    }
    let (name2, kind2) = topology::service_of(g.nodes[f], lens.repos, lens.by_root);
    assert(a[0] == kind2.digit()[0]);
    assert(a.skip(1) == name2);
    assert(name2 == name);
    assert(kind2 == kind);
}

/// Whether an edge leads from a group to another or to it from another.
pub open spec fn edge_crosses(g: GraphView, owner: Seq<int>, j: int, k: int) -> bool {
    joins(g, j) && owner[g.edges[j].from] != owner[g.edges[j].to] && (owner[g.edges[j].from] == k || owner[g.edges[j].to] == k)
}

/// How many edges lead from a group to others or to it from others.
pub open spec fn crossings(g: GraphView, owner: Seq<int>, k: int) -> int {
    how_many(g.edges.len() as int, |j: int| edge_crosses(g, owner, j, k))
}

/// How many contracts belong to a group.
pub open spec fn size(owner: Seq<int>, k: int) -> int {
    how_many(owner.len() as int, |x: int| belongs(owner, x, k))
}

/// Whether a contract belongs to a group.
pub open spec fn belongs(owner: Seq<int>, x: int, k: int) -> bool {
    owner[x] == k
}

proof fn lemma_size_below(owner: Seq<int>, n: int, k: int)
    requires
        0 <= n <= owner.len(),
    ensures
        topology::times(owner.take(n), k) == how_many(n, |x: int| belongs(owner, x, k)),
    decreases n,
{
    if n > 0 {
        lemma_size_below(owner, n - 1, k);
        assert(owner.take(n).drop_last() == owner.take(n - 1));
        assert(owner.take(n).last() == owner[n - 1]);
    }
}

proof fn lemma_size(owner: Seq<int>, k: int)
    ensures
        topology::times(owner, k) == size(owner, k),
{
    assert(owner.take(owner.len() as int) == owner);
    lemma_size_below(owner, owner.len() as int, k);
}

proof fn lemma_degree(g: GraphView, owner: Seq<int>, n: int, k: int)
    requires
        0 <= n <= g.edges.len(),
        owner.len() == g.nodes.len(),
    ensures
        topology::degree(topology::ends_of(g.edges.take(n), owner), k) == how_many(n, |j: int| edge_crosses(g, owner, j, k)),
    decreases n,
{
    if n > 0 {
        let has = |j: int| edge_crosses(g, owner, j, k);
        lemma_degree(g, owner, n - 1, k);
        let now = g.edges.take(n);
        assert(now.drop_last() == g.edges.take(n - 1));
        assert(now.last() == g.edges[n - 1]);
        let before = topology::ends_of(g.edges.take(n - 1), owner);
        let es = topology::ends_of(now, owner);
        if joins(g, n - 1) {
            assert(es.drop_last() == before);
            assert(es.last() == end_of(g, owner, n - 1));
        } else {
            assert(es == before);
        }
        assert(has(n - 1) == edge_crosses(g, owner, n - 1, k));
    } else {
        assert(g.edges.take(0) == Seq::<ContractEdgeView>::empty());
    }
}

/// Whether a group comes before another: by more edges to others, then by more contracts, then by
/// its place among the groups.
pub open spec fn comes_before(g: GraphView, owner: Seq<int>, a: int, b: int) -> bool {
    ||| crossings(g, owner, a) > crossings(g, owner, b)
    ||| crossings(g, owner, a) == crossings(g, owner, b) && size(owner, a) > size(owner, b)
    ||| crossings(g, owner, a) == crossings(g, owner, b) && size(owner, a) == size(owner, b) && a < b
}

proof fn lemma_ranked(g: GraphView, lens: Lens, i: int, j: int)
    requires
        ({
            let p = topology::parts_of(g, lens);
            0 <= i < j < topology::ranked(p.ends, p.owner, p.kinds.len() as int).len()
        }),
    ensures
        ({
            let p = topology::parts_of(g, lens);
            let r = topology::ranked(p.ends, p.owner, p.kinds.len() as int);
            comes_before(g, p.owner, r[i], r[j])
        }),
{
    let p = topology::parts_of(g, lens);
    let count = p.kinds.len() as int;
    let list = topology::rank_list(p.ends, p.owner, count);
    let sorted = triples::sorted_set(list);
    let r = topology::ranked(p.ends, p.owner, count);
    topology_laws::law_parts_fit(g, lens);
    triples::law_sorted_set(list);
    assert(triples::less(sorted[i], sorted[j]));
    assert(g.edges.take(g.edges.len() as int) == g.edges);
    assert(sorted.contains(sorted[i]) && sorted.contains(sorted[j]));
    assert(list.contains(sorted[i]) && list.contains(sorted[j]));
    let x = choose|x: int| 0 <= x < list.len() && list[x] == sorted[i];
    let y = choose|y: int| 0 <= y < list.len() && list[y] == sorted[j];
    assert(r[i] == x && r[j] == y);
    lemma_degree(g, p.owner, g.edges.len() as int, x);
    lemma_degree(g, p.owner, g.edges.len() as int, y);
    lemma_size(p.owner, x);
    lemma_size(p.owner, y);
    assert(p.ends == topology::ends_of(g.edges, p.owner));
    assert(topology::degree(p.ends, x) == crossings(g, p.owner, x));
    assert(topology::degree(p.ends, y) == crossings(g, p.owner, y));
    assert(topology::times(p.owner, x) == size(p.owner, x));
    assert(topology::times(p.owner, y) == size(p.owner, y));
    assert(list[x] == (-topology::degree(p.ends, x), -topology::times(p.owner, x), x));
    assert(list[y] == (-topology::degree(p.ends, y), -topology::times(p.owner, y), y));
}

/// Without a focus the groups are drawn that have most edges to others, as many as may be, the
/// busiest first: a drawn group comes before one that is drawn later, and before every one that is
/// not drawn.
pub proof fn law_busiest_groups_are_drawn(g: GraphView, lens: Lens, max_groups: int, max_contracts: int, i: int, h: int)
    requires
        lens.focus is None,
        max_groups >= 1,
        ({
            let p = topology::parts_of(g, lens);
            let shown = topology::drawn(p.ends, p.owner, p.kinds, false, max_groups, max_contracts);
            &&& 0 <= i < shown.len()
            &&& 0 <= h < p.kinds.len()
            &&& !shown.take(i + 1).contains(h)
        }),
    ensures
        ({
            let p = topology::parts_of(g, lens);
            let shown = topology::drawn(p.ends, p.owner, p.kinds, false, max_groups, max_contracts);
            &&& comes_before(g, p.owner, shown[i], h)
            &&& shown.len() == max_groups || shown.len() == p.kinds.len()
        }),
{
    let p = topology::parts_of(g, lens);
    let count = p.kinds.len() as int;
    let r = topology::ranked(p.ends, p.owner, count);
    let shown = topology::drawn(p.ends, p.owner, p.kinds, false, max_groups, max_contracts);
    topology_laws::law_ranking_keeps_all(p.ends, p.owner, count);
    assert(r.contains(h));
    let y = choose|y: int| 0 <= y < r.len() && r[y] == h;
    assert(shown[i] == r[i]);
    if y <= i {
        assert(shown.take(i + 1)[y] == h);
    }
    lemma_ranked(g, lens, i, y);
}

/// Groups that are not drawn by themselves are folded into one for each kind, which says so: other
/// topics, other services, or other contracts of the service in focus. A topology tells whether it
/// is by repository or by package.
pub proof fn law_other_groups_are_named(p: Parts, max_groups: int, max_contracts: int, total_edges: int, b: int)
    requires
        ({
            let shown = topology::drawn(p.ends, p.owner, p.kinds, p.lens.focus is Some, max_groups, max_contracts);
            let folded = topology::without(topology::ranked(p.ends, p.owner, p.kinds.len() as int), shown);
            0 <= b < topology::kinds_among(folded, p.kinds).len()
        }),
    ensures
        ({
            let t = topology::topology_of(p, max_groups, max_contracts, total_edges);
            let shown = topology::drawn(p.ends, p.owner, p.kinds, p.lens.focus is Some, max_groups, max_contracts);
            let folded = topology::without(topology::ranked(p.ends, p.owner, p.kinds.len() as int), shown);
            let kind = topology::kinds_among(folded, p.kinds)[b];
            let group = t.groups[shown.len() + b];
            &&& group.kind == GroupKind::Other
            &&& kind == GroupKind::Topic ==> group.name == "other topics"@
            &&& kind == GroupKind::Service ==> group.name == "other services"@
            &&& p.lens.focus matches Some(f) ==> kind == GroupKind::Contract ==> group.name == "other "@ + f + " contracts"@
            &&& p.lens.by_root ==> t.grouping == "root"@
            &&& !p.lens.by_root ==> t.grouping == "package"@
            &&& t.total_contracts == p.nodes.len() && t.total_groups == p.kinds.len() && t.total_edges == total_edges && t.focus
                == p.lens.focus
        }),
{
}

proof fn lemma_services_named(nodes: Seq<ContractNodeView>, repos: Seq<Seq<char>>, by_root: bool, wanted: Seq<char>, name: Seq<char>)
    ensures
        topology::services_named(nodes, repos, by_root, wanted).contains(name) <==> text::lowered(name) == text::lowered(wanted) && exists|i: int|
            0 <= i < nodes.len() && #[trigger] topology::service_of(nodes[i], repos, by_root) == (name, GroupKind::Service),
    decreases nodes.len(),
{
    let all = topology::services_named(nodes, repos, by_root, wanted);
    if nodes.len() > 0 {
        let front = nodes.drop_last();
        lemma_services_named(front, repos, by_root, wanted, name);
        let rest = topology::services_named(front, repos, by_root, wanted);
        let last = topology::service_of(nodes.last(), repos, by_root);
        if all.contains(name) {
            let k = choose|k: int| 0 <= k < all.len() && all[k] == name;
            if k < rest.len() {
                assert(rest[k] == name);
                let i = choose|i: int| 0 <= i < front.len() && #[trigger] topology::service_of(front[i], repos, by_root) == (name, GroupKind::Service);
                assert(nodes[i] == front[i]);
                assert(topology::service_of(nodes[i], repos, by_root) == (name, GroupKind::Service));
            } else {
                assert(topology::service_of(nodes[nodes.len() - 1], repos, by_root) == (name, GroupKind::Service));
            }
        }
        if text::lowered(name) == text::lowered(wanted) && exists|i: int|
            0 <= i < nodes.len() && #[trigger] topology::service_of(nodes[i], repos, by_root) == (name, GroupKind::Service) {
            let i = choose|i: int| 0 <= i < nodes.len() && #[trigger] topology::service_of(nodes[i], repos, by_root) == (name, GroupKind::Service);
            if i < front.len() {
                assert(topology::service_of(front[i], repos, by_root) == (name, GroupKind::Service));
                let k = choose|k: int| 0 <= k < rest.len() && rest[k] == name;
                assert(all[k] == name);
            } else {
                assert(all[rest.len() as int] == name);
            }
        }
    }
}

/// The focus is a service that there is, of the wanted name whatever the case of its letters, the
/// first by name if there are several; there is none exactly if none was wanted or no service has
/// the name.
pub proof fn law_focus_is_a_service(nodes: Seq<ContractNodeView>, repos: Seq<Seq<char>>, by_root: bool, wanted: Option<Seq<char>>, name: Seq<char>)
    ensures
        wanted is None ==> topology::focus_of(nodes, repos, by_root, wanted) is None,
        wanted matches Some(w) ==> {
            let focus = topology::focus_of(nodes, repos, by_root, wanted);
            let names = topology::services_named(nodes, repos, by_root, w);
            &&& focus matches Some(f) ==> text::lowered(f) == text::lowered(w) && exists|i: int|
                0 <= i < nodes.len() && #[trigger] topology::service_of(nodes[i], repos, by_root) == (f, GroupKind::Service)
            &&& text::lowered(name) == text::lowered(w) && (exists|i: int|
                0 <= i < nodes.len() && #[trigger] topology::service_of(nodes[i], repos, by_root) == (name, GroupKind::Service)) ==> (focus matches Some(f)
                && (f == name || order::before(f, name)))
        },
{
    if wanted is Some {
        let w = wanted->0;
        let raw = topology::services_named(nodes, repos, by_root, w);
        let names = order::sorted_set(raw);
        order::law_sorted_set(raw);
        lemma_services_named(nodes, repos, by_root, w, name);
        if names.len() > 0 {
            assert(names.contains(names[0]));
            lemma_services_named(nodes, repos, by_root, w, names[0]);
        }
        if raw.contains(name) {
            assert(names.contains(name));
            let k = choose|k: int| 0 <= k < names.len() && names[k] == name;
            if k > 0 {
                assert(order::before(names[0], names[k]));
            }
        }
    }
}

/// Contracts are grouped by repository exactly if contracts of at least two known repositories are
/// among them, leaving out topics, streams and queues of no repository.
pub proof fn law_grouping_by_repository(nodes: Seq<ContractNodeView>, repos: int)
    ensures
        topology::many_roots(nodes, repos) <==> exists|i: int, j: int|
            #![trigger nodes[i], nodes[j]]
            0 <= i < nodes.len() && 0 <= j < nodes.len() && nodes[i].repo_id < repos && nodes[j].repo_id < repos && nodes[i].repo_id
                != nodes[j].repo_id && !(nodes[i].repo_id == u32::MAX && (nodes[i].kind == NodeKind::EventStream || nodes[i].kind
                == NodeKind::KafkaTopic || nodes[i].kind == NodeKind::Queue)) && !(nodes[j].repo_id == u32::MAX && (nodes[j].kind
                == NodeKind::EventStream || nodes[j].kind == NodeKind::KafkaTopic || nodes[j].kind == NodeKind::Queue)),
{
    if topology::many_roots(nodes, repos) {
        let (i, j) = choose|i: int, j: int|
            0 <= i < nodes.len() && 0 <= j < nodes.len() && topology::is_rooted(#[trigger] nodes[i], repos) && topology::is_rooted(
                #[trigger] nodes[j],
                repos,
            ) && nodes[i].repo_id != nodes[j].repo_id;
        assert(nodes[i].repo_id != nodes[j].repo_id);
    }
}

/// A contract of the service in focus is drawn by itself, under its name and the word for its kind
/// in square brackets.
pub proof fn law_focused_contracts_are_named(g: GraphView, lens: Lens, i: int)
    requires
        0 <= i < g.nodes.len(),
        topology::in_focus(g.nodes[i], lens),
        forall|j: int| 0 <= j < i ==> #[trigger] topology::parts_of(g, lens).owner[j] != topology::parts_of(g, lens).owner[i],
    ensures
        ({
            let p = topology::parts_of(g, lens);
            &&& p.kinds[p.owner[i]] == GroupKind::Contract
            &&& p.names[p.owner[i]] == g.nodes[i].name + (" ["@ + label(g.nodes[i].kind) + "]"@)
        }),
{
    let p = topology::parts_of(g, lens);
    let k = p.owner[i];
    topology_laws::law_parts_fit(g, lens);
    topology_laws::lemma_first(p.owner, k, 0);
    let f = topology::first_from(p.owner, k, 0);
    assert(f <= i);
    assert(p.owner[f] == k);
    assert(f == i);
    assert(topology::label_at(topology::label_rank(g.nodes[i].kind)) == label(g.nodes[i].kind));
}

} // verus!
