//! The topology of services: contracts folded into the services that they belong to.
use vstd::prelude::*;
use crate::contracts;
use crate::contracts::{ContractEdge, ContractEdgeView, ContractGraph, EdgeConfidence, EdgeKind, GraphView};
use crate::model;
use crate::model::{ContractNode, ContractNodeView, NodeKind, RepoId};
use crate::numbers;
use crate::order;
use crate::syntax;
use crate::text;
use crate::triples;
use crate::triples::Triple;

verus! {

/// What a group of the topology stands for.
#[derive(Clone, Copy, Debug, PartialEq, Eq, PartialOrd, Ord, Hash, Structural)]
pub enum GroupKind {
    Service,
    Topic,
    /// The groups that are not drawn by themselves.
    Other,
    /// One contract of the service in focus.
    Contract,
}

impl GroupKind {
    /// The kind's place among the kinds, as a digit.
    pub open spec fn digit(self) -> Seq<char> {
        match self {
            GroupKind::Service => "0"@,
            GroupKind::Topic => "1"@,
            GroupKind::Other => "2"@,
            GroupKind::Contract => "3"@,
        }
    }

    /// The kind's place among the kinds, as a digit.
    fn digit_text(self) -> (r: &'static str)
        ensures
            r@ == self.digit(),
    {
        match self {
            GroupKind::Service => "0",
            GroupKind::Topic => "1",
            GroupKind::Other => "2",
            GroupKind::Contract => "3",
        }
    }
}

/// A group of contracts.
#[derive(Clone, Debug)]
pub struct Group {
    pub name: String,
    pub kind: GroupKind,
    /// The contracts in the group.
    pub contracts: usize,
    /// How many of them there are of each kind, sorted by the kinds' labels.
    pub by_kind: Vec<(&'static str, usize)>,
    /// The links between two contracts of the group.
    pub internal_edges: usize,
    /// The groups that are folded into this one.
    pub folded: usize,
}

/// A group of contracts, as a mathematical value.
#[verifier::ext_equal]
pub struct GroupView {
    pub name: Seq<char>,
    pub kind: GroupKind,
    pub contracts: int,
    pub by_kind: Seq<(Seq<char>, int)>,
    pub internal_edges: int,
    pub folded: int,
}

/// Counts by label, as mathematical values.
pub open spec fn counts_view(v: Seq<(&'static str, usize)>) -> Seq<(Seq<char>, int)> {
    v.map_values(|c: (&'static str, usize)| (c.0@, c.1 as int))
}

impl View for Group {
    type V = GroupView;

    open spec fn view(&self) -> GroupView {
        GroupView {
            name: self.name@,
            kind: self.kind,
            contracts: self.contracts as int,
            by_kind: counts_view(self.by_kind@),
            internal_edges: self.internal_edges as int,
            folded: self.folded as int,
        }
    }
}

/// Groups, each by its view.
pub open spec fn groups_view(v: Seq<Group>) -> Seq<GroupView> {
    v.map_values(|g: Group| g@)
}

/// The links of a kind from one group to another, folded into one.
#[derive(Clone, Debug)]
pub struct Link {
    pub from: usize,
    pub to: usize,
    pub kind: EdgeKind,
    pub count: usize,
    /// The least sure of the links.
    pub weakest: EdgeConfidence,
}

/// A folded link, as a mathematical value.
#[verifier::ext_equal]
pub struct LinkView {
    pub from: int,
    pub to: int,
    pub kind: EdgeKind,
    pub count: int,
    pub weakest: EdgeConfidence,
}

impl View for Link {
    type V = LinkView;

    open spec fn view(&self) -> LinkView {
        LinkView {
            from: self.from as int,
            to: self.to as int,
            kind: self.kind,
            count: self.count as int,
            weakest: self.weakest,
        }
    }
}

/// Folded links, each by its view.
pub open spec fn folded_links_view(v: Seq<Link>) -> Seq<LinkView> {
    v.map_values(|l: Link| l@)
}

/// How much of the topology is drawn.
#[derive(Clone, Debug)]
pub struct TopologyOptions {
    /// The services and topics that are drawn before the rest is folded.
    pub max_groups: usize,
    /// The contracts of the service in focus that are drawn.
    pub max_focus_contracts: usize,
    /// The service that is drawn contract by contract, in any case.
    pub focus: Option<String>,
}

impl Default for TopologyOptions {
    fn default() -> (r: TopologyOptions)
        ensures
            r.max_groups == 40,
            r.max_focus_contracts == 40,
            r.focus is None,
    {
        TopologyOptions { max_groups: 40, max_focus_contracts: 40, focus: None }
    }
}

/// The place of a kind's label among the sorted labels.
pub open spec fn label_rank(kind: NodeKind) -> int {
    match kind {
        NodeKind::HttpEndpoint => 0,
        NodeKind::ServiceClass => 1,
        NodeKind::GrpcMethod => 2,
        NodeKind::GrpcService => 3,
        NodeKind::Interface => 4,
        NodeKind::ProtoMessage => 5,
        NodeKind::PostProcessor => 6,
        NodeKind::Saga => 7,
        NodeKind::KafkaTopic => 8,
        NodeKind::EventStream => 8,
        NodeKind::Queue => 8,
    }
}

/// The label at a place among the sorted labels.
pub open spec fn label_at(rank: int) -> Seq<char> {
    if rank == 0 {
        "HTTP"@
    } else if rank == 1 {
        "class"@
    } else if rank == 2 {
        "gRPC method"@
    } else if rank == 3 {
        "gRPC service"@
    } else if rank == 4 {
        "interface"@
    } else if rank == 5 {
        "message"@
    } else if rank == 6 {
        "post-processor"@
    } else if rank == 7 {
        "saga"@
    } else {
        "topic"@
    }
}

fn rank_of(kind: NodeKind) -> (r: usize)
    ensures
        r == label_rank(kind),
        r < 9,
{
    match kind {
        NodeKind::HttpEndpoint => 0,
        NodeKind::ServiceClass => 1,
        NodeKind::GrpcMethod => 2,
        NodeKind::GrpcService => 3,
        NodeKind::Interface => 4,
        NodeKind::ProtoMessage => 5,
        NodeKind::PostProcessor => 6,
        NodeKind::Saga => 7,
        NodeKind::KafkaTopic => 8,
        NodeKind::EventStream => 8,
        NodeKind::Queue => 8,
    }
}

fn label_of(rank: usize) -> (r: &'static str)
    ensures
        r@ == label_at(rank as int),
{
    if rank == 0 {
        "HTTP"
    } else if rank == 1 {
        "class"
    } else if rank == 2 {
        "gRPC method"
    } else if rank == 3 {
        "gRPC service"
    } else if rank == 4 {
        "interface"
    } else if rank == 5 {
        "message"
    } else if rank == 6 {
        "post-processor"
    } else if rank == 7 {
        "saga"
    } else {
        "topic"
    }
}

/// The labels of kinds are sorted.
pub proof fn law_labels_are_sorted(a: int, b: int)
    requires
        0 <= a < b < 9,
    ensures
        order::before(label_at(a), label_at(b)),
{
    reveal_strlit("HTTP");
    reveal_strlit("class");
    reveal_strlit("gRPC method");
    reveal_strlit("gRPC service");
    reveal_strlit("interface");
    reveal_strlit("message");
    reveal_strlit("post-processor");
    reveal_strlit("saga");
    reveal_strlit("topic");
    if a == 2 && b == 3 {
        reveal_with_fuel(order::before, 7);
    }
}

/// The place of a link's kind among the kinds.
pub open spec fn kind_place(kind: EdgeKind) -> int {
    match kind {
        EdgeKind::Produces => 0,
        EdgeKind::Consumes => 1,
        EdgeKind::CallsRpc => 2,
        EdgeKind::Implements => 3,
        EdgeKind::Imports => 4,
        EdgeKind::DispatchesTo => 5,
    }
}

/// The kind of link at a place among the kinds.
pub open spec fn kind_at(place: int) -> EdgeKind {
    if place == 0 {
        EdgeKind::Produces
    } else if place == 1 {
        EdgeKind::Consumes
    } else if place == 2 {
        EdgeKind::CallsRpc
    } else if place == 3 {
        EdgeKind::Implements
    } else if place == 4 {
        EdgeKind::Imports
    } else {
        EdgeKind::DispatchesTo
    }
}

fn place_of_kind(kind: EdgeKind) -> (r: usize)
    ensures
        r == kind_place(kind),
{
    match kind {
        EdgeKind::Produces => 0,
        EdgeKind::Consumes => 1,
        EdgeKind::CallsRpc => 2,
        EdgeKind::Implements => 3,
        EdgeKind::Imports => 4,
        EdgeKind::DispatchesTo => 5,
    }
}

fn kind_of_place(place: i128) -> (r: EdgeKind)
    ensures
        r == kind_at(place as int),
{
    if place == 0 {
        EdgeKind::Produces
    } else if place == 1 {
        EdgeKind::Consumes
    } else if place == 2 {
        EdgeKind::CallsRpc
    } else if place == 3 {
        EdgeKind::Implements
    } else if place == 4 {
        EdgeKind::Imports
    } else {
        EdgeKind::DispatchesTo
    }
}

/// How unsure a link is.
pub open spec fn doubt(c: EdgeConfidence) -> int {
    match c {
        EdgeConfidence::Exact => 0,
        EdgeConfidence::Heuristic => 1,
        EdgeConfidence::Ambiguous => 2,
    }
}

/// How sure a link of some doubt is.
pub open spec fn confidence_of(doubt: int) -> EdgeConfidence {
    if doubt <= 0 {
        EdgeConfidence::Exact
    } else if doubt == 1 {
        EdgeConfidence::Heuristic
    } else {
        EdgeConfidence::Ambiguous
    }
}

fn doubt_of(c: EdgeConfidence) -> (r: usize)
    ensures
        r == doubt(c),
{
    match c {
        EdgeConfidence::Exact => 0,
        EdgeConfidence::Heuristic => 1,
        EdgeConfidence::Ambiguous => 2,
    }
}

fn confidence(doubt: usize) -> (r: EdgeConfidence)
    ensures
        r == confidence_of(doubt as int),
{
    if doubt == 0 {
        EdgeConfidence::Exact
    } else if doubt == 1 {
        EdgeConfidence::Heuristic
    } else {
        EdgeConfidence::Ambiguous
    }
}

/// Whether a contract is a topic that no repository owns.
pub open spec fn is_hub(n: ContractNodeView) -> bool {
    n.repo_id == u32::MAX && (n.kind == NodeKind::EventStream || n.kind == NodeKind::KafkaTopic || n.kind == NodeKind::Queue)
}

fn is_topic_hub(n: &ContractNode) -> (r: bool)
    ensures
        r == is_hub(n@),
{
    n.repo_id == u32::MAX && (n.kind == NodeKind::EventStream || n.kind == NodeKind::KafkaTopic || n.kind == NodeKind::Queue)
}

/// Whether a contract belongs to one of the repositories.
pub open spec fn is_rooted(n: ContractNodeView, repos: int) -> bool {
    !is_hub(n) && n.repo_id < repos
}

/// Whether contracts belong to more than one repository.
pub open spec fn many_roots(nodes: Seq<ContractNodeView>, repos: int) -> bool {
    exists|i: int, j: int|
        0 <= i < nodes.len() && 0 <= j < nodes.len() && is_rooted(#[trigger] nodes[i], repos) && is_rooted(#[trigger] nodes[j], repos)
            && nodes[i].repo_id != nodes[j].repo_id
}

/// How contracts are grouped: by repository, or by package; and the service in focus.
#[verifier::ext_equal]
pub struct Lens {
    pub repos: Seq<Seq<char>>,
    pub by_root: bool,
    pub focus: Option<Seq<char>>,
}

/// The service or the topic that a contract belongs to.
pub open spec fn service_of(n: ContractNodeView, repos: Seq<Seq<char>>, by_root: bool) -> (Seq<char>, GroupKind) {
    if is_hub(n) {
        (n.name, GroupKind::Topic)
    } else if by_root && n.repo_id < repos.len() {
        (repos[n.repo_id as int], GroupKind::Service)
    } else if n.package.len() == 0 {
        ("shared"@, GroupKind::Service)
    } else {
        (n.package, GroupKind::Service)
    }
}

/// The names of services that are the wanted one, in any case.
pub open spec fn services_named(nodes: Seq<ContractNodeView>, repos: Seq<Seq<char>>, by_root: bool, wanted: Seq<char>) -> Seq<Seq<char>>
    decreases nodes.len(),
{
    if nodes.len() == 0 {
        Seq::empty()
    } else {
        let rest = services_named(nodes.drop_last(), repos, by_root, wanted);
        let (name, kind) = service_of(nodes.last(), repos, by_root);
        if kind == GroupKind::Service && text::lowered(name) == text::lowered(wanted) {
            rest.push(name)
        } else {
            rest
        }
    }
}

/// The service in focus: the first in order of those that are the wanted one in any case.
pub open spec fn focus_of(nodes: Seq<ContractNodeView>, repos: Seq<Seq<char>>, by_root: bool, wanted: Option<Seq<char>>) -> Option<Seq<char>> {
    match wanted {
        Some(w) => {
            let names = order::sorted_set(services_named(nodes, repos, by_root, w));
            if names.len() > 0 {
                Some(names[0])
            } else {
                None
            }
        },
        None => None,
    }
}

/// Whether a contract belongs to the service in focus.
pub open spec fn in_focus(n: ContractNodeView, lens: Lens) -> bool {
    let (name, kind) = service_of(n, lens.repos, lens.by_root);
    kind == GroupKind::Service && lens.focus == Some(name)
}

/// The kind of the group of a contract.
pub open spec fn node_group_kind(n: ContractNodeView, lens: Lens) -> GroupKind {
    if in_focus(n, lens) {
        GroupKind::Contract
    } else {
        service_of(n, lens.repos, lens.by_root).1
    }
}

/// The key of the group of a contract: its kind's digit and its name. A contract of the service
/// in focus is a group of its own, told apart by its number.
pub open spec fn key_of(n: ContractNodeView, lens: Lens) -> Seq<char> {
    if in_focus(n, lens) {
        GroupKind::Contract.digit() + (n.name + "\u{0}"@ + numbers::decimal(n.id))
    } else {
        let (name, kind) = service_of(n, lens.repos, lens.by_root);
        kind.digit() + name
    }
}

/// The name that the group of a contract is shown by.
pub open spec fn group_name(n: ContractNodeView, lens: Lens) -> Seq<char> {
    if in_focus(n, lens) {
        n.name + (" ["@ + label_at(label_rank(n.kind)) + "]"@)
    } else {
        service_of(n, lens.repos, lens.by_root).0
    }
}

/// The keys of the groups of contracts.
pub open spec fn node_keys(nodes: Seq<ContractNodeView>, lens: Lens) -> Seq<Seq<char>> {
    nodes.map_values(|n: ContractNodeView| key_of(n, lens))
}

/// The keys of all groups, sorted. A group is told by its place among them.
pub open spec fn group_keys(nodes: Seq<ContractNodeView>, lens: Lens) -> Seq<Seq<char>> {
    order::sorted_set(node_keys(nodes, lens))
}

/// The first place of a text in a list from place `i` on.
pub open spec fn place_from(s: Seq<Seq<char>>, x: Seq<char>, i: int) -> int
    decreases s.len() - i,
{
    if i < 0 || i >= s.len() || s[i] == x {
        i
    } else {
        place_from(s, x, i + 1)
    }
}

/// The group of each contract.
pub open spec fn owners(nodes: Seq<ContractNodeView>, lens: Lens) -> Seq<int> {
    let keys = group_keys(nodes, lens);
    nodes.map_values(|n: ContractNodeView| place_from(keys, key_of(n, lens), 0))
}

proof fn lemma_place(s: Seq<Seq<char>>, x: Seq<char>, i: int)
    requires
        0 <= i <= s.len(),
    ensures
        i <= place_from(s, x, i) <= s.len(),
        place_from(s, x, i) < s.len() ==> s[place_from(s, x, i)] == x,
        forall|j: int| i <= j < s.len() && #[trigger] s[j] == x ==> place_from(s, x, i) <= j,
    decreases s.len() - i,
{
    if i < s.len() && s[i] != x {
        lemma_place(s, x, i + 1);
    }
}

/// Every contract belongs to a group, and contracts belong to the same group exactly if their
/// keys are the same.
pub proof fn law_every_contract_has_a_group(nodes: Seq<ContractNodeView>, lens: Lens)
    ensures
        forall|i: int| 0 <= i < nodes.len() ==> 0 <= #[trigger] owners(nodes, lens)[i] < group_keys(nodes, lens).len(),
        forall|i: int, j: int|
            0 <= i < nodes.len() && 0 <= j < nodes.len() ==> (#[trigger] owners(nodes, lens)[i] == #[trigger] owners(nodes, lens)[j]
                <==> key_of(nodes[i], lens) == key_of(nodes[j], lens)),
{
    let keys = group_keys(nodes, lens);
    let all = node_keys(nodes, lens);
    order::law_sorted_set(all);
    assert forall|i: int| 0 <= i < nodes.len() implies 0 <= #[trigger] owners(nodes, lens)[i] < keys.len() && keys[owners(nodes, lens)[i]] == key_of(
        nodes[i],
        lens,
    ) by {
        let k = key_of(nodes[i], lens);
        assert(all[i] == k);
        assert(all.contains(k));
        assert(keys.contains(k));
        let m = choose|m: int| 0 <= m < keys.len() && keys[m] == k;
        lemma_place(keys, k, 0);
        assert(keys[m] == k);
    }
}

/// A link between groups: where it starts and ends, the place of its kind, and its doubt.
#[verifier::ext_equal]
pub struct Ends {
    pub from: int,
    pub to: int,
    pub kind: int,
    pub doubt: int,
}

/// The links between groups. A link that starts or ends at no contract of the graph is left
/// out.
pub open spec fn ends_of(edges: Seq<ContractEdgeView>, owner: Seq<int>) -> Seq<Ends>
    decreases edges.len(),
{
    if edges.len() == 0 {
        Seq::empty()
    } else {
        let rest = ends_of(edges.drop_last(), owner);
        let e = edges.last();
        if 0 <= e.from < owner.len() && 0 <= e.to < owner.len() {
            rest.push(Ends { from: owner[e.from], to: owner[e.to], kind: kind_place(e.kind), doubt: doubt(e.confidence) })
        } else {
            rest
        }
    }
}

/// How many links to other groups start or end at a group.
pub open spec fn degree(es: Seq<Ends>, g: int) -> int
    decreases es.len(),
{
    if es.len() == 0 {
        0
    } else {
        let e = es.last();
        degree(es.drop_last(), g) + if e.from != e.to && (e.from == g || e.to == g) {
            1int
        } else {
            0
        }
    }
}

/// How many links stay inside a group.
pub open spec fn inner_links(es: Seq<Ends>, g: int) -> int
    decreases es.len(),
{
    if es.len() == 0 {
        0
    } else {
        inner_links(es.drop_last(), g) + if es.last().from == g && es.last().to == g {
            1int
        } else {
            0
        }
    }
}

/// How often a number occurs in a list.
pub open spec fn times(s: Seq<int>, x: int) -> int
    decreases s.len(),
{
    if s.len() == 0 {
        0
    } else {
        times(s.drop_last(), x) + if s.last() == x {
            1int
        } else {
            0
        }
    }
}

/// The first place of a number in a list from place `i` on.
pub open spec fn first_from(s: Seq<int>, x: int, i: int) -> int
    decreases s.len() - i,
{
    if i < 0 || i >= s.len() || s[i] == x {
        i
    } else {
        first_from(s, x, i + 1)
    }
}

/// How many of the first `n` contracts are of a group and have the label at a rank.
pub open spec fn labelled(nodes: Seq<ContractNodeView>, owner: Seq<int>, g: int, rank: int, n: int) -> int
    decreases n,
{
    if n <= 0 {
        0
    } else {
        labelled(nodes, owner, g, rank, n - 1) + if owner[n - 1] == g && label_rank(nodes[n - 1].kind) == rank {
            1int
        } else {
            0
        }
    }
}

/// How many contracts of a group there are of each kind, for the first `n` labels.
pub open spec fn counts_of(nodes: Seq<ContractNodeView>, owner: Seq<int>, g: int, n: int) -> Seq<(Seq<char>, int)>
    decreases n,
{
    if n <= 0 {
        Seq::empty()
    } else {
        let rest = counts_of(nodes, owner, g, n - 1);
        let k = labelled(nodes, owner, g, n - 1, nodes.len() as int);
        if k > 0 {
            rest.push((label_at(n - 1), k))
        } else {
            rest
        }
    }
}

/// What the groups are ranked by: the best connected first, then the largest, then by their
/// keys.
pub open spec fn rank_list(es: Seq<Ends>, owner: Seq<int>, count: int) -> Seq<(int, int, int)> {
    Seq::new(count as nat, |g: int| (-degree(es, g), -times(owner, g), g))
}

/// The groups of ranked triples, by the last number of each.
pub open spec fn thirds(s: Seq<(int, int, int)>) -> Seq<int> {
    s.map_values(|t: (int, int, int)| t.2)
}

/// The groups by rank.
pub open spec fn ranked(es: Seq<Ends>, owner: Seq<int>, count: int) -> Seq<int> {
    thirds(triples::sorted_set(rank_list(es, owner, count)))
}

/// The groups of a list that are contracts.
pub open spec fn contracts_among(s: Seq<int>, kinds: Seq<GroupKind>) -> Seq<int>
    decreases s.len(),
{
    if s.len() == 0 {
        Seq::empty()
    } else if kinds[s.last()] == GroupKind::Contract {
        contracts_among(s.drop_last(), kinds).push(s.last())
    } else {
        contracts_among(s.drop_last(), kinds)
    }
}

/// The group that a link joins a contract with, if it joins one with another group.
pub open spec fn neighbour(e: Ends, kinds: Seq<GroupKind>) -> Option<int> {
    if kinds[e.from] == GroupKind::Contract && kinds[e.to] != GroupKind::Contract {
        Some(e.to)
    } else if kinds[e.from] != GroupKind::Contract && kinds[e.to] == GroupKind::Contract {
        Some(e.from)
    } else {
        None
    }
}

/// What the groups that contracts are linked with are ranked by: the best connected first,
/// then by their keys.
pub open spec fn neighbour_list(all: Seq<Ends>, es: Seq<Ends>, kinds: Seq<GroupKind>) -> Seq<(int, int, int)>
    decreases es.len(),
{
    if es.len() == 0 {
        Seq::empty()
    } else {
        let rest = neighbour_list(all, es.drop_last(), kinds);
        match neighbour(es.last(), kinds) {
            Some(g) => rest.push((-degree(all, g), 0, g)),
            None => rest,
        }
    }
}

/// The groups that contracts are linked with, by rank.
pub open spec fn neighbours(es: Seq<Ends>, kinds: Seq<GroupKind>) -> Seq<int> {
    thirds(triples::sorted_set(neighbour_list(es, es, kinds)))
}

/// The first items of a list, at least one.
pub open spec fn some_of(s: Seq<int>, n: int) -> Seq<int> {
    let k = if n < 1 {
        1
    } else {
        n
    };
    if k < s.len() {
        s.take(k)
    } else {
        s
    }
}

/// The groups that are drawn. With a service in focus these are its contracts and then the
/// groups that they are linked with; otherwise the groups that rank highest.
pub open spec fn drawn(
    es: Seq<Ends>,
    owner: Seq<int>,
    kinds: Seq<GroupKind>,
    focused: bool,
    max_groups: int,
    max_contracts: int,
) -> Seq<int> {
    let all = ranked(es, owner, kinds.len() as int);
    if focused {
        some_of(contracts_among(all, kinds), max_contracts) + some_of(neighbours(es, kinds), max_groups)
    } else {
        some_of(all, max_groups)
    }
}

/// The items of a list that are not in another.
pub open spec fn without(s: Seq<int>, other: Seq<int>) -> Seq<int>
    decreases s.len(),
{
    if s.len() == 0 {
        Seq::empty()
    } else if other.contains(s.last()) {
        without(s.drop_last(), other)
    } else {
        without(s.drop_last(), other).push(s.last())
    }
}

/// The kinds of the groups of a list, each once, in order.
pub open spec fn kinds_among(s: Seq<int>, kinds: Seq<GroupKind>) -> Seq<GroupKind>
    decreases s.len(),
{
    if s.len() == 0 {
        Seq::empty()
    } else {
        let rest = kinds_among(s.drop_last(), kinds);
        if rest.contains(kinds[s.last()]) {
            rest
        } else {
            rest.push(kinds[s.last()])
        }
    }
}

/// The first place of a kind in a list from place `i` on.
pub open spec fn kind_from(s: Seq<GroupKind>, x: GroupKind, i: int) -> int
    decreases s.len() - i,
{
    if i < 0 || i >= s.len() || s[i] == x {
        i
    } else {
        kind_from(s, x, i + 1)
    }
}

/// Where a group stands among those of the topology: by itself if it is drawn, and else in the
/// group that those of its kind are folded into.
pub open spec fn stand_of(g: int, shown: Seq<int>, buckets: Seq<GroupKind>, kinds: Seq<GroupKind>) -> int {
    if shown.contains(g) {
        first_from(shown, g, 0)
    } else {
        shown.len() + kind_from(buckets, kinds[g], 0)
    }
}

/// Where each group stands.
pub open spec fn stands(shown: Seq<int>, buckets: Seq<GroupKind>, kinds: Seq<GroupKind>) -> Seq<int> {
    Seq::new(kinds.len(), |g: int| stand_of(g, shown, buckets, kinds))
}

/// The places that links between drawn groups lead from and to, with their kinds.
pub open spec fn drawn_links(es: Seq<Ends>, stand: Seq<int>) -> Seq<(int, int, int)>
    decreases es.len(),
{
    if es.len() == 0 {
        Seq::empty()
    } else {
        let rest = drawn_links(es.drop_last(), stand);
        let e = es.last();
        if stand[e.from] != stand[e.to] {
            rest.push((stand[e.from], stand[e.to], e.kind))
        } else {
            rest
        }
    }
}

/// Whether a link leads from one place to another and is of a kind.
pub open spec fn is_drawn_as(e: Ends, stand: Seq<int>, l: (int, int, int)) -> bool {
    stand[e.from] == l.0 && stand[e.to] == l.1 && e.kind == l.2
}

/// How many links are drawn as one.
pub open spec fn weight(es: Seq<Ends>, stand: Seq<int>, l: (int, int, int)) -> int
    decreases es.len(),
{
    if es.len() == 0 {
        0
    } else {
        weight(es.drop_last(), stand, l) + if is_drawn_as(es.last(), stand, l) {
            1int
        } else {
            0
        }
    }
}

/// The greatest doubt among links that are drawn as one.
pub open spec fn worst(es: Seq<Ends>, stand: Seq<int>, l: (int, int, int)) -> int
    decreases es.len(),
{
    if es.len() == 0 {
        0
    } else {
        let rest = worst(es.drop_last(), stand, l);
        if is_drawn_as(es.last(), stand, l) && es.last().doubt > rest {
            es.last().doubt
        } else {
            rest
        }
    }
}

/// The links between drawn groups, sorted by where they start, where they end and their kind.
pub open spec fn links_of(es: Seq<Ends>, stand: Seq<int>) -> Seq<LinkView> {
    triples::sorted_set(drawn_links(es, stand)).map_values(
        |l: (int, int, int)|
            LinkView {
                from: l.0,
                to: l.1,
                kind: kind_at(l.2),
                count: weight(es, stand, l),
                weakest: confidence_of(worst(es, stand, l)),
            },
    )
}

/// Whether a hidden group comes before another: the larger first, then by name.
pub open spec fn larger(a: (Seq<char>, int), b: (Seq<char>, int)) -> bool {
    a.1 > b.1 || a.1 == b.1 && order::before(a.0, b.0)
}

/// A list with a group put before the first that it comes before.
pub open spec fn hidden_with(s: Seq<(Seq<char>, int)>, x: (Seq<char>, int)) -> Seq<(Seq<char>, int)>
    decreases s.len(),
{
    if s.len() == 0 {
        seq![x]
    } else if larger(x, s[0]) {
        seq![x] + s
    } else {
        seq![s[0]] + hidden_with(s.drop_first(), x)
    }
}

/// Hidden groups, the largest first.
pub open spec fn hidden_sorted(s: Seq<(Seq<char>, int)>) -> Seq<(Seq<char>, int)>
    decreases s.len(),
{
    if s.len() == 0 {
        Seq::empty()
    } else {
        hidden_with(hidden_sorted(s.drop_last()), s.last())
    }
}

/// What the topology is of: the contracts, how they are grouped, and the links between the
/// groups.
#[verifier::ext_equal]
pub struct Parts {
    pub nodes: Seq<ContractNodeView>,
    pub lens: Lens,
    pub owner: Seq<int>,
    pub kinds: Seq<GroupKind>,
    pub names: Seq<Seq<char>>,
    pub ends: Seq<Ends>,
}

/// The parts of a graph's topology. A group has the kind and the name of its first contract.
pub open spec fn parts_of(g: GraphView, lens: Lens) -> Parts {
    let owner = owners(g.nodes, lens);
    let count = group_keys(g.nodes, lens).len();
    Parts {
        nodes: g.nodes,
        lens,
        owner,
        kinds: Seq::new(count, |k: int| node_group_kind(g.nodes[first_from(owner, k, 0)], lens)),
        names: Seq::new(count, |k: int| group_name(g.nodes[first_from(owner, k, 0)], lens)),
        ends: ends_of(g.edges, owner),
    }
}

/// A group that is drawn by itself.
pub open spec fn group_view(p: Parts, g: int) -> GroupView {
    GroupView {
        name: p.names[g],
        kind: p.kinds[g],
        contracts: times(p.owner, g),
        by_kind: if p.kinds[g] == GroupKind::Contract {
            Seq::empty()
        } else {
            counts_of(p.nodes, p.owner, g, 9)
        },
        internal_edges: inner_links(p.ends, g),
        folded: 0,
    }
}

/// The name of the group that those of a kind are folded into.
pub open spec fn other_name(kind: GroupKind, focus: Option<Seq<char>>) -> Seq<char> {
    match kind {
        GroupKind::Topic => "other topics"@,
        GroupKind::Contract => "other "@ + text::or(focus, ""@) + " contracts"@,
        _ => "other services"@,
    }
}

/// How many of the groups in a list are of a kind.
pub open spec fn of_kind(s: Seq<int>, kinds: Seq<GroupKind>, kind: GroupKind) -> int
    decreases s.len(),
{
    if s.len() == 0 {
        0
    } else {
        of_kind(s.drop_last(), kinds, kind) + if kinds[s.last()] == kind {
            1int
        } else {
            0
        }
    }
}

/// How many contracts stand at a place.
pub open spec fn standing_at(owner: Seq<int>, stand: Seq<int>, place: int) -> int
    decreases owner.len(),
{
    if owner.len() == 0 {
        0
    } else {
        standing_at(owner.drop_last(), stand, place) + if stand[owner.last()] == place {
            1int
        } else {
            0
        }
    }
}

/// The group that those of a kind are folded into.
pub open spec fn other_view(p: Parts, folded: Seq<int>, stand: Seq<int>, kind: GroupKind, place: int) -> GroupView {
    GroupView {
        name: other_name(kind, p.lens.focus),
        kind: GroupKind::Other,
        contracts: standing_at(p.owner, stand, place),
        by_kind: Seq::empty(),
        internal_edges: 0,
        folded: of_kind(folded, p.kinds, kind),
    }
}

/// The topology, as a mathematical value.
#[verifier::ext_equal]
pub struct TopologyView {
    pub groups: Seq<GroupView>,
    pub links: Seq<LinkView>,
    pub total_groups: int,
    pub total_contracts: int,
    pub total_edges: int,
    pub hidden: Seq<(Seq<char>, int)>,
    pub grouping: Seq<char>,
    pub focus: Option<Seq<char>>,
}

/// The topology of the parts.
pub open spec fn topology_of(p: Parts, max_groups: int, max_contracts: int, total_edges: int) -> TopologyView {
    let shown = drawn(p.ends, p.owner, p.kinds, p.lens.focus is Some, max_groups, max_contracts);
    let folded = without(ranked(p.ends, p.owner, p.kinds.len() as int), shown);
    let buckets = kinds_among(folded, p.kinds);
    let stand = stands(shown, buckets, p.kinds);
    TopologyView {
        groups: shown.map_values(|g: int| group_view(p, g)) + Seq::new(
            buckets.len(),
            |j: int| other_view(p, folded, stand, buckets[j], shown.len() + j),
        ),
        links: links_of(p.ends, stand),
        total_groups: p.kinds.len() as int,
        total_contracts: p.nodes.len() as int,
        total_edges,
        hidden: hidden_sorted(folded.map_values(|g: int| (p.names[g], times(p.owner, g)))),
        grouping: if p.lens.by_root {
            "root"@
        } else {
            "package"@
        },
        focus: p.lens.focus,
    }
}

/// How a graph's contracts are grouped.
pub open spec fn lens_of(g: GraphView, repos: Seq<Seq<char>>, wanted: Option<Seq<char>>) -> Lens {
    let by_root = many_roots(g.nodes, repos.len() as int);
    Lens { repos, by_root, focus: focus_of(g.nodes, repos, by_root, wanted) }
}

/// The topology of a graph.
pub open spec fn topology(g: GraphView, repos: Seq<Seq<char>>, wanted: Option<Seq<char>>, max_groups: int, max_contracts: int) -> TopologyView {
    topology_of(parts_of(g, lens_of(g, repos, wanted)), max_groups, max_contracts, g.edges.len() as int)
}

/// Whether contracts belong to more than one repository.
fn has_many_roots(nodes: &Vec<ContractNode>, repos: usize) -> (r: bool)
    ensures
        r == many_roots(model::nodes_view(nodes@), repos as int),
{
    let ghost nv = model::nodes_view(nodes@);
    let mut seen: Option<RepoId> = None;
    let ghost mut at: int = 0;
    let mut i: usize = 0;
    while i < nodes.len()
        invariant
            0 <= i <= nodes@.len(),
            nv == model::nodes_view(nodes@),
            match seen {
                Some(x) => 0 <= at < i && is_rooted(nv[at], repos as int) && nv[at].repo_id == x && forall|j: int|
                    0 <= j < i && is_rooted(#[trigger] nv[j], repos as int) ==> nv[j].repo_id == x,
                None => forall|j: int| 0 <= j < i ==> !is_rooted(#[trigger] nv[j], repos as int),
            },
        decreases nodes@.len() - i,
    {
        let n = &nodes[i];
        assert(nv[i as int] == n@);
        if !is_topic_hub(n) && (n.repo_id as usize) < repos {
            match seen {
                Some(x) => {
                    if x != n.repo_id {
                        assert(is_rooted(nv[at], repos as int) && is_rooted(nv[i as int], repos as int));
                        return true;
                    }
                },
                None => {
                    seen = Some(n.repo_id);
                    proof {
                        at = i as int;
                    }
                },
            }
        }
        i += 1;
    }
    false
}

/// How contracts are grouped.
struct Grouping<'a> {
    repos: &'a [String],
    by_root: bool,
    focus: Option<String>,
}

impl<'a> View for Grouping<'a> {
    type V = Lens;

    closed spec fn view(&self) -> Lens {
        Lens { repos: text::strings(self.repos@), by_root: self.by_root, focus: text::opt_string(self.focus) }
    }
}

/// The service or the topic that a contract belongs to.
fn group_of(n: &ContractNode, repos: &[String], by_root: bool) -> (r: (String, GroupKind))
    ensures
        (r.0@, r.1) == service_of(n@, text::strings(repos@), by_root),
{
    assert(text::strings(repos@).len() == repos@.len());
    if is_topic_hub(n) {
        return (text::copy(n.name.as_str()), GroupKind::Topic);
    }
    if by_root && (n.repo_id as usize) < repos.len() {
        assert(text::strings(repos@)[n.repo_id as int] == repos@[n.repo_id as int]@);
        return (text::copy(repos[n.repo_id as usize].as_str()), GroupKind::Service);
    }
    if text::length(n.package.as_str()) == 0 {
        (text::copy("shared"), GroupKind::Service)
    } else {
        (text::copy(n.package.as_str()), GroupKind::Service)
    }
}

/// The service in focus.
fn find_focus(nodes: &Vec<ContractNode>, repos: &[String], by_root: bool, wanted: &Option<String>) -> (r: Option<String>)
    ensures
        text::opt_string(r) == focus_of(
            model::nodes_view(nodes@),
            text::strings(repos@),
            by_root,
            text::opt_string(*wanted),
        ),
{
    let w = match wanted {
        Some(w) => text::chars_of(w.as_str()),
        None => return None,
    };
    let ghost nv = model::nodes_view(nodes@);
    let ghost rv = text::strings(repos@);
    let low = text::to_lower(w.as_slice());
    let mut names: Vec<String> = Vec::new();
    let mut i: usize = 0;
    assert(text::strings(names@) == Seq::<Seq<char>>::empty());
    assert(nv.take(0) == Seq::<ContractNodeView>::empty());
    while i < nodes.len()
        invariant
            0 <= i <= nodes@.len(),
            nv == model::nodes_view(nodes@),
            rv == text::strings(repos@),
            low@ == text::lowered(w@),
            text::strings(names@) == services_named(nv.take(i as int), rv, by_root, w@),
        decreases nodes@.len() - i,
    {
        proof {
            syntax::lemma_take_step(nv, i as int);
            assert(nv[i as int] == nodes@[i as int]@);
        }
        let (name, kind) = group_of(&nodes[i], repos, by_root);
        if kind == GroupKind::Service {
            let chars = text::chars_of(name.as_str());
            let lowered = text::to_lower(chars.as_slice());
            if text::equal(lowered.as_slice(), low.as_slice()) {
                model::push_string(&mut names, name);
            }
        }
        i += 1;
    }
    assert(nv.take(i as int) == nv);
    let sorted = order::sort_texts(&names);
    let ghost sv = text::strings(sorted@);
    assert(sv.len() == sorted@.len());
    if sorted.len() > 0 {
        assert(sv[0] == sorted@[0]@);
        Some(text::copy(sorted[0].as_str()))
    } else {
        None
    }
}

impl<'a> Grouping<'a> {
    fn holds_in_focus(&self, n: &ContractNode) -> (r: bool)
        ensures
            r == in_focus(n@, self@),
    {
        let (name, kind) = group_of(n, self.repos, self.by_root);
        match &self.focus {
            Some(f) => kind == GroupKind::Service && text::same(f.as_str(), name.as_str()),
            None => false,
        }
    }

    fn kind(&self, n: &ContractNode) -> (r: GroupKind)
        ensures
            r == node_group_kind(n@, self@),
    {
        if self.holds_in_focus(n) {
            GroupKind::Contract
        } else {
            group_of(n, self.repos, self.by_root).1
        }
    }

    fn key(&self, n: &ContractNode) -> (r: String)
        ensures
            r@ == key_of(n@, self@),
    {
        if self.holds_in_focus(n) {
            let name = text::chars_of(n.name.as_str());
            let number = numbers::decimal_of(n.id as usize);
            let rest = text::joined3(name.as_slice(), "\u{0}", number.as_slice());
            let chars = text::chars_of(rest.as_str());
            text::joined(GroupKind::Contract.digit_text(), chars.as_slice())
        } else {
            let (name, kind) = group_of(n, self.repos, self.by_root);
            let chars = text::chars_of(name.as_str());
            text::joined(kind.digit_text(), chars.as_slice())
        }
    }

    fn name(&self, n: &ContractNode) -> (r: String)
        ensures
            r@ == group_name(n@, self@),
    {
        if self.holds_in_focus(n) {
            let label = text::chars_of(label_of(rank_of(n.kind)));
            let tail = text::wrapped(" [", label.as_slice(), "]");
            let chars = text::chars_of(tail.as_str());
            text::joined(n.name.as_str(), chars.as_slice())
        } else {
            group_of(n, self.repos, self.by_root).0
        }
    }

    /// The keys of contracts.
    fn keys(&self, nodes: &Vec<ContractNode>) -> (r: Vec<String>)
        ensures
            text::strings(r@) == node_keys(model::nodes_view(nodes@), self@),
            r@.len() == nodes@.len(),
    {
        let ghost nv = model::nodes_view(nodes@);
        let ghost all = node_keys(nv, self@);
        let mut out: Vec<String> = Vec::new();
        let mut i: usize = 0;
        while i < nodes.len()
            invariant
                0 <= i <= nodes@.len(),
                nv == model::nodes_view(nodes@),
                all == node_keys(nv, self@),
                out@.len() == i,
                forall|j: int| 0 <= j < i ==> (#[trigger] out@[j])@ == all[j],
            decreases nodes@.len() - i,
        {
            assert(nv[i as int] == nodes@[i as int]@);
            out.push(self.key(&nodes[i]));
            i += 1;
        }
        assert(text::strings(out@) == all);
        out
    }
}

/// The first place of a text in a list.
fn place(s: &Vec<String>, x: &str) -> (r: usize)
    ensures
        r == place_from(text::strings(s@), x@, 0),
        r <= s@.len(),
{
    let ghost sv = text::strings(s@);
    let mut i: usize = 0;
    while i < s.len()
        invariant
            0 <= i <= s@.len(),
            sv == text::strings(s@),
            place_from(sv, x@, 0) == place_from(sv, x@, i as int),
        decreases s@.len() - i,
    {
        assert(sv[i as int] == s@[i as int]@);
        if text::same(s[i].as_str(), x) {
            return i;
        }
        i += 1;
    }
    i
}

/// The group of each contract, and how many groups there are.
fn find_owners(nodes: &Vec<ContractNode>, lens: &Grouping<'_>) -> (r: (Vec<usize>, usize))
    ensures
        syntax::ints(r.0@) == owners(model::nodes_view(nodes@), lens@),
        r.0@.len() == nodes@.len(),
        r.1 == group_keys(model::nodes_view(nodes@), lens@).len(),
        forall|i: int| 0 <= i < r.0@.len() ==> #[trigger] r.0@[i] < r.1,
{
    let ghost nv = model::nodes_view(nodes@);
    let ghost want = owners(nv, lens@);
    let all = lens.keys(nodes);
    let keys = order::sort_texts(&all);
    let ghost kv = text::strings(keys@);
    assert(kv.len() == keys@.len());
    let mut out: Vec<usize> = Vec::new();
    let mut i: usize = 0;
    proof {
        law_every_contract_has_a_group(nv, lens@);
    }
    while i < all.len()
        invariant
            0 <= i <= all@.len(),
            all@.len() == nodes@.len(),
            nv == model::nodes_view(nodes@),
            text::strings(all@) == node_keys(nv, lens@),
            kv == text::strings(keys@),
            kv == group_keys(nv, lens@),
            want == owners(nv, lens@),
            out@.len() == i,
            forall|j: int| 0 <= j < nv.len() ==> 0 <= #[trigger] want[j] < kv.len(),
            forall|j: int| 0 <= j < i ==> #[trigger] out@[j] == want[j],
        decreases all@.len() - i,
    {
        assert(text::strings(all@)[i as int] == all@[i as int]@);
        assert(node_keys(nv, lens@)[i as int] == key_of(nv[i as int], lens@));
        let k = place(&keys, all[i].as_str());
        assert(want[i as int] == k);
        out.push(k);
        i += 1;
    }
    assert(syntax::ints(out@) == want);
    assert forall|i: int| 0 <= i < out@.len() implies #[trigger] out@[i] < kv.len() by {
        assert(out@[i] == want[i]);
    }
    (out, keys.len())
}

/// A link between groups.
struct EndsOf {
    from: usize,
    to: usize,
    kind: usize,
    doubt: usize,
}

impl View for EndsOf {
    type V = Ends;

    closed spec fn view(&self) -> Ends {
        Ends { from: self.from as int, to: self.to as int, kind: self.kind as int, doubt: self.doubt as int }
    }
}

/// Links between groups, each by its view.
spec fn ends_view(v: Seq<EndsOf>) -> Seq<Ends> {
    v.map_values(|e: EndsOf| e@)
}

/// Whether links lead between the first `count` groups.
spec fn ends_below(es: Seq<Ends>, count: int) -> bool {
    forall|j: int| 0 <= j < es.len() ==> 0 <= (#[trigger] es[j]).from < count && 0 <= es[j].to < count
}

/// The links between groups.
fn find_ends(edges: &Vec<ContractEdge>, owner: &Vec<usize>, count: usize) -> (r: Vec<EndsOf>)
    requires
        forall|i: int| 0 <= i < owner@.len() ==> #[trigger] owner@[i] < count,
    ensures
        ends_view(r@) == ends_of(contracts::edges_view(edges@), syntax::ints(owner@)),
        ends_below(ends_view(r@), count as int),
        r@.len() <= edges@.len(),
{
    let ghost ev = contracts::edges_view(edges@);
    let ghost ov = syntax::ints(owner@);
    let mut out: Vec<EndsOf> = Vec::new();
    let mut i: usize = 0;
    assert(ends_view(out@) == Seq::<Ends>::empty());
    assert(ev.take(0) == Seq::<ContractEdgeView>::empty());
    assert(ov.len() == owner@.len());
    while i < edges.len()
        invariant
            0 <= i <= edges@.len(),
            ev == contracts::edges_view(edges@),
            ov == syntax::ints(owner@),
            ov.len() == owner@.len(),
            forall|i: int| 0 <= i < owner@.len() ==> #[trigger] owner@[i] < count,
            ends_view(out@) == ends_of(ev.take(i as int), ov),
            ends_below(ends_view(out@), count as int),
            out@.len() <= i,
        decreases edges@.len() - i,
    {
        proof {
            syntax::lemma_take_step(ev, i as int);
            assert(ev[i as int] == edges@[i as int]@);
        }
        let e = &edges[i];
        let from = e.from as usize;
        let to = e.to as usize;
        if from < owner.len() && to < owner.len() {
            assert(ov[from as int] == owner@[from as int] as int && ov[to as int] == owner@[to as int] as int);
            let x = EndsOf {
                from: owner[from],
                to: owner[to],
                kind: place_of_kind(e.kind),
                doubt: doubt_of(e.confidence),
            };
            let ghost before = out@;
            out.push(x);
            assert(ends_view(out@) == ends_view(before).push(x@));
        }
        i += 1;
    }
    assert(ev.take(i as int) == ev);
    out
}

proof fn lemma_first(s: Seq<int>, x: int, i: int)
    requires
        0 <= i <= s.len(),
    ensures
        i <= first_from(s, x, i) <= s.len(),
        first_from(s, x, i) < s.len() ==> s[first_from(s, x, i)] == x,
        forall|j: int| i <= j < s.len() && #[trigger] s[j] == x ==> first_from(s, x, i) <= j,
    decreases s.len() - i,
{
    if i < s.len() && s[i] != x {
        lemma_first(s, x, i + 1);
    }
}

/// No group is empty.
pub proof fn law_every_group_has_a_contract(nodes: Seq<ContractNodeView>, lens: Lens, g: int)
    requires
        0 <= g < group_keys(nodes, lens).len(),
    ensures
        ({
            let i = first_from(owners(nodes, lens), g, 0);
            0 <= i < nodes.len() && owners(nodes, lens)[i] == g
        }),
{
    let keys = group_keys(nodes, lens);
    let all = node_keys(nodes, lens);
    let owner = owners(nodes, lens);
    order::law_sorted_set(all);
    assert(keys.contains(keys[g]));
    assert(all.contains(keys[g]));
    let i = choose|i: int| 0 <= i < all.len() && all[i] == keys[g];
    lemma_place(keys, keys[g], 0);
    let p = place_from(keys, keys[g], 0);
    if p < g {
        order::law_order_is_total(keys[p], keys[g]);
        assert(order::before(keys[p], keys[g]));
    }
    assert(owner[i] == g);
    lemma_first(owner, g, 0);
}

proof fn lemma_times_range(s: Seq<int>, x: int)
    ensures
        0 <= times(s, x) <= s.len(),
    decreases s.len(),
{
    if s.len() > 0 {
        lemma_times_range(s.drop_last(), x);
    }
}

/// How many contracts each group has.
fn tally(owner: &Vec<usize>, count: usize) -> (r: Vec<usize>)
    requires
        forall|i: int| 0 <= i < owner@.len() ==> #[trigger] owner@[i] < count,
    ensures
        r@.len() == count,
        forall|g: int| 0 <= g < count ==> #[trigger] r@[g] == times(syntax::ints(owner@), g),
{
    let ghost ov = syntax::ints(owner@);
    let mut out: Vec<usize> = Vec::new();
    while out.len() < count
        invariant
            out@.len() <= count,
            forall|g: int| 0 <= g < out@.len() ==> #[trigger] out@[g] == 0,
        decreases count - out@.len(),
    {
        out.push(0);
    }
    let mut i: usize = 0;
    assert(ov.take(0) == Seq::<int>::empty());
    while i < owner.len()
        invariant
            0 <= i <= owner@.len(),
            ov == syntax::ints(owner@),
            out@.len() == count,
            forall|i: int| 0 <= i < owner@.len() ==> #[trigger] owner@[i] < count,
            forall|g: int| 0 <= g < count ==> #[trigger] out@[g] == times(ov.take(i as int), g),
        decreases owner@.len() - i,
    {
        let g = owner[i];
        proof {
            syntax::lemma_take_step(ov, i as int);
            assert(ov[i as int] == g as int);
            lemma_times_range(ov.take(i as int), g as int);
        }
        let n = out[g];
        out.set(g, n + 1);
        i += 1;
    }
    assert(ov.take(i as int) == ov);
    out
}

proof fn lemma_inner_range(es: Seq<Ends>, g: int)
    ensures
        0 <= inner_links(es, g) <= es.len(),
    decreases es.len(),
{
    if es.len() > 0 {
        lemma_inner_range(es.drop_last(), g);
    }
}

/// How many links stay inside each group.
fn count_inner(ends: &Vec<EndsOf>, count: usize) -> (r: Vec<usize>)
    requires
        ends_below(ends_view(ends@), count as int),
    ensures
        r@.len() == count,
        forall|g: int| 0 <= g < count ==> #[trigger] r@[g] == inner_links(ends_view(ends@), g),
{
    let ghost ev = ends_view(ends@);
    let mut out: Vec<usize> = Vec::new();
    while out.len() < count
        invariant
            out@.len() <= count,
            forall|g: int| 0 <= g < out@.len() ==> #[trigger] out@[g] == 0,
        decreases count - out@.len(),
    {
        out.push(0);
    }
    let mut i: usize = 0;
    assert(ev.take(0) == Seq::<Ends>::empty());
    while i < ends.len()
        invariant
            0 <= i <= ends@.len(),
            ev == ends_view(ends@),
            ends_below(ev, count as int),
            out@.len() == count,
            forall|g: int| 0 <= g < count ==> #[trigger] out@[g] == inner_links(ev.take(i as int), g),
        decreases ends@.len() - i,
    {
        proof {
            syntax::lemma_take_step(ev, i as int);
            assert(ev[i as int] == ends@[i as int]@);
        }
        let g = ends[i].from;
        if g == ends[i].to {
            proof {
                lemma_inner_range(ev.take(i as int), g as int);
            }
            let n = out[g];
            out.set(g, n + 1);
        }
        i += 1;
    }
    assert(ev.take(i as int) == ev);
    out
}

proof fn lemma_degree_range(es: Seq<Ends>, g: int)
    ensures
        0 <= degree(es, g) <= es.len(),
    decreases es.len(),
{
    if es.len() > 0 {
        lemma_degree_range(es.drop_last(), g);
    }
}

/// How well each group is connected.
fn count_degrees(ends: &Vec<EndsOf>, count: usize) -> (r: Vec<usize>)
    requires
        ends_below(ends_view(ends@), count as int),
    ensures
        r@.len() == count,
        forall|g: int| 0 <= g < count ==> #[trigger] r@[g] == degree(ends_view(ends@), g),
{
    let ghost ev = ends_view(ends@);
    let mut out: Vec<usize> = Vec::new();
    while out.len() < count
        invariant
            out@.len() <= count,
            forall|g: int| 0 <= g < out@.len() ==> #[trigger] out@[g] == 0,
        decreases count - out@.len(),
    {
        out.push(0);
    }
    let mut i: usize = 0;
    assert(ev.take(0) == Seq::<Ends>::empty());
    while i < ends.len()
        invariant
            0 <= i <= ends@.len(),
            ev == ends_view(ends@),
            ends_below(ev, count as int),
            out@.len() == count,
            forall|g: int| 0 <= g < count ==> #[trigger] out@[g] == degree(ev.take(i as int), g),
        decreases ends@.len() - i,
    {
        proof {
            syntax::lemma_take_step(ev, i as int);
            assert(ev[i as int] == ends@[i as int]@);
        }
        let from = ends[i].from;
        let to = ends[i].to;
        if from != to {
            proof {
                lemma_degree_range(ev.take(i as int), from as int);
                lemma_degree_range(ev.take(i as int), to as int);
            }
            let a = out[from];
            let b = out[to];
            out.set(from, a + 1);
            out.set(to, b + 1);
        }
        i += 1;
    }
    assert(ev.take(i as int) == ev);
    out
}

/// The first place of a number in a list.
fn first_place(s: &Vec<usize>, x: usize) -> (r: usize)
    ensures
        r == first_from(syntax::ints(s@), x as int, 0),
        r <= s@.len(),
{
    let ghost sv = syntax::ints(s@);
    let mut i: usize = 0;
    while i < s.len()
        invariant
            0 <= i <= s@.len(),
            sv == syntax::ints(s@),
            first_from(sv, x as int, 0) == first_from(sv, x as int, i as int),
        decreases s@.len() - i,
    {
        assert(sv[i as int] == s@[i as int] as int);
        if s[i] == x {
            return i;
        }
        i += 1;
    }
    i
}

/// The groups of triples.
fn third_of(ts: &Vec<Triple>, count: usize) -> (r: Vec<usize>)
    requires
        forall|j: int| 0 <= j < ts@.len() ==> 0 <= (#[trigger] ts@[j]).2 < count,
    ensures
        syntax::ints(r@) == thirds(triples::triples_view(ts@)),
        forall|j: int| 0 <= j < r@.len() ==> #[trigger] r@[j] < count,
{
    let ghost tv = triples::triples_view(ts@);
    let mut out: Vec<usize> = Vec::new();
    let mut j: usize = 0;
    while j < ts.len()
        invariant
            0 <= j <= ts@.len(),
            tv == triples::triples_view(ts@),
            out@.len() == j,
            forall|j: int| 0 <= j < ts@.len() ==> 0 <= (#[trigger] ts@[j]).2 < count,
            forall|k: int| 0 <= k < j ==> #[trigger] out@[k] as int == tv[k].2 && out@[k] < count,
        decreases ts@.len() - j,
    {
        assert(tv[j as int] == triples::triple_view(ts@[j as int]));
        assert(0 <= ts@[j as int].2 < count);
        let t = ts[j];
        out.push(t.2 as usize);
        j += 1;
    }
    assert(syntax::ints(out@) == thirds(tv));
    out
}

proof fn lemma_sorted_thirds(list: Seq<(int, int, int)>, v: Seq<Triple>, count: int)
    requires
        triples::triples_view(v) == triples::sorted_set(list),
        forall|j: int| 0 <= j < list.len() ==> 0 <= (#[trigger] list[j]).2 < count,
    ensures
        forall|j: int| 0 <= j < v.len() ==> 0 <= (#[trigger] v[j]).2 < count,
{
    triples::law_sorted_set(list);
    let sv = triples::triples_view(v);
    assert(sv.len() == v.len());
    assert forall|j: int| 0 <= j < v.len() implies 0 <= (#[trigger] v[j]).2 < count by {
        assert(sv[j] == triples::triple_view(v[j]));
        assert(sv.contains(sv[j]));
        assert(list.contains(sv[j]));
        let m = choose|m: int| 0 <= m < list.len() && list[m] == sv[j];
        assert(list[m].2 == sv[j].2);
    }
}

/// The groups by rank.
fn rank_groups(degrees: &Vec<usize>, sizes: &Vec<usize>, Ghost(es): Ghost<Seq<Ends>>, Ghost(owner): Ghost<Seq<int>>) -> (r: Vec<usize>)
    requires
        degrees@.len() == sizes@.len(),
        forall|g: int| 0 <= g < degrees@.len() ==> #[trigger] degrees@[g] == degree(es, g),
        forall|g: int| 0 <= g < sizes@.len() ==> #[trigger] sizes@[g] == times(owner, g),
    ensures
        syntax::ints(r@) == ranked(es, owner, degrees@.len() as int),
        forall|j: int| 0 <= j < r@.len() ==> #[trigger] r@[j] < degrees@.len(),
{
    let ghost list = rank_list(es, owner, degrees@.len() as int);
    let mut ts: Vec<Triple> = Vec::new();
    let mut g: usize = 0;
    while g < degrees.len()
        invariant
            0 <= g <= degrees@.len(),
            degrees@.len() == sizes@.len(),
            list == rank_list(es, owner, degrees@.len() as int),
            forall|g: int| 0 <= g < degrees@.len() ==> #[trigger] degrees@[g] == degree(es, g),
            forall|g: int| 0 <= g < sizes@.len() ==> #[trigger] sizes@[g] == times(owner, g),
            ts@.len() == g,
            forall|k: int| 0 <= k < g ==> triples::triple_view(#[trigger] ts@[k]) == list[k],
        decreases degrees@.len() - g,
    {
        let d = degrees[g] as i128;
        let n = sizes[g] as i128;
        ts.push((-d, -n, g as i128));
        g += 1;
    }
    assert(triples::triples_view(ts@) == list);
    let sorted = triples::sort(&ts);
    proof {
        lemma_sorted_thirds(list, sorted@, degrees@.len() as int);
    }
    third_of(&sorted, degrees.len())
}

/// The groups of a list that are contracts.
fn only_contracts(s: &Vec<usize>, kinds: &Vec<GroupKind>) -> (r: Vec<usize>)
    requires
        forall|j: int| 0 <= j < s@.len() ==> #[trigger] s@[j] < kinds@.len(),
    ensures
        syntax::ints(r@) == contracts_among(syntax::ints(s@), kinds@),
        forall|j: int| 0 <= j < r@.len() ==> #[trigger] r@[j] < kinds@.len(),
{
    let ghost sv = syntax::ints(s@);
    let mut out: Vec<usize> = Vec::new();
    let mut j: usize = 0;
    assert(sv.take(0) == Seq::<int>::empty());
    assert(syntax::ints(out@) == Seq::<int>::empty());
    while j < s.len()
        invariant
            0 <= j <= s@.len(),
            sv == syntax::ints(s@),
            forall|j: int| 0 <= j < s@.len() ==> #[trigger] s@[j] < kinds@.len(),
            syntax::ints(out@) == contracts_among(sv.take(j as int), kinds@),
            forall|j: int| 0 <= j < out@.len() ==> #[trigger] out@[j] < kinds@.len(),
        decreases s@.len() - j,
    {
        let g = s[j];
        proof {
            syntax::lemma_take_step(sv, j as int);
            assert(sv[j as int] == g as int);
        }
        if kinds[g] == GroupKind::Contract {
            let ghost before = out@;
            out.push(g);
            assert(syntax::ints(out@) == syntax::ints(before).push(g as int));
        }
        j += 1;
    }
    assert(sv.take(j as int) == sv);
    out
}

proof fn lemma_neighbours_below(all: Seq<Ends>, es: Seq<Ends>, kinds: Seq<GroupKind>)
    requires
        ends_below(es, kinds.len() as int),
    ensures
        forall|j: int| 0 <= j < neighbour_list(all, es, kinds).len() ==> 0 <= (#[trigger] neighbour_list(all, es, kinds)[j]).2 < kinds.len(),
    decreases es.len(),
{
    if es.len() > 0 {
        let front = es.drop_last();
        assert(ends_below(front, kinds.len() as int)) by {
            assert forall|j: int| 0 <= j < front.len() implies 0 <= (#[trigger] front[j]).from < kinds.len() && 0 <= front[j].to < kinds.len() by {
                assert(front[j] == es[j]);
            }
        }
        lemma_neighbours_below(all, front, kinds);
        let rest = neighbour_list(all, front, kinds);
        let r = neighbour_list(all, es, kinds);
        assert(es.last() == es[es.len() - 1]);
        assert forall|j: int| 0 <= j < r.len() implies 0 <= (#[trigger] r[j]).2 < kinds.len() by {
            if j < rest.len() {
                assert(r[j] == rest[j]);
            }
        }
    }
}

/// The groups that contracts are linked with, by rank.
fn rank_neighbours(ends: &Vec<EndsOf>, degrees: &Vec<usize>, kinds: &Vec<GroupKind>) -> (r: Vec<usize>)
    requires
        degrees@.len() == kinds@.len(),
        ends_below(ends_view(ends@), kinds@.len() as int),
        forall|g: int| 0 <= g < degrees@.len() ==> #[trigger] degrees@[g] == degree(ends_view(ends@), g),
    ensures
        syntax::ints(r@) == neighbours(ends_view(ends@), kinds@),
        forall|j: int| 0 <= j < r@.len() ==> #[trigger] r@[j] < kinds@.len(),
{
    let ghost ev = ends_view(ends@);
    let mut ts: Vec<Triple> = Vec::new();
    let mut j: usize = 0;
    assert(ev.take(0) == Seq::<Ends>::empty());
    assert(triples::triples_view(ts@) == Seq::<(int, int, int)>::empty());
    while j < ends.len()
        invariant
            0 <= j <= ends@.len(),
            ev == ends_view(ends@),
            degrees@.len() == kinds@.len(),
            ends_below(ev, kinds@.len() as int),
            forall|g: int| 0 <= g < degrees@.len() ==> #[trigger] degrees@[g] == degree(ev, g),
            triples::triples_view(ts@) == neighbour_list(ev, ev.take(j as int), kinds@),
        decreases ends@.len() - j,
    {
        proof {
            syntax::lemma_take_step(ev, j as int);
            assert(ev[j as int] == ends@[j as int]@);
        }
        let from = ends[j].from;
        let to = ends[j].to;
        let a = kinds[from] == GroupKind::Contract;
        let b = kinds[to] == GroupKind::Contract;
        if a != b {
            let g = if a {
                to
            } else {
                from
            };
            let d = degrees[g] as i128;
            let x: Triple = (-d, 0, g as i128);
            let ghost before = ts@;
            ts.push(x);
            assert(triples::triples_view(ts@) == triples::triples_view(before).push(triples::triple_view(x)));
        }
        j += 1;
    }
    assert(ev.take(j as int) == ev);
    let sorted = triples::sort(&ts);
    proof {
        lemma_neighbours_below(ev, ev, kinds@);
        lemma_sorted_thirds(neighbour_list(ev, ev, kinds@), sorted@, kinds@.len() as int);
    }
    third_of(&sorted, kinds.len())
}

/// Appends the first items of a list, at least one.
fn add_some(out: &mut Vec<usize>, s: &Vec<usize>, n: usize, count: usize)
    requires
        forall|j: int| 0 <= j < s@.len() ==> #[trigger] s@[j] < count,
        forall|j: int| 0 <= j < old(out)@.len() ==> #[trigger] old(out)@[j] < count,
    ensures
        syntax::ints(final(out)@) == syntax::ints(old(out)@) + some_of(syntax::ints(s@), n as int),
        forall|j: int| 0 <= j < final(out)@.len() ==> #[trigger] final(out)@[j] < count,
{
    let ghost start = syntax::ints(out@);
    let ghost sv = syntax::ints(s@);
    assert(sv.len() == s@.len());
    let want = if n < 1 {
        1
    } else {
        n
    };
    let end = if want < s.len() {
        want
    } else {
        s.len()
    };
    let mut j: usize = 0;
    assert(start + sv.take(0) == start);
    while j < end
        invariant
            0 <= j <= end <= s@.len(),
            sv == syntax::ints(s@),
            forall|j: int| 0 <= j < s@.len() ==> #[trigger] s@[j] < count,
            forall|j: int| 0 <= j < out@.len() ==> #[trigger] out@[j] < count,
            syntax::ints(out@) == start + sv.take(j as int),
        decreases end - j,
    {
        let g = s[j];
        let ghost before = out@;
        out.push(g);
        assert(syntax::ints(out@) == syntax::ints(before).push(g as int));
        assert(sv[j as int] == g as int);
        assert(start + sv.take(j + 1) == (start + sv.take(j as int)).push(sv[j as int]));
        j += 1;
    }
    assert(sv.take(sv.len() as int) == sv);
}

fn is_among(s: &Vec<usize>, x: usize) -> (r: bool)
    ensures
        r == syntax::ints(s@).contains(x as int),
{
    let ghost sv = syntax::ints(s@);
    let k = first_place(s, x);
    proof {
        lemma_first(sv, x as int, 0);
        assert(sv.len() == s@.len());
    }
    k < s.len()
}

/// The items of a list that are not in another.
fn leave_out(s: &Vec<usize>, other: &Vec<usize>, count: usize) -> (r: Vec<usize>)
    requires
        forall|j: int| 0 <= j < s@.len() ==> #[trigger] s@[j] < count,
    ensures
        syntax::ints(r@) == without(syntax::ints(s@), syntax::ints(other@)),
        forall|j: int| 0 <= j < r@.len() ==> #[trigger] r@[j] < count,
{
    let ghost sv = syntax::ints(s@);
    let ghost ov = syntax::ints(other@);
    let mut out: Vec<usize> = Vec::new();
    let mut j: usize = 0;
    assert(sv.take(0) == Seq::<int>::empty());
    assert(syntax::ints(out@) == Seq::<int>::empty());
    while j < s.len()
        invariant
            0 <= j <= s@.len(),
            sv == syntax::ints(s@),
            ov == syntax::ints(other@),
            forall|j: int| 0 <= j < s@.len() ==> #[trigger] s@[j] < count,
            forall|j: int| 0 <= j < out@.len() ==> #[trigger] out@[j] < count,
            syntax::ints(out@) == without(sv.take(j as int), ov),
        decreases s@.len() - j,
    {
        let g = s[j];
        proof {
            syntax::lemma_take_step(sv, j as int);
            assert(sv[j as int] == g as int);
        }
        if !is_among(other, g) {
            let ghost before = out@;
            out.push(g);
            assert(syntax::ints(out@) == syntax::ints(before).push(g as int));
        }
        j += 1;
    }
    assert(sv.take(j as int) == sv);
    out
}

fn kind_place_in(s: &Vec<GroupKind>, x: GroupKind) -> (r: usize)
    ensures
        r == kind_from(s@, x, 0),
        r <= s@.len(),
        r < s@.len() <==> s@.contains(x),
{
    let mut i: usize = 0;
    while i < s.len()
        invariant
            0 <= i <= s@.len(),
            forall|j: int| 0 <= j < i ==> #[trigger] s@[j] != x,
            kind_from(s@, x, 0) == kind_from(s@, x, i as int),
        decreases s@.len() - i,
    {
        if s[i] == x {
            return i;
        }
        i += 1;
    }
    i
}

/// The kinds of the groups of a list.
fn list_kinds(s: &Vec<usize>, kinds: &Vec<GroupKind>) -> (r: Vec<GroupKind>)
    requires
        forall|j: int| 0 <= j < s@.len() ==> #[trigger] s@[j] < kinds@.len(),
    ensures
        r@ == kinds_among(syntax::ints(s@), kinds@),
{
    let ghost sv = syntax::ints(s@);
    let mut out: Vec<GroupKind> = Vec::new();
    let mut j: usize = 0;
    assert(sv.take(0) == Seq::<int>::empty());
    while j < s.len()
        invariant
            0 <= j <= s@.len(),
            sv == syntax::ints(s@),
            forall|j: int| 0 <= j < s@.len() ==> #[trigger] s@[j] < kinds@.len(),
            out@ == kinds_among(sv.take(j as int), kinds@),
        decreases s@.len() - j,
    {
        let k = kinds[s[j]];
        proof {
            syntax::lemma_take_step(sv, j as int);
            assert(sv[j as int] == s@[j as int] as int);
        }
        if kind_place_in(&out, k) == out.len() {
            out.push(k);
        }
        j += 1;
    }
    assert(sv.take(j as int) == sv);
    out
}

/// Where each group stands.
fn find_stands(shown: &Vec<usize>, buckets: &Vec<GroupKind>, kinds: &Vec<GroupKind>) -> (r: Vec<usize>)
    requires
        shown@.len() + buckets@.len() <= usize::MAX,
    ensures
        syntax::ints(r@) == stands(syntax::ints(shown@), buckets@, kinds@),
        r@.len() == kinds@.len(),
{
    let ghost sv = syntax::ints(shown@);
    let ghost want = stands(sv, buckets@, kinds@);
    assert(sv.len() == shown@.len());
    let mut out: Vec<usize> = Vec::new();
    let mut g: usize = 0;
    while g < kinds.len()
        invariant
            0 <= g <= kinds@.len(),
            sv == syntax::ints(shown@),
            sv.len() == shown@.len(),
            shown@.len() + buckets@.len() <= usize::MAX,
            want == stands(sv, buckets@, kinds@),
            out@.len() == g,
            forall|j: int| 0 <= j < g ==> #[trigger] out@[j] == want[j],
        decreases kinds@.len() - g,
    {
        let k = first_place(shown, g);
        proof {
            lemma_first(sv, g as int, 0);
        }
        if k < shown.len() {
            assert(sv[k as int] == g as int);
            assert(sv.contains(g as int));
            out.push(k);
        } else {
            assert(!sv.contains(g as int));
            out.push(shown.len() + kind_place_in(buckets, kinds[g]));
        }
        g += 1;
    }
    assert(syntax::ints(out@) == want);
    out
}

proof fn lemma_weight_range(es: Seq<Ends>, stand: Seq<int>, l: (int, int, int))
    ensures
        0 <= weight(es, stand, l) <= es.len(),
    decreases es.len(),
{
    if es.len() > 0 {
        lemma_weight_range(es.drop_last(), stand, l);
    }
}

/// How many links are drawn as one, and how unsure they are.
fn weigh(ends: &Vec<EndsOf>, stand: &Vec<usize>, l: Triple) -> (r: (usize, usize))
    requires
        ends_below(ends_view(ends@), stand@.len() as int),
    ensures
        r.0 == weight(ends_view(ends@), syntax::ints(stand@), triples::triple_view(l)),
        r.1 == worst(ends_view(ends@), syntax::ints(stand@), triples::triple_view(l)),
{
    let ghost ev = ends_view(ends@);
    let ghost sv = syntax::ints(stand@);
    let ghost lv = triples::triple_view(l);
    let mut count: usize = 0;
    let mut doubt: usize = 0;
    let mut j: usize = 0;
    assert(ev.take(0) == Seq::<Ends>::empty());
    while j < ends.len()
        invariant
            0 <= j <= ends@.len(),
            ev == ends_view(ends@),
            sv == syntax::ints(stand@),
            lv == triples::triple_view(l),
            ends_below(ev, stand@.len() as int),
            count == weight(ev.take(j as int), sv, lv),
            doubt == worst(ev.take(j as int), sv, lv),
        decreases ends@.len() - j,
    {
        proof {
            syntax::lemma_take_step(ev, j as int);
            assert(ev[j as int] == ends@[j as int]@);
            lemma_weight_range(ev.take(j as int), sv, lv);
        }
        let e = &ends[j];
        assert(sv[e.from as int] == stand@[e.from as int] as int && sv[e.to as int] == stand@[e.to as int] as int);
        if stand[e.from] as i128 == l.0 && stand[e.to] as i128 == l.1 && e.kind as i128 == l.2 {
            count += 1;
            if e.doubt > doubt {
                doubt = e.doubt;
            }
        }
        j += 1;
    }
    assert(ev.take(j as int) == ev);
    (count, doubt)
}

/// The places that links between drawn groups lead from and to.
fn find_drawn_links(ends: &Vec<EndsOf>, stand: &Vec<usize>) -> (r: Vec<Triple>)
    requires
        ends_below(ends_view(ends@), stand@.len() as int),
    ensures
        triples::triples_view(r@) == drawn_links(ends_view(ends@), syntax::ints(stand@)),
        forall|j: int| 0 <= j < r@.len() ==> 0 <= (#[trigger] r@[j]).0 <= usize::MAX && 0 <= r@[j].1 <= usize::MAX,
{
    let ghost ev = ends_view(ends@);
    let ghost sv = syntax::ints(stand@);
    let mut out: Vec<Triple> = Vec::new();
    let mut j: usize = 0;
    assert(ev.take(0) == Seq::<Ends>::empty());
    assert(triples::triples_view(out@) == Seq::<(int, int, int)>::empty());
    while j < ends.len()
        invariant
            0 <= j <= ends@.len(),
            ev == ends_view(ends@),
            sv == syntax::ints(stand@),
            ends_below(ev, stand@.len() as int),
            triples::triples_view(out@) == drawn_links(ev.take(j as int), sv),
            forall|j: int| 0 <= j < out@.len() ==> 0 <= (#[trigger] out@[j]).0 <= usize::MAX && 0 <= out@[j].1 <= usize::MAX,
        decreases ends@.len() - j,
    {
        proof {
            syntax::lemma_take_step(ev, j as int);
            assert(ev[j as int] == ends@[j as int]@);
        }
        let e = &ends[j];
        let from = stand[e.from];
        let to = stand[e.to];
        assert(sv[e.from as int] == from as int && sv[e.to as int] == to as int);
        if from != to {
            let x: Triple = (from as i128, to as i128, e.kind as i128);
            let ghost before = out@;
            out.push(x);
            assert(triples::triples_view(out@) == triples::triples_view(before).push(triples::triple_view(x)));
        }
        j += 1;
    }
    assert(ev.take(j as int) == ev);
    out
}

proof fn lemma_sorted_places(list: Seq<Triple>, sorted: Seq<Triple>)
    requires
        triples::triples_view(sorted) == triples::sorted_set(triples::triples_view(list)),
        forall|j: int| 0 <= j < list.len() ==> 0 <= (#[trigger] list[j]).0 <= usize::MAX && 0 <= list[j].1 <= usize::MAX,
    ensures
        forall|j: int| 0 <= j < sorted.len() ==> 0 <= (#[trigger] sorted[j]).0 <= usize::MAX && 0 <= sorted[j].1 <= usize::MAX,
{
    let lv = triples::triples_view(list);
    let sv = triples::triples_view(sorted);
    triples::law_sorted_set(lv);
    assert forall|j: int| 0 <= j < sorted.len() implies 0 <= (#[trigger] sorted[j]).0 <= usize::MAX && 0 <= sorted[j].1 <= usize::MAX by {
        assert(sv[j] == triples::triple_view(sorted[j]));
        assert(sv.contains(sv[j]));
        assert(lv.contains(sv[j]));
        let m = choose|m: int| 0 <= m < lv.len() && lv[m] == sv[j];
        assert(lv[m] == triples::triple_view(list[m]));
        assert(0 <= list[m].0 <= usize::MAX);
    }
}

/// The links between drawn groups.
fn fold_links(ends: &Vec<EndsOf>, stand: &Vec<usize>) -> (r: Vec<Link>)
    requires
        ends_below(ends_view(ends@), stand@.len() as int),
    ensures
        folded_links_view(r@) == links_of(ends_view(ends@), syntax::ints(stand@)),
{
    let ghost want = links_of(ends_view(ends@), syntax::ints(stand@));
    let list = find_drawn_links(ends, stand);
    let sorted = triples::sort(&list);
    proof {
        lemma_sorted_places(list@, sorted@);
    }
    let ghost sv = triples::triples_view(sorted@);
    let mut out: Vec<Link> = Vec::new();
    let mut j: usize = 0;
    while j < sorted.len()
        invariant
            0 <= j <= sorted@.len(),
            sv == triples::triples_view(sorted@),
            sv == triples::sorted_set(drawn_links(ends_view(ends@), syntax::ints(stand@))),
            want == links_of(ends_view(ends@), syntax::ints(stand@)),
            ends_below(ends_view(ends@), stand@.len() as int),
            forall|j: int| 0 <= j < sorted@.len() ==> 0 <= (#[trigger] sorted@[j]).0 <= usize::MAX && 0 <= sorted@[j].1 <= usize::MAX,
            out@.len() == j,
            forall|k: int| 0 <= k < j ==> (#[trigger] out@[k])@ == want[k],
        decreases sorted@.len() - j,
    {
        let l = sorted[j];
        assert(0 <= sorted@[j as int].0 <= usize::MAX);
        assert(sv[j as int] == triples::triple_view(l));
        let (count, doubt) = weigh(ends, stand, l);
        out.push(
            Link { from: l.0 as usize, to: l.1 as usize, kind: kind_of_place(l.2), count, weakest: confidence(doubt) },
        );
        j += 1;
    }
    assert(folded_links_view(out@) == want);
    out
}

proof fn lemma_labelled_range(nodes: Seq<ContractNodeView>, owner: Seq<int>, g: int, rank: int, n: int)
    requires
        0 <= n,
    ensures
        0 <= labelled(nodes, owner, g, rank, n) <= n,
    decreases n,
{
    if n > 0 {
        lemma_labelled_range(nodes, owner, g, rank, n - 1);
    }
}

/// How many contracts of a group have the label at a rank.
fn count_labelled(nodes: &Vec<ContractNode>, owner: &Vec<usize>, g: usize, rank: usize) -> (r: usize)
    requires
        owner@.len() == nodes@.len(),
    ensures
        r == labelled(model::nodes_view(nodes@), syntax::ints(owner@), g as int, rank as int, nodes@.len() as int),
{
    let ghost nv = model::nodes_view(nodes@);
    let ghost ov = syntax::ints(owner@);
    let mut count: usize = 0;
    let mut i: usize = 0;
    while i < nodes.len()
        invariant
            0 <= i <= nodes@.len(),
            nv == model::nodes_view(nodes@),
            ov == syntax::ints(owner@),
            owner@.len() == nodes@.len(),
            count == labelled(nv, ov, g as int, rank as int, i as int),
        decreases nodes@.len() - i,
    {
        assert(nv[i as int] == nodes@[i as int]@);
        assert(ov[i as int] == owner@[i as int] as int);
        proof {
            lemma_labelled_range(nv, ov, g as int, rank as int, i as int);
        }
        if owner[i] == g && rank_of(nodes[i].kind) == rank {
            count += 1;
        }
        i += 1;
    }
    count
}

/// How many contracts of a group there are of each kind.
fn count_by_kind(nodes: &Vec<ContractNode>, owner: &Vec<usize>, g: usize) -> (r: Vec<(&'static str, usize)>)
    requires
        owner@.len() == nodes@.len(),
    ensures
        counts_view(r@) == counts_of(model::nodes_view(nodes@), syntax::ints(owner@), g as int, 9),
{
    let ghost nv = model::nodes_view(nodes@);
    let ghost ov = syntax::ints(owner@);
    let mut out: Vec<(&'static str, usize)> = Vec::new();
    let mut rank: usize = 0;
    assert(counts_view(out@) == Seq::<(Seq<char>, int)>::empty());
    assert(nv.len() == nodes@.len());
    while rank < 9
        invariant
            0 <= rank <= 9,
            nv == model::nodes_view(nodes@),
            nv.len() == nodes@.len(),
            ov == syntax::ints(owner@),
            owner@.len() == nodes@.len(),
            counts_view(out@) == counts_of(nv, ov, g as int, rank as int),
        decreases 9 - rank,
    {
        let k = count_labelled(nodes, owner, g, rank);
        if k > 0 {
            let x = (label_of(rank), k);
            let ghost before = out@;
            out.push(x);
            assert(counts_view(out@) == counts_view(before).push((x.0@, x.1 as int)));
        }
        rank += 1;
    }
    out
}

/// Hidden groups, as mathematical values.
pub open spec fn hidden_view(v: Seq<(String, usize)>) -> Seq<(Seq<char>, int)> {
    v.map_values(|h: (String, usize)| (h.0@, h.1 as int))
}

/// Puts a hidden group in its place.
fn add_hidden(v: &mut Vec<(String, usize)>, name: String, size: usize)
    ensures
        hidden_view(final(v)@) == hidden_with(hidden_view(old(v)@), (name@, size as int)),
{
    let ghost vv = hidden_view(v@);
    let ghost x = (name@, size as int);
    let chars = text::chars_of(name.as_str());
    let mut p: usize = 0;
    assert(vv.skip(0) == vv);
    assert(vv.take(0) + hidden_with(vv.skip(0), x) == hidden_with(vv, x));
    while p < v.len()
        invariant_except_break
            0 <= p <= v@.len(),
            chars@ == name@,
            x == (name@, size as int),
            vv == hidden_view(v@),
            v@ == old(v)@,
            vv.take(p as int) + hidden_with(vv.skip(p as int), x) == hidden_with(vv, x),
        ensures
            0 <= p <= v@.len(),
            vv == hidden_view(v@),
            v@ == old(v)@,
            vv.take(p as int) + (seq![x] + vv.skip(p as int)) == hidden_with(vv, x),
        decreases v@.len() - p,
    {
        let other = text::chars_of(v[p].0.as_str());
        let ghost rest = vv.skip(p as int);
        assert(rest[0] == vv[p as int] && vv[p as int] == (other@, v@[p as int].1 as int));
        if size > v[p].1 || size == v[p].1 && order::precedes(chars.as_slice(), other.as_slice()) {
            break;
        }
        proof {
            assert(rest.drop_first() == vv.skip(p + 1));
            let inner = hidden_with(vv.skip(p + 1), x);
            assert(vv.take(p as int) + (seq![vv[p as int]] + inner) == vv.take(p + 1) + inner);
        }
        p += 1;
        assert(p == v@.len() ==> vv.skip(p as int) == Seq::<(Seq<char>, int)>::empty());
        assert(p == v@.len() ==> seq![x] + vv.skip(p as int) == seq![x]);
    }
    v.insert(p, (name, size));
    assert(hidden_view(v@) == vv.take(p as int) + (seq![x] + vv.skip(p as int)));
}

/// Hidden groups, the largest first.
fn list_hidden(folded: &Vec<usize>, names: &Vec<String>, sizes: &Vec<usize>, Ghost(owner): Ghost<Seq<int>>) -> (r: Vec<(String, usize)>)
    requires
        names@.len() == sizes@.len(),
        forall|j: int| 0 <= j < folded@.len() ==> #[trigger] folded@[j] < names@.len(),
        forall|g: int| 0 <= g < sizes@.len() ==> #[trigger] sizes@[g] == times(owner, g),
    ensures
        hidden_view(r@) == hidden_sorted(
            syntax::ints(folded@).map_values(|g: int| (text::strings(names@)[g], times(owner, g))),
        ),
{
    let ghost fv = syntax::ints(folded@);
    let ghost list = fv.map_values(|g: int| (text::strings(names@)[g], times(owner, g)));
    let mut out: Vec<(String, usize)> = Vec::new();
    let mut j: usize = 0;
    assert(list.take(0) == Seq::<(Seq<char>, int)>::empty());
    assert(hidden_view(out@) == Seq::<(Seq<char>, int)>::empty());
    while j < folded.len()
        invariant
            0 <= j <= folded@.len(),
            fv == syntax::ints(folded@),
            list == fv.map_values(|g: int| (text::strings(names@)[g], times(owner, g))),
            names@.len() == sizes@.len(),
            forall|j: int| 0 <= j < folded@.len() ==> #[trigger] folded@[j] < names@.len(),
            forall|g: int| 0 <= g < sizes@.len() ==> #[trigger] sizes@[g] == times(owner, g),
            hidden_view(out@) == hidden_sorted(list.take(j as int)),
        decreases folded@.len() - j,
    {
        let g = folded[j];
        proof {
            syntax::lemma_take_step(list, j as int);
            assert(fv[j as int] == g as int);
            assert(text::strings(names@)[g as int] == names@[g as int]@);
            assert(sizes@[g as int] == times(owner, g as int));
        }
        add_hidden(&mut out, text::copy(names[g].as_str()), sizes[g]);
        j += 1;
    }
    assert(list.take(j as int) == list);
    out
}

/// A topology of services.
#[derive(Clone, Debug)]
pub struct Topology {
    pub groups: Vec<Group>,
    pub links: Vec<Link>,
    /// The services and topics before any were folded.
    pub total_groups: usize,
    pub total_contracts: usize,
    pub total_edges: usize,
    /// The groups that are not drawn, and how many contracts each has, the largest first.
    pub hidden: Vec<(String, usize)>,
    /// What a service is: a repository (`root`) or a package (`package`).
    pub grouping: &'static str,
    /// The service in focus.
    pub focus: Option<String>,
}

impl View for Topology {
    type V = TopologyView;

    open spec fn view(&self) -> TopologyView {
        TopologyView {
            groups: groups_view(self.groups@),
            links: folded_links_view(self.links@),
            total_groups: self.total_groups as int,
            total_contracts: self.total_contracts as int,
            total_edges: self.total_edges as int,
            hidden: hidden_view(self.hidden@),
            grouping: self.grouping@,
            focus: text::opt_string(self.focus),
        }
    }
}

/// The parts of a topology.
struct PartsOf<'a> {
    nodes: &'a Vec<ContractNode>,
    lens: Grouping<'a>,
    owner: Vec<usize>,
    kinds: Vec<GroupKind>,
    names: Vec<String>,
    ends: Vec<EndsOf>,
}

impl<'a> View for PartsOf<'a> {
    type V = Parts;

    closed spec fn view(&self) -> Parts {
        Parts {
            nodes: model::nodes_view(self.nodes@),
            lens: self.lens@,
            owner: syntax::ints(self.owner@),
            kinds: self.kinds@,
            names: text::strings(self.names@),
            ends: ends_view(self.ends@),
        }
    }
}

impl<'a> PartsOf<'a> {
    /// Whether contracts belong to groups that there are, and links lead between them.
    spec fn holds(&self) -> bool {
        &&& self.owner@.len() == self.nodes@.len()
        &&& self.names@.len() == self.kinds@.len()
        &&& forall|i: int| 0 <= i < self.owner@.len() ==> #[trigger] self.owner@[i] < self.kinds@.len()
        &&& ends_below(ends_view(self.ends@), self.kinds@.len() as int)
    }

    /// The parts of a graph's topology.
    fn of(graph: &'a ContractGraph, lens: Grouping<'a>) -> (r: PartsOf<'a>)
        ensures
            r@ == parts_of(graph@, lens@),
            r.holds(),
    {
        let nodes = graph.all_nodes();
        let ghost nv = model::nodes_view(nodes@);
        let (owner, count) = find_owners(nodes, &lens);
        let ghost ov = syntax::ints(owner@);
        let ends = find_ends(graph.all_edges(), &owner, count);
        let mut kinds: Vec<GroupKind> = Vec::new();
        let mut names: Vec<String> = Vec::new();
        let ghost want = parts_of(graph@, lens@);
        let mut g: usize = 0;
        while g < count
            invariant
                0 <= g <= count,
                nv == model::nodes_view(nodes@),
                nv == graph@.nodes,
                ov == syntax::ints(owner@),
                ov == owners(nv, lens@),
                count == group_keys(nv, lens@).len(),
                want == parts_of(graph@, lens@),
                kinds@.len() == g,
                names@.len() == g,
                forall|k: int| 0 <= k < g ==> #[trigger] kinds@[k] == want.kinds[k],
                forall|k: int| 0 <= k < g ==> (#[trigger] names@[k])@ == want.names[k],
            decreases count - g,
        {
            let i = first_place(&owner, g);
            proof {
                law_every_group_has_a_contract(nv, lens@, g as int);
                assert(nv.len() == nodes@.len());
                assert(nv[i as int] == nodes@[i as int]@);
            }
            kinds.push(lens.kind(&nodes[i]));
            names.push(lens.name(&nodes[i]));
            g += 1;
        }
        assert(kinds@ == want.kinds);
        assert(text::strings(names@) == want.names);
        PartsOf { nodes, lens, owner, kinds, names, ends }
    }

    /// A group that is drawn by itself.
    fn group(&self, g: usize, sizes: &Vec<usize>, inner: &Vec<usize>) -> (r: Group)
        requires
            self.holds(),
            g < self.kinds@.len(),
            sizes@.len() == self.kinds@.len(),
            inner@.len() == self.kinds@.len(),
            forall|k: int| 0 <= k < sizes@.len() ==> #[trigger] sizes@[k] == times(self@.owner, k),
            forall|k: int| 0 <= k < inner@.len() ==> #[trigger] inner@[k] == inner_links(self@.ends, k),
        ensures
            r@ == group_view(self@, g as int),
    {
        assert(self@.names[g as int] == self.names@[g as int]@);
        assert(sizes@[g as int] == times(self@.owner, g as int));
        assert(inner@[g as int] == inner_links(self@.ends, g as int));
        let by_kind = if self.kinds[g] == GroupKind::Contract {
            Vec::new()
        } else {
            count_by_kind(self.nodes, &self.owner, g)
        };
        let ghost want = group_view(self@, g as int);
        assert(counts_view(by_kind@) == want.by_kind);
        Group {
            name: text::copy(self.names[g].as_str()),
            kind: self.kinds[g],
            contracts: sizes[g],
            by_kind,
            internal_edges: inner[g],
            folded: 0,
        }
    }

    /// The groups that are drawn.
    fn choose_drawn(&self, rank: &Vec<usize>, degrees: &Vec<usize>, max_groups: usize, max_contracts: usize) -> (r: Vec<usize>)
        requires
            self.holds(),
            degrees@.len() == self.kinds@.len(),
            forall|g: int| 0 <= g < degrees@.len() ==> #[trigger] degrees@[g] == degree(self@.ends, g),
            syntax::ints(rank@) == ranked(self@.ends, self@.owner, self@.kinds.len() as int),
            forall|j: int| 0 <= j < rank@.len() ==> #[trigger] rank@[j] < self.kinds@.len(),
        ensures
            syntax::ints(r@) == drawn(
                self@.ends,
                self@.owner,
                self@.kinds,
                self@.lens.focus is Some,
                max_groups as int,
                max_contracts as int,
            ),
            forall|j: int| 0 <= j < r@.len() ==> #[trigger] r@[j] < self.kinds@.len(),
    {
        let mut out: Vec<usize> = Vec::new();
        let ghost none = Seq::<int>::empty();
        assert(syntax::ints(out@) == none);
        let count = self.kinds.len();
        if self.lens.focus.is_some() {
            let mine = only_contracts(rank, &self.kinds);
            let others = rank_neighbours(&self.ends, degrees, &self.kinds);
            add_some(&mut out, &mine, max_contracts, count);
            let ghost first = some_of(contracts_among(syntax::ints(rank@), self@.kinds), max_contracts as int);
            assert(none + first == first);
            add_some(&mut out, &others, max_groups, count);
        } else {
            add_some(&mut out, rank, max_groups, count);
            let ghost first = some_of(syntax::ints(rank@), max_groups as int);
            assert(none + first == first);
        }
        out
    }

    /// The name of the group that those of a kind are folded into.
    fn name_other(&self, kind: GroupKind) -> (r: String)
        ensures
            r@ == other_name(kind, self@.lens.focus),
    {
        match kind {
            GroupKind::Topic => text::copy("other topics"),
            GroupKind::Contract => {
                let name = match &self.lens.focus {
                    Some(f) => text::chars_of(f.as_str()),
                    None => text::chars_of(""),
                };
                text::wrapped("other ", name.as_slice(), " contracts")
            },
            GroupKind::Service => text::copy("other services"),
            GroupKind::Other => text::copy("other services"),
        }
    }

    /// The groups that are drawn, and after them one for each kind that is folded, with no
    /// contracts in it yet.
    fn draw(&self, shown: &Vec<usize>, folded: &Vec<usize>, buckets: &Vec<GroupKind>, sizes: &Vec<usize>, inner: &Vec<usize>) -> (r: Vec<
        Group,
    >)
        requires
            self.holds(),
            forall|j: int| 0 <= j < shown@.len() ==> #[trigger] shown@[j] < self.kinds@.len(),
            forall|j: int| 0 <= j < folded@.len() ==> #[trigger] folded@[j] < self.kinds@.len(),
            sizes@.len() == self.kinds@.len(),
            inner@.len() == self.kinds@.len(),
            forall|k: int| 0 <= k < sizes@.len() ==> #[trigger] sizes@[k] == times(self@.owner, k),
            forall|k: int| 0 <= k < inner@.len() ==> #[trigger] inner@[k] == inner_links(self@.ends, k),
        ensures
            r@.len() == shown@.len() + buckets@.len(),
            forall|j: int| 0 <= j < shown@.len() ==> (#[trigger] r@[j])@ == group_view(self@, shown@[j] as int),
            forall|j: int|
                shown@.len() <= j < r@.len() ==> (#[trigger] r@[j])@ == (GroupView {
                    name: other_name(buckets@[j - shown@.len()], self@.lens.focus),
                    kind: GroupKind::Other,
                    contracts: 0,
                    by_kind: Seq::empty(),
                    internal_edges: 0,
                    folded: of_kind(syntax::ints(folded@), self@.kinds, buckets@[j - shown@.len()]),
                }),
    {
        let mut out: Vec<Group> = Vec::new();
        let mut j: usize = 0;
        while j < shown.len()
            invariant
                0 <= j <= shown@.len(),
                self.holds(),
                forall|j: int| 0 <= j < shown@.len() ==> #[trigger] shown@[j] < self.kinds@.len(),
                sizes@.len() == self.kinds@.len(),
                inner@.len() == self.kinds@.len(),
                forall|k: int| 0 <= k < sizes@.len() ==> #[trigger] sizes@[k] == times(self@.owner, k),
                forall|k: int| 0 <= k < inner@.len() ==> #[trigger] inner@[k] == inner_links(self@.ends, k),
                out@.len() == j,
                forall|k: int| 0 <= k < j ==> (#[trigger] out@[k])@ == group_view(self@, shown@[k] as int),
            decreases shown@.len() - j,
        {
            out.push(self.group(shown[j], sizes, inner));
            j += 1;
        }
        let mut b: usize = 0;
        while b < buckets.len()
            invariant
                0 <= b <= buckets@.len(),
                out@.len() == shown@.len() + b,
                self.holds(),
                forall|j: int| 0 <= j < folded@.len() ==> #[trigger] folded@[j] < self.kinds@.len(),
                forall|k: int| 0 <= k < shown@.len() ==> (#[trigger] out@[k])@ == group_view(self@, shown@[k] as int),
                forall|j: int|
                    shown@.len() <= j < out@.len() ==> (#[trigger] out@[j])@ == (GroupView {
                        name: other_name(buckets@[j - shown@.len()], self@.lens.focus),
                        kind: GroupKind::Other,
                        contracts: 0,
                        by_kind: Seq::empty(),
                        internal_edges: 0,
                        folded: of_kind(syntax::ints(folded@), self@.kinds, buckets@[j - shown@.len()]),
                    }),
            decreases buckets@.len() - b,
        {
            let none: Vec<(&'static str, usize)> = Vec::new();
            assert(counts_view(none@) == Seq::<(Seq<char>, int)>::empty());
            let x = Group {
                name: self.name_other(buckets[b]),
                kind: GroupKind::Other,
                contracts: 0,
                by_kind: none,
                internal_edges: 0,
                folded: self.count_kind(folded, buckets[b]),
            };
            out.push(x);
            b += 1;
        }
        out
    }

    /// How many of the groups in a list are of a kind.
    fn count_kind(&self, s: &Vec<usize>, kind: GroupKind) -> (r: usize)
        requires
            forall|j: int| 0 <= j < s@.len() ==> #[trigger] s@[j] < self.kinds@.len(),
        ensures
            r == of_kind(syntax::ints(s@), self@.kinds, kind),
    {
        let ghost sv = syntax::ints(s@);
        let mut count: usize = 0;
        let mut j: usize = 0;
        assert(sv.take(0) == Seq::<int>::empty());
        while j < s.len()
            invariant
                0 <= j <= s@.len(),
                sv == syntax::ints(s@),
                forall|j: int| 0 <= j < s@.len() ==> #[trigger] s@[j] < self.kinds@.len(),
                count == of_kind(sv.take(j as int), self@.kinds, kind),
                count <= j,
            decreases s@.len() - j,
        {
            proof {
                syntax::lemma_take_step(sv, j as int);
                assert(sv[j as int] == s@[j as int] as int);
            }
            if self.kinds[s[j]] == kind {
                count += 1;
            }
            j += 1;
        }
        assert(sv.take(j as int) == sv);
        count
    }

    /// How many contracts stand at a place.
    fn count_standing(&self, stand: &Vec<usize>, place: usize) -> (r: usize)
        requires
            self.holds(),
            stand@.len() == self.kinds@.len(),
        ensures
            r == standing_at(self@.owner, syntax::ints(stand@), place as int),
    {
        let ghost ov = self@.owner;
        let ghost sv = syntax::ints(stand@);
        let mut count: usize = 0;
        let mut j: usize = 0;
        assert(ov.take(0) == Seq::<int>::empty());
        while j < self.owner.len()
            invariant
                0 <= j <= self.owner@.len(),
                ov == syntax::ints(self.owner@),
                sv == syntax::ints(stand@),
                self.holds(),
                stand@.len() == self.kinds@.len(),
                count == standing_at(ov.take(j as int), sv, place as int),
                count <= j,
            decreases self.owner@.len() - j,
        {
            proof {
                syntax::lemma_take_step(ov, j as int);
                assert(ov[j as int] == self.owner@[j as int] as int);
                assert(sv[self.owner@[j as int] as int] == stand@[self.owner@[j as int] as int] as int);
            }
            if stand[self.owner[j]] == place {
                count += 1;
            }
            j += 1;
        }
        assert(ov.take(j as int) == ov);
        count
    }

    /// The topology of the parts.
    fn topology(self, max_groups: usize, max_contracts: usize, total_edges: usize) -> (r: Topology)
        requires
            self.holds(),
        ensures
            r@ == topology_of(self@, max_groups as int, max_contracts as int, total_edges as int),
    {
        let ghost p = self@;
        let ghost want = topology_of(p, max_groups as int, max_contracts as int, total_edges as int);
        let count = self.kinds.len();
        let sizes = tally(&self.owner, count);
        let degrees = count_degrees(&self.ends, count);
        let inner = count_inner(&self.ends, count);
        let rank = rank_groups(&degrees, &sizes, Ghost(p.ends), Ghost(p.owner));
        let shown = self.choose_drawn(&rank, &degrees, max_groups, max_contracts);
        let folded = leave_out(&rank, &shown, count);
        let buckets = list_kinds(&folded, &self.kinds);
        let mut groups = self.draw(&shown, &folded, &buckets, &sizes, &inner);
        let ghost placed = groups@;
        let total = groups.len();
        assert(shown@.len() + buckets@.len() == total);
        let stand = find_stands(&shown, &buckets, &self.kinds);
        let ghost sv = syntax::ints(stand@);
        let ghost shv = syntax::ints(shown@);
        let ghost fv = syntax::ints(folded@);
        assert(shv.len() == shown@.len());
        let mut j: usize = shown.len();
        while j < groups.len()
            invariant
                shown@.len() <= j <= groups@.len(),
                groups@.len() == placed.len(),
                p == self@,
                self.holds(),
                sv == syntax::ints(stand@),
                stand@.len() == self.kinds@.len(),
                forall|k: int| 0 <= k < shown@.len() ==> #[trigger] groups@[k] == placed[k],
                forall|k: int| j <= k < groups@.len() ==> #[trigger] groups@[k] == placed[k],
                forall|k: int|
                    shown@.len() <= k < j ==> (#[trigger] groups@[k])@ == (GroupView {
                        contracts: standing_at(p.owner, sv, k),
                        ..placed[k]@
                    }),
            decreases groups@.len() - j,
        {
            let n = self.count_standing(&stand, j);
            groups[j].contracts = n;
            j += 1;
        }
        let links = fold_links(&self.ends, &stand);
        let hidden = list_hidden(&folded, &self.names, &sizes, Ghost(p.owner));
        assert(groups_view(groups@) == want.groups) by {
            assert(want.groups.len() == groups@.len());
            assert forall|k: int| 0 <= k < groups@.len() implies groups_view(groups@)[k] == want.groups[k] by {
                if k < shown@.len() {
                    assert(shv[k] == shown@[k] as int);
                    assert(groups@[k] == placed[k]);
                } else {
                    let b = k - shown@.len();
                    assert(want.groups[k] == other_view(p, fv, sv, buckets@[b], shv.len() + b));
                    assert(groups@[k]@ == other_view(p, fv, sv, buckets@[b], k));
                }
            }
        }
        Topology {
            groups,
            links,
            total_groups: count,
            total_contracts: self.nodes.len(),
            total_edges,
            hidden,
            grouping: if self.lens.by_root {
                "root"
            } else {
                "package"
            },
            focus: self.lens.focus,
        }
    }
}

impl Topology {
    /// The topology of a graph, whose repositories have the given names.
    pub fn build(graph: &ContractGraph, repo_names: &[String], opts: &TopologyOptions) -> (r: Topology)
        ensures
            r@ == topology(
                graph@,
                text::strings(repo_names@),
                text::opt_string(opts.focus),
                opts.max_groups as int,
                opts.max_focus_contracts as int,
            ),
    {
        let nodes = graph.all_nodes();
        assert(text::strings(repo_names@).len() == repo_names@.len());
        let by_root = has_many_roots(nodes, repo_names.len());
        let focus = find_focus(nodes, repo_names, by_root, &opts.focus);
        let lens = Grouping { repos: repo_names, by_root, focus };
        assert(lens@ == lens_of(graph@, text::strings(repo_names@), text::opt_string(opts.focus)));
        let total_edges = graph.all_edges().len();
        let parts = PartsOf::of(graph, lens);
        parts.topology(opts.max_groups, opts.max_focus_contracts, total_edges)
    }
}

} // verus!
