//! The contract graph: the declarations of all files, and what links them.
use vstd::prelude::*;
use crate::index;
use crate::index::{FileIndex, FileIndexView};
use crate::model;
use crate::model::{ContractNode, ContractNodeView};
use crate::text;

verus! {

/// A declaration, by its place in the graph.
pub type NodeId = u32;

/// How a declaration is linked to another.
#[derive(Clone, Copy, Debug, PartialEq, Eq, Structural)]
pub enum EdgeKind {
    Produces,
    Consumes,
    CallsRpc,
    Implements,
    Imports,
    DispatchesTo,
}

/// How sure a link is.
#[derive(Clone, Copy, Debug, PartialEq, Eq, Structural)]
pub enum EdgeConfidence {
    Exact,
    Heuristic,
    Ambiguous,
}

impl EdgeConfidence {
    /// The word for it.
    pub open spec fn word(self) -> Seq<char> {
        match self {
            EdgeConfidence::Exact => "exact"@,
            EdgeConfidence::Heuristic => "heuristic"@,
            EdgeConfidence::Ambiguous => "ambiguous"@,
        }
    }

    /// The word for it.
    pub fn label(&self) -> (r: &'static str)
        ensures
            r@ == self.word(),
    {
        match self {
            EdgeConfidence::Exact => "exact",
            EdgeConfidence::Heuristic => "heuristic",
            EdgeConfidence::Ambiguous => "ambiguous",
        }
    }
}

/// A link between two declarations.
#[derive(Clone, Debug)]
pub struct ContractEdge {
    pub from: NodeId,
    pub to: NodeId,
    pub kind: EdgeKind,
    pub metadata: Option<String>,
    pub confidence: EdgeConfidence,
}

/// A link between two declarations, as a mathematical value.
#[verifier::ext_equal]
pub struct ContractEdgeView {
    pub from: int,
    pub to: int,
    pub kind: EdgeKind,
    pub metadata: Option<Seq<char>>,
    pub confidence: EdgeConfidence,
}

impl View for ContractEdge {
    type V = ContractEdgeView;

    open spec fn view(&self) -> ContractEdgeView {
        ContractEdgeView {
            from: self.from as int,
            to: self.to as int,
            kind: self.kind,
            metadata: text::opt_string(self.metadata),
            confidence: self.confidence,
        }
    }
}

/// A list of links, each by its view.
pub open spec fn edges_view(v: Seq<ContractEdge>) -> Seq<ContractEdgeView> {
    v.map_values(|e: ContractEdge| e@)
}

/// Links from declarations to names, as mathematical values.
pub open spec fn relations_view(v: Seq<(NodeId, String)>) -> Seq<(int, Seq<char>)> {
    v.map_values(|l: (NodeId, String)| (l.0 as int, l.1@))
}

/// The declarations of all files, and what links them to each other and to names.
#[derive(Debug)]
pub struct ContractGraph {
    nodes: Vec<ContractNode>,
    edges: Vec<ContractEdge>,
    dependencies: Vec<(NodeId, String)>,
    producers: Vec<(NodeId, String)>,
    consumers: Vec<(NodeId, String)>,
    rpc_calls: Vec<(NodeId, String)>,
}

/// A contract graph, as a mathematical value.
#[verifier::ext_equal]
pub struct GraphView {
    pub nodes: Seq<ContractNodeView>,
    pub edges: Seq<ContractEdgeView>,
    pub dependencies: Seq<(int, Seq<char>)>,
    pub producers: Seq<(int, Seq<char>)>,
    pub consumers: Seq<(int, Seq<char>)>,
    pub rpc_calls: Seq<(int, Seq<char>)>,
}

impl View for ContractGraph {
    type V = GraphView;

    closed spec fn view(&self) -> GraphView {
        GraphView {
            nodes: model::nodes_view(self.nodes@),
            edges: edges_view(self.edges@),
            dependencies: relations_view(self.dependencies@),
            producers: relations_view(self.producers@),
            consumers: relations_view(self.consumers@),
            rpc_calls: relations_view(self.rpc_calls@),
        }
    }
}

/// A declaration at a place in the graph.
pub open spec fn at_place(n: ContractNodeView, id: int) -> ContractNodeView {
    ContractNodeView { id, ..n }
}

/// Declarations at places from `first` on.
pub open spec fn numbered(nodes: Seq<ContractNodeView>, first: int) -> Seq<ContractNodeView> {
    nodes.map(|i: int, n: ContractNodeView| at_place(n, first + i))
}

impl GraphView {
    /// The graph without declarations.
    pub open spec fn empty() -> GraphView {
        GraphView {
            nodes: Seq::empty(),
            edges: Seq::empty(),
            dependencies: Seq::empty(),
            producers: Seq::empty(),
            consumers: Seq::empty(),
            rpc_calls: Seq::empty(),
        }
    }

    /// Whether every declaration's number is its place.
    pub open spec fn is_numbered(self) -> bool {
        forall|i: int| 0 <= i < self.nodes.len() ==> (#[trigger] self.nodes[i]).id == i
    }

    /// The graph with what was extracted from a file added.
    pub open spec fn with_file(self, x: FileIndexView) -> GraphView {
        let n = self.nodes.len() as int;
        GraphView {
            nodes: self.nodes + numbered(x.nodes, n),
            dependencies: self.dependencies + index::shifted(x.dependencies, n),
            producers: self.producers + index::shifted(x.producers, n),
            consumers: self.consumers + index::shifted(x.consumers, n),
            rpc_calls: self.rpc_calls + index::shifted(x.rpc_calls, n),
            ..self
        }
    }
}

/// Adding files keeps every declaration's number its place.
pub proof fn law_files_keep_numbers(g: GraphView, x: FileIndexView)
    requires
        g.is_numbered(),
    ensures
        g.with_file(x).is_numbered(),
{
}

/// Adding two files one after the other is adding what they hold merged.
pub proof fn law_apply_follows_merge(g: GraphView, a: FileIndexView, b: FileIndexView)
    ensures
        g.with_file(a).with_file(b) == g.with_file(a.followed_by(b)),
{
    let n = g.nodes.len() as int;
    let m = a.nodes.len() as int;
    let left = g.with_file(a).with_file(b);
    let right = g.with_file(a.followed_by(b));
    assert(left.nodes == right.nodes) by {
        assert(left.nodes.len() == right.nodes.len());
        assert forall|i: int| 0 <= i < left.nodes.len() implies left.nodes[i] == right.nodes[i] by {}
    }
    lemma_shifts(g.dependencies, a.dependencies, b.dependencies, n, m);
    lemma_shifts(g.producers, a.producers, b.producers, n, m);
    lemma_shifts(g.consumers, a.consumers, b.consumers, n, m);
    lemma_shifts(g.rpc_calls, a.rpc_calls, b.rpc_calls, n, m);
    assert(left =~= right);
}

proof fn lemma_shifts(g: Seq<(int, Seq<char>)>, a: Seq<(int, Seq<char>)>, b: Seq<(int, Seq<char>)>, n: int, m: int)
    ensures
        g + index::shifted(a, n) + index::shifted(b, n + m) == g + index::shifted(a + index::shifted(b, m), n),
{
    assert(index::shifted(a + index::shifted(b, m), n) =~= index::shifted(a, n) + index::shifted(b, n + m));
    assert(g + index::shifted(a, n) + index::shifted(b, n + m) =~= g + (index::shifted(a, n) + index::shifted(b, n + m)));
}

impl ContractGraph {
    /// A graph without declarations.
    pub fn new() -> (r: ContractGraph)
        ensures
            r@ == GraphView::empty(),
    {
        ContractGraph {
            nodes: Vec::new(),
            edges: Vec::new(),
            dependencies: Vec::new(),
            producers: Vec::new(),
            consumers: Vec::new(),
            rpc_calls: Vec::new(),
        }
    }

    /// Adds a declaration and numbers it by its place.
    pub fn add_node(&mut self, node: ContractNode) -> (r: NodeId)
        requires
            old(self)@.nodes.len() <= u32::MAX,
        ensures
            r == old(self)@.nodes.len(),
            final(self)@ == (GraphView { nodes: old(self)@.nodes.push(at_place(node@, r as int)), ..old(self)@ }),
    {
        assert(self@.nodes.len() == self.nodes@.len());
        let id = self.nodes.len() as u32;
        let mut node = node;
        node.id = id;
        model::push_node(&mut self.nodes, node);
        id
    }

    /// Adds a link between declarations.
    pub fn add_edge(&mut self, edge: ContractEdge)
        ensures
            final(self)@ == (GraphView { edges: old(self)@.edges.push(edge@), ..old(self)@ }),
    {
        let ghost before = self.edges@;
        self.edges.push(edge);
        assert(edges_view(self.edges@) == edges_view(before).push(edge@));
    }

    /// Adds what a declaration imports.
    pub fn add_dependency(&mut self, id: NodeId, target: &str)
        ensures
            final(self)@ == (GraphView { dependencies: old(self)@.dependencies.push((id as int, target@)), ..old(self)@ }),
    {
        push_relation(&mut self.dependencies, id, target);
    }

    /// Adds a topic that a declaration produces.
    pub fn add_producer(&mut self, id: NodeId, topic: &str)
        ensures
            final(self)@ == (GraphView { producers: old(self)@.producers.push((id as int, topic@)), ..old(self)@ }),
    {
        push_relation(&mut self.producers, id, topic);
    }

    /// Adds a topic that a declaration consumes.
    pub fn add_consumer(&mut self, id: NodeId, topic: &str)
        ensures
            final(self)@ == (GraphView { consumers: old(self)@.consumers.push((id as int, topic@)), ..old(self)@ }),
    {
        push_relation(&mut self.consumers, id, topic);
    }

    /// Adds a gRPC service or method that a declaration calls.
    pub fn add_rpc_call(&mut self, id: NodeId, target: &str)
        ensures
            final(self)@ == (GraphView { rpc_calls: old(self)@.rpc_calls.push((id as int, target@)), ..old(self)@ }),
    {
        push_relation(&mut self.rpc_calls, id, target);
    }

    /// How many declarations there are.
    pub fn node_count(&self) -> (r: usize)
        ensures
            r == self@.nodes.len(),
    {
        assert(self@.nodes.len() == self.nodes@.len());
        self.nodes.len()
    }

    /// The declarations.
    pub fn all_nodes(&self) -> (r: &Vec<ContractNode>)
        ensures
            model::nodes_view(r@) == self@.nodes,
            r@.len() == self@.nodes.len(),
    {
        &self.nodes
    }

    /// The links between declarations.
    pub fn all_edges(&self) -> (r: &Vec<ContractEdge>)
        ensures
            edges_view(r@) == self@.edges,
            r@.len() == self@.edges.len(),
    {
        &self.edges
    }

    /// What declarations import.
    pub fn all_dependencies(&self) -> (r: &Vec<(NodeId, String)>)
        ensures
            relations_view(r@) == self@.dependencies,
    {
        &self.dependencies
    }

    /// The topics that declarations produce.
    pub fn all_producers(&self) -> (r: &Vec<(NodeId, String)>)
        ensures
            relations_view(r@) == self@.producers,
    {
        &self.producers
    }

    /// The topics that declarations consume.
    pub fn all_consumers(&self) -> (r: &Vec<(NodeId, String)>)
        ensures
            relations_view(r@) == self@.consumers,
    {
        &self.consumers
    }

    /// What declarations call.
    pub fn all_rpc_calls(&self) -> (r: &Vec<(NodeId, String)>)
        ensures
            relations_view(r@) == self@.rpc_calls,
    {
        &self.rpc_calls
    }
}

/// Appends a relation.
fn push_relation(v: &mut Vec<(NodeId, String)>, id: NodeId, target: &str)
    ensures
        relations_view(final(v)@) == relations_view(old(v)@).push((id as int, target@)),
{
    let ghost before = v@;
    let t = text::copy(target);
    v.push((id, t));
    assert(relations_view(v@) == relations_view(before).push((id as int, t@)));
}

/// Appends relations that start `n` places further on.
fn push_relations(v: &mut Vec<(NodeId, String)>, from: &Vec<(usize, String)>, n: usize)
    requires
        forall|j: int| 0 <= j < from@.len() ==> (#[trigger] from@[j]).0 + n <= u32::MAX,
    ensures
        relations_view(final(v)@) == relations_view(old(v)@) + index::shifted(model::links_view(from@), n as int),
{
    let ghost start = relations_view(v@);
    let ghost tail = index::shifted(model::links_view(from@), n as int);
    let mut j: usize = 0;
    assert(start + tail.take(0) == start);
    while j < from.len()
        invariant
            0 <= j <= from@.len(),
            tail == index::shifted(model::links_view(from@), n as int),
            forall|j: int| 0 <= j < from@.len() ==> (#[trigger] from@[j]).0 + n <= u32::MAX,
            relations_view(v@) == start + tail.take(j as int),
        decreases from@.len() - j,
    {
        assert(from@[j as int].0 + n <= u32::MAX);
        assert(tail[j as int] == (from@[j as int].0 + n, from@[j as int].1@));
        push_relation(v, (from[j].0 + n) as u32, from[j].1.as_str());
        assert(start + tail.take(j + 1) == (start + tail.take(j as int)).push(tail[j as int]));
        j += 1;
    }
    assert(tail.take(j as int) == tail);
}

proof fn lemma_room(v: Seq<(usize, String)>, n: int, bound: int)
    requires
        index::links_below(model::links_view(v), bound),
        n + bound <= u32::MAX + 1,
    ensures
        forall|j: int| 0 <= j < v.len() ==> (#[trigger] v[j]).0 + n <= u32::MAX,
{
    assert forall|j: int| 0 <= j < v.len() implies (#[trigger] v[j]).0 + n <= u32::MAX by {
        assert(model::links_view(v)[j] == (v[j].0 as int, v[j].1@));
    }
}

impl FileIndex {
    /// Adds what was extracted from a file to a graph.
    pub fn apply(self, graph: &mut ContractGraph)
        requires
            self@.linked(),
            old(graph)@.nodes.len() + self@.nodes.len() <= u32::MAX + 1,
        ensures
            final(graph)@ == old(graph)@.with_file(self@),
    {
        let ghost start = graph@;
        let ghost x = self@;
        let n = graph.nodes.len();
        proof {
            assert(start.nodes.len() == n);
            assert(x.nodes.len() == self.nodes@.len());
            lemma_room(self.dependencies@, n as int, x.nodes.len() as int);
            lemma_room(self.producers@, n as int, x.nodes.len() as int);
            lemma_room(self.consumers@, n as int, x.nodes.len() as int);
            lemma_room(self.rpc_calls@, n as int, x.nodes.len() as int);
        }
        let FileIndex { nodes, dependencies, producers, consumers, rpc_calls, parse_failed: _ } = self;
        add_all(graph, nodes);
        push_relations(&mut graph.dependencies, &dependencies, n);
        push_relations(&mut graph.producers, &producers, n);
        push_relations(&mut graph.consumers, &consumers, n);
        push_relations(&mut graph.rpc_calls, &rpc_calls, n);
    }
}

/// Adds declarations, in order.
fn add_all(graph: &mut ContractGraph, nodes: Vec<ContractNode>)
    requires
        old(graph)@.nodes.len() + nodes@.len() <= u32::MAX + 1,
    ensures
        final(graph)@ == (GraphView {
            nodes: old(graph)@.nodes + numbered(model::nodes_view(nodes@), old(graph)@.nodes.len() as int),
            ..old(graph)@
        }),
{
    let ghost start = graph@;
    let ghost nv = model::nodes_view(nodes@);
    let ghost all = numbered(nv, start.nodes.len() as int);
    let n = graph.nodes.len();
    let mut nodes = nodes;
    let ghost whole = nodes@;
    let mut j: usize = 0;
    while j < nodes.len()
        invariant
            0 <= j <= nodes@.len(),
            nodes@.len() == whole.len(),
            n + whole.len() <= u32::MAX + 1,
            nv == model::nodes_view(whole),
            all == numbered(nv, n as int),
            forall|i: int| 0 <= i < j ==> (#[trigger] nodes@[i])@ == all[i],
            forall|i: int| j <= i < nodes@.len() ==> #[trigger] nodes@[i] == whole[i],
        decreases nodes@.len() - j,
    {
        assert(nv[j as int] == nodes@[j as int]@);
        nodes[j].id = (n + j) as u32;
        j += 1;
    }
    assert(model::nodes_view(nodes@) == all);
    let ghost mine = graph.nodes@;
    let ghost theirs = nodes@;
    graph.nodes.append(&mut nodes);
    assert(model::nodes_view(graph.nodes@) == model::nodes_view(mine) + model::nodes_view(theirs));
}

} // verus!
