//! What holds of drawn graphs.
use vstd::prelude::*;
use crate::contracts::{ContractEdgeView, EdgeConfidence, EdgeKind, GraphView};
use crate::graph;
use crate::languages::walk_laws;
use crate::languages::walk_laws::has_text;
use crate::model::{ContractNodeView, NodeKind};
use crate::numbers;
use crate::order;
use crate::text;
use crate::topology::{GroupKind, GroupView, LinkView, TopologyView};
use crate::topology_text;

verus! {

/// Whether a text is the line that draws a contract between two brackets: its number, and its name
/// without the characters that no label can hold.
pub open spec fn draws(line: Seq<char>, n: ContractNodeView, open: Seq<char>, close: Seq<char>) -> bool {
    line == "      n_"@ + numbers::decimal(n.id) + open + "\""@ + text::removed(n.name, "\";<>{}[]"@) + "\""@ + close + "\n"@
}

proof fn lemma_node_drawn(
    nodes: Seq<ContractNodeView>,
    repos: Seq<Seq<char>>,
    repo: Seq<char>,
    package: Seq<char>,
    i: int,
)
    requires
        0 <= i < nodes.len(),
        graph::repo_of(nodes[i], repos) == repo,
        graph::package_of(nodes[i]) == package,
    ensures
        has_text(graph::node_lines(nodes, repos, repo, package), graph::node_line(nodes[i])),
    decreases nodes.len(),
{
    let front = nodes.drop_last();
    let rest = graph::node_lines(front, repos, repo, package);
    if i < front.len() {
        assert(front[i] == nodes[i]);
        lemma_node_drawn(front, repos, repo, package, i);
        walk_laws::lemma_text_within(Seq::empty(), rest, graph::node_line(nodes.last()), graph::node_line(nodes[i]));
    } else {
        walk_laws::lemma_text_itself(graph::node_line(nodes[i]));
        walk_laws::lemma_text_within(rest, graph::node_line(nodes[i]), Seq::empty(), graph::node_line(nodes[i]));
    }
}

proof fn lemma_box_in_boxes(nodes: Seq<ContractNodeView>, repos: Seq<Seq<char>>, repo: Seq<char>, packages: Seq<Seq<char>>, k: int, p: Seq<char>)
    requires
        0 <= k < packages.len(),
        has_text(graph::package_box(nodes, repos, repo, packages[k]), p),
    ensures
        has_text(graph::package_boxes(nodes, repos, repo, packages), p),
    decreases packages.len(),
{
    let front = packages.drop_last();
    let rest = graph::package_boxes(nodes, repos, repo, front);
    let last = graph::package_box(nodes, repos, repo, packages.last());
    if k < front.len() {
        assert(front[k] == packages[k]);
        lemma_box_in_boxes(nodes, repos, repo, front, k, p);
        walk_laws::lemma_text_within(Seq::empty(), rest, last, p);
    } else {
        walk_laws::lemma_text_within(rest, last, Seq::empty(), p);
    }
}

proof fn lemma_repo_in_boxes(nodes: Seq<ContractNodeView>, repos: Seq<Seq<char>>, names: Seq<Seq<char>>, k: int, p: Seq<char>)
    requires
        0 <= k < names.len(),
        has_text(graph::repo_box(nodes, repos, names[k]), p),
    ensures
        has_text(graph::repo_boxes(nodes, repos, names), p),
    decreases names.len(),
{
    let front = names.drop_last();
    let rest = graph::repo_boxes(nodes, repos, front);
    let last = graph::repo_box(nodes, repos, names.last());
    if k < front.len() {
        assert(front[k] == names[k]);
        lemma_repo_in_boxes(nodes, repos, front, k, p);
        walk_laws::lemma_text_within(Seq::empty(), rest, last, p);
    } else {
        walk_laws::lemma_text_within(rest, last, Seq::empty(), p);
    }
}

proof fn lemma_package_listed(nodes: Seq<ContractNodeView>, repos: Seq<Seq<char>>, repo: Seq<char>, i: int)
    requires
        0 <= i < nodes.len(),
        graph::repo_of(nodes[i], repos) == repo,
    ensures
        graph::packages_of(nodes, repos, repo).contains(graph::package_of(nodes[i])),
    decreases nodes.len(),
{
    let front = nodes.drop_last();
    let rest = graph::packages_of(front, repos, repo);
    let found = graph::packages_of(nodes, repos, repo);
    if i < front.len() {
        assert(front[i] == nodes[i]);
        lemma_package_listed(front, repos, repo, i);
        let k = choose|k: int| 0 <= k < rest.len() && rest[k] == graph::package_of(nodes[i]);
        assert(found[k] == rest[k]);
    } else {
        assert(found[rest.len() as int] == graph::package_of(nodes[i]));
    }
}

/// Every contract of a graph is drawn, in a shape that tells its kind: topics, streams and queues
/// as stadiums, services of gRPC and HTTP endpoints as subroutines, messages as rhombuses, all
/// others as boxes.
pub proof fn law_every_contract_is_drawn(g: GraphView, workspace: Seq<char>, repos: Seq<Seq<char>>, i: int, line: Seq<char>)
    requires
        0 <= i < g.nodes.len(),
        match g.nodes[i].kind {
            NodeKind::KafkaTopic => draws(line, g.nodes[i], "(["@, "])"@),
            NodeKind::EventStream => draws(line, g.nodes[i], "(["@, "])"@),
            NodeKind::Queue => draws(line, g.nodes[i], "(["@, "])"@),
            NodeKind::GrpcService => draws(line, g.nodes[i], "[["@, "]]"@),
            NodeKind::HttpEndpoint => draws(line, g.nodes[i], "[["@, "]]"@),
            NodeKind::ProtoMessage => draws(line, g.nodes[i], "{"@, "}"@),
            NodeKind::GrpcMethod => draws(line, g.nodes[i], "["@, "]"@),
            NodeKind::Interface => draws(line, g.nodes[i], "["@, "]"@),
            NodeKind::Saga => draws(line, g.nodes[i], "["@, "]"@),
            NodeKind::PostProcessor => draws(line, g.nodes[i], "["@, "]"@),
            NodeKind::ServiceClass => draws(line, g.nodes[i], "["@, "]"@),
        },
    ensures
        has_text(graph::mermaid(g, workspace, repos), line),
{
    let n = g.nodes[i];
    let repo = graph::repo_of(n, repos);
    let package = graph::package_of(n);
    assert(line == graph::node_line(n));
    lemma_node_drawn(g.nodes, repos, repo, package, i);
    walk_laws::lemma_text_within(
        graph::package_line(repo, package),
        graph::node_lines(g.nodes, repos, repo, package),
        "    end\n"@,
        line,
    );
    let packages = graph::packages_of(g.nodes, repos, repo);
    lemma_package_listed(g.nodes, repos, repo, i);
    order::law_sorted_set(packages);
    let sorted = order::sorted_set(packages);
    assert(sorted.contains(package));
    let k = choose|k: int| 0 <= k < sorted.len() && sorted[k] == package;
    lemma_box_in_boxes(g.nodes, repos, repo, sorted, k, line);
    walk_laws::lemma_text_within(graph::repo_line(repo), graph::package_boxes(g.nodes, repos, repo, sorted), "  end\n"@, line);
    let all = graph::repos_of(g.nodes, repos);
    assert(all[i] == repo);
    order::law_sorted_set(all);
    let names = order::sorted_set(all);
    assert(names.contains(repo));
    let m = choose|m: int| 0 <= m < names.len() && names[m] == repo;
    lemma_repo_in_boxes(g.nodes, repos, names, m, line);
    let head = "%% CausalMesh Topology: "@ + workspace + "\n"@ + "graph TD\n"@;
    let boxes = graph::repo_boxes(g.nodes, repos, names);
    let tail = graph::edge_lines(g.edges, g.nodes.len() as int);
    walk_laws::lemma_text_within(head, boxes, "\n"@ + tail, line);
    assert(graph::mermaid(g, workspace, repos) == head + boxes + ("\n"@ + tail));
}

proof fn lemma_edge_drawn(edges: Seq<ContractEdgeView>, count: int, j: int)
    requires
        0 <= j < edges.len(),
        edges[j].to < count,
    ensures
        has_text(graph::edge_lines(edges, count), graph::edge_line(edges[j])),
    decreases edges.len(),
{
    let front = edges.drop_last();
    let rest = graph::edge_lines(front, count);
    if j < front.len() {
        assert(front[j] == edges[j]);
        lemma_edge_drawn(front, count, j);
        walk_laws::lemma_text_within(Seq::empty(), rest, graph::edge_line(edges.last()), graph::edge_line(edges[j]));
    } else {
        walk_laws::lemma_text_itself(graph::edge_line(edges[j]));
        walk_laws::lemma_text_within(rest, graph::edge_line(edges[j]), Seq::empty(), graph::edge_line(edges[j]));
    }
}

/// Whether a text is the line that draws an edge with an arrow.
pub open spec fn joins(line: Seq<char>, e: ContractEdgeView, arrow: Seq<char>) -> bool {
    line == "  n_"@ + numbers::decimal(e.from) + " "@ + arrow + " n_"@ + numbers::decimal(e.to) + "\n"@
}

/// Whether a text is the line of an edge that is certain.
pub open spec fn joins_for_certain(line: Seq<char>, e: ContractEdgeView) -> bool {
    match e.kind {
        EdgeKind::Produces => joins(line, e, "== "@ + ("Produces"@ + ""@) + " ==> "@),
        EdgeKind::Consumes => joins(line, e, "-. "@ + ("Consumes"@ + ""@) + " .-> "@),
        EdgeKind::CallsRpc => joins(line, e, "-- "@ + ("CallsRpc"@ + ""@) + " --> "@),
        EdgeKind::Implements => joins(line, e, "-- "@ + ("Implements"@ + ""@) + " --> "@),
        EdgeKind::Imports => joins(line, e, "--> "@),
        EdgeKind::DispatchesTo => joins(line, e, "== "@ + ("Dispatches"@ + ""@) + " ==> "@),
    }
}

/// Whether a text is the line of an edge that is in doubt, with a note on that.
pub open spec fn joins_with_note(line: Seq<char>, e: ContractEdgeView, note: Seq<char>) -> bool {
    match e.kind {
        EdgeKind::Produces => joins(line, e, "== "@ + ("Produces"@ + note) + " ==> "@),
        EdgeKind::Consumes => joins(line, e, "-. "@ + ("Consumes"@ + note) + " .-> "@),
        EdgeKind::CallsRpc => joins(line, e, "-- "@ + ("CallsRpc"@ + note) + " --> "@),
        EdgeKind::Implements => joins(line, e, "-- "@ + ("Implements"@ + note) + " --> "@),
        EdgeKind::Imports => joins(line, e, "-- "@ + ("Imports"@ + note) + " --> "@),
        EdgeKind::DispatchesTo => joins(line, e, "== "@ + ("Dispatches"@ + note) + " ==> "@),
    }
}

/// Every edge of a graph that leads to a contract of it is drawn, from the contract that it starts
/// from to that one, with an arrow and a word that tell its kind, and a note where it is in doubt.
pub proof fn law_every_edge_is_drawn(g: GraphView, workspace: Seq<char>, repos: Seq<Seq<char>>, j: int, line: Seq<char>)
    requires
        0 <= j < g.edges.len(),
        g.edges[j].to < g.nodes.len(),
        match g.edges[j].confidence {
            EdgeConfidence::Exact => joins_for_certain(line, g.edges[j]),
            EdgeConfidence::Heuristic => joins_with_note(line, g.edges[j], " (heuristic)"@),
            EdgeConfidence::Ambiguous => joins_with_note(line, g.edges[j], " (ambiguous)"@),
        },
    ensures
        has_text(graph::mermaid(g, workspace, repos), line),
{
    let e = g.edges[j];
    assert(line == graph::edge_line(e));
    lemma_edge_drawn(g.edges, g.nodes.len() as int, j);
    let head = "%% CausalMesh Topology: "@ + workspace + "\n"@ + "graph TD\n"@ + graph::repo_boxes(
        g.nodes,
        repos,
        order::sorted_set(graph::repos_of(g.nodes, repos)),
    ) + "\n"@;
    walk_laws::lemma_text_within(head, graph::edge_lines(g.edges, g.nodes.len() as int), Seq::empty(), line);
}

/// The payload of a graph gives every contract and every edge once, in their order, each with the
/// word for its kind, and an edge with the word for how certain it is.
pub proof fn law_payload_gives_all(g: GraphView, workspace: Seq<char>, repos: Seq<Seq<char>>, i: int, j: int)
    requires
        0 <= i < g.nodes.len(),
        0 <= j < g.edges.len(),
    ensures
        ({
            let p = graph::payload_of(g, workspace, repos);
            let n = g.nodes[i];
            let e = g.edges[j];
            &&& p.workspace_name == workspace
            &&& p.total_nodes == g.nodes.len() == p.nodes.len()
            &&& p.total_edges == g.edges.len() == p.edges.len()
            &&& p.nodes[i].name == n.name && p.nodes[i].file_path == n.file_path && p.nodes[i].line_start == n.line_start
                && p.nodes[i].line_end == n.line_end && p.nodes[i].package == n.package && p.nodes[i].signature == n.signature
            &&& 0 <= n.id <= u32::MAX ==> p.nodes[i].id == n.id
            &&& 0 <= n.repo_id < repos.len() ==> p.nodes[i].repo == repos[n.repo_id as int]
            &&& n.repo_id >= repos.len() ==> p.nodes[i].repo == n.package
            &&& n.kind == NodeKind::GrpcService ==> p.nodes[i].kind == "GrpcService"@
            &&& n.kind == NodeKind::GrpcMethod ==> p.nodes[i].kind == "GrpcMethod"@
            &&& n.kind == NodeKind::HttpEndpoint ==> p.nodes[i].kind == "HttpEndpoint"@
            &&& n.kind == NodeKind::ProtoMessage ==> p.nodes[i].kind == "ProtoMessage"@
            &&& n.kind == NodeKind::Interface ==> p.nodes[i].kind == "Interface"@
            &&& n.kind == NodeKind::KafkaTopic ==> p.nodes[i].kind == "KafkaTopic"@
            &&& n.kind == NodeKind::EventStream ==> p.nodes[i].kind == "EventStream"@
            &&& n.kind == NodeKind::Queue ==> p.nodes[i].kind == "Queue"@
            &&& n.kind == NodeKind::Saga ==> p.nodes[i].kind == "Saga"@
            &&& n.kind == NodeKind::PostProcessor ==> p.nodes[i].kind == "PostProcessor"@
            &&& n.kind == NodeKind::ServiceClass ==> p.nodes[i].kind == "ServiceClass"@
            &&& 0 <= e.from <= u32::MAX ==> p.edges[j].from == e.from
            &&& 0 <= e.to <= u32::MAX ==> p.edges[j].to == e.to
            &&& p.edges[j].metadata == e.metadata
            &&& e.kind == EdgeKind::Produces ==> p.edges[j].kind == "Produces"@
            &&& e.kind == EdgeKind::Consumes ==> p.edges[j].kind == "Consumes"@
            &&& e.kind == EdgeKind::CallsRpc ==> p.edges[j].kind == "CallsRpc"@
            &&& e.kind == EdgeKind::Implements ==> p.edges[j].kind == "Implements"@
            &&& e.kind == EdgeKind::Imports ==> p.edges[j].kind == "Imports"@
            &&& e.kind == EdgeKind::DispatchesTo ==> p.edges[j].kind == "DispatchesTo"@
            &&& e.confidence == EdgeConfidence::Exact ==> p.edges[j].confidence == "exact"@
            &&& e.confidence == EdgeConfidence::Heuristic ==> p.edges[j].confidence == "heuristic"@
            &&& e.confidence == EdgeConfidence::Ambiguous ==> p.edges[j].confidence == "ambiguous"@
        }),
{
}

/// Whether a text is the line that draws a group between two brackets.
pub open spec fn draws_group(line: Seq<char>, i: int, caption: Seq<char>, open: Seq<char>, close: Seq<char>) -> bool {
    line == "  g"@ + numbers::decimal(i) + open + "\""@ + text::replaced(caption, "\""@, '\'') + "\""@ + close + "\n"@
}

proof fn lemma_group_drawn(groups: Seq<GroupView>, n: int, i: int)
    requires
        0 <= i < n <= groups.len(),
    ensures
        has_text(topology_text::group_lines(groups, n), topology_text::group_line(groups[i], i)),
    decreases n,
{
    let rest = topology_text::group_lines(groups, n - 1);
    let last = topology_text::group_line(groups[n - 1], n - 1);
    if i < n - 1 {
        lemma_group_drawn(groups, n - 1, i);
        walk_laws::lemma_text_within(Seq::empty(), rest, last, topology_text::group_line(groups[i], i));
    } else {
        walk_laws::lemma_text_itself(last);
        walk_laws::lemma_text_within(rest, last, Seq::empty(), last);
    }
}

/// Every group of a topology is drawn under its number, in a shape that tells its kind: services as
/// boxes, topics as stadiums, contracts of the focus as rounded boxes, folded groups slanted. A
/// folded group is captioned with the numbers of its groups and contracts.
pub proof fn law_every_group_is_drawn(t: TopologyView, workspace: Seq<char>, i: int, line: Seq<char>)
    requires
        0 <= i < t.groups.len(),
        ({
            let g = t.groups[i];
            match g.kind {
                GroupKind::Service => draws_group(line, i, topology_text::caption(g), "["@, "]"@),
                GroupKind::Topic => draws_group(line, i, topology_text::caption(g), "(["@, "])"@),
                GroupKind::Contract => draws_group(line, i, topology_text::caption(g), "("@, ")"@),
                GroupKind::Other => draws_group(
                    line,
                    i,
                    g.name + (" ("@ + numbers::decimal(g.folded) + " groups, "@ + numbers::decimal(g.contracts) + " contracts)"@),
                    "[/"@,
                    "/]"@,
                ),
            }
        }),
    ensures
        has_text(topology_text::topology_mermaid(t, workspace), line),
        t.groups[i].kind != GroupKind::Other && t.groups[i].by_kind.len() == 0 ==> topology_text::caption(t.groups[i]) == t.groups[i].name,
{
    let n = t.groups.len() as int;
    assert(line == topology_text::group_line(t.groups[i], i));
    lemma_group_drawn(t.groups, n, i);
    let head = "%% CausalMesh service topology: "@ + topology_text::sanitized(workspace) + "\n"@ + "graph LR\n"@;
    walk_laws::lemma_text_within(head, topology_text::group_lines(t.groups, n), topology_text::link_lines(t.links), line);
}

proof fn lemma_link_drawn(links: Seq<LinkView>, j: int)
    requires
        0 <= j < links.len(),
    ensures
        has_text(topology_text::link_lines(links), topology_text::link_line(links[j])),
    decreases links.len(),
{
    let front = links.drop_last();
    let rest = topology_text::link_lines(front);
    let last = topology_text::link_line(links.last());
    if j < front.len() {
        assert(front[j] == links[j]);
        lemma_link_drawn(front, j);
        walk_laws::lemma_text_within(Seq::empty(), rest, last, topology_text::link_line(links[j]));
    } else {
        walk_laws::lemma_text_itself(last);
        walk_laws::lemma_text_within(rest, last, Seq::empty(), last);
    }
}

/// Whether a text is the line that draws a link under a label.
pub open spec fn draws_link(line: Seq<char>, l: LinkView, start: Seq<char>, label: Seq<char>, end: Seq<char>) -> bool {
    line == "  g"@ + numbers::decimal(l.from) + " "@ + start + " \""@ + label + "\" "@ + end + " g"@ + numbers::decimal(l.to) + "\n"@
}

/// Every link of a topology is drawn, from the group that it starts from to the one that it leads
/// to, with an arrow and a word that tell its kind, how often it stands if more than once, and a
/// note where an edge of it is in doubt.
pub proof fn law_every_link_is_drawn(t: TopologyView, workspace: Seq<char>, j: int, line: Seq<char>)
    requires
        0 <= j < t.links.len(),
        ({
            let l = t.links[j];
            let times = if l.count > 1 {
                " ×"@ + numbers::decimal(l.count)
            } else {
                ""@
            };
            let note = match l.weakest {
                EdgeConfidence::Exact => ""@,
                EdgeConfidence::Heuristic => " (heuristic)"@,
                EdgeConfidence::Ambiguous => " (ambiguous)"@,
            };
            match l.kind {
                EdgeKind::Produces => draws_link(line, l, "=="@, "Produces"@ + times + note, "==>"@),
                EdgeKind::DispatchesTo => draws_link(line, l, "=="@, "Dispatches"@ + times + note, "==>"@),
                EdgeKind::Consumes => draws_link(line, l, "-."@, "Consumes"@ + times + note, ".->"@),
                EdgeKind::CallsRpc => draws_link(line, l, "--"@, "CallsRpc"@ + times + note, "-->"@),
                EdgeKind::Implements => draws_link(line, l, "--"@, "Implements"@ + times + note, "-->"@),
                EdgeKind::Imports => draws_link(line, l, "--"@, "Imports"@ + times + note, "-->"@),
            }
        }),
    ensures
        has_text(topology_text::topology_mermaid(t, workspace), line),
{
    assert(line == topology_text::link_line(t.links[j]));
    lemma_link_drawn(t.links, j);
    let head = "%% CausalMesh service topology: "@ + topology_text::sanitized(workspace) + "\n"@ + "graph LR\n"@ + topology_text::group_lines(
        t.groups,
        t.groups.len() as int,
    );
    walk_laws::lemma_text_within(head, topology_text::link_lines(t.links), Seq::empty(), line);
}

/// The payload of a topology gives every group and every link once, in their order, each with the
/// word for its kind.
pub proof fn law_topology_payload_gives_all(t: TopologyView, workspace: Seq<char>, i: int, j: int)
    requires
        0 <= i < t.groups.len() <= u32::MAX,
        0 <= j < t.links.len(),
    ensures
        ({
            let p = topology_text::topology_payload(t, workspace);
            let g = t.groups[i];
            let l = t.links[j];
            &&& p.workspace_name == workspace
            &&& p.total_nodes == t.groups.len() == p.nodes.len()
            &&& p.total_edges == t.links.len() == p.edges.len()
            &&& p.nodes[i].id == i && p.nodes[i].name == g.name && p.nodes[i].package == g.name && p.nodes[i].repo == g.name
            &&& g.kind == GroupKind::Service ==> p.nodes[i].kind == "Service"@
            &&& g.kind == GroupKind::Topic ==> p.nodes[i].kind == "Topic"@
            &&& g.kind == GroupKind::Other ==> p.nodes[i].kind == "Other"@
            &&& g.kind == GroupKind::Contract ==> p.nodes[i].kind == "Contract"@
            &&& 0 <= l.from <= u32::MAX ==> p.edges[j].from == l.from
            &&& 0 <= l.to <= u32::MAX ==> p.edges[j].to == l.to
            &&& p.edges[j].metadata == Some(numbers::decimal(l.count) + " edge(s)"@)
            &&& l.kind == EdgeKind::Produces ==> p.edges[j].kind == "Produces"@
            &&& l.kind == EdgeKind::Consumes ==> p.edges[j].kind == "Consumes"@
            &&& l.kind == EdgeKind::CallsRpc ==> p.edges[j].kind == "CallsRpc"@
            &&& l.kind == EdgeKind::Implements ==> p.edges[j].kind == "Implements"@
            &&& l.kind == EdgeKind::Imports ==> p.edges[j].kind == "Imports"@
            &&& l.kind == EdgeKind::DispatchesTo ==> p.edges[j].kind == "DispatchesTo"@
            &&& l.weakest == EdgeConfidence::Exact ==> p.edges[j].confidence == "exact"@
            &&& l.weakest == EdgeConfidence::Heuristic ==> p.edges[j].confidence == "heuristic"@
            &&& l.weakest == EdgeConfidence::Ambiguous ==> p.edges[j].confidence == "ambiguous"@
        }),
{
}

/// The contracts of a repository stand in a box of it, those of a package in a box within, named
/// `shared` if the package has no name; a contract of an unknown repository counts as one of a
/// repository named like its package.
pub proof fn law_contracts_are_boxed(g: GraphView, workspace: Seq<char>, repos: Seq<Seq<char>>, i: int, repo: Seq<char>, package: Seq<char>)
    requires
        0 <= i < g.nodes.len(),
        0 <= g.nodes[i].repo_id < repos.len() && repo == repos[g.nodes[i].repo_id as int] || g.nodes[i].repo_id >= repos.len() && repo
            == g.nodes[i].package,
        g.nodes[i].package.len() > 0 && package == g.nodes[i].package || g.nodes[i].package.len() == 0 && package == "shared"@,
    ensures
        has_text(
            graph::mermaid(g, workspace, repos),
            "  subgraph repo_"@ + text::replaced(repo, "-./@"@, '_') + "[\""@ + repo + "\"]\n"@,
        ),
        has_text(
            graph::mermaid(g, workspace, repos),
            "    subgraph sg_"@ + text::replaced(text::replaced(repo, "-./@"@, '_') + "_"@ + package, "-./@"@, '_') + "[\""@ + package
                + "\"]\n"@,
        ),
{
    let n = g.nodes[i];
    let a = graph::repo_line(repo);
    let b = graph::package_line(repo, package);
    assert(repo == graph::repo_of(n, repos));
    assert(package == graph::package_of(n));
    let packages = graph::packages_of(g.nodes, repos, repo);
    lemma_package_listed(g.nodes, repos, repo, i);
    order::law_sorted_set(packages);
    let sorted = order::sorted_set(packages);
    assert(sorted.contains(package));
    let k = choose|k: int| 0 <= k < sorted.len() && sorted[k] == package;
    let inner = graph::node_lines(g.nodes, repos, repo, package);
    walk_laws::lemma_text_itself(b);
    walk_laws::lemma_text_within(Seq::empty(), b, inner, b);
    walk_laws::lemma_text_within(Seq::empty(), b + inner, "    end\n"@, b);
    lemma_box_in_boxes(g.nodes, repos, repo, sorted, k, b);
    let boxes = graph::package_boxes(g.nodes, repos, repo, sorted);
    walk_laws::lemma_text_within(a, boxes, "  end\n"@, b);
    walk_laws::lemma_text_itself(a);
    walk_laws::lemma_text_within(Seq::empty(), a, boxes, a);
    walk_laws::lemma_text_within(Seq::empty(), a + boxes, "  end\n"@, a);
    let all = graph::repos_of(g.nodes, repos);
    assert(all[i] == repo);
    order::law_sorted_set(all);
    let names = order::sorted_set(all);
    assert(names.contains(repo));
    let m = choose|m: int| 0 <= m < names.len() && names[m] == repo;
    lemma_repo_in_boxes(g.nodes, repos, names, m, a);
    lemma_repo_in_boxes(g.nodes, repos, names, m, b);
    let head = "%% CausalMesh Topology: "@ + workspace + "\n"@ + "graph TD\n"@;
    let tail = graph::edge_lines(g.edges, g.nodes.len() as int);
    walk_laws::lemma_text_within(head, graph::repo_boxes(g.nodes, repos, names), "\n"@ + tail, a);
    walk_laws::lemma_text_within(head, graph::repo_boxes(g.nodes, repos, names), "\n"@ + tail, b);
    assert(graph::mermaid(g, workspace, repos) == head + graph::repo_boxes(g.nodes, repos, names) + ("\n"@ + tail));
}

/// A group is captioned with its name and, in a second line, how many contracts of each kind it
/// has: the last kinds first, three at most.
pub proof fn law_captions_tell_counts(g: GroupView, a: (Seq<char>, int), b: (Seq<char>, int))
    requires
        g.kind != GroupKind::Other,
    ensures
        g.by_kind == seq![a] ==> topology_text::caption(g) == g.name + "<br/>"@ + (numbers::decimal(a.1) + " "@ + a.0),
        g.by_kind == seq![a, b] ==> topology_text::caption(g) == g.name + "<br/>"@ + (numbers::decimal(b.1) + " "@ + b.0 + " · "@ + (
        numbers::decimal(a.1) + " "@ + a.0)),
{
    let x = numbers::decimal(a.1) + " "@ + a.0;
    let y = numbers::decimal(b.1) + " "@ + b.0;
    let none = Seq::<(Seq<char>, int)>::empty();
    assert(topology_text::counts_words(none) == Seq::<Seq<char>>::empty());
    assert(seq![a].drop_last() == none);
    assert(seq![a].last() == a);
    assert(topology_text::counts_words(seq![a]) == seq![x]);
    assert(seq![a, b].drop_last() == seq![a]);
    assert(seq![a, b].last() == b);
    assert(topology_text::counts_words(seq![a, b]) == seq![y, x]);
    assert(text::join(seq![x], " · "@) == x);
    assert(seq![y, x].drop_last() == seq![y]);
    assert(text::join(seq![y], " · "@) == y);
    assert(text::join(seq![y, x], " · "@) == y + " · "@ + x);
}

/// In a name that is drawn a double quote becomes a single one and a bracket a blank; the rest stays.
pub proof fn law_names_are_made_safe(s: Seq<char>, k: int)
    requires
        0 <= k < s.len(),
    ensures
        topology_text::sanitized(s).len() == s.len(),
        s[k] == '"' ==> topology_text::sanitized(s)[k] == '\'',
        s[k] == '[' || s[k] == ']' || s[k] == '{' || s[k] == '}' || s[k] == '(' || s[k] == ')' || s[k] == '<' || s[k] == '>'
            ==> topology_text::sanitized(s)[k] == ' ',
        s[k] != '"' && s[k] != '[' && s[k] != ']' && s[k] != '{' && s[k] != '}' && s[k] != '(' && s[k] != ')' && s[k] != '<' && s[k] != '>'
            ==> topology_text::sanitized(s)[k] == s[k],
{
    reveal_strlit("\"");
    reveal_strlit("[]{}()<>");
    let set = "[]{}()<>"@;
    assert(set[0] == '[' && set[1] == ']' && set[2] == '{' && set[3] == '}' && set[4] == '(' && set[5] == ')' && set[6] == '<' && set[7]
        == '>');
    assert(("\""@)[0] == '"');
    let u = text::replaced(s, "\""@, '\'');
    assert(u[k] == if s[k] == '"' {
        '\''
    } else {
        s[k]
    });
}

/// The largest hidden groups are listed, five at most, and a service to zoom into is named: a hidden
/// one if there is one.
pub proof fn law_hidden_groups_are_told(t: TopologyView, k: int)
    requires
        0 <= k < t.hidden.len(),
    ensures
        k < 5 ==> has_text(
            topology_text::footer_of(t),
            "  - `"@ + t.hidden[k].0 + "` ("@ + numbers::decimal(t.hidden[k].1) + " contracts)\n"@,
        ),
        t.focus is None ==> has_text(topology_text::footer_of(t), "visualize_mesh(service: \""@ + t.hidden[0].0 + "\")"@),
{
    let shown = if t.hidden.len() > 5 {
        t.hidden.take(5)
    } else {
        t.hidden
    };
    let w = topology_text::hidden_part(t);
    let totals = topology_text::totals(t);
    let zoom = topology_text::zoom_part(t);
    let head = "\n"@ + numbers::decimal(t.hidden.len() as int) + " groups are folded into \"other\". Largest hidden:\n"@;
    assert(w == head + topology_text::hidden_lines(shown));
    if k < 5 {
        let line = topology_text::hidden_line(t.hidden[k]);
        assert(shown[k] == t.hidden[k]);
        lemma_hidden_lines(shown, k);
        let (a, b) = choose|a: Seq<char>, b: Seq<char>| topology_text::hidden_lines(shown) == #[trigger] (a + line + b);
        assert(topology_text::footer_of(t) == (totals + head + a) + line + (b + zoom));
    }
    if t.focus is None {
        let name = t.hidden[0].0;
        reveal_strlit("\n👉 Zoom into one service: `visualize_mesh(service: \"");
        reveal_strlit("visualize_mesh(service: \"");
        reveal_strlit("\")`.\n");
        reveal_strlit("\")");
        let long = "\n👉 Zoom into one service: `visualize_mesh(service: \""@;
        let short = "visualize_mesh(service: \""@;
        let front = long.take(long.len() - short.len());
        assert(long == front + short);
        let close = "\")`.\n"@;
        assert(close == "\")"@ + close.skip(2));
        let call = short + name + "\")"@;
        assert(zoom == front + call + close.skip(2));
        assert(topology_text::footer_of(t) == (totals + w + front) + call + close.skip(2));
    }
}

proof fn lemma_hidden_lines(hs: Seq<(Seq<char>, int)>, k: int)
    requires
        0 <= k < hs.len(),
    ensures
        has_text(topology_text::hidden_lines(hs), topology_text::hidden_line(hs[k])),
    decreases hs.len(),
{
    let front = hs.drop_last();
    let rest = topology_text::hidden_lines(front);
    let last = topology_text::hidden_line(hs.last());
    let all = topology_text::hidden_lines(hs);
    let line = topology_text::hidden_line(hs[k]);
    if k < front.len() {
        lemma_hidden_lines(front, k);
        let (a, b) = choose|a: Seq<char>, b: Seq<char>| rest == #[trigger] (a + line + b);
        assert(all == a + line + (b + last));
    } else {
        assert(all == rest + line + Seq::<char>::empty());
    }
}

} // verus!
