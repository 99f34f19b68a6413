//! Contract graphs for the web and as Mermaid diagrams.
use vstd::prelude::*;
use crate::contracts;
use crate::contracts::{ContractEdge, ContractEdgeView, ContractGraph, EdgeConfidence, EdgeKind, GraphView};
use crate::model;
use crate::model::{ContractNode, ContractNodeView, NodeKind};
use crate::numbers;
use crate::order;
use crate::page;
use crate::syntax;
use crate::text;

verus! {

/// A declaration of a graph for the web.
#[derive(Clone, Debug)]
pub struct WebNode {
    pub id: u32,
    pub name: String,
    pub kind: String,
    pub file_path: String,
    pub line_start: usize,
    pub line_end: usize,
    pub package: String,
    /// The repository that the declaration is from.
    pub repo: String,
    pub signature: Option<String>,
}

/// A declaration of a graph for the web, as a mathematical value.
#[verifier::ext_equal]
pub struct WebNodeView {
    pub id: u32,
    pub name: Seq<char>,
    pub kind: Seq<char>,
    pub file_path: Seq<char>,
    pub line_start: int,
    pub line_end: int,
    pub package: Seq<char>,
    pub repo: Seq<char>,
    pub signature: Option<Seq<char>>,
}

impl View for WebNode {
    type V = WebNodeView;

    open spec fn view(&self) -> WebNodeView {
        WebNodeView {
            id: self.id,
            name: self.name@,
            kind: self.kind@,
            file_path: self.file_path@,
            line_start: self.line_start as int,
            line_end: self.line_end as int,
            package: self.package@,
            repo: self.repo@,
            signature: text::opt_string(self.signature),
        }
    }
}

/// A link of a graph for the web.
#[derive(Clone, Debug)]
pub struct WebEdge {
    pub from: u32,
    pub to: u32,
    pub kind: String,
    pub metadata: Option<String>,
    /// How sure the link is.
    pub confidence: String,
}

/// A link of a graph for the web, as a mathematical value.
#[verifier::ext_equal]
pub struct WebEdgeView {
    pub from: u32,
    pub to: u32,
    pub kind: Seq<char>,
    pub metadata: Option<Seq<char>>,
    pub confidence: Seq<char>,
}

impl View for WebEdge {
    type V = WebEdgeView;

    open spec fn view(&self) -> WebEdgeView {
        WebEdgeView {
            from: self.from,
            to: self.to,
            kind: self.kind@,
            metadata: text::opt_string(self.metadata),
            confidence: self.confidence@,
        }
    }
}

/// A graph for the web.
#[derive(Clone, Debug)]
pub struct WebGraphPayload {
    pub workspace_name: String,
    pub total_nodes: usize,
    pub total_edges: usize,
    pub nodes: Vec<WebNode>,
    pub edges: Vec<WebEdge>,
}

/// A graph for the web, as a mathematical value.
#[verifier::ext_equal]
pub struct PayloadView {
    pub workspace_name: Seq<char>,
    pub total_nodes: int,
    pub total_edges: int,
    pub nodes: Seq<WebNodeView>,
    pub edges: Seq<WebEdgeView>,
}

impl View for WebGraphPayload {
    type V = PayloadView;

    open spec fn view(&self) -> PayloadView {
        PayloadView {
            workspace_name: self.workspace_name@,
            total_nodes: self.total_nodes as int,
            total_edges: self.total_edges as int,
            nodes: self.nodes@.map_values(|n: WebNode| n@),
            edges: self.edges@.map_values(|e: WebEdge| e@),
        }
    }
}

/// The name of a declaration's kind.
pub open spec fn kind_name(kind: NodeKind) -> Seq<char> {
    match kind {
        NodeKind::GrpcService => "GrpcService"@,
        NodeKind::GrpcMethod => "GrpcMethod"@,
        NodeKind::HttpEndpoint => "HttpEndpoint"@,
        NodeKind::ProtoMessage => "ProtoMessage"@,
        NodeKind::Interface => "Interface"@,
        NodeKind::KafkaTopic => "KafkaTopic"@,
        NodeKind::EventStream => "EventStream"@,
        NodeKind::Queue => "Queue"@,
        NodeKind::Saga => "Saga"@,
        NodeKind::PostProcessor => "PostProcessor"@,
        NodeKind::ServiceClass => "ServiceClass"@,
    }
}

/// The name of a declaration's kind.
pub fn name_of_kind(kind: NodeKind) -> (r: &'static str)
    ensures
        r@ == kind_name(kind),
{
    match kind {
        NodeKind::GrpcService => "GrpcService",
        NodeKind::GrpcMethod => "GrpcMethod",
        NodeKind::HttpEndpoint => "HttpEndpoint",
        NodeKind::ProtoMessage => "ProtoMessage",
        NodeKind::Interface => "Interface",
        NodeKind::KafkaTopic => "KafkaTopic",
        NodeKind::EventStream => "EventStream",
        NodeKind::Queue => "Queue",
        NodeKind::Saga => "Saga",
        NodeKind::PostProcessor => "PostProcessor",
        NodeKind::ServiceClass => "ServiceClass",
    }
}

/// The name of a link's kind.
pub open spec fn edge_name(kind: EdgeKind) -> Seq<char> {
    match kind {
        EdgeKind::Produces => "Produces"@,
        EdgeKind::Consumes => "Consumes"@,
        EdgeKind::CallsRpc => "CallsRpc"@,
        EdgeKind::Implements => "Implements"@,
        EdgeKind::Imports => "Imports"@,
        EdgeKind::DispatchesTo => "DispatchesTo"@,
    }
}

/// The name of a link's kind.
pub fn name_of_edge(kind: EdgeKind) -> (r: &'static str)
    ensures
        r@ == edge_name(kind),
{
    match kind {
        EdgeKind::Produces => "Produces",
        EdgeKind::Consumes => "Consumes",
        EdgeKind::CallsRpc => "CallsRpc",
        EdgeKind::Implements => "Implements",
        EdgeKind::Imports => "Imports",
        EdgeKind::DispatchesTo => "DispatchesTo",
    }
}

/// The label that a link's kind is drawn with.
pub open spec fn edge_label(kind: EdgeKind) -> Seq<char> {
    match kind {
        EdgeKind::DispatchesTo => "Dispatches"@,
        _ => edge_name(kind),
    }
}

/// The label that a link's kind is drawn with.
pub fn label_of_edge(kind: EdgeKind) -> (r: &'static str)
    ensures
        r@ == edge_label(kind),
{
    match kind {
        EdgeKind::DispatchesTo => "Dispatches",
        EdgeKind::Produces => name_of_edge(EdgeKind::Produces),
        EdgeKind::Consumes => name_of_edge(EdgeKind::Consumes),
        EdgeKind::CallsRpc => name_of_edge(EdgeKind::CallsRpc),
        EdgeKind::Implements => name_of_edge(EdgeKind::Implements),
        EdgeKind::Imports => name_of_edge(EdgeKind::Imports),
    }
}

/// The repository of a declaration, or its package where it is from none of them.
pub open spec fn repo_of(n: ContractNodeView, repos: Seq<Seq<char>>) -> Seq<char> {
    if n.repo_id < repos.len() {
        repos[n.repo_id as int]
    } else {
        n.package
    }
}

/// A declaration for the web.
pub open spec fn web_node(n: ContractNodeView, repos: Seq<Seq<char>>) -> WebNodeView {
    WebNodeView {
        id: n.id as u32,
        name: n.name,
        kind: kind_name(n.kind),
        file_path: n.file_path,
        line_start: n.line_start,
        line_end: n.line_end,
        package: n.package,
        repo: repo_of(n, repos),
        signature: n.signature,
    }
}

/// A link for the web.
pub open spec fn web_edge(e: ContractEdgeView) -> WebEdgeView {
    WebEdgeView {
        from: e.from as u32,
        to: e.to as u32,
        kind: edge_name(e.kind),
        metadata: e.metadata,
        confidence: e.confidence.word(),
    }
}

/// A graph for the web.
pub open spec fn payload_of(g: GraphView, workspace: Seq<char>, repos: Seq<Seq<char>>) -> PayloadView {
    PayloadView {
        workspace_name: workspace,
        total_nodes: g.nodes.len() as int,
        total_edges: g.edges.len() as int,
        nodes: g.nodes.map_values(|n: ContractNodeView| web_node(n, repos)),
        edges: g.edges.map_values(|e: ContractEdgeView| web_edge(e)),
    }
}

/// The package of a declaration.
pub open spec fn package_of(n: ContractNodeView) -> Seq<char> {
    if n.package.len() == 0 {
        "shared"@
    } else {
        n.package
    }
}

/// The repositories of declarations.
pub open spec fn repos_of(nodes: Seq<ContractNodeView>, repos: Seq<Seq<char>>) -> Seq<Seq<char>> {
    nodes.map_values(|n: ContractNodeView| repo_of(n, repos))
}

/// The packages of the declarations of a repository.
pub open spec fn packages_of(nodes: Seq<ContractNodeView>, repos: Seq<Seq<char>>, repo: Seq<char>) -> Seq<Seq<char>>
    decreases nodes.len(),
{
    if nodes.len() == 0 {
        Seq::empty()
    } else {
        let rest = packages_of(nodes.drop_last(), repos, repo);
        if repo_of(nodes.last(), repos) == repo {
            rest.push(package_of(nodes.last()))
        } else {
            rest
        }
    }
}

/// The characters that an identifier of a diagram cannot hold.
pub const NO_IDENTIFIER: &'static str = "-./@";

/// The characters that a label of a diagram cannot hold.
pub const NO_LABEL: &'static str = "\";<>{}[]";

/// A text that can stand in an identifier of a diagram.
pub open spec fn clean(s: Seq<char>) -> Seq<char> {
    text::replaced(s, NO_IDENTIFIER@, '_')
}

/// The shape that a declaration is drawn in.
pub open spec fn shape(kind: NodeKind) -> (Seq<char>, Seq<char>) {
    match kind {
        NodeKind::KafkaTopic => ("(["@, "])"@),
        NodeKind::EventStream => ("(["@, "])"@),
        NodeKind::Queue => ("(["@, "])"@),
        NodeKind::GrpcService => ("[["@, "]]"@),
        NodeKind::HttpEndpoint => ("[["@, "]]"@),
        NodeKind::ProtoMessage => ("{"@, "}"@),
        _ => ("["@, "]"@),
    }
}

fn shape_of(kind: NodeKind) -> (r: (&'static str, &'static str))
    ensures
        (r.0@, r.1@) == shape(kind),
{
    match kind {
        NodeKind::KafkaTopic => ("([", "])"),
        NodeKind::EventStream => ("([", "])"),
        NodeKind::Queue => ("([", "])"),
        NodeKind::GrpcService => ("[[", "]]"),
        NodeKind::HttpEndpoint => ("[[", "]]"),
        NodeKind::ProtoMessage => ("{", "}"),
        NodeKind::GrpcMethod => ("[", "]"),
        NodeKind::Interface => ("[", "]"),
        NodeKind::Saga => ("[", "]"),
        NodeKind::PostProcessor => ("[", "]"),
        NodeKind::ServiceClass => ("[", "]"),
    }
}

/// The line that draws a declaration.
pub open spec fn node_line(n: ContractNodeView) -> Seq<char> {
    "      n_"@ + numbers::decimal(n.id) + shape(n.kind).0 + "\""@ + text::removed(n.name, NO_LABEL@) + "\""@ + shape(n.kind).1 + "\n"@
}

/// The lines that draw the declarations of a package of a repository.
pub open spec fn node_lines(nodes: Seq<ContractNodeView>, repos: Seq<Seq<char>>, repo: Seq<char>, package: Seq<char>) -> Seq<char>
    decreases nodes.len(),
{
    if nodes.len() == 0 {
        Seq::empty()
    } else {
        let rest = node_lines(nodes.drop_last(), repos, repo, package);
        let n = nodes.last();
        if repo_of(n, repos) == repo && package_of(n) == package {
            rest + node_line(n)
        } else {
            rest
        }
    }
}

/// The line that opens the box of a package.
pub open spec fn package_line(repo: Seq<char>, package: Seq<char>) -> Seq<char> {
    "    subgraph sg_"@ + clean(clean(repo) + "_"@ + package) + "[\""@ + package + "\"]\n"@
}

/// The box of a package.
pub open spec fn package_box(nodes: Seq<ContractNodeView>, repos: Seq<Seq<char>>, repo: Seq<char>, package: Seq<char>) -> Seq<char> {
    package_line(repo, package) + node_lines(nodes, repos, repo, package) + "    end\n"@
}

/// The boxes of packages.
pub open spec fn package_boxes(nodes: Seq<ContractNodeView>, repos: Seq<Seq<char>>, repo: Seq<char>, packages: Seq<Seq<char>>) -> Seq<char>
    decreases packages.len(),
{
    if packages.len() == 0 {
        Seq::empty()
    } else {
        package_boxes(nodes, repos, repo, packages.drop_last()) + package_box(nodes, repos, repo, packages.last())
    }
}

/// The line that opens the box of a repository.
pub open spec fn repo_line(repo: Seq<char>) -> Seq<char> {
    "  subgraph repo_"@ + clean(repo) + "[\""@ + repo + "\"]\n"@
}

/// The box of a repository, with its packages in order.
pub open spec fn repo_box(nodes: Seq<ContractNodeView>, repos: Seq<Seq<char>>, repo: Seq<char>) -> Seq<char> {
    repo_line(repo) + package_boxes(nodes, repos, repo, order::sorted_set(packages_of(nodes, repos, repo))) + "  end\n"@
}

/// The boxes of repositories.
pub open spec fn repo_boxes(nodes: Seq<ContractNodeView>, repos: Seq<Seq<char>>, names: Seq<Seq<char>>) -> Seq<char>
    decreases names.len(),
{
    if names.len() == 0 {
        Seq::empty()
    } else {
        repo_boxes(nodes, repos, names.drop_last()) + repo_box(nodes, repos, names.last())
    }
}

/// The label of a link. One that is not exact says so.
pub open spec fn full_label(e: ContractEdgeView) -> Seq<char> {
    edge_label(e.kind) + doubt_note(e.confidence)
}

/// What the label of a link that is not exact ends in.
pub open spec fn doubt_note(c: EdgeConfidence) -> Seq<char> {
    match c {
        EdgeConfidence::Exact => ""@,
        EdgeConfidence::Heuristic => " (heuristic)"@,
        EdgeConfidence::Ambiguous => " (ambiguous)"@,
    }
}

/// What the label of a link that is not exact ends in.
pub fn note_of(c: EdgeConfidence) -> (r: &'static str)
    ensures
        r@ == doubt_note(c),
{
    match c {
        EdgeConfidence::Exact => "",
        EdgeConfidence::Heuristic => " (heuristic)",
        EdgeConfidence::Ambiguous => " (ambiguous)",
    }
}

/// The arrow that a link is drawn with. An exact import has no label.
pub open spec fn arrow(e: ContractEdgeView) -> Seq<char> {
    match e.kind {
        EdgeKind::Produces => "== "@ + full_label(e) + " ==> "@,
        EdgeKind::DispatchesTo => "== "@ + full_label(e) + " ==> "@,
        EdgeKind::Consumes => "-. "@ + full_label(e) + " .-> "@,
        EdgeKind::CallsRpc => "-- "@ + full_label(e) + " --> "@,
        EdgeKind::Implements => "-- "@ + full_label(e) + " --> "@,
        EdgeKind::Imports => if e.confidence == EdgeConfidence::Exact {
            "--> "@
        } else {
            "-- "@ + full_label(e) + " --> "@
        },
    }
}

/// The line that draws a link.
pub open spec fn edge_line(e: ContractEdgeView) -> Seq<char> {
    "  n_"@ + numbers::decimal(e.from) + " "@ + arrow(e) + " n_"@ + numbers::decimal(e.to) + "\n"@
}

/// The lines that draw links. One that leads to no declaration of the graph is left out.
pub open spec fn edge_lines(edges: Seq<ContractEdgeView>, count: int) -> Seq<char>
    decreases edges.len(),
{
    if edges.len() == 0 {
        Seq::empty()
    } else if edges.last().to < count {
        edge_lines(edges.drop_last(), count) + edge_line(edges.last())
    } else {
        edge_lines(edges.drop_last(), count)
    }
}

/// A graph as a Mermaid diagram: the declarations in boxes by repository and package, and
/// below them the links.
pub open spec fn mermaid(g: GraphView, workspace: Seq<char>, repos: Seq<Seq<char>>) -> Seq<char> {
    "%% CausalMesh Topology: "@ + workspace + "\n"@ + "graph TD\n"@ + repo_boxes(
        g.nodes,
        repos,
        order::sorted_set(repos_of(g.nodes, repos)),
    ) + "\n"@ + edge_lines(g.edges, g.nodes.len() as int)
}

/// Renders contract graphs.
pub struct GraphRenderer;

impl GraphRenderer {
    /// The repository of a declaration, or its package where it is from none of them.
    fn repo(n: &ContractNode, repos: &[String]) -> (r: String)
        ensures
            r@ == repo_of(n@, text::strings(repos@)),
    {
        assert(text::strings(repos@).len() == repos@.len());
        if (n.repo_id as usize) < repos.len() {
            assert(text::strings(repos@)[n.repo_id as int] == repos@[n.repo_id as int]@);
            text::copy(repos[n.repo_id as usize].as_str())
        } else {
            text::copy(n.package.as_str())
        }
    }

    fn package(n: &ContractNode) -> (r: String)
        ensures
            r@ == package_of(n@),
    {
        if text::length(n.package.as_str()) == 0 {
            text::copy("shared")
        } else {
            text::copy(n.package.as_str())
        }
    }

    fn copy_opt(o: &Option<String>) -> (r: Option<String>)
        ensures
            text::opt_string(r) == text::opt_string(*o),
    {
        match o {
            Some(s) => Some(text::copy(s.as_str())),
            None => None,
        }
    }

    fn web_node(n: &ContractNode, repos: &[String]) -> (r: WebNode)
        ensures
            r@ == web_node(n@, text::strings(repos@)),
    {
        WebNode {
            id: n.id,
            name: text::copy(n.name.as_str()),
            kind: text::copy(name_of_kind(n.kind)),
            file_path: text::copy(n.file_path.as_str()),
            line_start: n.line_start,
            line_end: n.line_end,
            package: text::copy(n.package.as_str()),
            repo: Self::repo(n, repos),
            signature: Self::copy_opt(&n.signature),
        }
    }

    fn web_edge(e: &ContractEdge) -> (r: WebEdge)
        ensures
            r@ == web_edge(e@),
    {
        WebEdge {
            from: e.from,
            to: e.to,
            kind: text::copy(name_of_edge(e.kind)),
            metadata: Self::copy_opt(&e.metadata),
            confidence: text::copy(e.confidence.label()),
        }
    }

    /// A graph for the web. `repo_names` names the repositories by their numbers.
    pub fn to_payload(graph: &ContractGraph, workspace_name: &str, repo_names: &[String]) -> (r: WebGraphPayload)
        ensures
            r@ == payload_of(graph@, workspace_name@, text::strings(repo_names@)),
    {
        let ghost want = payload_of(graph@, workspace_name@, text::strings(repo_names@));
        let all = graph.all_nodes();
        let ghost nv = graph@.nodes;
        let mut nodes: Vec<WebNode> = Vec::new();
        let mut i: usize = 0;
        while i < all.len()
            invariant
                0 <= i <= all@.len(),
                nv == model::nodes_view(all@),
                nv == graph@.nodes,
                want == payload_of(graph@, workspace_name@, text::strings(repo_names@)),
                nodes@.len() == i,
                forall|k: int| 0 <= k < i ==> (#[trigger] nodes@[k])@ == want.nodes[k],
            decreases all@.len() - i,
        {
            assert(nv[i as int] == all@[i as int]@);
            nodes.push(Self::web_node(&all[i], repo_names));
            i += 1;
        }
        let links = graph.all_edges();
        let ghost ev = graph@.edges;
        let mut edges: Vec<WebEdge> = Vec::new();
        let mut j: usize = 0;
        while j < links.len()
            invariant
                0 <= j <= links@.len(),
                ev == contracts::edges_view(links@),
                ev == graph@.edges,
                want == payload_of(graph@, workspace_name@, text::strings(repo_names@)),
                edges@.len() == j,
                forall|k: int| 0 <= k < j ==> (#[trigger] edges@[k])@ == want.edges[k],
            decreases links@.len() - j,
        {
            assert(ev[j as int] == links@[j as int]@);
            edges.push(Self::web_edge(&links[j]));
            j += 1;
        }
        let r = WebGraphPayload {
            workspace_name: text::copy(workspace_name),
            total_nodes: nodes.len(),
            total_edges: edges.len(),
            nodes,
            edges,
        };
        assert(r@.nodes == want.nodes);
        assert(r@.edges == want.edges);
        r
    }

    /// The page that shows a graph, whose data is given as JSON.
    pub fn to_page(workspace_name: &str, json_data: &str) -> (r: String)
        ensures
            r@ == page::page(workspace_name@, json_data@),
    {
        page::page_of(workspace_name, json_data)
    }

    fn cleaned(s: &[char]) -> (r: Vec<char>)
        ensures
            r@ == clean(s@),
    {
        text::replace_all(s, NO_IDENTIFIER, '_')
    }

    /// A name without the characters that a label of a diagram cannot hold.
    pub fn sanitize_mermaid_label(s: &str) -> (r: String)
        ensures
            r@ == text::removed(s@, NO_LABEL@),
    {
        let chars = text::chars_of(s);
        let bare = text::remove_all(chars.as_slice(), NO_LABEL);
        text::string_of(bare.as_slice())
    }

    fn draw_node(n: &ContractNode) -> (r: String)
        ensures
            r@ == node_line(n@),
    {
        let (open, close) = shape_of(n.kind);
        let mut out = text::copy("      n_");
        numbers::push_number(&mut out, n.id as usize);
        out.append(open);
        out.append("\"");
        let label = Self::sanitize_mermaid_label(n.name.as_str());
        out.append(label.as_str());
        out.append("\"");
        out.append(close);
        out.append("\n");
        out
    }

    fn draw_nodes(nodes: &Vec<ContractNode>, repos: &[String], repo: &str, package: &str) -> (r: String)
        ensures
            r@ == node_lines(model::nodes_view(nodes@), text::strings(repos@), repo@, package@),
    {
        let ghost nv = model::nodes_view(nodes@);
        let ghost rv = text::strings(repos@);
        let mut out = String::new();
        let mut i: usize = 0;
        assert(nv.take(0) == Seq::<ContractNodeView>::empty());
        while i < nodes.len()
            invariant
                0 <= i <= nodes@.len(),
                nv == model::nodes_view(nodes@),
                rv == text::strings(repos@),
                out@ == node_lines(nv.take(i as int), rv, repo@, package@),
            decreases nodes@.len() - i,
        {
            proof {
                syntax::lemma_take_step(nv, i as int);
                assert(nv[i as int] == nodes@[i as int]@);
            }
            let r = Self::repo(&nodes[i], repos);
            let p = Self::package(&nodes[i]);
            if text::same(r.as_str(), repo) && text::same(p.as_str(), package) {
                let line = Self::draw_node(&nodes[i]);
                out.append(line.as_str());
            }
            i += 1;
        }
        assert(nv.take(i as int) == nv);
        out
    }

    fn draw_package(nodes: &Vec<ContractNode>, repos: &[String], repo: &str, package: &str) -> (r: String)
        ensures
            r@ == package_box(model::nodes_view(nodes@), text::strings(repos@), repo@, package@),
    {
        let rc = text::chars_of(repo);
        let pc = text::chars_of(package);
        let first = Self::cleaned(rc.as_slice());
        let joined = text::joined3(first.as_slice(), "_", pc.as_slice());
        let jc = text::chars_of(joined.as_str());
        let id = Self::cleaned(jc.as_slice());
        let mut out = text::copy("    subgraph sg_");
        text::push_chars(&mut out, id.as_slice());
        out.append("[\"");
        out.append(package);
        out.append("\"]\n");
        assert(out@ == package_line(repo@, package@));
        let lines = Self::draw_nodes(nodes, repos, repo, package);
        out.append(lines.as_str());
        out.append("    end\n");
        out
    }

    fn list_packages(nodes: &Vec<ContractNode>, repos: &[String], repo: &str) -> (r: Vec<String>)
        ensures
            text::strings(r@) == packages_of(model::nodes_view(nodes@), text::strings(repos@), repo@),
    {
        let ghost nv = model::nodes_view(nodes@);
        let ghost rv = text::strings(repos@);
        let mut out: Vec<String> = Vec::new();
        let mut i: usize = 0;
        assert(nv.take(0) == Seq::<ContractNodeView>::empty());
        assert(text::strings(out@) == Seq::<Seq<char>>::empty());
        while i < nodes.len()
            invariant
                0 <= i <= nodes@.len(),
                nv == model::nodes_view(nodes@),
                rv == text::strings(repos@),
                text::strings(out@) == packages_of(nv.take(i as int), rv, repo@),
            decreases nodes@.len() - i,
        {
            proof {
                syntax::lemma_take_step(nv, i as int);
                assert(nv[i as int] == nodes@[i as int]@);
            }
            let r = Self::repo(&nodes[i], repos);
            if text::same(r.as_str(), repo) {
                model::push_string(&mut out, Self::package(&nodes[i]));
            }
            i += 1;
        }
        assert(nv.take(i as int) == nv);
        out
    }

    fn draw_packages(nodes: &Vec<ContractNode>, repos: &[String], repo: &str, packages: &Vec<String>) -> (r: String)
        ensures
            r@ == package_boxes(model::nodes_view(nodes@), text::strings(repos@), repo@, text::strings(packages@)),
    {
        let ghost nv = model::nodes_view(nodes@);
        let ghost rv = text::strings(repos@);
        let ghost pv = text::strings(packages@);
        let mut out = String::new();
        let mut i: usize = 0;
        assert(pv.take(0) == Seq::<Seq<char>>::empty());
        while i < packages.len()
            invariant
                0 <= i <= packages@.len(),
                nv == model::nodes_view(nodes@),
                rv == text::strings(repos@),
                pv == text::strings(packages@),
                out@ == package_boxes(nv, rv, repo@, pv.take(i as int)),
            decreases packages@.len() - i,
        {
            proof {
                syntax::lemma_take_step(pv, i as int);
                assert(pv[i as int] == packages@[i as int]@);
            }
            let part = Self::draw_package(nodes, repos, repo, packages[i].as_str());
            out.append(part.as_str());
            i += 1;
        }
        assert(pv.take(i as int) == pv);
        out
    }

    fn draw_repo(nodes: &Vec<ContractNode>, repos: &[String], repo: &str) -> (r: String)
        ensures
            r@ == repo_box(model::nodes_view(nodes@), text::strings(repos@), repo@),
    {
        let rc = text::chars_of(repo);
        let id = Self::cleaned(rc.as_slice());
        let mut out = text::copy("  subgraph repo_");
        text::push_chars(&mut out, id.as_slice());
        out.append("[\"");
        out.append(repo);
        out.append("\"]\n");
        assert(out@ == repo_line(repo@));
        let all = Self::list_packages(nodes, repos, repo);
        let packages = order::sort_texts(&all);
        let inner = Self::draw_packages(nodes, repos, repo, &packages);
        out.append(inner.as_str());
        out.append("  end\n");
        out
    }

    fn draw_repos(nodes: &Vec<ContractNode>, repos: &[String], names: &Vec<String>) -> (r: String)
        ensures
            r@ == repo_boxes(model::nodes_view(nodes@), text::strings(repos@), text::strings(names@)),
    {
        let ghost nv = model::nodes_view(nodes@);
        let ghost rv = text::strings(repos@);
        let ghost lv = text::strings(names@);
        let mut out = String::new();
        let mut i: usize = 0;
        assert(lv.take(0) == Seq::<Seq<char>>::empty());
        while i < names.len()
            invariant
                0 <= i <= names@.len(),
                nv == model::nodes_view(nodes@),
                rv == text::strings(repos@),
                lv == text::strings(names@),
                out@ == repo_boxes(nv, rv, lv.take(i as int)),
            decreases names@.len() - i,
        {
            proof {
                syntax::lemma_take_step(lv, i as int);
                assert(lv[i as int] == names@[i as int]@);
            }
            let part = Self::draw_repo(nodes, repos, names[i].as_str());
            out.append(part.as_str());
            i += 1;
        }
        assert(lv.take(i as int) == lv);
        out
    }

    fn list_repos(nodes: &Vec<ContractNode>, repos: &[String]) -> (r: Vec<String>)
        ensures
            text::strings(r@) == repos_of(model::nodes_view(nodes@), text::strings(repos@)),
    {
        let ghost nv = model::nodes_view(nodes@);
        let ghost want = repos_of(nv, text::strings(repos@));
        let mut out: Vec<String> = Vec::new();
        let mut i: usize = 0;
        while i < nodes.len()
            invariant
                0 <= i <= nodes@.len(),
                nv == model::nodes_view(nodes@),
                want == repos_of(nv, text::strings(repos@)),
                out@.len() == i,
                forall|k: int| 0 <= k < i ==> (#[trigger] out@[k])@ == want[k],
            decreases nodes@.len() - i,
        {
            assert(nv[i as int] == nodes@[i as int]@);
            out.push(Self::repo(&nodes[i], repos));
            i += 1;
        }
        assert(text::strings(out@) == want);
        out
    }

    fn labelled(a: &str, e: &ContractEdge, b: &str) -> (r: String)
        ensures
            r@ == a@ + full_label(e@) + b@,
    {
        let mut label = text::copy(label_of_edge(e.kind));
        label.append(note_of(e.confidence));
        let mut out = text::copy(a);
        out.append(label.as_str());
        out.append(b);
        out
    }

    fn arrow(e: &ContractEdge) -> (r: String)
        ensures
            r@ == arrow(e@),
    {
        match e.kind {
            EdgeKind::Produces => Self::labelled("== ", e, " ==> "),
            EdgeKind::DispatchesTo => Self::labelled("== ", e, " ==> "),
            EdgeKind::Consumes => Self::labelled("-. ", e, " .-> "),
            EdgeKind::CallsRpc => Self::labelled("-- ", e, " --> "),
            EdgeKind::Implements => Self::labelled("-- ", e, " --> "),
            EdgeKind::Imports => if e.confidence == EdgeConfidence::Exact {
                text::copy("--> ")
            } else {
                Self::labelled("-- ", e, " --> ")
            },
        }
    }

    fn draw_edge(e: &ContractEdge) -> (r: String)
        ensures
            r@ == edge_line(e@),
    {
        let mut out = text::copy("  n_");
        numbers::push_number(&mut out, e.from as usize);
        out.append(" ");
        let a = Self::arrow(e);
        out.append(a.as_str());
        out.append(" n_");
        numbers::push_number(&mut out, e.to as usize);
        out.append("\n");
        out
    }

    fn draw_edges(edges: &Vec<ContractEdge>, count: usize) -> (r: String)
        ensures
            r@ == edge_lines(contracts::edges_view(edges@), count as int),
    {
        let ghost ev = contracts::edges_view(edges@);
        let mut out = String::new();
        let mut i: usize = 0;
        assert(ev.take(0) == Seq::<ContractEdgeView>::empty());
        while i < edges.len()
            invariant
                0 <= i <= edges@.len(),
                ev == contracts::edges_view(edges@),
                out@ == edge_lines(ev.take(i as int), count as int),
            decreases edges@.len() - i,
        {
            proof {
                syntax::lemma_take_step(ev, i as int);
                assert(ev[i as int] == edges@[i as int]@);
            }
            if (edges[i].to as usize) < count {
                let line = Self::draw_edge(&edges[i]);
                out.append(line.as_str());
            }
            i += 1;
        }
        assert(ev.take(i as int) == ev);
        out
    }

    /// A graph as a Mermaid diagram.
    pub fn to_mermaid(graph: &ContractGraph, workspace_name: &str, repo_names: &[String]) -> (r: String)
        ensures
            r@ == mermaid(graph@, workspace_name@, text::strings(repo_names@)),
    {
        let nodes = graph.all_nodes();
        let all = Self::list_repos(nodes, repo_names);
        let names = order::sort_texts(&all);
        let mut out = text::copy("%% CausalMesh Topology: ");
        out.append(workspace_name);
        out.append("\n");
        out.append("graph TD\n");
        let boxes = Self::draw_repos(nodes, repo_names, &names);
        out.append(boxes.as_str());
        out.append("\n");
        let edges = Self::draw_edges(graph.all_edges(), nodes.len());
        out.append(edges.as_str());
        out
    }
}

} // verus!
