use mesh_parsers::topology::GroupKind;
use mesh_parsers::{
    ContractEdge, ContractGraph, ContractNode, EdgeConfidence, EdgeKind, GraphRenderer, NodeId,
    NodeKind, RepoId, Topology, TopologyOptions,
};

fn node(name: &str, pkg: &str, repo: RepoId, kind: NodeKind) -> ContractNode {
    ContractNode {
        id: 0,
        name: name.to_string(),
        kind,
        file_path: format!("{name}.go"),
        line_start: 2,
        line_end: 5,
        package: pkg.to_string(),
        repo_id: repo,
        signature: Some("sig".to_string()),
        docstring: None,
    }
}

fn edge(from: NodeId, to: NodeId, kind: EdgeKind, confidence: EdgeConfidence) -> ContractEdge {
    ContractEdge {
        from,
        to,
        kind,
        metadata: Some("m".to_string()),
        confidence,
    }
}

fn sample() -> ContractGraph {
    let mut g = ContractGraph::new();
    g.add_node(node("Pay", "bill-ing", 1, NodeKind::GrpcService));
    g.add_node(node("Shop", "", 0, NodeKind::ServiceClass));
    g.add_node(node("orders", "hub", RepoId::MAX, NodeKind::KafkaTopic));
    g.add_edge(edge(1, 0, EdgeKind::CallsRpc, EdgeConfidence::Exact));
    g.add_edge(edge(1, 2, EdgeKind::Produces, EdgeConfidence::Heuristic));
    g.add_edge(edge(2, 0, EdgeKind::Consumes, EdgeConfidence::Ambiguous));
    g.add_edge(edge(0, 1, EdgeKind::Imports, EdgeConfidence::Exact));
    g.add_edge(edge(0, 9, EdgeKind::Imports, EdgeConfidence::Exact));
    g
}

fn repos() -> Vec<String> {
    vec!["web".to_string(), "a/b@1".to_string()]
}

#[test]
fn payloads_hold_every_declaration_and_link() {
    let p = GraphRenderer::to_payload(&sample(), "ws", &repos());
    assert_eq!(p.workspace_name, "ws");
    assert_eq!((p.total_nodes, p.total_edges), (3, 5));
    let shown: Vec<(u32, &str, &str, &str)> = p
        .nodes
        .iter()
        .map(|n| (n.id, n.name.as_str(), n.kind.as_str(), n.repo.as_str()))
        .collect();
    assert_eq!(
        shown,
        [
            (0, "Pay", "GrpcService", "a/b@1"),
            (1, "Shop", "ServiceClass", "web"),
            (2, "orders", "KafkaTopic", "hub"),
        ]
    );
    assert_eq!((p.nodes[0].line_start, p.nodes[0].line_end), (2, 5));
    assert_eq!(p.nodes[0].signature.as_deref(), Some("sig"));
    assert_eq!(p.edges[1].kind, "Produces");
    assert_eq!(p.edges[1].confidence, "heuristic");
    assert_eq!(p.edges[1].metadata.as_deref(), Some("m"));
}

#[test]
fn graphs_are_drawn_by_repository_and_package() {
    assert_eq!(
        GraphRenderer::to_mermaid(&sample(), "ws", &repos()),
        "%% CausalMesh Topology: ws\ngraph TD\n\
        \x20 subgraph repo_a_b_1[\"a/b@1\"]\n\
        \x20   subgraph sg_a_b_1_bill_ing[\"bill-ing\"]\n\
        \x20     n_0[[\"Pay\"]]\n\
        \x20   end\n\
        \x20 end\n\
        \x20 subgraph repo_hub[\"hub\"]\n\
        \x20   subgraph sg_hub_hub[\"hub\"]\n\
        \x20     n_2([\"orders\"])\n\
        \x20   end\n\
        \x20 end\n\
        \x20 subgraph repo_web[\"web\"]\n\
        \x20   subgraph sg_web_shared[\"shared\"]\n\
        \x20     n_1[\"Shop\"]\n\
        \x20   end\n\
        \x20 end\n\
        \n\
        \x20 n_1 -- CallsRpc -->  n_0\n\
        \x20 n_1 == Produces (heuristic) ==>  n_2\n\
        \x20 n_2 -. Consumes (ambiguous) .->  n_0\n\
        \x20 n_0 -->  n_1\n"
    );
}

#[test]
fn pages_hold_the_workspace_and_the_data() {
    let page = GraphRenderer::to_page("my ws", "{\"nodes\":[]}");
    assert!(page.starts_with("<!DOCTYPE html>"));
    assert!(page.contains("<title>CausalMesh Topology &mdash; my ws</title>"));
    assert!(page.contains("{\"nodes\":[]}"));
    assert!(page.trim_end().ends_with("</html>"));
}

#[test]
fn topologies_are_drawn_by_service() {
    let t = Topology::build(&sample(), &repos(), &TopologyOptions::default());
    assert_eq!(t.grouping, "root");
    assert_eq!(
        t.to_mermaid("w[s]"),
        "%% CausalMesh service topology: w s \ngraph LR\n\
        \x20 g0[\"a/b@1<br/>1 gRPC service\"]\n\
        \x20 g1[\"web<br/>1 class\"]\n\
        \x20 g2([\"orders<br/>1 topic\"])\n\
        \x20 g0 -- \"Imports\" --> g1\n\
        \x20 g1 -- \"CallsRpc\" --> g0\n\
        \x20 g1 == \"Produces (heuristic)\" ==> g2\n\
        \x20 g2 -. \"Consumes (ambiguous)\" .-> g0\n"
    );
    assert_eq!(
        t.footer(),
        "*3 contracts, 5 edges folded into 3 of 3 groups (grouping: one service per root).*\n\
         \n👉 Zoom into one service: `visualize_mesh(service: \"a/b@1\")`.\n"
    );
    let p = t.to_payload("ws");
    assert_eq!(p.nodes[0].signature.as_deref(), Some("a/b@1 — 1 gRPC service"));
    assert_eq!(p.edges[0].metadata.as_deref(), Some("1 edge(s)"));
}

#[test]
fn topologies_count_every_contract_and_stay_small() {
    let mut g = ContractGraph::new();
    for i in 0..60u32 {
        let kind = if i % 2 == 0 { NodeKind::Queue } else { NodeKind::Saga };
        let repo = if i % 2 == 0 { RepoId::MAX } else { 0 };
        g.add_node(node(&format!("n{i}"), &format!("p{}", i % 13), repo, kind));
    }
    for i in 0..59u32 {
        g.add_edge(edge(i, i + 1, EdgeKind::Imports, EdgeConfidence::Exact));
    }
    for (max_groups, focus) in [(0, None), (3, None), (100, None), (2, Some("P1".to_string()))] {
        let opts = TopologyOptions {
            max_groups,
            max_focus_contracts: 2,
            focus,
        };
        let t = Topology::build(&g, &["only".to_string()], &opts);
        assert_eq!(t.total_contracts, 60);
        assert_eq!(t.total_edges, 59);
        let counted: usize = t.groups.iter().map(|x| x.contracts).sum();
        assert_eq!(counted, 60);
        let zoomed = if t.focus.is_some() { 2 } else { 0 };
        assert!(t.groups.len() <= max_groups.max(1) + zoomed + 3);
        for l in &t.links {
            assert!(l.from < t.groups.len() && l.to < t.groups.len());
            assert!(l.from != l.to && l.count >= 1);
        }
    }
}

#[test]
fn a_focus_is_found_whatever_its_case() {
    let opts = TopologyOptions {
        focus: Some("WEB".to_string()),
        ..Default::default()
    };
    let t = Topology::build(&sample(), &repos(), &opts);
    assert_eq!(t.focus.as_deref(), Some("web"));
    assert!(t
        .groups
        .iter()
        .any(|g| g.kind == GroupKind::Contract && g.name == "Shop [class]"));
    let opts = TopologyOptions {
        focus: Some("nowhere".to_string()),
        ..Default::default()
    };
    assert_eq!(Topology::build(&sample(), &repos(), &opts).focus, None);
}

#[test]
fn links_differ_and_groups_are_drawn_or_hidden() {
    let mut g = ContractGraph::new();
    for (name, pkg, copies) in [("a", "p1", 3), ("b", "p2", 1), ("c", "p3", 2), ("d", "p4", 2)] {
        for k in 0..copies {
            g.add_node(node(&format!("{name}{k}"), pkg, 0, NodeKind::ServiceClass));
        }
    }
    for (from, to) in [(0, 3), (1, 3), (2, 3), (0, 4), (4, 6), (5, 7)] {
        g.add_edge(edge(from, to, EdgeKind::CallsRpc, EdgeConfidence::Exact));
        g.add_edge(edge(from, to, EdgeKind::Imports, EdgeConfidence::Exact));
    }
    for max_groups in 1..6 {
        let options = TopologyOptions { max_groups, ..TopologyOptions::default() };
        let t = Topology::build(&g, &repos(), &options);
        let alone = t.groups.iter().filter(|x| x.kind != GroupKind::Other).count();
        assert_eq!(alone + t.hidden.len(), t.total_groups);
        assert_eq!(t.total_groups, 4);
        for (i, a) in t.links.iter().enumerate() {
            for b in &t.links[i + 1..] {
                assert!((a.from, a.to, a.kind) != (b.from, b.to, b.kind));
            }
        }
        for pair in t.hidden.windows(2) {
            assert!(pair[0].1 > pair[1].1 || pair[0].1 == pair[1].1 && pair[0].0 < pair[1].0);
        }
    }
}
