use mesh_parsers::topology::GroupKind;
use mesh_parsers::{
    ContractEdge, ContractGraph, ContractNode, EdgeConfidence, EdgeKind, NodeId, NodeKind, RepoId,
    Topology, TopologyOptions,
};

fn node(name: &str, pkg: &str, repo: RepoId, kind: NodeKind) -> ContractNode {
    ContractNode {
        id: 0,
        name: name.to_string(),
        kind,
        file_path: format!("{pkg}/{name}.rs"),
        line_start: 1,
        line_end: 1,
        package: pkg.to_string(),
        repo_id: repo,
        signature: None,
        docstring: None,
    }
}

fn edge(from: NodeId, to: NodeId, kind: EdgeKind) -> ContractEdge {
    ContractEdge {
        from,
        to,
        kind,
        metadata: None,
        confidence: EdgeConfidence::Exact,
    }
}

fn two_root_graph() -> (ContractGraph, Vec<String>) {
    let mut g = ContractGraph::new();
    let a1 = g.add_node(node("OrderSvc", "orders", 0, NodeKind::GrpcService));
    let a2 = g.add_node(node("OrderRepo", "orders", 0, NodeKind::ServiceClass));
    let b1 = g.add_node(node("BillingClient", "billing", 1, NodeKind::ServiceClass));
    let b2 = g.add_node(node("Invoice", "billing", 1, NodeKind::ServiceClass));
    g.add_edge(edge(b1, a1, EdgeKind::CallsRpc));
    g.add_edge(edge(b2, a1, EdgeKind::CallsRpc));
    g.add_edge(edge(a2, a1, EdgeKind::Imports));
    (g, vec!["orders-svc".into(), "billing-svc".into()])
}

#[test]
fn folds_contracts_per_root_and_weights_cross_service_links() {
    let (g, repos) = two_root_graph();
    let t = Topology::build(&g, &repos, &TopologyOptions::default());
    assert_eq!(t.grouping, "root");
    assert_eq!(t.groups.len(), 2);
    assert_eq!(t.links.len(), 1, "{:?}", t.links);
    assert_eq!(t.links[0].count, 2);
    let orders = t
        .groups
        .iter()
        .find(|g| g.name == "orders-svc")
        .expect("orders");
    assert_eq!(orders.internal_edges, 1);
    let m = t.to_mermaid("ws");
    assert!(m.contains("CallsRpc ×2"), "{m}");
}

#[test]
fn caps_groups_and_folds_the_rest_into_other() {
    let mut g = ContractGraph::new();
    for i in 0..50 {
        g.add_node(node(
            &format!("C{i}"),
            &format!("pkg{i:02}"),
            0,
            NodeKind::ServiceClass,
        ));
    }
    let t = Topology::build(
        &g,
        &vec!["only-root".to_string()],
        &TopologyOptions {
            max_groups: 10,
            ..Default::default()
        },
    );
    assert_eq!(t.grouping, "package");
    assert_eq!(t.groups.len(), 11, "10 shown + 1 other");
    let other = t.groups.last().expect("other");
    assert_eq!(other.kind, GroupKind::Other);
    assert_eq!(other.folded, 40);
    assert_eq!(t.hidden.len(), 40);
    assert!(t.footer().contains("visualize_mesh(service:"));
}

#[test]
fn focus_keeps_the_service_and_its_neighbours_only() {
    let (mut g, mut repos) = two_root_graph();
    g.add_node(node("Lonely", "misc", 2, NodeKind::ServiceClass));
    repos.push("misc-svc".into());
    let t = Topology::build(
        &g,
        &repos,
        &TopologyOptions {
            focus: Some("BILLING-svc".into()),
            ..Default::default()
        },
    );
    assert_eq!(t.focus.as_deref(), Some("billing-svc"));
    let names: Vec<_> = t.groups.iter().map(|g| g.name.as_str()).collect();
    assert!(names.contains(&"BillingClient [class]"), "{names:?}");
    assert!(names.contains(&"Invoice [class]"), "{names:?}");
    assert!(names.contains(&"orders-svc"), "{names:?}");
    assert!(!names.contains(&"misc-svc"), "{names:?}");
    let m = t.to_mermaid("ws");
    assert!(m.contains("CallsRpc"), "{m}");
}

#[test]
fn output_is_deterministic() {
    let (g, repos) = two_root_graph();
    let a = Topology::build(&g, &repos, &TopologyOptions::default()).to_mermaid("ws");
    let b = Topology::build(&g, &repos, &TopologyOptions::default()).to_mermaid("ws");
    assert_eq!(a, b);
}
