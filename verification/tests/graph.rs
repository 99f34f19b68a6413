use mesh_parsers::{
    ContractEdge, ContractGraph, ContractNode, EdgeConfidence, EdgeKind, GraphRenderer, NodeKind,
    WebGraphPayload,
};
use serde_json::Value;

fn to_json(payload: &WebGraphPayload) -> String {
    let nodes: Vec<Value> = payload
        .nodes
        .iter()
        .map(|n| {
            let mut node = serde_json::Map::new();
            node.insert("id".to_string(), Value::from(n.id));
            node.insert("name".to_string(), Value::from(n.name.as_str()));
            Value::Object(node)
        })
        .collect();
    let mut all = serde_json::Map::new();
    all.insert("nodes".to_string(), Value::Array(nodes));
    Value::Object(all).to_string()
}


#[test]
fn test_graph_export_mermaid_and_html() {
    let mut graph = ContractGraph::new();
    let id1 = graph.add_node(ContractNode {
        id: 0,
        name: "OrderCreatedEvent".into(),
        kind: NodeKind::KafkaTopic,
        file_path: "proto/events.proto".into(),
        line_start: 10,
        line_end: 20,
        package: "events".into(),
        repo_id: 1,
        signature: Some("message OrderCreatedEvent { string id = 1; }".into()),
        docstring: None,
    });

    let id2 = graph.add_node(ContractNode {
        id: 0,
        name: "PaymentProcessor".into(),
        kind: NodeKind::GrpcService,
        file_path: "services/payment/Payment.ts".into(),
        line_start: 30,
        line_end: 50,
        package: "payment-service".into(),
        repo_id: 1,
        signature: None,
        docstring: None,
    });

    graph.add_edge(ContractEdge {
        from: id2,
        to: id1,
        kind: EdgeKind::Produces,
        metadata: Some("orders.created".into()),
        confidence: EdgeConfidence::Exact,
    });

    let repo_names = vec!["shared".to_string(), "ms-payment".to_string()];

    let mermaid = GraphRenderer::to_mermaid(&graph, "test-workspace", &repo_names);
    assert!(mermaid.contains("OrderCreatedEvent"));
    assert!(mermaid.contains("PaymentProcessor"));
    assert!(mermaid.contains("Produces"));
    assert!(mermaid.contains("ms-payment"));

    let payload = GraphRenderer::to_payload(&graph, "test-workspace", &repo_names);
    let html = GraphRenderer::to_page("test-workspace", &to_json(&payload));
    assert!(html.contains("<!DOCTYPE html>"));
    assert!(html.contains("CausalMesh Interactive Topology"));
    assert!(html.contains("OrderCreatedEvent"));
}
