use mesh_parsers::ServicePackages;
use mesh_parsers::languages::config::{AsyncApiConfig, ContractsConfig, GrpcConfig, OpenApiConfig, RootedPath};
use mesh_parsers::languages::patterns::{CustomPatternConfig, PatternKind};
use mesh_parsers::languages::spec_shape::{SpecShapes, YamlNode};
use mesh_parsers::languages::specs::{Seeker, YamlLines};
use mesh_parsers::{CompiledPattern, ContractGraph, ContractNode, ExtractConfig, NodeId, NodeKind, PolyglotIndexer};

/// An entry of the settings that the workspace root does not stand in front of.
fn rooted(path: &str) -> RootedPath {
    RootedPath { written: path.to_string(), from_root: path.to_string() }
}

fn written(paths: &[RootedPath]) -> Vec<String> {
    paths.iter().map(|p| p.written.clone()).collect()
}

/// A YAML value as the library reads it.
fn node_of(value: &serde_yaml::Value) -> YamlNode {
    match value {
        serde_yaml::Value::String(s) => YamlNode::Text(s.clone()),
        serde_yaml::Value::Sequence(items) => {
            YamlNode::Sequence(items.iter().map(node_of).collect())
        }
        serde_yaml::Value::Mapping(entries) => {
            YamlNode::Mapping(entries.iter().map(|(k, v)| (node_of(k), node_of(v))).collect())
        }
        serde_yaml::Value::Tagged(tagged) => YamlNode::Tagged(Box::new(node_of(&tagged.value))),
        _ => YamlNode::Scalar,
    }
}

fn shapes_of(content: &str) -> SpecShapes {
    match serde_yaml::from_str::<serde_yaml::Value>(content) {
        Ok(value) => SpecShapes::of(&node_of(&value)),
        Err(_) => SpecShapes::none(),
    }
}

fn find_dependents<'a>(graph: &'a ContractGraph, name: &str) -> Vec<&'a ContractNode> {
    graph
        .all_dependencies()
        .iter()
        .filter(|(_, target)| {
            target == name
                || target
                    .rsplit(|c: char| c == '.' || c == ':')
                    .next()
                    .is_some_and(|last| last == name)
        })
        .map(|(id, _)| &graph.all_nodes()[*id as usize])
        .collect()
}

struct Impact<'a> {
    upstream_producers: Vec<&'a ContractNode>,
    downstream_consumers: Vec<&'a ContractNode>,
}

fn analyze_impact<'a>(graph: &'a ContractGraph, topic: &str) -> Impact<'a> {
    let ends = |links: &'a Vec<(NodeId, String)>| -> Vec<&'a ContractNode> {
        links
            .iter()
            .filter(|(_, t)| t == topic)
            .map(|(id, _)| &graph.all_nodes()[*id as usize])
            .collect()
    };
    Impact {
        upstream_producers: ends(graph.all_producers()),
        downstream_consumers: ends(graph.all_consumers()),
    }
}

#[test]
fn test_polyglot_indexer_cpp() {
    let mut graph = ContractGraph::new();
    let cpp = "namespace billing {\nclass Invoice {};\nvoid HandleCharge(int amount) {}\n}\n";
    PolyglotIndexer::index_file(
        "services/billing/invoice.hpp",
        cpp,
        0,
        &ServicePackages::new(""),
        &SpecShapes::none(),
        &mut graph,
    );
    assert_eq!(graph.node_count(), 2);
    assert!(graph.all_nodes().iter().any(|n| n.name == "Invoice"));
    assert!(graph
        .all_nodes().iter().any(|n| n.name == "HandleCharge" && n.kind == NodeKind::HttpEndpoint));
}

#[test]
fn test_polyglot_indexer_wires_java_import_dependency() {
    let mut graph = ContractGraph::new();
    PolyglotIndexer::index_file(
        "services/billing/Widget.java",
        "package billing;\npublic class Widget {}\n",
        0,
        &ServicePackages::new(""),
        &SpecShapes::none(),
        &mut graph,
    );
    PolyglotIndexer::index_file(
        "services/orders/Consumer.java",
        "package orders;\nimport billing.Widget;\npublic class Consumer {\n    void use(Widget w) {}\n}\n",
        0,
        &ServicePackages::new(""),
        &SpecShapes::none(),
        &mut graph,
    );
    assert!(
        !find_dependents(&graph, "Widget").is_empty(),
        "Java import dependency must reach find_dependents through the real PolyglotIndexer dispatch"
    );
}

#[test]
fn test_polyglot_indexer_wires_go_import_dependency() {
    let mut graph = ContractGraph::new();
    PolyglotIndexer::index_file(
        "utils/helper.go",
        "package utils\n\nfunc Helper() string {\n    return \"ok\"\n}\n",
        0,
        &ServicePackages::new(""),
        &SpecShapes::none(),
        &mut graph,
    );
    PolyglotIndexer::index_file(
        "main.go",
        "package main\n\nimport (\n    \"myapp/utils\"\n)\n\nfunc Run() {\n    utils.Helper()\n}\n",
        0,
        &ServicePackages::new(""),
        &SpecShapes::none(),
        &mut graph,
    );
    assert!(
        find_dependents(&graph, "myapp/utils")
            .iter()
            .any(|n| n.name == "Run"),
        "Go import dependency must reach find_dependents through the real PolyglotIndexer dispatch"
    );
}

#[test]
fn test_polyglot_indexer_wires_rust_use_dependency() {
    let mut graph = ContractGraph::new();
    PolyglotIndexer::index_file(
        "services/billing/widget.rs",
        "pub struct Widget;\n",
        0,
        &ServicePackages::new(""),
        &SpecShapes::none(),
        &mut graph,
    );
    PolyglotIndexer::index_file(
        "services/orders/consumer.rs",
        "use billing::Widget;\n\nfn use_it(_w: Widget) {}\n",
        0,
        &ServicePackages::new(""),
        &SpecShapes::none(),
        &mut graph,
    );
    assert!(
        !find_dependents(&graph, "Widget").is_empty(),
        "Rust use dependency must reach find_dependents through the real PolyglotIndexer dispatch"
    );
}

#[test]
fn test_polyglot_indexer_wires_cpp_include_dependency() {
    let mut graph = ContractGraph::new();
    PolyglotIndexer::index_file(
        "Shape.hpp",
        "class Shape {\npublic:\n    virtual ~Shape() = default;\n    virtual double Area() const = 0;\n};\n",
        0,
        &ServicePackages::new(""),
        &SpecShapes::none(),
        &mut graph,
    );
    PolyglotIndexer::index_file(
        "circle.cpp",
        "#include \"Shape.hpp\"\n#include <vector>\n\nclass Circle : public Shape {\npublic:\n    double Area() const override { return 3.14; }\n};\n",
        0,
        &ServicePackages::new(""),
        &SpecShapes::none(),
        &mut graph,
    );
    assert!(
        find_dependents(&graph, "Shape")
            .iter()
            .any(|n| n.name == "Circle"),
        "C++ #include dependency must reach find_dependents through the real PolyglotIndexer dispatch"
    );
}

#[test]
fn test_polyglot_indexer_proto() {
    let mut graph = ContractGraph::new();
    let proto = "syntax = \"proto3\"; package test.v1; service TestService { rpc DoTest (Req) returns (Resp); }";
    PolyglotIndexer::index_file("test.proto", proto, 0, &ServicePackages::new(""), &SpecShapes::none(), &mut graph);
    assert_eq!(graph.node_count(), 2);
}

#[test]
fn test_polyglot_indexer_asyncapi() {
    let mut graph = ContractGraph::new();
    let yaml = r#"
asyncapi: 2.6.0
channels:
  billing.events:
    description: Billing event topic
"#;
    PolyglotIndexer::index_file("asyncapi.yaml", yaml, 0, &ServicePackages::new(""), &shapes_of(yaml), &mut graph);
    assert_eq!(graph.node_count(), 1);
    assert!(graph
        .all_nodes()
        .iter()
        .any(|n| n.name == "billing.events" && n.kind == NodeKind::EventStream));
}

#[test]
fn spec_line_recovery_survives_a_miss_and_is_path_bounded() {
    let asyncapi = "asyncapi: 2.6.0\nchannels:\n  'it''s.escaped':\n    description: x\n  orders.created:\n    description: y\n";
    let idx = PolyglotIndexer::extract_with_config(
        "asyncapi.yaml",
        asyncapi,
        0,
        &ServicePackages::new(""),
        &shapes_of(asyncapi),
        &ExtractConfig::default(),
    );
    let line_of = |name: &str| {
        idx.nodes
            .iter()
            .find(|n| n.name.as_str() == name)
            .map(|n| n.line_start)
    };
    assert_eq!(line_of("it's.escaped"), Some(1), "unlocatable key");
    assert_eq!(line_of("orders.created"), Some(5), "key after a miss");

    let openapi = "openapi: 3.0.0\npaths:\n  /a: {get: {}}\n  /b:\n    post: {}\n    get: {}\n";
    let idx = PolyglotIndexer::extract_with_config(
        "openapi.yaml",
        openapi,
        0,
        &ServicePackages::new(""),
        &shapes_of(openapi),
        &ExtractConfig::default(),
    );
    let line_of = |name: &str| {
        idx.nodes
            .iter()
            .find(|n| n.name.as_str() == name)
            .map(|n| n.line_start)
    };
    assert_eq!(
        line_of("GET /a"),
        Some(3),
        "flow-style method: its path's line, not /b's get"
    );
    assert_eq!(line_of("POST /b"), Some(5));
    assert_eq!(line_of("GET /b"), Some(6));
}

#[test]
fn seeker_gives_up_after_its_miss_budget() {
    let content = (0..50).map(|i| format!("k{i}: v\n")).collect::<String>();
    let lines = YamlLines::new(&content);
    let mut seek = lines.seeker(None);
    for _ in 0..Seeker::MAX_MISSES {
        assert_eq!(seek.key("absent"), None);
    }
    assert_eq!(seek.key("k3"), None, "budget spent: no more searching");
    let mut fresh = lines.seeker(None);
    assert_eq!(fresh.key("absent"), None);
    assert_eq!(fresh.key("k3"), Some(4), "a miss keeps the cursor");
    assert_eq!(fresh.key("k1"), None, "forward-only");
}

#[test]
fn test_declarative_custom_patterns() {
    let mut graph = ContractGraph::new();
    let patterns = vec![
        CustomPatternConfig {
            name: "outbox_producer".to_string(),
            kind: PatternKind::TopicProducer,
            file_pattern: Some("*.ts".to_string()),
            regex: r#"createEvent<([^>]+)>"#.to_string(),
            target_group: 1,
            consumer_group: None,
        },
        CustomPatternConfig {
            name: "post_processor_consumer".to_string(),
            kind: PatternKind::TopicConsumer,
            file_pattern: Some("*.ts".to_string()),
            regex: r#"class\s+(\w+)\s+extends\s+\w*PostProcessor<([^>]+)>"#.to_string(),
            target_group: 2,
            consumer_group: Some(1),
        },
    ];

    let ts_producer = "await EventQueueEntity.createEvent<UserCreatedEvent>(event);";
    let ts_consumer = "export class UserCreatedPostProcessor extends SinglePostProcessor<UserCreatedEvent> {}";

    PolyglotIndexer::apply_custom_patterns(
        "services/user/producer.ts",
        ts_producer,
        1,
        "",
        &patterns,
        &mut graph,
    );
    PolyglotIndexer::apply_custom_patterns(
        "services/user/consumer.ts",
        ts_consumer,
        1,
        "",
        &patterns,
        &mut graph,
    );

    let impact = analyze_impact(&graph, "UserCreatedEvent");
    assert_eq!(impact.upstream_producers.len(), 1);
    assert_eq!(impact.downstream_consumers.len(), 1);
    assert_eq!(
        impact.downstream_consumers[0].name.as_str(),
        "UserCreatedPostProcessor"
    );
}

#[test]
fn test_proto_dirs_scopes_extraction() {
    let proto = "syntax = \"proto3\"; package test.v1; service TestService { rpc DoTest (Req) returns (Resp); }";

    let default_cfg = ExtractConfig::default();
    let unrestricted = PolyglotIndexer::extract_with_config(
        "services/other/test.proto",
        proto,
        0,
        &ServicePackages::new(""),
        &SpecShapes::none(),
        &default_cfg,
    );
    assert_eq!(unrestricted.nodes.len(), 2);

    let scoped_cfg = ExtractConfig {
        proto_dirs: vec![rooted("proto-registry")],
        ..ExtractConfig::default()
    };
    let outside = PolyglotIndexer::extract_with_config(
        "services/other/test.proto",
        proto,
        0,
        &ServicePackages::new(""),
        &SpecShapes::none(),
        &scoped_cfg,
    );
    assert!(outside.nodes.is_empty());

    let inside = PolyglotIndexer::extract_with_config(
        "proto-registry/test.proto",
        proto,
        0,
        &ServicePackages::new(""),
        &SpecShapes::none(),
        &scoped_cfg,
    );
    assert_eq!(inside.nodes.len(), 2);
}

#[test]
fn test_openapi_asyncapi_spec_files_scopes_detection() {
    let openapi_yaml = r#"
paths:
  /users:
    get:
      summary: list users
"#;
    let default_cfg = ExtractConfig::default();
    let missed = PolyglotIndexer::extract_with_config(
        "services/billing/api-contract.yaml",
        openapi_yaml,
        0,
        &ServicePackages::new(""),
        &shapes_of(openapi_yaml),
        &default_cfg,
    );
    assert!(missed.nodes.is_empty());

    let scoped_cfg = ExtractConfig {
        openapi_spec_files: vec![rooted("api-contract.yaml")],
        ..ExtractConfig::default()
    };
    let scoped = PolyglotIndexer::extract_with_config(
        "services/billing/api-contract.yaml",
        openapi_yaml,
        0,
        &ServicePackages::new(""),
        &shapes_of(openapi_yaml),
        &scoped_cfg,
    );
    assert_eq!(scoped.nodes.len(), 1);
    assert!(scoped.nodes.iter().any(|n| n.name == "GET /users"));
}

#[test]
fn test_infer_string_topics_toggle() {
    let yaml = r#"
asyncapi: 2.6.0
channels:
  billing.events:
    description: Billing event topic
topics:
  - legacy.orders.created
"#;
    let default_cfg = ExtractConfig::default();
    let with_inference =
        PolyglotIndexer::extract_with_config("asyncapi.yaml", yaml, 0, &ServicePackages::new(""), &shapes_of(yaml), &default_cfg);
    assert_eq!(with_inference.nodes.len(), 2);
    assert!(with_inference
        .nodes
        .iter()
        .any(|n| n.name == "legacy.orders.created"));

    let disabled_cfg = ExtractConfig {
        infer_string_topics: false,
        ..ExtractConfig::default()
    };
    let without_inference = PolyglotIndexer::extract_with_config(
        "asyncapi.yaml",
        yaml,
        0,
        &ServicePackages::new(""),
        &shapes_of(yaml),
        &disabled_cfg,
    );
    assert_eq!(without_inference.nodes.len(), 1);
    assert!(!without_inference
        .nodes
        .iter()
        .any(|n| n.name == "legacy.orders.created"));
}

#[test]
fn test_extract_config_from_contracts() {

    let contracts = ContractsConfig {
        grpc: Some(GrpcConfig {
            proto_dirs: vec![rooted("proto-registry")],
            controller_annotations: vec!["@RpcHandler".to_string()],
            canonical_fqcn_projection: false,
        }),
        openapi: Some(OpenApiConfig {
            spec_files: vec![rooted("openapi.yaml")],
        }),
        asyncapi: Some(AsyncApiConfig {
            spec_files: vec![rooted("asyncapi.yaml")],
            infer_string_topics: false,
        }),
    };

    let cfg = ExtractConfig::from_contracts(&contracts);
    assert_eq!(written(&cfg.proto_dirs), vec!["proto-registry".to_string()]);
    assert_eq!(cfg.controller_annotations, vec!["@RpcHandler".to_string()]);
    assert!(!cfg.canonical_fqcn_projection);
    assert_eq!(written(&cfg.openapi_spec_files), vec!["openapi.yaml".to_string()]);
    assert_eq!(written(&cfg.asyncapi_spec_files), vec!["asyncapi.yaml".to_string()]);
    assert!(!cfg.infer_string_topics);
}

#[test]
fn declarative_nodes_record_real_lines() {
    let patterns = CompiledPattern::compile_all(&[CustomPatternConfig {
        name: "producer".to_string(),
        kind: PatternKind::TopicProducer,
        file_pattern: None,
        regex: r#"send\("([^"]+)"\)"#.to_string(),
        target_group: 1,
        consumer_group: None,
    }]);
    let src = "a\nb\nsend(\"t.one\")\nc\n\nsend(\"t.two\")\n";
    let out = PolyglotIndexer::extract_custom_patterns("x.java", src, 0, "", &patterns);
    let lines: Vec<(String, usize)> = out
        .nodes
        .iter()
        .map(|n| (n.name.to_string(), n.line_start))
        .collect();
    assert_eq!(
        lines,
        vec![
            ("produce:t.one".to_string(), 3),
            ("produce:t.two".to_string(), 6)
        ]
    );

    let asyncapi = "asyncapi: 2.6.0\ninfo:\n  title: x\nchannels:\n  billing.events:\n    description: d\n  'orders.created':\n    description: e\n";
    let out = PolyglotIndexer::extract("asyncapi.yaml", asyncapi, 0, &ServicePackages::new(""), &shapes_of(asyncapi));
    let lines: Vec<(String, usize)> = out
        .nodes
        .iter()
        .map(|n| (n.name.to_string(), n.line_start))
        .collect();
    assert_eq!(
        lines,
        vec![
            ("billing.events".to_string(), 5),
            ("orders.created".to_string(), 7)
        ]
    );

    let openapi = "openapi: 3.0.0\npaths:\n  /orders:\n    get:\n      summary: list\n    post:\n      summary: create\n  /users:\n    get:\n      summary: u\n";
    let out = PolyglotIndexer::extract("openapi.yaml", openapi, 0, &ServicePackages::new(""), &shapes_of(openapi));
    let mut lines: Vec<(String, usize)> = out
        .nodes
        .iter()
        .map(|n| (n.name.to_string(), n.line_start))
        .collect();
    lines.sort();
    assert_eq!(
        lines,
        vec![
            ("GET /orders".to_string(), 4),
            ("GET /users".to_string(), 9),
            ("POST /orders".to_string(), 6)
        ]
    );
}
