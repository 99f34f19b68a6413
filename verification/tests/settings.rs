use mesh_parsers::ServicePackages;
use mesh_parsers::languages::config::{AsyncApiConfig, ContractsConfig, GrpcConfig, OpenApiConfig, RootedPath};
use mesh_parsers::languages::spec_shape::{AsyncApiShape, OpenApiShape, SpecShapes};
use mesh_parsers::languages::specs::YamlLines;
use mesh_parsers::{ExtractConfig, NodeKind, PolyglotIndexer};

/// An entry of the settings that the workspace root does not stand in front of.
fn rooted(path: &str) -> RootedPath {
    RootedPath { written: path.to_string(), from_root: path.to_string() }
}

#[test]
fn defaults_restrict_nothing() {
    let cfg = ExtractConfig::default();
    assert!(cfg.proto_dirs.is_empty());
    assert!(cfg.canonical_fqcn_projection);
    assert!(cfg.infer_string_topics);
    assert_eq!(cfg.controller_annotations, ["@GrpcMethod"]);
    assert!(cfg.allows_proto_path("any/where.proto"));
}

#[test]
fn settings_that_are_not_given_keep_their_defaults() {
    let cfg = ExtractConfig::from_contracts(&ContractsConfig {
        grpc: None,
        openapi: None,
        asyncapi: None,
    });
    assert!(cfg.canonical_fqcn_projection);
    assert!(cfg.infer_string_topics);
    let cfg = ExtractConfig::from_contracts(&ContractsConfig {
        grpc: Some(GrpcConfig {
            proto_dirs: vec![rooted("./protos/")],
            controller_annotations: vec![],
            canonical_fqcn_projection: true,
        }),
        openapi: Some(OpenApiConfig { spec_files: vec![rooted("Api.yaml")] }),
        asyncapi: Some(AsyncApiConfig { spec_files: vec![], infer_string_topics: true }),
    });
    assert!(cfg.allows_openapi_spec("services/x/API.YAML"));
    assert!(!cfg.allows_openapi_spec("services/x/other.yaml"));
}

fn openapi(paths: &[(&str, &[&str])]) -> SpecShapes {
    let paths = paths
        .iter()
        .map(|(p, ms)| (p.to_string(), ms.iter().map(|m| m.to_string()).collect()))
        .collect();
    SpecShapes { asyncapi: None, openapi: Some(OpenApiShape { paths }) }
}

#[test]
fn methods_are_named_in_capitals() {
    let shapes = openapi(&[("/straße", &["get", "parameters", "PoSt"])]);
    let index = PolyglotIndexer::extract("openapi.yaml", "openapi: 3.0.0\n", 0, &ServicePackages::new(""), &shapes);
    let names: Vec<&str> = index.nodes.iter().map(|n| n.name.as_str()).collect();
    assert!(names.contains(&"GET /straße"), "{names:?}");
    assert!(index.nodes.iter().all(|n| n.kind == NodeKind::HttpEndpoint));
}

#[test]
fn a_yaml_file_that_is_no_spec_declares_nothing() {
    let shapes = SpecShapes {
        asyncapi: Some(AsyncApiShape { channels: vec!["c".to_string()], topics: vec![] }),
        openapi: None,
    };
    let index = PolyglotIndexer::extract("values.yaml", "a: 1\n", 0, &ServicePackages::new(""), &shapes);
    assert!(index.nodes.is_empty());
    let index = PolyglotIndexer::extract("AsyncApi.YAML.yaml", "a: 1\n", 0, &ServicePackages::new(""), &shapes);
    assert_eq!(index.nodes.len(), 1);
}

#[test]
fn keys_and_items_are_found_on_their_lines() {
    let lines = YamlLines::new("a:\n  'b c': 1\n  - x\n  - \"y\"\n");
    assert_eq!(lines.key_line("a", 1, usize::MAX), Some(1));
    assert_eq!(lines.key_line("b c", 1, usize::MAX), Some(2));
    assert_eq!(lines.key_line("a", 2, usize::MAX), None);
    assert_eq!(lines.key_line("b c", 1, 2), None);
    assert_eq!(lines.item_line("x", 1, usize::MAX), Some(3));
    assert_eq!(lines.item_line("y", 1, usize::MAX), Some(4));
}

#[test]
fn a_search_only_goes_forward() {
    let lines = YamlLines::new("k: 1\nk: 2\nk: 3\n");
    let mut seek = lines.seeker(None);
    assert_eq!(seek.key("k"), Some(1));
    assert_eq!(seek.key("k"), Some(2));
    assert_eq!(seek.item("k"), None);
    assert_eq!(seek.key("k"), Some(3));
    assert_eq!(seek.key("k"), None);
    let mut bounded = lines.seeker_until(Some(1), 3);
    assert_eq!(bounded.key("k"), Some(2));
    assert_eq!(bounded.key("k"), None);
}

#[test]
fn files_of_unknown_languages_hold_nothing() {
    let index = PolyglotIndexer::extract("a.txt", "class A {}", 0, &ServicePackages::new(""), &SpecShapes::none());
    assert!(index.is_empty());
    assert!(!index.parse_failed);
}

#[test]
fn keys_are_bound_bare_or_in_quotes() {
    let lines = YamlLines::new("'a': 1\n\"\": 2\nb: 3\n- \"c\": 4\n");
    assert_eq!(lines.key_line("a", 1, usize::MAX), Some(1));
    assert_eq!(lines.key_line("", 1, usize::MAX), Some(2));
    assert_eq!(lines.key_line("b", 1, usize::MAX), Some(3));
    assert_eq!(lines.key_line("c", 1, usize::MAX), Some(4));
    assert_eq!(lines.key_line("d", 1, usize::MAX), None);
}

#[test]
fn separators_count_alike_and_more_patterns_name_more() {
    let named = |files: &[&str], path: &str| {
        let cfg = ExtractConfig {
            openapi_spec_files: files.iter().map(|f| rooted(f)).collect(),
            proto_dirs: vec![rooted("a\\b/")],
            ..ExtractConfig::default()
        };
        (cfg.allows_openapi_spec(path), cfg.allows_proto_path(path))
    };
    assert_eq!(named(&["x/api.yaml"], "a/b/X/api.yaml"), (true, true));
    assert_eq!(named(&["x/api.yaml"], "a\\b\\x\\API.yaml"), (true, true));
    assert_eq!(named(&["y.yaml", "x/api.yaml"], "c/x/api.yaml"), (true, false));
    assert_eq!(named(&["y.yaml"], "c/x/api.yaml"), (false, false));
    assert_eq!(named(&[], "c/x/api.yaml"), (false, false));
}

#[test]
fn entries_are_matched_below_the_workspace_root() {
    let below = |written: &str, from_root: &str| RootedPath {
        written: written.to_string(),
        from_root: from_root.to_string(),
    };
    let contracts = ContractsConfig {
        grpc: Some(GrpcConfig {
            proto_dirs: vec![below("$ROOT/protos", "protos")],
            controller_annotations: vec![],
            canonical_fqcn_projection: true,
        }),
        openapi: Some(OpenApiConfig { spec_files: vec![below("$ROOT/api.yaml", "api.yaml")] }),
        asyncapi: Some(AsyncApiConfig {
            spec_files: vec![below("$ROOT/events.yaml", "events.yaml")],
            infer_string_topics: true,
        }),
    };
    let cfg = ExtractConfig::from_contracts(&contracts);
    assert_eq!(cfg.proto_dirs, [below("$ROOT/protos", "protos")]);
    assert!(cfg.allows_proto_path("protos/a.proto"));
    assert!(!cfg.allows_proto_path("$ROOT/a.proto"));
    assert!(cfg.allows_openapi_spec("services/api.yaml"));
    let shapes = SpecShapes {
        asyncapi: Some(AsyncApiShape { channels: vec!["c".to_string()], topics: vec![] }),
        openapi: None,
    };
    let index = PolyglotIndexer::extract_with_config(
        "services/EVENTS.yaml",
        "channels:\n  c: {}\n",
        0,
        &ServicePackages::new(""),
        &shapes,
        &cfg,
    );
    assert_eq!(index.nodes.len(), 1);
}

#[test]
fn letter_case_in_paths_makes_no_difference() {
    let cfg = ExtractConfig {
        openapi_spec_files: vec![rooted("Dir/ΑΣ-Api.yaml")],
        ..ExtractConfig::default()
    };
    for path in ["x/dir/ΑΣ-api.yaml", "x\\Dir\\ας-API.yaml", "DIR/ΑΣ-API.YAML"] {
        assert!(cfg.allows_openapi_spec(path), "{path}");
        assert!(cfg.allows_openapi_spec(&path.to_ascii_uppercase()), "{path}");
        assert!(cfg.allows_openapi_spec(&path.replace('/', "\\")), "{path}");
    }
    assert!(!cfg.allows_openapi_spec("x/dir/api.yaml"));
}
