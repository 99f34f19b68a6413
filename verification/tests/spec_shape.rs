use mesh_parsers::languages::spec_shape::{AsyncApiShape, OpenApiShape, YamlNode};

/// A YAML value as the library reads it.
fn node_of(value: &serde_yaml::Value) -> YamlNode {
    match value {
        serde_yaml::Value::String(s) => YamlNode::Text(s.clone()),
        serde_yaml::Value::Sequence(items) => {
            YamlNode::Sequence(items.iter().map(node_of).collect())
        }
        serde_yaml::Value::Mapping(entries) => {
            YamlNode::Mapping(entries.iter().map(|(k, v)| (node_of(k), node_of(v))).collect())
        }
        serde_yaml::Value::Tagged(tagged) => YamlNode::Tagged(Box::new(node_of(&tagged.value))),
        _ => YamlNode::Scalar,
    }
}

fn read(yaml: &str) -> Option<YamlNode> {
    let value: serde_yaml::Value = serde_yaml::from_str(yaml).ok()?;
    Some(node_of(&value))
}

fn asyncapi(yaml: &str) -> Option<AsyncApiShape> {
    read(yaml).map(|root| AsyncApiShape::of(&root))
}

fn openapi(yaml: &str) -> Option<OpenApiShape> {
    read(yaml).map(|root| OpenApiShape::of(&root))
}

#[test]
fn asyncapi_shape_reads_keys_and_skips_everything_else() {
    let yaml = r#"
asyncapi: 2.6.0
info: {title: x, version: "1"}
channels:
  orders.created:
    subscribe: {message: {payload: {type: object}}}
  7: numeric-key-skipped
  users.updated: {}
topics: [a, 1, {b: c}, d]
"#;
    let shape = asyncapi(yaml).expect("shape");
    assert_eq!(shape.channels, ["orders.created", "users.updated"]);
    assert_eq!(shape.topics, ["a", "d"]);
}

#[test]
fn wrong_shaped_fields_are_empty_not_errors() {
    let shape = asyncapi("channels: [x, y]\ntopics: {a: b}\n").expect("shape");
    assert!(shape.channels.is_empty());
    assert!(shape.topics.is_empty());
}

#[test]
fn tags_are_transparent_and_non_mapping_roots_are_empty() {
    let yaml =
        "!Spec\nchannels: !Chans\n  ? !K orders\n  : {}\n  users: {}\ntopics: !T [a, !S b]\n";
    let shape = asyncapi(yaml).expect("shape");
    assert_eq!(shape.channels, ["orders", "users"]);
    assert_eq!(shape.topics, ["a", "b"]);

    let listed = asyncapi("- {a: 1}\n- [x, y]\n").expect("list root");
    assert!(listed.channels.is_empty());
    assert!(listed.topics.is_empty());
    let scalar = openapi("just text").expect("scalar root");
    assert!(scalar.paths.is_empty());
}

#[test]
fn views_match_value_accessors() {
    let docs = [
        "channels:\n  a: {}\n  1: x\n  !t b: {}\n  ? [c]\n  : {}\ntopics: [x, 2, !t y, {z: 1}]\n",
        "channels: !m {a: 1}\ntopics: !s [p]\n",
        "channels: [a]\ntopics: {a: b}\n",
        "!root {channels: {a: 1}, topics: [t]}\n",
        "channels: ~\ntopics: 3\n",
    ];
    for doc in docs {
        let value: serde_yaml::Value = serde_yaml::from_str(doc).expect("value");
        let keys: Vec<String> = value
            .get("channels")
            .and_then(|c| c.as_mapping())
            .map(|m| {
                m.keys()
                    .filter_map(|k| k.as_str().map(str::to_string))
                    .collect()
            })
            .unwrap_or_default();
        let items: Vec<String> = value
            .get("topics")
            .and_then(|c| c.as_sequence())
            .map(|s| {
                s.iter()
                    .filter_map(|k| k.as_str().map(str::to_string))
                    .collect()
            })
            .unwrap_or_default();
        let shape = asyncapi(doc).expect("shape");
        assert_eq!(shape.channels, keys, "channels of {doc:?}");
        assert_eq!(shape.topics, items, "topics of {doc:?}");
    }
}

#[test]
fn openapi_shape_reads_paths_and_methods() {
    let yaml = r#"
openapi: 3.0.0
paths:
  /users:
    get: {responses: {"200": {description: ok}}}
    post: {}
  /health: "not-a-mapping"
  ? [complex]
  : {get: {}}
components: {schemas: {User: {type: object}}}
"#;
    let shape = openapi(yaml).expect("shape");
    assert_eq!(
        shape.paths,
        vec![
            (
                "/users".to_string(),
                vec!["get".to_string(), "post".to_string()]
            ),
            ("/health".to_string(), vec![]),
        ]
    );
}

#[test]
fn a_repeated_key_is_listed_each_time() {
    let entry = |k: &str, v: YamlNode| (YamlNode::Text(k.to_string()), v);
    let methods = |m: &str| YamlNode::Mapping(vec![entry(m, YamlNode::Scalar)]);
    let root = YamlNode::Mapping(vec![entry(
        "paths",
        YamlNode::Mapping(vec![entry("/a", methods("get")), entry("/a", methods("put"))]),
    )]);
    assert_eq!(
        OpenApiShape::of(&root).paths,
        vec![
            ("/a".to_string(), vec!["get".to_string()]),
            ("/a".to_string(), vec!["put".to_string()]),
        ]
    );
}

#[test]
fn the_last_section_of_a_name_counts() {
    let entry = |k: &str, v: YamlNode| (YamlNode::Text(k.to_string()), v);
    let root = YamlNode::Mapping(vec![
        entry("channels", YamlNode::Mapping(vec![entry("a", YamlNode::Scalar)])),
        entry("channels", YamlNode::Mapping(vec![entry("b", YamlNode::Scalar)])),
    ]);
    assert_eq!(AsyncApiShape::of(&root).channels, vec!["b".to_string()]);
}
