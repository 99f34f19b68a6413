use mesh_parsers::languages::proto::{ProtoExtractor, WireSchemaError};
use mesh_parsers::languages::wire::{diff_wire_schemas, wire_types_compatible, ProtoCardinality, ProtoWireSchema, WireRule, PROTO_MAX_FIELD_NUMBER};
use tree_sitter::Parser;

fn parser() -> Parser {
    let mut parser = Parser::new();
    let lang: tree_sitter::Language = tree_sitter_proto::LANGUAGE.into();
    parser.set_language(&lang).unwrap();
    parser
}

#[test]
fn proto_import_is_recorded_as_a_dependency_on_every_node() {
    let proto = r#"
syntax = "proto3";
package hipstershop;

import "google/protobuf/money.proto";
import public "other/types.proto";

service CartService {
    rpc GetCart(GetCartRequest) returns (Cart) {}
}

message Cart {
    string user_id = 1;
}
"#;
    let mut p = parser();
    let tree = p.parse(proto, None).expect("parse");
    let (nodes, relations) = ProtoExtractor::extract_with_relations(
        "protos/demo.proto",
        proto,
        0,
        true,
        &tree,
    );
    assert_eq!(nodes.len(), 3, "CartService, CartService.GetCart, Cart");

    let deps: Vec<&str> = relations
        .dependencies
        .iter()
        .map(|(_, d)| d.as_str())
        .collect();
    assert!(deps.contains(&"google/protobuf/money.proto"));
    assert!(deps.contains(&"other/types.proto"));

    assert_eq!(relations.dependencies.len(), 2);
    assert!(relations.dependencies.iter().all(|(idx, _)| *idx == 0));
}

#[test]
fn proto_with_no_imports_records_no_dependencies() {
    let proto = r#"
syntax = "proto3";
package hipstershop;

message Empty {}
"#;
    let mut p = parser();
    let tree = p.parse(proto, None).expect("parse");
    let (_, relations) = ProtoExtractor::extract_with_relations(
        "protos/demo.proto",
        proto,
        0,
        true,
        &tree,
    );
    assert!(relations.dependencies.is_empty());
}

#[test]
fn proto_import_with_single_quotes_is_unquoted_correctly() {
    let proto = "syntax = \"proto3\";\n\nimport 'other.proto';\n\nmessage M {}\n";
    let mut p = parser();
    let tree = p.parse(proto, None).expect("parse");
    let (_, relations) =
        ProtoExtractor::extract_with_relations("demo.proto", proto, 0, true, &tree);
    assert_eq!(relations.dependencies.len(), 1);
    assert_eq!(relations.dependencies[0].1.as_str(), "other.proto");
}

#[test]
fn test_proto_extraction() {
    let proto = r#"
syntax = "proto3";
package auth.v1;

service AuthService {
    rpc AuthenticateUser (AuthRequest) returns (AuthResponse);
}

message AuthRequest {
    string username = 1;
}
"#;
    let nodes = ProtoExtractor::extract("proto/auth.proto", proto, 0);
    assert_eq!(nodes.len(), 3);
    assert!(nodes.iter().any(|n| n.name == "AuthService"));
    assert!(nodes
        .iter()
        .any(|n| n.name == "AuthService.AuthenticateUser"));
    assert!(nodes.iter().any(|n| n.name == "AuthRequest"));

    let svc = nodes.iter().find(|n| n.name == "AuthService").unwrap();
    assert_eq!(svc.line_start, 5);
    assert_eq!(svc.package, "auth.v1");

    let rpc = nodes
        .iter()
        .find(|n| n.name == "AuthService.AuthenticateUser")
        .unwrap();
    assert_eq!(rpc.line_start, 6);
    assert_eq!(rpc.package, "auth.v1");

    let msg = nodes.iter().find(|n| n.name == "AuthRequest").unwrap();
    assert_eq!(msg.line_start, 9);
    assert_eq!(msg.package, "auth.v1");
}

#[test]
fn test_proto_extraction_non_canonical_fqcn_projection() {
    let proto = r#"
syntax = "proto3";
package auth.v1;

service AuthService {
    rpc AuthenticateUser (AuthRequest) returns (AuthResponse);
}
"#;
    let nodes =
        ProtoExtractor::extract_with_config("proto/auth.proto", proto, 0, false);
    assert!(nodes.iter().any(|n| n.name == "AuthenticateUser"));
    assert!(!nodes
        .iter()
        .any(|n| n.name == "AuthService.AuthenticateUser"));
}

#[test]
fn test_proto_nested_options_and_braces_edge_case() {
    let proto = r#"syntax = "proto3";
package api.v1;

service FirstService {
    rpc GetItem (GetItemRequest) returns (Item) {
        option (google.api.http) = {
            get: "/v1/items/{id}"
        };
    }
}

service SecondService {
    rpc ListItems (ListItemsRequest) returns (ListItemsResponse);
}

message OuterMessage {
    message InnerMessage {
        string token = 1;
    }
    InnerMessage inner = 1;
}
"#;
    let nodes = ProtoExtractor::extract("proto/items.proto", proto, 0);
    assert_eq!(nodes.len(), 6);

    assert!(nodes.iter().any(|n| n.name == "FirstService"));
    assert!(nodes.iter().any(|n| n.name == "FirstService.GetItem"));
    assert!(nodes.iter().any(|n| n.name == "SecondService"));
    assert!(nodes.iter().any(|n| n.name == "SecondService.ListItems"));
    assert!(!nodes.iter().any(|n| n.name == "FirstService.ListItems"));

    assert!(nodes.iter().any(|n| n.name == "OuterMessage"));
    assert!(nodes.iter().any(|n| n.name == "InnerMessage"));
}

fn schema(src: &str) -> ProtoWireSchema {
    ProtoExtractor::wire_schema(src).expect("wire schema")
}

#[test]
fn wire_schema_collects_fields_oneof_map_nested_and_reserved() {
    let src = r#"syntax = "proto3";
package demo.v1;

enum Color { COLOR_UNSPECIFIED = 0; RED = 1; }

message Outer {
    reserved 5, 9 to 11, 40 to max;
    reserved "legacy", "old_name";
    optional string id = 1;
    repeated int64 ids = 0x2;
    map<string, Inner> by_name = 3;
    oneof choice {
        Color color = 4;
        bytes raw = 012;
    }
    message Inner {
        double score = 1;
    }
}
"#;
    let s = schema(src);
    assert_eq!(s.enum_names, vec!["Color".to_string()]);
    let paths: Vec<&str> = s.messages.iter().map(|m| m.path.as_str()).collect();
    assert_eq!(paths, vec!["Outer", "Outer.Inner"]);

    let outer = &s.messages[0];
    let fields: Vec<(&str, u32, ProtoCardinality)> = outer
        .fields
        .iter()
        .map(|f| (f.name.as_str(), f.number, f.cardinality))
        .collect();
    assert_eq!(
        fields,
        vec![
            ("id", 1, ProtoCardinality::Singular),
            ("ids", 2, ProtoCardinality::Repeated),
            ("by_name", 3, ProtoCardinality::Mapping),
            ("color", 4, ProtoCardinality::Singular),
            ("raw", 10, ProtoCardinality::Singular), // octal 012
        ]
    );
    assert_eq!(outer.fields[2].map_key.as_deref(), Some("string"));
    assert_eq!(outer.fields[3].oneof.as_deref(), Some("choice"));
    assert_eq!(
        outer.reserved_ranges,
        vec![(5, 5), (9, 11), (40, PROTO_MAX_FIELD_NUMBER)]
    );
    assert!(outer.is_number_reserved(10));
    assert!(outer.is_number_reserved(1_000));
    assert!(!outer.is_number_reserved(12));
    assert!(outer.is_name_reserved("legacy"));
    assert!(outer.is_name_reserved("old_name"));
}

#[test]
fn wire_schema_refuses_a_file_with_syntax_errors() {
    let err =
        ProtoExtractor::wire_schema("syntax = \"proto3\";\nmessage M {\n  int32 a = ;\n}\n")
            .expect_err("syntax error");
    assert!(matches!(err, WireSchemaError::SyntaxError(_)), "{err:?}");
}

#[test]
fn wire_type_compatibility_table() {
    let enums = ["Color".to_string()];
    let ok = |a: &str, b: &str| wire_types_compatible(a, &enums, b, &enums);
    for (a, b) in [
        ("int32", "int64"),
        ("int32", "uint32"),
        ("uint64", "bool"),
        ("int32", "Color"),
        ("sint32", "sint64"),
        ("fixed32", "sfixed32"),
        ("fixed64", "sfixed64"),
        ("string", "bytes"),
        ("bytes", "foo.Bar"),
        (".demo.v1.Bar", "Bar"),
    ] {
        assert!(ok(a, b), "{a} -> {b} must be compatible");
        assert!(ok(b, a), "{b} -> {a} must be compatible");
    }
    for (a, b) in [
        ("int32", "sint32"),
        ("int32", "fixed32"),
        ("fixed32", "float"),
        ("fixed64", "double"),
        ("float", "double"),
        ("int64", "string"),
        ("string", "Bar"),
        ("Bar", "Baz"),
        ("Color", "Bar"),
    ] {
        assert!(!ok(a, b), "{a} -> {b} must be incompatible");
    }
}

#[test]
fn wire_diff_applies_the_three_rules() {
    let old = schema(
        "syntax = \"proto3\";\nmessage M {\n  reserved 7;\n  int32 a = 1;\n  string b = 2;\n  int32 c = 3;\n  int32 d = 4;\n  repeated string e = 5;\n  int32 f = 6;\n}\n",
    );
    let new = schema(
        "syntax = \"proto3\";\nmessage M {\n  reserved 4;\n  reserved \"f\";\n  int64 a = 1;\n  string renamed = 2;\n  sint32 c = 3;\n  string e = 5;\n  int32 g = 7;\n}\n",
    );
    let diff = diff_wire_schemas(&old, &new);
    let found: Vec<(WireRule, u32)> =
        diff.breaking.iter().map(|c| (c.rule, c.number)).collect();
    assert_eq!(
        found,
        vec![
            (WireRule::FieldNumberReused, 2),
            (WireRule::IncompatibleType, 3),
            (WireRule::IncompatibleType, 5),
            (WireRule::FieldNumberReused, 7),
        ],
        "{diff:#?}"
    );
    assert!(diff.removed_messages.is_empty());
}

#[test]
fn wire_diff_reports_a_deletion_without_reserved_and_removed_messages() {
    let old = schema(
        "syntax = \"proto3\";\nmessage M { int32 a = 1; int32 b = 2; }\nmessage Gone {}\n",
    );
    let new = schema("syntax = \"proto3\";\nmessage M { int32 a = 1; }\n");
    let diff = diff_wire_schemas(&old, &new);
    assert_eq!(diff.breaking.len(), 1);
    assert_eq!(diff.breaking[0].rule, WireRule::DeletedWithoutReserved);
    assert_eq!(diff.breaking[0].number, 2);
    assert_eq!(diff.removed_messages, vec!["Gone".to_string()]);
}
