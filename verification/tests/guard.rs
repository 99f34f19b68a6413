use mesh_parsers::AstGuard;

#[test]
fn test_nesting_depth_guard() {
    let normal_code = b"fn main() { if true { while true { let x = (1 + (2 * [3])); } } }";
    assert!(AstGuard::max_nesting_depth(normal_code) <= 64);

    let mut deep_code = vec![b'('; 70];
    deep_code.extend(vec![b')'; 70]);
    assert!(AstGuard::max_nesting_depth(&deep_code) > 64);
}

#[test]
fn test_nesting_depth_ignores_strings_and_comments() {
    let code_with_string = br#"
        fn log() {
            let pattern = "[[[[[[[[[[[[[[[[[[[[[[[[[[[[[[[[[[[[[[[[[[[[[[[[[[[[[[[[[[[[[[[[[[[[[[";
        }
        "#;
    assert_eq!(AstGuard::max_nesting_depth(code_with_string), 1);

    let code_with_comments = br#"
        // {{{{{{{{{{{{{{{{{{{{{{{{{{{{{{{{{{{{{{{{{{{{{{{{{{{{{{{{{{{{{{{{{{{{
        /* (((((((((((((((((((((((((((((((((((((((((((((((((((((((((((((((((((( */
        # [[[[[[[[[[[[[[[[[[[[[[[[[[[[[[[[[[[[[[[[[[[[[[[[[[[[[[[[[[[[[[[[[[[[[[
        fn clean() {
            return;
        }
        "#;
    assert_eq!(AstGuard::max_nesting_depth(code_with_comments), 1);
}

#[test]
fn test_is_contract_or_schema() {
    assert!(AstGuard::is_contract_or_schema("services/auth.proto"));
    assert!(AstGuard::is_contract_or_schema("client.pb.go"));
    assert!(AstGuard::is_contract_or_schema("AuthOuterClass.java"));
    assert!(AstGuard::is_contract_or_schema("api.pb.ts"));
    assert!(AstGuard::is_contract_or_schema("user_pb2.py"));
    assert!(AstGuard::is_contract_or_schema("contract.pb.rs"));
    assert!(AstGuard::is_contract_or_schema("openapi.yaml"));
    assert!(AstGuard::is_contract_or_schema("asyncapi.json"));

    assert!(!AstGuard::is_contract_or_schema("main.rs"));
    assert!(!AstGuard::is_contract_or_schema("UserController.java"));
    assert!(!AstGuard::is_contract_or_schema("app.ts"));
}

#[test]
fn test_schema_large_budget() {
    let large_content =
        b"syntax = \"proto3\";\nmessage LargeStub { string id = 1; }\n".repeat(10_000);
    let size = large_content.len() as u64;

    assert!(AstGuard::should_parse_path("large.proto", size, &large_content));

    assert!(!AstGuard::should_parse_path("large.rs", size, &large_content));
}
