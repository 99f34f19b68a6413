use mesh_parsers::languages::java::JavaExtractor;
use mesh_parsers::languages::kotlin::KotlinExtractor;
use mesh_parsers::languages::php::PhpExtractor;
use mesh_parsers::languages::ruby::RubyExtractor;
use mesh_parsers::languages::rust_lang::RustExtractor;
use mesh_parsers::{AstGuard, LanguageKind, NodeKind};

#[test]
fn annotations_stand_as_whole_words() {
    assert!(JavaExtractor::has_annotation("@Get public", "Get"));
    assert!(!JavaExtractor::has_annotation("@Getter public", "Get"));
    assert!(!JavaExtractor::has_annotation("@Get_x", "Get"));
    assert!(!JavaExtractor::has_annotation("@Geté", "Get"));
    assert!(!JavaExtractor::has_annotation("é@Get", "Get"));
    assert!(JavaExtractor::has_annotation("@Getter @Get(1)", "Get"));
}

#[test]
fn annotation_texts_end_at_their_own_parenthesis() {
    assert_eq!(
        JavaExtractor::extract_annotation_text("@A(\"x\") @B (f(1), 2) @C(3)", "B"),
        Some("(f(1), 2)".to_string())
    );
    assert_eq!(JavaExtractor::extract_annotation_text("@B @C(3)", "B"), None);
    assert_eq!(JavaExtractor::extract_annotation_text("@B(1", "B"), None);
}

#[test]
fn annotation_parameters_are_named_or_alone() {
    let param = |a: &str| JavaExtractor::extract_annotation_param(a, "topics");
    assert_eq!(param("(topics = \"a\", id = \"b\")"), Some("a".to_string()));
    assert_eq!(param("(\"a\")"), Some("a".to_string()));
    assert_eq!(param("(id = \"b\")"), None);
    assert_eq!(param("()"), None);
    assert_eq!(
        KotlinExtractor::extract_annotation_param("@L(topics = [\"t\"])", "topics"),
        "t"
    );
    assert_eq!(KotlinExtractor::extract_annotation_param("@L", "topics"), "unknown.topic");
}

#[test]
fn producers_are_called_on_something_named_after_kafka() {
    let topic = |s: &str| JavaExtractor::extract_kafka_producer_topic(s);
    assert_eq!(topic("this.myKAFKAthing.SEND( \"t\")"), Some("t".to_string()));
    assert_eq!(topic("mail.send(\"t\"); kafka_x.send(\"u\", f(1))"), Some("u".to_string()));
    assert_eq!(topic("kafka.send(x, \"t\")"), None);
    assert_eq!(topic("kafka.send(\"t\""), None);
}

#[test]
fn routes_of_axum_and_actix_are_read() {
    assert_eq!(RustExtractor::extract_axum_method("\"/a\", get(h))"), Some("GET".to_string()));
    assert_eq!(
        RustExtractor::extract_axum_method("\"/a\", routing::post (h))"),
        Some("POST".to_string())
    );
    assert_eq!(RustExtractor::extract_axum_method("\"/a\", |x| y(h))"), None);
    assert_eq!(RustExtractor::extract_axum_method("\"/a\")"), None);
    assert_eq!(
        RustExtractor::actix_route_from_attr("#[doc(\"d\")]\n#[delete(\"/x/{id}\")]"),
        Some(("DELETE".to_string(), "/x/{id}".to_string()))
    );
    assert_eq!(RustExtractor::actix_route_from_attr("#[get(\"\")]"), None);
}

#[test]
fn quoted_strings_are_listed_in_order() {
    assert_eq!(RustExtractor::extract_quoted_strings("a \"b\" \"\" \"c"), ["b", ""]);
}

#[test]
fn use_trees_are_spelled_out() {
    let expand = |s: &str| {
        let mut out = Vec::new();
        RustExtractor::expand_use_tree(s, "", &mut out);
        out
    };
    assert_eq!(expand("a::{b, c::D}"), ["a::b", "a::c::D"]);
    assert_eq!(expand("a::{self, b::{c as d, *}, {e}}"), ["a", "a::b::c", "a::b", "a::e"]);
    assert_eq!(expand("a::b as c"), ["a::b"]);
    assert_eq!(expand(" "), Vec::<String>::new());
    assert_eq!(expand("a::{b"), Vec::<String>::new());
    assert_eq!(RustExtractor::split_top_level_commas("a, {b, c}, , d"), ["a", "{b, c}", "d"]);
}

#[test]
fn route_files_are_told_by_their_names_in_any_case() {
    let code = "get '/users', to: 'users#index'\n";
    let tree = AstGuard::parse_with(LanguageKind::Ruby, code, 0)
        .into_option()
        .expect("tree");
    let nodes = RubyExtractor::extract("Config/ROUTES.rb", code, 0, "", &tree);
    assert!(nodes
        .iter()
        .any(|n| n.name == "GET /users" && n.kind == NodeKind::HttpEndpoint));
    let nodes = RubyExtractor::extract("app/models/user.rb", code, 0, "", &tree);
    assert!(nodes.is_empty());
}

#[test]
fn parsers_are_used_as_they_are_given() {
    let language = LanguageKind::Php.language().expect("grammar");
    let mut parser = AstGuard::create_bounded_parser(&language).expect("parser");
    let nodes = PhpExtractor::extract("a.php", "<?php\nclass A {}\n", 9, "", &mut parser);
    assert_eq!(nodes.len(), 1);
    assert_eq!((nodes[0].name.as_str(), nodes[0].line_start, nodes[0].repo_id), ("A", 2, 9));
    let mut none = tree_sitter::Parser::new();
    assert!(PhpExtractor::extract("a.php", "<?php\nclass A {}\n", 9, "", &mut none).is_empty());
}
