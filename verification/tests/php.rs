use mesh_parsers::NodeKind;
use mesh_parsers::languages::php::PhpExtractor;
use tree_sitter::Parser;

fn parser() -> Parser {
    let mut parser = Parser::new();
    let lang = tree_sitter_php::LANGUAGE_PHP.into();
    parser.set_language(&lang).unwrap();
    parser
}

#[test]
fn test_php_extractor_controller() {
    let code = r#"<?php
class UserController extends AbstractController {
    public function __construct() {}

    public function index() {
        return new Response();
    }
}
"#;
    let mut p = parser();
    let nodes = PhpExtractor::extract("src/Controller/UserController.php", code, 1, "", &mut p);
    let find = |name: &str| nodes.iter().find(|n| n.name == name);
    assert_eq!(find("UserController").unwrap().kind, NodeKind::ServiceClass);
    assert_eq!(find("index").unwrap().kind, NodeKind::HttpEndpoint);
    assert_eq!(find("__construct").unwrap().kind, NodeKind::ServiceClass);
}

#[test]
fn test_php_extractor_interface() {
    let code = "<?php\ninterface Foo { public function bar($x); }\n";
    let mut p = parser();
    let nodes = PhpExtractor::extract("Foo.php", code, 0, "", &mut p);
    assert_eq!(nodes.iter().find(|n| n.name == "Foo").unwrap().kind, NodeKind::Interface);
}

#[test]
fn test_php_extractor_symfony_route_attribute() {
    let code = r#"<?php
class UserController extends AbstractController {
    #[Route('/users', name: 'users_index')]
    public function index() {
        return new Response();
    }
}
"#;
    let mut p = parser();
    let nodes = PhpExtractor::extract("UserController.php", code, 0, "", &mut p);
    assert!(nodes
        .iter()
        .any(|n| n.name == "/users" && n.kind == NodeKind::HttpEndpoint));
}

#[test]
fn test_php_extractor_laravel_route() {
    let code = "<?php\nRoute::get('/users', [UserController::class, 'index']);\n";
    let mut p = parser();
    let nodes = PhpExtractor::extract("routes/web.php", code, 0, "", &mut p);
    assert!(nodes
        .iter()
        .any(|n| n.name == "GET /users" && n.kind == NodeKind::HttpEndpoint));
}
