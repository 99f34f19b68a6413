use mesh_parsers::NodeKind;
use mesh_parsers::languages::swift::SwiftExtractor;
use tree_sitter::Parser;

fn parser() -> Parser {
    let mut parser = Parser::new();
    let lang = tree_sitter_swift::LANGUAGE.into();
    parser.set_language(&lang).unwrap();
    parser
}

#[test]
fn test_swift_extractor_class_and_protocol() {
    let code = r#"
protocol Payable {
    func charge(amount: Int) -> Bool
}

class PaymentService: Payable {
    func charge(amount: Int) -> Bool {
        return amount > 0
    }
}

struct Invoice {
    var total: Int
}
"#;
    let mut p = parser();
    let tree = p.parse(code, None).expect("parse");
    let nodes = SwiftExtractor::extract(
        "Sources/App/PaymentService.swift",
        code,
        4,
        "",
        &tree,
    );
    let find = |name: &str| nodes.iter().find(|n| n.name == name);
    assert_eq!(find("Payable").unwrap().kind, NodeKind::Interface);
    assert_eq!(find("PaymentService").unwrap().kind, NodeKind::ServiceClass);
    assert_eq!(find("Invoice").unwrap().kind, NodeKind::ServiceClass);
    assert!(nodes.iter().all(|n| n.repo_id == 4));
}

#[test]
fn test_swift_extractor_vapor_route() {
    let code = r#"
import Vapor
func routes(_ app: Application) throws {
    app.get("users") { req in
        return "ok"
    }
}
"#;
    let mut p = parser();
    let tree = p.parse(code, None).expect("parse");
    let nodes = SwiftExtractor::extract("Sources/App/routes.swift", code, 0, "", &tree);
    assert!(nodes
        .iter()
        .any(|n| n.name == "GET users" && n.kind == NodeKind::HttpEndpoint));
}
