use mesh_parsers::ServicePackages;
use mesh_parsers::languages::cpp::CppExtractor;
use mesh_parsers::{ContractGraph, ContractNode, FileIndex, NodeKind};
use tree_sitter::Parser;

fn find_dependents<'a>(graph: &'a ContractGraph, name: &str) -> Vec<&'a ContractNode> {
    graph
        .all_dependencies()
        .iter()
        .filter(|(_, target)| {
            target == name
                || target
                    .rsplit(|c: char| c == '.' || c == ':')
                    .next()
                    .is_some_and(|last| last == name)
        })
        .map(|(id, _)| &graph.all_nodes()[*id as usize])
        .collect()
}

fn parser() -> Parser {
    let mut parser = Parser::new();
    let lang = tree_sitter_cpp::LANGUAGE.into();
    parser.set_language(&lang).unwrap();
    parser
}

#[test]
fn test_cpp_extractor_classes_and_functions() {
    let code = r#"
#include <string>

namespace auth {

class IAuthService {
public:
    virtual ~IAuthService() = default;
    virtual bool Authenticate(const std::string& token) = 0;
};

struct Credentials {
    std::string user;
};

class AuthService : public IAuthService {
public:
    bool Authenticate(const std::string& token) override {
        return !token.empty();
    }
};

bool AuthService::Validate(const Credentials& c) {
    return !c.user.empty();
}

void HandleLogin(int fd) {}

} // namespace auth
"#;
    let mut p = parser();
    let nodes = CppExtractor::extract("services/auth/auth.cpp", code, 3, &ServicePackages::new(""), &mut p);

    let find = |name: &str| nodes.iter().find(|n| n.name == name);

    let iface = find("IAuthService").expect("interface");
    assert_eq!(iface.kind, NodeKind::Interface);
    assert_eq!(find("Credentials").unwrap().kind, NodeKind::ServiceClass);
    assert_eq!(find("AuthService").unwrap().kind, NodeKind::ServiceClass);
    assert!(find("Authenticate").is_some());
    assert!(find("Validate").is_some(), "qualified out-of-class method");
    assert_eq!(find("HandleLogin").unwrap().kind, NodeKind::HttpEndpoint);
    assert_eq!(find("AuthService").unwrap().package.as_str(), "auth");
    assert!(nodes.iter().all(|n| n.repo_id == 3));
}

#[test]
fn test_cpp_extractor_skips_forward_declarations() {
    let code = "class Forward;\nstruct Opaque;\n";
    let mut p = parser();
    let nodes = CppExtractor::extract("fwd.hpp", code, 0, &ServicePackages::new(""), &mut p);
    assert!(nodes.is_empty());
}

#[test]
fn test_cpp_extractor_grpc_service_and_method() {
    let code = r#"
class GreeterService final : public ::grpc::Service {
public:
    grpc::Status SayHello(grpc::ServerContext* context) override;
};

grpc::Status GreeterService::SayHello(grpc::ServerContext* context) {
    return grpc::Status::OK;
}

class PlainWidget {
public:
    void Render() {}
};
"#;
    let mut p = parser();
    let nodes = CppExtractor::extract("greeter.cpp", code, 1, &ServicePackages::new(""), &mut p);
    let find = |name: &str| nodes.iter().find(|n| n.name == name);

    assert_eq!(
        find("GreeterService").expect("grpc service").kind,
        NodeKind::GrpcService
    );
    assert_eq!(
        find("SayHello").expect("grpc method").kind,
        NodeKind::GrpcMethod
    );
    assert_eq!(find("PlainWidget").unwrap().kind, NodeKind::ServiceClass);
    assert_eq!(find("Render").unwrap().kind, NodeKind::ServiceClass);
}

#[test]
fn test_cpp_extractor_excludes_angle_bracket_system_includes() {
    let code = r#"
#include <vector>
#include "Shape.hpp"

class Circle : public Shape {
public:
    double Area() const { return 3.14; }
};
"#;
    let mut p = parser();
    let tree = p.parse(code, None).expect("parse");
    let index = CppExtractor::extract_file_index("circle.cpp", code, 0, &ServicePackages::new(""), &tree);

    assert!(
        index
            .dependencies
            .iter()
            .all(|(_, t)| t.as_str() != "vector"),
        "angle-bracket system include must not be treated as a dependency"
    );
    assert!(
        index
            .dependencies
            .iter()
            .any(|(_, t)| t.as_str() == "Shape"),
        "quoted local include used by a node must be a dependency"
    );
}

#[test]
fn test_cpp_include_dependency_resolves_via_find_dependents() {
    let header_code = r#"
class Shape {
public:
    virtual ~Shape() = default;
    virtual double Area() const = 0;
};
"#;
    let consumer_code = r#"
#include "Shape.hpp"
#include <vector>

class Circle : public Shape {
public:
    double Area() const override { return 3.14; }
};
"#;
    let mut p = parser();
    let header_tree = p.parse(header_code, None).expect("parse");
    let header_index =
        CppExtractor::extract_file_index("Shape.hpp", header_code, 0, &ServicePackages::new(""), &header_tree);
    let mut p2 = parser();
    let consumer_tree = p2.parse(consumer_code, None).expect("parse");
    let consumer_index = CppExtractor::extract_file_index(
        "circle.cpp",
        consumer_code,
        0,
        &ServicePackages::new(""),
        &consumer_tree,
    );

    let mut merged = FileIndex::default();
    merged.merge(header_index);
    merged.merge(consumer_index);

    let mut graph = ContractGraph::new();
    merged.apply(&mut graph);

    let dependents = find_dependents(&graph, "Shape");
    assert!(
        dependents.iter().any(|n| n.name == "Circle"),
        "Circle should be a dependent of Shape via the quoted #include"
    );
}

#[test]
fn test_cpp_intra_project_angle_bracket_include() {
    let code = r#"
#include <vector>
#include <billing/service.h>
#include <auth/jwt.hpp>

class BillingClient {
public:
    service::BillingService svc;
    jwt::Token tok;
    void Pay() {}
};
"#;
    let mut p = parser();
    let tree = p.parse(code, None).expect("parse");
    let index = CppExtractor::extract_file_index("client.cpp", code, 0, &ServicePackages::new(""), &tree);
    assert!(
        index
            .dependencies
            .iter()
            .all(|(_, t)| t.as_str() != "vector"),
        "vector must be excluded"
    );
    assert!(
        index
            .dependencies
            .iter()
            .any(|(_, t)| t.as_str() == "service"),
        "service.h must be included"
    );
    assert!(
        index.dependencies.iter().any(|(_, t)| t.as_str() == "jwt"),
        "jwt.hpp must be included"
    );
}
