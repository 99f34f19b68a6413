use mesh_parsers::ServicePackages;
use mesh_parsers::NodeKind;
use mesh_parsers::languages::kotlin::KotlinExtractor;
use tree_sitter::Parser;

fn parser() -> Parser {
    let mut parser = Parser::new();
    let lang = tree_sitter_kotlin_ng::LANGUAGE.into();
    parser.set_language(&lang).unwrap();
    parser
}

#[test]
fn test_kotlin_extractor_spring_controller() {
    let code = r#"
package com.mesh.billing

@RestController
class BillingController {
    @GetMapping("/bills")
    fun getBills(): List<Bill> {
        return emptyList()
    }

    @KafkaListener(topics = "billing.events")
    fun onEvent(msg: String) {
    }
}

interface BillingGateway {
    fun charge(amount: Int)
}
"#;
    let mut p = parser();
    let nodes = KotlinExtractor::extract("BillingController.kt", code, 1, &ServicePackages::new(""), &mut p);

    let find = |name: &str| nodes.iter().find(|n| n.name == name);

    assert!(find("BillingController").is_some());
    assert_eq!(
        find("getBills").expect("http endpoint").kind,
        NodeKind::HttpEndpoint
    );
    assert_eq!(
        find("billing.events").expect("kafka topic").kind,
        NodeKind::KafkaTopic
    );
    assert_eq!(
        find("BillingGateway").expect("interface").kind,
        NodeKind::Interface
    );
    assert!(nodes.iter().all(|n| n.repo_id == 1));
    assert_eq!(
        find("BillingController").unwrap().package.as_str(),
        "com.mesh.billing"
    );
}

#[test]
fn test_kotlin_extractor_object_declaration() {
    let code = r#"
package com.mesh.util

object Constants {
    const val VERSION = "1.0"
}
"#;
    let mut p = parser();
    let nodes = KotlinExtractor::extract("Constants.kt", code, 0, &ServicePackages::new(""), &mut p);
    let constants = nodes
        .iter()
        .find(|n| n.name == "Constants")
        .expect("object");
    assert_eq!(constants.kind, NodeKind::ServiceClass);
}
