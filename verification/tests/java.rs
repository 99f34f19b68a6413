use mesh_parsers::ServicePackages;
use mesh_parsers::languages::java::JavaExtractor;
use mesh_parsers::{ContractGraph, ContractNode, NodeId, NodeKind};
use tree_sitter::Parser;

fn find_dependents<'a>(graph: &'a ContractGraph, name: &str) -> Vec<&'a ContractNode> {
    graph
        .all_dependencies()
        .iter()
        .filter(|(_, target)| {
            target == name
                || target
                    .rsplit(|c: char| c == '.' || c == ':')
                    .next()
                    .is_some_and(|last| last == name)
        })
        .map(|(id, _)| &graph.all_nodes()[*id as usize])
        .collect()
}

struct Impact<'a> {
    upstream_producers: Vec<&'a ContractNode>,
    downstream_consumers: Vec<&'a ContractNode>,
}

fn analyze_impact<'a>(graph: &'a ContractGraph, topic: &str) -> Impact<'a> {
    let ends = |links: &'a Vec<(NodeId, String)>| -> Vec<&'a ContractNode> {
        links
            .iter()
            .filter(|(_, t)| t == topic)
            .map(|(id, _)| &graph.all_nodes()[*id as usize])
            .collect()
    };
    Impact {
        upstream_producers: ends(graph.all_producers()),
        downstream_consumers: ends(graph.all_consumers()),
    }
}

fn parser() -> Parser {
    let mut parser = Parser::new();
    let lang = tree_sitter_java::LANGUAGE.into();
    parser.set_language(&lang).unwrap();
    parser
}

#[test]
fn test_java_extractor() {
    let code = r#"
package com.mesh.billing;

@RestController
public class BillingController {
    @GetMapping("/bills")
    public List<Bill> getBills() {
        return null;
    }

    @KafkaListener(topics = "billing.events")
    public void onEvent(String msg) {}
}
"#;
    let mut parser = Parser::new();
    let lang = tree_sitter_java::LANGUAGE.into();
    parser.set_language(&lang).unwrap();

    let nodes =
        JavaExtractor::extract("BillingController.java", code, 1, &ServicePackages::new(""), &mut parser);
    assert!(nodes.iter().any(|n| n.name == "BillingController"));
    assert!(nodes
        .iter()
        .any(|n| n.name == "getBills" && n.kind == NodeKind::HttpEndpoint));
    assert!(nodes
        .iter()
        .any(|n| n.name == "billing.events" && n.kind == NodeKind::KafkaTopic));
}

#[test]
fn kafka_listener_fallback_does_not_cross_into_unrelated_annotation() {
    let code = r#"
package com.mesh.billing;

public class BillingListener {
    @Transactional("payments-tx")
    @KafkaListener(groupId = "billing-group")
    public void onEvent(String msg) {}
}
"#;
    let mut parser = parser();
    let nodes = JavaExtractor::extract("BillingListener.java", code, 0, &ServicePackages::new(""), &mut parser);
    let node = nodes
        .iter()
        .find(|n| n.kind == NodeKind::KafkaTopic)
        .expect("kafka topic node");
    assert_eq!(
        node.name.as_str(),
        "onEvent",
        "with no resolvable `topics` value, must fall back to the method name — \
         never an unrelated annotation's argument like \"payments-tx\" or the \
         groupId \"billing-group\""
    );
}

#[test]
fn kafka_producer_topic_does_not_cross_into_later_statement() {
    let code = r#"kafkaTemplate.send(topicVar, payload); logger.info("database is down");"#;
    assert_eq!(JavaExtractor::extract_kafka_producer_topic(code), None);
}

#[test]
fn kafka_producer_topic_extracts_literal_first_argument() {
    let code = r#"kafkaTemplate.send("orders.created", payload);"#;
    assert_eq!(
        JavaExtractor::extract_kafka_producer_topic(code),
        Some("orders.created".to_string())
    );
}

#[test]
fn test_java_plain_import_dependency() {
    let code = r#"
package com.mesh.orders;

import com.mesh.billing.BillingService;

public class OrderController {
    public void charge() {
        BillingService svc = new BillingService();
    }
}
"#;
    let mut parser = parser();
    let tree = parser.parse(code, None).expect("parse");
    let (nodes, dependencies, _producers) =
        JavaExtractor::extract_relations("OrderController.java", code, 1, &ServicePackages::new(""), &tree);

    let class_idx = nodes
        .iter()
        .position(|n| n.name == "OrderController")
        .expect("class node present");
    assert!(dependencies.iter().any(|(i, target)| {
        *i == class_idx && target.as_str() == "com.mesh.billing.BillingService"
    }));
}

#[test]
fn test_java_static_and_wildcard_imports() {
    let code = r#"
package com.mesh.orders;

import static com.mesh.billing.BillingService.DEFAULT_CURRENCY;
import com.mesh.notifications.*;

public class OrderController {
    public void charge() {
        String currency = DEFAULT_CURRENCY;
    }
}
"#;
    let mut parser = parser();
    let tree = parser.parse(code, None).expect("parse");
    let (nodes, dependencies, _producers) =
        JavaExtractor::extract_relations("OrderController.java", code, 1, &ServicePackages::new(""), &tree);

    let class_idx = nodes
        .iter()
        .position(|n| n.name == "OrderController")
        .expect("class node present");

    assert!(dependencies.iter().any(|(i, target)| {
        *i == class_idx && target.as_str() == "com.mesh.billing.BillingService"
    }));
    assert!(dependencies
        .iter()
        .any(|(i, target)| { *i == class_idx && target.as_str() == "com.mesh.notifications" }));
}

#[test]
fn test_java_unused_import_not_attached_to_unrelated_symbol() {
    let code = r#"
package com.mesh.orders;

import com.mesh.billing.BillingService;

public class OrderController {
    public void ping() {
        System.out.println("pong");
    }
}
"#;
    let mut parser = parser();
    let tree = parser.parse(code, None).expect("parse");
    let (nodes, dependencies, _producers) =
        JavaExtractor::extract_relations("OrderController.java", code, 1, &ServicePackages::new(""), &tree);

    let method_idx = nodes
        .iter()
        .position(|n| n.name == "ping")
        .expect("method node present");
    assert!(!dependencies.iter().any(|(i, target)| {
        *i == method_idx && target.as_str() == "com.mesh.billing.BillingService"
    }));
}

#[test]
fn test_java_import_find_dependents_integration() {
    let mut p = parser();

    let billing_code = r#"
package com.mesh.billing;

public class BillingService {
    public void charge() {}
}
"#;
    let order_code = r#"
package com.mesh.orders;

import com.mesh.billing.BillingService;

public class OrderController {
    private BillingService svc;

    public void checkout() {
        svc = new BillingService();
    }
}
"#;

    let mut graph = ContractGraph::new();

    let billing_tree = p.parse(billing_code, None).expect("parse");
    let (billing_nodes, _deps, _producers) = JavaExtractor::extract_relations(
        "services/billing/BillingService.java",
        billing_code,
        1,
        &ServicePackages::new(""),
        &billing_tree,
    );
    for node in billing_nodes {
        graph.add_node(node);
    }

    let order_tree = p.parse(order_code, None).expect("parse");
    let (order_nodes, order_deps, _producers2) = JavaExtractor::extract_relations(
        "services/orders/OrderController.java",
        order_code,
        2,
        &ServicePackages::new(""),
        &order_tree,
    );
    let order_ids: Vec<_> = order_nodes.into_iter().map(|n| graph.add_node(n)).collect();
    for (i, target) in order_deps {
        graph.add_dependency(order_ids[i], target.as_str());
    }

    let dependents = find_dependents(&graph, "com.mesh.billing.BillingService");
    assert!(dependents.iter().any(|n| n.name == "OrderController"));
}

#[test]
fn test_java_kafka_producer_extraction() {
    let code = r#"
package com.mesh.orders;

public class OrderService {
    public void placeOrder() {
        kafkaTemplate.send("orders.created", "payload");
    }
}
"#;
    let mut parser = parser();
    let tree = parser.parse(code, None).expect("parse");
    let (nodes, _deps, producers) =
        JavaExtractor::extract_relations("OrderService.java", code, 1, &ServicePackages::new(""), &tree);

    let method_idx = nodes
        .iter()
        .position(|n| n.name == "placeOrder")
        .expect("method node present");
    assert!(producers
        .iter()
        .any(|(i, topic)| { *i == method_idx && topic.as_str() == "orders.created" }));
}

#[test]
fn test_java_non_kafka_send_call_is_not_a_producer() {
    let code = r#"
package com.mesh.orders;

public class OrderService {
    public void notifyUser() {
        emailClient.send("welcome@example.com", "payload");
    }
}
"#;
    let mut parser = parser();
    let tree = parser.parse(code, None).expect("parse");
    let (_nodes, _deps, producers) =
        JavaExtractor::extract_relations("OrderService.java", code, 1, &ServicePackages::new(""), &tree);
    assert!(producers.is_empty());
}

#[test]
fn test_java_kafka_producer_consumer_impact_integration() {
    let mut p = parser();

    let producer_code = r#"
package com.mesh.orders;

public class OrderService {
    public void placeOrder() {
        kafkaTemplate.send("orders.created", "payload");
    }
}
"#;
    let consumer_code = r#"
package com.mesh.notifications;

public class OrderNotifier {
    @KafkaListener(topics = "orders.created")
    public void onOrderCreated(String msg) {}
}
"#;

    let mut graph = ContractGraph::new();

    let producer_tree = p.parse(producer_code, None).expect("parse");
    let (producer_nodes, _deps, producers) = JavaExtractor::extract_relations(
        "services/orders/OrderService.java",
        producer_code,
        1,
        &ServicePackages::new(""),
        &producer_tree,
    );
    let producer_ids: Vec<_> = producer_nodes
        .into_iter()
        .map(|n| graph.add_node(n))
        .collect();
    for (i, topic) in producers {
        graph.add_producer(producer_ids[i], topic.as_str());
    }

    let consumer_tree = p.parse(consumer_code, None).expect("parse");
    let (consumer_nodes, _deps2, _producers2) = JavaExtractor::extract_relations(
        "services/notifications/OrderNotifier.java",
        consumer_code,
        2,
        &ServicePackages::new(""),
        &consumer_tree,
    );
    for node in consumer_nodes {
        let is_topic = node.kind == NodeKind::KafkaTopic;
        let topic_name = node.name.clone();
        let id = graph.add_node(node);
        if is_topic {
            graph.add_consumer(id, topic_name.as_str());
        }
    }

    let impact = analyze_impact(&graph, "orders.created");
    assert!(impact
        .upstream_producers
        .iter()
        .any(|n| n.name == "placeOrder"));
    assert!(!impact.downstream_consumers.is_empty());
}

#[test]
fn test_java_http_annotations_and_getter_isolation() {
    let code = r#"
package com.mesh.api;

public class ResourceController {
    @PutMapping("/items/{id}")
    public void updateItem() {}

    @DeleteMapping("/items/{id}")
    public void deleteItem() {}

    @PatchMapping("/items/{id}")
    public void patchItem() {}

    @GET
    @Path("/jaxrs")
    public String getJaxRs() { return "ok"; }

    @DELETE
    public void deleteJaxRs() {}

    // Lombok or custom getter should not trigger @GET false positive
    @Getter
    public String getName() { return "name"; }
}
"#;
    let mut parser = parser();
    let nodes =
        JavaExtractor::extract("ResourceController.java", code, 1, &ServicePackages::new(""), &mut parser);

    assert!(nodes
        .iter()
        .any(|n| n.name == "updateItem" && n.kind == NodeKind::HttpEndpoint));
    assert!(nodes
        .iter()
        .any(|n| n.name == "deleteItem" && n.kind == NodeKind::HttpEndpoint));
    assert!(nodes
        .iter()
        .any(|n| n.name == "patchItem" && n.kind == NodeKind::HttpEndpoint));
    assert!(nodes
        .iter()
        .any(|n| n.name == "getJaxRs" && n.kind == NodeKind::HttpEndpoint));
    assert!(nodes
        .iter()
        .any(|n| n.name == "deleteJaxRs" && n.kind == NodeKind::HttpEndpoint));

    let getter_node = nodes
        .iter()
        .find(|n| n.name == "getName")
        .expect("getName method found");
    assert_ne!(getter_node.kind, NodeKind::HttpEndpoint);
}

#[test]
fn test_java_kafka_topic_parsing() {
    let code = r#"
package com.mesh.events;

public class EventConsumer {
    @KafkaListener("orders.direct")
    public void handleDirect(String event) {}

    @KafkaListener
    public void handleDynamic(String event) {}
}
"#;
    let mut parser = parser();
    let nodes = JavaExtractor::extract("EventConsumer.java", code, 1, &ServicePackages::new(""), &mut parser);

    assert!(nodes
        .iter()
        .any(|n| n.name == "orders.direct" && n.kind == NodeKind::KafkaTopic));
    assert!(!nodes.iter().any(|n| n.name == "unknown.topic"));
}
