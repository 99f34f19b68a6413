use mesh_parsers::languages::python::PythonExtractor;
use mesh_parsers::{ContractGraph, ContractNode, NodeId, NodeKind};
use tree_sitter::Parser;

fn find_dependents<'a>(graph: &'a ContractGraph, name: &str) -> Vec<&'a ContractNode> {
    graph
        .all_dependencies()
        .iter()
        .filter(|(_, target)| {
            target == name
                || target
                    .rsplit(|c: char| c == '.' || c == ':')
                    .next()
                    .is_some_and(|last| last == name)
        })
        .map(|(id, _)| &graph.all_nodes()[*id as usize])
        .collect()
}

struct Impact<'a> {
    upstream_producers: Vec<&'a ContractNode>,
    downstream_consumers: Vec<&'a ContractNode>,
}

fn analyze_impact<'a>(graph: &'a ContractGraph, topic: &str) -> Impact<'a> {
    let ends = |links: &'a Vec<(NodeId, String)>| -> Vec<&'a ContractNode> {
        links
            .iter()
            .filter(|(_, t)| t == topic)
            .map(|(id, _)| &graph.all_nodes()[*id as usize])
            .collect()
    };
    Impact {
        upstream_producers: ends(graph.all_producers()),
        downstream_consumers: ends(graph.all_consumers()),
    }
}

fn make_parser() -> Parser {
    let mut parser = Parser::new();
    let lang = tree_sitter_python::LANGUAGE.into();
    parser.set_language(&lang).expect("load python grammar");
    parser
}

#[test]
fn test_python_extractor() {
    let code = r#"
class UserServicer:
    def GetUser(self, request, context):
        pass

@app.get("/users")
def list_users():
    return []
"#;
    let mut parser = make_parser();

    let nodes = PythonExtractor::extract("services/user.py", code, 3, "", &mut parser);
    assert!(nodes
        .iter()
        .any(|n| n.name == "UserServicer" && n.kind == NodeKind::GrpcService));
    assert!(nodes.iter().any(|n| n.name == "GetUser"));
    assert!(nodes
        .iter()
        .any(|n| n.name == "list_users" && n.kind == NodeKind::HttpEndpoint));
}

#[test]
fn generated_pb2_grpc_servicer_base_class_is_not_tagged_grpc_service() {
    let code = r#"
class CheckoutServiceServicer(object):
    """Missing associated documentation comment in .proto file."""

    def PlaceOrder(self, request, context):
        raise NotImplementedError()
"#;
    let mut parser = make_parser();
    let nodes = PythonExtractor::extract(
        "src/emailservice/demo_pb2_grpc.py",
        code,
        3,
        "",
        &mut parser,
    );
    let servicer = nodes
        .iter()
        .find(|n| n.name == "CheckoutServiceServicer")
        .expect("class node present");
    assert_eq!(
        servicer.kind,
        NodeKind::ServiceClass,
        "a Servicer base class inside a generated *_pb2_grpc.py stub \
         must not be tagged GrpcService, got: {:?}",
        servicer.kind
    );
}

#[test]
fn real_servicer_subclass_outside_generated_stub_is_still_tagged_grpc_service() {
    let code = r#"
class CheckoutServiceServicer(checkout_pb2_grpc.CheckoutServiceServicer):
    def PlaceOrder(self, request, context):
        return do_checkout(request)
"#;
    let mut parser = make_parser();
    let nodes = PythonExtractor::extract(
        "src/checkoutservice/main.py",
        code,
        3,
        "",
        &mut parser,
    );
    let servicer = nodes
        .iter()
        .find(|n| n.name == "CheckoutServiceServicer")
        .expect("class node present");
    assert_eq!(servicer.kind, NodeKind::GrpcService);
}

#[test]
fn test_python_plain_import_dependency() {
    let producer_code = r#"
def greet_user(name):
    return f"Hello {name}"
"#;
    let consumer_code = r#"
from other import greet_user

def process():
    return greet_user("bob")
"#;

    let mut graph = ContractGraph::new();
    let mut parser = make_parser();

    let producer_nodes = PythonExtractor::extract(
        "services/other.py",
        producer_code,
        1,
        "",
        &mut parser,
    );
    for node in producer_nodes {
        graph.add_node(node);
    }

    let consumer_tree = parser.parse(consumer_code, None).expect("parse");
    let (consumer_nodes, relations) = PythonExtractor::extract_with_relations(
        "services/main.py",
        consumer_code,
        1,
        "",
        &consumer_tree,
    );
    let ids: Vec<_> = consumer_nodes
        .into_iter()
        .map(|n| graph.add_node(n))
        .collect();
    for (i, target) in relations.dependencies {
        graph.add_dependency(ids[i], target.as_str());
    }

    let dependents = find_dependents(&graph, "greet_user");
    assert!(
        dependents.iter().any(|n| n.name == "process"),
        "expected `process` (consumer of greet_user) in find_dependents, got: {:?}",
        dependents
            .iter()
            .map(|n| n.name.as_str())
            .collect::<Vec<_>>()
    );
}

#[test]
fn test_python_relative_import_dependency() {
    let producer_code = r#"
def greet_user(name):
    return f"Hello {name}"
"#;
    let consumer_code = r#"
from .other import greet_user

def process():
    return greet_user("bob")
"#;

    let mut graph = ContractGraph::new();
    let mut parser = make_parser();

    let producer_nodes = PythonExtractor::extract(
        "services/other.py",
        producer_code,
        1,
        "",
        &mut parser,
    );
    for node in producer_nodes {
        graph.add_node(node);
    }

    let consumer_tree = parser.parse(consumer_code, None).expect("parse");
    let (consumer_nodes, relations) = PythonExtractor::extract_with_relations(
        "services/main.py",
        consumer_code,
        1,
        "",
        &consumer_tree,
    );
    let ids: Vec<_> = consumer_nodes
        .into_iter()
        .map(|n| graph.add_node(n))
        .collect();
    for (i, target) in relations.dependencies {
        graph.add_dependency(ids[i], target.as_str());
    }

    let dependents = find_dependents(&graph, "greet_user");
    assert!(
        dependents.iter().any(|n| n.name == "process"),
        "expected `process` (consumer of greet_user via relative import) in find_dependents, got: {:?}",
        dependents.iter().map(|n| n.name.as_str()).collect::<Vec<_>>()
    );
}

#[test]
fn test_python_kafka_producer_consumer_impact() {
    let producer_code = r#"
from confluent_kafka import Producer

def send_order_created(order):
    producer = Producer({"bootstrap.servers": "localhost"})
    producer.produce("orders", order)
"#;
    let consumer_code = r#"
from confluent_kafka import Consumer

def run_consumer_loop():
    consumer = Consumer({"bootstrap.servers": "localhost"})
    consumer.subscribe(["orders"])
    while True:
        msg = consumer.poll(1.0)
"#;

    let mut graph = ContractGraph::new();
    let mut parser = make_parser();

    let producer_tree = parser.parse(producer_code, None).expect("parse");
    let (producer_nodes, producer_relations) = PythonExtractor::extract_with_relations(
        "services/producer.py",
        producer_code,
        1,
        "",
        &producer_tree,
    );
    let producer_ids: Vec<_> = producer_nodes
        .into_iter()
        .map(|n| graph.add_node(n))
        .collect();
    for (i, topic) in producer_relations.producers {
        graph.add_producer(producer_ids[i], topic.as_str());
    }

    let consumer_tree = parser.parse(consumer_code, None).expect("parse");
    let (consumer_nodes, consumer_relations) = PythonExtractor::extract_with_relations(
        "services/consumer.py",
        consumer_code,
        1,
        "",
        &consumer_tree,
    );
    let consumer_ids: Vec<_> = consumer_nodes
        .into_iter()
        .map(|n| graph.add_node(n))
        .collect();
    for (i, topic) in consumer_relations.consumers {
        graph.add_consumer(consumer_ids[i], topic.as_str());
    }

    let impact = analyze_impact(&graph, "orders");
    assert!(impact
        .upstream_producers
        .iter()
        .any(|n| n.name == "send_order_created"));
    assert!(impact
        .downstream_consumers
        .iter()
        .any(|n| n.name == "run_consumer_loop"));
}

#[test]
fn test_python_celery_producer_consumer_impact() {
    let producer_code = r#"
from myapp.tasks import process_order

def handle_request(order_id):
    process_order.delay(order_id)
"#;
    let consumer_code = r#"
@app.task
def process_order(order_id):
    pass
"#;

    let mut graph = ContractGraph::new();
    let mut parser = make_parser();

    let producer_tree = parser.parse(producer_code, None).expect("parse");
    let (producer_nodes, producer_relations) = PythonExtractor::extract_with_relations(
        "services/client.py",
        producer_code,
        1,
        "",
        &producer_tree,
    );
    let producer_ids: Vec<_> = producer_nodes
        .into_iter()
        .map(|n| graph.add_node(n))
        .collect();
    for (i, task) in producer_relations.producers {
        graph.add_producer(producer_ids[i], task.as_str());
    }

    let consumer_tree = parser.parse(consumer_code, None).expect("parse");
    let (consumer_nodes, consumer_relations) = PythonExtractor::extract_with_relations(
        "services/tasks.py",
        consumer_code,
        1,
        "",
        &consumer_tree,
    );
    let consumer_ids: Vec<_> = consumer_nodes
        .into_iter()
        .map(|n| graph.add_node(n))
        .collect();
    for (i, task) in consumer_relations.consumers {
        graph.add_consumer(consumer_ids[i], task.as_str());
    }

    let impact = analyze_impact(&graph, "process_order");
    assert!(impact
        .upstream_producers
        .iter()
        .any(|n| n.name == "handle_request"));
    assert!(impact
        .downstream_consumers
        .iter()
        .any(|n| n.name == "process_order"));
}

#[test]
fn test_python_variable_topic_name_not_dropped() {
    let code = r#"
from confluent_kafka import Producer

TOPIC = "orders"

def send_event():
    producer = Producer({})
    producer.produce(TOPIC, b"data")
"#;
    let mut parser = make_parser();
    let tree = parser.parse(code, None).expect("parse");
    let (nodes, relations) = PythonExtractor::extract_with_relations(
        "services/producer.py",
        code,
        1,
        "",
        &tree,
    );
    let idx = nodes
        .iter()
        .position(|n| n.name == "send_event")
        .expect("send_event node");

    assert!(
        relations
            .producers
            .iter()
            .any(|(i, topic)| *i == idx && topic.as_str() == "orders"),
        "expected the resolved constant value 'orders' to be emitted, got: {:?}",
        relations.producers
    );
}

#[test]
fn test_python_script_file_imports() {
    let script_code = r#"
import kafka

producer = kafka.KafkaProducer(bootstrap_servers='localhost:9092')
"#;
    let mut graph = ContractGraph::new();
    let mut parser = make_parser();
    let tree = parser.parse(script_code, None).expect("parse");
    let (nodes, relations) = PythonExtractor::extract_with_relations(
        "services/producer_script.py",
        script_code,
        1,
        "",
        &tree,
    );
    assert_eq!(nodes.len(), 1, "expected 1 module node for script file");
    assert_eq!(nodes[0].name.as_str(), "producer_script");
    let ids: Vec<_> = nodes.into_iter().map(|n| graph.add_node(n)).collect();
    for (i, target) in relations.dependencies {
        graph.add_dependency(ids[i], target.as_str());
    }

    let dependents = find_dependents(&graph, "kafka");
    assert!(
        dependents.iter().any(|n| n.name == "producer_script"),
        "expected `producer_script` in find_dependents('kafka'), got: {:?}",
        dependents
            .iter()
            .map(|n| n.name.as_str())
            .collect::<Vec<_>>()
    );
}

#[test]
fn test_python_multi_stacked_decorators() {
    let code = r#"
@app.get("/items")
@login_required
@permission_required("admin")
def get_items():
    pass
"#;
    let mut parser = make_parser();
    let tree = parser.parse(code, None).expect("parse");
    let (nodes, _) =
        PythonExtractor::extract_with_relations("app/routes.py", code, 0, "", &tree);
    let endpoint = nodes
        .iter()
        .find(|n| n.name == "get_items")
        .expect("get_items node");
    assert_eq!(
        endpoint.kind,
        NodeKind::HttpEndpoint,
        "stacked decorators must correctly identify HttpEndpoint"
    );
}
