use mesh_parsers::languages::rust_lang::RustExtractor;
use mesh_parsers::{ContractGraph, ContractNode, NodeId, NodeKind};
use tree_sitter::Parser;

fn find_dependents<'a>(graph: &'a ContractGraph, name: &str) -> Vec<&'a ContractNode> {
    graph
        .all_dependencies()
        .iter()
        .filter(|(_, target)| {
            target == name
                || target
                    .rsplit(|c: char| c == '.' || c == ':')
                    .next()
                    .is_some_and(|last| last == name)
        })
        .map(|(id, _)| &graph.all_nodes()[*id as usize])
        .collect()
}

struct Impact<'a> {
    upstream_producers: Vec<&'a ContractNode>,
    downstream_consumers: Vec<&'a ContractNode>,
}

fn analyze_impact<'a>(graph: &'a ContractGraph, topic: &str) -> Impact<'a> {
    let ends = |links: &'a Vec<(NodeId, String)>| -> Vec<&'a ContractNode> {
        links
            .iter()
            .filter(|(_, t)| t == topic)
            .map(|(id, _)| &graph.all_nodes()[*id as usize])
            .collect()
    };
    Impact {
        upstream_producers: ends(graph.all_producers()),
        downstream_consumers: ends(graph.all_consumers()),
    }
}

fn new_parser() -> Parser {
    let mut parser = Parser::new();
    let lang = tree_sitter_rust::LANGUAGE.into();
    parser.set_language(&lang).unwrap();
    parser
}

#[test]
fn test_rust_extractor() {
    let code = r#"
pub struct AuthServer {
    db: Arc<Db>,
}

impl AuthServer {
    pub async fn authenticate(&self) -> Result<Token, Error> {
        Ok(Token)
    }
}
"#;
    let mut parser = new_parser();
    let nodes = RustExtractor::extract("src/auth.rs", code, 5, "", &mut parser);
    assert!(nodes.iter().any(|n| n.name == "AuthServer"));
    assert!(nodes.iter().any(|n| n.name == "authenticate"));
}

#[test]
fn test_rust_tonic_macro_extractor() {
    let code = r#"
pub mod proto {
    tonic::include_proto!("fintech.orders");
}
"#;
    let mut parser = new_parser();
    let nodes = RustExtractor::extract("src/trading.rs", code, 2, "", &mut parser);
    assert!(
        nodes.iter().any(|n| n.name == "fintech.orders"),
        "Expected fintech.orders contract node from tonic macro"
    );
}

#[test]
fn test_use_declaration_dependency_find_dependents() {
    let mut graph = ContractGraph::new();
    let mut parser = new_parser();

    let producer_code = r#"
pub struct Widget;
"#;
    let consumer_code = r#"
use crate::widget::Widget;

pub fn make() -> Widget {
    Widget
}
"#;

    RustExtractor::extract_index("src/widget.rs", producer_code, 1, "", &mut parser)
        .apply(&mut graph);
    RustExtractor::extract_index("src/consumer.rs", consumer_code, 1, "", &mut parser)
        .apply(&mut graph);

    let dependents = find_dependents(&graph, "Widget");
    assert!(
        dependents.iter().any(|n| n.name == "make"),
        "expected `make` (which uses `Widget`) to be a dependent, got: {dependents:?}"
    );
}

#[test]
fn test_nested_use_group_dependency() {
    let mut parser = new_parser();
    let code = r#"
use a::{b, c::D};

fn uses_both() {
    b();
    D::new();
}
"#;
    let idx = RustExtractor::extract_index("src/lib.rs", code, 1, "", &mut parser);
    let dep_targets: Vec<&str> = idx
        .dependencies
        .iter()
        .map(|(_, t)| t.as_str())
        .collect();
    assert!(dep_targets.contains(&"a::b"));
    assert!(dep_targets.contains(&"a::c::D"));
    assert!(dep_targets.contains(&"b"));
    assert!(dep_targets.contains(&"D"));
}

#[test]
fn test_extern_crate_dependency() {
    let mut parser = new_parser();
    let code = r#"
extern crate serde_json;

fn parse() {
    serde_json::from_str("{}").unwrap();
}
"#;
    let idx = RustExtractor::extract_index("src/lib.rs", code, 1, "", &mut parser);
    assert!(idx
        .dependencies
        .iter()
        .any(|(_, t)| t.as_str() == "serde_json"));
}

#[test]
fn test_rdkafka_producer_consumer_analyze_impact() {
    let mut graph = ContractGraph::new();
    let mut parser = new_parser();

    let producer_code = r#"
pub async fn publish_order(producer: &FutureProducer) {
    producer
        .send(FutureRecord::to("orders.created").payload("x"), Duration::from_secs(0))
        .await;
}
"#;
    let consumer_code = r#"
pub async fn consume_orders(consumer: &StreamConsumer) {
    consumer.subscribe(&["orders.created"]).unwrap();
}
"#;

    RustExtractor::extract_index("src/producer.rs", producer_code, 1, "", &mut parser)
        .apply(&mut graph);
    RustExtractor::extract_index("src/consumer.rs", consumer_code, 1, "", &mut parser)
        .apply(&mut graph);

    let impact = analyze_impact(&graph, "orders.created");
    assert!(
        !impact.upstream_producers.is_empty(),
        "expected a native rdkafka producer with no custom pattern configured"
    );
    assert!(
        !impact.downstream_consumers.is_empty(),
        "expected a native rdkafka consumer with no custom pattern configured"
    );
}

#[test]
fn test_tonic_grpc_service_and_method() {
    let mut parser = new_parser();
    let code = r#"
#[tonic::async_trait]
impl Greeter for MyGreeterService {
    async fn say_hello(&self, request: Request<HelloRequest>) -> Result<Response<HelloReply>, Status> {
        Ok(Response::new(HelloReply::default()))
    }
}
"#;
    let nodes = RustExtractor::extract("src/greeter.rs", code, 1, "", &mut parser);
    assert!(
        nodes
            .iter()
            .any(|n| n.name == "Greeter" && n.kind == NodeKind::GrpcService),
        "expected a GrpcService node for the tonic impl, got: {nodes:?}"
    );
    assert!(
        nodes
            .iter()
            .any(|n| n.name == "say_hello" && n.kind == NodeKind::GrpcMethod),
        "expected a GrpcMethod node for the tonic method, got: {nodes:?}"
    );
}

#[test]
fn test_axum_router_route_http_endpoint() {
    let mut parser = new_parser();
    let code = r#"
fn app() -> Router {
    Router::new().route("/orders", get(list_orders))
}
"#;
    let nodes = RustExtractor::extract("src/app.rs", code, 1, "", &mut parser);
    assert!(
        nodes
            .iter()
            .any(|n| n.name == "GET /orders" && n.kind == NodeKind::HttpEndpoint),
        "expected an HttpEndpoint node for the axum route, got: {nodes:?}"
    );
}

#[test]
fn test_actix_web_get_attribute_http_endpoint() {
    let mut parser = new_parser();
    let code = r#"
#[get("/orders")]
async fn list_orders() -> impl Responder {
    HttpResponse::Ok()
}
"#;
    let nodes = RustExtractor::extract("src/handlers.rs", code, 1, "", &mut parser);
    assert!(
        nodes
            .iter()
            .any(|n| n.name == "GET /orders" && n.kind == NodeKind::HttpEndpoint),
        "expected an HttpEndpoint node for the actix-web attribute, got: {nodes:?}"
    );
}

#[test]
fn test_trait_declaration_interface() {
    let mut parser = new_parser();
    let code = r#"
pub trait PaymentGateway {
    fn charge(&self, amount: u64) -> Result<(), Error>;
}
"#;
    let nodes = RustExtractor::extract("src/gateway.rs", code, 1, "", &mut parser);
    assert!(
        nodes
            .iter()
            .any(|n| n.name == "PaymentGateway" && n.kind == NodeKind::Interface),
        "expected an Interface node for the trait declaration, got: {nodes:?}"
    );
}
