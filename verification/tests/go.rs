use mesh_parsers::ServicePackages;
use mesh_parsers::languages::go::GoExtractor;
use mesh_parsers::{ContractGraph, ContractNode, NodeId, NodeKind};
use tree_sitter::Parser;

fn find_dependents<'a>(graph: &'a ContractGraph, name: &str) -> Vec<&'a ContractNode> {
    graph
        .all_dependencies()
        .iter()
        .filter(|(_, target)| {
            target == name
                || target
                    .rsplit(|c: char| c == '.' || c == ':')
                    .next()
                    .is_some_and(|last| last == name)
        })
        .map(|(id, _)| &graph.all_nodes()[*id as usize])
        .collect()
}

struct Impact<'a> {
    upstream_producers: Vec<&'a ContractNode>,
    downstream_consumers: Vec<&'a ContractNode>,
}

fn analyze_impact<'a>(graph: &'a ContractGraph, topic: &str) -> Impact<'a> {
    let ends = |links: &'a Vec<(NodeId, String)>| -> Vec<&'a ContractNode> {
        links
            .iter()
            .filter(|(_, t)| t == topic)
            .map(|(id, _)| &graph.all_nodes()[*id as usize])
            .collect()
    };
    Impact {
        upstream_producers: ends(graph.all_producers()),
        downstream_consumers: ends(graph.all_consumers()),
    }
}

fn parser() -> Parser {
    let mut parser = Parser::new();
    let lang = tree_sitter_go::LANGUAGE.into();
    parser.set_language(&lang).unwrap();
    parser
}

#[test]
fn test_go_extractor() {
    let code = r#"
package auth

type Server struct {}

func (s *Server) AuthenticateUser(ctx context.Context, req *AuthRequest) (*AuthResponse, error) {
    return nil, nil
}
"#;
    let mut parser = parser();
    let nodes = GoExtractor::extract("server.go", code, 2, &ServicePackages::new(""), &mut parser);
    assert!(nodes.iter().any(|n| n.name == "Server"));
    assert!(nodes.iter().any(|n| n.name == "AuthenticateUser"));
}

#[test]
fn kafka_call_without_literal_topic_records_nothing() {
    let code = r#"
package consumer

func run(reader *kafka.Reader) {
    msg, _ := reader.ReadMessage(ctx)
    _ = msg
}
"#;
    let mut p = parser();
    let tree = p.parse(code, None).expect("parse");
    let (_, relations) =
        GoExtractor::extract_with_relations("consumer.go", code, 0, &ServicePackages::new(""), &tree);
    assert!(
        relations.consumers.is_empty(),
        "expected no fabricated topic from the receiver's own name, got: {:?}",
        relations.consumers
    );
}

#[test]
fn kafka_call_with_literal_topic_is_extracted() {
    let code = r#"
package consumer

func run(reader *kafka.Reader) {
    reader.SubscribeTopics([]string{"orders"})
}
"#;
    let mut p = parser();
    let tree = p.parse(code, None).expect("parse");
    let (_, relations) =
        GoExtractor::extract_with_relations("consumer.go", code, 0, &ServicePackages::new(""), &tree);
    assert_eq!(relations.consumers.len(), 1);
    assert_eq!(relations.consumers[0].1.as_str(), "orders");
}

#[test]
fn find_dependents_links_consumer_via_go_import() {
    let producer_code = r#"
package utils

func Helper() string {
    return "ok"
}
"#;
    let mut p1 = parser();
    let producer_nodes =
        GoExtractor::extract("utils/helper.go", producer_code, 1, &ServicePackages::new(""), &mut p1);
    assert!(producer_nodes.iter().any(|n| n.name == "Helper"));

    let consumer_code = r#"
package main

import (
    "myapp/utils"
)

func Run() {
    utils.Helper()
}
"#;
    let mut p2 = parser();
    let consumer_tree = p2.parse(consumer_code, None).expect("parse");
    let (consumer_nodes, relations) = GoExtractor::extract_with_relations(
        "main.go",
        consumer_code,
        1,
        &ServicePackages::new(""),
        &consumer_tree,
    );
    assert!(consumer_nodes.iter().any(|n| n.name == "Run"));
    assert!(relations
        .dependencies
        .iter()
        .any(|(_, target)| target.as_str() == "myapp/utils"));

    let mut graph = ContractGraph::new();
    let ids: Vec<_> = consumer_nodes
        .into_iter()
        .map(|n| graph.add_node(n))
        .collect();
    for (i, target) in relations.dependencies {
        graph.add_dependency(ids[i], target.as_str());
    }

    let dependents = find_dependents(&graph, "myapp/utils");
    assert!(
        dependents.iter().any(|n| n.name == "Run"),
        "expected `Run` to depend on myapp/utils, got: {dependents:?}"
    );
}

#[test]
fn blank_import_is_not_silently_dropped() {
    let code = r#"
package main

import (
    _ "github.com/lib/pq"
)

func Init() {}
"#;
    let mut p = parser();
    let tree = p.parse(code, None).expect("parse");
    let (_, relations) =
        GoExtractor::extract_with_relations("main.go", code, 1, &ServicePackages::new(""), &tree);
    assert!(relations
        .dependencies
        .iter()
        .any(|(_, target)| target.as_str() == "github.com/lib/pq"));
}

#[test]
fn analyze_impact_links_kafka_go_producer_and_consumer() {
    let producer_code = r#"
package producer

func Emit() {
    writer := kafka.NewWriter(kafka.WriterConfig{
        Brokers: []string{"localhost:9092"},
        Topic:   "orders",
    })
    writer.WriteMessages(ctx, kafka.Message{Topic: "orders"})
}
"#;
    let consumer_code = r#"
package consumer

func Consume() {
    reader := kafka.NewReader(kafka.ReaderConfig{
        Brokers: []string{"localhost:9092"},
        Topic:   "orders",
    })
    reader.ReadMessage(ctx)
}
"#;
    let mut p1 = parser();
    let producer_tree = p1.parse(producer_code, None).expect("parse");
    let (producer_nodes, producer_relations) = GoExtractor::extract_with_relations(
        "producer.go",
        producer_code,
        1,
        &ServicePackages::new(""),
        &producer_tree,
    );
    assert!(!producer_relations.producers.is_empty());

    let mut p2 = parser();
    let consumer_tree = p2.parse(consumer_code, None).expect("parse");
    let (consumer_nodes, consumer_relations) = GoExtractor::extract_with_relations(
        "consumer.go",
        consumer_code,
        1,
        &ServicePackages::new(""),
        &consumer_tree,
    );
    assert!(!consumer_relations.consumers.is_empty());

    let mut graph = ContractGraph::new();
    let producer_ids: Vec<_> = producer_nodes
        .into_iter()
        .map(|n| graph.add_node(n))
        .collect();
    for (i, topic) in producer_relations.producers {
        graph.add_producer(producer_ids[i], topic.as_str());
    }
    let consumer_ids: Vec<_> = consumer_nodes
        .into_iter()
        .map(|n| graph.add_node(n))
        .collect();
    for (i, topic) in consumer_relations.consumers {
        graph.add_consumer(consumer_ids[i], topic.as_str());
    }

    let impact = analyze_impact(&graph, "orders");
    assert!(
        !impact.upstream_producers.is_empty(),
        "expected an upstream producer for topic 'orders'"
    );
    assert!(
        !impact.downstream_consumers.is_empty(),
        "expected a downstream consumer for topic 'orders'"
    );
}

#[test]
fn sarama_producer_message_topic_is_detected() {
    let code = r#"
package producer

func Emit() {
    producer.SendMessage(&sarama.ProducerMessage{
        Topic: "payments",
        Value: sarama.StringEncoder("hi"),
    })
}
"#;
    let mut p = parser();
    let tree = p.parse(code, None).expect("parse");
    let (_, relations) =
        GoExtractor::extract_with_relations("producer.go", code, 1, &ServicePackages::new(""), &tree);
    assert!(relations
        .producers
        .iter()
        .any(|(_, topic)| topic.as_str() == "payments"));
}

#[test]
fn sarama_topic_referencing_a_string_const_resolves_to_its_value() {
    let code = r#"
package kafka

var Topic = "orders"

func Emit() {
    producer.SendMessage(&sarama.ProducerMessage{
        Topic: kafka.Topic,
        Value: sarama.StringEncoder("hi"),
    })
}
"#;
    let mut p = parser();
    let tree = p.parse(code, None).expect("parse");
    let (_, relations) =
        GoExtractor::extract_with_relations("producer.go", code, 1, &ServicePackages::new(""), &tree);
    assert!(
        relations
            .producers
            .iter()
            .any(|(_, topic)| topic.as_str() == "orders"),
        "expected the resolved topic 'orders', got: {:?}",
        relations.producers
    );
}

#[test]
fn go_raw_string_literal_backtick_resolves_topic_value() {
    let code = r#"
package kafka

const Topic = `orders-v2`

func Emit() {
    producer.SendMessage(&sarama.ProducerMessage{
        Topic: Topic,
    })
}
"#;
    let mut p = parser();
    let tree = p.parse(code, None).expect("parse");
    let (_, relations) =
        GoExtractor::extract_with_relations("producer.go", code, 1, &ServicePackages::new(""), &tree);
    assert!(
        relations
            .producers
            .iter()
            .any(|(_, topic)| topic.as_str() == "orders-v2"),
        "expected backtick raw string 'orders-v2', got: {:?}",
        relations.producers
    );
}

#[test]
fn confluent_kafka_topic_partition_with_unresolved_variable_records_nothing() {
    let code = r#"
package kafka

func Emit() {
    producer.Produce(&kafka.Message{
        TopicPartition: kafka.TopicPartition{Topic: &topic, Partition: 1},
        Value: []byte("payload"),
    })
}
"#;
    let mut p = parser();
    let tree = p.parse(code, None).expect("parse");
    let (_, relations) =
        GoExtractor::extract_with_relations("producer.go", code, 1, &ServicePackages::new(""), &tree);
    assert!(
        relations.producers.is_empty(),
        "expected no fabricated topic from an unresolved variable, got: {:?}",
        relations.producers
    );
}

#[test]
fn sarama_topic_referencing_a_getenv_default_resolves_to_the_fallback_literal() {
    let code = r#"
package kafka

var Topic = getTopic()

func getTopic() string {
    if envTopic := os.Getenv("KAFKA_TOPIC"); envTopic != "" {
        return envTopic
    }
    return "orders"
}

func Emit() {
    producer.SendMessage(&sarama.ProducerMessage{
        Topic: kafka.Topic,
        Value: sarama.StringEncoder("hi"),
    })
}
"#;
    let mut p = parser();
    let tree = p.parse(code, None).expect("parse");
    let (_, relations) =
        GoExtractor::extract_with_relations("producer.go", code, 1, &ServicePackages::new(""), &tree);
    assert!(
        relations
            .producers
            .iter()
            .any(|(_, topic)| topic.as_str() == "orders"),
        "expected the getenv fallback literal 'orders' to be resolved, got: {:?}",
        relations.producers
    );
}

#[test]
fn function_call_without_getenv_is_not_resolved_as_a_fallback() {
    let code = r#"
package kafka

var Topic = computeTopic()

func computeTopic() string {
    return "orders"
}

func Emit() {
    producer.SendMessage(&sarama.ProducerMessage{
        Topic: kafka.Topic,
    })
}
"#;
    let mut p = parser();
    let tree = p.parse(code, None).expect("parse");
    let (_, relations) =
        GoExtractor::extract_with_relations("producer.go", code, 1, &ServicePackages::new(""), &tree);
    assert!(
        relations.producers.is_empty(),
        "a function with no getenv call must not be treated as an env-var default, got: {:?}",
        relations.producers
    );
}

#[test]
fn getenv_function_whose_real_fallback_is_dynamic_is_not_resolved() {
    let code = r#"
package kafka

var Topic = getTopic()

func getTopic() string {
    if v := os.Getenv("TOPIC"); v != "" {
        return v
    }
    if legacy := os.Getenv("LEGACY_TOPIC"); legacy != "" {
        return "legacy-orders"
    }
    return computeTopicFromConfig()
}

func Emit() {
    producer.SendMessage(&sarama.ProducerMessage{
        Topic: kafka.Topic,
    })
}
"#;
    let mut p = parser();
    let tree = p.parse(code, None).expect("parse");
    let (_, relations) =
        GoExtractor::extract_with_relations("producer.go", code, 1, &ServicePackages::new(""), &tree);
    assert!(
        relations.producers.is_empty(),
        "the function's real unconditional fallback is dynamic (computeTopicFromConfig()), \
         not the intermediate 'legacy-orders' branch — must not resolve to it, got: {:?}",
        relations.producers
    );
}

#[test]
fn getenv_function_with_return_literal_in_trailing_comment_is_unaffected() {
    let code = r#"
package kafka

var Topic = getTopic()

func getTopic() string {
    if v := os.Getenv("TOPIC"); v != "" {
        return v
    }
    return "orders"
    // TODO: consider return "staging-topic" later
}

func Emit() {
    producer.SendMessage(&sarama.ProducerMessage{
        Topic: kafka.Topic,
    })
}
"#;
    let mut p = parser();
    let tree = p.parse(code, None).expect("parse");
    let (_, relations) =
        GoExtractor::extract_with_relations("producer.go", code, 1, &ServicePackages::new(""), &tree);
    assert!(
        relations
            .producers
            .iter()
            .any(|(_, topic)| topic.as_str() == "orders"),
        "a commented-out return must not shadow the real fallback 'orders', got: {:?}",
        relations.producers
    );
}

#[test]
fn non_literal_topic_variable_records_nothing() {
    let code = r#"
package consumer

func Consume() {
    reader := kafka.NewReader(kafka.ReaderConfig{
        Topic: topicVar,
    })
    reader.ReadMessage(ctx)
}
"#;
    let mut p = parser();
    let tree = p.parse(code, None).expect("parse");
    let (_, relations) =
        GoExtractor::extract_with_relations("consumer.go", code, 1, &ServicePackages::new(""), &tree);
    assert!(
        relations.consumers.is_empty(),
        "expected no fabricated topic from an unresolved variable, got: {:?}",
        relations.consumers
    );
}

#[test]
fn confluent_subscribe_topics_literal_list_is_detected() {
    let code = r#"
package consumer

func Consume() {
    consumer.SubscribeTopics([]string{"orders", "payments"}, nil)
}
"#;
    let mut p = parser();
    let tree = p.parse(code, None).expect("parse");
    let (_, relations) =
        GoExtractor::extract_with_relations("consumer.go", code, 1, &ServicePackages::new(""), &tree);
    assert!(relations
        .consumers
        .iter()
        .any(|(_, t)| t.as_str() == "orders"));
    assert!(relations
        .consumers
        .iter()
        .any(|(_, t)| t.as_str() == "payments"));
}

#[test]
fn grpc_server_registration_emits_grpc_service_and_method_nodes() {
    let code = r#"
package main

type server struct{}

func (s *server) GetUser(ctx context.Context, req *GetUserRequest) (*GetUserResponse, error) {
    return nil, nil
}

func main() {
    pb.RegisterUserServiceServer(grpcServer, &server{})
}
"#;
    let mut p = parser();
    let nodes = GoExtractor::extract("main.go", code, 1, &ServicePackages::new(""), &mut p);

    assert!(
        nodes
            .iter()
            .any(|n| n.kind == NodeKind::GrpcService && n.name == "UserService"),
        "expected a GrpcService node named UserService, got: {nodes:?}"
    );
    assert!(
        nodes
            .iter()
            .any(|n| n.kind == NodeKind::GrpcMethod && n.name == "GetUser"),
        "expected GetUser to be classified as GrpcMethod, got: {nodes:?}"
    );
}

#[test]
fn grpc_client_construction_is_recorded_as_an_rpc_call() {
    let code = r#"
package main

func (fe *frontendServer) placeOrder(w http.ResponseWriter, r *http.Request) {
    client := pb.NewCheckoutServiceClient(fe.checkoutSvcConn)
    client.PlaceOrder(ctx, req)
}
"#;
    let mut p = parser();
    let tree = p.parse(code, None).expect("parse");
    let (nodes, relations) =
        GoExtractor::extract_with_relations("handlers.go", code, 1, &ServicePackages::new(""), &tree);

    let caller_idx = nodes
        .iter()
        .position(|n| n.name == "placeOrder")
        .expect("enclosing function node present");

    assert!(
        relations
            .rpc_calls
            .iter()
            .any(|(idx, target)| *idx == caller_idx && target.as_str() == "CheckoutService"),
        "expected an rpc_calls entry attributing CheckoutService to placeOrder, got: {:?}",
        relations.rpc_calls
    );
}

#[test]
fn chi_style_route_is_recognized() {
    let code = r#"
package main

func main() {
    r := chi.NewRouter()
    r.Get("/health", healthHandler)
}
"#;
    let mut p = parser();
    let nodes = GoExtractor::extract("main.go", code, 1, &ServicePackages::new(""), &mut p);
    assert!(
        nodes
            .iter()
            .any(|n| n.kind == NodeKind::HttpEndpoint && n.name == "GET /health"),
        "expected a chi-style HttpEndpoint node, got: {nodes:?}"
    );
}

#[test]
fn gin_style_route_is_recognized() {
    let code = r#"
package main

func main() {
    router := gin.Default()
    router.GET("/users/:id", getUser)
}
"#;
    let mut p = parser();
    let nodes = GoExtractor::extract("main.go", code, 1, &ServicePackages::new(""), &mut p);
    assert!(
        nodes
            .iter()
            .any(|n| n.kind == NodeKind::HttpEndpoint && n.name == "GET /users/:id"),
        "expected a gin-style HttpEndpoint node, got: {nodes:?}"
    );
}

#[test]
fn echo_style_route_is_recognized() {
    let code = r#"
package main

func main() {
    e := echo.New()
    e.POST("/orders", createOrder)
}
"#;
    let mut p = parser();
    let nodes = GoExtractor::extract("main.go", code, 1, &ServicePackages::new(""), &mut p);
    assert!(
        nodes
            .iter()
            .any(|n| n.kind == NodeKind::HttpEndpoint && n.name == "POST /orders"),
        "expected an echo-style HttpEndpoint node, got: {nodes:?}"
    );
}

#[test]
fn handle_func_without_http_param_is_not_http_endpoint() {
    let code = r#"
package main

func HandlePanic(err error) {
    println(err)
}

func HandleUser(w http.ResponseWriter, r *http.Request) {
    w.Write([]byte("ok"))
}
"#;
    let mut p = parser();
    let nodes = GoExtractor::extract("main.go", code, 1, &ServicePackages::new(""), &mut p);
    let panic_node = nodes
        .iter()
        .find(|n| n.name == "HandlePanic")
        .expect("HandlePanic");
    assert_eq!(panic_node.kind, NodeKind::ServiceClass);
    let user_node = nodes
        .iter()
        .find(|n| n.name == "HandleUser")
        .expect("HandleUser");
    assert_eq!(user_node.kind, NodeKind::HttpEndpoint);
}

#[test]
fn redis_new_client_does_not_emit_grpc_rpc_call() {
    let code = r#"
package main

func Setup() {
    client := redis.NewClient(&redis.Options{})
    _ = client
}
"#;
    let mut p = parser();
    let tree = p.parse(code, None).expect("parse");
    let (_, relations) =
        GoExtractor::extract_with_relations("main.go", code, 1, &ServicePackages::new(""), &tree);
    assert!(
        relations.rpc_calls.is_empty(),
        "redis.NewClient must not be treated as a gRPC RPC call: {:?}",
        relations.rpc_calls
    );
}
