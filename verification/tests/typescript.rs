use mesh_parsers::ServicePackages;
use mesh_parsers::languages::spec_shape::SpecShapes;
use mesh_parsers::languages::typescript::{TypeScriptExtractor, DEFAULT_GRPC_ANNOTATION};
use mesh_parsers::{ContractGraph, ContractNode, NodeId, NodeKind, PolyglotIndexer};
use tree_sitter::Parser;

struct Impact<'a> {
    upstream_producers: Vec<&'a ContractNode>,
    downstream_consumers: Vec<&'a ContractNode>,
}

fn analyze_impact<'a>(graph: &'a ContractGraph, topic: &str) -> Impact<'a> {
    let ends = |links: &'a Vec<(NodeId, String)>| -> Vec<&'a ContractNode> {
        links
            .iter()
            .filter(|(_, t)| t == topic)
            .map(|(id, _)| &graph.all_nodes()[*id as usize])
            .collect()
    };
    Impact {
        upstream_producers: ends(graph.all_producers()),
        downstream_consumers: ends(graph.all_consumers()),
    }
}

fn parse(code: &str) -> (Vec<ContractNode>, Vec<(String, String)>) {
    let mut parser = Parser::new();
    let lang = tree_sitter_typescript::LANGUAGE_TYPESCRIPT.into();
    parser.set_language(&lang).unwrap();
    let mut imports = Vec::new();
    let nodes = TypeScriptExtractor::extract(
        "events.ts",
        code,
        1,
        "",
        &mut parser,
        &mut imports,
    );
    (nodes, imports)
}

#[test]
fn test_ts_extractor() {
    let code = r#"
import { UserAuthRequest } from '@volontariapp/domain-user';

@Controller('auth')
export class AuthController {
    @GrpcMethod('AuthService', 'AuthenticateUser')
    async authenticateUser(data: any): Promise<any> {
        return null;
    }
}
"#;
    let mut parser = Parser::new();
    let lang = tree_sitter_typescript::LANGUAGE_TYPESCRIPT.into();
    parser.set_language(&lang).unwrap();

    let mut imports = Vec::new();
    let nodes = TypeScriptExtractor::extract(
        "auth.controller.ts",
        code,
        4,
        "",
        &mut parser,
        &mut imports,
    );

    assert_eq!(imports.len(), 2);
    assert!(imports
        .iter()
        .any(|(_, t)| t == "@volontariapp/domain-user"));
    assert!(imports.iter().any(|(_, t)| t == "UserAuthRequest"));
    assert!(nodes.iter().any(|n| n.name == "AuthController"));
    assert!(nodes
        .iter()
        .any(|n| n.name == "AuthService.AuthenticateUser" && n.kind == NodeKind::GrpcMethod));
}

#[test]
fn test_ts_extractor_configurable_controller_annotations() {
    let code = r#"
@Controller('auth')
export class AuthController {
    @RpcHandler('AuthService', 'AuthenticateUser')
    async authenticateUser(data: any): Promise<any> {
        return null;
    }
}
"#;
    let mut parser = Parser::new();
    let lang = tree_sitter_typescript::LANGUAGE_TYPESCRIPT.into();
    parser.set_language(&lang).unwrap();
    let mut imports = Vec::new();

    let default_nodes = TypeScriptExtractor::extract(
        "auth.controller.ts",
        code,
        4,
        "",
        &mut parser,
        &mut imports,
    );
    assert!(!default_nodes.iter().any(|n| n.kind == NodeKind::GrpcMethod));

    let mut imports2 = Vec::new();
    let mut rpc_calls2 = Vec::new();
    let tree = parser.parse(code, None).expect("parse");
    let configured_nodes = TypeScriptExtractor::extract_with_config(
        "auth.controller.ts",
        code,
        4,
        "",
        &tree,
        &mut imports2,
        &mut rpc_calls2,
        &["@RpcHandler".to_string()],
    );
    assert!(configured_nodes
        .iter()
        .any(|n| n.name == "AuthService.AuthenticateUser" && n.kind == NodeKind::GrpcMethod));
}

#[test]
fn test_ts_extractor_grpc_method_enum_identifiers() {
    let code = r#"
@Controller('user')
export class UserCommandController {
    @GrpcMethod(USER_SERVICE_NAME, USER_COMMAND_METHODS.SIGN_UP)
    async signUp(data: SignUpCommandDTO): Promise<SignUpResponseDTO> {
        return null;
    }

    @GrpcMethod(GRPC_SERVICES.EVENT_COMMAND_SERVICE, UserCommandMethod.CREATE_EVENT)
    async createEvent(data: any): Promise<any> {
        return null;
    }
}
"#;
    let (nodes, _) = parse(code);
    assert!(nodes
        .iter()
        .any(|n| n.name == "USER_SERVICE_NAME.SIGN_UP" && n.kind == NodeKind::GrpcMethod));
    assert!(nodes
        .iter()
        .any(|n| n.name == "EVENT_COMMAND_SERVICE.CREATE_EVENT"
            && n.kind == NodeKind::GrpcMethod));
}

#[test]
fn test_kafkajs_consumer_and_producer_literal_topic() {
    let code = r#"
async function run() {
    await consumer.subscribe({ topic: 'orders', fromBeginning: true });
    await producer.send({ topic: 'orders', messages: [] });
}
"#;
    let (nodes, _) = parse(code);

    assert!(nodes.iter().any(|n| {
        n.name == "orders"
            && n.kind == NodeKind::KafkaTopic
            && n.signature.as_deref() == Some("kafkajs consumer.subscribe")
    }));
    assert!(nodes.iter().any(|n| {
        n.name == "orders"
            && n.kind == NodeKind::KafkaTopic
            && n.signature.as_deref() == Some("kafkajs producer.send")
    }));
}

#[test]
fn test_kafkajs_non_literal_topic_records_nothing() {
    let code = r#"
async function run() {
    await consumer.subscribe({ topic: TOPIC_NAME });
}
"#;
    let (nodes, _) = parse(code);

    assert!(
        !nodes.iter().any(|n| n.kind == NodeKind::KafkaTopic),
        "a non-literal topic argument must not fabricate a KafkaTopic node, got: {:?}",
        nodes.iter().map(|n| &n.name).collect::<Vec<_>>()
    );
}

#[test]
fn test_nestjs_event_and_message_pattern_decorators() {
    let code = r#"
@Controller()
export class OrdersController {
    @EventPattern('order.created')
    handleOrderCreated(data: any) {}

    @MessagePattern('order.get')
    handleGetOrder(data: any) {}
}
"#;
    let (nodes, _) = parse(code);

    assert!(nodes
        .iter()
        .any(|n| n.name == "order.created" && n.kind == NodeKind::KafkaTopic));
    assert!(nodes
        .iter()
        .any(|n| n.name == "order.get" && n.kind == NodeKind::KafkaTopic));
}

#[test]
fn test_bullmq_new_queue_declaration() {
    let code = r#"
const emailQueue = new Queue('email-queue');
"#;
    let (nodes, _) = parse(code);

    assert!(nodes
        .iter()
        .any(|n| n.name == "email-queue" && n.kind == NodeKind::Queue));
}

#[test]
fn test_bullmq_new_queue_non_literal_name_records_nothing() {
    let code = r#"
const emailQueue = new Queue(QUEUE_NAME);
"#;
    let (nodes, _) = parse(code);

    assert!(
        !nodes.iter().any(|n| n.kind == NodeKind::Queue),
        "a non-literal queue name must not fabricate a Queue node, got: {:?}",
        nodes.iter().map(|n| &n.name).collect::<Vec<_>>()
    );
}

#[test]
fn test_kafkajs_producer_consumer_linked_via_analyze_impact() {
    let code = r#"
async function run() {
    await consumer.subscribe({ topic: 'orders' });
    await producer.send({ topic: 'orders' });
}
"#;
    let (nodes, _) = parse(code);

    let consumer_node = nodes
        .iter()
        .find(|n| n.signature.as_deref() == Some("kafkajs consumer.subscribe"))
        .expect("kafkajs consumer.subscribe node not detected")
        .clone();
    let producer_node = nodes
        .iter()
        .find(|n| n.signature.as_deref() == Some("kafkajs producer.send"))
        .expect("kafkajs producer.send node not detected")
        .clone();

    let mut graph = ContractGraph::new();
    let consumer_topic = consumer_node.name.clone();
    let producer_topic = producer_node.name.clone();
    let consumer_id = graph.add_node(consumer_node);
    let producer_id = graph.add_node(producer_node);
    graph.add_consumer(consumer_id, &consumer_topic);
    graph.add_producer(producer_id, &producer_topic);

    let impact = analyze_impact(&graph, "orders");
    assert!(
        !impact.upstream_producers.is_empty(),
        "expected the kafkajs producer to be linked as an upstream producer"
    );
    assert!(
        !impact.downstream_consumers.is_empty(),
        "expected the kafkajs consumer to be linked as a downstream consumer"
    );
    assert!(
        graph
            .all_producers()
            .iter()
            .any(|(id, topic)| *id == producer_id && topic == "orders"),
        "expected the kafkajs producer to feed the topic"
    );
    assert!(
        graph
            .all_consumers()
            .iter()
            .any(|(id, topic)| *id == consumer_id && topic == "orders"),
        "expected the topic to feed the kafkajs consumer"
    );
}

#[test]
fn nestjs_get_service_call_is_recorded_as_an_rpc_call() {
    let code = r#"
import { Injectable, Inject, OnModuleInit } from '@nestjs/common';
import { ClientGrpc } from '@nestjs/microservices';

@Injectable()
export class CheckoutGateway implements OnModuleInit {
    private checkoutService: CheckoutServiceClient;

    constructor(@Inject('CHECKOUT_PACKAGE') private client: ClientGrpc) {}

    onModuleInit() {
        this.checkoutService = this.client.getService<CheckoutServiceClient>('CheckoutService');
    }
}
"#;
    let mut parser = Parser::new();
    let lang = tree_sitter_typescript::LANGUAGE_TYPESCRIPT.into();
    parser.set_language(&lang).unwrap();
    let mut imports = Vec::new();
    let mut rpc_calls = Vec::new();
    let tree = parser.parse(code, None).expect("parse");
    let nodes = TypeScriptExtractor::extract_with_config(
        "gateways/rpc/Checkout.gateway.ts",
        code,
        1,
        "",
        &tree,
        &mut imports,
        &mut rpc_calls,
        &[DEFAULT_GRPC_ANNOTATION.to_string()],
    );

    let caller_idx = nodes
        .iter()
        .position(|n| n.name == "onModuleInit")
        .expect("enclosing method node present");

    assert!(
        rpc_calls
            .iter()
            .any(|(idx, target)| *idx == caller_idx && target.as_str() == "CheckoutService"),
        "expected an rpc_calls entry attributing CheckoutService to \
         onModuleInit, got: {rpc_calls:?}"
    );
}

#[test]
fn nestjs_get_service_call_falls_back_to_string_literal_argument() {
    let code = r#"
export class CheckoutGateway {
    onModuleInit() {
        this.checkoutService = this.client.getService('CheckoutService');
    }
}
"#;
    let mut parser = Parser::new();
    let lang = tree_sitter_typescript::LANGUAGE_TYPESCRIPT.into();
    parser.set_language(&lang).unwrap();
    let mut imports = Vec::new();
    let mut rpc_calls = Vec::new();
    let tree = parser.parse(code, None).expect("parse");
    let nodes = TypeScriptExtractor::extract_with_config(
        "gateways/rpc/Checkout.gateway.ts",
        code,
        1,
        "",
        &tree,
        &mut imports,
        &mut rpc_calls,
        &[DEFAULT_GRPC_ANNOTATION.to_string()],
    );
    let caller_idx = nodes
        .iter()
        .position(|n| n.name == "onModuleInit")
        .expect("enclosing method node present");
    assert!(rpc_calls
        .iter()
        .any(|(idx, target)| *idx == caller_idx && target.as_str() == "CheckoutService"));
}

#[test]
fn nestjs_get_service_call_handles_interface_prefix_type_arg() {
    let code = r#"
export class CheckoutGateway {
    onModuleInit() {
        this.checkoutService = this.client.getService<ICheckoutServiceClient>('CheckoutService');
    }
}
"#;
    let mut parser = Parser::new();
    let lang = tree_sitter_typescript::LANGUAGE_TYPESCRIPT.into();
    parser.set_language(&lang).unwrap();
    let mut imports = Vec::new();
    let mut rpc_calls = Vec::new();
    let tree = parser.parse(code, None).expect("parse");
    let nodes = TypeScriptExtractor::extract_with_config(
        "gateways/rpc/Checkout.gateway.ts",
        code,
        1,
        "",
        &tree,
        &mut imports,
        &mut rpc_calls,
        &[DEFAULT_GRPC_ANNOTATION.to_string()],
    );
    let caller_idx = nodes
        .iter()
        .position(|n| n.name == "onModuleInit")
        .expect("enclosing method node present");
    assert!(rpc_calls
        .iter()
        .any(|(idx, target)| *idx == caller_idx && target.as_str() == "CheckoutService"));
}

#[test]
fn nestjs_get_service_call_type_arg_only_with_i_prefix_and_stub_suffix() {
    let code = r#"
export class CheckoutGateway {
    onModuleInit() {
        this.checkoutService = this.client.getService<proto.checkout.ICheckoutServiceStub>();
    }
}
"#;
    let mut parser = Parser::new();
    let lang = tree_sitter_typescript::LANGUAGE_TYPESCRIPT.into();
    parser.set_language(&lang).unwrap();
    let mut imports = Vec::new();
    let mut rpc_calls = Vec::new();
    let tree = parser.parse(code, None).expect("parse");
    let nodes = TypeScriptExtractor::extract_with_config(
        "gateways/rpc/Checkout.gateway.ts",
        code,
        1,
        "",
        &tree,
        &mut imports,
        &mut rpc_calls,
        &[DEFAULT_GRPC_ANNOTATION.to_string()],
    );
    let caller_idx = nodes
        .iter()
        .position(|n| n.name == "onModuleInit")
        .expect("enclosing method node present");
    assert!(rpc_calls
        .iter()
        .any(|(idx, target)| *idx == caller_idx && target.as_str() == "CheckoutService"));
}

#[test]
fn nestjs_get_service_call_prioritizes_literal_over_custom_generic() {
    let code = r#"
export class CheckoutGateway {
    onModuleInit() {
        this.checkoutService = this.client.getService<CustomWrapperType>('RealProtoService');
    }
}
"#;
    let mut parser = Parser::new();
    let lang = tree_sitter_typescript::LANGUAGE_TYPESCRIPT.into();
    parser.set_language(&lang).unwrap();
    let mut imports = Vec::new();
    let mut rpc_calls = Vec::new();
    let tree = parser.parse(code, None).expect("parse");
    let nodes = TypeScriptExtractor::extract_with_config(
        "gateways/rpc/Checkout.gateway.ts",
        code,
        1,
        "",
        &tree,
        &mut imports,
        &mut rpc_calls,
        &[DEFAULT_GRPC_ANNOTATION.to_string()],
    );
    let caller_idx = nodes
        .iter()
        .position(|n| n.name == "onModuleInit")
        .expect("enclosing method node present");
    assert!(rpc_calls
        .iter()
        .any(|(idx, target)| *idx == caller_idx && target.as_str() == "RealProtoService"));
}

#[test]
fn test_ts_import_from_substring_safety() {
    let code = r#"
import { fromEvent } from 'rxjs';
import { escapeFromHtml } from './security';
"#;
    let mut parser = Parser::new();
    let lang = tree_sitter_typescript::LANGUAGE_TYPESCRIPT.into();
    parser.set_language(&lang).unwrap();
    let mut imports = Vec::new();
    let mut rpc_calls = Vec::new();
    let tree = parser.parse(code, None).expect("parse");
    let _ = TypeScriptExtractor::extract_with_config(
        "app.ts",
        code,
        1,
        "",
        &tree,
        &mut imports,
        &mut rpc_calls,
        &[],
    );
    let imported_modules: Vec<&str> = imports.iter().map(|(_, m)| m.as_str()).collect();
    assert_eq!(
        imported_modules,
        vec!["rxjs", "fromEvent", "./security", "escapeFromHtml"]
    );
    assert!(
        !imported_modules.iter().any(|m| m.contains("} from")),
        "imported modules must not be corrupted by identifiers containing 'from': {:?}",
        imported_modules
    );
}

#[test]
fn test_ts_rest_delete_patch_endpoints() {
    let code = r#"
export class UserController {
    @Delete(':id')
    deleteUser() {}

    @Patch(':id')
    updateUser() {}
}
"#;
    let mut parser = Parser::new();
    let lang = tree_sitter_typescript::LANGUAGE_TYPESCRIPT.into();
    parser.set_language(&lang).unwrap();
    let mut imports = Vec::new();
    let mut rpc_calls = Vec::new();
    let tree = parser.parse(code, None).expect("parse");
    let nodes = TypeScriptExtractor::extract_with_config(
        "user.controller.ts",
        code,
        1,
        "",
        &tree,
        &mut imports,
        &mut rpc_calls,
        &[],
    );
    let del = nodes
        .iter()
        .find(|n| n.name == "deleteUser")
        .expect("deleteUser");
    assert_eq!(del.kind, NodeKind::HttpEndpoint);
    let patch = nodes
        .iter()
        .find(|n| n.name == "updateUser")
        .expect("updateUser");
    assert_eq!(patch.kind, NodeKind::HttpEndpoint);
}

fn extract_rpc(file: &str, code: &str) -> (Vec<ContractNode>, Vec<(usize, String)>) {
    let mut parser = Parser::new();
    let lang = tree_sitter_typescript::LANGUAGE_TYPESCRIPT.into();
    parser.set_language(&lang).unwrap();
    let mut imports = Vec::new();
    let mut rpc_calls = Vec::new();
    let tree = parser.parse(code, None).expect("parse");
    let nodes = TypeScriptExtractor::extract_with_config(
        file,
        code,
        1,
        "",
        &tree,
        &mut imports,
        &mut rpc_calls,
        &[DEFAULT_GRPC_ANNOTATION.to_string()],
    );
    (nodes, rpc_calls)
}

/// The file and name of each caller with the declared service that its call names: by the
/// service's own name, or by that name without `Service`.
fn rpc_edges(graph: &ContractGraph) -> Vec<(String, String, String)> {
    let nodes = graph.all_nodes();
    graph
        .all_rpc_calls()
        .iter()
        .flat_map(|(id, target)| {
            let caller = &nodes[*id as usize];
            nodes
                .iter()
                .filter(move |n| {
                    n.kind == NodeKind::GrpcService
                        && (n.name == *target || n.name == format!("{target}Service"))
                })
                .map(move |n| (caller.file_path.clone(), caller.name.clone(), n.name.clone()))
        })
        .collect()
}

/// The graph's content without numbers, in a fixed order.
fn canonical_lines(graph: &ContractGraph) -> Vec<String> {
    let nodes = graph.all_nodes();
    let mut lines: Vec<String> = nodes
        .iter()
        .map(|n| format!("node {:?} {} {} {} {}", n.kind, n.name, n.file_path, n.line_start, n.line_end))
        .collect();
    for (word, links) in [
        ("dependency", graph.all_dependencies()),
        ("producer", graph.all_producers()),
        ("consumer", graph.all_consumers()),
        ("rpc_call", graph.all_rpc_calls()),
    ] {
        for (id, target) in links {
            lines.push(format!("{word} {} {target}", nodes[*id as usize].name));
        }
    }
    lines.sort();
    lines
}

fn rpc_edges_against(services: &[&str], file: &str, code: &str) -> Vec<(String, String)> {
    let (nodes, rpc_calls) = extract_rpc(file, code);
    let mut graph = ContractGraph::new();
    for service in services {
        graph.add_node(ContractNode {
            id: 0,
            name: service.to_string(),
            kind: NodeKind::GrpcService,
            file_path: "pb/demo.proto".to_string(),
            line_start: 1,
            line_end: 1,
            package: "oteldemo".to_string(),
            repo_id: 0,
            signature: None,
            docstring: None,
        });
    }
    let ids: Vec<_> = nodes.into_iter().map(|n| graph.add_node(n)).collect();
    for (idx, target) in &rpc_calls {
        graph.add_rpc_call(ids[*idx], target);
    }
    let mut edges: Vec<(String, String)> = rpc_edges(&graph)
        .into_iter()
        .map(|(_, caller, service)| (caller, service))
        .collect();
    edges.sort();
    edges
}

const AD_GATEWAY: &str = r#"
import { ChannelCredentials } from '@grpc/grpc-js';
import { AdResponse, AdServiceClient } from '../../protos/demo';

const { AD_ADDR = '' } = process.env;

const client = new AdServiceClient(AD_ADDR, ChannelCredentials.createInsecure());

const AdGateway = () => ({
  listAds(contextKeys: string[]) {
    return new Promise<AdResponse>((resolve, reject) =>
      client.getAds({ contextKeys: contextKeys }, (error, response) => (error ? reject(error) : resolve(response)))
    );
  },
});

export default AdGateway();
"#;

fn index_against(services: &[&str], files: &[(&str, &str)]) -> ContractGraph {
    let mut graph = ContractGraph::new();
    for service in services {
        graph.add_node(ContractNode {
            id: 0,
            name: service.to_string(),
            kind: NodeKind::GrpcService,
            file_path: "pb/demo.proto".to_string(),
            line_start: 1,
            line_end: 1,
            package: "oteldemo".to_string(),
            repo_id: 0,
            signature: None,
            docstring: None,
        });
    }
    for (file, code) in files {
        PolyglotIndexer::index_file(file, code, 1, &ServicePackages::new(""), &SpecShapes::none(), &mut graph);
    }
    graph
}

#[test]
fn imported_ts_proto_client_construction_links_to_declared_service() {
    let file = "src/frontend/gateways/rpc/Ad.gateway.ts";
    let (nodes, rpc_calls) = extract_rpc(file, AD_GATEWAY);
    let names: Vec<&str> = nodes.iter().map(|n| n.name.as_str()).collect();
    assert_eq!(names, vec!["listAds"], "no synthetic node for `client`");
    assert_eq!(rpc_calls, vec![(0, "AdService".to_string())]);

    assert_eq!(
        rpc_edges_against(&["AdService", "CartService"], file, AD_GATEWAY),
        vec![("listAds".to_string(), "AdService".to_string())]
    );
}

#[test]
fn module_level_client_without_declared_service_leaves_no_trace() {
    let code = r#"
import { S3Client } from '@aws-sdk/client-s3';
import { QueryClient } from '@tanstack/react-query';

const s3 = new S3Client({});
const queryClient = new QueryClient();
"#;
    let graph = index_against(&["AdService"], &[("src/frontend/pages/_app.tsx", code)]);
    let names: Vec<&str> = graph.all_nodes().iter().map(|n| n.name.as_str()).collect();
    assert_eq!(names, vec!["AdService"]);
    assert!(graph.all_rpc_calls().is_empty(), "{:?}", graph.all_rpc_calls());
    assert!(graph.all_dependencies().is_empty(), "{:?}", graph.all_dependencies());

    let used = r#"
import { S3Client } from '@aws-sdk/client-s3';

const s3 = new S3Client({});

export const Store = () => ({
  put(key: string) {
    return s3.send(key);
  },
});
"#;
    let without = used.replace("const s3 = new S3Client({});", "");
    let lines = |code: &str| {
        let mut lines = canonical_lines(&index_against(&["AdService"], &[("src/web/store.ts", code)]));
        lines.retain(|l| !l.starts_with("rpc_call "));
        lines
    };
    assert_eq!(lines(used), lines(&without));
}

#[test]
fn same_binding_name_in_two_files_yields_distinct_stable_callers() {
    let cart = AD_GATEWAY
        .replace("AdServiceClient", "CartServiceClient")
        .replace("AdResponse", "Cart")
        .replace("listAds", "getCart")
        .replace("getAds", "getCart");
    let ad_file = "src/frontend/gateways/rpc/Ad.gateway.ts";
    let cart_file = "src/frontend/gateways/rpc/Cart.gateway.ts";
    let services = ["AdService", "CartService"];

    let graph = index_against(&services, &[(ad_file, AD_GATEWAY), (cart_file, &cart)]);
    let mut edges = rpc_edges(&graph);
    edges.sort();
    assert_eq!(
        edges,
        vec![
            (ad_file.into(), "listAds".into(), "AdService".into()),
            (cart_file.into(), "getCart".into(), "CartService".into()),
        ]
    );
    assert!(!graph.all_nodes().iter().any(|n| n.name == "client"));

    let reversed = index_against(&services, &[(cart_file, &cart), (ad_file, AD_GATEWAY)]);
    assert_eq!(canonical_lines(&graph), canonical_lines(&reversed));
}

#[test]
fn module_level_client_attributed_to_each_referencing_declaration() {
    let code = r#"
import { CartServiceClient, AdServiceClient } from './gen/demo';

const client = new CartServiceClient(ADDR);
const unused = new AdServiceClient(ADDR);

export class CartStore {
    add(item) {
        client.addItem(item);
        return client.getCart();
    }
    deps() {
        return { client };
    }
    other() {
        return this.client;
    }
}
"#;
    assert_eq!(
        rpc_edges_against(&["AdService", "CartService"], "src/web/cart.ts", code),
        vec![
            ("add".to_string(), "CartService".to_string()),
            ("deps".to_string(), "CartService".to_string()),
        ]
    );
}

#[test]
fn client_construction_in_method_aliased_and_namespace_imports() {
    let code = r#"
import { CartServiceClient as Carts } from './gen/demo';
import * as demo from './gen/demo';
import { AdClient } from './gen/ad';

export class Gateway {
    connect() {
        this.carts = new Carts(ADDR, creds);
        this.checkout = new demo.CheckoutServiceClient(ADDR, creds);
        this.ads = new AdClient(ADDR, creds);
    }
}
"#;
    let (nodes, _) = extract_rpc("gw.ts", code);
    assert!(
        !nodes.iter().any(|n| n
            .signature
            .as_deref()
            .is_some_and(|s| s.starts_with("new "))),
        "an enclosed construction must not synthesize a caller node"
    );
    assert_eq!(
        rpc_edges_against(
            &["AdService", "CartService", "CheckoutService"],
            "gw.ts",
            code
        ),
        vec![
            ("connect".to_string(), "AdService".to_string()),
            ("connect".to_string(), "CartService".to_string()),
            ("connect".to_string(), "CheckoutService".to_string()),
        ]
    );
}

#[test]
fn imported_client_without_declared_service_is_not_an_edge() {
    let code = r#"
import { S3Client } from '@aws-sdk/client-s3';
import { FooClient } from '../../protos/foo';

const s3 = new S3Client({});
const foo = new FooClient(ADDR);
"#;
    assert!(rpc_edges_against(&["AdService"], "src/frontend/x.ts", code).is_empty());
}

#[test]
fn non_imported_client_construction_is_not_recorded() {
    let code = r#"
class AdServiceClient {}
const client = new AdServiceClient(ADDR);
const other = new CartServiceClient(ADDR);
"#;
    let (_, rpc_calls) = extract_rpc("src/frontend/x.ts", code);
    assert!(rpc_calls.is_empty(), "got: {rpc_calls:?}");
    assert!(
        rpc_edges_against(&["AdService", "CartService"], "src/frontend/x.ts", code).is_empty()
    );
}

#[test]
fn import_path_plays_no_role_in_client_detection() {
    let code = r#"
import { PrototypeClient } from './prototype';

const proto = new PrototypeClient();
"#;
    assert!(rpc_edges_against(&["AdService"], "src/web/p.ts", code).is_empty());

    let code = r#"
import { AdServiceClient } from './prototype';

const ads = new AdServiceClient(ADDR);

export const Ads = () => ({
  list() {
    return ads.getAds();
  },
});
"#;
    assert_eq!(
        rpc_edges_against(&["AdService"], "src/web/p.ts", code),
        vec![("list".to_string(), "AdService".to_string())]
    );
}
