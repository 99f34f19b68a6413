use mesh_parsers::markdown::{DocSection, GrpcTrace, ImpactFlow};
use mesh_parsers::{
    ContractNode, EdgeConfidence, MarkdownFormatter, NodeKind, SearchResult, MAX_OUTPUT_BYTES,
};

fn node(name: &str, kind: NodeKind) -> ContractNode {
    ContractNode {
        id: 0,
        name: name.to_string(),
        kind,
        file_path: format!("src/{name}.rs"),
        line_start: 3,
        line_end: 9,
        package: "billing".to_string(),
        repo_id: 0,
        signature: None,
        docstring: None,
    }
}

fn result(path: &str, snippet: &str) -> SearchResult {
    SearchResult {
        file_path: path.to_string(),
        line_start: 1,
        line_end: 2,
        language: "go".to_string(),
        snippet: snippet.to_string(),
    }
}

#[test]
fn an_answer_reads_as_laid_down() {
    let answer = MarkdownFormatter::format_search_results("Pay", "all", &[result("a/b/c.go", "  x\n")]);
    assert_eq!(
        answer,
        "## Search Results for `Pay` (Scope: `all`)\n\
         *Matches: 1 definitions found (AST-Decapitated)*\n\n\
         ### [1] `a/b/c.go` (L1-L2)\n```go\nx\n```\n\n\
         *Tip: Use `smart_search(query: \"...\", scope: \"...\", include_body: true)` to expand an implementation.*\n"
    );
}

#[test]
fn an_empty_answer_has_a_heading_and_a_tip() {
    let answer = MarkdownFormatter::format_search_results("q", "s", &[]);
    assert!(answer.starts_with("## Search Results for `q` (Scope: `s`)\n*Matches: 0 definitions"));
    assert!(answer.ends_with("to expand an implementation.*\n"));
}

#[test]
fn a_cut_answer_keeps_to_the_limit_and_shows_what_fits() {
    let results: Vec<SearchResult> = (0..100)
        .map(|i| result(&format!("services/s{}/f{i}.go", i % 4), &"é".repeat(600)))
        .collect();
    let answer = MarkdownFormatter::format_search_results("Wide", "services", &results);
    assert!(answer.len() <= MAX_OUTPUT_BYTES);
    let shown = answer.matches("### [").count();
    assert!(shown > 0 && shown < 100);
    assert!(answer.contains(&format!("{shown} matches displayed out of 100 total matches]")));
    assert!(answer.contains("smart_search(query: \"Wide\", scope: \"services/s0\")"));
}

#[test]
fn the_directory_with_most_results_comes_first() {
    let mut results = vec![result("lone.go", &"x".repeat(900))];
    for i in 0..80 {
        results.push(result(&format!("a/b/{i}.go"), &"x".repeat(900)));
    }
    let answer = MarkdownFormatter::format_search_results("q", "s", &results);
    let first = answer.find("├── 'a/b'").expect("a/b");
    let second = answer.find("├── 'lone.go' (1 matches)").expect("lone.go");
    assert!(first < second);
}

#[test]
fn sub_scopes_are_the_first_two_parts_of_a_path() {
    assert_eq!(MarkdownFormatter::extract_sub_scope("a/b/c.rs"), "a/b");
    assert_eq!(MarkdownFormatter::extract_sub_scope("a.rs"), "a.rs");
    assert_eq!(MarkdownFormatter::extract_sub_scope(""), "root");
}

#[test]
fn dependents_are_listed() {
    assert_eq!(
        MarkdownFormatter::format_dependents("Pay", &[]),
        "## In-Memory Reverse Dependency Graph for `Pay`\n\
         *Total Dependents: 0 consumer node(s) found (O(1) in-memory resolution)*\n\n\
         No dependents found importing this symbol or package.\n"
    );
    let n = node("Bill", NodeKind::ServiceClass);
    assert_eq!(
        MarkdownFormatter::format_dependents("Pay", &[&n]),
        "## In-Memory Reverse Dependency Graph for `Pay`\n\
         *Total Dependents: 1 consumer node(s) found (O(1) in-memory resolution)*\n\n\
         ### [1] `Bill` (ServiceClass)\n- **File**: `src/Bill.rs:3-9`\n- **Package**: `billing`\n\n"
    );
}

#[test]
fn grpc_traces_are_listed() {
    let trace = GrpcTrace {
        target: "Bill.Pay".to_string(),
        proto_definition: Some(node("Bill", NodeKind::GrpcService)),
        client_stubs: vec![(node("Stub", NodeKind::ServiceClass), EdgeConfidence::Exact)],
        server_handlers: vec![],
    };
    assert_eq!(
        MarkdownFormatter::format_grpc_trace(&trace),
        "## End-to-End gRPC Synchronous Trace for `Bill.Pay`\n\n\
         ### 1. Protobuf Contract Definition\n\
         - **File**: `src/Bill.rs:3`\n- **FQCN**: `billing/Bill`\n- **Signature**: `N/A`\n\n\
         ### 2. Client Stubs (1 found)\n- `Stub` in `src/Stub.rs:3` _(match: exact)_\n\n\
         ### 3. Server Handlers / Controllers (0 found)\n"
    );
}

#[test]
fn a_trace_without_a_definition_says_so() {
    let trace = GrpcTrace {
        target: "X".to_string(),
        proto_definition: None,
        client_stubs: vec![],
        server_handlers: vec![(node("H", NodeKind::GrpcMethod), EdgeConfidence::Heuristic)],
    };
    let text = MarkdownFormatter::format_grpc_trace(&trace);
    assert!(text.contains("*No formal .proto definition indexed for this target.*\n\n"));
    assert!(text.ends_with("- `H` in `src/H.rs:3` _(match: heuristic)_\n"));
}

#[test]
fn impact_flows_are_listed() {
    let flow = ImpactFlow {
        target: "orders".to_string(),
        upstream_producers: vec![node("P", NodeKind::ServiceClass)],
        topics: vec![node("orders", NodeKind::KafkaTopic)],
        downstream_consumers: vec![],
        related_sagas: vec![node("S", NodeKind::Saga)],
    };
    assert_eq!(
        MarkdownFormatter::format_impact_flow(&flow),
        "## Asynchronous Causal Impact Analysis for `orders`\n\n\
         ### 1. Upstream Event Producers (1 found)\n- `P` in `src/P.rs:3`\n\n\
         ### 2. Event Topics & Stream Hubs (1 found)\n- `orders` (KafkaTopic) in `src/orders.rs`\n\n\
         ### 3. Downstream Consumers / Handlers (0 found)\n\n\
         ### 4. Distributed Sagas & Post-Processors (1 found)\n- `S` in `src/S.rs:3`\n"
    );
}

#[test]
fn document_sections_are_listed() {
    assert_eq!(
        MarkdownFormatter::format_doc_sections("q", &[]),
        "## Architecture Documentation Search for `q`\n*Matched 0 conceptual section(s)*\n\n\
         No relevant architecture sections found matching your query.\n"
    );
    let section = DocSection {
        title: "Design".to_string(),
        file_path: "docs/a.md".to_string(),
        start_line: 4,
        end_line: 8,
        level: 2,
        content: "\n  text \n".to_string(),
    };
    assert_eq!(
        MarkdownFormatter::format_doc_sections("q", &[&section]),
        "## Architecture Documentation Search for `q`\n*Matched 1 conceptual section(s)*\n\n\
         ### [1] `Design` — docs/a.md\n*File: `docs/a.md:4-8`, Level: 2*\n\ntext\n\n---\n\n"
    );
}
