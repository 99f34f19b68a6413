use mesh_parsers::{MarkdownFormatter, SearchResult};

#[test]
fn test_format_search_results_basic() {
    let results = vec![SearchResult {
        file_path: "services/auth/src/Auth.ts".to_string(),
        line_start: 10,
        line_end: 20,
        language: "typescript".to_string(),
        snippet: "export class Auth {}".to_string(),
    }];

    let formatted = MarkdownFormatter::format_search_results("Auth", "services/auth", &results);
    assert!(formatted.contains("## Search Results for `Auth`"));
    assert!(formatted.contains("services/auth/src/Auth.ts"));
    assert!(formatted.contains("export class Auth {}"));
}

#[test]
fn test_truncation_guidance() {
    let mut large_results = Vec::new();
    for i in 0..100 {
        large_results.push(SearchResult {
            file_path: format!("services/scope{}/File{}.ts", i % 5, i),
            line_start: 1,
            line_end: 50,
            language: "typescript".to_string(),
            snippet: "a".repeat(800),
        });
    }

    let formatted =
        MarkdownFormatter::format_search_results("Huge", "services", &large_results);
    assert!(formatted.contains("[PAYLOAD TRUNCATED at 48 KB"));
    assert!(formatted.contains("GUIDANCE TO PREVENT TOKEN OVERFLOW"));
    assert!(formatted.contains("ACTION REQUIRED: Repeat 'smart_search'"));
}
