use mesh_parsers::languages::patterns::{CustomPatternConfig, LineCursor, PatternKind};
use mesh_parsers::{CompiledPattern, NodeKind, PolyglotIndexer};

fn pattern(kind: PatternKind, file: Option<&str>, regex: &str, consumer: Option<usize>) -> CustomPatternConfig {
    CustomPatternConfig {
        name: "p".to_string(),
        kind,
        file_pattern: file.map(str::to_string),
        regex: regex.to_string(),
        target_group: 1,
        consumer_group: consumer,
    }
}

#[test]
fn a_pattern_that_is_no_regex_is_refused_with_the_reason() {
    let broken = pattern(PatternKind::Rpc, None, "(", None);
    let error = CompiledPattern::compile(&broken).err().expect("error");
    let reason = regex::Regex::new("(").expect_err("regex").to_string();
    assert_eq!(error.message, reason);
    let fine = pattern(PatternKind::Rpc, None, "call (a)", None);
    assert!(CompiledPattern::compile(&fine).is_ok());
    assert_eq!(CompiledPattern::compile_all(&[broken, fine]).len(), 1);
}

#[test]
fn a_pattern_is_searched_in_the_files_it_names() {
    let p = CompiledPattern::compile(&pattern(PatternKind::Rpc, Some("*.ts"), "x", None))
        .ok()
        .expect("pattern");
    assert!(p.matches_path("src/a.ts"));
    assert!(p.matches_path("src/ts/a.go"));
    assert!(!p.matches_path("src/a.go"));
    let all = CompiledPattern::compile(&pattern(PatternKind::Rpc, None, "x", None))
        .ok()
        .expect("pattern");
    assert!(all.matches_path("src/a.go"));
}

#[test]
fn matches_are_linked_to_what_they_name() {
    let compiled = CompiledPattern::compile_all(&[
        pattern(PatternKind::TopicProducer, None, r"emit\((\w+)\)", None),
        pattern(PatternKind::TopicConsumer, None, r"on\((\w+), (\w+)\)", Some(2)),
    ]);
    let source = "emit(orders)\nü on(orders, handle)\n";
    let index = PolyglotIndexer::extract_custom_patterns("a.js", source, 3, "", &compiled);
    let nodes: Vec<(&str, usize)> =
        index.nodes.iter().map(|n| (n.name.as_str(), n.line_start)).collect();
    assert_eq!(nodes, [("produce:orders", 1), ("handle", 2)]);
    assert_eq!(index.producers, [(0, "orders".to_string())]);
    assert_eq!(index.consumers, [(1, "orders".to_string())]);
    assert!(index.nodes.iter().all(|n| n.repo_id == 3));
}

#[test]
fn sagas_and_calls_are_found() {
    let compiled = CompiledPattern::compile_all(&[
        pattern(PatternKind::Saga, None, r"saga (\w+)", None),
        pattern(PatternKind::Rpc, None, r"call (\w+)", None),
    ]);
    let index = PolyglotIndexer::extract_custom_patterns("a.js", "saga S\ncall C\n", 0, "", &compiled);
    assert_eq!(index.nodes.len(), 2);
    assert_eq!(index.nodes[0].kind, NodeKind::Saga);
    let links = index.dependencies.len()
        + index.producers.len()
        + index.consumers.len()
        + index.rpc_calls.len();
    assert!(links > 0, "{index:?}");
}

#[test]
fn clones_find_the_same() {
    let compiled = CompiledPattern::compile_all(&[pattern(PatternKind::Rpc, Some("*.js"), r"call (\w+)", None)]);
    let clones = compiled.clone();
    for patterns in [&compiled, &clones] {
        let index = PolyglotIndexer::extract_custom_patterns("a.js", "call C\n", 0, "shop", patterns);
        assert_eq!(index.rpc_calls, [(0, "C".to_string())]);
        assert_eq!(index.nodes[0].package, "shop");
        let index = PolyglotIndexer::extract_custom_patterns("a.go", "call C\n", 0, "shop", patterns);
        assert!(index.nodes.is_empty());
    }
}

#[test]
fn lines_are_found_in_any_order() {
    let text = b"a\nbc\n\nd";
    let mut cursor = LineCursor::default();
    let lines: Vec<usize> = [0, 6, 2, 1, 7, 99, 0].iter().map(|o| cursor.line_at(text, *o)).collect();
    assert_eq!(lines, [1, 4, 2, 1, 4, 4, 1]);
}
