use mesh_parsers::guard::ParseOutcome;
use mesh_parsers::{AstGuard, LanguageKind, ParserError};
use tree_sitter::{Query, QueryCursor};

#[test]
fn brackets_nest_as_deep_as_they_open() {
    assert_eq!(AstGuard::max_nesting_depth(b"a{b(c[d])e}"), 3);
    assert_eq!(AstGuard::max_nesting_depth(b"}}){"), 1);
    assert_eq!(AstGuard::max_nesting_depth(b"no brackets ) ] }"), 0);
    assert_eq!(AstGuard::max_nesting_depth(b""), 0);
    assert_eq!(AstGuard::max_nesting_depth(b"'\\'{' `{` {"), 1);
    assert_eq!(AstGuard::max_nesting_depth(b"/* unclosed {{{"), 0);
}

#[test]
fn a_zero_byte_near_the_start_makes_a_file_binary() {
    let mut content = vec![b'a'; 5000];
    assert!(!AstGuard::looks_binary(&content));
    content[4096] = 0;
    assert!(!AstGuard::looks_binary(&content));
    content[4095] = 0;
    assert!(AstGuard::looks_binary(&content));
    assert!(!AstGuard::should_parse(10, &content));
}

#[test]
fn long_lines_are_refused() {
    let mut content = vec![b'a'; 1024];
    assert!(!AstGuard::has_long_line(&content));
    assert!(AstGuard::should_parse(1024, &content));
    content.push(b'a');
    assert!(AstGuard::has_long_line(&content));
    assert!(!AstGuard::should_parse(1025, &content));
    content[500] = b'\n';
    assert!(AstGuard::should_parse(1025, &content));
}

#[test]
fn sizes_are_bounded_by_the_kind_of_file() {
    assert_eq!(AstGuard::size_budget("a.rs"), 384 * 1024);
    assert_eq!(AstGuard::size_budget("a.PROTO"), 1536 * 1024);
    assert!(AstGuard::within_size_budget("a.rs", 393_216));
    assert!(!AstGuard::within_size_budget("a.rs", 393_217));
    assert!(AstGuard::should_parse_with_budget(10, b"x", 10));
    assert!(!AstGuard::should_parse_with_budget(11, b"x", 10));
}

#[test]
fn deep_files_are_refused() {
    let deep = [vec![b'('; 64], vec![b')'; 64]].concat();
    assert!(AstGuard::should_parse(128, &deep));
    let deeper = [vec![b'('; 65], vec![b')'; 65]].concat();
    assert!(!AstGuard::should_parse(130, &deeper));
}

#[test]
fn every_grammar_loads() {
    assert!(AstGuard::verify_all_parsers());
}

#[test]
fn every_language_with_a_slot_has_its_own_grammar() {
    let kinds = [
        (LanguageKind::Java, "java", 0),
        (LanguageKind::Go, "go", 1),
        (LanguageKind::Python, "python", 2),
        (LanguageKind::TypeScript, "typescript", 3),
        (LanguageKind::Rust, "rust", 4),
        (LanguageKind::Cpp, "cpp", 5),
        (LanguageKind::Kotlin, "kotlin", 6),
        (LanguageKind::CSharp, "c_sharp", 7),
        (LanguageKind::Ruby, "ruby", 8),
        (LanguageKind::Php, "php", 9),
        (LanguageKind::Swift, "swift", 10),
        (LanguageKind::Scala, "scala", 11),
        (LanguageKind::Protobuf, "proto", 12),
    ];
    assert_eq!(kinds.len(), LanguageKind::TREE_SITTER_COUNT);
    for (kind, name, slot) in kinds {
        assert_eq!(kind.tree_sitter_slot(), Some(slot));
        let language = kind.language().expect("grammar");
        let parser = AstGuard::create_bounded_parser(&language).expect("parser");
        let bound = parser.language().expect("bound");
        assert_eq!(*bound, language, "{name}");
        if let Some(own) = language.name() {
            assert_eq!(own, name);
        }
    }
    for kind in [LanguageKind::Yaml, LanguageKind::Unknown] {
        assert_eq!(kind.tree_sitter_slot(), None);
        assert!(kind.language().is_none());
    }
}

#[test]
fn parsers_are_handed_out_for_languages_with_a_grammar() {
    let kinds = AstGuard::with_parser(LanguageKind::Go, |p| {
        p.parse("package a\n", None).map(|t| t.root_node().kind().to_string())
    });
    assert_eq!(kinds, Some(Some("source_file".to_string())));
    assert_eq!(AstGuard::with_parser(LanguageKind::Yaml, |_| 1), None);
}

#[test]
fn texts_are_parsed_with_the_grammar_of_their_language() {
    let outcome = AstGuard::parse_with(LanguageKind::Rust, "fn f() {}\n", 0);
    let tree = outcome.into_option().expect("tree");
    assert_eq!(tree.root_node().kind(), "source_file");
    assert!(!tree.root_node().has_error());
    assert!(matches!(
        AstGuard::parse_with(LanguageKind::Unknown, "x", 0),
        ParseOutcome::NoGrammar
    ));
}

#[test]
fn queries_give_their_first_matches() {
    let language = LanguageKind::Rust.language().expect("grammar");
    let query = Query::new(&language, "(function_item name: (identifier) @name)").expect("query");
    let source = "fn a() {}\nfn bc() {}\n";
    let tree = AstGuard::parse_with(LanguageKind::Rust, source, 0)
        .into_option()
        .expect("tree");
    let mut cursor = QueryCursor::new();
    let matches =
        AstGuard::execute_bounded_query(&mut cursor, &query, tree.root_node(), source.as_bytes());
    let names: Vec<&str> = matches
        .iter()
        .map(|m| &source[m.captures[0].start_byte..m.captures[0].end_byte])
        .collect();
    assert_eq!(names, ["a", "bc"]);
    assert!(matches.iter().all(|m| m.pattern_index == 0 && m.captures[0].index == 0));
    assert_eq!(cursor.match_limit(), AstGuard::QUERY_MATCH_LIMIT);
}

#[test]
fn queries_need_the_source_of_their_node() {
    let language = LanguageKind::Rust.language().expect("grammar");
    let query = Query::new(&language, "((identifier) @n (#eq? @n \"bc\"))").expect("query");
    let source = "fn a() {}\nfn bc() {}\n";
    let tree = AstGuard::parse_with(LanguageKind::Rust, source, 0)
        .into_option()
        .expect("tree");
    let mut cursor = QueryCursor::new();
    let short = &source.as_bytes()[..10];
    assert!(AstGuard::query_within_source(&mut cursor, &query, tree.root_node(), short).is_none());
    let matches =
        AstGuard::query_within_source(&mut cursor, &query, tree.root_node(), source.as_bytes())
            .expect("matches");
    let places: Vec<(usize, usize)> = matches
        .iter()
        .map(|m| (m.captures[0].start_byte, m.captures[0].end_byte))
        .collect();
    assert_eq!(places, [(13, 15)]);
}

#[test]
fn queries_stop_at_the_step_limit() {
    let language = LanguageKind::Go.language().expect("grammar");
    let query = Query::new(&language, "(int_literal) @n").expect("query");
    let source = format!("package a\nvar x = []int{{{}}}\n", "1,\n".repeat(10_500));
    let tree = AstGuard::parse_with(LanguageKind::Go, &source, 0)
        .into_option()
        .expect("tree");
    let mut cursor = QueryCursor::new();
    let matches =
        AstGuard::execute_bounded_query(&mut cursor, &query, tree.root_node(), source.as_bytes());
    assert_eq!(matches.len(), AstGuard::MAX_QUERY_STEPS);
}

#[test]
fn parser_errors_say_what_went_wrong() {
    assert_eq!(
        ParserError::LanguageError("old".to_string()).message(),
        "Tree-sitter parser failed to set language: old"
    );
    assert_eq!(
        ParserError::GuardRejected("big".to_string()).message(),
        "File rejected by AstGuard: big"
    );
    let language = LanguageKind::Go.language().expect("grammar");
    let error = Query::new(&language, "(no_such_node)").expect_err("query");
    let text = error.to_string();
    let error = ParserError::from(error);
    assert!(matches!(error, ParserError::QueryError(_)));
    assert_eq!(error.message(), format!("Query compilation error: {text}"));
}

#[test]
fn languages_are_told_by_the_end_of_the_path() {
    for (path, kind, name) in [
        ("a.proto", LanguageKind::Protobuf, "protobuf"),
        ("a.java", LanguageKind::Java, "java"),
        ("a.go", LanguageKind::Go, "go"),
        ("a.py", LanguageKind::Python, "python"),
        ("a.tsx", LanguageKind::TypeScript, "typescript"),
        ("a.js", LanguageKind::TypeScript, "typescript"),
        ("a.rs", LanguageKind::Rust, "rust"),
        ("a.kts", LanguageKind::Kotlin, "kotlin"),
        ("a.cs", LanguageKind::CSharp, "csharp"),
        ("a.rake", LanguageKind::Ruby, "ruby"),
        ("a.phtml", LanguageKind::Php, "php"),
        ("a.swift", LanguageKind::Swift, "swift"),
        ("a.sc", LanguageKind::Scala, "scala"),
        ("a.h", LanguageKind::Cpp, "cpp"),
        ("a.yml", LanguageKind::Yaml, "yaml"),
        ("a.RS", LanguageKind::Unknown, "unknown"),
        ("", LanguageKind::Unknown, "unknown"),
    ] {
        assert_eq!(LanguageKind::from_path(path), kind, "{path}");
        assert_eq!(kind.as_str(), name);
    }
}
