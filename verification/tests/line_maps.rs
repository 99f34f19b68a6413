use mesh_parsers::splice::{apply_replacements, Edit};
use mesh_parsers::syntax::SyntaxTree;
use mesh_parsers::{AstDecapitator, AstGuard, DecapitatedSource, LanguageKind};

/// One entry for each line, each from lines of the file, and all of them going forward.
fn assert_maps(source: &str, out: &DecapitatedSource) {
    assert_eq!(out.line_map.len(), out.text.lines().count());
    let rows = source.matches('\n').count() as u32 + 1;
    let mut reached = 1;
    for (first, last) in &out.line_map {
        assert!(reached <= *first && first <= last && *last <= rows, "{:?}", out.line_map);
        reached = *last;
    }
}

#[test]
fn line_maps_go_forward_in_every_language() {
    for (kind, source) in [
        (LanguageKind::Rust, "struct S;\n\nfn f() {\n    1;\n}\n\nfn g() { 2 }\n"),
        (LanguageKind::Java, "class A {\n  void m() {\n    x();\n  }\n  int n() { return 1; }\n}\n"),
        (LanguageKind::Python, "def f():\n    \"\"\"doc\"\"\"\n    return 1\n\nx = 2\n"),
        (LanguageKind::Go, "package a\n\nfunc F() {\n\tprintln(1)\n}\n"),
        (LanguageKind::Kotlin, "fun f(): Int = 1\nfun g() {\n  f()\n}\n"),
        (LanguageKind::TypeScript, "function f() {\n  return { a: 1, b: 2 };\n}\nconst g = () => 1;\n"),
        (LanguageKind::Scala, "object A {\n  def f = 1\n  def g = {\n    2\n  }\n}\n"),
    ] {
        let out = AstDecapitator::decapitate_auto_mapped(source, kind, false);
        assert_maps(source, &out);
        assert_ne!(out.text, source);
        assert_eq!(out.text, AstDecapitator::decapitate_auto(source, kind, false));
    }
}

#[test]
fn a_file_without_bodies_comes_out_as_it_is() {
    let source = "struct S;\nconst X: u8 = 1;\n";
    let out = AstDecapitator::decapitate_auto_mapped(source, LanguageKind::Rust, false);
    assert_eq!(out.text, source);
    assert_eq!(out.line_map, [(1, 1), (2, 2)]);
}

#[test]
fn bodies_that_are_asked_for_stay() {
    let source = "fn f() {\n    1\n}";
    let out = AstDecapitator::decapitate_auto_mapped(source, LanguageKind::Rust, true);
    assert_eq!(out.text, source);
    assert_eq!(out.line_map, [(1, 1), (2, 2), (3, 3)]);
}

#[test]
fn large_unknown_files_become_a_stub() {
    let small = "x\n".repeat(512);
    assert_eq!(AstDecapitator::decapitate_auto(&small, LanguageKind::Unknown, false), small);
    let large = "x\n".repeat(513);
    let out = AstDecapitator::decapitate_auto_mapped(&large, LanguageKind::Unknown, false);
    assert_eq!(out.text, AstDecapitator::BOUNDED_ERROR_STUB);
    assert_eq!(out.line_map, [(1, 513)]);
    assert!(AstDecapitator::BOUNDED_ERROR_STUB.len() <= 256);
}

#[test]
fn return_types_are_made_up_from_returned_keys() {
    let source = "function f() {\n  return { b: 1, a: 2, a };\n}\n";
    let out = AstDecapitator::decapitate_auto(source, LanguageKind::TypeScript, false);
    assert_eq!(out, "function f(): { a: any, b: any } { /* stripped */ }\n");
}

#[test]
fn characters_of_several_bytes_are_kept_whole() {
    let source = "// é→🎈\nfn f() { \"é\"; }\nstruct Ü;\n";
    let out = AstDecapitator::decapitate_auto(source, LanguageKind::Rust, false);
    assert_eq!(out, "// é→🎈\nfn f() { /* stripped */ }\nstruct Ü;\n");
}

/// The text with edits made to it, and its line map.
fn edited(source: &str, edits: &[(usize, usize, &str)]) -> (String, Vec<(u32, u32)>) {
    let tree = AstGuard::parse_with(LanguageKind::Rust, source, 0)
        .into_option()
        .expect("tree");
    let t = SyntaxTree::of(&tree, source);
    let edits = edits
        .iter()
        .map(|(start, end, text)| Edit { start: *start, end: *end, text: text.to_string() })
        .collect();
    apply_replacements(&t, edits)
}

#[test]
fn the_order_of_edits_makes_no_difference() {
    let source = "fn é() {}\nfn b() {}\n";
    let expected = ("fn x() {}\n// b\nfn b();\n".to_string(), vec![(1, 1), (2, 2), (2, 2)]);
    let edits = [(3, 5, "x"), (11, 11, "// b\n"), (17, 20, ";")];
    assert_eq!(edited(source, &edits), expected);
    assert_eq!(edited(source, &[edits[2], edits[0], edits[1]]), expected);
    assert_eq!(edited(source, &[edits[1], edits[2], edits[0]]), expected);
}

#[test]
fn edits_that_do_not_fit_make_no_difference() {
    let source = "fn é() {}\nfn b() {}\n";
    let edits = [(3, 5, "x")];
    let expected = edited(source, &edits);
    assert_eq!(expected.0, "fn x() {}\nfn b() {}\n");
    for unfit in [(4, 9, "off"), (9, 4, "back"), (8, 99, "beyond"), (12, 11, "back")] {
        assert_eq!(edited(source, &[edits[0], unfit]), expected);
        assert_eq!(edited(source, &[unfit, edits[0]]), expected);
    }
    assert_eq!(edited(source, &[]), (source.to_string(), vec![(1, 1), (2, 2)]));
}
