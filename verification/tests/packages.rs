use mesh_parsers::languages::cpp::CppExtractor;
use mesh_parsers::languages::csharp::CSharpExtractor;
use mesh_parsers::languages::go::GoExtractor;
use mesh_parsers::languages::java::JavaExtractor;
use mesh_parsers::languages::kotlin::KotlinExtractor;
use mesh_parsers::languages::spec_shape::{AsyncApiShape, SpecShapes};
use mesh_parsers::{AstGuard, ContractNode, LanguageKind, PolyglotIndexer, ServicePackages};

fn parser(kind: LanguageKind) -> tree_sitter::Parser {
    AstGuard::create_bounded_parser(&kind.language().expect("grammar")).expect("parser")
}

fn packages() -> ServicePackages {
    let mut p = ServicePackages::new("file");
    p.declare("com.shop".to_string(), "wrong".to_string());
    p.declare("com.shop".to_string(), "shop".to_string());
    p
}

fn shown(nodes: &[ContractNode]) -> Vec<(&str, &str)> {
    nodes.iter().map(|n| (n.name.as_str(), n.package.as_str())).collect()
}

#[test]
fn declarations_carry_the_package_of_their_file() {
    for (path, code) in [
        ("a.ts", "export class A { m() {} }\nnew Queue('q');\n"),
        ("a.rs", "struct A;\nfn f() { r.route(\"/x\", get(h)); }\n"),
        ("a.py", "class A:\n    def f(self):\n        pass\n"),
        ("script.py", "print(1)\n"),
        ("a.rb", "class A\n  def f\n  end\nend\n"),
        ("a.php", "<?php\nclass A { function f() {} }\n"),
        ("a.swift", "class A { func f() {} }\n"),
        ("a.scala", "class A { def f = 1 }\n"),
    ] {
        let index = PolyglotIndexer::extract(path, code, 7, &packages(), &SpecShapes::none());
        assert!(!index.nodes.is_empty(), "{path}");
        for n in &index.nodes {
            assert_eq!(
                (n.id, n.file_path.as_str(), n.repo_id, n.package.as_str()),
                (0, path, 7, "file")
            );
        }
    }
}

#[test]
fn declared_packages_stand_for_what_they_are_given() {
    let nodes = JavaExtractor::extract(
        "A.java",
        "package com.shop;\nclass A {}\n",
        0,
        &packages(),
        &mut parser(LanguageKind::Java),
    );
    assert_eq!(shown(&nodes), [("A", "shop")]);
    let nodes = JavaExtractor::extract("A.java", "class A {}\n", 0, &packages(), &mut parser(LanguageKind::Java));
    assert_eq!(shown(&nodes), [("A", "")]);
    let nodes = GoExtractor::extract(
        "a.go",
        "package other\ntype A struct{}\n",
        0,
        &packages(),
        &mut parser(LanguageKind::Go),
    );
    assert_eq!(shown(&nodes), [("A", "other")]);
    let nodes = KotlinExtractor::extract(
        "a.kt",
        "package com.shop\nclass A\n",
        0,
        &packages(),
        &mut parser(LanguageKind::Kotlin),
    );
    assert_eq!(shown(&nodes), [("A", "shop")]);
    let nodes = KotlinExtractor::extract("a.kt", "class A\n", 0, &packages(), &mut parser(LanguageKind::Kotlin));
    assert_eq!(shown(&nodes), [("A", "file")]);
    let nodes = CSharpExtractor::extract(
        "a.cs",
        "class A {}\nnamespace com.shop { class B {} }\n",
        0,
        &packages(),
        &mut parser(LanguageKind::CSharp),
    );
    assert_eq!(shown(&nodes), [("A", "file"), ("B", "shop")]);
    let nodes = CppExtractor::extract(
        "a.cpp",
        "class A { int x; };\nnamespace n { class B { int y; }; }\n",
        0,
        &packages(),
        &mut parser(LanguageKind::Cpp),
    );
    assert_eq!(shown(&nodes), [("A", "file"), ("B", "n")]);
}

#[test]
fn specs_and_protos_keep_their_own_packages() {
    let proto = "syntax = \"proto3\";\npackage com.shop;\nmessage M {}\n";
    let index = PolyglotIndexer::extract("a.proto", proto, 0, &packages(), &SpecShapes::none());
    assert_eq!(shown(&index.nodes), [("M", "com.shop")]);
    let shapes = SpecShapes {
        asyncapi: Some(AsyncApiShape { channels: vec!["c".to_string()], topics: vec![] }),
        openapi: None,
    };
    let index = PolyglotIndexer::extract("asyncapi.yaml", "asyncapi: 2.0.0\nchannels:\n  c: {}\n", 0, &packages(), &shapes);
    assert_eq!(shown(&index.nodes), [("c", "asyncapi")]);
}
