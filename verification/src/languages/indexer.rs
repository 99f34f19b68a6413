//! The extraction of a file in whatever language it is written.
use vstd::prelude::*;
use crate::contracts::{ContractGraph, GraphView};
use crate::decapitate;
use crate::decapitate::LanguageKind;
use crate::guard;
use crate::guard::{AstGuard, ParseOutcome};
use crate::index;
use crate::index::{FileIndex, FileIndexView};
use crate::languages::common;
use crate::languages::config;
use crate::languages::config::{ExtractConfig, ExtractConfigView};
use crate::languages::cpp;
use crate::languages::csharp;
use crate::languages::go;
use crate::languages::java;
use crate::languages::kotlin;
use crate::languages::patterns;
use crate::languages::patterns::{CompiledPattern, CustomPatternConfig, PatternView};
use crate::languages::php;
use crate::languages::proto;
use crate::languages::python;
use crate::languages::ruby;
use crate::languages::rust_lang;
use crate::languages::scala;
use crate::languages::specs;
use crate::languages::spec_shape::SpecShapes;
use crate::languages::swift;
use crate::languages::typescript;
use crate::model;
use crate::model::{ContractNode, ContractNodeView, NodeKind, PackagesView, RepoId, ServicePackages};
use crate::syntax;
use crate::syntax::{SyntaxTree, TreeView};
use crate::text;

verus! {

/// Extracts files in any of the languages.
pub struct PolyglotIndexer;

/// Links from the topics among the first `n` declarations to their own names: a listener
/// consumes the topic that it is declared for.
pub open spec fn topic_links(nodes: Seq<ContractNodeView>, n: int) -> Seq<(int, Seq<char>)>
    decreases n,
{
    if n <= 0 {
        Seq::empty()
    } else if nodes[n - 1].kind == NodeKind::KafkaTopic {
        topic_links(nodes, n - 1).push((n - 1, nodes[n - 1].name))
    } else {
        topic_links(nodes, n - 1)
    }
}

/// Whether a TypeScript import links a declaration: if it is a path, or if the declaration's
/// lines hold it.
pub open spec fn is_used_import(ls: Seq<Seq<char>>, n: ContractNodeView, imported: Seq<char>) -> bool {
    imported.len() > 0 && (text::index(imported, '/') is Some || text::starts_with(imported, "."@) || common::stands_in(
        ls,
        n,
        imported,
    ))
}

/// The links of declaration `k` to the imports that it uses.
pub open spec fn used_imports(ls: Seq<Seq<char>>, n: ContractNodeView, k: int, imports: Seq<(Seq<char>, Seq<char>)>) -> Seq<
    (int, Seq<char>),
>
    decreases imports.len(),
{
    if imports.len() == 0 {
        Seq::empty()
    } else {
        let rest = used_imports(ls, n, k, imports.drop_last());
        if is_used_import(ls, n, imports.last().1) {
            rest.push((k, imports.last().1))
        } else {
            rest
        }
    }
}

/// The links of the first `n` declarations to the imports that they use.
pub open spec fn all_used_imports(
    ls: Seq<Seq<char>>,
    nodes: Seq<ContractNodeView>,
    imports: Seq<(Seq<char>, Seq<char>)>,
    n: int,
) -> Seq<(int, Seq<char>)>
    decreases n,
{
    if n <= 0 {
        Seq::empty()
    } else {
        all_used_imports(ls, nodes, imports, n - 1) + used_imports(ls, nodes[n - 1], n - 1, imports)
    }
}

/// What a Java file holds.
pub open spec fn java_index(t: TreeView, path: Seq<char>, repo_id: RepoId, packages: PackagesView) -> FileIndexView {
    let found = java::java_found(t, path, repo_id, packages);
    FileIndexView {
        nodes: found.nodes,
        dependencies: java::java_dependencies(t, path, repo_id, packages),
        producers: found.producers,
        consumers: topic_links(found.nodes, found.nodes.len() as int),
        ..FileIndexView::empty()
    }
}

/// What a TypeScript file holds.
pub open spec fn ts_index(t: TreeView, path: Seq<char>, repo_id: RepoId, package: Seq<char>, annotations: Seq<Seq<char>>) -> FileIndexView {
    let found = typescript::ts_found(t, path, repo_id, package, annotations);
    FileIndexView {
        nodes: found.nodes,
        dependencies: all_used_imports(text::lines(t.src), found.nodes, found.imports, found.nodes.len() as int),
        rpc_calls: typescript::rpc_links(t, found.nodes, found.calls),
        ..FileIndexView::empty()
    }
}

/// What a Kotlin file holds.
pub open spec fn kotlin_index(t: TreeView, path: Seq<char>, repo_id: RepoId, packages: PackagesView) -> FileIndexView {
    let found = kotlin::kotlin_found(t, path, repo_id, packages);
    FileIndexView {
        nodes: found.nodes,
        producers: common::attributed(found.nodes, found.calls, true),
        consumers: topic_links(found.nodes, found.nodes.len() as int) + common::attributed(found.nodes, found.calls, false),
        ..FileIndexView::empty()
    }
}

/// What a C# file holds.
pub open spec fn csharp_index(t: TreeView, path: Seq<char>, repo_id: RepoId, packages: PackagesView) -> FileIndexView {
    let found = csharp::csharp_found(t, path, repo_id, packages);
    FileIndexView {
        nodes: found.nodes,
        producers: common::attributed(found.nodes, found.calls, true),
        consumers: common::attributed(found.nodes, found.calls, false),
        ..FileIndexView::empty()
    }
}

/// What a parsed file of a language holds.
pub open spec fn tree_index(kind: LanguageKind, t: TreeView, path: Seq<char>, repo_id: RepoId, packages: PackagesView, cfg: ExtractConfigView) -> FileIndexView {
    match kind {
        LanguageKind::Protobuf => FileIndexView {
            nodes: proto::proto_nodes(t, path, repo_id, cfg.canonical_fqcn_projection),
            dependencies: proto::proto_dependencies(t, path, repo_id, cfg.canonical_fqcn_projection),
            ..FileIndexView::empty()
        },
        LanguageKind::Java => java_index(t, path, repo_id, packages),
        LanguageKind::Go => {
            let (nodes, relations) = go::go_extract(t, path, repo_id, packages);
            FileIndexView {
                nodes,
                dependencies: relations.dependencies,
                producers: relations.producers,
                consumers: relations.consumers,
                rpc_calls: relations.rpc_calls,
                ..FileIndexView::empty()
            }
        },
        LanguageKind::Python => {
            let (nodes, relations) = python::py_extract(t, path, repo_id, packages.file);
            FileIndexView {
                nodes,
                dependencies: relations.dependencies,
                producers: relations.producers,
                consumers: relations.consumers,
                ..FileIndexView::empty()
            }
        },
        LanguageKind::TypeScript => ts_index(t, path, repo_id, packages.file, cfg.controller_annotations),
        LanguageKind::Rust => rust_lang::rust_index(t, path, repo_id, packages.file),
        LanguageKind::Cpp => cpp::cpp_index(t, path, repo_id, packages),
        LanguageKind::Kotlin => kotlin_index(t, path, repo_id, packages),
        LanguageKind::CSharp => csharp_index(t, path, repo_id, packages),
        LanguageKind::Ruby => FileIndexView { nodes: ruby::ruby_nodes(t, path, repo_id, packages.file), ..FileIndexView::empty() },
        LanguageKind::Php => FileIndexView { nodes: php::php_nodes(t, path, repo_id, packages.file), ..FileIndexView::empty() },
        LanguageKind::Swift => FileIndexView { nodes: swift::swift_nodes(t, path, repo_id, packages.file), ..FileIndexView::empty() },
        LanguageKind::Scala => FileIndexView { nodes: scala::scala_nodes(t, path, repo_id, packages.file), ..FileIndexView::empty() },
        LanguageKind::Yaml => FileIndexView::empty(),
        LanguageKind::Unknown => FileIndexView::empty(),
    }
}

/// What is known of a file that could not be parsed in time.
pub open spec fn failed_index() -> FileIndexView {
    FileIndexView { parse_failed: true, ..FileIndexView::empty() }
}

/// Whether an index is what a file holds. A file that is parsed gives what its tree holds;
/// where the parser does not come to an end in time, the index says so, and where it does not
/// take the language's grammar, there is nothing.
pub open spec fn is_extracted(
    x: FileIndexView,
    path: Seq<char>,
    content: Seq<char>,
    repo_id: RepoId,
    packages: PackagesView,
    shapes: SpecShapes,
    cfg: ExtractConfigView,
) -> bool {
    let kind = decapitate::language_of_path(path);
    if kind == LanguageKind::Yaml {
        x == specs::yaml_index(FileIndexView::empty(), shapes, path, content, repo_id, cfg)
    } else if !guard::loads(kind) || kind == LanguageKind::Protobuf && !cfg.takes_proto(path) {
        x == FileIndexView::empty()
    } else {
        ||| x == failed_index()
        ||| exists|t: TreeView| #[trigger]
            guard::tree_of(kind, AstGuard::INDEX_PARSE_TIMEOUT_MICROS, content, t) && x == tree_index(kind, t, path, repo_id, packages, cfg)
    }
}

proof fn lemma_topic_links_below(nodes: Seq<ContractNodeView>, n: int)
    ensures
        index::links_below(topic_links(nodes, n), n),
    decreases n,
{
    if n > 0 {
        lemma_topic_links_below(nodes, n - 1);
    }
}

proof fn lemma_used_imports_below(ls: Seq<Seq<char>>, n: ContractNodeView, k: int, imports: Seq<(Seq<char>, Seq<char>)>)
    requires
        0 <= k,
    ensures
        index::links_below(used_imports(ls, n, k, imports), k + 1),
    decreases imports.len(),
{
    if imports.len() > 0 {
        lemma_used_imports_below(ls, n, k, imports.drop_last());
    }
}

proof fn lemma_joined_below(a: Seq<(int, Seq<char>)>, b: Seq<(int, Seq<char>)>, n: int)
    requires
        index::links_below(a, n),
        index::links_below(b, n),
    ensures
        index::links_below(a + b, n),
{
    assert forall|j: int| 0 <= j < (a + b).len() implies 0 <= (#[trigger] (a + b)[j]).0 < n by {
        if j < a.len() {
            assert((a + b)[j] == a[j]);
        } else {
            assert((a + b)[j] == b[j - a.len()]);
        }
    }
}

proof fn lemma_all_used_imports_below(
    ls: Seq<Seq<char>>,
    nodes: Seq<ContractNodeView>,
    imports: Seq<(Seq<char>, Seq<char>)>,
    n: int,
)
    ensures
        index::links_below(all_used_imports(ls, nodes, imports, n), n),
    decreases n,
{
    if n > 0 {
        lemma_all_used_imports_below(ls, nodes, imports, n - 1);
        lemma_used_imports_below(ls, nodes[n - 1], n - 1, imports);
        lemma_joined_below(
            all_used_imports(ls, nodes, imports, n - 1),
            used_imports(ls, nodes[n - 1], n - 1, imports),
            n,
        );
    }
}

/// Every relation of a parsed file starts from one of its declarations, in every language.
pub proof fn law_trees_are_linked(kind: LanguageKind, t: TreeView, path: Seq<char>, repo_id: RepoId, packages: PackagesView, cfg: ExtractConfigView)
    ensures
        tree_index(kind, t, path, repo_id, packages, cfg).linked(),
{
    match kind {
        LanguageKind::Java => {
            let nodes = java::java_found(t, path, repo_id, packages).nodes;
            java::law_java_links(t, path, repo_id, packages);
            lemma_topic_links_below(nodes, nodes.len() as int);
        },
        LanguageKind::Go => {
            go::law_go_links(t, path, repo_id, packages);
        },
        LanguageKind::Python => {
            python::law_python_links(t, path, repo_id, packages.file);
        },
        LanguageKind::TypeScript => {
            let found = typescript::ts_found(t, path, repo_id, packages.file, cfg.controller_annotations);
            typescript::law_ts_links(t, found.nodes, found.calls);
            lemma_all_used_imports_below(text::lines(t.src), found.nodes, found.imports, found.nodes.len() as int);
        },
        LanguageKind::Rust => {
            rust_lang::law_rust_links(t, path, repo_id, packages.file);
        },
        LanguageKind::Cpp => {
            cpp::law_cpp_links(t, path, repo_id, packages);
        },
        LanguageKind::Kotlin => {
            let found = kotlin::kotlin_found(t, path, repo_id, packages);
            let n = found.nodes.len() as int;
            common::lemma_attributed_below(found.nodes, found.calls, true);
            common::lemma_attributed_below(found.nodes, found.calls, false);
            lemma_topic_links_below(found.nodes, n);
            lemma_joined_below(topic_links(found.nodes, n), common::attributed(found.nodes, found.calls, false), n);
        },
        LanguageKind::CSharp => {
            let found = csharp::csharp_found(t, path, repo_id, packages);
            common::lemma_attributed_below(found.nodes, found.calls, true);
            common::lemma_attributed_below(found.nodes, found.calls, false);
        },
        _ => {},
    }
}

/// Whether declarations of a language are all in the package of their file.
pub open spec fn takes_file_package(kind: LanguageKind) -> bool {
    match kind {
        LanguageKind::TypeScript => true,
        LanguageKind::Python => true,
        LanguageKind::Rust => true,
        LanguageKind::Ruby => true,
        LanguageKind::Php => true,
        LanguageKind::Swift => true,
        LanguageKind::Scala => true,
        _ => false,
    }
}

/// In the languages that declare no package, every declaration of a parsed file carries the
/// file's path, its repository and the file's package.
pub proof fn law_trees_keep_their_package(
    kind: LanguageKind,
    t: TreeView,
    path: Seq<char>,
    repo_id: RepoId,
    packages: PackagesView,
    cfg: ExtractConfigView,
)
    requires
        takes_file_package(kind),
    ensures
        model::belong(tree_index(kind, t, path, repo_id, packages, cfg).nodes, path, repo_id, packages.file),
{
    let package = packages.file;
    match kind {
        LanguageKind::TypeScript => typescript::law_ts_nodes_belong(t, path, repo_id, package, cfg.controller_annotations),
        LanguageKind::Python => python::law_python_nodes_belong(t, path, repo_id, package),
        LanguageKind::Rust => rust_lang::law_rust_nodes_belong(t, path, repo_id, package),
        LanguageKind::Ruby => ruby::law_ruby_nodes_belong(
            t,
            path,
            repo_id,
            package,
            text::contains(text::unicode_lowercase(path), "routes"@),
        ),
        LanguageKind::Php => php::law_php_nodes_belong(t, path, repo_id, package),
        LanguageKind::Swift => swift::law_swift_nodes_belong(t, path, repo_id, package),
        LanguageKind::Scala => scala::law_scala_nodes_belong(t, path, repo_id, package),
        _ => {},
    }
}

/// Every relation that is extracted from a file starts from one of the file's declarations.
pub proof fn law_extractions_are_linked(
    x: FileIndexView,
    path: Seq<char>,
    content: Seq<char>,
    repo_id: RepoId,
    packages: PackagesView,
    shapes: SpecShapes,
    cfg: ExtractConfigView,
)
    requires
        is_extracted(x, path, content, repo_id, packages, shapes, cfg),
    ensures
        x.linked(),
{
    let kind = decapitate::language_of_path(path);
    specs::law_specs_are_linked(FileIndexView::empty(), shapes, path, content, repo_id, cfg);
    assert forall|t: TreeView| #[trigger] guard::tree_of(kind, AstGuard::INDEX_PARSE_TIMEOUT_MICROS, content, t) implies tree_index(
        kind,
        t,
        path,
        repo_id,
        packages,
        cfg,
    ).linked() by {
        law_trees_are_linked(kind, t, path, repo_id, packages, cfg);
    }
}

/// Adds the links of topics to their own names.
fn add_topic_links(nodes: &Vec<ContractNode>, out: &mut Vec<(usize, String)>)
    ensures
        model::links_view(final(out)@) == model::links_view(old(out)@) + topic_links(
            model::nodes_view(nodes@),
            nodes@.len() as int,
        ),
{
    let ghost start = model::links_view(out@);
    let ghost nv = model::nodes_view(nodes@);
    let mut i: usize = 0;
    assert(start + topic_links(nv, 0) == start);
    while i < nodes.len()
        invariant
            0 <= i <= nodes@.len(),
            nv == model::nodes_view(nodes@),
            model::links_view(out@) == start + topic_links(nv, i as int),
        decreases nodes@.len() - i,
    {
        assert(nv[i as int] == nodes@[i as int]@);
        if nodes[i].kind == NodeKind::KafkaTopic {
            let ghost rest = topic_links(nv, i as int);
            let name = text::copy(nodes[i].name.as_str());
            assert(start + rest.push((i as int, name@)) == (start + rest).push((i as int, name@)));
            model::push_link(out, i, name);
        }
        i += 1;
    }
}

/// Whether a TypeScript import links a declaration.
fn uses_import(ls: &Vec<&[char]>, n: &ContractNode, imported: &[char]) -> (r: bool)
    ensures
        r == is_used_import(text::texts(ls@), n@, imported@),
{
    imported.len() > 0 && (text::char_position(imported, '/').is_some() || text::begins(imported, ".") || common::used_in(
        ls,
        n,
        imported,
    ))
}

/// Adds the links of declaration `k` to the imports that it uses.
fn add_used_imports(ls: &Vec<&[char]>, n: &ContractNode, k: usize, imports: &Vec<(String, String)>, out: &mut Vec<(usize, String)>)
    ensures
        model::links_view(final(out)@) == model::links_view(old(out)@) + used_imports(
            text::texts(ls@),
            n@,
            k as int,
            model::pairs_view(imports@),
        ),
{
    let ghost start = model::links_view(out@);
    let ghost lv = text::texts(ls@);
    let ghost iv = model::pairs_view(imports@);
    let mut j: usize = 0;
    assert(start + used_imports(lv, n@, k as int, iv.take(0)) == start);
    while j < imports.len()
        invariant
            0 <= j <= imports@.len(),
            lv == text::texts(ls@),
            iv == model::pairs_view(imports@),
            model::links_view(out@) == start + used_imports(lv, n@, k as int, iv.take(j as int)),
        decreases imports@.len() - j,
    {
        proof {
            syntax::lemma_take_step(iv, j as int);
            assert(iv[j as int] == (imports@[j as int].0@, imports@[j as int].1@));
        }
        let imported = text::chars_of(imports[j].1.as_str());
        if uses_import(ls, n, imported.as_slice()) {
            let ghost rest = used_imports(lv, n@, k as int, iv.take(j as int));
            assert(start + rest.push((k as int, imported@)) == (start + rest).push((k as int, imported@)));
            model::push_link(out, k, text::string_of(imported.as_slice()));
        }
        j += 1;
    }
    assert(iv.take(j as int) == iv);
}

/// The links of declarations to the imports that they use.
fn link_imports(ls: &Vec<&[char]>, nodes: &Vec<ContractNode>, imports: &Vec<(String, String)>) -> (r: Vec<(usize, String)>)
    ensures
        model::links_view(r@) == all_used_imports(
            text::texts(ls@),
            model::nodes_view(nodes@),
            model::pairs_view(imports@),
            nodes@.len() as int,
        ),
{
    let ghost nv = model::nodes_view(nodes@);
    let mut out: Vec<(usize, String)> = Vec::new();
    let mut i: usize = 0;
    assert(model::links_view(out@) == Seq::<(int, Seq<char>)>::empty());
    while i < nodes.len()
        invariant
            0 <= i <= nodes@.len(),
            nv == model::nodes_view(nodes@),
            model::links_view(out@) == all_used_imports(text::texts(ls@), nv, model::pairs_view(imports@), i as int),
        decreases nodes@.len() - i,
    {
        assert(nv[i as int] == nodes@[i as int]@);
        add_used_imports(ls, &nodes[i], i, imports, &mut out);
        i += 1;
    }
    out
}

/// Whether a graph is another with a file's declarations and relations added, as far as there
/// is room to number them.
pub open spec fn is_indexed(g: GraphView, before: GraphView, x: FileIndexView) -> bool {
    if before.nodes.len() + x.nodes.len() <= u32::MAX {
        g == before.with_file(x)
    } else {
        g == before
    }
}

impl PolyglotIndexer {
    /// Adds what a file holds to a graph, with everything extracted. A file that there is no
    /// room for is left out.
    pub fn index_file(file_path: &str, content: &str, repo_id: RepoId, packages: &ServicePackages, shapes: &SpecShapes, graph: &mut ContractGraph)
        ensures
            exists|x: FileIndexView| #[trigger]
                is_extracted(x, file_path@, content@, repo_id, packages@, *shapes, config::default_config()) && is_indexed(
                    final(graph)@,
                    old(graph)@,
                    x,
                ),
    {
        let index = Self::extract(file_path, content, repo_id, packages, shapes);
        let ghost x = index@;
        proof {
            law_extractions_are_linked(x, file_path@, content@, repo_id, packages@, *shapes, config::default_config());
        }
        Self::apply_if_room(index, graph);
        assert(is_extracted(x, file_path@, content@, repo_id, packages@, *shapes, config::default_config()));
    }

    /// Adds what the user's patterns find in a file to a graph. Patterns that cannot be
    /// compiled are passed over.
    pub fn apply_custom_patterns(
        file_path: &str,
        content: &str,
        repo_id: RepoId,
        package: &str,
        patterns: &[CustomPatternConfig],
        graph: &mut ContractGraph,
    )
        ensures
            is_indexed(
                final(graph)@,
                old(graph)@,
                patterns::pattern_index(patterns::valid_patterns(patterns@), file_path@, content@, repo_id, package@),
            ),
    {
        let compiled = CompiledPattern::compile_all(patterns);
        let index = Self::extract_custom_patterns(file_path, content, repo_id, package, compiled.as_slice());
        Self::apply_if_room(index, graph);
    }

    fn apply_if_room(x: FileIndex, graph: &mut ContractGraph)
        requires
            x@.linked(),
        ensures
            is_indexed(final(graph)@, old(graph)@, x@),
    {
        assert(x@.nodes.len() == x.nodes@.len());
        let room = u32::MAX as usize;
        let n = graph.node_count();
        if n <= room && x.nodes.len() <= room - n {
            x.apply(graph);
        }
    }

    fn java_tree(path: &str, repo_id: RepoId, packages: &ServicePackages, t: &SyntaxTree) -> (r: FileIndex)
        ensures
            r@ == java_index(t@, path@, repo_id, packages@),
    {
        let mut out = FileIndex::default();
        let (nodes, dependencies, producers) = java::JavaExtractor::extract_tree(path, repo_id, packages, t);
        assert(model::nodes_view(nodes@).len() == nodes@.len());
        add_topic_links(&nodes, &mut out.consumers);
        out.nodes = nodes;
        out.dependencies = dependencies;
        out.producers = producers;
        let ghost want = java_index(t@, path@, repo_id, packages@);
        assert(out@.consumers == want.consumers);
        assert(out@ == want);
        out
    }

    fn go_tree(path: &str, repo_id: RepoId, packages: &ServicePackages, t: &SyntaxTree) -> (r: FileIndex)
        ensures
            forall|cfg: ExtractConfigView| r@ == #[trigger] tree_index(LanguageKind::Go, t@, path@, repo_id, packages@, cfg),
    {
        let (nodes, relations) = go::GoExtractor::extract_tree(path, repo_id, packages, t);
        FileIndex {
            nodes,
            dependencies: relations.dependencies,
            producers: relations.producers,
            consumers: relations.consumers,
            rpc_calls: relations.rpc_calls,
            parse_failed: false,
        }
    }

    fn python_tree(path: &str, repo_id: RepoId, package: &str, t: &SyntaxTree) -> (r: FileIndex)
        ensures
            forall|packages: PackagesView, cfg: ExtractConfigView| packages.file == package@ ==> r@ == #[trigger] tree_index(
                LanguageKind::Python,
                t@,
                path@,
                repo_id,
                packages,
                cfg,
            ),
    {
        let (nodes, relations) = python::PythonExtractor::extract_tree(path, repo_id, package, t);
        let mut out = FileIndex::default();
        out.nodes = nodes;
        out.dependencies = relations.dependencies;
        out.producers = relations.producers;
        out.consumers = relations.consumers;
        out
    }

    fn typescript_tree(path: &str, repo_id: RepoId, package: &str, t: &SyntaxTree, annotations: &[String]) -> (r: FileIndex)
        ensures
            r@ == ts_index(t@, path@, repo_id, package@, text::strings(annotations@)),
    {
        let mut imports: Vec<(String, String)> = Vec::new();
        let mut rpc_calls: Vec<(usize, String)> = Vec::new();
        let ghost no_pairs = Seq::<(Seq<char>, Seq<char>)>::empty();
        let ghost no_links = Seq::<(int, Seq<char>)>::empty();
        assert(model::pairs_view(imports@) == no_pairs);
        assert(model::links_view(rpc_calls@) == no_links);
        let ghost found = typescript::ts_found(t@, path@, repo_id, package@, text::strings(annotations@));
        let nodes = typescript::TypeScriptExtractor::extract_tree(path, repo_id, package, t, &mut imports, &mut rpc_calls, annotations);
        assert(no_pairs + found.imports == found.imports);
        assert(no_links + typescript::rpc_links(t@, found.nodes, found.calls) == typescript::rpc_links(
            t@,
            found.nodes,
            found.calls,
        ));
        assert(model::nodes_view(nodes@).len() == nodes@.len());
        let ls = text::lines_of(t.source());
        let dependencies = link_imports(&ls, &nodes, &imports);
        let mut out = FileIndex::default();
        out.nodes = nodes;
        out.dependencies = dependencies;
        out.rpc_calls = rpc_calls;
        out
    }

    fn kotlin_tree(path: &str, repo_id: RepoId, packages: &ServicePackages, t: &SyntaxTree) -> (r: FileIndex)
        ensures
            r@ == kotlin_index(t@, path@, repo_id, packages@),
    {
        let (nodes, relations) = kotlin::KotlinExtractor::extract_tree(path, repo_id, packages, t);
        assert(model::nodes_view(nodes@).len() == nodes@.len());
        let mut out = FileIndex::default();
        add_topic_links(&nodes, &mut out.consumers);
        let ghost first = model::links_view(out.consumers@);
        let ghost second = model::links_view(relations.consumers@);
        let ghost raw = (out.consumers@, relations.consumers@);
        let mut more = relations.consumers;
        out.consumers.append(&mut more);
        assert(model::links_view(out.consumers@) == first + second) by {
            assert(out.consumers@ == raw.0 + raw.1);
        }
        out.nodes = nodes;
        out.producers = relations.producers;
        out
    }

    fn csharp_tree(path: &str, repo_id: RepoId, packages: &ServicePackages, t: &SyntaxTree) -> (r: FileIndex)
        ensures
            r@ == csharp_index(t@, path@, repo_id, packages@),
    {
        let (nodes, relations) = csharp::CSharpExtractor::extract_tree(path, repo_id, packages, t);
        let mut out = FileIndex::default();
        out.nodes = nodes;
        out.producers = relations.producers;
        out.consumers = relations.consumers;
        out
    }

    fn proto_tree(path: &str, repo_id: RepoId, t: &SyntaxTree, canonical: bool) -> (r: FileIndex)
        ensures
            r@ == (FileIndexView {
                nodes: proto::proto_nodes(t@, path@, repo_id, canonical),
                dependencies: proto::proto_dependencies(t@, path@, repo_id, canonical),
                ..FileIndexView::empty()
            }),
    {
        let (nodes, relations) = proto::ProtoExtractor::extract_tree(path, repo_id, canonical, t);
        let mut out = FileIndex::default();
        out.nodes = nodes;
        out.dependencies = relations.dependencies;
        out
    }

    fn of_nodes(nodes: Vec<ContractNode>) -> (r: FileIndex)
        ensures
            r@ == (FileIndexView { nodes: model::nodes_view(nodes@), ..FileIndexView::empty() }),
    {
        let mut out = FileIndex::default();
        out.nodes = nodes;
        out
    }

    fn ruby_tree(path: &str, repo_id: RepoId, package: &str, t: &SyntaxTree) -> (r: Vec<ContractNode>)
        ensures
            model::nodes_view(r@) == ruby::ruby_nodes(t@, path@, repo_id, package@),
    {
        let lower = text::lowercase(path);
        let chars = text::chars_of(lower.as_str());
        ruby::RubyExtractor::extract_tree(path, repo_id, package, text::has_lit(chars.as_slice(), "routes"), t)
    }

    /// What the syntax tree of a file in a language holds.
    pub fn index_tree(kind: LanguageKind, file_path: &str, repo_id: RepoId, packages: &ServicePackages, t: &SyntaxTree, cfg: &ExtractConfig) -> (r: FileIndex)
        ensures
            r@ == tree_index(kind, t@, file_path@, repo_id, packages@, cfg@),
    {
        match kind {
            LanguageKind::Protobuf => Self::proto_tree(file_path, repo_id, t, cfg.canonical_fqcn_projection),
            LanguageKind::Java => Self::java_tree(file_path, repo_id, packages, t),
            LanguageKind::Go => Self::go_tree(file_path, repo_id, packages, t),
            LanguageKind::Python => Self::python_tree(file_path, repo_id, packages.file.as_str(), t),
            LanguageKind::TypeScript => Self::typescript_tree(file_path, repo_id, packages.file.as_str(), t, cfg.controller_annotations.as_slice()),
            LanguageKind::Rust => rust_lang::RustExtractor::extract_tree(file_path, repo_id, packages.file.as_str(), t),
            LanguageKind::Cpp => cpp::CppExtractor::extract_tree(file_path, repo_id, packages, t),
            LanguageKind::Kotlin => Self::kotlin_tree(file_path, repo_id, packages, t),
            LanguageKind::CSharp => Self::csharp_tree(file_path, repo_id, packages, t),
            LanguageKind::Ruby => Self::of_nodes(Self::ruby_tree(file_path, repo_id, packages.file.as_str(), t)),
            LanguageKind::Php => Self::of_nodes(php::PhpExtractor::extract_tree(file_path, repo_id, packages.file.as_str(), t)),
            LanguageKind::Swift => Self::of_nodes(swift::SwiftExtractor::extract_tree(file_path, repo_id, packages.file.as_str(), t)),
            LanguageKind::Scala => Self::of_nodes(scala::ScalaExtractor::extract_tree(file_path, repo_id, packages.file.as_str(), t)),
            LanguageKind::Yaml => FileIndex::default(),
            LanguageKind::Unknown => FileIndex::default(),
        }
    }

    /// What a file holds, with everything extracted.
    pub fn extract(file_path: &str, content: &str, repo_id: RepoId, packages: &ServicePackages, shapes: &SpecShapes) -> (r: FileIndex)
        ensures
            is_extracted(r@, file_path@, content@, repo_id, packages@, *shapes, config::default_config()),
    {
        let cfg = ExtractConfig::default();
        Self::extract_with_config(file_path, content, repo_id, packages, shapes, &cfg)
    }

    /// What a file holds, with what is asked for extracted. `shapes` is the file as a YAML
    /// document, if it is one.
    pub fn extract_with_config(file_path: &str, content: &str, repo_id: RepoId, packages: &ServicePackages, shapes: &SpecShapes, cfg: &ExtractConfig) -> (r: FileIndex)
        ensures
            is_extracted(r@, file_path@, content@, repo_id, packages@, *shapes, cfg@),
    {
        let kind = LanguageKind::from_path(file_path);
        let mut out = FileIndex::default();
        if kind == LanguageKind::Yaml {
            specs::extract_yaml_contracts(file_path, content, repo_id, shapes, &mut out, cfg);
            return out;
        }
        if kind == LanguageKind::Protobuf && !cfg.allows_proto_path(file_path) {
            return out;
        }
        match AstGuard::parse_with(kind, content, AstGuard::INDEX_PARSE_TIMEOUT_MICROS) {
            ParseOutcome::Parsed(tree) => {
                let t = SyntaxTree::of(&tree, content);
                Self::index_tree(kind, file_path, repo_id, packages, &t, cfg)
            },
            ParseOutcome::ParseFailed => {
                out.parse_failed = true;
                out
            },
            ParseOutcome::NoGrammar => out,
        }
    }

    /// What compiled patterns find in a file.
    pub fn extract_custom_patterns(file_path: &str, content: &str, repo_id: RepoId, package: &str, compiled: &[CompiledPattern]) -> (r: FileIndex)
        ensures
            r@ == patterns::pattern_index(patterns::patterns_view(compiled@), file_path@, content@, repo_id, package@),
            r@.linked(),
    {
        let ghost pv = patterns::patterns_view(compiled@);
        let mut out = FileIndex::default();
        let mut j: usize = 0;
        assert(pv.take(0) == Seq::<PatternView>::empty());
        while j < compiled.len()
            invariant
                0 <= j <= compiled@.len(),
                pv == patterns::patterns_view(compiled@),
                out@ == patterns::pattern_index(pv.take(j as int), file_path@, content@, repo_id, package@),
            decreases compiled@.len() - j,
        {
            proof {
                syntax::lemma_take_step(pv, j as int);
                assert(pv[j as int] == compiled@[j as int]@);
            }
            compiled[j].search(file_path, content, repo_id, package, &mut out);
            j += 1;
        }
        assert(pv.take(j as int) == pv);
        proof {
            patterns::law_patterns_are_linked(pv, file_path@, content@, repo_id, package@);
        }
        out
    }
}

} // verus!
