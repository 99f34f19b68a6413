//! C++ classes, functions, local includes and gRPC services.
use vstd::prelude::*;
use crate::guard::AstGuard;
use crate::index::{FileIndex, FileIndexView};
use crate::index;
use crate::languages::common;
use crate::model;
use crate::model::{ContractNode, ContractNodeView, NameList, NodeKind, PackagesView, RepoId, ServicePackages};
use crate::paths;
use crate::syntax;
use crate::syntax::{SyntaxTree, TreeRules, TreeView};
use crate::text;

verus! {

/// C++ extractor.
pub struct CppExtractor;

/// Whether a class extends `::grpc::Service`.
pub open spec fn has_grpc_base(t: TreeView, i: int) -> bool {
    exists|j: int| 0 <= j < t.children(i).len() && is_grpc_base(t, #[trigger] t.children(i)[j])
}

/// Whether node `k` is a list of base classes with `grpc::Service` in it.
pub open spec fn is_grpc_base(t: TreeView, k: int) -> bool {
    t.kind(k) == "base_class_clause"@ && match t.text(k) {
        Some(s) => text::contains(s, "grpc::Service"@),
        None => false,
    }
}

/// Whether node `i` is a class or a struct with a body; forward declarations have none.
pub open spec fn is_class_definition(t: TreeView, i: int) -> bool {
    (t.kind(i) == "class_specifier"@ || t.kind(i) == "struct_specifier"@) && t.field(i, "body"@) is Some
}

/// The gRPC service that node `i` defines, if it defines one.
pub open spec fn grpc_service(t: TreeView, i: int) -> Option<Seq<char>> {
    if is_class_definition(t, i) && has_grpc_base(t, i) {
        t.field_text(i, "name"@)
    } else {
        None
    }
}

/// A walk that gathers the classes that extend `::grpc::Service`.
pub struct ServiceRules;

impl View for ServiceRules {
    type V = ();

    open spec fn view(&self) -> () {
        ()
    }
}

impl TreeRules for ServiceRules {
    type Context = ();

    type Output = NameList;

    open spec fn on_node(rules: (), t: TreeView, parent: Option<int>, i: int, c: (), o: Seq<Seq<char>>) -> (Seq<Seq<char>>, Option<()>) {
        (model::with(o, grpc_service(t, i)), Some(()))
    }

    fn visit(&self, t: &SyntaxTree, parent: Option<usize>, i: usize, c: &(), o: &mut NameList) -> (r: Option<()>) {
        let found = if CppExtractor::is_definition(t, i) && CppExtractor::has_grpc_service_base(t, i) {
            match t.field_text(i, "name") {
                Some(s) => Some(text::string_of(s)),
                None => None,
            }
        } else {
            None
        };
        o.add(found);
        Some(())
    }
}

/// The classes of a file that extend `::grpc::Service`.
pub open spec fn grpc_services(t: TreeView) -> Seq<Seq<char>> {
    syntax::walk_tree::<ServiceRules>((), t, AstGuard::MAX_NESTING_DEPTH as int, (), Seq::empty())
}

/// Whether a header in angle brackets belongs to the project: it has a directory, or an
/// extension that standard headers do not have.
pub open spec fn is_project_header(s: Seq<char>) -> bool {
    text::index(s, '/') is Some || text::ends_with(s, ".hpp"@) || text::ends_with(s, ".hh"@) || text::ends_with(s, ".hxx"@)
}

/// The stem of a header's file name, or the header itself where it has none.
pub open spec fn header_stem(s: Seq<char>) -> Seq<char> {
    text::or(paths::file_stem(s), s)
}

/// The header that node `i` includes from the project, by its stem.
pub open spec fn include_target(t: TreeView, i: int) -> Option<Seq<char>> {
    if t.kind(i) != "preproc_include"@ {
        None
    } else {
        match t.field(i, "path"@) {
            Some(p) => match t.text(p) {
                Some(s) => if t.kind(p) == "string_literal"@ {
                    Some(header_stem(text::trim_set(s, "\""@)))
                } else if t.kind(p) == "system_lib_string"@ {
                    let inner = text::trim_set(text::trim_set(s, "<"@), ">"@);
                    if is_project_header(inner) {
                        Some(header_stem(inner))
                    } else {
                        None
                    }
                } else {
                    None
                },
                None => None,
            },
            None => None,
        }
    }
}

/// A walk that gathers the project's headers that a file includes.
pub struct IncludeRules;

impl View for IncludeRules {
    type V = ();

    open spec fn view(&self) -> () {
        ()
    }
}

impl TreeRules for IncludeRules {
    type Context = ();

    type Output = NameList;

    open spec fn on_node(rules: (), t: TreeView, parent: Option<int>, i: int, c: (), o: Seq<Seq<char>>) -> (Seq<Seq<char>>, Option<()>) {
        (model::with(o, include_target(t, i)), Some(()))
    }

    fn visit(&self, t: &SyntaxTree, parent: Option<usize>, i: usize, c: &(), o: &mut NameList) -> (r: Option<()>) {
        o.add(CppExtractor::included(t, i));
        Some(())
    }
}

/// The project's headers that a file includes, by their stems.
pub open spec fn local_includes(t: TreeView) -> Seq<Seq<char>> {
    syntax::walk_tree::<IncludeRules>((), t, AstGuard::MAX_NESTING_DEPTH as int, (), Seq::empty())
}

/// Whether a declarator only wraps another one.
pub open spec fn is_wrapper(kind: Seq<char>) -> bool {
    kind == "function_declarator"@ || kind == "pointer_declarator"@ || kind == "reference_declarator"@ || kind == "parenthesized_declarator"@
}

/// The declarator that a wrapper wraps.
pub open spec fn wrapped(t: TreeView, n: int) -> Option<int> {
    match t.field(n, "declarator"@) {
        Some(k) => Some(k),
        None => t.named_child(n, 0),
    }
}

/// The scope of a `Foo::Method` declarator.
pub open spec fn qualifier(t: TreeView, n: int) -> Option<Seq<char>>
    decreases t.rows.len() - n,
{
    let k = t.kind(n);
    if k == "qualified_identifier"@ {
        t.field_text(n, "scope"@)
    } else if is_wrapper(k) {
        match wrapped(t, n) {
            Some(m) => if n < m < t.rows.len() {
                qualifier(t, m)
            } else {
                None
            },
            None => None,
        }
    } else if k == "template_function"@ {
        match t.field(n, "name"@) {
            Some(m) => if n < m < t.rows.len() {
                qualifier(t, m)
            } else {
                None
            },
            None => None,
        }
    } else {
        None
    }
}

/// The name that a declarator declares: the last segment of a qualified one.
pub open spec fn declared_name(t: TreeView, n: int) -> Option<Seq<char>>
    decreases t.rows.len() - n,
{
    let k = t.kind(n);
    if k == "identifier"@ || k == "field_identifier"@ || k == "destructor_name"@ || k == "operator_name"@ {
        t.text(n)
    } else if is_wrapper(k) {
        match wrapped(t, n) {
            Some(m) => if n < m < t.rows.len() {
                declared_name(t, m)
            } else {
                None
            },
            None => None,
        }
    } else if k == "qualified_identifier"@ || k == "template_function"@ {
        match t.field(n, "name"@) {
            Some(m) => if n < m < t.rows.len() {
                declared_name(t, m)
            } else {
                None
            },
            None => None,
        }
    } else {
        None
    }
}

/// Whether a member of a class declares a method without a body.
pub open spec fn is_method_declaration(t: TreeView, k: int) -> bool {
    t.kind(k) == "field_declaration"@ && match t.field(k, "declarator"@) {
        Some(d) => t.kind(d) == "function_declarator"@,
        None => false,
    }
}

/// Whether a function is defaulted or deleted.
pub open spec fn is_special(t: TreeView, k: int) -> bool {
    exists|j: int| 0 <= j < t.children(k).len() && (t.kind(#[trigger] t.children(k)[j]) == "default_method_clause"@ || t.kind(t.children(k)[j]) == "delete_method_clause"@)
}

/// Whether a member of a class may stand in an interface: every method is pure virtual,
/// and every function with a body is defaulted or deleted.
pub open spec fn is_pure_member(t: TreeView, k: int) -> bool {
    &&& is_method_declaration(t, k) ==> t.field(k, "default_value"@) is Some
    &&& t.kind(k) == "function_definition"@ ==> is_special(t, k)
}

/// Whether a class is an interface: it has a method, and every method is pure virtual.
pub open spec fn is_interface(t: TreeView, i: int) -> bool {
    match t.field(i, "body"@) {
        Some(body) => {
            let ks = t.children(body);
            &&& forall|j: int| 0 <= j < ks.len() ==> is_pure_member(t, #[trigger] ks[j])
            &&& exists|j: int| 0 <= j < ks.len() && is_method_declaration(t, #[trigger] ks[j])
        },
        None => false,
    }
}

/// The function that node `i` defines, destructors aside.
pub open spec fn function_name(t: TreeView, i: int) -> Option<Seq<char>> {
    match t.field(i, "declarator"@) {
        Some(d) => match declared_name(t, d) {
            Some(name) => if name.len() > 0 && name[0] == '~' {
                None
            } else {
                Some(name)
            },
            None => None,
        },
        None => None,
    }
}

/// What a function is. Out-of-line methods of a gRPC service are its handlers.
pub open spec fn function_kind(t: TreeView, i: int, name: Seq<char>, services: Seq<Seq<char>>) -> NodeKind {
    let serves = match t.field(i, "declarator"@) {
        Some(d) => match qualifier(t, d) {
            Some(q) => services.contains(q),
            None => false,
        },
        None => false,
    };
    if serves {
        NodeKind::GrpcMethod
    } else if text::starts_with(name, "Handle"@) || text::starts_with(name, "handle"@) || text::ends_with(name, "Handler"@) {
        NodeKind::HttpEndpoint
    } else {
        NodeKind::ServiceClass
    }
}

/// What a walk over a C++ file gathers.
pub struct CppFound {
    pub package: String,
    pub nodes: Vec<ContractNode>,
}

/// What a walk over a C++ file gathers, as a mathematical value.
#[verifier::ext_equal]
pub struct CppFoundView {
    pub package: Seq<char>,
    pub nodes: Seq<ContractNodeView>,
}

impl View for CppFound {
    type V = CppFoundView;

    open spec fn view(&self) -> CppFoundView {
        CppFoundView { package: self.package@, nodes: model::nodes_view(self.nodes@) }
    }
}

/// What a walk has gathered after node `i`.
pub open spec fn cpp_step(t: TreeView, i: int, path: Seq<char>, repo_id: RepoId, packages: PackagesView, services: Seq<Seq<char>>, o: CppFoundView) -> CppFoundView {
    if t.kind(i) == "namespace_definition"@ {
        CppFoundView { package: packages.package_after(t.field_text(i, "name"@), o.package), ..o }
    } else if t.kind(i) == "class_specifier"@ || t.kind(i) == "struct_specifier"@ {
        match t.field_text(i, "name"@) {
            Some(name) => if t.field(i, "body"@) is Some {
                let kind = if has_grpc_base(t, i) {
                    NodeKind::GrpcService
                } else if is_interface(t, i) {
                    NodeKind::Interface
                } else {
                    NodeKind::ServiceClass
                };
                CppFoundView { nodes: o.nodes.push(model::declared(t, i, path, repo_id, o.package, name, kind, text::or(t.head(i), name))), ..o }
            } else {
                o
            },
            None => o,
        }
    } else if t.kind(i) == "function_definition"@ {
        match function_name(t, i) {
            Some(name) => CppFoundView {
                nodes: o.nodes.push(
                    model::declared(t, i, path, repo_id, o.package, name, function_kind(t, i, name, services), text::or(t.head(i), name)),
                ),
                ..o
            },
            None => o,
        }
    } else {
        o
    }
}

/// What a walk over a C++ file does at each node.
pub struct CppRules<'a> {
    pub path: &'a str,
    pub repo_id: RepoId,
    pub packages: &'a ServicePackages,
    pub services: &'a Vec<String>,
}

/// The settings of a walk over a C++ file, as a mathematical value.
pub struct CppRulesView {
    pub path: Seq<char>,
    pub repo_id: RepoId,
    pub packages: PackagesView,
    pub services: Seq<Seq<char>>,
}

impl<'a> View for CppRules<'a> {
    type V = CppRulesView;

    open spec fn view(&self) -> CppRulesView {
        CppRulesView { path: self.path@, repo_id: self.repo_id, packages: self.packages@, services: text::strings(self.services@) }
    }
}

impl<'a> TreeRules for CppRules<'a> {
    type Context = ();

    type Output = CppFound;

    open spec fn on_node(rules: CppRulesView, t: TreeView, parent: Option<int>, i: int, c: (), o: CppFoundView) -> (CppFoundView, Option<()>) {
        (cpp_step(t, i, rules.path, rules.repo_id, rules.packages, rules.services, o), Some(()))
    }

    fn visit(&self, t: &SyntaxTree, parent: Option<usize>, i: usize, c: &(), o: &mut CppFound) -> (r: Option<()>) {
        CppExtractor::visit_node(t, i, self.path, self.repo_id, self.packages, self.services, o);
        Some(())
    }
}

/// The declarations of a file.
pub open spec fn cpp_nodes(t: TreeView, path: Seq<char>, repo_id: RepoId, packages: PackagesView) -> Seq<ContractNodeView> {
    syntax::walk_tree::<CppRules>(
        CppRulesView { path, repo_id, packages, services: grpc_services(t) },
        t,
        AstGuard::MAX_NESTING_DEPTH as int,
        (),
        CppFoundView { package: packages.file, nodes: Seq::empty() },
    ).nodes
}

/// The links from declaration `k` to the included headers whose stem stands in it.
pub open spec fn node_links(ls: Seq<Seq<char>>, n: ContractNodeView, k: int, includes: Seq<Seq<char>>) -> Seq<(int, Seq<char>)>
    decreases includes.len(),
{
    if includes.len() == 0 {
        Seq::empty()
    } else {
        let rest = node_links(ls, n, k, includes.drop_last());
        if common::stands_in(ls, n, includes.last()) {
            rest.push((k, includes.last()))
        } else {
            rest
        }
    }
}

/// The links from the first `n` declarations to the included headers.
pub open spec fn include_links(ls: Seq<Seq<char>>, nodes: Seq<ContractNodeView>, includes: Seq<Seq<char>>, n: int) -> Seq<(int, Seq<char>)>
    decreases n,
{
    if n <= 0 {
        Seq::empty()
    } else {
        include_links(ls, nodes, includes, n - 1) + node_links(ls, nodes[n - 1], n - 1, includes)
    }
}

/// Everything extracted from a file.
pub open spec fn cpp_index(t: TreeView, path: Seq<char>, repo_id: RepoId, packages: PackagesView) -> FileIndexView {
    let nodes = cpp_nodes(t, path, repo_id, packages);
    FileIndexView {
        nodes,
        dependencies: include_links(text::lines(t.src), nodes, local_includes(t), nodes.len() as int),
        ..FileIndexView::empty()
    }
}

proof fn lemma_node_links_below(ls: Seq<Seq<char>>, n: ContractNodeView, k: int, includes: Seq<Seq<char>>)
    requires
        0 <= k,
    ensures
        index::links_below(node_links(ls, n, k, includes), k + 1),
    decreases includes.len(),
{
    if includes.len() > 0 {
        lemma_node_links_below(ls, n, k, includes.drop_last());
    }
}

proof fn lemma_import_links_below(ls: Seq<Seq<char>>, nodes: Seq<ContractNodeView>, includes: Seq<Seq<char>>, n: int)
    requires
        0 <= n,
    ensures
        index::links_below(include_links(ls, nodes, includes, n), n),
    decreases n,
{
    if n > 0 {
        lemma_import_links_below(ls, nodes, includes, n - 1);
        lemma_node_links_below(ls, nodes[n - 1], n - 1, includes);
        let a = include_links(ls, nodes, includes, n - 1);
        let b = node_links(ls, nodes[n - 1], n - 1, includes);
        assert forall|j: int| 0 <= j < (a + b).len() implies 0 <= (#[trigger] (a + b)[j]).0 < n by {
            if j < a.len() {
                assert((a + b)[j] == a[j]);
            } else {
                assert((a + b)[j] == b[j - a.len()]);
            }
        }
    }
}

/// Every relation of a file starts from one of its declarations.
pub proof fn law_cpp_links(t: TreeView, path: Seq<char>, repo_id: RepoId, packages: PackagesView)
    ensures
        cpp_index(t, path, repo_id, packages).linked(),
{
    let nodes = cpp_nodes(t, path, repo_id, packages);
    lemma_import_links_below(text::lines(t.src), nodes, local_includes(t), nodes.len() as int);
}

/// Every declaration of a file carries the file's path and its repository and has no number
/// yet, and its package is the file's or stands for a name that is declared.
pub proof fn law_cpp_nodes_belong(t: TreeView, path: Seq<char>, repo_id: RepoId, packages: PackagesView)
    ensures
        model::belong_among(cpp_nodes(t, path, repo_id, packages), path, repo_id, packages, packages.file),
{
    let rules = CppRulesView { path, repo_id, packages, services: grpc_services(t) };
    let holds = |c: (), o: CppFoundView|
        model::belong_among(o.nodes, path, repo_id, packages, packages.file) && packages.gives(o.package, packages.file);
    assert(syntax::keeps::<CppRules>(rules, t, holds));
    syntax::lemma_walk_keeps::<CppRules>(
        rules,
        t,
        None,
        0,
        t.rows.len() as int,
        0,
        AstGuard::MAX_NESTING_DEPTH as int,
        (),
        (),
        CppFoundView { package: packages.file, nodes: Seq::empty() },
        holds,
    );
}

impl CppExtractor {
    /// The declarations of a file.
    pub fn extract(file_path: &str, content: &str, repo_id: RepoId, packages: &ServicePackages, parser: &mut tree_sitter::Parser) -> (r: Vec<ContractNode>)
        ensures
            exists|done: bool|
                match #[trigger] syntax::outcome(*old(parser), content@, done) {
                    Some(t) => model::nodes_view(r@) == cpp_nodes(t, file_path@, repo_id, packages@),
                    None => r@.len() == 0,
                },
    {
        match syntax::parse(parser, content) {
            Some(tree) => {
                assert(syntax::outcome(*old(parser), content@, true) is Some);
                Self::extract_file_index(file_path, content, repo_id, packages, &tree).nodes
            },
            None => {
                assert(syntax::outcome(*old(parser), content@, false) is None);
                Vec::new()
            },
        }
    }

    /// The declarations of a parsed file and the project's headers that they use.
    pub fn extract_file_index(file_path: &str, content: &str, repo_id: RepoId, packages: &ServicePackages, tree: &tree_sitter::Tree) -> (r: FileIndex)
        ensures
            r@ == cpp_index(TreeView { rows: syntax::tree_rows(*tree), src: content@ }, file_path@, repo_id, packages@),
    {
        let t = SyntaxTree::of(tree, content);
        Self::extract_tree(file_path, repo_id, packages, &t)
    }

    /// The declarations of a syntax tree and the project's headers that they use.
    pub fn extract_tree(file_path: &str, repo_id: RepoId, packages: &ServicePackages, t: &SyntaxTree) -> (r: FileIndex)
        ensures
            r@ == cpp_index(t@, file_path@, repo_id, packages@),
    {
        let mut services = NameList::new();
        syntax::run_tree(&ServiceRules, t, AstGuard::MAX_NESTING_DEPTH, &(), &mut services);
        let rules = CppRules { path: file_path, repo_id, packages, services: &services.items };
        let mut found = CppFound { package: text::copy(packages.file.as_str()), nodes: Vec::new() };
        assert(found@ == (CppFoundView { package: packages@.file, nodes: Seq::empty() }));
        syntax::run_tree(&rules, t, AstGuard::MAX_NESTING_DEPTH, &(), &mut found);
        let mut includes = NameList::new();
        syntax::run_tree(&IncludeRules, t, AstGuard::MAX_NESTING_DEPTH, &(), &mut includes);
        let dependencies = Self::links(t, &found.nodes, &includes.items);
        let index = FileIndex {
            nodes: found.nodes,
            dependencies,
            producers: Vec::new(),
            consumers: Vec::new(),
            rpc_calls: Vec::new(),
            parse_failed: false,
        };
        assert(index@ == cpp_index(t@, file_path@, repo_id, packages@));
        index
    }

    /// The links from declarations to the included headers.
    fn links(t: &SyntaxTree, nodes: &Vec<ContractNode>, includes: &Vec<String>) -> (r: Vec<(usize, String)>)
        ensures
            model::links_view(r@) == include_links(text::lines(t@.src), model::nodes_view(nodes@), text::strings(includes@), nodes@.len() as int),
    {
        let ls = text::lines_of(t.source());
        let ghost lv = text::texts(ls@);
        let ghost nv = model::nodes_view(nodes@);
        let ghost iv = text::strings(includes@);
        let mut out: Vec<(usize, String)> = Vec::new();
        let mut n: usize = 0;
        assert(model::links_view(out@) == include_links(lv, nv, iv, 0));
        while n < nodes.len()
            invariant
                0 <= n <= nodes@.len(),
                lv == text::texts(ls@),
                nv == model::nodes_view(nodes@),
                iv == text::strings(includes@),
                model::links_view(out@) == include_links(lv, nv, iv, n as int),
            decreases nodes@.len() - n,
        {
            let ghost before = model::links_view(out@);
            assert(nv[n as int] == nodes@[n as int]@);
            let mut j: usize = 0;
            assert(before + node_links(lv, nv[n as int], n as int, iv.take(0)) == before);
            while j < includes.len()
                invariant
                    0 <= j <= includes@.len(),
                    n < nodes@.len(),
                    nv[n as int] == nodes@[n as int]@,
                    lv == text::texts(ls@),
                    iv == text::strings(includes@),
                    model::links_view(out@) == before + node_links(lv, nv[n as int], n as int, iv.take(j as int)),
                decreases includes@.len() - j,
            {
                proof {
                    syntax::lemma_take_step(iv, j as int);
                    assert(iv[j as int] == includes@[j as int]@);
                }
                let target = text::chars_of(includes[j].as_str());
                if common::used_in(&ls, &nodes[n], target.as_slice()) {
                    let ghost rest = node_links(lv, nv[n as int], n as int, iv.take(j as int));
                    model::push_link(&mut out, n, text::copy(includes[j].as_str()));
                    assert(before + rest.push((n as int, target@)) == (before + rest).push((n as int, target@)));
                }
                j += 1;
            }
            assert(iv.take(j as int) == iv);
            n += 1;
        }
        out
    }

    fn is_definition(t: &SyntaxTree, i: usize) -> (r: bool)
        requires
            t@.valid(i as int),
        ensures
            r == is_class_definition(t@, i as int),
    {
        (t.kind_is(i, "class_specifier") || t.kind_is(i, "struct_specifier")) && t.field(i, "body").is_some()
    }

    /// Whether a class extends `::grpc::Service`.
    fn has_grpc_service_base(t: &SyntaxTree, i: usize) -> (r: bool)
        requires
            t@.valid(i as int),
        ensures
            r == has_grpc_base(t@, i as int),
    {
        let ks = t.children(i);
        let ghost kv = syntax::ints(ks@);
        let mut j: usize = 0;
        while j < ks.len()
            invariant
                0 <= j <= ks@.len(),
                kv == syntax::ints(ks@),
                kv == t@.children(i as int),
                forall|j: int| 0 <= j < ks@.len() ==> t@.valid(#[trigger] ks@[j] as int),
                forall|m: int| 0 <= m < j ==> !is_grpc_base(t@, #[trigger] kv[m]),
            decreases ks@.len() - j,
        {
            let named = match t.text(ks[j]) {
                Some(s) => text::has_lit(s, "grpc::Service"),
                None => false,
            };
            assert(kv[j as int] == ks@[j as int] as int);
            if t.kind_is(ks[j], "base_class_clause") && named {
                assert(is_grpc_base(t@, t@.children(i as int)[j as int]));
                return true;
            }
            j += 1;
        }
        false
    }

    /// The header that node `i` includes from the project, by its stem.
    fn included(t: &SyntaxTree, i: usize) -> (r: Option<String>)
        requires
            t@.valid(i as int),
        ensures
            text::opt_string(r) == include_target(t@, i as int),
    {
        if !t.kind_is(i, "preproc_include") {
            return None;
        }
        let p = match t.field(i, "path") {
            Some(p) => p,
            None => return None,
        };
        let s = match t.text(p) {
            Some(s) => s,
            None => return None,
        };
        if t.kind_is(p, "string_literal") {
            Some(Self::stem(text::trimmed_of(s, "\"")))
        } else if t.kind_is(p, "system_lib_string") {
            let inner = text::trimmed_of(text::trimmed_of(s, "<"), ">");
            if text::char_position(inner, '/').is_some() || text::ends(inner, ".hpp") || text::ends(inner, ".hh") || text::ends(inner, ".hxx") {
                Some(Self::stem(inner))
            } else {
                None
            }
        } else {
            None
        }
    }

    fn stem(s: &[char]) -> (r: String)
        ensures
            r@ == header_stem(s@),
    {
        match paths::stem(s) {
            Some(x) => text::string_of(x),
            None => text::string_of(s),
        }
    }

    fn wraps(t: &SyntaxTree, n: usize) -> (r: bool)
        requires
            t@.valid(n as int),
        ensures
            r == is_wrapper(t@.kind(n as int)),
    {
        t.kind_is(n, "function_declarator") || t.kind_is(n, "pointer_declarator") || t.kind_is(n, "reference_declarator") || t.kind_is(
            n,
            "parenthesized_declarator",
        )
    }

    /// The declarator that a wrapper wraps.
    fn inner_declarator(t: &SyntaxTree, n: usize) -> (r: Option<usize>)
        requires
            t@.valid(n as int),
        ensures
            text::opt_int(r) == wrapped(t@, n as int),
            r matches Some(k) ==> t@.valid(k as int) && n < k,
    {
        match t.field(n, "declarator") {
            Some(k) => Some(k),
            None => t.named_child(n, 0),
        }
    }

    /// The scope of a `Foo::Method` declarator.
    fn declarator_qualifier(t: &SyntaxTree, n: usize) -> (r: Option<&[char]>)
        requires
            t@.valid(n as int),
        ensures
            text::opt_text(r) == qualifier(t@, n as int),
        decreases t@.rows.len() - n,
    {
        if t.kind_is(n, "qualified_identifier") {
            t.field_text(n, "scope")
        } else if Self::wraps(t, n) {
            match Self::inner_declarator(t, n) {
                Some(m) => Self::declarator_qualifier(t, m),
                None => None,
            }
        } else if t.kind_is(n, "template_function") {
            match t.field(n, "name") {
                Some(m) => Self::declarator_qualifier(t, m),
                None => None,
            }
        } else {
            None
        }
    }

    /// The name that a declarator declares.
    fn declarator_name(t: &SyntaxTree, n: usize) -> (r: Option<&[char]>)
        requires
            t@.valid(n as int),
        ensures
            text::opt_text(r) == declared_name(t@, n as int),
        decreases t@.rows.len() - n,
    {
        if t.kind_is(n, "identifier") || t.kind_is(n, "field_identifier") || t.kind_is(n, "destructor_name") || t.kind_is(n, "operator_name") {
            t.text(n)
        } else if Self::wraps(t, n) {
            match Self::inner_declarator(t, n) {
                Some(m) => Self::declarator_name(t, m),
                None => None,
            }
        } else if t.kind_is(n, "qualified_identifier") || t.kind_is(n, "template_function") {
            match t.field(n, "name") {
                Some(m) => Self::declarator_name(t, m),
                None => None,
            }
        } else {
            None
        }
    }

    /// Whether a member of a class declares a method without a body.
    fn declares_method(t: &SyntaxTree, k: usize) -> (r: bool)
        requires
            t@.valid(k as int),
        ensures
            r == is_method_declaration(t@, k as int),
    {
        t.kind_is(k, "field_declaration") && match t.field(k, "declarator") {
            Some(d) => t.kind_is(d, "function_declarator"),
            None => false,
        }
    }

    /// Whether a function is defaulted or deleted.
    fn is_special_member(t: &SyntaxTree, k: usize) -> (r: bool)
        requires
            t@.valid(k as int),
        ensures
            r == is_special(t@, k as int),
    {
        let ks = t.children(k);
        let ghost kv = syntax::ints(ks@);
        let mut j: usize = 0;
        while j < ks.len()
            invariant
                0 <= j <= ks@.len(),
                kv == syntax::ints(ks@),
                kv == t@.children(k as int),
                forall|j: int| 0 <= j < ks@.len() ==> t@.valid(#[trigger] ks@[j] as int),
                forall|m: int| 0 <= m < j ==> t@.kind(#[trigger] kv[m]) != "default_method_clause"@ && t@.kind(kv[m]) != "delete_method_clause"@,
            decreases ks@.len() - j,
        {
            assert(kv[j as int] == ks@[j as int] as int);
            if t.kind_is(ks[j], "default_method_clause") || t.kind_is(ks[j], "delete_method_clause") {
                assert(t@.kind(t@.children(k as int)[j as int]) == "default_method_clause"@ || t@.kind(t@.children(k as int)[j as int]) == "delete_method_clause"@);
                return true;
            }
            j += 1;
        }
        false
    }

    /// Whether every method of a class is pure virtual. Defaulted and deleted special
    /// members do not count.
    fn is_pure_interface(t: &SyntaxTree, i: usize) -> (r: bool)
        requires
            t@.valid(i as int),
        ensures
            r == is_interface(t@, i as int),
    {
        let body = match t.field(i, "body") {
            Some(b) => b,
            None => return false,
        };
        let ks = t.children(body);
        let ghost kv = syntax::ints(ks@);
        let mut saw_method = false;
        let mut j: usize = 0;
        while j < ks.len()
            invariant
                0 <= j <= ks@.len(),
                kv == syntax::ints(ks@),
                kv == t@.children(body as int),
                t@.field(i as int, "body"@) == Some(body as int),
                forall|j: int| 0 <= j < ks@.len() ==> t@.valid(#[trigger] ks@[j] as int),
                forall|m: int| 0 <= m < j ==> is_pure_member(t@, #[trigger] kv[m]),
                saw_method == exists|m: int| 0 <= m < j && is_method_declaration(t@, #[trigger] kv[m]),
            decreases ks@.len() - j,
        {
            let k = ks[j];
            assert(kv[j as int] == k as int);
            let method = Self::declares_method(t, k);
            if method && t.field(k, "default_value").is_none() {
                assert(!is_pure_member(t@, kv[j as int]));
                return false;
            }
            if t.kind_is(k, "function_definition") && !Self::is_special_member(t, k) {
                assert(!is_pure_member(t@, kv[j as int]));
                return false;
            }
            assert(is_pure_member(t@, kv[j as int]));
            if method {
                assert(is_method_declaration(t@, kv[j as int]));
                saw_method = true;
            }
            j += 1;
        }
        saw_method
    }

    /// What a function is.
    fn kind_of_function(t: &SyntaxTree, i: usize, name: &[char], services: &Vec<String>) -> (r: NodeKind)
        requires
            t@.valid(i as int),
        ensures
            r == function_kind(t@, i as int, name@, text::strings(services@)),
    {
        let serves = match t.field(i, "declarator") {
            Some(d) => match Self::declarator_qualifier(t, d) {
                Some(q) => model::has_name(services, q),
                None => false,
            },
            None => false,
        };
        if serves {
            NodeKind::GrpcMethod
        } else if text::begins(name, "Handle") || text::begins(name, "handle") || text::ends(name, "Handler") {
            NodeKind::HttpEndpoint
        } else {
            NodeKind::ServiceClass
        }
    }

    /// Takes in node `i`.
    fn visit_node(t: &SyntaxTree, i: usize, path: &str, repo_id: RepoId, packages: &ServicePackages, services: &Vec<String>, o: &mut CppFound)
        requires
            t@.valid(i as int),
        ensures
            final(o)@ == cpp_step(t@, i as int, path@, repo_id, packages@, text::strings(services@), old(o)@),
    {
        if t.kind_is(i, "namespace_definition") {
            match t.field_text(i, "name") {
                Some(name) => {
                    o.package = packages.package_for(name);
                },
                None => {},
            }
        } else if t.kind_is(i, "class_specifier") || t.kind_is(i, "struct_specifier") {
            if t.field(i, "body").is_some() {
                match t.field_text(i, "name") {
                    Some(s) => {
                        let name = text::string_of(s);
                        let kind = if Self::has_grpc_service_base(t, i) {
                            NodeKind::GrpcService
                        } else if Self::is_pure_interface(t, i) {
                            NodeKind::Interface
                        } else {
                            NodeKind::ServiceClass
                        };
                        let signature = text::string_or(t.head(i), name.as_str());
                        let n = model::declare(t, i, path, repo_id, o.package.as_str(), name, kind, signature);
                        model::push_node(&mut o.nodes, n);
                    },
                    None => {},
                }
            }
        } else if t.kind_is(i, "function_definition") {
            match t.field(i, "declarator") {
                Some(d) => match Self::declarator_name(t, d) {
                    Some(s) => if s.len() == 0 || s[0] != '~' {
                        let name = text::string_of(s);
                        let kind = Self::kind_of_function(t, i, s, services);
                        let signature = text::string_or(t.head(i), name.as_str());
                        let n = model::declare(t, i, path, repo_id, o.package.as_str(), name, kind, signature);
                        model::push_node(&mut o.nodes, n);
                    },
                    None => {},
                },
                None => {},
            }
        }
    }
}

} // verus!
