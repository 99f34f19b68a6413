//! Java classes, annotated methods, imports and Kafka topics.
use vstd::prelude::*;
use crate::guard::AstGuard;
use crate::index;
use crate::languages::common;
use crate::model;
use crate::model::{ContractNode, ContractNodeView, NodeKind, PackagesView, RepoId, ServicePackages};
use crate::syntax;
use crate::syntax::{SyntaxTree, TreeRules, TreeView};
use crate::text;

verus! {

/// Java extractor.
pub struct JavaExtractor;

/// An import: the identifier to look for, what it brings in, and whether it counts as used
/// everywhere in the file.
pub struct JavaImport {
    pub symbol: String,
    pub target: String,
    pub always: bool,
}

/// An import, as a mathematical value.
#[verifier::ext_equal]
pub struct JavaImportView {
    pub symbol: Seq<char>,
    pub target: Seq<char>,
    pub always: bool,
}

impl View for JavaImport {
    type V = JavaImportView;

    open spec fn view(&self) -> JavaImportView {
        JavaImportView { symbol: self.symbol@, target: self.target@, always: self.always }
    }
}

/// The imports that a walk gathers.
pub struct ImportList {
    pub items: Vec<JavaImport>,
}

/// Imports, each by its view.
pub open spec fn imports_view(v: Seq<JavaImport>) -> Seq<JavaImportView> {
    v.map_values(|x: JavaImport| x@)
}

impl View for ImportList {
    type V = Seq<JavaImportView>;

    open spec fn view(&self) -> Seq<JavaImportView> {
        imports_view(self.items@)
    }
}

/// The text of an import declaration without the keyword and the semicolon.
pub open spec fn import_clause(s: Seq<char>) -> Seq<char> {
    text::trim(text::trim_back(text::trim(text::strip_repeated(s, "import"@)), ";"@))
}

/// The import that a declaration makes: `a.b.C` brings in itself and is looked for as `C`;
/// a static `a.b.C.m` brings in `a.b.C` and is looked for as `m`; `a.b.*` brings in `a.b`
/// and counts as used everywhere.
pub open spec fn import_made(s: Seq<char>) -> Option<JavaImportView> {
    let clause = import_clause(s);
    let is_static = text::starts_with(clause, "static"@);
    let clean = if is_static {
        text::trim(text::strip_repeated(clause, "static"@))
    } else {
        clause
    };
    match text::strip_suffix(clean, ".*"@) {
        Some(pkg) => Some(JavaImportView { symbol: ""@, target: pkg, always: true }),
        None => match text::rindex(clean, '.') {
            Some(k) => Some(
                JavaImportView {
                    symbol: clean.skip(k + 1),
                    target: if is_static {
                        clean.take(k)
                    } else {
                        clean
                    },
                    always: false,
                },
            ),
            None => if !is_static && clean.len() > 0 {
                Some(JavaImportView { symbol: clean, target: clean, always: false })
            } else {
                None
            },
        },
    }
}

/// A walk that gathers the imports of a file.
pub struct ImportRules;

impl View for ImportRules {
    type V = ();

    open spec fn view(&self) -> () {
        ()
    }
}

impl TreeRules for ImportRules {
    type Context = ();

    type Output = ImportList;

    open spec fn on_node(rules: (), t: TreeView, parent: Option<int>, i: int, c: (), o: Seq<JavaImportView>) -> (Seq<JavaImportView>, Option<()>) {
        if t.kind(i) == "import_declaration"@ {
            (
                match t.text(i) {
                    Some(s) => model::with(o, import_made(s)),
                    None => o,
                },
                None,
            )
        } else {
            (o, Some(()))
        }
    }

    fn visit(&self, t: &SyntaxTree, parent: Option<usize>, i: usize, c: &(), o: &mut ImportList) -> (r: Option<()>) {
        if t.kind_is(i, "import_declaration") {
            match t.text(i) {
                Some(s) => match JavaExtractor::import_of(s) {
                    Some(x) => {
                        let ghost before = o.items@;
                        o.items.push(x);
                        assert(imports_view(o.items@) == imports_view(before).push(x@));
                        assert(o@ == old(o)@.push(x@));
                    },
                    None => {},
                },
                None => {},
            }
            None
        } else {
            Some(())
        }
    }
}

/// The imports of a file.
pub open spec fn java_imports(t: TreeView) -> Seq<JavaImportView> {
    syntax::walk_tree::<ImportRules>((), t, AstGuard::MAX_NESTING_DEPTH as int, (), Seq::empty())
}

/// Where the identifier that ends at `i` starts.
pub open spec fn identifier_start(s: Seq<char>, i: int) -> int
    decreases i,
{
    if 0 < i <= s.len() && text::in_identifier(s[i - 1]) {
        identifier_start(s, i - 1)
    } else {
        i
    }
}

/// The topic of a `.send(...)` call whose arguments start at `start`: a string literal in
/// first place.
pub open spec fn sent_topic(s: Seq<char>, start: int) -> Option<Seq<char>> {
    match text::closing(s, '(', ')', start, 1) {
        Some(end) => {
            let args = text::trim_front(s.subrange(start, end), text::WHITE_SPACE@);
            if args.len() > 0 && args[0] == '"' {
                match text::index(args.skip(1), '"') {
                    Some(q) => Some(args.skip(1).take(q)),
                    None => None,
                }
            } else {
                None
            }
        },
        None => None,
    }
}

/// The topic of the `.send(` at position `k`, if it is called on something named after
/// Kafka and gives one.
pub open spec fn topic_at(s: Seq<char>, k: int) -> Option<Seq<char>> {
    let receiver = s.subrange(identifier_start(s, k), k);
    if text::contains(text::unicode_lowercase(receiver), "kafka"@) {
        sent_topic(s, k + 6)
    } else {
        None
    }
}

/// The topic of the first of the calls that gives one.
pub open spec fn first_topic(s: Seq<char>, ks: Seq<int>) -> Option<Seq<char>>
    decreases ks.len(),
{
    if ks.len() == 0 {
        None
    } else {
        match topic_at(s, ks[0]) {
            Some(topic) => Some(topic),
            None => first_topic(s, ks.drop_first()),
        }
    }
}

/// The topic that a method sends to through a Kafka template: that of the first such call
/// with a literal in first place. ASCII case does not matter in `.send(`.
pub open spec fn produced_topic(s: Seq<char>) -> Option<Seq<char>> {
    first_topic(s, text::matches(text::lowered(s), ".send("@))
}

/// Whether the annotation stands at position `p` as a whole word.
pub open spec fn annotation_at(s: Seq<char>, needle: Seq<char>, p: int) -> bool {
    &&& text::at(s, needle, p)
    &&& p == 0 || !text::in_identifier(s[p - 1])
    &&& p + needle.len() >= s.len() || !text::in_identifier(s[p + needle.len()])
}

/// Whether the text holds the annotation as a whole word.
pub open spec fn annotated(s: Seq<char>, name: Seq<char>) -> bool {
    exists|p: int| annotation_at(s, "@"@ + name, p)
}

/// Whether a text is white space alone.
pub open spec fn all_white(s: Seq<char>) -> bool {
    forall|j: int| 0 <= j < s.len() ==> text::WHITE_SPACE@.contains(#[trigger] s[j])
}

/// The parenthesized text of the first occurrence of an annotation, with its parentheses.
pub open spec fn annotation_text(s: Seq<char>, name: Seq<char>) -> Option<Seq<char>> {
    match text::find(s, "@"@ + name) {
        Some(k) => {
            let rest = s.skip(k + 1 + name.len());
            match text::index(rest, '(') {
                Some(open) => if all_white(rest.take(open)) {
                    match text::closing(rest, '(', ')', open, 0) {
                        Some(end) => Some(rest.subrange(open, end + 1)),
                        None => None,
                    }
                } else {
                    None
                },
                None => None,
            }
        },
        None => None,
    }
}

/// What stands between the first pair of double quotes, where it is not empty.
pub open spec fn first_quoted(s: Seq<char>) -> Option<Seq<char>> {
    match text::index(s, '"') {
        Some(a) => match text::index(s.skip(a + 1), '"') {
            Some(b) => if b > 0 {
                Some(s.skip(a + 1).take(b))
            } else {
                None
            },
            None => None,
        },
        None => None,
    }
}

/// A text after white space, and after an equals sign and white space if that follows.
pub open spec fn after_equals(s: Seq<char>) -> Seq<char> {
    let rest = text::trim_front(s, text::WHITE_SPACE@);
    if rest.len() > 0 && rest[0] == '=' {
        text::trim_front(rest.skip(1), text::WHITE_SPACE@)
    } else {
        rest
    }
}

/// The value of a parameter of an annotation: the literal after its name, or else the one
/// literal of an annotation without named parameters.
pub open spec fn annotation_param(s: Seq<char>, param: Seq<char>) -> Option<Seq<char>> {
    let named = match text::find(s, param) {
        Some(k) => first_quoted(after_equals(s.skip(k + param.len()))),
        None => None,
    };
    match named {
        Some(v) => Some(v),
        None => match (text::index(s, '('), text::rindex(s, ')')) {
            (Some(a), Some(b)) => if a < b && text::index(s.subrange(a + 1, b), '=') is None {
                first_quoted(s.subrange(a + 1, b))
            } else {
                None
            },
            _ => None,
        },
    }
}

/// Whether the text holds an annotation of an HTTP route.
pub open spec fn has_route_annotation(s: Seq<char>) -> bool {
    ||| annotated(s, "GetMapping"@)
    ||| annotated(s, "PostMapping"@)
    ||| annotated(s, "PutMapping"@)
    ||| annotated(s, "DeleteMapping"@)
    ||| annotated(s, "PatchMapping"@)
    ||| annotated(s, "RequestMapping"@)
    ||| annotated(s, "GET"@)
    ||| annotated(s, "POST"@)
    ||| annotated(s, "PUT"@)
    ||| annotated(s, "DELETE"@)
    ||| annotated(s, "PATCH"@)
    ||| annotated(s, "Path"@)
    ||| annotated(s, "Get"@)
    ||| annotated(s, "Post"@)
    ||| annotated(s, "Put"@)
    ||| annotated(s, "Delete"@)
    ||| annotated(s, "Patch"@)
}

/// The topic that a `@KafkaListener` names.
pub open spec fn listener_topic(s: Seq<char>) -> Option<Seq<char>> {
    match annotation_text(s, "KafkaListener"@) {
        Some(a) => annotation_param(a, "topics"@),
        None => None,
    }
}

/// What a method is, and what it is named after if not after itself.
pub open spec fn method_role(s: Seq<char>) -> (NodeKind, Option<Seq<char>>) {
    if annotated(s, "KafkaListener"@) {
        (NodeKind::KafkaTopic, listener_topic(s))
    } else if has_route_annotation(s) {
        (NodeKind::HttpEndpoint, None)
    } else {
        (NodeKind::ServiceClass, None)
    }
}

/// The texts of the modifiers and annotations among the nodes, each followed by a space.
pub open spec fn modifier_text(t: TreeView, ks: Seq<int>) -> Seq<char>
    decreases ks.len(),
{
    if ks.len() == 0 {
        Seq::empty()
    } else {
        let rest = modifier_text(t, ks.drop_last());
        if t.kind(ks.last()) == "modifiers"@ || text::contains(t.kind(ks.last()), "annotation"@) {
            match t.text(ks.last()) {
                Some(s) => rest + s + " "@,
                None => rest,
            }
        } else {
            rest
        }
    }
}

/// The annotations of a method, or its whole text where it has none.
pub open spec fn method_annotations(t: TreeView, i: int) -> Seq<char> {
    let found = modifier_text(t, t.children(i));
    if found.len() == 0 {
        text::or(t.text(i), found)
    } else {
        found
    }
}

/// The first line of a text, trimmed; of a text without lines, nothing.
pub open spec fn opening(s: Seq<char>) -> Seq<char> {
    text::trim(text::or(text::first_line(s), ""@))
}

/// What a walk over a Java file gathers.
pub struct JavaFound {
    pub package: String,
    pub nodes: Vec<ContractNode>,
    pub producers: Vec<(usize, String)>,
}

/// What a walk over a Java file gathers, as a mathematical value.
#[verifier::ext_equal]
pub struct JavaFoundView {
    pub package: Seq<char>,
    pub nodes: Seq<ContractNodeView>,
    pub producers: Seq<(int, Seq<char>)>,
}

impl View for JavaFound {
    type V = JavaFoundView;

    open spec fn view(&self) -> JavaFoundView {
        JavaFoundView {
            package: self.package@,
            nodes: model::nodes_view(self.nodes@),
            producers: model::links_view(self.producers@),
        }
    }
}

/// The class or interface that node `i` declares.
pub open spec fn class_node(t: TreeView, i: int, path: Seq<char>, repo_id: RepoId, package: Seq<char>) -> ContractNodeView {
    let name = text::or(t.field_text(i, "name"@), "UnknownClass"@);
    let kind = if text::contains(text::or(t.text(i), ""@), "@GrpcService"@) {
        NodeKind::GrpcService
    } else if t.kind(i) == "interface_declaration"@ {
        NodeKind::Interface
    } else {
        NodeKind::ServiceClass
    };
    model::declared(t, i, path, repo_id, package, name, kind, "class "@ + name)
}

/// The method that node `i` declares.
pub open spec fn method_node(t: TreeView, i: int, path: Seq<char>, repo_id: RepoId, package: Seq<char>) -> ContractNodeView {
    let (kind, topic) = method_role(method_annotations(t, i));
    let name = text::or(topic, text::or(t.field_text(i, "name"@), "unknownMethod"@));
    let signature = match t.text(i) {
        Some(s) => Some(opening(s)),
        None => None,
    };
    ContractNodeView { signature, ..model::declared(t, i, path, repo_id, package, name, kind, ""@) }
}

/// What a walk has gathered after node `i`.
pub open spec fn java_step(t: TreeView, i: int, path: Seq<char>, repo_id: RepoId, packages: PackagesView, o: JavaFoundView) -> JavaFoundView {
    let k = t.kind(i);
    if k == "package_declaration"@ {
        match t.text(i) {
            Some(s) => JavaFoundView { package: packages.package_for(text::trim(text::trim_back(text::strip_repeated(s, "package "@), ";"@))), ..o },
            None => o,
        }
    } else if k == "class_declaration"@ || k == "interface_declaration"@ {
        JavaFoundView { nodes: o.nodes.push(class_node(t, i, path, repo_id, o.package)), ..o }
    } else if k == "method_declaration"@ {
        JavaFoundView {
            nodes: o.nodes.push(method_node(t, i, path, repo_id, o.package)),
            producers: match produced_topic(text::or(t.text(i), ""@)) {
                Some(topic) => o.producers.push((o.nodes.len() as int, topic)),
                None => o.producers,
            },
            ..o
        }
    } else {
        o
    }
}

/// What a walk over a Java file does at each node.
pub struct JavaRules<'a> {
    pub path: &'a str,
    pub repo_id: RepoId,
    pub packages: &'a ServicePackages,
}

impl<'a> View for JavaRules<'a> {
    type V = common::PackageRules;

    open spec fn view(&self) -> common::PackageRules {
        common::PackageRules { path: self.path@, repo_id: self.repo_id, packages: self.packages@ }
    }
}

impl<'a> TreeRules for JavaRules<'a> {
    type Context = ();

    type Output = JavaFound;

    open spec fn on_node(rules: common::PackageRules, t: TreeView, parent: Option<int>, i: int, c: (), o: JavaFoundView) -> (JavaFoundView, Option<()>) {
        (java_step(t, i, rules.path, rules.repo_id, rules.packages, o), Some(()))
    }

    fn visit(&self, t: &SyntaxTree, parent: Option<usize>, i: usize, c: &(), o: &mut JavaFound) -> (r: Option<()>) {
        JavaExtractor::visit_node(t, i, self.path, self.repo_id, self.packages, o);
        Some(())
    }
}

/// What the walk over a file gathers.
pub open spec fn java_found(t: TreeView, path: Seq<char>, repo_id: RepoId, packages: PackagesView) -> JavaFoundView {
    syntax::walk_tree::<JavaRules>(
        common::PackageRules { path, repo_id, packages },
        t,
        AstGuard::MAX_NESTING_DEPTH as int,
        (),
        JavaFoundView { package: ""@, nodes: Seq::empty(), producers: Seq::empty() },
    )
}

/// The links from declaration `k` to the imports that it uses.
pub open spec fn node_links(ls: Seq<Seq<char>>, n: ContractNodeView, k: int, imports: Seq<JavaImportView>) -> Seq<(int, Seq<char>)>
    decreases imports.len(),
{
    if imports.len() == 0 {
        Seq::empty()
    } else {
        let rest = node_links(ls, n, k, imports.drop_last());
        if imports.last().always || common::stands_in(ls, n, imports.last().symbol) {
            rest.push((k, imports.last().target))
        } else {
            rest
        }
    }
}

/// The links from the first `n` declarations to the imports that they use.
pub open spec fn import_links(ls: Seq<Seq<char>>, nodes: Seq<ContractNodeView>, imports: Seq<JavaImportView>, n: int) -> Seq<(int, Seq<char>)>
    decreases n,
{
    if n <= 0 {
        Seq::empty()
    } else {
        import_links(ls, nodes, imports, n - 1) + node_links(ls, nodes[n - 1], n - 1, imports)
    }
}

/// The links from the declarations of a file to the imports that they use.
pub open spec fn java_dependencies(t: TreeView, path: Seq<char>, repo_id: RepoId, packages: PackagesView) -> Seq<(int, Seq<char>)> {
    let nodes = java_found(t, path, repo_id, packages).nodes;
    import_links(text::lines(t.src), nodes, java_imports(t), nodes.len() as int)
}

proof fn lemma_node_links_below(ls: Seq<Seq<char>>, n: ContractNodeView, k: int, imports: Seq<JavaImportView>)
    requires
        0 <= k,
    ensures
        index::links_below(node_links(ls, n, k, imports), k + 1),
    decreases imports.len(),
{
    if imports.len() > 0 {
        lemma_node_links_below(ls, n, k, imports.drop_last());
    }
}

proof fn lemma_import_links_below(ls: Seq<Seq<char>>, nodes: Seq<ContractNodeView>, imports: Seq<JavaImportView>, n: int)
    requires
        0 <= n,
    ensures
        index::links_below(import_links(ls, nodes, imports, n), n),
    decreases n,
{
    if n > 0 {
        lemma_import_links_below(ls, nodes, imports, n - 1);
        lemma_node_links_below(ls, nodes[n - 1], n - 1, imports);
        let a = import_links(ls, nodes, imports, n - 1);
        let b = node_links(ls, nodes[n - 1], n - 1, imports);
        assert forall|j: int| 0 <= j < (a + b).len() implies 0 <= (#[trigger] (a + b)[j]).0 < n by {
            if j < a.len() {
                assert((a + b)[j] == a[j]);
            } else {
                assert((a + b)[j] == b[j - a.len()]);
            }
        }
    }
}

/// Every declaration of a file carries the file's path and its repository and has no number
/// yet, and its package is none or stands for a name that is declared.
pub proof fn law_java_nodes_belong(t: TreeView, path: Seq<char>, repo_id: RepoId, packages: PackagesView)
    ensures
        model::belong_among(java_found(t, path, repo_id, packages).nodes, path, repo_id, packages, ""@),
{
    let rules = common::PackageRules { path, repo_id, packages };
    let holds = |c: (), o: JavaFoundView|
        model::belong_among(o.nodes, path, repo_id, packages, ""@) && packages.gives(o.package, ""@);
    assert(syntax::keeps::<JavaRules>(rules, t, holds));
    syntax::lemma_walk_keeps::<JavaRules>(
        rules,
        t,
        None,
        0,
        t.rows.len() as int,
        0,
        AstGuard::MAX_NESTING_DEPTH as int,
        (),
        (),
        JavaFoundView { package: ""@, nodes: Seq::empty(), producers: Seq::empty() },
        holds,
    );
}

/// Every relation of a file starts from one of its declarations.
pub proof fn law_java_links(t: TreeView, path: Seq<char>, repo_id: RepoId, packages: PackagesView)
    ensures
        ({
            let n = java_found(t, path, repo_id, packages).nodes.len() as int;
            &&& index::links_below(java_dependencies(t, path, repo_id, packages), n)
            &&& index::links_below(java_found(t, path, repo_id, packages).producers, n)
        }),
{
    let rules = common::PackageRules { path, repo_id, packages };
    let holds = |c: (), o: JavaFoundView| index::links_below(o.producers, o.nodes.len() as int);
    let start = JavaFoundView { package: ""@, nodes: Seq::empty(), producers: Seq::empty() };
    assert(syntax::keeps::<JavaRules>(rules, t, holds));
    syntax::lemma_walk_keeps::<JavaRules>(
        rules,
        t,
        None,
        0,
        t.rows.len() as int,
        0,
        AstGuard::MAX_NESTING_DEPTH as int,
        (),
        (),
        start,
        holds,
    );
    let nodes = java_found(t, path, repo_id, packages).nodes;
    lemma_import_links_below(text::lines(t.src), nodes, java_imports(t), nodes.len() as int);
}

impl JavaExtractor {
    /// The declarations of a file.
    pub fn extract(file_path: &str, content: &str, repo_id: RepoId, packages: &ServicePackages, parser: &mut tree_sitter::Parser) -> (r: Vec<ContractNode>)
        ensures
            exists|done: bool|
                match #[trigger] syntax::outcome(*old(parser), content@, done) {
                    Some(t) => model::nodes_view(r@) == java_found(t, file_path@, repo_id, packages@).nodes,
                    None => r@.len() == 0,
                },
    {
        match syntax::parse(parser, content) {
            Some(tree) => {
                assert(syntax::outcome(*old(parser), content@, true) is Some);
                Self::extract_relations(file_path, content, repo_id, packages, &tree).0
            },
            None => {
                assert(syntax::outcome(*old(parser), content@, false) is None);
                Vec::new()
            },
        }
    }

    /// The declarations of a parsed file, the imports that each uses, and the topics that
    /// its methods send to.
    pub fn extract_relations(
        file_path: &str,
        content: &str,
        repo_id: RepoId,
        packages: &ServicePackages,
        tree: &tree_sitter::Tree,
    ) -> (r: (Vec<ContractNode>, Vec<(usize, String)>, Vec<(usize, String)>))
        ensures
            ({
                let t = TreeView { rows: syntax::tree_rows(*tree), src: content@ };
                let found = java_found(t, file_path@, repo_id, packages@);
                &&& model::nodes_view(r.0@) == found.nodes
                &&& model::links_view(r.1@) == java_dependencies(t, file_path@, repo_id, packages@)
                &&& model::links_view(r.2@) == found.producers
            }),
    {
        let t = SyntaxTree::of(tree, content);
        Self::extract_tree(file_path, repo_id, packages, &t)
    }

    /// The declarations of a syntax tree, the imports that each uses, and the topics that
    /// its methods send to.
    pub fn extract_tree(file_path: &str, repo_id: RepoId, packages: &ServicePackages, t: &SyntaxTree) -> (r: (Vec<ContractNode>, Vec<(usize, String)>, Vec<(usize, String)>))
        ensures
            model::nodes_view(r.0@) == java_found(t@, file_path@, repo_id, packages@).nodes,
            model::links_view(r.1@) == java_dependencies(t@, file_path@, repo_id, packages@),
            model::links_view(r.2@) == java_found(t@, file_path@, repo_id, packages@).producers,
    {
        let rules = JavaRules { path: file_path, repo_id, packages };
        let mut found = JavaFound { package: text::copy(""), nodes: Vec::new(), producers: Vec::new() };
        assert(found@ == (JavaFoundView { package: ""@, nodes: Seq::empty(), producers: Seq::empty() }));
        syntax::run_tree(&rules, t, AstGuard::MAX_NESTING_DEPTH, &(), &mut found);
        let mut imports = ImportList { items: Vec::new() };
        assert(imports@ == Seq::<JavaImportView>::empty());
        syntax::run_tree(&ImportRules, t, AstGuard::MAX_NESTING_DEPTH, &(), &mut imports);
        assert(model::nodes_view(found.nodes@).len() == found.nodes@.len());
        let dependencies = Self::links(t, &found.nodes, &imports.items);
        (found.nodes, dependencies, found.producers)
    }

    /// The links from declarations to the imports that they use.
    fn links(t: &SyntaxTree, nodes: &Vec<ContractNode>, imports: &Vec<JavaImport>) -> (r: Vec<(usize, String)>)
        ensures
            model::links_view(r@) == import_links(text::lines(t@.src), model::nodes_view(nodes@), imports_view(imports@), nodes@.len() as int),
    {
        let ls = text::lines_of(t.source());
        let ghost lv = text::texts(ls@);
        let ghost nv = model::nodes_view(nodes@);
        let ghost iv = imports_view(imports@);
        let mut out: Vec<(usize, String)> = Vec::new();
        let mut n: usize = 0;
        assert(model::links_view(out@) == import_links(lv, nv, iv, 0));
        while n < nodes.len()
            invariant
                0 <= n <= nodes@.len(),
                lv == text::texts(ls@),
                nv == model::nodes_view(nodes@),
                iv == imports_view(imports@),
                model::links_view(out@) == import_links(lv, nv, iv, n as int),
            decreases nodes@.len() - n,
        {
            let ghost before = model::links_view(out@);
            assert(nv[n as int] == nodes@[n as int]@);
            let mut j: usize = 0;
            assert(before + node_links(lv, nv[n as int], n as int, iv.take(0)) == before);
            while j < imports.len()
                invariant
                    0 <= j <= imports@.len(),
                    n < nodes@.len(),
                    nv[n as int] == nodes@[n as int]@,
                    lv == text::texts(ls@),
                    iv == imports_view(imports@),
                    model::links_view(out@) == before + node_links(lv, nv[n as int], n as int, iv.take(j as int)),
                decreases imports@.len() - j,
            {
                let imp = &imports[j];
                proof {
                    syntax::lemma_take_step(iv, j as int);
                    assert(iv[j as int] == imp@);
                }
                let symbol = text::chars_of(imp.symbol.as_str());
                if imp.always || common::used_in(&ls, &nodes[n], symbol.as_slice()) {
                    let ghost rest = node_links(lv, nv[n as int], n as int, iv.take(j as int));
                    model::push_link(&mut out, n, text::copy(imp.target.as_str()));
                    assert(before + rest.push((n as int, imp@.target)) == (before + rest).push((n as int, imp@.target)));
                }
                j += 1;
            }
            assert(iv.take(j as int) == iv);
            n += 1;
        }
        out
    }

    /// The import that a declaration makes.
    fn import_of(s: &[char]) -> (r: Option<JavaImport>)
        ensures
            syntax::opt_view(r) == import_made(s@),
    {
        let clause = text::trimmed(text::trimmed_back(text::trimmed(text::stripped_repeated(s, "import")), ";"));
        let is_static = text::begins(clause, "static");
        let clean = if is_static {
            text::trimmed(text::stripped_repeated(clause, "static"))
        } else {
            clause
        };
        match text::without_suffix(clean, ".*") {
            Some(pkg) => return Some(JavaImport { symbol: text::copy(""), target: text::string_of(pkg), always: true }),
            None => {},
        }
        match text::last_char_position(clean, '.') {
            Some(k) => {
                let target = if is_static {
                    text::string_of(text::until(clean, k))
                } else {
                    text::string_of(clean)
                };
                Some(JavaImport { symbol: text::string_of(text::from(clean, k + 1)), target, always: false })
            },
            None => if !is_static && clean.len() > 0 {
                Some(JavaImport { symbol: text::string_of(clean), target: text::string_of(clean), always: false })
            } else {
                None
            },
        }
    }

    /// The topic of a `.send(...)` call whose arguments start at `start`.
    fn topic_sent(s: &[char], start: usize) -> (r: Option<String>)
        requires
            start <= s@.len(),
        ensures
            text::opt_string(r) == sent_topic(s@, start as int),
    {
        let end = match text::closing_position(s, '(', ')', start, 1) {
            Some(e) => e,
            None => return None,
        };
        let args = text::trimmed_front(vstd::slice::slice_subrange(s, start, end), text::WHITE_SPACE);
        if args.len() == 0 || args[0] != '"' {
            return None;
        }
        let rest = text::from(args, 1);
        match text::char_position(rest, '"') {
            Some(q) => Some(text::string_of(text::until(rest, q))),
            None => None,
        }
    }

    /// Finds `<kafkaIdent>.send(<topic>, ...)` and gives back `<topic>` where it is a string
    /// literal in first place. The search stays inside the call's own parentheses.
    pub fn extract_kafka_producer_topic(text: &str) -> (r: Option<String>)
        ensures
            crate::text::opt_string(r) == produced_topic(text@),
    {
        let chars = text::chars_of(text);
        Self::topic_produced(chars.as_slice())
    }

    fn topic_produced(s: &[char]) -> (r: Option<String>)
        ensures
            text::opt_string(r) == produced_topic(s@),
    {
        let lower = text::to_lower(s);
        let ks = text::positions(lower.as_slice(), ".send(");
        let ghost kv = syntax::ints(ks@);
        proof {
            reveal_strlit(".send(");
        }
        let mut j: usize = 0;
        assert(kv.skip(0) == kv);
        while j < ks.len()
            invariant
                0 <= j <= ks@.len(),
                kv == syntax::ints(ks@),
                forall|j: int| 0 <= j < ks@.len() ==> #[trigger] ks@[j] + 6 <= s@.len() <= usize::MAX,
                produced_topic(s@) == first_topic(s@, kv.skip(j as int)),
            decreases ks@.len() - j,
        {
            proof {
                syntax::lemma_skip_step(kv, j as int);
                assert(kv[j as int] == ks@[j as int] as int);
            }
            let k = ks[j];
            let mut a: usize = k;
            while a > 0 && text::is_identifier_char(s[a - 1])
                invariant
                    a <= k <= s@.len(),
                    identifier_start(s@, k as int) == identifier_start(s@, a as int),
                decreases a,
            {
                a -= 1;
            }
            let receiver = text::string_of(vstd::slice::slice_subrange(s, a, k));
            let low = text::lowercase(receiver.as_str());
            let low_chars = text::chars_of(low.as_str());
            if text::has_lit(low_chars.as_slice(), "kafka") {
                match Self::topic_sent(s, k + 6) {
                    Some(topic) => return Some(topic),
                    None => {},
                }
            }
            j += 1;
        }
        None
    }

    /// Whether the text holds the annotation `@name` as a whole word.
    pub fn has_annotation(full_anno: &str, name: &str) -> (r: bool)
        ensures
            r == annotated(full_anno@, name@),
    {
        let chars = text::chars_of(full_anno);
        Self::is_annotated(chars.as_slice(), name)
    }

    pub(crate) fn is_annotated(s: &[char], name: &str) -> (r: bool)
        ensures
            r == annotated(s@, name@),
    {
        let mut needle = text::chars_of("@");
        let word = text::chars_of(name);
        text::extend(&mut needle, word.as_slice());
        let ghost nv = "@"@ + name@;
        let mut p: usize = 0;
        while p < s.len()
            invariant
                0 <= p <= s@.len(),
                needle@ == nv,
                nv == "@"@ + name@,
                forall|q: int| 0 <= q < p ==> !#[trigger] annotation_at(s@, nv, q),
            decreases s@.len() - p,
        {
            if text::stands_at(s, needle.as_slice(), p) {
                let before = p == 0 || !text::is_identifier_char(s[p - 1]);
                let end = p + needle.len();
                let after = end >= s.len() || !text::is_identifier_char(s[end]);
                if before && after {
                    assert(annotation_at(s@, nv, p as int));
                    return true;
                }
            }
            p += 1;
        }
        proof {
            reveal_strlit("@");
            assert forall|q: int| !annotation_at(s@, nv, q) by {}
        }
        false
    }

    /// The parenthesized text of `@name(...)`, with its parentheses, out of a text that may
    /// hold several annotations.
    pub fn extract_annotation_text(full_anno: &str, name: &str) -> (r: Option<String>)
        ensures
            text::opt_string(r) == annotation_text(full_anno@, name@),
    {
        let chars = text::chars_of(full_anno);
        match Self::text_of_annotation(chars.as_slice(), name) {
            Some(s) => Some(text::string_of(s)),
            None => None,
        }
    }

    /// Whether a text is white space alone.
    fn is_blank(s: &[char]) -> (r: bool)
        ensures
            r == all_white(s@),
    {
        let mut j: usize = 0;
        while j < s.len()
            invariant
                0 <= j <= s@.len(),
                forall|m: int| 0 <= m < j ==> text::WHITE_SPACE@.contains(#[trigger] s@[m]),
            decreases s@.len() - j,
        {
            if !text::is_white(s[j]) {
                assert(!text::WHITE_SPACE@.contains(s@[j as int]));
                return false;
            }
            j += 1;
        }
        true
    }

    pub(crate) fn text_of_annotation<'a>(s: &'a [char], name: &str) -> (r: Option<&'a [char]>)
        ensures
            text::opt_text(r) == annotation_text(s@, name@),
    {
        let mut needle = text::chars_of("@");
        let word = text::chars_of(name);
        text::extend(&mut needle, word.as_slice());
        proof {
            reveal_strlit("@");
        }
        let k = match text::position(s, needle.as_slice()) {
            Some(k) => k,
            None => return None,
        };
        let rest = text::from(s, k + needle.len());
        let open = match text::char_position(rest, '(') {
            Some(o) => o,
            None => return None,
        };
        if !Self::is_blank(text::until(rest, open)) {
            return None;
        }
        match text::closing_position(rest, '(', ')', open, 0) {
            Some(end) => Some(vstd::slice::slice_subrange(rest, open, end + 1)),
            None => None,
        }
    }

    /// What stands between the first pair of double quotes, where it is not empty.
    fn quoted_first(s: &[char]) -> (r: Option<String>)
        ensures
            text::opt_string(r) == first_quoted(s@),
    {
        let a = match text::char_position(s, '"') {
            Some(a) => a,
            None => return None,
        };
        let rest = text::from(s, a + 1);
        match text::char_position(rest, '"') {
            Some(b) => if b > 0 {
                Some(text::string_of(text::until(rest, b)))
            } else {
                None
            },
            None => None,
        }
    }

    /// The value of a parameter of an annotation, given its parenthesized text.
    pub fn extract_annotation_param(annotation: &str, param: &str) -> (r: Option<String>)
        ensures
            text::opt_string(r) == annotation_param(annotation@, param@),
    {
        let chars = text::chars_of(annotation);
        Self::param_of_annotation(chars.as_slice(), param)
    }

    fn param_of_annotation(s: &[char], param: &str) -> (r: Option<String>)
        ensures
            text::opt_string(r) == annotation_param(s@, param@),
    {
        match text::position_of(s, param) {
            Some(k) => {
                let rest = text::trimmed_front(text::from(s, k + text::length(param)), text::WHITE_SPACE);
                let after = if rest.len() > 0 && rest[0] == '=' {
                    text::trimmed_front(text::from(rest, 1), text::WHITE_SPACE)
                } else {
                    rest
                };
                match Self::quoted_first(after) {
                    Some(v) => return Some(v),
                    None => {},
                }
            },
            None => {},
        }
        let a = match text::char_position(s, '(') {
            Some(a) => a,
            None => return None,
        };
        let b = match text::last_char_position(s, ')') {
            Some(b) => b,
            None => return None,
        };
        if a >= b {
            return None;
        }
        let inside = vstd::slice::slice_subrange(s, a + 1, b);
        if text::char_position(inside, '=').is_some() {
            return None;
        }
        Self::quoted_first(inside)
    }

    fn is_route(s: &[char]) -> (r: bool)
        ensures
            r == has_route_annotation(s@),
    {
        Self::is_annotated(s, "GetMapping") || Self::is_annotated(s, "PostMapping") || Self::is_annotated(s, "PutMapping")
            || Self::is_annotated(s, "DeleteMapping") || Self::is_annotated(s, "PatchMapping") || Self::is_annotated(s, "RequestMapping")
            || Self::is_annotated(s, "GET") || Self::is_annotated(s, "POST") || Self::is_annotated(s, "PUT")
            || Self::is_annotated(s, "DELETE") || Self::is_annotated(s, "PATCH") || Self::is_annotated(s, "Path")
            || Self::is_annotated(s, "Get") || Self::is_annotated(s, "Post") || Self::is_annotated(s, "Put")
            || Self::is_annotated(s, "Delete") || Self::is_annotated(s, "Patch")
    }

    /// What a method is, and what it is named after if not after itself.
    fn role(s: &[char]) -> (r: (NodeKind, Option<String>))
        ensures
            r.0 == method_role(s@).0,
            text::opt_string(r.1) == method_role(s@).1,
    {
        if Self::is_annotated(s, "KafkaListener") {
            let topic = match Self::text_of_annotation(s, "KafkaListener") {
                Some(a) => Self::param_of_annotation(a, "topics"),
                None => None,
            };
            (NodeKind::KafkaTopic, topic)
        } else if Self::is_route(s) {
            (NodeKind::HttpEndpoint, None)
        } else {
            (NodeKind::ServiceClass, None)
        }
    }

    /// The annotations of a method, or its whole text where it has none.
    fn annotations(t: &SyntaxTree, i: usize) -> (r: Vec<char>)
        requires
            t@.valid(i as int),
        ensures
            r@ == method_annotations(t@, i as int),
    {
        let ks = t.children(i);
        let ghost kv = syntax::ints(ks@);
        let space = text::chars_of(" ");
        let mut out: Vec<char> = Vec::new();
        let mut j: usize = 0;
        assert(out@ == modifier_text(t@, kv.take(0)));
        while j < ks.len()
            invariant
                0 <= j <= ks@.len(),
                kv == syntax::ints(ks@),
                space@ == " "@,
                forall|j: int| 0 <= j < ks@.len() ==> t@.valid(#[trigger] ks@[j] as int),
                out@ == modifier_text(t@, kv.take(j as int)),
            decreases ks@.len() - j,
        {
            proof {
                syntax::lemma_take_step(kv, j as int);
            }
            let kind = text::chars_of(t.node(ks[j]).kind);
            assert(kind@ == t@.kind(ks@[j as int] as int));
            if text::is(kind.as_slice(), "modifiers") || text::has_lit(kind.as_slice(), "annotation") {
                match t.text(ks[j]) {
                    Some(s) => {
                        text::extend(&mut out, s);
                        text::extend(&mut out, space.as_slice());
                    },
                    None => {},
                }
            }
            j += 1;
        }
        assert(kv.take(j as int) == kv);
        if out.len() == 0 {
            match t.text(i) {
                Some(s) => {
                    text::extend(&mut out, s);
                    assert(out@ == s@);
                },
                None => {},
            }
        }
        out
    }

    /// Takes in node `i`.
    fn visit_node(t: &SyntaxTree, i: usize, path: &str, repo_id: RepoId, packages: &ServicePackages, o: &mut JavaFound)
        requires
            t@.valid(i as int),
        ensures
            final(o)@ == java_step(t@, i as int, path@, repo_id, packages@, old(o)@),
    {
        if t.kind_is(i, "package_declaration") {
            match t.text(i) {
                Some(s) => {
                    o.package = packages.package_for(text::trimmed(text::trimmed_back(text::stripped_repeated(s, "package "), ";")));
                },
                None => {},
            }
        } else if t.kind_is(i, "class_declaration") || t.kind_is(i, "interface_declaration") {
            let name = text::string_or(t.field_text(i, "name"), "UnknownClass");
            let body = text::string_or(t.text(i), "");
            let body_chars = text::chars_of(body.as_str());
            let kind = if text::has_lit(body_chars.as_slice(), "@GrpcService") {
                NodeKind::GrpcService
            } else if t.kind_is(i, "interface_declaration") {
                NodeKind::Interface
            } else {
                NodeKind::ServiceClass
            };
            let chars = text::chars_of(name.as_str());
            let signature = text::joined("class ", chars.as_slice());
            let n = model::declare(t, i, path, repo_id, o.package.as_str(), name, kind, signature);
            model::push_node(&mut o.nodes, n);
        } else if t.kind_is(i, "method_declaration") {
            let annotations = Self::annotations(t, i);
            let (kind, topic) = Self::role(annotations.as_slice());
            let name = match topic {
                Some(x) => x,
                None => text::string_or(t.field_text(i, "name"), "unknownMethod"),
            };
            let signature = match t.text(i) {
                Some(s) => {
                    let line = text::string_or(text::head_line(s), "");
                    let chars = text::chars_of(line.as_str());
                    Some(text::string_of(text::trimmed(chars.as_slice())))
                },
                None => None,
            };
            let body = text::string_or(t.text(i), "");
            let body_chars = text::chars_of(body.as_str());
            let sent = Self::topic_produced(body_chars.as_slice());
            let mut n = model::declare(t, i, path, repo_id, o.package.as_str(), name, kind, text::copy(""));
            n.signature = signature;
            assert(model::nodes_view(o.nodes@).len() == o.nodes@.len());
            let at = o.nodes.len();
            model::push_node(&mut o.nodes, n);
            match sent {
                Some(x) => model::push_link(&mut o.producers, at, x),
                None => {},
            }
        }
    }
}

} // verus!
