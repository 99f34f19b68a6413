//! Python declarations, imports, message topics and Celery tasks.
use vstd::prelude::*;
use crate::guard::AstGuard;
use crate::index;
use crate::languages::common;
use crate::model;
use crate::model::{ContractNode, ContractNodeView, NodeKind, RepoId};
use crate::paths;
use crate::syntax;
use crate::syntax::{SyntaxTree, TreeRules, TreeView};
use crate::text;

verus! {

/// Python extractor.
pub struct PythonExtractor;

/// Relations found beside the declarations: links from a declaration, by its place in the
/// list, to what it imports, produces or consumes.
#[derive(Debug)]
pub struct PythonRelations {
    pub dependencies: Vec<(usize, String)>,
    pub producers: Vec<(usize, String)>,
    pub consumers: Vec<(usize, String)>,
}

/// Relations found beside the declarations, as a mathematical value.
#[verifier::ext_equal]
pub struct PythonRelationsView {
    pub dependencies: Seq<(int, Seq<char>)>,
    pub producers: Seq<(int, Seq<char>)>,
    pub consumers: Seq<(int, Seq<char>)>,
}

impl View for PythonRelations {
    type V = PythonRelationsView;

    open spec fn view(&self) -> PythonRelationsView {
        PythonRelationsView {
            dependencies: model::links_view(self.dependencies@),
            producers: model::links_view(self.producers@),
            consumers: model::links_view(self.consumers@),
        }
    }
}

/// An import: what it brings in, what the code below refers to it by, and whether it
/// counts as used everywhere in the file.
pub struct ImportRef {
    pub target: String,
    pub search_text: String,
    pub module_like: bool,
}

/// An import, as a mathematical value.
#[verifier::ext_equal]
pub struct ImportRefView {
    pub target: Seq<char>,
    pub search_text: Seq<char>,
    pub module_like: bool,
}

impl View for ImportRef {
    type V = ImportRefView;

    open spec fn view(&self) -> ImportRefView {
        ImportRefView { target: self.target@, search_text: self.search_text@, module_like: self.module_like }
    }
}

/// Imports, each by its view.
pub open spec fn imports_view(v: Seq<ImportRef>) -> Seq<ImportRefView> {
    v.map_values(|x: ImportRef| x@)
}

/// What a walk over a Python file gathers.
pub struct PyFound {
    pub nodes: Vec<ContractNode>,
    pub imports: Vec<ImportRef>,
    pub producers: Vec<(usize, String)>,
    pub consumers: Vec<(usize, String)>,
}

/// What a walk over a Python file gathers, as a mathematical value.
#[verifier::ext_equal]
pub struct PyFoundView {
    pub nodes: Seq<ContractNodeView>,
    pub imports: Seq<ImportRefView>,
    pub producers: Seq<(int, Seq<char>)>,
    pub consumers: Seq<(int, Seq<char>)>,
}

impl View for PyFound {
    type V = PyFoundView;

    open spec fn view(&self) -> PyFoundView {
        PyFoundView {
            nodes: model::nodes_view(self.nodes@),
            imports: imports_view(self.imports@),
            producers: model::links_view(self.producers@),
            consumers: model::links_view(self.consumers@),
        }
    }
}

/// The declaration that a node stands in, by its place in the list.
pub struct Enclosing {
    pub at: Option<usize>,
}

impl View for Enclosing {
    type V = Option<int>;

    open spec fn view(&self) -> Option<int> {
        text::opt_int(self.at)
    }
}

/// The value of a string literal: what stands between its first quote and the last quote
/// of the same kind.
pub open spec fn literal_value(t: TreeView, n: int) -> Option<Seq<char>> {
    match t.text(n) {
        Some(raw) => {
            let s = text::trim(raw);
            match first_quote(s, 0) {
                Some(k) => {
                    let after = s.skip(k + 1);
                    match text::rindex(after, s[k]) {
                        Some(end) => Some(after.take(end)),
                        None => None,
                    }
                },
                None => None,
            }
        },
        None => None,
    }
}

/// The position of the first quote at or after `i`.
pub open spec fn first_quote(s: Seq<char>, i: int) -> Option<int>
    decreases s.len() - i,
{
    if i < 0 || i >= s.len() {
        None
    } else if s[i] == '\'' || s[i] == '"' {
        Some(i)
    } else {
        first_quote(s, i + 1)
    }
}

/// The assignment that a statement is, if it is one.
pub open spec fn assignment_of(t: TreeView, k: int) -> Option<int> {
    if t.kind(k) == "expression_statement"@ {
        match t.child(k, 0) {
            Some(a) => if t.kind(a) == "assignment"@ {
                Some(a)
            } else {
                None
            },
            None => None,
        }
    } else if t.kind(k) == "assignment"@ {
        Some(k)
    } else {
        None
    }
}

/// The literal that the first assignment to the name gives it. An assignment without both
/// sides ends the search.
pub open spec fn assigned(t: TreeView, ks: Seq<int>, name: Seq<char>) -> Option<Seq<char>>
    decreases ks.len(),
{
    if ks.len() == 0 {
        None
    } else {
        match assignment_of(t, ks[0]) {
            Some(a) => match (t.field(a, "left"@), t.field(a, "right"@)) {
                (Some(left), Some(right)) => match t.text(left) {
                    Some(s) => if text::trim(s) == name {
                        literal_value(t, right)
                    } else {
                        assigned(t, ks.drop_first(), name)
                    },
                    None => None,
                },
                _ => None,
            },
            None => assigned(t, ks.drop_first(), name),
        }
    }
}

/// What an expression is, as a string: a literal, or a name that the file assigns one.
pub open spec fn expression_value(t: TreeView, n: int) -> Option<Seq<char>> {
    if t.kind(n) == "string"@ {
        literal_value(t, n)
    } else if t.kind(n) == "identifier"@ || t.kind(n) == "attribute"@ {
        match t.text(n) {
            Some(s) => assigned(t, t.children(0), text::trim(s)),
            None => None,
        }
    } else {
        None
    }
}

/// Whether node `n` is an argument: named, and no comment.
pub open spec fn is_argument(t: TreeView, n: int) -> bool {
    t.named(n) && t.kind(n) != "comment"@
}

/// The value that a keyword argument gives the name.
pub open spec fn keyword_value(t: TreeView, n: int, name: Seq<char>) -> Option<Seq<char>> {
    if t.field_text(n, "name"@) == Some(name) {
        match t.field(n, "value"@) {
            Some(v) => expression_value(t, v),
            None => None,
        }
    } else {
        None
    }
}

/// The first positional argument's value, or else that of the first keyword argument of
/// the name that has one; `kw` is what was found so far.
pub open spec fn first_value(t: TreeView, ks: Seq<int>, name: Seq<char>, kw: Option<Seq<char>>) -> Option<Seq<char>>
    decreases ks.len(),
{
    if ks.len() == 0 {
        kw
    } else if !is_argument(t, ks[0]) {
        first_value(t, ks.drop_first(), name, kw)
    } else if t.kind(ks[0]) == "keyword_argument"@ {
        let next = match kw {
            Some(v) => Some(v),
            None => keyword_value(t, ks[0], name),
        };
        first_value(t, ks.drop_first(), name, next)
    } else {
        expression_value(t, ks[0])
    }
}

/// The values of the positional arguments that have one.
pub open spec fn positional_values(t: TreeView, ks: Seq<int>) -> Seq<Seq<char>>
    decreases ks.len(),
{
    if ks.len() == 0 {
        Seq::empty()
    } else if !is_argument(t, ks[0]) {
        positional_values(t, ks.drop_first())
    } else if t.kind(ks[0]) == "keyword_argument"@ {
        Seq::empty()
    } else {
        let rest = positional_values(t, ks.drop_first());
        match expression_value(t, ks[0]) {
            Some(v) => seq![v] + rest,
            None => rest,
        }
    }
}

/// The values of the named nodes that have one.
pub open spec fn item_values(t: TreeView, ks: Seq<int>) -> Seq<Seq<char>>
    decreases ks.len(),
{
    if ks.len() == 0 {
        Seq::empty()
    } else {
        let rest = item_values(t, ks.drop_last());
        model::with(rest, expression_value(t, ks.last()))
    }
}

/// The first argument of a call.
pub open spec fn first_argument(t: TreeView, args: int) -> Option<int> {
    let ks = t.children(args).filter(|k: int| is_argument(t, k));
    if ks.len() > 0 {
        Some(ks[0])
    } else {
        None
    }
}

/// The values of the items of the first argument where it is a list or a tuple, and its
/// own value otherwise.
pub open spec fn listed_values(t: TreeView, args: int) -> Seq<Seq<char>> {
    match first_argument(t, args) {
        Some(first) => if t.kind(first) == "list"@ || t.kind(first) == "tuple"@ {
            item_values(t, t.named_children(first))
        } else {
            model::with(Seq::empty(), expression_value(t, first))
        },
        None => Seq::empty(),
    }
}

/// The method of `object.method(...)`.
pub open spec fn called_attribute(t: TreeView, i: int) -> Option<Seq<char>> {
    match t.field(i, "function"@) {
        Some(f) => if t.kind(f) == "attribute"@ {
            t.field_text(f, "attribute"@)
        } else {
            None
        },
        None => None,
    }
}

/// The task of `task.delay(...)`: the last segment of the object's path.
pub open spec fn delayed_task(t: TreeView, i: int) -> Option<Seq<char>> {
    match t.field(i, "function"@) {
        Some(f) => match t.field_text(f, "object"@) {
            Some(s) => if text::after_last(s, '.').len() > 0 {
                Some(text::after_last(s, '.'))
            } else {
                None
            },
            None => None,
        },
        None => None,
    }
}

/// What a call produces.
pub open spec fn produced(t: TreeView, i: int) -> Option<Seq<char>> {
    match (called_attribute(t, i), t.field(i, "arguments"@)) {
        (Some(m), Some(args)) => if m == "delay"@ || m == "apply_async"@ {
            delayed_task(t, i)
        } else if m == "produce"@ || m == "send"@ || m == "send_and_wait"@ || m == "publish"@ {
            first_value(t, t.children(args), "topic"@, None)
        } else {
            None
        },
        _ => None,
    }
}

/// What a call consumes.
pub open spec fn consumed(t: TreeView, i: int) -> Seq<Seq<char>> {
    match (t.field(i, "function"@), t.field(i, "arguments"@)) {
        (Some(f), Some(args)) => if t.kind(f) == "attribute"@ {
            if t.field_text(f, "attribute"@) == Some("subscribe"@) {
                listed_values(t, args)
            } else {
                Seq::empty()
            }
        } else if t.kind(f) == "identifier"@ && t.text(f) == Some("AIOKafkaConsumer"@) {
            positional_values(t, t.children(args))
        } else {
            Seq::empty()
        },
        _ => Seq::empty(),
    }
}

/// Whether a decorator marks a Celery task.
pub open spec fn is_task_decorator(s: Seq<char>) -> bool {
    text::contains(s, "@task"@) || text::contains(s, "@celery"@) || text::contains(s, ".task"@)
}

/// The name that a Celery decorator gives its task: `name='...'`.
pub open spec fn task_name(s: Seq<char>) -> Option<Seq<char>> {
    match text::find(s, "name"@) {
        Some(k) => {
            let rest = s.skip(k + 4);
            match text::index(rest, '=') {
                Some(eq) => {
                    let after = text::trim_front(rest.skip(eq + 1), text::WHITE_SPACE@);
                    if after.len() > 0 && (after[0] == '\'' || after[0] == '"') {
                        match text::index(after.skip(1), after[0]) {
                            Some(end) => Some(after.skip(1).take(end)),
                            None => None,
                        }
                    } else {
                        None
                    }
                },
                None => None,
            }
        },
        None => None,
    }
}

/// What a function is, and the Celery task it is.
#[verifier::ext_equal]
pub struct FunctionRole {
    pub kind: NodeKind,
    pub task: Option<Seq<char>>,
}

/// The role of a function after one more decorator.
pub open spec fn decorated(t: TreeView, d: int, name: Seq<char>, role: FunctionRole) -> FunctionRole {
    match t.text(d) {
        Some(s) => if is_task_decorator(s) {
            FunctionRole {
                kind: NodeKind::Queue,
                task: match task_name(s) {
                    Some(n) => Some(n),
                    None => Some(name),
                },
            }
        } else if text::contains(s, "@app."@) || text::contains(s, "@router."@) || text::contains(s, "@api_router."@) {
            FunctionRole { kind: NodeKind::HttpEndpoint, ..role }
        } else {
            role
        },
        None => role,
    }
}

/// The role of a function with the decorators, taken in order.
pub open spec fn function_role(t: TreeView, ds: Seq<int>, name: Seq<char>) -> FunctionRole
    decreases ds.len(),
{
    if ds.len() == 0 {
        FunctionRole { kind: NodeKind::ServiceClass, task: None }
    } else {
        decorated(t, ds.last(), name, function_role(t, ds.drop_last(), name))
    }
}

/// The siblings before node `i`.
pub open spec fn earlier(ks: Seq<int>, i: int) -> Seq<int>
    decreases ks.len(),
{
    if ks.len() == 0 || ks[0] == i {
        Seq::empty()
    } else {
        seq![ks[0]] + earlier(ks.drop_first(), i)
    }
}

/// The decorators just before the end of the list, from the last backwards, comments and
/// line ends aside.
pub open spec fn trailing_decorators(t: TreeView, ks: Seq<int>) -> Seq<int>
    decreases ks.len(),
{
    if ks.len() == 0 {
        Seq::empty()
    } else if t.kind(ks.last()) == "decorator"@ {
        seq![ks.last()] + trailing_decorators(t, ks.drop_last())
    } else if t.kind(ks.last()) == "comment"@ || t.kind(ks.last()) == "\n"@ {
        trailing_decorators(t, ks.drop_last())
    } else {
        Seq::empty()
    }
}

/// The decorators of a function: those of the definition it stands in, then those just
/// before it.
pub open spec fn decorators_of(t: TreeView, parent: Option<int>, i: int) -> Seq<int> {
    match parent {
        Some(p) => {
            let inside = if t.kind(p) == "decorated_definition"@ {
                t.of_kind(t.children(p), "decorator"@)
            } else {
                Seq::empty()
            };
            inside + trailing_decorators(t, earlier(t.children(p), i))
        },
        None => Seq::empty(),
    }
}

/// The import that a name in an import statement makes.
pub open spec fn name_import(t: TreeView, n: int, module_like: bool) -> Option<ImportRefView> {
    if t.kind(n) == "dotted_name"@ {
        match t.text(n) {
            Some(s) => Some(ImportRefView { target: s, search_text: s, module_like }),
            None => None,
        }
    } else if t.kind(n) == "aliased_import"@ {
        match t.field_text(n, "name"@) {
            Some(s) => Some(ImportRefView { target: s, search_text: text::or(t.field_text(n, "alias"@), s), module_like }),
            None => None,
        }
    } else {
        None
    }
}

/// The imports that the names make.
pub open spec fn name_imports(t: TreeView, ks: Seq<int>, module_like: bool) -> Seq<ImportRefView>
    decreases ks.len(),
{
    if ks.len() == 0 {
        Seq::empty()
    } else {
        model::with(name_imports(t, ks.drop_last(), module_like), name_import(t, ks.last(), module_like))
    }
}

/// The import of the module in `from module import ...`.
pub open spec fn module_import(t: TreeView, i: int) -> Option<ImportRefView> {
    match t.field(i, "module_name"@) {
        Some(m) => if t.kind(m) == "relative_import"@ || t.kind(m) == "dotted_name"@ {
            match t.text(m) {
                Some(s) => Some(ImportRefView { target: s, search_text: s, module_like: true }),
                None => None,
            }
        } else {
            None
        },
        None => None,
    }
}

/// The imports that node `i` makes.
pub open spec fn imports_at(t: TreeView, i: int) -> Seq<ImportRefView> {
    if t.kind(i) == "import_statement"@ {
        name_imports(t, t.field_children(i, "name"@), true)
    } else if t.kind(i) == "import_from_statement"@ {
        model::with(Seq::empty(), module_import(t, i)) + name_imports(t, t.field_children(i, "name"@), false)
    } else {
        Seq::empty()
    }
}

/// Whether the file is a gRPC stub that a compiler generated.
pub open spec fn is_generated_stub(path: Seq<char>) -> bool {
    match paths::file_name(path) {
        Some(name) => text::ends_with(name, "_pb2_grpc.py"@),
        None => false,
    }
}

/// What a walk has gathered after node `i`, which stands in declaration `c`, and the
/// declaration that its children stand in.
pub open spec fn py_step(t: TreeView, parent: Option<int>, i: int, path: Seq<char>, repo_id: RepoId, package: Seq<char>, c: Option<int>, o: PyFoundView) -> (PyFoundView, Option<int>) {
    let k = t.kind(i);
    if k == "import_statement"@ || k == "import_from_statement"@ {
        (PyFoundView { imports: o.imports + imports_at(t, i), ..o }, c)
    } else if k == "class_definition"@ {
        let name = text::or(t.field_text(i, "name"@), "UnknownClass"@);
        let kind = if text::ends_with(name, "Servicer"@) && !is_generated_stub(path) {
            NodeKind::GrpcService
        } else {
            NodeKind::ServiceClass
        };
        let n = model::declared(t, i, path, repo_id, package, name, kind, text::or(t.head(i), "class "@ + name + ":"@));
        (PyFoundView { nodes: o.nodes.push(n), ..o }, Some(o.nodes.len() as int))
    } else if k == "function_definition"@ {
        let name = text::or(t.field_text(i, "name"@), "unknown_func"@);
        let role = function_role(t, decorators_of(t, parent, i), name);
        let n = model::declared(t, i, path, repo_id, package, name, role.kind, text::or(t.head(i), "def "@ + name + "():"@));
        (
            PyFoundView {
                nodes: o.nodes.push(n),
                consumers: match role.task {
                    Some(task) => o.consumers.push((o.nodes.len() as int, task)),
                    None => o.consumers,
                },
                ..o
            },
            Some(o.nodes.len() as int),
        )
    } else if k == "call"@ && o.nodes.len() > 0 {
        let at = match c {
            Some(x) => x,
            None => 0,
        };
        (
            PyFoundView {
                producers: match produced(t, i) {
                    Some(topic) => o.producers.push((at, topic)),
                    None => o.producers,
                },
                consumers: o.consumers + consumed(t, i).map_values(|topic: Seq<char>| (at, topic)),
                ..o
            },
            c,
        )
    } else {
        (o, c)
    }
}

/// What a walk over a Python file does at each node.
pub struct PyRules<'a> {
    pub path: &'a str,
    pub repo_id: RepoId,
    pub package: &'a str,
}

impl<'a> View for PyRules<'a> {
    type V = common::FileRules;

    open spec fn view(&self) -> common::FileRules {
        common::FileRules { path: self.path@, repo_id: self.repo_id, package: self.package@ }
    }
}

impl<'a> TreeRules for PyRules<'a> {
    type Context = Enclosing;

    type Output = PyFound;

    open spec fn on_node(rules: common::FileRules, t: TreeView, parent: Option<int>, i: int, c: Option<int>, o: PyFoundView) -> (PyFoundView, Option<Option<int>>) {
        let (after, inner) = py_step(t, parent, i, rules.path, rules.repo_id, rules.package, c, o);
        (after, Some(inner))
    }

    fn visit(&self, t: &SyntaxTree, parent: Option<usize>, i: usize, c: &Enclosing, o: &mut PyFound) -> (r: Option<Enclosing>) {
        Some(PythonExtractor::visit_node(t, parent, i, self.path, self.repo_id, self.package, c, o))
    }
}

/// What the walk over a file gathers.
pub open spec fn py_found(t: TreeView, path: Seq<char>, repo_id: RepoId, package: Seq<char>) -> PyFoundView {
    syntax::walk_tree::<PyRules>(
        common::FileRules { path, repo_id, package },
        t,
        AstGuard::MAX_NESTING_DEPTH as int,
        None,
        PyFoundView { nodes: Seq::empty(), imports: Seq::empty(), producers: Seq::empty(), consumers: Seq::empty() },
    )
}

/// The declaration that stands for a script without declarations of its own.
pub open spec fn script_node(t: TreeView, path: Seq<char>, repo_id: RepoId, package: Seq<char>) -> ContractNodeView {
    let stem = text::or(paths::file_stem(path), "module"@);
    let n = text::lines(t.src).len();
    ContractNodeView {
        id: 0,
        name: stem,
        kind: NodeKind::ServiceClass,
        file_path: path,
        line_start: 1,
        line_end: if n > 1 {
            n as int
        } else {
            1
        },
        package,
        repo_id,
        signature: Some("module "@ + stem),
        docstring: None,
    }
}

/// The declarations of a file: a script without any that holds more than white space is
/// one itself.
pub open spec fn py_nodes(t: TreeView, path: Seq<char>, repo_id: RepoId, package: Seq<char>) -> Seq<ContractNodeView> {
    let nodes = py_found(t, path, repo_id, package).nodes;
    if nodes.len() == 0 && text::trim(t.src).len() > 0 {
        seq![script_node(t, path, repo_id, package)]
    } else {
        nodes
    }
}

/// The links that imports give declaration `k`: each target once.
pub open spec fn node_links(ls: Seq<Seq<char>>, n: ContractNodeView, k: int, imports: Seq<ImportRefView>) -> Seq<(int, Seq<char>)>
    decreases imports.len(),
{
    if imports.len() == 0 {
        Seq::empty()
    } else {
        let rest = node_links(ls, n, k, imports.drop_last());
        let imp = imports.last();
        let used = imp.module_like || common::stands_in(ls, n, imp.search_text);
        if imp.target.len() > 0 && used && !rest.contains((k, imp.target)) {
            rest.push((k, imp.target))
        } else {
            rest
        }
    }
}

/// The links that imports give the first `n` declarations.
pub open spec fn import_links(ls: Seq<Seq<char>>, nodes: Seq<ContractNodeView>, imports: Seq<ImportRefView>, n: int) -> Seq<(int, Seq<char>)>
    decreases n,
{
    if n <= 0 {
        Seq::empty()
    } else {
        import_links(ls, nodes, imports, n - 1) + node_links(ls, nodes[n - 1], n - 1, imports)
    }
}

/// The declarations of a file and the relations found beside them.
pub open spec fn py_extract(t: TreeView, path: Seq<char>, repo_id: RepoId, package: Seq<char>) -> (Seq<ContractNodeView>, PythonRelationsView) {
    let found = py_found(t, path, repo_id, package);
    let nodes = py_nodes(t, path, repo_id, package);
    (
        nodes,
        PythonRelationsView {
            dependencies: import_links(text::lines(t.src), nodes, found.imports, nodes.len() as int),
            producers: found.producers,
            consumers: found.consumers,
        },
    )
}

proof fn lemma_node_links_below(ls: Seq<Seq<char>>, n: ContractNodeView, k: int, imports: Seq<ImportRefView>)
    requires
        0 <= k,
    ensures
        index::links_below(node_links(ls, n, k, imports), k + 1),
    decreases imports.len(),
{
    if imports.len() > 0 {
        lemma_node_links_below(ls, n, k, imports.drop_last());
    }
}

proof fn lemma_import_links_below(ls: Seq<Seq<char>>, nodes: Seq<ContractNodeView>, imports: Seq<ImportRefView>, n: int)
    requires
        0 <= n,
    ensures
        index::links_below(import_links(ls, nodes, imports, n), n),
    decreases n,
{
    if n > 0 {
        lemma_import_links_below(ls, nodes, imports, n - 1);
        lemma_node_links_below(ls, nodes[n - 1], n - 1, imports);
        let a = import_links(ls, nodes, imports, n - 1);
        let b = node_links(ls, nodes[n - 1], n - 1, imports);
        assert forall|j: int| 0 <= j < (a + b).len() implies 0 <= (#[trigger] (a + b)[j]).0 < n by {
            if j < a.len() {
                assert((a + b)[j] == a[j]);
            } else {
                assert((a + b)[j] == b[j - a.len()]);
            }
        }
    }
}

/// Every declaration of a file carries the file's path, its repository and the package that the
/// file is in, and has no number yet.
pub proof fn law_python_nodes_belong(t: TreeView, path: Seq<char>, repo_id: RepoId, package: Seq<char>)
    ensures
        model::belong(py_extract(t, path, repo_id, package).0, path, repo_id, package),
{
    let rules = common::FileRules { path, repo_id, package };
    let holds = |c: Option<int>, o: PyFoundView| model::belong(o.nodes, path, repo_id, package);
    assert(syntax::keeps::<PyRules>(rules, t, holds));
    syntax::lemma_walk_keeps::<PyRules>(
        rules,
        t,
        None,
        0,
        t.rows.len() as int,
        0,
        AstGuard::MAX_NESTING_DEPTH as int,
        None,
        None,
        PyFoundView { nodes: Seq::empty(), imports: Seq::empty(), producers: Seq::empty(), consumers: Seq::empty() },
        holds,
    );
}

/// Every relation of a file starts from one of its declarations.
pub proof fn law_python_links(t: TreeView, path: Seq<char>, repo_id: RepoId, package: Seq<char>)
    ensures
        ({
            let (nodes, relations) = py_extract(t, path, repo_id, package);
            &&& index::links_below(relations.dependencies, nodes.len() as int)
            &&& index::links_below(relations.producers, nodes.len() as int)
            &&& index::links_below(relations.consumers, nodes.len() as int)
        }),
{
    let rules = common::FileRules { path, repo_id, package };
    let holds = |c: Option<int>, o: PyFoundView|
        {
            let n = o.nodes.len() as int;
            &&& index::links_below(o.producers, n)
            &&& index::links_below(o.consumers, n)
            &&& (c matches Some(x) ==> 0 <= x < n)
        };
    let start = PyFoundView { nodes: Seq::empty(), imports: Seq::empty(), producers: Seq::empty(), consumers: Seq::empty() };
    assert(syntax::keeps::<PyRules>(rules, t, holds));
    syntax::lemma_walk_keeps::<PyRules>(
        rules,
        t,
        None,
        0,
        t.rows.len() as int,
        0,
        AstGuard::MAX_NESTING_DEPTH as int,
        None,
        None,
        start,
        holds,
    );
    let found = py_found(t, path, repo_id, package);
    let nodes = py_nodes(t, path, repo_id, package);
    lemma_import_links_below(text::lines(t.src), nodes, found.imports, nodes.len() as int);
}

impl PythonExtractor {
    /// The declarations of a file.
    pub fn extract(file_path: &str, content: &str, repo_id: RepoId, package: &str, parser: &mut tree_sitter::Parser) -> (r: Vec<ContractNode>)
        ensures
            exists|done: bool|
                match #[trigger] syntax::outcome(*old(parser), content@, done) {
                    Some(t) => model::nodes_view(r@) == py_extract(t, file_path@, repo_id, package@).0,
                    None => r@.len() == 0,
                },
    {
        match syntax::parse(parser, content) {
            Some(tree) => {
                assert(syntax::outcome(*old(parser), content@, true) is Some);
                Self::extract_with_relations(file_path, content, repo_id, package, &tree).0
            },
            None => {
                assert(syntax::outcome(*old(parser), content@, false) is None);
                Vec::new()
            },
        }
    }

    /// The declarations of a parsed file and the relations found beside them.
    pub fn extract_with_relations(file_path: &str, content: &str, repo_id: RepoId, package: &str, tree: &tree_sitter::Tree) -> (r: (Vec<ContractNode>, PythonRelations))
        ensures
            ({
                let (nodes, relations) = py_extract(TreeView { rows: syntax::tree_rows(*tree), src: content@ }, file_path@, repo_id, package@);
                &&& model::nodes_view(r.0@) == nodes
                &&& r.1@ == relations
            }),
    {
        let t = SyntaxTree::of(tree, content);
        Self::extract_tree(file_path, repo_id, package, &t)
    }

    /// The declarations of a syntax tree and the relations found beside them.
    pub fn extract_tree(file_path: &str, repo_id: RepoId, package: &str, t: &SyntaxTree) -> (r: (Vec<ContractNode>, PythonRelations))
        ensures
            model::nodes_view(r.0@) == py_extract(t@, file_path@, repo_id, package@).0,
            r.1@ == py_extract(t@, file_path@, repo_id, package@).1,
    {
        let rules = PyRules { path: file_path, repo_id, package };
        let mut found = PyFound { nodes: Vec::new(), imports: Vec::new(), producers: Vec::new(), consumers: Vec::new() };
        assert(found@ == (PyFoundView { nodes: Seq::empty(), imports: Seq::empty(), producers: Seq::empty(), consumers: Seq::empty() }));
        syntax::run_tree(&rules, t, AstGuard::MAX_NESTING_DEPTH, &Enclosing { at: None }, &mut found);
        let mut nodes = found.nodes;
        assert(model::nodes_view(nodes@).len() == nodes@.len());
        if nodes.len() == 0 && text::trimmed(t.source()).len() > 0 {
            let n = Self::script(t, file_path, repo_id, package);
            model::push_node(&mut nodes, n);
            assert(model::nodes_view(nodes@) == seq![n@]);
        }
        let dependencies = Self::resolve_import_dependencies(t, &nodes, &found.imports);
        (nodes, PythonRelations { dependencies, producers: found.producers, consumers: found.consumers })
    }

    /// The declaration that stands for a script without declarations of its own.
    fn script(t: &SyntaxTree, path: &str, repo_id: RepoId, package: &str) -> (r: ContractNode)
        ensures
            r@ == script_node(t@, path@, repo_id, package@),
    {
        let chars = text::chars_of(path);
        let name = text::string_or(paths::stem(chars.as_slice()), "module");
        let ls = text::lines_of(t.source());
        assert(text::texts(ls@).len() == ls@.len());
        let name_chars = text::chars_of(name.as_str());
        let signature = text::joined("module ", name_chars.as_slice());
        ContractNode {
            id: 0,
            name,
            kind: NodeKind::ServiceClass,
            file_path: text::copy(path),
            line_start: 1,
            line_end: if ls.len() > 1 {
                ls.len()
            } else {
                1
            },
            package: text::copy(package),
            repo_id,
            signature: Some(signature),
            docstring: None,
        }
    }

    /// Links each declaration to the imports that it uses, each target once.
    fn resolve_import_dependencies(t: &SyntaxTree, nodes: &Vec<ContractNode>, imports: &Vec<ImportRef>) -> (r: Vec<(usize, String)>)
        ensures
            model::links_view(r@) == import_links(text::lines(t@.src), model::nodes_view(nodes@), imports_view(imports@), nodes@.len() as int),
    {
        let ls = text::lines_of(t.source());
        let ghost lv = text::texts(ls@);
        let ghost nv = model::nodes_view(nodes@);
        let ghost iv = imports_view(imports@);
        let mut out: Vec<(usize, String)> = Vec::new();
        let mut n: usize = 0;
        assert(model::links_view(out@) == import_links(lv, nv, iv, 0));
        while n < nodes.len()
            invariant
                0 <= n <= nodes@.len(),
                lv == text::texts(ls@),
                nv == model::nodes_view(nodes@),
                iv == imports_view(imports@),
                model::links_view(out@) == import_links(lv, nv, iv, n as int),
            decreases nodes@.len() - n,
        {
            let mut more = Self::links_of(&ls, &nodes[n], n, imports);
            let ghost before = out@;
            let ghost added = more@;
            out.append(&mut more);
            proof {
                assert(nv[n as int] == nodes@[n as int]@);
                assert(model::links_view(out@) == model::links_view(before) + model::links_view(added));
            }
            n += 1;
        }
        out
    }

    /// The links that imports give declaration `k`.
    fn links_of(ls: &Vec<&[char]>, n: &ContractNode, k: usize, imports: &Vec<ImportRef>) -> (r: Vec<(usize, String)>)
        ensures
            model::links_view(r@) == node_links(text::texts(ls@), n@, k as int, imports_view(imports@)),
    {
        let ghost lv = text::texts(ls@);
        let ghost iv = imports_view(imports@);
        let mut out: Vec<(usize, String)> = Vec::new();
        let mut seen: Vec<String> = Vec::new();
        let mut j: usize = 0;
        assert(model::links_view(out@) == node_links(lv, n@, k as int, iv.take(0)));
        while j < imports.len()
            invariant
                0 <= j <= imports@.len(),
                lv == text::texts(ls@),
                iv == imports_view(imports@),
                model::links_view(out@) == node_links(lv, n@, k as int, iv.take(j as int)),
                model::links_view(out@) == text::strings(seen@).map_values(|s: Seq<char>| (k as int, s)),
            decreases imports@.len() - j,
        {
            let imp = &imports[j];
            proof {
                assert(iv[j as int] == imp@);
                syntax::lemma_take_step(iv, j as int);
            }
            let target = text::chars_of(imp.target.as_str());
            let search = text::chars_of(imp.search_text.as_str());
            if target.len() > 0 && (imp.module_like || common::used_in(ls, n, search.as_slice())) {
                let known = model::has_name(&seen, target.as_slice());
                proof {
                    let links = model::links_view(out@);
                    let sv = text::strings(seen@);
                    if known {
                        let m = choose|m: int| 0 <= m < sv.len() && sv[m] == target@;
                        assert(links[m] == (k as int, target@));
                    } else if links.contains((k as int, target@)) {
                        let m = choose|m: int| 0 <= m < links.len() && links[m] == (k as int, target@);
                        assert(sv[m] == target@);
                    }
                    assert(known == links.contains((k as int, target@)));
                }
                if !known {
                    let ghost sv = text::strings(seen@);
                    model::push_link(&mut out, k, text::copy(imp.target.as_str()));
                    model::push_string(&mut seen, text::copy(imp.target.as_str()));
                    assert(text::strings(seen@).map_values(|s: Seq<char>| (k as int, s)) == sv.map_values(|s: Seq<char>| (k as int, s)).push((k as int, target@)));
                }
            }
            j += 1;
        }
        assert(iv.take(j as int) == iv);
        out
    }

    /// Whether a decorator marks a Celery task.
    fn is_celery_task_decorator(s: &[char]) -> (r: bool)
        ensures
            r == is_task_decorator(s@),
    {
        text::has_lit(s, "@task") || text::has_lit(s, "@celery") || text::has_lit(s, ".task")
    }

    /// The name that a Celery decorator gives its task.
    fn celery_task_name_override(s: &[char]) -> (r: Option<String>)
        ensures
            text::opt_string(r) == task_name(s@),
    {
        let k = match text::position_of(s, "name") {
            Some(k) => k,
            None => return None,
        };
        proof {
            reveal_strlit("name");
        }
        let rest = text::from(s, k + 4);
        let eq = match text::char_position(rest, '=') {
            Some(e) => e,
            None => return None,
        };
        let after = text::trimmed_front(text::from(rest, eq + 1), text::WHITE_SPACE);
        if after.len() == 0 || (after[0] != '\'' && after[0] != '"') {
            return None;
        }
        let inside = text::from(after, 1);
        match text::char_position(inside, after[0]) {
            Some(end) => Some(text::string_of(text::until(inside, end))),
            None => None,
        }
    }

    /// The value of a string literal.
    fn string_literal_value(t: &SyntaxTree, n: usize) -> (r: Option<String>)
        requires
            t@.valid(n as int),
        ensures
            text::opt_string(r) == literal_value(t@, n as int),
    {
        let s = match t.text(n) {
            Some(raw) => text::trimmed(raw),
            None => return None,
        };
        let mut k: usize = 0;
        while k < s.len()
            invariant
                0 <= k <= s@.len(),
                t@.valid(n as int),
                t@.text(n as int) matches Some(raw) && s@ == text::trim(raw),
                first_quote(s@, 0) == first_quote(s@, k as int),
            decreases s@.len() - k,
        {
            if s[k] == '\'' || s[k] == '"' {
                let after = text::from(s, k + 1);
                return match text::last_char_position(after, s[k]) {
                    Some(end) => Some(text::string_of(text::until(after, end))),
                    None => None,
                };
            }
            k += 1;
        }
        None
    }

    /// The assignment that a statement is, if it is one.
    fn as_assignment(t: &SyntaxTree, k: usize) -> (r: Option<usize>)
        requires
            t@.valid(k as int),
        ensures
            text::opt_int(r) == assignment_of(t@, k as int),
            r matches Some(a) ==> t@.valid(a as int),
    {
        if t.kind_is(k, "expression_statement") {
            match t.child(k, 0) {
                Some(a) => if t.kind_is(a, "assignment") {
                    Some(a)
                } else {
                    None
                },
                None => None,
            }
        } else if t.kind_is(k, "assignment") {
            Some(k)
        } else {
            None
        }
    }

    /// The literal that the file assigns a name.
    fn find_assignment_in_root(t: &SyntaxTree, name: &[char]) -> (r: Option<String>)
        ensures
            text::opt_string(r) == assigned(t@, t@.children(0), name@),
    {
        let ks = t.top();
        let ghost kv = syntax::ints(ks@);
        let mut j: usize = 0;
        assert(kv.skip(0) == kv);
        while j < ks.len()
            invariant
                0 <= j <= ks@.len(),
                kv == syntax::ints(ks@),
                forall|j: int| 0 <= j < ks@.len() ==> t@.valid(#[trigger] ks@[j] as int),
                assigned(t@, t@.children(0), name@) == assigned(t@, kv.skip(j as int), name@),
            decreases ks@.len() - j,
        {
            proof {
                syntax::lemma_skip_step(kv, j as int);
            }
            match Self::as_assignment(t, ks[j]) {
                Some(a) => {
                    let left = match t.field(a, "left") {
                        Some(l) => l,
                        None => return None,
                    };
                    let right = match t.field(a, "right") {
                        Some(x) => x,
                        None => return None,
                    };
                    match t.text(left) {
                        Some(s) => if text::equal(text::trimmed(s), name) {
                            return Self::string_literal_value(t, right);
                        },
                        None => return None,
                    }
                },
                None => {},
            }
            j += 1;
        }
        None
    }

    /// What an expression is, as a string.
    fn resolve_expr_to_string(t: &SyntaxTree, n: usize) -> (r: Option<String>)
        requires
            t@.valid(n as int),
        ensures
            text::opt_string(r) == expression_value(t@, n as int),
    {
        if t.kind_is(n, "string") {
            return Self::string_literal_value(t, n);
        }
        if t.kind_is(n, "identifier") || t.kind_is(n, "attribute") {
            return match t.text(n) {
                Some(s) => Self::find_assignment_in_root(t, text::trimmed(s)),
                None => None,
            };
        }
        None
    }

    fn is_arg(t: &SyntaxTree, n: usize) -> (r: bool)
        requires
            t@.valid(n as int),
        ensures
            r == is_argument(t@, n as int),
    {
        t.named(n) && !t.kind_is(n, "comment")
    }

    /// The first positional argument's value, or else that of the keyword argument.
    fn first_arg_value(t: &SyntaxTree, args: usize, name: &str) -> (r: Option<String>)
        requires
            t@.valid(args as int),
        ensures
            text::opt_string(r) == first_value(t@, t@.children(args as int), name@, None),
    {
        let ks = t.children(args);
        let ghost kv = syntax::ints(ks@);
        let mut kw: Option<String> = None;
        let mut j: usize = 0;
        assert(kv.skip(0) == kv);
        while j < ks.len()
            invariant
                0 <= j <= ks@.len(),
                kv == syntax::ints(ks@),
                forall|j: int| 0 <= j < ks@.len() ==> t@.valid(#[trigger] ks@[j] as int),
                first_value(t@, t@.children(args as int), name@, None) == first_value(t@, kv.skip(j as int), name@, text::opt_string(kw)),
            decreases ks@.len() - j,
        {
            proof {
                syntax::lemma_skip_step(kv, j as int);
            }
            let k = ks[j];
            if Self::is_arg(t, k) {
                if t.kind_is(k, "keyword_argument") {
                    if kw.is_none() {
                        let named = match t.field_text(k, "name") {
                            Some(s) => text::is(s, name),
                            None => false,
                        };
                        if named {
                            match t.field(k, "value") {
                                Some(v) => {
                                    kw = Self::resolve_expr_to_string(t, v);
                                },
                                None => {},
                            }
                        }
                    }
                } else {
                    return Self::resolve_expr_to_string(t, k);
                }
            }
            j += 1;
        }
        kw
    }

    /// The values of the positional arguments that have one.
    fn positional_string_values(t: &SyntaxTree, args: usize) -> (r: Vec<String>)
        requires
            t@.valid(args as int),
        ensures
            text::strings(r@) == positional_values(t@, t@.children(args as int)),
    {
        let ks = t.children(args);
        let ghost kv = syntax::ints(ks@);
        let mut out: Vec<String> = Vec::new();
        let mut j: usize = 0;
        assert(kv.skip(0) == kv);
        assert(text::strings(out@) + positional_values(t@, kv) == positional_values(t@, kv));
        while j < ks.len()
            invariant
                0 <= j <= ks@.len(),
                kv == syntax::ints(ks@),
                forall|j: int| 0 <= j < ks@.len() ==> t@.valid(#[trigger] ks@[j] as int),
                text::strings(out@) + positional_values(t@, kv.skip(j as int)) == positional_values(t@, t@.children(args as int)),
            decreases ks@.len() - j,
        {
            proof {
                syntax::lemma_skip_step(kv, j as int);
            }
            let k = ks[j];
            if Self::is_arg(t, k) {
                if t.kind_is(k, "keyword_argument") {
                    assert(text::strings(out@) + Seq::<Seq<char>>::empty() == text::strings(out@));
                    return out;
                }
                match Self::resolve_expr_to_string(t, k) {
                    Some(v) => {
                        let ghost before = text::strings(out@);
                        let ghost rest = positional_values(t@, kv.skip(j + 1));
                        model::push_string(&mut out, v);
                        assert(before + (seq![v@] + rest) == before.push(v@) + rest);
                    },
                    None => {},
                }
            }
            j += 1;
        }
        assert(text::strings(out@) + Seq::<Seq<char>>::empty() == text::strings(out@));
        out
    }

    /// The values of the items of the first argument, or its own value.
    fn list_or_scalar_values(t: &SyntaxTree, args: usize) -> (r: Vec<String>)
        requires
            t@.valid(args as int),
        ensures
            text::strings(r@) == listed_values(t@, args as int),
    {
        let mut out: Vec<String> = Vec::new();
        assert(text::strings(out@) == Seq::<Seq<char>>::empty());
        let first = match Self::first_arg(t, args) {
            Some(f) => f,
            None => return out,
        };
        if t.kind_is(first, "list") || t.kind_is(first, "tuple") {
            let ks = t.named_children(first);
            let ghost kv = syntax::ints(ks@);
            let mut j: usize = 0;
            while j < ks.len()
                invariant
                    0 <= j <= ks@.len(),
                    kv == syntax::ints(ks@),
                    forall|j: int| 0 <= j < ks@.len() ==> t@.valid(#[trigger] ks@[j] as int),
                    text::strings(out@) == item_values(t@, kv.take(j as int)),
                decreases ks@.len() - j,
            {
                proof {
                    syntax::lemma_take_step(kv, j as int);
                }
                match Self::resolve_expr_to_string(t, ks[j]) {
                    Some(v) => model::push_string(&mut out, v),
                    None => {},
                }
                j += 1;
            }
            assert(kv.take(j as int) == kv);
        } else {
            match Self::resolve_expr_to_string(t, first) {
                Some(v) => model::push_string(&mut out, v),
                None => {},
            }
        }
        out
    }

    /// The first argument of a call.
    fn first_arg(t: &SyntaxTree, args: usize) -> (r: Option<usize>)
        requires
            t@.valid(args as int),
        ensures
            text::opt_int(r) == first_argument(t@, args as int),
            r matches Some(k) ==> t@.valid(k as int),
    {
        let ks = t.children(args);
        let ghost kv = syntax::ints(ks@);
        let ghost keep = |k: int| is_argument(t@, k);
        let mut j: usize = 0;
        assert(kv.take(0).filter(keep).len() == 0) by {
            reveal(Seq::filter);
        }
        while j < ks.len()
            invariant
                0 <= j <= ks@.len(),
                kv == syntax::ints(ks@),
                kv == t@.children(args as int),
                keep == |k: int| is_argument(t@, k),
                forall|j: int| 0 <= j < ks@.len() ==> t@.valid(#[trigger] ks@[j] as int),
                kv.take(j as int).filter(keep).len() == 0,
            decreases ks@.len() - j,
        {
            proof {
                syntax::lemma_filter_step(kv, j as int, keep);
            }
            if Self::is_arg(t, ks[j]) {
                proof {
                    syntax::lemma_filter_prefix(kv, j + 1, keep);
                    assert(kv.take(j + 1).filter(keep)[0] == ks@[j as int] as int);
                }
                return Some(ks[j]);
            }
            j += 1;
        }
        assert(kv.take(j as int) == kv);
        None
    }

    /// What a call produces.
    fn product(t: &SyntaxTree, i: usize) -> (r: Option<String>)
        requires
            t@.valid(i as int),
        ensures
            text::opt_string(r) == produced(t@, i as int),
    {
        let f = match t.field(i, "function") {
            Some(f) => f,
            None => return None,
        };
        let args = match t.field(i, "arguments") {
            Some(a) => a,
            None => return None,
        };
        if !t.kind_is(f, "attribute") {
            return None;
        }
        let m = match t.field_text(f, "attribute") {
            Some(m) => m,
            None => return None,
        };
        if text::is(m, "delay") || text::is(m, "apply_async") {
            match t.field_text(f, "object") {
                Some(s) => {
                    let task = text::tail_after(s, '.');
                    if task.len() > 0 {
                        Some(text::string_of(task))
                    } else {
                        None
                    }
                },
                None => None,
            }
        } else if text::is(m, "produce") || text::is(m, "send") || text::is(m, "send_and_wait") || text::is(m, "publish") {
            Self::first_arg_value(t, args, "topic")
        } else {
            None
        }
    }

    /// What a call consumes.
    fn consumption(t: &SyntaxTree, i: usize) -> (r: Vec<String>)
        requires
            t@.valid(i as int),
        ensures
            text::strings(r@) == consumed(t@, i as int),
    {
        let none: Vec<String> = Vec::new();
        assert(text::strings(none@) == Seq::<Seq<char>>::empty());
        let f = match t.field(i, "function") {
            Some(f) => f,
            None => return none,
        };
        let args = match t.field(i, "arguments") {
            Some(a) => a,
            None => return none,
        };
        if t.kind_is(f, "attribute") {
            let subscribes = match t.field_text(f, "attribute") {
                Some(m) => text::is(m, "subscribe"),
                None => false,
            };
            if subscribes {
                return Self::list_or_scalar_values(t, args);
            }
            return none;
        }
        let consumer = match t.text(f) {
            Some(s) => text::is(s, "AIOKafkaConsumer"),
            None => false,
        };
        if t.kind_is(f, "identifier") && consumer {
            return Self::positional_string_values(t, args);
        }
        none
    }

    /// Adds what a call produces and consumes, for the declaration that it stands in.
    fn detect_event_call(t: &SyntaxTree, i: usize, at: usize, o: &mut PyFound)
        requires
            t@.valid(i as int),
        ensures
            final(o)@ == (PyFoundView {
                producers: match produced(t@, i as int) {
                    Some(topic) => old(o)@.producers.push((at as int, topic)),
                    None => old(o)@.producers,
                },
                consumers: old(o)@.consumers + consumed(t@, i as int).map_values(|topic: Seq<char>| (at as int, topic)),
                ..old(o)@
            }),
    {
        let ghost start = o@;
        match Self::product(t, i) {
            Some(topic) => model::push_link(&mut o.producers, at, topic),
            None => {},
        }
        let ghost mid = o@;
        let topics = Self::consumption(t, i);
        let ghost tv = text::strings(topics@);
        let ghost tail = tv.map_values(|topic: Seq<char>| (at as int, topic));
        let mut j: usize = 0;
        assert(start.consumers + tail.take(0) == start.consumers);
        while j < topics.len()
            invariant
                0 <= j <= topics@.len(),
                tv == text::strings(topics@),
                tail == tv.map_values(|topic: Seq<char>| (at as int, topic)),
                o@ == (PyFoundView { consumers: start.consumers + tail.take(j as int), ..mid }),
            decreases topics@.len() - j,
        {
            model::push_link(&mut o.consumers, at, text::copy(topics[j].as_str()));
            proof {
                assert(tail[j as int] == (at as int, topics@[j as int]@));
                assert(start.consumers + tail.take(j + 1) == (start.consumers + tail.take(j as int)).push(tail[j as int]));
            }
            j += 1;
        }
        assert(tail.take(j as int) == tail);
    }

    /// The siblings before node `i`.
    fn siblings_before(ks: &Vec<usize>, i: usize) -> (r: Vec<usize>)
        ensures
            syntax::ints(r@) == earlier(syntax::ints(ks@), i as int),
            forall|j: int| 0 <= j < r@.len() ==> exists|m: int| 0 <= m < ks@.len() && ks@[m] == #[trigger] r@[j],
    {
        let ghost kv = syntax::ints(ks@);
        let mut out: Vec<usize> = Vec::new();
        let mut j: usize = 0;
        assert(kv.skip(0) == kv);
        assert(syntax::ints(out@) + earlier(kv, i as int) == earlier(kv, i as int));
        while j < ks.len()
            invariant
                0 <= j <= ks@.len(),
                kv == syntax::ints(ks@),
                syntax::ints(out@) + earlier(kv.skip(j as int), i as int) == earlier(kv, i as int),
                forall|j: int| 0 <= j < out@.len() ==> exists|m: int| 0 <= m < ks@.len() && ks@[m] == #[trigger] out@[j],
            decreases ks@.len() - j,
        {
            proof {
                syntax::lemma_skip_step(kv, j as int);
            }
            if ks[j] == i {
                assert(syntax::ints(out@) + Seq::<int>::empty() == syntax::ints(out@));
                return out;
            }
            let ghost before = out@;
            let ghost rest = earlier(kv.skip(j + 1), i as int);
            out.push(ks[j]);
            assert(syntax::ints(out@) == syntax::ints(before).push(ks@[j as int] as int));
            assert(syntax::ints(before) + (seq![ks@[j as int] as int] + rest) == syntax::ints(out@) + rest);
            j += 1;
        }
        assert(syntax::ints(out@) + Seq::<int>::empty() == syntax::ints(out@));
        out
    }

    /// The decorators of a function, in the order in which they count.
    fn decorators(t: &SyntaxTree, parent: Option<usize>, i: usize) -> (r: Vec<usize>)
        requires
            parent matches Some(p) ==> t@.valid(p as int),
        ensures
            syntax::ints(r@) == decorators_of(t@, text::opt_int(parent), i as int),
            forall|j: int| 0 <= j < r@.len() ==> t@.valid(#[trigger] r@[j] as int),
    {
        let mut out: Vec<usize> = Vec::new();
        assert(syntax::ints(out@) == Seq::<int>::empty());
        let p = match parent {
            Some(p) => p,
            None => return out,
        };
        let all = t.children(p);
        if t.kind_is(p, "decorated_definition") {
            out = t.of_kind(&all, "decorator");
        }
        let ghost inside = syntax::ints(out@);
        let before = Self::siblings_before(&all, i);
        let ghost bv = syntax::ints(before@);
        let ghost whole = trailing_decorators(t@, bv);
        let mut n: usize = before.len();
        assert(bv.take(n as int) == bv);
        assert(inside + whole == syntax::ints(out@) + trailing_decorators(t@, bv.take(n as int)));
        while n > 0
            invariant
                n <= before@.len(),
                bv == syntax::ints(before@),
                forall|j: int| 0 <= j < before@.len() ==> exists|m: int| 0 <= m < all@.len() && all@[m] == #[trigger] before@[j],
                forall|j: int| 0 <= j < all@.len() ==> t@.valid(#[trigger] all@[j] as int),
                forall|j: int| 0 <= j < out@.len() ==> t@.valid(#[trigger] out@[j] as int),
                inside + whole == syntax::ints(out@) + trailing_decorators(t@, bv.take(n as int)),
                inside + whole == decorators_of(t@, text::opt_int(parent), i as int),
            decreases n,
        {
            let k = before[n - 1];
            proof {
                syntax::lemma_take_step(bv, n - 1);
                assert(bv[n - 1] == k as int);
            }
            if t.kind_is(k, "decorator") {
                let ghost sofar = out@;
                let ghost rest = trailing_decorators(t@, bv.take(n - 1));
                out.push(k);
                assert(syntax::ints(out@) == syntax::ints(sofar).push(k as int));
                assert(syntax::ints(sofar) + (seq![k as int] + rest) == syntax::ints(out@) + rest);
            } else if !t.kind_is(k, "comment") && !t.kind_is(k, "\n") {
                assert(syntax::ints(out@) + Seq::<int>::empty() == syntax::ints(out@));
                return out;
            }
            n -= 1;
        }
        assert(syntax::ints(out@) + Seq::<int>::empty() == syntax::ints(out@));
        out
    }

    /// What a function is, and the Celery task it is.
    fn role(t: &SyntaxTree, ds: &Vec<usize>, name: &str) -> (r: (NodeKind, Option<String>))
        requires
            forall|j: int| 0 <= j < ds@.len() ==> t@.valid(#[trigger] ds@[j] as int),
        ensures
            function_role(t@, syntax::ints(ds@), name@) == (FunctionRole { kind: r.0, task: text::opt_string(r.1) }),
    {
        let ghost dv = syntax::ints(ds@);
        let mut kind = NodeKind::ServiceClass;
        let mut task: Option<String> = None;
        let mut j: usize = 0;
        while j < ds.len()
            invariant
                0 <= j <= ds@.len(),
                dv == syntax::ints(ds@),
                forall|j: int| 0 <= j < ds@.len() ==> t@.valid(#[trigger] ds@[j] as int),
                function_role(t@, dv.take(j as int), name@) == (FunctionRole { kind, task: text::opt_string(task) }),
            decreases ds@.len() - j,
        {
            proof {
                syntax::lemma_take_step(dv, j as int);
            }
            match t.text(ds[j]) {
                Some(s) => {
                    if Self::is_celery_task_decorator(s) {
                        kind = NodeKind::Queue;
                        task = match Self::celery_task_name_override(s) {
                            Some(n) => Some(n),
                            None => Some(text::copy(name)),
                        };
                    } else if text::has_lit(s, "@app.") || text::has_lit(s, "@router.") || text::has_lit(s, "@api_router.") {
                        kind = NodeKind::HttpEndpoint;
                    }
                },
                None => {},
            }
            j += 1;
        }
        assert(dv.take(j as int) == dv);
        (kind, task)
    }

    /// The import that a name in an import statement makes.
    fn name_ref(t: &SyntaxTree, n: usize, module_like: bool) -> (r: Option<ImportRef>)
        requires
            t@.valid(n as int),
        ensures
            syntax::opt_view(r) == name_import(t@, n as int, module_like),
    {
        if t.kind_is(n, "dotted_name") {
            match t.text(n) {
                Some(s) => Some(ImportRef { target: text::string_of(s), search_text: text::string_of(s), module_like }),
                None => None,
            }
        } else if t.kind_is(n, "aliased_import") {
            match t.field_text(n, "name") {
                Some(s) => {
                    let search_text = match t.field_text(n, "alias") {
                        Some(a) => text::string_of(a),
                        None => text::string_of(s),
                    };
                    Some(ImportRef { target: text::string_of(s), search_text, module_like })
                },
                None => None,
            }
        } else {
            None
        }
    }

    /// Adds the imports that the names of a statement make.
    fn push_name_refs(t: &SyntaxTree, i: usize, module_like: bool, out: &mut Vec<ImportRef>)
        requires
            t@.valid(i as int),
        ensures
            imports_view(final(out)@) == imports_view(old(out)@) + name_imports(t@, t@.field_children(i as int, "name"@), module_like),
    {
        let ks = t.field_children(i, "name");
        let ghost kv = syntax::ints(ks@);
        let ghost start = imports_view(out@);
        let mut j: usize = 0;
        assert(start + name_imports(t@, kv.take(0), module_like) == start);
        while j < ks.len()
            invariant
                0 <= j <= ks@.len(),
                kv == syntax::ints(ks@),
                forall|j: int| 0 <= j < ks@.len() ==> t@.valid(#[trigger] ks@[j] as int),
                imports_view(out@) == start + name_imports(t@, kv.take(j as int), module_like),
            decreases ks@.len() - j,
        {
            proof {
                syntax::lemma_take_step(kv, j as int);
            }
            match Self::name_ref(t, ks[j], module_like) {
                Some(x) => {
                    let ghost before = out@;
                    out.push(x);
                    let ghost rest = name_imports(t@, kv.take(j as int), module_like);
                    assert(imports_view(out@) == imports_view(before).push(x@));
                    assert(start + rest.push(x@) == (start + rest).push(x@));
                },
                None => {},
            }
            j += 1;
        }
        assert(kv.take(j as int) == kv);
    }

    /// Adds the imports of `from module import ...`.
    fn collect_import_from(t: &SyntaxTree, i: usize, out: &mut Vec<ImportRef>)
        requires
            t@.valid(i as int),
        ensures
            imports_view(final(out)@) == imports_view(old(out)@) + (model::with(Seq::empty(), module_import(t@, i as int)) + name_imports(
                t@,
                t@.field_children(i as int, "name"@),
                false,
            )),
    {
        let ghost start = imports_view(out@);
        let module = match t.field(i, "module_name") {
            Some(m) => if t.kind_is(m, "relative_import") || t.kind_is(m, "dotted_name") {
                t.text(m)
            } else {
                None
            },
            None => None,
        };
        match module {
            Some(s) => {
                let x = ImportRef { target: text::string_of(s), search_text: text::string_of(s), module_like: true };
                let ghost before = out@;
                out.push(x);
                assert(imports_view(out@) == imports_view(before).push(x@));
            },
            None => {},
        }
        assert(imports_view(out@) == start + model::with(Seq::empty(), module_import(t@, i as int)));
        Self::push_name_refs(t, i, false, out);
        let ghost a = model::with(Seq::empty(), module_import(t@, i as int));
        let ghost b = name_imports(t@, t@.field_children(i as int, "name"@), false);
        assert(start + (a + b) == (start + a) + b);
    }

    /// Takes in node `i`, which stands in declaration `c`, and gives back the declaration
    /// that its children stand in.
    fn visit_node(t: &SyntaxTree, parent: Option<usize>, i: usize, path: &str, repo_id: RepoId, package: &str, c: &Enclosing, o: &mut PyFound) -> (r: Enclosing)
        requires
            t@.valid(i as int),
            parent matches Some(p) ==> t@.valid(p as int),
        ensures
            (final(o)@, r@) == py_step(t@, text::opt_int(parent), i as int, path@, repo_id, package@, c@, old(o)@),
    {
        let ghost start = o@;
        if t.kind_is(i, "import_statement") {
            Self::push_name_refs(t, i, true, &mut o.imports);
            Enclosing { at: c.at }
        } else if t.kind_is(i, "import_from_statement") {
            Self::collect_import_from(t, i, &mut o.imports);
            Enclosing { at: c.at }
        } else if t.kind_is(i, "class_definition") {
            let name = text::string_or(t.field_text(i, "name"), "UnknownClass");
            let chars = text::chars_of(name.as_str());
            let path_chars = text::chars_of(path);
            let generated = match paths::name_of(path_chars.as_slice()) {
                Some(n) => text::ends(n, "_pb2_grpc.py"),
                None => false,
            };
            let kind = if text::ends(chars.as_slice(), "Servicer") && !generated {
                NodeKind::GrpcService
            } else {
                NodeKind::ServiceClass
            };
            let mut fallback = text::joined("class ", chars.as_slice());
            fallback.append(":");
            let signature = text::string_or(t.head(i), fallback.as_str());
            let n = model::declare(t, i, path, repo_id, package, name, kind, signature);
            assert(model::nodes_view(o.nodes@).len() == o.nodes@.len());
            let at = o.nodes.len();
            model::push_node(&mut o.nodes, n);
            Enclosing { at: Some(at) }
        } else if t.kind_is(i, "function_definition") {
            let name = text::string_or(t.field_text(i, "name"), "unknown_func");
            let chars = text::chars_of(name.as_str());
            let ds = Self::decorators(t, parent, i);
            let (kind, task) = Self::role(t, &ds, name.as_str());
            let mut fallback = text::joined("def ", chars.as_slice());
            fallback.append("():");
            let signature = text::string_or(t.head(i), fallback.as_str());
            let n = model::declare(t, i, path, repo_id, package, name, kind, signature);
            assert(model::nodes_view(o.nodes@).len() == o.nodes@.len());
            let at = o.nodes.len();
            match task {
                Some(x) => model::push_link(&mut o.consumers, at, x),
                None => {},
            }
            model::push_node(&mut o.nodes, n);
            Enclosing { at: Some(at) }
        } else if t.kind_is(i, "call") {
            assert(model::nodes_view(o.nodes@).len() == o.nodes@.len());
            if o.nodes.len() > 0 {
                let at = match c.at {
                    Some(x) => x,
                    None => 0,
                };
                Self::detect_event_call(t, i, at, o);
            }
            Enclosing { at: c.at }
        } else {
            Enclosing { at: c.at }
        }
    }
}

} // verus!
