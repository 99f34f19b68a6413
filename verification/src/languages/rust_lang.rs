//! Rust items, HTTP routes, gRPC services, imports and Kafka topics.
use vstd::prelude::*;
use crate::index::{FileIndex, FileIndexView};
use crate::index;
use crate::languages::common;
use crate::model;
use crate::model::{ContractNode, ContractNodeView, NodeKind, RepoId};
use crate::syntax;
use crate::syntax::{SyntaxTree, TreeRules, TreeView};
use crate::text;

verus! {

/// Rust extractor.
pub struct RustExtractor;

/// What a node's children are.
#[derive(Clone, Copy)]
pub enum Scope {
    /// Items; whether they are the members of a gRPC service.
    Members(bool),
    /// The parts of an `impl`; whether it is that of a gRPC service.
    Parts(bool),
}

impl View for Scope {
    type V = Scope;

    open spec fn view(&self) -> Scope {
        *self
    }
}

/// What a walk over a Rust file gathers.
pub struct RustFound {
    pub nodes: Vec<ContractNode>,
    pub imports: Vec<String>,
    pub producers: Vec<(usize, String)>,
    pub consumers: Vec<(usize, String)>,
}

/// What a walk over a Rust file gathers, as a mathematical value.
#[verifier::ext_equal]
pub struct RustFoundView {
    pub nodes: Seq<ContractNodeView>,
    pub imports: Seq<Seq<char>>,
    pub producers: Seq<(int, Seq<char>)>,
    pub consumers: Seq<(int, Seq<char>)>,
}

impl View for RustFound {
    type V = RustFoundView;

    open spec fn view(&self) -> RustFoundView {
        RustFoundView {
            nodes: model::nodes_view(self.nodes@),
            imports: text::strings(self.imports@),
            producers: model::links_view(self.producers@),
            consumers: model::links_view(self.consumers@),
        }
    }
}

impl RustFoundView {
    /// Nothing found yet.
    pub open spec fn empty() -> RustFoundView {
        RustFoundView { nodes: Seq::empty(), imports: Seq::empty(), producers: Seq::empty(), consumers: Seq::empty() }
    }
}

/// The attributes directly before node `i` among its siblings, each followed by a line
/// break; `held` are those that stand directly before `ks`.
pub open spec fn attributes(t: TreeView, ks: Seq<int>, i: int, held: Seq<char>) -> Seq<char>
    decreases ks.len(),
{
    if ks.len() == 0 || ks[0] == i {
        held
    } else if t.kind(ks[0]) == "attribute_item"@ {
        match t.text(ks[0]) {
            Some(s) => attributes(t, ks.drop_first(), i, held + s + "\n"@),
            None => attributes(t, ks.drop_first(), i, held),
        }
    } else {
        attributes(t, ks.drop_first(), i, Seq::empty())
    }
}

/// The route of an attribute such as `#[get("/path")]` for one method.
pub open spec fn route_of(attr: Seq<char>, method: Seq<char>) -> Option<(Seq<char>, Seq<char>)> {
    let needle = "#["@ + method + "("@;
    match text::find(attr, needle) {
        Some(k) => {
            let found = text::quoted(attr.skip(k + needle.len()));
            if found.len() > 0 && found[0].len() > 0 {
                Some((text::raised(method), found[0]))
            } else {
                None
            }
        },
        None => None,
    }
}

/// The first of two routes that there is.
pub open spec fn else_route(
    a: Option<(Seq<char>, Seq<char>)>,
    b: Option<(Seq<char>, Seq<char>)>,
) -> Option<(Seq<char>, Seq<char>)> {
    if a is Some {
        a
    } else {
        b
    }
}

/// The method and path of the actix-web route that attributes declare.
pub open spec fn actix_route(attr: Seq<char>) -> Option<(Seq<char>, Seq<char>)> {
    else_route(
        route_of(attr, "get"@),
        else_route(
            route_of(attr, "post"@),
            else_route(
                route_of(attr, "put"@),
                else_route(
                    route_of(attr, "delete"@),
                    else_route(
                        route_of(attr, "patch"@),
                        else_route(route_of(attr, "head"@), route_of(attr, "options"@)),
                    ),
                ),
            ),
        ),
    )
}

/// Whether a character is an ASCII letter, an ASCII digit or an underscore.
pub open spec fn is_word_char(c: char) -> bool {
    'a' <= c <= 'z' || 'A' <= c <= 'Z' || '0' <= c <= '9' || c == '_'
}

/// The HTTP method of an axum route, in upper case, given what follows `.route(`: the
/// name of the function that the second argument calls.
pub open spec fn axum_method(s: Seq<char>) -> Option<Seq<char>> {
    match text::index(s, ',') {
        Some(k) => {
            let rest = text::trim_front(s.skip(k + 1), text::WHITE_SPACE@);
            match text::index(rest, '(') {
                Some(e) => {
                    let name = text::after_text(text::trim(rest.take(e)), "::"@);
                    if name.len() > 0 && forall|j: int| 0 <= j < name.len() ==> is_word_char(#[trigger] name[j]) {
                        Some(text::raised(name))
                    } else {
                        None
                    }
                },
                None => None,
            }
        },
        None => None,
    }
}

/// The line that is `n` lines after `line`, as far as lines are counted.
pub open spec fn line_after(line: int, n: int) -> int {
    if line + n <= usize::MAX {
        line + n
    } else {
        usize::MAX as int
    }
}

/// The endpoint that the `.route(` at position `k` of a function's text registers.
pub open spec fn axum_route(s: Seq<char>, k: int, line: int, path: Seq<char>, repo_id: RepoId, package: Seq<char>) -> Option<ContractNodeView> {
    let after = s.skip(k + 7);
    let found = text::quoted(after);
    if found.len() == 0 {
        None
    } else {
        let method = text::or(axum_method(after), "ANY"@);
        let at = line_after(line, text::count(s.take(k), '\n'));
        Some(
            ContractNodeView {
                id: 0,
                name: method + " "@ + found[0],
                kind: NodeKind::HttpEndpoint,
                file_path: path,
                line_start: at,
                line_end: at,
                package,
                repo_id,
                signature: Some("route(\""@ + found[0] + "\", "@ + text::lowered(method) + "(..))"@),
                docstring: None,
            },
        )
    }
}

/// The endpoints that the `.route(` calls at the positions `ks` register.
pub open spec fn axum_routes(s: Seq<char>, ks: Seq<int>, line: int, path: Seq<char>, repo_id: RepoId, package: Seq<char>) -> Seq<ContractNodeView>
    decreases ks.len(),
{
    if ks.len() == 0 {
        Seq::empty()
    } else {
        model::with(axum_routes(s, ks.drop_last(), line, path, repo_id, package), axum_route(s, ks.last(), line, path, repo_id, package))
    }
}

/// The quoted strings of a call's arguments, given what follows its opening parenthesis.
pub open spec fn quoted_arguments(s: Seq<char>) -> Seq<Seq<char>> {
    text::quoted(text::before_first(s, ')'))
}

/// The topics that a function's text subscribes to.
pub open spec fn subscribed(s: Seq<char>) -> Seq<Seq<char>> {
    match text::find(s, ".subscribe("@) {
        Some(k) => quoted_arguments(s.skip(k + 11)),
        None => Seq::empty(),
    }
}

/// The topics that the records built at the positions `ks` are sent to.
pub open spec fn sent(s: Seq<char>, ks: Seq<int>) -> Seq<Seq<char>>
    decreases ks.len(),
{
    if ks.len() == 0 {
        Seq::empty()
    } else {
        let found = quoted_arguments(s.skip(ks.last() + 17));
        let rest = sent(s, ks.drop_last());
        if found.len() > 0 {
            rest.push(found[0])
        } else {
            rest
        }
    }
}

/// Links from declaration `k` to each of the names.
pub open spec fn links_to(k: int, names: Seq<Seq<char>>) -> Seq<(int, Seq<char>)> {
    names.map_values(|n: Seq<char>| (k, n))
}

/// The trait that the text of an `impl` block implements, without its arguments.
pub open spec fn implemented_trait(s: Seq<char>) -> Option<Seq<char>> {
    match text::strip_prefix(impl_head(s), "impl"@) {
        Some(rest) => match text::find(text::trim(rest), " for "@) {
            Some(k) => {
                let name = text::trim(text::before_first(text::trim(text::trim(rest).take(k)), '<'));
                if name.len() > 0 {
                    Some(name)
                } else {
                    None
                }
            },
            None => None,
        },
        None => None,
    }
}

/// The first line of an `impl` block, trimmed.
pub open spec fn impl_head(s: Seq<char>) -> Seq<char> {
    text::trim(text::or(text::first_line(s), s))
}

/// The gRPC service that node `i`, an `impl` block under attributes, implements.
pub open spec fn grpc_service(t: TreeView, i: int, attr: Seq<char>, path: Seq<char>, repo_id: RepoId, package: Seq<char>) -> Option<ContractNodeView> {
    match t.text(i) {
        Some(s) => match implemented_trait(s) {
            Some(name) => if text::contains(attr, "tonic::async_trait"@) || text::ends_with(name, "Server"@) || text::ends_with(
                name,
                "Service"@,
            ) {
                Some(model::declared(t, i, path, repo_id, package, name, NodeKind::GrpcService, impl_head(s)))
            } else {
                None
            },
            None => None,
        },
        None => None,
    }
}

/// The prefix of a group of imports inside a group with prefix `prefix`.
pub open spec fn nested_prefix(prefix: Seq<char>, pre: Seq<char>) -> Seq<char> {
    if prefix.len() == 0 {
        pre
    } else if pre.len() == 0 {
        prefix
    } else {
        prefix + "::"@ + pre
    }
}

/// The text between the brace at `start` and the one that closes it.
pub open spec fn inside_braces(s: Seq<char>, start: int) -> Option<Seq<char>> {
    match text::closing(s, '{', '}', start, 0) {
        Some(e) => Some(s.subrange(start + 1, e)),
        None => None,
    }
}

/// A part of a list, trimmed, if anything is left of it.
pub open spec fn part(s: Seq<char>) -> Seq<Seq<char>> {
    let t = text::trim(s);
    if t.len() > 0 {
        seq![t]
    } else {
        Seq::empty()
    }
}

/// The parts of a text from `start` on between the commas, from `i` on, that stand inside
/// no braces; `depth` braces are open at `i`.
pub open spec fn parts_from(s: Seq<char>, start: int, i: int, depth: int) -> Seq<Seq<char>>
    decreases s.len() - i,
{
    if i < 0 || i >= s.len() {
        part(s.skip(start))
    } else if s[i] == '{' {
        parts_from(s, start, i + 1, depth + 1)
    } else if s[i] == '}' {
        parts_from(s, start, i + 1, depth - 1)
    } else if s[i] == ',' && depth == 0 {
        part(s.subrange(start, i)) + parts_from(s, i + 1, i + 1, depth)
    } else {
        parts_from(s, start, i + 1, depth)
    }
}

/// The parts of a text between the commas that stand inside no braces.
pub open spec fn top_level_parts(s: Seq<char>) -> Seq<Seq<char>> {
    parts_from(s, 0, 0, 0)
}

/// The paths that a `use` tree brings in, under a prefix.
pub open spec fn use_paths(s: Seq<char>, prefix: Seq<char>) -> Seq<Seq<char>>
    decreases s.len() + 1, 0nat,
{
    let t = text::trim(s);
    if t.len() == 0 {
        Seq::empty()
    } else {
        match text::index(t, '{') {
            Some(k) => {
                let pre = text::trim(text::strip_endings(text::trim(t.take(k)), "::"@));
                match inside_braces(t, k) {
                    Some(inner) => group_paths(top_level_parts(inner), nested_prefix(prefix, pre), s.len()),
                    None => Seq::empty(),
                }
            },
            None => {
                let path = text::trim(text::before_text(t, " as "@));
                if path.len() == 0 || path == "self"@ || path == "*"@ {
                    if prefix.len() > 0 {
                        seq![prefix]
                    } else {
                        Seq::empty()
                    }
                } else if prefix.len() == 0 {
                    seq![path]
                } else {
                    seq![prefix + "::"@ + path]
                }
            },
        }
    }
}

/// The paths that the parts of a group bring in, each shorter than the text around them.
pub open spec fn group_paths(parts: Seq<Seq<char>>, prefix: Seq<char>, around: nat) -> Seq<Seq<char>>
    decreases around, parts.len(),
{
    if parts.len() == 0 {
        Seq::empty()
    } else {
        let rest = group_paths(parts.drop_last(), prefix, around);
        if parts.last().len() < around {
            rest + use_paths(parts.last(), prefix)
        } else {
            rest
        }
    }
}

/// The names that a path brings in: itself and its last segment.
pub open spec fn names_of_path(path: Seq<char>) -> Seq<Seq<char>> {
    let last = text::after_text(path, "::"@);
    if path.len() == 0 {
        Seq::empty()
    } else if last == path {
        seq![path]
    } else {
        seq![path, last]
    }
}

/// The names that paths bring in.
pub open spec fn names_of_paths(paths: Seq<Seq<char>>) -> Seq<Seq<char>>
    decreases paths.len(),
{
    if paths.len() == 0 {
        Seq::empty()
    } else {
        names_of_paths(paths.drop_last()) + names_of_path(paths.last())
    }
}

/// The tree of a `use` declaration.
pub open spec fn use_tree(s: Seq<char>) -> Seq<char> {
    text::trim(text::trim_back(text::trim(text::strip_repeated(text::trim(s), "use"@)), ";"@))
}

/// The crate that an external crate declaration brings in.
pub open spec fn external_crate(s: Seq<char>) -> Option<Seq<char>> {
    let after = text::trim(text::strip_repeated(text::trim(s), "extern"@));
    let inner = text::trim(text::trim_back(text::trim(text::strip_repeated(after, "crate"@)), ";"@));
    let name = text::trim(text::before_text(inner, " as "@));
    if name.len() > 0 {
        Some(name)
    } else {
        None
    }
}

/// The package that a call of tonic's macro names.
pub open spec fn proto_package(s: Seq<char>) -> Option<Seq<char>> {
    if text::contains(s, "include_proto!"@) {
        match text::index(s, '(') {
            Some(a) => match text::index(s.skip(a), ')') {
                Some(b) => {
                    let arg = text::trim_set(text::trim_set(text::trim(s.subrange(a + 1, a + b)), "\""@), "'"@);
                    if arg.len() > 0 {
                        Some(arg)
                    } else {
                        None
                    }
                },
                None => None,
            },
            None => None,
        }
    } else {
        None
    }
}

/// The item that node `i` declares: its name, or the one given for want of it, and its
/// first line, or else the two words around its name.
pub open spec fn item_node(
    t: TreeView,
    i: int,
    path: Seq<char>,
    repo_id: RepoId,
    package: Seq<char>,
    kind: NodeKind,
    unknown: Seq<char>,
    word: Seq<char>,
) -> ContractNodeView {
    let name = text::or(t.field_text(i, "name"@), unknown);
    model::declared(t, i, path, repo_id, package, name, kind, text::or(t.head(i), word + name))
}

/// The function that node `i`, under attributes, declares.
pub open spec fn function_node(t: TreeView, i: int, path: Seq<char>, repo_id: RepoId, package: Seq<char>, attr: Seq<char>, grpc: bool) -> ContractNodeView {
    let name = text::or(t.field_text(i, "name"@), "unknown_fn"@);
    let signature = text::or(t.head(i), "fn "@ + name + "()"@);
    if grpc {
        model::declared(t, i, path, repo_id, package, name, NodeKind::GrpcMethod, signature)
    } else {
        match actix_route(attr) {
            Some((method, route)) => model::declared(
                t,
                i,
                path,
                repo_id,
                package,
                method + " "@ + route,
                NodeKind::HttpEndpoint,
                signature,
            ),
            None => model::declared(t, i, path, repo_id, package, name, NodeKind::ServiceClass, signature),
        }
    }
}

/// What a walk has gathered after node `i`, a function.
pub open spec fn after_function(
    t: TreeView,
    i: int,
    path: Seq<char>,
    repo_id: RepoId,
    package: Seq<char>,
    attr: Seq<char>,
    grpc: bool,
    o: RustFoundView,
) -> RustFoundView {
    let at = o.nodes.len() as int;
    let nodes = o.nodes.push(function_node(t, i, path, repo_id, package, attr, grpc));
    match t.text(i) {
        Some(s) => RustFoundView {
            nodes: nodes + axum_routes(s, text::matches(s, ".route("@), t.line(i), path, repo_id, package),
            producers: o.producers + links_to(at, sent(s, text::matches(s, "FutureRecord::to("@))),
            consumers: o.consumers + links_to(at, subscribed(s)),
            ..o
        },
        None => RustFoundView { nodes, ..o },
    }
}

/// What a walk has gathered after node `i`, an item that is no `impl` block.
pub open spec fn after_item(
    t: TreeView,
    i: int,
    path: Seq<char>,
    repo_id: RepoId,
    package: Seq<char>,
    attr: Seq<char>,
    grpc: bool,
    o: RustFoundView,
) -> RustFoundView {
    let k = t.kind(i);
    if k == "struct_item"@ || k == "enum_item"@ {
        RustFoundView { nodes: o.nodes.push(item_node(t, i, path, repo_id, package, NodeKind::ServiceClass, "UnknownItem"@, "struct "@)), ..o }
    } else if k == "trait_item"@ {
        RustFoundView { nodes: o.nodes.push(item_node(t, i, path, repo_id, package, NodeKind::Interface, "UnknownTrait"@, "trait "@)), ..o }
    } else if k == "function_item"@ {
        after_function(t, i, path, repo_id, package, attr, grpc, o)
    } else if k == "use_declaration"@ {
        match t.text(i) {
            Some(s) => RustFoundView { imports: o.imports + names_of_paths(use_paths(use_tree(s), ""@)), ..o },
            None => o,
        }
    } else if k == "extern_crate_declaration"@ {
        match t.text(i) {
            Some(s) => RustFoundView { imports: model::with(o.imports, external_crate(s)), ..o },
            None => o,
        }
    } else if k == "macro_invocation"@ {
        match t.text(i) {
            Some(s) => match proto_package(s) {
                Some(arg) => RustFoundView {
                    nodes: o.nodes.push(
                        model::declared(
                            t,
                            i,
                            path,
                            repo_id,
                            package,
                            arg,
                            NodeKind::ServiceClass,
                            "tonic::include_proto!(\""@ + arg + "\")"@,
                        ),
                    ),
                    ..o
                },
                None => o,
            },
            None => o,
        }
    } else {
        o
    }
}

/// What a walk over a Rust file does at each node.
pub struct RustRules<'a> {
    pub path: &'a str,
    pub repo_id: RepoId,
    pub package: &'a str,
}

impl<'a> View for RustRules<'a> {
    type V = common::FileRules;

    open spec fn view(&self) -> common::FileRules {
        common::FileRules { path: self.path@, repo_id: self.repo_id, package: self.package@ }
    }
}

/// What a walk has gathered after node `i`, and what its children are looked at for. The root
/// is passed over. Attributes belong to the item after them. Of the parts of an `impl` block
/// only its body is gone into.
pub open spec fn rust_step(
    rules: common::FileRules,
    t: TreeView,
    parent: Option<int>,
    i: int,
    c: Scope,
    o: RustFoundView,
) -> (RustFoundView, Option<Scope>) {
    match parent {
        None => (o, Some(Scope::Members(false))),
        Some(p) => match c {
            Scope::Parts(grpc) => if t.child_of_kind(p, "declaration_list"@) == Some(i) {
                (o, Some(Scope::Members(grpc)))
            } else {
                (o, None)
            },
            Scope::Members(grpc) => {
                let attr = attributes(t, t.children(p), i, Seq::empty());
                if t.kind(i) == "attribute_item"@ {
                    (o, None)
                } else if t.kind(i) == "impl_item"@ {
                    let service = grpc_service(t, i, attr, rules.path, rules.repo_id, rules.package);
                    (RustFoundView { nodes: model::with(o.nodes, service), ..o }, Some(Scope::Parts(service is Some)))
                } else {
                    (after_item(t, i, rules.path, rules.repo_id, rules.package, attr, grpc, o), Some(Scope::Members(false)))
                }
            },
        },
    }
}

impl<'a> TreeRules for RustRules<'a> {
    type Context = Scope;

    type Output = RustFound;

    open spec fn on_node(
        rules: common::FileRules,
        t: TreeView,
        parent: Option<int>,
        i: int,
        c: Scope,
        o: RustFoundView,
    ) -> (RustFoundView, Option<Scope>) {
        rust_step(rules, t, parent, i, c, o)
    }

    fn visit(&self, t: &SyntaxTree, parent: Option<usize>, i: usize, c: &Scope, o: &mut RustFound) -> (r: Option<Scope>) {
        let ghost step = Self::on_node(self@, t@, text::opt_int(parent), i as int, c@, o@);
        let r = self.visit_member(t, parent, i, *c, o);
        assert((o@, r) == step);
        r
    }
}

impl<'a> RustRules<'a> {
    /// Takes in node `i`.
    fn visit_member(&self, t: &SyntaxTree, parent: Option<usize>, i: usize, c: Scope, o: &mut RustFound) -> (r: Option<Scope>)
        requires
            t@.valid(i as int),
            parent matches Some(p) ==> t@.valid(p as int),
        ensures
            (final(o)@, r) == rust_step(self@, t@, text::opt_int(parent), i as int, c, old(o)@),
    {
        let p = match parent {
            None => return Some(Scope::Members(false)),
            Some(p) => p,
        };
        match c {
            Scope::Parts(grpc) => match t.child_of_kind(p, "declaration_list") {
                Some(k) => if k == i {
                    Some(Scope::Members(grpc))
                } else {
                    None
                },
                None => None,
            },
            Scope::Members(grpc) => {
                if t.kind_is(i, "attribute_item") {
                    return None;
                }
                let attr = RustExtractor::attributes_before(t, p, i);
                if t.kind_is(i, "impl_item") {
                    match RustExtractor::handle_impl(t, i, self.path, self.repo_id, self.package, attr.as_slice()) {
                        Some(n) => {
                            model::push_node(&mut o.nodes, n);
                            Some(Scope::Parts(true))
                        },
                        None => Some(Scope::Parts(false)),
                    }
                } else {
                    RustExtractor::visit_node(t, i, self.path, self.repo_id, self.package, attr.as_slice(), grpc, o);
                    Some(Scope::Members(false))
                }
            },
        }
    }
}

/// What the walk over a file gathers.
pub open spec fn rust_found(t: TreeView, path: Seq<char>, repo_id: RepoId, package: Seq<char>) -> RustFoundView {
    syntax::walk_tree::<RustRules>(
        common::FileRules { path, repo_id, package },
        t,
        usize::MAX as int,
        Scope::Members(false),
        RustFoundView::empty(),
    )
}

/// Whether a declaration uses an import: a qualified path counts for the whole file.
pub open spec fn uses_import(ls: Seq<Seq<char>>, n: ContractNodeView, name: Seq<char>) -> bool {
    name.len() > 0 && (text::contains(name, "::"@) || common::stands_in(ls, n, name))
}

/// The links from declaration `k` to the imports that it uses.
pub open spec fn node_links(ls: Seq<Seq<char>>, n: ContractNodeView, k: int, imports: Seq<Seq<char>>) -> Seq<(int, Seq<char>)>
    decreases imports.len(),
{
    if imports.len() == 0 {
        Seq::empty()
    } else {
        let rest = node_links(ls, n, k, imports.drop_last());
        if uses_import(ls, n, imports.last()) {
            rest.push((k, imports.last()))
        } else {
            rest
        }
    }
}

/// The links from the first `n` declarations to the imports that they use.
pub open spec fn import_links(ls: Seq<Seq<char>>, nodes: Seq<ContractNodeView>, imports: Seq<Seq<char>>, n: int) -> Seq<(int, Seq<char>)>
    decreases n,
{
    if n <= 0 {
        Seq::empty()
    } else {
        import_links(ls, nodes, imports, n - 1) + node_links(ls, nodes[n - 1], n - 1, imports)
    }
}

/// Everything extracted from a syntax tree.
pub open spec fn rust_index(t: TreeView, path: Seq<char>, repo_id: RepoId, package: Seq<char>) -> FileIndexView {
    let found = rust_found(t, path, repo_id, package);
    FileIndexView {
        nodes: found.nodes,
        dependencies: import_links(text::lines(t.src), found.nodes, found.imports, found.nodes.len() as int),
        producers: found.producers,
        consumers: found.consumers,
        ..FileIndexView::empty()
    }
}

proof fn lemma_node_links_below(ls: Seq<Seq<char>>, n: ContractNodeView, k: int, imports: Seq<Seq<char>>)
    requires
        0 <= k,
    ensures
        index::links_below(node_links(ls, n, k, imports), k + 1),
    decreases imports.len(),
{
    if imports.len() > 0 {
        lemma_node_links_below(ls, n, k, imports.drop_last());
    }
}

proof fn lemma_import_links_below(ls: Seq<Seq<char>>, nodes: Seq<ContractNodeView>, imports: Seq<Seq<char>>, n: int)
    requires
        0 <= n,
    ensures
        index::links_below(import_links(ls, nodes, imports, n), n),
    decreases n,
{
    if n > 0 {
        lemma_import_links_below(ls, nodes, imports, n - 1);
        lemma_node_links_below(ls, nodes[n - 1], n - 1, imports);
        let a = import_links(ls, nodes, imports, n - 1);
        let b = node_links(ls, nodes[n - 1], n - 1, imports);
        assert forall|j: int| 0 <= j < (a + b).len() implies 0 <= (#[trigger] (a + b)[j]).0 < n by {
            if j < a.len() {
                assert((a + b)[j] == a[j]);
            } else {
                assert((a + b)[j] == b[j - a.len()]);
            }
        }
    }
}

proof fn lemma_routes_belong(s: Seq<char>, ks: Seq<int>, line: int, path: Seq<char>, repo_id: RepoId, package: Seq<char>)
    ensures
        model::belong(axum_routes(s, ks, line, path, repo_id, package), path, repo_id, package),
    decreases ks.len(),
{
    if ks.len() > 0 {
        lemma_routes_belong(s, ks.drop_last(), line, path, repo_id, package);
    }
}

/// Every declaration of a file carries the file's path, its repository and the package that the
/// file is in, and has no number yet.
pub proof fn law_rust_nodes_belong(t: TreeView, path: Seq<char>, repo_id: RepoId, package: Seq<char>)
    ensures
        model::belong(rust_index(t, path, repo_id, package).nodes, path, repo_id, package),
{
    let rules = common::FileRules { path, repo_id, package };
    let holds = |c: Scope, o: RustFoundView| model::belong(o.nodes, path, repo_id, package);
    assert forall|s: Seq<char>, ks: Seq<int>, line: int|
        model::belong(#[trigger] axum_routes(s, ks, line, path, repo_id, package), path, repo_id, package) by {
        lemma_routes_belong(s, ks, line, path, repo_id, package);
    }
    assert(syntax::keeps::<RustRules>(rules, t, holds));
    syntax::lemma_walk_keeps::<RustRules>(
        rules,
        t,
        None,
        0,
        t.rows.len() as int,
        0,
        usize::MAX as int,
        Scope::Members(false),
        Scope::Members(false),
        RustFoundView::empty(),
        holds,
    );
}

/// Every relation of a file starts from one of its declarations.
pub proof fn law_rust_links(t: TreeView, path: Seq<char>, repo_id: RepoId, package: Seq<char>)
    ensures
        rust_index(t, path, repo_id, package).linked(),
{
    let rules = common::FileRules { path, repo_id, package };
    let holds = |c: Scope, o: RustFoundView|
        {
            let n = o.nodes.len() as int;
            index::links_below(o.producers, n) && index::links_below(o.consumers, n)
        };
    assert(syntax::keeps::<RustRules>(rules, t, holds));
    syntax::lemma_walk_keeps::<RustRules>(
        rules,
        t,
        None,
        0,
        t.rows.len() as int,
        0,
        usize::MAX as int,
        Scope::Members(false),
        Scope::Members(false),
        RustFoundView::empty(),
        holds,
    );
    let found = rust_found(t, path, repo_id, package);
    lemma_import_links_below(text::lines(t.src), found.nodes, found.imports, found.nodes.len() as int);
}

impl RustExtractor {
    /// The declarations of a file.
    pub fn extract(file_path: &str, content: &str, repo_id: RepoId, package: &str, parser: &mut tree_sitter::Parser) -> (r: Vec<ContractNode>)
        ensures
            exists|done: bool|
                match #[trigger] syntax::outcome(*old(parser), content@, done) {
                    Some(t) => model::nodes_view(r@) == rust_index(t, file_path@, repo_id, package@).nodes,
                    None => r@.len() == 0,
                },
    {
        let index = Self::extract_index(file_path, content, repo_id, package, parser);
        assert(index@.nodes.len() == index.nodes@.len());
        index.nodes
    }

    /// The declarations of a file, the imports that each uses, and the Kafka topics that
    /// each produces and consumes.
    pub fn extract_index(file_path: &str, content: &str, repo_id: RepoId, package: &str, parser: &mut tree_sitter::Parser) -> (r: FileIndex)
        ensures
            exists|done: bool|
                match #[trigger] syntax::outcome(*old(parser), content@, done) {
                    Some(t) => r@ == rust_index(t, file_path@, repo_id, package@),
                    None => r@ == FileIndexView::empty(),
                },
    {
        match syntax::parse(parser, content) {
            Some(tree) => {
                let t = SyntaxTree::of(&tree, content);
                assert(syntax::outcome(*old(parser), content@, true) == Some(t@));
                Self::extract_tree(file_path, repo_id, package, &t)
            },
            None => {
                assert(syntax::outcome(*old(parser), content@, false) is None);
                FileIndex::default()
            },
        }
    }

    /// Everything extracted from a syntax tree.
    pub fn extract_tree(file_path: &str, repo_id: RepoId, package: &str, t: &SyntaxTree) -> (r: FileIndex)
        ensures
            r@ == rust_index(t@, file_path@, repo_id, package@),
    {
        let rules = RustRules { path: file_path, repo_id, package };
        let mut found = RustFound { nodes: Vec::new(), imports: Vec::new(), producers: Vec::new(), consumers: Vec::new() };
        assert(found@ == RustFoundView::empty());
        syntax::run_tree(&rules, t, usize::MAX, &Scope::Members(false), &mut found);
        assert(model::nodes_view(found.nodes@).len() == found.nodes@.len());
        let dependencies = Self::attach_dependencies(t, &found.nodes, &found.imports);
        let r = FileIndex {
            nodes: found.nodes,
            dependencies,
            producers: found.producers,
            consumers: found.consumers,
            rpc_calls: Vec::new(),
            parse_failed: false,
        };
        assert(r@.rpc_calls == Seq::<(int, Seq<char>)>::empty());
        r
    }

    /// The links from declarations to the imports that they use.
    fn attach_dependencies(t: &SyntaxTree, nodes: &Vec<ContractNode>, imports: &Vec<String>) -> (r: Vec<(usize, String)>)
        ensures
            model::links_view(r@) == import_links(text::lines(t@.src), model::nodes_view(nodes@), text::strings(imports@), nodes@.len() as int),
    {
        let ls = text::lines_of(t.source());
        let ghost lv = text::texts(ls@);
        let ghost nv = model::nodes_view(nodes@);
        let ghost iv = text::strings(imports@);
        let mut out: Vec<(usize, String)> = Vec::new();
        let mut n: usize = 0;
        assert(model::links_view(out@) == import_links(lv, nv, iv, 0));
        while n < nodes.len()
            invariant
                0 <= n <= nodes@.len(),
                lv == text::texts(ls@),
                nv == model::nodes_view(nodes@),
                iv == text::strings(imports@),
                model::links_view(out@) == import_links(lv, nv, iv, n as int),
            decreases nodes@.len() - n,
        {
            let ghost before = model::links_view(out@);
            assert(nv[n as int] == nodes@[n as int]@);
            let mut j: usize = 0;
            assert(before + node_links(lv, nv[n as int], n as int, iv.take(0)) == before);
            while j < imports.len()
                invariant
                    0 <= j <= imports@.len(),
                    n < nodes@.len(),
                    nv[n as int] == nodes@[n as int]@,
                    lv == text::texts(ls@),
                    iv == text::strings(imports@),
                    model::links_view(out@) == before + node_links(lv, nv[n as int], n as int, iv.take(j as int)),
                decreases imports@.len() - j,
            {
                proof {
                    syntax::lemma_take_step(iv, j as int);
                    assert(iv[j as int] == imports@[j as int]@);
                }
                let name = text::chars_of(imports[j].as_str());
                if name.len() > 0 && (text::has_lit(name.as_slice(), "::") || common::used_in(&ls, &nodes[n], name.as_slice())) {
                    let ghost rest = node_links(lv, nv[n as int], n as int, iv.take(j as int));
                    model::push_link(&mut out, n, text::copy(imports[j].as_str()));
                    assert(before + rest.push((n as int, name@)) == (before + rest).push((n as int, name@)));
                }
                j += 1;
            }
            assert(iv.take(j as int) == iv);
            n += 1;
        }
        out
    }

    /// The attributes directly before node `i` among the children of node `p`.
    fn attributes_before(t: &SyntaxTree, p: usize, i: usize) -> (r: Vec<char>)
        requires
            t@.valid(p as int),
        ensures
            r@ == attributes(t@, t@.children(p as int), i as int, Seq::empty()),
    {
        let ks = t.children(p);
        let ghost kv = syntax::ints(ks@);
        let end_of_line = text::chars_of("\n");
        let mut held: Vec<char> = Vec::new();
        let mut j: usize = 0;
        assert(kv.skip(0) == kv);
        assert(held@ == Seq::<char>::empty());
        while j < ks.len()
            invariant
                0 <= j <= ks@.len(),
                kv == syntax::ints(ks@),
                kv == t@.children(p as int),
                end_of_line@ == "\n"@,
                forall|j: int| 0 <= j < ks@.len() ==> t@.valid(#[trigger] ks@[j] as int),
                attributes(t@, kv, i as int, Seq::empty()) == attributes(t@, kv.skip(j as int), i as int, held@),
            decreases ks@.len() - j,
        {
            proof {
                syntax::lemma_skip_step(kv, j as int);
                assert(kv[j as int] == ks@[j as int] as int);
            }
            if ks[j] == i {
                return held;
            }
            if t.kind_is(ks[j], "attribute_item") {
                match t.text(ks[j]) {
                    Some(s) => {
                        text::extend(&mut held, s);
                        text::extend(&mut held, end_of_line.as_slice());
                    },
                    None => {},
                }
            } else {
                held = Vec::new();
                assert(held@ == Seq::<char>::empty());
            }
            j += 1;
        }
        held
    }

    /// The gRPC service that node `i`, an `impl` block under attributes, implements.
    fn handle_impl(t: &SyntaxTree, i: usize, path: &str, repo_id: RepoId, package: &str, attr: &[char]) -> (r: Option<ContractNode>)
        requires
            t@.valid(i as int),
        ensures
            syntax::opt_view(r) == grpc_service(t@, i as int, attr@, path@, repo_id, package@),
    {
        let s = match t.text(i) {
            Some(s) => s,
            None => return None,
        };
        let line = text::trimmed(
            match text::head_line(s) {
                Some(l) => l,
                None => s,
            },
        );
        let rest = match text::without_prefix(line, "impl") {
            Some(r) => text::trimmed(r),
            None => return None,
        };
        let k = match text::position_of(rest, " for ") {
            Some(k) => k,
            None => return None,
        };
        let name = text::trimmed(text::head_before(text::trimmed(text::until(rest, k)), '<'));
        if name.len() == 0 {
            return None;
        }
        if text::has_lit(attr, "tonic::async_trait") || text::ends(name, "Server") || text::ends(name, "Service") {
            Some(
                model::declare(t, i, path, repo_id, package, text::string_of(name), NodeKind::GrpcService, text::string_of(line)),
            )
        } else {
            None
        }
    }

    /// Takes in node `i`, an item that is no `impl` block.
    fn visit_node(t: &SyntaxTree, i: usize, path: &str, repo_id: RepoId, package: &str, attr: &[char], grpc: bool, o: &mut RustFound)
        requires
            t@.valid(i as int),
        ensures
            final(o)@ == after_item(t@, i as int, path@, repo_id, package@, attr@, grpc, old(o)@),
    {
        if t.kind_is(i, "struct_item") || t.kind_is(i, "enum_item") {
            let n = Self::item(t, i, path, repo_id, package, NodeKind::ServiceClass, "UnknownItem", "struct ");
            model::push_node(&mut o.nodes, n);
        } else if t.kind_is(i, "trait_item") {
            let n = Self::item(t, i, path, repo_id, package, NodeKind::Interface, "UnknownTrait", "trait ");
            model::push_node(&mut o.nodes, n);
        } else if t.kind_is(i, "function_item") {
            Self::visit_function(t, i, path, repo_id, package, attr, grpc, o);
        } else if t.kind_is(i, "use_declaration") {
            match t.text(i) {
                Some(s) => Self::collect_use_paths(s, &mut o.imports),
                None => {},
            }
        } else if t.kind_is(i, "extern_crate_declaration") {
            match t.text(i) {
                Some(s) => match Self::crate_of(s) {
                    Some(name) => model::push_string(&mut o.imports, name),
                    None => {},
                },
                None => {},
            }
        } else if t.kind_is(i, "macro_invocation") {
            match t.text(i) {
                Some(s) => match Self::package_of(s) {
                    Some(arg) => {
                        let signature = text::wrapped("tonic::include_proto!(\"", arg, "\")");
                        let n = model::declare(t, i, path, repo_id, package, text::string_of(arg), NodeKind::ServiceClass, signature);
                        model::push_node(&mut o.nodes, n);
                    },
                    None => {},
                },
                None => {},
            }
        }
    }

    /// The item that node `i` declares.
    fn item(t: &SyntaxTree, i: usize, path: &str, repo_id: RepoId, package: &str, kind: NodeKind, unknown: &str, word: &str) -> (r: ContractNode)
        requires
            t@.valid(i as int),
        ensures
            r@ == item_node(t@, i as int, path@, repo_id, package@, kind, unknown@, word@),
    {
        let name = text::string_or(t.field_text(i, "name"), unknown);
        let signature = match t.head(i) {
            Some(l) => text::string_of(l),
            None => {
                let chars = text::chars_of(name.as_str());
                text::joined(word, chars.as_slice())
            },
        };
        model::declare(t, i, path, repo_id, package, name, kind, signature)
    }

    /// Takes in node `i`, a function.
    fn visit_function(t: &SyntaxTree, i: usize, path: &str, repo_id: RepoId, package: &str, attr: &[char], grpc: bool, o: &mut RustFound)
        requires
            t@.valid(i as int),
        ensures
            final(o)@ == after_function(t@, i as int, path@, repo_id, package@, attr@, grpc, old(o)@),
    {
        let name = text::string_or(t.field_text(i, "name"), "unknown_fn");
        let signature = match t.head(i) {
            Some(l) => text::string_of(l),
            None => {
                let chars = text::chars_of(name.as_str());
                text::wrapped("fn ", chars.as_slice(), "()")
            },
        };
        let (kind, shown) = if grpc {
            (NodeKind::GrpcMethod, name)
        } else {
            match Self::actix_route_of(attr) {
                Some((method, route)) => {
                    let a = text::chars_of(method.as_str());
                    let b = text::chars_of(route.as_str());
                    (NodeKind::HttpEndpoint, text::joined3(a.as_slice(), " ", b.as_slice()))
                },
                None => (NodeKind::ServiceClass, name),
            }
        };
        let n = model::declare(t, i, path, repo_id, package, shown, kind, signature);
        assert(model::nodes_view(o.nodes@).len() == o.nodes@.len());
        let at = o.nodes.len();
        model::push_node(&mut o.nodes, n);
        match t.text(i) {
            Some(s) => {
                Self::scan_rdkafka(s, at, &mut o.producers, &mut o.consumers);
                Self::scan_axum_routes(s, t.line(i), path, repo_id, package, &mut o.nodes);
            },
            None => {},
        }
    }

    /// The quoted strings of a call's arguments, given what follows its opening parenthesis.
    fn arguments<'a>(s: &'a [char]) -> (r: Vec<&'a [char]>)
        ensures
            text::texts(r@) == quoted_arguments(s@),
    {
        text::quoted_texts(text::head_before(s, ')'))
    }

    /// Links function `at` to the topics that its text subscribes to, as consumer, and to
    /// those that it sends records to, as producer.
    fn scan_rdkafka(s: &[char], at: usize, producers: &mut Vec<(usize, String)>, consumers: &mut Vec<(usize, String)>)
        ensures
            model::links_view(final(producers)@) == model::links_view(old(producers)@) + links_to(
                at as int,
                sent(s@, text::matches(s@, "FutureRecord::to("@)),
            ),
            model::links_view(final(consumers)@) == model::links_view(old(consumers)@) + links_to(at as int, subscribed(s@)),
    {
        let ghost first = model::links_view(consumers@);
        let ghost second = model::links_view(producers@);
        proof {
            reveal_strlit(".subscribe(");
            reveal_strlit("FutureRecord::to(");
        }
        match text::position_of(s, ".subscribe(") {
            Some(k) => {
                let topics = Self::arguments(text::from(s, k + 11));
                let ghost tv = text::texts(topics@);
                assert(tv == subscribed(s@));
                let mut j: usize = 0;
                assert(first + links_to(at as int, tv.take(0)) == first);
                while j < topics.len()
                    invariant
                        0 <= j <= topics@.len(),
                        tv == text::texts(topics@),
                        model::links_view(consumers@) == first + links_to(at as int, tv.take(j as int)),
                    decreases topics@.len() - j,
                {
                    model::push_link(consumers, at, text::string_of(topics[j]));
                    assert(tv[j as int] == topics@[j as int]@);
                    assert(first + links_to(at as int, tv.take(j + 1)) == (first + links_to(at as int, tv.take(j as int))).push(
                        (at as int, tv[j as int]),
                    ));
                    j += 1;
                }
                assert(tv.take(j as int) == tv);
            },
            None => {
                assert(first + links_to(at as int, subscribed(s@)) == first);
            },
        }
        let ks = text::positions(s, "FutureRecord::to(");
        let ghost kv = syntax::ints(ks@);
        let mut j: usize = 0;
        assert(second + links_to(at as int, sent(s@, kv.take(0))) == second);
        while j < ks.len()
            invariant
                0 <= j <= ks@.len(),
                kv == syntax::ints(ks@),
                forall|j: int| 0 <= j < ks@.len() ==> #[trigger] ks@[j] + 17 <= s@.len() <= usize::MAX,
                model::links_view(producers@) == second + links_to(at as int, sent(s@, kv.take(j as int))),
            decreases ks@.len() - j,
        {
            proof {
                syntax::lemma_take_step(kv, j as int);
                assert(kv[j as int] == ks@[j as int] as int);
            }
            let found = Self::arguments(text::from(s, ks[j] + 17));
            let ghost fv = text::texts(found@);
            assert(fv.len() == found@.len());
            if found.len() > 0 {
                let ghost rest = sent(s@, kv.take(j as int));
                assert(fv[0] == found@[0]@);
                model::push_link(producers, at, text::string_of(found[0]));
                assert(second + links_to(at as int, rest.push(fv[0])) == (second + links_to(at as int, rest)).push((at as int, fv[0])));
            }
            j += 1;
        }
        assert(kv.take(j as int) == kv);
    }

    /// The HTTP method of an axum route, given what follows `.route(`.
    pub fn extract_axum_method(after_route_open_paren: &str) -> (r: Option<String>)
        ensures
            text::opt_string(r) == axum_method(after_route_open_paren@),
    {
        let chars = text::chars_of(after_route_open_paren);
        Self::method_of(chars.as_slice())
    }

    fn method_of(s: &[char]) -> (r: Option<String>)
        ensures
            text::opt_string(r) == axum_method(s@),
    {
        let k = match text::char_position(s, ',') {
            Some(k) => k,
            None => return None,
        };
        let rest = text::trimmed_front(text::from(s, k + 1), text::WHITE_SPACE);
        let e = match text::char_position(rest, '(') {
            Some(e) => e,
            None => return None,
        };
        let name = text::tail_after_lit(text::trimmed(text::until(rest, e)), "::");
        if name.len() == 0 || !Self::is_word(name) {
            return None;
        }
        let upper = text::to_upper(name);
        Some(text::string_of(upper.as_slice()))
    }

    /// Whether a text is made of ASCII letters, digits and underscores.
    fn is_word(s: &[char]) -> (r: bool)
        ensures
            r == (forall|j: int| 0 <= j < s@.len() ==> is_word_char(#[trigger] s@[j])),
    {
        let mut j: usize = 0;
        while j < s.len()
            invariant
                0 <= j <= s@.len(),
                forall|m: int| 0 <= m < j ==> is_word_char(#[trigger] s@[m]),
            decreases s@.len() - j,
        {
            let c = s[j];
            let word = ('a' <= c && c <= 'z') || ('A' <= c && c <= 'Z') || ('0' <= c && c <= '9') || c == '_';
            if !word {
                assert(!is_word_char(s@[j as int]));
                return false;
            }
            j += 1;
        }
        true
    }

    /// The endpoint that the `.route(` at position `k` of a function's text registers.
    fn route_at(s: &[char], k: usize, line: usize, path: &str, repo_id: RepoId, package: &str) -> (r: Option<ContractNode>)
        requires
            k + 7 <= s@.len() <= usize::MAX,
        ensures
            syntax::opt_view(r) == axum_route(s@, k as int, line as int, path@, repo_id, package@),
    {
        let after = text::from(s, k + 7);
        let found = text::quoted_texts(after);
        let ghost fv = text::texts(found@);
        assert(fv.len() == found@.len());
        if found.len() == 0 {
            return None;
        }
        assert(fv[0] == found@[0]@);
        let route = found[0];
        let method = match Self::method_of(after) {
            Some(m) => m,
            None => text::copy("ANY"),
        };
        let at = line.saturating_add(text::occurrences(text::until(s, k), '\n'));
        let chars = text::chars_of(method.as_str());
        let low = text::to_lower(chars.as_slice());
        let mut signature = text::wrapped("route(\"", route, "\", ");
        text::push_chars(&mut signature, low.as_slice());
        let tail = text::chars_of("(..))");
        text::push_chars(&mut signature, tail.as_slice());
        Some(
            ContractNode {
                id: 0,
                name: text::joined3(chars.as_slice(), " ", route),
                kind: NodeKind::HttpEndpoint,
                file_path: text::copy(path),
                line_start: at,
                line_end: at,
                package: text::copy(package),
                repo_id,
                signature: Some(signature),
                docstring: None,
            },
        )
    }

    /// Adds the endpoints that a function's text, which starts at `line`, registers.
    fn scan_axum_routes(s: &[char], line: usize, path: &str, repo_id: RepoId, package: &str, nodes: &mut Vec<ContractNode>)
        ensures
            model::nodes_view(final(nodes)@) == model::nodes_view(old(nodes)@) + axum_routes(
                s@,
                text::matches(s@, ".route("@),
                line as int,
                path@,
                repo_id,
                package@,
            ),
    {
        let ghost start = model::nodes_view(nodes@);
        proof {
            reveal_strlit(".route(");
        }
        let ks = text::positions(s, ".route(");
        let ghost kv = syntax::ints(ks@);
        let mut j: usize = 0;
        assert(start + axum_routes(s@, kv.take(0), line as int, path@, repo_id, package@) == start);
        while j < ks.len()
            invariant
                0 <= j <= ks@.len(),
                kv == syntax::ints(ks@),
                forall|j: int| 0 <= j < ks@.len() ==> #[trigger] ks@[j] + 7 <= s@.len() <= usize::MAX,
                model::nodes_view(nodes@) == start + axum_routes(s@, kv.take(j as int), line as int, path@, repo_id, package@),
            decreases ks@.len() - j,
        {
            proof {
                syntax::lemma_take_step(kv, j as int);
                assert(kv[j as int] == ks@[j as int] as int);
            }
            match Self::route_at(s, ks[j], line, path, repo_id, package) {
                Some(n) => {
                    let ghost rest = axum_routes(s@, kv.take(j as int), line as int, path@, repo_id, package@);
                    model::push_node(nodes, n);
                    assert(start + rest.push(n@) == (start + rest).push(n@));
                },
                None => {},
            }
            j += 1;
        }
        assert(kv.take(j as int) == kv);
    }

    /// The route of an attribute such as `#[get("/path")]` for one method.
    fn route_for(attr: &[char], method: &str) -> (r: Option<(String, String)>)
        ensures
            (match r {
                Some((m, p)) => Some((m@, p@)),
                None => None,
            }) == route_of(attr@, method@),
    {
        let mut needle = text::chars_of("#[");
        let word = text::chars_of(method);
        text::extend(&mut needle, word.as_slice());
        let open = text::chars_of("(");
        text::extend(&mut needle, open.as_slice());
        match text::position(attr, needle.as_slice()) {
            Some(k) => {
                let found = text::quoted_texts(text::from(attr, k + needle.len()));
                let ghost fv = text::texts(found@);
                assert(fv.len() == found@.len());
                if found.len() > 0 {
                    assert(fv[0] == found@[0]@);
                    if found[0].len() > 0 {
                        let upper = text::to_upper(word.as_slice());
                        return Some((text::string_of(upper.as_slice()), text::string_of(found[0])));
                    }
                }
                None
            },
            None => None,
        }
    }

    /// Recognises `#[get("/path")]`-style attributes of actix-web: the method in upper case
    /// and the path.
    pub fn actix_route_from_attr(attr: &str) -> (r: Option<(String, String)>)
        ensures
            (match r {
                Some((m, p)) => Some((m@, p@)),
                None => None,
            }) == actix_route(attr@),
    {
        let chars = text::chars_of(attr);
        Self::actix_route_of(chars.as_slice())
    }

    fn actix_route_of(attr: &[char]) -> (r: Option<(String, String)>)
        ensures
            (match r {
                Some((m, p)) => Some((m@, p@)),
                None => None,
            }) == actix_route(attr@),
    {
        match Self::route_for(attr, "get") {
            Some(x) => return Some(x),
            None => {},
        }
        match Self::route_for(attr, "post") {
            Some(x) => return Some(x),
            None => {},
        }
        match Self::route_for(attr, "put") {
            Some(x) => return Some(x),
            None => {},
        }
        match Self::route_for(attr, "delete") {
            Some(x) => return Some(x),
            None => {},
        }
        match Self::route_for(attr, "patch") {
            Some(x) => return Some(x),
            None => {},
        }
        match Self::route_for(attr, "head") {
            Some(x) => return Some(x),
            None => {},
        }
        Self::route_for(attr, "options")
    }

    /// The texts between pairs of double quotes, in order.
    pub fn extract_quoted_strings(s: &str) -> (r: Vec<String>)
        ensures
            text::strings(r@) == text::quoted(s@),
    {
        let chars = text::chars_of(s);
        let found = text::quoted_texts(chars.as_slice());
        let ghost fv = text::texts(found@);
        let mut out: Vec<String> = Vec::new();
        let mut j: usize = 0;
        while j < found.len()
            invariant
                0 <= j <= found@.len(),
                fv == text::texts(found@),
                text::strings(out@) == fv.take(j as int),
            decreases found@.len() - j,
        {
            assert(fv[j as int] == found@[j as int]@);
            model::push_string(&mut out, text::string_of(found[j]));
            assert(fv.take(j + 1) == fv.take(j as int).push(fv[j as int]));
            j += 1;
        }
        assert(fv.take(j as int) == fv);
        out
    }

    /// The crate that an external crate declaration brings in.
    fn crate_of(s: &[char]) -> (r: Option<String>)
        ensures
            text::opt_string(r) == external_crate(s@),
    {
        let after = text::trimmed(text::stripped_repeated(text::trimmed(s), "extern"));
        let inner = text::trimmed(text::trimmed_back(text::trimmed(text::stripped_repeated(after, "crate")), ";"));
        let name = text::trimmed(text::head_before_lit(inner, " as "));
        if name.len() > 0 {
            Some(text::string_of(name))
        } else {
            None
        }
    }

    /// The package that a call of tonic's macro names.
    fn package_of<'a>(s: &'a [char]) -> (r: Option<&'a [char]>)
        ensures
            text::opt_text(r) == proto_package(s@),
    {
        if !text::has_lit(s, "include_proto!") {
            return None;
        }
        let a = match text::char_position(s, '(') {
            Some(a) => a,
            None => return None,
        };
        let b = match text::char_position(text::from(s, a), ')') {
            Some(b) => b,
            None => return None,
        };
        assert(s@.skip(a as int)[b as int] == ')');
        let arg = text::trimmed_of(text::trimmed_of(text::trimmed(vstd::slice::slice_subrange(s, a + 1, a + b)), "\""), "'");
        if arg.len() > 0 {
            Some(arg)
        } else {
            None
        }
    }

    /// Adds the names that a `use` declaration brings in.
    fn collect_use_paths(s: &[char], imports: &mut Vec<String>)
        ensures
            text::strings(final(imports)@) == text::strings(old(imports)@) + names_of_paths(use_paths(use_tree(s@), ""@)),
    {
        let inner = text::trimmed(text::trimmed_back(text::trimmed(text::stripped_repeated(text::trimmed(s), "use")), ";"));
        let mut paths: Vec<String> = Vec::new();
        let none = text::chars_of("");
        assert(text::strings(paths@) == Seq::<Seq<char>>::empty());
        Self::expand(inner, none.as_slice(), &mut paths);
        let ghost pv = text::strings(paths@);
        assert(pv == use_paths(use_tree(s@), ""@));
        let ghost start = text::strings(imports@);
        let mut j: usize = 0;
        assert(start + names_of_paths(pv.take(0)) == start);
        while j < paths.len()
            invariant
                0 <= j <= paths@.len(),
                pv == text::strings(paths@),
                text::strings(imports@) == start + names_of_paths(pv.take(j as int)),
            decreases paths@.len() - j,
        {
            proof {
                syntax::lemma_take_step(pv, j as int);
                assert(pv[j as int] == paths@[j as int]@);
            }
            let ghost rest = names_of_paths(pv.take(j as int));
            let path = text::chars_of(paths[j].as_str());
            if path.len() > 0 {
                model::push_string(imports, text::copy(paths[j].as_str()));
                assert(start + (rest + seq![path@]) == (start + rest).push(path@));
                let last = text::tail_after_lit(path.as_slice(), "::");
                if !text::equal(last, path.as_slice()) {
                    model::push_string(imports, text::string_of(last));
                    assert(start + (rest + seq![path@, last@]) == (start + rest).push(path@).push(last@));
                }
            } else {
                assert(start + (rest + Seq::<Seq<char>>::empty()) == start + rest);
            }
            j += 1;
        }
        assert(pv.take(j as int) == pv);
    }

    /// Adds the paths that a `use` tree brings in, under a prefix.
    pub fn expand_use_tree(text: &str, prefix: &str, out: &mut Vec<String>)
        ensures
            crate::text::strings(final(out)@) == crate::text::strings(old(out)@) + use_paths(text@, prefix@),
    {
        let chars = text::chars_of(text);
        let pre = text::chars_of(prefix);
        Self::expand(chars.as_slice(), pre.as_slice(), out);
    }

    fn expand(s: &[char], prefix: &[char], out: &mut Vec<String>)
        ensures
            text::strings(final(out)@) == text::strings(old(out)@) + use_paths(s@, prefix@),
        decreases s@.len(),
    {
        let ghost start = text::strings(out@);
        assert(start + Seq::<Seq<char>>::empty() == start);
        let t = text::trimmed(s);
        if t.len() == 0 {
            return;
        }
        match text::char_position(t, '{') {
            Some(k) => {
                let pre = text::trimmed(text::stripped_endings(text::trimmed(text::until(t, k)), "::"));
                let next = Self::prefix_inside(prefix, pre);
                match Self::braces_inner(t, k) {
                    Some(inner) => {
                        let parts = Self::parts(inner);
                        let ghost pv = text::texts(parts@);
                        let mut j: usize = 0;
                        assert(start + group_paths(pv.take(0), next@, s@.len()) == start);
                        while j < parts.len()
                            invariant
                                0 <= j <= parts@.len(),
                                pv == text::texts(parts@),
                                inner@.len() < t@.len() <= s@.len(),
                                forall|j: int| 0 <= j < parts@.len() ==> (#[trigger] parts@[j])@.len() <= inner@.len(),
                                text::strings(out@) == start + group_paths(pv.take(j as int), next@, s@.len()),
                            decreases parts@.len() - j,
                        {
                            proof {
                                syntax::lemma_take_step(pv, j as int);
                                assert(pv[j as int] == parts@[j as int]@);
                            }
                            let ghost rest = group_paths(pv.take(j as int), next@, s@.len());
                            let ghost more = use_paths(pv[j as int], next@);
                            Self::expand(parts[j], next.as_slice(), out);
                            assert((start + rest) + more == start + (rest + more));
                            j += 1;
                        }
                        assert(pv.take(j as int) == pv);
                    },
                    None => {},
                }
            },
            None => {
                let path = text::trimmed(text::head_before_lit(t, " as "));
                if path.len() == 0 || text::is(path, "self") || text::is(path, "*") {
                    if prefix.len() > 0 {
                        model::push_string(out, text::string_of(prefix));
                        assert(start + seq![prefix@] == start.push(prefix@));
                    }
                } else if prefix.len() == 0 {
                    model::push_string(out, text::string_of(path));
                    assert(start + seq![path@] == start.push(path@));
                } else {
                    let full = text::joined3(prefix, "::", path);
                    assert(start + seq![full@] == start.push(full@));
                    model::push_string(out, full);
                }
            },
        }
    }

    fn prefix_inside(prefix: &[char], pre: &[char]) -> (r: Vec<char>)
        ensures
            r@ == nested_prefix(prefix@, pre@),
    {
        let mut out: Vec<char> = Vec::new();
        if prefix.len() == 0 {
            text::extend(&mut out, pre);
        } else {
            text::extend(&mut out, prefix);
            if pre.len() > 0 {
                let colons = text::chars_of("::");
                text::extend(&mut out, colons.as_slice());
                text::extend(&mut out, pre);
            }
        }
        out
    }

    /// The text between the brace at `start` and the one that closes it.
    fn braces_inner<'a>(s: &'a [char], start: usize) -> (r: Option<&'a [char]>)
        requires
            start < s@.len(),
            s@[start as int] == '{',
        ensures
            text::opt_text(r) == inside_braces(s@, start as int),
            r matches Some(x) ==> x@.len() < s@.len(),
    {
        match text::closing_position(s, '{', '}', start, 0) {
            Some(e) => {
                Some(vstd::slice::slice_subrange(s, start + 1, e))
            },
            None => None,
        }
    }

    /// The parts of a text between the commas that stand inside no braces.
    fn parts<'a>(s: &'a [char]) -> (r: Vec<&'a [char]>)
        ensures
            text::texts(r@) == top_level_parts(s@),
            forall|j: int| 0 <= j < r@.len() ==> (#[trigger] r@[j])@.len() <= s@.len(),
    {
        let mut out: Vec<&'a [char]> = Vec::new();
        let mut depth: i128 = 0;
        let mut start: usize = 0;
        let mut i: usize = 0;
        assert(text::texts(out@) + parts_from(s@, 0, 0, 0) == top_level_parts(s@));
        while i < s.len()
            invariant
                0 <= start <= i <= s@.len(),
                -i <= depth <= i,
                text::texts(out@) + parts_from(s@, start as int, i as int, depth as int) == top_level_parts(s@),
                forall|j: int| 0 <= j < out@.len() ==> (#[trigger] out@[j])@.len() <= s@.len(),
            decreases s@.len() - i,
        {
            if s[i] == '{' {
                depth += 1;
            } else if s[i] == '}' {
                depth -= 1;
            } else if s[i] == ',' && depth == 0 {
                let ghost rest = parts_from(s@, i + 1, i + 1, depth as int);
                let piece = vstd::slice::slice_subrange(s, start, i);
                let ghost before = text::texts(out@);
                Self::add_part(&mut out, piece);
                assert(before + (part(piece@) + rest) == (before + part(piece@)) + rest);
                start = i + 1;
            }
            i += 1;
        }
        let tail = text::from(s, start);
        Self::add_part(&mut out, tail);
        out
    }

    fn add_part<'a>(out: &mut Vec<&'a [char]>, piece: &'a [char])
        ensures
            text::texts(final(out)@) == text::texts(old(out)@) + part(piece@),
            forall|j: int|
                0 <= j < final(out)@.len() ==> (#[trigger] final(out)@[j])@.len() <= piece@.len() || (j < old(out)@.len() && final(out)@[j]
                    == old(out)@[j]),
    {
        let t = text::trimmed(piece);
        if t.len() > 0 {
            out.push(t);
        }
    }

    /// The parts of a text between the commas that stand inside no braces.
    pub fn split_top_level_commas(s: &str) -> (r: Vec<String>)
        ensures
            text::strings(r@) == top_level_parts(s@),
    {
        let chars = text::chars_of(s);
        let found = Self::parts(chars.as_slice());
        let ghost fv = text::texts(found@);
        let mut out: Vec<String> = Vec::new();
        let mut j: usize = 0;
        while j < found.len()
            invariant
                0 <= j <= found@.len(),
                fv == text::texts(found@),
                text::strings(out@) == fv.take(j as int),
            decreases found@.len() - j,
        {
            assert(fv[j as int] == found@[j as int]@);
            model::push_string(&mut out, text::string_of(found[j]));
            assert(fv.take(j + 1) == fv.take(j as int).push(fv[j as int]));
            j += 1;
        }
        assert(fv.take(j as int) == fv);
        out
    }
}

} // verus!
