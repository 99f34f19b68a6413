//! Go declarations, imports, routes, message topics and gRPC registrations.
use vstd::prelude::*;
use crate::guard::AstGuard;
use crate::index;
use crate::languages::common;
use crate::model;
use crate::model::{ContractNode, ContractNodeView, NameList, NodeKind, PackagesView, RepoId, ServicePackages, TextMap};
use crate::syntax;
use crate::syntax::{SyntaxTree, TreeRules, TreeView};
use crate::text;

verus! {

/// Go extractor.
pub struct GoExtractor;

/// Relations found beside the declarations: links from a declaration, by its place in the
/// list, to what it imports, produces, consumes or calls.
#[derive(Debug)]
pub struct GoRelations {
    pub dependencies: Vec<(usize, String)>,
    pub producers: Vec<(usize, String)>,
    pub consumers: Vec<(usize, String)>,
    pub rpc_calls: Vec<(usize, String)>,
}

/// Relations found beside the declarations, as a mathematical value.
#[verifier::ext_equal]
pub struct GoRelationsView {
    pub dependencies: Seq<(int, Seq<char>)>,
    pub producers: Seq<(int, Seq<char>)>,
    pub consumers: Seq<(int, Seq<char>)>,
    pub rpc_calls: Seq<(int, Seq<char>)>,
}

impl View for GoRelations {
    type V = GoRelationsView;

    open spec fn view(&self) -> GoRelationsView {
        GoRelationsView {
            dependencies: model::links_view(self.dependencies@),
            producers: model::links_view(self.producers@),
            consumers: model::links_view(self.consumers@),
            rpc_calls: model::links_view(self.rpc_calls@),
        }
    }
}

/// An import, with the identifier that the file refers to it by.
pub struct RawImport {
    pub ref_ident: String,
    pub path: String,
    pub is_blank: bool,
}

/// An import, as a mathematical value.
#[verifier::ext_equal]
pub struct RawImportView {
    pub ref_ident: Seq<char>,
    pub path: Seq<char>,
    pub is_blank: bool,
}

impl View for RawImport {
    type V = RawImportView;

    open spec fn view(&self) -> RawImportView {
        RawImportView { ref_ident: self.ref_ident@, path: self.path@, is_blank: self.is_blank }
    }
}

/// A place where a topic is produced or consumed.
pub struct RawEvent {
    pub line_start: usize,
    pub line_end: usize,
    pub topic: String,
    pub is_producer: bool,
}

/// A place where a topic is produced or consumed, as a mathematical value.
#[verifier::ext_equal]
pub struct RawEventView {
    pub line_start: int,
    pub line_end: int,
    pub topic: Seq<char>,
    pub is_producer: bool,
}

impl View for RawEvent {
    type V = RawEventView;

    open spec fn view(&self) -> RawEventView {
        RawEventView {
            line_start: self.line_start as int,
            line_end: self.line_end as int,
            topic: self.topic@,
            is_producer: self.is_producer,
        }
    }
}

/// A place where a gRPC client is made.
pub struct RawRpcCall {
    pub line_start: usize,
    pub line_end: usize,
    pub service_name: String,
}

/// A place where a gRPC client is made, as a mathematical value.
#[verifier::ext_equal]
pub struct RawRpcCallView {
    pub line_start: int,
    pub line_end: int,
    pub service_name: Seq<char>,
}

impl View for RawRpcCall {
    type V = RawRpcCallView;

    open spec fn view(&self) -> RawRpcCallView {
        RawRpcCallView { line_start: self.line_start as int, line_end: self.line_end as int, service_name: self.service_name@ }
    }
}

/// Imports, each by its view.
pub open spec fn imports_view(v: Seq<RawImport>) -> Seq<RawImportView> {
    v.map_values(|x: RawImport| x@)
}

/// Events, each by its view.
pub open spec fn events_view(v: Seq<RawEvent>) -> Seq<RawEventView> {
    v.map_values(|x: RawEvent| x@)
}

/// Call sites, each by its view.
pub open spec fn calls_view(v: Seq<RawRpcCall>) -> Seq<RawRpcCallView> {
    v.map_values(|x: RawRpcCall| x@)
}

/// What a walk over a Go file gathers.
pub struct GoFound {
    pub package: String,
    pub nodes: Vec<ContractNode>,
    pub consts: TextMap,
    pub imports: Vec<RawImport>,
    pub events: Vec<RawEvent>,
    pub calls: Vec<RawRpcCall>,
}

/// What a walk over a Go file gathers, as a mathematical value.
#[verifier::ext_equal]
pub struct GoFoundView {
    pub package: Seq<char>,
    pub nodes: Seq<ContractNodeView>,
    pub consts: Map<Seq<char>, Seq<char>>,
    pub imports: Seq<RawImportView>,
    pub events: Seq<RawEventView>,
    pub calls: Seq<RawRpcCallView>,
}

impl View for GoFound {
    type V = GoFoundView;

    open spec fn view(&self) -> GoFoundView {
        GoFoundView {
            package: self.package@,
            nodes: model::nodes_view(self.nodes@),
            consts: self.consts@,
            imports: imports_view(self.imports@),
            events: events_view(self.events@),
            calls: calls_view(self.calls@),
        }
    }
}

/// The name of the type of a composite literal: `T{...}` or `pkg.T{...}`.
pub open spec fn literal_type(t: TreeView, n: int) -> Option<Seq<char>> {
    match t.field(n, "type"@) {
        Some(ty) => if t.kind(ty) == "type_identifier"@ {
            t.text(ty)
        } else if t.kind(ty) == "qualified_type"@ {
            t.field_text(ty, "name"@)
        } else {
            None
        },
        None => None,
    }
}

/// The name of the type that `T{...}` or `&T{...}` makes.
pub open spec fn receiver_type(t: TreeView, n: int) -> Option<Seq<char>>
    decreases t.rows.len() - n,
{
    if t.kind(n) == "unary_expression"@ {
        match t.field(n, "operand"@) {
            Some(k) => if n < k < t.rows.len() {
                receiver_type(t, k)
            } else {
                None
            },
            None => None,
        }
    } else if t.kind(n) == "composite_literal"@ {
        literal_type(t, n)
    } else {
        None
    }
}

/// The method that a call selects: `pkg.Method(...)`.
pub open spec fn selected_method(t: TreeView, i: int) -> Option<Seq<char>> {
    match t.field(i, "function"@) {
        Some(f) => if t.kind(f) == "selector_expression"@ {
            t.field_text(f, "field"@)
        } else {
            None
        },
        None => None,
    }
}

/// Whether a method registers a gRPC server: `RegisterXServer`.
pub open spec fn is_registration(method: Seq<char>) -> bool {
    text::starts_with(method, "Register"@) && text::ends_with(method, "Server"@)
}

/// The type that node `i` registers as a gRPC server, if it registers one.
pub open spec fn server_type(t: TreeView, i: int) -> Option<Seq<char>> {
    if t.kind(i) != "call_expression"@ {
        None
    } else {
        match selected_method(t, i) {
            Some(method) => if is_registration(method) {
                match t.field(i, "arguments"@) {
                    Some(args) => match t.named_child(args, 1) {
                        Some(second) => receiver_type(t, second),
                        None => None,
                    },
                    None => None,
                }
            } else {
                None
            },
            None => None,
        }
    }
}

/// A walk that gathers the types registered as gRPC servers.
pub struct ServerRules;

impl View for ServerRules {
    type V = ();

    open spec fn view(&self) -> () {
        ()
    }
}

impl TreeRules for ServerRules {
    type Context = ();

    type Output = NameList;

    open spec fn on_node(rules: (), t: TreeView, parent: Option<int>, i: int, c: (), o: Seq<Seq<char>>) -> (Seq<Seq<char>>, Option<()>) {
        (model::with(o, server_type(t, i)), Some(()))
    }

    fn visit(&self, t: &SyntaxTree, parent: Option<usize>, i: usize, c: &(), o: &mut NameList) -> (r: Option<()>) {
        o.add(GoExtractor::registered_type(t, i));
        Some(())
    }
}

/// The types that a file registers as gRPC servers.
pub open spec fn server_types(t: TreeView) -> Seq<Seq<char>> {
    syntax::walk_tree::<ServerRules>((), t, AstGuard::MAX_NESTING_DEPTH as int, (), Seq::empty())
}

/// The first function of the file with the name.
pub open spec fn function_named(t: TreeView, ks: Seq<int>, name: Seq<char>) -> Option<int>
    decreases ks.len(),
{
    if ks.len() == 0 {
        None
    } else if t.kind(ks[0]) == "function_declaration"@ && t.field_text(ks[0], "name"@) == Some(name) {
        Some(ks[0])
    } else {
        function_named(t, ks.drop_first(), name)
    }
}

/// Whether node `n` is a string literal.
pub open spec fn is_string(t: TreeView, n: int) -> bool {
    t.kind(n) == "interpreted_string_literal"@ || t.kind(n) == "raw_string_literal"@
}

/// What a string literal holds, where it holds something.
pub open spec fn string_value(t: TreeView, n: int) -> Option<Seq<char>> {
    match t.text(n) {
        Some(s) => if text::trim_set(s, "\"`"@).len() > 0 {
            Some(text::trim_set(s, "\"`"@))
        } else {
            None
        },
        None => None,
    }
}

/// The last statement of a function's body, comments aside.
pub open spec fn last_statement(t: TreeView, f: int) -> Option<int> {
    match t.field(f, "body"@) {
        Some(body) => {
            let ks = t.named_children(body).filter(|k: int| t.kind(k) != "comment"@);
            if ks.len() > 0 {
                Some(ks.last())
            } else {
                None
            }
        },
        None => None,
    }
}

/// The expression that a return statement gives back.
pub open spec fn returned(t: TreeView, n: int) -> Option<int> {
    match t.named_child(n, 0) {
        Some(list) => if t.kind(list) == "expression_list"@ {
            t.named_child(list, 0)
        } else {
            Some(list)
        },
        None => None,
    }
}

/// The default of a function that reads an environment variable and whose own last
/// statement returns a literal.
pub open spec fn getenv_default(t: TreeView, f: int) -> Option<Seq<char>> {
    match t.text(f) {
        Some(s) => if !text::contains(s, "os.Getenv("@) && !text::contains(s, "os.LookupEnv("@) {
            None
        } else {
            match last_statement(t, f) {
                Some(stmt) => if t.kind(stmt) != "return_statement"@ {
                    None
                } else {
                    match returned(t, stmt) {
                        Some(e) => if is_string(t, e) {
                            string_value(t, e)
                        } else {
                            None
                        },
                        None => None,
                    }
                },
                None => None,
            }
        },
        None => None,
    }
}

/// The default behind a call `f()` of a function of the file, if it has one.
pub open spec fn call_default(t: TreeView, v: int) -> Option<Seq<char>> {
    if t.kind(v) != "call_expression"@ {
        None
    } else {
        match (t.field(v, "function"@), t.field(v, "arguments"@)) {
            (Some(f), Some(args)) => if t.kind(f) != "identifier"@ || t.named_children(args).len() != 0 {
                None
            } else {
                match t.text(f) {
                    Some(name) => match function_named(t, t.children(0), name) {
                        Some(d) => getenv_default(t, d),
                        None => None,
                    },
                    None => None,
                }
            },
            _ => None,
        }
    }
}

/// The texts of the nodes that have one.
pub open spec fn node_texts(t: TreeView, ks: Seq<int>) -> Seq<Seq<char>>
    decreases ks.len(),
{
    if ks.len() == 0 {
        Seq::empty()
    } else {
        model::with(node_texts(t, ks.drop_last()), t.text(ks.last()))
    }
}

/// The names that a `var` or `const` specification declares.
pub open spec fn spec_names(t: TreeView, i: int) -> Seq<Seq<char>> {
    node_texts(t, t.field_children(i, "name"@))
}

/// The values that a `var` or `const` specification gives.
pub open spec fn spec_values(t: TreeView, i: int) -> Seq<int> {
    match t.field(i, "value"@) {
        Some(list) => t.named_children(list),
        None => Seq::empty(),
    }
}

/// The number of names that a specification gives a value.
pub open spec fn spec_pairs(t: TreeView, i: int) -> int {
    if spec_names(t, i).len() < spec_values(t, i).len() {
        spec_names(t, i).len() as int
    } else {
        spec_values(t, i).len() as int
    }
}

/// The constants with the defaults of the first `n` names of a specification, where a
/// name is not bound already.
pub open spec fn bind_defaults(t: TreeView, i: int, n: int, m: Map<Seq<char>, Seq<char>>) -> Map<Seq<char>, Seq<char>>
    decreases n,
{
    if n <= 0 {
        m
    } else {
        bind_default(t, spec_names(t, i)[n - 1], spec_values(t, i)[n - 1], bind_defaults(t, i, n - 1, m))
    }
}

/// The constants with the default of a name's value, where the name is not bound already.
pub open spec fn bind_default(t: TreeView, name: Seq<char>, value: int, m: Map<Seq<char>, Seq<char>>) -> Map<Seq<char>, Seq<char>> {
    if m.dom().contains(name) {
        m
    } else {
        match call_default(t, value) {
            Some(d) => m.insert(name, d),
            None => m,
        }
    }
}

/// The constants with the literals of the first `n` names of a specification.
pub open spec fn bind_literals(t: TreeView, i: int, n: int, m: Map<Seq<char>, Seq<char>>) -> Map<Seq<char>, Seq<char>>
    decreases n,
{
    if n <= 0 {
        m
    } else {
        let rest = bind_literals(t, i, n - 1, m);
        let v = spec_values(t, i)[n - 1];
        if is_string(t, v) {
            match string_value(t, v) {
                Some(s) => rest.insert(spec_names(t, i)[n - 1], s),
                None => rest,
            }
        } else {
            rest
        }
    }
}

/// Whether node `i` is a `var` or `const` specification.
pub open spec fn is_spec(t: TreeView, i: int) -> bool {
    t.kind(i) == "var_spec"@ || t.kind(i) == "const_spec"@
}

/// A walk that gathers the defaults of variables set from the environment.
pub struct DefaultRules;

impl View for DefaultRules {
    type V = ();

    open spec fn view(&self) -> () {
        ()
    }
}

impl TreeRules for DefaultRules {
    type Context = ();

    type Output = TextMap;

    open spec fn on_node(rules: (), t: TreeView, parent: Option<int>, i: int, c: (), o: Map<Seq<char>, Seq<char>>) -> (Map<Seq<char>, Seq<char>>, Option<()>) {
        (
            if is_spec(t, i) {
                bind_defaults(t, i, spec_pairs(t, i), o)
            } else {
                o
            },
            Some(()),
        )
    }

    fn visit(&self, t: &SyntaxTree, parent: Option<usize>, i: usize, c: &(), o: &mut TextMap) -> (r: Option<()>) {
        if t.kind_is(i, "var_spec") || t.kind_is(i, "const_spec") {
            GoExtractor::resolve_var_spec_getenv_default(t, i, o);
        }
        Some(())
    }
}

/// The defaults of variables that a file sets from the environment.
pub open spec fn getenv_defaults(t: TreeView) -> Map<Seq<char>, Seq<char>> {
    syntax::walk_tree::<DefaultRules>((), t, AstGuard::MAX_NESTING_DEPTH as int, (), Map::empty())
}

/// A walk that gathers the plain string literals below a node, but not those inside a
/// literal of a named struct.
pub struct LiteralRules;

impl View for LiteralRules {
    type V = ();

    open spec fn view(&self) -> () {
        ()
    }
}

/// Whether node `i` is a literal of a named struct.
pub open spec fn is_named_struct(t: TreeView, i: int) -> bool {
    t.kind(i) == "composite_literal"@ && match t.field(i, "type"@) {
        Some(ty) => t.kind(ty) == "qualified_type"@ || t.kind(ty) == "type_identifier"@,
        None => false,
    }
}

/// What an interpreted string literal holds, where it holds something.
pub open spec fn plain_literal(t: TreeView, i: int) -> Option<Seq<char>> {
    match t.text(i) {
        Some(s) => if text::trim_set(s, "\""@).len() > 0 {
            Some(text::trim_set(s, "\""@))
        } else {
            None
        },
        None => None,
    }
}

impl TreeRules for LiteralRules {
    type Context = ();

    type Output = NameList;

    open spec fn on_node(rules: (), t: TreeView, parent: Option<int>, i: int, c: (), o: Seq<Seq<char>>) -> (Seq<Seq<char>>, Option<()>) {
        if t.kind(i) == "interpreted_string_literal"@ {
            (model::with(o, plain_literal(t, i)), None)
        } else if is_named_struct(t, i) {
            (o, None)
        } else {
            (o, Some(()))
        }
    }

    fn visit(&self, t: &SyntaxTree, parent: Option<usize>, i: usize, c: &(), o: &mut NameList) -> (r: Option<()>) {
        if t.kind_is(i, "interpreted_string_literal") {
            let found = match t.text(i) {
                Some(s) => {
                    let inner = text::trimmed_of(s, "\"");
                    if inner.len() > 0 {
                        Some(text::string_of(inner))
                    } else {
                        None
                    }
                },
                None => None,
            };
            o.add(found);
            return None;
        }
        if t.kind_is(i, "composite_literal") {
            match t.field(i, "type") {
                Some(ty) => if t.kind_is(ty, "qualified_type") || t.kind_is(ty, "type_identifier") {
                    return None;
                },
                None => {},
            }
        }
        Some(())
    }
}

/// The plain string literals below a node.
pub open spec fn literals_below(t: TreeView, i: int) -> Seq<Seq<char>> {
    syntax::walk_node::<LiteralRules>((), t, i, AstGuard::MAX_NESTING_DEPTH as int, (), Seq::empty())
}

/// The node inside an element of a literal and behind an address operator.
pub open spec fn unwrapped(t: TreeView, v: int) -> int {
    let inner = if t.kind(v) == "literal_element"@ {
        match t.named_child(v, 0) {
            Some(k) => k,
            None => v,
        }
    } else {
        v
    };
    if t.kind(inner) == "unary_expression"@ {
        match t.field(inner, "operand"@) {
            Some(k) => k,
            None => inner,
        }
    } else {
        inner
    }
}

/// The topic that a field's value names: its first literal, or the constant it refers to.
pub open spec fn topic_value(t: TreeView, v: int, consts: Map<Seq<char>, Seq<char>>) -> Option<Seq<char>> {
    let literals = literals_below(t, v);
    if literals.len() > 0 {
        Some(literals[0])
    } else {
        let u = unwrapped(t, v);
        let name = if t.kind(u) == "identifier"@ {
            t.text(u)
        } else if t.kind(u) == "selector_expression"@ {
            t.field_text(u, "field"@)
        } else {
            None
        };
        match name {
            Some(n) => model::lookup(consts, n),
            None => None,
        }
    }
}

/// The topic of a struct literal: that of its `Topic` field, or of the literal in its
/// `TopicPartition` field.
pub open spec fn topic_field(t: TreeView, lit: int, consts: Map<Seq<char>, Seq<char>>) -> Option<Seq<char>>
    decreases t.rows.len() - lit, 1int, 0int,
{
    match t.field(lit, "body"@) {
        Some(body) => topic_in(t, lit, t.children(body), consts),
        None => None,
    }
}

/// The topic that the elements of a literal name.
pub open spec fn topic_in(t: TreeView, lit: int, elems: Seq<int>, consts: Map<Seq<char>, Seq<char>>) -> Option<Seq<char>>
    decreases t.rows.len() - lit, 0int, elems.len(),
{
    if elems.len() == 0 {
        None
    } else {
        let rest = topic_in(t, lit, elems.drop_first(), consts);
        if t.kind(elems[0]) != "keyed_element"@ {
            rest
        } else {
            match t.field_text(elems[0], "key"@) {
                Some(key) => if key == "Topic"@ {
                    match t.field(elems[0], "value"@) {
                        Some(v) => topic_value(t, v, consts),
                        None => None,
                    }
                } else if key == "TopicPartition"@ {
                    match t.field(elems[0], "value"@) {
                        Some(v) => {
                            let u = unwrapped(t, v);
                            if t.kind(u) == "composite_literal"@ && lit < u < t.rows.len() {
                                match topic_field(t, u, consts) {
                                    Some(topic) => Some(topic),
                                    None => rest,
                                }
                            } else {
                                rest
                            }
                        },
                        None => rest,
                    }
                } else {
                    rest
                },
                None => rest,
            }
        }
    }
}

/// Whether a struct of the given type produces its topic; nothing for other types.
pub open spec fn literal_role(ty: Seq<char>) -> Option<bool> {
    if ty == "ReaderConfig"@ {
        Some(false)
    } else if ty == "WriterConfig"@ || ty == "ProducerMessage"@ || ty == "Message"@ || ty == "Writer"@ {
        Some(true)
    } else {
        None
    }
}

/// The event that a composite literal stands for, if it stands for one.
pub open spec fn literal_event(t: TreeView, i: int, consts: Map<Seq<char>, Seq<char>>) -> Option<RawEventView> {
    match literal_type(t, i) {
        Some(ty) => match literal_role(ty) {
            Some(is_producer) => match topic_field(t, i, consts) {
                Some(topic) => Some(RawEventView { line_start: t.line(i), line_end: t.end_line(i), topic, is_producer }),
                None => None,
            },
            None => None,
        },
        None => None,
    }
}

/// Whether the package is a library with clients that are no gRPC clients.
pub open spec fn is_third_party(s: Seq<char>) -> bool {
    s == "redis"@ || s == "http"@ || s == "mongo"@ || s == "s3"@ || s == "sqs"@ || s == "vault"@ || s == "elastic"@ || s == "sql"@
        || s == "db"@ || s == "kafka"@ || s == "sarama"@
}

/// What stands between a prefix and a suffix of a name, where something does. The two
/// may not overlap.
pub open spec fn between(s: Seq<char>, prefix: Seq<char>, suffix: Seq<char>) -> Option<Seq<char>> {
    if text::starts_with(s, prefix) && text::ends_with(s, suffix) && prefix.len() + suffix.len() < s.len() {
        Some(s.subrange(prefix.len() as int, s.len() - suffix.len()))
    } else {
        None
    }
}

/// The package in front of the method that a call selects.
pub open spec fn call_operand(t: TreeView, i: int) -> Seq<char> {
    match t.field(i, "function"@) {
        Some(f) => text::or(t.field_text(f, "operand"@), ""@),
        None => ""@,
    }
}

/// The client construction that a call is: `pb.NewFooClient(conn)`.
pub open spec fn client_call(t: TreeView, i: int, method: Seq<char>) -> Option<RawRpcCallView> {
    if is_third_party(call_operand(t, i)) {
        None
    } else {
        match between(method, "New"@, "Client"@) {
            Some(service_name) => Some(RawRpcCallView { line_start: t.line(i), line_end: t.end_line(i), service_name }),
            None => None,
        }
    }
}

/// The service that a call registers: `pb.RegisterFooServer(s, srv)`.
pub open spec fn service_node(t: TreeView, i: int, method: Seq<char>, path: Seq<char>, repo_id: RepoId, package: Seq<char>) -> Option<ContractNodeView> {
    match between(method, "Register"@, "Server"@) {
        Some(name) => Some(model::declared(t, i, path, repo_id, package, name, NodeKind::GrpcService, text::or(t.head(i), ""@))),
        None => None,
    }
}

/// Whether the text is the name of a router's method.
pub open spec fn is_router_method(s: Seq<char>) -> bool {
    s == "get"@ || s == "post"@ || s == "put"@ || s == "delete"@ || s == "patch"@ || s == "head"@ || s == "options"@
}

/// The path that a route registration names: `r.Get("/health", handler)`.
pub open spec fn route_path(t: TreeView, i: int) -> Option<Seq<char>> {
    match t.field(i, "arguments"@) {
        Some(args) => {
            let ks = t.named_children(args);
            if ks.len() >= 2 && t.kind(ks[0]) == "interpreted_string_literal"@ {
                match t.text(ks[0]) {
                    Some(s) => {
                        let route = text::trim_set(s, "\""@);
                        if route.len() > 0 && route[0] == '/' {
                            Some(route)
                        } else {
                            None
                        }
                    },
                    None => None,
                }
            } else {
                None
            }
        },
        None => None,
    }
}

/// The endpoint that a call registers, if it registers one.
pub open spec fn route_node(t: TreeView, i: int, method: Seq<char>, path: Seq<char>, repo_id: RepoId, package: Seq<char>) -> Option<ContractNodeView> {
    if is_router_method(text::lowered(method)) {
        match route_path(t, i) {
            Some(route) => {
                let name = common::endpoint_name(method, route);
                Some(model::declared(t, i, path, repo_id, package, name, NodeKind::HttpEndpoint, name))
            },
            None => None,
        }
    } else {
        None
    }
}

/// Whether a method sends to a topic.
pub open spec fn is_producer_call(method: Seq<char>) -> bool {
    method == "WriteMessages"@ || method == "SendMessage"@ || method == "Produce"@
}

/// Whether a method receives from a topic.
pub open spec fn is_consumer_call(method: Seq<char>) -> bool {
    method == "ReadMessage"@ || method == "FetchMessage"@ || method == "ConsumePartition"@ || method == "SubscribeTopics"@
        || method == "Subscribe"@
}

/// The events that a call stands for: one per literal among its arguments.
pub open spec fn call_events(t: TreeView, i: int, method: Seq<char>) -> Seq<RawEventView> {
    if is_producer_call(method) || is_consumer_call(method) {
        let literals = match t.field(i, "arguments"@) {
            Some(args) => literals_below(t, args),
            None => Seq::empty(),
        };
        literals.map_values(
            |topic: Seq<char>| RawEventView { line_start: t.line(i), line_end: t.end_line(i), topic, is_producer: is_producer_call(method) },
        )
    } else {
        Seq::empty()
    }
}

/// The type that a method is declared on.
pub open spec fn method_receiver(t: TreeView, i: int) -> Option<Seq<char>> {
    match t.field(i, "receiver"@) {
        Some(r) => match t.named_child(r, 0) {
            Some(param) => match t.field(param, "type"@) {
                Some(ty) => if t.kind(ty) == "pointer_type"@ {
                    match t.named_child(ty, 0) {
                        Some(k) => t.text(k),
                        None => None,
                    }
                } else {
                    t.text(ty)
                },
                None => None,
            },
            None => None,
        },
        None => None,
    }
}

/// Whether the first line of a function takes what HTTP handlers take.
pub open spec fn is_http_signature(s: Seq<char>) -> bool {
    text::contains(s, "ResponseWriter"@) || text::contains(s, "Request"@) || text::contains(s, "Context"@) || text::contains(s, "Ctx"@)
}

/// What a function or method is.
pub open spec fn function_kind(t: TreeView, i: int, name: Seq<char>, line: Seq<char>, servers: Seq<Seq<char>>) -> NodeKind {
    let serves = t.kind(i) == "method_declaration"@ && match method_receiver(t, i) {
        Some(r) => servers.contains(r),
        None => false,
    };
    if serves {
        NodeKind::GrpcMethod
    } else if (text::starts_with(name, "Handle"@) || text::ends_with(name, "Handler"@)) && is_http_signature(line) {
        NodeKind::HttpEndpoint
    } else {
        NodeKind::ServiceClass
    }
}

/// The type that a declaration declares, by its first line.
pub open spec fn type_node(t: TreeView, i: int, path: Seq<char>, repo_id: RepoId, package: Seq<char>) -> Option<ContractNodeView> {
    match t.text(i) {
        Some(s) => {
            let line = text::trim(text::or(text::first_line(s), ""@));
            let parts = text::words(line);
            if parts.len() >= 2 && parts[0] == "type"@ {
                let kind = if text::contains(line, "interface"@) {
                    NodeKind::Interface
                } else {
                    NodeKind::ServiceClass
                };
                Some(model::declared(t, i, path, repo_id, package, parts[1], kind, line))
            } else {
                None
            }
        },
        None => None,
    }
}

/// The package that a clause names.
pub open spec fn package_name(s: Seq<char>) -> Seq<char> {
    text::trim(text::strip_repeated(s, "package "@))
}

/// The import that a specification makes.
pub open spec fn import_of(t: TreeView, spec_node: int) -> Option<RawImportView> {
    match t.field_text(spec_node, "path"@) {
        Some(raw) => {
            let path = text::trim_set(raw, "\""@);
            if path.len() == 0 {
                None
            } else {
                match t.field(spec_node, "name"@) {
                    Some(n) => match t.text(n) {
                        Some(name) => if name == "_"@ {
                            Some(RawImportView { ref_ident: ""@, path, is_blank: true })
                        } else {
                            Some(RawImportView { ref_ident: name, path, is_blank: false })
                        },
                        None => Some(RawImportView { ref_ident: ""@, path, is_blank: false }),
                    },
                    None => Some(
                        RawImportView { ref_ident: text::before_first(text::after_last(path, '/'), '.'), path, is_blank: false },
                    ),
                }
            }
        },
        None => None,
    }
}

/// The import specifications among the children of a declaration, in order.
pub open spec fn import_specs(t: TreeView, ks: Seq<int>) -> Seq<int>
    decreases ks.len(),
{
    if ks.len() == 0 {
        Seq::empty()
    } else {
        let rest = import_specs(t, ks.drop_last());
        if t.kind(ks.last()) == "import_spec"@ {
            rest.push(ks.last())
        } else if t.kind(ks.last()) == "import_spec_list"@ {
            rest + t.of_kind(t.children(ks.last()), "import_spec"@)
        } else {
            rest
        }
    }
}

/// The imports that the specifications make.
pub open spec fn imports_of(t: TreeView, ks: Seq<int>) -> Seq<RawImportView>
    decreases ks.len(),
{
    if ks.len() == 0 {
        Seq::empty()
    } else {
        model::with(imports_of(t, ks.drop_last()), import_of(t, ks.last()))
    }
}

/// What a walk has gathered after node `i`.
pub open spec fn go_step(t: TreeView, i: int, path: Seq<char>, repo_id: RepoId, packages: PackagesView, servers: Seq<Seq<char>>, o: GoFoundView) -> GoFoundView {
    let k = t.kind(i);
    if is_spec(t, i) {
        GoFoundView { consts: bind_literals(t, i, spec_pairs(t, i), o.consts), ..o }
    } else if k == "package_clause"@ {
        match t.text(i) {
            Some(s) => GoFoundView { package: packages.package_for(package_name(s)), ..o },
            None => o,
        }
    } else if k == "import_declaration"@ {
        GoFoundView { imports: o.imports + imports_of(t, import_specs(t, t.children(i))), ..o }
    } else if k == "type_declaration"@ {
        GoFoundView { nodes: model::with(o.nodes, type_node(t, i, path, repo_id, o.package)), ..o }
    } else if k == "function_declaration"@ || k == "method_declaration"@ {
        let name = text::or(t.field_text(i, "name"@), "unknownFunc"@);
        let line = text::or(t.head(i), name);
        GoFoundView {
            nodes: o.nodes.push(
                model::declared(t, i, path, repo_id, o.package, name, function_kind(t, i, name, line, servers), line),
            ),
            ..o
        }
    } else if k == "call_expression"@ {
        match selected_method(t, i) {
            Some(method) => GoFoundView {
                nodes: model::with(
                    model::with(o.nodes, service_node(t, i, method, path, repo_id, o.package)),
                    route_node(t, i, method, path, repo_id, o.package),
                ),
                events: o.events + call_events(t, i, method),
                calls: model::with(o.calls, client_call(t, i, method)),
                ..o
            },
            None => o,
        }
    } else if k == "composite_literal"@ {
        GoFoundView { events: model::with(o.events, literal_event(t, i, o.consts)), ..o }
    } else {
        o
    }
}

/// What a walk over a Go file does at each node.
pub struct GoRules<'a> {
    pub path: &'a str,
    pub repo_id: RepoId,
    pub packages: &'a ServicePackages,
    pub servers: &'a Vec<String>,
}

/// The settings of a walk over a Go file, as a mathematical value.
pub struct GoRulesView {
    pub path: Seq<char>,
    pub repo_id: RepoId,
    pub packages: PackagesView,
    pub servers: Seq<Seq<char>>,
}

impl<'a> View for GoRules<'a> {
    type V = GoRulesView;

    open spec fn view(&self) -> GoRulesView {
        GoRulesView { path: self.path@, repo_id: self.repo_id, packages: self.packages@, servers: text::strings(self.servers@) }
    }
}

impl<'a> TreeRules for GoRules<'a> {
    type Context = ();

    type Output = GoFound;

    open spec fn on_node(rules: GoRulesView, t: TreeView, parent: Option<int>, i: int, c: (), o: GoFoundView) -> (GoFoundView, Option<()>) {
        (go_step(t, i, rules.path, rules.repo_id, rules.packages, rules.servers, o), Some(()))
    }

    fn visit(&self, t: &SyntaxTree, parent: Option<usize>, i: usize, c: &(), o: &mut GoFound) -> (r: Option<()>) {
        GoExtractor::visit_node(t, i, self.path, self.repo_id, self.packages, self.servers, o);
        Some(())
    }
}

/// What the walk over a file gathers.
pub open spec fn go_found(t: TreeView, path: Seq<char>, repo_id: RepoId, packages: PackagesView) -> GoFoundView {
    syntax::walk_tree::<GoRules>(
        GoRulesView { path, repo_id, packages, servers: server_types(t) },
        t,
        AstGuard::MAX_NESTING_DEPTH as int,
        (),
        GoFoundView {
            package: ""@,
            nodes: Seq::empty(),
            consts: getenv_defaults(t),
            imports: Seq::empty(),
            events: Seq::empty(),
            calls: Seq::empty(),
        },
    )
}

/// The links that one import gives the first `n` declarations: a blank import links all,
/// any other those that its identifier stands in.
pub open spec fn import_links(ls: Seq<Seq<char>>, nodes: Seq<ContractNodeView>, imp: RawImportView, n: int) -> Seq<(int, Seq<char>)>
    decreases n,
{
    if n <= 0 {
        Seq::empty()
    } else {
        let rest = import_links(ls, nodes, imp, n - 1);
        if imp.is_blank || (imp.ref_ident.len() > 0 && common::stands_in(ls, nodes[n - 1], imp.ref_ident)) {
            rest.push((n - 1, imp.path))
        } else {
            rest
        }
    }
}

/// The links that imports give to declarations.
pub open spec fn dependency_links(ls: Seq<Seq<char>>, nodes: Seq<ContractNodeView>, imports: Seq<RawImportView>) -> Seq<(int, Seq<char>)>
    decreases imports.len(),
{
    if imports.len() == 0 {
        Seq::empty()
    } else {
        dependency_links(ls, nodes, imports.drop_last()) + import_links(ls, nodes, imports.last(), nodes.len() as int)
    }
}

/// Declarations with the links of events to them.
#[verifier::ext_equal]
pub struct EventState {
    pub nodes: Seq<ContractNodeView>,
    pub producers: Seq<(int, Seq<char>)>,
    pub consumers: Seq<(int, Seq<char>)>,
}

/// The declaration made up for an event that none encloses.
pub open spec fn marker(e: RawEventView, path: Seq<char>, repo_id: RepoId, package: Seq<char>) -> ContractNodeView {
    ContractNodeView {
        id: 0,
        name: e.topic,
        kind: if e.is_producer {
            NodeKind::EventStream
        } else {
            NodeKind::KafkaTopic
        },
        file_path: path,
        line_start: e.line_start,
        line_end: e.line_end,
        package,
        repo_id,
        signature: Some(
            if e.is_producer {
                "Producer of "@ + e.topic
            } else {
                "Consumer of "@ + e.topic
            },
        ),
        docstring: None,
    }
}

/// The state after one event is attached to the smallest declaration around it, or to a
/// declaration made up for it.
pub open spec fn attach(s: EventState, e: RawEventView, path: Seq<char>, repo_id: RepoId, package: Seq<char>) -> EventState {
    let (nodes, k) = match common::smallest(s.nodes, e.line_start, e.line_end) {
        Some(k) => (s.nodes, k),
        None => (s.nodes.push(marker(e, path, repo_id, package)), s.nodes.len() as int),
    };
    if e.is_producer {
        EventState { nodes, producers: s.producers.push((k, e.topic)), consumers: s.consumers }
    } else {
        EventState { nodes, producers: s.producers, consumers: s.consumers.push((k, e.topic)) }
    }
}

/// The state after all events are attached, in order.
pub open spec fn attach_all(s: EventState, events: Seq<RawEventView>, path: Seq<char>, repo_id: RepoId, package: Seq<char>) -> EventState
    decreases events.len(),
{
    if events.len() == 0 {
        s
    } else {
        attach(attach_all(s, events.drop_last(), path, repo_id, package), events.last(), path, repo_id, package)
    }
}

/// The links from the declarations around client constructions to their services.
pub open spec fn call_links(nodes: Seq<ContractNodeView>, calls: Seq<RawRpcCallView>) -> Seq<(int, Seq<char>)>
    decreases calls.len(),
{
    if calls.len() == 0 {
        Seq::empty()
    } else {
        let rest = call_links(nodes, calls.drop_last());
        match common::smallest(nodes, calls.last().line_start, calls.last().line_end) {
            Some(k) => rest.push((k, calls.last().service_name)),
            None => rest,
        }
    }
}

/// The declarations of a file and the relations found beside them.
pub open spec fn go_extract(t: TreeView, path: Seq<char>, repo_id: RepoId, packages: PackagesView) -> (Seq<ContractNodeView>, GoRelationsView) {
    let found = go_found(t, path, repo_id, packages);
    let events = attach_all(
        EventState { nodes: found.nodes, producers: Seq::empty(), consumers: Seq::empty() },
        found.events,
        path,
        repo_id,
        found.package,
    );
    (
        events.nodes,
        GoRelationsView {
            dependencies: dependency_links(text::lines(t.src), found.nodes, found.imports),
            producers: events.producers,
            consumers: events.consumers,
            rpc_calls: call_links(events.nodes, found.calls),
        },
    )
}

proof fn lemma_import_links_below(ls: Seq<Seq<char>>, nodes: Seq<ContractNodeView>, imp: RawImportView, n: int)
    requires
        0 <= n,
    ensures
        index::links_below(import_links(ls, nodes, imp, n), n),
    decreases n,
{
    if n > 0 {
        lemma_import_links_below(ls, nodes, imp, n - 1);
    }
}

proof fn lemma_dependency_links_below(ls: Seq<Seq<char>>, nodes: Seq<ContractNodeView>, imports: Seq<RawImportView>)
    ensures
        index::links_below(dependency_links(ls, nodes, imports), nodes.len() as int),
    decreases imports.len(),
{
    if imports.len() > 0 {
        lemma_dependency_links_below(ls, nodes, imports.drop_last());
        lemma_import_links_below(ls, nodes, imports.last(), nodes.len() as int);
        let a = dependency_links(ls, nodes, imports.drop_last());
        let b = import_links(ls, nodes, imports.last(), nodes.len() as int);
        assert forall|j: int| 0 <= j < (a + b).len() implies 0 <= (#[trigger] (a + b)[j]).0 < nodes.len() by {
            if j < a.len() {
                assert((a + b)[j] == a[j]);
            } else {
                assert((a + b)[j] == b[j - a.len()]);
            }
        }
    }
}

proof fn lemma_attached_below(s: EventState, events: Seq<RawEventView>, path: Seq<char>, repo_id: RepoId, package: Seq<char>)
    requires
        index::links_below(s.producers, s.nodes.len() as int),
        index::links_below(s.consumers, s.nodes.len() as int),
    ensures
        ({
            let r = attach_all(s, events, path, repo_id, package);
            &&& s.nodes.len() <= r.nodes.len()
            &&& index::links_below(r.producers, r.nodes.len() as int)
            &&& index::links_below(r.consumers, r.nodes.len() as int)
        }),
    decreases events.len(),
{
    if events.len() > 0 {
        lemma_attached_below(s, events.drop_last(), path, repo_id, package);
        let before = attach_all(s, events.drop_last(), path, repo_id, package);
        common::law_smallest_encloses(before.nodes, events.last().line_start, events.last().line_end);
    }
}

proof fn lemma_call_links_below(nodes: Seq<ContractNodeView>, calls: Seq<RawRpcCallView>)
    ensures
        index::links_below(call_links(nodes, calls), nodes.len() as int),
    decreases calls.len(),
{
    if calls.len() > 0 {
        lemma_call_links_below(nodes, calls.drop_last());
        common::law_smallest_encloses(nodes, calls.last().line_start, calls.last().line_end);
    }
}

proof fn lemma_attached_belong(
    s: EventState,
    events: Seq<RawEventView>,
    path: Seq<char>,
    repo_id: RepoId,
    package: Seq<char>,
    packages: PackagesView,
)
    requires
        model::belong_among(s.nodes, path, repo_id, packages, ""@),
        packages.gives(package, ""@),
    ensures
        model::belong_among(attach_all(s, events, path, repo_id, package).nodes, path, repo_id, packages, ""@),
    decreases events.len(),
{
    if events.len() > 0 {
        lemma_attached_belong(s, events.drop_last(), path, repo_id, package, packages);
    }
}

/// Every declaration of a file carries the file's path and its repository and has no number
/// yet, and its package is none or stands for a name that is declared.
pub proof fn law_go_nodes_belong(t: TreeView, path: Seq<char>, repo_id: RepoId, packages: PackagesView)
    ensures
        model::belong_among(go_extract(t, path, repo_id, packages).0, path, repo_id, packages, ""@),
{
    let rules = GoRulesView { path, repo_id, packages, servers: server_types(t) };
    let holds = |c: (), o: GoFoundView|
        model::belong_among(o.nodes, path, repo_id, packages, ""@) && packages.gives(o.package, ""@);
    let start = GoFoundView {
        package: ""@,
        nodes: Seq::empty(),
        consts: getenv_defaults(t),
        imports: Seq::empty(),
        events: Seq::empty(),
        calls: Seq::empty(),
    };
    assert(syntax::keeps::<GoRules>(rules, t, holds));
    syntax::lemma_walk_keeps::<GoRules>(
        rules,
        t,
        None,
        0,
        t.rows.len() as int,
        0,
        AstGuard::MAX_NESTING_DEPTH as int,
        (),
        (),
        start,
        holds,
    );
    let found = go_found(t, path, repo_id, packages);
    lemma_attached_belong(
        EventState { nodes: found.nodes, producers: Seq::empty(), consumers: Seq::empty() },
        found.events,
        path,
        repo_id,
        found.package,
        packages,
    );
}

/// Every relation of a file starts from one of its declarations.
pub proof fn law_go_links(t: TreeView, path: Seq<char>, repo_id: RepoId, packages: PackagesView)
    ensures
        ({
            let (nodes, relations) = go_extract(t, path, repo_id, packages);
            let n = nodes.len() as int;
            &&& index::links_below(relations.dependencies, n)
            &&& index::links_below(relations.producers, n)
            &&& index::links_below(relations.consumers, n)
            &&& index::links_below(relations.rpc_calls, n)
        }),
{
    let found = go_found(t, path, repo_id, packages);
    let start = EventState { nodes: found.nodes, producers: Seq::empty(), consumers: Seq::empty() };
    lemma_attached_below(start, found.events, path, repo_id, found.package);
    let events = attach_all(start, found.events, path, repo_id, found.package);
    lemma_dependency_links_below(text::lines(t.src), found.nodes, found.imports);
    lemma_call_links_below(events.nodes, found.calls);
}

impl GoExtractor {
    /// The declarations of a file.
    pub fn extract(file_path: &str, content: &str, repo_id: RepoId, packages: &ServicePackages, parser: &mut tree_sitter::Parser) -> (r: Vec<ContractNode>)
        ensures
            exists|done: bool|
                match #[trigger] syntax::outcome(*old(parser), content@, done) {
                    Some(t) => model::nodes_view(r@) == go_extract(t, file_path@, repo_id, packages@).0,
                    None => r@.len() == 0,
                },
    {
        match syntax::parse(parser, content) {
            Some(tree) => {
                assert(syntax::outcome(*old(parser), content@, true) is Some);
                Self::extract_with_relations(file_path, content, repo_id, packages, &tree).0
            },
            None => {
                assert(syntax::outcome(*old(parser), content@, false) is None);
                Vec::new()
            },
        }
    }

    /// The declarations of a parsed file and the relations found beside them.
    pub fn extract_with_relations(file_path: &str, content: &str, repo_id: RepoId, packages: &ServicePackages, tree: &tree_sitter::Tree) -> (r: (Vec<ContractNode>, GoRelations))
        ensures
            ({
                let (nodes, relations) = go_extract(TreeView { rows: syntax::tree_rows(*tree), src: content@ }, file_path@, repo_id, packages@);
                &&& model::nodes_view(r.0@) == nodes
                &&& r.1@ == relations
            }),
    {
        let t = SyntaxTree::of(tree, content);
        Self::extract_tree(file_path, repo_id, packages, &t)
    }

    /// The declarations of a syntax tree and the relations found beside them.
    pub fn extract_tree(file_path: &str, repo_id: RepoId, packages: &ServicePackages, t: &SyntaxTree) -> (r: (Vec<ContractNode>, GoRelations))
        ensures
            model::nodes_view(r.0@) == go_extract(t@, file_path@, repo_id, packages@).0,
            r.1@ == go_extract(t@, file_path@, repo_id, packages@).1,
    {
        let mut servers = NameList::new();
        syntax::run_tree(&ServerRules, t, AstGuard::MAX_NESTING_DEPTH, &(), &mut servers);
        let mut consts = TextMap::new();
        syntax::run_tree(&DefaultRules, t, AstGuard::MAX_NESTING_DEPTH, &(), &mut consts);
        let rules = GoRules { path: file_path, repo_id, packages, servers: &servers.items };
        let mut found = GoFound {
            package: text::copy(""),
            nodes: Vec::new(),
            consts,
            imports: Vec::new(),
            events: Vec::new(),
            calls: Vec::new(),
        };
        assert(found@ == (GoFoundView {
            package: ""@,
            nodes: Seq::empty(),
            consts: getenv_defaults(t@),
            imports: Seq::empty(),
            events: Seq::empty(),
            calls: Seq::empty(),
        }));
        syntax::run_tree(&rules, t, AstGuard::MAX_NESTING_DEPTH, &(), &mut found);
        let ghost seen = found@;
        let dependencies = Self::resolve_dependencies(t, &found.nodes, &found.imports);
        let mut relations = GoRelations { dependencies, producers: Vec::new(), consumers: Vec::new(), rpc_calls: Vec::new() };
        let mut nodes = found.nodes;
        assert(relations@.producers == Seq::<(int, Seq<char>)>::empty());
        assert(relations@.consumers == Seq::<(int, Seq<char>)>::empty());
        Self::resolve_events(&mut nodes, &found.events, file_path, repo_id, found.package.as_str(), &mut relations);
        relations.rpc_calls = Self::resolve_rpc_calls(&nodes, &found.calls);
        (nodes, relations)
    }

    /// Links each declaration to the imports that it uses. A file-level import does not
    /// attach to every declaration, but a blank import, which runs only for its side
    /// effects, does.
    fn resolve_dependencies(t: &SyntaxTree, nodes: &Vec<ContractNode>, imports: &Vec<RawImport>) -> (r: Vec<(usize, String)>)
        ensures
            model::links_view(r@) == dependency_links(text::lines(t@.src), model::nodes_view(nodes@), imports_view(imports@)),
    {
        let ls = text::lines_of(t.source());
        let ghost lv = text::texts(ls@);
        let ghost nv = model::nodes_view(nodes@);
        let ghost iv = imports_view(imports@);
        let mut out: Vec<(usize, String)> = Vec::new();
        let mut j: usize = 0;
        assert(model::links_view(out@) == dependency_links(lv, nv, iv.take(0)));
        while j < imports.len()
            invariant
                0 <= j <= imports@.len(),
                lv == text::texts(ls@),
                nv == model::nodes_view(nodes@),
                iv == imports_view(imports@),
                model::links_view(out@) == dependency_links(lv, nv, iv.take(j as int)),
            decreases imports@.len() - j,
        {
            let imp = &imports[j];
            let name = text::chars_of(imp.ref_ident.as_str());
            let ghost before = model::links_view(out@);
            let mut n: usize = 0;
            assert(before + import_links(lv, nv, imp@, 0) == before);
            while n < nodes.len()
                invariant
                    0 <= n <= nodes@.len(),
                    lv == text::texts(ls@),
                    nv == model::nodes_view(nodes@),
                    name@ == imp@.ref_ident,
                    model::links_view(out@) == before + import_links(lv, nv, imp@, n as int),
                decreases nodes@.len() - n,
            {
                assert(nv[n as int] == nodes@[n as int]@);
                if imp.is_blank || (name.len() > 0 && common::used_in(&ls, &nodes[n], name.as_slice())) {
                    model::push_link(&mut out, n, text::copy(imp.path.as_str()));
                    assert(before + import_links(lv, nv, imp@, n as int).push((n as int, imp@.path)) == (before + import_links(lv, nv, imp@, n as int)).push((n as int, imp@.path)));
                }
                n += 1;
            }
            proof {
                assert(iv[j as int] == imp@);
                syntax::lemma_take_step(iv, j as int);
            }
            j += 1;
        }
        assert(iv.take(j as int) == iv);
        out
    }

    /// Attaches each event to the smallest declaration around it, or to one made up for it.
    fn resolve_events(nodes: &mut Vec<ContractNode>, events: &Vec<RawEvent>, path: &str, repo_id: RepoId, package: &str, relations: &mut GoRelations)
        ensures
            ({
                let before = EventState {
                    nodes: model::nodes_view(old(nodes)@),
                    producers: old(relations)@.producers,
                    consumers: old(relations)@.consumers,
                };
                let after = attach_all(before, events_view(events@), path@, repo_id, package@);
                &&& model::nodes_view(final(nodes)@) == after.nodes
                &&& final(relations)@ == (GoRelationsView { producers: after.producers, consumers: after.consumers, ..old(relations)@ })
            }),
    {
        let ghost ev = events_view(events@);
        let ghost start = EventState { nodes: model::nodes_view(nodes@), producers: relations@.producers, consumers: relations@.consumers };
        let ghost rest = relations@;
        let mut j: usize = 0;
        while j < events.len()
            invariant
                0 <= j <= events@.len(),
                ev == events_view(events@),
                ({
                    let now = attach_all(start, ev.take(j as int), path@, repo_id, package@);
                    &&& model::nodes_view(nodes@) == now.nodes
                    &&& relations@ == (GoRelationsView { producers: now.producers, consumers: now.consumers, ..rest })
                }),
            decreases events@.len() - j,
        {
            let e = &events[j];
            proof {
                assert(ev[j as int] == e@);
                syntax::lemma_take_step(ev, j as int);
            }
            let k = match common::smallest_enclosing(nodes, e.line_start, e.line_end) {
                Some(k) => k,
                None => {
                    let n = Self::marker_of(e, path, repo_id, package);
                    let k = nodes.len();
                    assert(model::nodes_view(nodes@).len() == nodes@.len());
                    model::push_node(nodes, n);
                    k
                },
            };
            if e.is_producer {
                model::push_link(&mut relations.producers, k, text::copy(e.topic.as_str()));
            } else {
                model::push_link(&mut relations.consumers, k, text::copy(e.topic.as_str()));
            }
            j += 1;
        }
        assert(ev.take(j as int) == ev);
    }

    /// The declaration made up for an event that none encloses.
    fn marker_of(e: &RawEvent, path: &str, repo_id: RepoId, package: &str) -> (r: ContractNode)
        ensures
            r@ == marker(e@, path@, repo_id, package@),
    {
        let topic = text::chars_of(e.topic.as_str());
        let signature = if e.is_producer {
            text::joined("Producer of ", topic.as_slice())
        } else {
            text::joined("Consumer of ", topic.as_slice())
        };
        ContractNode {
            id: 0,
            name: text::copy(e.topic.as_str()),
            kind: if e.is_producer {
                NodeKind::EventStream
            } else {
                NodeKind::KafkaTopic
            },
            file_path: text::copy(path),
            line_start: e.line_start,
            line_end: e.line_end,
            package: text::copy(package),
            repo_id,
            signature: Some(signature),
            docstring: None,
        }
    }

    /// Links the declarations around client constructions to their services. A
    /// construction that none encloses has no caller and is dropped.
    fn resolve_rpc_calls(nodes: &Vec<ContractNode>, calls: &Vec<RawRpcCall>) -> (r: Vec<(usize, String)>)
        ensures
            model::links_view(r@) == call_links(model::nodes_view(nodes@), calls_view(calls@)),
    {
        let ghost cv = calls_view(calls@);
        let ghost nv = model::nodes_view(nodes@);
        let mut out: Vec<(usize, String)> = Vec::new();
        let mut j: usize = 0;
        assert(model::links_view(out@) == call_links(nv, cv.take(0)));
        while j < calls.len()
            invariant
                0 <= j <= calls@.len(),
                nv == model::nodes_view(nodes@),
                cv == calls_view(calls@),
                model::links_view(out@) == call_links(nv, cv.take(j as int)),
            decreases calls@.len() - j,
        {
            let c = &calls[j];
            proof {
                assert(cv[j as int] == c@);
                syntax::lemma_take_step(cv, j as int);
            }
            match common::smallest_enclosing(nodes, c.line_start, c.line_end) {
                Some(k) => model::push_link(&mut out, k, text::copy(c.service_name.as_str())),
                None => {},
            }
            j += 1;
        }
        assert(cv.take(j as int) == cv);
        out
    }

    /// The name of the type of a composite literal.
    fn composite_type_name(t: &SyntaxTree, n: usize) -> (r: Option<&[char]>)
        requires
            t@.valid(n as int),
        ensures
            text::opt_text(r) == literal_type(t@, n as int),
    {
        match t.field(n, "type") {
            Some(ty) => if t.kind_is(ty, "type_identifier") {
                t.text(ty)
            } else if t.kind_is(ty, "qualified_type") {
                t.field_text(ty, "name")
            } else {
                None
            },
            None => None,
        }
    }

    /// The name of the type that `T{...}` or `&T{...}` makes.
    fn extract_receiver_type_name(t: &SyntaxTree, n: usize) -> (r: Option<&[char]>)
        requires
            t@.valid(n as int),
        ensures
            text::opt_text(r) == receiver_type(t@, n as int),
        decreases t@.rows.len() - n,
    {
        if t.kind_is(n, "unary_expression") {
            match t.field(n, "operand") {
                Some(k) => Self::extract_receiver_type_name(t, k),
                None => None,
            }
        } else if t.kind_is(n, "composite_literal") {
            Self::composite_type_name(t, n)
        } else {
            None
        }
    }

    /// The method that a call selects.
    fn method_selected(t: &SyntaxTree, i: usize) -> (r: Option<&[char]>)
        requires
            t@.valid(i as int),
        ensures
            text::opt_text(r) == selected_method(t@, i as int),
    {
        match t.field(i, "function") {
            Some(f) => if t.kind_is(f, "selector_expression") {
                t.field_text(f, "field")
            } else {
                None
            },
            None => None,
        }
    }

    /// The type that node `i` registers as a gRPC server, if it registers one.
    fn registered_type(t: &SyntaxTree, i: usize) -> (r: Option<String>)
        requires
            t@.valid(i as int),
        ensures
            text::opt_string(r) == server_type(t@, i as int),
    {
        if !t.kind_is(i, "call_expression") {
            return None;
        }
        let method = match Self::method_selected(t, i) {
            Some(m) => m,
            None => return None,
        };
        if !text::begins(method, "Register") || !text::ends(method, "Server") {
            return None;
        }
        let args = match t.field(i, "arguments") {
            Some(a) => a,
            None => return None,
        };
        match t.named_child(args, 1) {
            Some(second) => match Self::extract_receiver_type_name(t, second) {
                Some(s) => Some(text::string_of(s)),
                None => None,
            },
            None => None,
        }
    }

    /// The first function of the file with the name.
    fn find_function_by_name(t: &SyntaxTree, name: &[char]) -> (r: Option<usize>)
        ensures
            text::opt_int(r) == function_named(t@, t@.children(0), name@),
            r matches Some(k) ==> t@.valid(k as int),
    {
        let ks = t.top();
        let ghost kv = syntax::ints(ks@);
        let mut j: usize = 0;
        assert(kv.skip(0) == kv);
        while j < ks.len()
            invariant
                0 <= j <= ks@.len(),
                kv == syntax::ints(ks@),
                forall|j: int| 0 <= j < ks@.len() ==> t@.valid(#[trigger] ks@[j] as int),
                function_named(t@, t@.children(0), name@) == function_named(t@, kv.skip(j as int), name@),
            decreases ks@.len() - j,
        {
            proof {
                syntax::lemma_skip_step(kv, j as int);
            }
            let matches_name = match t.field_text(ks[j], "name") {
                Some(s) => text::equal(s, name),
                None => false,
            };
            if t.kind_is(ks[j], "function_declaration") && matches_name {
                return Some(ks[j]);
            }
            j += 1;
        }
        None
    }

    /// Whether node `n` is a string literal.
    fn is_string_literal(t: &SyntaxTree, n: usize) -> (r: bool)
        requires
            t@.valid(n as int),
        ensures
            r == is_string(t@, n as int),
    {
        t.kind_is(n, "interpreted_string_literal") || t.kind_is(n, "raw_string_literal")
    }

    /// What a string literal holds, where it holds something.
    fn value_of_string(t: &SyntaxTree, n: usize) -> (r: Option<&[char]>)
        requires
            t@.valid(n as int),
        ensures
            text::opt_text(r) == string_value(t@, n as int),
    {
        match t.text(n) {
            Some(s) => {
                let inner = text::trimmed_of(s, "\"`");
                if inner.len() > 0 {
                    Some(inner)
                } else {
                    None
                }
            },
            None => None,
        }
    }

    /// The last statement of a function's body, comments aside.
    fn final_statement(t: &SyntaxTree, f: usize) -> (r: Option<usize>)
        requires
            t@.valid(f as int),
        ensures
            text::opt_int(r) == last_statement(t@, f as int),
            r matches Some(k) ==> t@.valid(k as int),
    {
        let body = match t.field(f, "body") {
            Some(b) => b,
            None => return None,
        };
        let ks = t.named_children(body);
        let ghost kv = syntax::ints(ks@);
        let ghost keep = |k: int| t@.kind(k) != "comment"@;
        let mut found: Option<usize> = None;
        let mut j: usize = 0;
        assert(kv.take(0).filter(keep).len() == 0) by {
            reveal(Seq::filter);
        }
        while j < ks.len()
            invariant
                0 <= j <= ks@.len(),
                kv == syntax::ints(ks@),
                keep == |k: int| t@.kind(k) != "comment"@,
                forall|j: int| 0 <= j < ks@.len() ==> t@.valid(#[trigger] ks@[j] as int),
                found matches Some(k) ==> t@.valid(k as int),
                match found {
                    Some(k) => kv.take(j as int).filter(keep).len() > 0 && kv.take(j as int).filter(keep).last() == k as int,
                    None => kv.take(j as int).filter(keep).len() == 0,
                },
            decreases ks@.len() - j,
        {
            proof {
                syntax::lemma_filter_step(kv, j as int, keep);
            }
            if !t.kind_is(ks[j], "comment") {
                found = Some(ks[j]);
            }
            j += 1;
        }
        assert(kv.take(j as int) == kv);
        found
    }

    /// The default of a function that reads an environment variable and whose own last
    /// statement returns a literal. A return inside a branch, a comment or a closure is
    /// never that statement.
    fn extract_getenv_fallback_literal(t: &SyntaxTree, f: usize) -> (r: Option<&[char]>)
        requires
            t@.valid(f as int),
        ensures
            text::opt_text(r) == getenv_default(t@, f as int),
    {
        let s = match t.text(f) {
            Some(s) => s,
            None => return None,
        };
        if !text::has_lit(s, "os.Getenv(") && !text::has_lit(s, "os.LookupEnv(") {
            return None;
        }
        let stmt = match Self::final_statement(t, f) {
            Some(x) => x,
            None => return None,
        };
        if !t.kind_is(stmt, "return_statement") {
            return None;
        }
        let list = match t.named_child(stmt, 0) {
            Some(l) => l,
            None => return None,
        };
        let e = if t.kind_is(list, "expression_list") {
            match t.named_child(list, 0) {
                Some(k) => k,
                None => return None,
            }
        } else {
            list
        };
        if Self::is_string_literal(t, e) {
            Self::value_of_string(t, e)
        } else {
            None
        }
    }

    /// The default behind a call of a function of the file, if it has one.
    fn default_of_call(t: &SyntaxTree, v: usize) -> (r: Option<&[char]>)
        requires
            t@.valid(v as int),
        ensures
            text::opt_text(r) == call_default(t@, v as int),
    {
        if !t.kind_is(v, "call_expression") {
            return None;
        }
        let f = match t.field(v, "function") {
            Some(f) => f,
            None => return None,
        };
        let args = match t.field(v, "arguments") {
            Some(a) => a,
            None => return None,
        };
        let given = t.named_children(args);
        assert(syntax::ints(given@).len() == given@.len());
        if !t.kind_is(f, "identifier") || given.len() != 0 {
            return None;
        }
        let name = match t.text(f) {
            Some(n) => n,
            None => return None,
        };
        match Self::find_function_by_name(t, name) {
            Some(d) => Self::extract_getenv_fallback_literal(t, d),
            None => None,
        }
    }

    /// The texts of the nodes that have one.
    fn texts_of<'a>(t: &'a SyntaxTree, ks: &Vec<usize>) -> (r: Vec<&'a [char]>)
        requires
            forall|j: int| 0 <= j < ks@.len() ==> t@.valid(#[trigger] ks@[j] as int),
        ensures
            text::texts(r@) == node_texts(t@, syntax::ints(ks@)),
    {
        let ghost kv = syntax::ints(ks@);
        let mut out: Vec<&'a [char]> = Vec::new();
        let mut j: usize = 0;
        assert(text::texts(out@) == node_texts(t@, kv.take(0)));
        while j < ks.len()
            invariant
                0 <= j <= ks@.len(),
                kv == syntax::ints(ks@),
                forall|j: int| 0 <= j < ks@.len() ==> t@.valid(#[trigger] ks@[j] as int),
                text::texts(out@) == node_texts(t@, kv.take(j as int)),
            decreases ks@.len() - j,
        {
            proof {
                syntax::lemma_take_step(kv, j as int);
            }
            match t.text(ks[j]) {
                Some(s) => {
                    let ghost before = out@;
                    out.push(s);
                    assert(text::texts(out@) == text::texts(before).push(s@));
                },
                None => {},
            }
            j += 1;
        }
        assert(kv.take(j as int) == kv);
        out
    }

    /// The values that a `var` or `const` specification gives.
    fn values_of(t: &SyntaxTree, i: usize) -> (r: Vec<usize>)
        requires
            t@.valid(i as int),
        ensures
            syntax::ints(r@) == spec_values(t@, i as int),
            forall|j: int| 0 <= j < r@.len() ==> t@.valid(#[trigger] r@[j] as int),
    {
        match t.field(i, "value") {
            Some(list) => t.named_children(list),
            None => {
                let out: Vec<usize> = Vec::new();
                assert(syntax::ints(out@) == Seq::<int>::empty());
                out
            },
        }
    }

    /// Binds the names of a specification that are set from the environment to their
    /// defaults.
    #[verifier::spinoff_prover]
    #[verifier::rlimit(40)]
    fn resolve_var_spec_getenv_default(t: &SyntaxTree, i: usize, out: &mut TextMap)
        requires
            t@.valid(i as int),
        ensures
            final(out)@ == bind_defaults(t@, i as int, spec_pairs(t@, i as int), old(out)@),
    {
        let ks = t.field_children(i, "name");
        let names = Self::texts_of(t, &ks);
        let values = Self::values_of(t, i);
        let ghost nv = text::texts(names@);
        let ghost vv = syntax::ints(values@);
        let ghost start = out@;
        let mut j: usize = 0;
        assert(nv.len() == names@.len() && vv.len() == values@.len());
        while j < names.len() && j < values.len()
            invariant
                0 <= j <= names@.len(),
                j <= values@.len(),
                nv == text::texts(names@),
                nv == spec_names(t@, i as int),
                vv == syntax::ints(values@),
                vv == spec_values(t@, i as int),
                nv.len() == names@.len(),
                vv.len() == values@.len(),
                forall|j: int| 0 <= j < values@.len() ==> t@.valid(#[trigger] values@[j] as int),
                out@ == bind_defaults(t@, i as int, j as int, start),
            decreases names@.len() - j,
        {
            assert(nv[j as int] == names@[j as int]@);
            assert(vv[j as int] == values@[j as int] as int);
            Self::bind_default_of(t, names[j], values[j], out);
            j += 1;
        }
        assert(j == spec_pairs(t@, i as int));
    }

    /// Binds a name to the default of its value, where it is not bound already.
    fn bind_default_of(t: &SyntaxTree, name: &[char], value: usize, out: &mut TextMap)
        requires
            t@.valid(value as int),
        ensures
            final(out)@ == bind_default(t@, name@, value as int, old(out)@),
    {
        if out.get(name).is_none() {
            match Self::default_of_call(t, value) {
                Some(d) => out.insert(text::string_of(name), text::string_of(d)),
                None => {},
            }
        }
    }

    /// Binds the names of a specification that are set to a literal.
    fn collect_single_const_spec(t: &SyntaxTree, i: usize, out: &mut TextMap)
        requires
            t@.valid(i as int),
        ensures
            final(out)@ == bind_literals(t@, i as int, spec_pairs(t@, i as int), old(out)@),
    {
        let ks = t.field_children(i, "name");
        let names = Self::texts_of(t, &ks);
        let values = Self::values_of(t, i);
        let ghost nv = text::texts(names@);
        let ghost vv = syntax::ints(values@);
        let ghost start = out@;
        let mut j: usize = 0;
        assert(nv.len() == names@.len() && vv.len() == values@.len());
        while j < names.len() && j < values.len()
            invariant
                0 <= j <= names@.len(),
                j <= values@.len(),
                nv == text::texts(names@),
                nv == spec_names(t@, i as int),
                vv == syntax::ints(values@),
                vv == spec_values(t@, i as int),
                nv.len() == names@.len(),
                vv.len() == values@.len(),
                forall|j: int| 0 <= j < values@.len() ==> t@.valid(#[trigger] values@[j] as int),
                out@ == bind_literals(t@, i as int, j as int, start),
            decreases names@.len() - j,
        {
            assert(nv[j as int] == names@[j as int]@);
            assert(vv[j as int] == values@[j as int] as int);
            if Self::is_string_literal(t, values[j]) {
                match Self::value_of_string(t, values[j]) {
                    Some(s) => out.insert(text::string_of(names[j]), text::string_of(s)),
                    None => {},
                }
            }
            j += 1;
        }
    }

    /// The plain string literals below a node.
    fn collect_string_literals(t: &SyntaxTree, i: usize) -> (r: Vec<String>)
        requires
            t@.valid(i as int),
        ensures
            text::strings(r@) == literals_below(t@, i as int),
    {
        let mut out = NameList::new();
        syntax::run_node(&LiteralRules, t, i, AstGuard::MAX_NESTING_DEPTH, &(), &mut out);
        out.items
    }

    /// The node inside an element of a literal and behind an address operator.
    fn unwrap_value(t: &SyntaxTree, v: usize) -> (r: usize)
        requires
            t@.valid(v as int),
        ensures
            r == unwrapped(t@, v as int),
            t@.valid(r as int),
            v <= r,
    {
        let inner = if t.kind_is(v, "literal_element") {
            match t.named_child(v, 0) {
                Some(k) => k,
                None => v,
            }
        } else {
            v
        };
        if t.kind_is(inner, "unary_expression") {
            match t.field(inner, "operand") {
                Some(k) => k,
                None => inner,
            }
        } else {
            inner
        }
    }

    /// The topic that a field's value names. A value that is neither a literal nor a
    /// constant of the file names none.
    fn extract_topic_value_text(t: &SyntaxTree, v: usize, consts: &TextMap) -> (r: Option<String>)
        requires
            t@.valid(v as int),
        ensures
            text::opt_string(r) == topic_value(t@, v as int, consts@),
    {
        let literals = Self::collect_string_literals(t, v);
        assert(text::strings(literals@).len() == literals@.len());
        if literals.len() > 0 {
            assert(text::strings(literals@)[0] == literals@[0]@);
            return Some(text::copy(literals[0].as_str()));
        }
        let u = Self::unwrap_value(t, v);
        let name = if t.kind_is(u, "identifier") {
            t.text(u)
        } else if t.kind_is(u, "selector_expression") {
            t.field_text(u, "field")
        } else {
            None
        };
        match name {
            Some(n) => match consts.get(n) {
                Some(s) => Some(text::copy(s)),
                None => None,
            },
            None => None,
        }
    }

    /// The topic of a struct literal.
    fn extract_topic_field(t: &SyntaxTree, lit: usize, consts: &TextMap) -> (r: Option<String>)
        requires
            t@.valid(lit as int),
        ensures
            text::opt_string(r) == topic_field(t@, lit as int, consts@),
        decreases t@.rows.len() - lit,
    {
        let body = match t.field(lit, "body") {
            Some(b) => b,
            None => return None,
        };
        let ks = t.children(body);
        let ghost kv = syntax::ints(ks@);
        let mut j: usize = 0;
        assert(kv.skip(0) == kv);
        while j < ks.len()
            invariant
                0 <= j <= ks@.len(),
                kv == syntax::ints(ks@),
                lit < body,
                t@.valid(lit as int),
                forall|j: int| 0 <= j < ks@.len() ==> t@.valid(#[trigger] ks@[j] as int) && body < ks@[j],
                topic_field(t@, lit as int, consts@) == topic_in(t@, lit as int, kv.skip(j as int), consts@),
            decreases ks@.len() - j,
        {
            proof {
                syntax::lemma_skip_step(kv, j as int);
            }
            let elem = ks[j];
            if t.kind_is(elem, "keyed_element") {
                match t.field_text(elem, "key") {
                    Some(key) => {
                        if text::is(key, "Topic") {
                            return match t.field(elem, "value") {
                                Some(v) => Self::extract_topic_value_text(t, v, consts),
                                None => None,
                            };
                        }
                        if text::is(key, "TopicPartition") {
                            match t.field(elem, "value") {
                                Some(v) => {
                                    let u = Self::unwrap_value(t, v);
                                    if t.kind_is(u, "composite_literal") {
                                        match Self::extract_topic_field(t, u, consts) {
                                            Some(topic) => return Some(topic),
                                            None => {},
                                        }
                                    }
                                },
                                None => {},
                            }
                        }
                    },
                    None => {},
                }
            }
            j += 1;
        }
        None
    }

    /// The event that a composite literal stands for, if it stands for one.
    fn handle_composite_literal(t: &SyntaxTree, i: usize, consts: &TextMap) -> (r: Option<RawEvent>)
        requires
            t@.valid(i as int),
        ensures
            syntax::opt_view(r) == literal_event(t@, i as int, consts@),
    {
        let ty = match Self::composite_type_name(t, i) {
            Some(s) => s,
            None => return None,
        };
        let is_producer = if text::is(ty, "ReaderConfig") {
            false
        } else if text::is(ty, "WriterConfig") || text::is(ty, "ProducerMessage") || text::is(ty, "Message") || text::is(ty, "Writer") {
            true
        } else {
            return None;
        };
        match Self::extract_topic_field(t, i, consts) {
            Some(topic) => Some(RawEvent { line_start: t.line(i), line_end: t.end_line(i), topic, is_producer }),
            None => None,
        }
    }

    /// What stands between a prefix and a suffix of a name, where something does.
    fn between_affixes<'a>(s: &'a [char], prefix: &str, suffix: &str) -> (r: Option<&'a [char]>)
        ensures
            text::opt_text(r) == between(s@, prefix@, suffix@),
    {
        if !text::begins(s, prefix) || !text::ends(s, suffix) {
            return None;
        }
        let a = text::length(prefix);
        let b = s.len() - text::length(suffix);
        if a < b {
            Some(vstd::slice::slice_subrange(s, a, b))
        } else {
            None
        }
    }

    fn is_third_party_client(s: &[char]) -> (r: bool)
        ensures
            r == is_third_party(s@),
    {
        text::is(s, "redis") || text::is(s, "http") || text::is(s, "mongo") || text::is(s, "s3") || text::is(s, "sqs")
            || text::is(s, "vault") || text::is(s, "elastic") || text::is(s, "sql") || text::is(s, "db") || text::is(s, "kafka")
            || text::is(s, "sarama")
    }

    /// The client construction that a call is, if it is one.
    fn client_construction(t: &SyntaxTree, i: usize, method: &[char]) -> (r: Option<RawRpcCall>)
        requires
            t@.valid(i as int),
        ensures
            syntax::opt_view(r) == client_call(t@, i as int, method@),
    {
        let operand = match t.field(i, "function") {
            Some(f) => text::string_or(t.field_text(f, "operand"), ""),
            None => text::copy(""),
        };
        let chars = text::chars_of(operand.as_str());
        if Self::is_third_party_client(chars.as_slice()) {
            return None;
        }
        match Self::between_affixes(method, "New", "Client") {
            Some(s) => Some(RawRpcCall { line_start: t.line(i), line_end: t.end_line(i), service_name: text::string_of(s) }),
            None => None,
        }
    }

    /// The path that a route registration names.
    fn path_of_route(t: &SyntaxTree, i: usize) -> (r: Option<&[char]>)
        requires
            t@.valid(i as int),
        ensures
            text::opt_text(r) == route_path(t@, i as int),
    {
        let args = match t.field(i, "arguments") {
            Some(a) => a,
            None => return None,
        };
        let ks = t.named_children(args);
        assert(syntax::ints(ks@).len() == ks@.len());
        if ks.len() < 2 {
            return None;
        }
        assert(syntax::ints(ks@)[0] == ks@[0] as int);
        if !t.kind_is(ks[0], "interpreted_string_literal") {
            return None;
        }
        match t.text(ks[0]) {
            Some(s) => {
                let route = text::trimmed_of(s, "\"");
                if route.len() > 0 && route[0] == '/' {
                    Some(route)
                } else {
                    None
                }
            },
            None => None,
        }
    }

    fn is_router_verb(s: &[char]) -> (r: bool)
        ensures
            r == is_router_method(s@),
    {
        text::is(s, "get") || text::is(s, "post") || text::is(s, "put") || text::is(s, "delete") || text::is(s, "patch")
            || text::is(s, "head") || text::is(s, "options")
    }

    /// Handles `pkg.Method(...)`: client constructions, server registrations, route
    /// registrations, and calls that produce or consume a literal topic.
    fn handle_call_expression(t: &SyntaxTree, i: usize, method: &[char], path: &str, repo_id: RepoId, o: &mut GoFound)
        requires
            t@.valid(i as int),
        ensures
            final(o)@ == (GoFoundView {
                nodes: model::with(
                    model::with(old(o)@.nodes, service_node(t@, i as int, method@, path@, repo_id, old(o)@.package)),
                    route_node(t@, i as int, method@, path@, repo_id, old(o)@.package),
                ),
                events: old(o)@.events + call_events(t@, i as int, method@),
                calls: model::with(old(o)@.calls, client_call(t@, i as int, method@)),
                ..old(o)@
            }),
    {
        let ghost start = o@;
        match Self::client_construction(t, i, method) {
            Some(c) => {
                let ghost before = o.calls@;
                o.calls.push(c);
                assert(calls_view(o.calls@) == calls_view(before).push(c@));
            },
            None => {},
        }
        match Self::between_affixes(method, "Register", "Server") {
            Some(name) => {
                let signature = text::string_or(t.head(i), "");
                let n = model::declare(t, i, path, repo_id, o.package.as_str(), text::string_of(name), NodeKind::GrpcService, signature);
                model::push_node(&mut o.nodes, n);
            },
            None => {},
        }
        let lower = text::to_lower(method);
        if Self::is_router_verb(lower.as_slice()) {
            match Self::path_of_route(t, i) {
                Some(route) => {
                    let name = common::name_of_endpoint(method, route);
                    let signature = text::copy(name.as_str());
                    let n = model::declare(t, i, path, repo_id, o.package.as_str(), name, NodeKind::HttpEndpoint, signature);
                    model::push_node(&mut o.nodes, n);
                },
                None => {},
            }
        }
        assert(o@.nodes == model::with(
            model::with(start.nodes, service_node(t@, i as int, method@, path@, repo_id, start.package)),
            route_node(t@, i as int, method@, path@, repo_id, start.package),
        ));
        Self::push_call_events(t, i, method, &mut o.events);
    }

    /// Adds the events that a call stands for.
    fn push_call_events(t: &SyntaxTree, i: usize, method: &[char], out: &mut Vec<RawEvent>)
        requires
            t@.valid(i as int),
        ensures
            events_view(final(out)@) == events_view(old(out)@) + call_events(t@, i as int, method@),
    {
        let ghost start = events_view(out@);
        let produces = text::is(method, "WriteMessages") || text::is(method, "SendMessage") || text::is(method, "Produce");
        let consumes = text::is(method, "ReadMessage") || text::is(method, "FetchMessage") || text::is(method, "ConsumePartition")
            || text::is(method, "SubscribeTopics") || text::is(method, "Subscribe");
        if !produces && !consumes {
            assert(start + call_events(t@, i as int, method@) == start);
            return;
        }
        let args = match t.field(i, "arguments") {
            Some(a) => a,
            None => {
                assert(start + call_events(t@, i as int, method@) == start);
                return;
            },
        };
        let literals = Self::collect_string_literals(t, args);
        let ghost lv = text::strings(literals@);
        let ghost tail = call_events(t@, i as int, method@);
        let line_start = t.line(i);
        let line_end = t.end_line(i);
        let mut j: usize = 0;
        assert(start + tail.take(0) == start);
        while j < literals.len()
            invariant
                0 <= j <= literals@.len(),
                lv == text::strings(literals@),
                tail == lv.map_values(
                    |topic: Seq<char>| RawEventView { line_start: line_start as int, line_end: line_end as int, topic, is_producer: produces },
                ),
                events_view(out@) == start + tail.take(j as int),
            decreases literals@.len() - j,
        {
            let e = RawEvent { line_start, line_end, topic: text::copy(literals[j].as_str()), is_producer: produces };
            let ghost before = out@;
            out.push(e);
            proof {
                assert(events_view(out@) == events_view(before).push(e@));
                assert(lv[j as int] == literals@[j as int]@);
                assert(start + tail.take(j + 1) == (start + tail.take(j as int)).push(tail[j as int]));
            }
            j += 1;
        }
        assert(tail.take(j as int) == tail);
    }

    /// The type that a method is declared on.
    fn method_receiver_type(t: &SyntaxTree, i: usize) -> (r: Option<&[char]>)
        requires
            t@.valid(i as int),
        ensures
            text::opt_text(r) == method_receiver(t@, i as int),
    {
        let receiver = match t.field(i, "receiver") {
            Some(r) => r,
            None => return None,
        };
        let param = match t.named_child(receiver, 0) {
            Some(p) => p,
            None => return None,
        };
        let ty = match t.field(param, "type") {
            Some(x) => x,
            None => return None,
        };
        if t.kind_is(ty, "pointer_type") {
            match t.named_child(ty, 0) {
                Some(k) => t.text(k),
                None => None,
            }
        } else {
            t.text(ty)
        }
    }

    /// What a function or method is.
    fn kind_of_function(t: &SyntaxTree, i: usize, name: &[char], line: &[char], servers: &Vec<String>) -> (r: NodeKind)
        requires
            t@.valid(i as int),
        ensures
            r == function_kind(t@, i as int, name@, line@, text::strings(servers@)),
    {
        let serves = t.kind_is(i, "method_declaration") && match Self::method_receiver_type(t, i) {
            Some(r) => model::has_name(servers, r),
            None => false,
        };
        if serves {
            NodeKind::GrpcMethod
        } else if (text::begins(name, "Handle") || text::ends(name, "Handler")) && (text::has_lit(line, "ResponseWriter")
            || text::has_lit(line, "Request") || text::has_lit(line, "Context") || text::has_lit(line, "Ctx")) {
            NodeKind::HttpEndpoint
        } else {
            NodeKind::ServiceClass
        }
    }

    /// The type that a declaration declares, by its first line.
    fn type_declared(t: &SyntaxTree, i: usize, path: &str, repo_id: RepoId, package: &str) -> (r: Option<ContractNode>)
        requires
            t@.valid(i as int),
        ensures
            syntax::opt_view(r) == type_node(t@, i as int, path@, repo_id, package@),
    {
        let s = match t.text(i) {
            Some(s) => s,
            None => return None,
        };
        let first = text::string_or(text::head_line(s), "");
        let chars = text::chars_of(first.as_str());
        let line = text::trimmed(chars.as_slice());
        let parts = text::words_of(line);
        assert(text::texts(parts@).len() == parts@.len());
        if parts.len() < 2 {
            return None;
        }
        assert(text::texts(parts@)[0] == parts@[0]@ && text::texts(parts@)[1] == parts@[1]@);
        if !text::is(parts[0], "type") {
            return None;
        }
        let kind = if text::has_lit(line, "interface") {
            NodeKind::Interface
        } else {
            NodeKind::ServiceClass
        };
        Some(model::declare(t, i, path, repo_id, package, text::string_of(parts[1]), kind, text::string_of(line)))
    }

    /// The import that a specification makes.
    fn collect_import_spec(t: &SyntaxTree, k: usize) -> (r: Option<RawImport>)
        requires
            t@.valid(k as int),
        ensures
            syntax::opt_view(r) == import_of(t@, k as int),
    {
        let raw = match t.field_text(k, "path") {
            Some(s) => s,
            None => return None,
        };
        let path = text::trimmed_of(raw, "\"");
        if path.len() == 0 {
            return None;
        }
        match t.field(k, "name") {
            Some(n) => match t.text(n) {
                Some(name) => if text::is(name, "_") {
                    Some(RawImport { ref_ident: text::copy(""), path: text::string_of(path), is_blank: true })
                } else {
                    Some(RawImport { ref_ident: text::string_of(name), path: text::string_of(path), is_blank: false })
                },
                None => Some(RawImport { ref_ident: text::copy(""), path: text::string_of(path), is_blank: false }),
            },
            None => {
                let ident = text::head_before(text::tail_after(path, '/'), '.');
                Some(RawImport { ref_ident: text::string_of(ident), path: text::string_of(path), is_blank: false })
            },
        }
    }

    /// The import specifications of a declaration.
    fn specs_of(t: &SyntaxTree, decl: usize) -> (r: Vec<usize>)
        requires
            t@.valid(decl as int),
        ensures
            syntax::ints(r@) == import_specs(t@, t@.children(decl as int)),
            forall|j: int| 0 <= j < r@.len() ==> t@.valid(#[trigger] r@[j] as int),
    {
        let ks = t.children(decl);
        let ghost kv = syntax::ints(ks@);
        let mut out: Vec<usize> = Vec::new();
        let mut j: usize = 0;
        assert(syntax::ints(out@) == import_specs(t@, kv.take(0)));
        while j < ks.len()
            invariant
                0 <= j <= ks@.len(),
                kv == syntax::ints(ks@),
                forall|j: int| 0 <= j < ks@.len() ==> t@.valid(#[trigger] ks@[j] as int),
                forall|j: int| 0 <= j < out@.len() ==> t@.valid(#[trigger] out@[j] as int),
                syntax::ints(out@) == import_specs(t@, kv.take(j as int)),
            decreases ks@.len() - j,
        {
            proof {
                syntax::lemma_take_step(kv, j as int);
            }
            let ghost before = out@;
            if t.kind_is(ks[j], "import_spec") {
                out.push(ks[j]);
                assert(syntax::ints(out@) == syntax::ints(before).push(ks@[j as int] as int));
            } else if t.kind_is(ks[j], "import_spec_list") {
                let all = t.children(ks[j]);
                let mut more = t.of_kind(&all, "import_spec");
                let ghost added = more@;
                out.append(&mut more);
                proof {
                    assert(syntax::ints(out@) == syntax::ints(before) + syntax::ints(added));
                    assert forall|m: int| 0 <= m < out@.len() implies t@.valid(#[trigger] out@[m] as int) by {
                        if m >= before.len() {
                            assert(out@[m] == added[m - before.len()]);
                        } else {
                            assert(out@[m] == before[m]);
                        }
                    }
                }
            }
            j += 1;
        }
        assert(kv.take(j as int) == kv);
        out
    }

    /// Adds the imports of a declaration.
    fn collect_imports(t: &SyntaxTree, decl: usize, out: &mut Vec<RawImport>)
        requires
            t@.valid(decl as int),
        ensures
            imports_view(final(out)@) == imports_view(old(out)@) + imports_of(t@, import_specs(t@, t@.children(decl as int))),
    {
        let ks = Self::specs_of(t, decl);
        let ghost kv = syntax::ints(ks@);
        let ghost start = imports_view(out@);
        let mut j: usize = 0;
        assert(start + imports_of(t@, kv.take(0)) == start);
        while j < ks.len()
            invariant
                0 <= j <= ks@.len(),
                kv == syntax::ints(ks@),
                forall|j: int| 0 <= j < ks@.len() ==> t@.valid(#[trigger] ks@[j] as int),
                imports_view(out@) == start + imports_of(t@, kv.take(j as int)),
            decreases ks@.len() - j,
        {
            proof {
                syntax::lemma_take_step(kv, j as int);
            }
            match Self::collect_import_spec(t, ks[j]) {
                Some(x) => {
                    let ghost before = out@;
                    out.push(x);
                    assert(imports_view(out@) == imports_view(before).push(x@));
                    assert(start + imports_of(t@, kv.take(j as int)).push(x@) == (start + imports_of(t@, kv.take(j as int))).push(x@));
                },
                None => {},
            }
            j += 1;
        }
        assert(kv.take(j as int) == kv);
    }

    /// Takes in node `i`.
    fn visit_node(t: &SyntaxTree, i: usize, path: &str, repo_id: RepoId, packages: &ServicePackages, servers: &Vec<String>, o: &mut GoFound)
        requires
            t@.valid(i as int),
        ensures
            final(o)@ == go_step(t@, i as int, path@, repo_id, packages@, text::strings(servers@), old(o)@),
    {
        let ghost start = o@;
        if t.kind_is(i, "var_spec") || t.kind_is(i, "const_spec") {
            Self::collect_single_const_spec(t, i, &mut o.consts);
        } else if t.kind_is(i, "package_clause") {
            match t.text(i) {
                Some(s) => {
                    o.package = packages.package_for(text::trimmed(text::stripped_repeated(s, "package ")));
                },
                None => {},
            }
        } else if t.kind_is(i, "import_declaration") {
            Self::collect_imports(t, i, &mut o.imports);
        } else if t.kind_is(i, "type_declaration") {
            match Self::type_declared(t, i, path, repo_id, o.package.as_str()) {
                Some(n) => {
                    model::push_node(&mut o.nodes, n);
                },
                None => {},
            }
            assert(o@.nodes == model::with(start.nodes, type_node(t@, i as int, path@, repo_id, start.package)));
        } else if t.kind_is(i, "function_declaration") || t.kind_is(i, "method_declaration") {
            let name = text::string_or(t.field_text(i, "name"), "unknownFunc");
            let line = text::string_or(t.head(i), name.as_str());
            let name_chars = text::chars_of(name.as_str());
            let line_chars = text::chars_of(line.as_str());
            let kind = Self::kind_of_function(t, i, name_chars.as_slice(), line_chars.as_slice(), servers);
            let n = model::declare(t, i, path, repo_id, o.package.as_str(), name, kind, line);
            model::push_node(&mut o.nodes, n);
        } else if t.kind_is(i, "call_expression") {
            match Self::method_selected(t, i) {
                Some(method) => Self::handle_call_expression(t, i, method, path, repo_id, o),
                None => {},
            }
        } else if t.kind_is(i, "composite_literal") {
            match Self::handle_composite_literal(t, i, &o.consts) {
                Some(e) => {
                    let ghost before = o.events@;
                    o.events.push(e);
                    assert(events_view(o.events@) == events_view(before).push(e@));
                },
                None => {},
            }
            assert(o@.events == model::with(start.events, literal_event(t@, i as int, start.consts)));
        }
    }
}

} // verus!
