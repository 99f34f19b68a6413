//! TypeScript declarations, imports, NestJS handlers, message topics and gRPC clients.
use vstd::prelude::*;
use crate::guard::AstGuard;
use crate::index;
use crate::languages::common;
use crate::model;
use crate::model::{ContractNode, ContractNodeView, NodeKind, RepoId, TextMap};
use crate::syntax;
use crate::syntax::{SyntaxTree, TreeRules, TreeView};
use crate::text;

verus! {

/// TypeScript extractor.
pub struct TypeScriptExtractor;

/// The gRPC decorator that is recognised where none is configured.
pub const DEFAULT_GRPC_ANNOTATION: &'static str = "@GrpcMethod";

/// The variable that a client construction is bound to.
pub struct ClientBinding {
    pub name: String,
    /// Where the declared name starts: the binding site itself is no reference to it.
    pub decl_start_byte: usize,
}

/// The variable that a client construction is bound to, as a mathematical value.
#[verifier::ext_equal]
pub struct ClientBindingView {
    pub name: Seq<char>,
    pub decl_start_byte: int,
}

/// A call site that talks to a gRPC service.
pub struct RawRpcCall {
    pub line_start: usize,
    pub line_end: usize,
    pub service_name: String,
    pub binding: Option<ClientBinding>,
}

/// A call site that talks to a gRPC service, as a mathematical value.
#[verifier::ext_equal]
pub struct RawRpcCallView {
    pub line_start: int,
    pub line_end: int,
    pub service_name: Seq<char>,
    pub binding: Option<ClientBindingView>,
}

impl View for ClientBinding {
    type V = ClientBindingView;

    open spec fn view(&self) -> ClientBindingView {
        ClientBindingView { name: self.name@, decl_start_byte: self.decl_start_byte as int }
    }
}

impl View for RawRpcCall {
    type V = RawRpcCallView;

    open spec fn view(&self) -> RawRpcCallView {
        RawRpcCallView {
            line_start: self.line_start as int,
            line_end: self.line_end as int,
            service_name: self.service_name@,
            binding: syntax::opt_view(self.binding),
        }
    }
}

/// Every binding that a file's top-level `import` statements introduce.
pub struct ImportBindings {
    /// From the local name to the exported one, for named and default imports.
    pub named: TextMap,
    /// The local names of `import * as ns from '...'`.
    pub namespaces: Vec<String>,
}

/// The bindings of a file's imports, as a mathematical value.
#[verifier::ext_equal]
pub struct ImportBindingsView {
    pub named: Map<Seq<char>, Seq<char>>,
    pub namespaces: Seq<Seq<char>>,
}

impl View for ImportBindings {
    type V = ImportBindingsView;

    open spec fn view(&self) -> ImportBindingsView {
        ImportBindingsView { named: self.named@, namespaces: text::strings(self.namespaces@) }
    }
}

/// What a walk over a TypeScript file gathers.
pub struct TsFound {
    pub nodes: Vec<ContractNode>,
    pub imports: Vec<(String, String)>,
    pub calls: Vec<RawRpcCall>,
}

/// What a walk over a TypeScript file gathers, as a mathematical value.
#[verifier::ext_equal]
pub struct TsFoundView {
    pub nodes: Seq<ContractNodeView>,
    pub imports: Seq<(Seq<char>, Seq<char>)>,
    pub calls: Seq<RawRpcCallView>,
}

/// A list of call sites, each by its view.
pub open spec fn calls_view(v: Seq<RawRpcCall>) -> Seq<RawRpcCallView> {
    v.map_values(|c: RawRpcCall| c@)
}

impl View for TsFound {
    type V = TsFoundView;

    open spec fn view(&self) -> TsFoundView {
        TsFoundView {
            nodes: model::nodes_view(self.nodes@),
            imports: model::pairs_view(self.imports@),
            calls: calls_view(self.calls@),
        }
    }
}

/// What a walk over a TypeScript file does at each node.
pub struct TsRules<'a> {
    pub path: &'a str,
    pub repo_id: RepoId,
    pub package: &'a str,
    pub annotations: &'a [String],
    pub bindings: &'a ImportBindings,
}

/// The exported names that an import statement lists in braces.
pub open spec fn import_specifiers(t: TreeView, clauses: Seq<int>) -> Seq<int> {
    t.of_kind(t.below(t.of_kind(t.below(clauses), "named_imports"@)), "import_specifier"@)
}

/// The texts of the `name` fields of the nodes, where they have one.
pub open spec fn specifier_names(t: TreeView, ks: Seq<int>) -> Seq<Seq<char>>
    decreases ks.len(),
{
    if ks.len() == 0 {
        Seq::empty()
    } else {
        model::with(specifier_names(t, ks.drop_last()), t.field_text(ks.last(), "name"@))
    }
}

/// The bindings with those that one part of an import clause introduces.
pub open spec fn bind_part(t: TreeView, part: int, b: ImportBindingsView) -> ImportBindingsView {
    let k = t.kind(part);
    if k == "identifier"@ {
        match t.text(part) {
            Some(name) => ImportBindingsView { named: b.named.insert(name, name), ..b },
            None => b,
        }
    } else if k == "namespace_import"@ {
        ImportBindingsView { namespaces: b.namespaces + namespace_names(t, t.named_children(part)), ..b }
    } else if k == "named_imports"@ {
        ImportBindingsView { named: bind_specifiers(t, t.of_kind(t.children(part), "import_specifier"@), b.named), ..b }
    } else {
        b
    }
}

/// The texts of the identifiers among the nodes.
pub open spec fn namespace_names(t: TreeView, ks: Seq<int>) -> Seq<Seq<char>>
    decreases ks.len(),
{
    if ks.len() == 0 {
        Seq::empty()
    } else {
        let rest = namespace_names(t, ks.drop_last());
        if t.kind(ks.last()) == "identifier"@ {
            model::with(rest, t.text(ks.last()))
        } else {
            rest
        }
    }
}

/// The named bindings with those that the specifiers introduce.
pub open spec fn bind_specifiers(t: TreeView, ks: Seq<int>, m: Map<Seq<char>, Seq<char>>) -> Map<Seq<char>, Seq<char>>
    decreases ks.len(),
{
    if ks.len() == 0 {
        m
    } else {
        let rest = bind_specifiers(t, ks.drop_last(), m);
        match t.field_text(ks.last(), "name"@) {
            Some(exported) => rest.insert(text::or(t.field_text(ks.last(), "alias"@), exported), exported),
            None => rest,
        }
    }
}

/// The bindings with those that the parts of import clauses introduce.
pub open spec fn bind_parts(t: TreeView, parts: Seq<int>, b: ImportBindingsView) -> ImportBindingsView
    decreases parts.len(),
{
    if parts.len() == 0 {
        b
    } else {
        bind_part(t, parts.last(), bind_parts(t, parts.drop_last(), b))
    }
}

/// The parts of the import clauses at the top of a file.
pub open spec fn import_parts(t: TreeView) -> Seq<int> {
    t.below(t.of_kind(t.below(t.of_kind(t.children(0), "import_statement"@)), "import_clause"@))
}

/// The bindings that the imports at the top of a file introduce.
pub open spec fn import_bindings(t: TreeView) -> ImportBindingsView {
    bind_parts(t, import_parts(t), ImportBindingsView { named: Map::empty(), namespaces: Seq::empty() })
}

/// The class that a constructor names, if the file imports it.
pub open spec fn imported_class(t: TreeView, ctor: int, b: ImportBindingsView) -> Option<Seq<char>> {
    let k = t.kind(ctor);
    if k == "identifier"@ {
        match t.text(ctor) {
            Some(local) => model::lookup(b.named, local),
            None => None,
        }
    } else if k == "member_expression"@ {
        match t.field(ctor, "object"@) {
            Some(object) => if t.kind(object) != "identifier"@ {
                None
            } else {
                match t.text(object) {
                    Some(name) => if b.namespaces.contains(name) || b.named.dom().contains(name) {
                        t.field_text(ctor, "property"@)
                    } else {
                        None
                    },
                    None => None,
                }
            },
            None => None,
        }
    } else {
        None
    }
}

/// The service that `new XClient(...)` talks to: the name before `Client`, where the
/// class is imported and the name starts with an ASCII capital.
pub open spec fn client_target(t: TreeView, ctor: int, b: ImportBindingsView) -> Option<Seq<char>> {
    match imported_class(t, ctor, b) {
        Some(class) => match text::strip_suffix(class, "Client"@) {
            Some(service) => if service.len() > 0 && 'A' <= service[0] && service[0] <= 'Z' {
                Some(service)
            } else {
                None
            },
            None => None,
        },
        None => None,
    }
}

/// The variable that a construction is bound to: `const client = new XClient(...)`.
pub open spec fn binding_of(t: TreeView, parent: Option<int>) -> Option<ClientBindingView> {
    match parent {
        Some(p) => if t.kind(p) != "variable_declarator"@ {
            None
        } else {
            match t.field(p, "name"@) {
                Some(n) => if t.kind(n) != "identifier"@ {
                    None
                } else {
                    match t.text(n) {
                        Some(name) => Some(ClientBindingView { name, decl_start_byte: t.rows[n].start_byte }),
                        None => None,
                    }
                },
                None => None,
            }
        },
        None => None,
    }
}

/// A module path without the semicolon and the quotes around it.
pub open spec fn bare_module(s: Seq<char>) -> Seq<char> {
    text::trim_set(text::trim_set(text::trim(text::trim_set(text::trim(s), ";"@)), "'"@), "\""@)
}

/// The module that an import statement names.
pub open spec fn imported_module(t: TreeView, i: int) -> Option<Seq<char>> {
    match t.field_text(i, "source"@) {
        Some(s) => Some(bare_module(s)),
        None => match t.text(i) {
            Some(s) => match text::rfind(s, "from"@) {
                Some(k) => Some(bare_module(s.skip(k + 4))),
                None => None,
            },
            None => None,
        },
    }
}

/// What an import statement adds to the imports: the module, then each name.
pub open spec fn import_entries(t: TreeView, i: int) -> Seq<(Seq<char>, Seq<char>)> {
    match imported_module(t, i) {
        Some(module) => if module.len() == 0 {
            Seq::empty()
        } else {
            seq![(""@, module)] + specifier_names(t, import_specifiers(t, t.of_kind(t.children(i), "import_clause"@))).map_values(
                |n: Seq<char>| (""@, n),
            )
        },
        None => Seq::empty(),
    }
}

/// The texts of the decorators among the nodes, each followed by a space.
pub open spec fn decorator_text(t: TreeView, ks: Seq<int>) -> Seq<char>
    decreases ks.len(),
{
    if ks.len() == 0 {
        Seq::empty()
    } else {
        let rest = decorator_text(t, ks.drop_last());
        if t.kind(ks.last()) == "decorator"@ {
            match t.text(ks.last()) {
                Some(s) => rest + s + " "@,
                None => rest,
            }
        } else {
            rest
        }
    }
}

/// A method's text with the decorators before and inside it.
pub open spec fn method_text(t: TreeView, parent: Option<int>, i: int) -> Seq<char> {
    let before = match t.previous(parent, i) {
        Some(p) => decorator_text(t, seq![p]),
        None => Seq::empty(),
    };
    before + decorator_text(t, t.children(i)) + text::or(t.text(i), Seq::empty())
}

/// The first annotation that stands in the text.
pub open spec fn first_annotation(annotations: Seq<Seq<char>>, s: Seq<char>) -> Option<Seq<char>>
    decreases annotations.len(),
{
    if annotations.len() == 0 {
        None
    } else if text::contains(s, annotations[0]) {
        Some(annotations[0])
    } else {
        first_annotation(annotations.drop_first(), s)
    }
}

/// What stands between the parentheses after the first occurrence of a decorator.
pub open spec fn decorator_arguments(s: Seq<char>, decorator: Seq<char>) -> Option<Seq<char>> {
    match text::find(s, decorator) {
        Some(k) => {
            let rest = s.skip(k + decorator.len());
            match text::index(rest, '(') {
                Some(open) => match text::index(rest.skip(open + 1), ')') {
                    Some(close) => Some(rest.skip(open + 1).take(close)),
                    None => None,
                },
                None => None,
            }
        },
        None => None,
    }
}

/// Whether the text starts and ends with the quote.
pub open spec fn quoted_by(s: Seq<char>, q: char) -> bool {
    s.len() > 0 && s[0] == q && s.last() == q
}

/// A text without the quotes of any kind around it.
pub open spec fn unquoted(s: Seq<char>) -> Seq<char> {
    text::trim_set(text::trim_set(text::trim_set(s, "'"@), "\""@), "`"@)
}

/// What a decorator argument names: a literal's value, or the last segment of a path.
pub open spec fn argument_name(s: Seq<char>) -> Seq<char> {
    let a = text::trim(s);
    if quoted_by(a, '\'') || quoted_by(a, '"') || quoted_by(a, '`') {
        unquoted(a)
    } else {
        text::after_last(a, '.')
    }
}

/// The names of decorator arguments that are not empty.
pub open spec fn argument_names(parts: Seq<Seq<char>>) -> Seq<Seq<char>>
    decreases parts.len(),
{
    if parts.len() == 0 {
        Seq::empty()
    } else {
        let rest = argument_names(parts.drop_last());
        if argument_name(parts.last()).len() > 0 {
            rest.push(argument_name(parts.last()))
        } else {
            rest
        }
    }
}

/// The target of a gRPC handler's decorator: `Service.Method` where it has two
/// arguments, its first argument otherwise.
pub open spec fn grpc_method(s: Seq<char>, annotation: Seq<char>) -> Option<Seq<char>> {
    match decorator_arguments(s, annotation) {
        Some(args) => {
            let parts = argument_names(text::split(args, ','));
            if parts.len() == 2 {
                Some(parts[0] + "."@ + parts[1])
            } else if parts.len() > 0 {
                Some(parts[0])
            } else {
                None
            }
        },
        None => None,
    }
}

/// The first argument of a decorator, without quotes, where there is one.
pub open spec fn single_argument(s: Seq<char>, decorator: Seq<char>) -> Option<Seq<char>> {
    match decorator_arguments(s, decorator) {
        Some(args) => {
            let first = text::trim(text::before_first(text::trim(args), ','));
            if first.len() == 0 {
                None
            } else {
                Some(unquoted(first))
            }
        },
        None => None,
    }
}

/// Whether the text holds a decorator of an HTTP route.
pub open spec fn has_route_decorator(s: Seq<char>) -> bool {
    ||| text::contains(s, "@Get"@)
    ||| text::contains(s, "@Post"@)
    ||| text::contains(s, "@Put"@)
    ||| text::contains(s, "@Delete"@)
    ||| text::contains(s, "@Patch"@)
    ||| text::contains(s, "@Options"@)
    ||| text::contains(s, "@Head"@)
    ||| text::contains(s, "@All"@)
}

/// What a method is, and what it is named after if not after itself.
pub open spec fn method_role(s: Seq<char>, annotations: Seq<Seq<char>>) -> (NodeKind, Option<Seq<char>>) {
    match first_annotation(annotations, s) {
        Some(a) => (NodeKind::GrpcMethod, grpc_method(s, a)),
        None => if has_route_decorator(s) {
            (NodeKind::HttpEndpoint, None)
        } else if text::contains(s, "@EventPattern"@) {
            (NodeKind::KafkaTopic, single_argument(s, "@EventPattern"@))
        } else if text::contains(s, "@MessagePattern"@) {
            (NodeKind::KafkaTopic, single_argument(s, "@MessagePattern"@))
        } else {
            (NodeKind::ServiceClass, None)
        },
    }
}

/// The first of the nodes that is a string literal with something in it.
pub open spec fn first_literal(t: TreeView, ks: Seq<int>) -> Option<Seq<char>>
    decreases ks.len(),
{
    if ks.len() == 0 {
        None
    } else {
        let rest = first_literal(t, ks.drop_first());
        if t.kind(ks[0]) == "string"@ {
            match t.text(ks[0]) {
                Some(s) => if text::trim_set(s, "'\"`"@).len() > 0 {
                    Some(text::trim_set(s, "'\"`"@))
                } else {
                    rest
                },
                None => rest,
            }
        } else {
            rest
        }
    }
}

/// `char::is_uppercase`: whether Unicode counts a character as upper case.
pub uninterp spec fn unicode_uppercase(c: char) -> bool;

/// `char::is_uppercase`: the result is the character's Unicode `Uppercase` property,
/// which is named and not written out.
#[verifier::external_body]
fn is_uppercase(c: char) -> (r: bool)
    ensures
        r == unicode_uppercase(c),
{
    c.is_uppercase()
}

/// The service that a client type is of: without its namespace, its `Client` or `Stub`
/// suffix and the `I` of an interface.
pub open spec fn client_service(s: Seq<char>) -> Seq<char> {
    let bare = text::after_last(s, '.');
    let stem = match text::strip_suffix(bare, "Client"@) {
        Some(x) => x,
        None => text::or(text::strip_suffix(bare, "Stub"@), bare),
    };
    if stem.len() >= 2 && stem[0] == 'I' && unicode_uppercase(stem[1]) {
        stem.skip(1)
    } else {
        stem
    }
}

/// The service of the first of the type arguments that names one.
pub open spec fn first_type_service(t: TreeView, ks: Seq<int>) -> Option<Seq<char>>
    decreases ks.len(),
{
    if ks.len() == 0 {
        None
    } else {
        let rest = first_type_service(t, ks.drop_first());
        match t.text(ks[0]) {
            Some(s) => if client_service(s).len() > 0 {
                Some(client_service(s))
            } else {
                rest
            },
            None => rest,
        }
    }
}

/// The named children of the child that fills the field.
pub open spec fn field_items(t: TreeView, i: int, name: Seq<char>) -> Seq<int> {
    match t.field(i, name) {
        Some(k) => t.named_children(k),
        None => Seq::empty(),
    }
}

/// The service of a `getService<XServiceClient>('XService')` call: its literal
/// argument, or else its type argument.
pub open spec fn get_service_target(t: TreeView, i: int) -> Option<Seq<char>> {
    match first_literal(t, field_items(t, i, "arguments"@)) {
        Some(s) => Some(s),
        None => first_type_service(t, field_items(t, i, "type_arguments"@)),
    }
}

/// The value of a string literal; of anything else, nothing.
pub open spec fn value_text(t: TreeView, v: int) -> Option<Seq<char>> {
    if t.kind(v) != "string"@ {
        None
    } else {
        match t.text(v) {
            Some(s) => Some(unquoted(s)),
            None => None,
        }
    }
}

/// The value of the first of the pairs that has the key and a value.
pub open spec fn pair_value(t: TreeView, pairs: Seq<int>, key: Seq<char>) -> Option<Seq<char>>
    decreases pairs.len(),
{
    if pairs.len() == 0 {
        None
    } else {
        let rest = pair_value(t, pairs.drop_first(), key);
        match t.field_text(pairs[0], "key"@) {
            Some(k) => if text::trim_set(text::trim_set(k, "'"@), "\""@) == key {
                match t.field(pairs[0], "value"@) {
                    Some(v) => value_text(t, v),
                    None => rest,
                }
            } else {
                rest
            },
            None => rest,
        }
    }
}

/// The value of the key in the object literals among the arguments.
pub open spec fn object_value(t: TreeView, args: int, key: Seq<char>) -> Option<Seq<char>> {
    pair_value(t, t.of_kind(t.below(t.of_kind(t.children(args), "object"@)), "pair"@), key)
}

/// The value of the first argument.
pub open spec fn first_argument(t: TreeView, args: int) -> Option<Seq<char>> {
    match t.named_child(args, 0) {
        Some(k) => value_text(t, k),
        None => None,
    }
}

/// The method that a call names after a dot.
pub open spec fn called_member(t: TreeView, i: int) -> Option<Seq<char>> {
    match t.field(i, "function"@) {
        Some(callee) => if t.kind(callee) == "member_expression"@ {
            t.field_text(callee, "property"@)
        } else {
            None
        },
        None => None,
    }
}

/// The signature of a kafkajs call by its method.
pub open spec fn kafka_signature(method: Seq<char>) -> Option<Seq<char>> {
    if method == "subscribe"@ {
        Some("kafkajs consumer.subscribe"@)
    } else if method == "send"@ {
        Some("kafkajs producer.send"@)
    } else {
        None
    }
}

/// The topic that a kafkajs call names.
pub open spec fn kafka_topic(t: TreeView, i: int) -> Option<Seq<char>> {
    match t.field(i, "arguments"@) {
        Some(args) => object_value(t, args, "topic"@),
        None => None,
    }
}

/// The queue that `new Queue('name')` declares.
pub open spec fn queue_name(t: TreeView, i: int, ctor: int) -> Option<Seq<char>> {
    if t.kind(ctor) == "identifier"@ && t.text(ctor) == Some("Queue"@) {
        match t.field(i, "arguments"@) {
            Some(args) => first_argument(t, args),
            None => None,
        }
    } else {
        None
    }
}

/// The declaration that node `i` makes, if it makes one.
pub open spec fn ts_node(
    t: TreeView,
    parent: Option<int>,
    i: int,
    path: Seq<char>,
    repo_id: RepoId,
    package: Seq<char>,
    annotations: Seq<Seq<char>>,
) -> Option<ContractNodeView> {
    let k = t.kind(i);
    if k == "class_declaration"@ || k == "interface_declaration"@ {
        let name = text::or(t.field_text(i, "name"@), "UnknownClass"@);
        let kind = if k == "interface_declaration"@ {
            NodeKind::Interface
        } else {
            NodeKind::ServiceClass
        };
        Some(model::declared(t, i, path, repo_id, package, name, kind, text::or(t.head(i), "class "@ + name)))
    } else if k == "method_definition"@ {
        let name = text::or(t.field_text(i, "name"@), "unknownMethod"@);
        let (kind, target) = method_role(method_text(t, parent, i), annotations);
        Some(model::declared(t, i, path, repo_id, package, text::or(target, name), kind, text::or(t.head(i), name + "()"@)))
    } else if k == "call_expression"@ {
        match called_member(t, i) {
            Some(method) => match kafka_signature(method) {
                Some(signature) => match kafka_topic(t, i) {
                    Some(topic) => Some(model::declared(t, i, path, repo_id, package, topic, NodeKind::KafkaTopic, signature)),
                    None => None,
                },
                None => None,
            },
            None => None,
        }
    } else if k == "new_expression"@ {
        match t.field(i, "constructor"@) {
            Some(ctor) => match queue_name(t, i, ctor) {
                Some(queue) => Some(model::declared(t, i, path, repo_id, package, queue, NodeKind::Queue, "bullmq new Queue()"@)),
                None => None,
            },
            None => None,
        }
    } else {
        None
    }
}

/// The call site that node `i` is, if it is one.
pub open spec fn ts_call(t: TreeView, parent: Option<int>, i: int, b: ImportBindingsView) -> Option<RawRpcCallView> {
    let k = t.kind(i);
    if k == "call_expression"@ {
        match called_member(t, i) {
            Some(method) => if method == "getService"@ {
                match get_service_target(t, i) {
                    Some(service) => Some(
                        RawRpcCallView { line_start: t.line(i), line_end: t.end_line(i), service_name: service, binding: None },
                    ),
                    None => None,
                }
            } else {
                None
            },
            None => None,
        }
    } else if k == "new_expression"@ {
        match t.field(i, "constructor"@) {
            Some(ctor) => match client_target(t, ctor, b) {
                Some(service) => Some(
                    RawRpcCallView {
                        line_start: t.line(i),
                        line_end: t.end_line(i),
                        service_name: service,
                        binding: binding_of(t, parent),
                    },
                ),
                None => None,
            },
            None => None,
        }
    } else {
        None
    }
}

/// What a walk has gathered after node `i`.
pub open spec fn ts_step(
    t: TreeView,
    parent: Option<int>,
    i: int,
    path: Seq<char>,
    repo_id: RepoId,
    package: Seq<char>,
    annotations: Seq<Seq<char>>,
    b: ImportBindingsView,
    o: TsFoundView,
) -> TsFoundView {
    TsFoundView {
        nodes: model::with(o.nodes, ts_node(t, parent, i, path, repo_id, package, annotations)),
        imports: if t.kind(i) == "import_statement"@ {
            o.imports + import_entries(t, i)
        } else {
            o.imports
        },
        calls: model::with(o.calls, ts_call(t, parent, i, b)),
    }
}

/// The nodes that spell the bound name elsewhere than where it is declared, in preorder.
pub open spec fn references(t: TreeView, n: int, b: ClientBindingView) -> Seq<int>
    decreases n,
{
    if n <= 0 {
        Seq::empty()
    } else {
        let rest = references(t, n - 1, b);
        if is_reference(t, n - 1, b) {
            rest.push(n - 1)
        } else {
            rest
        }
    }
}

/// Whether node `i` refers to the bound name: an identifier or an object shorthand that
/// spells it, other than the binding site. Property names never count.
pub open spec fn is_reference(t: TreeView, i: int, b: ClientBindingView) -> bool {
    &&& t.kind(i) == "identifier"@ || t.kind(i) == "shorthand_property_identifier"@
    &&& t.rows[i].start_byte != b.decl_start_byte
    &&& t.text(i) == Some(b.name)
}

/// The declarations that the given nodes stand in.
pub open spec fn owners(t: TreeView, ks: Seq<int>, nodes: Seq<ContractNodeView>) -> Seq<int>
    decreases ks.len(),
{
    if ks.len() == 0 {
        Seq::empty()
    } else {
        model::with(owners(t, ks.drop_last(), nodes), common::smallest(nodes, t.line(ks.last()), t.line(ks.last())))
    }
}

/// The declarations that a call site is attributed to: the smallest one around it, or
/// else each one that refers to the variable it is bound to, in order.
pub open spec fn callers(t: TreeView, nodes: Seq<ContractNodeView>, c: RawRpcCallView) -> Seq<int> {
    match common::smallest(nodes, c.line_start, c.line_end) {
        Some(k) => seq![k],
        None => match c.binding {
            Some(b) => common::places(nodes.len() as int, owners(t, references(t, t.rows.len() as int, b), nodes)),
            None => Seq::empty(),
        },
    }
}

/// The links from the callers of the call sites to the services they name.
pub open spec fn rpc_links(t: TreeView, nodes: Seq<ContractNodeView>, calls: Seq<RawRpcCallView>) -> Seq<(int, Seq<char>)>
    decreases calls.len(),
{
    if calls.len() == 0 {
        Seq::empty()
    } else {
        rpc_links(t, nodes, calls.drop_last()) + callers(t, nodes, calls.last()).map_values(
            |k: int| (k, calls.last().service_name),
        )
    }
}

/// The settings of a walk over a TypeScript file, as a mathematical value.
pub struct TsRulesView {
    pub path: Seq<char>,
    pub repo_id: RepoId,
    pub package: Seq<char>,
    pub annotations: Seq<Seq<char>>,
    pub bindings: ImportBindingsView,
}

impl<'a> View for TsRules<'a> {
    type V = TsRulesView;

    open spec fn view(&self) -> TsRulesView {
        TsRulesView {
            path: self.path@,
            repo_id: self.repo_id,
            package: self.package@,
            annotations: text::strings(self.annotations@),
            bindings: self.bindings@,
        }
    }
}

impl<'a> TreeRules for TsRules<'a> {
    type Context = ();

    type Output = TsFound;

    open spec fn on_node(rules: TsRulesView, t: TreeView, parent: Option<int>, i: int, c: (), o: TsFoundView) -> (TsFoundView, Option<()>) {
        (ts_step(t, parent, i, rules.path, rules.repo_id, rules.package, rules.annotations, rules.bindings, o), Some(()))
    }

    fn visit(&self, t: &SyntaxTree, parent: Option<usize>, i: usize, c: &(), o: &mut TsFound) -> (r: Option<()>) {
        let ghost start = o@;
        match TypeScriptExtractor::node(t, parent, i, self.path, self.repo_id, self.package, self.annotations) {
            Some(n) => {
                model::push_node(&mut o.nodes, n);
            },
            None => {},
        }
        assert(o@.nodes == model::with(start.nodes, ts_node(t@, text::opt_int(parent), i as int, self.path@, self.repo_id, self.package@, text::strings(self.annotations@))));
        if t.kind_is(i, "import_statement") {
            TypeScriptExtractor::push_imports(t, i, &mut o.imports);
        }
        match TypeScriptExtractor::call(t, parent, i, self.bindings) {
            Some(x) => {
                let ghost before = o.calls@;
                o.calls.push(x);
                assert(calls_view(o.calls@) == calls_view(before).push(x@));
            },
            None => {},
        }
        Some(())
    }
}

/// What the walk over a file gathers.
pub open spec fn ts_found(t: TreeView, path: Seq<char>, repo_id: RepoId, package: Seq<char>, annotations: Seq<Seq<char>>) -> TsFoundView {
    syntax::walk_tree::<TsRules>(
        TsRulesView { path, repo_id, package, annotations, bindings: import_bindings(t) },
        t,
        AstGuard::MAX_NESTING_DEPTH as int,
        (),
        TsFoundView { nodes: Seq::empty(), imports: Seq::empty(), calls: Seq::empty() },
    )
}

/// Every declaration of a file carries the file's path, its repository and the package that the
/// file is in, and has no number yet.
pub proof fn law_ts_nodes_belong(t: TreeView, path: Seq<char>, repo_id: RepoId, package: Seq<char>, annotations: Seq<Seq<char>>)
    ensures
        model::belong(ts_found(t, path, repo_id, package, annotations).nodes, path, repo_id, package),
{
    let rules = TsRulesView { path, repo_id, package, annotations, bindings: import_bindings(t) };
    let holds = |c: (), o: TsFoundView| model::belong(o.nodes, path, repo_id, package);
    assert(syntax::keeps::<TsRules>(rules, t, holds));
    syntax::lemma_walk_keeps::<TsRules>(
        rules,
        t,
        None,
        0,
        t.rows.len() as int,
        0,
        AstGuard::MAX_NESTING_DEPTH as int,
        (),
        (),
        TsFoundView { nodes: Seq::empty(), imports: Seq::empty(), calls: Seq::empty() },
        holds,
    );
}

/// A walk over subtrees only adds to what has been gathered before.
pub proof fn law_ts_walks_add(
    rules: TsRulesView,
    t: TreeView,
    parent: Option<int>,
    lo: int,
    hi: int,
    depth: int,
    max: int,
    before: TsFoundView,
)
    ensures
        ({
            let after = syntax::walk::<TsRules>(rules, t, parent, lo, hi, depth, max, (), before);
            &&& before.nodes.is_prefix_of(after.nodes)
            &&& before.imports.is_prefix_of(after.imports)
            &&& before.calls.is_prefix_of(after.calls)
        }),
{
    let holds = |c: (), o: TsFoundView|
        before.nodes.is_prefix_of(o.nodes) && before.imports.is_prefix_of(o.imports) && before.calls.is_prefix_of(o.calls);
    assert(syntax::keeps::<TsRules>(rules, t, holds));
    assert(holds((), before));
    syntax::lemma_walk_keeps::<TsRules>(rules, t, parent, lo, hi, depth, max, (), (), before, holds);
}

/// Every call of a file is attributed to declarations that there are.
pub proof fn law_ts_links(t: TreeView, nodes: Seq<ContractNodeView>, calls: Seq<RawRpcCallView>)
    ensures
        index::links_below(rpc_links(t, nodes, calls), nodes.len() as int),
    decreases calls.len(),
{
    if calls.len() > 0 {
        let c = calls.last();
        law_ts_links(t, nodes, calls.drop_last());
        common::law_smallest_encloses(nodes, c.line_start, c.line_end);
        if c.binding is Some {
            common::lemma_places_below(nodes.len() as int, owners(t, references(t, t.rows.len() as int, c.binding->0), nodes));
        }
        let a = rpc_links(t, nodes, calls.drop_last());
        let ks = callers(t, nodes, c);
        let b = ks.map_values(|k: int| (k, calls.last().service_name));
        assert forall|j: int| 0 <= j < (a + b).len() implies 0 <= (#[trigger] (a + b)[j]).0 < nodes.len() by {
            if j < a.len() {
                assert((a + b)[j] == a[j]);
            } else {
                assert((a + b)[j] == b[j - a.len()]);
                assert(b[j - a.len()].0 == ks[j - a.len()]);
            }
        }
    }
}

impl TypeScriptExtractor {
    /// The declarations of a file, with the default gRPC decorator. `imports` gets the
    /// modules and names that the file imports.
    pub fn extract(
        file_path: &str,
        content: &str,
        repo_id: RepoId,
        package: &str,
        parser: &mut tree_sitter::Parser,
        imports: &mut Vec<(String, String)>,
    ) -> (r: Vec<ContractNode>)
        ensures
            exists|done: bool|
                match #[trigger] syntax::outcome(*old(parser), content@, done) {
                    Some(t) => {
                        let found = ts_found(t, file_path@, repo_id, package@, seq![DEFAULT_GRPC_ANNOTATION@]);
                        &&& model::nodes_view(r@) == found.nodes
                        &&& model::pairs_view(final(imports)@) == model::pairs_view(old(imports)@) + found.imports
                    },
                    None => r@.len() == 0 && final(imports)@ == old(imports)@,
                },
    {
        let tree = match syntax::parse(parser, content) {
            Some(x) => x,
            None => {
                assert(syntax::outcome(*old(parser), content@, false) is None);
                return Vec::new();
            },
        };
        let mut annotations: Vec<String> = Vec::new();
        model::push_string(&mut annotations, text::copy(DEFAULT_GRPC_ANNOTATION));
        assert(text::strings(annotations@) == seq![DEFAULT_GRPC_ANNOTATION@]);
        let mut rpc_calls: Vec<(usize, String)> = Vec::new();
        assert(syntax::outcome(*old(parser), content@, true) is Some);
        Self::extract_with_config(file_path, content, repo_id, package, &tree, imports, &mut rpc_calls, annotations.as_slice())
    }

    /// The declarations of a parsed file. The decorators of `grpc_annotations` mark gRPC
    /// handlers. `imports` gets the modules and names that the file imports, and
    /// `rpc_calls` the links from declarations to the gRPC services that they call.
    pub fn extract_with_config(
        file_path: &str,
        content: &str,
        repo_id: RepoId,
        package: &str,
        tree: &tree_sitter::Tree,
        imports: &mut Vec<(String, String)>,
        rpc_calls: &mut Vec<(usize, String)>,
        grpc_annotations: &[String],
    ) -> (r: Vec<ContractNode>)
        ensures
            ({
                let t = TreeView { rows: syntax::tree_rows(*tree), src: content@ };
                let found = ts_found(t, file_path@, repo_id, package@, text::strings(grpc_annotations@));
                &&& model::nodes_view(r@) == found.nodes
                &&& model::pairs_view(final(imports)@) == model::pairs_view(old(imports)@) + found.imports
                &&& model::links_view(final(rpc_calls)@) == model::links_view(old(rpc_calls)@) + rpc_links(t, found.nodes, found.calls)
            }),
    {
        let t = SyntaxTree::of(tree, content);
        Self::extract_tree(file_path, repo_id, package, &t, imports, rpc_calls, grpc_annotations)
    }

    /// The declarations of a syntax tree.
    pub fn extract_tree(
        file_path: &str,
        repo_id: RepoId,
        package: &str,
        t: &SyntaxTree,
        imports: &mut Vec<(String, String)>,
        rpc_calls: &mut Vec<(usize, String)>,
        grpc_annotations: &[String],
    ) -> (r: Vec<ContractNode>)
        ensures
            ({
                let found = ts_found(t@, file_path@, repo_id, package@, text::strings(grpc_annotations@));
                &&& model::nodes_view(r@) == found.nodes
                &&& model::pairs_view(final(imports)@) == model::pairs_view(old(imports)@) + found.imports
                &&& model::links_view(final(rpc_calls)@) == model::links_view(old(rpc_calls)@) + rpc_links(t@, found.nodes, found.calls)
            }),
    {
        let bindings = Self::collect_import_bindings(t);
        let rules = TsRules { path: file_path, repo_id, package, annotations: grpc_annotations, bindings: &bindings };
        let mut out = TsFound { nodes: Vec::new(), imports: Vec::new(), calls: Vec::new() };
        assert(out@ == (TsFoundView { nodes: Seq::empty(), imports: Seq::empty(), calls: Seq::empty() }));
        syntax::run_tree(&rules, t, AstGuard::MAX_NESTING_DEPTH, &(), &mut out);
        Self::resolve_rpc_calls(t, &out.nodes, &out.calls, rpc_calls);
        let ghost found = out.imports@;
        let ghost before = imports@;
        imports.append(&mut out.imports);
        assert(model::pairs_view(imports@) == model::pairs_view(before) + model::pairs_view(found));
        out.nodes
    }

    /// Attaches each call site to its smallest enclosing declaration, or else to the
    /// declarations that refer to the variable it is bound to.
    fn resolve_rpc_calls(t: &SyntaxTree, nodes: &Vec<ContractNode>, calls: &Vec<RawRpcCall>, out: &mut Vec<(usize, String)>)
        ensures
            model::links_view(final(out)@) == model::links_view(old(out)@) + rpc_links(t@, model::nodes_view(nodes@), calls_view(calls@)),
    {
        let ghost start = model::links_view(out@);
        let ghost ns = model::nodes_view(nodes@);
        let ghost cs = calls_view(calls@);
        let mut i: usize = 0;
        assert(start + rpc_links(t@, ns, cs.take(0)) == start);
        while i < calls.len()
            invariant
                0 <= i <= calls@.len(),
                ns == model::nodes_view(nodes@),
                cs == calls_view(calls@),
                model::links_view(out@) == start + rpc_links(t@, ns, cs.take(i as int)),
            decreases calls@.len() - i,
        {
            let call = &calls[i];
            assert(cs[i as int] == call@);
            let ks = Self::callers_of(t, nodes, call);
            let ghost before = model::links_view(out@);
            let ghost tail = syntax::ints(ks@).map_values(|k: int| (k, call@.service_name));
            let mut j: usize = 0;
            assert(before + tail.take(0) == before);
            while j < ks.len()
                invariant
                    0 <= j <= ks@.len(),
                    tail == syntax::ints(ks@).map_values(|k: int| (k, call@.service_name)),
                    model::links_view(out@) == before + tail.take(j as int),
                decreases ks@.len() - j,
            {
                model::push_link(out, ks[j], text::copy(call.service_name.as_str()));
                proof {
                    assert(tail[j as int] == (ks@[j as int] as int, call@.service_name));
                    assert(before + tail.take(j + 1) == (before + tail.take(j as int)).push(tail[j as int]));
                }
                j += 1;
            }
            proof {
                assert(tail.take(j as int) == tail);
                syntax::lemma_take_step(cs, i as int);
                assert(start + rpc_links(t@, ns, cs.take(i + 1)) == start + rpc_links(t@, ns, cs.take(i as int)) + tail);
            }
            i += 1;
        }
        assert(cs.take(i as int) == cs);
    }

    /// The declarations that a call site is attributed to.
    fn callers_of(t: &SyntaxTree, nodes: &Vec<ContractNode>, call: &RawRpcCall) -> (r: Vec<usize>)
        ensures
            syntax::ints(r@) == callers(t@, model::nodes_view(nodes@), call@),
    {
        let ghost ns = model::nodes_view(nodes@);
        let mut out: Vec<usize> = Vec::new();
        match common::smallest_enclosing(nodes, call.line_start, call.line_end) {
            Some(k) => {
                out.push(k);
                assert(syntax::ints(out@) == seq![k as int]);
                return out;
            },
            None => {},
        }
        let binding = match &call.binding {
            Some(b) => b,
            None => {
                assert(syntax::ints(out@) == Seq::<int>::empty());
                return out;
            },
        };
        let wanted = Self::reference_owners(t, nodes, binding);
        common::places_of(nodes.len(), &wanted)
    }

    /// The declarations that the references to a bound name stand in.
    fn reference_owners(t: &SyntaxTree, nodes: &Vec<ContractNode>, binding: &ClientBinding) -> (r: Vec<usize>)
        ensures
            syntax::ints(r@) == owners(t@, references(t@, t@.rows.len() as int, binding@), model::nodes_view(nodes@)),
    {
        let ghost ns = model::nodes_view(nodes@);
        let mut out: Vec<usize> = Vec::new();
        let mut i: usize = 0;
        assert(syntax::ints(out@) == owners(t@, references(t@, 0, binding@), ns));
        while i < t.len()
            invariant
                0 <= i <= t@.rows.len(),
                ns == model::nodes_view(nodes@),
                syntax::ints(out@) == owners(t@, references(t@, i as int, binding@), ns),
            decreases t@.rows.len() - i,
        {
            let spelled = match t.text(i) {
                Some(s) => text::is(s, binding.name.as_str()),
                None => false,
            };
            let node = t.node(i);
            let ghost refs = references(t@, i as int, binding@);
            if (t.kind_is(i, "identifier") || t.kind_is(i, "shorthand_property_identifier")) && node.start_byte != binding.decl_start_byte && spelled {
                assert(is_reference(t@, i as int, binding@));
                let line = t.line(i);
                assert(refs.push(i as int).drop_last() == refs);
                match common::smallest_enclosing(nodes, line, line) {
                    Some(k) => {
                        let ghost before = out@;
                        out.push(k);
                        assert(syntax::ints(out@) == syntax::ints(before).push(k as int));
                    },
                    None => {},
                }
            } else {
                assert(!is_reference(t@, i as int, binding@));
            }
            i += 1;
        }
        out
    }

    /// Collects every local binding that the imports at the top of the file introduce.
    fn collect_import_bindings(t: &SyntaxTree) -> (r: ImportBindings)
        ensures
            r@ == import_bindings(t@),
    {
        let mut b = ImportBindings { named: TextMap::new(), namespaces: Vec::new() };
        let ghost start = ImportBindingsView { named: Map::empty(), namespaces: Seq::empty() };
        assert(b@ == start);
        let top = t.top();
        let statements = t.of_kind(&top, "import_statement");
        let inside = t.below(&statements);
        let clauses = t.of_kind(&inside, "import_clause");
        let parts = t.below(&clauses);
        let ghost ps = syntax::ints(parts@);
        let mut j: usize = 0;
        while j < parts.len()
            invariant
                0 <= j <= parts@.len(),
                ps == syntax::ints(parts@),
                forall|j: int| 0 <= j < parts@.len() ==> t@.valid(#[trigger] parts@[j] as int),
                b@ == bind_parts(t@, ps.take(j as int), start),
            decreases parts@.len() - j,
        {
            proof {
                syntax::lemma_take_step(ps, j as int);
            }
            Self::bind_part(t, parts[j], &mut b);
            j += 1;
        }
        assert(ps.take(j as int) == ps);
        b
    }

    /// Adds the bindings of one part of an import clause.
    fn bind_part(t: &SyntaxTree, part: usize, b: &mut ImportBindings)
        requires
            t@.valid(part as int),
        ensures
            final(b)@ == bind_part(t@, part as int, old(b)@),
    {
        if t.kind_is(part, "identifier") {
            match t.text(part) {
                Some(name) => b.named.insert(text::string_of(name), text::string_of(name)),
                None => {},
            }
        } else if t.kind_is(part, "namespace_import") {
            let ks = t.named_children(part);
            let ghost kv = syntax::ints(ks@);
            let ghost start = text::strings(b.namespaces@);
            let ghost named = b.named@;
            let mut j: usize = 0;
            assert(start + namespace_names(t@, kv.take(0)) == start);
            while j < ks.len()
                invariant
                    0 <= j <= ks@.len(),
                    kv == syntax::ints(ks@),
                    forall|j: int| 0 <= j < ks@.len() ==> t@.valid(#[trigger] ks@[j] as int),
                    text::strings(b.namespaces@) == start + namespace_names(t@, kv.take(j as int)),
                    b.named@ == named,
                decreases ks@.len() - j,
            {
                proof {
                    syntax::lemma_take_step(kv, j as int);
                }
                if t.kind_is(ks[j], "identifier") {
                    match t.text(ks[j]) {
                        Some(name) => {
                            model::push_string(&mut b.namespaces, text::string_of(name));
                            assert(start + namespace_names(t@, kv.take(j as int)).push(name@) == (start + namespace_names(t@, kv.take(j as int))).push(name@));
                        },
                        None => {},
                    }
                }
                j += 1;
            }
            assert(kv.take(j as int) == kv);
        } else if t.kind_is(part, "named_imports") {
            let all = t.children(part);
            let ks = t.of_kind(&all, "import_specifier");
            let ghost kv = syntax::ints(ks@);
            let ghost start = b@;
            let mut j: usize = 0;
            while j < ks.len()
                invariant
                    0 <= j <= ks@.len(),
                    kv == syntax::ints(ks@),
                    forall|j: int| 0 <= j < ks@.len() ==> t@.valid(#[trigger] ks@[j] as int),
                    b.named@ == bind_specifiers(t@, kv.take(j as int), start.named),
                    text::strings(b.namespaces@) == start.namespaces,
                decreases ks@.len() - j,
            {
                proof {
                    syntax::lemma_take_step(kv, j as int);
                }
                match t.field_text(ks[j], "name") {
                    Some(exported) => {
                        let local = match t.field_text(ks[j], "alias") {
                            Some(a) => a,
                            None => exported,
                        };
                        b.named.insert(text::string_of(local), text::string_of(exported));
                    },
                    None => {},
                }
                j += 1;
            }
            assert(kv.take(j as int) == kv);
        }
    }

    /// The service that a constructor's class is a client of, where the file imports it.
    fn extract_client_construction_target(t: &SyntaxTree, ctor: usize, b: &ImportBindings) -> (r: Option<String>)
        requires
            t@.valid(ctor as int),
        ensures
            text::opt_string(r) == client_target(t@, ctor as int, b@),
    {
        let class = if t.kind_is(ctor, "identifier") {
            match t.text(ctor) {
                Some(local) => match b.named.get(local) {
                    Some(c) => text::chars_of(c),
                    None => return None,
                },
                None => return None,
            }
        } else if t.kind_is(ctor, "member_expression") {
            let object = match t.field(ctor, "object") {
                Some(o) => o,
                None => return None,
            };
            if !t.kind_is(object, "identifier") {
                return None;
            }
            let name = match t.text(object) {
                Some(n) => n,
                None => return None,
            };
            if !model::has_name(&b.namespaces, name) && b.named.get(name).is_none() {
                return None;
            }
            match t.field_text(ctor, "property") {
                Some(p) => {
                    let mut v: Vec<char> = Vec::new();
                    text::extend(&mut v, p);
                    assert(v@ == p@);
                    v
                },
                None => return None,
            }
        } else {
            return None;
        };
        match text::without_suffix(class.as_slice(), "Client") {
            Some(service) => if service.len() > 0 && 'A' <= service[0] && service[0] <= 'Z' {
                Some(text::string_of(service))
            } else {
                None
            },
            None => None,
        }
    }

    /// The variable that a client construction is directly bound to.
    fn client_binding(t: &SyntaxTree, parent: Option<usize>) -> (r: Option<ClientBinding>)
        requires
            parent matches Some(p) ==> t@.valid(p as int),
        ensures
            syntax::opt_view(r) == binding_of(t@, text::opt_int(parent)),
    {
        let p = match parent {
            Some(p) => p,
            None => return None,
        };
        if !t.kind_is(p, "variable_declarator") {
            return None;
        }
        let n = match t.field(p, "name") {
            Some(n) => n,
            None => return None,
        };
        if !t.kind_is(n, "identifier") {
            return None;
        }
        match t.text(n) {
            Some(name) => Some(ClientBinding { name: text::string_of(name), decl_start_byte: t.node(n).start_byte }),
            None => None,
        }
    }

    /// A module path without the semicolon and the quotes around it.
    fn bare<'a>(s: &'a [char]) -> (r: &'a [char])
        ensures
            r@ == bare_module(s@),
    {
        text::trimmed_of(text::trimmed_of(text::trimmed(text::trimmed_of(text::trimmed(s), ";")), "'"), "\"")
    }

    /// Adds the module and the names of an import statement.
    fn push_imports(t: &SyntaxTree, i: usize, imports: &mut Vec<(String, String)>)
        requires
            t@.valid(i as int),
        ensures
            model::pairs_view(final(imports)@) == model::pairs_view(old(imports)@) + import_entries(t@, i as int),
    {
        let ghost start = model::pairs_view(imports@);
        let module = match t.field_text(i, "source") {
            Some(s) => Self::bare(s),
            None => match t.text(i) {
                Some(s) => {
                    let word = text::chars_of("from");
                    proof {
                        reveal_strlit("from");
                    }
                    match text::last_position(s, word.as_slice()) {
                        Some(k) => Self::bare(text::from(s, k + 4)),
                        None => {
                            assert(start + import_entries(t@, i as int) == start);
                            return;
                        },
                    }
                },
                None => {
                    assert(start + import_entries(t@, i as int) == start);
                    return;
                },
            },
        };
        if module.len() == 0 {
            assert(start + import_entries(t@, i as int) == start);
            return;
        }
        model::push_pair(imports, text::copy(""), text::string_of(module));
        let ghost head = model::pairs_view(imports@);
        let names = Self::collect_named_import_specifiers(t, i);
        let ghost nv = text::strings(names@);
        let ghost tail = nv.map_values(|n: Seq<char>| (""@, n));
        let mut j: usize = 0;
        assert(head + tail.take(0) == head);
        while j < names.len()
            invariant
                0 <= j <= names@.len(),
                nv == text::strings(names@),
                tail == nv.map_values(|n: Seq<char>| (""@, n)),
                model::pairs_view(imports@) == head + tail.take(j as int),
            decreases names@.len() - j,
        {
            model::push_pair(imports, text::copy(""), text::copy(names[j].as_str()));
            proof {
                assert(tail[j as int] == (""@, names@[j as int]@));
                assert(head + tail.take(j + 1) == (head + tail.take(j as int)).push(tail[j as int]));
            }
            j += 1;
        }
        assert(tail.take(j as int) == tail);
        assert(start + import_entries(t@, i as int) == head + tail);
    }

    /// The names, as exported, that an import statement lists in braces.
    fn collect_named_import_specifiers(t: &SyntaxTree, i: usize) -> (r: Vec<String>)
        requires
            t@.valid(i as int),
        ensures
            text::strings(r@) == specifier_names(t@, import_specifiers(t@, t@.of_kind(t@.children(i as int), "import_clause"@))),
    {
        let all = t.children(i);
        let clauses = t.of_kind(&all, "import_clause");
        let inside = t.below(&clauses);
        let lists = t.of_kind(&inside, "named_imports");
        let items = t.below(&lists);
        let ks = t.of_kind(&items, "import_specifier");
        let ghost kv = syntax::ints(ks@);
        let mut out: Vec<String> = Vec::new();
        let mut j: usize = 0;
        assert(text::strings(out@) == specifier_names(t@, kv.take(0)));
        while j < ks.len()
            invariant
                0 <= j <= ks@.len(),
                kv == syntax::ints(ks@),
                forall|j: int| 0 <= j < ks@.len() ==> t@.valid(#[trigger] ks@[j] as int),
                text::strings(out@) == specifier_names(t@, kv.take(j as int)),
            decreases ks@.len() - j,
        {
            proof {
                syntax::lemma_take_step(kv, j as int);
            }
            match t.field_text(ks[j], "name") {
                Some(name) => model::push_string(&mut out, text::string_of(name)),
                None => {},
            }
            j += 1;
        }
        assert(kv.take(j as int) == kv);
        out
    }

    /// The texts of the decorators among the nodes, each followed by a space.
    fn push_decorators(t: &SyntaxTree, ks: &Vec<usize>, out: &mut Vec<char>)
        requires
            forall|j: int| 0 <= j < ks@.len() ==> t@.valid(#[trigger] ks@[j] as int),
        ensures
            final(out)@ == old(out)@ + decorator_text(t@, syntax::ints(ks@)),
    {
        let ghost start = out@;
        let ghost kv = syntax::ints(ks@);
        let space = text::chars_of(" ");
        let mut j: usize = 0;
        assert(start + decorator_text(t@, kv.take(0)) == start);
        while j < ks.len()
            invariant
                0 <= j <= ks@.len(),
                kv == syntax::ints(ks@),
                space@ == " "@,
                forall|j: int| 0 <= j < ks@.len() ==> t@.valid(#[trigger] ks@[j] as int),
                out@ == start + decorator_text(t@, kv.take(j as int)),
            decreases ks@.len() - j,
        {
            proof {
                syntax::lemma_take_step(kv, j as int);
            }
            if t.kind_is(ks[j], "decorator") {
                match t.text(ks[j]) {
                    Some(s) => {
                        text::extend(out, s);
                        text::extend(out, space.as_slice());
                        assert(start + (decorator_text(t@, kv.take(j as int)) + s@ + " "@) == start + decorator_text(t@, kv.take(j as int)) + s@ + " "@);
                    },
                    None => {},
                }
            }
            j += 1;
        }
        assert(kv.take(j as int) == kv);
    }

    /// A method's text with the decorators before and inside it.
    fn full_text(t: &SyntaxTree, parent: Option<usize>, i: usize) -> (r: Vec<char>)
        requires
            t@.valid(i as int),
            parent matches Some(p) ==> t@.valid(p as int),
        ensures
            r@ == method_text(t@, text::opt_int(parent), i as int),
    {
        let mut out: Vec<char> = Vec::new();
        match t.previous(parent, i) {
            Some(p) => {
                let mut one: Vec<usize> = Vec::new();
                one.push(p);
                assert(syntax::ints(one@) == seq![p as int]);
                Self::push_decorators(t, &one, &mut out);
            },
            None => {},
        }
        let ks = t.children(i);
        Self::push_decorators(t, &ks, &mut out);
        match t.text(i) {
            Some(s) => text::extend(&mut out, s),
            None => {},
        }
        assert(out@ == method_text(t@, text::opt_int(parent), i as int));
        out
    }

    /// What stands between the parentheses after the first occurrence of a decorator.
    fn arguments_of<'a>(s: &'a [char], decorator: &str) -> (r: Option<&'a [char]>)
        ensures
            text::opt_text(r) == decorator_arguments(s@, decorator@),
    {
        let k = match text::position_of(s, decorator) {
            Some(k) => k,
            None => return None,
        };
        let rest = text::from(s, k + text::length(decorator));
        let open = match text::char_position(rest, '(') {
            Some(o) => o,
            None => return None,
        };
        let inside = text::from(rest, open + 1);
        match text::char_position(inside, ')') {
            Some(close) => Some(text::until(inside, close)),
            None => None,
        }
    }

    /// Whether the text starts and ends with the quote.
    fn is_quoted(s: &[char], q: char) -> (r: bool)
        ensures
            r == quoted_by(s@, q),
    {
        s.len() > 0 && s[0] == q && s[s.len() - 1] == q
    }

    /// A text without the quotes of any kind around it.
    fn without_quotes<'a>(s: &'a [char]) -> (r: &'a [char])
        ensures
            r@ == unquoted(s@),
    {
        text::trimmed_of(text::trimmed_of(text::trimmed_of(s, "'"), "\""), "`")
    }

    /// What a decorator argument names.
    fn name_of_argument<'a>(s: &'a [char]) -> (r: &'a [char])
        ensures
            r@ == argument_name(s@),
    {
        let a = text::trimmed(s);
        if Self::is_quoted(a, '\'') || Self::is_quoted(a, '"') || Self::is_quoted(a, '`') {
            Self::without_quotes(a)
        } else {
            text::tail_after(a, '.')
        }
    }

    /// The target of a gRPC handler's decorator: `Service.Method`, or its one argument.
    fn extract_grpc_method(s: &[char], annotation: &str) -> (r: Option<String>)
        ensures
            text::opt_string(r) == grpc_method(s@, annotation@),
    {
        let args = match Self::arguments_of(s, annotation) {
            Some(a) => a,
            None => return None,
        };
        let pieces = text::pieces(args, ',');
        let ghost pv = text::texts(pieces@);
        let mut parts: Vec<&[char]> = Vec::new();
        let mut j: usize = 0;
        assert(text::texts(parts@) == argument_names(pv.take(0)));
        while j < pieces.len()
            invariant
                0 <= j <= pieces@.len(),
                pv == text::texts(pieces@),
                text::texts(parts@) == argument_names(pv.take(j as int)),
            decreases pieces@.len() - j,
        {
            proof {
                syntax::lemma_take_step(pv, j as int);
            }
            let name = Self::name_of_argument(pieces[j]);
            if name.len() > 0 {
                let ghost before = parts@;
                parts.push(name);
                assert(text::texts(parts@) == text::texts(before).push(name@));
            }
            j += 1;
        }
        proof {
            assert(pv.take(j as int) == pv);
            assert(text::texts(parts@).len() == parts@.len());
        }
        if parts.len() == 2 {
            assert(text::texts(parts@)[0] == parts@[0]@ && text::texts(parts@)[1] == parts@[1]@);
            Some(text::joined3(parts[0], ".", parts[1]))
        } else if parts.len() > 0 {
            assert(text::texts(parts@)[0] == parts@[0]@);
            Some(text::string_of(parts[0]))
        } else {
            None
        }
    }

    /// The value of a decorator's first argument. Quoted literals are unquoted; anything
    /// else is kept as it is.
    fn extract_decorator_single_arg(s: &[char], decorator: &str) -> (r: Option<String>)
        ensures
            text::opt_string(r) == single_argument(s@, decorator@),
    {
        let args = match Self::arguments_of(s, decorator) {
            Some(a) => a,
            None => return None,
        };
        let first = text::trimmed(text::head_before(text::trimmed(args), ','));
        if first.len() == 0 {
            None
        } else {
            Some(text::string_of(Self::without_quotes(first)))
        }
    }

    /// The first annotation that stands in the text.
    fn matched_annotation<'a>(annotations: &'a [String], s: &[char]) -> (r: Option<&'a str>)
        ensures
            (match r {
                Some(a) => Some(a@),
                None => None,
            }) == first_annotation(text::strings(annotations@), s@),
    {
        let ghost av = text::strings(annotations@);
        let mut j: usize = 0;
        assert(av.skip(0) == av);
        while j < annotations.len()
            invariant
                0 <= j <= annotations@.len(),
                av == text::strings(annotations@),
                first_annotation(av, s@) == first_annotation(av.skip(j as int), s@),
            decreases annotations@.len() - j,
        {
            proof {
                syntax::lemma_skip_step(av, j as int);
            }
            if text::has_lit(s, annotations[j].as_str()) {
                return Some(annotations[j].as_str());
            }
            j += 1;
        }
        None
    }

    /// What a method is, and what it is named after if not after itself.
    fn role(s: &[char], annotations: &[String]) -> (r: (NodeKind, Option<String>))
        ensures
            r.0 == method_role(s@, text::strings(annotations@)).0,
            text::opt_string(r.1) == method_role(s@, text::strings(annotations@)).1,
    {
        match Self::matched_annotation(annotations, s) {
            Some(a) => return (NodeKind::GrpcMethod, Self::extract_grpc_method(s, a)),
            None => {},
        }
        if text::has_lit(s, "@Get") || text::has_lit(s, "@Post") || text::has_lit(s, "@Put") || text::has_lit(s, "@Delete")
            || text::has_lit(s, "@Patch") || text::has_lit(s, "@Options") || text::has_lit(s, "@Head") || text::has_lit(s, "@All") {
            (NodeKind::HttpEndpoint, None)
        } else if text::has_lit(s, "@EventPattern") {
            (NodeKind::KafkaTopic, Self::extract_decorator_single_arg(s, "@EventPattern"))
        } else if text::has_lit(s, "@MessagePattern") {
            (NodeKind::KafkaTopic, Self::extract_decorator_single_arg(s, "@MessagePattern"))
        } else {
            (NodeKind::ServiceClass, None)
        }
    }

    /// The named children of the child that fills the field.
    fn items_of(t: &SyntaxTree, i: usize, name: &str) -> (r: Vec<usize>)
        requires
            t@.valid(i as int),
        ensures
            syntax::ints(r@) == field_items(t@, i as int, name@),
            forall|j: int| 0 <= j < r@.len() ==> t@.valid(#[trigger] r@[j] as int),
    {
        match t.field(i, name) {
            Some(k) => t.named_children(k),
            None => {
                let out: Vec<usize> = Vec::new();
                assert(syntax::ints(out@) == Seq::<int>::empty());
                out
            },
        }
    }

    /// The service that a client type is of.
    fn service_of_type<'a>(s: &'a [char]) -> (r: &'a [char])
        ensures
            r@ == client_service(s@),
    {
        let bare = text::tail_after(s, '.');
        let stem = match text::without_suffix(bare, "Client") {
            Some(x) => x,
            None => match text::without_suffix(bare, "Stub") {
                Some(x) => x,
                None => bare,
            },
        };
        if stem.len() >= 2 && stem[0] == 'I' && is_uppercase(stem[1]) {
            text::from(stem, 1)
        } else {
            stem
        }
    }

    /// The service of a `getService` call.
    fn extract_get_service_target(t: &SyntaxTree, i: usize) -> (r: Option<String>)
        requires
            t@.valid(i as int),
        ensures
            text::opt_string(r) == get_service_target(t@, i as int),
    {
        let ks = Self::items_of(t, i, "arguments");
        let ghost kv = syntax::ints(ks@);
        let mut j: usize = 0;
        assert(kv.skip(0) == kv);
        while j < ks.len()
            invariant
                0 <= j <= ks@.len(),
                kv == syntax::ints(ks@),
                kv == field_items(t@, i as int, "arguments"@),
                forall|j: int| 0 <= j < ks@.len() ==> t@.valid(#[trigger] ks@[j] as int),
                first_literal(t@, kv) == first_literal(t@, kv.skip(j as int)),
            decreases ks@.len() - j,
        {
            proof {
                syntax::lemma_skip_step(kv, j as int);
            }
            if t.kind_is(ks[j], "string") {
                match t.text(ks[j]) {
                    Some(s) => {
                        let inner = text::trimmed_of(s, "'\"`");
                        if inner.len() > 0 {
                            return Some(text::string_of(inner));
                        }
                    },
                    None => {},
                }
            }
            j += 1;
        }
        let ts = Self::items_of(t, i, "type_arguments");
        let ghost tv = syntax::ints(ts@);
        let mut m: usize = 0;
        assert(tv.skip(0) == tv);
        while m < ts.len()
            invariant
                0 <= m <= ts@.len(),
                tv == syntax::ints(ts@),
                tv == field_items(t@, i as int, "type_arguments"@),
                first_literal(t@, field_items(t@, i as int, "arguments"@)) is None,
                forall|j: int| 0 <= j < ts@.len() ==> t@.valid(#[trigger] ts@[j] as int),
                first_type_service(t@, tv) == first_type_service(t@, tv.skip(m as int)),
            decreases ts@.len() - m,
        {
            proof {
                syntax::lemma_skip_step(tv, m as int);
            }
            match t.text(ts[m]) {
                Some(s) => {
                    let service = Self::service_of_type(s);
                    if service.len() > 0 {
                        return Some(text::string_of(service));
                    }
                },
                None => {},
            }
            m += 1;
        }
        None
    }

    /// The value of a string literal; of anything else, nothing.
    fn extract_value_text(t: &SyntaxTree, v: usize) -> (r: Option<String>)
        requires
            t@.valid(v as int),
        ensures
            text::opt_string(r) == value_text(t@, v as int),
    {
        if !t.kind_is(v, "string") {
            return None;
        }
        match t.text(v) {
            Some(s) => Some(text::string_of(Self::without_quotes(s))),
            None => None,
        }
    }

    /// The value of a key in the object literals among the arguments of a call.
    fn extract_object_value(t: &SyntaxTree, args: usize, key: &str) -> (r: Option<String>)
        requires
            t@.valid(args as int),
        ensures
            text::opt_string(r) == object_value(t@, args as int, key@),
    {
        let all = t.children(args);
        let objects = t.of_kind(&all, "object");
        let inside = t.below(&objects);
        let pairs = t.of_kind(&inside, "pair");
        let ghost pv = syntax::ints(pairs@);
        let mut j: usize = 0;
        assert(pv.skip(0) == pv);
        while j < pairs.len()
            invariant
                0 <= j <= pairs@.len(),
                pv == syntax::ints(pairs@),
                forall|j: int| 0 <= j < pairs@.len() ==> t@.valid(#[trigger] pairs@[j] as int),
                object_value(t@, args as int, key@) == pair_value(t@, pv.skip(j as int), key@),
            decreases pairs@.len() - j,
        {
            proof {
                syntax::lemma_skip_step(pv, j as int);
            }
            match t.field_text(pairs[j], "key") {
                Some(k) => {
                    if text::is(text::trimmed_of(text::trimmed_of(k, "'"), "\""), key) {
                        match t.field(pairs[j], "value") {
                            Some(v) => return Self::extract_value_text(t, v),
                            None => {},
                        }
                    }
                },
                None => {},
            }
            j += 1;
        }
        None
    }

    /// The value of the first argument of a call.
    fn extract_first_arg_value(t: &SyntaxTree, args: usize) -> (r: Option<String>)
        requires
            t@.valid(args as int),
        ensures
            text::opt_string(r) == first_argument(t@, args as int),
    {
        match t.named_child(args, 0) {
            Some(k) => Self::extract_value_text(t, k),
            None => None,
        }
    }

    /// The method that a call names after a dot.
    fn member_called(t: &SyntaxTree, i: usize) -> (r: Option<&[char]>)
        requires
            t@.valid(i as int),
        ensures
            text::opt_text(r) == called_member(t@, i as int),
    {
        match t.field(i, "function") {
            Some(callee) => if t.kind_is(callee, "member_expression") {
                t.field_text(callee, "property")
            } else {
                None
            },
            None => None,
        }
    }

    /// The declaration that node `i` makes, if it makes one.
    fn node(t: &SyntaxTree, parent: Option<usize>, i: usize, path: &str, repo_id: RepoId, package: &str, annotations: &[String]) -> (r: Option<ContractNode>)
        requires
            t@.valid(i as int),
            parent matches Some(p) ==> t@.valid(p as int),
        ensures
            syntax::opt_view(r) == ts_node(t@, text::opt_int(parent), i as int, path@, repo_id, package@, text::strings(annotations@)),
    {
        if t.kind_is(i, "class_declaration") || t.kind_is(i, "interface_declaration") {
            let name = text::string_or(t.field_text(i, "name"), "UnknownClass");
            let kind = if t.kind_is(i, "interface_declaration") {
                NodeKind::Interface
            } else {
                NodeKind::ServiceClass
            };
            let chars = text::chars_of(name.as_str());
            let fallback = text::joined("class ", chars.as_slice());
            let signature = text::string_or(t.head(i), fallback.as_str());
            Some(model::declare(t, i, path, repo_id, package, name, kind, signature))
        } else if t.kind_is(i, "method_definition") {
            let method = text::string_or(t.field_text(i, "name"), "unknownMethod");
            let full = Self::full_text(t, parent, i);
            let (kind, target) = Self::role(full.as_slice(), annotations);
            let mut fallback = text::copy(method.as_str());
            fallback.append("()");
            let signature = text::string_or(t.head(i), fallback.as_str());
            let name = match target {
                Some(g) => g,
                None => method,
            };
            Some(model::declare(t, i, path, repo_id, package, name, kind, signature))
        } else if t.kind_is(i, "call_expression") {
            let method = match Self::member_called(t, i) {
                Some(m) => m,
                None => return None,
            };
            let signature = if text::is(method, "subscribe") {
                "kafkajs consumer.subscribe"
            } else if text::is(method, "send") {
                "kafkajs producer.send"
            } else {
                return None;
            };
            let args = match t.field(i, "arguments") {
                Some(a) => a,
                None => return None,
            };
            match Self::extract_object_value(t, args, "topic") {
                Some(topic) => Some(model::declare(t, i, path, repo_id, package, topic, NodeKind::KafkaTopic, text::copy(signature))),
                None => None,
            }
        } else if t.kind_is(i, "new_expression") {
            let ctor = match t.field(i, "constructor") {
                Some(c) => c,
                None => return None,
            };
            let is_queue = match t.text(ctor) {
                Some(s) => text::is(s, "Queue"),
                None => false,
            };
            if !t.kind_is(ctor, "identifier") || !is_queue {
                return None;
            }
            let args = match t.field(i, "arguments") {
                Some(a) => a,
                None => return None,
            };
            match Self::extract_first_arg_value(t, args) {
                Some(queue) => Some(model::declare(t, i, path, repo_id, package, queue, NodeKind::Queue, text::copy("bullmq new Queue()"))),
                None => None,
            }
        } else {
            None
        }
    }

    /// The call site that node `i` is, if it is one.
    fn call(t: &SyntaxTree, parent: Option<usize>, i: usize, b: &ImportBindings) -> (r: Option<RawRpcCall>)
        requires
            t@.valid(i as int),
            parent matches Some(p) ==> t@.valid(p as int),
        ensures
            syntax::opt_view(r) == ts_call(t@, text::opt_int(parent), i as int, b@),
    {
        if t.kind_is(i, "call_expression") {
            let method = match Self::member_called(t, i) {
                Some(m) => m,
                None => return None,
            };
            if !text::is(method, "getService") {
                return None;
            }
            match Self::extract_get_service_target(t, i) {
                Some(service_name) => Some(RawRpcCall { line_start: t.line(i), line_end: t.end_line(i), service_name, binding: None }),
                None => None,
            }
        } else if t.kind_is(i, "new_expression") {
            let ctor = match t.field(i, "constructor") {
                Some(c) => c,
                None => return None,
            };
            match Self::extract_client_construction_target(t, ctor, b) {
                Some(service_name) => Some(
                    RawRpcCall { line_start: t.line(i), line_end: t.end_line(i), service_name, binding: Self::client_binding(t, parent) },
                ),
                None => None,
            }
        } else {
            None
        }
    }
}

} // verus!
