//! What holds of the declarations that are found in TypeScript files.
use vstd::prelude::*;
use crate::languages::typescript;
use crate::languages::typescript::{RawRpcCallView, TsFoundView, TsRules, TsRulesView};
use crate::languages::walk_laws;
use crate::languages::walk_laws::{declares, has_text, is_declared, stands_under, within_reach};
use crate::model::{ContractNodeView, NodeKind, RepoId};
use crate::syntax;
use crate::syntax::TreeView;
use crate::text;

verus! {

proof fn lemma_kinds()
    ensures
        "class_declaration"@ != "interface_declaration"@,
        "class_declaration"@ != "method_definition"@,
        "class_declaration"@ != "call_expression"@,
        "class_declaration"@ != "new_expression"@,
        "interface_declaration"@ != "method_definition"@,
        "interface_declaration"@ != "call_expression"@,
        "interface_declaration"@ != "new_expression"@,
        "method_definition"@ != "call_expression"@,
        "method_definition"@ != "new_expression"@,
        "call_expression"@ != "new_expression"@,
{
    reveal_strlit("class_declaration");
    reveal_strlit("interface_declaration");
    reveal_strlit("method_definition");
    reveal_strlit("call_expression");
    reveal_strlit("new_expression");
    assert("class_declaration"@.len() != "interface_declaration"@.len());
    assert("class_declaration"@[0] != "method_definition"@[0]);
    assert("class_declaration"@.len() != "call_expression"@.len());
    assert("class_declaration"@.len() != "new_expression"@.len());
    assert("interface_declaration"@.len() != "method_definition"@.len());
    assert("interface_declaration"@.len() != "call_expression"@.len());
    assert("interface_declaration"@.len() != "new_expression"@.len());
    assert("method_definition"@.len() != "call_expression"@.len());
    assert("method_definition"@.len() != "new_expression"@.len());
    assert("call_expression"@.len() != "new_expression"@.len());
}

proof fn lemma_ts_declares(
    t: TreeView,
    i: int,
    path: Seq<char>,
    repo_id: RepoId,
    package: Seq<char>,
    annotations: Seq<Seq<char>>,
    name: Seq<char>,
    kind: NodeKind,
)
    requires
        within_reach(t, i),
        forall|parent: Option<int>|
            stands_under(t, parent, i) ==> ((#[trigger] typescript::ts_node(t, parent, i, path, repo_id, package, annotations)) matches Some(
                n,
            ) && is_declared(n, t, i, path, repo_id, name, kind)),
    ensures
        declares(typescript::ts_found(t, path, repo_id, package, annotations).nodes, t, i, path, repo_id, name, kind),
{
    let r = TsRulesView { path, repo_id, package, annotations, bindings: typescript::import_bindings(t) };
    let items = |o: TsFoundView| o.nodes;
    let is = |n: ContractNodeView| is_declared(n, t, i, path, repo_id, name, kind);
    let inv = |p: Option<int>, c: ()| true;
    let start = TsFoundView { nodes: Seq::empty(), imports: Seq::empty(), calls: Seq::empty() };
    assert forall|parent: Option<int>, c: (), o: TsFoundView| stands_under(t, parent, i) && inv(parent, c) implies walk_laws::any(
        items((#[trigger] <TsRules as syntax::TreeRules>::on_node(r, t, parent, i, c, o)).0),
        is,
    ) by {
        let after = o.nodes.push(typescript::ts_node(t, parent, i, path, repo_id, package, annotations)->0);
        assert(is(after[after.len() - 1]));
    }
    walk_laws::lemma_walk_gathers_below::<TsRules, ContractNodeView>(r, t, 64, (), start, i, items, is, inv);
}

/// Classes are declared as classes, interfaces as interfaces.
pub proof fn law_ts_classes(
    t: TreeView,
    i: int,
    name: Seq<char>,
    path: Seq<char>,
    repo_id: RepoId,
    package: Seq<char>,
    annotations: Seq<Seq<char>>,
)
    requires
        within_reach(t, i),
        t.field_text(i, "name"@) == Some(name),
    ensures
        ({
            let nodes = typescript::ts_found(t, path, repo_id, package, annotations).nodes;
            &&& t.kind(i) == "class_declaration"@ ==> declares(nodes, t, i, path, repo_id, name, NodeKind::ServiceClass)
            &&& t.kind(i) == "interface_declaration"@ ==> declares(nodes, t, i, path, repo_id, name, NodeKind::Interface)
        }),
{
    lemma_kinds();
    if t.kind(i) == "class_declaration"@ {
        lemma_ts_declares(t, i, path, repo_id, package, annotations, name, NodeKind::ServiceClass);
    } else if t.kind(i) == "interface_declaration"@ {
        lemma_ts_declares(t, i, path, repo_id, package, annotations, name, NodeKind::Interface);
    }
}

/// Whether a decorator of a method holds a text.
pub open spec fn is_decorated(t: TreeView, i: int, w: Seq<char>) -> bool {
    exists|k: int| 0 <= k < t.children(i).len() && decorator_has(t, #[trigger] t.children(i)[k], w)
}

/// Whether node `c` is a decorator that holds a text.
pub open spec fn decorator_has(t: TreeView, c: int, w: Seq<char>) -> bool {
    t.kind(c) == "decorator"@ && match t.text(c) {
        Some(s) => has_text(s, w),
        None => false,
    }
}

/// Whether a text stands nowhere in a method and its decorators.
pub open spec fn is_free_of(t: TreeView, i: int, w: Seq<char>) -> bool {
    forall|parent: Option<int>| stands_under(t, parent, i) ==> !has_text(#[trigger] typescript::method_text(t, parent, i), w)
}

proof fn lemma_decorated(t: TreeView, ks: Seq<int>, k: int, w: Seq<char>)
    requires
        0 <= k < ks.len(),
        decorator_has(t, ks[k], w),
    ensures
        has_text(typescript::decorator_text(t, ks), w),
    decreases ks.len(),
{
    let front = ks.drop_last();
    let rest = typescript::decorator_text(t, front);
    let whole = typescript::decorator_text(t, ks);
    if k < front.len() {
        assert(front[k] == ks[k]);
        lemma_decorated(t, front, k, w);
        let (a, b) = choose|a: Seq<char>, b: Seq<char>| rest == #[trigger] (a + w + b);
        if t.kind(ks.last()) == "decorator"@ && t.text(ks.last()) is Some {
            let more = t.text(ks.last())->0 + " "@;
            assert(whole == a + w + (b + more));
        }
    } else {
        let s = t.text(ks.last())->0;
        let (a, b) = choose|a: Seq<char>, b: Seq<char>| s == #[trigger] (a + w + b);
        assert(whole == (rest + a) + w + (b + " "@));
    }
}

#[verifier::spinoff_prover]
proof fn lemma_method_text(t: TreeView, parent: Option<int>, i: int, w: Seq<char>)
    requires
        is_decorated(t, i, w),
    ensures
        text::contains(typescript::method_text(t, parent, i), w),
{
    let ks = t.children(i);
    let k = choose|k: int| 0 <= k < ks.len() && decorator_has(t, #[trigger] ks[k], w);
    lemma_decorated(t, ks, k, w);
    let s = typescript::decorator_text(t, ks);
    let (a, b) = choose|a: Seq<char>, b: Seq<char>| s == #[trigger] (a + w + b);
    let before = match t.previous(parent, i) {
        Some(p) => typescript::decorator_text(t, seq![p]),
        None => Seq::empty(),
    };
    let behind = text::or(t.text(i), Seq::empty());
    let whole = typescript::method_text(t, parent, i);
    assert(whole == before + s + behind);
    lemma_text_between(before, a, w, b, behind);
    walk_laws::law_texts_are_found(whole, w);
}

proof fn lemma_text_between(before: Seq<char>, a: Seq<char>, w: Seq<char>, b: Seq<char>, behind: Seq<char>)
    ensures
        has_text(before + (a + w + b) + behind, w),
{
    assert(before + (a + w + b) + behind == (before + a) + w + (b + behind));
}

proof fn lemma_free(t: TreeView, parent: Option<int>, i: int, w: Seq<char>)
    requires
        is_free_of(t, i, w),
        stands_under(t, parent, i),
    ensures
        !text::contains(typescript::method_text(t, parent, i), w),
{
    walk_laws::law_texts_are_found(typescript::method_text(t, parent, i), w);
}

proof fn lemma_no_annotation(annotations: Seq<Seq<char>>, s: Seq<char>)
    requires
        forall|k: int| 0 <= k < annotations.len() ==> !text::contains(s, #[trigger] annotations[k]),
    ensures
        typescript::first_annotation(annotations, s) is None,
    decreases annotations.len(),
{
    if annotations.len() > 0 {
        let rest = annotations.drop_first();
        assert(!text::contains(s, annotations[0]));
        assert forall|k: int| 0 <= k < rest.len() implies !text::contains(s, #[trigger] rest[k]) by {
            assert(rest[k] == annotations[k + 1]);
        }
        lemma_no_annotation(rest, s);
    }
}

/// The decorators that make a method an HTTP endpoint.
pub open spec fn route_decorator(k: int) -> Seq<char> {
    if k == 0 {
        "@Get"@
    } else if k == 1 {
        "@Post"@
    } else if k == 2 {
        "@Put"@
    } else if k == 3 {
        "@Delete"@
    } else if k == 4 {
        "@Patch"@
    } else if k == 5 {
        "@Options"@
    } else if k == 6 {
        "@Head"@
    } else {
        "@All"@
    }
}

/// A method decorated with `@Get`, `@Post`, `@Put`, `@Delete`, `@Patch`, `@Options`, `@Head` or
/// `@All`, and with no annotation of a gRPC controller, is an HTTP endpoint under its own name.
pub proof fn law_ts_routes(
    t: TreeView,
    i: int,
    k: int,
    name: Seq<char>,
    path: Seq<char>,
    repo_id: RepoId,
    package: Seq<char>,
    annotations: Seq<Seq<char>>,
)
    requires
        within_reach(t, i),
        t.kind(i) == "method_definition"@,
        t.field_text(i, "name"@) == Some(name),
        0 <= k <= 7,
        is_decorated(t, i, route_decorator(k)),
        forall|a: int| 0 <= a < annotations.len() ==> is_free_of(t, i, #[trigger] annotations[a]),
    ensures
        declares(
            typescript::ts_found(t, path, repo_id, package, annotations).nodes,
            t,
            i,
            path,
            repo_id,
            name,
            NodeKind::HttpEndpoint,
        ),
{
    lemma_kinds();
    assert forall|parent: Option<int>| stands_under(t, parent, i) implies ((#[trigger] typescript::ts_node(
        t,
        parent,
        i,
        path,
        repo_id,
        package,
        annotations,
    )) matches Some(n) && is_declared(n, t, i, path, repo_id, name, NodeKind::HttpEndpoint)) by {
        let s = typescript::method_text(t, parent, i);
        assert forall|a: int| 0 <= a < annotations.len() implies !text::contains(s, #[trigger] annotations[a]) by {
            lemma_free(t, parent, i, annotations[a]);
        }
        lemma_no_annotation(annotations, s);
        lemma_method_text(t, parent, i, route_decorator(k));
        assert(typescript::has_route_decorator(s));
    }
    lemma_ts_declares(t, i, path, repo_id, package, annotations, name, NodeKind::HttpEndpoint);
}

/// A method with an annotation of a gRPC controller is a gRPC method, whatever else decorates it.
pub proof fn law_ts_controllers(
    t: TreeView,
    parent: Option<int>,
    i: int,
    a: int,
    path: Seq<char>,
    repo_id: RepoId,
    package: Seq<char>,
    annotations: Seq<Seq<char>>,
)
    requires
        t.kind(i) == "method_definition"@,
        0 <= a < annotations.len(),
        is_decorated(t, i, annotations[a]),
    ensures
        typescript::ts_node(t, parent, i, path, repo_id, package, annotations) matches Some(n) && n.kind == NodeKind::GrpcMethod,
{
    lemma_kinds();
    lemma_method_text(t, parent, i, annotations[a]);
    lemma_some_annotation(annotations, typescript::method_text(t, parent, i), a);
}

proof fn lemma_some_annotation(annotations: Seq<Seq<char>>, s: Seq<char>, a: int)
    requires
        0 <= a < annotations.len(),
        text::contains(s, annotations[a]),
    ensures
        typescript::first_annotation(annotations, s) is Some,
    decreases annotations.len(),
{
    if !text::contains(s, annotations[0]) {
        assert(annotations.drop_first()[a - 1] == annotations[a]);
        lemma_some_annotation(annotations.drop_first(), s, a - 1);
    }
}

/// A method decorated with `@MessagePattern` or `@EventPattern`, with no annotation of a gRPC
/// controller and no route, is a topic.
pub proof fn law_ts_patterns(
    t: TreeView,
    parent: Option<int>,
    i: int,
    path: Seq<char>,
    repo_id: RepoId,
    package: Seq<char>,
    annotations: Seq<Seq<char>>,
)
    requires
        stands_under(t, parent, i),
        t.kind(i) == "method_definition"@,
        is_decorated(t, i, "@MessagePattern"@) || is_decorated(t, i, "@EventPattern"@),
        forall|a: int| 0 <= a < annotations.len() ==> is_free_of(t, i, #[trigger] annotations[a]),
        forall|k: int| 0 <= k <= 7 ==> is_free_of(t, i, #[trigger] route_decorator(k)),
    ensures
        typescript::ts_node(t, parent, i, path, repo_id, package, annotations) matches Some(n) && n.kind == NodeKind::KafkaTopic,
{
    lemma_kinds();
    let s = typescript::method_text(t, parent, i);
    assert forall|a: int| 0 <= a < annotations.len() implies !text::contains(s, #[trigger] annotations[a]) by {
        lemma_free(t, parent, i, annotations[a]);
    }
    lemma_no_annotation(annotations, s);
    lemma_free(t, parent, i, route_decorator(0));
    lemma_free(t, parent, i, route_decorator(1));
    lemma_free(t, parent, i, route_decorator(2));
    lemma_free(t, parent, i, route_decorator(3));
    lemma_free(t, parent, i, route_decorator(4));
    lemma_free(t, parent, i, route_decorator(5));
    lemma_free(t, parent, i, route_decorator(6));
    lemma_free(t, parent, i, route_decorator(7));
    if is_decorated(t, i, "@MessagePattern"@) {
        lemma_method_text(t, parent, i, "@MessagePattern"@);
    } else {
        lemma_method_text(t, parent, i, "@EventPattern"@);
    }
}

/// A method with none of these decorators is a class member under its own name.
pub proof fn law_ts_members(
    t: TreeView,
    i: int,
    name: Seq<char>,
    path: Seq<char>,
    repo_id: RepoId,
    package: Seq<char>,
    annotations: Seq<Seq<char>>,
)
    requires
        within_reach(t, i),
        t.kind(i) == "method_definition"@,
        t.field_text(i, "name"@) == Some(name),
        is_free_of(t, i, "@MessagePattern"@),
        is_free_of(t, i, "@EventPattern"@),
        forall|a: int| 0 <= a < annotations.len() ==> is_free_of(t, i, #[trigger] annotations[a]),
        forall|k: int| 0 <= k <= 7 ==> is_free_of(t, i, #[trigger] route_decorator(k)),
    ensures
        declares(
            typescript::ts_found(t, path, repo_id, package, annotations).nodes,
            t,
            i,
            path,
            repo_id,
            name,
            NodeKind::ServiceClass,
        ),
{
    lemma_kinds();
    assert forall|parent: Option<int>| stands_under(t, parent, i) implies ((#[trigger] typescript::ts_node(
        t,
        parent,
        i,
        path,
        repo_id,
        package,
        annotations,
    )) matches Some(n) && is_declared(n, t, i, path, repo_id, name, NodeKind::ServiceClass)) by {
        let s = typescript::method_text(t, parent, i);
        assert forall|a: int| 0 <= a < annotations.len() implies !text::contains(s, #[trigger] annotations[a]) by {
            lemma_free(t, parent, i, annotations[a]);
        }
        lemma_no_annotation(annotations, s);
        lemma_free(t, parent, i, route_decorator(0));
        lemma_free(t, parent, i, route_decorator(1));
        lemma_free(t, parent, i, route_decorator(2));
        lemma_free(t, parent, i, route_decorator(3));
        lemma_free(t, parent, i, route_decorator(4));
        lemma_free(t, parent, i, route_decorator(5));
        lemma_free(t, parent, i, route_decorator(6));
        lemma_free(t, parent, i, route_decorator(7));
        lemma_free(t, parent, i, "@MessagePattern"@);
        lemma_free(t, parent, i, "@EventPattern"@);
    }
    lemma_ts_declares(t, i, path, repo_id, package, annotations, name, NodeKind::ServiceClass);
}

proof fn lemma_words()
    ensures
        "subscribe"@ != "send"@,
        "subscribe"@ != "getService"@,
        "send"@ != "getService"@,
{
    reveal_strlit("subscribe");
    reveal_strlit("send");
    reveal_strlit("getService");
    assert("subscribe"@.len() != "send"@.len());
    assert("subscribe"@.len() != "getService"@.len());
    assert("send"@.len() != "getService"@.len());
}

/// A call of a member `subscribe` or `send` with an object that gives a `topic` declares the topic.
pub proof fn law_ts_topics(
    t: TreeView,
    i: int,
    f: int,
    word: Seq<char>,
    args: int,
    topic: Seq<char>,
    path: Seq<char>,
    repo_id: RepoId,
    package: Seq<char>,
    annotations: Seq<Seq<char>>,
)
    requires
        within_reach(t, i),
        t.kind(i) == "call_expression"@,
        t.field(i, "function"@) == Some(f),
        t.kind(f) == "member_expression"@,
        t.field_text(f, "property"@) == Some(word),
        word == "subscribe"@ || word == "send"@,
        t.field(i, "arguments"@) == Some(args),
        typescript::object_value(t, args, "topic"@) == Some(topic),
    ensures
        declares(
            typescript::ts_found(t, path, repo_id, package, annotations).nodes,
            t,
            i,
            path,
            repo_id,
            topic,
            NodeKind::KafkaTopic,
        ),
{
    lemma_kinds();
    lemma_words();
    lemma_ts_declares(t, i, path, repo_id, package, annotations, topic, NodeKind::KafkaTopic);
}

/// An expression `new Queue` with a literal in first place declares the queue.
pub proof fn law_ts_queues(
    t: TreeView,
    i: int,
    ctor: int,
    args: int,
    queue: Seq<char>,
    path: Seq<char>,
    repo_id: RepoId,
    package: Seq<char>,
    annotations: Seq<Seq<char>>,
)
    requires
        within_reach(t, i),
        t.kind(i) == "new_expression"@,
        t.field(i, "constructor"@) == Some(ctor),
        t.kind(ctor) == "identifier"@,
        t.text(ctor) == Some("Queue"@),
        t.field(i, "arguments"@) == Some(args),
        typescript::first_argument(t, args) == Some(queue),
    ensures
        declares(typescript::ts_found(t, path, repo_id, package, annotations).nodes, t, i, path, repo_id, queue, NodeKind::Queue),
{
    lemma_kinds();
    lemma_ts_declares(t, i, path, repo_id, package, annotations, queue, NodeKind::Queue);
}

/// A call of a member `getService` calls the service that its arguments name, and an expression
/// `new XClient` of an imported class calls the service `X`.
pub proof fn law_ts_rpc_calls(
    t: TreeView,
    i: int,
    service: Seq<char>,
    path: Seq<char>,
    repo_id: RepoId,
    package: Seq<char>,
    annotations: Seq<Seq<char>>,
)
    requires
        within_reach(t, i),
        ({
            ||| {
                &&& t.kind(i) == "call_expression"@
                &&& t.field(i, "function"@) is Some
                &&& t.kind(t.field(i, "function"@)->0) == "member_expression"@
                &&& t.field_text(t.field(i, "function"@)->0, "property"@) == Some("getService"@)
                &&& typescript::get_service_target(t, i) == Some(service)
            }
            ||| {
                &&& t.kind(i) == "new_expression"@
                &&& t.field(i, "constructor"@) is Some
                &&& typescript::imported_class(t, t.field(i, "constructor"@)->0, typescript::import_bindings(t)) == Some(
                    service + "Client"@,
                )
                &&& service.len() > 0
                &&& 65 <= service[0] as int <= 90
            }
        }),
    ensures
        walk_laws::any(
            typescript::ts_found(t, path, repo_id, package, annotations).calls,
            |c: RawRpcCallView| c.service_name == service && c.line_start == t.line(i) && c.line_end == t.end_line(i),
        ),
{
    lemma_kinds();
    lemma_words();
    walk_laws::law_starts_and_endings(service, "Client"@);
    assert((service + "Client"@).take((service + "Client"@).len() - "Client"@.len()) == service);
    let r = TsRulesView { path, repo_id, package, annotations, bindings: typescript::import_bindings(t) };
    let items = |o: TsFoundView| o.calls;
    let is = |c: RawRpcCallView| c.service_name == service && c.line_start == t.line(i) && c.line_end == t.end_line(i);
    let start = TsFoundView { nodes: Seq::empty(), imports: Seq::empty(), calls: Seq::empty() };
    assert forall|parent: Option<int>, c: (), o: TsFoundView|
        walk_laws::any(items((#[trigger] <TsRules as syntax::TreeRules>::on_node(r, t, parent, i, c, o)).0), is) by {
        let after = o.calls.push(typescript::ts_call(t, parent, i, r.bindings)->0);
        assert(is(after[after.len() - 1]));
    }
    walk_laws::lemma_walk_gathers::<TsRules, RawRpcCallView>(r, t, 64, (), start, i, items, is);
}

/// The arguments of a decorator are what stands between its first pair of parentheses.
pub proof fn law_ts_decorator_arguments(a: Seq<char>, decorator: Seq<char>, args: Seq<char>, b: Seq<char>)
    requires
        text::find(a + decorator + "("@ + args + ")"@ + b, decorator) == Some(a.len() as int),
        !args.contains(')'),
    ensures
        typescript::decorator_arguments(a + decorator + "("@ + args + ")"@ + b, decorator) == Some(args),
{
    reveal_strlit("(");
    reveal_strlit(")");
    let s = a + decorator + "("@ + args + ")"@ + b;
    let rest = s.skip((a.len() + decorator.len()) as int);
    assert(rest == "("@ + args + ")"@ + b);
    assert(rest.take(0) == Seq::<char>::empty());
    crate::text_laws::lemma_index_at(rest, '(', 0);
    let inner = rest.skip(1);
    assert(inner == args + ")"@ + b);
    assert(inner.take(args.len() as int) == args);
    crate::text_laws::lemma_index_at(inner, ')', args.len() as int);
}

/// A service is named after its client or stub without that word, whatever it is imported through.
pub proof fn law_ts_clients_name_services(x: Seq<char>)
    requires
        x.len() > 0,
        !x.contains('.'),
        x[0] != 'I',
    ensures
        typescript::client_service(x + "Client"@) == x,
        typescript::client_service(x + "Stub"@) == x,
{
    reveal_strlit("Client");
    reveal_strlit("Stub");
    walk_laws::law_starts_and_endings(x, "Client"@);
    walk_laws::law_starts_and_endings(x, "Stub"@);
    let a = x + "Client"@;
    let b = x + "Stub"@;
    assert(!a.contains('.')) by {
        if a.contains('.') {
            let k = choose|k: int| 0 <= k < a.len() && a[k] == '.';
            if k < x.len() {
                assert(x[k] == '.');
            }
        }
    }
    assert(!b.contains('.')) by {
        if b.contains('.') {
            let k = choose|k: int| 0 <= k < b.len() && b[k] == '.';
            if k < x.len() {
                assert(x[k] == '.');
            }
        }
    }
    crate::text_laws::law_before_and_after(a, '.', a);
    crate::text_laws::law_before_and_after(b, '.', b);
    assert(a.take(a.len() - 6) == x);
    assert(b.take(b.len() - 4) == x);
    if text::ends_with(b, "Client"@) {
        let u = b.subrange(b.len() - 6, b.len() as int);
        assert(u[5] == b[b.len() - 1]);
        assert(b[b.len() - 1] == 'b');
        assert(("Client"@)[5] == 't');
    }
}

/// An argument in quotes of any of the three sorts names what stands between them; another one names
/// what stands behind its last dot.
pub proof fn law_ts_argument_names(q: char, x: Seq<char>, y: Seq<char>)
    requires
        q == '\'' || q == '"' || q == '`',
        x.len() > 0,
        x[0] != '\'' && x[0] != '"' && x[0] != '`',
        x.last() != '\'' && x.last() != '"' && x.last() != '`',
        !x.contains('.'),
        text::trim(x) == x,
        text::trim(y.push('.') + x) == y.push('.') + x,
        y.len() > 0 && y[0] != '\'' && y[0] != '"' && y[0] != '`',
    ensures
        typescript::argument_name(seq![q] + x + seq![q]) == x,
        typescript::argument_name(x) == x,
        typescript::argument_name(y.push('.') + x) == x,
{
    reveal_strlit("'");
    reveal_strlit("\"");
    reveal_strlit("`");
    let s = seq![q] + x + seq![q];
    crate::text_laws::law_white_space_is_unicodes(q);
    assert(s[0] == q && s.last() == q);
    assert(text::trim_front(s, text::WHITE_SPACE@) == s);
    assert(text::trim(s) == s);
    lemma_unquoted(x, q);
    crate::text_laws::law_before_and_after(x, '.', x);
    crate::text_laws::law_before_and_after(y, '.', x);
    let z = y.push('.') + x;
    assert(z[0] == y[0]);
}

proof fn lemma_unquoted(x: Seq<char>, q: char)
    requires
        q == '\'' || q == '"' || q == '`',
        x.len() > 0,
        x[0] != '\'' && x[0] != '"' && x[0] != '`',
        x.last() != '\'' && x.last() != '"' && x.last() != '`',
    ensures
        typescript::unquoted(seq![q] + x + seq![q]) == x,
{
    reveal_strlit("'");
    reveal_strlit("\"");
    reveal_strlit("`");
    let s = seq![q] + x + seq![q];
    assert(s[0] == q && s.last() == q);
    assert(("'"@)[0] == '\'' && ("\""@)[0] == '"' && ("`"@)[0] == '`');
    if q == '\'' {
        crate::text_laws::lemma_marks_are_taken(x, q, "'"@);
        crate::text_laws::lemma_marks_are_taken(x, '"', "\""@);
        crate::text_laws::lemma_marks_are_taken(x, '`', "`"@);
    } else if q == '"' {
        crate::text_laws::lemma_marks_are_taken(s, '\'', "'"@);
        crate::text_laws::lemma_marks_are_taken(x, q, "\""@);
        crate::text_laws::lemma_marks_are_taken(x, '`', "`"@);
    } else {
        crate::text_laws::lemma_marks_are_taken(s, '\'', "'"@);
        crate::text_laws::lemma_marks_are_taken(s, '"', "\""@);
        crate::text_laws::lemma_marks_are_taken(x, q, "`"@);
    }
}

/// A method of a service is named after both where a decorator names both.
pub proof fn law_ts_grpc_method_names(s: Seq<char>, annotation: Seq<char>, a: Seq<char>, b: Seq<char>)
    requires
        typescript::decorator_arguments(s, annotation) == Some(a.push(',') + b),
        !a.contains(','),
        !b.contains(','),
        typescript::argument_name(a).len() > 0,
        typescript::argument_name(b).len() > 0,
    ensures
        typescript::grpc_method(s, annotation) == Some(typescript::argument_name(a) + "."@ + typescript::argument_name(b)),
{
    crate::text_laws::law_splitting_takes_the_first_part(a, ',', b);
    crate::text_laws::law_splitting_takes_the_first_part(b, ',', a);
    let parts = seq![a] + seq![b];
    assert(parts.drop_last() == seq![a]);
    assert(seq![a].drop_last() == Seq::<Seq<char>>::empty());
    assert(parts.last() == b && seq![a].last() == a);
    assert(typescript::argument_names(seq![a].drop_last()) == Seq::<Seq<char>>::empty());
    assert(typescript::argument_names(seq![a]) == seq![typescript::argument_name(a)]);
    assert(typescript::argument_names(parts) == seq![typescript::argument_name(a), typescript::argument_name(b)]);
}

} // verus!
