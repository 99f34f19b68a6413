//! What holds of the declarations that are found in Go files.
use vstd::prelude::*;
use crate::languages::common;
use crate::languages::go;
use crate::languages::go::{GoFoundView, GoRules, GoRulesView, RawEventView, RawRpcCallView};
use crate::languages::walk_laws;
use crate::languages::walk_laws::{declares, has_text, is_declared, within_reach};
use crate::model;
use crate::model::{ContractNodeView, NodeKind, PackagesView, RepoId};
use crate::syntax;
use crate::syntax::TreeView;
use crate::text;

verus! {

proof fn lemma_kinds()
    ensures
        "var_spec"@ != "const_spec"@,
        "var_spec"@ != "package_clause"@,
        "var_spec"@ != "import_declaration"@,
        "var_spec"@ != "type_declaration"@,
        "var_spec"@ != "function_declaration"@,
        "var_spec"@ != "method_declaration"@,
        "var_spec"@ != "call_expression"@,
        "var_spec"@ != "composite_literal"@,
        "const_spec"@ != "package_clause"@,
        "const_spec"@ != "import_declaration"@,
        "const_spec"@ != "type_declaration"@,
        "const_spec"@ != "function_declaration"@,
        "const_spec"@ != "method_declaration"@,
        "const_spec"@ != "call_expression"@,
        "const_spec"@ != "composite_literal"@,
        "package_clause"@ != "import_declaration"@,
        "package_clause"@ != "type_declaration"@,
        "package_clause"@ != "function_declaration"@,
        "package_clause"@ != "method_declaration"@,
        "package_clause"@ != "call_expression"@,
        "package_clause"@ != "composite_literal"@,
        "import_declaration"@ != "type_declaration"@,
        "import_declaration"@ != "function_declaration"@,
        "import_declaration"@ != "method_declaration"@,
        "import_declaration"@ != "call_expression"@,
        "import_declaration"@ != "composite_literal"@,
        "type_declaration"@ != "function_declaration"@,
        "type_declaration"@ != "method_declaration"@,
        "type_declaration"@ != "call_expression"@,
        "type_declaration"@ != "composite_literal"@,
        "function_declaration"@ != "method_declaration"@,
        "function_declaration"@ != "call_expression"@,
        "function_declaration"@ != "composite_literal"@,
        "method_declaration"@ != "call_expression"@,
        "method_declaration"@ != "composite_literal"@,
        "call_expression"@ != "composite_literal"@,
{
    reveal_strlit("var_spec");
    reveal_strlit("const_spec");
    reveal_strlit("package_clause");
    reveal_strlit("import_declaration");
    reveal_strlit("type_declaration");
    reveal_strlit("function_declaration");
    reveal_strlit("method_declaration");
    reveal_strlit("call_expression");
    reveal_strlit("composite_literal");
    assert("var_spec"@.len() != "const_spec"@.len());
    assert("var_spec"@.len() != "package_clause"@.len());
    assert("var_spec"@.len() != "import_declaration"@.len());
    assert("var_spec"@.len() != "type_declaration"@.len());
    assert("var_spec"@.len() != "function_declaration"@.len());
    assert("var_spec"@.len() != "method_declaration"@.len());
    assert("var_spec"@.len() != "call_expression"@.len());
    assert("var_spec"@.len() != "composite_literal"@.len());
    assert("const_spec"@.len() != "package_clause"@.len());
    assert("const_spec"@.len() != "import_declaration"@.len());
    assert("const_spec"@.len() != "type_declaration"@.len());
    assert("const_spec"@.len() != "function_declaration"@.len());
    assert("const_spec"@.len() != "method_declaration"@.len());
    assert("const_spec"@.len() != "call_expression"@.len());
    assert("const_spec"@.len() != "composite_literal"@.len());
    assert("package_clause"@.len() != "import_declaration"@.len());
    assert("package_clause"@.len() != "type_declaration"@.len());
    assert("package_clause"@.len() != "function_declaration"@.len());
    assert("package_clause"@.len() != "method_declaration"@.len());
    assert("package_clause"@.len() != "call_expression"@.len());
    assert("package_clause"@.len() != "composite_literal"@.len());
    assert("import_declaration"@.len() != "type_declaration"@.len());
    assert("import_declaration"@.len() != "function_declaration"@.len());
    assert("import_declaration"@[0] != "method_declaration"@[0]);
    assert("import_declaration"@.len() != "call_expression"@.len());
    assert("import_declaration"@.len() != "composite_literal"@.len());
    assert("type_declaration"@.len() != "function_declaration"@.len());
    assert("type_declaration"@.len() != "method_declaration"@.len());
    assert("type_declaration"@.len() != "call_expression"@.len());
    assert("type_declaration"@.len() != "composite_literal"@.len());
    assert("function_declaration"@.len() != "method_declaration"@.len());
    assert("function_declaration"@.len() != "call_expression"@.len());
    assert("function_declaration"@.len() != "composite_literal"@.len());
    assert("method_declaration"@.len() != "call_expression"@.len());
    assert("method_declaration"@.len() != "composite_literal"@.len());
    assert("call_expression"@.len() != "composite_literal"@.len());
}

/// What the walk over a file starts with.
spec fn start_of(t: TreeView) -> GoFoundView {
    GoFoundView {
        package: ""@,
        nodes: Seq::empty(),
        consts: go::getenv_defaults(t),
        imports: Seq::empty(),
        events: Seq::empty(),
        calls: Seq::empty(),
    }
}

proof fn lemma_with_grows<A>(s: Seq<A>, x: Option<A>)
    ensures
        s.is_prefix_of(model::with(s, x)),
{
}

proof fn lemma_prefix_of_prefix<A>(a: Seq<A>, b: Seq<A>, c: Seq<A>)
    requires
        a.is_prefix_of(b),
        b.is_prefix_of(c),
    ensures
        a.is_prefix_of(c),
{
    assert forall|k: int| 0 <= k < a.len() implies a[k] == #[trigger] c[k] by {
        assert(a[k] == b[k]);
    }
}

proof fn lemma_concat_grows<A>(a: Seq<A>, b: Seq<A>)
    ensures
        a.is_prefix_of(a + b),
{
}

#[verifier::spinoff_prover]
#[verifier::rlimit(40)]
proof fn lemma_go_grows(r: GoRulesView, t: TreeView, parent: Option<int>, j: int, o: GoFoundView)
    ensures
        ({
            let after = <GoRules as syntax::TreeRules>::on_node(r, t, parent, j, (), o).0;
            &&& o.nodes.is_prefix_of(after.nodes)
            &&& o.events.is_prefix_of(after.events)
            &&& o.calls.is_prefix_of(after.calls)
        }),
{
    let k = t.kind(j);
    let after = go::go_step(t, j, r.path, r.repo_id, r.packages, r.servers, o);
    if go::is_spec(t, j) || k == "package_clause"@ || k == "import_declaration"@ {
        assert(after.nodes == o.nodes && after.events == o.events && after.calls == o.calls);
    } else if k == "type_declaration"@ {
        lemma_with_grows(o.nodes, go::type_node(t, j, r.path, r.repo_id, o.package));
        assert(after.events == o.events && after.calls == o.calls);
    } else if k == "function_declaration"@ || k == "method_declaration"@ {
        assert(o.nodes.is_prefix_of(after.nodes));
        assert(after.events == o.events && after.calls == o.calls);
    } else if k == "call_expression"@ {
        if go::selected_method(t, j) is Some {
            let method = go::selected_method(t, j)->0;
            let first = model::with(o.nodes, go::service_node(t, j, method, r.path, r.repo_id, o.package));
            lemma_with_grows(o.nodes, go::service_node(t, j, method, r.path, r.repo_id, o.package));
            lemma_with_grows(first, go::route_node(t, j, method, r.path, r.repo_id, o.package));
            assert(after.nodes == model::with(first, go::route_node(t, j, method, r.path, r.repo_id, o.package)));
            lemma_prefix_of_prefix(o.nodes, first, after.nodes);
            lemma_concat_grows(o.events, go::call_events(t, j, method));
            lemma_with_grows(o.calls, go::client_call(t, j, method));
        } else {
            assert(after == o);
        }
    } else if k == "composite_literal"@ {
        lemma_with_grows(o.events, go::literal_event(t, j, o.consts));
        assert(after.nodes == o.nodes && after.calls == o.calls);
    } else {
        assert(after == o);
    }
}

proof fn lemma_go_declares(
    t: TreeView,
    i: int,
    path: Seq<char>,
    repo_id: RepoId,
    packages: PackagesView,
    name: Seq<char>,
    kind: NodeKind,
)
    requires
        within_reach(t, i),
        forall|o: GoFoundView|
            declares(
                (#[trigger] go::go_step(t, i, path, repo_id, packages, go::server_types(t), o)).nodes,
                t,
                i,
                path,
                repo_id,
                name,
                kind,
            ),
    ensures
        declares(go::go_found(t, path, repo_id, packages).nodes, t, i, path, repo_id, name, kind),
{
    let r = GoRulesView { path, repo_id, packages, servers: go::server_types(t) };
    let items = |o: GoFoundView| o.nodes;
    let is = |n: ContractNodeView| is_declared(n, t, i, path, repo_id, name, kind);
    assert forall|parent: Option<int>, c: (), o: GoFoundView|
        walk_laws::any(items((#[trigger] <GoRules as syntax::TreeRules>::on_node(r, t, parent, i, c, o)).0), is) by {
        let after = go::go_step(t, i, path, repo_id, packages, go::server_types(t), o).nodes;
        assert(declares(after, t, i, path, repo_id, name, kind));
        let k = choose|k: int| 0 <= k < after.len() && is(#[trigger] after[k]);
        assert(is(after[k]));
    }
    assert forall|parent: Option<int>, j: int, c: (), o: GoFoundView|
        items(o).is_prefix_of(items((#[trigger] <GoRules as syntax::TreeRules>::on_node(r, t, parent, j, c, o)).0)) by {
        lemma_go_grows(r, t, parent, j, o);
    }
    walk_laws::lemma_walk_gathers::<GoRules, ContractNodeView>(r, t, 64, (), start_of(t), i, items, is);
}

/// A function that serves no gRPC is an HTTP endpoint if its name starts with `Handle` or ends with
/// `Handler` and its first line speaks of a `ResponseWriter`, a `Request`, a `Context` or a `Ctx`;
/// any other is a class member.
pub proof fn law_go_functions(
    t: TreeView,
    i: int,
    name: Seq<char>,
    line: Seq<char>,
    path: Seq<char>,
    repo_id: RepoId,
    packages: PackagesView,
)
    requires
        within_reach(t, i),
        t.kind(i) == "function_declaration"@ || t.kind(i) == "method_declaration"@,
        t.field_text(i, "name"@) == Some(name),
        t.head(i) == Some(line),
        t.kind(i) == "method_declaration"@ ==> go::method_receiver(t, i) is None || !go::server_types(t).contains(
            go::method_receiver(t, i)->0,
        ),
    ensures
        ({
            let nodes = go::go_found(t, path, repo_id, packages).nodes;
            let named = (exists|s: Seq<char>| name == #[trigger] ("Handle"@ + s)) || exists|s: Seq<char>| name == #[trigger] (s + "Handler"@);
            let shaped = has_text(line, "ResponseWriter"@) || has_text(line, "Request"@) || has_text(line, "Context"@) || has_text(
                line,
                "Ctx"@,
            );
            &&& named && shaped ==> declares(nodes, t, i, path, repo_id, name, NodeKind::HttpEndpoint)
            &&& !named || !shaped ==> declares(nodes, t, i, path, repo_id, name, NodeKind::ServiceClass)
        }),
{
    lemma_kinds();
    walk_laws::lemma_starts(name, "Handle"@);
    walk_laws::lemma_ends(name, "Handler"@);
    walk_laws::law_texts_are_found(line, "ResponseWriter"@);
    walk_laws::law_texts_are_found(line, "Request"@);
    walk_laws::law_texts_are_found(line, "Context"@);
    walk_laws::law_texts_are_found(line, "Ctx"@);
    let kind = go::function_kind(t, i, name, line, go::server_types(t));
    assert forall|o: GoFoundView| declares(
        (#[trigger] go::go_step(t, i, path, repo_id, packages, go::server_types(t), o)).nodes,
        t,
        i,
        path,
        repo_id,
        name,
        kind,
    ) by {
        let after = go::go_step(t, i, path, repo_id, packages, go::server_types(t), o).nodes;
        assert(is_declared(after[after.len() - 1], t, i, path, repo_id, name, kind));
    }
    lemma_go_declares(t, i, path, repo_id, packages, name, kind);
}

/// A method on a type that is registered as a server is a gRPC method.
pub proof fn law_go_servers(
    t: TreeView,
    i: int,
    name: Seq<char>,
    receiver: Seq<char>,
    path: Seq<char>,
    repo_id: RepoId,
    packages: PackagesView,
)
    requires
        within_reach(t, i),
        t.kind(i) == "method_declaration"@,
        t.field_text(i, "name"@) == Some(name),
        go::method_receiver(t, i) == Some(receiver),
        go::server_types(t).contains(receiver),
    ensures
        declares(go::go_found(t, path, repo_id, packages).nodes, t, i, path, repo_id, name, NodeKind::GrpcMethod),
{
    lemma_kinds();
    assert forall|o: GoFoundView| declares(
        (#[trigger] go::go_step(t, i, path, repo_id, packages, go::server_types(t), o)).nodes,
        t,
        i,
        path,
        repo_id,
        name,
        NodeKind::GrpcMethod,
    ) by {
        let after = go::go_step(t, i, path, repo_id, packages, go::server_types(t), o).nodes;
        assert(is_declared(after[after.len() - 1], t, i, path, repo_id, name, NodeKind::GrpcMethod));
    }
    lemma_go_declares(t, i, path, repo_id, packages, name, NodeKind::GrpcMethod);
}

/// A type is declared under the word behind `type`, as an interface if its first line says so.
pub proof fn law_go_types(
    t: TreeView,
    i: int,
    s: Seq<char>,
    line: Seq<char>,
    path: Seq<char>,
    repo_id: RepoId,
    packages: PackagesView,
)
    requires
        within_reach(t, i),
        t.kind(i) == "type_declaration"@,
        t.text(i) == Some(s),
        text::first_line(s) == Some(line),
        text::words(text::trim(line)).len() >= 2,
        text::words(text::trim(line))[0] == "type"@,
    ensures
        declares(
            go::go_found(t, path, repo_id, packages).nodes,
            t,
            i,
            path,
            repo_id,
            text::words(text::trim(line))[1],
            if has_text(text::trim(line), "interface"@) {
                NodeKind::Interface
            } else {
                NodeKind::ServiceClass
            },
        ),
{
    lemma_kinds();
    walk_laws::law_texts_are_found(text::trim(line), "interface"@);
    let name = text::words(text::trim(line))[1];
    let kind = if has_text(text::trim(line), "interface"@) {
        NodeKind::Interface
    } else {
        NodeKind::ServiceClass
    };
    assert forall|o: GoFoundView| declares(
        (#[trigger] go::go_step(t, i, path, repo_id, packages, go::server_types(t), o)).nodes,
        t,
        i,
        path,
        repo_id,
        name,
        kind,
    ) by {
        let after = go::go_step(t, i, path, repo_id, packages, go::server_types(t), o).nodes;
        assert(is_declared(after[after.len() - 1], t, i, path, repo_id, name, kind));
    }
    lemma_go_declares(t, i, path, repo_id, packages, name, kind);
}

/// Whether a call is one of a member under a word.
pub open spec fn calls_member(t: TreeView, i: int, word: Seq<char>) -> bool {
    &&& t.kind(i) == "call_expression"@
    &&& t.field(i, "function"@) is Some
    &&& t.kind(t.field(i, "function"@)->0) == "selector_expression"@
    &&& t.field_text(t.field(i, "function"@)->0, "field"@) == Some(word)
}

proof fn lemma_between(p: Seq<char>, x: Seq<char>, q: Seq<char>)
    requires
        x.len() > 0,
    ensures
        go::between(p + x + q, p, q) == Some(x),
{
    let s = p + x + q;
    assert(s.subrange(0, p.len() as int) == p);
    assert(s.subrange(s.len() - q.len(), s.len() as int) == q);
    assert(s.subrange(p.len() as int, s.len() - q.len()) == x);
}

/// A call `RegisterXServer` declares the gRPC service `X`.
pub proof fn law_go_services(t: TreeView, i: int, x: Seq<char>, path: Seq<char>, repo_id: RepoId, packages: PackagesView)
    requires
        within_reach(t, i),
        x.len() > 0,
        calls_member(t, i, "Register"@ + x + "Server"@),
    ensures
        declares(go::go_found(t, path, repo_id, packages).nodes, t, i, path, repo_id, x, NodeKind::GrpcService),
{
    lemma_kinds();
    let word = "Register"@ + x + "Server"@;
    lemma_between("Register"@, x, "Server"@);
    assert forall|o: GoFoundView| declares(
        (#[trigger] go::go_step(t, i, path, repo_id, packages, go::server_types(t), o)).nodes,
        t,
        i,
        path,
        repo_id,
        x,
        NodeKind::GrpcService,
    ) by {
        let after = go::go_step(t, i, path, repo_id, packages, go::server_types(t), o).nodes;
        assert(go::service_node(t, i, word, path, repo_id, o.package) is Some);
        assert(is_declared(after[o.nodes.len() as int], t, i, path, repo_id, x, NodeKind::GrpcService));
    }
    lemma_go_declares(t, i, path, repo_id, packages, x, NodeKind::GrpcService);
}

/// A call of a member `get`, `post`, `put`, `delete`, `patch`, `head` or `options`, in whatever case,
/// with a path in first place and something more, is the endpoint of that verb at the path.
pub proof fn law_go_routes(
    t: TreeView,
    i: int,
    word: Seq<char>,
    args: int,
    s: Seq<char>,
    route: Seq<char>,
    path: Seq<char>,
    repo_id: RepoId,
    packages: PackagesView,
)
    requires
        within_reach(t, i),
        calls_member(t, i, word),
        ({
            let low = text::lowered(word);
            low == "get"@ || low == "post"@ || low == "put"@ || low == "delete"@ || low == "patch"@ || low == "head"@ || low
                == "options"@
        }),
        t.field(i, "arguments"@) == Some(args),
        t.named_children(args).len() >= 2,
        t.kind(t.named_children(args)[0]) == "interpreted_string_literal"@,
        t.text(t.named_children(args)[0]) == Some(s),
        text::trim_set(s, "\""@) == "/"@ + route,
    ensures
        declares(
            go::go_found(t, path, repo_id, packages).nodes,
            t,
            i,
            path,
            repo_id,
            text::raised(word) + " "@ + ("/"@ + route),
            NodeKind::HttpEndpoint,
        ),
{
    lemma_kinds();
    reveal_strlit("/");
    let name = text::raised(word) + " "@ + ("/"@ + route);
    assert(("/"@ + route)[0] == '/');
    assert forall|o: GoFoundView| declares(
        (#[trigger] go::go_step(t, i, path, repo_id, packages, go::server_types(t), o)).nodes,
        t,
        i,
        path,
        repo_id,
        name,
        NodeKind::HttpEndpoint,
    ) by {
        let after = go::go_step(t, i, path, repo_id, packages, go::server_types(t), o).nodes;
        assert(is_declared(after[after.len() - 1], t, i, path, repo_id, name, NodeKind::HttpEndpoint));
    }
    lemma_go_declares(t, i, path, repo_id, packages, name, NodeKind::HttpEndpoint);
}

/// The names that no service of the mesh has: libraries and stores.
pub open spec fn library(k: int) -> Seq<char> {
    if k == 0 {
        "redis"@
    } else if k == 1 {
        "http"@
    } else if k == 2 {
        "mongo"@
    } else if k == 3 {
        "s3"@
    } else if k == 4 {
        "sqs"@
    } else if k == 5 {
        "vault"@
    } else if k == 6 {
        "elastic"@
    } else if k == 7 {
        "sql"@
    } else if k == 8 {
        "db"@
    } else if k == 9 {
        "kafka"@
    } else {
        "sarama"@
    }
}

/// A call `p.NewXClient` calls the service `X`, unless `p` is `redis`, `http`, `mongo`, `s3`, `sqs`,
/// `vault`, `elastic`, `sql`, `db`, `kafka` or `sarama`: then it calls none.
pub proof fn law_go_clients(t: TreeView, i: int, x: Seq<char>, p: Seq<char>, path: Seq<char>, repo_id: RepoId, packages: PackagesView)
    requires
        within_reach(t, i),
        x.len() > 0,
        calls_member(t, i, "New"@ + x + "Client"@),
        t.field_text(t.field(i, "function"@)->0, "operand"@) == Some(p),
    ensures
        (forall|k: int| 0 <= k <= 10 ==> p != #[trigger] library(k)) ==> walk_laws::any(
            go::go_found(t, path, repo_id, packages).calls,
            |c: RawRpcCallView| c.service_name == x && c.line_start == t.line(i) && c.line_end == t.end_line(i),
        ),
        (exists|k: int| 0 <= k <= 10 && p == #[trigger] library(k)) ==> go::client_call(t, i, "New"@ + x + "Client"@) is None,
{
    lemma_kinds();
    let word = "New"@ + x + "Client"@;
    lemma_between("New"@, x, "Client"@);
    if forall|k: int| 0 <= k <= 10 ==> p != #[trigger] library(k) {
        assert(p != library(0) && p != library(1) && p != library(2) && p != library(3) && p != library(4) && p != library(5));
        assert(p != library(6) && p != library(7) && p != library(8) && p != library(9) && p != library(10));
        let r = GoRulesView { path, repo_id, packages, servers: go::server_types(t) };
        let items = |o: GoFoundView| o.calls;
        let is = |c: RawRpcCallView| c.service_name == x && c.line_start == t.line(i) && c.line_end == t.end_line(i);
        assert forall|parent: Option<int>, c: (), o: GoFoundView|
            walk_laws::any(items((#[trigger] <GoRules as syntax::TreeRules>::on_node(r, t, parent, i, c, o)).0), is) by {
            let after = go::go_step(t, i, path, repo_id, packages, go::server_types(t), o).calls;
            assert(go::client_call(t, i, word) is Some);
            assert(is(after[after.len() - 1]));
        }
        assert forall|parent: Option<int>, j: int, c: (), o: GoFoundView|
        items(o).is_prefix_of(items((#[trigger] <GoRules as syntax::TreeRules>::on_node(r, t, parent, j, c, o)).0)) by {
        lemma_go_grows(r, t, parent, j, o);
    }
    walk_laws::lemma_walk_gathers::<GoRules, RawRpcCallView>(r, t, 64, (), start_of(t), i, items, is);
    }
}

/// Whether the events found hold one on a topic, at the place of node `i`.
pub open spec fn reports_event(events: Seq<RawEventView>, t: TreeView, i: int, topic: Seq<char>, is_producer: bool) -> bool {
    walk_laws::any(
        events,
        |e: RawEventView| e.line_start == t.line(i) && e.line_end == t.end_line(i) && e.topic == topic && e.is_producer == is_producer,
    )
}

proof fn lemma_types()
    ensures
        "ReaderConfig"@ != "WriterConfig"@,
        "ReaderConfig"@ != "ProducerMessage"@,
        "ReaderConfig"@ != "Message"@,
        "ReaderConfig"@ != "Writer"@,
        "WriterConfig"@ != "ProducerMessage"@,
        "WriterConfig"@ != "Message"@,
        "WriterConfig"@ != "Writer"@,
        "ProducerMessage"@ != "Message"@,
        "ProducerMessage"@ != "Writer"@,
        "Message"@ != "Writer"@,
{
    reveal_strlit("ReaderConfig");
    reveal_strlit("WriterConfig");
    reveal_strlit("ProducerMessage");
    reveal_strlit("Message");
    reveal_strlit("Writer");
    assert("ReaderConfig"@[0] != "WriterConfig"@[0]);
    assert("ReaderConfig"@.len() != "ProducerMessage"@.len());
    assert("ReaderConfig"@.len() != "Message"@.len());
    assert("ReaderConfig"@.len() != "Writer"@.len());
    assert("WriterConfig"@.len() != "ProducerMessage"@.len());
    assert("WriterConfig"@.len() != "Message"@.len());
    assert("WriterConfig"@.len() != "Writer"@.len());
    assert("ProducerMessage"@.len() != "Message"@.len());
    assert("ProducerMessage"@.len() != "Writer"@.len());
    assert("Message"@.len() != "Writer"@.len());
}

/// A literal of type `ReaderConfig` consumes from the topic that it names; one of type
/// `WriterConfig`, `ProducerMessage`, `Message` or `Writer` produces to it.
pub proof fn law_go_literals(
    t: TreeView,
    i: int,
    ty: Seq<char>,
    topic: Seq<char>,
    path: Seq<char>,
    repo_id: RepoId,
    packages: PackagesView,
)
    requires
        within_reach(t, i),
        t.kind(i) == "composite_literal"@,
        go::literal_type(t, i) == Some(ty),
        ty == "ReaderConfig"@ || ty == "WriterConfig"@ || ty == "ProducerMessage"@ || ty == "Message"@ || ty == "Writer"@,
        forall|consts: Map<Seq<char>, Seq<char>>| #[trigger] go::topic_field(t, i, consts) == Some(topic),
    ensures
        reports_event(go::go_found(t, path, repo_id, packages).events, t, i, topic, ty != "ReaderConfig"@),
{
    lemma_kinds();
    lemma_types();
    let r = GoRulesView { path, repo_id, packages, servers: go::server_types(t) };
    let items = |o: GoFoundView| o.events;
    let is = |e: RawEventView|
        e.line_start == t.line(i) && e.line_end == t.end_line(i) && e.topic == topic && e.is_producer == (ty != "ReaderConfig"@);
    assert forall|parent: Option<int>, c: (), o: GoFoundView|
        walk_laws::any(items((#[trigger] <GoRules as syntax::TreeRules>::on_node(r, t, parent, i, c, o)).0), is) by {
        let after = go::go_step(t, i, path, repo_id, packages, go::server_types(t), o).events;
        assert(go::topic_field(t, i, o.consts) == Some(topic));
        assert(is(after[after.len() - 1]));
    }
    assert forall|parent: Option<int>, j: int, c: (), o: GoFoundView|
        items(o).is_prefix_of(items((#[trigger] <GoRules as syntax::TreeRules>::on_node(r, t, parent, j, c, o)).0)) by {
        lemma_go_grows(r, t, parent, j, o);
    }
    walk_laws::lemma_walk_gathers::<GoRules, RawEventView>(r, t, 64, (), start_of(t), i, items, is);
}

proof fn lemma_words()
    ensures
        "WriteMessages"@ != "SendMessage"@,
        "WriteMessages"@ != "Produce"@,
        "WriteMessages"@ != "ReadMessage"@,
        "WriteMessages"@ != "FetchMessage"@,
        "WriteMessages"@ != "ConsumePartition"@,
        "WriteMessages"@ != "SubscribeTopics"@,
        "WriteMessages"@ != "Subscribe"@,
        "SendMessage"@ != "Produce"@,
        "SendMessage"@ != "ReadMessage"@,
        "SendMessage"@ != "FetchMessage"@,
        "SendMessage"@ != "ConsumePartition"@,
        "SendMessage"@ != "SubscribeTopics"@,
        "SendMessage"@ != "Subscribe"@,
        "Produce"@ != "ReadMessage"@,
        "Produce"@ != "FetchMessage"@,
        "Produce"@ != "ConsumePartition"@,
        "Produce"@ != "SubscribeTopics"@,
        "Produce"@ != "Subscribe"@,
        "ReadMessage"@ != "FetchMessage"@,
        "ReadMessage"@ != "ConsumePartition"@,
        "ReadMessage"@ != "SubscribeTopics"@,
        "ReadMessage"@ != "Subscribe"@,
        "FetchMessage"@ != "ConsumePartition"@,
        "FetchMessage"@ != "SubscribeTopics"@,
        "FetchMessage"@ != "Subscribe"@,
        "ConsumePartition"@ != "SubscribeTopics"@,
        "ConsumePartition"@ != "Subscribe"@,
        "SubscribeTopics"@ != "Subscribe"@,
{
    reveal_strlit("WriteMessages");
    reveal_strlit("SendMessage");
    reveal_strlit("Produce");
    reveal_strlit("ReadMessage");
    reveal_strlit("FetchMessage");
    reveal_strlit("ConsumePartition");
    reveal_strlit("SubscribeTopics");
    reveal_strlit("Subscribe");
    assert("WriteMessages"@.len() != "SendMessage"@.len());
    assert("WriteMessages"@.len() != "Produce"@.len());
    assert("WriteMessages"@.len() != "ReadMessage"@.len());
    assert("WriteMessages"@.len() != "FetchMessage"@.len());
    assert("WriteMessages"@.len() != "ConsumePartition"@.len());
    assert("WriteMessages"@.len() != "SubscribeTopics"@.len());
    assert("WriteMessages"@.len() != "Subscribe"@.len());
    assert("SendMessage"@.len() != "Produce"@.len());
    assert("SendMessage"@[0] != "ReadMessage"@[0]);
    assert("SendMessage"@.len() != "FetchMessage"@.len());
    assert("SendMessage"@.len() != "ConsumePartition"@.len());
    assert("SendMessage"@.len() != "SubscribeTopics"@.len());
    assert("SendMessage"@.len() != "Subscribe"@.len());
    assert("Produce"@.len() != "ReadMessage"@.len());
    assert("Produce"@.len() != "FetchMessage"@.len());
    assert("Produce"@.len() != "ConsumePartition"@.len());
    assert("Produce"@.len() != "SubscribeTopics"@.len());
    assert("Produce"@.len() != "Subscribe"@.len());
    assert("ReadMessage"@.len() != "FetchMessage"@.len());
    assert("ReadMessage"@.len() != "ConsumePartition"@.len());
    assert("ReadMessage"@.len() != "SubscribeTopics"@.len());
    assert("ReadMessage"@.len() != "Subscribe"@.len());
    assert("FetchMessage"@.len() != "ConsumePartition"@.len());
    assert("FetchMessage"@.len() != "SubscribeTopics"@.len());
    assert("FetchMessage"@.len() != "Subscribe"@.len());
    assert("ConsumePartition"@.len() != "SubscribeTopics"@.len());
    assert("ConsumePartition"@.len() != "Subscribe"@.len());
    assert("SubscribeTopics"@.len() != "Subscribe"@.len());
}

/// A call of a member `WriteMessages`, `SendMessage` or `Produce` produces to the topics among its
/// arguments; one of `ReadMessage`, `FetchMessage`, `ConsumePartition`, `SubscribeTopics` or
/// `Subscribe` consumes from them.
pub proof fn law_go_topic_calls(
    t: TreeView,
    i: int,
    word: Seq<char>,
    args: int,
    k: int,
    path: Seq<char>,
    repo_id: RepoId,
    packages: PackagesView,
)
    requires
        within_reach(t, i),
        calls_member(t, i, word),
        t.field(i, "arguments"@) == Some(args),
        0 <= k < go::literals_below(t, args).len(),
    ensures
        ({
            let events = go::go_found(t, path, repo_id, packages).events;
            let topic = go::literals_below(t, args)[k];
            &&& word == "WriteMessages"@ || word == "SendMessage"@ || word == "Produce"@ ==> reports_event(events, t, i, topic, true)
            &&& word == "ReadMessage"@ || word == "FetchMessage"@ || word == "ConsumePartition"@ || word == "SubscribeTopics"@ || word
                == "Subscribe"@ ==> reports_event(events, t, i, topic, false)
        }),
{
    lemma_kinds();
    lemma_words();
    let topic = go::literals_below(t, args)[k];
    let produces = word == "WriteMessages"@ || word == "SendMessage"@ || word == "Produce"@;
    let consumes = word == "ReadMessage"@ || word == "FetchMessage"@ || word == "ConsumePartition"@ || word == "SubscribeTopics"@ || word
        == "Subscribe"@;
    if produces || consumes {
        let r = GoRulesView { path, repo_id, packages, servers: go::server_types(t) };
        let items = |o: GoFoundView| o.events;
        let is = |e: RawEventView|
            e.line_start == t.line(i) && e.line_end == t.end_line(i) && e.topic == topic && e.is_producer == produces;
        assert forall|parent: Option<int>, c: (), o: GoFoundView|
            walk_laws::any(items((#[trigger] <GoRules as syntax::TreeRules>::on_node(r, t, parent, i, c, o)).0), is) by {
            let after = go::go_step(t, i, path, repo_id, packages, go::server_types(t), o).events;
            let more = go::call_events(t, i, word);
            assert(after == o.events + more);
            assert(more[k].topic == topic);
            assert(is(after[o.events.len() + k]));
        }
        assert forall|parent: Option<int>, j: int, c: (), o: GoFoundView|
        items(o).is_prefix_of(items((#[trigger] <GoRules as syntax::TreeRules>::on_node(r, t, parent, j, c, o)).0)) by {
        lemma_go_grows(r, t, parent, j, o);
    }
    walk_laws::lemma_walk_gathers::<GoRules, RawEventView>(r, t, 64, (), start_of(t), i, items, is);
    }
}

/// An event belongs to the smallest declaration that covers it, as a producer or as a consumer of
/// the topic; where none covers it, the topic is declared itself, a stream for what is produced and
/// a topic for what is consumed.
pub proof fn law_go_events_are_attached(s: go::EventState, e: RawEventView, path: Seq<char>, repo_id: RepoId, package: Seq<char>)
    ensures
        ({
            let after = go::attach(s, e, path, repo_id, package);
            match common::smallest(s.nodes, e.line_start, e.line_end) {
                Some(k) => {
                    &&& after.nodes == s.nodes
                    &&& e.is_producer ==> after.producers == s.producers.push((k, e.topic)) && after.consumers == s.consumers
                    &&& !e.is_producer ==> after.consumers == s.consumers.push((k, e.topic)) && after.producers == s.producers
                },
                None => {
                    let k = s.nodes.len() as int;
                    let n = after.nodes.last();
                    &&& after.nodes.len() == k + 1 && after.nodes.drop_last() == s.nodes
                    &&& n.name == e.topic && n.file_path == path && n.repo_id == repo_id && n.package == package && n.line_start
                        == e.line_start && n.line_end == e.line_end
                    &&& e.is_producer ==> n.kind == NodeKind::EventStream && after.producers == s.producers.push((k, e.topic))
                        && after.consumers == s.consumers
                    &&& !e.is_producer ==> n.kind == NodeKind::KafkaTopic && after.consumers == s.consumers.push((k, e.topic))
                        && after.producers == s.producers
                },
            }
        }),
{
    let after = go::attach(s, e, path, repo_id, package);
    if common::smallest(s.nodes, e.line_start, e.line_end) is None {
        assert(after.nodes.drop_last() == s.nodes);
    }
}

/// An import is looked for under the name that it is given, else under the last part of its path up
/// to the first dot in it; one named `_` counts as used everywhere.
pub proof fn law_go_imports(t: TreeView, i: int, raw: Seq<char>, dir: Seq<char>, base: Seq<char>, n: int, name: Seq<char>)
    requires
        t.field_text(i, "path"@) == Some(raw),
        text::trim_set(raw, "\""@) == dir.push('/') + base,
        base.len() > 0,
        !base.contains('/'),
        !base.contains('.'),
    ensures
        t.field(i, "name"@) is None ==> go::import_of(t, i) == Some(
            go::RawImportView { ref_ident: base, path: dir.push('/') + base, is_blank: false },
        ),
        t.field(i, "name"@) == Some(n) && t.text(n) == Some(name) && name != "_"@ ==> go::import_of(t, i) == Some(
            go::RawImportView { ref_ident: name, path: dir.push('/') + base, is_blank: false },
        ),
        t.field(i, "name"@) == Some(n) && t.text(n) == Some("_"@) ==> (go::import_of(t, i) matches Some(m) && m.is_blank && m.path
            == dir.push('/') + base),
{
    crate::text_laws::law_before_and_after(dir, '/', base);
    crate::text_laws::law_before_and_after(base, '.', base);
}

/// A declaration depends on an import exactly if the import counts as used everywhere or its name
/// stands in the declaration.
pub proof fn law_go_links_follow_use(ls: Seq<Seq<char>>, nodes: Seq<ContractNodeView>, imp: go::RawImportView, n: int, link: (int, Seq<char>))
    requires
        0 <= n <= nodes.len(),
    ensures
        go::import_links(ls, nodes, imp, n).contains(link) <==> 0 <= link.0 < n && link.1 == imp.path && (imp.is_blank || imp.ref_ident.len()
            > 0 && common::stands_in(ls, nodes[link.0], imp.ref_ident)),
    decreases n,
{
    if n > 0 {
        law_go_links_follow_use(ls, nodes, imp, n - 1, link);
        let rest = go::import_links(ls, nodes, imp, n - 1);
        let all = go::import_links(ls, nodes, imp, n);
        if all.contains(link) {
            let k = choose|k: int| 0 <= k < all.len() && all[k] == link;
            if k < rest.len() {
                assert(rest[k] == link);
            }
        }
        if rest.contains(link) {
            let k = choose|k: int| 0 <= k < rest.len() && rest[k] == link;
            assert(all[k] == link);
        }
        if link.0 == n - 1 && link.1 == imp.path && (imp.is_blank || imp.ref_ident.len() > 0 && common::stands_in(
            ls,
            nodes[n - 1],
            imp.ref_ident,
        )) {
            assert(all[rest.len() as int] == link);
        }
    }
}

/// A message goes to the topic that its field `Topic` gives; other fields but those that hold a
/// partition are passed over.
pub proof fn law_go_topic_fields(t: TreeView, lit: int, elems: Seq<int>, key: Seq<char>, v: int, consts: Map<Seq<char>, Seq<char>>)
    requires
        elems.len() > 0,
        t.kind(elems[0]) == "keyed_element"@,
        t.field_text(elems[0], "key"@) == Some(key),
        t.field(elems[0], "value"@) == Some(v),
    ensures
        key == "Topic"@ ==> go::topic_in(t, lit, elems, consts) == go::topic_value(t, v, consts),
        key != "Topic"@ && key != "TopicPartition"@ ==> go::topic_in(t, lit, elems, consts) == go::topic_in(t, lit, elems.drop_first(), consts),
{
}

/// A value stands for its first string, else for the one that its name is a constant for.
pub proof fn law_go_topic_values(t: TreeView, v: int, name: Seq<char>, consts: Map<Seq<char>, Seq<char>>)
    requires
        go::literals_below(t, v).len() == 0,
        t.text(v) == Some(name),
        t.kind(v) == "identifier"@,
        consts.dom().contains(name),
    ensures
        go::topic_value(t, v, consts) == Some(consts[name]),
{
    reveal_strlit("identifier");
    reveal_strlit("literal_element");
    reveal_strlit("unary_expression");
    assert("identifier"@.len() != "literal_element"@.len());
    assert("identifier"@.len() != "unary_expression"@.len());
}

} // verus!
