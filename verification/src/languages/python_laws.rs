//! What holds of the declarations that are found in Python files.
use vstd::prelude::*;
use crate::languages::common::FileRules;
use crate::languages::python;
use crate::languages::python::{PyFoundView, PyRules};
use crate::languages::walk_laws;
use crate::languages::walk_laws::{declares, has_text, is_declared, stands_under, within_reach};
use crate::model::{ContractNodeView, NodeKind, RepoId};
use crate::paths;
use crate::syntax;
use crate::syntax::TreeView;
use crate::text;

verus! {

proof fn lemma_kinds()
    ensures
        "import_statement"@ != "import_from_statement"@,
        "import_statement"@ != "class_definition"@,
        "import_statement"@ != "function_definition"@,
        "import_statement"@ != "call"@,
        "import_from_statement"@ != "class_definition"@,
        "import_from_statement"@ != "function_definition"@,
        "import_from_statement"@ != "call"@,
        "class_definition"@ != "function_definition"@,
        "class_definition"@ != "call"@,
        "function_definition"@ != "call"@,
{
    reveal_strlit("import_statement");
    reveal_strlit("import_from_statement");
    reveal_strlit("class_definition");
    reveal_strlit("function_definition");
    reveal_strlit("call");
    assert("import_statement"@.len() != "import_from_statement"@.len());
    assert("import_statement"@[0] != "class_definition"@[0]);
    assert("import_statement"@.len() != "function_definition"@.len());
    assert("import_statement"@.len() != "call"@.len());
    assert("import_from_statement"@.len() != "class_definition"@.len());
    assert("import_from_statement"@.len() != "function_definition"@.len());
    assert("import_from_statement"@.len() != "call"@.len());
    assert("class_definition"@.len() != "function_definition"@.len());
    assert("class_definition"@.len() != "call"@.len());
    assert("function_definition"@.len() != "call"@.len());
}

proof fn lemma_py_declares(
    t: TreeView,
    i: int,
    path: Seq<char>,
    repo_id: RepoId,
    package: Seq<char>,
    name: Seq<char>,
    kind: NodeKind,
)
    requires
        within_reach(t, i),
        forall|parent: Option<int>, c: Option<int>, o: PyFoundView|
            stands_under(t, parent, i) ==> {
                let after = (#[trigger] python::py_step(t, parent, i, path, repo_id, package, c, o)).0.nodes;
                after.len() > 0 && is_declared(after.last(), t, i, path, repo_id, name, kind)
            },
    ensures
        declares(python::py_nodes(t, path, repo_id, package), t, i, path, repo_id, name, kind),
{
    let r = FileRules { path, repo_id, package };
    let items = |o: PyFoundView| o.nodes;
    let is = |n: ContractNodeView| is_declared(n, t, i, path, repo_id, name, kind);
    let inv = |p: Option<int>, c: Option<int>| true;
    let start = PyFoundView { nodes: Seq::empty(), imports: Seq::empty(), producers: Seq::empty(), consumers: Seq::empty() };
    assert forall|parent: Option<int>, c: Option<int>, o: PyFoundView| stands_under(t, parent, i) && inv(parent, c) implies walk_laws::any(
        items((#[trigger] <PyRules as syntax::TreeRules>::on_node(r, t, parent, i, c, o)).0),
        is,
    ) by {
        let after = python::py_step(t, parent, i, path, repo_id, package, c, o).0.nodes;
        assert(is(after[after.len() - 1]));
    }
    walk_laws::lemma_walk_gathers_below::<PyRules, ContractNodeView>(r, t, 64, None, start, i, items, is, inv);
}

/// A class named `...Servicer` is a service of gRPC, unless it stands in a file named
/// `..._pb2_grpc.py`; any other is a class.
pub proof fn law_py_classes(
    t: TreeView,
    i: int,
    name: Seq<char>,
    file: Seq<char>,
    path: Seq<char>,
    repo_id: RepoId,
    package: Seq<char>,
)
    requires
        within_reach(t, i),
        t.kind(i) == "class_definition"@,
        t.field_text(i, "name"@) == Some(name),
        paths::file_name(path) == Some(file),
    ensures
        ({
            let nodes = python::py_nodes(t, path, repo_id, package);
            let serves = exists|a: Seq<char>| name == #[trigger] (a + "Servicer"@);
            let generated = exists|a: Seq<char>| file == #[trigger] (a + "_pb2_grpc.py"@);
            &&& serves && !generated ==> declares(nodes, t, i, path, repo_id, name, NodeKind::GrpcService)
            &&& !serves || generated ==> declares(nodes, t, i, path, repo_id, name, NodeKind::ServiceClass)
        }),
{
    lemma_kinds();
    walk_laws::lemma_ends(name, "Servicer"@);
    walk_laws::lemma_ends(file, "_pb2_grpc.py"@);
    let kind = if text::ends_with(name, "Servicer"@) && !python::is_generated_stub(path) {
        NodeKind::GrpcService
    } else {
        NodeKind::ServiceClass
    };
    lemma_py_declares(t, i, path, repo_id, package, name, kind);
}

/// Whether function `i` stands below one decorator, alone with it in a definition.
pub open spec fn stands_below(t: TreeView, d: int, i: int) -> bool {
    &&& d != i
    &&& t.kind(d) == "decorator"@
    &&& t.kind(i) != "decorator"@
    &&& forall|p: int| #[trigger] t.valid(p) && t.children(p).contains(i) ==> t.kind(p) == "decorated_definition"@ && t.children(p) == seq![d, i]
    &&& exists|p: int| 0 <= p < i < #[trigger] t.last(p)
}

proof fn lemma_decorators(t: TreeView, p: int, d: int, i: int)
    requires
        stands_below(t, d, i),
        stands_under(t, Some(p), i),
    ensures
        python::decorators_of(t, Some(p), i) == seq![d, d],
{
    let ks = t.children(p);
    assert(t.valid(p));
    assert(ks == seq![d, i]);
    assert(t.of_kind(ks, "decorator"@) == seq![d]) by {
        reveal(Seq::filter);
        let keep = |k: int| t.kind(k) == "decorator"@;
        assert(ks.drop_last() == seq![d]);
        assert(seq![d].drop_last() == Seq::<int>::empty());
        assert(Seq::<int>::empty().filter(keep) == Seq::<int>::empty());
        assert(seq![d].filter(keep) == seq![d]);
        assert(ks.filter(keep) == seq![d]);
    }
    assert(ks.drop_first() == seq![i]);
    assert(python::earlier(seq![i], i) == Seq::<int>::empty());
    assert(python::earlier(ks, i) == seq![d]);
    assert(seq![d].drop_last() == Seq::<int>::empty());
    assert(python::trailing_decorators(t, Seq::<int>::empty()) == Seq::<int>::empty());
    assert(python::trailing_decorators(t, seq![d]) == seq![d]);
    assert(seq![d] + seq![d] == seq![d, d]);
}

/// A function decorated with `@app.`, `@router.` or `@api_router.` is an HTTP endpoint; one with
/// `@task`, `@celery` or `.task` is a queue instead; with any other decorator it is a class member.
pub proof fn law_py_functions(
    t: TreeView,
    i: int,
    d: int,
    s: Seq<char>,
    name: Seq<char>,
    path: Seq<char>,
    repo_id: RepoId,
    package: Seq<char>,
)
    requires
        within_reach(t, i),
        t.kind(i) == "function_definition"@,
        t.field_text(i, "name"@) == Some(name),
        stands_below(t, d, i),
        t.text(d) == Some(s),
    ensures
        ({
            let nodes = python::py_nodes(t, path, repo_id, package);
            let is_task = has_text(s, "@task"@) || has_text(s, "@celery"@) || has_text(s, ".task"@);
            let is_route = has_text(s, "@app."@) || has_text(s, "@router."@) || has_text(s, "@api_router."@);
            &&& is_task ==> declares(nodes, t, i, path, repo_id, name, NodeKind::Queue)
            &&& !is_task && is_route ==> declares(nodes, t, i, path, repo_id, name, NodeKind::HttpEndpoint)
            &&& !is_task && !is_route ==> declares(nodes, t, i, path, repo_id, name, NodeKind::ServiceClass)
        }),
{
    lemma_kinds();
    walk_laws::law_texts_are_found(s, "@task"@);
    walk_laws::law_texts_are_found(s, "@celery"@);
    walk_laws::law_texts_are_found(s, ".task"@);
    walk_laws::law_texts_are_found(s, "@app."@);
    walk_laws::law_texts_are_found(s, "@router."@);
    walk_laws::law_texts_are_found(s, "@api_router."@);
    let is_task = has_text(s, "@task"@) || has_text(s, "@celery"@) || has_text(s, ".task"@);
    let is_route = has_text(s, "@app."@) || has_text(s, "@router."@) || has_text(s, "@api_router."@);
    let kind = if is_task {
        NodeKind::Queue
    } else if is_route {
        NodeKind::HttpEndpoint
    } else {
        NodeKind::ServiceClass
    };
    assert forall|parent: Option<int>, c: Option<int>, o: PyFoundView| stands_under(t, parent, i) implies ({
        let after = (#[trigger] python::py_step(t, parent, i, path, repo_id, package, c, o)).0.nodes;
        after.len() > 0 && is_declared(after.last(), t, i, path, repo_id, name, kind)
    }) by {
        if parent is None {
            let p = choose|p: int| 0 <= p < i < #[trigger] t.last(p);
            assert(t.last(p) <= i);
            assert(false);
        }
        let p = parent->0;
        lemma_decorators(t, p, d, i);
        let ds = seq![d, d];
        assert(ds.drop_last() == seq![d]);
        assert(seq![d].drop_last() == Seq::<int>::empty());
        let none = python::function_role(t, Seq::<int>::empty(), name);
        let one = python::function_role(t, seq![d], name);
        assert(one == python::decorated(t, d, name, none));
        assert(python::function_role(t, ds, name) == python::decorated(t, d, name, one));
        assert(python::function_role(t, ds, name).kind == kind);
    }
    lemma_py_declares(t, i, path, repo_id, package, name, kind);
}

proof fn lemma_words()
    ensures
        "delay"@ != "apply_async"@,
        "delay"@ != "produce"@,
        "delay"@ != "send"@,
        "delay"@ != "send_and_wait"@,
        "delay"@ != "publish"@,
        "delay"@ != "subscribe"@,
        "apply_async"@ != "produce"@,
        "apply_async"@ != "send"@,
        "apply_async"@ != "send_and_wait"@,
        "apply_async"@ != "publish"@,
        "apply_async"@ != "subscribe"@,
        "produce"@ != "send"@,
        "produce"@ != "send_and_wait"@,
        "produce"@ != "publish"@,
        "produce"@ != "subscribe"@,
        "send"@ != "send_and_wait"@,
        "send"@ != "publish"@,
        "send"@ != "subscribe"@,
        "send_and_wait"@ != "publish"@,
        "send_and_wait"@ != "subscribe"@,
        "publish"@ != "subscribe"@,
{
    reveal_strlit("delay");
    reveal_strlit("apply_async");
    reveal_strlit("produce");
    reveal_strlit("send");
    reveal_strlit("send_and_wait");
    reveal_strlit("publish");
    reveal_strlit("subscribe");
    assert("delay"@.len() != "apply_async"@.len());
    assert("delay"@.len() != "produce"@.len());
    assert("delay"@.len() != "send"@.len());
    assert("delay"@.len() != "send_and_wait"@.len());
    assert("delay"@.len() != "publish"@.len());
    assert("delay"@.len() != "subscribe"@.len());
    assert("apply_async"@.len() != "produce"@.len());
    assert("apply_async"@.len() != "send"@.len());
    assert("apply_async"@.len() != "send_and_wait"@.len());
    assert("apply_async"@.len() != "publish"@.len());
    assert("apply_async"@.len() != "subscribe"@.len());
    assert("produce"@.len() != "send"@.len());
    assert("produce"@.len() != "send_and_wait"@.len());
    assert("produce"@[1] != "publish"@[1]);
    assert("produce"@.len() != "subscribe"@.len());
    assert("send"@.len() != "send_and_wait"@.len());
    assert("send"@.len() != "publish"@.len());
    assert("send"@.len() != "subscribe"@.len());
    assert("send_and_wait"@.len() != "publish"@.len());
    assert("send_and_wait"@.len() != "subscribe"@.len());
    assert("publish"@.len() != "subscribe"@.len());
}

/// A call of a member `produce`, `send`, `send_and_wait` or `publish` produces to the topic given in
/// first place or by the name `topic`; one of `delay` or `apply_async` to the task that it is called
/// on.
pub proof fn law_py_producers(t: TreeView, i: int, f: int, word: Seq<char>, args: int)
    requires
        t.field(i, "function"@) == Some(f),
        t.kind(f) == "attribute"@,
        t.field_text(f, "attribute"@) == Some(word),
        t.field(i, "arguments"@) == Some(args),
    ensures
        word == "produce"@ || word == "send"@ || word == "send_and_wait"@ || word == "publish"@ ==> python::produced(t, i)
            == python::first_value(t, t.children(args), "topic"@, None),
        word == "delay"@ || word == "apply_async"@ ==> (forall|owner: Seq<char>, task: Seq<char>|
            t.field_text(f, "object"@) == Some(#[trigger] (owner + "."@ + task)) && task.len() > 0 && !task.contains('.')
                ==> python::produced(t, i) == Some(task)),
        word == "subscribe"@ ==> python::produced(t, i) is None && python::consumed(t, i) == python::listed_values(t, args),
        word != "subscribe"@ ==> python::consumed(t, i).len() == 0,
{
    lemma_words();
    reveal_strlit(".");
    if word == "delay"@ || word == "apply_async"@ {
        assert forall|owner: Seq<char>, task: Seq<char>|
            t.field_text(f, "object"@) == Some(#[trigger] (owner + "."@ + task)) && task.len() > 0 && !task.contains('.') implies python::produced(
            t,
            i,
        ) == Some(task) by {
            assert(owner.push('.') + task == owner + "."@ + task);
            crate::text_laws::law_before_and_after(owner, '.', task);
        }
    }
}

/// A call of `AIOKafkaConsumer` consumes from the topics given by place.
pub proof fn law_py_consumers(t: TreeView, i: int, f: int, args: int)
    requires
        t.field(i, "function"@) == Some(f),
        t.kind(f) == "identifier"@,
        t.text(f) == Some("AIOKafkaConsumer"@),
        t.field(i, "arguments"@) == Some(args),
    ensures
        python::consumed(t, i) == python::positional_values(t, t.children(args)),
{
    reveal_strlit("identifier");
    reveal_strlit("attribute");
    assert("identifier"@.len() != "attribute"@.len());
}

/// A module that is imported is looked for under its name, or under its alias if it has one, and
/// counts as used everywhere where it is imported as a whole.
pub proof fn law_py_imports(t: TreeView, n: int, s: Seq<char>, alias: Seq<char>, module_like: bool)
    ensures
        t.kind(n) == "dotted_name"@ && t.text(n) == Some(s) ==> python::name_import(t, n, module_like) == Some(
            python::ImportRefView { target: s, search_text: s, module_like },
        ),
        t.kind(n) == "aliased_import"@ && t.field_text(n, "name"@) == Some(s) && t.field_text(n, "alias"@) == Some(alias)
            ==> python::name_import(t, n, module_like) == Some(python::ImportRefView { target: s, search_text: alias, module_like }),
{
    reveal_strlit("dotted_name");
    reveal_strlit("aliased_import");
    assert("dotted_name"@.len() != "aliased_import"@.len());
}

/// The value of a string is what stands between its quotes.
pub proof fn law_py_strings(t: TreeView, n: int, s: Seq<char>, q: char, x: Seq<char>)
    requires
        q == '\'' || q == '"',
        t.text(n) == Some(s),
        text::trim(s) == seq![q] + x + seq![q],
    ensures
        python::literal_value(t, n) == Some(x),
{
    let u = text::trim(s);
    assert(u[0] == q);
    assert(python::first_quote(u, 0) == Some(0int));
    let after = u.skip(1);
    assert(after == x + seq![q]);
    assert(after[x.len() as int] == q);
    crate::text_laws::law_rindex_is_last(after, q);
    assert(after.contains(q));
    assert(after.take(x.len() as int) == x);
}

/// A task is named by what its decorator gives for `name`.
pub proof fn law_py_task_names(a: Seq<char>, q: char, x: Seq<char>, b: Seq<char>)
    requires
        q == '\'' || q == '"',
        text::find(a + "name="@ + seq![q] + x + seq![q] + b, "name"@) == Some(a.len() as int),
        !x.contains(q),
    ensures
        python::task_name(a + "name="@ + seq![q] + x + seq![q] + b) == Some(x),
{
    reveal_strlit("name=");
    reveal_strlit("name");
    let s = a + "name="@ + seq![q] + x + seq![q] + b;
    let rest = s.skip(a.len() as int + 4);
    assert(rest[0] == '=');
    assert(rest.take(0) == Seq::<char>::empty());
    crate::text_laws::lemma_index_at(rest, '=', 0);
    let after = rest.skip(1);
    assert(after[0] == q);
    crate::text_laws::law_white_space_is_unicodes(q);
    assert(!text::WHITE_SPACE@.contains(q));
    assert(text::trim_front(after, text::WHITE_SPACE@) == after);
    let inner = after.skip(1);
    assert(inner == x + seq![q] + b);
    assert(inner.take(x.len() as int) == x);
    crate::text_laws::lemma_index_at(inner, q, x.len() as int);
}

/// A name that is assigned at the top of the file stands for the string that it is assigned first.
pub proof fn law_py_assigned_names(t: TreeView, ks: Seq<int>, a: int, left: int, right: int, s: Seq<char>, name: Seq<char>)
    requires
        ks.len() > 0,
        t.kind(ks[0]) == "assignment"@ && a == ks[0] || t.kind(ks[0]) == "expression_statement"@ && t.child(ks[0], 0) == Some(a) && t.kind(
            a,
        ) == "assignment"@,
        t.field(a, "left"@) == Some(left),
        t.field(a, "right"@) == Some(right),
        t.text(left) == Some(s),
    ensures
        text::trim(s) == name ==> python::assigned(t, ks, name) == python::literal_value(t, right),
        text::trim(s) != name ==> python::assigned(t, ks, name) == python::assigned(t, ks.drop_first(), name),
{
    reveal_strlit("assignment");
    reveal_strlit("expression_statement");
    assert("assignment"@.len() != "expression_statement"@.len());
}

/// An argument is the first one that is given by its place, else the one that is given by its name.
pub proof fn law_py_arguments(t: TreeView, p: int, k: int, name: Seq<char>, v: int)
    requires
        t.named(p) && t.kind(p) == "string"@,
        t.named(k) && t.kind(k) == "keyword_argument"@,
        t.field_text(k, "name"@) == Some(name),
        t.field(k, "value"@) == Some(v),
        t.kind(v) == "string"@,
        python::literal_value(t, v) is Some,
    ensures
        python::first_value(t, seq![p], name, None) == python::literal_value(t, p),
        python::first_value(t, seq![k], name, None) == python::literal_value(t, v),
        python::first_value(t, seq![k, p], name, None) == python::literal_value(t, p),
{
    reveal_strlit("string");
    reveal_strlit("keyword_argument");
    reveal_strlit("comment");
    assert("string"@.len() != "keyword_argument"@.len());
    assert("string"@.len() != "comment"@.len());
    assert("keyword_argument"@.len() != "comment"@.len());
    let none = Seq::<int>::empty();
    assert(seq![p].drop_first() == none);
    assert(seq![k].drop_first() == none);
    assert(seq![k, p].drop_first() == seq![p]);
    let found = python::literal_value(t, v);
    assert(python::first_value(t, none, name, found) == found);
    assert(python::first_value(t, seq![p], name, found) == python::literal_value(t, p));
}

} // verus!
