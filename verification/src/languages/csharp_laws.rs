//! What holds of the declarations that are found in C# files.
use vstd::prelude::*;
use crate::languages::common;
use crate::languages::common::TopicCallView;
use crate::languages::csharp;
use crate::languages::csharp::{CSharpFoundView, CSharpRules};
use crate::languages::walk_laws;
use crate::languages::walk_laws::{declares, has_text, is_declared, reports_call, within_reach};
use crate::model::{ContractNodeView, NodeKind, PackagesView, RepoId};
use crate::syntax;
use crate::syntax::TreeView;

verus! {

/// Whether node `c` is a list of attributes that holds a text.
pub open spec fn attribute_has(t: TreeView, c: int, w: Seq<char>) -> bool {
    t.kind(c) == "attribute_list"@ && match t.text(c) {
        Some(s) => has_text(s, w),
        None => false,
    }
}

/// Whether one of the nodes is a list of attributes that holds a text.
pub open spec fn some_has(t: TreeView, ks: Seq<int>, w: Seq<char>) -> bool {
    exists|k: int| 0 <= k < ks.len() && attribute_has(t, #[trigger] ks[k], w)
}

/// Whether a method has an attribute of a route.
pub open spec fn is_routed(t: TreeView, i: int) -> bool {
    let ks = t.children(i);
    some_has(t, ks, "[HttpGet"@) || some_has(t, ks, "[HttpPost"@) || some_has(t, ks, "[HttpPut"@) || some_has(t, ks, "[HttpDelete"@)
        || some_has(t, ks, "[HttpPatch"@) || some_has(t, ks, "[Route"@)
}

proof fn lemma_attributes()
    ensures
        "[HttpGet"@.len() > 0 && !("[HttpGet"@).contains(' '),
        "[HttpPost"@.len() > 0 && !("[HttpPost"@).contains(' '),
        "[HttpPut"@.len() > 0 && !("[HttpPut"@).contains(' '),
        "[HttpDelete"@.len() > 0 && !("[HttpDelete"@).contains(' '),
        "[HttpPatch"@.len() > 0 && !("[HttpPatch"@).contains(' '),
        "[Route"@.len() > 0 && !("[Route"@).contains(' '),
{
    reveal_strlit("[HttpGet");
    reveal_strlit("[HttpPost");
    reveal_strlit("[HttpPut");
    reveal_strlit("[HttpDelete");
    reveal_strlit("[HttpPatch");
    reveal_strlit("[Route");
}

proof fn lemma_gathered(t: TreeView, ks: Seq<int>, w: Seq<char>)
    requires
        w.len() > 0,
        !w.contains(' '),
    ensures
        has_text(csharp::attribute_text(t, ks), w) == some_has(t, ks, w),
        csharp::attribute_text(t, ks).len() > 0 ==> csharp::attribute_text(t, ks).last() == ' ',
    decreases ks.len(),
{
    reveal_strlit(" ");
    let whole = csharp::attribute_text(t, ks);
    if ks.len() == 0 {
        if has_text(whole, w) {
            let (x, y) = choose|x: Seq<char>, y: Seq<char>| whole == #[trigger] (x + w + y);
            assert((x + w + y).len() > 0);
        }
    } else {
        let front = ks.drop_last();
        let rest = csharp::attribute_text(t, front);
        let c = ks.last();
        lemma_gathered(t, front, w);
        if t.kind(c) == "attribute_list"@ && t.text(c) is Some {
            walk_laws::lemma_text_in_parts(rest, t.text(c)->0, w);
        }
        if some_has(t, front, w) {
            let k = choose|k: int| 0 <= k < front.len() && attribute_has(t, #[trigger] front[k], w);
            assert(ks[k] == front[k]);
        }
        if some_has(t, ks, w) {
            let k = choose|k: int| 0 <= k < ks.len() && attribute_has(t, #[trigger] ks[k], w);
            if k < front.len() {
                assert(front[k] == ks[k]);
            }
        }
        if attribute_has(t, c, w) {
            assert(ks[ks.len() - 1] == c);
        }
    }
}

proof fn lemma_routed(t: TreeView, i: int)
    ensures
        csharp::declares_route(csharp::attribute_text(t, t.children(i))) == is_routed(t, i),
{
    let ks = t.children(i);
    let s = csharp::attribute_text(t, ks);
    lemma_attributes();
    lemma_gathered(t, ks, "[HttpGet"@);
    lemma_gathered(t, ks, "[HttpPost"@);
    lemma_gathered(t, ks, "[HttpPut"@);
    lemma_gathered(t, ks, "[HttpDelete"@);
    lemma_gathered(t, ks, "[HttpPatch"@);
    lemma_gathered(t, ks, "[Route"@);
    walk_laws::law_texts_are_found(s, "[HttpGet"@);
    walk_laws::law_texts_are_found(s, "[HttpPost"@);
    walk_laws::law_texts_are_found(s, "[HttpPut"@);
    walk_laws::law_texts_are_found(s, "[HttpDelete"@);
    walk_laws::law_texts_are_found(s, "[HttpPatch"@);
    walk_laws::law_texts_are_found(s, "[Route"@);
}

proof fn lemma_kinds()
    ensures
        "namespace_declaration"@ != "file_scoped_namespace_declaration"@,
        "namespace_declaration"@ != "class_declaration"@,
        "namespace_declaration"@ != "interface_declaration"@,
        "namespace_declaration"@ != "struct_declaration"@,
        "namespace_declaration"@ != "record_declaration"@,
        "namespace_declaration"@ != "method_declaration"@,
        "namespace_declaration"@ != "invocation_expression"@,
        "file_scoped_namespace_declaration"@ != "class_declaration"@,
        "file_scoped_namespace_declaration"@ != "interface_declaration"@,
        "file_scoped_namespace_declaration"@ != "struct_declaration"@,
        "file_scoped_namespace_declaration"@ != "record_declaration"@,
        "file_scoped_namespace_declaration"@ != "method_declaration"@,
        "file_scoped_namespace_declaration"@ != "invocation_expression"@,
        "class_declaration"@ != "interface_declaration"@,
        "class_declaration"@ != "struct_declaration"@,
        "class_declaration"@ != "record_declaration"@,
        "class_declaration"@ != "method_declaration"@,
        "class_declaration"@ != "invocation_expression"@,
        "interface_declaration"@ != "struct_declaration"@,
        "interface_declaration"@ != "record_declaration"@,
        "interface_declaration"@ != "method_declaration"@,
        "interface_declaration"@ != "invocation_expression"@,
        "struct_declaration"@ != "record_declaration"@,
        "struct_declaration"@ != "method_declaration"@,
        "struct_declaration"@ != "invocation_expression"@,
        "record_declaration"@ != "method_declaration"@,
        "record_declaration"@ != "invocation_expression"@,
        "method_declaration"@ != "invocation_expression"@,
{
    reveal_strlit("namespace_declaration");
    reveal_strlit("file_scoped_namespace_declaration");
    reveal_strlit("class_declaration");
    reveal_strlit("interface_declaration");
    reveal_strlit("struct_declaration");
    reveal_strlit("record_declaration");
    reveal_strlit("method_declaration");
    reveal_strlit("invocation_expression");
    assert("namespace_declaration"@.len() != "file_scoped_namespace_declaration"@.len());
    assert("namespace_declaration"@.len() != "class_declaration"@.len());
    assert("namespace_declaration"@[0] != "interface_declaration"@[0]);
    assert("namespace_declaration"@.len() != "struct_declaration"@.len());
    assert("namespace_declaration"@.len() != "record_declaration"@.len());
    assert("namespace_declaration"@.len() != "method_declaration"@.len());
    assert("namespace_declaration"@[0] != "invocation_expression"@[0]);
    assert("file_scoped_namespace_declaration"@.len() != "class_declaration"@.len());
    assert("file_scoped_namespace_declaration"@.len() != "interface_declaration"@.len());
    assert("file_scoped_namespace_declaration"@.len() != "struct_declaration"@.len());
    assert("file_scoped_namespace_declaration"@.len() != "record_declaration"@.len());
    assert("file_scoped_namespace_declaration"@.len() != "method_declaration"@.len());
    assert("file_scoped_namespace_declaration"@.len() != "invocation_expression"@.len());
    assert("class_declaration"@.len() != "interface_declaration"@.len());
    assert("class_declaration"@.len() != "struct_declaration"@.len());
    assert("class_declaration"@.len() != "record_declaration"@.len());
    assert("class_declaration"@.len() != "method_declaration"@.len());
    assert("class_declaration"@.len() != "invocation_expression"@.len());
    assert("interface_declaration"@.len() != "struct_declaration"@.len());
    assert("interface_declaration"@.len() != "record_declaration"@.len());
    assert("interface_declaration"@.len() != "method_declaration"@.len());
    assert("interface_declaration"@[2] != "invocation_expression"@[2]);
    assert("struct_declaration"@[0] != "record_declaration"@[0]);
    assert("struct_declaration"@[0] != "method_declaration"@[0]);
    assert("struct_declaration"@.len() != "invocation_expression"@.len());
    assert("record_declaration"@[0] != "method_declaration"@[0]);
    assert("record_declaration"@.len() != "invocation_expression"@.len());
    assert("method_declaration"@.len() != "invocation_expression"@.len());
}

/// Classes, structs and records are declared as classes, interfaces as interfaces, methods as HTTP
/// endpoints if an attribute `[HttpGet`, `[HttpPost`, `[HttpPut`, `[HttpDelete`, `[HttpPatch` or
/// `[Route` stands on them, else as class members; each under its own name.
pub proof fn law_csharp_declarations(
    t: TreeView,
    i: int,
    name: Seq<char>,
    path: Seq<char>,
    repo_id: RepoId,
    packages: PackagesView,
)
    requires
        within_reach(t, i),
        t.field_text(i, "name"@) == Some(name),
    ensures
        ({
            let nodes = csharp::csharp_found(t, path, repo_id, packages).nodes;
            let k = t.kind(i);
            &&& k == "class_declaration"@ || k == "struct_declaration"@ || k == "record_declaration"@ ==> declares(
                nodes,
                t,
                i,
                path,
                repo_id,
                name,
                NodeKind::ServiceClass,
            )
            &&& k == "interface_declaration"@ ==> declares(nodes, t, i, path, repo_id, name, NodeKind::Interface)
            &&& k == "method_declaration"@ && is_routed(t, i) ==> declares(nodes, t, i, path, repo_id, name, NodeKind::HttpEndpoint)
            &&& k == "method_declaration"@ && !is_routed(t, i) ==> declares(nodes, t, i, path, repo_id, name, NodeKind::ServiceClass)
        }),
{
    lemma_kinds();
    lemma_routed(t, i);
    let k = t.kind(i);
    if k == "class_declaration"@ || k == "struct_declaration"@ || k == "record_declaration"@ || k == "interface_declaration"@ || k
        == "method_declaration"@ {
        let kind = csharp::csharp_kind(t, i);
        let r = common::PackageRules { path, repo_id, packages };
        let nodes = |o: CSharpFoundView| o.nodes;
        let is = |n: ContractNodeView| is_declared(n, t, i, path, repo_id, name, kind);
        let start = CSharpFoundView { package: packages.file, nodes: Seq::empty(), calls: Seq::empty() };
        assert forall|parent: Option<int>, c: (), o: CSharpFoundView|
            walk_laws::any(nodes((#[trigger] <CSharpRules as syntax::TreeRules>::on_node(r, t, parent, i, c, o)).0), is) by {
            let after = csharp::csharp_step(t, i, path, repo_id, packages, o).nodes;
            assert(is(after[after.len() - 1]));
        }
        walk_laws::lemma_walk_gathers::<CSharpRules, ContractNodeView>(r, t, 64, (), start, i, nodes, is);
        assert(declares(csharp::csharp_found(t, path, repo_id, packages).nodes, t, i, path, repo_id, name, kind));
    }
}

proof fn lemma_words()
    ensures
        "Produce"@ != "ProduceAsync"@,
        "Produce"@ != "Subscribe"@,
        "ProduceAsync"@ != "Subscribe"@,
{
    reveal_strlit("Produce");
    reveal_strlit("ProduceAsync");
    reveal_strlit("Subscribe");
    assert("Produce"@.len() != "ProduceAsync"@.len());
    assert("Produce"@.len() != "Subscribe"@.len());
    assert("ProduceAsync"@.len() != "Subscribe"@.len());
}

/// A call of a member `Produce` or `ProduceAsync` produces to the topic that its arguments name,
/// and one of `Subscribe` consumes from it.
pub proof fn law_csharp_topic_calls(
    t: TreeView,
    i: int,
    f: int,
    n: int,
    args: int,
    word: Seq<char>,
    topic: Seq<char>,
    path: Seq<char>,
    repo_id: RepoId,
    packages: PackagesView,
)
    requires
        within_reach(t, i),
        t.kind(i) == "invocation_expression"@,
        t.field(i, "function"@) == Some(f),
        t.kind(f) == "member_access_expression"@,
        t.field(f, "name"@) == Some(n),
        t.text(n) == Some(word),
        word == "Produce"@ || word == "ProduceAsync"@ || word == "Subscribe"@,
        t.field(i, "arguments"@) == Some(args),
        csharp::topic_among(t, t.named_children(args)) == Some(topic),
    ensures
        reports_call(csharp::csharp_found(t, path, repo_id, packages).calls, t, i, topic, word != "Subscribe"@),
{
    lemma_kinds();
    lemma_words();
    let r = common::PackageRules { path, repo_id, packages };
    let calls = |o: CSharpFoundView| o.calls;
    let is = |c: TopicCallView|
        c.line_start == t.line(i) && c.line_end == t.end_line(i) && c.topic == topic && c.is_producer == (word != "Subscribe"@);
    let start = CSharpFoundView { package: packages.file, nodes: Seq::empty(), calls: Seq::empty() };
    assert forall|parent: Option<int>, c: (), o: CSharpFoundView|
        walk_laws::any(calls((#[trigger] <CSharpRules as syntax::TreeRules>::on_node(r, t, parent, i, c, o)).0), is) by {
        let after = csharp::csharp_step(t, i, path, repo_id, packages, o).calls;
        assert(is(after[after.len() - 1]));
    }
    walk_laws::lemma_walk_gathers::<CSharpRules, TopicCallView>(r, t, 64, (), start, i, calls, is);
}

/// Where a topic is named together with a partition, it is the first argument of that.
pub proof fn law_csharp_topic_partitions(
    t: TreeView,
    ks: Seq<int>,
    e: int,
    ty: int,
    qualifier: Seq<char>,
    args: int,
    a: int,
    l: int,
    topic: Seq<char>,
)
    requires
        ks.len() > 0,
        t.kind(ks[0]) == "argument"@,
        t.named_child(ks[0], 0) == Some(e),
        t.kind(e) == "object_creation_expression"@,
        t.field(e, "type"@) == Some(ty),
        t.text(ty) == Some(qualifier + "TopicPartition"@),
        t.field(e, "arguments"@) == Some(args),
        t.named_child(args, 0) == Some(a),
        t.kind(a) == "argument"@,
        t.named_child(a, 0) == Some(l),
        t.kind(l) == "string_literal"@,
        t.text(l) == Some("\""@ + topic + "\""@),
        topic.len() > 0,
        topic[0] != '"',
        topic.last() != '"',
    ensures
        csharp::topic_among(t, ks) == Some(topic),
{
    reveal_strlit("object_creation_expression");
    reveal_strlit("string_literal");
    assert("object_creation_expression"@.len() != "string_literal"@.len());
    walk_laws::law_starts_and_endings(qualifier, "TopicPartition"@);
    crate::text_laws::lemma_quotes_are_taken(topic);
}

} // verus!
