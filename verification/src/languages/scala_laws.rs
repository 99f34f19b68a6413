//! What holds of the declarations that are found in Scala files.
use vstd::prelude::*;
use crate::languages::common::FileRules;
use crate::languages::scala;
use crate::languages::scala::ScalaRules;
use crate::languages::walk_laws;
use crate::languages::walk_laws::{declares, is_declared};
use crate::model::{ContractNodeView, NodeKind, RepoId};
use crate::syntax;
use crate::syntax::TreeView;
use crate::text;

verus! {

proof fn lemma_kinds()
    ensures
        "class_definition"@ != "trait_definition"@,
        "class_definition"@ != "object_definition"@,
        "class_definition"@ != "call_expression"@,
        "trait_definition"@ != "object_definition"@,
        "trait_definition"@ != "call_expression"@,
        "object_definition"@ != "call_expression"@,
{
    reveal_strlit("class_definition");
    reveal_strlit("trait_definition");
    reveal_strlit("object_definition");
    reveal_strlit("call_expression");
    assert("class_definition"@[0] != "trait_definition"@[0]);
    assert("class_definition"@.len() != "object_definition"@.len());
    assert("class_definition"@.len() != "call_expression"@.len());
    assert("trait_definition"@.len() != "object_definition"@.len());
    assert("trait_definition"@.len() != "call_expression"@.len());
    assert("object_definition"@.len() != "call_expression"@.len());
}

proof fn lemma_scala_declares(
    t: TreeView,
    i: int,
    path: Seq<char>,
    repo_id: RepoId,
    package: Seq<char>,
    name: Seq<char>,
    kind: NodeKind,
    k: int,
)
    requires
        syntax::nested(t),
        t.valid(i),
        syntax::level(t, i) <= usize::MAX,
        0 <= k < scala::scala_made(t, i, path, repo_id, package).len(),
        is_declared(scala::scala_made(t, i, path, repo_id, package)[k], t, i, path, repo_id, name, kind),
    ensures
        declares(scala::scala_nodes(t, path, repo_id, package), t, i, path, repo_id, name, kind),
{
    let r = FileRules { path, repo_id, package };
    let items = |o: Seq<ContractNodeView>| o;
    let is = |n: ContractNodeView| is_declared(n, t, i, path, repo_id, name, kind);
    assert forall|parent: Option<int>, c: (), o: Seq<ContractNodeView>|
        walk_laws::any(items((#[trigger] <ScalaRules as syntax::TreeRules>::on_node(r, t, parent, i, c, o)).0), is) by {
        let after = o + scala::scala_made(t, i, path, repo_id, package);
        assert(is(after[o.len() + k]));
    }
    walk_laws::lemma_walk_gathers::<ScalaRules, ContractNodeView>(r, t, usize::MAX as int, (), Seq::empty(), i, items, is);
}

/// Classes and objects are declared as classes, traits as interfaces.
pub proof fn law_scala_declarations(t: TreeView, i: int, name: Seq<char>, path: Seq<char>, repo_id: RepoId, package: Seq<char>)
    requires
        syntax::nested(t),
        t.valid(i),
        syntax::level(t, i) <= usize::MAX,
        t.field_text(i, "name"@) == Some(name),
    ensures
        ({
            let nodes = scala::scala_nodes(t, path, repo_id, package);
            let k = t.kind(i);
            &&& k == "class_definition"@ || k == "object_definition"@ ==> declares(nodes, t, i, path, repo_id, name, NodeKind::ServiceClass)
            &&& k == "trait_definition"@ ==> declares(nodes, t, i, path, repo_id, name, NodeKind::Interface)
        }),
{
    lemma_kinds();
    let k = t.kind(i);
    if k == "class_definition"@ || k == "object_definition"@ || k == "trait_definition"@ {
        let n = scala::scala_made(t, i, path, repo_id, package)[0];
        lemma_scala_declares(t, i, path, repo_id, package, name, n.kind, 0);
    }
}

/// A call of the directive `path`, `pathPrefix` or `pathEnd` with a path is an endpoint for each
/// verb that is called in what follows, or for any verb if none is.
pub proof fn law_scala_routes(
    t: TreeView,
    i: int,
    f: int,
    directive: Seq<char>,
    args: int,
    route: Seq<char>,
    body: int,
    path: Seq<char>,
    repo_id: RepoId,
    package: Seq<char>,
)
    requires
        syntax::nested(t),
        t.valid(i),
        syntax::level(t, i) <= usize::MAX,
        t.kind(i) == "call_expression"@,
        t.field(i, "function"@) == Some(f),
        t.kind(f) == "call_expression"@,
        t.field_text(f, "function"@) == Some(directive),
        directive == "path"@ || directive == "pathPrefix"@ || directive == "pathEnd"@,
        t.field(f, "arguments"@) == Some(args),
        scala::first_string(t, args) == Some(route),
        t.field(i, "arguments"@) == Some(body),
    ensures
        ({
            let nodes = scala::scala_nodes(t, path, repo_id, package);
            let verbs = scala::verbs_below(t, body);
            &&& verbs.len() == 0 ==> declares(nodes, t, i, path, repo_id, "ANY "@ + route, NodeKind::HttpEndpoint)
            &&& forall|k: int|
                0 <= k < verbs.len() ==> declares(
                    nodes,
                    t,
                    i,
                    path,
                    repo_id,
                    text::raised(#[trigger] verbs[k]) + " "@ + route,
                    NodeKind::HttpEndpoint,
                )
        }),
{
    lemma_kinds();
    let nodes = scala::scala_nodes(t, path, repo_id, package);
    let verbs = scala::verbs_below(t, body);
    let made = scala::scala_made(t, i, path, repo_id, package);
    let names = scala::akka_routes(t, i);
    if verbs.len() == 0 {
        assert(names == seq!["ANY "@ + route]);
        assert(made[0].name == names[0]);
        lemma_scala_declares(t, i, path, repo_id, package, "ANY "@ + route, NodeKind::HttpEndpoint, 0);
    }
    assert forall|k: int| 0 <= k < verbs.len() implies declares(
        nodes,
        t,
        i,
        path,
        repo_id,
        text::raised(#[trigger] verbs[k]) + " "@ + route,
        NodeKind::HttpEndpoint,
    ) by {
        assert(names[k] == text::raised(verbs[k]) + " "@ + route);
        assert(made[k].name == names[k]);
        lemma_scala_declares(t, i, path, repo_id, package, text::raised(verbs[k]) + " "@ + route, NodeKind::HttpEndpoint, k);
    }
}

/// The verbs of a route are the functions `get`, `post`, `put`, `patch` and `delete` that are
/// called in it.
pub proof fn law_scala_verbs(t: TreeView, i: int, word: Seq<char>)
    requires
        t.kind(i) == "call_expression"@,
        t.field_text(i, "function"@) == Some(word),
    ensures
        scala::called_verb(t, i) == Some(word) <==> word == "get"@ || word == "post"@ || word == "put"@ || word == "patch"@ || word
            == "delete"@,
{
}

} // verus!
