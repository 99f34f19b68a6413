//! What holds of the declarations that are found in Swift files.
use vstd::prelude::*;
use crate::languages::common::FileRules;
use crate::languages::swift;
use crate::languages::swift::SwiftRules;
use crate::languages::walk_laws;
use crate::languages::walk_laws::{declares, is_declared, within_reach};
use crate::model::{ContractNodeView, NodeKind, RepoId};
use crate::syntax;
use crate::syntax::TreeView;
use crate::text;

verus! {

proof fn lemma_kinds()
    ensures
        "class_declaration"@ != "protocol_declaration"@,
        "class_declaration"@ != "function_declaration"@,
        "class_declaration"@ != "protocol_function_declaration"@,
        "class_declaration"@ != "call_expression"@,
        "protocol_declaration"@ != "function_declaration"@,
        "protocol_declaration"@ != "protocol_function_declaration"@,
        "protocol_declaration"@ != "call_expression"@,
        "function_declaration"@ != "protocol_function_declaration"@,
        "function_declaration"@ != "call_expression"@,
        "protocol_function_declaration"@ != "call_expression"@,
{
    reveal_strlit("class_declaration");
    reveal_strlit("protocol_declaration");
    reveal_strlit("function_declaration");
    reveal_strlit("protocol_function_declaration");
    reveal_strlit("call_expression");
    assert("class_declaration"@.len() != "protocol_declaration"@.len());
    assert("class_declaration"@.len() != "function_declaration"@.len());
    assert("class_declaration"@.len() != "protocol_function_declaration"@.len());
    assert("class_declaration"@.len() != "call_expression"@.len());
    assert("protocol_declaration"@[0] != "function_declaration"@[0]);
    assert("protocol_declaration"@.len() != "protocol_function_declaration"@.len());
    assert("protocol_declaration"@.len() != "call_expression"@.len());
    assert("function_declaration"@.len() != "protocol_function_declaration"@.len());
    assert("function_declaration"@.len() != "call_expression"@.len());
    assert("protocol_function_declaration"@.len() != "call_expression"@.len());
}

proof fn lemma_swift_declares(t: TreeView, i: int, path: Seq<char>, repo_id: RepoId, package: Seq<char>, name: Seq<char>, kind: NodeKind)
    requires
        within_reach(t, i),
        swift::swift_node(t, i, path, repo_id, package) is Some,
        is_declared(swift::swift_node(t, i, path, repo_id, package)->0, t, i, path, repo_id, name, kind),
    ensures
        declares(swift::swift_nodes(t, path, repo_id, package), t, i, path, repo_id, name, kind),
{
    let r = FileRules { path, repo_id, package };
    let items = |o: Seq<ContractNodeView>| o;
    let is = |n: ContractNodeView| is_declared(n, t, i, path, repo_id, name, kind);
    assert forall|parent: Option<int>, c: (), o: Seq<ContractNodeView>|
        walk_laws::any(items((#[trigger] <SwiftRules as syntax::TreeRules>::on_node(r, t, parent, i, c, o)).0), is) by {
        let after = o.push(swift::swift_node(t, i, path, repo_id, package)->0);
        assert(is(after[after.len() - 1]));
    }
    walk_laws::lemma_walk_gathers::<SwiftRules, ContractNodeView>(r, t, 64, (), Seq::empty(), i, items, is);
}

/// Classes are declared as classes and protocols as interfaces; functions, also those of protocols,
/// as HTTP endpoints if their names start with `handle` or end with `Handler`, else as class
/// members.
pub proof fn law_swift_declarations(t: TreeView, i: int, name: Seq<char>, path: Seq<char>, repo_id: RepoId, package: Seq<char>)
    requires
        within_reach(t, i),
        t.field_text(i, "name"@) == Some(name),
    ensures
        ({
            let nodes = swift::swift_nodes(t, path, repo_id, package);
            let k = t.kind(i);
            let handles = (exists|s: Seq<char>| name == #[trigger] ("handle"@ + s)) || exists|s: Seq<char>| name == #[trigger] (s + "Handler"@);
            &&& k == "class_declaration"@ ==> declares(nodes, t, i, path, repo_id, name, NodeKind::ServiceClass)
            &&& k == "protocol_declaration"@ ==> declares(nodes, t, i, path, repo_id, name, NodeKind::Interface)
            &&& (k == "function_declaration"@ || k == "protocol_function_declaration"@) && handles ==> declares(
                nodes,
                t,
                i,
                path,
                repo_id,
                name,
                NodeKind::HttpEndpoint,
            )
            &&& (k == "function_declaration"@ || k == "protocol_function_declaration"@) && !handles ==> declares(
                nodes,
                t,
                i,
                path,
                repo_id,
                name,
                NodeKind::ServiceClass,
            )
        }),
{
    lemma_kinds();
    let k = t.kind(i);
    walk_laws::lemma_starts(name, "handle"@);
    walk_laws::lemma_ends(name, "Handler"@);
    if k == "class_declaration"@ || k == "protocol_declaration"@ || k == "function_declaration"@ || k == "protocol_function_declaration"@ {
        let n = swift::swift_node(t, i, path, repo_id, package)->0;
        lemma_swift_declares(t, i, path, repo_id, package, name, n.kind);
    }
}

/// A call of `get`, `post`, `put`, `patch` or `delete` on something, with a path in first place, is
/// an endpoint of that verb and path.
pub proof fn law_swift_routes(
    t: TreeView,
    i: int,
    nav: int,
    word: Seq<char>,
    lit: int,
    route: Seq<char>,
    path: Seq<char>,
    repo_id: RepoId,
    package: Seq<char>,
)
    requires
        within_reach(t, i),
        t.kind(i) == "call_expression"@,
        t.child_of_kind(i, "navigation_expression"@) == Some(nav),
        t.field_text(nav, "suffix"@) == Some("."@ + word),
        word == "get"@ || word == "post"@ || word == "put"@ || word == "patch"@ || word == "delete"@,
        swift::vapor_literal(t, i) == Some(lit),
        t.text(lit) == Some(route),
    ensures
        declares(
            swift::swift_nodes(t, path, repo_id, package),
            t,
            i,
            path,
            repo_id,
            text::raised(word) + " "@ + text::trim_set(route, "\""@),
            NodeKind::HttpEndpoint,
        ),
{
    lemma_kinds();
    reveal_strlit(".");
    reveal_strlit("get");
    reveal_strlit("post");
    reveal_strlit("put");
    reveal_strlit("patch");
    reveal_strlit("delete");
    let s = "."@ + word;
    assert(s.drop_first() == word);
    assert(("."@).contains(s[0])) by {
        assert(("."@)[0] == '.');
    }
    assert(!("."@).contains(word[0])) by {
        if ("."@).contains(word[0]) {
            let k = choose|k: int| 0 <= k < ("."@).len() && ("."@)[k] == word[0];
            assert(("."@)[k] == '.');
        }
    }
    assert(text::trim_front(word, "."@) == word);
    assert(text::trim_front(s, "."@) == word);
    let name = text::raised(word) + " "@ + text::trim_set(route, "\""@);
    lemma_swift_declares(t, i, path, repo_id, package, name, NodeKind::HttpEndpoint);
}

} // verus!
