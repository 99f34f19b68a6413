//! What holds of the declarations that are found in Ruby files.
use vstd::prelude::*;
use crate::languages::ruby;
use crate::languages::ruby::{RubyRules, RubyRulesView};
use crate::languages::walk_laws;
use crate::languages::walk_laws::{declares, is_declared, within_reach};
use crate::model::{ContractNodeView, NodeKind, RepoId};
use crate::syntax;
use crate::syntax::TreeView;
use crate::text;

verus! {

/// Whether node `i` lies in no method.
pub open spec fn is_outside_methods(t: TreeView, i: int) -> bool {
    &&& within_reach(t, i)
    &&& forall|j: int| 0 <= j < i < #[trigger] t.last(j) ==> t.kind(j) != "method"@ && t.kind(j) != "singleton_method"@
}

proof fn lemma_kinds()
    ensures
        "class"@ != "module"@,
        "class"@ != "method"@,
        "class"@ != "singleton_method"@,
        "class"@ != "call"@,
        "module"@ != "method"@,
        "module"@ != "singleton_method"@,
        "module"@ != "call"@,
        "method"@ != "singleton_method"@,
        "method"@ != "call"@,
        "singleton_method"@ != "call"@,
{
    reveal_strlit("class");
    reveal_strlit("module");
    reveal_strlit("method");
    reveal_strlit("singleton_method");
    reveal_strlit("call");
    assert("class"@.len() != "module"@.len());
    assert("class"@.len() != "method"@.len());
    assert("class"@.len() != "singleton_method"@.len());
    assert("class"@.len() != "call"@.len());
    assert("module"@[1] != "method"@[1]);
    assert("module"@.len() != "singleton_method"@.len());
    assert("module"@.len() != "call"@.len());
    assert("method"@.len() != "singleton_method"@.len());
    assert("method"@.len() != "call"@.len());
    assert("singleton_method"@.len() != "call"@.len());
}

proof fn lemma_ruby_declares(
    t: TreeView,
    i: int,
    path: Seq<char>,
    repo_id: RepoId,
    package: Seq<char>,
    routes: bool,
    name: Seq<char>,
    kind: NodeKind,
)
    requires
        is_outside_methods(t, i),
        forall|inside: bool|
            (#[trigger] ruby::ruby_node(t, i, path, repo_id, package, routes, inside)) matches Some(n) && is_declared(
                n,
                t,
                i,
                path,
                repo_id,
                name,
                kind,
            ),
    ensures
        declares(ruby::ruby_nodes_of(t, path, repo_id, package, routes), t, i, path, repo_id, name, kind),
{
    let r = RubyRulesView { path, repo_id, package, routes };
    let items = |o: Seq<ContractNodeView>| o;
    let is = |n: ContractNodeView| is_declared(n, t, i, path, repo_id, name, kind);
    assert forall|parent: Option<int>, c: bool, o: Seq<ContractNodeView>|
        walk_laws::any(items((#[trigger] <RubyRules as syntax::TreeRules>::on_node(r, t, parent, i, c, o)).0), is) by {
        let after = o.push(ruby::ruby_node(t, i, path, repo_id, package, routes, c)->0);
        assert(is(after[after.len() - 1]));
    }
    walk_laws::lemma_walk_gathers::<RubyRules, ContractNodeView>(r, t, 64, false, Seq::empty(), i, items, is);
}

/// Classes are declared as classes, modules as interfaces.
pub proof fn law_ruby_declarations(
    t: TreeView,
    i: int,
    n: int,
    name: Seq<char>,
    path: Seq<char>,
    repo_id: RepoId,
    package: Seq<char>,
    routes: bool,
)
    requires
        is_outside_methods(t, i),
        t.field(i, "name"@) == Some(n),
        t.kind(n) != "scope_resolution"@,
        t.text(n) == Some(name),
    ensures
        ({
            let nodes = ruby::ruby_nodes_of(t, path, repo_id, package, routes);
            &&& t.kind(i) == "class"@ ==> declares(nodes, t, i, path, repo_id, name, NodeKind::ServiceClass)
            &&& t.kind(i) == "module"@ ==> declares(nodes, t, i, path, repo_id, name, NodeKind::Interface)
        }),
{
    lemma_kinds();
    if t.kind(i) == "class"@ {
        lemma_ruby_declares(t, i, path, repo_id, package, routes, name, NodeKind::ServiceClass);
    } else if t.kind(i) == "module"@ {
        lemma_ruby_declares(t, i, path, repo_id, package, routes, name, NodeKind::Interface);
    }
}

/// In a controller the methods are endpoints, but for `initialize` and those whose names start with
/// an underscore; elsewhere methods are class members. A class is a controller if its name ends so
/// or that of its superclass holds the word.
pub proof fn law_ruby_controllers(
    t: TreeView,
    i: int,
    name: Seq<char>,
    path: Seq<char>,
    repo_id: RepoId,
    package: Seq<char>,
    routes: bool,
    inside: bool,
)
    requires
        t.kind(i) == "method"@ || t.kind(i) == "singleton_method"@,
        t.field_text(i, "name"@) == Some(name),
        name.len() > 0,
    ensures
        ({
            let found = ruby::ruby_node(t, i, path, repo_id, package, routes, inside);
            &&& found is Some
            &&& is_declared(
                found->0,
                t,
                i,
                path,
                repo_id,
                name,
                if inside && name != "initialize"@ && name[0] != '_' {
                    NodeKind::HttpEndpoint
                } else {
                    NodeKind::ServiceClass
                },
            )
        }),
        forall|c: int, stem: Seq<char>, outer: bool|
            t.kind(c) == "class"@ && ruby::class_name(t, c) == Some(#[trigger] (stem + "Controller"@)) ==> #[trigger] ruby::ruby_inside(
                t,
                c,
                outer,
            ) == Some(true),
        forall|c: int, s: Seq<char>, outer: bool|
            t.kind(c) == "class"@ && t.field_text(c, "superclass"@) == Some(s) && #[trigger] walk_laws::has_text(s, "Controller"@)
                ==> #[trigger] ruby::ruby_inside(t, c, outer) == Some(true),
{
    lemma_kinds();
    assert forall|c: int, stem: Seq<char>, outer: bool|
        t.kind(c) == "class"@ && ruby::class_name(t, c) == Some(#[trigger] (stem + "Controller"@)) implies #[trigger] ruby::ruby_inside(
        t,
        c,
        outer,
    ) == Some(true) by {
        walk_laws::law_starts_and_endings(stem, "Controller"@);
    }
    assert forall|c: int, s: Seq<char>, outer: bool|
        t.kind(c) == "class"@ && t.field_text(c, "superclass"@) == Some(s) && #[trigger] walk_laws::has_text(s, "Controller"@) implies #[trigger] ruby::ruby_inside(
        t,
        c,
        outer,
    ) == Some(true) by {
        walk_laws::law_texts_are_found(s, "Controller"@);
    }
}

/// In a file of routes, a call of `get`, `post`, `put`, `patch` or `delete` with an argument is the
/// endpoint of that verb, and one of `resources` or `resource` the endpoint of the resource.
pub proof fn law_ruby_routes(
    t: TreeView,
    i: int,
    word: Seq<char>,
    args: int,
    a: int,
    s: Seq<char>,
    path: Seq<char>,
    repo_id: RepoId,
    package: Seq<char>,
)
    requires
        is_outside_methods(t, i),
        t.kind(i) == "call"@,
        t.field_text(i, "method"@) == Some(word),
        t.field(i, "arguments"@) == Some(args),
        t.named_child(args, 0) == Some(a),
        t.text(a) == Some(s),
        text::trim_set(s, "'\":"@).len() > 0,
    ensures
        ({
            let nodes = ruby::ruby_nodes_of(t, path, repo_id, package, true);
            let arg = text::trim_set(s, "'\":"@);
            &&& word == "get"@ || word == "post"@ || word == "put"@ || word == "patch"@ || word == "delete"@ ==> declares(
                nodes,
                t,
                i,
                path,
                repo_id,
                text::raised(word) + " "@ + arg,
                NodeKind::HttpEndpoint,
            )
            &&& word == "resources"@ || word == "resource"@ ==> declares(
                nodes,
                t,
                i,
                path,
                repo_id,
                "resources :"@ + arg,
                NodeKind::HttpEndpoint,
            )
        }),
{
    lemma_kinds();
    lemma_words();
    let arg = text::trim_set(s, "'\":"@);
    if word == "get"@ || word == "post"@ || word == "put"@ || word == "patch"@ || word == "delete"@ {
        lemma_ruby_declares(t, i, path, repo_id, package, true, text::raised(word) + " "@ + arg, NodeKind::HttpEndpoint);
    } else if word == "resources"@ || word == "resource"@ {
        lemma_ruby_declares(t, i, path, repo_id, package, true, "resources :"@ + arg, NodeKind::HttpEndpoint);
    }
}

proof fn lemma_words()
    ensures
        "get"@ != "post"@,
        "get"@ != "put"@,
        "get"@ != "patch"@,
        "get"@ != "delete"@,
        "get"@ != "resources"@,
        "get"@ != "resource"@,
        "post"@ != "put"@,
        "post"@ != "patch"@,
        "post"@ != "delete"@,
        "post"@ != "resources"@,
        "post"@ != "resource"@,
        "put"@ != "patch"@,
        "put"@ != "delete"@,
        "put"@ != "resources"@,
        "put"@ != "resource"@,
        "patch"@ != "delete"@,
        "patch"@ != "resources"@,
        "patch"@ != "resource"@,
        "delete"@ != "resources"@,
        "delete"@ != "resource"@,
        "resources"@ != "resource"@,
{
    reveal_strlit("get");
    reveal_strlit("post");
    reveal_strlit("put");
    reveal_strlit("patch");
    reveal_strlit("delete");
    reveal_strlit("resources");
    reveal_strlit("resource");
    assert("get"@.len() != "post"@.len());
    assert("get"@[0] != "put"@[0]);
    assert("get"@.len() != "patch"@.len());
    assert("get"@.len() != "delete"@.len());
    assert("get"@.len() != "resources"@.len());
    assert("get"@.len() != "resource"@.len());
    assert("post"@.len() != "put"@.len());
    assert("post"@.len() != "patch"@.len());
    assert("post"@.len() != "delete"@.len());
    assert("post"@.len() != "resources"@.len());
    assert("post"@.len() != "resource"@.len());
    assert("put"@.len() != "patch"@.len());
    assert("put"@.len() != "delete"@.len());
    assert("put"@.len() != "resources"@.len());
    assert("put"@.len() != "resource"@.len());
    assert("patch"@.len() != "delete"@.len());
    assert("patch"@.len() != "resources"@.len());
    assert("patch"@.len() != "resource"@.len());
    assert("delete"@.len() != "resources"@.len());
    assert("delete"@.len() != "resource"@.len());
    assert("resources"@.len() != "resource"@.len());
}

/// A file is one of routes exactly if its path, in lower case, holds the word.
pub proof fn law_route_files_are_told_by_their_paths(t: TreeView, path: Seq<char>, repo_id: RepoId, package: Seq<char>)
    ensures
        ruby::ruby_nodes(t, path, repo_id, package) == ruby::ruby_nodes_of(
            t,
            path,
            repo_id,
            package,
            walk_laws::has_text(text::unicode_lowercase(path), "routes"@),
        ),
{
    walk_laws::law_texts_are_found(text::unicode_lowercase(path), "routes"@);
}

} // verus!
