//! What holds of the declarations that are found in PHP files.
use vstd::prelude::*;
use crate::languages::common::FileRules;
use crate::languages::php;
use crate::languages::php::PhpRules;
use crate::languages::walk_laws;
use crate::languages::walk_laws::{declares, has_text, is_declared};
use crate::model::{ContractNodeView, NodeKind, RepoId};
use crate::syntax;
use crate::syntax::TreeView;
use crate::text;

verus! {

/// Whether node `i` lies in no method.
pub open spec fn is_outside_methods(t: TreeView, i: int) -> bool {
    &&& syntax::nested(t)
    &&& t.valid(i)
    &&& syntax::level(t, i) <= usize::MAX
    &&& forall|j: int| 0 <= j < i < #[trigger] t.last(j) ==> t.kind(j) != "method_declaration"@
}

proof fn lemma_kinds()
    ensures
        "class_declaration"@ != "interface_declaration"@,
        "class_declaration"@ != "method_declaration"@,
        "class_declaration"@ != "expression_statement"@,
        "interface_declaration"@ != "method_declaration"@,
        "interface_declaration"@ != "expression_statement"@,
        "method_declaration"@ != "expression_statement"@,
{
    reveal_strlit("class_declaration");
    reveal_strlit("interface_declaration");
    reveal_strlit("method_declaration");
    reveal_strlit("expression_statement");
    assert("class_declaration"@.len() != "interface_declaration"@.len());
    assert("class_declaration"@.len() != "method_declaration"@.len());
    assert("class_declaration"@.len() != "expression_statement"@.len());
    assert("interface_declaration"@.len() != "method_declaration"@.len());
    assert("interface_declaration"@.len() != "expression_statement"@.len());
    assert("method_declaration"@.len() != "expression_statement"@.len());
}

proof fn lemma_php_declares(t: TreeView, i: int, path: Seq<char>, repo_id: RepoId, package: Seq<char>, name: Seq<char>, kind: NodeKind)
    requires
        is_outside_methods(t, i),
        forall|inside: bool|
            (#[trigger] php::php_node(t, i, path, repo_id, package, inside)) matches Some(n) && is_declared(
                n,
                t,
                i,
                path,
                repo_id,
                name,
                kind,
            ),
    ensures
        declares(php::php_nodes(t, path, repo_id, package), t, i, path, repo_id, name, kind),
{
    let r = FileRules { path, repo_id, package };
    let items = |o: Seq<ContractNodeView>| o;
    let is = |n: ContractNodeView| is_declared(n, t, i, path, repo_id, name, kind);
    assert forall|parent: Option<int>, c: bool, o: Seq<ContractNodeView>|
        walk_laws::any(items((#[trigger] <PhpRules as syntax::TreeRules>::on_node(r, t, parent, i, c, o)).0), is) by {
        let after = o.push(php::php_node(t, i, path, repo_id, package, c)->0);
        assert(is(after[after.len() - 1]));
    }
    walk_laws::lemma_walk_gathers::<PhpRules, ContractNodeView>(r, t, usize::MAX as int, false, Seq::empty(), i, items, is);
}

/// Classes are declared as classes, interfaces as interfaces.
pub proof fn law_php_declarations(t: TreeView, i: int, name: Seq<char>, path: Seq<char>, repo_id: RepoId, package: Seq<char>)
    requires
        is_outside_methods(t, i),
        t.field_text(i, "name"@) == Some(name),
    ensures
        ({
            let nodes = php::php_nodes(t, path, repo_id, package);
            &&& t.kind(i) == "class_declaration"@ ==> declares(nodes, t, i, path, repo_id, name, NodeKind::ServiceClass)
            &&& t.kind(i) == "interface_declaration"@ ==> declares(nodes, t, i, path, repo_id, name, NodeKind::Interface)
        }),
{
    lemma_kinds();
    if t.kind(i) == "class_declaration"@ {
        lemma_php_declares(t, i, path, repo_id, package, name, NodeKind::ServiceClass);
    } else if t.kind(i) == "interface_declaration"@ {
        lemma_php_declares(t, i, path, repo_id, package, name, NodeKind::Interface);
    }
}

/// A method with an attribute that names a `Route` is the endpoint at the first string in its
/// attributes.
pub proof fn law_php_route_attributes(
    t: TreeView,
    i: int,
    attrs: int,
    s: Seq<char>,
    route: Seq<char>,
    path: Seq<char>,
    repo_id: RepoId,
    package: Seq<char>,
)
    requires
        is_outside_methods(t, i),
        t.kind(i) == "method_declaration"@,
        t.field(i, "attributes"@) == Some(attrs),
        t.text(attrs) == Some(s),
        has_text(s, "Route"@),
        php::first_string(t, attrs) == Some(route),
    ensures
        declares(php::php_nodes(t, path, repo_id, package), t, i, path, repo_id, route, NodeKind::HttpEndpoint),
{
    lemma_kinds();
    walk_laws::law_texts_are_found(s, "Route"@);
    lemma_php_declares(t, i, path, repo_id, package, route, NodeKind::HttpEndpoint);
}

/// In a class named `...Controller` every method but the constructor is an endpoint; elsewhere a
/// method without a route is a class member.
pub proof fn law_php_controllers(t: TreeView, i: int, name: Seq<char>, path: Seq<char>, repo_id: RepoId, package: Seq<char>, inside: bool)
    requires
        t.kind(i) == "method_declaration"@,
        t.field_text(i, "name"@) == Some(name),
        t.field(i, "attributes"@) is None,
    ensures
        ({
            let found = php::php_node(t, i, path, repo_id, package, inside);
            &&& found is Some
            &&& is_declared(
                found->0,
                t,
                i,
                path,
                repo_id,
                name,
                if inside && name != "__construct"@ {
                    NodeKind::HttpEndpoint
                } else {
                    NodeKind::ServiceClass
                },
            )
        }),
        forall|c: int, stem: Seq<char>, outer: bool|
            t.kind(c) == "class_declaration"@ && t.field_text(c, "name"@) == Some(#[trigger] (stem + "Controller"@)) ==> #[trigger] php::php_inside(
                t,
                c,
                outer,
            ) == Some(true),
{
    lemma_kinds();
    assert forall|c: int, stem: Seq<char>, outer: bool|
        t.kind(c) == "class_declaration"@ && t.field_text(c, "name"@) == Some(#[trigger] (stem + "Controller"@)) implies #[trigger] php::php_inside(
        t,
        c,
        outer,
    ) == Some(true) by {
        walk_laws::law_starts_and_endings(stem, "Controller"@);
    }
}

/// A call `Route::get`, `Route::post`, `Route::put`, `Route::patch`, `Route::delete`, `Route::any`
/// or `Route::resource` is the endpoint of that verb at the path in first place.
pub proof fn law_php_routes(
    t: TreeView,
    i: int,
    call: int,
    verb: Seq<char>,
    args: int,
    arg: int,
    route: Seq<char>,
    path: Seq<char>,
    repo_id: RepoId,
    package: Seq<char>,
)
    requires
        is_outside_methods(t, i),
        t.kind(i) == "expression_statement"@,
        t.named_child(i, 0) == Some(call),
        t.kind(call) == "scoped_call_expression"@,
        t.field_text(call, "scope"@) == Some("Route"@),
        t.field_text(call, "name"@) == Some(verb),
        verb == "get"@ || verb == "post"@ || verb == "put"@ || verb == "patch"@ || verb == "delete"@ || verb == "any"@ || verb
            == "resource"@,
        t.field(call, "arguments"@) == Some(args),
        t.named_child(args, 0) == Some(arg),
        php::first_string(t, arg) == Some(route),
    ensures
        declares(
            php::php_nodes(t, path, repo_id, package),
            t,
            i,
            path,
            repo_id,
            text::raised(verb) + " "@ + route,
            NodeKind::HttpEndpoint,
        ),
{
    lemma_kinds();
    lemma_php_declares(t, i, path, repo_id, package, text::raised(verb) + " "@ + route, NodeKind::HttpEndpoint);
}

} // verus!
