//! What holds of the declarations that are found in Rust files.
use vstd::prelude::*;
use crate::languages::common::FileRules;
use crate::languages::rust_lang;
use crate::languages::rust_lang::{RustFoundView, RustRules, Scope};
use crate::languages::walk_laws;
use crate::languages::walk_laws::{declares, has_text, is_declared, stands_under};
use crate::model::{ContractNodeView, NodeKind, RepoId};
use crate::syntax;
use crate::syntax::TreeView;
use crate::text;

verus! {

/// Whether node `i` lies right or further below the root of a file, in no implementation and no
/// attribute.
pub open spec fn is_free(t: TreeView, i: int) -> bool {
    &&& syntax::nested(t)
    &&& t.valid(i)
    &&& syntax::level(t, i) <= usize::MAX
    &&& 0 < i < t.last(0)
    &&& forall|j: int| 0 < j < i < #[trigger] t.last(j) ==> t.kind(j) != "impl_item"@ && t.kind(j) != "attribute_item"@
}

/// Whether node `i` is in no implementation.
spec fn is_outside(t: TreeView, p: int) -> bool {
    forall|j: int| 0 < j <= p < #[trigger] t.last(j) ==> t.kind(j) != "impl_item"@
}

proof fn lemma_kinds()
    ensures
        "struct_item"@ != "enum_item"@,
        "struct_item"@ != "trait_item"@,
        "struct_item"@ != "function_item"@,
        "struct_item"@ != "use_declaration"@,
        "struct_item"@ != "extern_crate_declaration"@,
        "struct_item"@ != "macro_invocation"@,
        "struct_item"@ != "attribute_item"@,
        "struct_item"@ != "impl_item"@,
        "enum_item"@ != "trait_item"@,
        "enum_item"@ != "function_item"@,
        "enum_item"@ != "use_declaration"@,
        "enum_item"@ != "extern_crate_declaration"@,
        "enum_item"@ != "macro_invocation"@,
        "enum_item"@ != "attribute_item"@,
        "enum_item"@ != "impl_item"@,
        "trait_item"@ != "function_item"@,
        "trait_item"@ != "use_declaration"@,
        "trait_item"@ != "extern_crate_declaration"@,
        "trait_item"@ != "macro_invocation"@,
        "trait_item"@ != "attribute_item"@,
        "trait_item"@ != "impl_item"@,
        "function_item"@ != "use_declaration"@,
        "function_item"@ != "extern_crate_declaration"@,
        "function_item"@ != "macro_invocation"@,
        "function_item"@ != "attribute_item"@,
        "function_item"@ != "impl_item"@,
        "use_declaration"@ != "extern_crate_declaration"@,
        "use_declaration"@ != "macro_invocation"@,
        "use_declaration"@ != "attribute_item"@,
        "use_declaration"@ != "impl_item"@,
        "extern_crate_declaration"@ != "macro_invocation"@,
        "extern_crate_declaration"@ != "attribute_item"@,
        "extern_crate_declaration"@ != "impl_item"@,
        "macro_invocation"@ != "attribute_item"@,
        "macro_invocation"@ != "impl_item"@,
        "attribute_item"@ != "impl_item"@,
{
    reveal_strlit("struct_item");
    reveal_strlit("enum_item");
    reveal_strlit("trait_item");
    reveal_strlit("function_item");
    reveal_strlit("use_declaration");
    reveal_strlit("extern_crate_declaration");
    reveal_strlit("macro_invocation");
    reveal_strlit("attribute_item");
    reveal_strlit("impl_item");
    assert("struct_item"@.len() != "enum_item"@.len());
    assert("struct_item"@.len() != "trait_item"@.len());
    assert("struct_item"@.len() != "function_item"@.len());
    assert("struct_item"@.len() != "use_declaration"@.len());
    assert("struct_item"@.len() != "extern_crate_declaration"@.len());
    assert("struct_item"@.len() != "macro_invocation"@.len());
    assert("struct_item"@.len() != "attribute_item"@.len());
    assert("struct_item"@.len() != "impl_item"@.len());
    assert("enum_item"@.len() != "trait_item"@.len());
    assert("enum_item"@.len() != "function_item"@.len());
    assert("enum_item"@.len() != "use_declaration"@.len());
    assert("enum_item"@.len() != "extern_crate_declaration"@.len());
    assert("enum_item"@.len() != "macro_invocation"@.len());
    assert("enum_item"@.len() != "attribute_item"@.len());
    assert("enum_item"@[0] != "impl_item"@[0]);
    assert("trait_item"@.len() != "function_item"@.len());
    assert("trait_item"@.len() != "use_declaration"@.len());
    assert("trait_item"@.len() != "extern_crate_declaration"@.len());
    assert("trait_item"@.len() != "macro_invocation"@.len());
    assert("trait_item"@.len() != "attribute_item"@.len());
    assert("trait_item"@.len() != "impl_item"@.len());
    assert("function_item"@.len() != "use_declaration"@.len());
    assert("function_item"@.len() != "extern_crate_declaration"@.len());
    assert("function_item"@.len() != "macro_invocation"@.len());
    assert("function_item"@.len() != "attribute_item"@.len());
    assert("function_item"@.len() != "impl_item"@.len());
    assert("use_declaration"@.len() != "extern_crate_declaration"@.len());
    assert("use_declaration"@.len() != "macro_invocation"@.len());
    assert("use_declaration"@.len() != "attribute_item"@.len());
    assert("use_declaration"@.len() != "impl_item"@.len());
    assert("extern_crate_declaration"@.len() != "macro_invocation"@.len());
    assert("extern_crate_declaration"@.len() != "attribute_item"@.len());
    assert("extern_crate_declaration"@.len() != "impl_item"@.len());
    assert("macro_invocation"@.len() != "attribute_item"@.len());
    assert("macro_invocation"@.len() != "impl_item"@.len());
    assert("attribute_item"@.len() != "impl_item"@.len());
}

proof fn lemma_rust_grows(r: FileRules, t: TreeView, parent: Option<int>, j: int, c: Scope, o: RustFoundView)
    ensures
        o.nodes.is_prefix_of(rust_lang::rust_step(r, t, parent, j, c, o).0.nodes),
{
}

proof fn lemma_rust_declares(
    t: TreeView,
    i: int,
    path: Seq<char>,
    repo_id: RepoId,
    package: Seq<char>,
    name: Seq<char>,
    kind: NodeKind,
)
    requires
        is_free(t, i),
        t.kind(i) != "impl_item"@,
        t.kind(i) != "attribute_item"@,
        forall|p: int, o: RustFoundView|
            stands_under(t, Some(p), i) ==> declares(
                (#[trigger] rust_lang::after_item(
                    t,
                    i,
                    path,
                    repo_id,
                    package,
                    rust_lang::attributes(t, t.children(p), i, Seq::empty()),
                    false,
                    o,
                )).nodes,
                t,
                i,
                path,
                repo_id,
                name,
                kind,
            ),
    ensures
        declares(rust_lang::rust_found(t, path, repo_id, package).nodes, t, i, path, repo_id, name, kind),
{
    let r = FileRules { path, repo_id, package };
    let items = |o: RustFoundView| o.nodes;
    let is = |n: ContractNodeView| is_declared(n, t, i, path, repo_id, name, kind);
    let inv = |p: Option<int>, c: Scope|
        match p {
            Some(q) => is_outside(t, q) ==> c == Scope::Members(false),
            None => true,
        };
    let start = RustFoundView::empty();
    assert(t.valid(0));
    assert forall|parent: Option<int>, c: Scope, o: RustFoundView| stands_under(t, parent, i) && inv(parent, c) implies walk_laws::any(
        items((#[trigger] <RustRules as syntax::TreeRules>::on_node(r, t, parent, i, c, o)).0),
        is,
    ) by {
        if parent is None {
            assert(t.last(0) <= i);
        }
        let p = parent->0;
        syntax::lemma_siblings_range(t, p + 1, t.last(p));
        let k = choose|k: int| 0 <= k < t.children(p).len() && t.children(p)[k] == i;
        assert(p + 1 <= t.children(p)[k] < t.last(p));
        assert(is_outside(t, p)) by {
            assert forall|j: int| 0 < j <= p < #[trigger] t.last(j) implies t.kind(j) != "impl_item"@ by {
                assert(t.valid(j));
                if j < p {
                    assert(t.last(p) <= t.last(j));
                }
            }
        }
        let attr = rust_lang::attributes(t, t.children(p), i, Seq::empty());
        let after = rust_lang::after_item(t, i, path, repo_id, package, attr, false, o).nodes;
        assert(declares(after, t, i, path, repo_id, name, kind));
        let m = choose|m: int| 0 <= m < after.len() && is(#[trigger] after[m]);
        assert(is(after[m]));
    }
    assert forall|parent: Option<int>, j: int, c: Scope, o: RustFoundView|
        items(o).is_prefix_of(items((#[trigger] <RustRules as syntax::TreeRules>::on_node(r, t, parent, j, c, o)).0)) by {
        lemma_rust_grows(r, t, parent, j, c, o);
    }
    assert forall|parent: Option<int>, j: int, c: Scope, o: RustFoundView|
        0 <= j < i < t.last(j) && stands_under(t, parent, j) && inv(parent, c) implies (#[trigger] <RustRules as syntax::TreeRules>::on_node(
        r,
        t,
        parent,
        j,
        c,
        o,
    )).1 is Some by {
        if parent is Some {
            let p = parent->0;
            lemma_under(t, p, j);
            assert(is_outside(t, p)) by {
                assert forall|q: int| 0 < q <= p < #[trigger] t.last(q) implies t.kind(q) != "impl_item"@ by {
                    assert(t.valid(q));
                    if q < p {
                        assert(t.last(p) <= t.last(q));
                    }
                }
            }
        }
    }
    assert forall|parent: Option<int>, j: int, c: Scope, o: RustFoundView|
        t.valid(j) && stands_under(t, parent, j) && inv(parent, c) && (#[trigger] <RustRules as syntax::TreeRules>::on_node(
            r,
            t,
            parent,
            j,
            c,
            o,
        )).1 is Some implies inv(Some(j), <RustRules as syntax::TreeRules>::on_node(r, t, parent, j, c, o).1->0) by {
        if is_outside(t, j) && parent is Some {
            let p = parent->0;
            lemma_under(t, p, j);
            assert(is_outside(t, p)) by {
                assert forall|q: int| 0 < q <= p < #[trigger] t.last(q) implies t.kind(q) != "impl_item"@ by {
                    assert(t.valid(q));
                    if q < p {
                        assert(t.last(p) <= t.last(q));
                    }
                }
            }
            assert(j < t.last(j));
        }
    }
    walk_laws::lemma_walk_gathers_below::<RustRules, ContractNodeView>(r, t, usize::MAX as int, Scope::Members(false), start, i, items, is, inv);
}

proof fn lemma_under(t: TreeView, p: int, j: int)
    requires
        stands_under(t, Some(p), j),
    ensures
        p < j < t.last(p),
{
    syntax::lemma_siblings_range(t, p + 1, t.last(p));
    let k = choose|k: int| 0 <= k < t.children(p).len() && t.children(p)[k] == j;
    assert(p + 1 <= t.children(p)[k] < t.last(p));
}

/// Structs and enums are declared as classes, traits as interfaces.
pub proof fn law_rust_types(t: TreeView, i: int, name: Seq<char>, path: Seq<char>, repo_id: RepoId, package: Seq<char>)
    requires
        is_free(t, i),
        t.field_text(i, "name"@) == Some(name),
    ensures
        ({
            let nodes = rust_lang::rust_found(t, path, repo_id, package).nodes;
            let k = t.kind(i);
            &&& k == "struct_item"@ || k == "enum_item"@ ==> declares(nodes, t, i, path, repo_id, name, NodeKind::ServiceClass)
            &&& k == "trait_item"@ ==> declares(nodes, t, i, path, repo_id, name, NodeKind::Interface)
        }),
{
    lemma_kinds();
    let k = t.kind(i);
    if k == "struct_item"@ || k == "enum_item"@ || k == "trait_item"@ {
        let kind = if k == "trait_item"@ {
            NodeKind::Interface
        } else {
            NodeKind::ServiceClass
        };
        assert forall|p: int, o: RustFoundView| stands_under(t, Some(p), i) implies declares(
            (#[trigger] rust_lang::after_item(
                t,
                i,
                path,
                repo_id,
                package,
                rust_lang::attributes(t, t.children(p), i, Seq::empty()),
                false,
                o,
            )).nodes,
            t,
            i,
            path,
            repo_id,
            name,
            kind,
        ) by {
            let attr = rust_lang::attributes(t, t.children(p), i, Seq::empty());
            let after = rust_lang::after_item(t, i, path, repo_id, package, attr, false, o).nodes;
            assert(is_declared(after[after.len() - 1], t, i, path, repo_id, name, kind));
        }
        lemma_rust_declares(t, i, path, repo_id, package, name, kind);
    }
}

/// The attributes of routes, with the verb that each stands for.
pub open spec fn route_attribute(k: int) -> (Seq<char>, Seq<char>) {
    if k == 0 {
        ("#[get("@, "GET"@)
    } else if k == 1 {
        ("#[post("@, "POST"@)
    } else if k == 2 {
        ("#[put("@, "PUT"@)
    } else if k == 3 {
        ("#[delete("@, "DELETE"@)
    } else if k == 4 {
        ("#[patch("@, "PATCH"@)
    } else if k == 5 {
        ("#[head("@, "HEAD"@)
    } else {
        ("#[options("@, "OPTIONS"@)
    }
}

proof fn lemma_verbs()
    ensures
        route_attribute(0).0 == "#["@ + "get"@ + "("@,
        route_attribute(0).1 == text::raised("get"@),
        route_attribute(1).0 == "#["@ + "post"@ + "("@,
        route_attribute(1).1 == text::raised("post"@),
        route_attribute(2).0 == "#["@ + "put"@ + "("@,
        route_attribute(2).1 == text::raised("put"@),
        route_attribute(3).0 == "#["@ + "delete"@ + "("@,
        route_attribute(3).1 == text::raised("delete"@),
        route_attribute(4).0 == "#["@ + "patch"@ + "("@,
        route_attribute(4).1 == text::raised("patch"@),
        route_attribute(5).0 == "#["@ + "head"@ + "("@,
        route_attribute(5).1 == text::raised("head"@),
        route_attribute(6).0 == "#["@ + "options"@ + "("@,
        route_attribute(6).1 == text::raised("options"@),
{
    reveal_strlit("#[");
    reveal_strlit("(");
    reveal_strlit("get");
    reveal_strlit("GET");
    reveal_strlit("#[get(");
    reveal_strlit("post");
    reveal_strlit("POST");
    reveal_strlit("#[post(");
    reveal_strlit("put");
    reveal_strlit("PUT");
    reveal_strlit("#[put(");
    reveal_strlit("delete");
    reveal_strlit("DELETE");
    reveal_strlit("#[delete(");
    reveal_strlit("patch");
    reveal_strlit("PATCH");
    reveal_strlit("#[patch(");
    reveal_strlit("head");
    reveal_strlit("HEAD");
    reveal_strlit("#[head(");
    reveal_strlit("options");
    reveal_strlit("OPTIONS");
    reveal_strlit("#[options(");
    assert(route_attribute(0).0 =~= "#["@ + "get"@ + "("@);
    assert(text::raised("get"@) =~= "GET"@);
    assert(route_attribute(1).0 =~= "#["@ + "post"@ + "("@);
    assert(text::raised("post"@) =~= "POST"@);
    assert(route_attribute(2).0 =~= "#["@ + "put"@ + "("@);
    assert(text::raised("put"@) =~= "PUT"@);
    assert(route_attribute(3).0 =~= "#["@ + "delete"@ + "("@);
    assert(text::raised("delete"@) =~= "DELETE"@);
    assert(route_attribute(4).0 =~= "#["@ + "patch"@ + "("@);
    assert(text::raised("patch"@) =~= "PATCH"@);
    assert(route_attribute(5).0 =~= "#["@ + "head"@ + "("@);
    assert(text::raised("head"@) =~= "HEAD"@);
    assert(route_attribute(6).0 =~= "#["@ + "options"@ + "("@);
    assert(text::raised("options"@) =~= "OPTIONS"@);
}

proof fn lemma_one_route(attr: Seq<char>, k: int, q: int, route: Seq<char>)
    requires
        0 <= k <= 6,
        text::find(attr, route_attribute(k).0) == Some(q),
        text::quoted(attr.skip(q + route_attribute(k).0.len())).len() > 0,
        text::quoted(attr.skip(q + route_attribute(k).0.len()))[0] == route,
        route.len() > 0,
        forall|l: int| 0 <= l <= 6 && l != k ==> !has_text(attr, (#[trigger] route_attribute(l)).0),
    ensures
        rust_lang::actix_route(attr) == Some((route_attribute(k).1, route)),
{
    lemma_verbs();
    assert forall|l: int| 0 <= l <= 6 && l != k implies text::find(attr, (#[trigger] route_attribute(l)).0) is None by {
        walk_laws::law_texts_are_found(attr, route_attribute(l).0);
    }
    if k != 0 {
        assert(text::find(attr, route_attribute(0).0) is None);
        assert(rust_lang::route_of(attr, "get"@) is None);
    }
    if k != 1 {
        assert(text::find(attr, route_attribute(1).0) is None);
        assert(rust_lang::route_of(attr, "post"@) is None);
    }
    if k != 2 {
        assert(text::find(attr, route_attribute(2).0) is None);
        assert(rust_lang::route_of(attr, "put"@) is None);
    }
    if k != 3 {
        assert(text::find(attr, route_attribute(3).0) is None);
        assert(rust_lang::route_of(attr, "delete"@) is None);
    }
    if k != 4 {
        assert(text::find(attr, route_attribute(4).0) is None);
        assert(rust_lang::route_of(attr, "patch"@) is None);
    }
    if k != 5 {
        assert(text::find(attr, route_attribute(5).0) is None);
        assert(rust_lang::route_of(attr, "head"@) is None);
    }
    if k != 6 {
        assert(text::find(attr, route_attribute(6).0) is None);
        assert(rust_lang::route_of(attr, "options"@) is None);
    }
}

proof fn lemma_no_route(attr: Seq<char>)
    requires
        forall|l: int| 0 <= l <= 6 ==> !has_text(attr, (#[trigger] route_attribute(l)).0),
    ensures
        rust_lang::actix_route(attr) is None,
{
    lemma_verbs();
    assert forall|l: int| 0 <= l <= 6 implies text::find(attr, (#[trigger] route_attribute(l)).0) is None by {
        walk_laws::law_texts_are_found(attr, route_attribute(l).0);
    }
    assert(text::find(attr, route_attribute(0).0) is None);
    assert(rust_lang::route_of(attr, "get"@) is None);
    assert(text::find(attr, route_attribute(1).0) is None);
    assert(rust_lang::route_of(attr, "post"@) is None);
    assert(text::find(attr, route_attribute(2).0) is None);
    assert(rust_lang::route_of(attr, "put"@) is None);
    assert(text::find(attr, route_attribute(3).0) is None);
    assert(rust_lang::route_of(attr, "delete"@) is None);
    assert(text::find(attr, route_attribute(4).0) is None);
    assert(rust_lang::route_of(attr, "patch"@) is None);
    assert(text::find(attr, route_attribute(5).0) is None);
    assert(rust_lang::route_of(attr, "head"@) is None);
    assert(text::find(attr, route_attribute(6).0) is None);
    assert(rust_lang::route_of(attr, "options"@) is None);
}

proof fn lemma_function_declared(
    t: TreeView,
    i: int,
    path: Seq<char>,
    repo_id: RepoId,
    package: Seq<char>,
    attr: Seq<char>,
    name: Seq<char>,
    kind: NodeKind,
)
    requires
        is_free(t, i),
        t.kind(i) == "function_item"@,
        forall|p: int| stands_under(t, Some(p), i) ==> #[trigger] rust_lang::attributes(t, t.children(p), i, Seq::empty()) == attr,
        is_declared(rust_lang::function_node(t, i, path, repo_id, package, attr, false), t, i, path, repo_id, name, kind),
    ensures
        declares(rust_lang::rust_found(t, path, repo_id, package).nodes, t, i, path, repo_id, name, kind),
{
    lemma_kinds();
    let n = rust_lang::function_node(t, i, path, repo_id, package, attr, false);
    assert forall|p: int, o: RustFoundView| stands_under(t, Some(p), i) implies declares(
        (#[trigger] rust_lang::after_item(
            t,
            i,
            path,
            repo_id,
            package,
            rust_lang::attributes(t, t.children(p), i, Seq::empty()),
            false,
            o,
        )).nodes,
        t,
        i,
        path,
        repo_id,
        name,
        kind,
    ) by {
        assert(rust_lang::attributes(t, t.children(p), i, Seq::empty()) == attr);
        let after = rust_lang::after_item(t, i, path, repo_id, package, attr, false, o).nodes;
        assert(after[o.nodes.len() as int] == n);
        assert(is_declared(after[o.nodes.len() as int], t, i, path, repo_id, name, kind));
    }
    lemma_rust_declares(t, i, path, repo_id, package, name, kind);
}

/// A function under one of the attributes `#[get(`, `#[post(`, `#[put(`, `#[delete(`, `#[patch(`,
/// `#[head(` and `#[options(`, with a path in double quotes, is the endpoint of that verb at the
/// path.
pub proof fn law_rust_routes(
    t: TreeView,
    i: int,
    attr: Seq<char>,
    k: int,
    q: int,
    route: Seq<char>,
    path: Seq<char>,
    repo_id: RepoId,
    package: Seq<char>,
)
    requires
        is_free(t, i),
        t.kind(i) == "function_item"@,
        forall|p: int| stands_under(t, Some(p), i) ==> #[trigger] rust_lang::attributes(t, t.children(p), i, Seq::empty()) == attr,
        0 <= k <= 6,
        text::find(attr, route_attribute(k).0) == Some(q),
        text::quoted(attr.skip(q + route_attribute(k).0.len())).len() > 0,
        text::quoted(attr.skip(q + route_attribute(k).0.len()))[0] == route,
        route.len() > 0,
        forall|l: int| 0 <= l <= 6 && l != k ==> !has_text(attr, (#[trigger] route_attribute(l)).0),
    ensures
        declares(
            rust_lang::rust_found(t, path, repo_id, package).nodes,
            t,
            i,
            path,
            repo_id,
            route_attribute(k).1 + " "@ + route,
            NodeKind::HttpEndpoint,
        ),
{
    lemma_one_route(attr, k, q, route);
    lemma_function_declared(t, i, path, repo_id, package, attr, route_attribute(k).1 + " "@ + route, NodeKind::HttpEndpoint);
}

/// A function under none of them is a class member under its own name.
pub proof fn law_rust_functions(
    t: TreeView,
    i: int,
    attr: Seq<char>,
    name: Seq<char>,
    path: Seq<char>,
    repo_id: RepoId,
    package: Seq<char>,
)
    requires
        is_free(t, i),
        t.kind(i) == "function_item"@,
        t.field_text(i, "name"@) == Some(name),
        forall|p: int| stands_under(t, Some(p), i) ==> #[trigger] rust_lang::attributes(t, t.children(p), i, Seq::empty()) == attr,
        forall|l: int| 0 <= l <= 6 ==> !has_text(attr, (#[trigger] route_attribute(l)).0),
    ensures
        declares(rust_lang::rust_found(t, path, repo_id, package).nodes, t, i, path, repo_id, name, NodeKind::ServiceClass),
{
    lemma_no_route(attr);
    lemma_function_declared(t, i, path, repo_id, package, attr, name, NodeKind::ServiceClass);
}

/// An implementation of a trait is a service of gRPC if an attribute `tonic::async_trait` stands on
/// it or the name of the trait ends with `Server` or `Service`; other implementations are none. Its
/// functions are methods of gRPC then.
pub proof fn law_rust_services(t: TreeView, i: int, s: Seq<char>, name: Seq<char>, attr: Seq<char>, path: Seq<char>, repo_id: RepoId, package: Seq<char>)
    requires
        t.text(i) == Some(s),
        rust_lang::implemented_trait(s) == Some(name),
    ensures
        ({
            let found = rust_lang::grpc_service(t, i, attr, path, repo_id, package);
            let serves = has_text(attr, "tonic::async_trait"@) || (exists|a: Seq<char>| name == #[trigger] (a + "Server"@)) || exists|a: Seq<
                char,
            >|
                name == #[trigger] (a + "Service"@);
            &&& serves ==> (found matches Some(n) && is_declared(n, t, i, path, repo_id, name, NodeKind::GrpcService))
            &&& !serves ==> found is None
        }),
        rust_lang::function_node(t, i, path, repo_id, package, attr, true).kind == NodeKind::GrpcMethod,
{
    walk_laws::law_texts_are_found(attr, "tonic::async_trait"@);
    walk_laws::lemma_ends(name, "Server"@);
    walk_laws::lemma_ends(name, "Service"@);
}

/// A path without braces brings in itself, below the prefix that it stands under; `self` and `*`
/// bring in the prefix. It is looked for as a whole and by its last segment.
pub proof fn law_rust_use_leaves(s: Seq<char>, prefix: Seq<char>)
    requires
        s.len() > 0,
        text::trim(s) == s,
        !s.contains('{'),
        !has_text(s, " as "@),
    ensures
        s != "self"@ && s != "*"@ && prefix.len() > 0 ==> rust_lang::use_paths(s, prefix) == seq![prefix + "::"@ + s],
        s != "self"@ && s != "*"@ && prefix.len() == 0 ==> rust_lang::use_paths(s, prefix) == seq![s],
        (s == "self"@ || s == "*"@) && prefix.len() > 0 ==> rust_lang::use_paths(s, prefix) == seq![prefix],
        !has_text(s, "::"@) ==> rust_lang::names_of_path(s) == seq![s],
{
    crate::text_laws::law_index_is_first(s, '{');
    walk_laws::law_texts_are_found(s, " as "@);
    assert(text::before_text(s, " as "@) == s);
    if !has_text(s, "::"@) {
        walk_laws::law_texts_are_found(s, "::"@);
        text::law_find_is_first(s, "::"@);
        lemma_no_rfind(s, "::"@, s.len() - "::"@.len());
    }
}

proof fn lemma_no_rfind(s: Seq<char>, p: Seq<char>, i: int)
    requires
        forall|j: int| !#[trigger] text::at(s, p, j),
    ensures
        text::rfind_from(s, p, i) is None,
    decreases i + 1,
{
    if i >= 0 {
        assert(!text::at(s, p, i));
        lemma_no_rfind(s, p, i - 1);
    }
}

/// A route of a router is an endpoint of the method that it is given, in upper case, or of any, at
/// the path in double quotes.
pub proof fn law_rust_router_routes(
    s: Seq<char>,
    k: int,
    line: int,
    route: Seq<char>,
    path: Seq<char>,
    repo_id: RepoId,
    package: Seq<char>,
)
    requires
        text::quoted(s.skip(k + 7)).len() > 0,
        text::quoted(s.skip(k + 7))[0] == route,
    ensures
        ({
            let found = rust_lang::axum_route(s, k, line, path, repo_id, package);
            let method = rust_lang::axum_method(s.skip(k + 7));
            &&& found is Some && found->0.kind == NodeKind::HttpEndpoint && found->0.file_path == path
            &&& method is None ==> found->0.name == "ANY"@ + " "@ + route
            &&& method matches Some(m) ==> found->0.name == m + " "@ + route
        }),
{
}

/// The topics of a subscription are the texts in double quotes among its arguments.
pub proof fn law_rust_subscriptions(s: Seq<char>, k: int, args: Seq<char>, rest: Seq<char>)
    requires
        text::find(s, ".subscribe("@) == Some(k),
        s.skip(k + 11) == args.push(')') + rest,
        !args.contains(')'),
    ensures
        rust_lang::subscribed(s) == text::quoted(args),
{
    crate::text_laws::law_before_and_after(args, ')', rest);
}

} // verus!
