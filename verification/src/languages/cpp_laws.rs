//! What holds of the declarations that are found in C++ files.
use vstd::prelude::*;
use crate::languages::cpp;
use crate::languages::cpp::{CppFoundView, CppRules, CppRulesView, IncludeRules};
use crate::languages::walk_laws;
use crate::languages::walk_laws::{declares, has_text, is_declared, within_reach};
use crate::model::{ContractNodeView, NodeKind, PackagesView, RepoId};
use crate::paths;
use crate::syntax;
use crate::syntax::TreeView;
use crate::text;

verus! {

proof fn lemma_kinds()
    ensures
        "namespace_definition"@ != "class_specifier"@,
        "namespace_definition"@ != "struct_specifier"@,
        "namespace_definition"@ != "function_definition"@,
        "class_specifier"@ != "struct_specifier"@,
        "class_specifier"@ != "function_definition"@,
        "struct_specifier"@ != "function_definition"@,
{
    reveal_strlit("namespace_definition");
    reveal_strlit("class_specifier");
    reveal_strlit("struct_specifier");
    reveal_strlit("function_definition");
    assert("namespace_definition"@.len() != "class_specifier"@.len());
    assert("namespace_definition"@.len() != "struct_specifier"@.len());
    assert("namespace_definition"@.len() != "function_definition"@.len());
    assert("class_specifier"@.len() != "struct_specifier"@.len());
    assert("class_specifier"@.len() != "function_definition"@.len());
    assert("struct_specifier"@.len() != "function_definition"@.len());
}

proof fn lemma_cpp_declares(
    t: TreeView,
    i: int,
    path: Seq<char>,
    repo_id: RepoId,
    packages: PackagesView,
    name: Seq<char>,
    kind: NodeKind,
)
    requires
        within_reach(t, i),
        forall|o: CppFoundView|
            {
                let after = (#[trigger] cpp::cpp_step(t, i, path, repo_id, packages, cpp::grpc_services(t), o)).nodes;
                after.len() > 0 && is_declared(after.last(), t, i, path, repo_id, name, kind)
            },
    ensures
        declares(cpp::cpp_nodes(t, path, repo_id, packages), t, i, path, repo_id, name, kind),
{
    let r = CppRulesView { path, repo_id, packages, services: cpp::grpc_services(t) };
    let items = |o: CppFoundView| o.nodes;
    let is = |n: ContractNodeView| is_declared(n, t, i, path, repo_id, name, kind);
    let start = CppFoundView { package: packages.file, nodes: Seq::empty() };
    assert forall|parent: Option<int>, c: (), o: CppFoundView|
        walk_laws::any(items((#[trigger] <CppRules as syntax::TreeRules>::on_node(r, t, parent, i, c, o)).0), is) by {
        let after = cpp::cpp_step(t, i, path, repo_id, packages, cpp::grpc_services(t), o).nodes;
        assert(is(after[after.len() - 1]));
    }
    walk_laws::lemma_walk_gathers::<CppRules, ContractNodeView>(r, t, 64, (), start, i, items, is);
}

/// Whether a class derives from the base of gRPC services.
pub open spec fn serves_grpc(t: TreeView, i: int) -> bool {
    exists|k: int| 0 <= k < t.children(i).len() && is_service_base(t, #[trigger] t.children(i)[k])
}

/// Whether node `c` lists base classes, that of gRPC services among them.
pub open spec fn is_service_base(t: TreeView, c: int) -> bool {
    t.kind(c) == "base_class_clause"@ && match t.text(c) {
        Some(s) => has_text(s, "grpc::Service"@),
        None => false,
    }
}

proof fn lemma_serves(t: TreeView, i: int)
    ensures
        cpp::has_grpc_base(t, i) == serves_grpc(t, i),
{
    let ks = t.children(i);
    assert forall|c: int| #[trigger] cpp::is_grpc_base(t, c) == is_service_base(t, c) by {
        if t.text(c) is Some {
            walk_laws::law_texts_are_found(t.text(c)->0, "grpc::Service"@);
        }
    }
    if cpp::has_grpc_base(t, i) {
        let k = choose|k: int| 0 <= k < ks.len() && cpp::is_grpc_base(t, #[trigger] ks[k]);
        assert(is_service_base(t, ks[k]));
    }
    if serves_grpc(t, i) {
        let k = choose|k: int| 0 <= k < ks.len() && is_service_base(t, #[trigger] ks[k]);
        assert(cpp::is_grpc_base(t, ks[k]));
    }
}

/// A class or struct with a body is a service of gRPC if it derives from `grpc::Service`, else an
/// interface if it has methods and all of them are pure, else a class.
pub proof fn law_cpp_classes(t: TreeView, i: int, name: Seq<char>, path: Seq<char>, repo_id: RepoId, packages: PackagesView)
    requires
        within_reach(t, i),
        t.kind(i) == "class_specifier"@ || t.kind(i) == "struct_specifier"@,
        t.field(i, "body"@) is Some,
        t.field_text(i, "name"@) == Some(name),
    ensures
        ({
            let nodes = cpp::cpp_nodes(t, path, repo_id, packages);
            &&& serves_grpc(t, i) ==> declares(nodes, t, i, path, repo_id, name, NodeKind::GrpcService)
            &&& !serves_grpc(t, i) && cpp::is_interface(t, i) ==> declares(nodes, t, i, path, repo_id, name, NodeKind::Interface)
            &&& !serves_grpc(t, i) && !cpp::is_interface(t, i) ==> declares(nodes, t, i, path, repo_id, name, NodeKind::ServiceClass)
        }),
{
    lemma_kinds();
    lemma_serves(t, i);
    let kind = if serves_grpc(t, i) {
        NodeKind::GrpcService
    } else if cpp::is_interface(t, i) {
        NodeKind::Interface
    } else {
        NodeKind::ServiceClass
    };
    lemma_cpp_declares(t, i, path, repo_id, packages, name, kind);
}

proof fn lemma_declarators()
    ensures
        "function_declarator"@ != "pointer_declarator"@,
        "function_declarator"@ != "reference_declarator"@,
        "function_declarator"@ != "parenthesized_declarator"@,
        "function_declarator"@ != "qualified_identifier"@,
        "function_declarator"@ != "template_function"@,
        "function_declarator"@ != "identifier"@,
        "function_declarator"@ != "field_identifier"@,
        "function_declarator"@ != "destructor_name"@,
        "function_declarator"@ != "operator_name"@,
        "pointer_declarator"@ != "reference_declarator"@,
        "pointer_declarator"@ != "parenthesized_declarator"@,
        "pointer_declarator"@ != "qualified_identifier"@,
        "pointer_declarator"@ != "template_function"@,
        "pointer_declarator"@ != "identifier"@,
        "pointer_declarator"@ != "field_identifier"@,
        "pointer_declarator"@ != "destructor_name"@,
        "pointer_declarator"@ != "operator_name"@,
        "reference_declarator"@ != "parenthesized_declarator"@,
        "reference_declarator"@ != "qualified_identifier"@,
        "reference_declarator"@ != "template_function"@,
        "reference_declarator"@ != "identifier"@,
        "reference_declarator"@ != "field_identifier"@,
        "reference_declarator"@ != "destructor_name"@,
        "reference_declarator"@ != "operator_name"@,
        "parenthesized_declarator"@ != "qualified_identifier"@,
        "parenthesized_declarator"@ != "template_function"@,
        "parenthesized_declarator"@ != "identifier"@,
        "parenthesized_declarator"@ != "field_identifier"@,
        "parenthesized_declarator"@ != "destructor_name"@,
        "parenthesized_declarator"@ != "operator_name"@,
        "qualified_identifier"@ != "template_function"@,
        "qualified_identifier"@ != "identifier"@,
        "qualified_identifier"@ != "field_identifier"@,
        "qualified_identifier"@ != "destructor_name"@,
        "qualified_identifier"@ != "operator_name"@,
        "template_function"@ != "identifier"@,
        "template_function"@ != "field_identifier"@,
        "template_function"@ != "destructor_name"@,
        "template_function"@ != "operator_name"@,
        "identifier"@ != "field_identifier"@,
        "identifier"@ != "destructor_name"@,
        "identifier"@ != "operator_name"@,
        "field_identifier"@ != "destructor_name"@,
        "field_identifier"@ != "operator_name"@,
        "destructor_name"@ != "operator_name"@,
{
    reveal_strlit("function_declarator");
    reveal_strlit("pointer_declarator");
    reveal_strlit("reference_declarator");
    reveal_strlit("parenthesized_declarator");
    reveal_strlit("qualified_identifier");
    reveal_strlit("template_function");
    reveal_strlit("identifier");
    reveal_strlit("field_identifier");
    reveal_strlit("destructor_name");
    reveal_strlit("operator_name");
    assert("function_declarator"@.len() != "pointer_declarator"@.len());
    assert("function_declarator"@.len() != "reference_declarator"@.len());
    assert("function_declarator"@.len() != "parenthesized_declarator"@.len());
    assert("function_declarator"@.len() != "qualified_identifier"@.len());
    assert("function_declarator"@.len() != "template_function"@.len());
    assert("function_declarator"@.len() != "identifier"@.len());
    assert("function_declarator"@.len() != "field_identifier"@.len());
    assert("function_declarator"@.len() != "destructor_name"@.len());
    assert("function_declarator"@.len() != "operator_name"@.len());
    assert("pointer_declarator"@.len() != "reference_declarator"@.len());
    assert("pointer_declarator"@.len() != "parenthesized_declarator"@.len());
    assert("pointer_declarator"@.len() != "qualified_identifier"@.len());
    assert("pointer_declarator"@.len() != "template_function"@.len());
    assert("pointer_declarator"@.len() != "identifier"@.len());
    assert("pointer_declarator"@.len() != "field_identifier"@.len());
    assert("pointer_declarator"@.len() != "destructor_name"@.len());
    assert("pointer_declarator"@.len() != "operator_name"@.len());
    assert("reference_declarator"@.len() != "parenthesized_declarator"@.len());
    assert("reference_declarator"@[0] != "qualified_identifier"@[0]);
    assert("reference_declarator"@.len() != "template_function"@.len());
    assert("reference_declarator"@.len() != "identifier"@.len());
    assert("reference_declarator"@.len() != "field_identifier"@.len());
    assert("reference_declarator"@.len() != "destructor_name"@.len());
    assert("reference_declarator"@.len() != "operator_name"@.len());
    assert("parenthesized_declarator"@.len() != "qualified_identifier"@.len());
    assert("parenthesized_declarator"@.len() != "template_function"@.len());
    assert("parenthesized_declarator"@.len() != "identifier"@.len());
    assert("parenthesized_declarator"@.len() != "field_identifier"@.len());
    assert("parenthesized_declarator"@.len() != "destructor_name"@.len());
    assert("parenthesized_declarator"@.len() != "operator_name"@.len());
    assert("qualified_identifier"@.len() != "template_function"@.len());
    assert("qualified_identifier"@.len() != "identifier"@.len());
    assert("qualified_identifier"@.len() != "field_identifier"@.len());
    assert("qualified_identifier"@.len() != "destructor_name"@.len());
    assert("qualified_identifier"@.len() != "operator_name"@.len());
    assert("template_function"@.len() != "identifier"@.len());
    assert("template_function"@.len() != "field_identifier"@.len());
    assert("template_function"@.len() != "destructor_name"@.len());
    assert("template_function"@.len() != "operator_name"@.len());
    assert("identifier"@.len() != "field_identifier"@.len());
    assert("identifier"@.len() != "destructor_name"@.len());
    assert("identifier"@.len() != "operator_name"@.len());
    assert("field_identifier"@.len() != "destructor_name"@.len());
    assert("field_identifier"@.len() != "operator_name"@.len());
    assert("destructor_name"@.len() != "operator_name"@.len());
}

/// A function is declared under the identifier in its declarator, be it behind a pointer or a
/// reference or not: as an HTTP endpoint if its name starts with `Handle` or `handle` or ends with
/// `Handler`, else as a class member. A destructor is not declared.
pub proof fn law_cpp_functions(
    t: TreeView,
    i: int,
    d: int,
    f: int,
    n: int,
    name: Seq<char>,
    path: Seq<char>,
    repo_id: RepoId,
    packages: PackagesView,
)
    requires
        within_reach(t, i),
        t.kind(i) == "function_definition"@,
        t.field(i, "declarator"@) == Some(d),
        d == f || (t.kind(d) == "pointer_declarator"@ || t.kind(d) == "reference_declarator"@) && t.field(d, "declarator"@) == Some(f)
            && d < f < t.rows.len(),
        t.kind(f) == "function_declarator"@,
        t.field(f, "declarator"@) == Some(n),
        f < n < t.rows.len(),
        t.kind(n) == "identifier"@ || t.kind(n) == "field_identifier"@ || t.kind(n) == "operator_name"@,
        t.text(n) == Some(name),
        name.len() > 0,
        name[0] != '~',
    ensures
        ({
            let nodes = cpp::cpp_nodes(t, path, repo_id, packages);
            let handles = (exists|s: Seq<char>| name == #[trigger] ("Handle"@ + s)) || (exists|s: Seq<char>|
                name == #[trigger] ("handle"@ + s)) || exists|s: Seq<char>| name == #[trigger] (s + "Handler"@);
            &&& handles ==> declares(nodes, t, i, path, repo_id, name, NodeKind::HttpEndpoint)
            &&& !handles ==> declares(nodes, t, i, path, repo_id, name, NodeKind::ServiceClass)
        }),
{
    lemma_kinds();
    lemma_declarators();
    walk_laws::lemma_starts(name, "Handle"@);
    walk_laws::lemma_starts(name, "handle"@);
    walk_laws::lemma_ends(name, "Handler"@);
    reveal_with_fuel(cpp::declared_name, 4);
    reveal_with_fuel(cpp::qualifier, 4);
    assert(cpp::declared_name(t, n) == Some(name));
    assert(cpp::declared_name(t, f) == Some(name));
    assert(cpp::declared_name(t, d) == Some(name));
    assert(cpp::qualifier(t, n) is None);
    assert(cpp::qualifier(t, f) is None);
    assert(cpp::qualifier(t, d) is None);
    let kind = cpp::function_kind(t, i, name, cpp::grpc_services(t));
    lemma_cpp_declares(t, i, path, repo_id, packages, name, kind);
}

/// A header in double quotes is taken by its stem; one in angle brackets too if its name holds a
/// slash or ends with `.hpp`, `.hh` or `.hxx`.
pub proof fn law_cpp_includes(t: TreeView, i: int, p: int, s: Seq<char>, inner: Seq<char>, stem: Seq<char>)
    requires
        within_reach(t, i),
        t.kind(i) == "preproc_include"@,
        t.field(i, "path"@) == Some(p),
        t.text(p) == Some(s),
        ({
            ||| t.kind(p) == "string_literal"@ && inner == text::trim_set(s, "\""@)
            ||| {
                &&& t.kind(p) == "system_lib_string"@
                &&& inner == text::trim_set(text::trim_set(s, "<"@), ">"@)
                &&& {
                    ||| inner.contains('/')
                    ||| exists|a: Seq<char>| inner == #[trigger] (a + ".hpp"@)
                    ||| exists|a: Seq<char>| inner == #[trigger] (a + ".hh"@)
                    ||| exists|a: Seq<char>| inner == #[trigger] (a + ".hxx"@)
                }
            }
        }),
        paths::file_stem(inner) == Some(stem),
    ensures
        cpp::local_includes(t).contains(stem),
{
    reveal_strlit("string_literal");
    reveal_strlit("system_lib_string");
    assert("string_literal"@.len() != "system_lib_string"@.len());
    crate::text_laws::law_index_is_first(inner, '/');
    walk_laws::lemma_ends(inner, ".hpp"@);
    walk_laws::lemma_ends(inner, ".hh"@);
    walk_laws::lemma_ends(inner, ".hxx"@);
    let items = |o: Seq<Seq<char>>| o;
    let is = |x: Seq<char>| x == stem;
    assert(cpp::include_target(t, i) == Some(stem));
    assert forall|parent: Option<int>, c: (), o: Seq<Seq<char>>|
        walk_laws::any(items((#[trigger] <IncludeRules as syntax::TreeRules>::on_node((), t, parent, i, c, o)).0), is) by {
        let after = o.push(stem);
        assert(is(after[after.len() - 1]));
    }
    walk_laws::lemma_walk_gathers::<IncludeRules, Seq<char>>((), t, 64, (), Seq::empty(), i, items, is);
    let found = cpp::local_includes(t);
    let k = choose|k: int| 0 <= k < found.len() && is(#[trigger] found[k]);
    assert(found[k] == stem);
}

/// Whether a member declares a method without a body.
pub open spec fn declares_method(t: TreeView, k: int) -> bool {
    t.kind(k) == "field_declaration"@ && match t.field(k, "declarator"@) {
        Some(d) => t.kind(d) == "function_declarator"@,
        None => false,
    }
}

proof fn lemma_interface(t: TreeView, i: int, body: int, j: int)
    requires
        t.field(i, "body"@) == Some(body),
        0 <= j < t.children(body).len(),
        cpp::is_method_declaration(t, t.children(body)[j]),
        forall|m: int| 0 <= m < t.children(body).len() ==> cpp::is_pure_member(t, #[trigger] t.children(body)[m]),
    ensures
        cpp::is_interface(t, i),
{
    let ks = t.children(t.field(i, "body"@)->0);
    assert(ks == t.children(body));
    assert(forall|m: int| 0 <= m < ks.len() ==> cpp::is_pure_member(t, #[trigger] ks[m]));
    assert(0 <= j < ks.len() && cpp::is_method_declaration(t, ks[j]));
    assert(exists|m: int| 0 <= m < ks.len() && cpp::is_method_declaration(t, #[trigger] ks[m]));
    assert(cpp::is_interface(t, i) == ((forall|m: int| 0 <= m < ks.len() ==> cpp::is_pure_member(t, #[trigger] ks[m])) && (exists|m: int|
        0 <= m < ks.len() && cpp::is_method_declaration(t, #[trigger] ks[m]))));
}

/// Whether all members declare pure methods.
pub open spec fn all_pure(t: TreeView, ks: Seq<int>) -> bool {
    forall|m: int| 0 <= m < ks.len() ==> declares_method(t, #[trigger] ks[m]) && t.field(ks[m], "default_value"@) is Some
}

/// A class of pure methods alone is an interface. One method that is not pure, or one with a body,
/// makes it none, and so does having no method.
pub proof fn law_cpp_interfaces(t: TreeView, i: int, body: int, j: int)
    requires
        t.field(i, "body"@) == Some(body),
        0 <= j < t.children(body).len(),
    ensures
        all_pure(t, t.children(body)) ==> cpp::is_interface(t, i),
        declares_method(t, t.children(body)[j]) && t.field(t.children(body)[j], "default_value"@) is None ==> !cpp::is_interface(t, i),
        t.kind(t.children(body)[j]) == "function_definition"@ && t.children(t.children(body)[j]).len() == 0 ==> !cpp::is_interface(t, i),
        (forall|m: int| 0 <= m < t.children(body).len() ==> !declares_method(t, #[trigger] t.children(body)[m])) ==> !cpp::is_interface(
            t,
            i,
        ),
{
    let ks = t.children(body);
    reveal_strlit("field_declaration");
    reveal_strlit("function_definition");
    assert("field_declaration"@.len() != "function_definition"@.len());
    assert forall|k: int| declares_method(t, k) == #[trigger] cpp::is_method_declaration(t, k) by {}
    if all_pure(t, ks) {
        assert forall|m: int| 0 <= m < ks.len() implies cpp::is_pure_member(t, #[trigger] ks[m]) by {
            assert(declares_method(t, ks[m]));
        }
        assert(declares_method(t, ks[j]));
        assert(cpp::is_method_declaration(t, ks[j]));
        lemma_interface(t, i, body, j);
    }
    if declares_method(t, ks[j]) && t.field(ks[j], "default_value"@) is None {
        assert(!cpp::is_pure_member(t, ks[j]));
    }
    if t.kind(ks[j]) == "function_definition"@ && t.children(ks[j]).len() == 0 {
        assert(!cpp::is_special(t, ks[j]));
        assert(!cpp::is_pure_member(t, ks[j]));
    }
}

/// A defaulted or deleted member keeps an interface an interface.
pub proof fn law_cpp_special_members(t: TreeView, k: int, c: int)
    requires
        t.kind(k) == "function_definition"@,
        t.children(k).contains(c),
        t.kind(c) == "default_method_clause"@ || t.kind(c) == "delete_method_clause"@,
    ensures
        cpp::is_pure_member(t, k),
{
    reveal_strlit("field_declaration");
    reveal_strlit("function_definition");
    assert("field_declaration"@.len() != "function_definition"@.len());
    let m = choose|m: int| 0 <= m < t.children(k).len() && t.children(k)[m] == c;
    assert(t.kind(t.children(k)[m]) == t.kind(c));
}

} // verus!
