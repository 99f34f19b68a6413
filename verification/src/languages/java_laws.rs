//! What holds of the declarations that are found in Java files.
use vstd::prelude::*;
use crate::languages::common;
use crate::languages::java;
use crate::languages::java::{JavaFoundView, JavaRules};
use crate::languages::walk_laws;
use crate::languages::walk_laws::{declares, is_declared};
use crate::model::{ContractNodeView, NodeKind, PackagesView, RepoId};
use crate::syntax;
use crate::syntax::TreeView;
use crate::text;

verus! {

/// The annotations that make a method an HTTP endpoint.
pub open spec fn route_annotation(k: int) -> Seq<char> {
    if k == 0 {
        "@GetMapping"@
    } else if k == 1 {
        "@PostMapping"@
    } else if k == 2 {
        "@PutMapping"@
    } else if k == 3 {
        "@DeleteMapping"@
    } else if k == 4 {
        "@PatchMapping"@
    } else if k == 5 {
        "@RequestMapping"@
    } else if k == 6 {
        "@GET"@
    } else if k == 7 {
        "@POST"@
    } else if k == 8 {
        "@PUT"@
    } else if k == 9 {
        "@DELETE"@
    } else if k == 10 {
        "@PATCH"@
    } else if k == 11 {
        "@Path"@
    } else if k == 12 {
        "@Get"@
    } else if k == 13 {
        "@Post"@
    } else if k == 14 {
        "@Put"@
    } else if k == 15 {
        "@Delete"@
    } else {
        "@Patch"@
    }
}

/// Whether `w` stands at position `p` of `s` and is not part of a longer identifier.
pub open spec fn word_at(s: Seq<char>, w: Seq<char>, p: int) -> bool {
    &&& 0 <= p && p + w.len() <= s.len()
    &&& s.subrange(p, p + w.len()) == w
    &&& p > 0 ==> !text::in_identifier(s[p - 1])
    &&& p + w.len() < s.len() ==> !text::in_identifier(s[p + w.len()])
}

/// Whether `w` stands somewhere in `s` and is not part of a longer identifier.
pub open spec fn has_word(s: Seq<char>, w: Seq<char>) -> bool {
    exists|p: int| word_at(s, w, p)
}

/// Whether a child of a declaration holds modifiers.
pub open spec fn is_modifier(t: TreeView, c: int) -> bool {
    t.kind(c) == "modifiers"@ || text::contains(t.kind(c), "annotation"@)
}

/// Whether the modifiers of node `i` hold the word `w`.
pub open spec fn carries(t: TreeView, i: int, w: Seq<char>) -> bool {
    some_has(t, t.children(i), w)
}

/// Whether node `c` holds modifiers and the word `w` among them.
pub open spec fn modifier_has(t: TreeView, c: int, w: Seq<char>) -> bool {
    is_modifier(t, c) && match t.text(c) {
        Some(s) => has_word(s, w),
        None => false,
    }
}

/// Whether node `i` has modifiers at all.
pub open spec fn has_modifiers(t: TreeView, i: int) -> bool {
    exists|k: int| 0 <= k < t.children(i).len() && is_modifier(t, #[trigger] t.children(i)[k]) && t.text(t.children(i)[k]) is Some
}

proof fn lemma_annotated(s: Seq<char>, name: Seq<char>, w: Seq<char>)
    requires
        w == "@"@ + name,
    ensures
        java::annotated(s, name) == has_word(s, w),
{
    assert forall|p: int| java::annotation_at(s, w, p) == word_at(s, w, p) by {}
    if java::annotated(s, name) {
        let p = choose|p: int| java::annotation_at(s, "@"@ + name, p);
        assert(word_at(s, w, p));
    }
    if has_word(s, w) {
        let p = choose|p: int| word_at(s, w, p);
        assert(java::annotation_at(s, "@"@ + name, p));
    }
}

proof fn lemma_word_in_parts(a: Seq<char>, s: Seq<char>, w: Seq<char>)
    requires
        !text::unicode_alphanumeric(' '),
        a.len() > 0 ==> a.last() == ' ',
        w.len() > 0,
        !w.contains(' '),
    ensures
        has_word(a + s + " "@, w) == (has_word(a, w) || has_word(s, w)),
{
    reveal_strlit(" ");
    let all = a + s + " "@;
    let n = a.len() as int;
    let m = n + s.len();
    assert(all[m] == ' ');
    assert(!text::in_identifier(' '));
    if has_word(a, w) {
        let p = choose|p: int| word_at(a, w, p);
        assert(all.subrange(p, p + w.len()) == a.subrange(p, p + w.len()));
        if p + w.len() == n {
            assert(a.subrange(p, p + w.len())[w.len() - 1] == a.last());
            assert(w[w.len() - 1] == ' ');
            assert(w.contains(' '));
        }
        assert(word_at(all, w, p));
    }
    if has_word(s, w) {
        let p = choose|p: int| word_at(s, w, p);
        assert(all.subrange(n + p, n + p + w.len()) == s.subrange(p, p + w.len()));
        if p == 0 && n > 0 {
            assert(all[n - 1] == ' ');
        }
        assert(word_at(all, w, n + p));
    }
    if has_word(all, w) {
        let p = choose|p: int| word_at(all, w, p);
        if p + w.len() > m {
            assert(all.subrange(p, p + w.len())[m - p] == ' ');
            assert(w.contains(' '));
        }
        if p < n {
            if p + w.len() >= n {
                assert(all.subrange(p, p + w.len())[n - 1 - p] == all[n - 1]);
                assert(w[n - 1 - p] == ' ');
                assert(w.contains(' '));
            }
            assert(a.subrange(p, p + w.len()) == all.subrange(p, p + w.len()));
            assert(word_at(a, w, p));
        } else {
            assert(s.subrange(p - n, p - n + w.len()) == all.subrange(p, p + w.len()));
            assert(word_at(s, w, p - n));
        }
    }
}

/// Whether one of the nodes holds modifiers and the word `w` among them.
pub open spec fn some_has(t: TreeView, ks: Seq<int>, w: Seq<char>) -> bool {
    exists|k: int| 0 <= k < ks.len() && modifier_has(t, #[trigger] ks[k], w)
}

proof fn lemma_some_has(t: TreeView, ks: Seq<int>, w: Seq<char>)
    requires
        ks.len() > 0,
    ensures
        some_has(t, ks, w) == (some_has(t, ks.drop_last(), w) || modifier_has(t, ks.last(), w)),
{
    let front = ks.drop_last();
    if some_has(t, front, w) {
        let k = choose|k: int| 0 <= k < front.len() && modifier_has(t, #[trigger] front[k], w);
        assert(ks[k] == front[k]);
    }
    if some_has(t, ks, w) {
        let k = choose|k: int| 0 <= k < ks.len() && modifier_has(t, #[trigger] ks[k], w);
        if k < front.len() {
            assert(front[k] == ks[k]);
        }
    }
    if modifier_has(t, ks.last(), w) {
        assert(ks[ks.len() - 1] == ks.last());
    }
}

proof fn lemma_gathered_ends(t: TreeView, ks: Seq<int>)
    ensures
        java::modifier_text(t, ks).len() > 0 ==> java::modifier_text(t, ks).last() == ' ',
    decreases ks.len(),
{
    reveal_strlit(" ");
    if ks.len() > 0 {
        lemma_gathered_ends(t, ks.drop_last());
    }
}

proof fn lemma_gathered_some(t: TreeView, ks: Seq<int>, k: int)
    requires
        0 <= k < ks.len(),
        is_modifier(t, ks[k]),
        t.text(ks[k]) is Some,
    ensures
        java::modifier_text(t, ks).len() > 0,
    decreases ks.len(),
{
    reveal_strlit(" ");
    if k < ks.len() - 1 {
        assert(ks.drop_last()[k] == ks[k]);
        lemma_gathered_some(t, ks.drop_last(), k);
    }
}

proof fn lemma_gathered(t: TreeView, ks: Seq<int>, w: Seq<char>)
    requires
        !text::unicode_alphanumeric(' '),
        w.len() > 0,
        !w.contains(' '),
    ensures
        has_word(java::modifier_text(t, ks), w) == some_has(t, ks, w),
    decreases ks.len(),
{
    let all = java::modifier_text(t, ks);
    if ks.len() == 0 {
        if has_word(all, w) {
            let p = choose|p: int| word_at(all, w, p);
            assert(false);
        }
    } else {
        let front = ks.drop_last();
        let rest = java::modifier_text(t, front);
        lemma_gathered(t, front, w);
        lemma_gathered_ends(t, front);
        lemma_some_has(t, ks, w);
        let c = ks.last();
        if is_modifier(t, c) && t.text(c) is Some {
            lemma_word_in_parts(rest, t.text(c)->0, w);
        }
    }
}

proof fn lemma_method_words(t: TreeView, i: int, w: Seq<char>)
    requires
        !text::unicode_alphanumeric(' '),
        has_modifiers(t, i),
        w.len() > 0,
        !w.contains(' '),
    ensures
        has_word(java::method_annotations(t, i), w) == carries(t, i, w),
{
    let ks = t.children(i);
    let k = choose|k: int| 0 <= k < ks.len() && is_modifier(t, #[trigger] ks[k]) && t.text(ks[k]) is Some;
    lemma_gathered_some(t, ks, k);
    lemma_gathered(t, ks, w);
}

proof fn lemma_route_annotations()
    ensures
        forall|k: int| 0 <= k <= 16 ==> (#[trigger] route_annotation(k)).len() > 0 && !route_annotation(k).contains(' '),
        "@KafkaListener"@.len() > 0 && !("@KafkaListener"@).contains(' '),
        "@KafkaListener"@ == "@"@ + "KafkaListener"@,
        route_annotation(0) == "@"@ + "GetMapping"@,
        route_annotation(1) == "@"@ + "PostMapping"@,
        route_annotation(2) == "@"@ + "PutMapping"@,
        route_annotation(3) == "@"@ + "DeleteMapping"@,
        route_annotation(4) == "@"@ + "PatchMapping"@,
        route_annotation(5) == "@"@ + "RequestMapping"@,
        route_annotation(6) == "@"@ + "GET"@,
        route_annotation(7) == "@"@ + "POST"@,
        route_annotation(8) == "@"@ + "PUT"@,
        route_annotation(9) == "@"@ + "DELETE"@,
        route_annotation(10) == "@"@ + "PATCH"@,
        route_annotation(11) == "@"@ + "Path"@,
        route_annotation(12) == "@"@ + "Get"@,
        route_annotation(13) == "@"@ + "Post"@,
        route_annotation(14) == "@"@ + "Put"@,
        route_annotation(15) == "@"@ + "Delete"@,
        route_annotation(16) == "@"@ + "Patch"@,
{
    reveal_strlit("@");
    reveal_strlit("@KafkaListener");
    reveal_strlit("@GetMapping");
    reveal_strlit("@PostMapping");
    reveal_strlit("@PutMapping");
    reveal_strlit("@DeleteMapping");
    reveal_strlit("@PatchMapping");
    reveal_strlit("@RequestMapping");
    reveal_strlit("@GET");
    reveal_strlit("@POST");
    reveal_strlit("@PUT");
    reveal_strlit("@DELETE");
    reveal_strlit("@PATCH");
    reveal_strlit("@Path");
    reveal_strlit("@Get");
    reveal_strlit("@Post");
    reveal_strlit("@Put");
    reveal_strlit("@Delete");
    reveal_strlit("@Patch");
    reveal_strlit("KafkaListener");
    reveal_strlit("GetMapping");
    reveal_strlit("PostMapping");
    reveal_strlit("PutMapping");
    reveal_strlit("DeleteMapping");
    reveal_strlit("PatchMapping");
    reveal_strlit("RequestMapping");
    reveal_strlit("GET");
    reveal_strlit("POST");
    reveal_strlit("PUT");
    reveal_strlit("DELETE");
    reveal_strlit("PATCH");
    reveal_strlit("Path");
    reveal_strlit("Get");
    reveal_strlit("Post");
    reveal_strlit("Put");
    reveal_strlit("Delete");
    reveal_strlit("Patch");
}

proof fn lemma_roles(s: Seq<char>)
    ensures
        has_word(s, "@KafkaListener"@) ==> java::method_role(s).0 == NodeKind::KafkaTopic,
        !has_word(s, "@KafkaListener"@) ==> (java::method_role(s).0 == NodeKind::HttpEndpoint <==> exists|k: int|
            0 <= k <= 16 && has_word(s, #[trigger] route_annotation(k))),
        !has_word(s, "@KafkaListener"@) && (forall|k: int| 0 <= k <= 16 ==> !has_word(s, #[trigger] route_annotation(k)))
            ==> java::method_role(s).0 == NodeKind::ServiceClass,
        !has_word(s, "@KafkaListener"@) ==> java::method_role(s).1 is None,
{
    lemma_route_annotations();
    lemma_annotated(s, "KafkaListener"@, "@KafkaListener"@);
    lemma_annotated(s, "GetMapping"@, route_annotation(0));
    lemma_annotated(s, "PostMapping"@, route_annotation(1));
    lemma_annotated(s, "PutMapping"@, route_annotation(2));
    lemma_annotated(s, "DeleteMapping"@, route_annotation(3));
    lemma_annotated(s, "PatchMapping"@, route_annotation(4));
    lemma_annotated(s, "RequestMapping"@, route_annotation(5));
    lemma_annotated(s, "GET"@, route_annotation(6));
    lemma_annotated(s, "POST"@, route_annotation(7));
    lemma_annotated(s, "PUT"@, route_annotation(8));
    lemma_annotated(s, "DELETE"@, route_annotation(9));
    lemma_annotated(s, "PATCH"@, route_annotation(10));
    lemma_annotated(s, "Path"@, route_annotation(11));
    lemma_annotated(s, "Get"@, route_annotation(12));
    lemma_annotated(s, "Post"@, route_annotation(13));
    lemma_annotated(s, "Put"@, route_annotation(14));
    lemma_annotated(s, "Delete"@, route_annotation(15));
    lemma_annotated(s, "Patch"@, route_annotation(16));
    if exists|k: int| 0 <= k <= 16 && has_word(s, #[trigger] route_annotation(k)) {
        let k = choose|k: int| 0 <= k <= 16 && has_word(s, #[trigger] route_annotation(k));
        assert(k == 0 || k == 1 || k == 2 || k == 3 || k == 4 || k == 5 || k == 6 || k == 7 || k == 8 || k == 9 || k == 10
            || k == 11 || k == 12 || k == 13 || k == 14 || k == 15 || k == 16);
    }
}

proof fn lemma_java_declares(
    t: TreeView,
    i: int,
    path: Seq<char>,
    repo_id: RepoId,
    packages: PackagesView,
    name: Seq<char>,
    kind: NodeKind,
)
    requires
        syntax::nested(t),
        t.valid(i),
        syntax::level(t, i) <= 64,
        forall|o: JavaFoundView|
            {
                let after = (#[trigger] java::java_step(t, i, path, repo_id, packages, o)).nodes;
                after.len() > 0 && is_declared(after.last(), t, i, path, repo_id, name, kind)
            },
    ensures
        declares(java::java_found(t, path, repo_id, packages).nodes, t, i, path, repo_id, name, kind),
{
    let r = common::PackageRules { path, repo_id, packages };
    let nodes = |o: JavaFoundView| o.nodes;
    let is = |n: ContractNodeView| is_declared(n, t, i, path, repo_id, name, kind);
    let start = JavaFoundView { package: ""@, nodes: Seq::empty(), producers: Seq::empty() };
    assert forall|parent: Option<int>, c: (), o: JavaFoundView|
        walk_laws::any(nodes((#[trigger] <JavaRules as syntax::TreeRules>::on_node(r, t, parent, i, c, o)).0), is) by {
        let after = java::java_step(t, i, path, repo_id, packages, o).nodes;
        assert(is(after[after.len() - 1]));
    }
    walk_laws::lemma_walk_gathers::<JavaRules, ContractNodeView>(r, t, 64, (), start, i, nodes, is);
}

proof fn lemma_method_kind()
    ensures
        "method_declaration"@ != "package_declaration"@,
        "method_declaration"@ != "class_declaration"@,
        "method_declaration"@ != "interface_declaration"@,
        "class_declaration"@ != "package_declaration"@,
        "interface_declaration"@ != "package_declaration"@,
        "interface_declaration"@ != "class_declaration"@,
{
    reveal_strlit("method_declaration");
    reveal_strlit("package_declaration");
    reveal_strlit("class_declaration");
    reveal_strlit("interface_declaration");
    assert("method_declaration"@.len() == 18 && "package_declaration"@.len() == 19);
    assert("class_declaration"@.len() == 17 && "interface_declaration"@.len() == 21);
}

/// A method with an annotation of a route among its modifiers, and no listener of Kafka, is an
/// HTTP endpoint under its own name: `@GetMapping`, `@PostMapping`, `@PutMapping`,
/// `@DeleteMapping`, `@PatchMapping`, `@RequestMapping`, `@GET`, `@POST`, `@PUT`, `@DELETE`,
/// `@PATCH`, `@Path`, `@Get`, `@Post`, `@Put`, `@Delete` and `@Patch` alike.
pub proof fn law_routes_are_endpoints(t: TreeView, i: int, k: int, path: Seq<char>, repo_id: RepoId, packages: PackagesView)
    requires
        syntax::nested(t),
        t.valid(i),
        syntax::level(t, i) <= 64,
        !text::unicode_alphanumeric(' '),
        t.kind(i) == "method_declaration"@,
        0 <= k <= 16,
        carries(t, i, route_annotation(k)),
        !carries(t, i, "@KafkaListener"@),
    ensures
        declares(
            java::java_found(t, path, repo_id, packages).nodes,
            t,
            i,
            path,
            repo_id,
            text::or(t.field_text(i, "name"@), "unknownMethod"@),
            NodeKind::HttpEndpoint,
        ),
{
    lemma_route_annotations();
    lemma_method_kind();
    let j = choose|j: int| 0 <= j < t.children(i).len() && modifier_has(t, #[trigger] t.children(i)[j], route_annotation(k));
    assert(is_modifier(t, t.children(i)[j]));
    lemma_method_words(t, i, route_annotation(k));
    lemma_method_words(t, i, "@KafkaListener"@);
    lemma_roles(java::method_annotations(t, i));
    lemma_java_declares(
        t,
        i,
        path,
        repo_id,
        packages,
        text::or(t.field_text(i, "name"@), "unknownMethod"@),
        NodeKind::HttpEndpoint,
    );
}

/// A method whose modifiers hold no annotation of a route and no listener of Kafka is a class
/// member under its own name.
pub proof fn law_other_methods_are_members(t: TreeView, i: int, path: Seq<char>, repo_id: RepoId, packages: PackagesView)
    requires
        syntax::nested(t),
        t.valid(i),
        syntax::level(t, i) <= 64,
        !text::unicode_alphanumeric(' '),
        t.kind(i) == "method_declaration"@,
        has_modifiers(t, i),
        forall|k: int| 0 <= k <= 16 ==> !carries(t, i, #[trigger] route_annotation(k)),
        !carries(t, i, "@KafkaListener"@),
    ensures
        declares(
            java::java_found(t, path, repo_id, packages).nodes,
            t,
            i,
            path,
            repo_id,
            text::or(t.field_text(i, "name"@), "unknownMethod"@),
            NodeKind::ServiceClass,
        ),
{
    lemma_route_annotations();
    lemma_method_kind();
    let s = java::method_annotations(t, i);
    assert forall|k: int| 0 <= k <= 16 implies !has_word(s, #[trigger] route_annotation(k)) by {
        lemma_method_words(t, i, route_annotation(k));
    }
    lemma_method_words(t, i, "@KafkaListener"@);
    lemma_roles(s);
    lemma_java_declares(
        t,
        i,
        path,
        repo_id,
        packages,
        text::or(t.field_text(i, "name"@), "unknownMethod"@),
        NodeKind::ServiceClass,
    );
}

/// A method with a listener of Kafka among its modifiers is a topic, whatever else they hold.
pub proof fn law_listeners_are_topics(t: TreeView, i: int, path: Seq<char>, repo_id: RepoId, packages: PackagesView)
    requires
        syntax::nested(t),
        t.valid(i),
        syntax::level(t, i) <= 64,
        !text::unicode_alphanumeric(' '),
        t.kind(i) == "method_declaration"@,
        carries(t, i, "@KafkaListener"@),
    ensures
        exists|name: Seq<char>| #[trigger]
            declares(java::java_found(t, path, repo_id, packages).nodes, t, i, path, repo_id, name, NodeKind::KafkaTopic),
{
    lemma_route_annotations();
    lemma_method_kind();
    let j = choose|j: int| 0 <= j < t.children(i).len() && modifier_has(t, #[trigger] t.children(i)[j], "@KafkaListener"@);
    assert(is_modifier(t, t.children(i)[j]));
    lemma_method_words(t, i, "@KafkaListener"@);
    let s = java::method_annotations(t, i);
    lemma_roles(s);
    let name = text::or(java::listener_topic(s), text::or(t.field_text(i, "name"@), "unknownMethod"@));
    lemma_java_declares(t, i, path, repo_id, packages, name, NodeKind::KafkaTopic);
}

/// A class or interface is declared under its name: as a service of gRPC if `@GrpcService` stands
/// in its text, else as an interface or a class by its keyword.
pub proof fn law_classes_are_declared(
    t: TreeView,
    i: int,
    name: Seq<char>,
    s: Seq<char>,
    path: Seq<char>,
    repo_id: RepoId,
    packages: PackagesView,
)
    requires
        syntax::nested(t),
        t.valid(i),
        syntax::level(t, i) <= 64,
        t.kind(i) == "class_declaration"@ || t.kind(i) == "interface_declaration"@,
        t.field_text(i, "name"@) == Some(name),
        t.text(i) == Some(s),
    ensures
        declares(
            java::java_found(t, path, repo_id, packages).nodes,
            t,
            i,
            path,
            repo_id,
            name,
            if exists|p: int| 0 <= p <= s.len() - 12 && #[trigger] s.subrange(p, p + 12) == "@GrpcService"@ {
                NodeKind::GrpcService
            } else if t.kind(i) == "class_declaration"@ {
                NodeKind::ServiceClass
            } else {
                NodeKind::Interface
            },
        ),
{
    lemma_method_kind();
    reveal_strlit("@GrpcService");
    let grpc = exists|p: int| 0 <= p <= s.len() - 12 && #[trigger] s.subrange(p, p + 12) == "@GrpcService"@;
    text::law_find_is_first(s, "@GrpcService"@);
    if grpc {
        let p = choose|p: int| 0 <= p <= s.len() - 12 && #[trigger] s.subrange(p, p + 12) == "@GrpcService"@;
        assert(text::at(s, "@GrpcService"@, p));
    }
    if text::contains(s, "@GrpcService"@) {
        let p = text::find(s, "@GrpcService"@)->0;
        assert(s.subrange(p, p + 12) == "@GrpcService"@);
    }
    lemma_java_declares(
        t,
        i,
        path,
        repo_id,
        packages,
        name,
        if grpc {
            NodeKind::GrpcService
        } else if t.kind(i) == "class_declaration"@ {
            NodeKind::ServiceClass
        } else {
            NodeKind::Interface
        },
    );
}

/// An import `a.b.C` brings in itself and is looked for as `C`; an import `a.b.*` brings in `a.b`
/// and counts as used everywhere.
pub proof fn law_java_imports(s: Seq<char>, q: Seq<char>, name: Seq<char>)
    requires
        name.len() > 0,
        !name.contains('.'),
        name[0] != '*',
    ensures
        java::import_clause(s) == q + "."@ + name && !text::starts_with(q + "."@ + name, "static"@) ==> java::import_made(s) == Some(
            java::JavaImportView { symbol: name, target: q + "."@ + name, always: false },
        ),
        java::import_clause(s) == q + ".*"@ && !text::starts_with(q + ".*"@, "static"@) ==> (java::import_made(s) matches Some(m)
            && m.target == q && m.always),
{
    reveal_strlit(".");
    reveal_strlit(".*");
    let clause = q + "."@ + name;
    let k = q.len() as int;
    assert(q.push('.') + name == clause);
    crate::text_laws::law_rindex_is_last(clause, '.');
    assert(clause[k] == '.');
    assert(clause.contains('.'));
    let j = text::rindex(clause, '.')->0;
    if j > k {
        assert(name[j - k - 1] == '.');
    }
    assert(clause.skip(k + 1) == name);
    if text::ends_with(clause, ".*"@) {
        let n = clause.len() - 2;
        let u = clause.subrange(n, n + 2);
        assert(u[0] == '.' && u[1] == '*');
        assert(clause[n] == '.');
        if n > k {
            assert(name[n - k - 1] == '.');
        }
        assert(n == k);
        assert(name[0] == clause[k + 1]);
        assert(false);
    }
    let star = q + ".*"@;
    assert(star.subrange(star.len() - 2, star.len() as int) == ".*"@);
    assert(star.take(star.len() - 2) == q);
}

/// A declaration depends on exactly the imports that count as used everywhere or whose symbols
/// stand in it.
pub proof fn law_java_links_follow_use(
    ls: Seq<Seq<char>>,
    n: ContractNodeView,
    k: int,
    imports: Seq<java::JavaImportView>,
    target: Seq<char>,
)
    ensures
        java::node_links(ls, n, k, imports).contains((k, target)) <==> walk_laws::any(
            imports,
            |m: java::JavaImportView| m.target == target && (m.always || common::stands_in(ls, n, m.symbol)),
        ),
    decreases imports.len(),
{
    let is = |m: java::JavaImportView| m.target == target && (m.always || common::stands_in(ls, n, m.symbol));
    let all = java::node_links(ls, n, k, imports);
    if imports.len() > 0 {
        let front = imports.drop_last();
        law_java_links_follow_use(ls, n, k, front, target);
        let rest = java::node_links(ls, n, k, front);
        if all.contains((k, target)) {
            let x = choose|x: int| 0 <= x < all.len() && all[x] == (k, target);
            if x < rest.len() {
                assert(rest[x] == (k, target));
                let j = choose|j: int| 0 <= j < front.len() && is(#[trigger] front[j]);
                assert(is(imports[j]));
            } else {
                assert(is(imports[imports.len() - 1]));
            }
        }
        if walk_laws::any(imports, is) {
            let j = choose|j: int| 0 <= j < imports.len() && is(#[trigger] imports[j]);
            if j < front.len() {
                assert(is(front[j]));
                let x = choose|x: int| 0 <= x < rest.len() && rest[x] == (k, target);
                assert(all[x] == (k, target));
            } else {
                assert(all[rest.len() as int] == (k, target));
            }
        }
    }
}

/// What is sent goes to the topic that the first argument names.
pub proof fn law_java_sent_topics(s: Seq<char>, start: int, end: int, topic: Seq<char>, more: Seq<char>)
    requires
        text::closing(s, '(', ')', start, 1) == Some(end),
        s.subrange(start, end) == "\""@ + topic + "\""@ + more,
        !topic.contains('"'),
    ensures
        java::sent_topic(s, start) == Some(topic),
{
    reveal_strlit("\"");
    let args = "\""@ + topic + "\""@ + more;
    assert(args[0] == '"');
    crate::text_laws::law_white_space_is_unicodes('"');
    assert(text::trim_front(args, text::WHITE_SPACE@) == args);
    let inner = args.skip(1);
    assert(inner == topic + "\""@ + more);
    assert(inner.take(topic.len() as int) == topic);
    crate::text_laws::lemma_index_at(inner, '"', topic.len() as int);
}

/// An import is told by what stands between the word and the semicolon.
pub proof fn law_java_clauses(c: Seq<char>)
    requires
        c.len() > 0,
        text::trim(c) == c,
        c[0] != ';',
        c.last() != ';',
    ensures
        java::import_clause("import "@ + c + ";"@) == c,
{
    reveal_strlit("import ");
    reveal_strlit("import");
    reveal_strlit(";");
    reveal_strlit(" ");
    let s = "import "@ + c + ";"@;
    let rest = " "@ + c + ";"@;
    assert(s == "import"@ + rest);
    walk_laws::law_starts_and_endings(rest, "import"@);
    assert(s.skip(6) == rest);
    walk_laws::lemma_starts(rest, "import"@);
    if text::starts_with(rest, "import"@) {
        let b = choose|b: Seq<char>| rest == #[trigger] ("import"@ + b);
        assert(rest[0] == ("import"@)[0]);
    }
    assert(text::strip_repeated(rest, "import"@) == rest);
    assert(text::strip_repeated(s, "import"@) == rest);
    lemma_semicolon_is_taken(c);
    crate::text_laws::law_white_space_is_unicodes(' ');
    assert((" "@)[0] == ' ');
    let inner = c + ";"@;
    assert(rest == " "@ + inner + Seq::<char>::empty());
    text::law_trimming_ignores_white_space(" "@, inner, Seq::empty());
}

proof fn lemma_semicolon_is_taken(c: Seq<char>)
    requires
        c.len() > 0,
        text::trim(c) == c,
        c[0] != ';',
        c.last() != ';',
    ensures
        text::trim_back(c + ";"@, ";"@) == c,
        text::trim(c + ";"@) == c + ";"@,
{
    reveal_strlit(";");
    assert(";"@ == seq![';']);
    assert((";"@)[0] == ';');
    crate::text_laws::lemma_marks_are_taken(c, ';', ";"@);
    crate::text_laws::law_trimming_takes_ends(c, text::WHITE_SPACE@);
    crate::text_laws::law_white_space_is_unicodes(';');
    let s = c + ";"@;
    assert(s[0] == c[0]);
    assert(s.last() == ';');
    assert(text::trim_front(s, text::WHITE_SPACE@) == s);
}

/// A file belongs to the package that it declares.
pub proof fn law_java_packages(t: TreeView, i: int, p: Seq<char>, path: Seq<char>, repo_id: RepoId, packages: PackagesView, o: JavaFoundView)
    requires
        t.kind(i) == "package_declaration"@,
        t.text(i) == Some("package "@ + p + ";"@),
        p.len() > 0,
        text::trim(p) == p,
        p[0] != ';',
        p.last() != ';',
        !p.contains(' '),
    ensures
        java::java_step(t, i, path, repo_id, packages, o).package == packages.package_for(p),
        java::java_step(t, i, path, repo_id, packages, o).nodes == o.nodes,
{
    reveal_strlit("package ");
    reveal_strlit(";");
    let rest = p + ";"@;
    let s = "package "@ + p + ";"@;
    assert(s == "package "@ + rest);
    walk_laws::law_starts_and_endings(rest, "package "@);
    assert(s.skip(8) == rest);
    walk_laws::lemma_starts(rest, "package "@);
    if text::starts_with(rest, "package "@) {
        let b = choose|b: Seq<char>| rest == #[trigger] ("package "@ + b);
        assert(rest[7] == ("package "@)[7]);
        assert(rest[7] == ' ');
        if 7 < p.len() {
            assert(p[7] == ' ');
        }
    }
    assert(text::strip_repeated(s, "package "@) == text::strip_repeated(rest, "package "@));
    lemma_semicolon_is_taken(p);
}

} // verus!
