//! What holds of the declarations that are found in Kotlin files.
use vstd::prelude::*;
use crate::languages::common::TopicCallView;
use crate::languages::kotlin;
use crate::languages::kotlin::{KotlinFile, KotlinFoundView, KotlinRules};
use crate::languages::walk_laws;
use crate::languages::walk_laws::{declares, has_text, is_declared, reports_call, within_reach};
use crate::model::{ContractNodeView, NodeKind, PackagesView, RepoId};
use crate::syntax;
use crate::syntax::TreeView;
use crate::text;
use crate::text_laws;

verus! {

/// Whether the modifiers of a declaration are a certain text; of one without any, nothing.
pub open spec fn are_modifiers(t: TreeView, i: int, s: Seq<char>) -> bool {
    match t.child_of_kind(i, "modifiers"@) {
        Some(m) => t.text(m) == Some(s),
        None => s.len() == 0,
    }
}

/// Whether a function is annotated with a route.
pub open spec fn is_routed(s: Seq<char>) -> bool {
    has_text(s, "@GetMapping"@) || has_text(s, "@PostMapping"@) || has_text(s, "@PutMapping"@) || has_text(s, "@DeleteMapping"@)
        || has_text(s, "@RequestMapping"@)
}

proof fn lemma_kinds()
    ensures
        "package_header"@ != "class_declaration"@,
        "package_header"@ != "object_declaration"@,
        "package_header"@ != "function_declaration"@,
        "package_header"@ != "call_expression"@,
        "class_declaration"@ != "object_declaration"@,
        "class_declaration"@ != "function_declaration"@,
        "class_declaration"@ != "call_expression"@,
        "object_declaration"@ != "function_declaration"@,
        "object_declaration"@ != "call_expression"@,
        "function_declaration"@ != "call_expression"@,
{
    reveal_strlit("package_header");
    reveal_strlit("class_declaration");
    reveal_strlit("object_declaration");
    reveal_strlit("function_declaration");
    reveal_strlit("call_expression");
    assert("package_header"@.len() != "class_declaration"@.len());
    assert("package_header"@.len() != "object_declaration"@.len());
    assert("package_header"@.len() != "function_declaration"@.len());
    assert("package_header"@.len() != "call_expression"@.len());
    assert("class_declaration"@.len() != "object_declaration"@.len());
    assert("class_declaration"@.len() != "function_declaration"@.len());
    assert("class_declaration"@.len() != "call_expression"@.len());
    assert("object_declaration"@.len() != "function_declaration"@.len());
    assert("object_declaration"@.len() != "call_expression"@.len());
    assert("function_declaration"@.len() != "call_expression"@.len());
}

proof fn lemma_kotlin_declares(
    t: TreeView,
    i: int,
    path: Seq<char>,
    repo_id: RepoId,
    packages: PackagesView,
    name: Seq<char>,
    kind: NodeKind,
)
    requires
        within_reach(t, i),
        t.kind(i) == "class_declaration"@ || t.kind(i) == "object_declaration"@ || t.kind(i) == "function_declaration"@,
        t.field_text(i, "name"@) is Some,
        kotlin::kotlin_role(t, i, t.field_text(i, "name"@)->0) == (kind, name),
    ensures
        declares(kotlin::kotlin_found(t, path, repo_id, packages).nodes, t, i, path, repo_id, name, kind),
{
    lemma_kinds();
    let r = KotlinFile { path, repo_id, packages, defaults: kotlin::string_defaults(t) };
    let nodes = |o: KotlinFoundView| o.nodes;
    let is = |n: ContractNodeView| is_declared(n, t, i, path, repo_id, name, kind);
    let start = KotlinFoundView { package: packages.file, nodes: Seq::empty(), calls: Seq::empty() };
    assert forall|parent: Option<int>, c: (), o: KotlinFoundView|
        walk_laws::any(nodes((#[trigger] <KotlinRules as syntax::TreeRules>::on_node(r, t, parent, i, c, o)).0), is) by {
        let after = kotlin::kotlin_step(r, t, i, o).nodes;
        assert(is(after[after.len() - 1]));
    }
    walk_laws::lemma_walk_gathers::<KotlinRules, ContractNodeView>(r, t, 64, (), start, i, nodes, is);
}

/// A function annotated with `@GetMapping`, `@PostMapping`, `@PutMapping`, `@DeleteMapping` or
/// `@RequestMapping` is an HTTP endpoint, one with `@KafkaListener` a topic instead, and any other
/// a class member.
pub proof fn law_functions_are_declared(
    t: TreeView,
    i: int,
    name: Seq<char>,
    s: Seq<char>,
    path: Seq<char>,
    repo_id: RepoId,
    packages: PackagesView,
)
    requires
        within_reach(t, i),
        t.kind(i) == "function_declaration"@,
        t.field_text(i, "name"@) == Some(name),
        are_modifiers(t, i, s),
    ensures
        ({
            let nodes = kotlin::kotlin_found(t, path, repo_id, packages).nodes;
            &&& has_text(s, "@KafkaListener"@) ==> exists|topic: Seq<char>| #[trigger]
                declares(nodes, t, i, path, repo_id, topic, NodeKind::KafkaTopic)
            &&& !has_text(s, "@KafkaListener"@) && is_routed(s) ==> declares(nodes, t, i, path, repo_id, name, NodeKind::HttpEndpoint)
            &&& !has_text(s, "@KafkaListener"@) && !is_routed(s) ==> declares(
                nodes,
                t,
                i,
                path,
                repo_id,
                name,
                NodeKind::ServiceClass,
            )
        }),
{
    lemma_kinds();
    reveal_strlit("");
    assert(kotlin::modifiers(t, i) == s);
    walk_laws::law_texts_are_found(s, "@KafkaListener"@);
    walk_laws::law_texts_are_found(s, "@GetMapping"@);
    walk_laws::law_texts_are_found(s, "@PostMapping"@);
    walk_laws::law_texts_are_found(s, "@PutMapping"@);
    walk_laws::law_texts_are_found(s, "@DeleteMapping"@);
    walk_laws::law_texts_are_found(s, "@RequestMapping"@);
    let (kind, shown) = kotlin::kotlin_role(t, i, name);
    lemma_kotlin_declares(t, i, path, repo_id, packages, shown, kind);
}

/// A listener is named after the first text in double quotes behind `topics`.
pub proof fn law_listeners_are_named_after_their_topics(
    t: TreeView,
    i: int,
    a: Seq<char>,
    b: Seq<char>,
    topic: Seq<char>,
    c: Seq<char>,
    path: Seq<char>,
    repo_id: RepoId,
    packages: PackagesView,
)
    requires
        within_reach(t, i),
        t.kind(i) == "function_declaration"@,
        t.field_text(i, "name"@) is Some,
        has_text(a, "@KafkaListener"@),
        forall|k: int| k < a.len() ==> !text::at(a + "topics"@ + b, "topics"@, k),
        !b.contains('"'),
        !topic.contains('"'),
        are_modifiers(t, i, a + "topics"@ + b + "\""@ + topic + "\""@ + c),
    ensures
        declares(kotlin::kotlin_found(t, path, repo_id, packages).nodes, t, i, path, repo_id, topic, NodeKind::KafkaTopic),
{
    lemma_kinds();
    reveal_strlit("");
    reveal_strlit("topics");
    reveal_strlit("\"");
    let tail = "\""@ + topic + "\""@ + c;
    let s = a + "topics"@ + b + "\""@ + topic + "\""@ + c;
    let n = a.len() as int;
    assert(kotlin::modifiers(t, i) == s);
    walk_laws::law_texts_are_found(a, "@KafkaListener"@);
    walk_laws::law_texts_are_found(s, "@KafkaListener"@);
    let (x, y) = choose|x: Seq<char>, y: Seq<char>| a == #[trigger] (x + "@KafkaListener"@ + y);
    assert(s == x + "@KafkaListener"@ + (y + "topics"@ + b + tail));
    text::law_find_is_first(s, "topics"@);
    assert(s.subrange(n, n + 6) == "topics"@);
    assert(text::at(s, "topics"@, n));
    let k = text::find(s, "topics"@)->0;
    if k < n {
        let front = a + "topics"@ + b;
        assert(front.subrange(k, k + 6) == s.subrange(k, k + 6));
        assert(text::at(front, "topics"@, k));
    }
    assert(k == n);
    let rest = s.skip(n + 6);
    assert(rest == b + tail);
    assert(rest.take(b.len() as int) == b);
    text_laws::lemma_index_at(rest, '"', b.len() as int);
    let behind = rest.skip((b.len() + 1) as int);
    assert(behind == topic + "\""@ + c);
    assert(behind.take(topic.len() as int) == topic);
    text_laws::lemma_index_at(behind, '"', topic.len() as int);
    lemma_kotlin_declares(t, i, path, repo_id, packages, topic, NodeKind::KafkaTopic);
}

/// An object is declared as a class; a class as an interface if it has that keyword, else as a
/// service of gRPC if it is annotated with `@GrpcService`, else as a class.
pub proof fn law_classes_are_declared(
    t: TreeView,
    i: int,
    name: Seq<char>,
    s: Seq<char>,
    path: Seq<char>,
    repo_id: RepoId,
    packages: PackagesView,
)
    requires
        within_reach(t, i),
        t.kind(i) == "class_declaration"@ || t.kind(i) == "object_declaration"@,
        t.field_text(i, "name"@) == Some(name),
        are_modifiers(t, i, s),
    ensures
        ({
            let nodes = kotlin::kotlin_found(t, path, repo_id, packages).nodes;
            let is_class = t.kind(i) == "class_declaration"@;
            let is_interface = t.child_of_kind(i, "interface"@) is Some;
            &&& is_class && is_interface ==> declares(nodes, t, i, path, repo_id, name, NodeKind::Interface)
            &&& is_class && !is_interface && has_text(s, "@GrpcService"@) ==> declares(
                nodes,
                t,
                i,
                path,
                repo_id,
                name,
                NodeKind::GrpcService,
            )
            &&& is_class && !is_interface && !has_text(s, "@GrpcService"@) ==> declares(
                nodes,
                t,
                i,
                path,
                repo_id,
                name,
                NodeKind::ServiceClass,
            )
            &&& !is_class ==> declares(nodes, t, i, path, repo_id, name, NodeKind::ServiceClass)
        }),
{
    lemma_kinds();
    reveal_strlit("");
    assert(kotlin::modifiers(t, i) == s);
    walk_laws::law_texts_are_found(s, "@GrpcService"@);
    let (kind, shown) = kotlin::kotlin_role(t, i, name);
    lemma_kotlin_declares(t, i, path, repo_id, packages, shown, kind);
}

/// A call of a method `send` or `produce` with a literal in first place produces to the topic that
/// the literal names, and one of `subscribe` consumes from it, unless a constant of that name
/// stands for another topic.
pub proof fn law_topic_calls_are_found(
    t: TreeView,
    i: int,
    f: int,
    n: int,
    args: int,
    word: Seq<char>,
    topic: Seq<char>,
    path: Seq<char>,
    repo_id: RepoId,
    packages: PackagesView,
)
    requires
        within_reach(t, i),
        t.kind(i) == "call_expression"@,
        t.named_child(i, 0) == Some(f),
        t.kind(f) == "navigation_expression"@,
        t.named_child(f, 1) == Some(n),
        t.text(n) == Some(word),
        word == "send"@ || word == "produce"@ || word == "subscribe"@,
        t.named_child(i, 1) == Some(args),
        kotlin::topic_argument(t, args) == Some(topic),
        !kotlin::string_defaults(t).dom().contains(topic),
    ensures
        reports_call(kotlin::kotlin_found(t, path, repo_id, packages).calls, t, i, topic, word != "subscribe"@),
{
    lemma_kinds();
    lemma_words();
    let r = KotlinFile { path, repo_id, packages, defaults: kotlin::string_defaults(t) };
    let calls = |o: KotlinFoundView| o.calls;
    let is = |c: TopicCallView|
        c.line_start == t.line(i) && c.line_end == t.end_line(i) && c.topic == topic && c.is_producer == (word != "subscribe"@);
    let start = KotlinFoundView { package: packages.file, nodes: Seq::empty(), calls: Seq::empty() };
    assert forall|parent: Option<int>, c: (), o: KotlinFoundView|
        walk_laws::any(calls((#[trigger] <KotlinRules as syntax::TreeRules>::on_node(r, t, parent, i, c, o)).0), is) by {
        let after = kotlin::kotlin_step(r, t, i, o).calls;
        assert(is(after[after.len() - 1]));
    }
    walk_laws::lemma_walk_gathers::<KotlinRules, TopicCallView>(r, t, 64, (), start, i, calls, is);
}

proof fn lemma_words()
    ensures
        "send"@ != "produce"@,
        "send"@ != "subscribe"@,
        "produce"@ != "subscribe"@,
{
    reveal_strlit("send");
    reveal_strlit("produce");
    reveal_strlit("subscribe");
    assert("send"@.len() != "produce"@.len());
    assert("send"@.len() != "subscribe"@.len());
    assert("produce"@.len() != "subscribe"@.len());
}

/// What an annotation gives for a parameter is the first text in double quotes behind its name.
pub proof fn law_kotlin_annotation_values(a: Seq<char>, param: Seq<char>, m: Seq<char>, x: Seq<char>, b: Seq<char>)
    requires
        text::find(a + param + m + "\""@ + x + "\""@ + b, param) == Some(a.len() as int),
        !m.contains('"'),
        !x.contains('"'),
    ensures
        kotlin::annotation_param(a + param + m + "\""@ + x + "\""@ + b, param) == x,
{
    reveal_strlit("\"");
    let s = a + param + m + "\""@ + x + "\""@ + b;
    let rest = s.skip((a.len() + param.len()) as int);
    assert(rest == m + "\""@ + x + "\""@ + b);
    assert(rest.take(m.len() as int) == m);
    assert(rest[m.len() as int] == '"');
    crate::text_laws::lemma_index_at(rest, '"', m.len() as int);
    let inner = rest.skip(m.len() as int + 1);
    assert(inner == x + "\""@ + b);
    assert(inner.take(x.len() as int) == x);
    crate::text_laws::lemma_index_at(inner, '"', x.len() as int);
}

} // verus!
