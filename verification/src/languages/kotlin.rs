//! Kotlin classes, annotated functions and Kafka topics.
use vstd::prelude::*;
use crate::guard::AstGuard;
use crate::languages::common;
use crate::languages::common::{TopicCall, TopicCallView};
use crate::model;
use crate::model::{ContractNode, ContractNodeView, NameList, NodeKind, PackagesView, RepoId, ServicePackages, TextMap};
use crate::syntax;
use crate::syntax::{SyntaxTree, TreeRules, TreeView};
use crate::text;

verus! {

/// The topics that declarations produce and consume through `kafka-clients`.
#[derive(Debug)]
pub struct KotlinRelations {
    pub producers: Vec<(usize, String)>,
    pub consumers: Vec<(usize, String)>,
}

impl Default for KotlinRelations {
    fn default() -> (r: KotlinRelations)
        ensures
            r.producers@.len() == 0,
            r.consumers@.len() == 0,
    {
        KotlinRelations { producers: Vec::new(), consumers: Vec::new() }
    }
}

/// Kotlin extractor.
pub struct KotlinExtractor;

/// The name that a property declaration gives to a value.
pub open spec fn property_name(t: TreeView, i: int) -> Option<Seq<char>> {
    match t.named_child(i, 0) {
        Some(v) => if t.kind(v) == "variable_declaration"@ {
            match t.named_child(v, 0) {
                Some(k) => t.text(k),
                None => None,
            }
        } else {
            None
        },
        None => None,
    }
}

/// The string literal on the right of a property's initial value.
pub open spec fn property_default(t: TreeView, i: int) -> Option<Seq<char>> {
    match t.child_of_kind(i, "binary_expression"@) {
        Some(b) => match t.field(b, "right"@) {
            Some(k) => if t.kind(k) == "string_literal"@ {
                t.text(k)
            } else {
                None
            },
            None => None,
        },
        None => None,
    }
}

/// The defaults of string properties after node `i`.
pub open spec fn default_step(t: TreeView, i: int, o: Map<Seq<char>, Seq<char>>) -> Map<Seq<char>, Seq<char>> {
    if t.kind(i) == "property_declaration"@ {
        match (property_name(t, i), property_default(t, i)) {
            (Some(name), Some(value)) => {
                let bare = text::trim_set(value, "\""@);
                if bare.len() > 0 {
                    o.insert(name, bare)
                } else {
                    o
                }
            },
            _ => o,
        }
    } else {
        o
    }
}

/// A walk that gathers properties with an elvis expression that ends in a string literal,
/// such as `val topic = System.getenv("TOPIC") ?: "orders"`.
pub struct DefaultRules;

impl View for DefaultRules {
    type V = ();

    open spec fn view(&self) -> () {
        ()
    }
}

impl TreeRules for DefaultRules {
    type Context = ();

    type Output = TextMap;

    open spec fn on_node(
        rules: (),
        t: TreeView,
        parent: Option<int>,
        i: int,
        c: (),
        o: Map<Seq<char>, Seq<char>>,
    ) -> (Map<Seq<char>, Seq<char>>, Option<()>) {
        (default_step(t, i, o), Some(()))
    }

    fn visit(&self, t: &SyntaxTree, parent: Option<usize>, i: usize, c: &(), o: &mut TextMap) -> (r: Option<()>) {
        if t.kind_is(i, "property_declaration") {
            match (KotlinExtractor::name_of_property(t, i), KotlinExtractor::default_of_property(t, i)) {
                (Some(name), Some(value)) => {
                    let bare = text::trimmed_of(value, "\"");
                    if bare.len() > 0 {
                        o.insert(text::string_of(name), text::string_of(bare));
                    }
                },
                _ => {},
            }
        }
        Some(())
    }
}

/// The defaults of the string properties of a file.
pub open spec fn string_defaults(t: TreeView) -> Map<Seq<char>, Seq<char>> {
    syntax::walk_tree::<DefaultRules>((), t, AstGuard::MAX_NESTING_DEPTH as int, (), Map::empty())
}

/// A walk that gathers the texts of the named nodes of one kind, without going into them.
pub struct KindRules<'a> {
    pub kind: &'a str,
}

impl<'a> View for KindRules<'a> {
    type V = Seq<char>;

    open spec fn view(&self) -> Seq<char> {
        self.kind@
    }
}

impl<'a> TreeRules for KindRules<'a> {
    type Context = ();

    type Output = NameList;

    open spec fn on_node(
        rules: Seq<char>,
        t: TreeView,
        parent: Option<int>,
        i: int,
        c: (),
        o: Seq<Seq<char>>,
    ) -> (Seq<Seq<char>>, Option<()>) {
        if parent is Some && !t.named(i) {
            (o, None)
        } else if t.kind(i) == rules {
            (model::with(o, t.text(i)), None)
        } else {
            (o, Some(()))
        }
    }

    fn visit(&self, t: &SyntaxTree, parent: Option<usize>, i: usize, c: &(), o: &mut NameList) -> (r: Option<()>) {
        if parent.is_some() && !t.named(i) {
            None
        } else if t.kind_is(i, self.kind) {
            let found = match t.text(i) {
                Some(s) => Some(text::string_of(s)),
                None => None,
            };
            o.add(found);
            None
        } else {
            Some(())
        }
    }
}

/// The texts of the nodes of one kind in and under node `i`.
pub open spec fn texts_of_kind(t: TreeView, i: int, kind: Seq<char>) -> Seq<Seq<char>> {
    syntax::walk_node::<KindRules>(kind, t, i, AstGuard::MAX_NESTING_DEPTH as int, (), Seq::empty())
}

/// The topic among the arguments under node `i`: the first string literal, unless that is
/// empty, or else the first identifier.
pub open spec fn topic_argument(t: TreeView, i: int) -> Option<Seq<char>> {
    let literals = texts_of_kind(t, i, "string_literal"@);
    let names = texts_of_kind(t, i, "identifier"@);
    if literals.len() > 0 && text::trim_set(literals[0], "\""@).len() > 0 {
        Some(text::trim_set(literals[0], "\""@))
    } else if names.len() > 0 {
        Some(names[0])
    } else {
        None
    }
}

/// The name of the method that node `i` calls.
pub open spec fn called_method(t: TreeView, i: int) -> Option<Seq<char>> {
    match t.named_child(i, 0) {
        Some(f) => if t.kind(f) == "navigation_expression"@ {
            match t.named_child(f, 1) {
                Some(n) => t.text(n),
                None => None,
            }
        } else {
            None
        },
        None => None,
    }
}

/// Whether a method produces to a topic, or subscribes to one.
pub open spec fn topic_role(method: Option<Seq<char>>) -> Option<bool> {
    if method == Some("send"@) || method == Some("produce"@) {
        Some(true)
    } else if method == Some("subscribe"@) {
        Some(false)
    } else {
        None
    }
}

/// The call on a topic that node `i` makes.
pub open spec fn topic_call(t: TreeView, i: int, defaults: Map<Seq<char>, Seq<char>>) -> Option<TopicCallView> {
    match (topic_role(called_method(t, i)), t.named_child(i, 1)) {
        (Some(is_producer), Some(args)) => match topic_argument(t, args) {
            Some(topic) => Some(
                TopicCallView {
                    line_start: t.line(i),
                    line_end: t.end_line(i),
                    topic: text::or(model::lookup(defaults, topic), topic),
                    is_producer,
                },
            ),
            None => None,
        },
        _ => None,
    }
}

/// The value of a parameter in the text of annotations.
pub open spec fn annotation_param(s: Seq<char>, param: Seq<char>) -> Seq<char> {
    match text::find(s, param) {
        Some(k) => {
            let rest = s.skip(k + param.len());
            match text::index(rest, '"') {
                Some(a) => match text::index(rest.skip(a + 1), '"') {
                    Some(b) => rest.skip(a + 1).take(b),
                    None => "unknown.topic"@,
                },
                None => "unknown.topic"@,
            }
        },
        None => "unknown.topic"@,
    }
}

/// The text of the modifiers of node `i`.
pub open spec fn modifiers(t: TreeView, i: int) -> Seq<char> {
    match t.child_of_kind(i, "modifiers"@) {
        Some(k) => text::or(t.text(k), ""@),
        None => ""@,
    }
}

/// Whether modifiers declare an HTTP route.
pub open spec fn declares_route(s: Seq<char>) -> bool {
    ||| text::contains(s, "@GetMapping"@)
    ||| text::contains(s, "@PostMapping"@)
    ||| text::contains(s, "@PutMapping"@)
    ||| text::contains(s, "@DeleteMapping"@)
    ||| text::contains(s, "@RequestMapping"@)
}

/// The package that a header names.
pub open spec fn package_of(t: TreeView, ks: Seq<int>) -> Option<Seq<char>>
    decreases ks.len(),
{
    if ks.len() == 0 {
        None
    } else if t.kind(ks[0]) == "qualified_identifier"@ || t.kind(ks[0]) == "identifier"@ {
        t.text(ks[0])
    } else {
        package_of(t, ks.drop_first())
    }
}

/// What a declaration at node `i` is, and what it is called: its name, unless it listens to
/// a Kafka topic.
pub open spec fn kotlin_role(t: TreeView, i: int, name: Seq<char>) -> (NodeKind, Seq<char>) {
    let m = modifiers(t, i);
    if t.kind(i) == "class_declaration"@ {
        if t.child_of_kind(i, "interface"@) is Some {
            (NodeKind::Interface, name)
        } else if text::contains(m, "@GrpcService"@) {
            (NodeKind::GrpcService, name)
        } else {
            (NodeKind::ServiceClass, name)
        }
    } else if t.kind(i) == "object_declaration"@ {
        (NodeKind::ServiceClass, name)
    } else if text::contains(m, "@KafkaListener"@) {
        (NodeKind::KafkaTopic, annotation_param(m, "topics"@))
    } else if declares_route(m) {
        (NodeKind::HttpEndpoint, name)
    } else {
        (NodeKind::ServiceClass, name)
    }
}

/// The declaration that node `i` makes.
pub open spec fn kotlin_node(t: TreeView, i: int, path: Seq<char>, repo_id: RepoId, package: Seq<char>) -> Option<ContractNodeView> {
    match t.field_text(i, "name"@) {
        Some(name) => {
            let (kind, shown) = kotlin_role(t, i, name);
            Some(model::declared(t, i, path, repo_id, package, shown, kind, text::or(t.head(i), name)))
        },
        None => None,
    }
}

/// What a walk over a Kotlin file gathers.
pub struct KotlinFound {
    pub package: String,
    pub nodes: Vec<ContractNode>,
    pub calls: Vec<TopicCall>,
}

/// What a walk over a Kotlin file gathers, as a mathematical value.
#[verifier::ext_equal]
pub struct KotlinFoundView {
    pub package: Seq<char>,
    pub nodes: Seq<ContractNodeView>,
    pub calls: Seq<TopicCallView>,
}

impl View for KotlinFound {
    type V = KotlinFoundView;

    open spec fn view(&self) -> KotlinFoundView {
        KotlinFoundView {
            package: self.package@,
            nodes: model::nodes_view(self.nodes@),
            calls: common::calls_view(self.calls@),
        }
    }
}

/// What a walk over a Kotlin file knows of it.
#[verifier::ext_equal]
pub struct KotlinFile {
    pub path: Seq<char>,
    pub repo_id: RepoId,
    pub packages: PackagesView,
    pub defaults: Map<Seq<char>, Seq<char>>,
}

/// What a walk has gathered after node `i`.
pub open spec fn kotlin_step(f: KotlinFile, t: TreeView, i: int, o: KotlinFoundView) -> KotlinFoundView {
    let k = t.kind(i);
    if k == "package_header"@ {
        KotlinFoundView { package: f.packages.package_after(package_of(t, t.children(i)), o.package), ..o }
    } else if k == "class_declaration"@ || k == "object_declaration"@ || k == "function_declaration"@ {
        KotlinFoundView { nodes: model::with(o.nodes, kotlin_node(t, i, f.path, f.repo_id, o.package)), ..o }
    } else if k == "call_expression"@ {
        KotlinFoundView { calls: model::with(o.calls, topic_call(t, i, f.defaults)), ..o }
    } else {
        o
    }
}

/// What a walk over a Kotlin file does at each node.
pub struct KotlinRules<'a> {
    pub path: &'a str,
    pub repo_id: RepoId,
    pub packages: &'a ServicePackages,
    pub defaults: &'a TextMap,
}

impl<'a> View for KotlinRules<'a> {
    type V = KotlinFile;

    open spec fn view(&self) -> KotlinFile {
        KotlinFile { path: self.path@, repo_id: self.repo_id, packages: self.packages@, defaults: self.defaults@ }
    }
}

impl<'a> TreeRules for KotlinRules<'a> {
    type Context = ();

    type Output = KotlinFound;

    open spec fn on_node(
        rules: KotlinFile,
        t: TreeView,
        parent: Option<int>,
        i: int,
        c: (),
        o: KotlinFoundView,
    ) -> (KotlinFoundView, Option<()>) {
        (kotlin_step(rules, t, i, o), Some(()))
    }

    fn visit(&self, t: &SyntaxTree, parent: Option<usize>, i: usize, c: &(), o: &mut KotlinFound) -> (r: Option<()>) {
        self.visit_node(t, i, o);
        Some(())
    }
}

/// What the walk over a file gathers.
pub open spec fn kotlin_found(t: TreeView, path: Seq<char>, repo_id: RepoId, packages: PackagesView) -> KotlinFoundView {
    syntax::walk_tree::<KotlinRules>(
        KotlinFile { path, repo_id, packages, defaults: string_defaults(t) },
        t,
        AstGuard::MAX_NESTING_DEPTH as int,
        (),
        KotlinFoundView { package: packages.file, nodes: Seq::empty(), calls: Seq::empty() },
    )
}

/// Whether declarations and relations are those of a file.
pub open spec fn is_kotlin_result(r: (Vec<ContractNode>, KotlinRelations), t: TreeView, path: Seq<char>, repo_id: RepoId, packages: PackagesView) -> bool {
    let found = kotlin_found(t, path, repo_id, packages);
    &&& model::nodes_view(r.0@) == found.nodes
    &&& model::links_view(r.1.producers@) == common::attributed(found.nodes, found.calls, true)
    &&& model::links_view(r.1.consumers@) == common::attributed(found.nodes, found.calls, false)
}

impl<'a> KotlinRules<'a> {
    /// Takes in node `i`.
    fn visit_node(&self, t: &SyntaxTree, i: usize, o: &mut KotlinFound)
        requires
            t@.valid(i as int),
        ensures
            final(o)@ == kotlin_step(self@, t@, i as int, old(o)@),
    {
        if t.kind_is(i, "package_header") {
            match KotlinExtractor::package_named(t, i) {
                Some(p) => {
                    let name = text::chars_of(p.as_str());
                    o.package = self.packages.package_for(name.as_slice());
                },
                None => {},
            }
        } else if t.kind_is(i, "class_declaration") || t.kind_is(i, "object_declaration") || t.kind_is(i, "function_declaration") {
            match KotlinExtractor::node(t, i, self.path, self.repo_id, o.package.as_str()) {
                Some(n) => model::push_node(&mut o.nodes, n),
                None => {},
            }
        } else if t.kind_is(i, "call_expression") {
            match KotlinExtractor::call(t, i, self.defaults) {
                Some(c) => common::push_call(&mut o.calls, c),
                None => {},
            }
        }
    }
}

/// Every declaration of a file carries the file's path and its repository and has no number
/// yet, and its package is the file's or stands for a name that is declared.
pub proof fn law_kotlin_nodes_belong(t: TreeView, path: Seq<char>, repo_id: RepoId, packages: PackagesView)
    ensures
        model::belong_among(kotlin_found(t, path, repo_id, packages).nodes, path, repo_id, packages, packages.file),
{
    let rules = KotlinFile { path, repo_id, packages, defaults: string_defaults(t) };
    let holds = |c: (), o: KotlinFoundView|
        model::belong_among(o.nodes, path, repo_id, packages, packages.file) && packages.gives(o.package, packages.file);
    assert(syntax::keeps::<KotlinRules>(rules, t, holds));
    syntax::lemma_walk_keeps::<KotlinRules>(
        rules,
        t,
        None,
        0,
        t.rows.len() as int,
        0,
        AstGuard::MAX_NESTING_DEPTH as int,
        (),
        (),
        KotlinFoundView { package: packages.file, nodes: Seq::empty(), calls: Seq::empty() },
        holds,
    );
}

impl KotlinExtractor {
    /// The declarations of a file.
    pub fn extract(file_path: &str, content: &str, repo_id: RepoId, packages: &ServicePackages, parser: &mut tree_sitter::Parser) -> (r: Vec<ContractNode>)
        ensures
            exists|done: bool|
                match #[trigger] syntax::outcome(*old(parser), content@, done) {
                    Some(t) => model::nodes_view(r@) == kotlin_found(t, file_path@, repo_id, packages@).nodes,
                    None => r@.len() == 0,
                },
    {
        Self::extract_with_relations(file_path, content, repo_id, packages, parser).0
    }

    /// The declarations of a file and the topics that they produce and consume through
    /// `kafka-clients`.
    pub fn extract_with_relations(
        file_path: &str,
        content: &str,
        repo_id: RepoId,
        packages: &ServicePackages,
        parser: &mut tree_sitter::Parser,
    ) -> (r: (Vec<ContractNode>, KotlinRelations))
        ensures
            exists|done: bool|
                match #[trigger] syntax::outcome(*old(parser), content@, done) {
                    Some(t) => is_kotlin_result(r, t, file_path@, repo_id, packages@),
                    None => r.0@.len() == 0 && r.1.producers@.len() == 0 && r.1.consumers@.len() == 0,
                },
    {
        match syntax::parse(parser, content) {
            Some(tree) => {
                let t = SyntaxTree::of(&tree, content);
                assert(syntax::outcome(*old(parser), content@, true) == Some(t@));
                Self::extract_tree(file_path, repo_id, packages, &t)
            },
            None => {
                assert(syntax::outcome(*old(parser), content@, false) is None);
                (Vec::new(), KotlinRelations::default())
            },
        }
    }

    /// The declarations of a syntax tree and the topics that they produce and consume.
    pub fn extract_tree(file_path: &str, repo_id: RepoId, packages: &ServicePackages, t: &SyntaxTree) -> (r: (Vec<ContractNode>, KotlinRelations))
        ensures
            is_kotlin_result(r, t@, file_path@, repo_id, packages@),
    {
        let mut defaults = TextMap::new();
        syntax::run_tree(&DefaultRules, t, AstGuard::MAX_NESTING_DEPTH, &(), &mut defaults);
        let rules = KotlinRules { path: file_path, repo_id, packages, defaults: &defaults };
        let mut found = KotlinFound { package: text::copy(packages.file.as_str()), nodes: Vec::new(), calls: Vec::new() };
        assert(found@ == (KotlinFoundView { package: packages@.file, nodes: Seq::empty(), calls: Seq::empty() }));
        syntax::run_tree(&rules, t, AstGuard::MAX_NESTING_DEPTH, &(), &mut found);
        let (producers, consumers) = common::attribute_calls(&found.nodes, &found.calls);
        (found.nodes, KotlinRelations { producers, consumers })
    }

    /// The name that a property declaration gives to a value.
    fn name_of_property<'a>(t: &'a SyntaxTree, i: usize) -> (r: Option<&'a [char]>)
        requires
            t@.valid(i as int),
        ensures
            text::opt_text(r) == property_name(t@, i as int),
    {
        match t.named_child(i, 0) {
            Some(v) => if t.kind_is(v, "variable_declaration") {
                match t.named_child(v, 0) {
                    Some(k) => t.text(k),
                    None => None,
                }
            } else {
                None
            },
            None => None,
        }
    }

    /// The string literal on the right of a property's initial value.
    fn default_of_property<'a>(t: &'a SyntaxTree, i: usize) -> (r: Option<&'a [char]>)
        requires
            t@.valid(i as int),
        ensures
            text::opt_text(r) == property_default(t@, i as int),
    {
        match t.child_of_kind(i, "binary_expression") {
            Some(b) => match t.field(b, "right") {
                Some(k) => if t.kind_is(k, "string_literal") {
                    t.text(k)
                } else {
                    None
                },
                None => None,
            },
            None => None,
        }
    }

    /// The first text of the nodes of one kind in and under node `i`.
    fn first_of_kind(t: &SyntaxTree, i: usize, kind: &str) -> (r: Option<Vec<char>>)
        requires
            t@.valid(i as int),
        ensures
            ({
                let all = texts_of_kind(t@, i as int, kind@);
                match r {
                    Some(s) => all.len() > 0 && s@ == all[0],
                    None => all.len() == 0,
                }
            }),
    {
        let rules = KindRules { kind };
        let mut found = NameList::new();
        syntax::run_node(&rules, t, i, AstGuard::MAX_NESTING_DEPTH, &(), &mut found);
        assert(found@.len() == found.items@.len());
        if found.items.len() > 0 {
            assert(found@[0] == found.items@[0]@);
            Some(text::chars_of(found.items[0].as_str()))
        } else {
            None
        }
    }

    /// The topic among the arguments under node `i`.
    fn find_topic_arg(t: &SyntaxTree, i: usize) -> (r: Option<String>)
        requires
            t@.valid(i as int),
        ensures
            text::opt_string(r) == topic_argument(t@, i as int),
    {
        match Self::first_of_kind(t, i, "string_literal") {
            Some(s) => {
                let bare = text::trimmed_of(s.as_slice(), "\"");
                if bare.len() > 0 {
                    return Some(text::string_of(bare));
                }
            },
            None => {},
        }
        match Self::first_of_kind(t, i, "identifier") {
            Some(s) => Some(text::string_of(s.as_slice())),
            None => None,
        }
    }

    /// Whether the method that node `i` calls produces to a topic, or subscribes to one.
    fn role_of_call(t: &SyntaxTree, i: usize) -> (r: Option<bool>)
        requires
            t@.valid(i as int),
        ensures
            r == topic_role(called_method(t@, i as int)),
    {
        let f = match t.named_child(i, 0) {
            Some(f) => f,
            None => return None,
        };
        if !t.kind_is(f, "navigation_expression") {
            return None;
        }
        let method = match t.named_child(f, 1) {
            Some(n) => match t.text(n) {
                Some(s) => s,
                None => return None,
            },
            None => return None,
        };
        if text::is(method, "send") || text::is(method, "produce") {
            Some(true)
        } else if text::is(method, "subscribe") {
            Some(false)
        } else {
            None
        }
    }

    /// The call on a topic that node `i` makes.
    fn call(t: &SyntaxTree, i: usize, defaults: &TextMap) -> (r: Option<TopicCall>)
        requires
            t@.valid(i as int),
        ensures
            syntax::opt_view(r) == topic_call(t@, i as int, defaults@),
    {
        let is_producer = match Self::role_of_call(t, i) {
            Some(p) => p,
            None => return None,
        };
        let args = match t.named_child(i, 1) {
            Some(a) => a,
            None => return None,
        };
        let topic = match Self::find_topic_arg(t, args) {
            Some(s) => s,
            None => return None,
        };
        let chars = text::chars_of(topic.as_str());
        let resolved = match defaults.get(chars.as_slice()) {
            Some(v) => text::copy(v),
            None => topic,
        };
        Some(TopicCall { line_start: t.line(i), line_end: t.end_line(i), topic: resolved, is_producer })
    }

    /// The value of a parameter in the text of annotations.
    pub fn extract_annotation_param(annotation: &str, param: &str) -> (r: String)
        ensures
            r@ == annotation_param(annotation@, param@),
    {
        let chars = text::chars_of(annotation);
        Self::param_of(chars.as_slice(), param)
    }

    fn param_of(s: &[char], param: &str) -> (r: String)
        ensures
            r@ == annotation_param(s@, param@),
    {
        match text::position_of(s, param) {
            Some(k) => {
                let rest = text::from(s, k + text::length(param));
                match text::char_position(rest, '"') {
                    Some(a) => {
                        let tail = text::from(rest, a + 1);
                        match text::char_position(tail, '"') {
                            Some(b) => return text::string_of(text::until(tail, b)),
                            None => {},
                        }
                    },
                    None => {},
                }
            },
            None => {},
        }
        text::copy("unknown.topic")
    }

    /// The package that a header names.
    fn package_named(t: &SyntaxTree, i: usize) -> (r: Option<String>)
        requires
            t@.valid(i as int),
        ensures
            text::opt_string(r) == package_of(t@, t@.children(i as int)),
    {
        let ks = t.children(i);
        let ghost kv = syntax::ints(ks@);
        let mut j: usize = 0;
        assert(kv.skip(0) == kv);
        while j < ks.len()
            invariant
                0 <= j <= ks@.len(),
                kv == syntax::ints(ks@),
                kv == t@.children(i as int),
                forall|j: int| 0 <= j < ks@.len() ==> t@.valid(#[trigger] ks@[j] as int),
                package_of(t@, kv) == package_of(t@, kv.skip(j as int)),
            decreases ks@.len() - j,
        {
            proof {
                syntax::lemma_skip_step(kv, j as int);
                assert(kv[j as int] == ks@[j as int] as int);
            }
            if t.kind_is(ks[j], "qualified_identifier") || t.kind_is(ks[j], "identifier") {
                return match t.text(ks[j]) {
                    Some(s) => Some(text::string_of(s)),
                    None => None,
                };
            }
            j += 1;
        }
        None
    }

    fn is_route(s: &[char]) -> (r: bool)
        ensures
            r == declares_route(s@),
    {
        text::has_lit(s, "@GetMapping") || text::has_lit(s, "@PostMapping") || text::has_lit(s, "@PutMapping")
            || text::has_lit(s, "@DeleteMapping") || text::has_lit(s, "@RequestMapping")
    }

    /// What the declaration at node `i` is, and what it is called.
    fn role(t: &SyntaxTree, i: usize, name: &[char]) -> (r: (NodeKind, String))
        requires
            t@.valid(i as int),
        ensures
            (r.0, r.1@) == kotlin_role(t@, i as int, name@),
    {
        let m = match t.child_of_kind(i, "modifiers") {
            Some(k) => text::string_or(t.text(k), ""),
            None => text::copy(""),
        };
        let chars = text::chars_of(m.as_str());
        let mods = chars.as_slice();
        if t.kind_is(i, "class_declaration") {
            let kind = if t.child_of_kind(i, "interface").is_some() {
                NodeKind::Interface
            } else if text::has_lit(mods, "@GrpcService") {
                NodeKind::GrpcService
            } else {
                NodeKind::ServiceClass
            };
            (kind, text::string_of(name))
        } else if t.kind_is(i, "object_declaration") {
            (NodeKind::ServiceClass, text::string_of(name))
        } else if text::has_lit(mods, "@KafkaListener") {
            (NodeKind::KafkaTopic, Self::param_of(mods, "topics"))
        } else if Self::is_route(mods) {
            (NodeKind::HttpEndpoint, text::string_of(name))
        } else {
            (NodeKind::ServiceClass, text::string_of(name))
        }
    }

    /// The declaration that node `i` makes.
    fn node(t: &SyntaxTree, i: usize, path: &str, repo_id: RepoId, package: &str) -> (r: Option<ContractNode>)
        requires
            t@.valid(i as int),
        ensures
            syntax::opt_view(r) == kotlin_node(t@, i as int, path@, repo_id, package@),
    {
        match t.field_text(i, "name") {
            Some(name) => {
                let (kind, shown) = Self::role(t, i, name);
                let signature = match t.head(i) {
                    Some(l) => text::string_of(l),
                    None => text::string_of(name),
                };
                Some(model::declare(t, i, path, repo_id, package, shown, kind, signature))
            },
            None => None,
        }
    }
}

} // verus!
