//! C# types, ASP.NET endpoints and Kafka topics.
use vstd::prelude::*;
use crate::guard::AstGuard;
use crate::languages::common;
use crate::languages::common::{TopicCall, TopicCallView};
use crate::model;
use crate::model::{ContractNode, ContractNodeView, NodeKind, PackagesView, RepoId, ServicePackages};
use crate::syntax;
use crate::syntax::{SyntaxTree, TreeRules, TreeView};
use crate::text;

verus! {

/// The topics that declarations produce and consume.
#[derive(Debug)]
pub struct CSharpRelations {
    pub producers: Vec<(usize, String)>,
    pub consumers: Vec<(usize, String)>,
}

impl Default for CSharpRelations {
    fn default() -> (r: CSharpRelations)
        ensures
            r.producers@.len() == 0,
            r.consumers@.len() == 0,
    {
        CSharpRelations { producers: Vec::new(), consumers: Vec::new() }
    }
}

/// C# extractor.
pub struct CSharpExtractor;

/// The expression of an argument, or the node itself where it is none.
pub open spec fn unwrapped(t: TreeView, i: int) -> int {
    if t.kind(i) == "argument"@ {
        match t.named_child(i, 0) {
            Some(k) => k,
            None => i,
        }
    } else {
        i
    }
}

/// The contents of node `i`, where it is a string literal that is not empty.
pub open spec fn literal(t: TreeView, i: int) -> Option<Seq<char>> {
    if t.kind(i) == "string_literal"@ {
        match t.text(i) {
            Some(s) => if text::trim_set(s, "\""@).len() > 0 {
                Some(text::trim_set(s, "\""@))
            } else {
                None
            },
            None => None,
        }
    } else {
        None
    }
}

/// The arguments of a call or of the creation of an object.
pub open spec fn argument_list(t: TreeView, i: int) -> Option<int> {
    common::else_node(t.field(i, "arguments"@), common::else_node(t.field(i, "argument_list"@), t.named_child(i, 1)))
}

/// The type of the object that node `i` creates.
pub open spec fn created_type(t: TreeView, i: int) -> Option<Seq<char>> {
    match common::else_node(t.field(i, "type"@), t.named_child(i, 0)) {
        Some(k) => t.text(k),
        None => None,
    }
}

/// The first argument of the `TopicPartition` that node `i` creates.
pub open spec fn partition_argument(t: TreeView, i: int) -> Option<int> {
    if t.kind(i) == "object_creation_expression"@ {
        match (created_type(t, i), argument_list(t, i)) {
            (Some(name), Some(args)) => if text::ends_with(name, "TopicPartition"@) {
                t.named_child(args, 0)
            } else {
                None
            },
            _ => None,
        }
    } else {
        None
    }
}

/// The topic among arguments: that of the first which is a string literal, or which
/// creates a `TopicPartition`.
pub open spec fn topic_among(t: TreeView, ks: Seq<int>) -> Option<Seq<char>>
    decreases ks.len(),
{
    if ks.len() == 0 {
        None
    } else {
        let e = unwrapped(t, ks[0]);
        match literal(t, e) {
            Some(s) => Some(s),
            None => match partition_argument(t, e) {
                Some(a) => literal(t, unwrapped(t, a)),
                None => topic_among(t, ks.drop_first()),
            },
        }
    }
}

/// The name of the member that node `i` calls.
pub open spec fn called_member(t: TreeView, i: int) -> Option<Seq<char>> {
    match common::else_node(t.field(i, "function"@), t.named_child(i, 0)) {
        Some(f) => if t.kind(f) == "member_access_expression"@ {
            match common::else_node(t.field(f, "name"@), t.named_child(f, 1)) {
                Some(n) => t.text(n),
                None => None,
            }
        } else {
            None
        },
        None => None,
    }
}

/// Whether a member produces to a topic, or subscribes to one.
pub open spec fn topic_role(member: Option<Seq<char>>) -> Option<bool> {
    if member == Some("Produce"@) || member == Some("ProduceAsync"@) {
        Some(true)
    } else if member == Some("Subscribe"@) {
        Some(false)
    } else {
        None
    }
}

/// The call on a topic that node `i` makes.
pub open spec fn topic_call(t: TreeView, i: int) -> Option<TopicCallView> {
    match (topic_role(called_member(t, i)), argument_list(t, i)) {
        (Some(is_producer), Some(args)) => match topic_among(t, t.named_children(args)) {
            Some(topic) => Some(TopicCallView { line_start: t.line(i), line_end: t.end_line(i), topic, is_producer }),
            None => None,
        },
        _ => None,
    }
}

/// The texts of the attribute lists among the nodes, each followed by a space.
pub open spec fn attribute_text(t: TreeView, ks: Seq<int>) -> Seq<char>
    decreases ks.len(),
{
    if ks.len() == 0 {
        Seq::empty()
    } else {
        let rest = attribute_text(t, ks.drop_last());
        if t.kind(ks.last()) == "attribute_list"@ {
            match t.text(ks.last()) {
                Some(s) => rest + s + " "@,
                None => rest,
            }
        } else {
            rest
        }
    }
}

/// Whether attributes declare an HTTP route.
pub open spec fn declares_route(s: Seq<char>) -> bool {
    ||| text::contains(s, "[HttpGet"@)
    ||| text::contains(s, "[HttpPost"@)
    ||| text::contains(s, "[HttpPut"@)
    ||| text::contains(s, "[HttpDelete"@)
    ||| text::contains(s, "[HttpPatch"@)
    ||| text::contains(s, "[Route"@)
}

/// Whether a kind of node declares a type.
pub open spec fn declares_type(k: Seq<char>) -> bool {
    k == "class_declaration"@ || k == "interface_declaration"@ || k == "struct_declaration"@ || k == "record_declaration"@
}

/// What a declaration at node `i` is.
pub open spec fn csharp_kind(t: TreeView, i: int) -> NodeKind {
    if t.kind(i) == "interface_declaration"@ {
        NodeKind::Interface
    } else if t.kind(i) == "method_declaration"@ && declares_route(attribute_text(t, t.children(i))) {
        NodeKind::HttpEndpoint
    } else {
        NodeKind::ServiceClass
    }
}

/// The declaration that node `i` makes.
pub open spec fn csharp_node(t: TreeView, i: int, path: Seq<char>, repo_id: RepoId, package: Seq<char>) -> Option<ContractNodeView> {
    match t.field_text(i, "name"@) {
        Some(name) => Some(
            model::declared(t, i, path, repo_id, package, name, csharp_kind(t, i), text::or(t.head(i), name)),
        ),
        None => None,
    }
}

/// What a walk over a C# file gathers.
pub struct CSharpFound {
    pub package: String,
    pub nodes: Vec<ContractNode>,
    pub calls: Vec<TopicCall>,
}

/// What a walk over a C# file gathers, as a mathematical value.
#[verifier::ext_equal]
pub struct CSharpFoundView {
    pub package: Seq<char>,
    pub nodes: Seq<ContractNodeView>,
    pub calls: Seq<TopicCallView>,
}

impl View for CSharpFound {
    type V = CSharpFoundView;

    open spec fn view(&self) -> CSharpFoundView {
        CSharpFoundView {
            package: self.package@,
            nodes: model::nodes_view(self.nodes@),
            calls: common::calls_view(self.calls@),
        }
    }
}

/// What a walk has gathered after node `i`.
pub open spec fn csharp_step(t: TreeView, i: int, path: Seq<char>, repo_id: RepoId, packages: PackagesView, o: CSharpFoundView) -> CSharpFoundView {
    let k = t.kind(i);
    if k == "namespace_declaration"@ || k == "file_scoped_namespace_declaration"@ {
        CSharpFoundView { package: packages.package_after(t.field_text(i, "name"@), o.package), ..o }
    } else if declares_type(k) || k == "method_declaration"@ {
        CSharpFoundView { nodes: model::with(o.nodes, csharp_node(t, i, path, repo_id, o.package)), ..o }
    } else if k == "invocation_expression"@ {
        CSharpFoundView { calls: model::with(o.calls, topic_call(t, i)), ..o }
    } else {
        o
    }
}

/// What a walk over a C# file does at each node.
pub struct CSharpRules<'a> {
    pub path: &'a str,
    pub repo_id: RepoId,
    pub packages: &'a ServicePackages,
}

impl<'a> View for CSharpRules<'a> {
    type V = common::PackageRules;

    open spec fn view(&self) -> common::PackageRules {
        common::PackageRules { path: self.path@, repo_id: self.repo_id, packages: self.packages@ }
    }
}

impl<'a> TreeRules for CSharpRules<'a> {
    type Context = ();

    type Output = CSharpFound;

    open spec fn on_node(
        rules: common::PackageRules,
        t: TreeView,
        parent: Option<int>,
        i: int,
        c: (),
        o: CSharpFoundView,
    ) -> (CSharpFoundView, Option<()>) {
        (csharp_step(t, i, rules.path, rules.repo_id, rules.packages, o), Some(()))
    }

    fn visit(&self, t: &SyntaxTree, parent: Option<usize>, i: usize, c: &(), o: &mut CSharpFound) -> (r: Option<()>) {
        CSharpExtractor::visit_node(t, i, self.path, self.repo_id, self.packages, o);
        Some(())
    }
}

/// What the walk over a file gathers.
pub open spec fn csharp_found(t: TreeView, path: Seq<char>, repo_id: RepoId, packages: PackagesView) -> CSharpFoundView {
    syntax::walk_tree::<CSharpRules>(
        common::PackageRules { path, repo_id, packages },
        t,
        AstGuard::MAX_NESTING_DEPTH as int,
        (),
        CSharpFoundView { package: packages.file, nodes: Seq::empty(), calls: Seq::empty() },
    )
}

/// Whether declarations and relations are those of a file.
pub open spec fn is_csharp_result(r: (Vec<ContractNode>, CSharpRelations), t: TreeView, path: Seq<char>, repo_id: RepoId, packages: PackagesView) -> bool {
    let found = csharp_found(t, path, repo_id, packages);
    &&& model::nodes_view(r.0@) == found.nodes
    &&& model::links_view(r.1.producers@) == common::attributed(found.nodes, found.calls, true)
    &&& model::links_view(r.1.consumers@) == common::attributed(found.nodes, found.calls, false)
}

/// Every declaration of a file carries the file's path and its repository and has no number
/// yet, and its package is the file's or stands for a name that is declared.
pub proof fn law_csharp_nodes_belong(t: TreeView, path: Seq<char>, repo_id: RepoId, packages: PackagesView)
    ensures
        model::belong_among(csharp_found(t, path, repo_id, packages).nodes, path, repo_id, packages, packages.file),
{
    let rules = common::PackageRules { path, repo_id, packages };
    let holds = |c: (), o: CSharpFoundView|
        model::belong_among(o.nodes, path, repo_id, packages, packages.file) && packages.gives(o.package, packages.file);
    assert(syntax::keeps::<CSharpRules>(rules, t, holds));
    syntax::lemma_walk_keeps::<CSharpRules>(
        rules,
        t,
        None,
        0,
        t.rows.len() as int,
        0,
        AstGuard::MAX_NESTING_DEPTH as int,
        (),
        (),
        CSharpFoundView { package: packages.file, nodes: Seq::empty(), calls: Seq::empty() },
        holds,
    );
}

impl CSharpExtractor {
    /// The declarations of a file.
    pub fn extract(file_path: &str, content: &str, repo_id: RepoId, packages: &ServicePackages, parser: &mut tree_sitter::Parser) -> (r: Vec<ContractNode>)
        ensures
            exists|done: bool|
                match #[trigger] syntax::outcome(*old(parser), content@, done) {
                    Some(t) => model::nodes_view(r@) == csharp_found(t, file_path@, repo_id, packages@).nodes,
                    None => r@.len() == 0,
                },
    {
        match syntax::parse(parser, content) {
            Some(tree) => {
                assert(syntax::outcome(*old(parser), content@, true) is Some);
                Self::extract_with_relations(file_path, content, repo_id, packages, &tree).0
            },
            None => {
                assert(syntax::outcome(*old(parser), content@, false) is None);
                Vec::new()
            },
        }
    }

    /// The declarations of a parsed file and the topics that they produce and consume.
    pub fn extract_with_relations(
        file_path: &str,
        content: &str,
        repo_id: RepoId,
        packages: &ServicePackages,
        tree: &tree_sitter::Tree,
    ) -> (r: (Vec<ContractNode>, CSharpRelations))
        ensures
            is_csharp_result(r, TreeView { rows: syntax::tree_rows(*tree), src: content@ }, file_path@, repo_id, packages@),
    {
        let t = SyntaxTree::of(tree, content);
        Self::extract_tree(file_path, repo_id, packages, &t)
    }

    /// The declarations of a syntax tree and the topics that they produce and consume.
    pub fn extract_tree(file_path: &str, repo_id: RepoId, packages: &ServicePackages, t: &SyntaxTree) -> (r: (Vec<ContractNode>, CSharpRelations))
        ensures
            is_csharp_result(r, t@, file_path@, repo_id, packages@),
    {
        let rules = CSharpRules { path: file_path, repo_id, packages };
        let mut found = CSharpFound { package: text::copy(packages.file.as_str()), nodes: Vec::new(), calls: Vec::new() };
        assert(found@ == (CSharpFoundView { package: packages@.file, nodes: Seq::empty(), calls: Seq::empty() }));
        syntax::run_tree(&rules, t, AstGuard::MAX_NESTING_DEPTH, &(), &mut found);
        let (producers, consumers) = common::attribute_calls(&found.nodes, &found.calls);
        (found.nodes, CSharpRelations { producers, consumers })
    }

    /// The expression of an argument.
    fn unwrap_argument(t: &SyntaxTree, i: usize) -> (r: usize)
        requires
            t@.valid(i as int),
        ensures
            r == unwrapped(t@, i as int),
            t@.valid(r as int),
    {
        if t.kind_is(i, "argument") {
            match t.named_child(i, 0) {
                Some(k) => k,
                None => i,
            }
        } else {
            i
        }
    }

    /// The contents of node `i`, where it is a string literal that is not empty.
    fn extract_single_topic_arg(t: &SyntaxTree, i: usize) -> (r: Option<String>)
        requires
            t@.valid(i as int),
        ensures
            text::opt_string(r) == literal(t@, i as int),
    {
        if t.kind_is(i, "string_literal") {
            match t.text(i) {
                Some(s) => {
                    let bare = text::trimmed_of(s, "\"");
                    if bare.len() > 0 {
                        Some(text::string_of(bare))
                    } else {
                        None
                    }
                },
                None => None,
            }
        } else {
            None
        }
    }

    /// The arguments of a call or of the creation of an object.
    fn arguments(t: &SyntaxTree, i: usize) -> (r: Option<usize>)
        requires
            t@.valid(i as int),
        ensures
            text::opt_int(r) == argument_list(t@, i as int),
            r matches Some(k) ==> t@.valid(k as int),
    {
        match t.field(i, "arguments") {
            Some(k) => return Some(k),
            None => {},
        }
        match t.field(i, "argument_list") {
            Some(k) => return Some(k),
            None => {},
        }
        t.named_child(i, 1)
    }

    /// The first argument of the `TopicPartition` that node `i` creates.
    fn argument_of_partition(t: &SyntaxTree, i: usize) -> (r: Option<usize>)
        requires
            t@.valid(i as int),
        ensures
            text::opt_int(r) == partition_argument(t@, i as int),
            r matches Some(k) ==> t@.valid(k as int),
    {
        if !t.kind_is(i, "object_creation_expression") {
            return None;
        }
        let of_type = match t.field(i, "type") {
            Some(k) => Some(k),
            None => t.named_child(i, 0),
        };
        let name = match of_type {
            Some(k) => match t.text(k) {
                Some(s) => s,
                None => return None,
            },
            None => return None,
        };
        if !text::ends(name, "TopicPartition") {
            return None;
        }
        match Self::arguments(t, i) {
            Some(args) => t.named_child(args, 0),
            None => None,
        }
    }

    /// The topic among the arguments under node `args`.
    fn extract_topic_arg(t: &SyntaxTree, args: usize) -> (r: Option<String>)
        requires
            t@.valid(args as int),
        ensures
            text::opt_string(r) == topic_among(t@, t@.named_children(args as int)),
    {
        let ks = t.named_children(args);
        let ghost kv = syntax::ints(ks@);
        let mut j: usize = 0;
        assert(kv.skip(0) == kv);
        while j < ks.len()
            invariant
                0 <= j <= ks@.len(),
                kv == syntax::ints(ks@),
                kv == t@.named_children(args as int),
                forall|j: int| 0 <= j < ks@.len() ==> t@.valid(#[trigger] ks@[j] as int),
                topic_among(t@, kv) == topic_among(t@, kv.skip(j as int)),
            decreases ks@.len() - j,
        {
            proof {
                syntax::lemma_skip_step(kv, j as int);
                assert(kv[j as int] == ks@[j as int] as int);
            }
            let e = Self::unwrap_argument(t, ks[j]);
            match Self::extract_single_topic_arg(t, e) {
                Some(s) => return Some(s),
                None => {},
            }
            match Self::argument_of_partition(t, e) {
                Some(a) => return Self::extract_single_topic_arg(t, Self::unwrap_argument(t, a)),
                None => {},
            }
            j += 1;
        }
        None
    }

    /// Whether the member that node `i` calls produces to a topic, or subscribes to one.
    fn role_of_call(t: &SyntaxTree, i: usize) -> (r: Option<bool>)
        requires
            t@.valid(i as int),
        ensures
            r == topic_role(called_member(t@, i as int)),
    {
        let of_function = match t.field(i, "function") {
            Some(k) => Some(k),
            None => t.named_child(i, 0),
        };
        let f = match of_function {
            Some(f) => f,
            None => return None,
        };
        if !t.kind_is(f, "member_access_expression") {
            return None;
        }
        let of_name = match t.field(f, "name") {
            Some(k) => Some(k),
            None => t.named_child(f, 1),
        };
        let member = match of_name {
            Some(n) => match t.text(n) {
                Some(s) => s,
                None => return None,
            },
            None => return None,
        };
        if text::is(member, "Produce") || text::is(member, "ProduceAsync") {
            Some(true)
        } else if text::is(member, "Subscribe") {
            Some(false)
        } else {
            None
        }
    }

    /// The call on a topic that node `i` makes.
    fn call(t: &SyntaxTree, i: usize) -> (r: Option<TopicCall>)
        requires
            t@.valid(i as int),
        ensures
            syntax::opt_view(r) == topic_call(t@, i as int),
    {
        let is_producer = match Self::role_of_call(t, i) {
            Some(p) => p,
            None => return None,
        };
        let args = match Self::arguments(t, i) {
            Some(a) => a,
            None => return None,
        };
        match Self::extract_topic_arg(t, args) {
            Some(topic) => Some(TopicCall { line_start: t.line(i), line_end: t.end_line(i), topic, is_producer }),
            None => None,
        }
    }

    /// The texts of the attribute lists of node `i`, each followed by a space.
    fn attribute_lists_text(t: &SyntaxTree, i: usize) -> (r: Vec<char>)
        requires
            t@.valid(i as int),
        ensures
            r@ == attribute_text(t@, t@.children(i as int)),
    {
        let ks = t.children(i);
        let ghost kv = syntax::ints(ks@);
        let space = text::chars_of(" ");
        let mut out: Vec<char> = Vec::new();
        let mut j: usize = 0;
        assert(out@ == attribute_text(t@, kv.take(0)));
        while j < ks.len()
            invariant
                0 <= j <= ks@.len(),
                kv == syntax::ints(ks@),
                space@ == " "@,
                forall|j: int| 0 <= j < ks@.len() ==> t@.valid(#[trigger] ks@[j] as int),
                out@ == attribute_text(t@, kv.take(j as int)),
            decreases ks@.len() - j,
        {
            proof {
                syntax::lemma_take_step(kv, j as int);
                assert(kv[j as int] == ks@[j as int] as int);
            }
            if t.kind_is(ks[j], "attribute_list") {
                match t.text(ks[j]) {
                    Some(s) => {
                        text::extend(&mut out, s);
                        text::extend(&mut out, space.as_slice());
                    },
                    None => {},
                }
            }
            j += 1;
        }
        assert(kv.take(j as int) == kv);
        out
    }

    fn is_route(s: &[char]) -> (r: bool)
        ensures
            r == declares_route(s@),
    {
        text::has_lit(s, "[HttpGet") || text::has_lit(s, "[HttpPost") || text::has_lit(s, "[HttpPut") || text::has_lit(
            s,
            "[HttpDelete",
        ) || text::has_lit(s, "[HttpPatch") || text::has_lit(s, "[Route")
    }

    /// What the declaration at node `i` is.
    fn kind(t: &SyntaxTree, i: usize) -> (r: NodeKind)
        requires
            t@.valid(i as int),
        ensures
            r == csharp_kind(t@, i as int),
    {
        if t.kind_is(i, "interface_declaration") {
            NodeKind::Interface
        } else if t.kind_is(i, "method_declaration") {
            let attributes = Self::attribute_lists_text(t, i);
            if Self::is_route(attributes.as_slice()) {
                NodeKind::HttpEndpoint
            } else {
                NodeKind::ServiceClass
            }
        } else {
            NodeKind::ServiceClass
        }
    }

    /// Takes in node `i`.
    fn visit_node(t: &SyntaxTree, i: usize, path: &str, repo_id: RepoId, packages: &ServicePackages, o: &mut CSharpFound)
        requires
            t@.valid(i as int),
        ensures
            final(o)@ == csharp_step(t@, i as int, path@, repo_id, packages@, old(o)@),
    {
        if t.kind_is(i, "namespace_declaration") || t.kind_is(i, "file_scoped_namespace_declaration") {
            match t.field_text(i, "name") {
                Some(s) => {
                    o.package = packages.package_for(s);
                },
                None => {},
            }
        } else if t.kind_is(i, "class_declaration") || t.kind_is(i, "interface_declaration") || t.kind_is(i, "struct_declaration")
            || t.kind_is(i, "record_declaration") || t.kind_is(i, "method_declaration") {
            match t.field_text(i, "name") {
                Some(name) => {
                    let signature = match t.head(i) {
                        Some(l) => text::string_of(l),
                        None => text::string_of(name),
                    };
                    let kind = Self::kind(t, i);
                    let n = model::declare(t, i, path, repo_id, o.package.as_str(), text::string_of(name), kind, signature);
                    model::push_node(&mut o.nodes, n);
                },
                None => {},
            }
        } else if t.kind_is(i, "invocation_expression") {
            match Self::call(t, i) {
                Some(c) => common::push_call(&mut o.calls, c),
                None => {},
            }
        }
    }
}

} // verus!
