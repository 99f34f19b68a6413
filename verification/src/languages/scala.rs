//! Scala classes, traits, objects and Akka HTTP routes.
use vstd::prelude::*;
use crate::languages::common;
use crate::languages::common::FileRules;
use crate::model;
use crate::model::{ContractNode, ContractNodeView, NameList, NodeKind, NodeList, RepoId};
use crate::syntax;
use crate::syntax::{SyntaxTree, TreeRules, TreeView};
use crate::text;

verus! {

/// Scala extractor. Classes and objects are `ServiceClass`, traits are `Interface`, and
/// Akka HTTP's `path("segment") { get { ... } }` routes are `HttpEndpoint`.
pub struct ScalaExtractor;

/// A walk that gathers the string literals below a node.
pub struct StringRules;

impl View for StringRules {
    type V = ();

    open spec fn view(&self) -> () {
        ()
    }
}

/// A string literal without its quotes.
pub open spec fn string_value(t: TreeView, i: int) -> Option<Seq<char>> {
    match t.text(i) {
        Some(s) => Some(text::trim_set(s, "\""@)),
        None => None,
    }
}

impl TreeRules for StringRules {
    type Context = ();

    type Output = NameList;

    open spec fn on_node(rules: (), t: TreeView, parent: Option<int>, i: int, c: (), o: Seq<Seq<char>>) -> (Seq<Seq<char>>, Option<()>) {
        if t.kind(i) == "string"@ {
            (model::with(o, string_value(t, i)), None)
        } else {
            (o, Some(()))
        }
    }

    fn visit(&self, t: &SyntaxTree, parent: Option<usize>, i: usize, c: &(), o: &mut NameList) -> (r: Option<()>) {
        if t.kind_is(i, "string") {
            let found = match t.text(i) {
                Some(s) => Some(text::string_of(text::trimmed_of(s, "\""))),
                None => None,
            };
            o.add(found);
            None
        } else {
            Some(())
        }
    }
}

/// The first string literal at or below node `i`, in preorder.
pub open spec fn first_string(t: TreeView, i: int) -> Option<Seq<char>> {
    let all = syntax::walk_node::<StringRules>((), t, i, usize::MAX as int, (), Seq::empty());
    if all.len() > 0 {
        Some(all[0])
    } else {
        None
    }
}

/// The verb that node `i` calls, if it calls one.
pub open spec fn called_verb(t: TreeView, i: int) -> Option<Seq<char>> {
    if t.kind(i) == "call_expression"@ {
        match t.field_text(i, "function"@) {
            Some(s) => if common::is_route_verb(s) {
                Some(s)
            } else {
                None
            },
            None => None,
        }
    } else {
        None
    }
}

/// A walk that gathers the verbs called below a node, each once.
pub struct VerbRules;

impl View for VerbRules {
    type V = ();

    open spec fn view(&self) -> () {
        ()
    }
}

impl TreeRules for VerbRules {
    type Context = ();

    type Output = NameList;

    open spec fn on_node(rules: (), t: TreeView, parent: Option<int>, i: int, c: (), o: Seq<Seq<char>>) -> (Seq<Seq<char>>, Option<()>) {
        (
            match called_verb(t, i) {
                Some(verb) => if o.contains(verb) {
                    o
                } else {
                    o.push(verb)
                },
                None => o,
            },
            Some(()),
        )
    }

    fn visit(&self, t: &SyntaxTree, parent: Option<usize>, i: usize, c: &(), o: &mut NameList) -> (r: Option<()>) {
        if t.kind_is(i, "call_expression") {
            match t.field_text(i, "function") {
                Some(s) => if common::route_verb(s) && !model::has_name(&o.items, s) {
                    o.add(Some(text::string_of(s)));
                },
                None => {},
            }
        }
        Some(())
    }
}

/// The verbs called at or below node `i`, each once, in preorder.
pub open spec fn verbs_below(t: TreeView, i: int) -> Seq<Seq<char>> {
    syntax::walk_node::<VerbRules>((), t, i, usize::MAX as int, (), Seq::empty())
}

/// The path that `path("segment") { ... }` names.
pub open spec fn akka_path(t: TreeView, i: int) -> Option<Seq<char>> {
    match t.field(i, "function"@) {
        Some(f) => if t.kind(f) == "call_expression"@ {
            match (t.field_text(f, "function"@), t.field(f, "arguments"@)) {
                (Some(name), Some(args)) => if name == "path"@ || name == "pathPrefix"@ || name == "pathEnd"@ {
                    first_string(t, args)
                } else {
                    None
                },
                _ => None,
            }
        } else {
            None
        },
        None => None,
    }
}

/// The names of the endpoints on a path: one per verb, or one for any verb.
pub open spec fn akka_names(verbs: Seq<Seq<char>>, path: Seq<char>) -> Seq<Seq<char>> {
    if verbs.len() == 0 {
        seq!["ANY "@ + path]
    } else {
        verbs.map_values(|v: Seq<char>| common::endpoint_name(v, path))
    }
}

/// The endpoints that node `i` registers.
pub open spec fn akka_routes(t: TreeView, i: int) -> Seq<Seq<char>> {
    match (akka_path(t, i), t.field(i, "arguments"@)) {
        (Some(path), Some(body)) => akka_names(verbs_below(t, body), path),
        _ => Seq::empty(),
    }
}

/// The declarations that node `i` makes.
pub open spec fn scala_made(t: TreeView, i: int, path: Seq<char>, repo_id: RepoId, package: Seq<char>) -> Seq<ContractNodeView> {
    let k = t.kind(i);
    if k == "class_definition"@ || k == "trait_definition"@ || k == "object_definition"@ {
        let name = text::or(t.field_text(i, "name"@), "UnknownType"@);
        let kind = if k == "trait_definition"@ {
            NodeKind::Interface
        } else {
            NodeKind::ServiceClass
        };
        seq![model::declared(t, i, path, repo_id, package, name, kind, text::or(t.head(i), name))]
    } else if k == "call_expression"@ {
        akka_routes(t, i).map_values(|name: Seq<char>| model::declared(t, i, path, repo_id, package, name, NodeKind::HttpEndpoint, name))
    } else {
        Seq::empty()
    }
}

/// What a walk over a Scala file does at each node.
pub struct ScalaRules<'a> {
    pub path: &'a str,
    pub repo_id: RepoId,
    pub package: &'a str,
}

impl<'a> View for ScalaRules<'a> {
    type V = FileRules;

    open spec fn view(&self) -> FileRules {
        FileRules { path: self.path@, repo_id: self.repo_id, package: self.package@ }
    }
}

impl<'a> TreeRules for ScalaRules<'a> {
    type Context = ();

    type Output = NodeList;

    open spec fn on_node(rules: FileRules, t: TreeView, parent: Option<int>, i: int, c: (), o: Seq<ContractNodeView>) -> (Seq<ContractNodeView>, Option<()>) {
        (o + scala_made(t, i, rules.path, rules.repo_id, rules.package), Some(()))
    }

    fn visit(&self, t: &SyntaxTree, parent: Option<usize>, i: usize, c: &(), o: &mut NodeList) -> (r: Option<()>) {
        ScalaExtractor::visit_node(t, i, self.path, self.repo_id, self.package, o);
        Some(())
    }
}

/// The declarations of a file.
pub open spec fn scala_nodes(t: TreeView, path: Seq<char>, repo_id: RepoId, package: Seq<char>) -> Seq<ContractNodeView> {
    syntax::walk_tree::<ScalaRules>(FileRules { path, repo_id, package }, t, usize::MAX as int, (), Seq::empty())
}

/// Every declaration of a file carries the file's path, its repository and the package that the
/// file is in, and has no number yet.
pub proof fn law_scala_nodes_belong(t: TreeView, path: Seq<char>, repo_id: RepoId, package: Seq<char>)
    ensures
        model::belong(scala_nodes(t, path, repo_id, package), path, repo_id, package),
{
    let rules = FileRules { path, repo_id, package };
    let holds = |c: (), o: Seq<ContractNodeView>| model::belong(o, path, repo_id, package);
    assert(syntax::keeps::<ScalaRules>(rules, t, holds));
    syntax::lemma_walk_keeps::<ScalaRules>(
        rules,
        t,
        None,
        0,
        t.rows.len() as int,
        0,
        usize::MAX as int,
        (),
        (),
        Seq::<ContractNodeView>::empty(),
        holds,
    );
}

impl ScalaExtractor {
    /// The declarations of a file.
    pub fn extract(file_path: &str, content: &str, repo_id: RepoId, package: &str, parser: &mut tree_sitter::Parser) -> (r: Vec<ContractNode>)
        ensures
            exists|done: bool|
                match #[trigger] syntax::outcome(*old(parser), content@, done) {
                    Some(t) => model::nodes_view(r@) == scala_nodes(t, file_path@, repo_id, package@),
                    None => r@.len() == 0,
                },
    {
        match syntax::parse(parser, content) {
            Some(tree) => {
                assert(syntax::outcome(*old(parser), content@, true) is Some);
                let t = SyntaxTree::of(&tree, content);
                Self::extract_tree(file_path, repo_id, package, &t)
            },
            None => {
                assert(syntax::outcome(*old(parser), content@, false) is None);
                Vec::new()
            },
        }
    }

    /// The declarations of a syntax tree.
    pub fn extract_tree(file_path: &str, repo_id: RepoId, package: &str, t: &SyntaxTree) -> (r: Vec<ContractNode>)
        ensures
            model::nodes_view(r@) == scala_nodes(t@, file_path@, repo_id, package@),
    {
        let rules = ScalaRules { path: file_path, repo_id, package };
        let mut out = NodeList::new();
        syntax::run_tree(&rules, t, usize::MAX, &(), &mut out);
        out.items
    }

    /// The first string literal at or below node `i`.
    fn first_string_literal(t: &SyntaxTree, i: usize) -> (r: Option<String>)
        requires
            t@.valid(i as int),
        ensures
            text::opt_string(r) == first_string(t@, i as int),
    {
        let mut out = NameList::new();
        syntax::run_node(&StringRules, t, i, usize::MAX, &(), &mut out);
        assert(out@.len() == out.items@.len());
        if out.items.len() > 0 {
            assert(out@[0] == out.items@[0]@);
            Some(text::copy(out.items[0].as_str()))
        } else {
            None
        }
    }

    /// The path that `path("segment") { ... }` names.
    fn path_of(t: &SyntaxTree, i: usize) -> (r: Option<String>)
        requires
            t@.valid(i as int),
        ensures
            text::opt_string(r) == akka_path(t@, i as int),
    {
        let f = match t.field(i, "function") {
            Some(f) => f,
            None => return None,
        };
        if !t.kind_is(f, "call_expression") {
            return None;
        }
        let name = match t.field_text(f, "function") {
            Some(n) => n,
            None => return None,
        };
        if !text::is(name, "path") && !text::is(name, "pathPrefix") && !text::is(name, "pathEnd") {
            return None;
        }
        match t.field(f, "arguments") {
            Some(args) => Self::first_string_literal(t, args),
            None => None,
        }
    }

    /// The endpoints that node `i` registers.
    fn emit_akka_routes(t: &SyntaxTree, i: usize) -> (r: Vec<String>)
        requires
            t@.valid(i as int),
        ensures
            text::strings(r@) == akka_routes(t@, i as int),
    {
        let mut out: Vec<String> = Vec::new();
        assert(text::strings(out@) == Seq::<Seq<char>>::empty());
        let path = match Self::path_of(t, i) {
            Some(p) => p,
            None => return out,
        };
        let body = match t.field(i, "arguments") {
            Some(b) => b,
            None => return out,
        };
        let chars = text::chars_of(path.as_str());
        let mut verbs = NameList::new();
        syntax::run_node(&VerbRules, t, body, usize::MAX, &(), &mut verbs);
        assert(verbs@.len() == verbs.items@.len());
        if verbs.items.len() == 0 {
            model::push_string(&mut out, text::joined("ANY ", chars.as_slice()));
            assert(text::strings(out@) == akka_names(verbs@, path@));
            return out;
        }
        let ghost names = akka_names(verbs@, path@);
        let mut j: usize = 0;
        while j < verbs.items.len()
            invariant
                0 <= j <= verbs.items@.len(),
                verbs@.len() == verbs.items@.len(),
                verbs@.len() > 0,
                chars@ == path@,
                names == akka_names(verbs@, path@),
                text::strings(out@) == names.take(j as int),
            decreases verbs.items@.len() - j,
        {
            let verb = text::chars_of(verbs.items[j].as_str());
            model::push_string(&mut out, common::name_of_endpoint(verb.as_slice(), chars.as_slice()));
            proof {
                assert(verbs@[j as int] == verbs.items@[j as int]@);
                assert(names.take(j + 1) == names.take(j as int).push(names[j as int]));
            }
            j += 1;
        }
        assert(names.take(j as int) == names);
        out
    }

    /// Takes in node `i`.
    fn visit_node(t: &SyntaxTree, i: usize, path: &str, repo_id: RepoId, package: &str, o: &mut NodeList)
        requires
            t@.valid(i as int),
        ensures
            final(o)@ == old(o)@ + scala_made(t@, i as int, path@, repo_id, package@),
    {
        let ghost start = o@;
        if t.kind_is(i, "class_definition") || t.kind_is(i, "trait_definition") || t.kind_is(i, "object_definition") {
            let name = text::string_or(t.field_text(i, "name"), "UnknownType");
            let kind = if t.kind_is(i, "trait_definition") {
                NodeKind::Interface
            } else {
                NodeKind::ServiceClass
            };
            let signature = text::string_or(t.head(i), name.as_str());
            o.add(Some(model::declare(t, i, path, repo_id, package, name, kind, signature)));
        } else if t.kind_is(i, "call_expression") {
            let names = Self::emit_akka_routes(t, i);
            let ghost nv = text::strings(names@);
            let ghost tail = nv.map_values(|name: Seq<char>| model::declared(t@, i as int, path@, repo_id, package@, name, NodeKind::HttpEndpoint, name));
            let mut j: usize = 0;
            assert(start + tail.take(0) == start);
            while j < names.len()
                invariant
                    0 <= j <= names@.len(),
                    t@.valid(i as int),
                    nv == text::strings(names@),
                    tail == nv.map_values(
                        |name: Seq<char>| model::declared(t@, i as int, path@, repo_id, package@, name, NodeKind::HttpEndpoint, name),
                    ),
                    o@ == start + tail.take(j as int),
                decreases names@.len() - j,
            {
                let name = text::copy(names[j].as_str());
                let signature = text::copy(names[j].as_str());
                o.add(Some(model::declare(t, i, path, repo_id, package, name, NodeKind::HttpEndpoint, signature)));
                proof {
                    assert(nv[j as int] == names@[j as int]@);
                    assert(start + tail.take(j + 1) == (start + tail.take(j as int)).push(tail[j as int]));
                }
                j += 1;
            }
            assert(tail.take(j as int) == tail);
        } else {
            assert(start + scala_made(t@, i as int, path@, repo_id, package@) == start);
        }
    }
}

} // verus!
