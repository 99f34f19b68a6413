//! PHP classes, Symfony route attributes and Laravel routes.
use vstd::prelude::*;
use crate::languages::common;
use crate::languages::common::FileRules;
use crate::model;
use crate::model::{ContractNode, ContractNodeView, NameList, NodeKind, NodeList, RepoId};
use crate::syntax;
use crate::syntax::{SyntaxTree, TreeRules, TreeView};
use crate::text;

verus! {

/// PHP extractor for classes and interfaces, Symfony's `#[Route(...)]` attributes and
/// Laravel's `Route::get(...)` calls.
pub struct PhpExtractor;

/// A walk that gathers the string literals below a node.
pub struct StringRules;

impl View for StringRules {
    type V = ();

    open spec fn view(&self) -> () {
        ()
    }
}

/// A string literal without its quotes.
pub open spec fn string_value(t: TreeView, i: int) -> Option<Seq<char>> {
    match t.text(i) {
        Some(s) => Some(text::trim_set(s, "'\""@)),
        None => None,
    }
}

impl TreeRules for StringRules {
    type Context = ();

    type Output = NameList;

    open spec fn on_node(rules: (), t: TreeView, parent: Option<int>, i: int, c: (), o: Seq<Seq<char>>) -> (Seq<Seq<char>>, Option<()>) {
        if t.kind(i) == "string"@ {
            (model::with(o, string_value(t, i)), None)
        } else {
            (o, Some(()))
        }
    }

    fn visit(&self, t: &SyntaxTree, parent: Option<usize>, i: usize, c: &(), o: &mut NameList) -> (r: Option<()>) {
        if t.kind_is(i, "string") {
            let found = match t.text(i) {
                Some(s) => Some(text::string_of(text::trimmed_of(s, "'\""))),
                None => None,
            };
            o.add(found);
            None
        } else {
            Some(())
        }
    }
}

/// The first string literal at or below node `i`, in preorder.
pub open spec fn first_string(t: TreeView, i: int) -> Option<Seq<char>> {
    let all = syntax::walk_node::<StringRules>((), t, i, usize::MAX as int, (), Seq::empty());
    if all.len() > 0 {
        Some(all[0])
    } else {
        None
    }
}

/// The path of a `#[Route('/path')]` attribute of a method.
pub open spec fn route_attribute(t: TreeView, i: int) -> Option<Seq<char>> {
    match t.field(i, "attributes"@) {
        Some(attrs) => match t.text(attrs) {
            Some(s) => if text::contains(s, "Route"@) {
                first_string(t, attrs)
            } else {
                None
            },
            None => None,
        },
        None => None,
    }
}

/// Whether the text is a method of Laravel's `Route`.
pub open spec fn is_laravel_verb(s: Seq<char>) -> bool {
    common::is_route_verb(s) || s == "any"@ || s == "resource"@
}

/// The endpoint that `Route::get('/users', ...)` registers.
pub open spec fn laravel_route(t: TreeView, i: int) -> Option<Seq<char>> {
    match t.named_child(i, 0) {
        Some(call) => if t.kind(call) == "scoped_call_expression"@ && t.field_text(call, "scope"@) == Some("Route"@) {
            match (t.field_text(call, "name"@), t.field(call, "arguments"@)) {
                (Some(verb), Some(args)) => if is_laravel_verb(verb) {
                    match t.named_child(args, 0) {
                        Some(arg) => match first_string(t, arg) {
                            Some(path) => Some(common::endpoint_name(verb, path)),
                            None => None,
                        },
                        None => None,
                    }
                } else {
                    None
                },
                _ => None,
            }
        } else {
            None
        },
        None => None,
    }
}

/// The declaration that node `i` makes, if it makes one; `inside` tells whether it stands
/// in a controller.
pub open spec fn php_node(t: TreeView, i: int, path: Seq<char>, repo_id: RepoId, package: Seq<char>, inside: bool) -> Option<ContractNodeView> {
    let k = t.kind(i);
    if k == "class_declaration"@ || k == "interface_declaration"@ {
        let name = text::or(t.field_text(i, "name"@), "UnknownClass"@);
        let kind = if k == "interface_declaration"@ {
            NodeKind::Interface
        } else {
            NodeKind::ServiceClass
        };
        Some(model::declared(t, i, path, repo_id, package, name, kind, text::or(t.head(i), name)))
    } else if k == "method_declaration"@ {
        let name = text::or(t.field_text(i, "name"@), "unknownMethod"@);
        let route = route_attribute(t, i);
        let kind = if route is Some || (inside && name != "__construct"@) {
            NodeKind::HttpEndpoint
        } else {
            NodeKind::ServiceClass
        };
        Some(model::declared(t, i, path, repo_id, package, text::or(route, name), kind, text::or(t.head(i), name)))
    } else if k == "expression_statement"@ {
        match laravel_route(t, i) {
            Some(name) => Some(model::declared(t, i, path, repo_id, package, name, NodeKind::HttpEndpoint, name)),
            None => None,
        }
    } else {
        None
    }
}

/// Whether the children of node `i` stand in a controller; the bodies of methods are not
/// visited.
pub open spec fn php_inside(t: TreeView, i: int, inside: bool) -> Option<bool> {
    let k = t.kind(i);
    if k == "class_declaration"@ || k == "interface_declaration"@ {
        Some(text::ends_with(text::or(t.field_text(i, "name"@), "UnknownClass"@), "Controller"@))
    } else if k == "method_declaration"@ {
        None
    } else {
        Some(inside)
    }
}

/// What a walk over a PHP file does at each node.
pub struct PhpRules<'a> {
    pub path: &'a str,
    pub repo_id: RepoId,
    pub package: &'a str,
}

impl<'a> View for PhpRules<'a> {
    type V = FileRules;

    open spec fn view(&self) -> FileRules {
        FileRules { path: self.path@, repo_id: self.repo_id, package: self.package@ }
    }
}

impl<'a> TreeRules for PhpRules<'a> {
    type Context = bool;

    type Output = NodeList;

    open spec fn on_node(rules: FileRules, t: TreeView, parent: Option<int>, i: int, c: bool, o: Seq<ContractNodeView>) -> (Seq<ContractNodeView>, Option<bool>) {
        (model::with(o, php_node(t, i, rules.path, rules.repo_id, rules.package, c)), php_inside(t, i, c))
    }

    fn visit(&self, t: &SyntaxTree, parent: Option<usize>, i: usize, c: &bool, o: &mut NodeList) -> (r: Option<bool>) {
        o.add(PhpExtractor::node(t, i, self.path, self.repo_id, self.package, *c));
        if t.kind_is(i, "class_declaration") || t.kind_is(i, "interface_declaration") {
            let name = text::string_or(t.field_text(i, "name"), "UnknownClass");
            let chars = text::chars_of(name.as_str());
            return Some(text::ends(chars.as_slice(), "Controller"));
        }
        if t.kind_is(i, "method_declaration") {
            return None;
        }
        Some(*c)
    }
}

/// The declarations of a file.
pub open spec fn php_nodes(t: TreeView, path: Seq<char>, repo_id: RepoId, package: Seq<char>) -> Seq<ContractNodeView> {
    syntax::walk_tree::<PhpRules>(FileRules { path, repo_id, package }, t, usize::MAX as int, false, Seq::empty())
}

/// Every declaration of a file carries the file's path, its repository and the package that the
/// file is in, and has no number yet.
pub proof fn law_php_nodes_belong(t: TreeView, path: Seq<char>, repo_id: RepoId, package: Seq<char>)
    ensures
        model::belong(php_nodes(t, path, repo_id, package), path, repo_id, package),
{
    let rules = FileRules { path, repo_id, package };
    let holds = |c: bool, o: Seq<ContractNodeView>| model::belong(o, path, repo_id, package);
    assert(syntax::keeps::<PhpRules>(rules, t, holds));
    syntax::lemma_walk_keeps::<PhpRules>(
        rules,
        t,
        None,
        0,
        t.rows.len() as int,
        0,
        usize::MAX as int,
        false,
        false,
        Seq::<ContractNodeView>::empty(),
        holds,
    );
}

impl PhpExtractor {
    /// The declarations of a file.
    pub fn extract(file_path: &str, content: &str, repo_id: RepoId, package: &str, parser: &mut tree_sitter::Parser) -> (r: Vec<ContractNode>)
        ensures
            exists|done: bool|
                match #[trigger] syntax::outcome(*old(parser), content@, done) {
                    Some(t) => model::nodes_view(r@) == php_nodes(t, file_path@, repo_id, package@),
                    None => r@.len() == 0,
                },
    {
        match syntax::parse(parser, content) {
            Some(tree) => {
                assert(syntax::outcome(*old(parser), content@, true) is Some);
                let t = SyntaxTree::of(&tree, content);
                Self::extract_tree(file_path, repo_id, package, &t)
            },
            None => {
                assert(syntax::outcome(*old(parser), content@, false) is None);
                Vec::new()
            },
        }
    }

    /// The declarations of a syntax tree.
    pub fn extract_tree(file_path: &str, repo_id: RepoId, package: &str, t: &SyntaxTree) -> (r: Vec<ContractNode>)
        ensures
            model::nodes_view(r@) == php_nodes(t@, file_path@, repo_id, package@),
    {
        let rules = PhpRules { path: file_path, repo_id, package };
        let mut out = NodeList::new();
        syntax::run_tree(&rules, t, usize::MAX, &false, &mut out);
        out.items
    }

    /// The first string literal at or below node `i`.
    fn first_string_literal(t: &SyntaxTree, i: usize) -> (r: Option<String>)
        requires
            t@.valid(i as int),
        ensures
            text::opt_string(r) == first_string(t@, i as int),
    {
        let mut out = NameList::new();
        syntax::run_node(&StringRules, t, i, usize::MAX, &(), &mut out);
        assert(out@.len() == out.items@.len());
        if out.items.len() > 0 {
            assert(out@[0] == out.items@[0]@);
            Some(text::copy(out.items[0].as_str()))
        } else {
            None
        }
    }

    /// The path of a `#[Route('/path')]` attribute of a method.
    fn attribute_route(t: &SyntaxTree, i: usize) -> (r: Option<String>)
        requires
            t@.valid(i as int),
        ensures
            text::opt_string(r) == route_attribute(t@, i as int),
    {
        let attrs = match t.field(i, "attributes") {
            Some(a) => a,
            None => return None,
        };
        match t.text(attrs) {
            Some(s) => if text::has_lit(s, "Route") {
                Self::first_string_literal(t, attrs)
            } else {
                None
            },
            None => None,
        }
    }

    /// The endpoint that `Route::get('/users', ...)` registers.
    fn laravel_route_node(t: &SyntaxTree, i: usize) -> (r: Option<String>)
        requires
            t@.valid(i as int),
        ensures
            text::opt_string(r) == laravel_route(t@, i as int),
    {
        let call = match t.named_child(i, 0) {
            Some(c) => c,
            None => return None,
        };
        let on_route = match t.field_text(call, "scope") {
            Some(s) => text::is(s, "Route"),
            None => false,
        };
        if !t.kind_is(call, "scoped_call_expression") || !on_route {
            return None;
        }
        let verb = match t.field_text(call, "name") {
            Some(v) => v,
            None => return None,
        };
        if !common::route_verb(verb) && !text::is(verb, "any") && !text::is(verb, "resource") {
            return None;
        }
        let args = match t.field(call, "arguments") {
            Some(a) => a,
            None => return None,
        };
        let arg = match t.named_child(args, 0) {
            Some(a) => a,
            None => return None,
        };
        match Self::first_string_literal(t, arg) {
            Some(path) => {
                let chars = text::chars_of(path.as_str());
                Some(common::name_of_endpoint(verb, chars.as_slice()))
            },
            None => None,
        }
    }

    /// The declaration that node `i` makes, if it makes one.
    fn node(t: &SyntaxTree, i: usize, path: &str, repo_id: RepoId, package: &str, inside: bool) -> (r: Option<ContractNode>)
        requires
            t@.valid(i as int),
        ensures
            syntax::opt_view(r) == php_node(t@, i as int, path@, repo_id, package@, inside),
    {
        if t.kind_is(i, "class_declaration") || t.kind_is(i, "interface_declaration") {
            let name = text::string_or(t.field_text(i, "name"), "UnknownClass");
            let kind = if t.kind_is(i, "interface_declaration") {
                NodeKind::Interface
            } else {
                NodeKind::ServiceClass
            };
            let signature = text::string_or(t.head(i), name.as_str());
            Some(model::declare(t, i, path, repo_id, package, name, kind, signature))
        } else if t.kind_is(i, "method_declaration") {
            let name = text::string_or(t.field_text(i, "name"), "unknownMethod");
            let signature = text::string_or(t.head(i), name.as_str());
            match Self::attribute_route(t, i) {
                Some(route) => Some(model::declare(t, i, path, repo_id, package, route, NodeKind::HttpEndpoint, signature)),
                None => {
                    let kind = if inside && !text::same(name.as_str(), "__construct") {
                        NodeKind::HttpEndpoint
                    } else {
                        NodeKind::ServiceClass
                    };
                    Some(model::declare(t, i, path, repo_id, package, name, kind, signature))
                },
            }
        } else if t.kind_is(i, "expression_statement") {
            match Self::laravel_route_node(t, i) {
                Some(name) => {
                    let signature = text::copy(name.as_str());
                    Some(model::declare(t, i, path, repo_id, package, name, NodeKind::HttpEndpoint, signature))
                },
                None => None,
            }
        } else {
            None
        }
    }
}

} // verus!
