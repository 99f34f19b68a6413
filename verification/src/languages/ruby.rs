//! Ruby classes, modules, controller actions and routes.
use vstd::prelude::*;
use crate::guard::AstGuard;
use crate::languages::common;
use crate::model;
use crate::model::{ContractNode, ContractNodeView, NodeKind, NodeList, RepoId};
use crate::syntax;
use crate::syntax::{SyntaxTree, TreeRules, TreeView};
use crate::text;

verus! {

/// Ruby and Rails extractor. Classes are `ServiceClass`, modules are `Interface`, and
/// controller actions and the calls of a routes file are `HttpEndpoint`.
pub struct RubyExtractor;

/// The name of a class: the last segment of a scoped one.
pub open spec fn class_name(t: TreeView, i: int) -> Option<Seq<char>> {
    match t.field(i, "name"@) {
        Some(n) => if t.kind(n) == "scope_resolution"@ {
            t.field_text(n, "name"@)
        } else {
            t.text(n)
        },
        None => None,
    }
}

/// Whether a class is a controller, by its own name or by its superclass.
pub open spec fn is_controller(t: TreeView, i: int, name: Seq<char>) -> bool {
    text::ends_with(name, "Controller"@) || match t.field_text(i, "superclass"@) {
        Some(s) => text::contains(s, "Controller"@),
        None => false,
    }
}

/// The first argument of a call without quotes and colons.
pub open spec fn route_argument(t: TreeView, i: int) -> Seq<char> {
    match t.field(i, "arguments"@) {
        Some(args) => match t.named_child(args, 0) {
            Some(a) => match t.text(a) {
                Some(s) => text::trim_set(s, "'\":"@),
                None => ""@,
            },
            None => ""@,
        },
        None => ""@,
    }
}

/// The endpoint that `get "/path"` or `resources :name` registers.
pub open spec fn route_name(t: TreeView, i: int) -> Option<Seq<char>> {
    match t.field_text(i, "method"@) {
        Some(m) => {
            let arg = route_argument(t, i);
            if arg.len() == 0 {
                None
            } else if common::is_route_verb(m) {
                Some(common::endpoint_name(m, arg))
            } else if m == "resources"@ || m == "resource"@ {
                Some("resources :"@ + arg)
            } else {
                None
            }
        },
        None => None,
    }
}

/// The declaration that node `i` makes, if it makes one; `inside` tells whether it stands
/// in a controller, and `routes` whether the file registers routes.
pub open spec fn ruby_node(t: TreeView, i: int, path: Seq<char>, repo_id: RepoId, package: Seq<char>, routes: bool, inside: bool) -> Option<ContractNodeView> {
    let k = t.kind(i);
    if k == "class"@ {
        let name = text::or(class_name(t, i), "UnknownClass"@);
        Some(model::declared(t, i, path, repo_id, package, name, NodeKind::ServiceClass, text::or(t.head(i), name)))
    } else if k == "module"@ {
        let name = text::or(t.field_text(i, "name"@), "UnknownModule"@);
        Some(model::declared(t, i, path, repo_id, package, name, NodeKind::Interface, text::or(t.head(i), name)))
    } else if k == "method"@ || k == "singleton_method"@ {
        let name = text::or(t.field_text(i, "name"@), "unknown_method"@);
        let kind = if inside && name != "initialize"@ && !(name.len() > 0 && name[0] == '_') {
            NodeKind::HttpEndpoint
        } else {
            NodeKind::ServiceClass
        };
        Some(model::declared(t, i, path, repo_id, package, name, kind, text::or(t.head(i), name)))
    } else if k == "call"@ && routes {
        match route_name(t, i) {
            Some(name) => Some(model::declared(t, i, path, repo_id, package, name, NodeKind::HttpEndpoint, name)),
            None => None,
        }
    } else {
        None
    }
}

/// Whether the children of node `i` stand in a controller; the bodies of methods are not
/// visited.
pub open spec fn ruby_inside(t: TreeView, i: int, inside: bool) -> Option<bool> {
    let k = t.kind(i);
    if k == "class"@ {
        Some(is_controller(t, i, text::or(class_name(t, i), "UnknownClass"@)))
    } else if k == "module"@ {
        Some(inside)
    } else if k == "method"@ || k == "singleton_method"@ {
        None
    } else {
        Some(inside)
    }
}

/// What a walk over a Ruby file does at each node.
pub struct RubyRules<'a> {
    pub path: &'a str,
    pub repo_id: RepoId,
    pub package: &'a str,
    pub routes: bool,
}

/// The settings of a walk over a Ruby file, as a mathematical value.
pub struct RubyRulesView {
    pub path: Seq<char>,
    pub repo_id: RepoId,
    pub package: Seq<char>,
    pub routes: bool,
}

impl<'a> View for RubyRules<'a> {
    type V = RubyRulesView;

    open spec fn view(&self) -> RubyRulesView {
        RubyRulesView { path: self.path@, repo_id: self.repo_id, package: self.package@, routes: self.routes }
    }
}

impl<'a> TreeRules for RubyRules<'a> {
    type Context = bool;

    type Output = NodeList;

    open spec fn on_node(rules: RubyRulesView, t: TreeView, parent: Option<int>, i: int, c: bool, o: Seq<ContractNodeView>) -> (Seq<ContractNodeView>, Option<bool>) {
        (model::with(o, ruby_node(t, i, rules.path, rules.repo_id, rules.package, rules.routes, c)), ruby_inside(t, i, c))
    }

    fn visit(&self, t: &SyntaxTree, parent: Option<usize>, i: usize, c: &bool, o: &mut NodeList) -> (r: Option<bool>) {
        o.add(RubyExtractor::node(t, i, self.path, self.repo_id, self.package, self.routes, *c));
        if t.kind_is(i, "class") {
            let name = text::string_or(RubyExtractor::class_name_of(t, i), "UnknownClass");
            let chars = text::chars_of(name.as_str());
            let above = match t.field_text(i, "superclass") {
                Some(s) => text::has_lit(s, "Controller"),
                None => false,
            };
            return Some(text::ends(chars.as_slice(), "Controller") || above);
        }
        if t.kind_is(i, "module") {
            return Some(*c);
        }
        if t.kind_is(i, "method") || t.kind_is(i, "singleton_method") {
            return None;
        }
        Some(*c)
    }
}

/// The declarations of a file. One whose path speaks of routes registers routes.
pub open spec fn ruby_nodes(t: TreeView, path: Seq<char>, repo_id: RepoId, package: Seq<char>) -> Seq<ContractNodeView> {
    ruby_nodes_of(t, path, repo_id, package, text::contains(text::unicode_lowercase(path), "routes"@))
}

/// The declarations of a file that registers routes or does not.
pub open spec fn ruby_nodes_of(t: TreeView, path: Seq<char>, repo_id: RepoId, package: Seq<char>, routes: bool) -> Seq<ContractNodeView> {
    syntax::walk_tree::<RubyRules>(RubyRulesView { path, repo_id, package, routes }, t, AstGuard::MAX_NESTING_DEPTH as int, false, Seq::empty())
}

/// Every declaration of a file carries the file's path, its repository and the package that the
/// file is in, and has no number yet.
pub proof fn law_ruby_nodes_belong(t: TreeView, path: Seq<char>, repo_id: RepoId, package: Seq<char>, routes: bool)
    ensures
        model::belong(ruby_nodes_of(t, path, repo_id, package, routes), path, repo_id, package),
{
    let rules = RubyRulesView { path, repo_id, package, routes };
    let holds = |c: bool, o: Seq<ContractNodeView>| model::belong(o, path, repo_id, package);
    assert(syntax::keeps::<RubyRules>(rules, t, holds));
    syntax::lemma_walk_keeps::<RubyRules>(
        rules,
        t,
        None,
        0,
        t.rows.len() as int,
        0,
        AstGuard::MAX_NESTING_DEPTH as int,
        false,
        false,
        Seq::<ContractNodeView>::empty(),
        holds,
    );
}

impl RubyExtractor {
    /// The declarations of a parsed file.
    pub fn extract(file_path: &str, content: &str, repo_id: RepoId, package: &str, tree: &tree_sitter::Tree) -> (r: Vec<ContractNode>)
        ensures
            model::nodes_view(r@) == ruby_nodes(TreeView { rows: syntax::tree_rows(*tree), src: content@ }, file_path@, repo_id, package@),
    {
        let t = SyntaxTree::of(tree, content);
        let lower = text::lowercase(file_path);
        let chars = text::chars_of(lower.as_str());
        Self::extract_tree(file_path, repo_id, package, text::has_lit(chars.as_slice(), "routes"), &t)
    }

    /// The declarations of a syntax tree of a file that registers routes or does not.
    pub fn extract_tree(file_path: &str, repo_id: RepoId, package: &str, routes: bool, t: &SyntaxTree) -> (r: Vec<ContractNode>)
        ensures
            model::nodes_view(r@) == ruby_nodes_of(t@, file_path@, repo_id, package@, routes),
    {
        let rules = RubyRules { path: file_path, repo_id, package, routes };
        let mut out = NodeList::new();
        syntax::run_tree(&rules, t, AstGuard::MAX_NESTING_DEPTH, &false, &mut out);
        out.items
    }

    /// The name of a class.
    fn class_name_of(t: &SyntaxTree, i: usize) -> (r: Option<&[char]>)
        requires
            t@.valid(i as int),
        ensures
            text::opt_text(r) == class_name(t@, i as int),
    {
        match t.field(i, "name") {
            Some(n) => if t.kind_is(n, "scope_resolution") {
                t.field_text(n, "name")
            } else {
                t.text(n)
            },
            None => None,
        }
    }

    /// The endpoint that `get "/path"` or `resources :name` registers.
    fn route_call_node(t: &SyntaxTree, i: usize) -> (r: Option<String>)
        requires
            t@.valid(i as int),
        ensures
            text::opt_string(r) == route_name(t@, i as int),
    {
        let m = match t.field_text(i, "method") {
            Some(m) => m,
            None => return None,
        };
        proof {
            reveal_strlit("");
        }
        let args = match t.field(i, "arguments") {
            Some(a) => a,
            None => return None,
        };
        let first = match t.named_child(args, 0) {
            Some(a) => a,
            None => return None,
        };
        let arg = match t.text(first) {
            Some(s) => text::trimmed_of(s, "'\":"),
            None => return None,
        };
        if arg.len() == 0 {
            None
        } else if common::route_verb(m) {
            Some(common::name_of_endpoint(m, arg))
        } else if text::is(m, "resources") || text::is(m, "resource") {
            Some(text::joined("resources :", arg))
        } else {
            None
        }
    }

    /// The declaration that node `i` makes, if it makes one.
    fn node(t: &SyntaxTree, i: usize, path: &str, repo_id: RepoId, package: &str, routes: bool, inside: bool) -> (r: Option<ContractNode>)
        requires
            t@.valid(i as int),
        ensures
            syntax::opt_view(r) == ruby_node(t@, i as int, path@, repo_id, package@, routes, inside),
    {
        if t.kind_is(i, "class") {
            let name = text::string_or(Self::class_name_of(t, i), "UnknownClass");
            let signature = text::string_or(t.head(i), name.as_str());
            Some(model::declare(t, i, path, repo_id, package, name, NodeKind::ServiceClass, signature))
        } else if t.kind_is(i, "module") {
            let name = text::string_or(t.field_text(i, "name"), "UnknownModule");
            let signature = text::string_or(t.head(i), name.as_str());
            Some(model::declare(t, i, path, repo_id, package, name, NodeKind::Interface, signature))
        } else if t.kind_is(i, "method") || t.kind_is(i, "singleton_method") {
            let name = text::string_or(t.field_text(i, "name"), "unknown_method");
            let chars = text::chars_of(name.as_str());
            let private = chars.len() > 0 && chars[0] == '_';
            let kind = if inside && !text::is(chars.as_slice(), "initialize") && !private {
                NodeKind::HttpEndpoint
            } else {
                NodeKind::ServiceClass
            };
            let signature = text::string_or(t.head(i), name.as_str());
            Some(model::declare(t, i, path, repo_id, package, name, kind, signature))
        } else if t.kind_is(i, "call") && routes {
            match Self::route_call_node(t, i) {
                Some(name) => {
                    let signature = text::copy(name.as_str());
                    Some(model::declare(t, i, path, repo_id, package, name, NodeKind::HttpEndpoint, signature))
                },
                None => None,
            }
        } else {
            None
        }
    }
}

} // verus!
