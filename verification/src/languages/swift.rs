//! Swift declarations and Vapor routes.
use vstd::prelude::*;
use crate::guard::AstGuard;
use crate::languages::common;
use crate::languages::common::FileRules;
use crate::model;
use crate::model::{ContractNode, ContractNodeView, NodeKind, NodeList, RepoId};
use crate::syntax;
use crate::syntax::{SyntaxTree, TreeRules, TreeView};
use crate::text;

verus! {

/// Swift extractor. `class_declaration` covers `class`, `struct` and `extension` in
/// this grammar (all are `ServiceClass`), `protocol_declaration` is an `Interface`, and
/// `app.get("/path") { ... }`-style Vapor route registrations are `HttpEndpoint`.
pub struct SwiftExtractor;

/// What a walk over a Swift file does at each node.
pub struct SwiftRules<'a> {
    pub path: &'a str,
    pub repo_id: RepoId,
    pub package: &'a str,
}

/// The node of the path literal in `app.get("/path") { ... }`.
pub open spec fn vapor_literal(t: TreeView, i: int) -> Option<int> {
    match t.child_of_kind(i, "call_suffix"@) {
        Some(suffix) => match t.child_of_kind(suffix, "value_arguments"@) {
            Some(args) => match t.named_child(args, 0) {
                Some(first) => match t.field(first, "value"@) {
                    Some(v) => Some(v),
                    None => t.named_child(first, 0),
                },
                None => None,
            },
            None => None,
        },
        None => None,
    }
}

/// The verb of `app.get("/path") { ... }`, where the call is one.
pub open spec fn vapor_verb(t: TreeView, i: int) -> Option<Seq<char>> {
    match t.child_of_kind(i, "navigation_expression"@) {
        Some(nav) => match t.field_text(nav, "suffix"@) {
            Some(s) => if common::is_route_verb(text::trim_front(s, "."@)) {
                Some(text::trim_front(s, "."@))
            } else {
                None
            },
            None => None,
        },
        None => None,
    }
}

/// The name of the endpoint that the call registers: its verb and its path.
pub open spec fn vapor_route(t: TreeView, i: int) -> Option<Seq<char>> {
    match vapor_verb(t, i) {
        Some(verb) => match vapor_literal(t, i) {
            Some(lit) => match t.text(lit) {
                Some(path) => Some(common::endpoint_name(verb, text::trim_set(path, "\""@))),
                None => None,
            },
            None => None,
        },
        None => None,
    }
}

/// The declaration that node `i` makes, if it makes one.
pub open spec fn swift_node(t: TreeView, i: int, path: Seq<char>, repo_id: RepoId, package: Seq<char>) -> Option<ContractNodeView> {
    let k = t.kind(i);
    if k == "class_declaration"@ || k == "protocol_declaration"@ {
        let name = text::or(t.field_text(i, "name"@), "UnknownType"@);
        let kind = if k == "protocol_declaration"@ {
            NodeKind::Interface
        } else {
            NodeKind::ServiceClass
        };
        Some(model::declared(t, i, path, repo_id, package, name, kind, text::or(t.head(i), name)))
    } else if k == "function_declaration"@ || k == "protocol_function_declaration"@ {
        let name = text::or(t.field_text(i, "name"@), "unknownFunc"@);
        let kind = if text::starts_with(name, "handle"@) || text::ends_with(name, "Handler"@) {
            NodeKind::HttpEndpoint
        } else {
            NodeKind::ServiceClass
        };
        Some(model::declared(t, i, path, repo_id, package, name, kind, text::or(t.head(i), name)))
    } else if k == "call_expression"@ {
        match vapor_route(t, i) {
            Some(name) => Some(model::declared(t, i, path, repo_id, package, name, NodeKind::HttpEndpoint, name)),
            None => None,
        }
    } else {
        None
    }
}

impl<'a> View for SwiftRules<'a> {
    type V = FileRules;

    open spec fn view(&self) -> FileRules {
        FileRules { path: self.path@, repo_id: self.repo_id, package: self.package@ }
    }
}

/// The declarations of a file.
pub open spec fn swift_nodes(t: TreeView, path: Seq<char>, repo_id: RepoId, package: Seq<char>) -> Seq<ContractNodeView> {
    syntax::walk_tree::<SwiftRules>(FileRules { path, repo_id, package }, t, AstGuard::MAX_NESTING_DEPTH as int, (), Seq::empty())
}

impl<'a> TreeRules for SwiftRules<'a> {
    type Context = ();

    type Output = NodeList;

    open spec fn on_node(rules: FileRules, t: TreeView, parent: Option<int>, i: int, c: (), o: Seq<ContractNodeView>) -> (Seq<ContractNodeView>, Option<()>) {
        (model::with(o, swift_node(t, i, rules.path, rules.repo_id, rules.package)), Some(()))
    }

    fn visit(&self, t: &SyntaxTree, parent: Option<usize>, i: usize, c: &(), o: &mut NodeList) -> (r: Option<()>) {
        o.add(SwiftExtractor::node(t, i, self.path, self.repo_id, self.package));
        Some(())
    }
}

/// Every declaration of a file carries the file's path, its repository and the package that the
/// file is in, and has no number yet.
pub proof fn law_swift_nodes_belong(t: TreeView, path: Seq<char>, repo_id: RepoId, package: Seq<char>)
    ensures
        model::belong(swift_nodes(t, path, repo_id, package), path, repo_id, package),
{
    let rules = FileRules { path, repo_id, package };
    let holds = |c: (), o: Seq<ContractNodeView>| model::belong(o, path, repo_id, package);
    assert(syntax::keeps::<SwiftRules>(rules, t, holds));
    syntax::lemma_walk_keeps::<SwiftRules>(
        rules,
        t,
        None,
        0,
        t.rows.len() as int,
        0,
        AstGuard::MAX_NESTING_DEPTH as int,
        (),
        (),
        Seq::<ContractNodeView>::empty(),
        holds,
    );
}

impl SwiftExtractor {
    /// The declarations of a parsed file.
    pub fn extract(file_path: &str, content: &str, repo_id: RepoId, package: &str, tree: &tree_sitter::Tree) -> (r: Vec<ContractNode>)
        ensures
            model::nodes_view(r@) == swift_nodes(
                TreeView { rows: syntax::tree_rows(*tree), src: content@ },
                file_path@,
                repo_id,
                package@,
            ),
    {
        let t = SyntaxTree::of(tree, content);
        Self::extract_tree(file_path, repo_id, package, &t)
    }

    /// The declaration that node `i` makes, if it makes one.
    fn node(t: &SyntaxTree, i: usize, path: &str, repo_id: RepoId, package: &str) -> (r: Option<ContractNode>)
        requires
            t@.valid(i as int),
        ensures
            syntax::opt_view(r) == swift_node(t@, i as int, path@, repo_id, package@),
    {
        if t.kind_is(i, "class_declaration") || t.kind_is(i, "protocol_declaration") {
            let name = text::string_or(t.field_text(i, "name"), "UnknownType");
            let kind = if t.kind_is(i, "protocol_declaration") {
                NodeKind::Interface
            } else {
                NodeKind::ServiceClass
            };
            let signature = text::string_or(t.head(i), name.as_str());
            Some(model::declare(t, i, path, repo_id, package, name, kind, signature))
        } else if t.kind_is(i, "function_declaration") || t.kind_is(i, "protocol_function_declaration") {
            let name = text::string_or(t.field_text(i, "name"), "unknownFunc");
            let chars = text::chars_of(name.as_str());
            let kind = if text::begins(chars.as_slice(), "handle") || text::ends(chars.as_slice(), "Handler") {
                NodeKind::HttpEndpoint
            } else {
                NodeKind::ServiceClass
            };
            let signature = text::string_or(t.head(i), name.as_str());
            Some(model::declare(t, i, path, repo_id, package, name, kind, signature))
        } else if t.kind_is(i, "call_expression") {
            match Self::vapor_route_node(t, i) {
                Some(name) => {
                    let signature = text::copy(name.as_str());
                    Some(model::declare(t, i, path, repo_id, package, name, NodeKind::HttpEndpoint, signature))
                },
                None => None,
            }
        } else {
            None
        }
    }

    /// Recognises `app.get("/path") { ... }` and `router.post("/path") { ... }`.
    fn vapor_route_node(t: &SyntaxTree, i: usize) -> (r: Option<String>)
        requires
            t@.valid(i as int),
        ensures
            text::opt_string(r) == vapor_route(t@, i as int),
    {
        let nav = match t.child_of_kind(i, "navigation_expression") {
            Some(n) => n,
            None => return None,
        };
        let verb = match t.field_text(nav, "suffix") {
            Some(s) => text::trimmed_front(s, "."),
            None => return None,
        };
        if !common::route_verb(verb) {
            return None;
        }
        let suffix = match t.child_of_kind(i, "call_suffix") {
            Some(n) => n,
            None => return None,
        };
        let args = match t.child_of_kind(suffix, "value_arguments") {
            Some(n) => n,
            None => return None,
        };
        let first = match t.named_child(args, 0) {
            Some(n) => n,
            None => return None,
        };
        let literal = match t.field(first, "value") {
            Some(n) => n,
            None => match t.named_child(first, 0) {
                Some(n) => n,
                None => return None,
            },
        };
        match t.text(literal) {
            Some(path) => Some(common::name_of_endpoint(verb, text::trimmed_of(path, "\""))),
            None => None,
        }
    }

    /// The declarations of a syntax tree.
    pub fn extract_tree(file_path: &str, repo_id: RepoId, package: &str, t: &SyntaxTree) -> (r: Vec<ContractNode>)
        ensures
            model::nodes_view(r@) == swift_nodes(t@, file_path@, repo_id, package@),
    {
        let rules = SwiftRules { path: file_path, repo_id, package };
        let mut out = NodeList::new();
        syntax::run_tree(&rules, t, AstGuard::MAX_NESTING_DEPTH, &(), &mut out);
        out.items
    }
}

} // verus!
