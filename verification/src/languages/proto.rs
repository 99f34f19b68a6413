//! Protobuf services, methods, messages and imports, and the wire schema of a file.
use vstd::prelude::*;
use crate::decapitate::LanguageKind;
use crate::guard;
use crate::guard::{AstGuard, ParseOutcome};
use crate::languages::wire;
use crate::languages::wire::{
    FieldView, MessageView, ProtoCardinality, ProtoWireField, ProtoWireMessage, ProtoWireSchema, SchemaView,
    PROTO_MAX_FIELD_NUMBER,
};
use crate::model;
use crate::model::{ContractNode, ContractNodeView, NodeKind, NodeList, RepoId};
use crate::numbers;
use crate::syntax;
use crate::syntax::{SyntaxTree, TreeRules, TreeView};
use crate::text;

verus! {

/// Protobuf extractor.
pub struct ProtoExtractor;

/// The files that a file imports, each linked to the first declaration of the file.
#[derive(Debug)]
pub struct ProtoRelations {
    pub dependencies: Vec<(usize, String)>,
}

impl Default for ProtoRelations {
    fn default() -> (r: ProtoRelations)
        ensures
            r.dependencies@.len() == 0,
    {
        ProtoRelations { dependencies: Vec::new() }
    }
}

/// The text of the first child of a kind, trimmed, where anything is left of it.
pub open spec fn child_text(t: TreeView, i: int, kind: Seq<char>) -> Option<Seq<char>> {
    match t.child_of_kind(i, kind) {
        Some(k) => match t.text(k) {
            Some(s) => non_empty(text::trim(s)),
            None => None,
        },
        None => None,
    }
}

/// A text, unless it is empty.
pub open spec fn non_empty(s: Seq<char>) -> Option<Seq<char>> {
    if s.len() > 0 {
        Some(s)
    } else {
        None
    }
}

/// The first line of node `i`, unless it is empty.
pub open spec fn proto_signature(t: TreeView, i: int) -> Option<Seq<char>> {
    match t.head(i) {
        Some(l) => non_empty(l),
        None => None,
    }
}

/// The sibling before node `i`, line breaks aside.
pub open spec fn item_before(t: TreeView, parent: int, i: int) -> Option<int>
    decreases i,
{
    match t.previous(Some(parent), i) {
        Some(k) => if t.kind(k) == "\n"@ && 0 <= k < i {
            item_before(t, parent, k)
        } else {
            Some(k)
        },
        None => None,
    }
}

/// The comment before node `i`.
pub open spec fn comment_before(t: TreeView, parent: int, i: int) -> Option<Seq<char>> {
    match item_before(t, parent, i) {
        Some(k) => if t.kind(k) == "comment"@ {
            match t.text(k) {
                Some(s) => non_empty(text::trim(s)),
                None => None,
            }
        } else {
            None
        },
        None => None,
    }
}

/// The file that an extraction is over.
#[verifier::ext_equal]
pub struct ProtoFile {
    pub path: Seq<char>,
    pub repo_id: RepoId,
    pub package: Seq<char>,
    pub canonical: bool,
}

/// The declaration at node `i`.
pub open spec fn proto_node(f: ProtoFile, t: TreeView, parent: int, i: int, name: Seq<char>, kind: NodeKind) -> ContractNodeView {
    ContractNodeView {
        signature: proto_signature(t, i),
        docstring: comment_before(t, parent, i),
        ..model::declared(t, i, f.path, f.repo_id, f.package, name, kind, ""@)
    }
}

/// The name of a method: that of its service before it, if names are canonical.
pub open spec fn method_name(f: ProtoFile, service: Seq<char>, rpc: Seq<char>) -> Seq<char> {
    if f.canonical {
        service + "."@ + rpc
    } else {
        rpc
    }
}

/// The methods among the children `ks` of a service.
pub open spec fn proto_methods(f: ProtoFile, t: TreeView, service: int, name: Seq<char>, ks: Seq<int>) -> Seq<ContractNodeView>
    decreases ks.len(),
{
    if ks.len() == 0 {
        Seq::empty()
    } else {
        let rest = proto_methods(f, t, service, name, ks.drop_last());
        let k = ks.last();
        match child_text(t, k, "rpc_name"@) {
            Some(rpc) => if t.kind(k) == "rpc"@ {
                rest.push(proto_node(f, t, service, k, method_name(f, name, rpc), NodeKind::GrpcMethod))
            } else {
                rest
            },
            None => rest,
        }
    }
}

/// What the children of a node are looked at for.
#[derive(Clone, Copy)]
pub enum ProtoScope {
    /// Declarations.
    Items,
    /// The body of a message.
    Message,
}

impl View for ProtoScope {
    type V = ProtoScope;

    open spec fn view(&self) -> ProtoScope {
        *self
    }
}

/// A walk that gathers the declarations of a file.
pub struct ProtoRules<'a> {
    pub path: &'a str,
    pub repo_id: RepoId,
    pub package: &'a str,
    pub canonical: bool,
}

impl<'a> View for ProtoRules<'a> {
    type V = ProtoFile;

    open spec fn view(&self) -> ProtoFile {
        ProtoFile { path: self.path@, repo_id: self.repo_id, package: self.package@, canonical: self.canonical }
    }
}

/// What a walk has gathered after node `i`, and what its children are looked at for. A service
/// brings its methods along. A message is gone into for the messages in it.
pub open spec fn proto_step(
    rules: ProtoFile,
    t: TreeView,
    parent: Option<int>,
    i: int,
    c: ProtoScope,
    o: Seq<ContractNodeView>,
) -> (Seq<ContractNodeView>, Option<ProtoScope>) {
    match parent {
        None => (o, Some(ProtoScope::Items)),
        Some(p) => match c {
            ProtoScope::Message => if t.child_of_kind(p, "message_body"@) == Some(i) {
                (o, Some(ProtoScope::Items))
            } else {
                (o, None)
            },
            ProtoScope::Items => if t.kind(i) == "service"@ {
                match child_text(t, i, "service_name"@) {
                    Some(name) => (
                        o.push(proto_node(rules, t, p, i, name, NodeKind::GrpcService)) + proto_methods(
                            rules,
                            t,
                            i,
                            name,
                            t.children(i),
                        ),
                        None,
                    ),
                    None => (o, None),
                }
            } else if t.kind(i) == "message"@ {
                match child_text(t, i, "message_name"@) {
                    Some(name) => (
                        o.push(proto_node(rules, t, p, i, name, NodeKind::ProtoMessage)),
                        Some(ProtoScope::Message),
                    ),
                    None => (o, None),
                }
            } else {
                (o, None)
            },
        },
    }
}

impl<'a> TreeRules for ProtoRules<'a> {
    type Context = ProtoScope;

    type Output = NodeList;

    open spec fn on_node(
        rules: ProtoFile,
        t: TreeView,
        parent: Option<int>,
        i: int,
        c: ProtoScope,
        o: Seq<ContractNodeView>,
    ) -> (Seq<ContractNodeView>, Option<ProtoScope>) {
        proto_step(rules, t, parent, i, c, o)
    }

    fn visit(&self, t: &SyntaxTree, parent: Option<usize>, i: usize, c: &ProtoScope, o: &mut NodeList) -> (r: Option<ProtoScope>) {
        let ghost step = Self::on_node(self@, t@, text::opt_int(parent), i as int, c@, o@);
        let r = self.visit_node(t, parent, i, *c, o);
        assert((o@, r) == step);
        r
    }
}

impl<'a> ProtoRules<'a> {
    /// Takes in node `i`.
    fn visit_node(&self, t: &SyntaxTree, parent: Option<usize>, i: usize, c: ProtoScope, o: &mut NodeList) -> (r: Option<ProtoScope>)
        requires
            t@.valid(i as int),
            parent matches Some(p) ==> t@.valid(p as int),
        ensures
            (final(o)@, r) == proto_step(self@, t@, text::opt_int(parent), i as int, c, old(o)@),
    {
        let p = match parent {
            None => return Some(ProtoScope::Items),
            Some(p) => p,
        };
        match c {
            ProtoScope::Message => match t.child_of_kind(p, "message_body") {
                Some(k) => if k == i {
                    Some(ProtoScope::Items)
                } else {
                    None
                },
                None => None,
            },
            ProtoScope::Items => if t.kind_is(i, "service") {
                match ProtoExtractor::find_child_text(t, i, "service_name") {
                    Some(name) => {
                        let n = self.node(t, p, i, text::string_of(name), NodeKind::GrpcService);
                        model::push_node(&mut o.items, n);
                        self.add_methods(t, i, name, &mut o.items);
                    },
                    None => {},
                }
                None
            } else if t.kind_is(i, "message") {
                match ProtoExtractor::find_child_text(t, i, "message_name") {
                    Some(name) => {
                        let n = self.node(t, p, i, text::string_of(name), NodeKind::ProtoMessage);
                        model::push_node(&mut o.items, n);
                        Some(ProtoScope::Message)
                    },
                    None => None,
                }
            } else {
                None
            },
        }
    }

    /// The declaration at node `i`.
    fn node(&self, t: &SyntaxTree, parent: usize, i: usize, name: String, kind: NodeKind) -> (r: ContractNode)
        requires
            t@.valid(i as int),
            t@.valid(parent as int),
        ensures
            r@ == proto_node(self@, t@, parent as int, i as int, name@, kind),
    {
        let mut n = model::declare(t, i, self.path, self.repo_id, self.package, name, kind, text::copy(""));
        n.signature = match t.head(i) {
            Some(l) => if l.len() > 0 {
                Some(text::string_of(l))
            } else {
                None
            },
            None => None,
        };
        n.docstring = ProtoExtractor::extract_preceding_docstring(t, parent, i);
        n
    }

    /// Adds the methods of a service.
    fn add_methods(&self, t: &SyntaxTree, service: usize, name: &[char], out: &mut Vec<ContractNode>)
        requires
            t@.valid(service as int),
        ensures
            model::nodes_view(final(out)@) == model::nodes_view(old(out)@) + proto_methods(
                self@,
                t@,
                service as int,
                name@,
                t@.children(service as int),
            ),
    {
        let ghost start = model::nodes_view(out@);
        let ks = t.children(service);
        let ghost kv = syntax::ints(ks@);
        let mut j: usize = 0;
        assert(start + proto_methods(self@, t@, service as int, name@, kv.take(0)) == start);
        while j < ks.len()
            invariant
                0 <= j <= ks@.len(),
                t@.valid(service as int),
                kv == syntax::ints(ks@),
                forall|j: int| 0 <= j < ks@.len() ==> t@.valid(#[trigger] ks@[j] as int),
                model::nodes_view(out@) == start + proto_methods(self@, t@, service as int, name@, kv.take(j as int)),
            decreases ks@.len() - j,
        {
            proof {
                syntax::lemma_take_step(kv, j as int);
                assert(kv[j as int] == ks@[j as int] as int);
            }
            if t.kind_is(ks[j], "rpc") {
                match ProtoExtractor::find_child_text(t, ks[j], "rpc_name") {
                    Some(rpc) => {
                        let full = if self.canonical {
                            text::joined3(name, ".", rpc)
                        } else {
                            text::string_of(rpc)
                        };
                        let n = self.node(t, service, ks[j], full, NodeKind::GrpcMethod);
                        let ghost rest = proto_methods(self@, t@, service as int, name@, kv.take(j as int));
                        assert(start + rest.push(n@) == (start + rest).push(n@));
                        model::push_node(out, n);
                    },
                    None => {},
                }
            }
            j += 1;
        }
        assert(kv.take(j as int) == kv);
    }
}

/// The first name among the children of a package declaration.
pub open spec fn package_ident(t: TreeView, ks: Seq<int>) -> Option<Seq<char>>
    decreases ks.len(),
{
    if ks.len() == 0 {
        None
    } else {
        let name = match t.text(ks[0]) {
            Some(s) => non_empty(text::trim(s)),
            None => None,
        };
        if (t.kind(ks[0]) == "full_ident"@ || t.kind(ks[0]) == "identifier"@) && name is Some {
            name
        } else {
            package_ident(t, ks.drop_first())
        }
    }
}

/// The package that node `i` declares.
pub open spec fn package_name(t: TreeView, i: int) -> Option<Seq<char>> {
    match package_ident(t, t.children(i)) {
        Some(name) => Some(name),
        None => match t.text(i) {
            Some(s) => non_empty(text::trim(text::trim_back(text::strip_repeated(s, "package"@), ";"@))),
            None => None,
        },
    }
}

/// The file that an import names: its first string literal that is not empty.
pub open spec fn import_path(t: TreeView, ks: Seq<int>) -> Option<Seq<char>>
    decreases ks.len(),
{
    if ks.len() == 0 {
        None
    } else {
        let name = match t.text(ks[0]) {
            Some(s) => non_empty(text::trim_set(s, "\"'"@)),
            None => None,
        };
        if t.kind(ks[0]) == "string"@ && name is Some {
            name
        } else {
            import_path(t, ks.drop_first())
        }
    }
}

/// The package that the top-level nodes declare: the last one that has a name.
pub open spec fn file_package(t: TreeView, ks: Seq<int>) -> Seq<char>
    decreases ks.len(),
{
    if ks.len() == 0 {
        ""@
    } else {
        let rest = file_package(t, ks.drop_last());
        if t.kind(ks.last()) == "package"@ {
            text::or(package_name(t, ks.last()), rest)
        } else {
            rest
        }
    }
}

/// The files that the top-level nodes import.
pub open spec fn file_imports(t: TreeView, ks: Seq<int>) -> Seq<Seq<char>>
    decreases ks.len(),
{
    if ks.len() == 0 {
        Seq::empty()
    } else {
        let rest = file_imports(t, ks.drop_last());
        if t.kind(ks.last()) == "import"@ {
            model::with(rest, import_path(t, t.children(ks.last())))
        } else {
            rest
        }
    }
}

/// The declarations of a file.
pub open spec fn proto_nodes(t: TreeView, path: Seq<char>, repo_id: RepoId, canonical: bool) -> Seq<ContractNodeView> {
    syntax::walk_tree::<ProtoRules>(
        ProtoFile { path, repo_id, package: file_package(t, t.children(0)), canonical },
        t,
        usize::MAX as int,
        ProtoScope::Items,
        Seq::empty(),
    )
}

/// The imports of a file, each linked to its first declaration, if it has any.
pub open spec fn proto_dependencies(t: TreeView, path: Seq<char>, repo_id: RepoId, canonical: bool) -> Seq<(int, Seq<char>)> {
    if proto_nodes(t, path, repo_id, canonical).len() > 0 {
        file_imports(t, t.children(0)).map_values(|p: Seq<char>| (0int, p))
    } else {
        Seq::empty()
    }
}

impl ProtoExtractor {
    /// The declarations of a file. Methods are named `Service.Method`.
    pub fn extract(file_path: &str, content: &str, repo_id: RepoId) -> (r: Vec<ContractNode>)
        ensures
            r@.len() == 0 || exists|t: TreeView| #[trigger]
                guard::tree_of(LanguageKind::Protobuf, AstGuard::PARSER_TIMEOUT_MICROS, content@, t) && model::nodes_view(r@)
                    == proto_nodes(t, file_path@, repo_id, true),
    {
        Self::extract_with_config(file_path, content, repo_id, true)
    }

    /// The declarations of a file. Methods are named `Service.Method`, or only by their own
    /// names.
    pub fn extract_with_config(file_path: &str, content: &str, repo_id: RepoId, canonical_fqcn_projection: bool) -> (r: Vec<
        ContractNode,
    >)
        ensures
            r@.len() == 0 || exists|t: TreeView| #[trigger]
                guard::tree_of(LanguageKind::Protobuf, AstGuard::PARSER_TIMEOUT_MICROS, content@, t) && model::nodes_view(r@)
                    == proto_nodes(t, file_path@, repo_id, canonical_fqcn_projection),
    {
        match AstGuard::parse_with(LanguageKind::Protobuf, content, AstGuard::PARSER_TIMEOUT_MICROS) {
            ParseOutcome::Parsed(tree) => Self::extract_with_parser(
                file_path,
                content,
                repo_id,
                canonical_fqcn_projection,
                &tree,
            ),
            ParseOutcome::ParseFailed => Vec::new(),
            ParseOutcome::NoGrammar => Vec::new(),
        }
    }

    /// The declarations of a parsed file.
    pub fn extract_with_parser(
        file_path: &str,
        content: &str,
        repo_id: RepoId,
        canonical_fqcn_projection: bool,
        tree: &tree_sitter::Tree,
    ) -> (r: Vec<ContractNode>)
        ensures
            model::nodes_view(r@) == proto_nodes(
                TreeView { rows: syntax::tree_rows(*tree), src: content@ },
                file_path@,
                repo_id,
                canonical_fqcn_projection,
            ),
    {
        Self::extract_with_relations(file_path, content, repo_id, canonical_fqcn_projection, tree).0
    }

    /// The declarations of a parsed file and the files that it imports.
    pub fn extract_with_relations(
        file_path: &str,
        content: &str,
        repo_id: RepoId,
        canonical_fqcn_projection: bool,
        tree: &tree_sitter::Tree,
    ) -> (r: (Vec<ContractNode>, ProtoRelations))
        ensures
            ({
                let t = TreeView { rows: syntax::tree_rows(*tree), src: content@ };
                &&& model::nodes_view(r.0@) == proto_nodes(t, file_path@, repo_id, canonical_fqcn_projection)
                &&& model::links_view(r.1.dependencies@) == proto_dependencies(t, file_path@, repo_id, canonical_fqcn_projection)
            }),
    {
        let t = SyntaxTree::of(tree, content);
        Self::extract_tree(file_path, repo_id, canonical_fqcn_projection, &t)
    }

    /// The declarations of a syntax tree and the files that it imports.
    pub fn extract_tree(file_path: &str, repo_id: RepoId, canonical: bool, t: &SyntaxTree) -> (r: (Vec<ContractNode>, ProtoRelations))
        ensures
            model::nodes_view(r.0@) == proto_nodes(t@, file_path@, repo_id, canonical),
            model::links_view(r.1.dependencies@) == proto_dependencies(t@, file_path@, repo_id, canonical),
    {
        let ks = t.top();
        let (package, imports) = Self::header(t, &ks);
        let rules = ProtoRules { path: file_path, repo_id, package: package.as_str(), canonical };
        let mut nodes = NodeList::new();
        syntax::run_tree(&rules, t, usize::MAX, &ProtoScope::Items, &mut nodes);
        assert(nodes@.len() == nodes.items@.len());
        let dependencies = if nodes.items.len() > 0 {
            Self::link_to_first(&imports)
        } else {
            Vec::new()
        };
        (nodes.items, ProtoRelations { dependencies })
    }

    /// The texts, each linked to the first declaration.
    fn link_to_first(imports: &Vec<String>) -> (r: Vec<(usize, String)>)
        ensures
            model::links_view(r@) == text::strings(imports@).map_values(|p: Seq<char>| (0int, p)),
    {
        let mut out: Vec<(usize, String)> = Vec::new();
        let ghost iv = text::strings(imports@);
        let ghost all = iv.map_values(|p: Seq<char>| (0int, p));
        let mut j: usize = 0;
        assert(model::links_view(out@) == all.take(0));
        while j < imports.len()
            invariant
                0 <= j <= imports@.len(),
                iv == text::strings(imports@),
                all == iv.map_values(|p: Seq<char>| (0int, p)),
                model::links_view(out@) == all.take(j as int),
            decreases imports@.len() - j,
        {
            model::push_link(&mut out, 0, text::copy(imports[j].as_str()));
            assert(iv[j as int] == imports@[j as int]@);
            assert(all.take(j + 1) == all.take(j as int).push(all[j as int]));
            j += 1;
        }
        assert(all.take(j as int) == all);
        out
    }

    /// The package and the imports that the top-level nodes declare.
    fn header(t: &SyntaxTree, ks: &Vec<usize>) -> (r: (String, Vec<String>))
        requires
            forall|j: int| 0 <= j < ks@.len() ==> t@.valid(#[trigger] ks@[j] as int),
        ensures
            r.0@ == file_package(t@, syntax::ints(ks@)),
            text::strings(r.1@) == file_imports(t@, syntax::ints(ks@)),
    {
        let ghost kv = syntax::ints(ks@);
        let mut package = text::copy("");
        let mut imports: Vec<String> = Vec::new();
        let mut j: usize = 0;
        assert(text::strings(imports@) == file_imports(t@, kv.take(0)));
        while j < ks.len()
            invariant
                0 <= j <= ks@.len(),
                kv == syntax::ints(ks@),
                forall|j: int| 0 <= j < ks@.len() ==> t@.valid(#[trigger] ks@[j] as int),
                package@ == file_package(t@, kv.take(j as int)),
                text::strings(imports@) == file_imports(t@, kv.take(j as int)),
            decreases ks@.len() - j,
        {
            proof {
                syntax::lemma_take_step(kv, j as int);
                assert(kv[j as int] == ks@[j as int] as int);
                reveal_strlit("package");
                reveal_strlit("import");
                assert("package"@.len() != "import"@.len());
            }
            if t.kind_is(ks[j], "package") {
                match Self::extract_package_name(t, ks[j]) {
                    Some(name) => {
                        package = name;
                    },
                    None => {},
                }
            } else if t.kind_is(ks[j], "import") {
                match Self::extract_import_path(t, ks[j]) {
                    Some(path) => model::push_string(&mut imports, path),
                    None => {},
                }
            }
            j += 1;
        }
        assert(kv.take(j as int) == kv);
        (package, imports)
    }

    /// The file that an import names.
    fn extract_import_path(t: &SyntaxTree, i: usize) -> (r: Option<String>)
        requires
            t@.valid(i as int),
        ensures
            text::opt_string(r) == import_path(t@, t@.children(i as int)),
    {
        let ks = t.children(i);
        let ghost kv = syntax::ints(ks@);
        let mut j: usize = 0;
        assert(kv.skip(0) == kv);
        while j < ks.len()
            invariant
                0 <= j <= ks@.len(),
                kv == syntax::ints(ks@),
                kv == t@.children(i as int),
                forall|j: int| 0 <= j < ks@.len() ==> t@.valid(#[trigger] ks@[j] as int),
                import_path(t@, kv) == import_path(t@, kv.skip(j as int)),
            decreases ks@.len() - j,
        {
            proof {
                syntax::lemma_skip_step(kv, j as int);
                assert(kv[j as int] == ks@[j as int] as int);
            }
            if t.kind_is(ks[j], "string") {
                match t.text(ks[j]) {
                    Some(s) => {
                        let bare = text::trimmed_of(s, "\"'");
                        if bare.len() > 0 {
                            return Some(text::string_of(bare));
                        }
                    },
                    None => {},
                }
            }
            j += 1;
        }
        None
    }

    /// The package that node `i` declares.
    fn extract_package_name(t: &SyntaxTree, i: usize) -> (r: Option<String>)
        requires
            t@.valid(i as int),
        ensures
            text::opt_string(r) == package_name(t@, i as int),
    {
        let ks = t.children(i);
        let ghost kv = syntax::ints(ks@);
        let mut j: usize = 0;
        assert(kv.skip(0) == kv);
        while j < ks.len()
            invariant
                0 <= j <= ks@.len(),
                kv == syntax::ints(ks@),
                kv == t@.children(i as int),
                forall|j: int| 0 <= j < ks@.len() ==> t@.valid(#[trigger] ks@[j] as int),
                package_ident(t@, kv) == package_ident(t@, kv.skip(j as int)),
            decreases ks@.len() - j,
        {
            proof {
                syntax::lemma_skip_step(kv, j as int);
                assert(kv[j as int] == ks@[j as int] as int);
            }
            if t.kind_is(ks[j], "full_ident") || t.kind_is(ks[j], "identifier") {
                match t.text(ks[j]) {
                    Some(s) => {
                        let name = text::trimmed(s);
                        if name.len() > 0 {
                            return Some(text::string_of(name));
                        }
                    },
                    None => {},
                }
            }
            j += 1;
        }
        match t.text(i) {
            Some(s) => {
                let name = text::trimmed(text::trimmed_back(text::stripped_repeated(s, "package"), ";"));
                if name.len() > 0 {
                    Some(text::string_of(name))
                } else {
                    None
                }
            },
            None => None,
        }
    }

    /// The text of the first child of a kind, trimmed, where anything is left of it.
    fn find_child_text<'a>(t: &'a SyntaxTree, i: usize, kind: &str) -> (r: Option<&'a [char]>)
        requires
            t@.valid(i as int),
        ensures
            text::opt_text(r) == child_text(t@, i as int, kind@),
    {
        match t.child_of_kind(i, kind) {
            Some(k) => match t.text(k) {
                Some(s) => {
                    let bare = text::trimmed(s);
                    if bare.len() > 0 {
                        Some(bare)
                    } else {
                        None
                    }
                },
                None => None,
            },
            None => None,
        }
    }

    /// The comment before node `i`.
    fn extract_preceding_docstring(t: &SyntaxTree, parent: usize, i: usize) -> (r: Option<String>)
        requires
            t@.valid(parent as int),
        ensures
            text::opt_string(r) == comment_before(t@, parent as int, i as int),
    {
        match Self::find_item_before(t, parent, i) {
            Some(k) => if t.kind_is(k, "comment") {
                match t.text(k) {
                    Some(s) => {
                        let bare = text::trimmed(s);
                        if bare.len() > 0 {
                            Some(text::string_of(bare))
                        } else {
                            None
                        }
                    },
                    None => None,
                }
            } else {
                None
            },
            None => None,
        }
    }

    /// The sibling before node `i`, line breaks aside.
    fn find_item_before(t: &SyntaxTree, parent: usize, i: usize) -> (r: Option<usize>)
        requires
            t@.valid(parent as int),
        ensures
            text::opt_int(r) == item_before(t@, parent as int, i as int),
            r matches Some(k) ==> t@.valid(k as int),
        decreases i,
    {
        match t.previous(Some(parent), i) {
            Some(k) => if t.kind_is(k, "\n") && k < i {
                Self::find_item_before(t, parent, k)
            } else {
                Some(k)
            },
            None => None,
        }
    }
}

/// Why a file has no wire schema.
#[derive(Debug, Clone, PartialEq, Eq)]
pub enum WireSchemaError {
    /// The file is not parsed at all.
    Rejected(&'static str),
    /// The parser did not come to an end in time.
    ParseFailed,
    /// The file does not parse without errors; near this line.
    SyntaxError(usize),
}

impl WireSchemaError {
    /// How the error reads.
    pub open spec fn spoken(self) -> Seq<char> {
        match self {
            WireSchemaError::Rejected(m) => "rejected by the parser guard: "@ + m@,
            WireSchemaError::ParseFailed => "tree-sitter parse failed or timed out"@,
            WireSchemaError::SyntaxError(line) => "syntax error near line "@ + numbers::decimal(line as int),
        }
    }

    /// How the error reads.
    pub fn message(&self) -> (r: String)
        ensures
            r@ == self.spoken(),
    {
        match self {
            WireSchemaError::Rejected(m) => {
                let chars = text::chars_of(m);
                text::joined("rejected by the parser guard: ", chars.as_slice())
            },
            WireSchemaError::ParseFailed => text::copy("tree-sitter parse failed or timed out"),
            WireSchemaError::SyntaxError(line) => {
                let digits = numbers::decimal_of(*line);
                text::joined("syntax error near line ", digits.as_slice())
            },
        }
    }
}

/// The number that a protobuf integer literal stands for: hexadecimal after `0x`, octal after
/// `0`, decimal otherwise.
pub open spec fn int_literal(s: Seq<char>) -> Option<int> {
    let t = text::trim(s);
    if text::starts_with(t, "0x"@) || text::starts_with(t, "0X"@) {
        numbers::number_in(t.skip(2), 16)
    } else if t.len() > 1 && t[0] == '0' {
        numbers::number_in(t.skip(1), 8)
    } else {
        numbers::number_in(t, 10)
    }
}

proof fn lemma_digits_are_not_trimmed(s: Seq<char>)
    requires
        s.len() > 0,
        numbers::is_digit(s[0]),
        numbers::is_digit(s.last()),
    ensures
        text::trim(s) == s,
{
    reveal_strlit(
        "\t\n\u{b}\u{c}\r \u{85}\u{a0}\u{1680}\u{2000}\u{2001}\u{2002}\u{2003}\u{2004}\u{2005}\u{2006}\u{2007}\u{2008}\u{2009}\u{200a}\u{2028}\u{2029}\u{202f}\u{205f}\u{3000}",
    );
    assert forall|c: char| numbers::is_digit(c) implies !text::WHITE_SPACE@.contains(c) by {
        if text::WHITE_SPACE@.contains(c) {
            let k = choose|k: int| 0 <= k < text::WHITE_SPACE@.len() && text::WHITE_SPACE@[k] == c;
            assert(!numbers::is_digit(text::WHITE_SPACE@[k]));
        }
    }
}

/// Every number is read from each of its writings: in decimal digits, in hexadecimal digits of
/// either case after `0x` or `0X`, and in octal digits after `0`.
pub proof fn law_writings_of_a_number_agree(n: u32, upper: bool)
    ensures
        int_literal(numbers::decimal(n as int)) == Some(n as int),
        int_literal("0x"@ + numbers::written_in(n as int, 16, upper)) == Some(n as int),
        int_literal("0X"@ + numbers::written_in(n as int, 16, upper)) == Some(n as int),
        int_literal("0"@ + numbers::written_in(n as int, 8, upper)) == Some(n as int),
{
    let n = n as int;
    reveal_strlit("0x");
    reveal_strlit("0X");
    reveal_strlit("0");
    let d = numbers::written_in(n, 10, false);
    let o = numbers::written_in(n, 8, upper);
    let h = numbers::written_in(n, 16, upper);
    numbers::lemma_decimal_is_written(n);
    numbers::law_digits_are_read_back(n, 10, false);
    numbers::law_digits_are_read_back(n, 8, upper);
    numbers::law_digits_are_read_back(n, 16, upper);
    numbers::law_numbers_are_read_back(n, 10, false);
    numbers::law_numbers_are_read_back(n, 8, upper);
    numbers::law_numbers_are_read_back(n, 16, upper);
    assert(numbers::is_digit(d[0]) && numbers::is_digit(d[d.len() - 1]));
    assert(numbers::is_digit(o[0]) && numbers::is_digit(o[o.len() - 1]));
    assert(numbers::is_digit(h[0]) && numbers::is_digit(h[h.len() - 1]));
    lemma_digits_are_not_trimmed(d);
    let x = "0x"@ + h;
    assert(x[0] == '0' && x.last() == h[h.len() - 1]);
    lemma_digits_are_not_trimmed(x);
    assert(x.skip(2) == h);
    assert(text::starts_with(x, "0x"@)) by {
        assert(x.subrange(0, 2) == "0x"@);
    }
    let y = "0X"@ + h;
    assert(y[0] == '0' && y.last() == h[h.len() - 1]);
    lemma_digits_are_not_trimmed(y);
    assert(y.skip(2) == h);
    assert(text::starts_with(y, "0X"@)) by {
        assert(y.subrange(0, 2) == "0X"@);
    }
    let z = "0"@ + o;
    assert(z[0] == '0' && z[1] == o[0] && z.last() == o[o.len() - 1]);
    lemma_digits_are_not_trimmed(z);
    assert(z.skip(1) == o);
    assert(!text::starts_with(z, "0x"@) && !text::starts_with(z, "0X"@)) by {
        assert("0x"@[1] == 'x' && "0X"@[1] == 'X');
        if text::starts_with(z, "0x"@) {
            assert(z[1] == z.subrange(0, 2)[1]);
        }
        if text::starts_with(z, "0X"@) {
            assert(z[1] == z.subrange(0, 2)[1]);
        }
    }
    assert(!text::starts_with(d, "0x"@) && !text::starts_with(d, "0X"@)) by {
        assert("0x"@[0] == '0' && "0X"@[0] == '0');
        if d.len() >= 2 {
            assert(d[0] == d.subrange(0, 2)[0]);
        }
    }
}

/// White space around an integer literal changes nothing of what it stands for.
pub proof fn law_literals_ignore_white_space(a: Seq<char>, s: Seq<char>, b: Seq<char>)
    requires
        forall|k: int| 0 <= k < a.len() ==> text::WHITE_SPACE@.contains(#[trigger] a[k]),
        forall|k: int| 0 <= k < b.len() ==> text::WHITE_SPACE@.contains(#[trigger] b[k]),
    ensures
        int_literal(a + s + b) == int_literal(s),
{
    text::law_trimming_ignores_white_space(a, s, b);
}

/// The number that the text of node `i` stands for.
pub open spec fn node_number(t: TreeView, i: int) -> Option<int> {
    match t.text(i) {
        Some(s) => int_literal(s),
        None => None,
    }
}

/// The field that node `i` declares.
pub open spec fn field_at(
    t: TreeView,
    i: int,
    cardinality: ProtoCardinality,
    map_key: Option<Seq<char>>,
    oneof: Option<Seq<char>>,
) -> Option<FieldView> {
    match (child_text(t, i, "type"@), child_text(t, i, "identifier"@), t.child_of_kind(i, "field_number"@)) {
        (Some(value_type), Some(name), Some(n)) => match node_number(t, n) {
            Some(number) => Some(
                FieldView { name, number: number as u32, cardinality, value_type, map_key, oneof, line: t.line(i) },
            ),
            None => None,
        },
        _ => None,
    }
}

/// Whether one of the nodes is the given token.
pub open spec fn has_word(t: TreeView, ks: Seq<int>, word: Seq<char>) -> bool {
    exists|j: int| 0 <= j < ks.len() && !t.named(#[trigger] ks[j]) && t.kind(ks[j]) == word
}

/// The fields of a `oneof`, among its children `ks`.
pub open spec fn oneof_fields(t: TreeView, ks: Seq<int>, name: Option<Seq<char>>) -> Seq<FieldView>
    decreases ks.len(),
{
    if ks.len() == 0 {
        Seq::empty()
    } else {
        let rest = oneof_fields(t, ks.drop_last(), name);
        if t.kind(ks.last()) == "oneof_field"@ {
            model::with(rest, field_at(t, ks.last(), ProtoCardinality::Singular, None, name))
        } else {
            rest
        }
    }
}

/// The fields that a member of a message declares.
pub open spec fn member_fields(t: TreeView, i: int) -> Seq<FieldView> {
    if t.kind(i) == "field"@ {
        let cardinality = if has_word(t, t.children(i), "repeated"@) {
            ProtoCardinality::Repeated
        } else {
            ProtoCardinality::Singular
        };
        model::with(Seq::empty(), field_at(t, i, cardinality, None, None))
    } else if t.kind(i) == "map_field"@ {
        match child_text(t, i, "key_type"@) {
            Some(key) => model::with(Seq::empty(), field_at(t, i, ProtoCardinality::Mapping, Some(key), None)),
            None => Seq::empty(),
        }
    } else if t.kind(i) == "oneof"@ {
        oneof_fields(t, t.children(i), child_text(t, i, "identifier"@))
    } else {
        Seq::empty()
    }
}

/// The fields that the members of a message declare.
pub open spec fn all_fields(t: TreeView, ks: Seq<int>) -> Seq<FieldView>
    decreases ks.len(),
{
    if ks.len() == 0 {
        Seq::empty()
    } else {
        all_fields(t, ks.drop_last()) + member_fields(t, ks.last())
    }
}

/// The bounds that stand among the nodes of a range.
pub open spec fn range_bounds(t: TreeView, ks: Seq<int>) -> Seq<int>
    decreases ks.len(),
{
    if ks.len() == 0 {
        Seq::empty()
    } else {
        let rest = range_bounds(t, ks.drop_last());
        if t.kind(ks.last()) == "int_lit"@ {
            model::with(rest, node_number(t, ks.last()))
        } else {
            rest
        }
    }
}

/// Whether one of the nodes is of a kind.
pub open spec fn has_kind(t: TreeView, ks: Seq<int>, kind: Seq<char>) -> bool {
    exists|j: int| 0 <= j < ks.len() && t.kind(#[trigger] ks[j]) == kind
}

/// The first and the last number of a range: one number stands for itself, or for all from it
/// on.
pub open spec fn reserved_range(t: TreeView, i: int) -> Option<(u32, u32)> {
    let bounds = range_bounds(t, t.children(i));
    if bounds.len() == 1 {
        Some(
            (
                bounds[0] as u32,
                if has_kind(t, t.children(i), "max"@) {
                    PROTO_MAX_FIELD_NUMBER
                } else {
                    bounds[0] as u32
                },
            ),
        )
    } else if bounds.len() == 2 {
        Some((bounds[0] as u32, bounds[1] as u32))
    } else {
        None
    }
}

/// The ranges among the nodes.
pub open spec fn ranges_among(t: TreeView, ks: Seq<int>) -> Seq<(u32, u32)>
    decreases ks.len(),
{
    if ks.len() == 0 {
        Seq::empty()
    } else {
        let rest = ranges_among(t, ks.drop_last());
        if t.kind(ks.last()) == "range"@ {
            model::with(rest, reserved_range(t, ks.last()))
        } else {
            rest
        }
    }
}

/// The ranges that a `reserved` statement with the children `ks` reserves.
pub open spec fn statement_ranges(t: TreeView, ks: Seq<int>) -> Seq<(u32, u32)>
    decreases ks.len(),
{
    if ks.len() == 0 {
        Seq::empty()
    } else {
        let rest = statement_ranges(t, ks.drop_last());
        if t.kind(ks.last()) == "ranges"@ {
            rest + ranges_among(t, t.children(ks.last()))
        } else {
            rest
        }
    }
}

/// The name that node `i` reserves.
pub open spec fn reserved_name(t: TreeView, i: int) -> Option<Seq<char>> {
    match t.text(i) {
        Some(s) => non_empty(text::trim_set(text::trim(s), "\"'"@)),
        None => None,
    }
}

/// The names among the nodes.
pub open spec fn names_among(t: TreeView, ks: Seq<int>) -> Seq<Seq<char>>
    decreases ks.len(),
{
    if ks.len() == 0 {
        Seq::empty()
    } else {
        let rest = names_among(t, ks.drop_last());
        if t.kind(ks.last()) == "reserved_identifier"@ {
            model::with(rest, reserved_name(t, ks.last()))
        } else {
            rest
        }
    }
}

/// The names that a `reserved` statement with the children `ks` reserves.
pub open spec fn statement_names(t: TreeView, ks: Seq<int>) -> Seq<Seq<char>>
    decreases ks.len(),
{
    if ks.len() == 0 {
        Seq::empty()
    } else {
        let rest = statement_names(t, ks.drop_last());
        if t.kind(ks.last()) == "reserved_field_names"@ {
            rest + names_among(t, t.children(ks.last()))
        } else {
            rest
        }
    }
}

/// The ranges that the members of a message reserve.
pub open spec fn all_ranges(t: TreeView, ks: Seq<int>) -> Seq<(u32, u32)>
    decreases ks.len(),
{
    if ks.len() == 0 {
        Seq::empty()
    } else if t.kind(ks.last()) == "reserved"@ {
        all_ranges(t, ks.drop_last()) + statement_ranges(t, t.children(ks.last()))
    } else {
        all_ranges(t, ks.drop_last())
    }
}

/// The names that the members of a message reserve.
pub open spec fn all_names(t: TreeView, ks: Seq<int>) -> Seq<Seq<char>>
    decreases ks.len(),
{
    if ks.len() == 0 {
        Seq::empty()
    } else if t.kind(ks.last()) == "reserved"@ {
        all_names(t, ks.drop_last()) + statement_names(t, t.children(ks.last()))
    } else {
        all_names(t, ks.drop_last())
    }
}

/// The members of the message at node `i`.
pub open spec fn members(t: TreeView, i: int) -> Seq<int> {
    match t.child_of_kind(i, "message_body"@) {
        Some(b) => t.children(b),
        None => Seq::empty(),
    }
}

/// The message at node `i`.
pub open spec fn message_of(t: TreeView, i: int, path: Seq<char>) -> MessageView {
    let ks = members(t, i);
    MessageView {
        path,
        line: t.line(i),
        fields: all_fields(t, ks),
        reserved_ranges: all_ranges(t, ks),
        reserved_names: all_names(t, ks),
    }
}

/// The path of a message inside another.
pub open spec fn nested_path(prefix: Seq<char>, name: Seq<char>) -> Seq<char> {
    if prefix.len() == 0 {
        name
    } else {
        prefix + "."@ + name
    }
}

/// What the children of a node are looked at for, and the path of the message around them.
pub enum WireScope {
    /// Messages and enums.
    Items(String),
    /// The body of a message.
    Message(String),
}

/// A scope, as a mathematical value.
#[verifier::ext_equal]
pub enum WireScopeView {
    Items(Seq<char>),
    Message(Seq<char>),
}

impl View for WireScope {
    type V = WireScopeView;

    open spec fn view(&self) -> WireScopeView {
        match self {
            WireScope::Items(p) => WireScopeView::Items(p@),
            WireScope::Message(p) => WireScopeView::Message(p@),
        }
    }
}

/// A walk that gathers the messages and the enums of a file.
pub struct WireRules;

impl View for WireRules {
    type V = ();

    open spec fn view(&self) -> () {
        ()
    }
}

/// What a walk has gathered after node `i`, and what its children are looked at for.
pub open spec fn wire_step(t: TreeView, parent: Option<int>, i: int, c: WireScopeView, o: SchemaView) -> (
    SchemaView,
    Option<WireScopeView>,
) {
    match parent {
        None => (o, Some(WireScopeView::Items(""@))),
        Some(p) => match c {
            WireScopeView::Message(path) => if t.child_of_kind(p, "message_body"@) == Some(i) {
                (o, Some(WireScopeView::Items(path)))
            } else {
                (o, None)
            },
            WireScopeView::Items(prefix) => if t.kind(i) == "enum"@ {
                (SchemaView { enum_names: model::with(o.enum_names, child_text(t, i, "enum_name"@)), ..o }, None)
            } else if t.kind(i) == "message"@ {
                match child_text(t, i, "message_name"@) {
                    Some(name) => {
                        let path = nested_path(prefix, name);
                        (
                            SchemaView { messages: o.messages.push(message_of(t, i, path)), ..o },
                            Some(WireScopeView::Message(path)),
                        )
                    },
                    None => (o, None),
                }
            } else {
                (o, None)
            },
        },
    }
}

impl TreeRules for WireRules {
    type Context = WireScope;

    type Output = ProtoWireSchema;

    open spec fn on_node(
        rules: (),
        t: TreeView,
        parent: Option<int>,
        i: int,
        c: WireScopeView,
        o: SchemaView,
    ) -> (SchemaView, Option<WireScopeView>) {
        wire_step(t, parent, i, c, o)
    }

    fn visit(&self, t: &SyntaxTree, parent: Option<usize>, i: usize, c: &WireScope, o: &mut ProtoWireSchema) -> (r: Option<WireScope>) {
        Self::visit_node(t, parent, i, c, o)
    }
}

impl WireRules {
    /// Takes in node `i`.
    fn visit_node(t: &SyntaxTree, parent: Option<usize>, i: usize, c: &WireScope, o: &mut ProtoWireSchema) -> (r: Option<WireScope>)
        requires
            t@.valid(i as int),
            parent matches Some(p) ==> t@.valid(p as int),
        ensures
            (final(o)@, syntax::opt_view(r)) == wire_step(t@, text::opt_int(parent), i as int, c@, old(o)@),
    {
        let p = match parent {
            None => return Some(WireScope::Items(text::copy(""))),
            Some(p) => p,
        };
        match c {
            WireScope::Message(path) => match t.child_of_kind(p, "message_body") {
                Some(k) => if k == i {
                    Some(WireScope::Items(text::copy(path.as_str())))
                } else {
                    None
                },
                None => None,
            },
            WireScope::Items(prefix) => if t.kind_is(i, "enum") {
                match ProtoExtractor::find_child_text(t, i, "enum_name") {
                    Some(name) => model::push_string(&mut o.enum_names, text::string_of(name)),
                    None => {},
                }
                None
            } else if t.kind_is(i, "message") {
                match ProtoExtractor::find_child_text(t, i, "message_name") {
                    Some(name) => {
                        let around = text::chars_of(prefix.as_str());
                        let path = if around.len() == 0 {
                            text::string_of(name)
                        } else {
                            text::joined3(around.as_slice(), ".", name)
                        };
                        let inner = text::copy(path.as_str());
                        let ghost start = o@;
                        let ghost before = o.messages@;
                        assert(path@ == nested_path(prefix@, name@));
                        let m = ProtoExtractor::message(t, i, path);
                        o.messages.push(m);
                        assert(wire::messages_view(o.messages@) == wire::messages_view(before).push(m@));
                        assert(o@ == SchemaView { messages: start.messages.push(m@), ..start });
                        Some(WireScope::Message(inner))
                    },
                    None => None,
                }
            } else {
                None
            },
        }
    }
}

/// The wire schema of a syntax tree.
pub open spec fn schema_of(t: TreeView) -> SchemaView {
    syntax::walk_tree::<WireRules>(
        (),
        t,
        usize::MAX as int,
        WireScopeView::Items(""@),
        SchemaView { messages: Seq::empty(), enum_names: Seq::empty() },
    )
}

/// The line of an error, once it is found.
pub struct ErrorLine {
    pub line: Option<usize>,
}

impl View for ErrorLine {
    type V = Option<int>;

    open spec fn view(&self) -> Option<int> {
        text::opt_int(self.line)
    }
}

/// A walk that looks for the first error.
pub struct ErrorRules;

impl View for ErrorRules {
    type V = ();

    open spec fn view(&self) -> () {
        ()
    }
}

impl TreeRules for ErrorRules {
    type Context = ();

    type Output = ErrorLine;

    open spec fn on_node(rules: (), t: TreeView, parent: Option<int>, i: int, c: (), o: Option<int>) -> (Option<int>, Option<()>) {
        if o is Some {
            (o, None)
        } else if t.rows[i].error || t.rows[i].missing {
            (Some(t.line(i)), None)
        } else if t.rows[i].has_error {
            (o, Some(()))
        } else {
            (o, None)
        }
    }

    fn visit(&self, t: &SyntaxTree, parent: Option<usize>, i: usize, c: &(), o: &mut ErrorLine) -> (r: Option<()>) {
        if o.line.is_some() {
            return None;
        }
        let n = t.node(i);
        if n.error || n.missing {
            o.line = Some(t.line(i));
            None
        } else if n.has_error {
            Some(())
        } else {
            None
        }
    }
}

/// The line of the first error of a tree that has one, or else that of the root.
pub open spec fn error_line(t: TreeView) -> int {
    match syntax::walk_tree::<ErrorRules>((), t, usize::MAX as int, (), None) {
        Some(line) => line,
        None => t.line(0),
    }
}

/// Whether a tree has errors.
pub open spec fn is_broken(t: TreeView) -> bool {
    t.rows.len() > 0 && t.rows[0].has_error
}

/// Whether a result is the wire schema of a syntax tree: the error where the tree has one.
pub open spec fn is_schema_of(r: Result<ProtoWireSchema, WireSchemaError>, t: TreeView) -> bool {
    if is_broken(t) {
        r matches Err(WireSchemaError::SyntaxError(line)) && line == error_line(t)
    } else {
        r matches Ok(s) && s@ == schema_of(t)
    }
}

/// Why a file is not parsed, if it is not.
pub open spec fn rejection(b: Seq<u8>) -> Option<Seq<char>> {
    if b.len() > AstGuard::MAX_SCHEMA_FILE_SIZE_BYTES {
        Some("file exceeds the 1.5 MB schema budget"@)
    } else if guard::binary(b) {
        Some("binary content (null byte)"@)
    } else if guard::has_long_line(b) {
        Some("a line exceeds 1,024 bytes"@)
    } else if guard::nesting(b) > AstGuard::MAX_NESTING_DEPTH {
        Some("nesting depth exceeds 64"@)
    } else {
        None
    }
}

impl ProtoExtractor {
    /// The wire schema of a file, if it may be parsed and parses without errors in time.
    pub fn wire_schema(content: &str) -> (r: Result<ProtoWireSchema, WireSchemaError>)
        ensures
            match rejection(vstd::utf8::encode_utf8(content@)) {
                Some(m) => r matches Err(WireSchemaError::Rejected(e)) && e@ == m,
                None => r matches Err(WireSchemaError::ParseFailed) || exists|t: TreeView| #[trigger]
                    guard::tree_of(LanguageKind::Protobuf, AstGuard::QUERY_PARSE_TIMEOUT_MICROS, content@, t) && is_schema_of(r, t),
            },
    {
        let bytes = content.as_bytes();
        if bytes.len() as u64 > AstGuard::MAX_SCHEMA_FILE_SIZE_BYTES {
            return Err(WireSchemaError::Rejected("file exceeds the 1.5 MB schema budget"));
        }
        if AstGuard::looks_binary(bytes) {
            return Err(WireSchemaError::Rejected("binary content (null byte)"));
        }
        if AstGuard::has_long_line(bytes) {
            return Err(WireSchemaError::Rejected("a line exceeds 1,024 bytes"));
        }
        if AstGuard::max_nesting_depth(bytes) > AstGuard::MAX_NESTING_DEPTH {
            return Err(WireSchemaError::Rejected("nesting depth exceeds 64"));
        }
        match AstGuard::parse_with(LanguageKind::Protobuf, content, AstGuard::QUERY_PARSE_TIMEOUT_MICROS) {
            ParseOutcome::Parsed(tree) => {
                let t = SyntaxTree::of(&tree, content);
                Self::wire_schema_of_tree(&t)
            },
            ParseOutcome::ParseFailed => Err(WireSchemaError::ParseFailed),
            ParseOutcome::NoGrammar => Err(WireSchemaError::ParseFailed),
        }
    }

    /// The wire schema of a syntax tree without errors.
    pub fn wire_schema_of_tree(t: &SyntaxTree) -> (r: Result<ProtoWireSchema, WireSchemaError>)
        ensures
            is_schema_of(r, t@),
    {
        if t.len() > 0 && t.node(0).has_error {
            return Err(WireSchemaError::SyntaxError(Self::first_error_line(t)));
        }
        let mut schema = ProtoWireSchema::default();
        syntax::run_tree(&WireRules, t, usize::MAX, &WireScope::Items(text::copy("")), &mut schema);
        Ok(schema)
    }

    /// The line of the first error, or else that of the root.
    fn first_error_line(t: &SyntaxTree) -> (r: usize)
        requires
            t@.rows.len() > 0,
        ensures
            r == error_line(t@),
    {
        let mut found = ErrorLine { line: None };
        syntax::run_tree(&ErrorRules, t, usize::MAX, &(), &mut found);
        match found.line {
            Some(line) => line,
            None => t.line(0),
        }
    }

    /// The message at node `i`.
    fn message(t: &SyntaxTree, i: usize, path: String) -> (r: ProtoWireMessage)
        requires
            t@.valid(i as int),
        ensures
            r@ == message_of(t@, i as int, path@),
    {
        let mut message = ProtoWireMessage::default();
        message.path = path;
        message.line = t.line(i);
        match t.child_of_kind(i, "message_body") {
            Some(b) => {
                let ks = t.children(b);
                Self::collect_message_members(t, &ks, &mut message);
            },
            None => {},
        }
        message
    }

    /// Adds the fields and the reservations that members declare.
    fn collect_message_members(t: &SyntaxTree, ks: &Vec<usize>, message: &mut ProtoWireMessage)
        requires
            forall|j: int| 0 <= j < ks@.len() ==> t@.valid(#[trigger] ks@[j] as int),
            old(message)@.fields == Seq::<FieldView>::empty(),
            old(message)@.reserved_ranges == Seq::<(u32, u32)>::empty(),
            old(message)@.reserved_names == Seq::<Seq<char>>::empty(),
        ensures
            final(message)@ == (MessageView {
                fields: all_fields(t@, syntax::ints(ks@)),
                reserved_ranges: all_ranges(t@, syntax::ints(ks@)),
                reserved_names: all_names(t@, syntax::ints(ks@)),
                ..old(message)@
            }),
    {
        let ghost kv = syntax::ints(ks@);
        let ghost start = message@;
        let mut j: usize = 0;
        while j < ks.len()
            invariant
                0 <= j <= ks@.len(),
                kv == syntax::ints(ks@),
                forall|j: int| 0 <= j < ks@.len() ==> t@.valid(#[trigger] ks@[j] as int),
                message@ == (MessageView {
                    fields: all_fields(t@, kv.take(j as int)),
                    reserved_ranges: all_ranges(t@, kv.take(j as int)),
                    reserved_names: all_names(t@, kv.take(j as int)),
                    ..start
                }),
            decreases ks@.len() - j,
        {
            proof {
                syntax::lemma_take_step(kv, j as int);
                assert(kv[j as int] == ks@[j as int] as int);
            }
            Self::add_member_fields(t, ks[j], &mut message.fields);
            if t.kind_is(ks[j], "reserved") {
                Self::collect_reserved(t, ks[j], &mut message.reserved_ranges, &mut message.reserved_names);
            }
            j += 1;
        }
        assert(kv.take(j as int) == kv);
    }

    fn push_field(v: &mut Vec<ProtoWireField>, f: Option<ProtoWireField>)
        ensures
            wire::fields_view(final(v)@) == model::with(wire::fields_view(old(v)@), syntax::opt_view(f)),
    {
        match f {
            Some(x) => {
                let ghost before = v@;
                v.push(x);
                assert(wire::fields_view(v@) == wire::fields_view(before).push(x@));
            },
            None => {},
        }
    }

    /// Adds the fields that a member of a message declares.
    fn add_member_fields(t: &SyntaxTree, i: usize, out: &mut Vec<ProtoWireField>)
        requires
            t@.valid(i as int),
        ensures
            wire::fields_view(final(out)@) == wire::fields_view(old(out)@) + member_fields(t@, i as int),
    {
        let ghost start = wire::fields_view(out@);
        proof {
            reveal_strlit("field");
            reveal_strlit("map_field");
            reveal_strlit("oneof");
            assert("field"@[0] != "oneof"@[0]);
            assert("field"@.len() != "map_field"@.len());
            assert("oneof"@.len() != "map_field"@.len());
            assert(start + Seq::<FieldView>::empty() == start);
        }
        if t.kind_is(i, "field") {
            let cardinality = if Self::has_token(t, i, "repeated") {
                ProtoCardinality::Repeated
            } else {
                ProtoCardinality::Singular
            };
            let f = Self::wire_field(t, i, cardinality, None, None);
            assert(start + model::with(Seq::empty(), syntax::opt_view(f)) == model::with(start, syntax::opt_view(f)));
            Self::push_field(out, f);
        } else if t.kind_is(i, "map_field") {
            match Self::find_child_text(t, i, "key_type") {
                Some(key) => {
                    let f = Self::wire_field(t, i, ProtoCardinality::Mapping, Some(text::string_of(key)), None);
                    assert(start + model::with(Seq::empty(), syntax::opt_view(f)) == model::with(start, syntax::opt_view(f)));
                    Self::push_field(out, f);
                },
                None => {},
            }
        } else if t.kind_is(i, "oneof") {
            Self::add_oneof_fields(t, i, out);
        }
    }

    /// Adds the fields of a `oneof`.
    fn add_oneof_fields(t: &SyntaxTree, i: usize, out: &mut Vec<ProtoWireField>)
        requires
            t@.valid(i as int),
        ensures
            wire::fields_view(final(out)@) == wire::fields_view(old(out)@) + oneof_fields(
                t@,
                t@.children(i as int),
                child_text(t@, i as int, "identifier"@),
            ),
    {
        let ghost start = wire::fields_view(out@);
        let name = Self::find_child_text(t, i, "identifier");
        let ghost nv = text::opt_text(name);
        let ks = t.children(i);
        let ghost kv = syntax::ints(ks@);
        let mut j: usize = 0;
        assert(start + oneof_fields(t@, kv.take(0), nv) == start);
        while j < ks.len()
            invariant
                0 <= j <= ks@.len(),
                nv == text::opt_text(name),
                kv == syntax::ints(ks@),
                forall|j: int| 0 <= j < ks@.len() ==> t@.valid(#[trigger] ks@[j] as int),
                wire::fields_view(out@) == start + oneof_fields(t@, kv.take(j as int), nv),
            decreases ks@.len() - j,
        {
            proof {
                syntax::lemma_take_step(kv, j as int);
                assert(kv[j as int] == ks@[j as int] as int);
            }
            if t.kind_is(ks[j], "oneof_field") {
                let around = match name {
                    Some(s) => Some(text::string_of(s)),
                    None => None,
                };
                let f = Self::wire_field(t, ks[j], ProtoCardinality::Singular, None, around);
                let ghost rest = oneof_fields(t@, kv.take(j as int), nv);
                assert(start + model::with(rest, syntax::opt_view(f)) == model::with(start + rest, syntax::opt_view(f)));
                Self::push_field(out, f);
            }
            j += 1;
        }
        assert(kv.take(j as int) == kv);
    }

    /// The field that node `i` declares.
    fn wire_field(t: &SyntaxTree, i: usize, cardinality: ProtoCardinality, map_key: Option<String>, oneof: Option<String>) -> (r: Option<
        ProtoWireField,
    >)
        requires
            t@.valid(i as int),
        ensures
            syntax::opt_view(r) == field_at(t@, i as int, cardinality, text::opt_string(map_key), text::opt_string(oneof)),
    {
        let value_type = match Self::find_child_text(t, i, "type") {
            Some(s) => s,
            None => return None,
        };
        let name = match Self::find_child_text(t, i, "identifier") {
            Some(s) => s,
            None => return None,
        };
        let k = match t.child_of_kind(i, "field_number") {
            Some(k) => k,
            None => return None,
        };
        match Self::number_of_node(t, k) {
            Some(number) => Some(
                ProtoWireField {
                    name: text::string_of(name),
                    number,
                    cardinality,
                    value_type: text::string_of(value_type),
                    map_key,
                    oneof,
                    line: t.line(i),
                },
            ),
            None => None,
        }
    }

    /// The number that the text of node `i` stands for.
    fn number_of_node(t: &SyntaxTree, i: usize) -> (r: Option<u32>)
        requires
            t@.valid(i as int),
        ensures
            (match r {
                Some(v) => Some(v as int),
                None => None,
            }) == node_number(t@, i as int),
    {
        match t.text(i) {
            Some(s) => Self::parse_int_chars(s),
            None => None,
        }
    }

    /// The number that a protobuf integer literal stands for: decimal, octal after `0` or
    /// hexadecimal after `0x`.
    pub fn parse_int_lit(text: &str) -> (r: Option<u32>)
        ensures
            (match r {
                Some(v) => Some(v as int),
                None => None,
            }) == int_literal(text@),
    {
        let chars = text::chars_of(text);
        Self::parse_int_chars(chars.as_slice())
    }

    fn parse_int_chars(s: &[char]) -> (r: Option<u32>)
        ensures
            (match r {
                Some(v) => Some(v as int),
                None => None,
            }) == int_literal(s@),
    {
        let t = text::trimmed(s);
        proof {
            reveal_strlit("0x");
            reveal_strlit("0X");
        }
        if text::begins(t, "0x") || text::begins(t, "0X") {
            numbers::parse_in(text::from(t, 2), 16)
        } else if t.len() > 1 && t[0] == '0' {
            numbers::parse_in(text::from(t, 1), 8)
        } else {
            numbers::parse_in(t, 10)
        }
    }

    /// Whether node `i` has the given token.
    fn has_token(t: &SyntaxTree, i: usize, word: &str) -> (r: bool)
        requires
            t@.valid(i as int),
        ensures
            r == has_word(t@, t@.children(i as int), word@),
    {
        let ks = t.children(i);
        let ghost kv = syntax::ints(ks@);
        let mut j: usize = 0;
        while j < ks.len()
            invariant
                0 <= j <= ks@.len(),
                kv == syntax::ints(ks@),
                kv == t@.children(i as int),
                forall|j: int| 0 <= j < ks@.len() ==> t@.valid(#[trigger] ks@[j] as int),
                forall|k: int| 0 <= k < j ==> t@.named(#[trigger] kv[k]) || t@.kind(kv[k]) != word@,
            decreases ks@.len() - j,
        {
            assert(kv[j as int] == ks@[j as int] as int);
            if !t.named(ks[j]) && t.kind_is(ks[j], word) {
                return true;
            }
            j += 1;
        }
        false
    }

    /// Adds the ranges and the names that a `reserved` statement reserves.
    fn collect_reserved(t: &SyntaxTree, i: usize, ranges: &mut Vec<(u32, u32)>, names: &mut Vec<String>)
        requires
            t@.valid(i as int),
        ensures
            final(ranges)@ == old(ranges)@ + statement_ranges(t@, t@.children(i as int)),
            text::strings(final(names)@) == text::strings(old(names)@) + statement_names(t@, t@.children(i as int)),
    {
        let ghost first = ranges@;
        let ghost second = text::strings(names@);
        let ks = t.children(i);
        let ghost kv = syntax::ints(ks@);
        let mut j: usize = 0;
        proof {
            assert(first + statement_ranges(t@, kv.take(0)) == first);
            assert(second + statement_names(t@, kv.take(0)) == second);
            reveal_strlit("ranges");
            reveal_strlit("reserved_field_names");
            assert("ranges"@.len() != "reserved_field_names"@.len());
        }
        while j < ks.len()
            invariant
                0 <= j <= ks@.len(),
                "ranges"@ != "reserved_field_names"@,
                kv == syntax::ints(ks@),
                forall|j: int| 0 <= j < ks@.len() ==> t@.valid(#[trigger] ks@[j] as int),
                ranges@ == first + statement_ranges(t@, kv.take(j as int)),
                text::strings(names@) == second + statement_names(t@, kv.take(j as int)),
            decreases ks@.len() - j,
        {
            proof {
                syntax::lemma_take_step(kv, j as int);
                assert(kv[j as int] == ks@[j as int] as int);
            }
            if t.kind_is(ks[j], "ranges") {
                let ghost rest = statement_ranges(t@, kv.take(j as int));
                let ghost more = ranges_among(t@, t@.children(kv[j as int]));
                Self::add_ranges(t, ks[j], ranges);
                assert((first + rest) + more == first + (rest + more));
            } else if t.kind_is(ks[j], "reserved_field_names") {
                let ghost rest = statement_names(t@, kv.take(j as int));
                let ghost more = names_among(t@, t@.children(kv[j as int]));
                Self::add_names(t, ks[j], names);
                assert((second + rest) + more == second + (rest + more));
            }
            j += 1;
        }
        assert(kv.take(j as int) == kv);
    }

    /// Adds the ranges under node `i`.
    fn add_ranges(t: &SyntaxTree, i: usize, out: &mut Vec<(u32, u32)>)
        requires
            t@.valid(i as int),
        ensures
            final(out)@ == old(out)@ + ranges_among(t@, t@.children(i as int)),
    {
        let ghost start = out@;
        let ks = t.children(i);
        let ghost kv = syntax::ints(ks@);
        let mut j: usize = 0;
        assert(start + ranges_among(t@, kv.take(0)) == start);
        while j < ks.len()
            invariant
                0 <= j <= ks@.len(),
                kv == syntax::ints(ks@),
                forall|j: int| 0 <= j < ks@.len() ==> t@.valid(#[trigger] ks@[j] as int),
                out@ == start + ranges_among(t@, kv.take(j as int)),
            decreases ks@.len() - j,
        {
            proof {
                syntax::lemma_take_step(kv, j as int);
                assert(kv[j as int] == ks@[j as int] as int);
            }
            if t.kind_is(ks[j], "range") {
                match Self::range(t, ks[j]) {
                    Some(x) => {
                        let ghost rest = ranges_among(t@, kv.take(j as int));
                        out.push(x);
                        assert(start + rest.push(x) == (start + rest).push(x));
                    },
                    None => {},
                }
            }
            j += 1;
        }
        assert(kv.take(j as int) == kv);
    }

    /// The first and the last number of the range at node `i`.
    fn range(t: &SyntaxTree, i: usize) -> (r: Option<(u32, u32)>)
        requires
            t@.valid(i as int),
        ensures
            r == reserved_range(t@, i as int),
    {
        let ks = t.children(i);
        let ghost kv = syntax::ints(ks@);
        let mut bounds: Vec<u32> = Vec::new();
        let mut to_max = false;
        let mut j: usize = 0;
        assert(bounds@.map_values(|v: u32| v as int) == range_bounds(t@, kv.take(0)));
        while j < ks.len()
            invariant
                0 <= j <= ks@.len(),
                kv == syntax::ints(ks@),
                kv == t@.children(i as int),
                forall|j: int| 0 <= j < ks@.len() ==> t@.valid(#[trigger] ks@[j] as int),
                bounds@.map_values(|v: u32| v as int) == range_bounds(t@, kv.take(j as int)),
                to_max == exists|k: int| 0 <= k < j && t@.kind(#[trigger] kv[k]) == "max"@,
            decreases ks@.len() - j,
        {
            proof {
                syntax::lemma_take_step(kv, j as int);
                assert(kv[j as int] == ks@[j as int] as int);
            }
            if t.kind_is(ks[j], "int_lit") {
                match Self::number_of_node(t, ks[j]) {
                    Some(v) => {
                        let ghost before = bounds@;
                        bounds.push(v);
                        assert(bounds@.map_values(|v: u32| v as int) == before.map_values(|v: u32| v as int).push(v as int));
                    },
                    None => {},
                }
            }
            if t.kind_is(ks[j], "max") {
                to_max = true;
            }
            j += 1;
        }
        assert(kv.take(j as int) == kv);
        let ghost bv = bounds@.map_values(|v: u32| v as int);
        assert(bv.len() == bounds@.len());
        if bounds.len() == 1 {
            assert(bv[0] == bounds@[0] as int);
            if to_max {
                Some((bounds[0], PROTO_MAX_FIELD_NUMBER))
            } else {
                Some((bounds[0], bounds[0]))
            }
        } else if bounds.len() == 2 {
            assert(bv[0] == bounds@[0] as int && bv[1] == bounds@[1] as int);
            Some((bounds[0], bounds[1]))
        } else {
            None
        }
    }

    /// Adds the names under node `i`.
    fn add_names(t: &SyntaxTree, i: usize, out: &mut Vec<String>)
        requires
            t@.valid(i as int),
        ensures
            text::strings(final(out)@) == text::strings(old(out)@) + names_among(t@, t@.children(i as int)),
    {
        let ghost start = text::strings(out@);
        let ks = t.children(i);
        let ghost kv = syntax::ints(ks@);
        let mut j: usize = 0;
        assert(start + names_among(t@, kv.take(0)) == start);
        while j < ks.len()
            invariant
                0 <= j <= ks@.len(),
                kv == syntax::ints(ks@),
                forall|j: int| 0 <= j < ks@.len() ==> t@.valid(#[trigger] ks@[j] as int),
                text::strings(out@) == start + names_among(t@, kv.take(j as int)),
            decreases ks@.len() - j,
        {
            proof {
                syntax::lemma_take_step(kv, j as int);
                assert(kv[j as int] == ks@[j as int] as int);
            }
            if t.kind_is(ks[j], "reserved_identifier") {
                match t.text(ks[j]) {
                    Some(s) => {
                        let bare = text::trimmed_of(text::trimmed(s), "\"'");
                        if bare.len() > 0 {
                            let ghost rest = names_among(t@, kv.take(j as int));
                            model::push_string(out, text::string_of(bare));
                            assert(start + rest.push(bare@) == (start + rest).push(bare@));
                        }
                    },
                    None => {},
                }
            }
            j += 1;
        }
        assert(kv.take(j as int) == kv);
    }
}

} // verus!
