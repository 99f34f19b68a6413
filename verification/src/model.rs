//! The contract graph's data: declarations and the relations between them.
use vstd::prelude::*;
use crate::syntax::{SyntaxTree, TreeView};
use crate::text;

verus! {

/// The repository that a declaration belongs to.
pub type RepoId = u32;

/// What a declaration is.
#[derive(Clone, Copy, Debug, PartialEq, Eq, Structural)]
pub enum NodeKind {
    GrpcService,
    GrpcMethod,
    HttpEndpoint,
    ProtoMessage,
    Interface,
    KafkaTopic,
    EventStream,
    Queue,
    Saga,
    PostProcessor,
    ServiceClass,
}

/// A declaration found in a source file.
#[derive(Clone, Debug)]
pub struct ContractNode {
    pub id: u32,
    pub name: String,
    pub kind: NodeKind,
    pub file_path: String,
    pub line_start: usize,
    pub line_end: usize,
    pub package: String,
    pub repo_id: RepoId,
    pub signature: Option<String>,
    pub docstring: Option<String>,
}

/// A declaration, as a mathematical value.
#[verifier::ext_equal]
pub struct ContractNodeView {
    pub id: int,
    pub name: Seq<char>,
    pub kind: NodeKind,
    pub file_path: Seq<char>,
    pub line_start: int,
    pub line_end: int,
    pub package: Seq<char>,
    pub repo_id: RepoId,
    pub signature: Option<Seq<char>>,
    pub docstring: Option<Seq<char>>,
}

impl View for ContractNode {
    type V = ContractNodeView;

    open spec fn view(&self) -> ContractNodeView {
        ContractNodeView {
            id: self.id as int,
            name: self.name@,
            kind: self.kind,
            file_path: self.file_path@,
            line_start: self.line_start as int,
            line_end: self.line_end as int,
            package: self.package@,
            repo_id: self.repo_id,
            signature: text::opt_string(self.signature),
            docstring: text::opt_string(self.docstring),
        }
    }
}

/// A list of declarations, each by its view.
pub open spec fn nodes_view(v: Seq<ContractNode>) -> Seq<ContractNodeView> {
    v.map_values(|n: ContractNode| n@)
}

/// A list of links from a declaration, by its place in the list, to a name.
pub open spec fn links_view(v: Seq<(usize, String)>) -> Seq<(int, Seq<char>)> {
    v.map_values(|l: (usize, String)| (l.0 as int, l.1@))
}

/// A list of pairs of names.
pub open spec fn pairs_view(v: Seq<(String, String)>) -> Seq<(Seq<char>, Seq<char>)> {
    v.map_values(|p: (String, String)| (p.0@, p.1@))
}

/// Appends a declaration.
pub fn push_node(v: &mut Vec<ContractNode>, n: ContractNode)
    ensures
        nodes_view(final(v)@) == nodes_view(old(v)@).push(n@),
{
    v.push(n);
}

/// Appends a link.
pub fn push_link(v: &mut Vec<(usize, String)>, i: usize, target: String)
    ensures
        links_view(final(v)@) == links_view(old(v)@).push((i as int, target@)),
{
    v.push((i, target));
}

/// Appends a pair of names.
pub fn push_pair(v: &mut Vec<(String, String)>, a: String, b: String)
    ensures
        pairs_view(final(v)@) == pairs_view(old(v)@).push((a@, b@)),
{
    v.push((a, b));
}

/// Appends a string.
pub fn push_string(v: &mut Vec<String>, s: String)
    ensures
        text::strings(final(v)@) == text::strings(old(v)@).push(s@),
{
    v.push(s);
}

/// Whether declarations that have no number yet are all those of one file, in one package.
pub open spec fn belong(nodes: Seq<ContractNodeView>, path: Seq<char>, repo_id: RepoId, package: Seq<char>) -> bool {
    forall|k: int|
        0 <= k < nodes.len() ==> (#[trigger] nodes[k]).id == 0 && nodes[k].file_path == path && nodes[k].repo_id == repo_id
            && nodes[k].package == package
}

/// Whether declarations that have no number yet are all those of one file, each in the package
/// that the file starts with or in one that stands for a declared name.
pub open spec fn belong_among(
    nodes: Seq<ContractNodeView>,
    path: Seq<char>,
    repo_id: RepoId,
    packages: PackagesView,
    first: Seq<char>,
) -> bool {
    forall|k: int|
        0 <= k < nodes.len() ==> (#[trigger] nodes[k]).id == 0 && nodes[k].file_path == path && nodes[k].repo_id == repo_id
            && packages.gives(nodes[k].package, first)
}

/// The declaration that node `i` of a file makes.
pub open spec fn declared(
    t: TreeView,
    i: int,
    path: Seq<char>,
    repo_id: RepoId,
    package: Seq<char>,
    name: Seq<char>,
    kind: NodeKind,
    signature: Seq<char>,
) -> ContractNodeView {
    ContractNodeView {
        id: 0,
        name,
        kind,
        file_path: path,
        line_start: t.line(i),
        line_end: t.end_line(i),
        package,
        repo_id,
        signature: Some(signature),
        docstring: None,
    }
}

/// The declaration that node `i` of a file makes.
pub fn declare(
    t: &SyntaxTree,
    i: usize,
    path: &str,
    repo_id: RepoId,
    package: &str,
    name: String,
    kind: NodeKind,
    signature: String,
) -> (r: ContractNode)
    requires
        t@.valid(i as int),
    ensures
        r@ == declared(t@, i as int, path@, repo_id, package@, name@, kind, signature@),
{
    ContractNode {
        id: 0,
        name,
        kind,
        file_path: text::copy(path),
        line_start: t.line(i),
        line_end: t.end_line(i),
        package: text::copy(package),
        repo_id,
        signature: Some(signature),
        docstring: None,
    }
}

/// The declarations that a walk gathers.
pub struct NodeList {
    pub items: Vec<ContractNode>,
}

impl View for NodeList {
    type V = Seq<ContractNodeView>;

    open spec fn view(&self) -> Seq<ContractNodeView> {
        nodes_view(self.items@)
    }
}

/// The names that a walk gathers.
pub struct NameList {
    pub items: Vec<String>,
}

impl View for NameList {
    type V = Seq<Seq<char>>;

    open spec fn view(&self) -> Seq<Seq<char>> {
        text::strings(self.items@)
    }
}

/// The list with the item added, if there is one.
pub open spec fn with<A>(s: Seq<A>, x: Option<A>) -> Seq<A> {
    match x {
        Some(a) => s.push(a),
        None => s,
    }
}

impl NodeList {
    /// Adds a declaration, if there is one.
    pub fn add(&mut self, n: Option<ContractNode>)
        ensures
            final(self)@ == with(old(self)@, crate::syntax::opt_view(n)),
    {
        let ghost before = self@;
        match n {
            Some(x) => {
                push_node(&mut self.items, x);
                assert(self@ == before.push(x@));
            },
            None => {},
        }
    }

    /// The empty list.
    pub fn new() -> (r: NodeList)
        ensures
            r@ == Seq::<ContractNodeView>::empty(),
    {
        NodeList { items: Vec::new() }
    }
}

impl NameList {
    /// Adds a name, if there is one.
    pub fn add(&mut self, n: Option<String>)
        ensures
            final(self)@ == with(old(self)@, text::opt_string(n)),
    {
        let ghost before = self@;
        match n {
            Some(x) => {
                push_string(&mut self.items, x);
                assert(self@ == before.push(x@));
            },
            None => {},
        }
    }

    /// The empty list.
    pub fn new() -> (r: NameList)
        ensures
            r@ == Seq::<Seq<char>>::empty(),
    {
        NameList { items: Vec::new() }
    }
}

/// A map from names to names.
pub struct TextMap {
    entries: Vec<(String, String)>,
}

/// The map that entries make, where a later entry replaces an earlier one.
spec fn map_of(entries: Seq<(String, String)>) -> Map<Seq<char>, Seq<char>>
    decreases entries.len(),
{
    if entries.len() == 0 {
        Map::empty()
    } else {
        map_of(entries.drop_last()).insert(entries.last().0@, entries.last().1@)
    }
}

impl View for TextMap {
    type V = Map<Seq<char>, Seq<char>>;

    closed spec fn view(&self) -> Map<Seq<char>, Seq<char>> {
        map_of(self.entries@)
    }
}

/// The value of a key, if the map has it.
pub open spec fn lookup(m: Map<Seq<char>, Seq<char>>, key: Seq<char>) -> Option<Seq<char>> {
    if m.dom().contains(key) {
        Some(m[key])
    } else {
        None
    }
}

impl TextMap {
    /// The empty map.
    pub fn new() -> (r: TextMap)
        ensures
            r@ == Map::<Seq<char>, Seq<char>>::empty(),
    {
        TextMap { entries: Vec::new() }
    }

    /// Binds a key to a value, in place of what it was bound to.
    pub fn insert(&mut self, key: String, value: String)
        ensures
            final(self)@ == old(self)@.insert(key@, value@),
    {
        self.entries.push((key, value));
        assert(self.entries@.drop_last() == old(self).entries@);
    }

    /// The value of a key.
    pub fn get(&self, key: &[char]) -> (r: Option<&str>)
        ensures
            (match r {
                Some(v) => Some(v@),
                None => None,
            }) == lookup(self@, key@),
    {
        let mut i: usize = self.entries.len();
        assert(self.entries@.take(i as int) == self.entries@);
        while i > 0
            invariant
                i <= self.entries@.len(),
                lookup(self@, key@) == lookup(map_of(self.entries@.take(i as int)), key@),
            decreases i,
        {
            assert(self.entries@.take(i as int).drop_last() == self.entries@.take(i - 1));
            assert(self.entries@.take(i as int).last() == self.entries@[i - 1]);
            if text::is(key, self.entries[i - 1].0.as_str()) {
                return Some(self.entries[i - 1].1.as_str());
            }
            i -= 1;
        }
        assert(map_of(self.entries@.take(0)) == Map::<Seq<char>, Seq<char>>::empty());
        None
    }
}

/// The packages of a file's declarations: that of the file, and those that stand for the names
/// of packages that it declares. A name without an entry stands for itself.
pub struct ServicePackages {
    pub file: String,
    pub declared: TextMap,
}

/// The packages of a file's declarations, as a mathematical value.
pub struct PackagesView {
    pub file: Seq<char>,
    pub declared: Map<Seq<char>, Seq<char>>,
}

impl View for ServicePackages {
    type V = PackagesView;

    open spec fn view(&self) -> PackagesView {
        PackagesView { file: self.file@, declared: self.declared@ }
    }
}

impl PackagesView {
    /// The package that stands for a declared name.
    pub open spec fn package_for(self, name: Seq<char>) -> Seq<char> {
        text::or(lookup(self.declared, name), name)
    }

    /// Whether a package is the one that a file starts with, or stands for a declared name.
    pub open spec fn gives(self, package: Seq<char>, first: Seq<char>) -> bool {
        package == first || exists|name: Seq<char>| package == #[trigger] self.package_for(name)
    }

    /// The package after a declaration that may name one: that which stands for the name, or
    /// that before.
    pub open spec fn package_after(self, name: Option<Seq<char>>, before: Seq<char>) -> Seq<char> {
        match name {
            Some(n) => self.package_for(n),
            None => before,
        }
    }
}

impl ServicePackages {
    /// The packages of a file whose declared names all stand for themselves.
    pub fn new(file: &str) -> (r: ServicePackages)
        ensures
            r@ == (PackagesView { file: file@, declared: Map::empty() }),
    {
        ServicePackages { file: text::copy(file), declared: TextMap::new() }
    }

    /// Lets a package stand for a declared name.
    pub fn declare(&mut self, name: String, package: String)
        ensures
            final(self)@ == (PackagesView { declared: old(self)@.declared.insert(name@, package@), ..old(self)@ }),
    {
        self.declared.insert(name, package);
    }

    /// The package that stands for a declared name.
    pub fn package_for(&self, name: &[char]) -> (r: String)
        ensures
            r@ == self@.package_for(name@),
    {
        match self.declared.get(name) {
            Some(p) => text::copy(p),
            None => text::string_of(name),
        }
    }
}

/// Whether the list holds the name.
pub open spec fn holds(names: Seq<Seq<char>>, name: Seq<char>) -> bool {
    names.contains(name)
}

/// Whether the list holds the name.
pub fn has_name(names: &Vec<String>, name: &[char]) -> (r: bool)
    ensures
        r == holds(text::strings(names@), name@),
{
    let mut i: usize = 0;
    while i < names.len()
        invariant
            0 <= i <= names@.len(),
            forall|j: int| 0 <= j < i ==> text::strings(names@)[j] != name@,
        decreases names@.len() - i,
    {
        if text::is(name, names[i].as_str()) {
            assert(text::strings(names@)[i as int] == name@);
            return true;
        }
        i += 1;
    }
    false
}

} // verus!
