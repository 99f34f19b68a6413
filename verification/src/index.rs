//! What is extracted from one file.
use vstd::prelude::*;
use crate::model;
use crate::model::{ContractNode, ContractNodeView};

verus! {

/// Everything extracted from one file. Relations link a declaration, by its place in
/// `nodes`, to a name.
#[derive(Clone, Debug)]
pub struct FileIndex {
    pub nodes: Vec<ContractNode>,
    /// What each declaration imports.
    pub dependencies: Vec<(usize, String)>,
    /// The topics that each declaration produces.
    pub producers: Vec<(usize, String)>,
    /// The topics that each declaration consumes.
    pub consumers: Vec<(usize, String)>,
    /// The gRPC services that each declaration calls.
    pub rpc_calls: Vec<(usize, String)>,
    /// Whether the file could not be parsed, as opposed to holding no declarations.
    pub parse_failed: bool,
}

/// Everything extracted from one file, as a mathematical value.
#[verifier::ext_equal]
pub struct FileIndexView {
    pub nodes: Seq<ContractNodeView>,
    pub dependencies: Seq<(int, Seq<char>)>,
    pub producers: Seq<(int, Seq<char>)>,
    pub consumers: Seq<(int, Seq<char>)>,
    pub rpc_calls: Seq<(int, Seq<char>)>,
    pub parse_failed: bool,
}

impl View for FileIndex {
    type V = FileIndexView;

    open spec fn view(&self) -> FileIndexView {
        FileIndexView {
            nodes: model::nodes_view(self.nodes@),
            dependencies: model::links_view(self.dependencies@),
            producers: model::links_view(self.producers@),
            consumers: model::links_view(self.consumers@),
            rpc_calls: model::links_view(self.rpc_calls@),
            parse_failed: self.parse_failed,
        }
    }
}

impl FileIndexView {
    /// The index without declarations.
    pub open spec fn empty() -> FileIndexView {
        FileIndexView {
            nodes: Seq::empty(),
            dependencies: Seq::empty(),
            producers: Seq::empty(),
            consumers: Seq::empty(),
            rpc_calls: Seq::empty(),
            parse_failed: false,
        }
    }

    /// Whether every link starts from a declaration of the index.
    pub open spec fn linked(self) -> bool {
        &&& links_below(self.dependencies, self.nodes.len() as int)
        &&& links_below(self.producers, self.nodes.len() as int)
        &&& links_below(self.consumers, self.nodes.len() as int)
        &&& links_below(self.rpc_calls, self.nodes.len() as int)
    }

    /// Whether every link can be moved on by `n` places: its start stays a number that there is.
    pub open spec fn movable(self, n: int) -> bool {
        &&& links_below(self.dependencies, usize::MAX + 1 - n)
        &&& links_below(self.producers, usize::MAX + 1 - n)
        &&& links_below(self.consumers, usize::MAX + 1 - n)
        &&& links_below(self.rpc_calls, usize::MAX + 1 - n)
    }

    /// This index followed by another, whose links start after this one's declarations.
    pub open spec fn followed_by(self, other: FileIndexView) -> FileIndexView {
        let n = self.nodes.len() as int;
        FileIndexView {
            nodes: self.nodes + other.nodes,
            dependencies: self.dependencies + shifted(other.dependencies, n),
            producers: self.producers + shifted(other.producers, n),
            consumers: self.consumers + shifted(other.consumers, n),
            rpc_calls: self.rpc_calls + shifted(other.rpc_calls, n),
            parse_failed: self.parse_failed || other.parse_failed,
        }
    }
}

/// Whether every link starts below `n`.
pub open spec fn links_below(ls: Seq<(int, Seq<char>)>, n: int) -> bool {
    forall|j: int| 0 <= j < ls.len() ==> 0 <= (#[trigger] ls[j]).0 < n
}

/// The links with their starts moved on by `n`.
pub open spec fn shifted(ls: Seq<(int, Seq<char>)>, n: int) -> Seq<(int, Seq<char>)> {
    ls.map_values(|l: (int, Seq<char>)| (l.0 + n, l.1))
}

impl Default for FileIndex {
    fn default() -> (r: FileIndex)
        ensures
            r@ == FileIndexView::empty(),
    {
        FileIndex {
            nodes: Vec::new(),
            dependencies: Vec::new(),
            producers: Vec::new(),
            consumers: Vec::new(),
            rpc_calls: Vec::new(),
            parse_failed: false,
        }
    }
}

/// Moves the links of `from` to the end of `to`, with their starts moved on by `n`.
fn move_links(to: &mut Vec<(usize, String)>, from: Vec<(usize, String)>, n: usize)
    requires
        forall|j: int| 0 <= j < from@.len() ==> (#[trigger] from@[j]).0 + n <= usize::MAX,
    ensures
        model::links_view(final(to)@) == model::links_view(old(to)@) + shifted(model::links_view(from@), n as int),
{
    let ghost start = model::links_view(to@);
    let ghost tail = shifted(model::links_view(from@), n as int);
    let mut j: usize = 0;
    assert(start + tail.take(0) == start);
    while j < from.len()
        invariant
            0 <= j <= from@.len(),
            forall|j: int| 0 <= j < from@.len() ==> (#[trigger] from@[j]).0 + n <= usize::MAX,
            tail == shifted(model::links_view(from@), n as int),
            model::links_view(to@) == start + tail.take(j as int),
        decreases from@.len() - j,
    {
        let l = &from[j];
        proof {
            assert(from@[j as int].0 + n <= usize::MAX);
            assert(tail[j as int] == (from@[j as int].0 + n, from@[j as int].1@));
        }
        model::push_link(to, l.0 + n, crate::text::copy(l.1.as_str()));
        assert(start + tail.take(j + 1) == (start + tail.take(j as int)).push(tail[j as int]));
        j += 1;
    }
    assert(tail.take(j as int) == tail);
}

impl FileIndex {
    /// Whether no declaration was found.
    pub fn is_empty(&self) -> (r: bool)
        ensures
            r == (self@.nodes.len() == 0),
    {
        assert(self@.nodes.len() == self.nodes@.len());
        self.nodes.len() == 0
    }

    /// Appends another index, whose links then start after this one's declarations.
    pub fn merge(&mut self, other: FileIndex)
        requires
            other@.movable(old(self)@.nodes.len() as int),
        ensures
            final(self)@ == old(self)@.followed_by(other@),
    {
        let ghost before = self@;
        let ghost second = other@;
        let n: usize = self.nodes.len();
        let mut other = other;
        proof {
            assert(before.nodes.len() == n);
            lemma_link_room(other.dependencies@, n);
            lemma_link_room(other.producers@, n);
            lemma_link_room(other.consumers@, n);
            lemma_link_room(other.rpc_calls@, n);
        }
        let ghost mine = self.nodes@;
        let ghost theirs = other.nodes@;
        self.nodes.append(&mut other.nodes);
        assert(model::nodes_view(self.nodes@) == model::nodes_view(mine) + model::nodes_view(theirs));
        move_links(&mut self.dependencies, other.dependencies, n);
        move_links(&mut self.producers, other.producers, n);
        move_links(&mut self.consumers, other.consumers, n);
        move_links(&mut self.rpc_calls, other.rpc_calls, n);
        self.parse_failed = self.parse_failed || other.parse_failed;
    }
}

proof fn lemma_link_room(v: Seq<(usize, String)>, n: usize)
    requires
        links_below(model::links_view(v), usize::MAX + 1 - n),
    ensures
        forall|j: int| 0 <= j < v.len() ==> (#[trigger] v[j]).0 + n <= usize::MAX,
{
    assert forall|j: int| 0 <= j < v.len() implies (#[trigger] v[j]).0 + n <= usize::MAX by {
        assert(model::links_view(v)[j] == (v[j].0 as int, v[j].1@));
    }
}

/// Merging indices keeps every link at a declaration.
pub proof fn law_merge_keeps_links(a: FileIndexView, b: FileIndexView)
    requires
        a.linked(),
        b.linked(),
    ensures
        a.followed_by(b).linked(),
{
    let n = a.nodes.len() as int;
    let m = b.nodes.len() as int;
    lemma_shift_below(a.dependencies, b.dependencies, n, m);
    lemma_shift_below(a.producers, b.producers, n, m);
    lemma_shift_below(a.consumers, b.consumers, n, m);
    lemma_shift_below(a.rpc_calls, b.rpc_calls, n, m);
}

proof fn lemma_shift_below(a: Seq<(int, Seq<char>)>, b: Seq<(int, Seq<char>)>, n: int, m: int)
    requires
        links_below(a, n),
        links_below(b, m),
        0 <= n,
        0 <= m,
    ensures
        links_below(a + shifted(b, n), n + m),
{
    let all = a + shifted(b, n);
    assert forall|j: int| 0 <= j < all.len() implies 0 <= (#[trigger] all[j]).0 < n + m by {
        if j < a.len() {
            assert(all[j] == a[j]);
        } else {
            let k = j - a.len();
            assert(all[j] == (b[k].0 + n, b[k].1));
        }
    }
}

/// An index whose links start from its own declarations can always follow another, as long as
/// the declarations of both can be counted.
pub proof fn law_linked_indices_can_follow(a: FileIndexView, b: FileIndexView)
    requires
        b.linked(),
        a.nodes.len() + b.nodes.len() <= usize::MAX,
    ensures
        b.movable(a.nodes.len() as int),
{
}

/// The order in which indices are merged, step by step, makes no difference: merging is
/// associative, and the empty index changes nothing.
pub proof fn law_merge_is_associative(a: FileIndexView, b: FileIndexView, c: FileIndexView)
    ensures
        a.followed_by(b).followed_by(c) == a.followed_by(b.followed_by(c)),
        a.followed_by(FileIndexView::empty()) == a,
        FileIndexView::empty().followed_by(a) == a,
{
    let n = a.nodes.len() as int;
    let m = b.nodes.len() as int;
    lemma_shift_assoc(a.dependencies, b.dependencies, c.dependencies, n, m);
    lemma_shift_assoc(a.producers, b.producers, c.producers, n, m);
    lemma_shift_assoc(a.consumers, b.consumers, c.consumers, n, m);
    lemma_shift_assoc(a.rpc_calls, b.rpc_calls, c.rpc_calls, n, m);
    assert(a.nodes + b.nodes + c.nodes == a.nodes + (b.nodes + c.nodes));
    let none = Seq::<(int, Seq<char>)>::empty();
    assert(a.followed_by(FileIndexView::empty()) =~~= a);
    assert(FileIndexView::empty().followed_by(a) =~~= a);
    assert(a.followed_by(b).followed_by(c) =~~= a.followed_by(b.followed_by(c)));
}

proof fn lemma_shift_assoc(a: Seq<(int, Seq<char>)>, b: Seq<(int, Seq<char>)>, c: Seq<(int, Seq<char>)>, n: int, m: int)
    ensures
        a + shifted(b, n) + shifted(c, n + m) == a + shifted(b + shifted(c, m), n),
{
    assert(shifted(b + shifted(c, m), n) =~= shifted(b, n) + shifted(c, n + m));
    assert(a + shifted(b, n) + shifted(c, n + m) =~= a + (shifted(b, n) + shifted(c, n + m)));
}

/// Merging two indices keeps all that both declare: what the first holds stays as it is, and what
/// the second holds comes behind, each link from where its declaration now stands.
pub proof fn law_merge_keeps_all(a: FileIndexView, b: FileIndexView, k: int)
    requires
        k >= 0,
    ensures
        ({
            let m = a.followed_by(b);
            let n = a.nodes.len() as int;
            &&& m.nodes == a.nodes + b.nodes
            &&& m.parse_failed == (a.parse_failed || b.parse_failed)
            &&& k < a.dependencies.len() ==> m.dependencies[k] == a.dependencies[k]
            &&& k < a.producers.len() ==> m.producers[k] == a.producers[k]
            &&& k < a.consumers.len() ==> m.consumers[k] == a.consumers[k]
            &&& k < a.rpc_calls.len() ==> m.rpc_calls[k] == a.rpc_calls[k]
            &&& k < b.dependencies.len() ==> m.dependencies[a.dependencies.len() + k] == (b.dependencies[k].0 + n, b.dependencies[k].1)
            &&& k < b.producers.len() ==> m.producers[a.producers.len() + k] == (b.producers[k].0 + n, b.producers[k].1)
            &&& k < b.consumers.len() ==> m.consumers[a.consumers.len() + k] == (b.consumers[k].0 + n, b.consumers[k].1)
            &&& k < b.rpc_calls.len() ==> m.rpc_calls[a.rpc_calls.len() + k] == (b.rpc_calls[k].0 + n, b.rpc_calls[k].1)
            &&& m.dependencies.len() == a.dependencies.len() + b.dependencies.len()
            &&& m.producers.len() == a.producers.len() + b.producers.len()
            &&& m.consumers.len() == a.consumers.len() + b.consumers.len()
            &&& m.rpc_calls.len() == a.rpc_calls.len() + b.rpc_calls.len()
        }),
{
}

} // verus!
