//! What several languages share.
use vstd::prelude::*;
use crate::index;
use crate::model;
use crate::model::{ContractNode, ContractNodeView, PackagesView, RepoId};
use crate::text;

verus! {

/// The file that a walk is over, with the package of its declarations.
pub struct FileRules {
    pub path: Seq<char>,
    pub repo_id: RepoId,
    pub package: Seq<char>,
}

/// The file that a walk is over, with the packages that its declarations can be in.
pub struct PackageRules {
    pub path: Seq<char>,
    pub repo_id: RepoId,
    pub packages: PackagesView,
}

/// Whether the text is one of the verbs that route registrations take.
pub open spec fn is_route_verb(s: Seq<char>) -> bool {
    s == "get"@ || s == "post"@ || s == "put"@ || s == "patch"@ || s == "delete"@
}

/// Whether the text is one of the verbs that route registrations take.
pub fn route_verb(s: &[char]) -> (r: bool)
    ensures
        r == is_route_verb(s@),
{
    text::is(s, "get") || text::is(s, "post") || text::is(s, "put") || text::is(s, "patch") || text::is(s, "delete")
}

/// The name of an endpoint: its verb in upper case and its path.
pub open spec fn endpoint_name(verb: Seq<char>, path: Seq<char>) -> Seq<char> {
    text::raised(verb) + " "@ + path
}

/// The name of an endpoint: its verb in upper case and its path.
pub fn name_of_endpoint(verb: &[char], path: &[char]) -> (r: String)
    ensures
        r@ == endpoint_name(verb@, path@),
{
    let v = text::to_upper(verb);
    text::joined3(v.as_slice(), " ", path)
}

/// Whether a declaration covers the lines from `a` to `b`.
pub open spec fn encloses(n: ContractNodeView, a: int, b: int) -> bool {
    n.line_start <= a && n.line_end >= b
}

/// The number of lines that a declaration reaches beyond its first.
pub open spec fn reach(n: ContractNodeView) -> int {
    if n.line_end >= n.line_start {
        n.line_end - n.line_start
    } else {
        0
    }
}

/// Among the first `n` declarations, the smallest that covers the lines from `a` to
/// `b`; the first of those that are equally small.
pub open spec fn smallest_of(nodes: Seq<ContractNodeView>, n: int, a: int, b: int) -> Option<int>
    decreases n,
{
    if n <= 0 {
        None
    } else {
        let best = smallest_of(nodes, n - 1, a, b);
        let better = match best {
            Some(k) => reach(nodes[n - 1]) < reach(nodes[k]),
            None => true,
        };
        if encloses(nodes[n - 1], a, b) && better {
            Some(n - 1)
        } else {
            best
        }
    }
}

/// The smallest declaration that covers the lines from `a` to `b`.
pub open spec fn smallest(nodes: Seq<ContractNodeView>, a: int, b: int) -> Option<int> {
    smallest_of(nodes, nodes.len() as int, a, b)
}

/// A call site is attributed to a declaration that covers it, none that covers it is
/// smaller, and there is none exactly when no declaration covers it.
pub proof fn law_smallest_encloses(nodes: Seq<ContractNodeView>, a: int, b: int)
    ensures
        match smallest(nodes, a, b) {
            Some(k) => 0 <= k < nodes.len() && encloses(nodes[k], a, b) && forall|j: int|
                0 <= j < nodes.len() && encloses(#[trigger] nodes[j], a, b) ==> reach(nodes[k]) <= reach(nodes[j]) && (j < k
                    ==> reach(nodes[k]) < reach(nodes[j])),
            None => forall|j: int| 0 <= j < nodes.len() ==> !encloses(#[trigger] nodes[j], a, b),
        },
{
    lemma_smallest_of(nodes, nodes.len() as int, a, b);
}

proof fn lemma_smallest_of(nodes: Seq<ContractNodeView>, n: int, a: int, b: int)
    requires
        0 <= n <= nodes.len(),
    ensures
        match smallest_of(nodes, n, a, b) {
            Some(k) => 0 <= k < n && encloses(nodes[k], a, b) && forall|j: int|
                0 <= j < n && encloses(#[trigger] nodes[j], a, b) ==> reach(nodes[k]) <= reach(nodes[j]) && (j < k
                    ==> reach(nodes[k]) < reach(nodes[j])),
            None => forall|j: int| 0 <= j < n ==> !encloses(#[trigger] nodes[j], a, b),
        },
    decreases n,
{
    if n > 0 {
        lemma_smallest_of(nodes, n - 1, a, b);
    }
}

/// The smallest declaration that covers the lines from `a` to `b`.
pub fn smallest_enclosing(nodes: &Vec<ContractNode>, a: usize, b: usize) -> (r: Option<usize>)
    ensures
        text::opt_int(r) == smallest(model::nodes_view(nodes@), a as int, b as int),
        r matches Some(k) ==> k < nodes@.len(),
{
    let ghost view = model::nodes_view(nodes@);
    let mut best: Option<usize> = None;
    let mut i: usize = 0;
    while i < nodes.len()
        invariant
            0 <= i <= nodes@.len(),
            view == model::nodes_view(nodes@),
            text::opt_int(best) == smallest_of(view, i as int, a as int, b as int),
            best matches Some(k) ==> k < i,
        decreases nodes@.len() - i,
    {
        let n = &nodes[i];
        assert(view[i as int] == n@);
        if n.line_start <= a && n.line_end >= b {
            let better = match best {
                Some(k) => {
                    assert(view[k as int] == nodes@[k as int]@);
                    n.line_end.saturating_sub(n.line_start) < nodes[k].line_end.saturating_sub(nodes[k].line_start)
                },
                None => true,
            };
            if better {
                best = Some(i);
            }
        }
        i += 1;
    }
    best
}

/// The places of a list at which something in `wanted` points, in order.
pub open spec fn places(n: int, wanted: Seq<int>) -> Seq<int>
    decreases n,
{
    if n <= 0 {
        Seq::empty()
    } else if wanted.contains(n - 1) {
        places(n - 1, wanted).push(n - 1)
    } else {
        places(n - 1, wanted)
    }
}

/// The places of a list at which something in `wanted` points, in order.
pub fn places_of(n: usize, wanted: &Vec<usize>) -> (r: Vec<usize>)
    ensures
        crate::syntax::ints(r@) == places(n as int, crate::syntax::ints(wanted@)),
{
    let ghost wv = crate::syntax::ints(wanted@);
    let mut out: Vec<usize> = Vec::new();
    let mut i: usize = 0;
    assert(crate::syntax::ints(out@) == places(0, wv));
    while i < n
        invariant
            0 <= i <= n,
            wv == crate::syntax::ints(wanted@),
            crate::syntax::ints(out@) == places(i as int, wv),
        decreases n - i,
    {
        let mut found = false;
        let mut j: usize = 0;
        while j < wanted.len()
            invariant
                0 <= j <= wanted@.len(),
                wv == crate::syntax::ints(wanted@),
                found == exists|m: int| 0 <= m < j && #[trigger] wv[m] == i as int,
            decreases wanted@.len() - j,
        {
            if wanted[j] == i {
                assert(wv[j as int] == i as int);
                found = true;
            } else {
                assert(wv[j as int] != i as int);
            }
            j += 1;
        }
        assert(found == wv.contains(i as int));
        if found {
            let ghost before = out@;
            out.push(i);
            assert(crate::syntax::ints(out@) == crate::syntax::ints(before).push(i as int));
        }
        i += 1;
    }
    out
}

/// Whether the text stands in one of the lines of a declaration.
pub open spec fn stands_in(ls: Seq<Seq<char>>, n: ContractNodeView, p: Seq<char>) -> bool {
    let a = if n.line_start > 0 {
        n.line_start - 1
    } else {
        0
    };
    a <= n.line_end <= ls.len() && text::some_line_has(ls, a, n.line_end, p)
}

/// Whether the text stands in one of the lines of a declaration.
pub fn used_in(ls: &Vec<&[char]>, n: &ContractNode, p: &[char]) -> (r: bool)
    ensures
        r == stands_in(text::texts(ls@), n@, p@),
{
    let a = n.line_start.saturating_sub(1);
    assert(text::texts(ls@).len() == ls@.len());
    a <= n.line_end && n.line_end <= ls.len() && text::any_line_has(ls, a, n.line_end, p)
}

/// A call that produces to a topic or subscribes to it.
pub struct TopicCall {
    pub line_start: usize,
    pub line_end: usize,
    pub topic: String,
    pub is_producer: bool,
}

/// A call that produces to a topic or subscribes to it, as a mathematical value.
#[verifier::ext_equal]
pub struct TopicCallView {
    pub line_start: int,
    pub line_end: int,
    pub topic: Seq<char>,
    pub is_producer: bool,
}

impl View for TopicCall {
    type V = TopicCallView;

    open spec fn view(&self) -> TopicCallView {
        TopicCallView {
            line_start: self.line_start as int,
            line_end: self.line_end as int,
            topic: self.topic@,
            is_producer: self.is_producer,
        }
    }
}

/// A list of calls, each by its view.
pub open spec fn calls_view(v: Seq<TopicCall>) -> Seq<TopicCallView> {
    v.map_values(|c: TopicCall| c@)
}

/// Appends a call.
pub fn push_call(v: &mut Vec<TopicCall>, c: TopicCall)
    ensures
        calls_view(final(v)@) == calls_view(old(v)@).push(c@),
{
    v.push(c);
}

/// The links from the smallest declaration around each call that produces, or around each
/// that subscribes, to the call's topic. A call that stands in no declaration gives none.
pub open spec fn attributed(nodes: Seq<ContractNodeView>, calls: Seq<TopicCallView>, producing: bool) -> Seq<(int, Seq<char>)>
    decreases calls.len(),
{
    if calls.len() == 0 {
        Seq::empty()
    } else {
        let rest = attributed(nodes, calls.drop_last(), producing);
        let c = calls.last();
        match smallest(nodes, c.line_start, c.line_end) {
            Some(k) => if c.is_producer == producing {
                rest.push((k, c.topic))
            } else {
                rest
            },
            None => rest,
        }
    }
}

/// Attributes each call to the smallest declaration around it: the links of those that
/// produce, and of those that subscribe.
pub fn attribute_calls(nodes: &Vec<ContractNode>, calls: &Vec<TopicCall>) -> (r: (Vec<(usize, String)>, Vec<(usize, String)>))
    ensures
        model::links_view(r.0@) == attributed(model::nodes_view(nodes@), calls_view(calls@), true),
        model::links_view(r.1@) == attributed(model::nodes_view(nodes@), calls_view(calls@), false),
{
    let ghost nv = model::nodes_view(nodes@);
    let ghost cv = calls_view(calls@);
    let mut producers: Vec<(usize, String)> = Vec::new();
    let mut consumers: Vec<(usize, String)> = Vec::new();
    let mut j: usize = 0;
    assert(model::links_view(producers@) == attributed(nv, cv.take(0), true));
    assert(model::links_view(consumers@) == attributed(nv, cv.take(0), false));
    while j < calls.len()
        invariant
            0 <= j <= calls@.len(),
            nv == model::nodes_view(nodes@),
            cv == calls_view(calls@),
            model::links_view(producers@) == attributed(nv, cv.take(j as int), true),
            model::links_view(consumers@) == attributed(nv, cv.take(j as int), false),
        decreases calls@.len() - j,
    {
        let c = &calls[j];
        proof {
            crate::syntax::lemma_take_step(cv, j as int);
            assert(cv[j as int] == c@);
        }
        match smallest_enclosing(nodes, c.line_start, c.line_end) {
            Some(k) => if c.is_producer {
                model::push_link(&mut producers, k, text::copy(c.topic.as_str()));
            } else {
                model::push_link(&mut consumers, k, text::copy(c.topic.as_str()));
            },
            None => {},
        }
        j += 1;
    }
    assert(cv.take(j as int) == cv);
    (producers, consumers)
}

/// The first of two nodes that there is.
pub open spec fn else_node(a: Option<int>, b: Option<int>) -> Option<int> {
    if a is Some {
        a
    } else {
        b
    }
}

/// Calls are attributed to declarations that there are.
pub proof fn lemma_attributed_below(nodes: Seq<ContractNodeView>, calls: Seq<TopicCallView>, producing: bool)
    ensures
        index::links_below(attributed(nodes, calls, producing), nodes.len() as int),
    decreases calls.len(),
{
    if calls.len() > 0 {
        lemma_attributed_below(nodes, calls.drop_last(), producing);
        law_smallest_encloses(nodes, calls.last().line_start, calls.last().line_end);
    }
}

/// The places of a list lie in it.
pub proof fn lemma_places_below(n: int, wanted: Seq<int>)
    ensures
        forall|j: int| 0 <= j < places(n, wanted).len() ==> 0 <= #[trigger] places(n, wanted)[j] < n,
    decreases n,
{
    if n > 0 {
        lemma_places_below(n - 1, wanted);
        let rest = places(n - 1, wanted);
        assert forall|j: int| 0 <= j < places(n, wanted).len() implies 0 <= #[trigger] places(n, wanted)[j] < n by {
            if j < rest.len() {
                assert(places(n, wanted)[j] == rest[j]);
            }
        }
    }
}

} // verus!
