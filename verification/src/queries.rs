//! Queries over syntax trees, with bounds on the work that they may do.
use vstd::prelude::*;
use crate::guard::AstGuard;
use streaming_iterator::StreamingIterator;

verus! {

/// `tree_sitter::QueryCursor`, which runs queries.
#[verifier::external_type_specification]
#[verifier::external_body]
pub struct ExQueryCursor(tree_sitter::QueryCursor);

/// `tree_sitter::Query`, a compiled query.
#[verifier::external_type_specification]
#[verifier::external_body]
pub struct ExQuery(tree_sitter::Query);

/// `tree_sitter::Node`, a node of a syntax tree.
#[verifier::external_type_specification]
#[verifier::external_body]
pub struct ExNode<'tree>(tree_sitter::Node<'tree>);

/// A node that a query captured.
#[derive(Clone, Debug)]
pub struct BoundedCapture {
    /// The capture's place among those of the query.
    pub index: u32,
    pub start_byte: usize,
    pub end_byte: usize,
}

/// A match of a query.
#[derive(Clone, Debug)]
pub struct BoundedMatch {
    /// The place of the pattern among those of the query.
    pub pattern_index: usize,
    pub captures: Vec<BoundedCapture>,
}

/// A match of a query, as a mathematical value.
#[verifier::ext_equal]
pub struct BoundedMatchView {
    pub pattern_index: int,
    pub captures: Seq<BoundedCapture>,
}

impl View for BoundedMatch {
    type V = BoundedMatchView;

    open spec fn view(&self) -> BoundedMatchView {
        BoundedMatchView { pattern_index: self.pattern_index as int, captures: self.captures@ }
    }
}

/// Matches, each by its view.
pub open spec fn matches_view(v: Seq<BoundedMatch>) -> Seq<BoundedMatchView> {
    v.map_values(|m: BoundedMatch| m@)
}

/// The matches of a query that are still to come.
#[verifier::external_body]
pub struct MatchStream<'query, 'tree> {
    inner: tree_sitter::QueryMatches<'query, 'tree, &'tree [u8], &'tree [u8]>,
}

/// `tree_sitter::QueryMatches`: the matches that a stream has still to give.
pub uninterp spec fn still_to_come(s: MatchStream<'_, '_>) -> Seq<BoundedMatchView>;

/// `tree_sitter::QueryMatches`, as a `StreamingIterator`: `next` gives the matches one by one,
/// each once, until there are none.
#[verifier::external_body]
fn next_match(s: &mut MatchStream<'_, '_>) -> (r: Option<BoundedMatch>)
    ensures
        match r {
            Some(m) => still_to_come(*old(s)).len() > 0 && m@ == still_to_come(*old(s))[0] && still_to_come(*final(s)) == still_to_come(
                *old(s),
            ).drop_first(),
            None => still_to_come(*old(s)).len() == 0,
        },
{
    s.inner.next().map(|m| BoundedMatch {
        pattern_index: m.pattern_index,
        captures: m.captures.iter().map(|c| BoundedCapture {
            index: c.index,
            start_byte: c.node.start_byte(),
            end_byte: c.node.end_byte(),
        }).collect(),
    })
}

/// `tree_sitter::QueryCursor::set_match_limit`: the cursor that a limit on the matches in
/// progress makes of a cursor.
pub uninterp spec fn with_match_limit(c: tree_sitter::QueryCursor, limit: u32) -> tree_sitter::QueryCursor;

/// `tree_sitter::QueryCursor::set_timeout_micros`: the time, in microseconds, after which a
/// cursor gives up; none if it is zero.
pub uninterp spec fn time_limit(c: tree_sitter::QueryCursor) -> u64;

/// `tree_sitter::QueryCursor::set_match_limit`: bounds the matches that may be in progress. What
/// the cursor becomes is named; its time limit stays as it is. The limit lies between 1 and 65536.
#[verifier::external_body]
fn set_match_limit(c: &mut tree_sitter::QueryCursor, limit: u32)
    requires
        0 < limit <= 65536,
    ensures
        *final(c) == with_match_limit(*old(c), limit),
        time_limit(*final(c)) == time_limit(*old(c)),
{
    c.set_match_limit(limit);
}

/// `tree_sitter::Node::end_byte`: the position in the source, in bytes, behind a node.
pub uninterp spec fn node_end(n: tree_sitter::Node<'_>) -> usize;

/// `tree_sitter::Node::end_byte`: the position in the source, in bytes, behind a node.
#[verifier::external_body]
fn end_of_node(n: &tree_sitter::Node<'_>) -> (r: usize)
    ensures
        r == node_end(*n),
{
    n.end_byte()
}

/// `tree_sitter::QueryCursor::matches`: the matches of a query below a node.
pub uninterp spec fn query_matches(c: tree_sitter::QueryCursor, q: tree_sitter::Query, n: tree_sitter::Node<'_>, source: Seq<u8>) -> Seq<
    BoundedMatchView,
>;

/// `tree_sitter::QueryCursor::matches`: a stream of the matches of a query below a node, which
/// are named and not written out. Nothing is claimed of a cursor with a time limit: which
/// matches it finds depends on how long it takes. The source reaches to the end of the node:
/// the predicates of a query read the text of captured nodes, which lie within it.
#[verifier::external_body]
fn start<'query, 'tree>(
    c: &'query mut tree_sitter::QueryCursor,
    q: &'query tree_sitter::Query,
    n: tree_sitter::Node<'tree>,
    source: &'tree [u8],
) -> (r: MatchStream<'query, 'tree>)
    requires
        node_end(n) <= source@.len(),
    ensures
        time_limit(*old(c)) == 0 ==> still_to_come(r) == query_matches(*old(c), *q, n, source@),
{
    MatchStream { inner: c.matches(q, n, source) }
}

/// The first matches of a stream, at most `most` of them.
pub fn take_matches(s: &mut MatchStream<'_, '_>, most: usize) -> (r: Vec<BoundedMatch>)
    ensures
        matches_view(r@) == first_matches(still_to_come(*old(s)), most as int),
{
    let ghost all = still_to_come(*s);
    let mut out: Vec<BoundedMatch> = Vec::new();
    assert(all.skip(0) == all);
    assert(matches_view(out@) == all.take(0));
    while out.len() < most
        invariant_except_break
            out@.len() <= most,
            out@.len() <= all.len(),
            still_to_come(*s) == all.skip(out@.len() as int),
            matches_view(out@) == all.take(out@.len() as int),
        ensures
            out@.len() == if most < all.len() {
                most as int
            } else {
                all.len() as int
            },
            matches_view(out@) == all.take(out@.len() as int),
        decreases most - out@.len(),
    {
        match next_match(s) {
            Some(m) => {
                let ghost before = out@;
                assert(m@ == all[before.len() as int]);
                out.push(m);
                assert(matches_view(out@) == matches_view(before).push(m@));
                assert(all.take((before.len() + 1) as int) == all.take(before.len() as int).push(all[before.len() as int]));
                assert(all.skip(before.len() as int).drop_first() == all.skip((before.len() + 1) as int));
            },
            None => {
                break;
            },
        }
    }
    assert(all.take(all.len() as int) == all);
    out
}

/// The first matches of a list, at most `most` of them.
pub open spec fn first_matches(s: Seq<BoundedMatchView>, most: int) -> Seq<BoundedMatchView> {
    if most < s.len() {
        s.take(most)
    } else {
        s
    }
}

/// The matches of a query that a cursor without a time limit finds below a node, under the
/// bounds on the matches in progress and on those that are taken.
pub open spec fn bounded_matches(c: tree_sitter::QueryCursor, q: tree_sitter::Query, n: tree_sitter::Node<'_>, source: Seq<u8>) -> Seq<
    BoundedMatchView,
> {
    first_matches(
        query_matches(with_match_limit(c, AstGuard::QUERY_MATCH_LIMIT), q, n, source),
        AstGuard::MAX_QUERY_STEPS as int,
    )
}

impl AstGuard {
    /// The matches of a query below a node of the source, with bounds on the matches in progress
    /// and on those that are taken.
    pub fn execute_bounded_query<'tree>(
        cursor: &mut tree_sitter::QueryCursor,
        query: &tree_sitter::Query,
        node: tree_sitter::Node<'tree>,
        source: &'tree [u8],
    ) -> (r: Vec<BoundedMatch>)
        requires
            node_end(node) <= source@.len(),
        ensures
            r@.len() <= Self::MAX_QUERY_STEPS,
            time_limit(*old(cursor)) == 0 ==> matches_view(r@) == bounded_matches(*old(cursor), *query, node, source@),
    {
        set_match_limit(cursor, Self::QUERY_MATCH_LIMIT);
        let mut stream = start(cursor, query, node, source);
        let r = take_matches(&mut stream, Self::MAX_QUERY_STEPS);
        assert(matches_view(r@).len() == r@.len());
        r
    }

    /// The matches of a query below a node as `execute_bounded_query` gives them; none where the
    /// node ends behind the source.
    pub fn query_within_source<'tree>(
        cursor: &mut tree_sitter::QueryCursor,
        query: &tree_sitter::Query,
        node: tree_sitter::Node<'tree>,
        source: &'tree [u8],
    ) -> (r: Option<Vec<BoundedMatch>>)
        ensures
            r is Some <==> node_end(node) <= source@.len(),
            r matches Some(v) ==> v@.len() <= Self::MAX_QUERY_STEPS && (time_limit(*old(cursor)) == 0 ==> matches_view(v@)
                == bounded_matches(*old(cursor), *query, node, source@)),
            r is None ==> *final(cursor) == *old(cursor),
    {
        if end_of_node(&node) <= source.len() {
            Some(Self::execute_bounded_query(cursor, query, node, source))
        } else {
            None
        }
    }
}

} // verus!
