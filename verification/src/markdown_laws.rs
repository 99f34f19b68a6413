//! What holds of answers in Markdown.
use vstd::prelude::*;
use crate::paths;
use crate::contracts::EdgeConfidence;
use crate::languages::walk_laws;
use crate::languages::walk_laws::has_text;
use crate::markdown;
use crate::markdown::SearchResultView;
use crate::model::{ContractNodeView, NodeKind};
use crate::numbers;
use crate::syntax;
use crate::text;

verus! {

/// How a result of a search is shown: its number, its place, and its snippet in a fence of its
/// language.
pub open spec fn shown(r: SearchResultView, number: int) -> Seq<char> {
    "### ["@ + numbers::decimal(number) + "] `"@ + r.file_path + "` (L"@ + numbers::decimal(r.line_start) + "-L"@ + numbers::decimal(
        r.line_end,
    ) + ")\n```"@ + r.language + "\n"@ + text::trim(r.snippet) + "\n```\n\n"@
}

/// What stands above the results of a search.
pub open spec fn heading(query: Seq<char>, scope: Seq<char>, count: int) -> Seq<char> {
    "## Search Results for `"@ + query + "` (Scope: `"@ + scope + "`)\n*Matches: "@ + numbers::decimal(count)
        + " definitions found (AST-Decapitated)*\n\n"@
}

proof fn lemma_body(rs: Seq<SearchResultView>, n: int, i: int)
    requires
        0 <= i < n <= rs.len(),
    ensures
        has_text(markdown::search_body(rs, n), shown(rs[i], i + 1)),
    decreases n,
{
    let rest = markdown::search_body(rs, n - 1);
    let last = markdown::search_entry(rs[n - 1], n);
    if i < n - 1 {
        lemma_body(rs, n - 1, i);
        walk_laws::lemma_text_within(Seq::empty(), rest, last, shown(rs[i], i + 1));
    } else {
        walk_laws::lemma_text_itself(last);
        walk_laws::lemma_text_within(rest, last, Seq::empty(), last);
    }
}

/// All results of a search are shown, in their order from one on, if with the heading they take no
/// more than 48,128 bytes.
pub proof fn law_results_are_shown(query: Seq<char>, scope: Seq<char>, rs: Seq<SearchResultView>, i: int)
    requires
        0 <= i < rs.len(),
        syntax::byte_len(heading(query, scope, rs.len() as int)) + syntax::byte_len(markdown::search_body(rs, rs.len() as int)) <= 48_128,
    ensures
        has_text(markdown::search_answer(query, scope, rs), shown(rs[i], i + 1)),
        has_text(markdown::search_answer(query, scope, rs), heading(query, scope, rs.len() as int)),
{
    let n = rs.len() as int;
    let header = markdown::search_header(query, scope, n);
    assert(header == heading(query, scope, n));
    markdown::law_cut_where_it_overflows(query, scope, rs);
    if markdown::first_overflow(header, rs, 0) is Some {
        let k = markdown::first_overflow(header, rs, 0)->0;
        lemma_body_grows(rs, k + 1, n);
        syntax::law_byte_len_adds_up(markdown::search_body(rs, k), markdown::search_entry(rs[k], k + 1));
        assert(false);
    }
    lemma_body(rs, n, i);
    let body = markdown::search_body(rs, n);
    walk_laws::lemma_text_within(header, body, markdown::TIP@, shown(rs[i], i + 1));
    assert(header + body + markdown::TIP@ == header + (body + markdown::TIP@));
    walk_laws::lemma_text_itself(header);
    walk_laws::lemma_text_within(Seq::empty(), header, body + markdown::TIP@, header);
}

proof fn lemma_body_grows(rs: Seq<SearchResultView>, a: int, b: int)
    requires
        0 <= a <= b <= rs.len(),
    ensures
        syntax::byte_len(markdown::search_body(rs, a)) <= syntax::byte_len(markdown::search_body(rs, b)),
    decreases b,
{
    if a < b {
        lemma_body_grows(rs, a, b - 1);
        syntax::law_byte_len_adds_up(markdown::search_body(rs, b - 1), markdown::search_entry(rs[b - 1], b));
        syntax::law_byte_len_is_bounded(markdown::search_entry(rs[b - 1], b));
    }
}

/// The word for a kind of contract.
pub open spec fn word(kind: NodeKind) -> Seq<char> {
    match kind {
        NodeKind::GrpcService => "GrpcService"@,
        NodeKind::GrpcMethod => "GrpcMethod"@,
        NodeKind::HttpEndpoint => "HttpEndpoint"@,
        NodeKind::ProtoMessage => "ProtoMessage"@,
        NodeKind::Interface => "Interface"@,
        NodeKind::KafkaTopic => "KafkaTopic"@,
        NodeKind::EventStream => "EventStream"@,
        NodeKind::Queue => "Queue"@,
        NodeKind::Saga => "Saga"@,
        NodeKind::PostProcessor => "PostProcessor"@,
        NodeKind::ServiceClass => "ServiceClass"@,
    }
}

/// How a dependent is shown.
pub open spec fn dependent(n: ContractNodeView, number: int) -> Seq<char> {
    "### ["@ + numbers::decimal(number) + "] `"@ + n.name + "` ("@ + word(n.kind) + ")\n- **File**: `"@ + n.file_path + ":"@
        + numbers::decimal(n.line_start) + "-"@ + numbers::decimal(n.line_end) + "`\n- **Package**: `"@ + n.package + "`\n\n"@
}

proof fn lemma_dependents(ns: Seq<ContractNodeView>, n: int, i: int)
    requires
        0 <= i < n <= ns.len(),
    ensures
        has_text(markdown::dependent_entries(ns, n), dependent(ns[i], i + 1)),
    decreases n,
{
    let rest = markdown::dependent_entries(ns, n - 1);
    let last = markdown::dependent_entry(ns[n - 1], n);
    if i < n - 1 {
        lemma_dependents(ns, n - 1, i);
        walk_laws::lemma_text_within(Seq::empty(), rest, last, dependent(ns[i], i + 1));
    } else {
        walk_laws::lemma_text_itself(last);
        walk_laws::lemma_text_within(rest, last, Seq::empty(), last);
    }
}

/// Every dependent is shown, numbered from one on; where there are none, the answer says so.
pub proof fn law_dependents_are_shown(target: Seq<char>, ns: Seq<ContractNodeView>, i: int)
    ensures
        0 <= i < ns.len() ==> has_text(markdown::dependents_answer(target, ns), dependent(ns[i], i + 1)),
        ns.len() == 0 ==> has_text(
            markdown::dependents_answer(target, ns),
            "No dependents found importing this symbol or package.\n"@,
        ),
{
    let header = "## In-Memory Reverse Dependency Graph for `"@ + target + "`\n*Total Dependents: "@ + numbers::decimal(ns.len() as int)
        + " consumer node(s) found (O(1) in-memory resolution)*\n\n"@;
    if 0 <= i < ns.len() {
        lemma_dependents(ns, ns.len() as int, i);
        walk_laws::lemma_text_within(header, markdown::dependent_entries(ns, ns.len() as int), Seq::empty(), dependent(ns[i], i + 1));
    }
    if ns.len() == 0 {
        let none = "No dependents found importing this symbol or package.\n"@;
        walk_laws::lemma_text_itself(none);
        walk_laws::lemma_text_within(header, none, Seq::empty(), none);
    }
}

proof fn lemma_matched(ms: Seq<(ContractNodeView, EdgeConfidence)>, i: int)
    requires
        0 <= i < ms.len(),
    ensures
        has_text(markdown::matched_lines(ms), markdown::matched_line(ms[i].0, ms[i].1)),
    decreases ms.len(),
{
    let front = ms.drop_last();
    let rest = markdown::matched_lines(front);
    let last = markdown::matched_line(ms.last().0, ms.last().1);
    if i < front.len() {
        assert(front[i] == ms[i]);
        lemma_matched(front, i);
        walk_laws::lemma_text_within(Seq::empty(), rest, last, markdown::matched_line(ms[i].0, ms[i].1));
    } else {
        walk_laws::lemma_text_itself(last);
        walk_laws::lemma_text_within(rest, last, Seq::empty(), last);
    }
}

/// In a list of matches every one is shown with its name, its place and how certain it is.
pub proof fn law_matches_are_shown(ms: Seq<(ContractNodeView, EdgeConfidence)>, i: int)
    requires
        0 <= i < ms.len(),
    ensures
        ({
            let n = ms[i].0;
            let sure = match ms[i].1 {
                EdgeConfidence::Exact => "exact"@,
                EdgeConfidence::Heuristic => "heuristic"@,
                EdgeConfidence::Ambiguous => "ambiguous"@,
            };
            has_text(
                markdown::matched_lines(ms),
                "- `"@ + n.name + "` in `"@ + n.file_path + ":"@ + numbers::decimal(n.line_start) + "`"@ + (" _(match: "@ + sure + ")_\n"@),
            )
        }),
{
    lemma_matched(ms, i);
}

proof fn lemma_count_placed(s: Seq<(Seq<char>, int)>, x: (Seq<char>, int))
    requires
        forall|i: int, j: int| 0 <= i <= j < s.len() ==> #[trigger] s[i].1 >= #[trigger] s[j].1,
    ensures
        ({
            let r = markdown::count_placed(s, x);
            &&& forall|i: int, j: int| 0 <= i <= j < r.len() ==> #[trigger] r[i].1 >= #[trigger] r[j].1
            &&& r.to_multiset() == s.to_multiset().insert(x)
            &&& r.len() == s.len() + 1
            &&& r[0] == x || s.len() > 0 && r[0] == s[0]
            &&& forall|j: int| 0 <= j < r.len() ==> #[trigger] r[j].1 <= r[0].1
        }),
    decreases s.len(),
{
    broadcast use vstd::seq_lib::group_to_multiset_ensures;

    let r = markdown::count_placed(s, x);
    if s.len() == 0 {
        assert(s == Seq::<(Seq<char>, int)>::empty());
        assert(r == s.push(x));
    } else if x.1 > s[0].1 {
        assert(r == seq![x] + s);
        vstd::seq_lib::lemma_multiset_commutative(seq![x], s);
        assert(seq![x] == Seq::<(Seq<char>, int)>::empty().push(x));
        assert(r.to_multiset() == s.to_multiset().insert(x));
    } else {
        let t = s.drop_first();
        assert forall|i: int, j: int| 0 <= i <= j < t.len() implies #[trigger] t[i].1 >= #[trigger] t[j].1 by {
            assert(t[i] == s[i + 1] && t[j] == s[j + 1]);
        }
        lemma_count_placed(t, x);
        let u = markdown::count_placed(t, x);
        assert(r == seq![s[0]] + u);
        assert(u[0].1 <= s[0].1) by {
            if t.len() > 0 {
                assert(t[0] == s[1]);
            }
        }
        assert forall|i: int, j: int| 0 <= i <= j < r.len() implies #[trigger] r[i].1 >= #[trigger] r[j].1 by {
            if i > 0 {
                assert(r[i] == u[i - 1] && r[j] == u[j - 1]);
            } else if j > 0 {
                assert(r[j] == u[j - 1]);
            }
        }
        vstd::seq_lib::lemma_multiset_commutative(seq![s[0]], u);
        vstd::seq_lib::lemma_multiset_commutative(seq![s[0]], t);
        assert(s == seq![s[0]] + t);
        assert(r.to_multiset() == s.to_multiset().insert(x));
    }
}

/// The scopes are counted from the one with the most matches down; none is lost or added.
pub proof fn law_busiest_scopes_come_first(s: Seq<(Seq<char>, int)>)
    ensures
        ({
            let r = markdown::by_count(s);
            &&& forall|i: int, j: int| 0 <= i <= j < r.len() ==> #[trigger] r[i].1 >= #[trigger] r[j].1
            &&& r.to_multiset() == s.to_multiset()
        }),
    decreases s.len(),
{
    broadcast use vstd::seq_lib::group_to_multiset_ensures;

    if s.len() == 0 {
        assert(s == markdown::by_count(s));
    } else {
        law_busiest_scopes_come_first(s.drop_last());
        lemma_count_placed(markdown::by_count(s.drop_last()), s.last());
        assert(s == s.drop_last().push(s.last()));
    }
}

/// A file counts for the first two folders of its path.
pub proof fn law_scopes_are_folders(a: Seq<char>, b: Seq<char>, rest: Seq<char>)
    requires
        a.len() > 0 && a != "."@ && !a.contains('/'),
        b.len() > 0 && b != "."@ && !b.contains('/'),
    ensures
        markdown::sub_scope(a.push('/') + (b.push('/') + rest)) == a + "/"@ + b,
        markdown::sub_scope(a) == a,
{
    let p = a.push('/') + (b.push('/') + rest);
    let tail = text::split(rest, '/');
    crate::text_laws::law_splitting_takes_the_first_part(a, '/', b.push('/') + rest);
    crate::text_laws::law_splitting_takes_the_first_part(b, '/', rest);
    let pieces = text::split(p, '/');
    assert(pieces == seq![a, b] + tail);
    assert(p[0] == a[0]);
    assert(a.contains(a[0]));
    lemma_components_among(a, b, tail);
    assert(paths::components(p) == paths::components_among(pieces));
    assert(seq![a].drop_last() == Seq::<Seq<char>>::empty());
    assert(paths::components_among(seq![a].drop_last()) == Seq::<Seq<char>>::empty());
    assert(paths::components_among(seq![a]) == seq![a]);
    assert(paths::components(a) == seq![a]);
}

proof fn lemma_components_among(a: Seq<char>, b: Seq<char>, tail: Seq<Seq<char>>)
    requires
        paths::is_component(a),
        paths::is_component(b),
    ensures
        ({
            let c = paths::components_among(seq![a, b] + tail);
            c.len() >= 2 && c[0] == a && c[1] == b
        }),
    decreases tail.len(),
{
    let all = seq![a, b] + tail;
    if tail.len() == 0 {
        assert(all == seq![a, b]);
        assert(all.drop_last() == seq![a]);
        assert(seq![a].drop_last() == Seq::<Seq<char>>::empty());
        assert(paths::components_among(seq![a].drop_last()) == Seq::<Seq<char>>::empty());
        assert(paths::components_among(seq![a]) == seq![a]);
    } else {
        assert(all.drop_last() == seq![a, b] + tail.drop_last());
        lemma_components_among(a, b, tail.drop_last());
    }
}

} // verus!
