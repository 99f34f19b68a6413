//! Answers in Markdown.
use vstd::prelude::*;
use crate::contracts::EdgeConfidence;
use crate::graph;
use crate::model;
use crate::model::{ContractNode, ContractNodeView};
use crate::numbers;
use crate::paths;
use crate::syntax;
use crate::text;

verus! {

/// The bytes that an answer may take.
pub const MAX_OUTPUT_BYTES: usize = 49152;

/// The bytes that the results of an answer may take. The rest is left for guidance.
pub const MAX_RESULT_BYTES: usize = 48128;

/// A result of a search.
#[derive(Clone, Debug)]
pub struct SearchResult {
    pub file_path: String,
    pub line_start: usize,
    pub line_end: usize,
    pub language: String,
    pub snippet: String,
}

/// A result of a search, as a mathematical value.
#[verifier::ext_equal]
pub struct SearchResultView {
    pub file_path: Seq<char>,
    pub line_start: int,
    pub line_end: int,
    pub language: Seq<char>,
    pub snippet: Seq<char>,
}

impl View for SearchResult {
    type V = SearchResultView;

    open spec fn view(&self) -> SearchResultView {
        SearchResultView {
            file_path: self.file_path@,
            line_start: self.line_start as int,
            line_end: self.line_end as int,
            language: self.language@,
            snippet: self.snippet@,
        }
    }
}

/// Results, each by its view.
pub open spec fn results_view(v: Seq<SearchResult>) -> Seq<SearchResultView> {
    v.map_values(|r: SearchResult| r@)
}

/// The directory that a file is counted under: the first two components of its path.
pub open spec fn sub_scope(path: Seq<char>) -> Seq<char> {
    let c = paths::components(path);
    if c.len() >= 2 {
        c[0] + "/"@ + c[1]
    } else if c.len() == 1 {
        c[0]
    } else {
        "root"@
    }
}

/// The heading of an answer to a search.
pub open spec fn search_header(query: Seq<char>, scope: Seq<char>, count: int) -> Seq<char> {
    "## Search Results for `"@ + query + "` (Scope: `"@ + scope + "`)\n*Matches: "@ + numbers::decimal(count)
        + " definitions found (AST-Decapitated)*\n\n"@
}

/// A result in an answer.
pub open spec fn search_entry(r: SearchResultView, number: int) -> Seq<char> {
    "### ["@ + numbers::decimal(number) + "] `"@ + r.file_path + "` (L"@ + numbers::decimal(r.line_start) + "-L"@ + numbers::decimal(
        r.line_end,
    ) + ")\n```"@ + r.language + "\n"@ + text::trim(r.snippet) + "\n```\n\n"@
}

/// The first `n` results in an answer.
pub open spec fn search_body(rs: Seq<SearchResultView>, n: int) -> Seq<char>
    decreases n,
{
    if n <= 0 {
        Seq::empty()
    } else {
        search_body(rs, n - 1) + search_entry(rs[n - 1], n)
    }
}

/// Whether result `i` no longer fits behind those before it.
pub open spec fn overflows(header: Seq<char>, rs: Seq<SearchResultView>, i: int) -> bool {
    syntax::byte_len(header) + syntax::byte_len(search_body(rs, i)) + syntax::byte_len(search_entry(rs[i], i + 1)) > MAX_RESULT_BYTES
}

/// The first result from `i` on that no longer fits.
pub open spec fn first_overflow(header: Seq<char>, rs: Seq<SearchResultView>, i: int) -> Option<int>
    decreases rs.len() - i,
{
    if i < 0 || i >= rs.len() {
        None
    } else if overflows(header, rs, i) {
        Some(i)
    } else {
        first_overflow(header, rs, i + 1)
    }
}

/// Counts with one more for a name: at its place, or at the end if it is new.
pub open spec fn counted(s: Seq<(Seq<char>, int)>, name: Seq<char>) -> Seq<(Seq<char>, int)>
    decreases s.len(),
{
    if s.len() == 0 {
        seq![(name, 1int)]
    } else if s[0].0 == name {
        seq![(name, s[0].1 + 1)] + s.drop_first()
    } else {
        seq![s[0]] + counted(s.drop_first(), name)
    }
}

/// How many of the first `n` results each directory has.
pub open spec fn scope_counts(rs: Seq<SearchResultView>, n: int) -> Seq<(Seq<char>, int)>
    decreases n,
{
    if n <= 0 {
        Seq::empty()
    } else {
        counted(scope_counts(rs, n - 1), sub_scope(rs[n - 1].file_path))
    }
}

/// A list by falling counts with one more put behind those that have no fewer.
pub open spec fn count_placed(s: Seq<(Seq<char>, int)>, x: (Seq<char>, int)) -> Seq<(Seq<char>, int)>
    decreases s.len(),
{
    if s.len() == 0 {
        seq![x]
    } else if x.1 > s[0].1 {
        seq![x] + s
    } else {
        seq![s[0]] + count_placed(s.drop_first(), x)
    }
}

/// Counts, the greatest first.
pub open spec fn by_count(s: Seq<(Seq<char>, int)>) -> Seq<(Seq<char>, int)>
    decreases s.len(),
{
    if s.len() == 0 {
        Seq::empty()
    } else {
        count_placed(by_count(s.drop_last()), s.last())
    }
}

/// The line that names a directory.
pub open spec fn scope_line(c: (Seq<char>, int)) -> Seq<char> {
    "  ├── '"@ + c.0 + "' ("@ + numbers::decimal(c.1) + " matches)\n"@
}

/// The lines that name directories.
pub open spec fn scope_lines(cs: Seq<(Seq<char>, int)>) -> Seq<char>
    decreases cs.len(),
{
    if cs.len() == 0 {
        Seq::empty()
    } else {
        scope_lines(cs.drop_last()) + scope_line(cs.last())
    }
}

/// The first three of a list.
pub open spec fn top_three(cs: Seq<(Seq<char>, int)>) -> Seq<(Seq<char>, int)> {
    if cs.len() > 3 {
        cs.take(3)
    } else {
        cs
    }
}

/// What is said where an answer is cut off: how much was left out, which directories have the
/// most results, and how to ask for less.
pub open spec fn guidance(displayed: int, total: int, query: Seq<char>, counts: Seq<(Seq<char>, int)>) -> Seq<char> {
    let sorted = by_count(counts);
    let top = if sorted.len() > 0 {
        sorted[0].0
    } else {
        "services/target"@
    };
    "\n[PAYLOAD TRUNCATED at 48 KB: "@ + numbers::decimal(displayed) + " matches displayed out of "@ + numbers::decimal(total)
        + " total matches]\n\n💡 GUIDANCE TO PREVENT TOKEN OVERFLOW:\n- Your query matched broadly across multiple sub-directories.\n- Top sub-scopes detected:\n"@
        + scope_lines(top_three(sorted))
        + "\n👉 ACTION REQUIRED: Repeat 'smart_search' targeting one specific sub-scope, e.g.:\nsmart_search(query: \""@ + query
        + "\", scope: \""@ + top + "\")\n"@
}

/// What an answer that is not cut off ends in.
pub const TIP: &'static str = "*Tip: Use `smart_search(query: \"...\", scope: \"...\", include_body: true)` to expand an implementation.*\n";

/// The answer to a search.
pub open spec fn search_answer(query: Seq<char>, scope: Seq<char>, rs: Seq<SearchResultView>) -> Seq<char> {
    let header = search_header(query, scope, rs.len() as int);
    match first_overflow(header, rs, 0) {
        Some(i) => header + search_body(rs, i) + guidance(i, rs.len() as int, query, scope_counts(rs, i + 1)),
        None => header + (search_body(rs, rs.len() as int) + TIP@),
    }
}

proof fn lemma_fits_before(header: Seq<char>, rs: Seq<SearchResultView>, i: int, k: int)
    requires
        0 <= i <= k <= rs.len(),
        match first_overflow(header, rs, i) {
            Some(j) => k <= j,
            None => true,
        },
        i == 0 || syntax::byte_len(header) + syntax::byte_len(search_body(rs, i)) <= MAX_RESULT_BYTES,
    ensures
        k == 0 || syntax::byte_len(header) + syntax::byte_len(search_body(rs, k)) <= MAX_RESULT_BYTES,
        match first_overflow(header, rs, i) {
            Some(j) => i <= j < rs.len(),
            None => true,
        },
    decreases rs.len() - i,
{
    if i < rs.len() && !overflows(header, rs, i) {
        syntax::law_byte_len_adds_up(search_body(rs, i), search_entry(rs[i], i + 1));
        if i < k {
            lemma_fits_before(header, rs, i + 1, k);
        } else {
            lemma_fits_before_none(header, rs, i + 1);
        }
    }
}

proof fn lemma_fits_before_none(header: Seq<char>, rs: Seq<SearchResultView>, i: int)
    requires
        0 <= i <= rs.len(),
    ensures
        match first_overflow(header, rs, i) {
            Some(j) => i <= j < rs.len(),
            None => true,
        },
    decreases rs.len() - i,
{
    if i < rs.len() && !overflows(header, rs, i) {
        lemma_fits_before_none(header, rs, i + 1);
    }
}

/// An answer keeps to its limit, whatever the results hold, if its heading leaves the guidance
/// its room and the guidance keeps to it.
pub proof fn law_answers_keep_to_the_limit(query: Seq<char>, scope: Seq<char>, rs: Seq<SearchResultView>)
    requires
        syntax::byte_len(search_header(query, scope, rs.len() as int)) <= MAX_RESULT_BYTES,
        first_overflow(search_header(query, scope, rs.len() as int), rs, 0) matches Some(i) ==> syntax::byte_len(
            guidance(i, rs.len() as int, query, scope_counts(rs, i + 1)),
        ) <= MAX_OUTPUT_BYTES - MAX_RESULT_BYTES,
    ensures
        syntax::byte_len(search_answer(query, scope, rs)) <= MAX_OUTPUT_BYTES,
{
    let header = search_header(query, scope, rs.len() as int);
    let n = rs.len() as int;
    lemma_fits_before_none(header, rs, 0);
    match first_overflow(header, rs, 0) {
        Some(i) => {
            lemma_fits_before(header, rs, 0, i);
            let tail = guidance(i, n, query, scope_counts(rs, i + 1));
            syntax::law_byte_len_adds_up(header, search_body(rs, i));
            syntax::law_byte_len_adds_up(header + search_body(rs, i), tail);
        },
        None => {
            lemma_fits_before(header, rs, 0, n);
            syntax::law_byte_len_adds_up(search_body(rs, n), TIP@);
            syntax::law_byte_len_adds_up(header, search_body(rs, n) + TIP@);
            reveal_strlit("*Tip: Use `smart_search(query: \"...\", scope: \"...\", include_body: true)` to expand an implementation.*\n");
            syntax::law_byte_len_is_bounded(TIP@);
        },
    }
}

/// The results of an answer that is cut off are the first ones, as many as fit: the next one
/// would not have.
pub proof fn law_cut_where_it_overflows(query: Seq<char>, scope: Seq<char>, rs: Seq<SearchResultView>)
    ensures
        ({
            let header = search_header(query, scope, rs.len() as int);
            match first_overflow(header, rs, 0) {
                Some(i) => 0 <= i < rs.len() && overflows(header, rs, i) && forall|j: int| 0 <= j < i ==> !#[trigger] overflows(header, rs, j),
                None => forall|j: int| 0 <= j < rs.len() ==> !#[trigger] overflows(header, rs, j),
            }
        }),
{
    lemma_first_overflow(search_header(query, scope, rs.len() as int), rs, 0);
}

proof fn lemma_first_overflow(header: Seq<char>, rs: Seq<SearchResultView>, i: int)
    requires
        0 <= i,
    ensures
        match first_overflow(header, rs, i) {
            Some(k) => i <= k < rs.len() && overflows(header, rs, k) && forall|j: int| i <= j < k ==> !#[trigger] overflows(header, rs, j),
            None => forall|j: int| i <= j < rs.len() ==> !#[trigger] overflows(header, rs, j),
        },
    decreases rs.len() - i,
{
    if i < rs.len() && !overflows(header, rs, i) {
        lemma_first_overflow(header, rs, i + 1);
    }
}

/// A trace of a gRPC method from its contract to its callers and handlers.
#[derive(Clone, Debug)]
pub struct GrpcTrace {
    pub target: String,
    pub proto_definition: Option<ContractNode>,
    pub client_stubs: Vec<(ContractNode, EdgeConfidence)>,
    pub server_handlers: Vec<(ContractNode, EdgeConfidence)>,
}

/// What an event leads to.
#[derive(Clone, Debug)]
pub struct ImpactFlow {
    pub target: String,
    pub upstream_producers: Vec<ContractNode>,
    pub topics: Vec<ContractNode>,
    pub downstream_consumers: Vec<ContractNode>,
    pub related_sagas: Vec<ContractNode>,
}

/// A section of a document.
#[derive(Clone, Debug)]
pub struct DocSection {
    pub title: String,
    pub file_path: String,
    pub start_line: usize,
    pub end_line: usize,
    pub level: usize,
    pub content: String,
}

/// A dependent in an answer.
pub open spec fn dependent_entry(n: ContractNodeView, number: int) -> Seq<char> {
    "### ["@ + numbers::decimal(number) + "] `"@ + n.name + "` ("@ + graph::kind_name(n.kind) + ")\n- **File**: `"@ + n.file_path + ":"@
        + numbers::decimal(n.line_start) + "-"@ + numbers::decimal(n.line_end) + "`\n- **Package**: `"@ + n.package + "`\n\n"@
}

/// The first `n` dependents in an answer.
pub open spec fn dependent_entries(ns: Seq<ContractNodeView>, n: int) -> Seq<char>
    decreases n,
{
    if n <= 0 {
        Seq::empty()
    } else {
        dependent_entries(ns, n - 1) + dependent_entry(ns[n - 1], n)
    }
}

/// The answer to what depends on a target.
pub open spec fn dependents_answer(target: Seq<char>, ns: Seq<ContractNodeView>) -> Seq<char> {
    let header = "## In-Memory Reverse Dependency Graph for `"@ + target + "`\n*Total Dependents: "@ + numbers::decimal(ns.len() as int)
        + " consumer node(s) found (O(1) in-memory resolution)*\n\n"@;
    if ns.len() == 0 {
        header + "No dependents found importing this symbol or package.\n"@
    } else {
        header + dependent_entries(ns, ns.len() as int)
    }
}

/// The definition of a contract in a trace.
pub open spec fn definition_part(n: Option<ContractNodeView>) -> Seq<char> {
    match n {
        Some(p) => "- **File**: `"@ + p.file_path + ":"@ + numbers::decimal(p.line_start) + "`\n- **FQCN**: `"@ + p.package + "/"@ + p.name
            + "`\n- **Signature**: `"@ + text::or(p.signature, "N/A"@) + "`\n\n"@,
        None => "*No formal .proto definition indexed for this target.*\n\n"@,
    }
}

/// Where a declaration is, in a list.
pub open spec fn place_words(n: ContractNodeView) -> Seq<char> {
    "- `"@ + n.name + "` in `"@ + n.file_path + ":"@ + numbers::decimal(n.line_start) + "`"@
}

/// A declaration that was matched.
pub open spec fn matched_line(n: ContractNodeView, c: EdgeConfidence) -> Seq<char> {
    place_words(n) + (" _(match: "@ + c.word() + ")_\n"@)
}

/// Declarations that were matched, as mathematical values.
pub open spec fn matched_view(v: Seq<(ContractNode, EdgeConfidence)>) -> Seq<(ContractNodeView, EdgeConfidence)> {
    v.map_values(|m: (ContractNode, EdgeConfidence)| (m.0@, m.1))
}

/// Declarations that were matched.
pub open spec fn matched_lines(ms: Seq<(ContractNodeView, EdgeConfidence)>) -> Seq<char>
    decreases ms.len(),
{
    if ms.len() == 0 {
        Seq::empty()
    } else {
        matched_lines(ms.drop_last()) + matched_line(ms.last().0, ms.last().1)
    }
}

/// The heading of a numbered list.
pub open spec fn list_heading(title: Seq<char>, count: int) -> Seq<char> {
    "### "@ + title + " ("@ + numbers::decimal(count) + " found)\n"@
}

/// A gRPC trace in Markdown.
pub open spec fn trace_answer(t: GrpcTrace) -> Seq<char> {
    let stubs = matched_view(t.client_stubs@);
    let handlers = matched_view(t.server_handlers@);
    "## End-to-End gRPC Synchronous Trace for `"@ + t.target@ + "`\n\n"@ + "### 1. Protobuf Contract Definition\n"@ + definition_part(
        syntax::opt_view(t.proto_definition),
    ) + list_heading("2. Client Stubs"@, stubs.len() as int) + matched_lines(stubs) + "\n"@ + list_heading(
        "3. Server Handlers / Controllers"@,
        handlers.len() as int,
    ) + matched_lines(handlers)
}

/// Where declarations are.
pub open spec fn place_lines(ns: Seq<ContractNodeView>) -> Seq<char>
    decreases ns.len(),
{
    if ns.len() == 0 {
        Seq::empty()
    } else {
        place_lines(ns.drop_last()) + (place_words(ns.last()) + "\n"@)
    }
}

/// A topic, and where it is declared.
pub open spec fn topic_line(n: ContractNodeView) -> Seq<char> {
    "- `"@ + n.name + "` ("@ + graph::kind_name(n.kind) + ") in `"@ + n.file_path + "`\n"@
}

/// Topics, and where they are declared.
pub open spec fn topic_lines(ns: Seq<ContractNodeView>) -> Seq<char>
    decreases ns.len(),
{
    if ns.len() == 0 {
        Seq::empty()
    } else {
        topic_lines(ns.drop_last()) + topic_line(ns.last())
    }
}

/// A list of places under its heading.
pub open spec fn place_list(title: Seq<char>, ns: Seq<ContractNodeView>) -> Seq<char> {
    list_heading(title, ns.len() as int) + place_lines(ns)
}

/// What an event leads to, in Markdown.
pub open spec fn impact_answer(f: ImpactFlow) -> Seq<char> {
    let topics = model::nodes_view(f.topics@);
    "## Asynchronous Causal Impact Analysis for `"@ + f.target@ + "`\n\n"@ + place_list(
        "1. Upstream Event Producers"@,
        model::nodes_view(f.upstream_producers@),
    ) + "\n"@ + (list_heading("2. Event Topics & Stream Hubs"@, topics.len() as int) + topic_lines(topics)) + "\n"@ + place_list(
        "3. Downstream Consumers / Handlers"@,
        model::nodes_view(f.downstream_consumers@),
    ) + "\n"@ + place_list("4. Distributed Sagas & Post-Processors"@, model::nodes_view(f.related_sagas@))
}

/// A section in an answer.
pub open spec fn section_entry(s: DocSection, number: int) -> Seq<char> {
    "### ["@ + numbers::decimal(number) + "] `"@ + s.title@ + "` — "@ + s.file_path@ + "\n*File: `"@ + s.file_path@ + ":"@ + numbers::decimal(
        s.start_line as int,
    ) + "-"@ + numbers::decimal(s.end_line as int) + "`, Level: "@ + numbers::decimal(s.level as int) + "*\n\n"@ + text::trim(s.content@)
        + "\n\n---\n\n"@
}

/// The first `n` sections in an answer.
pub open spec fn section_entries(ss: Seq<&DocSection>, n: int) -> Seq<char>
    decreases n,
{
    if n <= 0 {
        Seq::empty()
    } else {
        section_entries(ss, n - 1) + section_entry(*ss[n - 1], n)
    }
}

/// The answer to a search in documents.
pub open spec fn sections_answer(query: Seq<char>, ss: Seq<&DocSection>) -> Seq<char> {
    let header = "## Architecture Documentation Search for `"@ + query + "`\n*Matched "@ + numbers::decimal(ss.len() as int)
        + " conceptual section(s)*\n\n"@;
    if ss.len() == 0 {
        header + "No relevant architecture sections found matching your query.\n"@
    } else {
        header + section_entries(ss, ss.len() as int)
    }
}

/// Writes answers in Markdown.
pub struct MarkdownFormatter;

/// Counts, as mathematical values.
pub open spec fn counts_view(v: Seq<(String, usize)>) -> Seq<(Seq<char>, int)> {
    v.map_values(|c: (String, usize)| (c.0@, c.1 as int))
}

/// Declarations by reference, as mathematical values.
pub open spec fn refs_view(v: Seq<&ContractNode>) -> Seq<ContractNodeView> {
    v.map_values(|n: &ContractNode| n@)
}

impl MarkdownFormatter {
    fn header(query: &str, scope: &str, count: usize) -> (r: String)
        ensures
            r@ == search_header(query@, scope@, count as int),
    {
        let mut out = text::copy("## Search Results for `");
        out.append(query);
        out.append("` (Scope: `");
        out.append(scope);
        out.append("`)\n*Matches: ");
        numbers::push_number(&mut out, count);
        out.append(" definitions found (AST-Decapitated)*\n\n");
        out
    }

    fn entry(r: &SearchResult, number: usize) -> (e: String)
        ensures
            e@ == search_entry(r@, number as int),
    {
        let snippet = text::chars_of(r.snippet.as_str());
        let mut out = text::copy("### [");
        numbers::push_number(&mut out, number);
        out.append("] `");
        out.append(r.file_path.as_str());
        out.append("` (L");
        numbers::push_number(&mut out, r.line_start);
        out.append("-L");
        numbers::push_number(&mut out, r.line_end);
        out.append(")\n```");
        out.append(r.language.as_str());
        out.append("\n");
        text::push_chars(&mut out, text::trimmed(snippet.as_slice()));
        out.append("\n```\n\n");
        out
    }

    /// The directory that a file is counted under.
    pub fn extract_sub_scope(path: &str) -> (r: String)
        ensures
            r@ == sub_scope(path@),
    {
        let parts = paths::components_of(path);
        let ghost pv = text::strings(parts@);
        assert(pv.len() == parts@.len());
        if parts.len() >= 2 {
            assert(pv[0] == parts@[0]@ && pv[1] == parts@[1]@);
            let mut out = text::copy(parts[0].as_str());
            out.append("/");
            out.append(parts[1].as_str());
            out
        } else if parts.len() == 1 {
            assert(pv[0] == parts@[0]@);
            text::copy(parts[0].as_str())
        } else {
            text::copy("root")
        }
    }

    /// Counts one more for a name.
    fn count(v: &mut Vec<(String, usize)>, name: String)
        requires
            forall|j: int| 0 <= j < old(v)@.len() ==> (#[trigger] old(v)@[j]).1 < usize::MAX,
        ensures
            counts_view(final(v)@) == counted(counts_view(old(v)@), name@),
            forall|j: int| 0 <= j < final(v)@.len() ==> (#[trigger] final(v)@[j]).1 <= 1 || exists|k: int|
                0 <= k < old(v)@.len() && final(v)@[j].1 <= (#[trigger] old(v)@[k]).1 + 1,
    {
        let ghost start = counts_view(v@);
        let mut i: usize = 0;
        assert(start.skip(0) == start);
        assert(start.take(0) + counted(start, name@) == counted(start, name@));
        while i < v.len()
            invariant
                0 <= i <= v@.len(),
                v@ == old(v)@,
                start == counts_view(v@),
                forall|j: int| 0 <= j < old(v)@.len() ==> (#[trigger] old(v)@[j]).1 < usize::MAX,
                counted(start, name@) == start.take(i as int) + counted(start.skip(i as int), name@),
            decreases v@.len() - i,
        {
            let ghost before = v@;
            assert(start[i as int] == (v@[i as int].0@, v@[i as int].1 as int));
            assert(start.skip(i as int).drop_first() == start.skip(i + 1));
            assert(start.skip(i as int)[0] == start[i as int]);
            if text::same(v[i].0.as_str(), name.as_str()) {
                assert(old(v)@[i as int].1 < usize::MAX);
                let n = v[i].1;
                assert(counted(start.skip(i as int), name@) == seq![(name@, n + 1)] + start.skip(i + 1));
                v.set(i, (name, n + 1));
                assert(counts_view(v@) == start.take(i as int) + (seq![(name@, n + 1)] + start.skip(i + 1)));
                assert forall|j: int| 0 <= j < v@.len() implies (#[trigger] v@[j]).1 <= 1 || exists|k: int|
                    0 <= k < old(v)@.len() && v@[j].1 <= (#[trigger] old(v)@[k]).1 + 1 by {
                    assert(v@[j].1 <= old(v)@[j].1 + 1);
                }
                return;
            }
            assert(start.take(i as int) + (seq![start[i as int]] + counted(start.skip(i + 1), name@)) == start.take(i + 1) + counted(
                start.skip(i + 1),
                name@,
            ));
            i += 1;
        }
        assert(start.take(i as int) == start);
        assert(start.skip(i as int) == Seq::<(Seq<char>, int)>::empty());
        v.push((name, 1));
        assert(counts_view(v@) == start + seq![(name@, 1int)]);
        assert forall|j: int| 0 <= j < v@.len() implies (#[trigger] v@[j]).1 <= 1 || exists|k: int|
            0 <= k < old(v)@.len() && v@[j].1 <= (#[trigger] old(v)@[k]).1 + 1 by {
            if j < old(v)@.len() {
                assert(v@[j].1 <= old(v)@[j].1 + 1);
            }
        }
    }

    /// Puts a count in its place.
    fn place(v: &mut Vec<(String, usize)>, name: String, n: usize)
        ensures
            counts_view(final(v)@) == count_placed(counts_view(old(v)@), (name@, n as int)),
    {
        let ghost vv = counts_view(v@);
        let ghost x = (name@, n as int);
        let mut p: usize = 0;
        assert(vv.skip(0) == vv);
        assert(vv.take(0) + count_placed(vv.skip(0), x) == count_placed(vv, x));
        while p < v.len()
            invariant_except_break
                0 <= p <= v@.len(),
                x == (name@, n as int),
                vv == counts_view(v@),
                v@ == old(v)@,
                vv.take(p as int) + count_placed(vv.skip(p as int), x) == count_placed(vv, x),
            ensures
                0 <= p <= v@.len(),
                vv == counts_view(v@),
                v@ == old(v)@,
                vv.take(p as int) + (seq![x] + vv.skip(p as int)) == count_placed(vv, x),
            decreases v@.len() - p,
        {
            let ghost rest = vv.skip(p as int);
            assert(rest[0] == vv[p as int] && vv[p as int] == (v@[p as int].0@, v@[p as int].1 as int));
            if n > v[p].1 {
                break;
            }
            proof {
                assert(rest.drop_first() == vv.skip(p + 1));
                let inner = count_placed(vv.skip(p + 1), x);
                assert(vv.take(p as int) + (seq![vv[p as int]] + inner) == vv.take(p + 1) + inner);
            }
            p += 1;
            assert(p == v@.len() ==> vv.skip(p as int) == Seq::<(Seq<char>, int)>::empty());
            assert(p == v@.len() ==> seq![x] + vv.skip(p as int) == seq![x]);
        }
        v.insert(p, (name, n));
        assert(counts_view(v@) == vv.take(p as int) + (seq![x] + vv.skip(p as int)));
    }

    /// Counts, the greatest first.
    fn sort_counts(counts: &Vec<(String, usize)>) -> (r: Vec<(String, usize)>)
        ensures
            counts_view(r@) == by_count(counts_view(counts@)),
    {
        let ghost cv = counts_view(counts@);
        let mut out: Vec<(String, usize)> = Vec::new();
        let mut j: usize = 0;
        assert(cv.take(0) == Seq::<(Seq<char>, int)>::empty());
        assert(counts_view(out@) == Seq::<(Seq<char>, int)>::empty());
        while j < counts.len()
            invariant
                0 <= j <= counts@.len(),
                cv == counts_view(counts@),
                counts_view(out@) == by_count(cv.take(j as int)),
            decreases counts@.len() - j,
        {
            proof {
                syntax::lemma_take_step(cv, j as int);
                assert(cv[j as int] == (counts@[j as int].0@, counts@[j as int].1 as int));
            }
            Self::place(&mut out, text::copy(counts[j].0.as_str()), counts[j].1);
            j += 1;
        }
        assert(cv.take(j as int) == cv);
        out
    }

    fn scope_line(name: &str, n: usize) -> (r: String)
        ensures
            r@ == scope_line((name@, n as int)),
    {
        let mut out = text::copy("  ├── '");
        out.append(name);
        out.append("' (");
        numbers::push_number(&mut out, n);
        out.append(" matches)\n");
        out
    }

    fn build_guidance(displayed: usize, total: usize, query: &str, counts: &Vec<(String, usize)>) -> (r: String)
        ensures
            r@ == guidance(displayed as int, total as int, query@, counts_view(counts@)),
    {
        let sorted = Self::sort_counts(counts);
        let ghost sv = counts_view(sorted@);
        assert(sv.len() == sorted@.len());
        let mut lines = String::new();
        let mut i: usize = 0;
        assert(sv.take(0) == Seq::<(Seq<char>, int)>::empty());
        while i < sorted.len() && i < 3
            invariant
                0 <= i <= sorted@.len(),
                i <= 3,
                sv == counts_view(sorted@),
                lines@ == scope_lines(sv.take(i as int)),
            decreases 3 - i,
        {
            proof {
                syntax::lemma_take_step(sv, i as int);
                assert(sv[i as int] == (sorted@[i as int].0@, sorted@[i as int].1 as int));
            }
            let line = Self::scope_line(sorted[i].0.as_str(), sorted[i].1);
            lines.append(line.as_str());
            i += 1;
        }
        assert(sv.len() <= 3 ==> sv.take(i as int) == sv);
        let top = if sorted.len() > 0 {
            assert(sv[0] == (sorted@[0].0@, sorted@[0].1 as int));
            text::copy(sorted[0].0.as_str())
        } else {
            text::copy("services/target")
        };
        let mut out = text::copy("\n[PAYLOAD TRUNCATED at 48 KB: ");
        numbers::push_number(&mut out, displayed);
        out.append(" matches displayed out of ");
        numbers::push_number(&mut out, total);
        out.append(
            " total matches]\n\n💡 GUIDANCE TO PREVENT TOKEN OVERFLOW:\n- Your query matched broadly across multiple sub-directories.\n- Top sub-scopes detected:\n",
        );
        out.append(lines.as_str());
        out.append("\n👉 ACTION REQUIRED: Repeat 'smart_search' targeting one specific sub-scope, e.g.:\nsmart_search(query: \"");
        out.append(query);
        out.append("\", scope: \"");
        out.append(top.as_str());
        out.append("\")\n");
        out
    }

    /// The answer to a search. An answer that grows too long is cut off, with guidance on how
    /// to ask for less.
    pub fn format_search_results(query: &str, scope: &str, results: &[SearchResult]) -> (r: String)
        ensures
            r@ == search_answer(query@, scope@, results_view(results@)),
    {
        let ghost rv = results_view(results@);
        assert(rv.len() == results@.len());
        let mut header = Self::header(query, scope, results.len());
        let ghost hv = header@;
        let size = syntax::bytes_in(header.as_str());
        let mut body = String::new();
        let mut counts: Vec<(String, usize)> = Vec::new();
        let mut i: usize = 0;
        assert(counts_view(counts@) == Seq::<(Seq<char>, int)>::empty());
        while i < results.len()
            invariant
                0 <= i <= results@.len(),
                rv == results_view(results@),
                rv.len() == results@.len(),
                header@ == hv,
                hv == search_header(query@, scope@, rv.len() as int),
                size == syntax::byte_len(hv),
                body@ == search_body(rv, i as int),
                counts_view(counts@) == scope_counts(rv, i as int),
                forall|j: int| 0 <= j < counts@.len() ==> (#[trigger] counts@[j]).1 <= i,
                first_overflow(hv, rv, 0) == first_overflow(hv, rv, i as int),
            decreases results@.len() - i,
        {
            assert(rv[i as int] == results@[i as int]@);
            Self::count(&mut counts, Self::extract_sub_scope(results[i].file_path.as_str()));
            let entry = Self::entry(&results[i], i + 1);
            let total = size as u128 + syntax::bytes_in(body.as_str()) as u128 + syntax::bytes_in(entry.as_str()) as u128;
            if total > MAX_RESULT_BYTES as u128 {
                let tail = Self::build_guidance(i, results.len(), query, &counts);
                header.append(body.as_str());
                header.append(tail.as_str());
                return header;
            }
            body.append(entry.as_str());
            i += 1;
        }
        body.append(TIP);
        header.append(body.as_str());
        header
    }

    fn dependent_entry(n: &ContractNode, number: usize) -> (r: String)
        ensures
            r@ == dependent_entry(n@, number as int),
    {
        let mut out = text::copy("### [");
        numbers::push_number(&mut out, number);
        out.append("] `");
        out.append(n.name.as_str());
        out.append("` (");
        out.append(graph::name_of_kind(n.kind));
        out.append(")\n- **File**: `");
        out.append(n.file_path.as_str());
        out.append(":");
        numbers::push_number(&mut out, n.line_start);
        out.append("-");
        numbers::push_number(&mut out, n.line_end);
        out.append("`\n- **Package**: `");
        out.append(n.package.as_str());
        out.append("`\n\n");
        out
    }

    /// The answer to what depends on a target.
    pub fn format_dependents(target: &str, dependents: &[&ContractNode]) -> (r: String)
        ensures
            r@ == dependents_answer(target@, refs_view(dependents@)),
    {
        let ghost dv = refs_view(dependents@);
        assert(dv.len() == dependents@.len());
        let mut out = text::copy("## In-Memory Reverse Dependency Graph for `");
        out.append(target);
        out.append("`\n*Total Dependents: ");
        numbers::push_number(&mut out, dependents.len());
        out.append(" consumer node(s) found (O(1) in-memory resolution)*\n\n");
        if dependents.len() == 0 {
            out.append("No dependents found importing this symbol or package.\n");
            return out;
        }
        let mut entries = String::new();
        let mut i: usize = 0;
        while i < dependents.len()
            invariant
                0 <= i <= dependents@.len(),
                dv == refs_view(dependents@),
                entries@ == dependent_entries(dv, i as int),
            decreases dependents@.len() - i,
        {
            assert(dv[i as int] == dependents@[i as int]@);
            let e = Self::dependent_entry(dependents[i], i + 1);
            entries.append(e.as_str());
            i += 1;
        }
        out.append(entries.as_str());
        out
    }

    fn definition(n: &Option<ContractNode>) -> (r: String)
        ensures
            r@ == definition_part(syntax::opt_view(*n)),
    {
        match n {
            Some(p) => {
                let mut out = text::copy("- **File**: `");
                out.append(p.file_path.as_str());
                out.append(":");
                numbers::push_number(&mut out, p.line_start);
                out.append("`\n- **FQCN**: `");
                out.append(p.package.as_str());
                out.append("/");
                out.append(p.name.as_str());
                out.append("`\n- **Signature**: `");
                match &p.signature {
                    Some(s) => out.append(s.as_str()),
                    None => out.append("N/A"),
                }
                out.append("`\n\n");
                out
            },
            None => text::copy("*No formal .proto definition indexed for this target.*\n\n"),
        }
    }

    fn place_words(n: &ContractNode) -> (r: String)
        ensures
            r@ == place_words(n@),
    {
        let mut out = text::copy("- `");
        out.append(n.name.as_str());
        out.append("` in `");
        out.append(n.file_path.as_str());
        out.append(":");
        numbers::push_number(&mut out, n.line_start);
        out.append("`");
        out
    }

    fn heading(title: &str, count: usize) -> (r: String)
        ensures
            r@ == list_heading(title@, count as int),
    {
        let mut out = text::copy("### ");
        out.append(title);
        out.append(" (");
        numbers::push_number(&mut out, count);
        out.append(" found)\n");
        out
    }

    fn matched(ms: &Vec<(ContractNode, EdgeConfidence)>) -> (r: String)
        ensures
            r@ == matched_lines(matched_view(ms@)),
    {
        let ghost mv = matched_view(ms@);
        let mut out = String::new();
        let mut i: usize = 0;
        assert(mv.take(0) == Seq::<(ContractNodeView, EdgeConfidence)>::empty());
        while i < ms.len()
            invariant
                0 <= i <= ms@.len(),
                mv == matched_view(ms@),
                out@ == matched_lines(mv.take(i as int)),
            decreases ms@.len() - i,
        {
            proof {
                syntax::lemma_take_step(mv, i as int);
                assert(mv[i as int] == (ms@[i as int].0@, ms@[i as int].1));
            }
            let mut line = Self::place_words(&ms[i].0);
            let word = text::chars_of(ms[i].1.label());
            let tail = text::wrapped(" _(match: ", word.as_slice(), ")_\n");
            line.append(tail.as_str());
            out.append(line.as_str());
            i += 1;
        }
        assert(mv.take(i as int) == mv);
        out
    }

    /// A gRPC trace in Markdown.
    pub fn format_grpc_trace(trace: &GrpcTrace) -> (r: String)
        ensures
            r@ == trace_answer(*trace),
    {
        let mut out = text::copy("## End-to-End gRPC Synchronous Trace for `");
        out.append(trace.target.as_str());
        out.append("`\n\n");
        out.append("### 1. Protobuf Contract Definition\n");
        let definition = Self::definition(&trace.proto_definition);
        out.append(definition.as_str());
        let stubs = Self::heading("2. Client Stubs", trace.client_stubs.len());
        out.append(stubs.as_str());
        let lines = Self::matched(&trace.client_stubs);
        out.append(lines.as_str());
        out.append("\n");
        let handlers = Self::heading("3. Server Handlers / Controllers", trace.server_handlers.len());
        out.append(handlers.as_str());
        let lines = Self::matched(&trace.server_handlers);
        out.append(lines.as_str());
        out
    }

    fn place_list(title: &str, ns: &Vec<ContractNode>) -> (r: String)
        ensures
            r@ == place_list(title@, model::nodes_view(ns@)),
    {
        let ghost nv = model::nodes_view(ns@);
        assert(nv.len() == ns@.len());
        let mut lines = String::new();
        let mut i: usize = 0;
        assert(nv.take(0) == Seq::<ContractNodeView>::empty());
        while i < ns.len()
            invariant
                0 <= i <= ns@.len(),
                nv == model::nodes_view(ns@),
                lines@ == place_lines(nv.take(i as int)),
            decreases ns@.len() - i,
        {
            proof {
                syntax::lemma_take_step(nv, i as int);
                assert(nv[i as int] == ns@[i as int]@);
            }
            let mut line = Self::place_words(&ns[i]);
            line.append("\n");
            lines.append(line.as_str());
            i += 1;
        }
        assert(nv.take(i as int) == nv);
        let mut out = Self::heading(title, ns.len());
        out.append(lines.as_str());
        out
    }

    fn topics(ns: &Vec<ContractNode>) -> (r: String)
        ensures
            r@ == topic_lines(model::nodes_view(ns@)),
    {
        let ghost nv = model::nodes_view(ns@);
        let mut out = String::new();
        let mut i: usize = 0;
        assert(nv.take(0) == Seq::<ContractNodeView>::empty());
        while i < ns.len()
            invariant
                0 <= i <= ns@.len(),
                nv == model::nodes_view(ns@),
                out@ == topic_lines(nv.take(i as int)),
            decreases ns@.len() - i,
        {
            proof {
                syntax::lemma_take_step(nv, i as int);
                assert(nv[i as int] == ns@[i as int]@);
            }
            let n = &ns[i];
            let mut line = text::copy("- `");
            line.append(n.name.as_str());
            line.append("` (");
            line.append(graph::name_of_kind(n.kind));
            line.append(") in `");
            line.append(n.file_path.as_str());
            line.append("`\n");
            out.append(line.as_str());
            i += 1;
        }
        assert(nv.take(i as int) == nv);
        out
    }

    /// What an event leads to, in Markdown.
    pub fn format_impact_flow(flow: &ImpactFlow) -> (r: String)
        ensures
            r@ == impact_answer(*flow),
    {
        let mut out = text::copy("## Asynchronous Causal Impact Analysis for `");
        out.append(flow.target.as_str());
        out.append("`\n\n");
        let producers = Self::place_list("1. Upstream Event Producers", &flow.upstream_producers);
        out.append(producers.as_str());
        out.append("\n");
        let mut topics = Self::heading("2. Event Topics & Stream Hubs", flow.topics.len());
        let lines = Self::topics(&flow.topics);
        topics.append(lines.as_str());
        out.append(topics.as_str());
        out.append("\n");
        let consumers = Self::place_list("3. Downstream Consumers / Handlers", &flow.downstream_consumers);
        out.append(consumers.as_str());
        out.append("\n");
        let sagas = Self::place_list("4. Distributed Sagas & Post-Processors", &flow.related_sagas);
        out.append(sagas.as_str());
        out
    }

    fn section(s: &DocSection, number: usize) -> (r: String)
        ensures
            r@ == section_entry(*s, number as int),
    {
        let content = text::chars_of(s.content.as_str());
        let mut out = text::copy("### [");
        numbers::push_number(&mut out, number);
        out.append("] `");
        out.append(s.title.as_str());
        out.append("` — ");
        out.append(s.file_path.as_str());
        out.append("\n*File: `");
        out.append(s.file_path.as_str());
        out.append(":");
        numbers::push_number(&mut out, s.start_line);
        out.append("-");
        numbers::push_number(&mut out, s.end_line);
        out.append("`, Level: ");
        numbers::push_number(&mut out, s.level);
        out.append("*\n\n");
        text::push_chars(&mut out, text::trimmed(content.as_slice()));
        out.append("\n\n---\n\n");
        out
    }

    /// The answer to a search in documents.
    pub fn format_doc_sections(query: &str, sections: &[&DocSection]) -> (r: String)
        ensures
            r@ == sections_answer(query@, sections@),
    {
        let mut out = text::copy("## Architecture Documentation Search for `");
        out.append(query);
        out.append("`\n*Matched ");
        numbers::push_number(&mut out, sections.len());
        out.append(" conceptual section(s)*\n\n");
        if sections.len() == 0 {
            out.append("No relevant architecture sections found matching your query.\n");
            return out;
        }
        let mut entries = String::new();
        let mut i: usize = 0;
        while i < sections.len()
            invariant
                0 <= i <= sections@.len(),
                entries@ == section_entries(sections@, i as int),
            decreases sections@.len() - i,
        {
            let e = Self::section(sections[i], i + 1);
            entries.append(e.as_str());
            i += 1;
        }
        out.append(entries.as_str());
        out
    }
}

} // verus!
