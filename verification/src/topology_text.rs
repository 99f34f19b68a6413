//! Topologies as Mermaid diagrams, for the web, and in words.
use vstd::prelude::*;
use crate::contracts::EdgeKind;
use crate::graph;
use crate::graph::{PayloadView, WebEdge, WebEdgeView, WebGraphPayload, WebNode, WebNodeView};
use crate::model;
use crate::numbers;
use crate::syntax;
use crate::text;
use crate::topology;
use crate::topology::{Group, GroupKind, GroupView, Link, LinkView, Topology, TopologyView};

verus! {

/// How many contracts of a kind there are, in words.
pub open spec fn count_words(c: (Seq<char>, int)) -> Seq<char> {
    numbers::decimal(c.1) + " "@ + c.0
}

/// How many contracts of each kind there are, in words, from the last kind to the first.
pub open spec fn counts_words(s: Seq<(Seq<char>, int)>) -> Seq<Seq<char>>
    decreases s.len(),
{
    if s.len() == 0 {
        Seq::empty()
    } else {
        seq![count_words(s.last())] + counts_words(s.drop_last())
    }
}

/// The first three texts of a list.
pub open spec fn three_of(s: Seq<Seq<char>>) -> Seq<Seq<char>> {
    if s.len() > 3 {
        s.take(3)
    } else {
        s
    }
}

/// The caption of a group.
pub open spec fn caption(g: GroupView) -> Seq<char> {
    let parts = three_of(counts_words(g.by_kind));
    if g.kind == GroupKind::Other {
        g.name + (" ("@ + numbers::decimal(g.folded) + " groups, "@ + numbers::decimal(g.contracts) + " contracts)"@)
    } else if parts.len() == 0 {
        g.name
    } else {
        g.name + "<br/>"@ + text::join(parts, " · "@)
    }
}

/// The name of a group's kind.
pub open spec fn group_kind_name(kind: GroupKind) -> Seq<char> {
    match kind {
        GroupKind::Service => "Service"@,
        GroupKind::Topic => "Topic"@,
        GroupKind::Other => "Other"@,
        GroupKind::Contract => "Contract"@,
    }
}

/// A name that can stand in a comment of a diagram: quotes become single, brackets blanks.
pub open spec fn sanitized(s: Seq<char>) -> Seq<char> {
    text::replaced(text::replaced(s, "\""@, '\''), "[]{}()<>"@, ' ')
}

/// The shape that a group is drawn in.
pub open spec fn group_shape(kind: GroupKind) -> (Seq<char>, Seq<char>) {
    match kind {
        GroupKind::Topic => ("(["@, "])"@),
        GroupKind::Other => ("[/"@, "/]"@),
        GroupKind::Contract => ("("@, ")"@),
        GroupKind::Service => ("["@, "]"@),
    }
}

/// The line that draws a group.
pub open spec fn group_line(g: GroupView, i: int) -> Seq<char> {
    "  g"@ + numbers::decimal(i) + group_shape(g.kind).0 + "\""@ + text::replaced(caption(g), "\""@, '\'') + "\""@ + group_shape(g.kind).1
        + "\n"@
}

/// The lines that draw the first `n` groups.
pub open spec fn group_lines(groups: Seq<GroupView>, n: int) -> Seq<char>
    decreases n,
{
    if n <= 0 {
        Seq::empty()
    } else {
        group_lines(groups, n - 1) + group_line(groups[n - 1], n - 1)
    }
}

/// The label of a link: its kind, how many links it stands for, and what doubt there is.
pub open spec fn link_label(l: LinkView) -> Seq<char> {
    let times = if l.count > 1 {
        " ×"@ + numbers::decimal(l.count)
    } else {
        ""@
    };
    graph::edge_label(l.kind) + times + graph::doubt_note(l.weakest)
}

/// The start and the tip of the arrow that a link is drawn with.
pub open spec fn link_arrow(kind: EdgeKind) -> (Seq<char>, Seq<char>) {
    match kind {
        EdgeKind::Produces => ("=="@, "==>"@),
        EdgeKind::DispatchesTo => ("=="@, "==>"@),
        EdgeKind::Consumes => ("-."@, ".->"@),
        _ => ("--"@, "-->"@),
    }
}

/// The line that draws a link.
pub open spec fn link_line(l: LinkView) -> Seq<char> {
    "  g"@ + numbers::decimal(l.from) + " "@ + link_arrow(l.kind).0 + " \""@ + link_label(l) + "\" "@ + link_arrow(l.kind).1 + " g"@
        + numbers::decimal(l.to) + "\n"@
}

/// The lines that draw links.
pub open spec fn link_lines(links: Seq<LinkView>) -> Seq<char>
    decreases links.len(),
{
    if links.len() == 0 {
        Seq::empty()
    } else {
        link_lines(links.drop_last()) + link_line(links.last())
    }
}

/// A topology as a Mermaid diagram.
pub open spec fn topology_mermaid(t: TopologyView, workspace: Seq<char>) -> Seq<char> {
    "%% CausalMesh service topology: "@ + sanitized(workspace) + "\n"@ + "graph LR\n"@ + group_lines(t.groups, t.groups.len() as int)
        + link_lines(t.links)
}

/// A group for the web.
pub open spec fn web_group(g: GroupView, i: int) -> WebNodeView {
    WebNodeView {
        id: i as u32,
        name: g.name,
        kind: group_kind_name(g.kind),
        file_path: ""@,
        line_start: 0,
        line_end: 0,
        package: g.name,
        repo: g.name,
        signature: Some(unbroken(caption(g))),
    }
}

/// A caption in one line: a dash stands for each line break.
pub open spec fn unbroken(s: Seq<char>) -> Seq<char>
    decreases s.len(),
{
    let p = "<br/>"@;
    if s.len() == 0 {
        s
    } else if text::starts_with(s, p) && p.len() > 0 {
        " — "@ + unbroken(s.skip(p.len() as int))
    } else {
        seq![s[0]] + unbroken(s.drop_first())
    }
}

/// A link for the web.
pub open spec fn web_link(l: LinkView) -> WebEdgeView {
    WebEdgeView {
        from: l.from as u32,
        to: l.to as u32,
        kind: graph::edge_name(l.kind),
        metadata: Some(numbers::decimal(l.count) + " edge(s)"@),
        confidence: l.weakest.word(),
    }
}

/// A topology for the web.
pub open spec fn topology_payload(t: TopologyView, workspace: Seq<char>) -> PayloadView {
    PayloadView {
        workspace_name: workspace,
        total_nodes: t.groups.len() as int,
        total_edges: t.links.len() as int,
        nodes: t.groups.map(|i: int, g: GroupView| web_group(g, i)),
        edges: t.links.map_values(|l: LinkView| web_link(l)),
    }
}

/// How many groups are drawn by themselves.
pub open spec fn drawn_count(groups: Seq<GroupView>) -> int
    decreases groups.len(),
{
    if groups.len() == 0 {
        0
    } else {
        drawn_count(groups.drop_last()) + if groups.last().kind != GroupKind::Other {
            1int
        } else {
            0
        }
    }
}

/// The line that lists a hidden group.
pub open spec fn hidden_line(h: (Seq<char>, int)) -> Seq<char> {
    "  - `"@ + h.0 + "` ("@ + numbers::decimal(h.1) + " contracts)\n"@
}

/// The lines that list hidden groups.
pub open spec fn hidden_lines(hs: Seq<(Seq<char>, int)>) -> Seq<char>
    decreases hs.len(),
{
    if hs.len() == 0 {
        Seq::empty()
    } else {
        hidden_lines(hs.drop_last()) + hidden_line(hs.last())
    }
}

/// The name of the first service among groups.
pub open spec fn first_service(groups: Seq<GroupView>) -> Option<Seq<char>>
    decreases groups.len(),
{
    if groups.len() == 0 {
        None
    } else if groups[0].kind == GroupKind::Service {
        Some(groups[0].name)
    } else {
        first_service(groups.drop_first())
    }
}

/// What a reader could look at closer: the largest hidden group, or the first service.
pub open spec fn zoom_example(t: TopologyView) -> Option<Seq<char>> {
    if t.hidden.len() > 0 {
        Some(t.hidden[0].0)
    } else {
        first_service(t.groups)
    }
}

/// What was folded.
pub open spec fn totals(t: TopologyView) -> Seq<char> {
    "*"@ + numbers::decimal(t.total_contracts) + " contracts, "@ + numbers::decimal(t.total_edges) + " edges folded into "@
        + numbers::decimal(drawn_count(t.groups)) + " of "@ + numbers::decimal(t.total_groups)
        + " groups (grouping: one service per "@ + t.grouping + ").*\n"@
}

/// The groups that are hidden, at most five of them.
pub open spec fn hidden_part(t: TopologyView) -> Seq<char> {
    if t.hidden.len() == 0 {
        Seq::empty()
    } else {
        "\n"@ + numbers::decimal(t.hidden.len() as int) + " groups are folded into \"other\". Largest hidden:\n"@ + hidden_lines(
            if t.hidden.len() > 5 {
                t.hidden.take(5)
            } else {
                t.hidden
            },
        )
    }
}

/// How to look at a service closer, unless one is in focus.
pub open spec fn zoom_part(t: TopologyView) -> Seq<char> {
    match zoom_example(t) {
        Some(name) => if t.focus is None {
            "\n👉 Zoom into one service: `visualize_mesh(service: \""@ + name + "\")`.\n"@
        } else {
            Seq::empty()
        },
        None => Seq::empty(),
    }
}

/// What a topology shows and how to look at it closer.
pub open spec fn footer_of(t: TopologyView) -> Seq<char> {
    totals(t) + hidden_part(t) + zoom_part(t)
}

fn words_of_count(label: &str, n: usize) -> (r: String)
    ensures
        r@ == count_words((label@, n as int)),
{
    let digits = numbers::decimal_of(n);
    let tail = text::chars_of(label);
    text::joined3(digits.as_slice(), " ", tail.as_slice())
}

/// How many contracts of each kind there are, in words, from the last kind to the first.
fn words_of_counts(s: &Vec<(&'static str, usize)>) -> (r: Vec<String>)
    ensures
        text::strings(r@) == counts_words(topology::counts_view(s@)),
{
    let ghost sv = topology::counts_view(s@);
    let mut out: Vec<String> = Vec::new();
    let mut i: usize = s.len();
    assert(sv.take(i as int) == sv);
    assert(text::strings(out@) + counts_words(sv) == counts_words(sv));
    while i > 0
        invariant
            0 <= i <= s@.len(),
            sv == topology::counts_view(s@),
            text::strings(out@) + counts_words(sv.take(i as int)) == counts_words(sv),
        decreases i,
    {
        let ghost before = text::strings(out@);
        let (label, n) = s[i - 1];
        assert(sv[i - 1] == (label@, n as int));
        let w = words_of_count(label, n);
        proof {
            assert(sv.take(i as int).last() == sv[i - 1]);
            assert(sv.take(i as int).drop_last() == sv.take(i - 1));
            assert(before + (seq![w@] + counts_words(sv.take(i - 1))) == before.push(w@) + counts_words(sv.take(i - 1)));
        }
        model::push_string(&mut out, w);
        i -= 1;
    }
    assert(counts_words(sv.take(0)) == Seq::<Seq<char>>::empty());
    assert(text::strings(out@) + Seq::<Seq<char>>::empty() == text::strings(out@));
    out
}

/// A caption in one line.
fn unbreak(s: &[char]) -> (r: String)
    ensures
        r@ == unbroken(s@),
{
    let mut out = String::new();
    let mut i: usize = 0;
    proof {
        reveal_strlit("<br/>");
        assert(s@.skip(0) == s@);
        assert(out@ + unbroken(s@) == unbroken(s@));
    }
    let mark = text::chars_of("<br/>");
    while i < s.len()
        invariant
            0 <= i <= s@.len(),
            mark@ == "<br/>"@,
            mark@.len() == 5,
            out@ + unbroken(s@.skip(i as int)) == unbroken(s@),
        decreases s@.len() - i,
    {
        let ghost before = out@;
        let ghost rest = s@.skip(i as int);
        assert(rest.drop_first() == s@.skip(i + 1));
        if text::stands_at(s, mark.as_slice(), i) {
            assert(text::starts_with(rest, "<br/>"@)) by {
                assert(rest.subrange(0, 5) == s@.subrange(i as int, i + 5));
            }
            assert(rest.skip(5) == s@.skip(i + 5));
            out.append(" — ");
            assert(before + (" — "@ + unbroken(s@.skip(i + 5))) == out@ + unbroken(s@.skip(i + 5)));
            i += 5;
        } else {
            assert(!text::starts_with(rest, "<br/>"@)) by {
                if text::starts_with(rest, "<br/>"@) {
                    assert(rest.subrange(0, 5) == s@.subrange(i as int, i + 5));
                }
            }
            out.push(s[i]);
            assert(before + (seq![s@[i as int]] + unbroken(s@.skip(i + 1))) == out@ + unbroken(s@.skip(i + 1)));
            i += 1;
        }
    }
    assert(unbroken(s@.skip(i as int)) == Seq::<char>::empty());
    assert(out@ + Seq::<char>::empty() == out@);
    out
}

impl Topology {
    fn caption(g: &Group) -> (r: String)
        ensures
            r@ == caption(g@),
    {
        if g.kind == GroupKind::Other {
            let mut tail = text::copy(" (");
            numbers::push_number(&mut tail, g.folded);
            tail.append(" groups, ");
            numbers::push_number(&mut tail, g.contracts);
            tail.append(" contracts)");
            let mut out = text::copy(g.name.as_str());
            out.append(tail.as_str());
            return out;
        }
        let all = words_of_counts(&g.by_kind);
        let ghost av = text::strings(all@);
        assert(av.len() == all@.len());
        let mut parts: Vec<String> = Vec::new();
        let mut i: usize = 0;
        while i < all.len() && i < 3
            invariant
                0 <= i <= all@.len(),
                i <= 3,
                av == text::strings(all@),
                text::strings(parts@) == av.take(i as int),
            decreases 3 - i,
        {
            model::push_string(&mut parts, text::copy(all[i].as_str()));
            assert(av[i as int] == all@[i as int]@);
            assert(av.take(i + 1) == av.take(i as int).push(av[i as int]));
            i += 1;
        }
        assert(text::strings(parts@) == three_of(av)) by {
            if av.len() <= 3 {
                assert(av.take(i as int) == av);
            }
        }
        assert(text::strings(parts@).len() == parts@.len());
        if parts.len() == 0 {
            text::copy(g.name.as_str())
        } else {
            let list = text::joined_list(&parts, " · ");
            let mut out = text::copy(g.name.as_str());
            out.append("<br/>");
            out.append(list.as_str());
            out
        }
    }

    fn sanitize(s: &str) -> (r: String)
        ensures
            r@ == sanitized(s@),
    {
        let chars = text::chars_of(s);
        let once = text::replace_all(chars.as_slice(), "\"", '\'');
        let twice = text::replace_all(once.as_slice(), "[]{}()<>", ' ');
        text::string_of(twice.as_slice())
    }

    fn shape_of(kind: GroupKind) -> (r: (&'static str, &'static str))
        ensures
            (r.0@, r.1@) == group_shape(kind),
    {
        match kind {
            GroupKind::Topic => ("([", "])"),
            GroupKind::Other => ("[/", "/]"),
            GroupKind::Contract => ("(", ")"),
            GroupKind::Service => ("[", "]"),
        }
    }

    fn draw_group(g: &Group, i: usize) -> (r: String)
        ensures
            r@ == group_line(g@, i as int),
    {
        let c = Self::caption(g);
        let chars = text::chars_of(c.as_str());
        let label = text::replace_all(chars.as_slice(), "\"", '\'');
        let (open, close) = Self::shape_of(g.kind);
        let mut out = text::copy("  g");
        numbers::push_number(&mut out, i);
        out.append(open);
        out.append("\"");
        text::push_chars(&mut out, label.as_slice());
        out.append("\"");
        out.append(close);
        out.append("\n");
        out
    }

    fn draw_groups(&self) -> (r: String)
        ensures
            r@ == group_lines(self@.groups, self@.groups.len() as int),
    {
        let ghost gv = self@.groups;
        assert(gv.len() == self.groups@.len());
        let mut out = String::new();
        let mut i: usize = 0;
        while i < self.groups.len()
            invariant
                0 <= i <= self.groups@.len(),
                gv == topology::groups_view(self.groups@),
                out@ == group_lines(gv, i as int),
            decreases self.groups@.len() - i,
        {
            assert(gv[i as int] == self.groups@[i as int]@);
            let line = Self::draw_group(&self.groups[i], i);
            out.append(line.as_str());
            i += 1;
        }
        out
    }

    fn label_of(l: &Link) -> (r: String)
        ensures
            r@ == link_label(l@),
    {
        let mut times = text::copy("");
        if l.count > 1 {
            times = text::copy(" ×");
            numbers::push_number(&mut times, l.count);
        }
        let mut out = text::copy(graph::label_of_edge(l.kind));
        out.append(times.as_str());
        out.append(graph::note_of(l.weakest));
        out
    }

    fn arrow_of(kind: EdgeKind) -> (r: (&'static str, &'static str))
        ensures
            (r.0@, r.1@) == link_arrow(kind),
    {
        match kind {
            EdgeKind::Produces => ("==", "==>"),
            EdgeKind::DispatchesTo => ("==", "==>"),
            EdgeKind::Consumes => ("-.", ".->"),
            EdgeKind::CallsRpc => ("--", "-->"),
            EdgeKind::Implements => ("--", "-->"),
            EdgeKind::Imports => ("--", "-->"),
        }
    }

    fn draw_link(l: &Link) -> (r: String)
        ensures
            r@ == link_line(l@),
    {
        let (start, tip) = Self::arrow_of(l.kind);
        let mut out = text::copy("  g");
        numbers::push_number(&mut out, l.from);
        out.append(" ");
        out.append(start);
        out.append(" \"");
        let label = Self::label_of(l);
        out.append(label.as_str());
        out.append("\" ");
        out.append(tip);
        out.append(" g");
        numbers::push_number(&mut out, l.to);
        out.append("\n");
        out
    }

    fn draw_links(&self) -> (r: String)
        ensures
            r@ == link_lines(self@.links),
    {
        let ghost lv = self@.links;
        let mut out = String::new();
        let mut i: usize = 0;
        assert(lv.take(0) == Seq::<LinkView>::empty());
        while i < self.links.len()
            invariant
                0 <= i <= self.links@.len(),
                lv == topology::folded_links_view(self.links@),
                out@ == link_lines(lv.take(i as int)),
            decreases self.links@.len() - i,
        {
            proof {
                syntax::lemma_take_step(lv, i as int);
                assert(lv[i as int] == self.links@[i as int]@);
            }
            let line = Self::draw_link(&self.links[i]);
            out.append(line.as_str());
            i += 1;
        }
        assert(lv.take(i as int) == lv);
        out
    }

    /// The topology as a Mermaid diagram.
    pub fn to_mermaid(&self, workspace_name: &str) -> (r: String)
        ensures
            r@ == topology_mermaid(self@, workspace_name@),
    {
        let name = Self::sanitize(workspace_name);
        let mut out = text::copy("%% CausalMesh service topology: ");
        out.append(name.as_str());
        out.append("\n");
        out.append("graph LR\n");
        let groups = self.draw_groups();
        out.append(groups.as_str());
        let links = self.draw_links();
        out.append(links.as_str());
        out
    }

    fn name_of_kind(kind: GroupKind) -> (r: &'static str)
        ensures
            r@ == group_kind_name(kind),
    {
        match kind {
            GroupKind::Service => "Service",
            GroupKind::Topic => "Topic",
            GroupKind::Other => "Other",
            GroupKind::Contract => "Contract",
        }
    }

    fn web_node(g: &Group, i: usize) -> (r: WebNode)
        ensures
            r@ == web_group(g@, i as int),
    {
        let c = Self::caption(g);
        let chars = text::chars_of(c.as_str());
        WebNode {
            id: i as u32,
            name: text::copy(g.name.as_str()),
            kind: text::copy(Self::name_of_kind(g.kind)),
            file_path: text::copy(""),
            line_start: 0,
            line_end: 0,
            package: text::copy(g.name.as_str()),
            repo: text::copy(g.name.as_str()),
            signature: Some(unbreak(chars.as_slice())),
        }
    }

    fn web_edge(l: &Link) -> (r: WebEdge)
        ensures
            r@ == web_link(l@),
    {
        let mut metadata = String::new();
        assert(metadata@ + numbers::decimal(l.count as int) == numbers::decimal(l.count as int));
        numbers::push_number(&mut metadata, l.count);
        metadata.append(" edge(s)");
        WebEdge {
            from: l.from as u32,
            to: l.to as u32,
            kind: text::copy(graph::name_of_edge(l.kind)),
            metadata: Some(metadata),
            confidence: text::copy(l.weakest.label()),
        }
    }

    /// The topology for the web.
    pub fn to_payload(&self, workspace_name: &str) -> (r: WebGraphPayload)
        ensures
            r@ == topology_payload(self@, workspace_name@),
    {
        let ghost want = topology_payload(self@, workspace_name@);
        let ghost gv = self@.groups;
        let ghost lv = self@.links;
        let mut nodes: Vec<WebNode> = Vec::new();
        let mut i: usize = 0;
        while i < self.groups.len()
            invariant
                0 <= i <= self.groups@.len(),
                gv == topology::groups_view(self.groups@),
                gv == self@.groups,
                want == topology_payload(self@, workspace_name@),
                nodes@.len() == i,
                forall|k: int| 0 <= k < i ==> (#[trigger] nodes@[k])@ == want.nodes[k],
            decreases self.groups@.len() - i,
        {
            assert(gv[i as int] == self.groups@[i as int]@);
            nodes.push(Self::web_node(&self.groups[i], i));
            i += 1;
        }
        let mut edges: Vec<WebEdge> = Vec::new();
        let mut j: usize = 0;
        while j < self.links.len()
            invariant
                0 <= j <= self.links@.len(),
                lv == topology::folded_links_view(self.links@),
                lv == self@.links,
                want == topology_payload(self@, workspace_name@),
                edges@.len() == j,
                forall|k: int| 0 <= k < j ==> (#[trigger] edges@[k])@ == want.edges[k],
            decreases self.links@.len() - j,
        {
            assert(lv[j as int] == self.links@[j as int]@);
            edges.push(Self::web_edge(&self.links[j]));
            j += 1;
        }
        let r = WebGraphPayload {
            workspace_name: text::copy(workspace_name),
            total_nodes: nodes.len(),
            total_edges: edges.len(),
            nodes,
            edges,
        };
        assert(r@.nodes == want.nodes);
        assert(r@.edges == want.edges);
        r
    }

    fn count_drawn(&self) -> (r: usize)
        ensures
            r == drawn_count(self@.groups),
    {
        let ghost gv = self@.groups;
        let mut count: usize = 0;
        let mut i: usize = 0;
        assert(gv.take(0) == Seq::<GroupView>::empty());
        while i < self.groups.len()
            invariant
                0 <= i <= self.groups@.len(),
                gv == topology::groups_view(self.groups@),
                count <= i,
                count == drawn_count(gv.take(i as int)),
            decreases self.groups@.len() - i,
        {
            proof {
                syntax::lemma_take_step(gv, i as int);
                assert(gv[i as int] == self.groups@[i as int]@);
            }
            if self.groups[i].kind != GroupKind::Other {
                count += 1;
            }
            i += 1;
        }
        assert(gv.take(i as int) == gv);
        count
    }

    fn totals(&self) -> (r: String)
        ensures
            r@ == totals(self@),
    {
        let mut out = text::copy("*");
        numbers::push_number(&mut out, self.total_contracts);
        out.append(" contracts, ");
        numbers::push_number(&mut out, self.total_edges);
        out.append(" edges folded into ");
        numbers::push_number(&mut out, self.count_drawn());
        out.append(" of ");
        numbers::push_number(&mut out, self.total_groups);
        out.append(" groups (grouping: one service per ");
        out.append(self.grouping);
        out.append(").*\n");
        out
    }

    fn hidden_line(name: &str, n: usize) -> (r: String)
        ensures
            r@ == hidden_line((name@, n as int)),
    {
        let mut out = text::copy("  - `");
        out.append(name);
        out.append("` (");
        numbers::push_number(&mut out, n);
        out.append(" contracts)\n");
        out
    }

    fn hidden_part(&self) -> (r: String)
        ensures
            r@ == hidden_part(self@),
    {
        let ghost hv = self@.hidden;
        assert(hv.len() == self.hidden@.len());
        if self.hidden.len() == 0 {
            return String::new();
        }
        let mut lines = String::new();
        let mut i: usize = 0;
        assert(hv.take(0) == Seq::<(Seq<char>, int)>::empty());
        while i < self.hidden.len() && i < 5
            invariant
                0 <= i <= self.hidden@.len(),
                i <= 5,
                hv == topology::hidden_view(self.hidden@),
                lines@ == hidden_lines(hv.take(i as int)),
            decreases 5 - i,
        {
            proof {
                syntax::lemma_take_step(hv, i as int);
                assert(hv[i as int] == (self.hidden@[i as int].0@, self.hidden@[i as int].1 as int));
            }
            let line = Self::hidden_line(self.hidden[i].0.as_str(), self.hidden[i].1);
            lines.append(line.as_str());
            i += 1;
        }
        assert(hv.len() <= 5 ==> hv.take(i as int) == hv);
        let mut out = text::copy("\n");
        numbers::push_number(&mut out, self.hidden.len());
        out.append(" groups are folded into \"other\". Largest hidden:\n");
        out.append(lines.as_str());
        out
    }

    fn example(&self) -> (r: Option<String>)
        ensures
            text::opt_string(r) == zoom_example(self@),
    {
        let ghost hv = self@.hidden;
        let ghost gv = self@.groups;
        assert(hv.len() == self.hidden@.len());
        if self.hidden.len() > 0 {
            assert(hv[0] == (self.hidden@[0].0@, self.hidden@[0].1 as int));
            return Some(text::copy(self.hidden[0].0.as_str()));
        }
        let mut i: usize = 0;
        assert(gv.skip(0) == gv);
        while i < self.groups.len()
            invariant
                0 <= i <= self.groups@.len(),
                gv == topology::groups_view(self.groups@),
                gv == self@.groups,
                self@.hidden.len() == 0,
                first_service(gv) == first_service(gv.skip(i as int)),
            decreases self.groups@.len() - i,
        {
            proof {
                syntax::lemma_skip_step(gv, i as int);
                assert(gv[i as int] == self.groups@[i as int]@);
            }
            if self.groups[i].kind == GroupKind::Service {
                return Some(text::copy(self.groups[i].name.as_str()));
            }
            i += 1;
        }
        None
    }

    fn zoom_part(&self) -> (r: String)
        ensures
            r@ == zoom_part(self@),
    {
        match self.example() {
            Some(name) => {
                if self.focus.is_some() {
                    return String::new();
                }
                let chars = text::chars_of(name.as_str());
                text::wrapped("\n👉 Zoom into one service: `visualize_mesh(service: \"", chars.as_slice(), "\")`.\n")
            },
            None => String::new(),
        }
    }

    /// What the topology shows and how to look at it closer.
    pub fn footer(&self) -> (r: String)
        ensures
            r@ == footer_of(self@),
    {
        let mut out = self.totals();
        let hidden = self.hidden_part();
        out.append(hidden.as_str());
        let zoom = self.zoom_part();
        out.append(zoom.as_str());
        out
    }
}

} // verus!
