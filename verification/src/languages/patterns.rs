//! Declarations found by patterns of the user's own.
use vstd::prelude::*;
use crate::index::{FileIndex, FileIndexView};
use crate::model;
use crate::model::{ContractNode, ContractNodeView, NodeKind, RepoId};
use crate::syntax;
use crate::text;

verus! {

/// What a match of a pattern stands for.
#[derive(Clone, Copy, Debug, PartialEq, Eq, Structural)]
pub enum PatternKind {
    TopicProducer,
    TopicConsumer,
    Saga,
    Rpc,
}

/// A pattern as it is written down.
#[derive(Clone, Debug)]
pub struct CustomPatternConfig {
    pub name: String,
    pub kind: PatternKind,
    /// Which files are searched: those whose path holds this, without the `*` and the `.` that
    /// it starts with.
    pub file_pattern: Option<String>,
    pub regex: String,
    /// The group that names the target.
    pub target_group: usize,
    /// The group that names the consumer.
    pub consumer_group: Option<usize>,
}

/// `regex::Regex`, a compiled regular expression.
#[verifier::external_type_specification]
#[verifier::external_body]
pub struct ExRegex(regex::Regex);

/// `regex::Regex::as_str`: the pattern that a regular expression was compiled from.
pub uninterp spec fn regex_source(r: regex::Regex) -> Seq<char>;

/// `regex::Regex::new`: why a pattern cannot be compiled, if it cannot.
pub uninterp spec fn regex_error(pattern: Seq<char>) -> Option<Seq<char>>;

/// `regex::Regex::new`: compiles a pattern, or tells why it cannot be compiled. Which patterns
/// can be, and the words of the error, are named and not written out.
#[verifier::external_body]
fn compile_regex(pattern: &str) -> (r: Result<regex::Regex, String>)
    ensures
        match r {
            Ok(x) => regex_error(pattern@) is None && regex_source(x) == pattern@,
            Err(m) => regex_error(pattern@) == Some(m@),
        },
{
    regex::Regex::new(pattern).map_err(|e| e.to_string())
}

/// A match of a regular expression: where it starts, as a byte offset, and what its groups
/// matched, the whole match first.
#[derive(Clone, Debug)]
pub struct RegexMatch {
    pub start: usize,
    pub groups: Vec<Option<String>>,
}

/// A match of a regular expression, as a mathematical value.
#[verifier::ext_equal]
pub struct RegexMatchView {
    pub start: int,
    pub groups: Seq<Option<Seq<char>>>,
}

impl View for RegexMatch {
    type V = RegexMatchView;

    open spec fn view(&self) -> RegexMatchView {
        RegexMatchView {
            start: self.start as int,
            groups: self.groups@.map_values(|g: Option<String>| text::opt_string(g)),
        }
    }
}

/// A list of matches, each by its view.
pub open spec fn matches_view(v: Seq<RegexMatch>) -> Seq<RegexMatchView> {
    v.map_values(|m: RegexMatch| m@)
}

/// `regex::Regex::captures_iter`: the matches of a pattern in a text.
pub uninterp spec fn regex_matches(pattern: Seq<char>, content: Seq<char>) -> Seq<RegexMatchView>;

/// `regex::Regex::captures_iter`: the matches of a regular expression in a text, each with the
/// byte offset of its start and the texts of its groups. They are named and not written out.
#[verifier::external_body]
fn find_matches(regex: &regex::Regex, content: &str) -> (r: Vec<RegexMatch>)
    ensures
        matches_view(r@) == regex_matches(regex_source(*regex), content@),
{
    regex
        .captures_iter(content)
        .map(|c| RegexMatch {
            start: c.get_match().start(),
            groups: c.iter().map(|g| g.map(|m| m.as_str().to_string())).collect(),
        })
        .collect()
}

/// `<regex::Regex as Clone>::clone`: an expression with the same pattern.
pub assume_specification[ <regex::Regex as Clone>::clone ](regex: &regex::Regex) -> (r: regex::Regex)
    ensures
        regex_source(r) == regex_source(*regex),
;

/// A pattern that cannot be compiled, and why.
#[derive(Clone, Debug)]
pub struct PatternError {
    pub message: String,
}

/// A pattern with its regular expression compiled once.
#[derive(Debug)]
pub struct CompiledPattern {
    pub kind: PatternKind,
    file_needle: Option<String>,
    regex: regex::Regex,
    target_group: usize,
    consumer_group: Option<usize>,
}

/// A pattern, as a mathematical value.
#[verifier::ext_equal]
pub struct PatternView {
    pub kind: PatternKind,
    pub file_needle: Option<Seq<char>>,
    pub regex: Seq<char>,
    pub target_group: int,
    pub consumer_group: Option<int>,
}

impl View for CompiledPattern {
    type V = PatternView;

    closed spec fn view(&self) -> PatternView {
        PatternView {
            kind: self.kind,
            file_needle: text::opt_string(self.file_needle),
            regex: regex_source(self.regex),
            target_group: self.target_group as int,
            consumer_group: text::opt_int(self.consumer_group),
        }
    }
}

impl Clone for CompiledPattern {
    fn clone(&self) -> (r: CompiledPattern)
        ensures
            r@ == self@,
    {
        CompiledPattern {
            kind: self.kind,
            file_needle: match &self.file_needle {
                Some(f) => Some(text::copy(f.as_str())),
                None => None,
            },
            regex: self.regex.clone(),
            target_group: self.target_group,
            consumer_group: self.consumer_group,
        }
    }
}

/// Patterns, each by its view.
pub open spec fn patterns_view(v: Seq<CompiledPattern>) -> Seq<PatternView> {
    v.map_values(|p: CompiledPattern| p@)
}

/// The pattern that is written down.
pub open spec fn pattern_of(c: CustomPatternConfig) -> PatternView {
    PatternView {
        kind: c.kind,
        file_needle: match c.file_pattern {
            Some(f) => Some(text::trim_front(text::trim_front(f@, "*"@), "."@)),
            None => None,
        },
        regex: c.regex@,
        target_group: c.target_group as int,
        consumer_group: text::opt_int(c.consumer_group),
    }
}

/// The patterns that can be compiled.
pub open spec fn valid_patterns(cs: Seq<CustomPatternConfig>) -> Seq<PatternView>
    decreases cs.len(),
{
    if cs.len() == 0 {
        Seq::empty()
    } else if regex_error(cs.last().regex@) is None {
        valid_patterns(cs.drop_last()).push(pattern_of(cs.last()))
    } else {
        valid_patterns(cs.drop_last())
    }
}

impl PatternView {
    /// Whether files at the path are searched.
    pub open spec fn searches(self, path: Seq<char>) -> bool {
        match self.file_needle {
            Some(n) => text::ends_with(path, n) || text::contains(path, n),
            None => true,
        }
    }
}

/// What a group matched, without the white space around it.
pub open spec fn group_text(m: RegexMatchView, i: int) -> Option<Seq<char>> {
    if 0 <= i < m.groups.len() {
        match m.groups[i] {
            Some(s) => Some(text::trim(s)),
            None => None,
        }
    } else {
        None
    }
}

/// The line breaks among the first `n` bytes.
pub open spec fn breaks(b: Seq<u8>, n: int) -> int
    decreases n,
{
    if n <= 0 {
        0
    } else if b[n - 1] == 10 {
        breaks(b, n - 1) + 1
    } else {
        breaks(b, n - 1)
    }
}

/// The line of a byte offset.
pub open spec fn line_of_offset(b: Seq<u8>, offset: int) -> int {
    syntax::line_of_row(
        breaks(
            b,
            if offset < b.len() {
                offset
            } else {
                b.len() as int
            },
        ),
    )
}

/// The name, the kind and the signature of what a match declares.
pub open spec fn declaration(kind: PatternKind, target: Seq<char>, consumer: Seq<char>) -> (Seq<char>, NodeKind, Seq<char>) {
    match kind {
        PatternKind::TopicProducer => ("produce:"@ + target, NodeKind::EventStream, "Producer of "@ + target),
        PatternKind::TopicConsumer => (
            if consumer != target {
                consumer
            } else {
                "consume:"@ + target
            },
            NodeKind::PostProcessor,
            "Consumer of "@ + target,
        ),
        PatternKind::Saga => (target, NodeKind::Saga, "Saga: "@ + target),
        PatternKind::Rpc => ("rpc:"@ + target, NodeKind::GrpcMethod, "RPC call: "@ + target),
    }
}

/// What a match adds to an index: nothing, if it names no target.
pub open spec fn with_match(
    x: FileIndexView,
    p: PatternView,
    m: RegexMatchView,
    path: Seq<char>,
    content: Seq<char>,
    repo_id: RepoId,
    package: Seq<char>,
) -> FileIndexView {
    let target = text::or(group_text(m, p.target_group), Seq::empty());
    if target.len() == 0 {
        x
    } else {
        let consumer = match p.consumer_group {
            Some(g) => text::or(group_text(m, g), target),
            None => target,
        };
        let (name, kind, signature) = declaration(p.kind, target, consumer);
        let line = line_of_offset(vstd::utf8::encode_utf8(content), m.start);
        let node = ContractNodeView {
            id: 0,
            name,
            kind,
            file_path: path,
            line_start: line,
            line_end: line,
            package,
            repo_id,
            signature: Some(signature),
            docstring: None,
        };
        let link = (x.nodes.len() as int, target);
        FileIndexView {
            nodes: x.nodes.push(node),
            producers: if p.kind == PatternKind::TopicProducer {
                x.producers.push(link)
            } else {
                x.producers
            },
            consumers: if p.kind == PatternKind::TopicConsumer {
                x.consumers.push(link)
            } else {
                x.consumers
            },
            rpc_calls: if p.kind == PatternKind::Rpc {
                x.rpc_calls.push(link)
            } else {
                x.rpc_calls
            },
            ..x
        }
    }
}

/// What matches add to an index.
pub open spec fn with_matches(
    x: FileIndexView,
    p: PatternView,
    ms: Seq<RegexMatchView>,
    path: Seq<char>,
    content: Seq<char>,
    repo_id: RepoId,
    package: Seq<char>,
) -> FileIndexView
    decreases ms.len(),
{
    if ms.len() == 0 {
        x
    } else {
        with_match(with_matches(x, p, ms.drop_last(), path, content, repo_id, package), p, ms.last(), path, content, repo_id, package)
    }
}

/// What patterns find in a file.
pub open spec fn pattern_index(ps: Seq<PatternView>, path: Seq<char>, content: Seq<char>, repo_id: RepoId, package: Seq<char>) -> FileIndexView
    decreases ps.len(),
{
    if ps.len() == 0 {
        FileIndexView::empty()
    } else {
        let rest = pattern_index(ps.drop_last(), path, content, repo_id, package);
        let p = ps.last();
        if p.searches(path) {
            with_matches(rest, p, regex_matches(p.regex, content), path, content, repo_id, package)
        } else {
            rest
        }
    }
}

proof fn lemma_matches_linked(
    x: FileIndexView,
    p: PatternView,
    ms: Seq<RegexMatchView>,
    path: Seq<char>,
    content: Seq<char>,
    repo_id: RepoId,
    package: Seq<char>,
)
    requires
        x.linked(),
    ensures
        with_matches(x, p, ms, path, content, repo_id, package).linked(),
    decreases ms.len(),
{
    if ms.len() > 0 {
        lemma_matches_linked(x, p, ms.drop_last(), path, content, repo_id, package);
    }
}

/// Every relation that patterns find starts from a declaration that they find.
pub proof fn law_patterns_are_linked(ps: Seq<PatternView>, path: Seq<char>, content: Seq<char>, repo_id: RepoId, package: Seq<char>)
    ensures
        pattern_index(ps, path, content, repo_id, package).linked(),
    decreases ps.len(),
{
    if ps.len() > 0 {
        let p = ps.last();
        law_patterns_are_linked(ps.drop_last(), path, content, repo_id, package);
        lemma_matches_linked(
            pattern_index(ps.drop_last(), path, content, repo_id, package),
            p,
            regex_matches(p.regex, content),
            path,
            content,
            repo_id,
            package,
        );
    }
}

/// Finds the lines of byte offsets. Going forward it counts each byte once.
pub struct LineCursor {
    offset: usize,
    line: usize,
}

impl Default for LineCursor {
    fn default() -> (r: LineCursor)
        ensures
            forall|b: Seq<u8>| #[trigger] r.stands_in(b),
    {
        LineCursor { offset: 0, line: 0 }
    }
}

impl LineCursor {
    /// Whether the cursor's line is that of its offset: what a new cursor and every search for a
    /// line leave behind.
    pub closed spec fn stands_in(self, b: Seq<u8>) -> bool {
        self.offset <= b.len() && self.line == breaks(b, self.offset as int)
    }

    /// The line of a byte offset, whatever was asked for before: the line breaks in front of the
    /// offset, or in the whole text, and one.
    pub fn line_at(&mut self, b: &[u8], offset: usize) -> (r: usize)
        requires
            old(self).stands_in(b@),
        ensures
            final(self).stands_in(b@),
            r == line_of_offset(b@, offset as int),
    {
        if offset < self.offset {
            self.offset = 0;
            self.line = 0;
        }
        let end = if offset < b.len() {
            offset
        } else {
            b.len()
        };
        let mut i: usize = self.offset;
        let mut line: usize = self.line;
        proof {
            lemma_breaks(b@, i as int);
        }
        while i < end
            invariant
                i <= end <= b@.len(),
                line == breaks(b@, i as int),
                line <= i,
            decreases end - i,
        {
            if b[i] == 10 {
                line += 1;
            }
            i += 1;
        }
        self.offset = end;
        self.line = line;
        line.saturating_add(1)
    }
}

proof fn lemma_breaks(b: Seq<u8>, n: int)
    requires
        0 <= n,
    ensures
        0 <= breaks(b, n) <= n,
    decreases n,
{
    if n > 0 {
        lemma_breaks(b, n - 1);
    }
}

impl CompiledPattern {
    /// Compiles a pattern, or tells why it cannot be compiled.
    pub fn compile(cfg: &CustomPatternConfig) -> (r: Result<CompiledPattern, PatternError>)
        ensures
            match r {
                Ok(p) => regex_error(cfg.regex@) is None && p@ == pattern_of(*cfg),
                Err(e) => regex_error(cfg.regex@) == Some(e.message@),
            },
    {
        let regex = match compile_regex(cfg.regex.as_str()) {
            Ok(x) => x,
            Err(message) => return Err(PatternError { message }),
        };
        let file_needle = match &cfg.file_pattern {
            Some(f) => {
                let chars = text::chars_of(f.as_str());
                Some(text::string_of(text::trimmed_front(text::trimmed_front(chars.as_slice(), "*"), ".")))
            },
            None => None,
        };
        Ok(
            CompiledPattern {
                kind: cfg.kind,
                file_needle,
                regex,
                target_group: cfg.target_group,
                consumer_group: cfg.consumer_group,
            },
        )
    }

    /// Compiles the patterns that can be compiled, and leaves the others out.
    pub fn compile_all(cfgs: &[CustomPatternConfig]) -> (r: Vec<CompiledPattern>)
        ensures
            patterns_view(r@) == valid_patterns(cfgs@),
    {
        let mut out: Vec<CompiledPattern> = Vec::new();
        let mut i: usize = 0;
        assert(cfgs@.take(0) == Seq::<CustomPatternConfig>::empty());
        assert(patterns_view(out@) == Seq::<PatternView>::empty());
        while i < cfgs.len()
            invariant
                0 <= i <= cfgs@.len(),
                patterns_view(out@) == valid_patterns(cfgs@.take(i as int)),
            decreases cfgs@.len() - i,
        {
            assert(cfgs@.take(i + 1).drop_last() == cfgs@.take(i as int));
            assert(cfgs@.take(i + 1).last() == cfgs@[i as int]);
            match Self::compile(&cfgs[i]) {
                Ok(p) => {
                    let ghost before = out@;
                    out.push(p);
                    assert(patterns_view(out@) == patterns_view(before).push(p@));
                },
                Err(_) => {},
            }
            i += 1;
        }
        assert(cfgs@.take(i as int) == cfgs@);
        out
    }

    /// Whether files at the path are searched.
    pub fn matches_path(&self, path_str: &str) -> (r: bool)
        ensures
            r == self@.searches(path_str@),
    {
        match &self.file_needle {
            Some(n) => {
                let path = text::chars_of(path_str);
                text::ends(path.as_slice(), n.as_str()) || text::has_lit(path.as_slice(), n.as_str())
            },
            None => true,
        }
    }

    /// The trimmed text of a group, if it took part in the match.
    fn group(m: &RegexMatch, i: usize) -> (r: Option<String>)
        ensures
            text::opt_string(r) == group_text(m@, i as int),
    {
        assert(m@.groups.len() == m.groups@.len());
        if i < m.groups.len() {
            assert(m@.groups[i as int] == text::opt_string(m.groups@[i as int]));
            match &m.groups[i] {
                Some(s) => {
                    let chars = text::chars_of(s.as_str());
                    Some(text::string_of(text::trimmed(chars.as_slice())))
                },
                None => None,
            }
        } else {
            None
        }
    }

    /// The name, the kind and the signature of what a match declares.
    fn declare(kind: PatternKind, target: &[char], consumer: &[char]) -> (r: (String, NodeKind, String))
        ensures
            (r.0@, r.1, r.2@) == declaration(kind, target@, consumer@),
    {
        match kind {
            PatternKind::TopicProducer => (
                text::joined("produce:", target),
                NodeKind::EventStream,
                text::joined("Producer of ", target),
            ),
            PatternKind::TopicConsumer => (
                if text::equal(consumer, target) {
                    text::joined("consume:", target)
                } else {
                    text::string_of(consumer)
                },
                NodeKind::PostProcessor,
                text::joined("Consumer of ", target),
            ),
            PatternKind::Saga => (text::string_of(target), NodeKind::Saga, text::joined("Saga: ", target)),
            PatternKind::Rpc => (
                text::joined("rpc:", target),
                NodeKind::GrpcMethod,
                text::joined("RPC call: ", target),
            ),
        }
    }

    /// Adds what a match declares on a line.
    fn add_match(&self, m: &RegexMatch, path: &str, line: usize, repo_id: RepoId, package: &str, out: &mut FileIndex, content: &str)
        requires
            line == line_of_offset(vstd::utf8::encode_utf8(content@), m.start as int),
        ensures
            final(out)@ == with_match(old(out)@, self@, m@, path@, content@, repo_id, package@),
    {
        let target = match Self::group(m, self.target_group) {
            Some(s) => s,
            None => return ,
        };
        let tc = text::chars_of(target.as_str());
        if tc.len() == 0 {
            return ;
        }
        let consumer = match self.consumer_group {
            Some(g) => match Self::group(m, g) {
                Some(s) => text::chars_of(s.as_str()),
                None => text::chars_of(target.as_str()),
            },
            None => text::chars_of(target.as_str()),
        };
        let (name, kind, signature) = Self::declare(self.kind, tc.as_slice(), consumer.as_slice());
        let n = out.nodes.len();
        assert(out@.nodes.len() == n);
        let node = ContractNode {
            id: 0,
            name,
            kind,
            file_path: text::copy(path),
            line_start: line,
            line_end: line,
            package: text::copy(package),
            repo_id,
            signature: Some(signature),
            docstring: None,
        };
        model::push_node(&mut out.nodes, node);
        match self.kind {
            PatternKind::TopicProducer => model::push_link(&mut out.producers, n, target),
            PatternKind::TopicConsumer => model::push_link(&mut out.consumers, n, target),
            PatternKind::Rpc => model::push_link(&mut out.rpc_calls, n, target),
            PatternKind::Saga => {},
        }
    }

    /// Adds what matches declare.
    pub fn add_matches(&self, ms: &Vec<RegexMatch>, path: &str, content: &str, repo_id: RepoId, package: &str, out: &mut FileIndex)
        ensures
            final(out)@ == with_matches(old(out)@, self@, matches_view(ms@), path@, content@, repo_id, package@),
    {
        let ghost start = out@;
        let ghost mv = matches_view(ms@);
        let bytes = content.as_bytes();
        let mut cursor = LineCursor::default();
        assert(cursor.stands_in(bytes@));
        let mut j: usize = 0;
        assert(mv.take(0) == Seq::<RegexMatchView>::empty());
        while j < ms.len()
            invariant
                0 <= j <= ms@.len(),
                mv == matches_view(ms@),
                bytes@ == vstd::utf8::encode_utf8(content@),
                cursor.stands_in(bytes@),
                out@ == with_matches(start, self@, mv.take(j as int), path@, content@, repo_id, package@),
            decreases ms@.len() - j,
        {
            proof {
                assert(mv.take(j + 1).drop_last() == mv.take(j as int));
                assert(mv.take(j + 1).last() == ms@[j as int]@);
            }
            let line = cursor.line_at(bytes, ms[j].start);
            self.add_match(&ms[j], path, line, repo_id, package, out, content);
            j += 1;
        }
        assert(mv.take(j as int) == mv);
    }

    /// Adds what the pattern finds in a file.
    pub fn search(&self, path: &str, content: &str, repo_id: RepoId, package: &str, out: &mut FileIndex)
        ensures
            final(out)@ == if self@.searches(path@) {
                with_matches(old(out)@, self@, regex_matches(self@.regex, content@), path@, content@, repo_id, package@)
            } else {
                old(out)@
            },
    {
        if self.matches_path(path) {
            let ms = find_matches(&self.regex, content);
            self.add_matches(&ms, path, content, repo_id, package, out);
        }
    }
}

} // verus!
