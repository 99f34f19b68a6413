//! AsyncAPI and OpenAPI specs: what they declare, and the lines on which they declare it.
use vstd::prelude::*;
use crate::index::{FileIndex, FileIndexView};
use crate::languages::config;
use crate::languages::config::{ExtractConfig, ExtractConfigView};
use crate::languages::spec_shape;
use crate::languages::spec_shape::{AsyncApiShape, AsyncApiView, SpecShapes};
use crate::model;
use crate::model::{ContractNode, ContractNodeView, NodeKind, RepoId};
use crate::text;

verus! {

/// How an entry of a mapping starts whose key stands in quotes `q`.
pub open spec fn entry_start(q: Seq<char>, key: Seq<char>) -> Seq<char> {
    q + key + q + ":"@
}

/// Whether a line binds a key of a mapping: bare, in double quotes or in single quotes.
pub open spec fn is_key_line(l: Seq<char>, key: Seq<char>) -> bool {
    let t = text::strip_repeated(text::trim_front(l, text::WHITE_SPACE@), "- "@);
    text::starts_with(t, entry_start(""@, key)) || text::starts_with(t, entry_start("\""@, key)) || text::starts_with(
        t,
        entry_start("'"@, key),
    )
}

/// Whether a line is an item of a sequence.
pub open spec fn is_item_line(l: Seq<char>, item: Seq<char>) -> bool {
    match text::strip_prefix(text::trim_front(l, text::WHITE_SPACE@), "-"@) {
        Some(r) => text::trim_set(text::trim(r), "\"'"@) == item,
        None => false,
    }
}

/// What is looked for in the lines.
#[derive(Clone, Copy)]
pub enum Sought {
    Key,
    Item,
}

/// Whether a line is what is looked for.
pub open spec fn is_sought(l: Seq<char>, what: Sought, name: Seq<char>) -> bool {
    match what {
        Sought::Key => is_key_line(l, name),
        Sought::Item => is_item_line(l, name),
    }
}

/// The number of the first line from place `i` up to place `end` that is what is looked for.
/// Lines are numbered from one, their places from zero.
pub open spec fn first_sought(ls: Seq<Seq<char>>, what: Sought, name: Seq<char>, i: int, end: int) -> Option<int>
    decreases end - i,
{
    if i < 0 || i >= end || i >= ls.len() {
        None
    } else if is_sought(ls[i], what, name) {
        Some(i + 1)
    } else {
        first_sought(ls, what, name, i + 1, end)
    }
}

/// The number before another, or zero.
pub open spec fn one_less(n: int) -> int {
    if n > 0 {
        n - 1
    } else {
        0
    }
}

/// The number of the first line in `[from, until)` that is what is looked for.
pub open spec fn sought_in(ls: Seq<Seq<char>>, what: Sought, name: Seq<char>, from: int, until: int) -> Option<int> {
    first_sought(ls, what, name, one_less(from), one_less(until))
}

/// The lines of a document.
pub struct YamlLines {
    lines: Vec<Vec<char>>,
}

/// Lists of characters, as texts.
pub open spec fn char_lists(v: Seq<Vec<char>>) -> Seq<Seq<char>> {
    v.map_values(|l: Vec<char>| l@)
}

impl View for YamlLines {
    type V = Seq<Seq<char>>;

    closed spec fn view(&self) -> Seq<Seq<char>> {
        char_lists(self.lines@)
    }
}

/// Where a search has come to: it looks on from place `at` to before line `until`, and has
/// `misses_left` searches without a hit left to it.
#[verifier::ext_equal]
pub struct SeekerView {
    pub at: int,
    pub until: int,
    pub misses_left: int,
}

/// What a search finds next, and where it has come to then. A hit moves it past the line; a
/// miss leaves it where it was and costs it one of its misses. Without misses left it finds
/// nothing.
pub open spec fn advanced(ls: Seq<Seq<char>>, s: SeekerView, what: Sought, name: Seq<char>) -> (Option<int>, SeekerView) {
    if s.misses_left <= 0 {
        (None, s)
    } else {
        match first_sought(ls, what, name, s.at, one_less(s.until)) {
            Some(line) => (Some(line), SeekerView { at: line, ..s }),
            None => (None, SeekerView { misses_left: s.misses_left - 1, ..s }),
        }
    }
}

proof fn lemma_first_sought(ls: Seq<Seq<char>>, what: Sought, name: Seq<char>, i: int, end: int)
    requires
        0 <= i,
    ensures
        first_sought(ls, what, name, i, end) matches Some(line) ==> i < line <= end && line <= ls.len() && is_sought(
            ls[line - 1],
            what,
            name,
        ),
    decreases end - i,
{
    if i < end && i < ls.len() && !is_sought(ls[i], what, name) {
        lemma_first_sought(ls, what, name, i + 1, end);
    }
}

/// A search only goes forward: what it finds lies behind everything that it found before, and
/// before the line that it stops at.
pub proof fn law_search_goes_forward(ls: Seq<Seq<char>>, s: SeekerView, what: Sought, name: Seq<char>)
    requires
        0 <= s.at,
    ensures
        ({
            let (found, after) = advanced(ls, s, what, name);
            &&& s.at <= after.at
            &&& after.until == s.until
            &&& (found matches Some(line) ==> s.at < line < s.until && after.at == line && is_sought(ls[line - 1], what, name))
        }),
{
    lemma_first_sought(ls, what, name, s.at, one_less(s.until));
}

/// A search that has used up its misses finds nothing any more, and stays as it is.
pub proof fn law_search_gives_up(ls: Seq<Seq<char>>, s: SeekerView, what: Sought, name: Seq<char>)
    requires
        s.misses_left <= 0,
    ensures
        advanced(ls, s, what, name) == (None::<int>, s),
{
}

/// A miss does not move a search: what it looks for next it finds as if it had not missed, as
/// long as it has misses left.
pub proof fn law_miss_keeps_the_place(
    ls: Seq<Seq<char>>,
    s: SeekerView,
    what: Sought,
    missed: Seq<char>,
    name: Seq<char>,
)
    requires
        s.misses_left > 1,
        advanced(ls, s, what, missed).0 is None,
    ensures
        advanced(ls, advanced(ls, s, what, missed).1, what, name).0 == advanced(ls, s, what, name).0,
{
}

impl YamlLines {
    /// The lines of a document.
    pub fn new(content: &str) -> (r: YamlLines)
        ensures
            r@ == text::lines(content@),
    {
        let chars = text::chars_of(content);
        let ls = text::lines_of(chars.as_slice());
        let ghost lv = text::texts(ls@);
        let mut out: Vec<Vec<char>> = Vec::new();
        let mut i: usize = 0;
        while i < ls.len()
            invariant
                0 <= i <= ls@.len(),
                lv == text::texts(ls@),
                char_lists(out@) == lv.take(i as int),
            decreases ls@.len() - i,
        {
            let mut line: Vec<char> = Vec::new();
            text::extend(&mut line, ls[i]);
            let ghost before = out@;
            out.push(line);
            assert(char_lists(out@) == char_lists(before).push(line@));
            assert(line@ == ls@[i as int]@);
            assert(lv.take(i + 1) == lv.take(i as int).push(lv[i as int]));
            i += 1;
        }
        assert(lv.take(i as int) == lv);
        YamlLines { lines: out }
    }

    /// The number of the first line in `[from, until)` that binds the key.
    pub fn key_line(&self, key: &str, from: usize, until: usize) -> (r: Option<usize>)
        ensures
            text::opt_int(r) == sought_in(self@, Sought::Key, key@, from as int, until as int),
    {
        let start = if from > 0 {
            from - 1
        } else {
            0
        };
        self.find(Sought::Key, key, start, until)
    }

    /// The number of the first line in `[from, until)` that is the item.
    pub fn item_line(&self, item: &str, from: usize, until: usize) -> (r: Option<usize>)
        ensures
            text::opt_int(r) == sought_in(self@, Sought::Item, item@, from as int, until as int),
    {
        let start = if from > 0 {
            from - 1
        } else {
            0
        };
        self.find(Sought::Item, item, start, until)
    }

    /// The number of the first line from place `start` up to before line `until` that is what
    /// is looked for.
    fn find(&self, what: Sought, name: &str, start: usize, until: usize) -> (r: Option<usize>)
        ensures
            text::opt_int(r) == first_sought(self@, what, name@, start as int, one_less(until as int)),
            r matches Some(line) ==> start < line < until,
    {
        let end = if until > 0 {
            until - 1
        } else {
            0
        };
        let key = text::chars_of(name);
        let mut i: usize = start;
        while i < end && i < self.lines.len()
            invariant
                start <= i,
                key@ == name@,
                end == one_less(until as int),
                first_sought(self@, what, name@, start as int, end as int) == first_sought(self@, what, name@, i as int, end as int),
            decreases end - i,
        {
            assert(self@[i as int] == self.lines@[i as int]@);
            let hit = match what {
                Sought::Key => Self::binds_key(self.lines[i].as_slice(), key.as_slice()),
                Sought::Item => Self::is_item(self.lines[i].as_slice(), key.as_slice()),
            };
            if hit {
                return Some(i + 1);
            }
            i += 1;
        }
        None
    }

    /// Whether a text starts with an entry of a mapping whose key stands in quotes `q`.
    fn starts_entry(t: &[char], q: &str, key: &[char]) -> (r: bool)
        ensures
            r == text::starts_with(t@, entry_start(q@, key@)),
    {
        let mut entry = text::joined(q, key);
        entry.append(q);
        entry.append(":");
        text::begins(t, entry.as_str())
    }

    /// Whether a line binds a key of a mapping.
    fn binds_key(l: &[char], key: &[char]) -> (r: bool)
        ensures
            r == is_key_line(l@, key@),
    {
        let t = text::stripped_repeated(text::trimmed_front(l, text::WHITE_SPACE), "- ");
        Self::starts_entry(t, "", key) || Self::starts_entry(t, "\"", key) || Self::starts_entry(t, "'", key)
    }

    /// Whether a line is an item of a sequence.
    fn is_item(l: &[char], item: &[char]) -> (r: bool)
        ensures
            r == is_item_line(l@, item@),
    {
        match text::without_prefix(text::trimmed_front(l, text::WHITE_SPACE), "-") {
            Some(x) => text::equal(text::trimmed_of(text::trimmed(x), "\"'"), item),
            None => false,
        }
    }

    /// A search for what stands behind the line of a section, or from the first line on where
    /// the section was not found.
    pub fn seeker<'l>(&'l self, section: Option<usize>) -> (r: Seeker<'l>)
        ensures
            r.document() == self@,
            r@ == section_search(text::opt_int(section), usize::MAX as int),
    {
        self.seeker_until(section, usize::MAX)
    }

    /// A search for what stands behind the line of a section and before line `until`.
    pub fn seeker_until<'l>(&'l self, section: Option<usize>, until: usize) -> (r: Seeker<'l>)
        ensures
            r.document() == self@,
            r@ == section_search(text::opt_int(section), until as int),
    {
        let at: usize = match section {
            Some(l) => l,
            None => 0,
        };
        Seeker { lines: self, at, until, misses_left: Seeker::MAX_MISSES }
    }
}

/// A search behind the line of a section, or from the first line on.
pub open spec fn section_search(section: Option<int>, until: int) -> SeekerView {
    SeekerView {
        at: match section {
            Some(l) => l,
            None => 0,
        },
        until,
        misses_left: Seeker::MAX_MISSES as int,
    }
}

/// A search that finds the entries of a section in the document's order. Each hit moves it
/// forward; so that entries which cannot be found do not cost a pass over the lines each, it
/// gives up after a number of misses.
pub struct Seeker<'l> {
    lines: &'l YamlLines,
    at: usize,
    until: usize,
    misses_left: u8,
}

impl<'l> View for Seeker<'l> {
    type V = SeekerView;

    closed spec fn view(&self) -> SeekerView {
        SeekerView { at: self.at as int, until: self.until as int, misses_left: self.misses_left as int }
    }
}

impl<'l> Seeker<'l> {
    /// The misses that a search may have.
    pub const MAX_MISSES: u8 = 8;

    /// The lines that are searched.
    pub closed spec fn document(&self) -> Seq<Seq<char>> {
        self.lines@
    }

    /// The line of the next entry with the key.
    pub fn key(&mut self, key: &str) -> (r: Option<usize>)
        ensures
            final(self).document() == old(self).document(),
            (text::opt_int(r), final(self)@) == advanced(old(self).document(), old(self)@, Sought::Key, key@),
    {
        self.advance(Sought::Key, key)
    }

    /// The line of the next item.
    pub fn item(&mut self, item: &str) -> (r: Option<usize>)
        ensures
            final(self).document() == old(self).document(),
            (text::opt_int(r), final(self)@) == advanced(old(self).document(), old(self)@, Sought::Item, item@),
    {
        self.advance(Sought::Item, item)
    }

    fn advance(&mut self, what: Sought, name: &str) -> (r: Option<usize>)
        ensures
            final(self).document() == old(self).document(),
            (text::opt_int(r), final(self)@) == advanced(old(self).document(), old(self)@, what, name@),
    {
        if self.misses_left == 0 {
            return None;
        }
        let found = self.lines.find(what, name, self.at, self.until);
        match found {
            Some(line) => {
                self.at = line;
            },
            None => {
                self.misses_left -= 1;
            },
        }
        found
    }
}

/// A declaration of a spec.
pub open spec fn spec_node(
    path: Seq<char>,
    repo_id: RepoId,
    package: Seq<char>,
    name: Seq<char>,
    kind: NodeKind,
    line: int,
    signature: Seq<char>,
) -> ContractNodeView {
    ContractNodeView {
        id: 0,
        name,
        kind,
        file_path: path,
        line_start: line,
        line_end: line,
        package,
        repo_id,
        signature: Some(signature),
        docstring: None,
    }
}

fn make_node(path: &str, repo_id: RepoId, package: &str, name: String, kind: NodeKind, line: usize, signature: String) -> (r: ContractNode)
    ensures
        r@ == spec_node(path@, repo_id, package@, name@, kind, line as int, signature@),
{
    ContractNode {
        id: 0,
        name,
        kind,
        file_path: text::copy(path),
        line_start: line,
        line_end: line,
        package: text::copy(package),
        repo_id,
        signature: Some(signature),
        docstring: None,
    }
}

/// A line, or the first one where it was not found.
pub open spec fn line_or_first(line: Option<int>) -> int {
    match line {
        Some(l) => l,
        None => 1,
    }
}

/// An index, and where the search for the next of its entries has come to.
#[verifier::ext_equal]
pub struct Progress {
    pub index: FileIndexView,
    pub search: SeekerView,
}

/// What the first names of a section add to an index: an event stream each, which it also
/// produces. Its signature is the name behind `word`.
pub open spec fn streams(
    start: Progress,
    names: Seq<Seq<char>>,
    ls: Seq<Seq<char>>,
    what: Sought,
    word: Seq<char>,
    path: Seq<char>,
    repo_id: RepoId,
) -> Progress
    decreases names.len(),
{
    if names.len() == 0 {
        start
    } else {
        let p = streams(start, names.drop_last(), ls, what, word, path, repo_id);
        let name = names.last();
        let (line, search) = advanced(ls, p.search, what, name);
        let node = spec_node(path, repo_id, "asyncapi"@, name, NodeKind::EventStream, line_or_first(line), word + name);
        Progress {
            index: FileIndexView {
                nodes: p.index.nodes.push(node),
                producers: p.index.producers.push((p.index.nodes.len() as int, name)),
                ..p.index
            },
            search,
        }
    }
}

/// A search for the entries of a section of a document.
pub open spec fn section_of(ls: Seq<Seq<char>>, name: Seq<char>) -> SeekerView {
    section_search(sought_in(ls, Sought::Key, name, 1, usize::MAX as int), usize::MAX as int)
}

/// What an AsyncAPI document adds to an index: its channels, and its topics if they are
/// inferred.
pub open spec fn asyncapi_index(
    start: FileIndexView,
    shape: AsyncApiView,
    ls: Seq<Seq<char>>,
    infer: bool,
    path: Seq<char>,
    repo_id: RepoId,
) -> FileIndexView {
    let channels = streams(
        Progress { index: start, search: section_of(ls, "channels"@) },
        shape.channels,
        ls,
        Sought::Key,
        "channel "@,
        path,
        repo_id,
    ).index;
    if infer {
        streams(
            Progress { index: channels, search: section_of(ls, "topics"@) },
            shape.topics,
            ls,
            Sought::Item,
            "inferred topic "@,
            path,
            repo_id,
        ).index
    } else {
        channels
    }
}

/// The lines of paths, and where the search for the next has come to.
pub open spec fn path_lines(start: SeekerView, paths: Seq<(Seq<char>, Seq<Seq<char>>)>, ls: Seq<Seq<char>>) -> (
    Seq<Option<int>>,
    SeekerView,
)
    decreases paths.len(),
{
    if paths.len() == 0 {
        (Seq::empty(), start)
    } else {
        let (found, search) = path_lines(start, paths.drop_last(), ls);
        let (line, after) = advanced(ls, search, Sought::Key, paths.last().0);
        (found.push(line), after)
    }
}

/// The first line that was found.
pub open spec fn first_found(lines: Seq<Option<int>>) -> Option<int>
    decreases lines.len(),
{
    if lines.len() == 0 {
        None
    } else if lines[0] is Some {
        lines[0]
    } else {
        first_found(lines.drop_first())
    }
}

/// The endpoints of a path, and where the search for its methods has come to: each method is
/// on its own line, or on the path's where it is not found, or on the first where that was not
/// found either.
pub open spec fn endpoints(
    search: Option<SeekerView>,
    methods: Seq<Seq<char>>,
    ls: Seq<Seq<char>>,
    name: Seq<char>,
    path_line: Option<int>,
    path: Seq<char>,
    repo_id: RepoId,
) -> (Seq<ContractNodeView>, Option<SeekerView>)
    decreases methods.len(),
{
    if methods.len() == 0 {
        (Seq::empty(), search)
    } else {
        let (rest, before) = endpoints(search, methods.drop_last(), ls, name, path_line, path, repo_id);
        let (line, after) = match before {
            Some(s) => {
                let (l, t) = advanced(ls, s, Sought::Key, methods.last());
                (l, Some(t))
            },
            None => (None, None),
        };
        let full = text::unicode_uppercase(methods.last()) + " "@ + name;
        let place = match line {
            Some(l) => l,
            None => line_or_first(path_line),
        };
        (rest.push(spec_node(path, repo_id, "openapi"@, full, NodeKind::HttpEndpoint, place, full)), after)
    }
}

/// Where the methods of a path are looked for: behind the path, and before the next path that
/// was found.
pub open spec fn method_search(lines: Seq<Option<int>>, i: int) -> Option<SeekerView> {
    match lines[i] {
        Some(l) => Some(
            section_search(
                Some(l),
                match first_found(lines.skip(i + 1)) {
                    Some(n) => n,
                    None => usize::MAX as int,
                },
            ),
        ),
        None => None,
    }
}

/// The endpoints of the first `n` paths.
pub open spec fn all_endpoints(
    paths: Seq<(Seq<char>, Seq<Seq<char>>)>,
    lines: Seq<Option<int>>,
    ls: Seq<Seq<char>>,
    path: Seq<char>,
    repo_id: RepoId,
    n: int,
) -> Seq<ContractNodeView>
    decreases n,
{
    if n <= 0 {
        Seq::empty()
    } else {
        all_endpoints(paths, lines, ls, path, repo_id, n - 1) + endpoints(
            method_search(lines, n - 1),
            paths[n - 1].1,
            ls,
            paths[n - 1].0,
            lines[n - 1],
            path,
            repo_id,
        ).0
    }
}

/// What an OpenAPI document adds to an index.
pub open spec fn openapi_index(
    start: FileIndexView,
    paths: Seq<(Seq<char>, Seq<Seq<char>>)>,
    ls: Seq<Seq<char>>,
    path: Seq<char>,
    repo_id: RepoId,
) -> FileIndexView {
    let lines = path_lines(section_of(ls, "paths"@), paths, ls).0;
    FileIndexView { nodes: start.nodes + all_endpoints(paths, lines, ls, path, repo_id, paths.len() as int), ..start }
}

/// Whether a file is taken for an AsyncAPI spec: if it is named as one, or, where none are
/// named, by its name or its content.
pub open spec fn is_asyncapi(cfg: ExtractConfigView, path: Seq<char>, content: Seq<char>) -> bool {
    let lower = text::unicode_lowercase(path);
    if cfg.asyncapi_spec_files.len() == 0 {
        text::contains(lower, "asyncapi"@) || text::contains(content, "asyncapi:"@)
    } else {
        config::matches_some(lower, cfg.asyncapi_spec_files)
    }
}

/// Whether a file is taken for an OpenAPI spec: if it is named as one, or, where none are
/// named, by its name or its content.
pub open spec fn is_openapi(cfg: ExtractConfigView, path: Seq<char>, content: Seq<char>) -> bool {
    let lower = text::unicode_lowercase(path);
    if cfg.openapi_spec_files.len() == 0 {
        text::contains(lower, "openapi"@) || text::contains(content, "openapi:"@) || text::contains(content, "swagger:"@)
    } else {
        config::matches_some(lower, cfg.openapi_spec_files)
    }
}

/// What a YAML file adds to an index.
pub open spec fn yaml_index(
    start: FileIndexView,
    shapes: SpecShapes,
    path: Seq<char>,
    content: Seq<char>,
    repo_id: RepoId,
    cfg: ExtractConfigView,
) -> FileIndexView {
    let ls = text::lines(content);
    let first = match shapes.asyncapi {
        Some(a) => if is_asyncapi(cfg, path, content) {
            asyncapi_index(start, a@, ls, cfg.infer_string_topics, path, repo_id)
        } else {
            start
        },
        None => start,
    };
    match shapes.openapi {
        Some(o) => if is_openapi(cfg, path, content) {
            openapi_index(first, spec_shape::paths_view(o.paths@), ls, path, repo_id)
        } else {
            first
        },
        None => first,
    }
}

proof fn lemma_streams_linked(
    start: Progress,
    names: Seq<Seq<char>>,
    ls: Seq<Seq<char>>,
    what: Sought,
    word: Seq<char>,
    path: Seq<char>,
    repo_id: RepoId,
)
    requires
        start.index.linked(),
    ensures
        streams(start, names, ls, what, word, path, repo_id).index.linked(),
    decreases names.len(),
{
    if names.len() > 0 {
        lemma_streams_linked(start, names.drop_last(), ls, what, word, path, repo_id);
    }
}

/// Every relation that a spec declares starts from one of its declarations.
pub proof fn law_specs_are_linked(
    start: FileIndexView,
    shapes: SpecShapes,
    path: Seq<char>,
    content: Seq<char>,
    repo_id: RepoId,
    cfg: ExtractConfigView,
)
    requires
        start.linked(),
    ensures
        yaml_index(start, shapes, path, content, repo_id, cfg).linked(),
{
    let ls = text::lines(content);
    if shapes.asyncapi is Some {
        let a = shapes.asyncapi->0@;
        let first = Progress { index: start, search: section_of(ls, "channels"@) };
        lemma_streams_linked(first, a.channels, ls, Sought::Key, "channel "@, path, repo_id);
        let channels = streams(first, a.channels, ls, Sought::Key, "channel "@, path, repo_id).index;
        let second = Progress { index: channels, search: section_of(ls, "topics"@) };
        lemma_streams_linked(second, a.topics, ls, Sought::Item, "inferred topic "@, path, repo_id);
    }
}

/// Adds an event stream for each name.
fn add_streams(
    out: &mut FileIndex,
    names: &Vec<String>,
    seek: &mut Seeker<'_>,
    what: Sought,
    word: &str,
    path: &str,
    repo_id: RepoId,
)
    ensures
        final(out)@ == streams(
            Progress { index: old(out)@, search: old(seek)@ },
            text::strings(names@),
            old(seek).document(),
            what,
            word@,
            path@,
            repo_id,
        ).index,
{
    let ghost nv = text::strings(names@);
    let ghost ls = seek.document();
    let ghost start = Progress { index: out@, search: seek@ };
    let mut j: usize = 0;
    assert(nv.take(0) == Seq::<Seq<char>>::empty());
    while j < names.len()
        invariant
            0 <= j <= names@.len(),
            nv == text::strings(names@),
            ls == seek.document(),
            (Progress { index: out@, search: seek@ }) == streams(start, nv.take(j as int), ls, what, word@, path@, repo_id),
        decreases names@.len() - j,
    {
        proof {
            assert(nv.take(j + 1).drop_last() == nv.take(j as int));
            assert(nv.take(j + 1).last() == names@[j as int]@);
        }
        let found = seek.advance(what, names[j].as_str());
        let line: usize = match found {
            Some(l) => l,
            None => 1,
        };
        let chars = text::chars_of(names[j].as_str());
        let signature = text::joined(word, chars.as_slice());
        let name = text::string_of(chars.as_slice());
        let n = out.nodes.len();
        assert(out@.nodes.len() == n);
        model::push_link(&mut out.producers, n, text::copy(names[j].as_str()));
        let node = make_node(path, repo_id, "asyncapi", name, NodeKind::EventStream, line, signature);
        model::push_node(&mut out.nodes, node);
        j += 1;
    }
    assert(nv.take(j as int) == nv);
}

/// Adds what an AsyncAPI document declares.
fn add_asyncapi(out: &mut FileIndex, shape: &AsyncApiShape, lines: &YamlLines, infer: bool, path: &str, repo_id: RepoId)
    ensures
        final(out)@ == asyncapi_index(old(out)@, shape@, lines@, infer, path@, repo_id),
{
    let mut seek = lines.seeker(lines.key_line("channels", 1, usize::MAX));
    add_streams(out, &shape.channels, &mut seek, Sought::Key, "channel ", path, repo_id);
    if infer {
        let mut seek = lines.seeker(lines.key_line("topics", 1, usize::MAX));
        add_streams(out, &shape.topics, &mut seek, Sought::Item, "inferred topic ", path, repo_id);
    }
}

/// Lines, where they were found.
pub open spec fn opt_lines(v: Seq<Option<usize>>) -> Seq<Option<int>> {
    v.map_values(|o: Option<usize>| text::opt_int(o))
}

/// The lines of the paths.
fn find_paths(paths: &Vec<(String, Vec<String>)>, lines: &YamlLines) -> (r: Vec<Option<usize>>)
    ensures
        opt_lines(r@) == path_lines(section_of(lines@, "paths"@), spec_shape::paths_view(paths@), lines@).0,
        r@.len() == paths@.len(),
{
    let ghost pv = spec_shape::paths_view(paths@);
    let mut seek = lines.seeker(lines.key_line("paths", 1, usize::MAX));
    let ghost start = seek@;
    let mut out: Vec<Option<usize>> = Vec::new();
    let mut j: usize = 0;
    assert(pv.take(0) == Seq::<(Seq<char>, Seq<Seq<char>>)>::empty());
    while j < paths.len()
        invariant
            0 <= j <= paths@.len(),
            pv == spec_shape::paths_view(paths@),
            seek.document() == lines@,
            out@.len() == j,
            (opt_lines(out@), seek@) == path_lines(start, pv.take(j as int), lines@),
        decreases paths@.len() - j,
    {
        proof {
            assert(pv.take(j + 1).drop_last() == pv.take(j as int));
            assert(pv.take(j + 1).last() == (paths@[j as int].0@, text::strings(paths@[j as int].1@)));
        }
        let line = seek.key(paths[j].0.as_str());
        let ghost before = out@;
        out.push(line);
        assert(opt_lines(out@) == opt_lines(before).push(text::opt_int(line)));
        j += 1;
    }
    assert(pv.take(j as int) == pv);
    out
}

/// The first line from place `start` on that was found.
fn next_found(lines: &Vec<Option<usize>>, start: usize) -> (r: Option<usize>)
    requires
        start <= lines@.len(),
    ensures
        text::opt_int(r) == first_found(opt_lines(lines@).skip(start as int)),
{
    let ghost lv = opt_lines(lines@);
    let mut i: usize = start;
    while i < lines.len()
        invariant
            start <= i <= lines@.len(),
            lv == opt_lines(lines@),
            first_found(lv.skip(start as int)) == first_found(lv.skip(i as int)),
        decreases lines@.len() - i,
    {
        assert(lv.skip(i as int)[0] == text::opt_int(lines@[i as int]));
        assert(lv.skip(i as int).drop_first() == lv.skip(i + 1));
        if lines[i].is_some() {
            return lines[i];
        }
        i += 1;
    }
    None
}

/// Where the methods of a path are looked for, if the path was found.
pub open spec fn search_behind(path_line: Option<int>, until: int) -> Option<SeekerView> {
    match path_line {
        Some(l) => Some(section_search(Some(l), until)),
        None => None,
    }
}

/// Adds the endpoints of a path.
fn add_endpoints(
    out: &mut Vec<ContractNode>,
    methods: &Vec<String>,
    lines: &YamlLines,
    name: &str,
    path_line: Option<usize>,
    until: usize,
    path: &str,
    repo_id: RepoId,
)
    ensures
        model::nodes_view(final(out)@) == model::nodes_view(old(out)@) + endpoints(
            search_behind(text::opt_int(path_line), until as int),
            text::strings(methods@),
            lines@,
            name@,
            text::opt_int(path_line),
            path@,
            repo_id,
        ).0,
{
    let ghost start = model::nodes_view(out@);
    let ghost mv = text::strings(methods@);
    let ghost pl = text::opt_int(path_line);
    let ghost first = search_behind(pl, until as int);
    let suffix = text::chars_of(name);
    let mut seek = lines.seeker_until(path_line, until);
    let ghost mut state = first;
    let mut j: usize = 0;
    proof {
        assert(mv.take(0) == Seq::<Seq<char>>::empty());
        assert(start + Seq::<ContractNodeView>::empty() == start);
    }
    while j < methods.len()
        invariant
            0 <= j <= methods@.len(),
            mv == text::strings(methods@),
            pl == text::opt_int(path_line),
            suffix@ == name@,
            seek.document() == lines@,
            state is Some == pl is Some,
            state is Some ==> state == Some(seek@),
            ({
                let e = endpoints(first, mv.take(j as int), lines@, name@, pl, path@, repo_id);
                &&& model::nodes_view(out@) == start + e.0
                &&& state == e.1
            }),
        decreases methods@.len() - j,
    {
        let ghost e = endpoints(first, mv.take(j as int), lines@, name@, pl, path@, repo_id);
        proof {
            assert(mv.take(j + 1).drop_last() == mv.take(j as int));
            assert(mv.take(j + 1).last() == methods@[j as int]@);
        }
        let found = if path_line.is_some() {
            let l = seek.key(methods[j].as_str());
            proof {
                state = Some(seek@);
            }
            l
        } else {
            None
        };
        let line: usize = match found {
            Some(l) => l,
            None => match path_line {
                Some(l) => l,
                None => 1,
            },
        };
        let verb = text::uppercase(methods[j].as_str());
        let chars = text::chars_of(verb.as_str());
        let full = text::joined3(chars.as_slice(), " ", suffix.as_slice());
        let signature = text::copy(full.as_str());
        let node = make_node(path, repo_id, "openapi", full, NodeKind::HttpEndpoint, line, signature);
        assert(start + e.0.push(node@) == (start + e.0).push(node@));
        model::push_node(out, node);
        j += 1;
    }
    assert(mv.take(j as int) == mv);
}

/// Adds what an OpenAPI document declares.
fn add_openapi(out: &mut FileIndex, paths: &Vec<(String, Vec<String>)>, lines: &YamlLines, path: &str, repo_id: RepoId)
    ensures
        final(out)@ == openapi_index(old(out)@, spec_shape::paths_view(paths@), lines@, path@, repo_id),
{
    let ghost start = out@;
    let ghost pv = spec_shape::paths_view(paths@);
    let found = find_paths(paths, lines);
    let ghost lv = opt_lines(found@);
    let mut j: usize = 0;
    assert(start.nodes + Seq::<ContractNodeView>::empty() == start.nodes);
    while j < paths.len()
        invariant
            0 <= j <= paths@.len(),
            pv == spec_shape::paths_view(paths@),
            found@.len() == paths@.len(),
            lv == opt_lines(found@),
            out@ == (FileIndexView {
                nodes: start.nodes + all_endpoints(pv, lv, lines@, path@, repo_id, j as int),
                ..start
            }),
        decreases paths@.len() - j,
    {
        proof {
            assert(pv[j as int] == (paths@[j as int].0@, text::strings(paths@[j as int].1@)));
            assert(lv[j as int] == text::opt_int(found@[j as int]));
        }
        let until: usize = match next_found(&found, j + 1) {
            Some(l) => l,
            None => usize::MAX,
        };
        let ghost before = all_endpoints(pv, lv, lines@, path@, repo_id, j as int);
        add_endpoints(&mut out.nodes, &paths[j].1, lines, paths[j].0.as_str(), found[j], until, path, repo_id);
        proof {
            let more = endpoints(method_search(lv, j as int), pv[j as int].1, lines@, pv[j as int].0, lv[j as int], path@, repo_id).0;
            assert((start.nodes + before) + more == start.nodes + (before + more));
        }
        j += 1;
    }
}

/// Adds what a YAML file declares.
pub fn extract_yaml_contracts(
    path: &str,
    content: &str,
    repo_id: RepoId,
    shapes: &SpecShapes,
    out: &mut FileIndex,
    cfg: &ExtractConfig,
)
    ensures
        final(out)@ == yaml_index(old(out)@, *shapes, path@, content@, repo_id, cfg@),
{
    let lower = text::lowercase(path);
    let name = text::chars_of(lower.as_str());
    let chars = text::chars_of(content);
    assert(cfg@.asyncapi_spec_files.len() == cfg.asyncapi_spec_files@.len());
    assert(cfg@.openapi_spec_files.len() == cfg.openapi_spec_files@.len());
    let lines = YamlLines::new(content);
    match &shapes.asyncapi {
        Some(shape) => {
            let taken = if cfg.asyncapi_spec_files.len() == 0 {
                text::has_lit(name.as_slice(), "asyncapi") || text::has_lit(chars.as_slice(), "asyncapi:")
            } else {
                config::matches_any(name.as_slice(), &cfg.asyncapi_spec_files)
            };
            if taken {
                add_asyncapi(out, shape, &lines, cfg.infer_string_topics, path, repo_id);
            }
        },
        None => {},
    }
    match &shapes.openapi {
        Some(shape) => {
            let taken = if cfg.openapi_spec_files.len() == 0 {
                text::has_lit(name.as_slice(), "openapi") || text::has_lit(chars.as_slice(), "openapi:") || text::has_lit(
                    chars.as_slice(),
                    "swagger:",
                )
            } else {
                config::matches_any(name.as_slice(), &cfg.openapi_spec_files)
            };
            if taken {
                add_openapi(out, &shape.paths, &lines, path, repo_id);
            }
        },
        None => {},
    }
}

} // verus!
