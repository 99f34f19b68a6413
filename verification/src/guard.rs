//! Limits on what is parsed.
use vstd::prelude::*;
use crate::decapitate::LanguageKind;
use crate::grammars;
use crate::paths;
use crate::syntax;
use crate::syntax::TreeView;
use crate::text;

verus! {

/// Why a file is not parsed.
#[derive(Debug)]
pub enum ParserError {
    LanguageError(String),
    GuardRejected(String),
    QueryError(tree_sitter::QueryError),
}

impl ParserError {
    /// How the error reads.
    pub open spec fn spoken(self) -> Seq<char> {
        match self {
            ParserError::LanguageError(m) => "Tree-sitter parser failed to set language: "@ + m@,
            ParserError::GuardRejected(m) => "File rejected by AstGuard: "@ + m@,
            ParserError::QueryError(e) => "Query compilation error: "@ + grammars::query_error_text(e),
        }
    }

    /// How the error reads.
    pub fn message(&self) -> (r: String)
        ensures
            r@ == self.spoken(),
    {
        match self {
            ParserError::LanguageError(m) => {
                let chars = text::chars_of(m.as_str());
                text::joined("Tree-sitter parser failed to set language: ", chars.as_slice())
            },
            ParserError::GuardRejected(m) => {
                let chars = text::chars_of(m.as_str());
                text::joined("File rejected by AstGuard: ", chars.as_slice())
            },
            ParserError::QueryError(e) => {
                let m = grammars::text_of_query_error(e);
                let chars = text::chars_of(m.as_str());
                text::joined("Query compilation error: ", chars.as_slice())
            },
        }
    }
}

impl From<tree_sitter::QueryError> for ParserError {
    fn from(e: tree_sitter::QueryError) -> (r: ParserError) {
        ParserError::QueryError(e)
    }
}

impl vstd::std_specs::convert::FromSpecImpl<tree_sitter::QueryError> for ParserError {
    open spec fn obeys_from_spec() -> bool {
        true
    }

    open spec fn from_spec(e: tree_sitter::QueryError) -> ParserError {
        ParserError::QueryError(e)
    }
}

/// What came of parsing a file.
pub enum ParseOutcome<T> {
    Parsed(T),
    /// The parser did not come to an end in time.
    ParseFailed,
    /// There is no grammar for the language.
    NoGrammar,
}

impl<T> ParseOutcome<T> {
    /// What was parsed, if anything was.
    pub fn into_option(self) -> (r: Option<T>)
        ensures
            r == (match self {
                ParseOutcome::Parsed(t) => Some(t),
                _ => None,
            }),
    {
        match self {
            ParseOutcome::Parsed(t) => Some(t),
            ParseOutcome::ParseFailed => None,
            ParseOutcome::NoGrammar => None,
        }
    }
}

/// Whether a file name, in lower case, is that of a contract or of a generated stub.
pub open spec fn names_schema(f: Seq<char>) -> bool {
    ||| text::ends_with(f, ".proto"@)
    ||| text::ends_with(f, ".pb.go"@)
    ||| text::ends_with(f, "outerclass.java"@)
    ||| text::ends_with(f, ".pb.ts"@)
    ||| text::ends_with(f, "_pb2.py"@)
    ||| text::ends_with(f, ".pb.rs"@)
    ||| f == "openapi.yaml"@
    ||| f == "openapi.json"@
    ||| f == "asyncapi.yaml"@
    ||| f == "asyncapi.json"@
}

/// Whether a path is that of a contract or of a generated stub.
pub open spec fn is_schema(path: Seq<char>) -> bool {
    match paths::file_name(path) {
        Some(f) => names_schema(text::lowered(f)),
        None => false,
    }
}

/// The number of bytes that a file may have.
pub open spec fn budget(path: Seq<char>) -> u64 {
    if is_schema(path) {
        AstGuard::MAX_SCHEMA_FILE_SIZE_BYTES
    } else {
        AstGuard::MAX_FILE_SIZE_BYTES
    }
}

/// Whether a zero byte stands near the start of a file.
pub open spec fn binary(s: Seq<u8>) -> bool {
    exists|j: int| 0 <= j < s.len() && j < AstGuard::BINARY_SNIFF_LEN && #[trigger] s[j] == 0
}

/// Whether no line ends among the bytes from `a` up to `b`.
pub open spec fn one_line(s: Seq<u8>, a: int, b: int) -> bool {
    forall|j: int| a <= j < b ==> #[trigger] s[j] != 10
}

/// Whether a line is longer than lines may be.
pub open spec fn has_long_line(s: Seq<u8>) -> bool {
    exists|a: int|
        0 <= a && a + AstGuard::MAX_LINE_LEN_BYTES < s.len() && #[trigger] one_line(
            s,
            a,
            a + AstGuard::MAX_LINE_LEN_BYTES + 1,
        )
}

/// Where the line that holds position `i` ends.
pub open spec fn line_end(s: Seq<u8>, i: int) -> int
    decreases s.len() - i,
{
    if 0 <= i < s.len() && s[i] != 10 {
        line_end(s, i + 1)
    } else {
        i
    }
}

/// Where the block comment around position `i` ends.
pub open spec fn comment_end(s: Seq<u8>, i: int) -> int
    decreases s.len() - i,
{
    if 0 <= i && i + 1 < s.len() && !(s[i] == 42 && s[i + 1] == 47) {
        comment_end(s, i + 1)
    } else if i + 2 <= s.len() {
        i + 2
    } else {
        s.len() as int
    }
}

/// Where the literal in quotes `q` around position `i` ends. A backslash takes the byte after
/// it along.
pub open spec fn quote_end(s: Seq<u8>, q: u8, i: int) -> int
    decreases s.len() + 1 - i,
{
    if i < 0 || i >= s.len() {
        s.len() as int
    } else if s[i] == 92 {
        quote_end(s, q, i + 2)
    } else if s[i] == q {
        i + 1
    } else {
        quote_end(s, q, i + 1)
    }
}

/// Where the comment or the literal that starts at position `i` ends, if one does.
pub open spec fn token_end(s: Seq<u8>, i: int) -> Option<int> {
    if s[i] == 47 && i + 1 < s.len() && s[i + 1] == 47 {
        Some(line_end(s, i + 2))
    } else if s[i] == 47 && i + 1 < s.len() && s[i + 1] == 42 {
        Some(comment_end(s, i + 2))
    } else if s[i] == 35 {
        Some(line_end(s, i + 1))
    } else if s[i] == 34 || s[i] == 39 || s[i] == 96 {
        Some(quote_end(s, s[i], i + 1))
    } else {
        None
    }
}

/// Whether a byte is an opening bracket.
pub open spec fn opens(b: u8) -> bool {
    b == 123 || b == 40 || b == 91
}

/// Whether a byte is a closing bracket.
pub open spec fn closes(b: u8) -> bool {
    b == 125 || b == 41 || b == 93
}

/// The brackets from position `i` on that stand in no comment and in no literal: `true` for
/// each that opens, `false` for each that closes.
pub open spec fn brackets(s: Seq<u8>, i: int) -> Seq<bool>
    decreases s.len() - i,
{
    if i < 0 || i >= s.len() {
        Seq::empty()
    } else {
        match token_end(s, i) {
            Some(e) => if i < e <= s.len() {
                brackets(s, e)
            } else {
                Seq::empty()
            },
            None => if opens(s[i]) {
                seq![true] + brackets(s, i + 1)
            } else if closes(s[i]) {
                seq![false] + brackets(s, i + 1)
            } else {
                brackets(s, i + 1)
            },
        }
    }
}

/// The number of brackets that are open after a list of them. One that closes nothing is
/// passed over.
pub open spec fn open_after(bs: Seq<bool>) -> int
    decreases bs.len(),
{
    if bs.len() == 0 {
        0
    } else if bs.last() {
        open_after(bs.drop_last()) + 1
    } else if open_after(bs.drop_last()) > 0 {
        open_after(bs.drop_last()) - 1
    } else {
        0
    }
}

/// The largest number of brackets that are open at once.
pub open spec fn deepest(bs: Seq<bool>) -> int
    decreases bs.len(),
{
    if bs.len() == 0 {
        0
    } else if open_after(bs) > deepest(bs.drop_last()) {
        open_after(bs)
    } else {
        deepest(bs.drop_last())
    }
}

/// How deep brackets are nested in a text.
pub open spec fn nesting(s: Seq<u8>) -> int {
    deepest(brackets(s, 0))
}

/// The nesting depth is the depth after some prefix of the brackets, no prefix is deeper, and
/// there are at least that many brackets.
pub proof fn law_deepest_is_greatest(bs: Seq<bool>)
    ensures
        exists|k: int| 0 <= k <= bs.len() && open_after(#[trigger] bs.take(k)) == deepest(bs),
        forall|k: int| 0 <= k <= bs.len() ==> 0 <= open_after(#[trigger] bs.take(k)) <= deepest(bs),
        0 <= deepest(bs) <= bs.len(),
    decreases bs.len(),
{
    assert(bs.take(bs.len() as int) == bs);
    lemma_open_after_range(bs);
    if bs.len() == 0 {
        assert(open_after(bs.take(0)) == deepest(bs));
    } else {
        let front = bs.drop_last();
        law_deepest_is_greatest(front);
        assert forall|k: int| 0 <= k <= bs.len() implies 0 <= open_after(#[trigger] bs.take(k)) <= deepest(bs) by {
            if k < bs.len() {
                assert(bs.take(k) == front.take(k));
            }
        }
        if open_after(bs) > deepest(front) {
            assert(open_after(bs.take(bs.len() as int)) == deepest(bs));
        } else {
            let k = choose|k: int| 0 <= k <= front.len() && open_after(#[trigger] front.take(k)) == deepest(front);
            assert(bs.take(k) == front.take(k));
        }
    }
}

proof fn lemma_open_after_range(bs: Seq<bool>)
    ensures
        0 <= open_after(bs) <= bs.len(),
    decreases bs.len(),
{
    if bs.len() > 0 {
        lemma_open_after_range(bs.drop_last());
    }
}

/// A text in which no bracket opens is not nested at all.
pub proof fn law_no_brackets_no_nesting(s: Seq<u8>)
    requires
        forall|j: int| 0 <= j < s.len() ==> !opens(#[trigger] s[j]),
    ensures
        nesting(s) == 0,
{
    lemma_no_openings(s, 0);
    lemma_only_closings(brackets(s, 0));
}

proof fn lemma_no_openings(s: Seq<u8>, i: int)
    requires
        forall|j: int| 0 <= j < s.len() ==> !opens(#[trigger] s[j]),
    ensures
        forall|k: int| 0 <= k < brackets(s, i).len() ==> !#[trigger] brackets(s, i)[k],
    decreases s.len() - i,
{
    if 0 <= i < s.len() {
        match token_end(s, i) {
            Some(e) => {
                if i < e <= s.len() {
                    lemma_no_openings(s, e);
                    assert(brackets(s, i) == brackets(s, e));
                } else {
                    assert(brackets(s, i) == Seq::<bool>::empty());
                }
            },
            None => {
                lemma_no_openings(s, i + 1);
                let rest = brackets(s, i + 1);
                assert forall|k: int| 0 <= k < brackets(s, i).len() implies !#[trigger] brackets(s, i)[k] by {
                    if closes(s[i]) && k > 0 {
                        assert(brackets(s, i)[k] == rest[k - 1]);
                    }
                }
            },
        }
    }
}

proof fn lemma_only_closings(bs: Seq<bool>)
    requires
        forall|k: int| 0 <= k < bs.len() ==> !#[trigger] bs[k],
    ensures
        open_after(bs) == 0,
        deepest(bs) == 0,
    decreases bs.len(),
{
    if bs.len() > 0 {
        lemma_only_closings(bs.drop_last());
    }
}

/// Whether a file of the given size and contents may be parsed.
pub open spec fn admitted(size: u64, content: Seq<u8>, max_bytes: u64) -> bool {
    &&& size <= max_bytes
    &&& !binary(content)
    &&& !has_long_line(content)
    &&& nesting(content) <= AstGuard::MAX_NESTING_DEPTH
}

/// Whether a parser has the grammar of a language and gives up after the given time.
pub open spec fn is_bounded(p: tree_sitter::Parser, kind: LanguageKind, micros: u64) -> bool {
    kind.grammar_name() is Some && grammars::parser_grammar(p) == kind.grammar_name() && grammars::parser_timeout(p) == micros
}

/// Whether a language has a grammar that a parser takes.
pub open spec fn loads(kind: LanguageKind) -> bool {
    match kind.grammar_name() {
        Some(name) => grammars::binding_error(grammars::exported(name)) is None,
        None => false,
    }
}

/// Whether a parser that has the grammar of a language makes the tree of the text.
pub open spec fn tree_of(kind: LanguageKind, micros: u64, content: Seq<char>, t: TreeView) -> bool {
    exists|p: tree_sitter::Parser|
        #[trigger] is_bounded(p, kind, micros) && t == (TreeView { rows: syntax::parsed_rows(p, content), src: content })
}

/// Whether a function may give a value for a parser with the grammar of a language.
pub open spec fn gives_for_parser<R, F: FnOnce(&mut tree_sitter::Parser) -> R>(f: F, kind: LanguageKind, x: R) -> bool {
    exists|p: &mut tree_sitter::Parser|
        is_bounded(*p, kind, AstGuard::PARSER_TIMEOUT_MICROS) && #[trigger] call_ensures(f, (p,), x)
}

/// Bounds on the files that are parsed and on the work that parsing may do.
pub struct AstGuard;

impl AstGuard {
    pub const MAX_FILE_SIZE_BYTES: u64 = 384 * 1024;

    pub const MAX_SCHEMA_FILE_SIZE_BYTES: u64 = 1536 * 1024;

    pub const BINARY_SNIFF_LEN: usize = 4096;

    pub const MAX_LINE_LEN_BYTES: usize = 1024;

    pub const MAX_NESTING_DEPTH: usize = 64;

    pub const PARSER_TIMEOUT_MICROS: u64 = 15_000;

    /// The time that parsing may take while a query waits for it.
    pub const QUERY_PARSE_TIMEOUT_MICROS: u64 = 15_000;

    /// The time that parsing may take while files are indexed.
    pub const INDEX_PARSE_TIMEOUT_MICROS: u64 = 2_000_000;

    pub const QUERY_MATCH_LIMIT: u32 = 500;

    pub const MAX_QUERY_STEPS: usize = 10_000;

    /// Whether a file is a contract definition or a generated serialization stub.
    pub fn is_contract_or_schema(path: &str) -> (r: bool)
        ensures
            r == is_schema(path@),
    {
        let chars = text::chars_of(path);
        match paths::name_of(chars.as_slice()) {
            Some(name) => {
                let lower = text::to_lower(name);
                let f = lower.as_slice();
                text::ends(f, ".proto") || text::ends(f, ".pb.go") || text::ends(f, "outerclass.java") || text::ends(f, ".pb.ts")
                    || text::ends(f, "_pb2.py") || text::ends(f, ".pb.rs") || text::is(f, "openapi.yaml") || text::is(
                    f,
                    "openapi.json",
                ) || text::is(f, "asyncapi.yaml") || text::is(f, "asyncapi.json")
            },
            None => false,
        }
    }

    /// The number of bytes that a file may have: more for contracts and stubs than for source
    /// files.
    pub fn size_budget(path: &str) -> (r: u64)
        ensures
            r == budget(path@),
    {
        if Self::is_contract_or_schema(path) {
            Self::MAX_SCHEMA_FILE_SIZE_BYTES
        } else {
            Self::MAX_FILE_SIZE_BYTES
        }
    }

    /// Whether a file of the given size is worth reading.
    pub fn within_size_budget(path: &str, size: u64) -> (r: bool)
        ensures
            r == (size <= budget(path@)),
    {
        size <= Self::size_budget(path)
    }

    /// Whether a zero byte stands near the start of a file.
    pub fn looks_binary(content: &[u8]) -> (r: bool)
        ensures
            r == binary(content@),
    {
        let mut j: usize = 0;
        while j < content.len() && j < Self::BINARY_SNIFF_LEN
            invariant
                0 <= j <= content@.len(),
                j <= Self::BINARY_SNIFF_LEN,
                forall|k: int| 0 <= k < j ==> #[trigger] content@[k] != 0,
            decreases content@.len() - j,
        {
            if content[j] == 0 {
                assert(content@[j as int] == 0);
                return true;
            }
            j += 1;
        }
        false
    }

    /// Whether a line is longer than lines may be.
    pub fn has_long_line(content: &[u8]) -> (r: bool)
        ensures
            r == has_long_line(content@),
    {
        let mut start: usize = 0;
        let mut j: usize = 0;
        while j < content.len()
            invariant
                0 <= start <= j <= content@.len(),
                j - start <= Self::MAX_LINE_LEN_BYTES,
                one_line(content@, start as int, j as int),
                start > 0 ==> content@[start - 1] == 10,
                forall|a: int| 0 <= a && a + Self::MAX_LINE_LEN_BYTES < j ==> !#[trigger] one_line(content@, a, a + Self::MAX_LINE_LEN_BYTES + 1),
            decreases content@.len() - j,
        {
            if content[j] == 10 {
                assert forall|a: int| 0 <= a && a + Self::MAX_LINE_LEN_BYTES < j + 1 implies !#[trigger] one_line(
                    content@,
                    a,
                    a + Self::MAX_LINE_LEN_BYTES + 1,
                ) by {
                    if a + Self::MAX_LINE_LEN_BYTES == j {
                        assert(content@[j as int] == 10);
                    }
                }
                start = j + 1;
            } else if j - start == Self::MAX_LINE_LEN_BYTES {
                assert(one_line(content@, start as int, start + Self::MAX_LINE_LEN_BYTES + 1));
                return true;
            } else {
                assert forall|a: int| 0 <= a && a + Self::MAX_LINE_LEN_BYTES < j + 1 implies !#[trigger] one_line(
                    content@,
                    a,
                    a + Self::MAX_LINE_LEN_BYTES + 1,
                ) by {
                    if a + Self::MAX_LINE_LEN_BYTES == j {
                        assert(content@[start - 1] == 10);
                    }
                }
            }
            j += 1;
        }
        false
    }

    /// Whether a file may be parsed, given the budget of its path.
    pub fn should_parse_path(path: &str, size: u64, content: &[u8]) -> (r: bool)
        ensures
            r == admitted(size, content@, budget(path@)),
    {
        Self::should_parse_with_budget(size, content, Self::size_budget(path))
    }

    /// Whether a source file may be parsed.
    pub fn should_parse(size: u64, content: &[u8]) -> (r: bool)
        ensures
            r == admitted(size, content@, Self::MAX_FILE_SIZE_BYTES),
    {
        Self::should_parse_with_budget(size, content, Self::MAX_FILE_SIZE_BYTES)
    }

    /// Whether a file may be parsed: it is not too large, not binary, and has neither a line
    /// that is too long nor brackets that are nested too deep.
    pub fn should_parse_with_budget(size: u64, content: &[u8], max_bytes: u64) -> (r: bool)
        ensures
            r == admitted(size, content@, max_bytes),
    {
        size <= max_bytes && !Self::looks_binary(content) && !Self::has_long_line(content) && Self::max_nesting_depth(content)
            <= Self::MAX_NESTING_DEPTH
    }

    /// Where the line that goes on at `start` ends.
    fn end_of_line(s: &[u8], start: usize) -> (r: usize)
        requires
            start <= s@.len(),
        ensures
            r == line_end(s@, start as int),
            start <= r <= s@.len(),
    {
        let mut i: usize = start;
        while i < s.len() && s[i] != 10
            invariant
                start <= i <= s@.len(),
                line_end(s@, start as int) == line_end(s@, i as int),
            decreases s@.len() - i,
        {
            i += 1;
        }
        i
    }

    /// Where the block comment that goes on at `start` ends.
    fn end_of_comment(s: &[u8], start: usize) -> (r: usize)
        requires
            start <= s@.len(),
        ensures
            r == comment_end(s@, start as int),
            start <= r <= s@.len(),
    {
        let mut i: usize = start;
        while s.len() - i > 1 && !(s[i] == 42 && s[i + 1] == 47)
            invariant
                start <= i <= s@.len(),
                comment_end(s@, start as int) == comment_end(s@, i as int),
            decreases s@.len() - i,
        {
            i += 1;
        }
        if s.len() - i >= 2 {
            i + 2
        } else {
            s.len()
        }
    }

    fn end_of_quote(s: &[u8], q: u8, start: usize) -> (r: usize)
        requires
            start <= s@.len(),
        ensures
            r == quote_end(s@, q, start as int),
            start <= r <= s@.len(),
    {
        let mut i: usize = start;
        while i < s.len()
            invariant
                start <= i <= s@.len(),
                quote_end(s@, q, start as int) == quote_end(s@, q, i as int),
            decreases s@.len() - i,
        {
            if s[i] == 92 {
                if s.len() - i >= 2 {
                    i += 2;
                } else {
                    assert(quote_end(s@, q, i + 2) == s@.len());
                    return s.len();
                }
            } else if s[i] == q {
                return i + 1;
            } else {
                i += 1;
            }
        }
        s.len()
    }

    /// Where the comment or the literal that starts at position `i` ends, if one does.
    fn end_of_token(s: &[u8], i: usize) -> (r: Option<usize>)
        requires
            i < s@.len(),
        ensures
            text::opt_int(r) == token_end(s@, i as int),
            r matches Some(e) ==> i < e <= s@.len(),
    {
        let b = s[i];
        if b == 47 && s.len() - i > 1 && s[i + 1] == 47 {
            Some(Self::end_of_line(s, i + 2))
        } else if b == 47 && s.len() - i > 1 && s[i + 1] == 42 {
            Some(Self::end_of_comment(s, i + 2))
        } else if b == 35 {
            Some(Self::end_of_line(s, i + 1))
        } else if b == 34 || b == 39 || b == 96 {
            Some(Self::end_of_quote(s, b, i + 1))
        } else {
            None
        }
    }

    /// How deep brackets are nested in a text, those in comments and in literals aside.
    pub fn max_nesting_depth(content: &[u8]) -> (r: usize)
        ensures
            r == nesting(content@),
    {
        let ghost mut seen: Seq<bool> = Seq::empty();
        let mut depth: usize = 0;
        let mut max_depth: usize = 0;
        let mut i: usize = 0;
        assert(seen + brackets(content@, 0) == brackets(content@, 0));
        while i < content.len()
            invariant
                0 <= i <= content@.len(),
                max_depth <= i,
                depth <= i,
                seen + brackets(content@, i as int) == brackets(content@, 0),
                depth == open_after(seen),
                max_depth == deepest(seen),
            decreases content@.len() - i,
        {
            match Self::end_of_token(content, i) {
                Some(e) => {
                    i = e;
                },
                None => {
                    let b = content[i];
                    let ghost rest = brackets(content@, i + 1);
                    if b == 123 || b == 40 || b == 91 {
                        proof {
                            assert(seen + (seq![true] + rest) == seen.push(true) + rest);
                            assert(seen.push(true).drop_last() == seen);
                            seen = seen.push(true);
                        }
                        depth += 1;
                        if depth > max_depth {
                            max_depth = depth;
                        }
                    } else if b == 125 || b == 41 || b == 93 {
                        proof {
                            assert(seen + (seq![false] + rest) == seen.push(false) + rest);
                            assert(seen.push(false).drop_last() == seen);
                            law_deepest_is_greatest(seen);
                            assert(seen.take(seen.len() as int) == seen);
                            seen = seen.push(false);
                        }
                        depth = depth.saturating_sub(1);
                    }
                    i += 1;
                },
            }
        }
        assert(seen + Seq::<bool>::empty() == seen);
        max_depth
    }

    /// Whether the grammars of all languages that have one can be loaded.
    pub fn verify_all_parsers() -> (r: bool)
        ensures
            r == (forall|kind: LanguageKind| kind.grammar_name() is Some ==> #[trigger] loads(kind)),
    {
        let r = Self::is_loaded(LanguageKind::Java) && Self::is_loaded(LanguageKind::Go) && Self::is_loaded(LanguageKind::Python)
            && Self::is_loaded(LanguageKind::TypeScript) && Self::is_loaded(LanguageKind::Rust) && Self::is_loaded(LanguageKind::Cpp)
            && Self::is_loaded(LanguageKind::Kotlin) && Self::is_loaded(LanguageKind::CSharp) && Self::is_loaded(LanguageKind::Ruby)
            && Self::is_loaded(LanguageKind::Php) && Self::is_loaded(LanguageKind::Swift) && Self::is_loaded(LanguageKind::Scala)
            && Self::is_loaded(LanguageKind::Protobuf);
        proof {
            if r {
                assert forall|kind: LanguageKind| kind.grammar_name() is Some implies #[trigger] loads(kind) by {
                    match kind {
                        LanguageKind::Yaml => {},
                        LanguageKind::Unknown => {},
                        _ => {},
                    }
                }
            }
        }
        r
    }

    /// Whether the grammar of a language can be loaded.
    fn is_loaded(kind: LanguageKind) -> (r: bool)
        ensures
            r == loads(kind),
    {
        match kind.language() {
            Some(language) => Self::create_bounded_parser(&language).is_ok(),
            None => false,
        }
    }

    /// A parser for a grammar that gives up after 15 milliseconds.
    pub fn create_bounded_parser(lang: &tree_sitter::Language) -> (r: Result<tree_sitter::Parser, ParserError>)
        ensures
            match grammars::binding_error(*lang) {
                Some(m) => r matches Err(ParserError::LanguageError(e)) && e@ == m,
                None => r matches Ok(p) && grammars::parser_grammar(p) == Some(grammars::grammar(*lang))
                    && grammars::parser_timeout(p) == Self::PARSER_TIMEOUT_MICROS,
            },
    {
        let mut parser = grammars::new_parser();
        match grammars::set_language(&mut parser, lang) {
            Ok(_) => {
                grammars::set_timeout(&mut parser, Self::PARSER_TIMEOUT_MICROS);
                Ok(parser)
            },
            Err(e) => Err(ParserError::LanguageError(e)),
        }
    }

    /// Hands a parser for a language to `f`. There is none for a language without a grammar.
    pub fn with_parser<R, F: FnOnce(&mut tree_sitter::Parser) -> R>(lang_kind: LanguageKind, f: F) -> (r: Option<R>)
        requires
            forall|p: &mut tree_sitter::Parser| #[trigger] call_requires(f, (p,)),
        ensures
            r is Some <==> loads(lang_kind),
            r matches Some(x) ==> gives_for_parser(f, lang_kind, x),
    {
        match lang_kind.language() {
            Some(language) => match Self::create_bounded_parser(&language) {
                Ok(parser) => {
                    let mut parser = parser;
                    assert(is_bounded(parser, lang_kind, Self::PARSER_TIMEOUT_MICROS));
                    let x = f(&mut parser);
                    assert(gives_for_parser(f, lang_kind, x));
                    Some(x)
                },
                Err(_) => None,
            },
            None => None,
        }
    }

    /// Parses a text with the grammar of a language within a given time.
    pub fn parse_with(lang_kind: LanguageKind, content: &str, timeout_micros: u64) -> (r: ParseOutcome<tree_sitter::Tree>)
        ensures
            r is NoGrammar <==> !loads(lang_kind),
            r matches ParseOutcome::Parsed(tree) ==> tree_of(
                lang_kind,
                timeout_micros,
                content@,
                TreeView { rows: syntax::tree_rows(tree), src: content@ },
            ),
    {
        match lang_kind.language() {
            Some(language) => {
                let mut parser = grammars::new_parser();
                match grammars::set_language(&mut parser, &language) {
                    Ok(_) => {
                        grammars::set_timeout(&mut parser, timeout_micros);
                        let ghost p = parser;
                        match syntax::parse(&mut parser, content) {
                            Some(tree) => {
                                assert(is_bounded(p, lang_kind, timeout_micros));
                                ParseOutcome::Parsed(tree)
                            },
                            None => ParseOutcome::ParseFailed,
                        }
                    },
                    Err(_) => ParseOutcome::NoGrammar,
                }
            },
            None => ParseOutcome::NoGrammar,
        }
    }
}

} // verus!
