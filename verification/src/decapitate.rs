//! Source files without the bodies of their functions.
use vstd::prelude::*;
use crate::grammars;
use crate::guard;
use crate::guard::{AstGuard, ParseOutcome};
use crate::languages::common;
use crate::order;
use crate::splice;
use crate::splice::{Edit, EditView};
use crate::syntax;
use crate::syntax::{SyntaxTree, TreeRules, TreeView};
use crate::text;

verus! {

/// The language of a file.
#[derive(Debug, Clone, Copy, PartialEq, Eq, Structural)]
pub enum LanguageKind {
    Java,
    Go,
    Python,
    TypeScript,
    Rust,
    Cpp,
    Kotlin,
    CSharp,
    Ruby,
    Php,
    Swift,
    Scala,
    Protobuf,
    Yaml,
    Unknown,
}

/// Whether a path ends in one of two suffixes.
pub open spec fn ends_in(path: Seq<char>, a: Seq<char>, b: Seq<char>) -> bool {
    text::ends_with(path, a) || text::ends_with(path, b)
}

/// Whether a path is that of a C++ file.
pub open spec fn is_cpp_path(path: Seq<char>) -> bool {
    ||| ends_in(path, ".cpp"@, ".cc"@)
    ||| ends_in(path, ".cxx"@, ".hpp"@)
    ||| ends_in(path, ".hh"@, ".hxx"@)
    ||| text::ends_with(path, ".h"@)
}

/// The language of a file, by the end of its path.
pub open spec fn language_of_path(path: Seq<char>) -> LanguageKind {
    if text::ends_with(path, ".proto"@) {
        LanguageKind::Protobuf
    } else if text::ends_with(path, ".java"@) {
        LanguageKind::Java
    } else if text::ends_with(path, ".go"@) {
        LanguageKind::Go
    } else if text::ends_with(path, ".py"@) {
        LanguageKind::Python
    } else if ends_in(path, ".ts"@, ".tsx"@) || text::ends_with(path, ".js"@) {
        LanguageKind::TypeScript
    } else if text::ends_with(path, ".rs"@) {
        LanguageKind::Rust
    } else if ends_in(path, ".kt"@, ".kts"@) {
        LanguageKind::Kotlin
    } else if text::ends_with(path, ".cs"@) {
        LanguageKind::CSharp
    } else if ends_in(path, ".rb"@, ".rake"@) {
        LanguageKind::Ruby
    } else if ends_in(path, ".php"@, ".phtml"@) {
        LanguageKind::Php
    } else if text::ends_with(path, ".swift"@) {
        LanguageKind::Swift
    } else if ends_in(path, ".scala"@, ".sc"@) {
        LanguageKind::Scala
    } else if is_cpp_path(path) {
        LanguageKind::Cpp
    } else if ends_in(path, ".yaml"@, ".yml"@) {
        LanguageKind::Yaml
    } else {
        LanguageKind::Unknown
    }
}

impl LanguageKind {
    /// The number of languages with a grammar.
    pub const TREE_SITTER_COUNT: usize = 13;

    /// The name of a language.
    pub open spec fn name(self) -> Seq<char> {
        match self {
            LanguageKind::Java => "java"@,
            LanguageKind::Go => "go"@,
            LanguageKind::Python => "python"@,
            LanguageKind::TypeScript => "typescript"@,
            LanguageKind::Rust => "rust"@,
            LanguageKind::Cpp => "cpp"@,
            LanguageKind::Kotlin => "kotlin"@,
            LanguageKind::CSharp => "csharp"@,
            LanguageKind::Ruby => "ruby"@,
            LanguageKind::Php => "php"@,
            LanguageKind::Swift => "swift"@,
            LanguageKind::Scala => "scala"@,
            LanguageKind::Protobuf => "protobuf"@,
            LanguageKind::Yaml => "yaml"@,
            LanguageKind::Unknown => "unknown"@,
        }
    }

    /// The name of the grammar of a language.
    pub open spec fn grammar_name(self) -> Option<Seq<char>> {
        match self {
            LanguageKind::CSharp => Some("c_sharp"@),
            LanguageKind::Protobuf => Some("proto"@),
            LanguageKind::Yaml | LanguageKind::Unknown => None,
            _ => Some(self.name()),
        }
    }

    /// The name of the language, in lower case.
    pub fn as_str(self) -> (r: &'static str)
        ensures
            r@ == self.name(),
    {
        match self {
            LanguageKind::Java => "java",
            LanguageKind::Go => "go",
            LanguageKind::Python => "python",
            LanguageKind::TypeScript => "typescript",
            LanguageKind::Rust => "rust",
            LanguageKind::Cpp => "cpp",
            LanguageKind::Kotlin => "kotlin",
            LanguageKind::CSharp => "csharp",
            LanguageKind::Ruby => "ruby",
            LanguageKind::Php => "php",
            LanguageKind::Swift => "swift",
            LanguageKind::Scala => "scala",
            LanguageKind::Protobuf => "protobuf",
            LanguageKind::Yaml => "yaml",
            LanguageKind::Unknown => "unknown",
        }
    }

    /// The place of the language among those with a grammar.
    pub open spec fn slot(self) -> Option<usize> {
        match self {
            LanguageKind::Java => Some(0),
            LanguageKind::Go => Some(1),
            LanguageKind::Python => Some(2),
            LanguageKind::TypeScript => Some(3),
            LanguageKind::Rust => Some(4),
            LanguageKind::Cpp => Some(5),
            LanguageKind::Kotlin => Some(6),
            LanguageKind::CSharp => Some(7),
            LanguageKind::Ruby => Some(8),
            LanguageKind::Php => Some(9),
            LanguageKind::Swift => Some(10),
            LanguageKind::Scala => Some(11),
            LanguageKind::Protobuf => Some(12),
            LanguageKind::Yaml | LanguageKind::Unknown => None,
        }
    }

    /// The place of the language among those with a grammar, for tables of parsers.
    pub fn tree_sitter_slot(self) -> (r: Option<usize>)
        ensures
            r == self.slot(),
    {
        match self {
            LanguageKind::Java => Some(0),
            LanguageKind::Go => Some(1),
            LanguageKind::Python => Some(2),
            LanguageKind::TypeScript => Some(3),
            LanguageKind::Rust => Some(4),
            LanguageKind::Cpp => Some(5),
            LanguageKind::Kotlin => Some(6),
            LanguageKind::CSharp => Some(7),
            LanguageKind::Ruby => Some(8),
            LanguageKind::Php => Some(9),
            LanguageKind::Swift => Some(10),
            LanguageKind::Scala => Some(11),
            LanguageKind::Protobuf => Some(12),
            LanguageKind::Yaml => None,
            LanguageKind::Unknown => None,
        }
    }

    /// The grammar of the language.
    pub fn language(self) -> (r: Option<tree_sitter::Language>)
        ensures
            r == (match self.grammar_name() {
                Some(name) => Some(grammars::exported(name)),
                None => None,
            }),
            r matches Some(l) ==> Some(grammars::grammar(l)) == self.grammar_name(),
    {
        match self {
            LanguageKind::Java => Some(grammars::java()),
            LanguageKind::Go => Some(grammars::go()),
            LanguageKind::Python => Some(grammars::python()),
            LanguageKind::TypeScript => Some(grammars::typescript()),
            LanguageKind::Rust => Some(grammars::rust()),
            LanguageKind::Cpp => Some(grammars::cpp()),
            LanguageKind::Kotlin => Some(grammars::kotlin()),
            LanguageKind::CSharp => Some(grammars::csharp()),
            LanguageKind::Ruby => Some(grammars::ruby()),
            LanguageKind::Php => Some(grammars::php()),
            LanguageKind::Swift => Some(grammars::swift()),
            LanguageKind::Scala => Some(grammars::scala()),
            LanguageKind::Protobuf => Some(grammars::proto()),
            LanguageKind::Yaml => None,
            LanguageKind::Unknown => None,
        }
    }

    /// The language of a file, by the end of its path.
    pub fn from_path(path_str: &str) -> (r: LanguageKind)
        ensures
            r == language_of_path(path_str@),
    {
        let chars = text::chars_of(path_str);
        let p = chars.as_slice();
        if text::ends(p, ".proto") {
            LanguageKind::Protobuf
        } else if text::ends(p, ".java") {
            LanguageKind::Java
        } else if text::ends(p, ".go") {
            LanguageKind::Go
        } else if text::ends(p, ".py") {
            LanguageKind::Python
        } else if text::ends(p, ".ts") || text::ends(p, ".tsx") || text::ends(p, ".js") {
            LanguageKind::TypeScript
        } else if text::ends(p, ".rs") {
            LanguageKind::Rust
        } else if text::ends(p, ".kt") || text::ends(p, ".kts") {
            LanguageKind::Kotlin
        } else if text::ends(p, ".cs") {
            LanguageKind::CSharp
        } else if text::ends(p, ".rb") || text::ends(p, ".rake") {
            LanguageKind::Ruby
        } else if text::ends(p, ".php") || text::ends(p, ".phtml") {
            LanguageKind::Php
        } else if text::ends(p, ".swift") {
            LanguageKind::Swift
        } else if text::ends(p, ".scala") || text::ends(p, ".sc") {
            LanguageKind::Scala
        } else if text::ends(p, ".cpp") || text::ends(p, ".cc") || text::ends(p, ".cxx") || text::ends(p, ".hpp") || text::ends(
            p,
            ".hh",
        ) || text::ends(p, ".hxx") || text::ends(p, ".h") {
            LanguageKind::Cpp
        } else if text::ends(p, ".yaml") || text::ends(p, ".yml") {
            LanguageKind::Yaml
        } else {
            LanguageKind::Unknown
        }
    }
}

/// The languages with a grammar fill the table of parsers: each has a place of its own, and
/// there is a language at each place.
pub proof fn law_slots_fill_the_table(k: LanguageKind, l: LanguageKind, place: usize)
    ensures
        k.slot() is Some <==> k.grammar_name() is Some,
        k.slot() matches Some(i) ==> i < LanguageKind::TREE_SITTER_COUNT,
        k.slot() is Some && k.slot() == l.slot() ==> k == l,
        place < LanguageKind::TREE_SITTER_COUNT ==> exists|m: LanguageKind| #[trigger] m.slot() == Some(place),
{
    assert(LanguageKind::Java.slot() == Some(0usize));
    assert(LanguageKind::Go.slot() == Some(1usize));
    assert(LanguageKind::Python.slot() == Some(2usize));
    assert(LanguageKind::TypeScript.slot() == Some(3usize));
    assert(LanguageKind::Rust.slot() == Some(4usize));
    assert(LanguageKind::Cpp.slot() == Some(5usize));
    assert(LanguageKind::Kotlin.slot() == Some(6usize));
    assert(LanguageKind::CSharp.slot() == Some(7usize));
    assert(LanguageKind::Ruby.slot() == Some(8usize));
    assert(LanguageKind::Php.slot() == Some(9usize));
    assert(LanguageKind::Swift.slot() == Some(10usize));
    assert(LanguageKind::Scala.slot() == Some(11usize));
    assert(LanguageKind::Protobuf.slot() == Some(12usize));
}

/// The edits that a walk gathers.
pub struct EditList {
    pub items: Vec<Edit>,
}

impl View for EditList {
    type V = Seq<EditView>;

    open spec fn view(&self) -> Seq<EditView> {
        splice::edits_view(self.items@)
    }
}

/// Whether nodes of a kind declare functions with bodies.
pub open spec fn declares_function(lang: LanguageKind, k: Seq<char>) -> bool {
    match lang {
        LanguageKind::Java | LanguageKind::CSharp => k == "method_declaration"@ || k == "constructor_declaration"@,
        LanguageKind::Go => k == "function_declaration"@ || k == "method_declaration"@,
        LanguageKind::TypeScript => k == "method_definition"@ || k == "function_declaration"@ || k == "function_item"@ || k
            == "arrow_function"@,
        LanguageKind::Rust => k == "function_item"@,
        LanguageKind::Cpp | LanguageKind::Python | LanguageKind::Scala => k == "function_definition"@,
        LanguageKind::Kotlin | LanguageKind::Swift => k == "function_declaration"@,
        LanguageKind::Ruby => k == "method"@ || k == "singleton_method"@,
        LanguageKind::Php => k == "method_declaration"@ || k == "function_definition"@,
        LanguageKind::Protobuf | LanguageKind::Yaml | LanguageKind::Unknown => false,
    }
}

/// The body of the function that node `i` declares.
pub open spec fn body_of(t: TreeView, lang: LanguageKind, i: int) -> Option<int> {
    if lang == LanguageKind::Kotlin {
        t.child_of_kind(i, "function_body"@)
    } else {
        t.field(i, "body"@)
    }
}

/// The edit that puts a text in the place of node `i`.
pub open spec fn replacing(t: TreeView, i: int, text: Seq<char>) -> EditView {
    EditView { start: t.rows[i].start_byte, end: t.rows[i].end_byte, text }
}

/// Whether a name is a plain property key.
pub open spec fn is_key(s: Seq<char>) -> bool {
    s.len() > 0 && forall|j: int| 0 <= j < s.len() ==> text::in_identifier(#[trigger] s[j]) || s[j] == '$'
}

/// The key that node `i` gives, where its text is a plain property key.
pub open spec fn key_text(t: TreeView, i: int) -> Option<Seq<char>> {
    match t.text(i) {
        Some(s) => if is_key(text::trim(s)) {
            Some(text::trim(s))
        } else {
            None
        },
        None => None,
    }
}

/// The key that a part of an object literal gives.
pub open spec fn part_key(t: TreeView, i: int) -> Option<Seq<char>> {
    if t.kind(i) == "pair"@ {
        match t.field(i, "key"@) {
            Some(k) => key_text(t, k),
            None => None,
        }
    } else if t.kind(i) == "shorthand_property_identifier"@ || t.kind(i) == "shorthand_property_identifier_pattern"@ {
        key_text(t, i)
    } else {
        None
    }
}

/// The keys that the parts of an object literal give.
pub open spec fn object_keys(t: TreeView, ks: Seq<int>) -> Seq<Seq<char>>
    decreases ks.len(),
{
    if ks.len() == 0 {
        Seq::empty()
    } else {
        crate::model::with(object_keys(t, ks.drop_last()), part_key(t, ks.last()))
    }
}

/// The values that the return statements among the nodes give.
pub open spec fn returned(t: TreeView, ks: Seq<int>) -> Seq<int>
    decreases ks.len(),
{
    if ks.len() == 0 {
        Seq::empty()
    } else if t.kind(ks.last()) == "return_statement"@ {
        crate::model::with(returned(t, ks.drop_last()), t.named_child(ks.last(), 0))
    } else {
        returned(t, ks.drop_last())
    }
}

/// The nodes to look for object literals in, given one that is none itself.
pub open spec fn inner_values(t: TreeView, i: int) -> Seq<int> {
    if t.kind(i) == "parenthesized_expression"@ || t.kind(i) == "as_expression"@ {
        t.named_children(i)
    } else if t.kind(i) == "statement_block"@ {
        returned(t, t.children(i))
    } else {
        Seq::empty()
    }
}

/// The keys of the object literals that node `i` evaluates to, looked for in at most nine
/// steps.
pub open spec fn value_keys(t: TreeView, i: int, depth: int) -> Seq<Seq<char>>
    decreases 9 - depth, 0nat,
{
    if depth > 8 {
        Seq::empty()
    } else if t.kind(i) == "object"@ {
        object_keys(t, t.children(i))
    } else {
        all_keys(t, inner_values(t, i), depth + 1)
    }
}

/// The keys of the object literals that the nodes evaluate to.
pub open spec fn all_keys(t: TreeView, ks: Seq<int>, depth: int) -> Seq<Seq<char>>
    decreases 9 - depth, ks.len(),
{
    if ks.len() == 0 || depth > 9 {
        Seq::empty()
    } else {
        all_keys(t, ks.drop_last(), depth) + value_keys(t, ks.last(), depth)
    }
}

/// The keys of the objects that a function body returns, sorted, each once.
pub open spec fn returned_keys(t: TreeView, body: int) -> Seq<Seq<char>> {
    order::sorted_set(value_keys(t, body, 0))
}

/// An object type with the given keys.
pub open spec fn object_type(keys: Seq<Seq<char>>) -> Seq<char> {
    ": { "@ + text::join(keys.map_values(|k: Seq<char>| k + ": any"@), ", "@) + " }"@
}

/// The return type that is made up for a TypeScript function without one.
pub open spec fn made_up_type(t: TreeView, i: int, body: int) -> Seq<EditView> {
    let keys = returned_keys(t, body);
    match common::else_node(t.field(i, "parameters"@), t.field(i, "parameter"@)) {
        Some(p) => if t.field(i, "return_type"@) is None && keys.len() > 0 {
            seq![EditView { start: t.rows[p].end_byte, end: t.rows[p].end_byte, text: object_type(keys) }]
        } else {
            Seq::empty()
        },
        None => Seq::empty(),
    }
}

/// The first of the nodes that is no comment.
pub open spec fn first_statement(t: TreeView, ks: Seq<int>) -> Option<int>
    decreases ks.len(),
{
    if ks.len() == 0 {
        None
    } else if t.kind(ks[0]) != "comment"@ {
        Some(ks[0])
    } else {
        first_statement(t, ks.drop_first())
    }
}

/// The docstring of a Python body: its first statement, where that is a string literal.
pub open spec fn docstring(t: TreeView, body: int) -> Option<int> {
    match first_statement(t, t.named_children(body)) {
        Some(s) => if t.kind(s) == "expression_statement"@ {
            match t.named_child(s, 0) {
                Some(e) => if t.kind(e) == "string"@ || t.kind(e) == "concatenated_string"@ {
                    Some(s)
                } else {
                    None
                },
                None => None,
            }
        } else {
            None
        },
        None => None,
    }
}

/// A number of spaces.
pub open spec fn spaces(n: int) -> Seq<char> {
    Seq::new(n as nat, |j: int| ' ')
}

/// The edits for a Python function at node `i`: all but the docstring goes.
pub open spec fn python_edits(t: TreeView, i: int, body: int) -> Seq<EditView> {
    match docstring(t, body) {
        Some(d) => if t.rows[d].end_byte < t.rows[body].end_byte {
            let text = if t.rows[d].start_row == t.rows[i].start_row {
                "; ..."@
            } else {
                "\n"@ + spaces(t.rows[d].start_column) + "..."@
            };
            seq![EditView { start: t.rows[d].end_byte, end: t.rows[body].end_byte, text }]
        } else {
            Seq::empty()
        },
        None => seq![replacing(t, body, " ..."@)],
    }
}

/// What goes in the place of a body, in languages that put one text there.
pub open spec fn stripped_body(t: TreeView, lang: LanguageKind, body: int) -> Seq<char> {
    match lang {
        LanguageKind::Kotlin => if t.first_char(body) == Some('{') {
            "{ /* stripped */ }"@
        } else {
            "= /* stripped */"@
        },
        LanguageKind::Ruby => "\n  # stripped\n"@,
        LanguageKind::Scala => if t.kind(body) == "block"@ {
            "{ /* stripped */ }"@
        } else {
            "/* stripped */"@
        },
        _ => "{ /* stripped */ }"@,
    }
}

/// The edits for the function at node `i` with a body, and whether the body has gone, so that
/// nothing in it is looked at.
pub open spec fn function_edits(t: TreeView, lang: LanguageKind, i: int, body: int) -> (Seq<EditView>, bool) {
    if lang == LanguageKind::TypeScript {
        let inserted = made_up_type(t, i, body);
        if t.kind(body) == "statement_block"@ {
            (inserted.push(replacing(t, body, "{ /* stripped */ }"@)), true)
        } else if t.kind(i) == "arrow_function"@ {
            (inserted.push(replacing(t, body, "/* stripped */"@)), true)
        } else {
            (inserted, false)
        }
    } else if lang == LanguageKind::Python {
        (python_edits(t, i, body), true)
    } else {
        (seq![replacing(t, body, stripped_body(t, lang, body))], true)
    }
}

/// The edits at node `i`, and whether they end the walk there.
pub open spec fn node_edits(t: TreeView, lang: LanguageKind, i: int) -> (Seq<EditView>, bool) {
    if declares_function(lang, t.kind(i)) {
        match body_of(t, lang, i) {
            Some(b) => function_edits(t, lang, i, b),
            None => (Seq::empty(), false),
        }
    } else {
        (Seq::empty(), false)
    }
}

/// A walk that gathers the edits that take function bodies out of a file.
pub struct BodyRules {
    pub lang: LanguageKind,
}

impl View for BodyRules {
    type V = LanguageKind;

    open spec fn view(&self) -> LanguageKind {
        self.lang
    }
}

impl TreeRules for BodyRules {
    type Context = ();

    type Output = EditList;

    open spec fn on_node(
        rules: LanguageKind,
        t: TreeView,
        parent: Option<int>,
        i: int,
        c: (),
        o: Seq<EditView>,
    ) -> (Seq<EditView>, Option<()>) {
        let (edits, stop) = node_edits(t, rules, i);
        (
            o + edits,
            if stop {
                None
            } else {
                Some(())
            },
        )
    }

    fn visit(&self, t: &SyntaxTree, parent: Option<usize>, i: usize, c: &(), o: &mut EditList) -> (r: Option<()>) {
        if AstDecapitator::collect_node(t, self.lang, i, &mut o.items) {
            None
        } else {
            Some(())
        }
    }
}

/// The edits that take the function bodies out of a file, in the order of the nodes.
pub open spec fn body_edits(t: TreeView, lang: LanguageKind) -> Seq<EditView> {
    syntax::walk_tree::<BodyRules>(lang, t, AstGuard::MAX_NESTING_DEPTH as int, (), Seq::empty())
}

/// The edits that take the function bodies out of a file, by their places.
pub open spec fn sorted_edits(t: TreeView, lang: LanguageKind) -> Seq<EditView> {
    splice::by_place(body_edits(t, lang))
}

/// A file without the bodies of its functions.
pub open spec fn decapitated(t: TreeView, lang: LanguageKind) -> Seq<char> {
    splice::spliced(t.src, sorted_edits(t, lang), 0)
}

/// The lines of a file that each line of it without the bodies of its functions comes from.
pub open spec fn decapitated_lines(t: TreeView, lang: LanguageKind) -> Seq<(int, int)> {
    splice::line_spans(decapitated(t, lang), splice::spliced_rows(t.src, sorted_edits(t, lang), 0))
}

/// Source text without function bodies, and where it comes from.
#[derive(Debug, Clone)]
pub struct DecapitatedSource {
    pub text: String,
    /// For each line of `text`, the first and the last line of the source that it was made
    /// from, counted from one. They are the same for a line that was left alone.
    pub line_map: Vec<(u32, u32)>,
}

impl DecapitatedSource {
    /// Whether this is the source itself.
    pub open spec fn is_source(self, content: Seq<char>) -> bool {
        self.text@ == content && splice::map_view(self.line_map@) == splice::identity_spans(content)
    }

    /// Whether this is the stub that stands for a file that was not parsed.
    pub open spec fn is_stub(self, content: Seq<char>) -> bool {
        let n = text::lines(content).len() as int;
        &&& self.text@ == AstDecapitator::BOUNDED_ERROR_STUB@
        &&& splice::map_view(self.line_map@) == seq![
            (
                1int,
                splice::line_number(
                    if n > 0 {
                        n - 1
                    } else {
                        0
                    },
                ),
            ),
        ]
    }

    /// Whether this is the file of a syntax tree without its function bodies.
    pub open spec fn is_decapitated(self, t: TreeView, lang: LanguageKind) -> bool {
        self.text@ == decapitated(t, lang) && splice::map_view(self.line_map@) == decapitated_lines(t, lang)
    }
}

/// Whether a file is given back as it is, without being parsed.
pub open spec fn is_left_alone(content: Seq<char>, lang: LanguageKind, include_body: bool) -> bool {
    ||| include_body
    ||| lang == LanguageKind::Protobuf
    ||| lang == LanguageKind::Yaml
    ||| lang == LanguageKind::Unknown && syntax::byte_len(content) <= 1024
}

/// Takes the bodies out of functions and leaves their signatures, comments and annotations.
pub struct AstDecapitator;

impl AstDecapitator {
    /// What stands for a file that could not be parsed in time.
    pub const BOUNDED_ERROR_STUB: &'static str =
        "// [MeshMCP Warning: AST decapitation bounded or parser timeout (>15ms). Body stripped to protect context window.]\n";

    /// A file of the given language without the bodies of its functions.
    pub fn decapitate_auto(content: &str, lang_kind: LanguageKind, include_body: bool) -> (r: String)
        ensures
            is_left_alone(content@, lang_kind, include_body) ==> r@ == content@,
            !is_left_alone(content@, lang_kind, include_body) ==> {
                ||| r@ == Self::BOUNDED_ERROR_STUB@
                ||| exists|t: TreeView| #[trigger]
                    guard::tree_of(lang_kind, AstGuard::PARSER_TIMEOUT_MICROS, content@, t) && r@ == decapitated(t, lang_kind)
            },
            lang_kind == LanguageKind::Unknown && !is_left_alone(content@, lang_kind, include_body) ==> r@
                == Self::BOUNDED_ERROR_STUB@,
    {
        Self::decapitate_auto_mapped(content, lang_kind, include_body).text
    }

    /// The text that a parser makes a tree of, without the bodies of its functions.
    pub fn decapitate(content: &str, lang_kind: LanguageKind, parser: &mut tree_sitter::Parser, include_body: bool) -> (r: String)
        ensures
            include_body ==> r@ == content@,
            !include_body ==> exists|done: bool|
                match #[trigger] syntax::outcome(*old(parser), content@, done) {
                    Some(t) => r@ == decapitated(t, lang_kind),
                    None => r@ == Self::BOUNDED_ERROR_STUB@,
                },
    {
        if include_body {
            return text::copy(content);
        }
        match syntax::parse(parser, content) {
            Some(tree) => {
                let t = SyntaxTree::of(&tree, content);
                assert(syntax::outcome(*old(parser), content@, true) == Some(t@));
                Self::decapitate_tree(&t, lang_kind).text
            },
            None => {
                assert(syntax::outcome(*old(parser), content@, false) is None);
                text::copy(Self::BOUNDED_ERROR_STUB)
            },
        }
    }

    /// A file of the given language without the bodies of its functions, and for each line of
    /// it the lines of the file that it comes from.
    pub fn decapitate_auto_mapped(content: &str, lang_kind: LanguageKind, include_body: bool) -> (r: DecapitatedSource)
        ensures
            is_left_alone(content@, lang_kind, include_body) ==> r.is_source(content@),
            !is_left_alone(content@, lang_kind, include_body) ==> {
                ||| r.is_stub(content@)
                ||| exists|t: TreeView| #[trigger]
                    guard::tree_of(lang_kind, AstGuard::PARSER_TIMEOUT_MICROS, content@, t) && r.is_decapitated(t, lang_kind)
            },
            lang_kind == LanguageKind::Unknown && !is_left_alone(content@, lang_kind, include_body) ==> r.is_stub(content@),
    {
        proof {
            syntax::law_byte_len_is_utf8_len(content@);
        }
        if include_body {
            return Self::source(content);
        }
        match lang_kind {
            LanguageKind::Protobuf => return Self::source(content),
            LanguageKind::Yaml => return Self::source(content),
            LanguageKind::Unknown => return if content.as_bytes().len() > 1024 {
                Self::stub(content)
            } else {
                Self::source(content)
            },
            _ => {},
        }
        match AstGuard::parse_with(lang_kind, content, AstGuard::PARSER_TIMEOUT_MICROS) {
            ParseOutcome::Parsed(tree) => {
                let t = SyntaxTree::of(&tree, content);
                Self::decapitate_tree(&t, lang_kind)
            },
            ParseOutcome::ParseFailed => Self::stub(content),
            ParseOutcome::NoGrammar => Self::stub(content),
        }
    }

    fn source(content: &str) -> (r: DecapitatedSource)
        ensures
            r.is_source(content@),
    {
        let chars = text::chars_of(content);
        DecapitatedSource { text: text::copy(content), line_map: splice::identity_line_map(chars.as_slice()) }
    }

    fn stub(content: &str) -> (r: DecapitatedSource)
        ensures
            r.is_stub(content@),
    {
        let chars = text::chars_of(content);
        let ls = text::lines_of(chars.as_slice());
        assert(text::texts(ls@).len() == ls@.len());
        let last = if ls.len() > 0 {
            ls.len() - 1
        } else {
            0
        };
        let mut line_map: Vec<(u32, u32)> = Vec::new();
        line_map.push((1, splice::number_of_row(last)));
        let r = DecapitatedSource { text: text::copy(Self::BOUNDED_ERROR_STUB), line_map };
        assert(splice::map_view(r.line_map@) == seq![(1int, splice::line_number(last as int))]);
        r
    }

    /// The file of a syntax tree without the bodies of its functions, and for each line of it
    /// the lines of the file that it comes from.
    pub fn decapitate_tree(t: &SyntaxTree, lang_kind: LanguageKind) -> (r: DecapitatedSource)
        ensures
            r.is_decapitated(t@, lang_kind),
    {
        let rules = BodyRules { lang: lang_kind };
        let mut edits = EditList { items: Vec::new() };
        assert(edits@ == Seq::<EditView>::empty());
        syntax::run_tree(&rules, t, AstGuard::MAX_NESTING_DEPTH, &(), &mut edits);
        let (text, line_map) = splice::apply_replacements(t, edits.items);
        DecapitatedSource { text, line_map }
    }

    /// Whether nodes of the kind of node `i` declare functions with bodies.
    fn is_function(t: &SyntaxTree, lang: LanguageKind, i: usize) -> (r: bool)
        requires
            t@.valid(i as int),
        ensures
            r == declares_function(lang, t@.kind(i as int)),
    {
        match lang {
            LanguageKind::Java => t.kind_is(i, "method_declaration") || t.kind_is(i, "constructor_declaration"),
            LanguageKind::CSharp => t.kind_is(i, "method_declaration") || t.kind_is(i, "constructor_declaration"),
            LanguageKind::Go => t.kind_is(i, "function_declaration") || t.kind_is(i, "method_declaration"),
            LanguageKind::TypeScript => t.kind_is(i, "method_definition") || t.kind_is(i, "function_declaration") || t.kind_is(
                i,
                "function_item",
            ) || t.kind_is(i, "arrow_function"),
            LanguageKind::Rust => t.kind_is(i, "function_item"),
            LanguageKind::Cpp => t.kind_is(i, "function_definition"),
            LanguageKind::Python => t.kind_is(i, "function_definition"),
            LanguageKind::Scala => t.kind_is(i, "function_definition"),
            LanguageKind::Kotlin => t.kind_is(i, "function_declaration"),
            LanguageKind::Swift => t.kind_is(i, "function_declaration"),
            LanguageKind::Ruby => t.kind_is(i, "method") || t.kind_is(i, "singleton_method"),
            LanguageKind::Php => t.kind_is(i, "method_declaration") || t.kind_is(i, "function_definition"),
            LanguageKind::Protobuf => false,
            LanguageKind::Yaml => false,
            LanguageKind::Unknown => false,
        }
    }

    /// The body of the function that node `i` declares.
    fn body(t: &SyntaxTree, lang: LanguageKind, i: usize) -> (r: Option<usize>)
        requires
            t@.valid(i as int),
        ensures
            text::opt_int(r) == body_of(t@, lang, i as int),
            r matches Some(k) ==> t@.valid(k as int),
    {
        if lang == LanguageKind::Kotlin {
            t.child_of_kind(i, "function_body")
        } else {
            t.field(i, "body")
        }
    }

    /// Adds the edits at node `i`; whether they end the walk there.
    fn collect_node(t: &SyntaxTree, lang: LanguageKind, i: usize, out: &mut Vec<Edit>) -> (r: bool)
        requires
            t@.valid(i as int),
        ensures
            splice::edits_view(final(out)@) == splice::edits_view(old(out)@) + node_edits(t@, lang, i as int).0,
            r == node_edits(t@, lang, i as int).1,
    {
        let ghost start = splice::edits_view(out@);
        assert(start + Seq::<EditView>::empty() == start);
        if !Self::is_function(t, lang, i) {
            return false;
        }
        let b = match Self::body(t, lang, i) {
            Some(b) => b,
            None => return false,
        };
        if lang == LanguageKind::TypeScript {
            return Self::collect_typescript(t, i, b, out);
        }
        if lang == LanguageKind::Python {
            Self::collect_python(t, i, b, out);
            return true;
        }
        let text = Self::replacement(t, lang, b);
        let e = Self::replace_node(t, b, text);
        assert(start + seq![e@] == start.push(e@));
        splice::push_edit(out, e);
        true
    }

    /// The edit that puts a text in the place of node `i`.
    fn replace_node(t: &SyntaxTree, i: usize, text: &str) -> (r: Edit)
        requires
            t@.valid(i as int),
        ensures
            r@ == replacing(t@, i as int, text@),
    {
        let n = t.node(i);
        Edit { start: n.start_byte, end: n.end_byte, text: text::copy(text) }
    }

    /// What goes in the place of a body, in languages that put one text there.
    fn replacement(t: &SyntaxTree, lang: LanguageKind, b: usize) -> (r: &'static str)
        requires
            t@.valid(b as int),
        ensures
            r@ == stripped_body(t@, lang, b as int),
    {
        match lang {
            LanguageKind::Kotlin => match t.first_char(b) {
                Some(c) => if c == '{' {
                    "{ /* stripped */ }"
                } else {
                    "= /* stripped */"
                },
                None => "= /* stripped */",
            },
            LanguageKind::Ruby => "\n  # stripped\n",
            LanguageKind::Scala => if t.kind_is(b, "block") {
                "{ /* stripped */ }"
            } else {
                "/* stripped */"
            },
            _ => "{ /* stripped */ }",
        }
    }

    /// Adds the edits for a TypeScript function; whether the body has gone.
    fn collect_typescript(t: &SyntaxTree, i: usize, b: usize, out: &mut Vec<Edit>) -> (r: bool)
        requires
            t@.valid(i as int),
            t@.valid(b as int),
        ensures
            splice::edits_view(final(out)@) == splice::edits_view(old(out)@) + function_edits(t@, LanguageKind::TypeScript, i as int, b as int).0,
            r == function_edits(t@, LanguageKind::TypeScript, i as int, b as int).1,
    {
        let ghost start = splice::edits_view(out@);
        let ghost inserted = made_up_type(t@, i as int, b as int);
        assert(start + Seq::<EditView>::empty() == start);
        if t.field(i, "return_type").is_none() {
            let keys = Self::extract_returned_object_keys(t, b);
            let ghost kv = text::strings(keys@);
            assert(kv.len() == keys@.len());
            let place = match t.field(i, "parameters") {
                Some(p) => Some(p),
                None => t.field(i, "parameter"),
            };
            match place {
                Some(p) => if keys.len() > 0 {
                    let at = t.node(p).end_byte;
                    let e = Edit { start: at, end: at, text: Self::type_of_keys(&keys) };
                    assert(inserted == seq![e@]);
                    assert(start + seq![e@] == start.push(e@));
                    splice::push_edit(out, e);
                },
                None => {},
            }
        }
        assert(splice::edits_view(out@) == start + inserted);
        if t.kind_is(b, "statement_block") {
            let e = Self::replace_node(t, b, "{ /* stripped */ }");
            assert(start + inserted.push(e@) == (start + inserted).push(e@));
            splice::push_edit(out, e);
            true
        } else if t.kind_is(i, "arrow_function") {
            let e = Self::replace_node(t, b, "/* stripped */");
            assert(start + inserted.push(e@) == (start + inserted).push(e@));
            splice::push_edit(out, e);
            true
        } else {
            false
        }
    }

    /// An object type with the given keys.
    fn type_of_keys(keys: &Vec<String>) -> (r: String)
        ensures
            r@ == object_type(text::strings(keys@)),
    {
        let ghost kv = text::strings(keys@);
        let ghost all = kv.map_values(|k: Seq<char>| k + ": any"@);
        let mut fields: Vec<String> = Vec::new();
        let any = text::chars_of(": any");
        let mut j: usize = 0;
        assert(text::strings(fields@) == all.take(0));
        while j < keys.len()
            invariant
                0 <= j <= keys@.len(),
                kv == text::strings(keys@),
                all == kv.map_values(|k: Seq<char>| k + ": any"@),
                any@ == ": any"@,
                text::strings(fields@) == all.take(j as int),
            decreases keys@.len() - j,
        {
            let mut field = text::copy(keys[j].as_str());
            text::push_chars(&mut field, any.as_slice());
            assert(kv[j as int] == keys@[j as int]@);
            assert(all.take(j + 1) == all.take(j as int).push(all[j as int]));
            crate::model::push_string(&mut fields, field);
            j += 1;
        }
        assert(all.take(j as int) == all);
        let inner = text::joined_list(&fields, ", ");
        let chars = text::chars_of(inner.as_str());
        text::wrapped(": { ", chars.as_slice(), " }")
    }

    /// Adds the edits for a Python function.
    fn collect_python(t: &SyntaxTree, i: usize, b: usize, out: &mut Vec<Edit>)
        requires
            t@.valid(i as int),
            t@.valid(b as int),
        ensures
            splice::edits_view(final(out)@) == splice::edits_view(old(out)@) + python_edits(t@, i as int, b as int),
    {
        let ghost start = splice::edits_view(out@);
        assert(start + Seq::<EditView>::empty() == start);
        match Self::python_docstring(t, b) {
            Some(d) => {
                let doc = t.node(d);
                let body = t.node(b);
                if doc.end_byte < body.end_byte {
                    let text = if doc.start_row == t.node(i).start_row {
                        text::copy("; ...")
                    } else {
                        let indent = Self::indent(doc.start_column);
                        text::wrapped("\n", indent.as_slice(), "...")
                    };
                    let e = Edit { start: doc.end_byte, end: body.end_byte, text };
                    assert(start + seq![e@] == start.push(e@));
                    splice::push_edit(out, e);
                }
            },
            None => {
                let e = Self::replace_node(t, b, " ...");
                assert(start + seq![e@] == start.push(e@));
                splice::push_edit(out, e);
            },
        }
    }

    /// A number of spaces.
    fn indent(n: usize) -> (r: Vec<char>)
        ensures
            r@ == spaces(n as int),
    {
        let mut out: Vec<char> = Vec::new();
        let mut j: usize = 0;
        while j < n
            invariant
                0 <= j <= n,
                out@ == spaces(j as int),
            decreases n - j,
        {
            out.push(' ');
            assert(out@ == spaces(j + 1));
            j += 1;
        }
        out
    }

    /// The docstring of a Python body.
    fn python_docstring(t: &SyntaxTree, b: usize) -> (r: Option<usize>)
        requires
            t@.valid(b as int),
        ensures
            text::opt_int(r) == docstring(t@, b as int),
            r matches Some(k) ==> t@.valid(k as int),
    {
        let s = match Self::statement(t, b) {
            Some(s) => s,
            None => return None,
        };
        if !t.kind_is(s, "expression_statement") {
            return None;
        }
        match t.named_child(s, 0) {
            Some(e) => if t.kind_is(e, "string") || t.kind_is(e, "concatenated_string") {
                Some(s)
            } else {
                None
            },
            None => None,
        }
    }

    /// The first statement of a body.
    fn statement(t: &SyntaxTree, b: usize) -> (r: Option<usize>)
        requires
            t@.valid(b as int),
        ensures
            text::opt_int(r) == first_statement(t@, t@.named_children(b as int)),
            r matches Some(k) ==> t@.valid(k as int),
    {
        let ks = t.named_children(b);
        let ghost kv = syntax::ints(ks@);
        let mut j: usize = 0;
        assert(kv.skip(0) == kv);
        while j < ks.len()
            invariant
                0 <= j <= ks@.len(),
                kv == syntax::ints(ks@),
                kv == t@.named_children(b as int),
                forall|j: int| 0 <= j < ks@.len() ==> t@.valid(#[trigger] ks@[j] as int),
                first_statement(t@, kv) == first_statement(t@, kv.skip(j as int)),
            decreases ks@.len() - j,
        {
            proof {
                syntax::lemma_skip_step(kv, j as int);
                assert(kv[j as int] == ks@[j as int] as int);
            }
            if !t.kind_is(ks[j], "comment") {
                return Some(ks[j]);
            }
            j += 1;
        }
        None
    }

    /// The keys of the objects that a function body returns, sorted, each once.
    fn extract_returned_object_keys(t: &SyntaxTree, b: usize) -> (r: Vec<String>)
        requires
            t@.valid(b as int),
        ensures
            text::strings(r@) == returned_keys(t@, b as int),
    {
        let mut keys: Vec<String> = Vec::new();
        assert(text::strings(keys@) == Seq::<Seq<char>>::empty());
        Self::collect_keys_recursive(t, b, &mut keys, 0);
        assert(text::strings(keys@) == value_keys(t@, b as int, 0));
        order::sort_texts(&keys)
    }

    /// Adds the keys of the object literals that node `i` evaluates to.
    fn collect_keys_recursive(t: &SyntaxTree, i: usize, keys: &mut Vec<String>, depth: usize)
        requires
            t@.valid(i as int),
            depth <= 9,
        ensures
            text::strings(final(keys)@) == text::strings(old(keys)@) + value_keys(t@, i as int, depth as int),
        decreases 9 - depth,
    {
        let ghost start = text::strings(keys@);
        assert(start + Seq::<Seq<char>>::empty() == start);
        if depth > 8 {
            return;
        }
        if t.kind_is(i, "object") {
            Self::collect_object_keys(t, i, keys);
            return;
        }
        let ks = Self::values(t, i);
        let ghost kv = syntax::ints(ks@);
        let mut j: usize = 0;
        assert(start + all_keys(t@, kv.take(0), depth + 1) == start);
        while j < ks.len()
            invariant
                0 <= j <= ks@.len(),
                depth <= 8,
                kv == syntax::ints(ks@),
                forall|j: int| 0 <= j < ks@.len() ==> t@.valid(#[trigger] ks@[j] as int),
                text::strings(keys@) == start + all_keys(t@, kv.take(j as int), depth + 1),
            decreases ks@.len() - j,
        {
            proof {
                syntax::lemma_take_step(kv, j as int);
                assert(kv[j as int] == ks@[j as int] as int);
            }
            let ghost rest = all_keys(t@, kv.take(j as int), depth + 1);
            Self::collect_keys_recursive(t, ks[j], keys, depth + 1);
            assert((start + rest) + value_keys(t@, kv[j as int], depth + 1) == start + (rest + value_keys(t@, kv[j as int], depth + 1)));
            j += 1;
        }
        assert(kv.take(j as int) == kv);
    }

    /// The nodes to look for object literals in, given one that is none itself.
    fn values(t: &SyntaxTree, i: usize) -> (r: Vec<usize>)
        requires
            t@.valid(i as int),
        ensures
            syntax::ints(r@) == inner_values(t@, i as int),
            forall|j: int| 0 <= j < r@.len() ==> t@.valid(#[trigger] r@[j] as int),
    {
        if t.kind_is(i, "parenthesized_expression") || t.kind_is(i, "as_expression") {
            return t.named_children(i);
        }
        let mut out: Vec<usize> = Vec::new();
        if !t.kind_is(i, "statement_block") {
            assert(syntax::ints(out@) == Seq::<int>::empty());
            return out;
        }
        let ks = t.children(i);
        let ghost kv = syntax::ints(ks@);
        let mut j: usize = 0;
        assert(syntax::ints(out@) == returned(t@, kv.take(0)));
        while j < ks.len()
            invariant
                0 <= j <= ks@.len(),
                kv == syntax::ints(ks@),
                forall|j: int| 0 <= j < ks@.len() ==> t@.valid(#[trigger] ks@[j] as int),
                forall|j: int| 0 <= j < out@.len() ==> t@.valid(#[trigger] out@[j] as int),
                syntax::ints(out@) == returned(t@, kv.take(j as int)),
            decreases ks@.len() - j,
        {
            proof {
                syntax::lemma_take_step(kv, j as int);
                assert(kv[j as int] == ks@[j as int] as int);
            }
            if t.kind_is(ks[j], "return_statement") {
                match t.named_child(ks[j], 0) {
                    Some(v) => {
                        let ghost before = out@;
                        out.push(v);
                        assert(syntax::ints(out@) == syntax::ints(before).push(v as int));
                    },
                    None => {},
                }
            }
            j += 1;
        }
        assert(kv.take(j as int) == kv);
        out
    }

    /// Adds the keys of the object literal at node `i`.
    fn collect_object_keys(t: &SyntaxTree, i: usize, keys: &mut Vec<String>)
        requires
            t@.valid(i as int),
        ensures
            text::strings(final(keys)@) == text::strings(old(keys)@) + object_keys(t@, t@.children(i as int)),
    {
        let ghost start = text::strings(keys@);
        let ks = t.children(i);
        let ghost kv = syntax::ints(ks@);
        let mut j: usize = 0;
        assert(start + object_keys(t@, kv.take(0)) == start);
        while j < ks.len()
            invariant
                0 <= j <= ks@.len(),
                kv == syntax::ints(ks@),
                forall|j: int| 0 <= j < ks@.len() ==> t@.valid(#[trigger] ks@[j] as int),
                text::strings(keys@) == start + object_keys(t@, kv.take(j as int)),
            decreases ks@.len() - j,
        {
            proof {
                syntax::lemma_take_step(kv, j as int);
                assert(kv[j as int] == ks@[j as int] as int);
            }
            let ghost rest = object_keys(t@, kv.take(j as int));
            match Self::key_of_part(t, ks[j]) {
                Some(k) => {
                    assert(start + rest.push(k@) == (start + rest).push(k@));
                    crate::model::push_string(keys, k);
                },
                None => {},
            }
            j += 1;
        }
        assert(kv.take(j as int) == kv);
    }

    /// The key that a part of an object literal gives.
    fn key_of_part(t: &SyntaxTree, i: usize) -> (r: Option<String>)
        requires
            t@.valid(i as int),
        ensures
            text::opt_string(r) == part_key(t@, i as int),
    {
        if t.kind_is(i, "pair") {
            match t.field(i, "key") {
                Some(k) => Self::key(t, k),
                None => None,
            }
        } else if t.kind_is(i, "shorthand_property_identifier") || t.kind_is(i, "shorthand_property_identifier_pattern") {
            Self::key(t, i)
        } else {
            None
        }
    }

    /// The key that node `i` gives, where its text is a plain property key.
    fn key(t: &SyntaxTree, i: usize) -> (r: Option<String>)
        requires
            t@.valid(i as int),
        ensures
            text::opt_string(r) == key_text(t@, i as int),
    {
        let s = match t.text(i) {
            Some(s) => text::trimmed(s),
            None => return None,
        };
        if Self::is_plain_key(s) {
            Some(text::string_of(s))
        } else {
            None
        }
    }

    fn is_plain_key(s: &[char]) -> (r: bool)
        ensures
            r == is_key(s@),
    {
        let mut j: usize = 0;
        while j < s.len()
            invariant
                0 <= j <= s@.len(),
                forall|m: int| 0 <= m < j ==> text::in_identifier(#[trigger] s@[m]) || s@[m] == '$',
            decreases s@.len() - j,
        {
            if !(text::is_identifier_char(s[j]) || s[j] == '$') {
                assert(!(text::in_identifier(s@[j as int]) || s@[j as int] == '$'));
                return false;
            }
            j += 1;
        }
        s.len() > 0
    }
}

/// The stub for a file that was not parsed takes at most 256 bytes.
pub proof fn law_stub_is_bounded()
    ensures
        syntax::byte_len(AstDecapitator::BOUNDED_ERROR_STUB@) <= 256,
{
    reveal_strlit(
        "// [MeshMCP Warning: AST decapitation bounded or parser timeout (>15ms). Body stripped to protect context window.]\n",
    );
    let s = AstDecapitator::BOUNDED_ERROR_STUB@;
    assert(vstd::utf8::is_ascii_chars(s));
    vstd::utf8::is_ascii_chars_encode_utf8(s);
    syntax::law_byte_len_is_utf8_len(s);
}

} // verus!
