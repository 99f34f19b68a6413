//! The grammars that files are parsed with, and parsers for them.
use vstd::prelude::*;

verus! {

/// `tree_sitter::Language`, a grammar.
#[verifier::external_type_specification]
#[verifier::external_body]
pub struct ExLanguage(tree_sitter::Language);

/// The name that a grammar gives itself, in the `grammar.json` that it is generated from. Not
/// every grammar carries it along when it runs.
pub uninterp spec fn grammar(l: tree_sitter::Language) -> Seq<char>;

/// The language that the crate of the grammar with the given name exports.
pub uninterp spec fn exported(name: Seq<char>) -> tree_sitter::Language;

/// Why a grammar cannot be given to a parser, if it cannot.
pub uninterp spec fn binding_error(l: tree_sitter::Language) -> Option<Seq<char>>;

/// The name of the grammar that a parser has.
pub uninterp spec fn parser_grammar(p: tree_sitter::Parser) -> Option<Seq<char>>;

/// The time, in microseconds, after which a parser gives up; none if it is zero.
pub uninterp spec fn parser_timeout(p: tree_sitter::Parser) -> u64;

/// `tree_sitter_java::LANGUAGE`, always the same grammar, which is named `java`.
#[verifier::external_body]
pub(crate) fn java() -> (r: tree_sitter::Language)
    ensures
        r == exported("java"@),
        grammar(r) == "java"@,
{
    tree_sitter_java::LANGUAGE.into()
}

/// `tree_sitter_go::LANGUAGE`, always the same grammar, which is named `go`.
#[verifier::external_body]
pub(crate) fn go() -> (r: tree_sitter::Language)
    ensures
        r == exported("go"@),
        grammar(r) == "go"@,
{
    tree_sitter_go::LANGUAGE.into()
}

/// `tree_sitter_python::LANGUAGE`, always the same grammar, which is named `python`.
#[verifier::external_body]
pub(crate) fn python() -> (r: tree_sitter::Language)
    ensures
        r == exported("python"@),
        grammar(r) == "python"@,
{
    tree_sitter_python::LANGUAGE.into()
}

/// `tree_sitter_typescript::LANGUAGE_TYPESCRIPT`, always the same grammar, which is named `typescript`.
#[verifier::external_body]
pub(crate) fn typescript() -> (r: tree_sitter::Language)
    ensures
        r == exported("typescript"@),
        grammar(r) == "typescript"@,
{
    tree_sitter_typescript::LANGUAGE_TYPESCRIPT.into()
}

/// `tree_sitter_rust::LANGUAGE`, always the same grammar, which is named `rust`.
#[verifier::external_body]
pub(crate) fn rust() -> (r: tree_sitter::Language)
    ensures
        r == exported("rust"@),
        grammar(r) == "rust"@,
{
    tree_sitter_rust::LANGUAGE.into()
}

/// `tree_sitter_cpp::LANGUAGE`, always the same grammar, which is named `cpp`.
#[verifier::external_body]
pub(crate) fn cpp() -> (r: tree_sitter::Language)
    ensures
        r == exported("cpp"@),
        grammar(r) == "cpp"@,
{
    tree_sitter_cpp::LANGUAGE.into()
}

/// `tree_sitter_kotlin_ng::LANGUAGE`, always the same grammar, which is named `kotlin`.
#[verifier::external_body]
pub(crate) fn kotlin() -> (r: tree_sitter::Language)
    ensures
        r == exported("kotlin"@),
        grammar(r) == "kotlin"@,
{
    tree_sitter_kotlin_ng::LANGUAGE.into()
}

/// `tree_sitter_c_sharp::LANGUAGE`, always the same grammar, which is named `c_sharp`.
#[verifier::external_body]
pub(crate) fn csharp() -> (r: tree_sitter::Language)
    ensures
        r == exported("c_sharp"@),
        grammar(r) == "c_sharp"@,
{
    tree_sitter_c_sharp::LANGUAGE.into()
}

/// `tree_sitter_ruby::LANGUAGE`, always the same grammar, which is named `ruby`.
#[verifier::external_body]
pub(crate) fn ruby() -> (r: tree_sitter::Language)
    ensures
        r == exported("ruby"@),
        grammar(r) == "ruby"@,
{
    tree_sitter_ruby::LANGUAGE.into()
}

/// `tree_sitter_php::LANGUAGE_PHP`, always the same grammar, which is named `php`.
#[verifier::external_body]
pub(crate) fn php() -> (r: tree_sitter::Language)
    ensures
        r == exported("php"@),
        grammar(r) == "php"@,
{
    tree_sitter_php::LANGUAGE_PHP.into()
}

/// `tree_sitter_swift::LANGUAGE`, always the same grammar, which is named `swift`.
#[verifier::external_body]
pub(crate) fn swift() -> (r: tree_sitter::Language)
    ensures
        r == exported("swift"@),
        grammar(r) == "swift"@,
{
    tree_sitter_swift::LANGUAGE.into()
}

/// `tree_sitter_scala::LANGUAGE`, always the same grammar, which is named `scala`.
#[verifier::external_body]
pub(crate) fn scala() -> (r: tree_sitter::Language)
    ensures
        r == exported("scala"@),
        grammar(r) == "scala"@,
{
    tree_sitter_scala::LANGUAGE.into()
}

/// `tree_sitter_proto::LANGUAGE`, always the same grammar, which is named `proto`.
#[verifier::external_body]
pub(crate) fn proto() -> (r: tree_sitter::Language)
    ensures
        r == exported("proto"@),
        grammar(r) == "proto"@,
{
    tree_sitter_proto::LANGUAGE.into()
}

/// `Parser::new`: a parser without a grammar that never gives up.
#[verifier::external_body]
pub(crate) fn new_parser() -> (r: tree_sitter::Parser)
    ensures
        parser_grammar(r) is None,
        parser_timeout(r) == 0,
{
    tree_sitter::Parser::new()
}

/// `Parser::set_language`, with its error as a text. It fails on the grammars whose version
/// the parser does not know, and leaves the parser as it was there.
#[verifier::external_body]
pub(crate) fn set_language(parser: &mut tree_sitter::Parser, lang: &tree_sitter::Language) -> (r: Result<(), String>)
    ensures
        (match r {
            Ok(_) => None,
            Err(e) => Some(e@),
        }) == binding_error(*lang),
        r is Ok ==> parser_grammar(*final(parser)) == Some(grammar(*lang)) && parser_timeout(*final(parser)) == parser_timeout(
            *old(parser),
        ),
        r is Err ==> *final(parser) == *old(parser),
{
    parser.set_language(lang).map_err(|e| e.to_string())
}

/// `Parser::set_timeout_micros`: sets the time after which the parser gives up.
#[allow(deprecated)]
#[verifier::external_body]
pub(crate) fn set_timeout(parser: &mut tree_sitter::Parser, micros: u64)
    ensures
        parser_timeout(*final(parser)) == micros,
        parser_grammar(*final(parser)) == parser_grammar(*old(parser)),
{
    parser.set_timeout_micros(micros)
}

/// `tree_sitter::QueryError`, why a query does not compile.
#[verifier::external_type_specification]
#[verifier::external_body]
pub struct ExQueryError(tree_sitter::QueryError);

/// How a query error reads.
pub uninterp spec fn query_error_text(e: tree_sitter::QueryError) -> Seq<char>;

/// The `Display` of `tree_sitter::QueryError`.
#[verifier::external_body]
pub(crate) fn text_of_query_error(e: &tree_sitter::QueryError) -> (r: String)
    ensures
        r@ == query_error_text(*e),
{
    e.to_string()
}

} // verus!
