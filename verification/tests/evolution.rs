use mesh_parsers::languages::proto::{ProtoExtractor, WireSchemaError};
use mesh_parsers::languages::wire::{
    diff_wire_schemas, wire_types_compatible, ProtoWireSchema, WireRule,
};

fn schema(body: &str) -> ProtoWireSchema {
    ProtoExtractor::wire_schema(&format!("syntax = \"proto3\";\n{body}\n")).expect("schema")
}

#[test]
fn a_schema_does_not_differ_from_itself() {
    let s = schema("enum E { A = 0; }\nmessage M { reserved 4; E e = 1; map<string, M> m = 2; }\nmessage N { M m = 1; }");
    let diff = diff_wire_schemas(&s, &s);
    assert!(diff.breaking.is_empty());
    assert!(diff.removed_messages.is_empty());
}

#[test]
fn compatible_evolution_breaks_nothing() {
    let old = schema("message M { int32 a = 1; int32 b = 2; int32 c = 3; }");
    let new = schema("message M { reserved 2; reserved \"c\"; int32 a = 1; string d = 9; }\nmessage N {}");
    let diff = diff_wire_schemas(&old, &new);
    assert!(diff.breaking.is_empty(), "{:?}", diff.breaking);
    assert!(diff.removed_messages.is_empty());
}

#[test]
fn changes_stand_in_the_order_of_their_numbers() {
    let old = schema("message M { reserved 8; int32 z = 7; int32 y = 3; int32 x = 1; }");
    let new = schema("message M { string x = 1; int32 q = 7; int32 n = 8; }");
    let diff = diff_wire_schemas(&old, &new);
    let found: Vec<(u32, WireRule)> = diff.breaking.iter().map(|c| (c.number, c.rule)).collect();
    assert_eq!(
        found,
        [
            (1, WireRule::IncompatibleType),
            (3, WireRule::DeletedWithoutReserved),
            (7, WireRule::FieldNumberReused),
            (8, WireRule::FieldNumberReused),
        ]
    );
    assert_eq!(
        diff.breaking[0].detail,
        "`x`: `int32` -> `string` (encodings are not interchangeable)"
    );
    assert_eq!(
        diff.breaking[1].detail,
        "`y` (`int32`) was removed; add `reserved 3;` and `reserved \"y\";` so the number is never reused"
    );
    assert_eq!(
        diff.breaking[2].detail,
        "was `z` (`int32`), now `q` (`int32`): data written by either side is read as the other field"
    );
    assert_eq!(
        diff.breaking[3].detail,
        "number 8 was `reserved` in the base and is now `n` (`int32`): old data for the deleted field is read as this one"
    );
}

#[test]
fn cardinality_changes_are_named() {
    let old = schema("message M { int32 a = 1; }");
    let new = schema("message M { repeated int32 a = 1; }");
    let diff = diff_wire_schemas(&old, &new);
    assert_eq!(diff.breaking.len(), 1);
    assert!(diff.breaking[0].detail.starts_with("`a`: `int32` -> `repeated int32` (cardinality "));
}

#[test]
fn compatibility_goes_both_ways_and_holds_of_each_type_itself() {
    let types = ["int32", "sint64", "fixed32", "double", "string", "bytes", "a.B", ".a.B", "B", "E"];
    let enums = ["E".to_string()];
    for a in types {
        assert!(wire_types_compatible(a, &enums, a, &enums), "{a}");
        for b in types {
            assert_eq!(
                wire_types_compatible(a, &enums, b, &enums),
                wire_types_compatible(b, &enums, a, &enums),
                "{a} {b}"
            );
        }
    }
}

#[test]
fn integer_literals_are_decimal_octal_or_hexadecimal() {
    assert_eq!(ProtoExtractor::parse_int_lit("42"), Some(42));
    assert_eq!(ProtoExtractor::parse_int_lit("0"), Some(0));
    assert_eq!(ProtoExtractor::parse_int_lit("012"), Some(10));
    assert_eq!(ProtoExtractor::parse_int_lit("0x1F"), Some(31));
    assert_eq!(ProtoExtractor::parse_int_lit("08"), None);
    assert_eq!(ProtoExtractor::parse_int_lit(""), None);
    assert_eq!(ProtoExtractor::parse_int_lit("4294967295"), Some(4294967295));
    assert_eq!(ProtoExtractor::parse_int_lit("4294967296"), None);
}

#[test]
fn files_that_the_guard_refuses_have_no_schema() {
    let refused = |source: &str| ProtoExtractor::wire_schema(source).expect_err("refused");
    assert_eq!(
        refused("message M {\0}").message(),
        "rejected by the parser guard: binary content (null byte)"
    );
    assert_eq!(
        refused(&format!("// {}\n", "x".repeat(2000))),
        WireSchemaError::Rejected("a line exceeds 1,024 bytes")
    );
    assert_eq!(
        refused(&"(".repeat(65)),
        WireSchemaError::Rejected("nesting depth exceeds 64")
    );
    assert_eq!(
        refused(&"// comment\n".repeat(150_000)),
        WireSchemaError::Rejected("file exceeds the 1.5 MB schema budget")
    );
}

#[test]
fn syntax_errors_name_their_line() {
    let err = ProtoExtractor::wire_schema("syntax = \"proto3\";\n\nmessage {\n}\n").expect_err("error");
    assert_eq!(err, WireSchemaError::SyntaxError(3));
    assert_eq!(err.message(), "syntax error near line 3");
    assert_eq!(
        WireSchemaError::ParseFailed.message(),
        "tree-sitter parse failed or timed out"
    );
}

#[test]
fn a_field_under_a_fresh_number_changes_no_diff() {
    let old = schema("message M { reserved 8; int32 a = 1; int32 b = 2; }\nmessage N { int32 a = 1; }");
    let new = schema("message M { string a = 1; int32 n = 8; }\nmessage O { int32 a = 1; }");
    let more = schema("message M { string a = 1; int32 n = 8; bytes z = 5; }\nmessage O { int32 a = 1; int32 b = 9; }");
    let diff = diff_wire_schemas(&old, &new);
    assert_eq!(diff.breaking.len(), 3);
    assert_eq!(diff_wire_schemas(&old, &more), diff);
}

#[test]
fn the_writings_of_a_number_agree() {
    for n in [0u32, 1, 7, 8, 9, 10, 15, 16, 255, 2047, 536_870_911, u32::MAX - 1, u32::MAX] {
        for text in [format!("{n}"), format!("0x{n:x}"), format!("0X{n:X}"), format!("0x{n:X}"), format!("0{n:o}")] {
            assert_eq!(ProtoExtractor::parse_int_lit(&text), Some(n), "{text}");
            assert_eq!(ProtoExtractor::parse_int_lit(&format!(" \n{text}\t\u{3000}")), Some(n), "{text}");
        }
    }
}
