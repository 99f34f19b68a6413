//! What holds of comparing protobuf schemas, in the words of the wire format.
use vstd::prelude::*;
use crate::languages::wire;
use crate::languages::wire::{ChangeView, FieldView, MessageView, ProtoCardinality, SchemaView, WireRule};
use crate::model;
use crate::text;

verus! {

/// The scalar types, those that are read alike next to one another.
pub open spec fn scalar(k: int) -> Seq<char> {
    if k == 0 {
        "int32"@
    } else if k == 1 {
        "uint32"@
    } else if k == 2 {
        "int64"@
    } else if k == 3 {
        "uint64"@
    } else if k == 4 {
        "bool"@
    } else if k == 5 {
        "sint32"@
    } else if k == 6 {
        "sint64"@
    } else if k == 7 {
        "fixed32"@
    } else if k == 8 {
        "sfixed32"@
    } else if k == 9 {
        "fixed64"@
    } else if k == 10 {
        "sfixed64"@
    } else if k == 11 {
        "float"@
    } else if k == 12 {
        "double"@
    } else if k == 13 {
        "string"@
    } else {
        "bytes"@
    }
}

/// Whether the scalar types numbered `k` and `l` are read alike: both among the first five, both
/// of the next two, and so on by twos, both texts, or one and the same.
pub open spec fn read_alike(k: int, l: int) -> bool {
    ||| k == l
    ||| 0 <= k <= 4 && 0 <= l <= 4
    ||| 5 <= k <= 6 && 5 <= l <= 6
    ||| 7 <= k <= 8 && 7 <= l <= 8
    ||| 9 <= k <= 10 && 9 <= l <= 10
    ||| 13 <= k <= 14 && 13 <= l <= 14
}

/// Whether a type is none of the scalar types.
pub open spec fn is_declared(ty: Seq<char>) -> bool {
    forall|k: int| 0 <= k <= 14 ==> ty != #[trigger] scalar(k)
}

proof fn lemma_scalars_differ()
    ensures
        forall|k: int, l: int| 0 <= k < l <= 14 ==> #[trigger] scalar(k) != #[trigger] scalar(l),
{
    reveal_strlit("int32");
    reveal_strlit("uint32");
    reveal_strlit("int64");
    reveal_strlit("uint64");
    reveal_strlit("bool");
    reveal_strlit("sint32");
    reveal_strlit("sint64");
    reveal_strlit("fixed32");
    reveal_strlit("sfixed32");
    reveal_strlit("fixed64");
    reveal_strlit("sfixed64");
    reveal_strlit("float");
    reveal_strlit("double");
    reveal_strlit("string");
    reveal_strlit("bytes");
    assert("int32"@[0] == 'i' && "int64"@[0] == 'i' && "float"@[0] == 'f' && "bytes"@[0] == 'b');
    assert("int32"@[3] == '3' && "int64"@[3] == '6');
    assert("uint32"@[0] == 'u' && "uint64"@[0] == 'u' && "sint32"@[0] == 's' && "sint64"@[0] == 's' && "double"@[0] == 'd'
        && "string"@[0] == 's');
    assert("uint32"@[4] == '3' && "uint64"@[4] == '6' && "sint32"@[4] == '3' && "sint64"@[4] == '6' && "string"@[4] == 'n');
    assert("fixed32"@[5] == '3' && "fixed64"@[5] == '6');
    assert("sfixed32"@[6] == '3' && "sfixed64"@[6] == '6');
    assert forall|k: int, l: int| 0 <= k < l <= 14 implies #[trigger] scalar(k) != #[trigger] scalar(l) by {
        let x = scalar(k);
        let y = scalar(l);
        if x == y {
            assert(x.len() == y.len());
            assert(x[0] == y[0] && x[3] == y[3] && x[4] == y[4] && x[5] == y[5] && x[6] == y[6]);
        }
    }
}

proof fn lemma_class_of_scalar(k: int, enums: Seq<Seq<char>>)
    requires
        0 <= k <= 14,
    ensures
        ({
            let c = wire::class_of(scalar(k), enums);
            &&& k <= 4 <==> c is Varint
            &&& 5 <= k <= 6 <==> c is ZigZag
            &&& 7 <= k <= 8 <==> c is Fixed32
            &&& 9 <= k <= 10 <==> c is Fixed64
            &&& k == 11 <==> c is Float
            &&& k == 12 <==> c is Double
            &&& k == 13 <==> c is Text
            &&& k == 14 <==> c is Bytes
        }),
{
    lemma_scalars_differ();
    let ty = scalar(k);
    assert forall|l: int| 0 <= l <= 14 && l != k implies ty != #[trigger] scalar(l) by {
        if l < k {
            assert(scalar(l) != scalar(k));
        } else {
            assert(scalar(k) != scalar(l));
        }
    }
    assert(scalar(0) == "int32"@ && scalar(1) == "uint32"@ && scalar(2) == "int64"@ && scalar(3) == "uint64"@ && scalar(4) == "bool"@);
    assert(scalar(5) == "sint32"@ && scalar(6) == "sint64"@ && scalar(7) == "fixed32"@ && scalar(8) == "sfixed32"@);
    assert(scalar(9) == "fixed64"@ && scalar(10) == "sfixed64"@ && scalar(11) == "float"@ && scalar(12) == "double"@);
    assert(scalar(13) == "string"@ && scalar(14) == "bytes"@);
}

proof fn lemma_class_of_declared(ty: Seq<char>, enums: Seq<Seq<char>>)
    requires
        is_declared(ty),
    ensures
        enums.contains(text::after_last(ty, '.')) ==> wire::class_of(ty, enums) is Varint,
        !enums.contains(text::after_last(ty, '.')) ==> wire::class_of(ty, enums) == wire::ClassView::Message(
            text::trim_front(ty, "."@),
        ),
{
    assert(ty != scalar(0) && ty != scalar(1) && ty != scalar(2) && ty != scalar(3) && ty != scalar(4) && ty != scalar(5));
    assert(ty != scalar(6) && ty != scalar(7) && ty != scalar(8) && ty != scalar(9) && ty != scalar(10) && ty != scalar(11));
    assert(ty != scalar(12) && ty != scalar(13) && ty != scalar(14));
}

/// Two scalar types can be read as each other exactly if they are written alike on the wire:
/// `int32`, `uint32`, `int64`, `uint64` and `bool`; `sint32` and `sint64`; `fixed32` and
/// `sfixed32`; `fixed64` and `sfixed64`; `string` and `bytes`. `float` and `double` are read as
/// themselves alone.
pub proof fn law_scalars_are_read_alike(k: int, l: int, a_enums: Seq<Seq<char>>, b_enums: Seq<Seq<char>>)
    requires
        0 <= k <= 14,
        0 <= l <= 14,
    ensures
        wire::types_compatible(scalar(k), a_enums, scalar(l), b_enums) == read_alike(k, l),
{
    lemma_class_of_scalar(k, a_enums);
    lemma_class_of_scalar(l, b_enums);
}

/// A type that the file declares as an enum can be read as one of the plain varints `int32`,
/// `uint32`, `int64`, `uint64` and `bool`, and as no other scalar; a message can be read as
/// `bytes` and as no other scalar.
pub proof fn law_declared_types_among_scalars(ty: Seq<char>, enums: Seq<Seq<char>>, l: int, b_enums: Seq<Seq<char>>)
    requires
        is_declared(ty),
        0 <= l <= 14,
    ensures
        enums.contains(text::after_last(ty, '.')) ==> (wire::types_compatible(ty, enums, scalar(l), b_enums) <==> l <= 4),
        !enums.contains(text::after_last(ty, '.')) ==> (wire::types_compatible(ty, enums, scalar(l), b_enums) <==> l == 14),
{
    lemma_class_of_scalar(l, b_enums);
    lemma_class_of_declared(ty, enums);
}

/// Two enums can be read as each other, an enum and a message cannot.
pub proof fn law_declared_types_among_themselves(a: Seq<char>, a_enums: Seq<Seq<char>>, b: Seq<char>, b_enums: Seq<Seq<char>>)
    requires
        is_declared(a),
        is_declared(b),
        a_enums.contains(text::after_last(a, '.')),
    ensures
        wire::types_compatible(a, a_enums, b, b_enums) <==> b_enums.contains(text::after_last(b, '.')),
{
    lemma_class_of_declared(a, a_enums);
    lemma_class_of_declared(b, b_enums);
}

/// A message is the same under its name and under a longer one that ends in a dot and that name;
/// messages whose names are equally long and different are not the same.
pub proof fn law_messages_are_told_by_their_names(
    a: Seq<char>,
    a_enums: Seq<Seq<char>>,
    b: Seq<char>,
    b_enums: Seq<Seq<char>>,
    q: Seq<char>,
)
    requires
        is_declared(a),
        is_declared(b),
        !a_enums.contains(text::after_last(a, '.')),
        !b_enums.contains(text::after_last(b, '.')),
        a.len() > 0 && a[0] != '.',
        b.len() > 0 && b[0] != '.',
    ensures
        b == q + "."@ + a ==> wire::types_compatible(a, a_enums, b, b_enums),
        a.len() == b.len() ==> (wire::types_compatible(a, a_enums, b, b_enums) <==> a == b),
{
    lemma_class_of_declared(a, a_enums);
    lemma_class_of_declared(b, b_enums);
    reveal_strlit(".");
    assert(!("."@).contains(a[0])) by {
        if ("."@).contains(a[0]) {
            let k = choose|k: int| 0 <= k < ("."@).len() && ("."@)[k] == a[0];
            assert(("."@)[k] == '.');
        }
    }
    assert(!("."@).contains(b[0])) by {
        if ("."@).contains(b[0]) {
            let k = choose|k: int| 0 <= k < ("."@).len() && ("."@)[k] == b[0];
            assert(("."@)[k] == '.');
        }
    }
    assert(text::trim_front(a, "."@) == a);
    assert(text::trim_front(b, "."@) == b);
    if b == q + "."@ + a {
        let n = q.len() as int;
        assert(b.subrange(n, b.len() as int) == "."@ + a);
        assert(text::ends_with(b, "."@ + a));
    }
}

/// Whether the field at place `j` is the first of the list that has its number.
pub open spec fn is_first(fs: Seq<FieldView>, j: int) -> bool {
    0 <= j < fs.len() && forall|k: int| 0 <= k < j ==> (#[trigger] fs[k]).number != fs[j].number
}

/// Whether no field of the list has the number.
pub open spec fn is_unused(fs: Seq<FieldView>, n: u32) -> bool {
    forall|k: int| 0 <= k < fs.len() ==> (#[trigger] fs[k]).number != n
}

proof fn lemma_first_is_found(fs: Seq<FieldView>, j: int)
    requires
        is_first(fs, j),
    ensures
        wire::field_numbered(fs, fs[j].number) == Some(fs[j]),
    decreases fs.len(),
{
    if j > 0 {
        let rest = fs.drop_first();
        assert(fs[0].number != fs[j].number);
        assert(rest[j - 1] == fs[j]);
        assert forall|k: int| 0 <= k < j - 1 implies (#[trigger] rest[k]).number != rest[j - 1].number by {
            assert(rest[k] == fs[k + 1]);
        }
        lemma_first_is_found(rest, j - 1);
    }
}

proof fn lemma_unused_is_not_found(fs: Seq<FieldView>, n: u32)
    requires
        is_unused(fs, n),
    ensures
        wire::field_numbered(fs, n) is None,
    decreases fs.len(),
{
    if fs.len() > 0 {
        let rest = fs.drop_first();
        assert(fs[0].number != n);
        assert forall|k: int| 0 <= k < rest.len() implies (#[trigger] rest[k]).number != n by {
            assert(rest[k] == fs[k + 1]);
        }
        lemma_unused_is_not_found(rest, n);
    }
}

proof fn lemma_change_is_listed(
    base: MessageView,
    base_enums: Seq<Seq<char>>,
    newer: MessageView,
    newer_enums: Seq<Seq<char>>,
    ns: Seq<u32>,
    n: u32,
)
    requires
        ns.contains(n),
        wire::change_at(base, base_enums, newer, newer_enums, n) is Some,
    ensures
        wire::changes_at(base, base_enums, newer, newer_enums, ns).contains(
            wire::change_at(base, base_enums, newer, newer_enums, n)->0,
        ),
    decreases ns.len(),
{
    let c = wire::change_at(base, base_enums, newer, newer_enums, n)->0;
    let front = ns.drop_last();
    let before = wire::changes_at(base, base_enums, newer, newer_enums, front);
    let all = wire::changes_at(base, base_enums, newer, newer_enums, ns);
    if ns.last() == n {
        assert(all == before.push(c));
        assert(all[before.len() as int] == c);
    } else {
        let k = choose|k: int| 0 <= k < ns.len() && ns[k] == n;
        assert(front[k] == n);
        lemma_change_is_listed(base, base_enums, newer, newer_enums, front, n);
        let m = choose|m: int| 0 <= m < before.len() && before[m] == c;
        assert(all[m] == c);
    }
}

proof fn lemma_diff_lists(base: SchemaView, newer: SchemaView, i: int, k: int, n: u32)
    requires
        0 <= i < k <= base.messages.len(),
        wire::message_at(newer.messages, base.messages[i].path) is Some,
        ({
            let a = base.messages[i];
            let b = wire::message_at(newer.messages, a.path)->0;
            &&& wire::field_numbers(a.fields + b.fields).contains(n)
            &&& wire::change_at(a, base.enum_names, b, newer.enum_names, n) is Some
        }),
    ensures
        ({
            let a = base.messages[i];
            let b = wire::message_at(newer.messages, a.path)->0;
            wire::diff_first(base, newer, k).breaking.contains(wire::change_at(a, base.enum_names, b, newer.enum_names, n)->0)
        }),
    decreases k,
{
    let a = base.messages[i];
    let b = wire::message_at(newer.messages, a.path)->0;
    let c = wire::change_at(a, base.enum_names, b, newer.enum_names, n)->0;
    let rest = wire::diff_first(base, newer, k - 1).breaking;
    let all = wire::diff_first(base, newer, k).breaking;
    if i == k - 1 {
        let here = wire::changes_at(a, base.enum_names, b, newer.enum_names, wire::field_numbers(a.fields + b.fields));
        lemma_change_is_listed(a, base.enum_names, b, newer.enum_names, wire::field_numbers(a.fields + b.fields), n);
        let m = choose|m: int| 0 <= m < here.len() && here[m] == c;
        assert(all == rest + here);
        assert(all[rest.len() + m] == c);
    } else {
        lemma_diff_lists(base, newer, i, k - 1, n);
        let m = choose|m: int| 0 <= m < rest.len() && rest[m] == c;
        assert(all[m] == c);
    }
}

/// Whether two versions of a message stand in two schemas: the newer is the first of its path.
pub open spec fn are_versions(base: SchemaView, i: int, newer: SchemaView, j: int) -> bool {
    &&& 0 <= i < base.messages.len()
    &&& 0 <= j < newer.messages.len()
    &&& base.messages[i].path == newer.messages[j].path
    &&& forall|k: int| 0 <= k < j ==> (#[trigger] newer.messages[k]).path != newer.messages[j].path
}

proof fn lemma_version_found(ms: Seq<MessageView>, j: int)
    requires
        0 <= j < ms.len(),
        forall|k: int| 0 <= k < j ==> (#[trigger] ms[k]).path != ms[j].path,
    ensures
        wire::message_at(ms, ms[j].path) == Some(ms[j]),
    decreases ms.len(),
{
    if j > 0 {
        let rest = ms.drop_first();
        assert(ms[0].path != ms[j].path);
        assert(rest[j - 1] == ms[j]);
        assert forall|k: int| 0 <= k < j - 1 implies (#[trigger] rest[k]).path != rest[j - 1].path by {
            assert(rest[k] == ms[k + 1]);
        }
        lemma_version_found(rest, j - 1);
    }
}

/// Whether a finding is about a field number of a message, under a rule and on a line.
pub open spec fn is_about(c: ChangeView, rule: WireRule, path: Seq<char>, n: u32, line: int) -> bool {
    c.rule == rule && c.message == path && c.number == n && c.line == line
}

/// Whether one of the findings is about a field number of a message, under a rule and on a line.
pub open spec fn reports(cs: Seq<ChangeView>, rule: WireRule, path: Seq<char>, n: u32, line: int) -> bool {
    exists|k: int| 0 <= k < cs.len() && is_about(#[trigger] cs[k], rule, path, n, line)
}

/// Whether the types or the numbers of values of two fields keep them from being read as each
/// other.
pub open spec fn encodings_differ(a: FieldView, a_enums: Seq<Seq<char>>, b: FieldView, b_enums: Seq<Seq<char>>) -> bool {
    ||| a.cardinality != b.cardinality
    ||| !wire::types_compatible(a.value_type, a_enums, b.value_type, b_enums)
    ||| a.map_key is Some != b.map_key is Some
    ||| a.map_key is Some && b.map_key is Some && !wire::types_compatible(a.map_key->0, a_enums, b.map_key->0, b_enums)
}

/// A field number that both versions of a message use is reported if it names another field now,
/// as a number used again, and if the same field is encoded otherwise, as an incompatible type.
pub proof fn law_changed_fields_are_reported(base: SchemaView, newer: SchemaView, i: int, j: int, x: int, y: int)
    requires
        are_versions(base, i, newer, j),
        is_first(base.messages[i].fields, x),
        is_first(newer.messages[j].fields, y),
        base.messages[i].fields[x].number == newer.messages[j].fields[y].number,
    ensures
        ({
            let a = base.messages[i].fields[x];
            let b = newer.messages[j].fields[y];
            let found = wire::schema_diff(base, newer).breaking;
            let path = base.messages[i].path;
            &&& a.name != b.name ==> reports(found, WireRule::FieldNumberReused, path, a.number, b.line)
            &&& a.name == b.name && encodings_differ(a, base.enum_names, b, newer.enum_names) ==> reports(
                found,
                WireRule::IncompatibleType,
                path,
                a.number,
                b.line,
            )
        }),
{
    let ma = base.messages[i];
    let mb = newer.messages[j];
    let a = ma.fields[x];
    let b = mb.fields[y];
    let n = a.number;
    let found = wire::schema_diff(base, newer).breaking;
    lemma_version_found(newer.messages, j);
    lemma_first_is_found(ma.fields, x);
    lemma_first_is_found(mb.fields, y);
    lemma_number_used(ma.fields, mb.fields, n);
    if a.name != b.name || encodings_differ(a, base.enum_names, b, newer.enum_names) {
        lemma_diff_lists(base, newer, i, base.messages.len() as int, n);
        let c = wire::change_at(ma, base.enum_names, mb, newer.enum_names, n)->0;
        let k = choose|k: int| 0 <= k < found.len() && found[k] == c;
        if a.name != b.name {
            assert(is_about(found[k], WireRule::FieldNumberReused, ma.path, n, b.line));
        } else {
            assert(is_about(found[k], WireRule::IncompatibleType, ma.path, n, b.line));
        }
    }
}

proof fn lemma_number_used(a: Seq<FieldView>, b: Seq<FieldView>, n: u32)
    requires
        wire::field_numbered(a, n) is Some || wire::field_numbered(b, n) is Some,
    ensures
        wire::field_numbers(a + b).contains(n),
{
    wire::law_field_numbers(a + b);
    lemma_found_in_both(a, b, n);
}

proof fn lemma_found_in_both(a: Seq<FieldView>, b: Seq<FieldView>, n: u32)
    ensures
        wire::field_numbered(a, n) is Some || wire::field_numbered(b, n) is Some ==> wire::field_numbered(a + b, n) is Some,
    decreases a.len(),
{
    if a.len() > 0 {
        assert((a + b)[0] == a[0]);
        assert((a + b).drop_first() == a.drop_first() + b);
        lemma_found_in_both(a.drop_first(), b, n);
    } else {
        assert(a + b == b);
    }
}

/// A field that is gone is reported as deleted, unless the newer version reserves its number or
/// its name.
pub proof fn law_deleted_fields_are_reported(base: SchemaView, newer: SchemaView, i: int, j: int, x: int)
    requires
        are_versions(base, i, newer, j),
        is_first(base.messages[i].fields, x),
        is_unused(newer.messages[j].fields, base.messages[i].fields[x].number),
        forall|k: int|
            0 <= k < newer.messages[j].reserved_ranges.len() ==> {
                let r = #[trigger] newer.messages[j].reserved_ranges[k];
                base.messages[i].fields[x].number < r.0 || r.1 < base.messages[i].fields[x].number
            },
        !newer.messages[j].reserved_names.contains(base.messages[i].fields[x].name),
    ensures
        ({
            let a = base.messages[i].fields[x];
            reports(
                wire::schema_diff(base, newer).breaking,
                WireRule::DeletedWithoutReserved,
                base.messages[i].path,
                a.number,
                a.line,
            )
        }),
{
    let ma = base.messages[i];
    let mb = newer.messages[j];
    let a = ma.fields[x];
    let n = a.number;
    let found = wire::schema_diff(base, newer).breaking;
    lemma_version_found(newer.messages, j);
    lemma_first_is_found(ma.fields, x);
    lemma_unused_is_not_found(mb.fields, n);
    lemma_number_used(ma.fields, mb.fields, n);
    assert(!mb.reserves_number(n));
    lemma_diff_lists(base, newer, i, base.messages.len() as int, n);
    let c = wire::change_at(ma, base.enum_names, mb, newer.enum_names, n)->0;
    let k = choose|k: int| 0 <= k < found.len() && found[k] == c;
    assert(is_about(found[k], WireRule::DeletedWithoutReserved, ma.path, n, a.line));
}

/// A number that the base reserves, both ends of its ranges among them, is reported if a new
/// field uses it.
pub proof fn law_reused_numbers_are_reported(base: SchemaView, newer: SchemaView, i: int, j: int, y: int, k: int)
    requires
        are_versions(base, i, newer, j),
        is_first(newer.messages[j].fields, y),
        is_unused(base.messages[i].fields, newer.messages[j].fields[y].number),
        0 <= k < base.messages[i].reserved_ranges.len(),
        base.messages[i].reserved_ranges[k].0 <= newer.messages[j].fields[y].number <= base.messages[i].reserved_ranges[k].1,
    ensures
        ({
            let b = newer.messages[j].fields[y];
            reports(
                wire::schema_diff(base, newer).breaking,
                WireRule::FieldNumberReused,
                base.messages[i].path,
                b.number,
                b.line,
            )
        }),
{
    let ma = base.messages[i];
    let mb = newer.messages[j];
    let b = mb.fields[y];
    let n = b.number;
    let found = wire::schema_diff(base, newer).breaking;
    lemma_version_found(newer.messages, j);
    lemma_first_is_found(mb.fields, y);
    lemma_unused_is_not_found(ma.fields, n);
    lemma_number_used(ma.fields, mb.fields, n);
    assert(ma.reserved_ranges[k].0 <= n);
    assert(ma.reserves_number(n));
    lemma_diff_lists(base, newer, i, base.messages.len() as int, n);
    let c = wire::change_at(ma, base.enum_names, mb, newer.enum_names, n)->0;
    let m = choose|m: int| 0 <= m < found.len() && found[m] == c;
    assert(is_about(found[m], WireRule::FieldNumberReused, ma.path, n, b.line));
}

/// A message is listed as removed exactly if the newer schema has none of its path.
pub proof fn law_removed_messages_are_listed(base: SchemaView, newer: SchemaView, path: Seq<char>)
    ensures
        wire::schema_diff(base, newer).removed_messages.contains(path) <==> {
            &&& exists|i: int| 0 <= i < base.messages.len() && (#[trigger] base.messages[i]).path == path
            &&& forall|j: int| 0 <= j < newer.messages.len() ==> (#[trigger] newer.messages[j]).path != path
        },
{
    lemma_removed(base, newer, path, base.messages.len() as int);
    lemma_message_missing(newer.messages, path);
}

proof fn lemma_message_missing(ms: Seq<MessageView>, path: Seq<char>)
    ensures
        wire::message_at(ms, path) is None <==> forall|j: int| 0 <= j < ms.len() ==> (#[trigger] ms[j]).path != path,
    decreases ms.len(),
{
    if ms.len() > 0 {
        let rest = ms.drop_first();
        lemma_message_missing(rest, path);
        if ms[0].path != path {
            if forall|j: int| 0 <= j < rest.len() ==> (#[trigger] rest[j]).path != path {
                assert forall|j: int| 0 <= j < ms.len() implies (#[trigger] ms[j]).path != path by {
                    if j > 0 {
                        assert(rest[j - 1] == ms[j]);
                    }
                }
            } else {
                let j = choose|j: int| 0 <= j < rest.len() && (#[trigger] rest[j]).path == path;
                assert(ms[j + 1].path == path);
            }
        }
    }
}

proof fn lemma_removed(base: SchemaView, newer: SchemaView, path: Seq<char>, n: int)
    requires
        0 <= n <= base.messages.len(),
    ensures
        wire::diff_first(base, newer, n).removed_messages.contains(path) <==> {
            &&& exists|i: int| 0 <= i < n && (#[trigger] base.messages[i]).path == path
            &&& wire::message_at(newer.messages, path) is None
        },
    decreases n,
{
    if n > 0 {
        lemma_removed(base, newer, path, n - 1);
        let rest = wire::diff_first(base, newer, n - 1).removed_messages;
        let all = wire::diff_first(base, newer, n).removed_messages;
        let a = base.messages[n - 1];
        if wire::message_at(newer.messages, a.path) is None {
            assert(all == rest.push(a.path));
            if all.contains(path) {
                let k = choose|k: int| 0 <= k < all.len() && all[k] == path;
                if k < rest.len() {
                    assert(rest.contains(path));
                }
            }
            if rest.contains(path) {
                let k = choose|k: int| 0 <= k < rest.len() && rest[k] == path;
                assert(all[k] == path);
            }
            assert(all[rest.len() as int] == a.path);
        }
    }
}

proof fn lemma_found_is_first(fs: Seq<FieldView>, n: u32) -> (j: int)
    requires
        wire::field_numbered(fs, n) is Some,
    ensures
        is_first(fs, j),
        fs[j].number == n,
        wire::field_numbered(fs, n) == Some(fs[j]),
    decreases fs.len(),
{
    if fs[0].number == n {
        0
    } else {
        let rest = fs.drop_first();
        let k = lemma_found_is_first(rest, n);
        assert(rest[k] == fs[k + 1]);
        assert forall|m: int| 0 <= m < k + 1 implies (#[trigger] fs[m]).number != fs[k + 1].number by {
            if m > 0 {
                assert(rest[m - 1] == fs[m]);
            }
        }
        k + 1
    }
}

/// Whether a finding has a cause in two versions of a message.
pub open spec fn is_caused(a: MessageView, a_enums: Seq<Seq<char>>, b: MessageView, b_enums: Seq<Seq<char>>, c: ChangeView) -> bool {
    let used_before = exists|x: int| 0 <= x < a.fields.len() && (#[trigger] a.fields[x]).number == c.number;
    let used_now = exists|y: int| 0 <= y < b.fields.len() && (#[trigger] b.fields[y]).number == c.number;
    &&& c.message == a.path
    &&& match c.rule {
        WireRule::FieldNumberReused => used_now && (used_before || exists|k: int|
            0 <= k < a.reserved_ranges.len() && (#[trigger] a.reserved_ranges[k]).0 <= c.number <= a.reserved_ranges[k].1),
        WireRule::IncompatibleType => exists|x: int, y: int|
            #![trigger a.fields[x], b.fields[y]]
            is_first(a.fields, x) && is_first(b.fields, y) && a.fields[x].number == c.number && b.fields[y].number == c.number
                && a.fields[x].name == b.fields[y].name && encodings_differ(a.fields[x], a_enums, b.fields[y], b_enums),
        WireRule::DeletedWithoutReserved => used_before && !used_now && forall|k: int|
            0 <= k < b.reserved_ranges.len() ==> !((#[trigger] b.reserved_ranges[k]).0 <= c.number <= b.reserved_ranges[k].1),
    }
}

proof fn lemma_change_is_caused(a: MessageView, a_enums: Seq<Seq<char>>, b: MessageView, b_enums: Seq<Seq<char>>, n: u32)
    ensures
        wire::change_at(a, a_enums, b, b_enums, n) matches Some(c) ==> is_caused(a, a_enums, b, b_enums, c),
{
    if wire::change_at(a, a_enums, b, b_enums, n) is Some {
        let c = wire::change_at(a, a_enums, b, b_enums, n)->0;
        if wire::field_numbered(a.fields, n) is Some {
            let x = lemma_found_is_first(a.fields, n);
            assert(a.fields[x].number == n);
        }
        if wire::field_numbered(b.fields, n) is Some {
            let y = lemma_found_is_first(b.fields, n);
            assert(b.fields[y].number == n);
        } else {
            lemma_not_found_is_unused(b.fields, n);
        }
        if c.rule == WireRule::IncompatibleType {
            let x = lemma_found_is_first(a.fields, n);
            let y = lemma_found_is_first(b.fields, n);
            assert(encodings_differ(a.fields[x], a_enums, b.fields[y], b_enums));
        }
        assert(c.number == n);
    }
}

proof fn lemma_not_found_is_unused(fs: Seq<FieldView>, n: u32)
    requires
        wire::field_numbered(fs, n) is None,
    ensures
        is_unused(fs, n),
    decreases fs.len(),
{
    if fs.len() > 0 {
        let rest = fs.drop_first();
        lemma_not_found_is_unused(rest, n);
        assert forall|k: int| 0 <= k < fs.len() implies (#[trigger] fs[k]).number != n by {
            if k > 0 {
                assert(rest[k - 1] == fs[k]);
            }
        }
    }
}

proof fn lemma_changes_are_caused(
    a: MessageView,
    a_enums: Seq<Seq<char>>,
    b: MessageView,
    b_enums: Seq<Seq<char>>,
    ns: Seq<u32>,
)
    ensures
        ({
            let cs = wire::changes_at(a, a_enums, b, b_enums, ns);
            forall|k: int| 0 <= k < cs.len() ==> is_caused(a, a_enums, b, b_enums, #[trigger] cs[k])
        }),
    decreases ns.len(),
{
    if ns.len() > 0 {
        lemma_changes_are_caused(a, a_enums, b, b_enums, ns.drop_last());
        lemma_change_is_caused(a, a_enums, b, b_enums, ns.last());
        let before = wire::changes_at(a, a_enums, b, b_enums, ns.drop_last());
        let cs = wire::changes_at(a, a_enums, b, b_enums, ns);
        assert forall|k: int| 0 <= k < cs.len() implies is_caused(a, a_enums, b, b_enums, #[trigger] cs[k]) by {
            if k < before.len() {
                assert(cs[k] == before[k]);
            }
        }
    }
}

/// Whether a finding has a cause in two versions of some message of two schemas.
pub open spec fn is_caused_among(base: SchemaView, newer: SchemaView, c: ChangeView) -> bool {
    exists|i: int, j: int|
        #![trigger base.messages[i], newer.messages[j]]
        are_versions(base, i, newer, j) && is_caused(
            base.messages[i],
            base.enum_names,
            newer.messages[j],
            newer.enum_names,
            c,
        )
}

proof fn lemma_found_version(ms: Seq<MessageView>, path: Seq<char>) -> (j: int)
    requires
        wire::message_at(ms, path) is Some,
    ensures
        0 <= j < ms.len(),
        ms[j].path == path,
        wire::message_at(ms, path) == Some(ms[j]),
        forall|k: int| 0 <= k < j ==> (#[trigger] ms[k]).path != path,
    decreases ms.len(),
{
    if ms[0].path == path {
        0
    } else {
        let rest = ms.drop_first();
        let k = lemma_found_version(rest, path);
        assert(rest[k] == ms[k + 1]);
        assert forall|m: int| 0 <= m < k + 1 implies (#[trigger] ms[m]).path != path by {
            if m > 0 {
                assert(rest[m - 1] == ms[m]);
            }
        }
        k + 1
    }
}

proof fn lemma_diff_is_caused(base: SchemaView, newer: SchemaView, n: int)
    requires
        0 <= n <= base.messages.len(),
    ensures
        ({
            let cs = wire::diff_first(base, newer, n).breaking;
            forall|k: int| 0 <= k < cs.len() ==> is_caused_among(base, newer, #[trigger] cs[k])
        }),
    decreases n,
{
    if n > 0 {
        lemma_diff_is_caused(base, newer, n - 1);
        let before = wire::diff_first(base, newer, n - 1).breaking;
        let cs = wire::diff_first(base, newer, n).breaking;
        let a = base.messages[n - 1];
        if wire::message_at(newer.messages, a.path) is Some {
            let j = lemma_found_version(newer.messages, a.path);
            let b = newer.messages[j];
            let ns = wire::field_numbers(a.fields + b.fields);
            let here = wire::changes_at(a, base.enum_names, b, newer.enum_names, ns);
            lemma_changes_are_caused(a, base.enum_names, b, newer.enum_names, ns);
            assert forall|k: int| 0 <= k < cs.len() implies is_caused_among(base, newer, #[trigger] cs[k]) by {
                if k < before.len() {
                    assert(cs[k] == before[k]);
                } else {
                    assert(cs[k] == here[k - before.len()]);
                    assert(are_versions(base, n - 1, newer, j));
                    assert(base.messages[n - 1] == a);
                }
            }
        }
    }
}

/// Nothing is reported without a cause: a number that is used by both versions or was reserved, a
/// field that is encoded otherwise, or a field that is gone without its number being reserved.
pub proof fn law_findings_have_causes(base: SchemaView, newer: SchemaView, k: int)
    requires
        0 <= k < wire::schema_diff(base, newer).breaking.len(),
    ensures
        is_caused_among(base, newer, wire::schema_diff(base, newer).breaking[k]),
{
    lemma_diff_is_caused(base, newer, base.messages.len() as int);
}

/// A field that is gone is not reported if the newer version reserves its number, the ends of a
/// range among the reserved, or its name.
pub proof fn law_reserved_fields_are_not_reported(
    base: MessageView,
    base_enums: Seq<Seq<char>>,
    newer: MessageView,
    newer_enums: Seq<Seq<char>>,
    x: int,
    k: int,
)
    requires
        is_first(base.fields, x),
        is_unused(newer.fields, base.fields[x].number),
        0 <= k < newer.reserved_ranges.len() && newer.reserved_ranges[k].0 <= base.fields[x].number <= newer.reserved_ranges[k].1
            || newer.reserved_names.contains(base.fields[x].name),
    ensures
        wire::change_at(base, base_enums, newer, newer_enums, base.fields[x].number) is None,
{
    lemma_first_is_found(base.fields, x);
    lemma_unused_is_not_found(newer.fields, base.fields[x].number);
    if !newer.reserved_names.contains(base.fields[x].name) {
        assert(newer.reserved_ranges[k].0 <= base.fields[x].number);
        assert(newer.reserves_number(base.fields[x].number));
    }
}

/// A field that is new, under a number that the base did not reserve, is not reported.
pub proof fn law_new_fields_are_not_reported(
    base: MessageView,
    base_enums: Seq<Seq<char>>,
    newer: MessageView,
    newer_enums: Seq<Seq<char>>,
    y: int,
)
    requires
        is_first(newer.fields, y),
        is_unused(base.fields, newer.fields[y].number),
        forall|k: int|
            0 <= k < base.reserved_ranges.len() ==> {
                let r = #[trigger] base.reserved_ranges[k];
                newer.fields[y].number < r.0 || r.1 < newer.fields[y].number
            },
    ensures
        wire::change_at(base, base_enums, newer, newer_enums, newer.fields[y].number) is None,
{
    lemma_first_is_found(newer.fields, y);
    lemma_unused_is_not_found(base.fields, newer.fields[y].number);
    assert(!base.reserves_number(newer.fields[y].number));
}

/// The rules are told in these words, and so are the numbers of values of a field.
pub proof fn law_rules_are_told()
    ensures
        WireRule::FieldNumberReused.words() == "field number reused"@,
        WireRule::IncompatibleType.words() == "incompatible type change"@,
        WireRule::DeletedWithoutReserved.words() == "field deleted without `reserved`"@,
        ProtoCardinality::Singular.word() == "singular"@,
        ProtoCardinality::Repeated.word() == "repeated"@,
        ProtoCardinality::Mapping.word() == "map"@,
{
}

/// The type of a field is shown as it is declared: maps with key and value, lists as repeated, and
/// others by their value.
pub proof fn law_types_are_shown(f: FieldView, key: Seq<char>)
    ensures
        f.cardinality == ProtoCardinality::Mapping && f.map_key == Some(key) ==> f.shown_type() == "map<"@ + key + ", "@ + f.value_type
            + ">"@,
        f.cardinality == ProtoCardinality::Repeated ==> f.shown_type() == "repeated "@ + f.value_type,
        f.cardinality != ProtoCardinality::Repeated && f.cardinality != ProtoCardinality::Mapping ==> f.shown_type() == f.value_type,
{
}

} // verus!
