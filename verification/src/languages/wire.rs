//! What protobuf messages look like on the wire, and which changes of them break readers.
use vstd::prelude::*;
use crate::model;
use crate::numbers;
use crate::text;

verus! {

/// The largest field number that protobuf allows.
pub const PROTO_MAX_FIELD_NUMBER: u32 = 536_870_911;

/// How many values a field carries on the wire.
#[derive(Debug, Clone, Copy, PartialEq, Eq, Structural)]
pub enum ProtoCardinality {
    /// A plain, `optional` or `required` field.
    Singular,
    /// A `repeated` field, packed or not.
    Repeated,
    /// A `map<K, V>` field, which is a repeated pair on the wire.
    Mapping,
}

impl ProtoCardinality {
    /// The word for the cardinality.
    pub open spec fn word(self) -> Seq<char> {
        match self {
            ProtoCardinality::Singular => "singular"@,
            ProtoCardinality::Repeated => "repeated"@,
            ProtoCardinality::Mapping => "map"@,
        }
    }

    fn label(self) -> (r: &'static str)
        ensures
            r@ == self.word(),
    {
        match self {
            ProtoCardinality::Singular => "singular",
            ProtoCardinality::Repeated => "repeated",
            ProtoCardinality::Mapping => "map",
        }
    }
}

/// One field of a message.
#[derive(Debug, Clone, PartialEq, Eq)]
pub struct ProtoWireField {
    pub name: String,
    pub number: u32,
    pub cardinality: ProtoCardinality,
    /// The type of the value as it is written.
    pub value_type: String,
    /// The type of the key of a map.
    pub map_key: Option<String>,
    /// The `oneof` around the field. Its members share the numbers of the message.
    pub oneof: Option<String>,
    pub line: usize,
}

/// One field of a message, as a mathematical value.
#[verifier::ext_equal]
pub struct FieldView {
    pub name: Seq<char>,
    pub number: u32,
    pub cardinality: ProtoCardinality,
    pub value_type: Seq<char>,
    pub map_key: Option<Seq<char>>,
    pub oneof: Option<Seq<char>>,
    pub line: int,
}

impl View for ProtoWireField {
    type V = FieldView;

    open spec fn view(&self) -> FieldView {
        FieldView {
            name: self.name@,
            number: self.number,
            cardinality: self.cardinality,
            value_type: self.value_type@,
            map_key: text::opt_string(self.map_key),
            oneof: text::opt_string(self.oneof),
            line: self.line as int,
        }
    }
}

/// A list of fields, each by its view.
pub open spec fn fields_view(v: Seq<ProtoWireField>) -> Seq<FieldView> {
    v.map_values(|f: ProtoWireField| f@)
}

impl FieldView {
    /// How the type of a field reads.
    pub open spec fn shown_type(self) -> Seq<char> {
        match (self.cardinality, self.map_key) {
            (ProtoCardinality::Mapping, Some(key)) => "map<"@ + key + ", "@ + self.value_type + ">"@,
            (ProtoCardinality::Repeated, _) => "repeated "@ + self.value_type,
            _ => self.value_type,
        }
    }
}

impl ProtoWireField {
    /// How the type of the field reads: `repeated int32`, `map<string, Foo>` or `string`.
    pub fn type_label(&self) -> (r: String)
        ensures
            r@ == self@.shown_type(),
    {
        let value = text::chars_of(self.value_type.as_str());
        match self.cardinality {
            ProtoCardinality::Mapping => match &self.map_key {
                Some(key) => {
                    let k = text::chars_of(key.as_str());
                    let mut out = text::wrapped("map<", k.as_slice(), ", ");
                    text::push_chars(&mut out, value.as_slice());
                    let end = text::chars_of(">");
                    text::push_chars(&mut out, end.as_slice());
                    out
                },
                None => text::copy(self.value_type.as_str()),
            },
            ProtoCardinality::Repeated => text::joined("repeated ", value.as_slice()),
            ProtoCardinality::Singular => text::copy(self.value_type.as_str()),
        }
    }
}

/// One message. Messages inside it stand beside it, named after it.
#[derive(Debug, Clone, PartialEq, Eq)]
pub struct ProtoWireMessage {
    /// The dotted path in the file, such as `Outer.Inner`, without the package.
    pub path: String,
    pub line: usize,
    pub fields: Vec<ProtoWireField>,
    /// The first and the last number of each `reserved` range.
    pub reserved_ranges: Vec<(u32, u32)>,
    pub reserved_names: Vec<String>,
}

/// One message, as a mathematical value.
#[verifier::ext_equal]
pub struct MessageView {
    pub path: Seq<char>,
    pub line: int,
    pub fields: Seq<FieldView>,
    pub reserved_ranges: Seq<(u32, u32)>,
    pub reserved_names: Seq<Seq<char>>,
}

impl View for ProtoWireMessage {
    type V = MessageView;

    open spec fn view(&self) -> MessageView {
        MessageView {
            path: self.path@,
            line: self.line as int,
            fields: fields_view(self.fields@),
            reserved_ranges: self.reserved_ranges@,
            reserved_names: text::strings(self.reserved_names@),
        }
    }
}

/// A list of messages, each by its view.
pub open spec fn messages_view(v: Seq<ProtoWireMessage>) -> Seq<MessageView> {
    v.map_values(|m: ProtoWireMessage| m@)
}

impl Default for ProtoWireMessage {
    fn default() -> (r: ProtoWireMessage)
        ensures
            r@ == (MessageView {
                path: ""@,
                line: 0,
                fields: Seq::empty(),
                reserved_ranges: Seq::empty(),
                reserved_names: Seq::empty(),
            }),
    {
        ProtoWireMessage {
            path: text::copy(""),
            line: 0,
            fields: Vec::new(),
            reserved_ranges: Vec::new(),
            reserved_names: Vec::new(),
        }
    }
}

impl MessageView {
    /// Whether a number is in one of the reserved ranges.
    pub open spec fn reserves_number(self, n: u32) -> bool {
        exists|j: int|
            0 <= j < self.reserved_ranges.len() && (#[trigger] self.reserved_ranges[j]).0 <= n && n <= self.reserved_ranges[j].1
    }

    /// Whether a name is reserved.
    pub open spec fn reserves_name(self, name: Seq<char>) -> bool {
        self.reserved_names.contains(name)
    }
}

impl ProtoWireMessage {
    /// Whether a number is in one of the reserved ranges.
    pub fn is_number_reserved(&self, number: u32) -> (r: bool)
        ensures
            r == self@.reserves_number(number),
    {
        let mut j: usize = 0;
        while j < self.reserved_ranges.len()
            invariant
                0 <= j <= self.reserved_ranges@.len(),
                forall|k: int|
                    0 <= k < j ==> !((#[trigger] self.reserved_ranges@[k]).0 <= number && number <= self.reserved_ranges@[k].1),
            decreases self.reserved_ranges@.len() - j,
        {
            let range = self.reserved_ranges[j];
            if range.0 <= number && number <= range.1 {
                assert(self@.reserved_ranges[j as int] == range);
                return true;
            }
            j += 1;
        }
        false
    }

    /// Whether a name is reserved.
    pub fn is_name_reserved(&self, name: &str) -> (r: bool)
        ensures
            r == self@.reserves_name(name@),
    {
        let chars = text::chars_of(name);
        model::has_name(&self.reserved_names, chars.as_slice())
    }
}

/// The messages of a file and the enums that it declares.
#[derive(Debug, Clone, PartialEq, Eq)]
pub struct ProtoWireSchema {
    pub messages: Vec<ProtoWireMessage>,
    /// The bare names of the enums, at any level.
    pub enum_names: Vec<String>,
}

/// The messages of a file and the enums that it declares, as a mathematical value.
#[verifier::ext_equal]
pub struct SchemaView {
    pub messages: Seq<MessageView>,
    pub enum_names: Seq<Seq<char>>,
}

impl View for ProtoWireSchema {
    type V = SchemaView;

    open spec fn view(&self) -> SchemaView {
        SchemaView { messages: messages_view(self.messages@), enum_names: text::strings(self.enum_names@) }
    }
}

impl Default for ProtoWireSchema {
    fn default() -> (r: ProtoWireSchema)
        ensures
            r@ == (SchemaView { messages: Seq::empty(), enum_names: Seq::empty() }),
    {
        ProtoWireSchema { messages: Vec::new(), enum_names: Vec::new() }
    }
}

/// The three ways in which a change breaks readers.
#[derive(Debug, Clone, Copy, PartialEq, Eq, PartialOrd, Ord, Structural)]
pub enum WireRule {
    /// A number now names another field, or one that was reserved is used again.
    FieldNumberReused,
    /// The same field with a type or a cardinality that the other side cannot decode.
    IncompatibleType,
    /// A field is gone and neither its number nor its name is reserved.
    DeletedWithoutReserved,
}

impl WireRule {
    /// The words for the rule.
    pub open spec fn words(self) -> Seq<char> {
        match self {
            WireRule::FieldNumberReused => "field number reused"@,
            WireRule::IncompatibleType => "incompatible type change"@,
            WireRule::DeletedWithoutReserved => "field deleted without `reserved`"@,
        }
    }

    /// How the rule reads.
    pub fn label(self) -> (r: &'static str)
        ensures
            r@ == self.words(),
    {
        match self {
            WireRule::FieldNumberReused => "field number reused",
            WireRule::IncompatibleType => "incompatible type change",
            WireRule::DeletedWithoutReserved => "field deleted without `reserved`",
        }
    }
}

/// One change that breaks readers.
#[derive(Debug, Clone, PartialEq, Eq)]
pub struct WireBreakingChange {
    pub rule: WireRule,
    /// The path of the message.
    pub message: String,
    pub number: u32,
    /// The old and the new name and type.
    pub detail: String,
    /// The line of the field in the new version, or in the old one where it is gone.
    pub line: usize,
}

/// One change that breaks readers, as a mathematical value.
#[verifier::ext_equal]
pub struct ChangeView {
    pub rule: WireRule,
    pub message: Seq<char>,
    pub number: u32,
    pub detail: Seq<char>,
    pub line: int,
}

impl View for WireBreakingChange {
    type V = ChangeView;

    open spec fn view(&self) -> ChangeView {
        ChangeView {
            rule: self.rule,
            message: self.message@,
            number: self.number,
            detail: self.detail@,
            line: self.line as int,
        }
    }
}

/// A list of changes, each by its view.
pub open spec fn changes_view(v: Seq<WireBreakingChange>) -> Seq<ChangeView> {
    v.map_values(|c: WireBreakingChange| c@)
}

/// What a comparison of two schemas finds.
#[derive(Debug, Clone, PartialEq, Eq)]
pub struct WireDiff {
    pub breaking: Vec<WireBreakingChange>,
    /// The messages of the old version that the new one lacks. Their absence breaks no reader
    /// by itself.
    pub removed_messages: Vec<String>,
}

/// What a comparison of two schemas finds, as a mathematical value.
#[verifier::ext_equal]
pub struct DiffView {
    pub breaking: Seq<ChangeView>,
    pub removed_messages: Seq<Seq<char>>,
}

impl View for WireDiff {
    type V = DiffView;

    open spec fn view(&self) -> DiffView {
        DiffView { breaking: changes_view(self.breaking@), removed_messages: text::strings(self.removed_messages@) }
    }
}

impl Default for WireDiff {
    fn default() -> (r: WireDiff)
        ensures
            r@ == (DiffView { breaking: Seq::empty(), removed_messages: Seq::empty() }),
    {
        WireDiff { breaking: Vec::new(), removed_messages: Vec::new() }
    }
}

/// The types whose bytes mean the same: a reader that expects one decodes what was written as
/// another into the same value.
pub enum WireClass {
    /// Plain varints: `int32`, `uint32`, `int64`, `uint64`, `bool` and enums.
    Varint,
    /// `sint32` and `sint64`.
    ZigZag,
    /// `fixed32` and `sfixed32`.
    Fixed32,
    /// `fixed64` and `sfixed64`.
    Fixed64,
    Float,
    Double,
    Text,
    Bytes,
    /// A message, by the name that the field uses.
    Message(String),
}

/// A class of types, as a mathematical value.
#[verifier::ext_equal]
pub enum ClassView {
    Varint,
    ZigZag,
    Fixed32,
    Fixed64,
    Float,
    Double,
    Text,
    Bytes,
    Message(Seq<char>),
}

impl View for WireClass {
    type V = ClassView;

    open spec fn view(&self) -> ClassView {
        match self {
            WireClass::Varint => ClassView::Varint,
            WireClass::ZigZag => ClassView::ZigZag,
            WireClass::Fixed32 => ClassView::Fixed32,
            WireClass::Fixed64 => ClassView::Fixed64,
            WireClass::Float => ClassView::Float,
            WireClass::Double => ClassView::Double,
            WireClass::Text => ClassView::Text,
            WireClass::Bytes => ClassView::Bytes,
            WireClass::Message(n) => ClassView::Message(n@),
        }
    }
}

/// The class of a type, given the enums that the file declares.
pub open spec fn class_of(ty: Seq<char>, enums: Seq<Seq<char>>) -> ClassView {
    if ty == "int32"@ || ty == "uint32"@ || ty == "int64"@ || ty == "uint64"@ || ty == "bool"@ {
        ClassView::Varint
    } else if ty == "sint32"@ || ty == "sint64"@ {
        ClassView::ZigZag
    } else if ty == "fixed32"@ || ty == "sfixed32"@ {
        ClassView::Fixed32
    } else if ty == "fixed64"@ || ty == "sfixed64"@ {
        ClassView::Fixed64
    } else if ty == "float"@ {
        ClassView::Float
    } else if ty == "double"@ {
        ClassView::Double
    } else if ty == "string"@ {
        ClassView::Text
    } else if ty == "bytes"@ {
        ClassView::Bytes
    } else if enums.contains(text::after_last(ty, '.')) {
        ClassView::Varint
    } else {
        ClassView::Message(text::trim_front(ty, "."@))
    }
}

fn classify_wire_type(ty: &str, enum_names: &[String]) -> (r: WireClass)
    ensures
        r@ == class_of(ty@, text::strings(enum_names@)),
{
    let chars = text::chars_of(ty);
    let s = chars.as_slice();
    if text::is(s, "int32") || text::is(s, "uint32") || text::is(s, "int64") || text::is(s, "uint64") || text::is(s, "bool") {
        WireClass::Varint
    } else if text::is(s, "sint32") || text::is(s, "sint64") {
        WireClass::ZigZag
    } else if text::is(s, "fixed32") || text::is(s, "sfixed32") {
        WireClass::Fixed32
    } else if text::is(s, "fixed64") || text::is(s, "sfixed64") {
        WireClass::Fixed64
    } else if text::is(s, "float") {
        WireClass::Float
    } else if text::is(s, "double") {
        WireClass::Double
    } else if text::is(s, "string") {
        WireClass::Text
    } else if text::is(s, "bytes") {
        WireClass::Bytes
    } else if is_among(enum_names, text::tail_after(s, '.')) {
        WireClass::Varint
    } else {
        WireClass::Message(text::string_of(text::trimmed_front(s, ".")))
    }
}

/// Whether a name is in a list.
fn is_among(names: &[String], name: &[char]) -> (r: bool)
    ensures
        r == text::strings(names@).contains(name@),
{
    let ghost nv = text::strings(names@);
    let mut j: usize = 0;
    while j < names.len()
        invariant
            0 <= j <= names@.len(),
            nv == text::strings(names@),
            forall|k: int| 0 <= k < j ==> #[trigger] nv[k] != name@,
        decreases names@.len() - j,
    {
        assert(nv[j as int] == names@[j as int]@);
        if text::is(name, names[j].as_str()) {
            return true;
        }
        j += 1;
    }
    false
}

/// Whether two names are those of the same message: one is a dotted suffix of the other.
pub open spec fn same_name(a: Seq<char>, b: Seq<char>) -> bool {
    a == b || text::ends_with(a, "."@ + b) || text::ends_with(b, "."@ + a)
}

/// Whether `a` ends in a dot and `b`.
fn ends_dotted(a: &[char], b: &[char]) -> (r: bool)
    ensures
        r == text::ends_with(a@, "."@ + b@),
{
    let suffix = text::joined(".", b);
    text::ends(a, suffix.as_str())
}

fn same_type_name(a: &str, b: &str) -> (r: bool)
    ensures
        r == same_name(a@, b@),
{
    let x = text::chars_of(a);
    let y = text::chars_of(b);
    text::same(a, b) || ends_dotted(x.as_slice(), y.as_slice()) || ends_dotted(y.as_slice(), x.as_slice())
}

/// Whether the bytes of two classes of types can be read as each other: those of one class,
/// strings and bytes, and bytes and messages.
pub open spec fn classes_compatible(a: ClassView, b: ClassView) -> bool {
    match (a, b) {
        (ClassView::Message(x), ClassView::Message(y)) => same_name(x, y),
        (ClassView::Text, ClassView::Bytes) | (ClassView::Bytes, ClassView::Text) => true,
        (ClassView::Bytes, ClassView::Message(_)) | (ClassView::Message(_), ClassView::Bytes) => true,
        _ => a == b,
    }
}

/// Whether the bytes of two types can be read as each other.
pub open spec fn types_compatible(old_ty: Seq<char>, old_enums: Seq<Seq<char>>, new_ty: Seq<char>, new_enums: Seq<Seq<char>>) -> bool {
    classes_compatible(class_of(old_ty, old_enums), class_of(new_ty, new_enums))
}

/// Whether the bytes of two types can be read as each other. Each row of the table is a group
/// of types that can:
///
/// | Group | Types |
/// |---|---|
/// | varint | `int32`, `uint32`, `int64`, `uint64`, `bool`, enums declared in the file |
/// | zig-zag | `sint32`, `sint64` |
/// | 32-bit | `fixed32`, `sfixed32` |
/// | 64-bit | `fixed64`, `sfixed64` |
/// | length-delimited | `string` and `bytes`, `bytes` and a message, the same message |
pub fn wire_types_compatible(old_ty: &str, old_enums: &[String], new_ty: &str, new_enums: &[String]) -> (r: bool)
    ensures
        r == types_compatible(old_ty@, text::strings(old_enums@), new_ty@, text::strings(new_enums@)),
{
    let a = classify_wire_type(old_ty, old_enums);
    let b = classify_wire_type(new_ty, new_enums);
    match (&a, &b) {
        (WireClass::Message(x), WireClass::Message(y)) => same_type_name(x.as_str(), y.as_str()),
        (WireClass::Text, WireClass::Bytes) => true,
        (WireClass::Bytes, WireClass::Text) => true,
        (WireClass::Bytes, WireClass::Message(_)) => true,
        (WireClass::Message(_), WireClass::Bytes) => true,
        (WireClass::Varint, WireClass::Varint) => true,
        (WireClass::ZigZag, WireClass::ZigZag) => true,
        (WireClass::Fixed32, WireClass::Fixed32) => true,
        (WireClass::Fixed64, WireClass::Fixed64) => true,
        (WireClass::Float, WireClass::Float) => true,
        (WireClass::Double, WireClass::Double) => true,
        (WireClass::Text, WireClass::Text) => true,
        (WireClass::Bytes, WireClass::Bytes) => true,
        _ => false,
    }
}

/// Compatibility of types goes both ways.
pub proof fn law_compatibility_is_symmetric(a: Seq<char>, a_enums: Seq<Seq<char>>, b: Seq<char>, b_enums: Seq<Seq<char>>)
    ensures
        types_compatible(a, a_enums, b, b_enums) == types_compatible(b, b_enums, a, a_enums),
{
}

/// A type is compatible with itself.
pub proof fn law_compatibility_is_reflexive(a: Seq<char>, enums: Seq<Seq<char>>)
    ensures
        types_compatible(a, enums, a, enums),
{
}

/// Whether the types of the keys of two fields allow them to be read as each other.
pub open spec fn keys_compatible(a: Option<Seq<char>>, a_enums: Seq<Seq<char>>, b: Option<Seq<char>>, b_enums: Seq<Seq<char>>) -> bool {
    match (a, b) {
        (Some(x), Some(y)) => types_compatible(x, a_enums, y, b_enums),
        (None, None) => true,
        _ => false,
    }
}

/// Whether two fields can be read as each other: they carry as many values, and the types of
/// their values and keys are compatible.
pub open spec fn fields_compatible(base: FieldView, base_enums: Seq<Seq<char>>, newer: FieldView, newer_enums: Seq<Seq<char>>) -> bool {
    &&& base.cardinality == newer.cardinality
    &&& keys_compatible(base.map_key, base_enums, newer.map_key, newer_enums)
    &&& types_compatible(base.value_type, base_enums, newer.value_type, newer_enums)
}

/// Whether two fields can be read as each other.
pub fn wire_fields_compatible(a: &ProtoWireField, a_enums: &[String], b: &ProtoWireField, b_enums: &[String]) -> (r: bool)
    ensures
        r == fields_compatible(a@, text::strings(a_enums@), b@, text::strings(b_enums@)),
{
    if a.cardinality != b.cardinality {
        return false;
    }
    let keys_ok = match (&a.map_key, &b.map_key) {
        (Some(x), Some(y)) => wire_types_compatible(x.as_str(), a_enums, y.as_str(), b_enums),
        (None, None) => true,
        _ => false,
    };
    keys_ok && wire_types_compatible(a.value_type.as_str(), a_enums, b.value_type.as_str(), b_enums)
}

/// The first field with a number.
pub open spec fn field_numbered(fs: Seq<FieldView>, n: u32) -> Option<FieldView>
    decreases fs.len(),
{
    if fs.len() == 0 {
        None
    } else if fs[0].number == n {
        Some(fs[0])
    } else {
        field_numbered(fs.drop_first(), n)
    }
}

/// The first message with a path.
pub open spec fn message_at(ms: Seq<MessageView>, path: Seq<char>) -> Option<MessageView>
    decreases ms.len(),
{
    if ms.len() == 0 {
        None
    } else if ms[0].path == path {
        Some(ms[0])
    } else {
        message_at(ms.drop_first(), path)
    }
}

/// The change that gives a number to another field.
pub open spec fn renamed(path: Seq<char>, a: FieldView, b: FieldView) -> ChangeView {
    ChangeView {
        rule: WireRule::FieldNumberReused,
        message: path,
        number: a.number,
        detail: "was `"@ + a.name + "` (`"@ + a.shown_type() + "`), now `"@ + b.name + "` (`"@ + b.shown_type()
            + "`): data written by either side is read as the other field"@,
        line: b.line,
    }
}

/// The change that gives a field a type that cannot be read as the old one.
pub open spec fn retyped(path: Seq<char>, a: FieldView, b: FieldView) -> ChangeView {
    let why = if a.cardinality != b.cardinality {
        "cardinality "@ + a.cardinality.word() + " -> "@ + b.cardinality.word()
    } else {
        "encodings are not interchangeable"@
    };
    ChangeView {
        rule: WireRule::IncompatibleType,
        message: path,
        number: a.number,
        detail: "`"@ + a.name + "`: `"@ + a.shown_type() + "` -> `"@ + b.shown_type() + "` ("@ + why + ")"@,
        line: b.line,
    }
}

/// The change that takes a field away and reserves nothing.
pub open spec fn deleted(path: Seq<char>, a: FieldView) -> ChangeView {
    ChangeView {
        rule: WireRule::DeletedWithoutReserved,
        message: path,
        number: a.number,
        detail: "`"@ + a.name + "` (`"@ + a.shown_type() + "`) was removed; add `reserved "@ + numbers::decimal(a.number as int)
            + ";` and `reserved \""@ + a.name + "\";` so the number is never reused"@,
        line: a.line,
    }
}

/// The change that uses a reserved number again.
pub open spec fn unreserved(path: Seq<char>, b: FieldView) -> ChangeView {
    ChangeView {
        rule: WireRule::FieldNumberReused,
        message: path,
        number: b.number,
        detail: "number "@ + numbers::decimal(b.number as int) + " was `reserved` in the base and is now `"@ + b.name + "` (`"@
            + b.shown_type() + "`): old data for the deleted field is read as this one"@,
        line: b.line,
    }
}

/// The change of a message at one field number that breaks readers.
pub open spec fn change_at(
    base: MessageView,
    base_enums: Seq<Seq<char>>,
    newer: MessageView,
    newer_enums: Seq<Seq<char>>,
    n: u32,
) -> Option<ChangeView> {
    match (field_numbered(base.fields, n), field_numbered(newer.fields, n)) {
        (Some(a), Some(b)) => if a.name != b.name {
            Some(renamed(base.path, a, b))
        } else if !fields_compatible(a, base_enums, b, newer_enums) {
            Some(retyped(base.path, a, b))
        } else {
            None
        },
        (Some(a), None) => if !newer.reserves_number(n) && !newer.reserves_name(a.name) {
            Some(deleted(base.path, a))
        } else {
            None
        },
        (None, Some(b)) => if base.reserves_number(n) {
            Some(unreserved(base.path, b))
        } else {
            None
        },
        (None, None) => None,
    }
}

/// A sorted list of numbers with one more put in its place, unless it is there already.
pub open spec fn with_number(s: Seq<u32>, n: u32) -> Seq<u32>
    decreases s.len(),
{
    if s.len() == 0 || s.last() < n {
        s.push(n)
    } else if s.last() == n {
        s
    } else {
        with_number(s.drop_last(), n).push(s.last())
    }
}

/// The numbers of fields, ascending, each once.
pub open spec fn field_numbers(fs: Seq<FieldView>) -> Seq<u32>
    decreases fs.len(),
{
    if fs.len() == 0 {
        Seq::empty()
    } else {
        with_number(field_numbers(fs.drop_last()), fs.last().number)
    }
}

/// Whether numbers ascend.
pub open spec fn numbers_ascend(s: Seq<u32>) -> bool {
    forall|i: int, j: int| 0 <= i < j < s.len() ==> #[trigger] s[i] < #[trigger] s[j]
}

proof fn lemma_with_number(s: Seq<u32>, n: u32)
    requires
        numbers_ascend(s),
    ensures
        numbers_ascend(with_number(s, n)),
        forall|x: u32| #[trigger] with_number(s, n).contains(x) <==> x == n || s.contains(x),
    decreases s.len(),
{
    let r = with_number(s, n);
    if s.len() == 0 || s.last() < n {
        assert forall|i: int, j: int| 0 <= i < j < r.len() implies #[trigger] r[i] < #[trigger] r[j] by {
            if j == s.len() && i < s.len() - 1 {
                assert(s[i] < s[s.len() - 1]);
            }
        }
        assert forall|x: u32| #[trigger] r.contains(x) <==> x == n || s.contains(x) by {
            if r.contains(x) && x != n {
                let k = choose|k: int| 0 <= k < r.len() && r[k] == x;
                assert(s[k] == x);
            }
            if s.contains(x) {
                let k = choose|k: int| 0 <= k < s.len() && s[k] == x;
                assert(r[k] == x);
            }
            if x == n {
                assert(r[s.len() as int] == n);
            }
        }
    } else if s.last() == n {
        assert(s[s.len() - 1] == n);
    } else {
        let front = s.drop_last();
        lemma_with_number(front, n);
        let inner = with_number(front, n);
        assert forall|i: int, j: int| 0 <= i < j < r.len() implies #[trigger] r[i] < #[trigger] r[j] by {
            assert(r[i] == inner[i]);
            if j == inner.len() {
                assert(inner.contains(inner[i]));
                if inner[i] != n {
                    let k = choose|k: int| 0 <= k < front.len() && front[k] == inner[i];
                    assert(s[k] < s[s.len() - 1]);
                }
            } else {
                assert(r[j] == inner[j]);
            }
        }
        assert forall|x: u32| #[trigger] r.contains(x) <==> x == n || s.contains(x) by {
            if r.contains(x) {
                let k = choose|k: int| 0 <= k < r.len() && r[k] == x;
                if k == inner.len() {
                    assert(s[s.len() - 1] == x);
                } else {
                    assert(inner[k] == x);
                    assert(inner.contains(x));
                    if x != n {
                        let m = choose|m: int| 0 <= m < front.len() && front[m] == x;
                        assert(s[m] == x);
                    }
                }
            }
            if x == n {
                assert(inner.contains(x));
                let k = choose|k: int| 0 <= k < inner.len() && inner[k] == x;
                assert(r[k] == x);
            } else if s.contains(x) {
                let k = choose|k: int| 0 <= k < s.len() && s[k] == x;
                if k == s.len() - 1 {
                    assert(r[inner.len() as int] == x);
                } else {
                    assert(front[k] == x);
                    assert(inner.contains(x));
                    let m = choose|m: int| 0 <= m < inner.len() && inner[m] == x;
                    assert(r[m] == x);
                }
            }
        }
    }
}

/// The numbers of fields ascend, and are those that some field has.
pub proof fn law_field_numbers(fs: Seq<FieldView>)
    ensures
        numbers_ascend(field_numbers(fs)),
        forall|n: u32| #[trigger] field_numbers(fs).contains(n) <==> field_numbered(fs, n) is Some,
    decreases fs.len(),
{
    if fs.len() > 0 {
        let front = fs.drop_last();
        law_field_numbers(front);
        lemma_with_number(field_numbers(front), fs.last().number);
        assert forall|n: u32| #[trigger] field_numbers(fs).contains(n) <==> field_numbered(fs, n) is Some by {
            lemma_field_numbered_back(fs, n);
            assert(with_number(field_numbers(front), fs.last().number).contains(n) <==> n == fs.last().number || field_numbers(
                front,
            ).contains(n));
        }
    }
}

proof fn lemma_field_numbered_back(fs: Seq<FieldView>, n: u32)
    requires
        fs.len() > 0,
    ensures
        field_numbered(fs, n) is Some <==> field_numbered(fs.drop_last(), n) is Some || fs.last().number == n,
    decreases fs.len(),
{
    if fs.len() > 1 && fs[0].number != n {
        assert(fs.drop_first().drop_last() == fs.drop_last().drop_first());
        assert(fs.drop_last()[0] == fs[0]);
        assert(fs.drop_first().last() == fs.last());
        lemma_field_numbered_back(fs.drop_first(), n);
    } else if fs.len() > 1 {
        assert(fs.drop_last()[0] == fs[0]);
    } else {
        assert(field_numbered(fs.drop_last(), n) is None);
        assert(field_numbered(fs.drop_first(), n) is None);
    }
}

/// The changes of a message at field numbers.
pub open spec fn changes_at(
    base: MessageView,
    base_enums: Seq<Seq<char>>,
    newer: MessageView,
    newer_enums: Seq<Seq<char>>,
    ns: Seq<u32>,
) -> Seq<ChangeView>
    decreases ns.len(),
{
    if ns.len() == 0 {
        Seq::empty()
    } else {
        model::with(changes_at(base, base_enums, newer, newer_enums, ns.drop_last()), change_at(base, base_enums, newer, newer_enums, ns.last()))
    }
}

/// What comparing the first `n` messages of a schema to another finds.
pub open spec fn diff_first(base: SchemaView, newer: SchemaView, n: int) -> DiffView
    decreases n,
{
    if n <= 0 {
        DiffView { breaking: Seq::empty(), removed_messages: Seq::empty() }
    } else {
        let rest = diff_first(base, newer, n - 1);
        let a = base.messages[n - 1];
        match message_at(newer.messages, a.path) {
            Some(b) => DiffView {
                breaking: rest.breaking + changes_at(a, base.enum_names, b, newer.enum_names, field_numbers(a.fields + b.fields)),
                ..rest
            },
            None => DiffView { removed_messages: rest.removed_messages.push(a.path), ..rest },
        }
    }
}

/// What comparing a schema to another finds: the messages that are gone, and for each that is
/// still there, in order, the changes at its field numbers, ascending, that break readers.
pub open spec fn schema_diff(base: SchemaView, newer: SchemaView) -> DiffView {
    diff_first(base, newer, base.messages.len() as int)
}

/// Whether no two messages of a schema have the same path.
pub open spec fn distinct_paths(s: SchemaView) -> bool {
    forall|i: int, j: int| 0 <= i < j < s.messages.len() ==> (#[trigger] s.messages[i]).path != (#[trigger] s.messages[j]).path
}

/// A schema compared to itself has not changed.
pub proof fn law_no_diff_to_itself(s: SchemaView)
    requires
        distinct_paths(s),
    ensures
        schema_diff(s, s) == (DiffView { breaking: Seq::empty(), removed_messages: Seq::empty() }),
{
    lemma_no_diff_first(s, s.messages.len() as int);
}

proof fn lemma_no_diff_first(s: SchemaView, n: int)
    requires
        distinct_paths(s),
        0 <= n <= s.messages.len(),
    ensures
        diff_first(s, s, n) == (DiffView { breaking: Seq::empty(), removed_messages: Seq::empty() }),
    decreases n,
{
    if n > 0 {
        lemma_no_diff_first(s, n - 1);
        let a = s.messages[n - 1];
        assert(s.messages.skip(0) == s.messages);
        lemma_message_found(s, n - 1, 0);
        lemma_no_changes(a, s.enum_names, field_numbers(a.fields + a.fields));
        assert(Seq::<ChangeView>::empty() + Seq::<ChangeView>::empty() == Seq::<ChangeView>::empty());
    }
}

proof fn lemma_message_found(s: SchemaView, i: int, k: int)
    requires
        distinct_paths(s),
        0 <= k <= i < s.messages.len(),
    ensures
        message_at(s.messages.skip(k), s.messages[i].path) == Some(s.messages[i]),
    decreases i - k,
{
    assert(s.messages.skip(k)[0] == s.messages[k]);
    if k < i {
        assert(s.messages.skip(k).drop_first() == s.messages.skip(k + 1));
        lemma_message_found(s, i, k + 1);
    }
}

proof fn lemma_no_changes(a: MessageView, enums: Seq<Seq<char>>, ns: Seq<u32>)
    ensures
        changes_at(a, enums, a, enums, ns) == Seq::<ChangeView>::empty(),
    decreases ns.len(),
{
    if ns.len() > 0 {
        lemma_no_changes(a, enums, ns.drop_last());
    }
}

proof fn lemma_field_has_number(fs: Seq<FieldView>, n: u32)
    ensures
        field_numbered(fs, n) matches Some(f) ==> f.number == n,
    decreases fs.len(),
{
    if fs.len() > 0 && fs[0].number != n {
        lemma_field_has_number(fs.drop_first(), n);
    }
}

proof fn lemma_changes_among(
    base: MessageView,
    base_enums: Seq<Seq<char>>,
    newer: MessageView,
    newer_enums: Seq<Seq<char>>,
    ns: Seq<u32>,
)
    requires
        numbers_ascend(ns),
    ensures
        ({
            let cs = changes_at(base, base_enums, newer, newer_enums, ns);
            &&& forall|i: int| 0 <= i < cs.len() ==> ns.contains((#[trigger] cs[i]).number)
            &&& forall|i: int, j: int| 0 <= i < j < cs.len() ==> (#[trigger] cs[i]).number < (#[trigger] cs[j]).number
        }),
    decreases ns.len(),
{
    if ns.len() > 0 {
        let front = ns.drop_last();
        let n = ns.last();
        lemma_changes_among(base, base_enums, newer, newer_enums, front);
        lemma_field_has_number(base.fields, n);
        lemma_field_has_number(newer.fields, n);
        let before = changes_at(base, base_enums, newer, newer_enums, front);
        let cs = changes_at(base, base_enums, newer, newer_enums, ns);
        assert(ns[ns.len() - 1] == n);
        assert forall|i: int| 0 <= i < before.len() implies ns.contains((#[trigger] before[i]).number) && before[i].number < n by {
            let k = choose|k: int| 0 <= k < front.len() && front[k] == before[i].number;
            assert(ns[k] == before[i].number);
            assert(ns[k] < ns[ns.len() - 1]);
        }
        assert forall|i: int| 0 <= i < cs.len() implies ns.contains((#[trigger] cs[i]).number) by {
            if i < before.len() {
                assert(cs[i] == before[i]);
            }
        }
        assert forall|i: int, j: int| 0 <= i < j < cs.len() implies (#[trigger] cs[i]).number < (#[trigger] cs[j]).number by {
            assert(cs[i] == before[i]);
            if j < before.len() {
                assert(cs[j] == before[j]);
            }
        }
    }
}

/// The changes that are found in a message stand in the order of their field numbers, at most
/// one for each number.
pub proof fn law_changes_ascend(
    base: MessageView,
    base_enums: Seq<Seq<char>>,
    newer: MessageView,
    newer_enums: Seq<Seq<char>>,
)
    ensures
        ({
            let cs = changes_at(base, base_enums, newer, newer_enums, field_numbers(base.fields + newer.fields));
            forall|i: int, j: int| 0 <= i < j < cs.len() ==> (#[trigger] cs[i]).number < (#[trigger] cs[j]).number
        }),
{
    law_field_numbers(base.fields + newer.fields);
    lemma_changes_among(base, base_enums, newer, newer_enums, field_numbers(base.fields + newer.fields));
}

/// Whether a newer version of a message keeps each field or reserves its number or its name,
/// and gives new fields only numbers that were not reserved.
pub open spec fn evolves(base: MessageView, newer: MessageView) -> bool {
    forall|n: u32|
        match (#[trigger] field_numbered(base.fields, n), field_numbered(newer.fields, n)) {
            (Some(a), Some(b)) => a == b,
            (Some(a), None) => newer.reserves_number(n) || newer.reserves_name(a.name),
            (None, Some(_)) => !base.reserves_number(n),
            (None, None) => true,
        }
}

/// A message that keeps its fields, reserves those that go and adds others under numbers that
/// were never used breaks no reader.
pub proof fn law_evolution_breaks_nothing(base: MessageView, newer: MessageView, enums: Seq<Seq<char>>, ns: Seq<u32>)
    requires
        evolves(base, newer),
    ensures
        changes_at(base, enums, newer, enums, ns) == Seq::<ChangeView>::empty(),
    decreases ns.len(),
{
    if ns.len() > 0 {
        law_evolution_breaks_nothing(base, newer, enums, ns.drop_last());
        let n = ns.last();
        assert(change_at(base, enums, newer, enums, n) is None) by {
            match (field_numbered(base.fields, n), field_numbered(newer.fields, n)) {
                (Some(a), Some(b)) => {
                    assert(fields_compatible(a, enums, b, enums));
                },
                _ => {},
            }
        }
    }
}

/// A message with one field more.
pub open spec fn with_field(m: MessageView, f: FieldView) -> MessageView {
    MessageView { fields: m.fields.push(f), ..m }
}

/// A schema whose message `m` has one field more.
pub open spec fn with_field_in(s: SchemaView, m: int, f: FieldView) -> SchemaView {
    SchemaView { messages: s.messages.update(m, with_field(s.messages[m], f)), ..s }
}

/// Whether a number is new to a message: no field has it, and it is not reserved.
pub open spec fn is_fresh(m: MessageView, n: u32) -> bool {
    field_numbered(m.fields, n) is None && !m.reserves_number(n)
}

proof fn lemma_field_numbered_push(fs: Seq<FieldView>, f: FieldView, n: u32)
    requires
        n != f.number,
    ensures
        field_numbered(fs.push(f), n) == field_numbered(fs, n),
    decreases fs.len(),
{
    if fs.len() > 0 {
        assert(fs.push(f)[0] == fs[0]);
        assert(fs.push(f).drop_first() == fs.drop_first().push(f));
        lemma_field_numbered_push(fs.drop_first(), f, n);
    } else {
        assert(fs.push(f).drop_first() == fs);
    }
}

proof fn lemma_fresh_number_adds_no_change(
    base: MessageView,
    base_enums: Seq<Seq<char>>,
    newer: MessageView,
    newer_enums: Seq<Seq<char>>,
    f: FieldView,
    ns: Seq<u32>,
)
    requires
        is_fresh(base, f.number),
        numbers_ascend(ns),
        !ns.contains(f.number),
    ensures
        changes_at(base, base_enums, with_field(newer, f), newer_enums, with_number(ns, f.number)) == changes_at(
            base,
            base_enums,
            newer,
            newer_enums,
            ns,
        ),
        changes_at(base, base_enums, with_field(newer, f), newer_enums, ns) == changes_at(
            base,
            base_enums,
            newer,
            newer_enums,
            ns,
        ),
    decreases ns.len(),
{
    let n = f.number;
    let more = with_field(newer, f);
    assert(change_at(base, base_enums, more, newer_enums, n) is None);
    if ns.len() > 0 {
        let front = ns.drop_last();
        let last = ns.last();
        assert(ns[ns.len() - 1] == last);
        assert(last != n);
        assert(!front.contains(n)) by {
            if front.contains(n) {
                let k = choose|k: int| 0 <= k < front.len() && front[k] == n;
                assert(ns[k] == n);
            }
        }
        assert forall|i: int, j: int| 0 <= i < j < front.len() implies #[trigger] front[i] < #[trigger] front[j] by {
            assert(ns[i] < ns[j]);
        }
        lemma_fresh_number_adds_no_change(base, base_enums, newer, newer_enums, f, front);
        lemma_field_numbered_push(newer.fields, f, last);
        assert(more.reserved_ranges == newer.reserved_ranges && more.reserved_names == newer.reserved_names);
        assert(more.reserves_number(last) == newer.reserves_number(last));
        assert(change_at(base, base_enums, more, newer_enums, last) == change_at(base, base_enums, newer, newer_enums, last));
        assert(changes_at(base, base_enums, more, newer_enums, ns) == changes_at(base, base_enums, newer, newer_enums, ns));
        if last < n {
            assert(with_number(ns, n) == ns.push(n));
            assert(with_number(ns, n).drop_last() == ns);
            assert(with_number(ns, n).last() == n);
            assert(changes_at(base, base_enums, more, newer_enums, with_number(ns, n)) == changes_at(base, base_enums, more, newer_enums, ns));
        } else {
            assert(with_number(ns, n) == with_number(front, n).push(last));
            assert(with_number(ns, n).drop_last() == with_number(front, n));
            assert(with_number(ns, n).last() == last);
            assert(changes_at(base, base_enums, more, newer_enums, with_number(ns, n)) == changes_at(base, base_enums, newer, newer_enums, ns));
        }
    } else {
        assert(with_number(ns, n).drop_last() == ns);
        assert(with_number(ns, n).last() == n);
        assert(changes_at(base, base_enums, more, newer_enums, with_number(ns, n)) == changes_at(base, base_enums, more, newer_enums, ns));
    }
}

proof fn lemma_message_at_update(ms: Seq<MessageView>, m: int, x: MessageView, path: Seq<char>)
    requires
        0 <= m < ms.len(),
        x.path == ms[m].path,
    ensures
        ({
            ||| message_at(ms.update(m, x), path) == message_at(ms, path)
            ||| path == x.path && message_at(ms, path) == Some(ms[m]) && message_at(ms.update(m, x), path) == Some(x)
        }),
    decreases ms.len(),
{
    let us = ms.update(m, x);
    if m == 0 {
        assert(us.drop_first() == ms.drop_first());
    } else {
        assert(us[0] == ms[0]);
        assert(us.drop_first() == ms.drop_first().update(m - 1, x));
        lemma_message_at_update(ms.drop_first(), m - 1, x, path);
    }
}

proof fn lemma_fresh_field_first(base: SchemaView, newer: SchemaView, m: int, f: FieldView, k: int)
    requires
        0 <= m < newer.messages.len(),
        field_numbered(newer.messages[m].fields, f.number) is None,
        forall|i: int|
            0 <= i < base.messages.len() && (#[trigger] base.messages[i]).path == newer.messages[m].path ==> is_fresh(
                base.messages[i],
                f.number,
            ),
        0 <= k <= base.messages.len(),
    ensures
        diff_first(base, with_field_in(newer, m, f), k) == diff_first(base, newer, k),
    decreases k,
{
    if k > 0 {
        lemma_fresh_field_first(base, newer, m, f, k - 1);
        let a = base.messages[k - 1];
        let b = newer.messages[m];
        lemma_message_at_update(newer.messages, m, with_field(b, f), a.path);
        if a.path == b.path && message_at(newer.messages, a.path) == Some(b) {
            let fs = a.fields + b.fields;
            law_field_numbers(fs);
            assert((a.fields + with_field(b, f).fields).drop_last() == fs);
            assert((a.fields + with_field(b, f).fields).last() == f);
            lemma_field_numbered_concat(a.fields, b.fields, f.number);
            lemma_fresh_number_adds_no_change(a, base.enum_names, b, newer.enum_names, f, field_numbers(fs));
        }
    }
}

proof fn lemma_field_numbered_concat(a: Seq<FieldView>, b: Seq<FieldView>, n: u32)
    requires
        field_numbered(a, n) is None,
        field_numbered(b, n) is None,
    ensures
        field_numbered(a + b, n) is None,
    decreases a.len(),
{
    if a.len() > 0 {
        assert((a + b)[0] == a[0]);
        assert((a + b).drop_first() == a.drop_first() + b);
        lemma_field_numbered_concat(a.drop_first(), b, n);
    } else {
        assert(a + b == b);
    }
}

/// A field more under a number that neither version of its message used, and that the base did
/// not reserve, changes nothing of what comparing the two schemas finds.
pub proof fn law_fresh_fields_change_no_diff(base: SchemaView, newer: SchemaView, m: int, f: FieldView)
    requires
        0 <= m < newer.messages.len(),
        field_numbered(newer.messages[m].fields, f.number) is None,
        forall|i: int|
            0 <= i < base.messages.len() && (#[trigger] base.messages[i]).path == newer.messages[m].path ==> is_fresh(
                base.messages[i],
                f.number,
            ),
    ensures
        schema_diff(base, with_field_in(newer, m, f)) == schema_diff(base, newer),
{
    lemma_fresh_field_first(base, newer, m, f, base.messages.len() as int);
}

/// The place of the first field with a number.
fn find_field(fs: &Vec<ProtoWireField>, n: u32) -> (r: Option<usize>)
    ensures
        r matches Some(k) ==> k < fs@.len() && field_numbered(fields_view(fs@), n) == Some(fs@[k as int]@),
        r is None ==> field_numbered(fields_view(fs@), n) is None,
{
    let ghost fv = fields_view(fs@);
    let mut j: usize = 0;
    assert(fv.skip(0) == fv);
    while j < fs.len()
        invariant
            0 <= j <= fs@.len(),
            fv == fields_view(fs@),
            field_numbered(fv, n) == field_numbered(fv.skip(j as int), n),
        decreases fs@.len() - j,
    {
        proof {
            crate::syntax::lemma_skip_step(fv, j as int);
            assert(fv[j as int] == fs@[j as int]@);
        }
        if fs[j].number == n {
            return Some(j);
        }
        j += 1;
    }
    None
}

/// The place of the first message with a path.
fn find_message(ms: &Vec<ProtoWireMessage>, path: &str) -> (r: Option<usize>)
    ensures
        r matches Some(k) ==> k < ms@.len() && message_at(messages_view(ms@), path@) == Some(ms@[k as int]@),
        r is None ==> message_at(messages_view(ms@), path@) is None,
{
    let ghost mv = messages_view(ms@);
    let mut j: usize = 0;
    assert(mv.skip(0) == mv);
    while j < ms.len()
        invariant
            0 <= j <= ms@.len(),
            mv == messages_view(ms@),
            message_at(mv, path@) == message_at(mv.skip(j as int), path@),
        decreases ms@.len() - j,
    {
        proof {
            crate::syntax::lemma_skip_step(mv, j as int);
            assert(mv[j as int] == ms@[j as int]@);
        }
        if text::same(ms[j].path.as_str(), path) {
            return Some(j);
        }
        j += 1;
    }
    None
}

/// Puts a number in its place in a sorted list, unless it is there already.
fn add_number(v: &mut Vec<u32>, n: u32)
    ensures
        final(v)@ == with_number(old(v)@, n),
{
    let ghost vv = v@;
    let mut p: usize = v.len();
    assert(vv.take(p as int) == vv);
    assert(with_number(vv.take(p as int), n) + vv.skip(p as int) == with_number(vv, n));
    while p > 0 && v[p - 1] >= n
        invariant
            p <= v@.len(),
            v@ == old(v)@,
            vv == v@,
            with_number(vv.take(p as int), n) + vv.skip(p as int) == with_number(vv, n),
        decreases p,
    {
        assert(vv.take(p as int).last() == vv[p - 1]);
        if v[p - 1] == n {
            assert(vv.take(p as int) + vv.skip(p as int) == vv);
            return;
        }
        proof {
            assert(vv.take(p as int).drop_last() == vv.take(p - 1));
            let inner = with_number(vv.take(p - 1), n);
            assert(inner.push(vv[p - 1]) + vv.skip(p as int) == inner + vv.skip(p - 1));
        }
        p -= 1;
    }
    proof {
        if p > 0 {
            assert(vv.take(p as int).last() == vv[p - 1]);
        }
        assert(with_number(vv.take(p as int), n) == vv.take(p as int).push(n));
    }
    v.insert(p, n);
    assert(v@ == vv.take(p as int).push(n) + vv.skip(p as int));
}

/// The numbers of the fields of two messages, ascending, each once.
fn numbers_of(a: &Vec<ProtoWireField>, b: &Vec<ProtoWireField>) -> (r: Vec<u32>)
    ensures
        r@ == field_numbers(fields_view(a@) + fields_view(b@)),
{
    let ghost all = fields_view(a@) + fields_view(b@);
    let mut out: Vec<u32> = Vec::new();
    let mut j: usize = 0;
    assert(out@ == field_numbers(all.take(0)));
    while j < a.len()
        invariant
            0 <= j <= a@.len(),
            all == fields_view(a@) + fields_view(b@),
            out@ == field_numbers(all.take(j as int)),
        decreases a@.len() - j,
    {
        proof {
            crate::syntax::lemma_take_step(all, j as int);
            assert(all[j as int] == a@[j as int]@);
        }
        add_number(&mut out, a[j].number);
        j += 1;
    }
    let mut k: usize = 0;
    while k < b.len()
        invariant
            0 <= k <= b@.len(),
            all == fields_view(a@) + fields_view(b@),
            out@ == field_numbers(all.take(a@.len() + k)),
        decreases b@.len() - k,
    {
        proof {
            crate::syntax::lemma_take_step(all, a@.len() + k);
            assert(all[a@.len() + k] == b@[k as int]@);
        }
        add_number(&mut out, b[k].number);
        k += 1;
    }
    assert(all.take(a@.len() + k) == all);
    out
}

/// Appends texts and literals in turn.
fn push_parts(out: &mut String, before: &str, s: &str)
    ensures
        final(out)@ == old(out)@ + before@ + s@,
{
    let a = text::chars_of(before);
    let b = text::chars_of(s);
    text::push_chars(out, a.as_slice());
    text::push_chars(out, b.as_slice());
}

fn rename_change(path: &str, a: &ProtoWireField, b: &ProtoWireField) -> (r: WireBreakingChange)
    ensures
        r@ == renamed(path@, a@, b@),
{
    let old_type = a.type_label();
    let new_type = b.type_label();
    let mut detail = text::copy("was `");
    push_parts(&mut detail, a.name.as_str(), "` (`");
    push_parts(&mut detail, old_type.as_str(), "`), now `");
    push_parts(&mut detail, b.name.as_str(), "` (`");
    push_parts(&mut detail, new_type.as_str(), "`): data written by either side is read as the other field");
    WireBreakingChange {
        rule: WireRule::FieldNumberReused,
        message: text::copy(path),
        number: a.number,
        detail,
        line: b.line,
    }
}

fn retype_change(path: &str, a: &ProtoWireField, b: &ProtoWireField) -> (r: WireBreakingChange)
    ensures
        r@ == retyped(path@, a@, b@),
{
    let old_type = a.type_label();
    let new_type = b.type_label();
    let why = if a.cardinality != b.cardinality {
        let mut s = text::copy("cardinality ");
        push_parts(&mut s, a.cardinality.label(), " -> ");
        let tail = text::chars_of(b.cardinality.label());
        text::push_chars(&mut s, tail.as_slice());
        s
    } else {
        text::copy("encodings are not interchangeable")
    };
    let mut detail = text::copy("`");
    push_parts(&mut detail, a.name.as_str(), "`: `");
    push_parts(&mut detail, old_type.as_str(), "` -> `");
    push_parts(&mut detail, new_type.as_str(), "` (");
    push_parts(&mut detail, why.as_str(), ")");
    WireBreakingChange { rule: WireRule::IncompatibleType, message: text::copy(path), number: a.number, detail, line: b.line }
}

fn delete_change(path: &str, a: &ProtoWireField) -> (r: WireBreakingChange)
    ensures
        r@ == deleted(path@, a@),
{
    let old_type = a.type_label();
    let digits = numbers::decimal_of(a.number as usize);
    let mut detail = text::copy("`");
    push_parts(&mut detail, a.name.as_str(), "` (`");
    push_parts(&mut detail, old_type.as_str(), "`) was removed; add `reserved ");
    text::push_chars(&mut detail, digits.as_slice());
    push_parts(&mut detail, ";` and `reserved \"", a.name.as_str());
    let tail = text::chars_of("\";` so the number is never reused");
    text::push_chars(&mut detail, tail.as_slice());
    WireBreakingChange {
        rule: WireRule::DeletedWithoutReserved,
        message: text::copy(path),
        number: a.number,
        detail,
        line: a.line,
    }
}

fn unreserve_change(path: &str, b: &ProtoWireField) -> (r: WireBreakingChange)
    ensures
        r@ == unreserved(path@, b@),
{
    let new_type = b.type_label();
    let digits = numbers::decimal_of(b.number as usize);
    let mut detail = text::copy("number ");
    text::push_chars(&mut detail, digits.as_slice());
    push_parts(&mut detail, " was `reserved` in the base and is now `", b.name.as_str());
    push_parts(&mut detail, "` (`", new_type.as_str());
    let tail = text::chars_of("`): old data for the deleted field is read as this one");
    text::push_chars(&mut detail, tail.as_slice());
    WireBreakingChange {
        rule: WireRule::FieldNumberReused,
        message: text::copy(path),
        number: b.number,
        detail,
        line: b.line,
    }
}

/// The change of a message at one field number that breaks readers.
fn change_of(a: &ProtoWireMessage, a_enums: &Vec<String>, b: &ProtoWireMessage, b_enums: &Vec<String>, n: u32) -> (r: Option<WireBreakingChange>)
    ensures
        crate::syntax::opt_view(r) == change_at(a@, text::strings(a_enums@), b@, text::strings(b_enums@), n),
{
    match (find_field(&a.fields, n), find_field(&b.fields, n)) {
        (Some(i), Some(j)) => {
            let x = &a.fields[i];
            let y = &b.fields[j];
            if !text::same(x.name.as_str(), y.name.as_str()) {
                Some(rename_change(a.path.as_str(), x, y))
            } else if !wire_fields_compatible(x, a_enums.as_slice(), y, b_enums.as_slice()) {
                Some(retype_change(a.path.as_str(), x, y))
            } else {
                None
            }
        },
        (Some(i), None) => {
            let x = &a.fields[i];
            if !b.is_number_reserved(n) && !b.is_name_reserved(x.name.as_str()) {
                Some(delete_change(a.path.as_str(), x))
            } else {
                None
            }
        },
        (None, Some(j)) => if a.is_number_reserved(n) {
            Some(unreserve_change(a.path.as_str(), &b.fields[j]))
        } else {
            None
        },
        (None, None) => None,
    }
}

/// Adds the changes of a message that break readers.
fn diff_message(a: &ProtoWireMessage, a_enums: &Vec<String>, b: &ProtoWireMessage, b_enums: &Vec<String>, out: &mut Vec<WireBreakingChange>)
    ensures
        changes_view(final(out)@) == changes_view(old(out)@) + changes_at(
            a@,
            text::strings(a_enums@),
            b@,
            text::strings(b_enums@),
            field_numbers(a@.fields + b@.fields),
        ),
{
    let ghost start = changes_view(out@);
    let ghost ae = text::strings(a_enums@);
    let ghost be = text::strings(b_enums@);
    let ns = numbers_of(&a.fields, &b.fields);
    let mut j: usize = 0;
    assert(start + changes_at(a@, ae, b@, be, ns@.take(0)) == start);
    while j < ns.len()
        invariant
            0 <= j <= ns@.len(),
            ae == text::strings(a_enums@),
            be == text::strings(b_enums@),
            changes_view(out@) == start + changes_at(a@, ae, b@, be, ns@.take(j as int)),
        decreases ns@.len() - j,
    {
        proof {
            crate::syntax::lemma_take_step(ns@, j as int);
        }
        match change_of(a, a_enums, b, b_enums, ns[j]) {
            Some(c) => {
                let ghost rest = changes_at(a@, ae, b@, be, ns@.take(j as int));
                let ghost before = out@;
                out.push(c);
                assert(changes_view(out@) == changes_view(before).push(c@));
                assert(start + rest.push(c@) == (start + rest).push(c@));
            },
            None => {},
        }
        j += 1;
    }
    assert(ns@.take(j as int) == ns@);
}

/// Compares a schema to a newer one: what is gone, and what breaks readers. The findings come
/// in the order of the old schema's messages, then of field numbers.
pub fn diff_wire_schemas(base: &ProtoWireSchema, newer: &ProtoWireSchema) -> (r: WireDiff)
    ensures
        r@ == schema_diff(base@, newer@),
{
    let ghost ov = base@;
    let ghost nv = newer@;
    let mut diff = WireDiff::default();
    let mut j: usize = 0;
    while j < base.messages.len()
        invariant
            0 <= j <= base.messages@.len(),
            ov == base@,
            nv == newer@,
            diff@ == diff_first(ov, nv, j as int),
        decreases base.messages@.len() - j,
    {
        let a = &base.messages[j];
        assert(ov.messages[j as int] == a@);
        match find_message(&newer.messages, a.path.as_str()) {
            Some(k) => {
                diff_message(a, &base.enum_names, &newer.messages[k], &newer.enum_names, &mut diff.breaking);
            },
            None => {
                model::push_string(&mut diff.removed_messages, text::copy(a.path.as_str()));
            },
        }
        j += 1;
    }
    assert(ov.messages.len() == base.messages@.len());
    diff
}

} // verus!
