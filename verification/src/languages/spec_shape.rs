//! What an AsyncAPI or an OpenAPI document declares, read off its YAML.
//!
//! A document of any shape can be read: where a list or a mapping is wanted and something
//! else stands there, nothing is declared. Tags are read through. A key that occurs twice is
//! no error, and each occurrence counts.
use vstd::prelude::*;
use crate::model;
use crate::text;

verus! {

/// A YAML node, its entries in the document's order.
#[derive(Debug)]
pub enum YamlNode {
    /// A scalar that is a string.
    Text(String),
    /// A null, a truth value or a number.
    Scalar,
    Sequence(Vec<YamlNode>),
    Mapping(Vec<(YamlNode, YamlNode)>),
    /// A node behind a tag.
    Tagged(Box<YamlNode>),
}

/// What an AsyncAPI document declares, each list in the document's order.
#[derive(Debug, Clone)]
pub struct AsyncApiShape {
    /// The keys under `channels`.
    pub channels: Vec<String>,
    /// The strings in the list under `topics`.
    pub topics: Vec<String>,
}

/// An AsyncAPI document, as a mathematical value.
#[verifier::ext_equal]
pub struct AsyncApiView {
    pub channels: Seq<Seq<char>>,
    pub topics: Seq<Seq<char>>,
}

impl View for AsyncApiShape {
    type V = AsyncApiView;

    open spec fn view(&self) -> AsyncApiView {
        AsyncApiView { channels: text::strings(self.channels@), topics: text::strings(self.topics@) }
    }
}

/// What an OpenAPI document declares, in the document's order.
#[derive(Debug, Clone)]
pub struct OpenApiShape {
    /// The keys under `paths`, each with the keys under it.
    pub paths: Vec<(String, Vec<String>)>,
}

/// The paths of a document, each with its methods, as mathematical values.
pub open spec fn paths_view(v: Seq<(String, Vec<String>)>) -> Seq<(Seq<char>, Seq<Seq<char>>)> {
    v.map_values(|e: (String, Vec<String>)| (e.0@, text::strings(e.1@)))
}

/// A YAML document read as either kind of spec, where it can be read at all.
#[derive(Debug, Clone)]
pub struct SpecShapes {
    pub asyncapi: Option<AsyncApiShape>,
    pub openapi: Option<OpenApiShape>,
}

/// A node without its tags.
pub open spec fn untagged(n: YamlNode) -> YamlNode
    decreases n,
{
    match n {
        YamlNode::Tagged(inner) => untagged(*inner),
        _ => n,
    }
}

/// The string that a node is.
pub open spec fn text_of(n: YamlNode) -> Option<Seq<char>> {
    match untagged(n) {
        YamlNode::Text(s) => Some(s@),
        _ => None,
    }
}

/// The items of a list, if a node is one.
pub open spec fn items_of(n: YamlNode) -> Seq<YamlNode> {
    match untagged(n) {
        YamlNode::Sequence(items) => items@,
        _ => Seq::empty(),
    }
}

/// The entries of a mapping, if a node is one.
pub open spec fn entries_of(n: YamlNode) -> Seq<(YamlNode, YamlNode)> {
    match untagged(n) {
        YamlNode::Mapping(entries) => entries@,
        _ => Seq::empty(),
    }
}

/// Those nodes that are strings.
pub open spec fn texts_among(ns: Seq<YamlNode>) -> Seq<Seq<char>>
    decreases ns.len(),
{
    if ns.len() == 0 {
        Seq::empty()
    } else {
        match text_of(ns.last()) {
            Some(s) => texts_among(ns.drop_last()).push(s),
            None => texts_among(ns.drop_last()),
        }
    }
}

/// The keys of a mapping that are strings.
pub open spec fn keys_of(n: YamlNode) -> Seq<Seq<char>> {
    texts_among(entries_of(n).map_values(|e: (YamlNode, YamlNode)| e.0))
}

/// The string keys among some entries, each with the string keys of its value.
pub open spec fn keys_below(es: Seq<(YamlNode, YamlNode)>) -> Seq<(Seq<char>, Seq<Seq<char>>)>
    decreases es.len(),
{
    if es.len() == 0 {
        Seq::empty()
    } else {
        match text_of(es.last().0) {
            Some(s) => keys_below(es.drop_last()).push((s, keys_of(es.last().1))),
            None => keys_below(es.drop_last()),
        }
    }
}

/// The value of the last of some entries with a given key.
pub open spec fn last_value(es: Seq<(YamlNode, YamlNode)>, key: Seq<char>) -> Option<YamlNode>
    decreases es.len(),
{
    if es.len() == 0 {
        None
    } else if text_of(es.last().0) == Some(key) {
        Some(es.last().1)
    } else {
        last_value(es.drop_last(), key)
    }
}

/// The channels and topics of a document.
pub open spec fn asyncapi_of(n: YamlNode) -> AsyncApiView {
    AsyncApiView {
        channels: match last_value(entries_of(n), "channels"@) {
            Some(v) => keys_of(v),
            None => Seq::empty(),
        },
        topics: match last_value(entries_of(n), "topics"@) {
            Some(v) => texts_among(items_of(v)),
            None => Seq::empty(),
        },
    }
}

/// The paths of a document with their methods.
pub open spec fn openapi_of(n: YamlNode) -> Seq<(Seq<char>, Seq<Seq<char>>)> {
    match last_value(entries_of(n), "paths"@) {
        Some(v) => keys_below(entries_of(v)),
        None => Seq::empty(),
    }
}

/// Tags change nothing of what a document declares.
pub proof fn law_tags_are_transparent(n: YamlNode)
    ensures
        asyncapi_of(YamlNode::Tagged(Box::new(n))) == asyncapi_of(n),
        openapi_of(YamlNode::Tagged(Box::new(n))) == openapi_of(n),
{
}

/// A document that is no mapping declares nothing.
pub proof fn law_other_roots_declare_nothing(n: YamlNode)
    requires
        !(untagged(n) is Mapping),
    ensures
        asyncapi_of(n) == (AsyncApiView { channels: Seq::empty(), topics: Seq::empty() }),
        openapi_of(n) == Seq::<(Seq<char>, Seq<Seq<char>>)>::empty(),
{
}

/// A key that occurs again is listed again, after those before it.
pub proof fn law_every_occurrence_is_listed(es: Seq<(YamlNode, YamlNode)>, key: Seq<char>, k: YamlNode, v: YamlNode)
    requires
        text_of(k) == Some(key),
    ensures
        keys_below(es.push((k, v))) == keys_below(es).push((key, keys_of(v))),
        last_value(es.push((k, v)), key) == Some(v),
{
    assert(es.push((k, v)).drop_last() == es);
}

impl YamlNode {
    /// The node without its tags.
    pub fn content(&self) -> (r: &YamlNode)
        ensures
            *r == untagged(*self),
        decreases self,
    {
        match self {
            YamlNode::Tagged(inner) => inner.content(),
            _ => self,
        }
    }

    /// The string that the node is.
    pub fn text(&self) -> (r: Option<&str>)
        ensures
            match r {
                Some(s) => text_of(*self) == Some(s@),
                None => text_of(*self) is None,
            },
    {
        match self.content() {
            YamlNode::Text(s) => Some(s.as_str()),
            _ => None,
        }
    }

    /// The string keys of a mapping; none if the node is not one.
    pub fn keys(&self) -> (r: Vec<String>)
        ensures
            text::strings(r@) == keys_of(*self),
    {
        let ghost ks = entries_of(*self).map_values(|e: (YamlNode, YamlNode)| e.0);
        let mut out: Vec<String> = Vec::new();
        match self.content() {
            YamlNode::Mapping(entries) => {
                let mut i: usize = 0;
                assert(ks.take(0) == Seq::<YamlNode>::empty());
                assert(text::strings(out@) == texts_among(ks.take(0)));
                while i < entries.len()
                    invariant
                        i <= entries@.len(),
                        ks == entries@.map_values(|e: (YamlNode, YamlNode)| e.0),
                        text::strings(out@) == texts_among(ks.take(i as int)),
                    decreases entries@.len() - i,
                {
                    proof {
                        assert(ks.take(i + 1).drop_last() == ks.take(i as int));
                        assert(ks.take(i + 1).last() == entries@[i as int].0);
                    }
                    match entries[i].0.text() {
                        Some(s) => {
                            model::push_string(&mut out, text::copy(s));
                        },
                        None => {},
                    }
                    i += 1;
                }
                assert(ks.take(ks.len() as int) == ks);
            },
            _ => {
                assert(ks == Seq::<YamlNode>::empty());
                assert(text::strings(out@) == texts_among(ks));
            },
        }
        out
    }

    /// The strings of a list; none if the node is not one.
    pub fn strings(&self) -> (r: Vec<String>)
        ensures
            text::strings(r@) == texts_among(items_of(*self)),
    {
        let mut out: Vec<String> = Vec::new();
        match self.content() {
            YamlNode::Sequence(items) => {
                let mut i: usize = 0;
                assert(items@.take(0) == Seq::<YamlNode>::empty());
                assert(text::strings(out@) == texts_among(items@.take(0)));
                while i < items.len()
                    invariant
                        i <= items@.len(),
                        text::strings(out@) == texts_among(items@.take(i as int)),
                    decreases items@.len() - i,
                {
                    proof {
                        assert(items@.take(i + 1).drop_last() == items@.take(i as int));
                    }
                    match items[i].text() {
                        Some(s) => {
                            model::push_string(&mut out, text::copy(s));
                        },
                        None => {},
                    }
                    i += 1;
                }
                assert(items@.take(items@.len() as int) == items@);
            },
            _ => {
                assert(text::strings(out@) == texts_among(items_of(*self)));
            },
        }
        out
    }

    /// The value of the last entry of a mapping with a given key.
    pub fn field(&self, key: &str) -> (r: Option<&YamlNode>)
        ensures
            match r {
                Some(v) => last_value(entries_of(*self), key@) == Some(*v),
                None => last_value(entries_of(*self), key@) is None,
            },
    {
        match self.content() {
            YamlNode::Mapping(entries) => {
                let mut i: usize = entries.len();
                assert(entries@.take(i as int) == entries@);
                while i > 0
                    invariant
                        i <= entries@.len(),
                        entries_of(*self) == entries@,
                        last_value(entries@, key@) == last_value(entries@.take(i as int), key@),
                    decreases i,
                {
                    i -= 1;
                    proof {
                        assert(entries@.take(i + 1).drop_last() == entries@.take(i as int));
                        assert(entries@.take(i + 1).last() == entries@[i as int]);
                    }
                    match entries[i].0.text() {
                        Some(s) => {
                            if text::same(s, key) {
                                return Some(&entries[i].1);
                            }
                        },
                        None => {},
                    }
                }
                None
            },
            _ => None,
        }
    }

    /// The string keys of a mapping, each with the string keys of its value; none if the node
    /// is not a mapping.
    pub fn nested_keys(&self) -> (r: Vec<(String, Vec<String>)>)
        ensures
            paths_view(r@) == keys_below(entries_of(*self)),
    {
        let mut out: Vec<(String, Vec<String>)> = Vec::new();
        match self.content() {
            YamlNode::Mapping(entries) => {
                let mut i: usize = 0;
                assert(entries@.take(0) == Seq::<(YamlNode, YamlNode)>::empty());
                assert(paths_view(out@) == keys_below(entries@.take(0)));
                while i < entries.len()
                    invariant
                        i <= entries@.len(),
                        paths_view(out@) == keys_below(entries@.take(i as int)),
                    decreases entries@.len() - i,
                {
                    proof {
                        assert(entries@.take(i + 1).drop_last() == entries@.take(i as int));
                        assert(entries@.take(i + 1).last() == entries@[i as int]);
                    }
                    match entries[i].0.text() {
                        Some(s) => {
                            let ghost before = out@;
                            out.push((text::copy(s), entries[i].1.keys()));
                            assert(paths_view(out@) == paths_view(before).push(
                                (s@, keys_of(entries@[i as int].1)),
                            ));
                        },
                        None => {},
                    }
                    i += 1;
                }
                assert(entries@.take(entries@.len() as int) == entries@);
            },
            _ => {
                assert(paths_view(out@) == keys_below(entries_of(*self)));
            },
        }
        out
    }
}

impl AsyncApiShape {
    /// The channels and topics of a document.
    pub fn of(root: &YamlNode) -> (r: AsyncApiShape)
        ensures
            r@ == asyncapi_of(*root),
    {
        let channels = match root.field("channels") {
            Some(v) => v.keys(),
            None => Vec::new(),
        };
        let topics = match root.field("topics") {
            Some(v) => v.strings(),
            None => Vec::new(),
        };
        let r = AsyncApiShape { channels, topics };
        assert(r@ == asyncapi_of(*root));
        r
    }
}

impl OpenApiShape {
    /// The paths of a document with their methods.
    pub fn of(root: &YamlNode) -> (r: OpenApiShape)
        ensures
            paths_view(r.paths@) == openapi_of(*root),
    {
        let paths = match root.field("paths") {
            Some(v) => v.nested_keys(),
            None => Vec::new(),
        };
        assert(paths_view(paths@) == openapi_of(*root));
        OpenApiShape { paths }
    }
}

impl SpecShapes {
    /// No document.
    pub fn none() -> (r: SpecShapes)
        ensures
            r.asyncapi is None,
            r.openapi is None,
    {
        SpecShapes { asyncapi: None, openapi: None }
    }

    /// A document read as both kinds of spec.
    pub fn of(root: &YamlNode) -> (r: SpecShapes)
        ensures
            r.asyncapi matches Some(a) && a@ == asyncapi_of(*root),
            r.openapi matches Some(o) && paths_view(o.paths@) == openapi_of(*root),
    {
        SpecShapes { asyncapi: Some(AsyncApiShape::of(root)), openapi: Some(OpenApiShape::of(root)) }
    }
}

} // verus!
