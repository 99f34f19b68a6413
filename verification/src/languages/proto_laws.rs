//! What holds of what is read from protobuf files.
use vstd::prelude::*;
use crate::languages::proto;
use crate::languages::proto::{ProtoFile, ProtoRules, ProtoScope};
use crate::languages::walk_laws;
use crate::languages::walk_laws::{declares, is_declared, stands_under};
use crate::languages::wire::{FieldView, ProtoCardinality};
use crate::model::{ContractNodeView, NodeKind, RepoId};
use crate::syntax;
use crate::syntax::TreeView;
use crate::text;

verus! {

/// Whether node `i` is an item of a file: it stands right below the root.
pub open spec fn is_item(t: TreeView, i: int) -> bool {
    &&& syntax::nested(t)
    &&& t.valid(i)
    &&& syntax::level(t, i) <= usize::MAX
    &&& 0 < i < t.last(0)
    &&& forall|p: int| #[trigger] t.valid(p) && t.children(p).contains(i) ==> p == 0
    &&& forall|j: int| 0 < j < i ==> #[trigger] t.last(j) <= i
}

proof fn lemma_proto_grows(r: ProtoFile, t: TreeView, parent: Option<int>, j: int, c: ProtoScope, o: Seq<ContractNodeView>)
    ensures
        o.is_prefix_of(proto::proto_step(r, t, parent, j, c, o).0),
{
    let after = proto::proto_step(r, t, parent, j, c, o).0;
    if parent is Some && c == ProtoScope::Items && t.kind(j) == "service"@ {
        match proto::child_text(t, j, "service_name"@) {
            Some(name) => {
                let first = o.push(proto::proto_node(r, t, parent->0, j, name, NodeKind::GrpcService));
                assert(after == first + proto::proto_methods(r, t, j, name, t.children(j)));
                assert forall|k: int| 0 <= k < o.len() implies o[k] == #[trigger] after[k] by {
                    assert(after[k] == first[k]);
                }
            },
            None => {
                assert(after == o);
            },
        }
    }
}

#[verifier::spinoff_prover]
#[verifier::rlimit(60)]
proof fn lemma_proto_declares(t: TreeView, i: int, path: Seq<char>, repo_id: RepoId, canonical: bool, line_of: int, name: Seq<char>, kind: NodeKind)
    requires
        is_item(t, i),
        forall|o: Seq<ContractNodeView>|
            declares(
                (#[trigger] proto::proto_step(
                    (ProtoFile { path, repo_id, package: proto::file_package(t, t.children(0)), canonical }),
                    t,
                    Some(0),
                    i,
                    ProtoScope::Items,
                    o,
                )).0,
                t,
                line_of,
                path,
                repo_id,
                name,
                kind,
            ),
    ensures
        declares(proto::proto_nodes(t, path, repo_id, canonical), t, line_of, path, repo_id, name, kind),
{
    let r = ProtoFile { path, repo_id, package: proto::file_package(t, t.children(0)), canonical };
    let items = |o: Seq<ContractNodeView>| o;
    let is = |n: ContractNodeView| is_declared(n, t, line_of, path, repo_id, name, kind);
    let inv = |p: Option<int>, c: ProtoScope| p == Some(0int) ==> c == ProtoScope::Items;
    assert(t.valid(0));
    assert forall|parent: Option<int>, c: ProtoScope, o: Seq<ContractNodeView>| stands_under(t, parent, i) && inv(parent, c) implies walk_laws::any(
        items((#[trigger] <ProtoRules as syntax::TreeRules>::on_node(r, t, parent, i, c, o)).0),
        is,
    ) by {
        if parent is None {
            assert(t.last(0) <= i);
        }
        assert(t.valid(parent->0));
        assert(parent == Some(0int));
        let after = proto::proto_step(r, t, Some(0), i, ProtoScope::Items, o).0;
        assert(declares(after, t, line_of, path, repo_id, name, kind));
        let k = choose|k: int| 0 <= k < after.len() && is(#[trigger] after[k]);
        assert(is(after[k]));
    }
    assert forall|parent: Option<int>, j: int, c: ProtoScope, o: Seq<ContractNodeView>|
        items(o).is_prefix_of(items((#[trigger] <ProtoRules as syntax::TreeRules>::on_node(r, t, parent, j, c, o)).0)) by {
        lemma_proto_grows(r, t, parent, j, c, o);
    }
    assert forall|parent: Option<int>, j: int, c: ProtoScope, o: Seq<ContractNodeView>|
        0 <= j < i < t.last(j) && stands_under(t, parent, j) && inv(parent, c) implies (#[trigger] <ProtoRules as syntax::TreeRules>::on_node(
        r,
        t,
        parent,
        j,
        c,
        o,
    )).1 is Some by {
        if j > 0 {
            assert(t.last(j) <= i);
        } else if parent is Some {
            let p = parent->0;
            syntax::lemma_siblings_range(t, p + 1, t.last(p));
            let k = choose|k: int| 0 <= k < t.children(p).len() && t.children(p)[k] == j;
            assert(p + 1 <= t.children(p)[k]);
        }
    }
    assert forall|parent: Option<int>, j: int, c: ProtoScope, o: Seq<ContractNodeView>|
        t.valid(j) && stands_under(t, parent, j) && inv(parent, c) && (#[trigger] <ProtoRules as syntax::TreeRules>::on_node(
            r,
            t,
            parent,
            j,
            c,
            o,
        )).1 is Some implies inv(Some(j), <ProtoRules as syntax::TreeRules>::on_node(r, t, parent, j, c, o).1->0) by {
        if j == 0 && parent is Some {
            let p = parent->0;
            syntax::lemma_siblings_range(t, p + 1, t.last(p));
            let k = choose|k: int| 0 <= k < t.children(p).len() && t.children(p)[k] == j;
            assert(p + 1 <= t.children(p)[k]);
        }
    }
    walk_laws::lemma_walk_gathers_below::<ProtoRules, ContractNodeView>(
        r,
        t,
        usize::MAX as int,
        ProtoScope::Items,
        Seq::empty(),
        i,
        items,
        is,
        inv,
    );
}

/// A message of a file is declared as one, a service as a service of gRPC, under their names.
pub proof fn law_proto_items(t: TreeView, i: int, n: int, s: Seq<char>, path: Seq<char>, repo_id: RepoId, canonical: bool)
    requires
        is_item(t, i),
        t.kind(i) == "message"@ && t.child_of_kind(i, "message_name"@) == Some(n) || t.kind(i) == "service"@ && t.child_of_kind(
            i,
            "service_name"@,
        ) == Some(n),
        t.text(n) == Some(s),
        text::trim(s).len() > 0,
    ensures
        declares(
            proto::proto_nodes(t, path, repo_id, canonical),
            t,
            i,
            path,
            repo_id,
            text::trim(s),
            if t.kind(i) == "message"@ {
                NodeKind::ProtoMessage
            } else {
                NodeKind::GrpcService
            },
        ),
{
    lemma_kinds();
    let name = text::trim(s);
    let kind = if t.kind(i) == "message"@ {
        NodeKind::ProtoMessage
    } else {
        NodeKind::GrpcService
    };
    let r = ProtoFile { path, repo_id, package: proto::file_package(t, t.children(0)), canonical };
    assert forall|o: Seq<ContractNodeView>| declares(
        (#[trigger] proto::proto_step(r, t, Some(0), i, ProtoScope::Items, o)).0,
        t,
        i,
        path,
        repo_id,
        name,
        kind,
    ) by {
        let after = proto::proto_step(r, t, Some(0), i, ProtoScope::Items, o).0;
        assert(is_declared(after[o.len() as int], t, i, path, repo_id, name, kind));
    }
    lemma_proto_declares(t, i, path, repo_id, canonical, i, name, kind);
}

proof fn lemma_methods(f: ProtoFile, t: TreeView, service: int, name: Seq<char>, ks: Seq<int>, k: int, rpc: Seq<char>)
    requires
        0 <= k < ks.len(),
        t.kind(ks[k]) == "rpc"@,
        proto::child_text(t, ks[k], "rpc_name"@) == Some(rpc),
    ensures
        declares(
            proto::proto_methods(f, t, service, name, ks),
            t,
            ks[k],
            f.path,
            f.repo_id,
            proto::method_name(f, name, rpc),
            NodeKind::GrpcMethod,
        ),
    decreases ks.len(),
{
    let front = ks.drop_last();
    let rest = proto::proto_methods(f, t, service, name, front);
    let all = proto::proto_methods(f, t, service, name, ks);
    let is = |n: ContractNodeView| is_declared(n, t, ks[k], f.path, f.repo_id, proto::method_name(f, name, rpc), NodeKind::GrpcMethod);
    if k < front.len() {
        assert(front[k] == ks[k]);
        lemma_methods(f, t, service, name, front, k, rpc);
        let m = choose|m: int| 0 <= m < rest.len() && is(#[trigger] rest[m]);
        assert(all[m] == rest[m]);
        assert(is(all[m]));
    } else {
        assert(is(all[rest.len() as int]));
    }
}

/// A method of a service is declared as a method of gRPC, under the names of the service and its
/// own with a dot between them, or under its own where names are not to be projected.
pub proof fn law_proto_methods(
    t: TreeView,
    i: int,
    n: int,
    s: Seq<char>,
    k: int,
    m: int,
    u: Seq<char>,
    path: Seq<char>,
    repo_id: RepoId,
    canonical: bool,
)
    requires
        is_item(t, i),
        t.kind(i) == "service"@,
        t.child_of_kind(i, "service_name"@) == Some(n),
        t.text(n) == Some(s),
        text::trim(s).len() > 0,
        0 <= k < t.children(i).len(),
        t.kind(t.children(i)[k]) == "rpc"@,
        t.child_of_kind(t.children(i)[k], "rpc_name"@) == Some(m),
        t.text(m) == Some(u),
        text::trim(u).len() > 0,
    ensures
        declares(
            proto::proto_nodes(t, path, repo_id, canonical),
            t,
            t.children(i)[k],
            path,
            repo_id,
            if canonical {
                text::trim(s) + "."@ + text::trim(u)
            } else {
                text::trim(u)
            },
            NodeKind::GrpcMethod,
        ),
{
    lemma_kinds();
    let c = t.children(i)[k];
    let name = if canonical {
        text::trim(s) + "."@ + text::trim(u)
    } else {
        text::trim(u)
    };
    let r = ProtoFile { path, repo_id, package: proto::file_package(t, t.children(0)), canonical };
    let is = |x: ContractNodeView| is_declared(x, t, c, path, repo_id, name, NodeKind::GrpcMethod);
    lemma_methods(r, t, i, text::trim(s), t.children(i), k, text::trim(u));
    let more = proto::proto_methods(r, t, i, text::trim(s), t.children(i));
    let z = choose|z: int| 0 <= z < more.len() && is(#[trigger] more[z]);
    assert forall|o: Seq<ContractNodeView>| declares(
        (#[trigger] proto::proto_step(r, t, Some(0), i, ProtoScope::Items, o)).0,
        t,
        c,
        path,
        repo_id,
        name,
        NodeKind::GrpcMethod,
    ) by {
        let after = proto::proto_step(r, t, Some(0), i, ProtoScope::Items, o).0;
        assert(after[o.len() + 1 + z] == more[z]);
        assert(is(after[o.len() + 1 + z]));
    }
    lemma_proto_declares(t, i, path, repo_id, canonical, c, name, NodeKind::GrpcMethod);
}

proof fn lemma_kinds()
    ensures
        "message"@ != "service"@,
        "message"@ != "field"@,
        "message"@ != "map_field"@,
        "message"@ != "oneof"@,
        "message"@ != "reserved"@,
        "message"@ != "enum"@,
        "service"@ != "field"@,
        "service"@ != "map_field"@,
        "service"@ != "oneof"@,
        "service"@ != "reserved"@,
        "service"@ != "enum"@,
        "field"@ != "map_field"@,
        "field"@ != "oneof"@,
        "field"@ != "reserved"@,
        "field"@ != "enum"@,
        "map_field"@ != "oneof"@,
        "map_field"@ != "reserved"@,
        "map_field"@ != "enum"@,
        "oneof"@ != "reserved"@,
        "oneof"@ != "enum"@,
        "reserved"@ != "enum"@,
{
    reveal_strlit("message");
    reveal_strlit("service");
    reveal_strlit("field");
    reveal_strlit("map_field");
    reveal_strlit("oneof");
    reveal_strlit("reserved");
    reveal_strlit("enum");
    assert("message"@[0] != "service"@[0]);
    assert("message"@.len() != "field"@.len());
    assert("message"@.len() != "map_field"@.len());
    assert("message"@.len() != "oneof"@.len());
    assert("message"@.len() != "reserved"@.len());
    assert("message"@.len() != "enum"@.len());
    assert("service"@.len() != "field"@.len());
    assert("service"@.len() != "map_field"@.len());
    assert("service"@.len() != "oneof"@.len());
    assert("service"@.len() != "reserved"@.len());
    assert("service"@.len() != "enum"@.len());
    assert("field"@.len() != "map_field"@.len());
    assert("field"@[0] != "oneof"@[0]);
    assert("field"@.len() != "reserved"@.len());
    assert("field"@.len() != "enum"@.len());
    assert("map_field"@.len() != "oneof"@.len());
    assert("map_field"@.len() != "reserved"@.len());
    assert("map_field"@.len() != "enum"@.len());
    assert("oneof"@.len() != "reserved"@.len());
    assert("oneof"@.len() != "enum"@.len());
    assert("reserved"@.len() != "enum"@.len());
}

proof fn lemma_member_field(t: TreeView, ks: Seq<int>, k: int, f: FieldView)
    requires
        0 <= k < ks.len(),
        proto::member_fields(t, ks[k]).contains(f),
    ensures
        proto::all_fields(t, ks).contains(f),
    decreases ks.len(),
{
    let front = ks.drop_last();
    let rest = proto::all_fields(t, front);
    let more = proto::member_fields(t, ks.last());
    let all = rest + more;
    if k < front.len() {
        assert(front[k] == ks[k]);
        lemma_member_field(t, front, k, f);
        let m = choose|m: int| 0 <= m < rest.len() && rest[m] == f;
        assert(all[m] == f);
    } else {
        let m = choose|m: int| 0 <= m < more.len() && more[m] == f;
        assert(all[rest.len() + m] == f);
    }
}

/// A field of a message is read with its name, number, type and line: as repeated if it has that
/// keyword, as a map with its key's type if it is one, else as singular.
pub proof fn law_proto_fields(t: TreeView, i: int, path: Seq<char>, k: int, ty: Seq<char>, name: Seq<char>, n: int, number: int)
    requires
        0 <= k < proto::members(t, i).len(),
        ({
            let c = proto::members(t, i)[k];
            &&& proto::child_text(t, c, "type"@) == Some(ty)
            &&& proto::child_text(t, c, "identifier"@) == Some(name)
            &&& t.child_of_kind(c, "field_number"@) == Some(n)
            &&& proto::node_number(t, n) == Some(number)
        }),
    ensures
        ({
            let c = proto::members(t, i)[k];
            let fields = proto::message_of(t, i, path).fields;
            let repeated = exists|j: int| 0 <= j < t.children(c).len() && !t.named(#[trigger] t.children(c)[j]) && t.kind(t.children(c)[j])
                == "repeated"@;
            let plain = FieldView {
                name,
                number: number as u32,
                cardinality: ProtoCardinality::Singular,
                value_type: ty,
                map_key: None,
                oneof: None,
                line: t.line(c),
            };
            &&& t.kind(c) == "field"@ && !repeated ==> fields.contains(plain)
            &&& t.kind(c) == "field"@ && repeated ==> fields.contains((FieldView { cardinality: ProtoCardinality::Repeated, ..plain }))
            &&& t.kind(c) == "map_field"@ ==> (forall|key: Seq<char>|
                #[trigger] proto::child_text(t, c, "key_type"@) == Some(key) ==> fields.contains(
                    (FieldView { cardinality: ProtoCardinality::Mapping, map_key: Some(key), ..plain }),
                ))
        }),
{
    lemma_kinds();
    let c = proto::members(t, i)[k];
    let here = proto::member_fields(t, c);
    if t.kind(c) == "field"@ {
        assert(here[0].name == name);
        lemma_member_field(t, proto::members(t, i), k, here[0]);
    } else if t.kind(c) == "map_field"@ && proto::child_text(t, c, "key_type"@) is Some {
        assert(here[0].name == name);
        lemma_member_field(t, proto::members(t, i), k, here[0]);
    }
}

/// A reserved range of one number is that number, with `max` all from it up to the largest number
/// that a field can have; one of two numbers is all from the first to the second.
pub proof fn law_proto_ranges(t: TreeView, i: int)
    ensures
        ({
            let bounds = proto::range_bounds(t, t.children(i));
            let open = exists|j: int| 0 <= j < t.children(i).len() && t.kind(#[trigger] t.children(i)[j]) == "max"@;
            &&& bounds.len() == 1 && !open ==> proto::reserved_range(t, i) == Some((bounds[0] as u32, bounds[0] as u32))
            &&& bounds.len() == 1 && open ==> proto::reserved_range(t, i) == Some((bounds[0] as u32, 536_870_911u32))
            &&& bounds.len() == 2 ==> proto::reserved_range(t, i) == Some((bounds[0] as u32, bounds[1] as u32))
        }),
{
}

/// A schema is refused, with these words, if it is larger than 1.5 MB, binary, has a line of more
/// than 1,024 bytes or brackets that nest more than 64 deep.
pub proof fn law_proto_rejections(b: Seq<u8>)
    ensures
        b.len() > 1_572_864 ==> proto::rejection(b) == Some("file exceeds the 1.5 MB schema budget"@),
        b.len() <= 1_572_864 && crate::guard::binary(b) ==> proto::rejection(b) == Some("binary content (null byte)"@),
        b.len() <= 1_572_864 && !crate::guard::binary(b) && crate::guard::has_long_line(b) ==> proto::rejection(b) == Some(
            "a line exceeds 1,024 bytes"@,
        ),
        b.len() <= 1_572_864 && !crate::guard::binary(b) && !crate::guard::has_long_line(b) && crate::guard::nesting(b) > 64
            ==> proto::rejection(b) == Some("nesting depth exceeds 64"@),
        b.len() <= 1_572_864 && !crate::guard::binary(b) && !crate::guard::has_long_line(b) && crate::guard::nesting(b) <= 64
            ==> proto::rejection(b) is None,
{
}

/// An import names the file that it gives in quotes.
pub proof fn law_proto_imports(t: TreeView, ks: Seq<int>, q: char, x: Seq<char>)
    requires
        ks.len() > 0,
        t.kind(ks[0]) == "string"@,
        q == '"' || q == '\'',
        t.text(ks[0]) == Some(seq![q] + x + seq![q]),
        x.len() > 0,
        x[0] != '"' && x[0] != '\'',
        x.last() != '"' && x.last() != '\'',
    ensures
        proto::import_path(t, ks) == Some(x),
{
    reveal_strlit("\"'");
    assert(("\"'"@)[0] == '"' && ("\"'"@)[1] == '\'');
    crate::text_laws::lemma_marks_are_taken(x, q, "\"'"@);
}

} // verus!
