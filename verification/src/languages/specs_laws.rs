//! What holds of the declarations that are found in files of interface descriptions.
use vstd::prelude::*;
use crate::index::FileIndexView;
use crate::languages::config::ExtractConfigView;
use crate::languages::spec_shape;
use crate::languages::spec_shape::{AsyncApiView, SpecShapes};
use crate::languages::specs;
use crate::languages::specs::{Progress, SeekerView, Sought};
use crate::languages::walk_laws;
use crate::languages::walk_laws::has_text;
use crate::model::{ContractNodeView, NodeKind, RepoId};
use crate::text;

verus! {

/// Whether a declaration stands for an operation or a stream of a file.
pub open spec fn is_listed(n: ContractNodeView, path: Seq<char>, repo_id: RepoId, package: Seq<char>, name: Seq<char>, kind: NodeKind) -> bool {
    n.name == name && n.kind == kind && n.package == package && n.file_path == path && n.repo_id == repo_id && n.line_start == n.line_end
}

/// Whether one of the declarations stands for an operation or a stream.
pub open spec fn lists(nodes: Seq<ContractNodeView>, path: Seq<char>, repo_id: RepoId, package: Seq<char>, name: Seq<char>, kind: NodeKind) -> bool {
    walk_laws::any(nodes, |n: ContractNodeView| is_listed(n, path, repo_id, package, name, kind))
}

/// Whether a declaration named after a stream produces to it.
pub open spec fn lists_stream(x: FileIndexView, path: Seq<char>, repo_id: RepoId, name: Seq<char>) -> bool {
    exists|k: int|
        0 <= k < x.nodes.len() && is_listed(#[trigger] x.nodes[k], path, repo_id, "asyncapi"@, name, NodeKind::EventStream)
            && x.producers.contains((k, name))
}

proof fn lemma_streams(
    start: Progress,
    names: Seq<Seq<char>>,
    ls: Seq<Seq<char>>,
    what: Sought,
    word: Seq<char>,
    path: Seq<char>,
    repo_id: RepoId,
    j: int,
)
    requires
        0 <= j < names.len(),
    ensures
        lists_stream(specs::streams(start, names, ls, what, word, path, repo_id).index, path, repo_id, names[j]),
    decreases names.len(),
{
    let front = names.drop_last();
    let before = specs::streams(start, front, ls, what, word, path, repo_id).index;
    let after = specs::streams(start, names, ls, what, word, path, repo_id).index;
    if j < front.len() {
        assert(front[j] == names[j]);
        lemma_streams(start, front, ls, what, word, path, repo_id, j);
        let k = choose|k: int|
            0 <= k < before.nodes.len() && is_listed(#[trigger] before.nodes[k], path, repo_id, "asyncapi"@, names[j], NodeKind::EventStream)
                && before.producers.contains((k, names[j]));
        let m = choose|m: int| 0 <= m < before.producers.len() && before.producers[m] == (k, names[j]);
        assert(after.nodes[k] == before.nodes[k]);
        assert(after.producers[m] == before.producers[m]);
    } else {
        let k = before.nodes.len() as int;
        assert(is_listed(after.nodes[k], path, repo_id, "asyncapi"@, names[j], NodeKind::EventStream));
        assert(after.producers[before.producers.len() as int] == (k, names[j]));
    }
}

proof fn lemma_streams_stay(
    start: Progress,
    names: Seq<Seq<char>>,
    ls: Seq<Seq<char>>,
    what: Sought,
    word: Seq<char>,
    path: Seq<char>,
    repo_id: RepoId,
)
    ensures
        start.index.nodes.is_prefix_of(specs::streams(start, names, ls, what, word, path, repo_id).index.nodes),
        start.index.producers.is_prefix_of(specs::streams(start, names, ls, what, word, path, repo_id).index.producers),
        specs::streams(start, names, ls, what, word, path, repo_id).index.nodes.len() == start.index.nodes.len() + names.len(),
    decreases names.len(),
{
    if names.len() > 0 {
        lemma_streams_stay(start, names.drop_last(), ls, what, word, path, repo_id);
    }
}

/// Every channel that a file describes is a stream that the file produces to, and every topic that
/// it lists too if topics are to be taken from lists; there are no others.
pub proof fn law_channels_are_streams(
    start: FileIndexView,
    shape: AsyncApiView,
    ls: Seq<Seq<char>>,
    infer: bool,
    path: Seq<char>,
    repo_id: RepoId,
    j: int,
)
    ensures
        ({
            let x = specs::asyncapi_index(start, shape, ls, infer, path, repo_id);
            &&& 0 <= j < shape.channels.len() ==> lists_stream(x, path, repo_id, shape.channels[j])
            &&& infer && 0 <= j < shape.topics.len() ==> lists_stream(x, path, repo_id, shape.topics[j])
            &&& x.nodes.len() == start.nodes.len() + shape.channels.len() + if infer {
                shape.topics.len() as int
            } else {
                0
            }
            &&& start.nodes.is_prefix_of(x.nodes)
        }),
{
    let x = specs::asyncapi_index(start, shape, ls, infer, path, repo_id);
    let first = Progress { index: start, search: specs::section_of(ls, "channels"@) };
    let a = specs::streams(first, shape.channels, ls, Sought::Key, "channel "@, path, repo_id).index;
    let second = Progress { index: a, search: specs::section_of(ls, "topics"@) };
    lemma_streams_stay(first, shape.channels, ls, Sought::Key, "channel "@, path, repo_id);
    lemma_streams_stay(second, shape.topics, ls, Sought::Item, "inferred topic "@, path, repo_id);
    if 0 <= j < shape.channels.len() {
        lemma_streams(first, shape.channels, ls, Sought::Key, "channel "@, path, repo_id, j);
        let name = shape.channels[j];
        let k = choose|k: int|
            0 <= k < a.nodes.len() && is_listed(#[trigger] a.nodes[k], path, repo_id, "asyncapi"@, name, NodeKind::EventStream)
                && a.producers.contains((k, name));
        let m = choose|m: int| 0 <= m < a.producers.len() && a.producers[m] == (k, name);
        assert(x.nodes[k] == a.nodes[k]);
        assert(x.producers[m] == a.producers[m]);
    }
    if infer && 0 <= j < shape.topics.len() {
        lemma_streams(second, shape.topics, ls, Sought::Item, "inferred topic "@, path, repo_id, j);
    }
    if infer {
        assert forall|k: int| 0 <= k < start.nodes.len() implies start.nodes[k] == #[trigger] x.nodes[k] by {
            assert(start.nodes[k] == a.nodes[k]);
        }
    }
}

proof fn lemma_endpoints(
    search: Option<SeekerView>,
    methods: Seq<Seq<char>>,
    ls: Seq<Seq<char>>,
    name: Seq<char>,
    path_line: Option<int>,
    path: Seq<char>,
    repo_id: RepoId,
)
    ensures
        ({
            let found = specs::endpoints(search, methods, ls, name, path_line, path, repo_id).0;
            &&& found.len() == methods.len()
            &&& forall|j: int|
                0 <= j < methods.len() ==> is_listed(
                    #[trigger] found[j],
                    path,
                    repo_id,
                    "openapi"@,
                    text::unicode_uppercase(methods[j]) + " "@ + name,
                    NodeKind::HttpEndpoint,
                )
        }),
    decreases methods.len(),
{
    if methods.len() > 0 {
        let front = methods.drop_last();
        lemma_endpoints(search, front, ls, name, path_line, path, repo_id);
        let rest = specs::endpoints(search, front, ls, name, path_line, path, repo_id).0;
        let found = specs::endpoints(search, methods, ls, name, path_line, path, repo_id).0;
        assert forall|j: int| 0 <= j < methods.len() implies is_listed(
            #[trigger] found[j],
            path,
            repo_id,
            "openapi"@,
            text::unicode_uppercase(methods[j]) + " "@ + name,
            NodeKind::HttpEndpoint,
        ) by {
            if j < front.len() {
                assert(found[j] == rest[j]);
                assert(front[j] == methods[j]);
            }
        }
    }
}

proof fn lemma_all_endpoints(
    paths: Seq<(Seq<char>, Seq<Seq<char>>)>,
    lines: Seq<Option<int>>,
    ls: Seq<Seq<char>>,
    path: Seq<char>,
    repo_id: RepoId,
    n: int,
    i: int,
    j: int,
)
    requires
        0 <= i < n <= paths.len(),
        0 <= j < paths[i].1.len(),
    ensures
        lists(
            specs::all_endpoints(paths, lines, ls, path, repo_id, n),
            path,
            repo_id,
            "openapi"@,
            text::unicode_uppercase(paths[i].1[j]) + " "@ + paths[i].0,
            NodeKind::HttpEndpoint,
        ),
    decreases n,
{
    let name = text::unicode_uppercase(paths[i].1[j]) + " "@ + paths[i].0;
    let is = |n: ContractNodeView| is_listed(n, path, repo_id, "openapi"@, name, NodeKind::HttpEndpoint);
    let rest = specs::all_endpoints(paths, lines, ls, path, repo_id, n - 1);
    let here = specs::endpoints(
        specs::method_search(lines, n - 1),
        paths[n - 1].1,
        ls,
        paths[n - 1].0,
        lines[n - 1],
        path,
        repo_id,
    ).0;
    let whole = rest + here;
    if i < n - 1 {
        lemma_all_endpoints(paths, lines, ls, path, repo_id, n - 1, i, j);
        let k = choose|k: int| 0 <= k < rest.len() && is(#[trigger] rest[k]);
        assert(is(whole[k]));
    } else {
        lemma_endpoints(specs::method_search(lines, n - 1), paths[n - 1].1, ls, paths[n - 1].0, lines[n - 1], path, repo_id);
        assert(whole[rest.len() + j] == here[j]);
        assert(is(whole[rest.len() + j]));
    }
}

/// Every method of every path that a file describes is an endpoint, named after the method in upper
/// case and the path.
pub proof fn law_operations_are_endpoints(
    start: FileIndexView,
    paths: Seq<(Seq<char>, Seq<Seq<char>>)>,
    ls: Seq<Seq<char>>,
    path: Seq<char>,
    repo_id: RepoId,
    i: int,
    j: int,
)
    requires
        0 <= i < paths.len(),
        0 <= j < paths[i].1.len(),
    ensures
        lists(
            specs::openapi_index(start, paths, ls, path, repo_id).nodes,
            path,
            repo_id,
            "openapi"@,
            text::unicode_uppercase(paths[i].1[j]) + " "@ + paths[i].0,
            NodeKind::HttpEndpoint,
        ),
{
    let lines = specs::path_lines(specs::section_of(ls, "paths"@), paths, ls).0;
    let more = specs::all_endpoints(paths, lines, ls, path, repo_id, paths.len() as int);
    let name = text::unicode_uppercase(paths[i].1[j]) + " "@ + paths[i].0;
    let is = |n: ContractNodeView| is_listed(n, path, repo_id, "openapi"@, name, NodeKind::HttpEndpoint);
    lemma_all_endpoints(paths, lines, ls, path, repo_id, paths.len() as int, i, j);
    let k = choose|k: int| 0 <= k < more.len() && is(#[trigger] more[k]);
    let whole = start.nodes + more;
    assert(whole[start.nodes.len() + k] == more[k]);
    assert(is(whole[start.nodes.len() + k]));
}

/// Where no files are named for it, a file describes channels if its path, in lower case, holds
/// `asyncapi` or its text `asyncapi:`, and operations if its path holds `openapi` or its text
/// `openapi:` or `swagger:`.
pub proof fn law_descriptions_are_told(cfg: ExtractConfigView, path: Seq<char>, content: Seq<char>)
    ensures
        cfg.asyncapi_spec_files.len() == 0 ==> (specs::is_asyncapi(cfg, path, content) <==> has_text(
            text::unicode_lowercase(path),
            "asyncapi"@,
        ) || has_text(content, "asyncapi:"@)),
        cfg.openapi_spec_files.len() == 0 ==> (specs::is_openapi(cfg, path, content) <==> has_text(
            text::unicode_lowercase(path),
            "openapi"@,
        ) || has_text(content, "openapi:"@) || has_text(content, "swagger:"@)),
{
    let lower = text::unicode_lowercase(path);
    walk_laws::law_texts_are_found(lower, "asyncapi"@);
    walk_laws::law_texts_are_found(content, "asyncapi:"@);
    walk_laws::law_texts_are_found(lower, "openapi"@);
    walk_laws::law_texts_are_found(content, "openapi:"@);
    walk_laws::law_texts_are_found(content, "swagger:"@);
}

/// A file that describes neither declares nothing; one that describes one of the two declares that
/// alone.
pub proof fn law_other_documents_declare_nothing(
    start: FileIndexView,
    shapes: SpecShapes,
    path: Seq<char>,
    content: Seq<char>,
    repo_id: RepoId,
    cfg: ExtractConfigView,
)
    ensures
        !specs::is_asyncapi(cfg, path, content) && !specs::is_openapi(cfg, path, content) ==> specs::yaml_index(
            start,
            shapes,
            path,
            content,
            repo_id,
            cfg,
        ) == start,
        shapes.asyncapi is Some && specs::is_asyncapi(cfg, path, content) && !specs::is_openapi(cfg, path, content) ==> specs::yaml_index(
            start,
            shapes,
            path,
            content,
            repo_id,
            cfg,
        ) == specs::asyncapi_index(start, shapes.asyncapi->0@, text::lines(content), cfg.infer_string_topics, path, repo_id),
        shapes.openapi is Some && specs::is_openapi(cfg, path, content) && !specs::is_asyncapi(cfg, path, content) ==> specs::yaml_index(
            start,
            shapes,
            path,
            content,
            repo_id,
            cfg,
        ) == specs::openapi_index(start, spec_shape::paths_view(shapes.openapi->0.paths@), text::lines(content), path, repo_id),
{
}

/// A line gives a key where the key stands at its front, quoted or not, with a colon behind it; a
/// dash of a list before it is no matter.
pub proof fn law_key_lines(key: Seq<char>, rest: Seq<char>)
    requires
        key.len() > 0,
        key[0] != '-',
        !text::WHITE_SPACE@.contains(key[0]),
    ensures
        specs::is_key_line(key + ":"@ + rest, key),
        specs::is_key_line("\""@ + key + "\":"@ + rest, key),
        specs::is_key_line("'"@ + key + "':"@ + rest, key),
        specs::is_key_line("- "@ + key + ":"@ + rest, key),
{
    reveal_strlit(":");
    reveal_strlit("\"");
    reveal_strlit("\":");
    reveal_strlit("'");
    reveal_strlit("':");
    reveal_strlit("- ");
    reveal_strlit("");
    crate::text_laws::law_white_space_is_unicodes('"');
    crate::text_laws::law_white_space_is_unicodes('\'');
    crate::text_laws::law_white_space_is_unicodes('-');
    let a = key + ":"@ + rest;
    lemma_no_dash(a);
    assert(specs::entry_start(""@, key) == key + ":"@);
    walk_laws::law_starts_and_endings(rest, key + ":"@);
    let b = "\""@ + key + "\":"@ + rest;
    lemma_no_dash(b);
    assert(specs::entry_start("\""@, key) + rest == b);
    walk_laws::law_starts_and_endings(rest, specs::entry_start("\""@, key));
    let c = "'"@ + key + "':"@ + rest;
    lemma_no_dash(c);
    assert(specs::entry_start("'"@, key) + rest == c);
    walk_laws::law_starts_and_endings(rest, specs::entry_start("'"@, key));
    let d = "- "@ + key + ":"@ + rest;
    assert(d == "- "@ + a);
    assert(text::trim_front(d, text::WHITE_SPACE@) == d);
    walk_laws::law_starts_and_endings(a, "- "@);
    assert(d.skip(2) == a);
    assert(text::strip_repeated(d, "- "@) == text::strip_repeated(a, "- "@));
}

proof fn lemma_no_dash(s: Seq<char>)
    requires
        s.len() > 0,
        s[0] != '-',
    ensures
        text::strip_repeated(s, "- "@) == s,
{
    reveal_strlit("- ");
    walk_laws::lemma_starts(s, "- "@);
    if text::starts_with(s, "- "@) {
        let b = choose|b: Seq<char>| s == #[trigger] ("- "@ + b);
        assert(s[0] == ("- "@)[0]);
    }
}

} // verus!
