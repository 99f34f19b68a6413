//! What holds of the declarations that patterns find.
use vstd::prelude::*;
use crate::index::FileIndexView;
use crate::languages::patterns;
use crate::languages::patterns::{PatternKind, PatternView, RegexMatchView};
use crate::languages::walk_laws;
use crate::languages::walk_laws::has_text;
use crate::model::{NodeKind, RepoId};
use crate::text;

verus! {

/// A match of a pattern declares one thing and links it to the target that the pattern names: one
/// that produces to a topic is the stream `produce:` and the topic; one that consumes from it is
/// named after the consumer, or `consume:` and the topic if that is not told; a saga is named after
/// itself and linked to nothing; a remote call is `rpc:` and the service.
pub proof fn law_matches_are_declared(
    x: FileIndexView,
    p: PatternView,
    m: RegexMatchView,
    target: Seq<char>,
    consumer: Seq<char>,
    path: Seq<char>,
    content: Seq<char>,
    repo_id: RepoId,
    package: Seq<char>,
)
    requires
        patterns::group_text(m, p.target_group) == Some(target),
        target.len() > 0,
        p.consumer_group is Some && patterns::group_text(m, p.consumer_group->0) == Some(consumer) || p.consumer_group is None && consumer
            == target,
    ensures
        ({
            let y = patterns::with_match(x, p, m, path, content, repo_id, package);
            let n = y.nodes.last();
            let link = (x.nodes.len() as int, target);
            &&& y.nodes.len() == x.nodes.len() + 1
            &&& y.nodes.drop_last() == x.nodes
            &&& n.file_path == path && n.repo_id == repo_id && n.package == package && n.line_start == n.line_end
            &&& y.dependencies == x.dependencies
            &&& p.kind == PatternKind::TopicProducer ==> n.name == "produce:"@ + target && n.kind == NodeKind::EventStream && y.producers
                == x.producers.push(link) && y.consumers == x.consumers && y.rpc_calls == x.rpc_calls
            &&& p.kind == PatternKind::TopicConsumer ==> n.kind == NodeKind::PostProcessor && y.consumers == x.consumers.push(link)
                && y.producers == x.producers && y.rpc_calls == x.rpc_calls
            &&& p.kind == PatternKind::TopicConsumer && consumer != target ==> n.name == consumer
            &&& p.kind == PatternKind::TopicConsumer && consumer == target ==> n.name == "consume:"@ + target
            &&& p.kind == PatternKind::Saga ==> n.name == target && n.kind == NodeKind::Saga && y.producers == x.producers && y.consumers
                == x.consumers && y.rpc_calls == x.rpc_calls
            &&& p.kind == PatternKind::Rpc ==> n.name == "rpc:"@ + target && n.kind == NodeKind::GrpcMethod && y.rpc_calls
                == x.rpc_calls.push(link) && y.producers == x.producers && y.consumers == x.consumers
        }),
{
    let y = patterns::with_match(x, p, m, path, content, repo_id, package);
    assert(y.nodes.drop_last() == x.nodes);
}

/// A match without a target declares nothing.
pub proof fn law_matches_without_target(
    x: FileIndexView,
    p: PatternView,
    m: RegexMatchView,
    path: Seq<char>,
    content: Seq<char>,
    repo_id: RepoId,
    package: Seq<char>,
)
    requires
        patterns::group_text(m, p.target_group) is None || patterns::group_text(m, p.target_group)->0.len() == 0,
    ensures
        patterns::with_match(x, p, m, path, content, repo_id, package) == x,
{
}

/// A pattern is looked for in every file if it names none, else in those whose paths hold the name
/// that it gives, without the stars and dots in front.
pub proof fn law_patterns_name_files(p: PatternView, path: Seq<char>)
    ensures
        p.file_needle is None ==> p.searches(path),
        p.file_needle matches Some(n) ==> (p.searches(path) <==> has_text(path, n)),
{
    if p.file_needle is Some {
        let n = p.file_needle->0;
        walk_laws::law_texts_are_found(path, n);
        walk_laws::lemma_ends(path, n);
        if text::ends_with(path, n) {
            let a = choose|a: Seq<char>| path == #[trigger] (a + n);
            assert(path == a + n + Seq::<char>::empty());
        }
    }
}

} // verus!
