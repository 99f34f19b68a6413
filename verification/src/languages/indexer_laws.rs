//! What holds of the indices of files.
use vstd::prelude::*;
use crate::languages::common;
use crate::languages::csharp;
use crate::languages::indexer;
use crate::languages::java;
use crate::languages::kotlin;
use crate::languages::walk_laws;
use crate::languages::walk_laws::has_text;
use crate::model::{ContractNodeView, NodeKind, PackagesView, RepoId};
use crate::syntax::TreeView;
use crate::text;
use crate::text_laws;

verus! {

/// A name is used in a declaration exactly if it stands in one of its lines, the first and the last
/// among them.
pub proof fn law_names_are_used_in_lines(ls: Seq<Seq<char>>, n: ContractNodeView, p: Seq<char>)
    requires
        1 <= n.line_start <= n.line_end <= ls.len(),
    ensures
        common::stands_in(ls, n, p) <==> exists|l: int| n.line_start <= l <= n.line_end && has_text(#[trigger] ls[l - 1], p),
{
    if common::stands_in(ls, n, p) {
        let k = choose|k: int| n.line_start - 1 <= k < n.line_end && #[trigger] text::contains(ls[k], p);
        walk_laws::law_texts_are_found(ls[k], p);
        assert(has_text(ls[(k + 1) - 1], p));
    }
    if exists|l: int| n.line_start <= l <= n.line_end && has_text(#[trigger] ls[l - 1], p) {
        let l = choose|l: int| n.line_start <= l <= n.line_end && has_text(#[trigger] ls[l - 1], p);
        walk_laws::law_texts_are_found(ls[l - 1], p);
        assert(text::contains(ls[l - 1], p));
    }
}

/// Exactly the declared topics are consumed from, each by itself.
pub proof fn law_topics_are_consumed(nodes: Seq<ContractNodeView>, n: int, link: (int, Seq<char>))
    requires
        0 <= n <= nodes.len(),
    ensures
        indexer::topic_links(nodes, n).contains(link) <==> 0 <= link.0 < n && nodes[link.0].kind == NodeKind::KafkaTopic && nodes[link.0].name
            == link.1,
    decreases n,
{
    if n > 0 {
        law_topics_are_consumed(nodes, n - 1, link);
        let rest = indexer::topic_links(nodes, n - 1);
        let all = indexer::topic_links(nodes, n);
        if all.contains(link) {
            let k = choose|k: int| 0 <= k < all.len() && all[k] == link;
            if k < rest.len() {
                assert(rest[k] == link);
            }
        }
        if rest.contains(link) {
            let k = choose|k: int| 0 <= k < rest.len() && rest[k] == link;
            assert(all[k] == link);
        }
        if link.0 == n - 1 && nodes[n - 1].kind == NodeKind::KafkaTopic && nodes[n - 1].name == link.1 {
            assert(all[rest.len() as int] == link);
        }
    }
}

/// An import counts as used by a declaration if it is a path, with a slash in it or a dot in front,
/// or stands in it; one without a name never does.
pub proof fn law_imports_are_used(ls: Seq<Seq<char>>, n: ContractNodeView, imported: Seq<char>)
    ensures
        imported.len() == 0 ==> !indexer::is_used_import(ls, n, imported),
        imported.contains('/') ==> indexer::is_used_import(ls, n, imported),
        imported.len() > 0 && imported[0] == '.' ==> indexer::is_used_import(ls, n, imported),
        imported.len() > 0 && imported[0] != '.' && !imported.contains('/') ==> indexer::is_used_import(ls, n, imported)
            == common::stands_in(ls, n, imported),
{
    text_laws::law_index_is_first(imported, '/');
    reveal_strlit(".");
    if imported.len() > 0 {
        assert(imported.subrange(0, 1)[0] == imported[0]);
        if imported[0] == '.' {
            assert(imported.subrange(0, 1) == "."@);
        } else if text::starts_with(imported, "."@) {
            assert(("."@)[0] == '.');
        }
    }
}

proof fn lemma_used(ls: Seq<Seq<char>>, n: ContractNodeView, k: int, imports: Seq<(Seq<char>, Seq<char>)>, link: (int, Seq<char>))
    ensures
        indexer::used_imports(ls, n, k, imports).contains(link) <==> link.0 == k && exists|j: int|
            0 <= j < imports.len() && (#[trigger] imports[j]).1 == link.1 && indexer::is_used_import(ls, n, link.1),
    decreases imports.len(),
{
    let all = indexer::used_imports(ls, n, k, imports);
    if imports.len() > 0 {
        let front = imports.drop_last();
        lemma_used(ls, n, k, front, link);
        let rest = indexer::used_imports(ls, n, k, front);
        if all.contains(link) {
            let m = choose|m: int| 0 <= m < all.len() && all[m] == link;
            if m < rest.len() {
                assert(rest[m] == link);
                let j = choose|j: int| 0 <= j < front.len() && (#[trigger] front[j]).1 == link.1;
                assert(imports[j] == front[j]);
            } else {
                assert(imports[imports.len() - 1].1 == link.1);
            }
        }
        if link.0 == k && exists|j: int| 0 <= j < imports.len() && (#[trigger] imports[j]).1 == link.1 && indexer::is_used_import(ls, n, link.1) {
            let j = choose|j: int| 0 <= j < imports.len() && (#[trigger] imports[j]).1 == link.1 && indexer::is_used_import(ls, n, link.1);
            if j < front.len() {
                assert(front[j].1 == link.1);
                let m = choose|m: int| 0 <= m < rest.len() && rest[m] == link;
                assert(all[m] == link);
            } else {
                assert(all[rest.len() as int] == link);
            }
        }
    }
}

/// A TypeScript declaration depends on exactly the imports of its file that it uses.
pub proof fn law_dependencies_are_used_imports(
    ls: Seq<Seq<char>>,
    nodes: Seq<ContractNodeView>,
    imports: Seq<(Seq<char>, Seq<char>)>,
    n: int,
    link: (int, Seq<char>),
)
    requires
        0 <= n <= nodes.len(),
    ensures
        indexer::all_used_imports(ls, nodes, imports, n).contains(link) <==> 0 <= link.0 < n && exists|j: int|
            0 <= j < imports.len() && (#[trigger] imports[j]).1 == link.1 && indexer::is_used_import(ls, nodes[link.0], link.1),
    decreases n,
{
    if n > 0 {
        law_dependencies_are_used_imports(ls, nodes, imports, n - 1, link);
        lemma_used(ls, nodes[n - 1], n - 1, imports, link);
        let rest = indexer::all_used_imports(ls, nodes, imports, n - 1);
        let more = indexer::used_imports(ls, nodes[n - 1], n - 1, imports);
        let all = rest + more;
        if all.contains(link) {
            let m = choose|m: int| 0 <= m < all.len() && all[m] == link;
            if m < rest.len() {
                assert(rest[m] == link);
            } else {
                assert(more[m - rest.len()] == link);
            }
        }
        if rest.contains(link) {
            let m = choose|m: int| 0 <= m < rest.len() && rest[m] == link;
            assert(all[m] == link);
        }
        if more.contains(link) {
            let m = choose|m: int| 0 <= m < more.len() && more[m] == link;
            assert(all[rest.len() + m] == link);
        }
    }
}

/// Kotlin and C# files produce to and consume from the topics that they call on; Kotlin files also
/// consume from the topics that they listen to, and so do Java files.
pub proof fn law_calls_become_links(t: TreeView, path: Seq<char>, repo_id: RepoId, packages: PackagesView)
    ensures
        ({
            let found = kotlin::kotlin_found(t, path, repo_id, packages);
            let x = indexer::kotlin_index(t, path, repo_id, packages);
            &&& x.producers == common::attributed(found.nodes, found.calls, true)
            &&& x.consumers == indexer::topic_links(found.nodes, found.nodes.len() as int) + common::attributed(found.nodes, found.calls, false)
        }),
        ({
            let found = csharp::csharp_found(t, path, repo_id, packages);
            let x = indexer::csharp_index(t, path, repo_id, packages);
            &&& x.producers == common::attributed(found.nodes, found.calls, true)
            &&& x.consumers == common::attributed(found.nodes, found.calls, false)
        }),
        ({
            let found = java::java_found(t, path, repo_id, packages);
            let x = indexer::java_index(t, path, repo_id, packages);
            &&& x.producers == found.producers
            &&& x.consumers == indexer::topic_links(found.nodes, found.nodes.len() as int)
        }),
{
}

} // verus!
