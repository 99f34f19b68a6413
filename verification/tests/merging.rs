use mesh_parsers::{ContractGraph, ContractNode, EdgeConfidence, FileIndex, NodeKind};

fn file(names: &[&str]) -> FileIndex {
    let mut index = FileIndex::default();
    for (i, name) in names.iter().enumerate() {
        index.nodes.push(ContractNode {
            id: 77,
            name: name.to_string(),
            kind: NodeKind::ServiceClass,
            file_path: "f".to_string(),
            line_start: 1,
            line_end: 1,
            package: String::new(),
            repo_id: 0,
            signature: None,
            docstring: None,
        });
        index.dependencies.push((i, format!("dep-{name}")));
        index.producers.push((i, format!("out-{name}")));
        index.consumers.push((i, format!("in-{name}")));
        index.rpc_calls.push((i, format!("rpc-{name}")));
    }
    index
}

fn shown(index: &FileIndex) -> String {
    format!("{index:?}")
}

#[test]
fn merging_is_associative() {
    let (a, b, c) = (file(&["a", "b"]), file(&["c"]), file(&["d", "e"]));
    let mut left = a.clone();
    left.merge(b.clone());
    left.merge(c.clone());
    let mut tail = b;
    tail.merge(c);
    let mut right = a.clone();
    right.merge(tail);
    assert_eq!(shown(&left), shown(&right));
    assert_eq!(left.dependencies[2], (2, "dep-c".to_string()));
    assert_eq!(left.rpc_calls[4], (4, "rpc-e".to_string()));

    let mut same = a.clone();
    same.merge(FileIndex::default());
    assert_eq!(shown(&same), shown(&a));
    let mut same = FileIndex::default();
    same.merge(a.clone());
    assert_eq!(shown(&same), shown(&a));
}

#[test]
fn only_an_index_without_declarations_is_empty() {
    assert!(FileIndex::default().is_empty());
    assert!(!file(&["a"]).is_empty());
}

#[test]
fn applying_files_one_by_one_is_applying_them_merged() {
    let mut one_by_one = ContractGraph::new();
    file(&["a"]).apply(&mut one_by_one);
    file(&["b", "c"]).apply(&mut one_by_one);
    let mut both = file(&["a"]);
    both.merge(file(&["b", "c"]));
    let mut merged = ContractGraph::new();
    both.apply(&mut merged);
    assert_eq!(
        format!("{:?}", one_by_one.all_nodes()),
        format!("{:?}", merged.all_nodes())
    );
    assert_eq!(one_by_one.all_dependencies(), merged.all_dependencies());
    assert_eq!(one_by_one.all_producers(), merged.all_producers());
    assert_eq!(one_by_one.all_consumers(), merged.all_consumers());
    assert_eq!(one_by_one.all_rpc_calls(), merged.all_rpc_calls());
    assert_eq!(merged.all_dependencies()[1], (1, "dep-b".to_string()));
}

#[test]
fn declarations_are_numbered_by_their_places() {
    let mut graph = ContractGraph::new();
    file(&["a", "b"]).apply(&mut graph);
    let more = file(&["c"]).nodes.remove(0);
    assert_eq!(graph.add_node(more), 2);
    assert_eq!(graph.node_count(), 3);
    for (i, n) in graph.all_nodes().iter().enumerate() {
        assert_eq!(n.id as usize, i);
    }
}

#[test]
fn confidences_have_labels() {
    assert_eq!(EdgeConfidence::Exact.label(), "exact");
    assert_eq!(EdgeConfidence::Heuristic.label(), "heuristic");
}
