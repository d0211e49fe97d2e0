use bonsai::tree::{link_nodes, SyntaxNode};

fn node(id: usize, start: usize, end: usize, depth: usize) -> SyntaxNode {
    SyntaxNode {
        id,
        kind_id: 1,
        kind: "x".to_string(),
        start_byte: start,
        end_byte: end,
        depth,
        parent: 0,
        is_named: true,
        is_error: false,
        is_missing: false,
    }
}

#[test]
fn link_nodes_computes_parents() {
    let raw = vec![node(0, 0, 10, 0), node(1, 0, 4, 1), node(2, 0, 2, 2), node(3, 5, 10, 1)];
    let tree = link_nodes(raw, 10).expect("nodes describe a tree");
    let parents: Vec<usize> = tree.nodes.iter().map(|n| n.parent).collect();
    assert_eq!(parents, vec![0, 0, 1, 0]);
}

#[test]
fn link_nodes_rejects_depth_jump() {
    let raw = vec![node(0, 0, 10, 0), node(1, 0, 4, 2)];
    assert!(link_nodes(raw, 10).is_none());
}

#[test]
fn link_nodes_rejects_child_outside_parent() {
    let raw = vec![node(0, 0, 10, 0), node(1, 0, 4, 1), node(2, 3, 6, 2)];
    assert!(link_nodes(raw, 10).is_none());
}

#[test]
fn link_nodes_rejects_range_past_source() {
    assert!(link_nodes(vec![node(0, 0, 12, 0)], 10).is_none());
    assert!(link_nodes(Vec::new(), 10).is_none());
}
