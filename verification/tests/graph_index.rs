use karta_server::graph::{DataNode, Edge, GraphError, GraphIndex};
use karta_server::node_path::NodePath;

fn node(uuid: u128, alias: &str, is_dir: bool) -> DataNode {
    DataNode {
        uuid,
        path: NodePath::from_alias(alias),
        ntype: if is_dir { "core/fs/dir".to_string() } else { "core/fs/file".to_string() },
        is_dir,
    }
}

/// Root, vault, a directory `docs` with a file and a subdirectory holding
/// another file, and a directory `archive`.
fn sample() -> GraphIndex {
    let mut g = GraphIndex::new();
    assert!(g.insert_node(node(3, "/vault/docs", true)));
    assert!(g.insert_node(node(4, "/vault/docs/a.txt", false)));
    assert!(g.insert_node(node(5, "/vault/docs/sub", true)));
    assert!(g.insert_node(node(6, "/vault/docs/sub/b.txt", false)));
    assert!(g.insert_node(node(7, "/vault/archive", true)));
    g
}

fn path_of(g: &GraphIndex, uuid: u128) -> String {
    g.open_by_uuid(uuid).unwrap().path.alias()
}

#[test]
fn create_new_node() {
    let graph = GraphIndex::new();
    let path = NodePath::from_relative("test");
    assert_eq!(path.alias(), "/vault/test");
    assert!(!graph.is_indexed(&path));
}

#[test]
fn creating_deep_path_creates_intermediate_nodes() {
    let mut graph = GraphIndex::new();
    let path = NodePath::from_relative("one/two/three");
    let added = graph.insert_node(DataNode { uuid: 10, path, ntype: "core/fs/dir".to_string(), is_dir: true });
    assert!(added);
    assert!(graph.is_indexed(&NodePath::from_alias("/vault/one/two/three")));
}

#[test]
fn todo_tests() {
    assert_eq!(2 + 2, 4);
}

#[test]
fn inserted_node_is_found_by_identifier_and_path() {
    let g = sample();
    let n = g.open_by_uuid(4).unwrap();
    assert_eq!(n.path.alias(), "/vault/docs/a.txt");
    assert!(!n.is_dir);
    let m = g.open_by_path(&NodePath::from_alias("/vault/docs/sub")).unwrap();
    assert_eq!(m.uuid, 5);
    assert!(g.open_by_uuid(99).is_none());
    assert!(g.open_by_path(&NodePath::from_alias("/vault/none")).is_none());
}

#[test]
fn insert_refuses_taken_identifier_or_path() {
    let mut g = sample();
    assert!(!g.insert_node(node(4, "/vault/other.txt", false)));
    assert!(!g.insert_node(node(40, "/vault/docs/a.txt", false)));
    assert_eq!(g.get_all_indexed_paths().len(), 7);
}

#[test]
fn insert_links_node_to_indexed_parent() {
    let g = sample();
    let into_a = g.edges_of(4);
    assert_eq!(into_a, vec![Edge { source: 3, target: 4, contains: true }]);
    // The root has no parent, so the first node gets no edge.
    let of_root = g.edges_of(1);
    assert_eq!(of_root, vec![Edge { source: 1, target: 2, contains: true }]);
}

#[test]
fn descendants_lists_nodes_below_in_order() {
    let g = sample();
    let below: Vec<u128> = g.descendants(&NodePath::from_alias("/vault/docs")).iter().map(|n| n.uuid).collect();
    assert_eq!(below, vec![4, 5, 6]);
    assert!(g.descendants(&NodePath::from_alias("/vault/docs/a.txt")).is_empty());
}

#[test]
fn move_subtree_relocates_descendants_and_reparents() {
    let mut g = sample();
    let res = g.move_subtree(&NodePath::from_alias("/vault/docs"), &NodePath::from_alias("/vault/archive/docs2"));
    assert_eq!(res, Ok(()));
    assert_eq!(path_of(&g, 3), "/vault/archive/docs2");
    assert_eq!(path_of(&g, 4), "/vault/archive/docs2/a.txt");
    assert_eq!(path_of(&g, 5), "/vault/archive/docs2/sub");
    assert_eq!(path_of(&g, 6), "/vault/archive/docs2/sub/b.txt");
    assert_eq!(path_of(&g, 7), "/vault/archive");
    assert_eq!(g.edges_of(3)[0], Edge { source: 7, target: 3, contains: true });
}

#[test]
fn move_there_and_back_restores_paths() {
    let mut g = sample();
    let before = g.get_all_indexed_paths();
    g.move_subtree(&NodePath::from_alias("/vault/docs"), &NodePath::from_alias("/vault/archive/docs")).unwrap();
    g.move_subtree(&NodePath::from_alias("/vault/archive/docs"), &NodePath::from_alias("/vault/docs")).unwrap();
    assert_eq!(g.get_all_indexed_paths(), before);
}

#[test]
fn move_of_unindexed_source_changes_nothing() {
    let mut g = sample();
    let before = g.get_all_indexed_paths();
    assert_eq!(g.move_subtree(&NodePath::from_alias("/vault/ghost"), &NodePath::from_alias("/vault/archive/ghost")), Ok(()));
    assert_eq!(g.get_all_indexed_paths(), before);
}

#[test]
fn move_refusals() {
    let mut g = sample();
    // The root has no incoming contains edge.
    assert_eq!(g.move_subtree(&NodePath::from_alias("/"), &NodePath::from_alias("/vault/root")), Err(GraphError::NoParent));
    // The new parent is not indexed.
    assert_eq!(
        g.move_subtree(&NodePath::from_alias("/vault/docs"), &NodePath::from_alias("/vault/missing/docs")),
        Err(GraphError::TargetParentMissing)
    );
    assert_eq!(path_of(&g, 4), "/vault/docs/a.txt");
}

#[test]
fn move_onto_a_taken_path_leaves_both_nodes_there() {
    let mut g = sample();
    let taken = g.open_by_alias("/vault/docs/sub/b.txt").unwrap().uuid;
    assert_eq!(
        g.move_subtree(&NodePath::from_alias("/vault/docs/a.txt"), &NodePath::from_alias("/vault/docs/sub/b.txt")),
        Ok(())
    );
    assert_eq!(path_of(&g, 4), "/vault/docs/sub/b.txt");
    assert_eq!(path_of(&g, taken), "/vault/docs/sub/b.txt");
    assert!(g.open_by_alias("/vault/docs/a.txt").is_none());
}

#[test]
fn delete_node_removes_it_and_its_edges() {
    let mut g = sample();
    assert!(g.insert_edge(Edge { source: 4, target: 7, contains: false }));
    g.delete_node_and_edges(4);
    assert!(g.open_by_uuid(4).is_none());
    assert!(g.edges_of(4).is_empty());
    assert_eq!(g.edges_of(7), vec![Edge { source: 2, target: 7, contains: true }]);
}

#[test]
fn remove_nodes_removes_every_listed_node() {
    let mut g = sample();
    g.remove_nodes(&vec![5, 6]);
    assert!(g.open_by_uuid(5).is_none());
    assert!(g.open_by_uuid(6).is_none());
    assert!(g.open_by_uuid(4).is_some());
    assert!(g.edges_of(3).iter().all(|e| e.target != 5));
}

#[test]
fn insert_edge_needs_both_ends_indexed() {
    let mut g = sample();
    assert!(!g.insert_edge(Edge { source: 4, target: 99, contains: false }));
    assert!(g.insert_edge(Edge { source: 4, target: 6, contains: false }));
    assert_eq!(g.edges_between(&vec![4, 6]), vec![Edge { source: 4, target: 6, contains: false }]);
}

#[test]
fn delete_edges_refuses_contains_edges() {
    let mut g = sample();
    g.insert_edge(Edge { source: 4, target: 6, contains: false });
    assert_eq!(g.delete_edges(&vec![(3, 4)]), Err(GraphError::ContainsEdge));
    assert_eq!(g.delete_edges(&vec![(4, 6)]), Ok(()));
    assert!(g.edges_between(&vec![4, 6]).is_empty());
}

#[test]
fn reconnect_edge_moves_its_ends() {
    let mut g = sample();
    g.insert_edge(Edge { source: 4, target: 6, contains: false });
    assert_eq!(g.reconnect_edge(4, 6, 4, 7), Ok(Edge { source: 4, target: 7, contains: false }));
    assert!(g.edges_between(&vec![4, 6]).is_empty());
    assert_eq!(g.reconnect_edge(4, 6, 4, 7), Err(GraphError::EdgeNotFound));
    assert_eq!(g.reconnect_edge(3, 4, 7, 4), Err(GraphError::ContainsEdge));
    assert_eq!(g.reconnect_edge(4, 7, 4, 99), Err(GraphError::EdgeNotFound));
}

#[test]
fn indexed_paths_are_listed_in_order() {
    let g = sample();
    assert_eq!(
        g.get_all_indexed_paths(),
        vec!["/", "/vault", "/vault/docs", "/vault/docs/a.txt", "/vault/docs/sub", "/vault/docs/sub/b.txt", "/vault/archive"]
    );
}
