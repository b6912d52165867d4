use karta_server::graph::{DataNode, Edge, GraphError, ROOT_UUID, VAULT_UUID};
use karta_server::contexts::{ContextDiskFacts, ContextView};
use karta_server::node_path::NodePath;
use karta_server::payloads::DeleteEdgePayload;
use karta_server::service::{file_name, parse_node_handle, storage_dir_for, system_node_message, KartaService, MoveFacts, NodeHandle, ServiceError};

fn node(uuid: u128, alias: &str, is_dir: bool) -> DataNode {
    DataNode {
        uuid,
        path: NodePath::from_alias(alias),
        ntype: if is_dir { "core/fs/dir".to_string() } else { "core/fs/file".to_string() },
        is_dir,
    }
}

/// A service whose index holds the root and the vault.
fn service() -> KartaService {
    let mut s = KartaService::new("test", "/tmp/vault", "/tmp/store");
    s
}

fn index(s: &mut KartaService, uuid: u128, alias: &str, is_dir: bool) {
    assert!(s.data_mut().insert_node(node(uuid, alias, is_dir)));
}

fn facts(on_disk: bool, parent: Option<DataNode>, parent_is_dir: bool, entries: &[&str]) -> MoveFacts {
    MoveFacts {
        source_on_disk: on_disk,
        target_parent_entry: parent,
        target_parent_is_dir: parent_is_dir,
        target_entries: entries.iter().map(|e| e.to_string()).collect(),
    }
}

fn indexed_uuid(s: &KartaService, alias: &str) -> Option<u128> {
    s.data().open_by_path(&NodePath::from_alias(alias)).map(|n| n.uuid)
}

fn path(alias: &str) -> NodePath {
    NodePath::from_alias(alias)
}

#[test]
fn storage_directory_gets_karta_subdirectory() {
    assert_eq!(storage_dir_for("/data/store"), "/data/store/.karta");
    assert_eq!(storage_dir_for("/data/store/"), "/data/store/.karta");
    assert_eq!(storage_dir_for("/data/.karta"), "/data/.karta");
    assert_eq!(storage_dir_for("/data/.karta/"), "/data/.karta/");
    let s = KartaService::new("v", "/home/me/vault", "/home/me/vault");
    assert_eq!(s.vault_fs_path(), "/home/me/vault");
    assert_eq!(s.storage_path(), "/home/me/vault/.karta");
    // Made again on its own storage directory, it keeps it.
    let again = KartaService::new("v", "/home/me/vault", s.storage_path());
    assert_eq!(again.storage_path(), "/home/me/vault/.karta");
}

#[test]
fn file_names_of_paths() {
    assert_eq!(file_name("/a/b.txt"), Some("b.txt"));
    assert_eq!(file_name("/a/b/"), Some("b"));
    assert_eq!(file_name("/a/b/."), Some("b"));
    assert_eq!(file_name("/a/.."), None);
    assert_eq!(file_name("/"), None);
    assert_eq!(file_name(""), None);
    assert_eq!(file_name("name"), Some("name"));
}

#[test]
fn handles_are_uuids_or_paths() {
    match parse_node_handle("67e55044-10b1-426f-9247-bb680e5fe0c8") {
        NodeHandle::Uuid(u) => assert_eq!(u, 0x67e5504410b1426f9247bb680e5fe0c8),
        NodeHandle::Path(_) => panic!("expected an identifier"),
    }
    match parse_node_handle("vault/notes.txt") {
        NodeHandle::Path(p) => assert_eq!(p.alias(), "/vault/notes.txt"),
        NodeHandle::Uuid(_) => panic!("expected a path"),
    }
}

#[test]
fn get_paths_only_indexed_or_all() {
    let mut s = service();
    index(&mut s, 3, "/vault/a.txt", false);
    assert_eq!(s.get_paths(true, &vec!["/vault/b.txt".to_string()]), vec!["/", "/vault", "/vault/a.txt"]);
    let all = s.get_paths(false, &vec!["/vault/b.txt".to_string(), "/vault/a.txt".to_string(), "/vault/b.txt".to_string()]);
    let mut sorted = all.clone();
    sorted.sort();
    assert_eq!(sorted, vec!["/", "/vault", "/vault/a.txt", "/vault/b.txt"]);
}

#[test]
fn open_node_prefers_the_index() {
    let mut s = service();
    index(&mut s, 3, "/vault/a.txt", false);
    let by_path = s.open_node(&NodeHandle::Path(path("/vault/a.txt")), Some(node(30, "/vault/a.txt", false))).unwrap();
    assert_eq!(by_path.uuid, 3);
    let from_disk = s.open_node(&NodeHandle::Path(path("/vault/b.txt")), Some(node(31, "/vault/b.txt", false))).unwrap();
    assert_eq!(from_disk.uuid, 31);
    assert!(s.open_node(&NodeHandle::Path(path("/vault/c.txt")), None).is_none());
    assert_eq!(s.open_node(&NodeHandle::Uuid(3), None).unwrap().path.alias(), "/vault/a.txt");
    assert!(s.open_node(&NodeHandle::Uuid(99), None).is_none());
}

#[test]
fn open_and_index_node_indexes_entries_from_disk() {
    let mut s = service();
    let n = s.open_and_index_node(&path("/vault/b.txt"), Some(node(31, "/vault/b.txt", false))).unwrap();
    assert_eq!(n.uuid, 31);
    assert_eq!(indexed_uuid(&s, "/vault/b.txt"), Some(31));
    assert_eq!(s.data().edges_of(31), vec![Edge { source: 2, target: 31, contains: true }]);
    // Opening it again gives the indexed node.
    let again = s.open_and_index_node(&path("/vault/b.txt"), Some(node(32, "/vault/b.txt", false))).unwrap();
    assert_eq!(again.uuid, 31);
}

#[test]
fn unique_names_avoid_disk_and_index() {
    let mut s = service();
    index(&mut s, 3, "/vault/notes.txt", false);
    let on_disk = vec!["notes_2.txt".to_string()];
    assert_eq!(s.generate_unique_name(&path("/vault"), "notes.txt", &on_disk), "notes_3.txt");
    assert_eq!(s.generate_unique_name(&path("/vault"), "fresh.txt", &on_disk), "fresh.txt");
    assert_eq!(s.generate_unique_name(&path("/"), "vault", &vec![]), "vault_2");
}

#[test]
fn test_move_indexed_physical_file_node() {
    let mut s = service();
    index(&mut s, 3, "/vault/initial_dir", true);
    index(&mut s, 4, "/vault/target_dir", true);
    index(&mut s, 5, "/vault/initial_dir/movable_file.txt", false);
    let original_node_uuid = indexed_uuid(&s, "/vault/initial_dir/movable_file.txt").unwrap();
    let dir_facts = |alias: &str, uuid: u128, children: Vec<DataNode>| ContextDiskFacts {
        focal_on_disk: true,
        focal_entry: Some(node(uuid, alias, true)),
        parent_entry: None,
        children,
    };
    let source_ctx = s
        .open_context(&path("/vault/initial_dir"), &dir_facts("/vault/initial_dir", 60, vec![node(61, "/vault/initial_dir/movable_file.txt", false)]), None)
        .unwrap();
    assert!(source_ctx.nodes.iter().any(|n| n.uuid == original_node_uuid), "Source context should contain the node before move");
    let f = facts(true, Some(node(40, "/vault/target_dir", true)), true, &[]);
    s.move_node(&path("/vault/initial_dir/movable_file.txt"), &path("/vault/target_dir"), &f).unwrap();
    let db_node = s.data().open_by_path(&path("/vault/target_dir/movable_file.txt")).unwrap();
    assert_eq!(db_node.path.alias(), "/vault/target_dir/movable_file.txt");
    assert_eq!(db_node.uuid, original_node_uuid, "UUID should not change after move");
    assert!(indexed_uuid(&s, "/vault/initial_dir/movable_file.txt").is_none());
    let source_ctx = s.open_context(&path("/vault/initial_dir"), &dir_facts("/vault/initial_dir", 60, vec![]), None).unwrap();
    assert!(!source_ctx.nodes.iter().any(|n| n.uuid == original_node_uuid), "Source context should not contain the node after move");
    let target_ctx = s
        .open_context(&path("/vault/target_dir"), &dir_facts("/vault/target_dir", 62, vec![node(63, "/vault/target_dir/movable_file.txt", false)]), None)
        .unwrap();
    assert!(target_ctx.nodes.iter().any(|n| n.uuid == original_node_uuid), "Target context should contain the node after move");
}

#[test]
fn test_move_unindexed_physical_file_node() {
    let mut s = service();
    let f = facts(true, Some(node(40, "/vault/target_dir", true)), true, &[]);
    assert_eq!(s.move_node(&path("/vault/initial_dir/movable_file.txt"), &path("/vault/target_dir"), &f), Ok(()));
    // Nothing about the file is indexed; the target directory now is.
    assert!(indexed_uuid(&s, "/vault/initial_dir/movable_file.txt").is_none());
    assert!(indexed_uuid(&s, "/vault/target_dir/movable_file.txt").is_none());
    assert_eq!(indexed_uuid(&s, "/vault/target_dir"), Some(40));
}

#[test]
fn test_move_virtual_node() {
    let mut s = service();
    index(&mut s, 3, "/vault/virtual_node", false);
    index(&mut s, 4, "/vault/invalid_virtual_parent", false);
    let f = facts(false, Some(node(40, "/vault/physical_dir", true)), true, &[]);
    s.move_node(&path("/vault/virtual_node"), &path("/vault/physical_dir"), &f).unwrap();
    let moved_node = s.data().open_by_path(&path("/vault/physical_dir/virtual_node")).unwrap();
    assert_eq!(moved_node.uuid, 3);
    assert_eq!(moved_node.path.alias(), "/vault/physical_dir/virtual_node");
    let to_virtual = facts(false, None, false, &[]);
    let move_to_virtual_result = s.move_node(&moved_node.path, &path("/vault/invalid_virtual_parent"), &to_virtual);
    assert!(move_to_virtual_result.is_err(), "Moving a virtual node to another virtual node should fail");
    assert_eq!(move_to_virtual_result, Err(ServiceError::VirtualTargetNotDirectory));
}

#[test]
fn move_to_missing_parent_is_refused() {
    let mut s = service();
    index(&mut s, 3, "/vault/a.txt", false);
    let f = facts(true, None, false, &[]);
    assert_eq!(s.move_node(&path("/vault/a.txt"), &path("/vault/nowhere"), &f), Err(ServiceError::TargetMissing));
    assert_eq!(indexed_uuid(&s, "/vault/a.txt"), Some(3));
}

#[test]
fn test_move_directory_with_physical_files() {
    let mut s = service();
    index(&mut s, 3, "/vault/source_dir", true);
    index(&mut s, 4, "/vault/dest_dir", true);
    index(&mut s, 5, "/vault/source_dir/movable_dir", true);
    index(&mut s, 6, "/vault/source_dir/movable_dir/file.txt", false);
    let f = facts(true, Some(node(40, "/vault/dest_dir", true)), true, &[]);
    s.move_node(&path("/vault/source_dir/movable_dir"), &path("/vault/dest_dir"), &f).unwrap();
    let moved_dir_node = s.data().open_by_path(&path("/vault/dest_dir/movable_dir")).expect("Moved directory should exist at new path in DB");
    assert_eq!(moved_dir_node.path.alias(), "/vault/dest_dir/movable_dir");
    let moved_file_node = s.data().open_by_path(&path("/vault/dest_dir/movable_dir/file.txt")).expect("Child file should exist at new path in DB");
    assert_eq!(moved_file_node.path.alias(), "/vault/dest_dir/movable_dir/file.txt");
}

#[test]
fn test_rename_physical_file_node() {
    let mut s = service();
    index(&mut s, 3, "/vault/test_dir", true);
    index(&mut s, 4, "/vault/test_dir/original_name.txt", false);
    let f = facts(true, Some(node(30, "/vault/test_dir", true)), true, &["original_name.txt"]);
    let original_path = path("/vault/test_dir/original_name.txt");
    let parent_path = original_path.parent().unwrap();
    let result_path = s.move_node_with_rename(&original_path, &parent_path, Some("new_name.txt"), &f).unwrap();
    assert_eq!(result_path.alias(), "/vault/test_dir/new_name.txt");
    let renamed_node = s.data().open_by_path(&path("/vault/test_dir/new_name.txt")).unwrap();
    assert_eq!(renamed_node.uuid, 4);
    assert_eq!(renamed_node.path.alias(), "/vault/test_dir/new_name.txt");
    assert_eq!(renamed_node.path.name(), "new_name.txt");
}

#[test]
fn test_rename_physical_directory() {
    let mut s = service();
    index(&mut s, 3, "/vault/parent_dir", true);
    index(&mut s, 4, "/vault/parent_dir/old_dir_name", true);
    index(&mut s, 5, "/vault/parent_dir/old_dir_name/child_file.txt", false);
    let f = facts(true, Some(node(30, "/vault/parent_dir", true)), true, &["old_dir_name"]);
    let original_dir_path = path("/vault/parent_dir/old_dir_name");
    let parent_path = original_dir_path.parent().unwrap();
    let result_path = s.move_node_with_rename(&original_dir_path, &parent_path, Some("new_dir_name"), &f).unwrap();
    assert_eq!(result_path.alias(), "/vault/parent_dir/new_dir_name");
    let renamed_dir = s.data().open_by_path(&path("/vault/parent_dir/new_dir_name")).unwrap();
    assert_eq!(renamed_dir.uuid, 4);
    assert_eq!(renamed_dir.path.name(), "new_dir_name");
    let renamed_file = s.data().open_by_path(&path("/vault/parent_dir/new_dir_name/child_file.txt")).unwrap();
    assert_eq!(renamed_file.uuid, 5);
    assert_eq!(renamed_file.path.alias(), "/vault/parent_dir/new_dir_name/child_file.txt");
}

#[test]
fn karta_service_test_rename_virtual_node() {
    let mut s = service();
    index(&mut s, 3, "/vault/parent_dir", true);
    index(&mut s, 4, "/vault/parent_dir/old_virtual_name", false);
    let f = facts(false, Some(node(30, "/vault/parent_dir", true)), true, &[]);
    let virtual_node_path = path("/vault/parent_dir/old_virtual_name");
    let parent_path = virtual_node_path.parent().unwrap();
    let result_path = s.move_node_with_rename(&virtual_node_path, &parent_path, Some("new_virtual_name"), &f).unwrap();
    assert_eq!(result_path.alias(), "/vault/parent_dir/new_virtual_name");
    let renamed_node = s.data().open_by_path(&path("/vault/parent_dir/new_virtual_name")).unwrap();
    assert_eq!(renamed_node.uuid, 4);
    assert_eq!(renamed_node.path.name(), "new_virtual_name");
    assert!(s.data().open_by_path(&virtual_node_path).is_none());
}

#[test]
fn test_rename_with_name_collision() {
    let mut s = service();
    index(&mut s, 3, "/vault/test_dir", true);
    index(&mut s, 4, "/vault/test_dir/file1.txt", false);
    index(&mut s, 5, "/vault/test_dir/file2.txt", false);
    let f = facts(true, Some(node(30, "/vault/test_dir", true)), true, &["file1.txt", "file2.txt"]);
    let file1_path = path("/vault/test_dir/file1.txt");
    let parent_path = file1_path.parent().unwrap();
    let result_path = s.move_node_with_rename(&file1_path, &parent_path, Some("file2.txt"), &f).unwrap();
    assert_ne!(result_path.name(), "file2.txt");
    assert!(result_path.name().starts_with("file2"));
    assert_eq!(result_path.name(), "file2_2.txt");
    assert_eq!(indexed_uuid(&s, "/vault/test_dir/file2.txt"), Some(5));
}

#[test]
fn test_rename_directory_updates_all_descendants() {
    let mut s = service();
    index(&mut s, 3, "/vault/parent_dir", true);
    index(&mut s, 4, "/vault/parent_dir/old_dir_name", true);
    index(&mut s, 5, "/vault/parent_dir/old_dir_name/subdir1", true);
    index(&mut s, 6, "/vault/parent_dir/old_dir_name/subdir2", true);
    index(&mut s, 7, "/vault/parent_dir/old_dir_name/file1.txt", false);
    index(&mut s, 8, "/vault/parent_dir/old_dir_name/subdir1/nested_file.txt", false);
    index(&mut s, 9, "/vault/parent_dir/old_dir_name/subdir2/deep_file.txt", false);
    let f = facts(true, Some(node(30, "/vault/parent_dir", true)), true, &["old_dir_name"]);
    let old_dir_path = path("/vault/parent_dir/old_dir_name");
    let parent_path = old_dir_path.parent().unwrap();
    let result_path = s.move_node_with_rename(&old_dir_path, &parent_path, Some("new_dir_name"), &f).unwrap();
    assert_eq!(result_path.name(), "new_dir_name");
    assert_eq!(result_path.alias(), "/vault/parent_dir/new_dir_name");
    for (alias, name) in [
        ("/vault/parent_dir/new_dir_name", "new_dir_name"),
        ("/vault/parent_dir/new_dir_name/subdir1", "subdir1"),
        ("/vault/parent_dir/new_dir_name/subdir2", "subdir2"),
        ("/vault/parent_dir/new_dir_name/file1.txt", "file1.txt"),
        ("/vault/parent_dir/new_dir_name/subdir1/nested_file.txt", "nested_file.txt"),
        ("/vault/parent_dir/new_dir_name/subdir2/deep_file.txt", "deep_file.txt"),
    ] {
        let n = s.data().open_by_path(&path(alias)).unwrap();
        assert_eq!(n.path.name(), name);
        assert_eq!(n.path.alias(), alias);
    }
    assert!(s.data().open_by_path(&old_dir_path).is_none());
    assert!(s.data().open_by_path(&path("/vault/parent_dir/old_dir_name/file1.txt")).is_none());
    assert!(s.data().open_by_path(&path("/vault/parent_dir/old_dir_name/subdir1/nested_file.txt")).is_none());
}

#[test]
fn test_rename_virtual_node_in_place() {
    let mut s = service();
    index(&mut s, 3, "/vault/test_virtual_node", false);
    let node_now = s.data().open_by_path(&path("/vault/test_virtual_node")).unwrap();
    assert_eq!(node_now.path.name(), "test_virtual_node");
    let f = facts(false, Some(node(20, "/vault", true)), true, &[]);
    let virtual_node_path = path("/vault/test_virtual_node");
    let parent_path = virtual_node_path.parent().unwrap();
    let result_path = s.move_node_with_rename(&virtual_node_path, &parent_path, Some("renamed_virtual_node"), &f).unwrap();
    assert_eq!(result_path.name(), "renamed_virtual_node");
    assert_eq!(result_path.alias(), "/vault/renamed_virtual_node");
    let renamed_node = s.data().open_by_path(&result_path).unwrap();
    assert_eq!(renamed_node.path.name(), "renamed_virtual_node");
    assert!(s.data().open_by_path(&virtual_node_path).is_none());
}

#[test]
fn test_rename_unindexed_physical_file() {
    let mut s = service();
    let f = facts(true, Some(node(30, "/vault/test_dir", true)), true, &["unindexed_file.txt"]);
    let original_path = path("/vault/test_dir/unindexed_file.txt");
    assert!(s.data().open_by_path(&original_path).is_none(), "File should not be indexed initially");
    let parent_path = original_path.parent().unwrap();
    let result = s.move_node_with_rename(&original_path, &parent_path, Some("renamed_file.txt"), &f);
    assert_eq!(result.unwrap().alias(), "/vault/test_dir/renamed_file.txt");
}

#[test]
fn test_rename_unindexed_physical_directory() {
    let mut s = service();
    let f = facts(true, Some(node(30, "/vault/parent_dir", true)), true, &["unindexed_dir"]);
    let original_dir_path = path("/vault/parent_dir/unindexed_dir");
    assert!(s.data().open_by_path(&original_dir_path).is_none(), "Directory should not be indexed initially");
    let parent_path = original_dir_path.parent().unwrap();
    let result = s.move_node_with_rename(&original_dir_path, &parent_path, Some("renamed_dir"), &f);
    assert_eq!(result.unwrap().alias(), "/vault/parent_dir/renamed_dir");
}

#[test]
fn renaming_a_missing_virtual_node_is_refused() {
    let mut s = service();
    let f = facts(false, None, false, &[]);
    let p = path("/vault/ghost");
    let parent = p.parent().unwrap();
    assert!(matches!(s.move_node_with_rename(&p, &parent, Some("other"), &f), Err(ServiceError::VirtualNodeMissing)));
}

#[test]
fn moving_an_orphan_reports_the_index_refusal() {
    let mut s = KartaService::new("test", "/tmp/vault", "/tmp/store");
    // Without its directory in the index, the node has no parent edge.
    s.data_mut().insert_node(node(3, "/vault/x/a.txt", false));
    s.data_mut().insert_node(node(4, "/vault/b", true));
    let f = facts(true, None, true, &[]);
    let r = s.move_node_with_rename(&path("/vault/x/a.txt"), &path("/vault/b"), None, &f);
    assert!(matches!(r, Err(ServiceError::Index(GraphError::NoParent))));
}

#[test]
fn deletion_of_an_indexed_directory() {
    let mut s = service();
    index(&mut s, 3, "/vault/dir", true);
    index(&mut s, 4, "/vault/dir/a.txt", false);
    index(&mut s, 5, "/vault/dir/b.txt", false);
    index(&mut s, 6, "/vault/other.txt", false);
    assert!(s.data_mut().insert_edge(Edge { source: 3, target: 6, contains: false }));
    let handle = parse_node_handle("/vault/dir");
    let warnings = s.deletion_warnings(&vec![parse_node_handle("/vault/dir"), parse_node_handle("/vault/other.txt")]);
    assert_eq!(warnings, vec!["Deleting directory '/vault/dir' will also delete 2 descendants"]);
    let pending = s.prepare_deletion(&handle, None).unwrap();
    assert!(pending.is_indexed);
    let descendants = s.delete_descendants(&pending);
    assert_eq!(descendants, vec![4, 5]);
    assert!(indexed_uuid(&s, "/vault/dir/a.txt").is_none());
    let info = s.finish_deletion(&pending, &descendants, true);
    assert_eq!(info.node_id, "00000000-0000-0000-0000-000000000003");
    assert_eq!(info.node_path, "/vault/dir");
    assert_eq!(info.node_type, "core/fs/dir");
    assert!(info.was_physical);
    assert_eq!(info.descendants_deleted, vec!["00000000-0000-0000-0000-000000000004", "00000000-0000-0000-0000-000000000005"]);
    assert_eq!(info.edge_snapshots, vec![Edge { source: 2, target: 3, contains: true }, Edge { source: 3, target: 6, contains: false }]);
    assert!(info.context_removals.is_empty());
    assert!(indexed_uuid(&s, "/vault/dir").is_none());
    assert!(s.data().edges_of(6).iter().all(|e| e.source != 3));
}

#[test]
fn deletion_of_unindexed_file_and_refusals() {
    let s = service();
    let pending = s.prepare_deletion(&parse_node_handle("/vault/loose.txt"), Some(node(50, "/vault/loose.txt", false))).unwrap();
    assert!(!pending.is_indexed);
    assert_eq!(pending.node.uuid, 50);
    assert!(matches!(s.prepare_deletion(&parse_node_handle("/vault/none.txt"), None), Err(ServiceError::NotFound)));
    assert!(matches!(s.prepare_deletion(&NodeHandle::Uuid(1), None), Err(ServiceError::SystemNode)));
    assert_eq!(system_node_message("x", "/"), "Cannot delete system node: x (path: /)");
}

#[test]
fn edges_created_reconnected_and_deleted() {
    let mut s = service();
    index(&mut s, 3, "/vault/a.txt", false);
    let e = s.create_edge(&path("/vault/a.txt"), &path("/vault/b.txt"), None, Some(node(4, "/vault/b.txt", false))).unwrap();
    assert_eq!(e, Edge { source: 3, target: 4, contains: false });
    assert_eq!(indexed_uuid(&s, "/vault/b.txt"), Some(4));
    let r = s.reconnect_edge(3, 4, 3, 5, None, Some(node(5, "/vault/c.txt", false)));
    assert_eq!(r, Ok(Edge { source: 3, target: 5, contains: false }));
    assert_eq!(s.reconnect_edge(3, 5, 3, 9, None, None), Err(ServiceError::NotFound));
    assert_eq!(s.delete_edges(&vec![DeleteEdgePayload { source: 3, target: 5 }]), Ok(()));
    assert!(s.data().edges_of(3).iter().all(|e| e.target != 5));
    assert_eq!(s.delete_edges(&vec![DeleteEdgePayload { source: 2, target: 3 }]), Err(GraphError::ContainsEdge));
}

#[test]
fn search_ranks_matches_and_reports_indexed_nodes() {
    let mut s = service();
    index(&mut s, 3, "/vault/notes.txt", false);
    let physical = vec!["/vault/notebook.md".to_string(), "/vault/zzz.bin".to_string()];
    let (ranked, nodes) = s.search_nodes("note", 10, &physical);
    assert_eq!(ranked.total_found, 2);
    assert!(!ranked.truncated);
    assert_eq!(nodes.len(), ranked.results.len());
    for (r, n) in ranked.results.iter().zip(nodes.iter()) {
        assert!(r.path.contains("note"));
        match n {
            Some(d) => {
                assert_eq!(r.path, "/vault/notes.txt");
                assert_eq!(d.uuid, 3);
            },
            None => assert_eq!(r.path, "/vault/notebook.md"),
        }
    }
    assert!(ranked.results[0].score >= ranked.results[1].score);
    let (cut, _) = s.search_nodes("note", 1, &physical);
    assert_eq!(cut.results.len(), 1);
    assert!(cut.truncated);
}

#[test]
fn new_service_indexes_the_root_and_the_vault() {
    let s = KartaService::new("test", "/tmp/vault", "/tmp/store");
    assert_eq!(s.get_paths(true, &Vec::new()), vec!["/".to_string(), "/vault".to_string()]);
    assert_eq!(s.data().open_by_alias("/").unwrap().uuid, ROOT_UUID);
    assert_eq!(s.data().open_by_alias("/vault").unwrap().uuid, VAULT_UUID);
    assert_eq!(s.data().edges_of(VAULT_UUID), vec![Edge { source: ROOT_UUID, target: VAULT_UUID, contains: true }]);
}

#[test]
fn get_paths_lists_indexed_and_physical_paths() {
    let mut s = service();
    index(&mut s, 3, "/vault/indexed_node", false);
    assert_eq!(s.get_paths(true, &Vec::new()), vec!["/".to_string(), "/vault".to_string(), "/vault/indexed_node".to_string()]);
    let physical = vec!["/vault".to_string(), "/vault/physical_dir".to_string()];
    let mut all = s.get_paths(false, &physical);
    all.sort();
    assert_eq!(all, vec!["/".to_string(), "/vault".to_string(), "/vault/indexed_node".to_string(), "/vault/physical_dir".to_string()]);
}

#[test]
fn inserted_node_is_read_back_through_data() {
    let mut s = service();
    index(&mut s, 9, "/vault/new.txt", false);
    assert_eq!(s.data().open_by_path(&path("/vault/new.txt")).unwrap().uuid, 9);
}

fn ids_of(v: &ContextView) -> Vec<u128> {
    v.nodes.iter().map(|n| n.uuid).collect()
}

fn ends_of(v: &ContextView) -> Vec<(u128, u128)> {
    v.edges.iter().map(|e| (e.source, e.target)).collect()
}

fn no_facts() -> ContextDiskFacts {
    ContextDiskFacts { focal_on_disk: false, focal_entry: None, parent_entry: None, children: Vec::new() }
}

#[test]
fn root_context_shows_the_root_and_the_vault() {
    let s = service();
    let v = s.open_context(&path("/"), &no_facts(), None).unwrap();
    assert_eq!(ids_of(&v), vec![ROOT_UUID, VAULT_UUID]);
    assert_eq!(ends_of(&v), vec![(ROOT_UUID, VAULT_UUID)]);
    assert_eq!(v.focal, ROOT_UUID);
    assert_eq!(v.parent, None);
}

#[test]
fn physical_context_merges_disk_children_with_the_index() {
    let mut s = service();
    index(&mut s, 3, "/vault/docs", true);
    let facts = ContextDiskFacts {
        focal_on_disk: true,
        focal_entry: Some(node(40, "/vault", true)),
        parent_entry: None,
        children: vec![node(50, "/vault/a.txt", false), node(51, "/vault/docs", true)],
    };
    let v = s.open_context(&path("/vault"), &facts, None).unwrap();
    assert_eq!(ids_of(&v), vec![VAULT_UUID, ROOT_UUID, 50, 3]);
    assert_eq!(ends_of(&v), vec![(ROOT_UUID, VAULT_UUID), (VAULT_UUID, 50), (VAULT_UUID, 3)]);
    assert_eq!(v.focal, VAULT_UUID);
    assert_eq!(v.parent, Some(ROOT_UUID));
}

#[test]
fn virtual_context_and_missing_context() {
    let mut s = service();
    index(&mut s, 7, "/vault/note", false);
    let v = s.open_context(&path("/vault/note"), &no_facts(), None).unwrap();
    assert_eq!(ids_of(&v), vec![7, VAULT_UUID]);
    assert_eq!(ends_of(&v), vec![(VAULT_UUID, 7)]);
    assert_eq!(v.parent, Some(VAULT_UUID));
    assert!(matches!(s.open_context(&path("/vault/none"), &no_facts(), None), Err(ServiceError::NotFound)));
}

#[test]
fn saved_context_adds_its_indexed_nodes() {
    let mut s = service();
    index(&mut s, 3, "/vault/docs", true);
    index(&mut s, 4, "/vault/docs/a.txt", false);
    let v = s.open_context(&path("/"), &no_facts(), Some(&vec![4, 99, ROOT_UUID])).unwrap();
    assert_eq!(ids_of(&v), vec![ROOT_UUID, VAULT_UUID, 4]);
    assert_eq!(ends_of(&v), vec![(ROOT_UUID, VAULT_UUID)]);
    assert_eq!(s.available_contexts(&vec![4, 99]), vec![(4, "/vault/docs/a.txt".to_string())]);
}
