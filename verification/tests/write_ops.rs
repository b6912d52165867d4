use karta_server::graph::DataNode;
use karta_server::moves::MoveRejection;
use karta_server::node_path::NodePath;
use karta_server::payloads::{MoveOperation, RenameNodeByPathPayload};
use karta_server::requests::RenameRejection;
use karta_server::service::{KartaService, MoveFacts, ServiceError};
use karta_server::write_ops::{
    collect_all_descendants, collect_nodes_after_move, collect_nodes_before_move, create_node, move_node_request, rename_node,
    rename_node_by_path, renamed_node_response, update_node, CreateFailure, MoveFailure, NameAttribute, RenameFailure, UpdateFailure,
};

fn node(uuid: u128, alias: &str, is_dir: bool) -> DataNode {
    DataNode {
        uuid,
        path: NodePath::from_alias(alias),
        ntype: if is_dir { "core/fs/dir".to_string() } else { "core/fs/file".to_string() },
        is_dir,
    }
}

/// The root and vault of a new index, `source_dir` with a file and `movable_dir/file.txt`, and
/// an empty `dest_dir`.
fn service() -> KartaService {
    let mut s = KartaService::new("test", "/tmp/vault", "/tmp/store");
    for (uuid, alias, dir) in [
        (3, "/vault/source_dir", true),
        (4, "/vault/source_dir/test_file.txt", false),
        (5, "/vault/source_dir/movable_dir", true),
        (6, "/vault/source_dir/movable_dir/file.txt", false),
        (7, "/vault/dest_dir", true),
    ] {
        assert!(s.data_mut().insert_node(node(uuid, alias, dir)));
    }
    s
}

fn no_disk() -> MoveFacts {
    MoveFacts { source_on_disk: false, target_parent_entry: None, target_parent_is_dir: false, target_entries: Vec::new() }
}

fn on_disk(parent: &str, entries: &[&str]) -> MoveFacts {
    MoveFacts {
        source_on_disk: true,
        target_parent_entry: Some(node(90, parent, true)),
        target_parent_is_dir: true,
        target_entries: entries.iter().map(|e| e.to_string()).collect(),
    }
}

fn op(source: &str, target: &str) -> MoveOperation {
    MoveOperation { source_path: source.to_string(), target_parent_path: target.to_string() }
}

#[test]
fn test_move_nodes_single_file() {
    let mut s = service();
    let (final_path, moved) = move_node_request(&mut s, &op("/vault/source_dir/test_file.txt", "/vault/dest_dir"), &on_disk("/vault/dest_dir", &[])).unwrap();
    assert_eq!(final_path.alias(), "/vault/dest_dir/test_file.txt");
    assert_eq!(moved.len(), 1);
    assert_eq!(moved[0].uuid, 4);
    assert_eq!(moved[0].path, "/vault/dest_dir/test_file.txt");
    assert_eq!(s.data().open_by_uuid(4).unwrap().path.alias(), "/vault/dest_dir/test_file.txt");
}

#[test]
fn test_move_nodes_directory_returns_all_affected_nodes() {
    let mut s = service();
    let (_, moved) = move_node_request(&mut s, &op("/vault/source_dir/movable_dir", "/vault/dest_dir"), &on_disk("/vault/dest_dir", &[])).unwrap();
    let pairs: Vec<(u128, String)> = moved.iter().map(|m| (m.uuid, m.path.clone())).collect();
    assert_eq!(pairs, vec![(5, "/vault/dest_dir/movable_dir".to_string()), (6, "/vault/dest_dir/movable_dir/file.txt".to_string())]);
}

#[test]
fn test_move_nodes_error_handling() {
    let mut s = service();
    assert!(matches!(
        move_node_request(&mut s, &op("/elsewhere/a", "/vault/dest_dir"), &no_disk()),
        Err(MoveFailure::Rejected(MoveRejection::OutsideVault))
    ));
    assert!(matches!(
        move_node_request(&mut s, &op("/vault/source_dir/test_file.txt", "/vault/missing"), &no_disk()),
        Err(MoveFailure::Rejected(MoveRejection::TargetNotFound))
    ));
    assert!(matches!(
        move_node_request(&mut s, &op("/vault/dest_dir", "/vault/source_dir/test_file.txt"), &no_disk()),
        Err(MoveFailure::Rejected(MoveRejection::TargetNotDirectory))
    ));
}

#[test]
fn test_move_nodes_prevents_circular_moves() {
    let mut s = service();
    assert!(matches!(
        move_node_request(&mut s, &op("/vault/source_dir", "/vault/source_dir/movable_dir"), &no_disk()),
        Err(MoveFailure::Rejected(MoveRejection::IntoItself))
    ));
}

#[test]
fn test_move_nodes_name_collision_auto_rename() {
    let mut s = service();
    s.data_mut().insert_node(node(8, "/vault/dest_dir/test_file.txt", false));
    let (final_path, moved) = move_node_request(&mut s, &op("/vault/source_dir/test_file.txt", "/vault/dest_dir"), &on_disk("/vault/dest_dir", &["test_file.txt"])).unwrap();
    assert_eq!(final_path.alias(), "/vault/dest_dir/test_file_2.txt");
    assert_eq!(moved[0].path, "/vault/dest_dir/test_file_2.txt");
    assert_eq!(s.data().open_by_uuid(8).unwrap().path.alias(), "/vault/dest_dir/test_file.txt");
}

#[test]
fn test_move_nodes_preserves_uuid_no_duplicates() {
    let mut s = service();
    move_node_request(&mut s, &op("/vault/source_dir/movable_dir", "/vault/dest_dir"), &on_disk("/vault/dest_dir", &[])).unwrap();
    let paths = s.get_paths(true, &Vec::new());
    let mut sorted = paths.clone();
    sorted.sort();
    sorted.dedup();
    assert_eq!(sorted.len(), paths.len());
    assert_eq!(s.data().open_by_path(&NodePath::from_alias("/vault/dest_dir/movable_dir/file.txt")).unwrap().uuid, 6);
}

#[test]
fn test_rename_node_endpoint() {
    let mut s = service();
    let payload = RenameNodeByPathPayload { path: "/vault/source_dir/test_file.txt".to_string(), new_name: "renamed.txt".to_string() };
    let (final_path, renamed) = rename_node(&mut s, &payload, &on_disk("/vault/source_dir", &["test_file.txt"])).unwrap();
    assert_eq!(final_path.alias(), "/vault/source_dir/renamed.txt");
    assert_eq!(renamed.len(), 1);
    assert_eq!(renamed[0].uuid, 4);
    assert_eq!(renamed[0].path, "/vault/source_dir/renamed.txt");
}

#[test]
fn test_rename_node_with_collision_resolution() {
    let mut s = service();
    let payload = RenameNodeByPathPayload { path: "/vault/source_dir/test_file.txt".to_string(), new_name: "movable_dir".to_string() };
    let (final_path, _) = rename_node(&mut s, &payload, &on_disk("/vault/source_dir", &["test_file.txt", "movable_dir"])).unwrap();
    assert_eq!(final_path.alias(), "/vault/source_dir/movable_dir_2");
}

#[test]
fn test_rename_directory_with_descendants() {
    let mut s = service();
    let payload = RenameNodeByPathPayload { path: "/vault/source_dir/movable_dir".to_string(), new_name: "renamed_dir".to_string() };
    let (_, renamed) = rename_node(&mut s, &payload, &on_disk("/vault/source_dir", &["movable_dir"])).unwrap();
    let pairs: Vec<(u128, String)> = renamed.iter().map(|m| (m.uuid, m.path.clone())).collect();
    assert_eq!(pairs, vec![(5, "/vault/source_dir/renamed_dir".to_string()), (6, "/vault/source_dir/renamed_dir/file.txt".to_string())]);
}

#[test]
fn rename_requests_that_are_refused() {
    let mut s = service();
    let outside = RenameNodeByPathPayload { path: "/other/x".to_string(), new_name: "y".to_string() };
    assert!(matches!(rename_node(&mut s, &outside, &no_disk()), Err(RenameFailure::Rejected(RenameRejection::BadRequest))));
    let vault = RenameNodeByPathPayload { path: "/vault".to_string(), new_name: "y".to_string() };
    assert!(matches!(rename_node(&mut s, &vault, &no_disk()), Err(RenameFailure::Rejected(RenameRejection::Forbidden))));
    let blank = RenameNodeByPathPayload { path: "/vault/source_dir".to_string(), new_name: "   ".to_string() };
    assert!(matches!(rename_node(&mut s, &blank, &no_disk()), Err(RenameFailure::Rejected(RenameRejection::BadRequest))));
    let ghost = RenameNodeByPathPayload { path: "/vault/ghost".to_string(), new_name: "y".to_string() };
    assert!(matches!(rename_node(&mut s, &ghost, &no_disk()), Err(RenameFailure::Failed(ServiceError::VirtualNodeMissing))));
}

#[test]
fn unindexed_rename_gets_a_name_based_identifier() {
    let mut s = service();
    let payload = RenameNodeByPathPayload { path: "/vault/loose.txt".to_string(), new_name: "kept.txt".to_string() };
    let (final_path, renamed) = rename_node(&mut s, &payload, &on_disk("/vault", &["loose.txt"])).unwrap();
    assert_eq!(final_path.alias(), "/vault/kept.txt");
    let expected = uuid::Uuid::new_v5(&uuid::Uuid::NAMESPACE_URL, "/vault/kept.txt".as_bytes()).as_u128();
    assert_eq!(renamed[0].uuid, expected);
}

#[test]
fn rename_by_path_and_read_back() {
    let mut s = service();
    let payload = RenameNodeByPathPayload { path: "/vault/source_dir/movable_dir".to_string(), new_name: "  moved_dir ".to_string() };
    let new_path = rename_node_by_path(&mut s, &payload, &on_disk("/vault/source_dir", &["movable_dir"])).unwrap();
    assert_eq!(new_path.alias(), "/vault/source_dir/moved_dir");
    let response = renamed_node_response(&s, &new_path, None).unwrap();
    assert_eq!(response.updated_node.uuid, 5);
    assert_eq!(response.affected_nodes.len(), 1);
    assert_eq!(response.affected_nodes[0].path.alias(), "/vault/source_dir/moved_dir/file.txt");
    let root = RenameNodeByPathPayload { path: "/".to_string(), new_name: "x".to_string() };
    assert!(matches!(rename_node_by_path(&mut s, &root, &no_disk()), Err(UpdateFailure::BadRequest)));
    assert!(matches!(renamed_node_response(&s, &NodePath::from_alias("/vault/nothing"), None), Err(UpdateFailure::ReloadFailed)));
}

#[test]
fn update_node_renames_or_gives_the_node_back() {
    let mut s = service();
    let same = update_node(&mut s, 4, &NameAttribute::Text("test_file.txt".to_string()), &no_disk()).unwrap();
    assert_eq!(same.updated_node.path.alias(), "/vault/source_dir/test_file.txt");
    assert!(same.affected_nodes.is_empty());
    let absent = update_node(&mut s, 4, &NameAttribute::Absent, &no_disk()).unwrap();
    assert_eq!(absent.updated_node.uuid, 4);
    assert!(matches!(update_node(&mut s, 4, &NameAttribute::Other, &no_disk()), Err(UpdateFailure::BadRequest)));
    assert!(matches!(update_node(&mut s, 99, &NameAttribute::Absent, &no_disk()), Err(UpdateFailure::NotFound)));
    assert!(matches!(update_node(&mut s, 4, &NameAttribute::Text(" ".to_string()), &no_disk()), Err(UpdateFailure::BadRequest)));
    let renamed = update_node(&mut s, 5, &NameAttribute::Text("new_dir".to_string()), &on_disk("/vault/source_dir", &["movable_dir"])).unwrap();
    assert_eq!(renamed.updated_node.path.alias(), "/vault/source_dir/new_dir");
    assert_eq!(renamed.affected_nodes.len(), 1);
    assert_eq!(renamed.affected_nodes[0].uuid, 6);
}

#[test]
fn test_create_node_outside_vault_fails() {
    let mut s = service();
    assert!(matches!(create_node(&mut s, "x", "core/text", "/elsewhere", 100), Err(CreateFailure::OutsideVault)));
}

#[test]
fn test_create_node_inside_vault_succeeds() {
    let mut s = service();
    let n = create_node(&mut s, "note", "core/text", "/vault/dest_dir", 100).unwrap();
    assert_eq!(n.path.alias(), "/vault/dest_dir/note");
    assert!(!n.is_dir);
    let again = create_node(&mut s, "note", "core/fs/dir", "/vault/dest_dir", 101).unwrap();
    assert_eq!(again.path.alias(), "/vault/dest_dir/note_2");
    assert!(again.is_dir);
    assert_eq!(s.data().open_by_uuid(101).unwrap().path.alias(), "/vault/dest_dir/note_2");
}

#[test]
fn descendants_and_move_records() {
    let s = service();
    let all: Vec<u128> = collect_all_descendants(&s, &NodePath::from_alias("/vault/source_dir")).iter().map(|n| n.uuid).collect();
    assert_eq!(all, vec![4, 5, 6]);
    assert!(collect_all_descendants(&s, &NodePath::from_alias("/vault/nothing")).is_empty());
    let before = collect_nodes_before_move(&s, &NodePath::from_alias("/vault/source_dir/movable_dir"), &NodePath::from_alias("/vault/x/m"));
    assert_eq!(before.iter().map(|m| m.path.clone()).collect::<Vec<_>>(), vec!["/vault/x/m", "/vault/x/m/file.txt"]);
    let after = collect_nodes_after_move(&s, &NodePath::from_alias("/vault/old"), &NodePath::from_alias("/vault/source_dir/movable_dir"));
    assert_eq!(after.iter().map(|m| m.uuid).collect::<Vec<_>>(), vec![5, 6]);
}

#[test]
fn test_move_nodes_to_unindexed_directory() {
    let mut s = service();
    let facts = MoveFacts {
        source_on_disk: true,
        target_parent_entry: Some(node(91, "/vault/unindexed_folder", true)),
        target_parent_is_dir: true,
        target_entries: Vec::new(),
    };
    let (final_path, moved) = move_node_request(&mut s, &op("/vault/source_dir/test_file.txt", "/vault/unindexed_folder"), &facts).unwrap();
    assert_eq!(final_path.alias(), "/vault/unindexed_folder/test_file.txt");
    assert_eq!(moved.len(), 1);
    assert_eq!(moved[0].path, "/vault/unindexed_folder/test_file.txt");
    assert!(s.data().open_by_alias("/vault/source_dir/test_file.txt").is_none());
}

#[test]
fn move_report_gives_the_path_taken_on_disk() {
    let mut s = service();
    let (final_path, moved) = move_node_request(&mut s, &op("/vault/source_dir/test_file.txt", "/vault/dest_dir"), &on_disk("/vault/dest_dir", &["test_file.txt"])).unwrap();
    assert_eq!(final_path.alias(), "/vault/dest_dir/test_file_2.txt");
    assert_eq!(moved[0].path, "/vault/dest_dir/test_file_2.txt");
}

#[test]
fn move_into_a_sibling_with_a_longer_name_is_allowed() {
    let mut s = service();
    assert!(s.data_mut().insert_node(node(20, "/vault/source_dirx", true)));
    let (final_path, _) = move_node_request(&mut s, &op("/vault/source_dir", "/vault/source_dirx"), &on_disk("/vault/source_dirx", &[])).unwrap();
    assert_eq!(final_path.alias(), "/vault/source_dirx/source_dir");
    assert!(matches!(
        move_node_request(&mut s, &op("/vault/source_dirx", "/vault/source_dirx"), &no_disk()),
        Err(MoveFailure::Rejected(MoveRejection::IntoItself))
    ));
    assert!(matches!(
        move_node_request(&mut s, &op("/vaultx/a", "/vault/dest_dir"), &no_disk()),
        Err(MoveFailure::Rejected(MoveRejection::OutsideVault))
    ));
}

#[test]
fn nodes_cannot_be_created_next_to_the_vault() {
    let mut s = service();
    assert!(matches!(create_node(&mut s, "x", "core/text", "/vaultx", 100), Err(CreateFailure::OutsideVault)));
    assert!(create_node(&mut s, "x", "core/text", "/vault", 101).is_ok());
}
