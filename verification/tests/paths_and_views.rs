use karta_server::bookmarks::BookmarkStore;
use karta_server::bundle::{bundle_tree, entries_totals, try_bundle_tree, export_bundle, export_filename, preview_entries, ExportBundleRequest, ScannedEntry, SelectedItem};
use karta_server::completion::{completion_candidates, plan_completion, DirEntryInfo};
use karta_server::context_plan::{context_change_target, context_root_split, plan_context_update, ContextFileView, FileNodeView};
use karta_server::context_view::choose_context_edges;
use karta_server::interaction::{ActionHistory, ActionManager, CurrentContext, ContextTypes, DeleteEdgeAction, MoveToContextAction};
use karta_server::modes::{edge_is_deletable, EdgeTypes, GraphPickingTarget, KartaModeState, Pins};
use karta_server::moves::{plan_move, relocate_alias, relocate_subtree, MoveRejection, TargetParentState};
use karta_server::node_path::NodePath;
use karta_server::node_types::{get_type_from_context_path, type_from_file_facts, DataTypes, NodeTypes};
use karta_server::nodetype::NodeType;
use karta_server::order::{insert_sorted, text_less_eq};
use karta_server::path_ser::{buf_to_str, str_to_buf};
use karta_server::requests::{check_in_place_rename, check_rename, is_deletable, may_create_under, route_context_request, RenameRejection, RouteRejection};
use karta_server::search::{default_limit, limit_results, query_is_blank, rank_paths, ScoredPath};
use karta_server::settings::{get_settings_path, ColorTheme};
use karta_server::text::push_decimal;
use karta_server::unique_name::{candidate_for, generate_unique_name, valid_node_name};
use karta_server::vaults::{choose_vault, karta_marker_path, VaultChoice, Vaults};

#[test]
fn node_paths_join_split_and_name() {
    let p = NodePath::from_alias("vault/docs/");
    assert_eq!(p.alias(), "/vault/docs");
    assert_eq!(p.join("a.txt").alias(), "/vault/docs/a.txt");
    assert_eq!(p.parent().unwrap().alias(), "/vault");
    assert_eq!(NodePath::root().join("vault").alias(), "/vault");
    assert!(NodePath::root().parent().is_none());
    assert_eq!(NodePath::from_alias("/vault").parent().unwrap().alias(), "/");
    assert_eq!(p.name(), "docs");
    assert_eq!(NodePath::from_relative("").alias(), "/");
    assert_eq!(NodePath::from_relative("vault").alias(), "/vault");
    assert_eq!(NodePath::from_relative("notes/a.md").alias(), "/vault/notes/a.md");
    assert_eq!(p.strip_vault_prefix(), Some("docs".to_string()));
    assert_eq!(NodePath::vault().strip_vault_prefix(), Some("".to_string()));
    assert_eq!(NodePath::root().strip_vault_prefix(), None);
    assert!(NodePath::vault().is_vault());
    assert!(NodePath::root().is_root());
}

#[test]
fn unique_names_number_before_the_extension() {
    assert_eq!(candidate_for("notes.txt", 0), "notes.txt");
    assert_eq!(candidate_for("notes.txt", 1), "notes_2.txt");
    assert_eq!(candidate_for("folder", 2), "folder_3");
    let taken = vec!["notes.txt".to_string(), "notes_2.txt".to_string()];
    assert_eq!(generate_unique_name("notes.txt", &taken), "notes_3.txt");
    assert_eq!(generate_unique_name("other.txt", &taken), "other.txt");
    assert_eq!(generate_unique_name("archive.tar.gz", &vec!["archive.tar.gz".to_string()]), "archive.tar_2.gz");
}

#[test]
fn moves_are_planned_and_relocated() {
    let taken = vec!["a.txt".to_string()];
    let plan = plan_move(&NodePath::from_alias("/vault/x/a.txt"), &NodePath::from_alias("/vault/y"), TargetParentState::IndexedDirectory, &taken).unwrap();
    assert_eq!(plan.final_name, "a_2.txt");
    assert_eq!(plan.target_path.alias(), "/vault/y/a_2.txt");
    assert!(plan.renamed);
    let refused = |s: &str, t: &str, st: TargetParentState| plan_move(&NodePath::from_alias(s), &NodePath::from_alias(t), st, &Vec::new()).err();
    assert_eq!(refused("/x", "/vault/y", TargetParentState::IndexedDirectory), Some(MoveRejection::OutsideVault));
    assert_eq!(refused("/vault/x", "/vault/y", TargetParentState::DiskOther), Some(MoveRejection::TargetNotDirectory));
    assert_eq!(refused("/vault/x", "/vault/y", TargetParentState::Missing), Some(MoveRejection::TargetNotFound));
    assert_eq!(refused("/vault/x", "/vault/x/z", TargetParentState::DiskDirectory), Some(MoveRejection::IntoItself));
    assert_eq!(MoveRejection::IntoItself.message(), "Cannot move node to itself or its child");
    assert_eq!(relocate_alias("/vault/a/b/c", "/vault/a", "/vault/z"), "/vault/z/b/c");
    let moved = relocate_subtree(&NodePath::from_alias("/vault/a"), &NodePath::from_alias("/vault/z"), 1, &vec![(2, "/vault/a/b".to_string())]);
    assert_eq!(moved[0].path, "/vault/z");
    assert_eq!((moved[1].uuid, moved[1].path.as_str()), (2, "/vault/z/b"));
}

#[test]
fn requests_are_checked() {
    assert!(is_deletable(&NodePath::from_alias("/vault")));
    assert!(is_deletable(&NodePath::from_alias("/vault/a")));
    assert!(!is_deletable(&NodePath::from_alias("/vaulted")));
    assert!(!is_deletable(&NodePath::root()));
    assert!(may_create_under(&NodePath::from_alias("/vault/a")));
    assert!(!may_create_under(&NodePath::from_alias("/other")));
    assert_eq!(check_rename(&NodePath::from_alias("/vault/a/b"), "c").unwrap().alias(), "/vault/a");
    assert_eq!(check_rename(&NodePath::from_alias("/vault"), "c").err(), Some(RenameRejection::Forbidden));
    assert_eq!(check_rename(&NodePath::from_alias("/vault/a"), " ").err(), Some(RenameRejection::BadRequest));
    assert_eq!(check_rename(&NodePath::from_alias("/x/a"), "c").err(), Some(RenameRejection::BadRequest));
    assert_eq!(check_rename(&NodePath::from_alias("/vaultx/a"), "c").err(), Some(RenameRejection::BadRequest));
    assert!(!may_create_under(&NodePath::from_alias("/vaultx")));
    assert!(may_create_under(&NodePath::from_alias("/vault")));
    assert!(check_in_place_rename(&NodePath::vault(), "x").is_none());
    assert_eq!(check_in_place_rename(&NodePath::from_alias("/vault/a"), "x").unwrap().alias(), "/vault");
}

#[test]
fn context_requests_are_routed() {
    let root = route_context_request("root").unwrap();
    assert_eq!(root.node.alias(), "/");
    assert_eq!(root.vault_relative, None);
    let vault = route_context_request("/vault").unwrap();
    assert_eq!(vault.node.alias(), "/vault");
    assert_eq!(vault.vault_relative, Some("".to_string()));
    let child = route_context_request("vault/notes").unwrap();
    assert_eq!(child.node.alias(), "/vault/notes");
    assert_eq!(child.vault_relative, Some("notes".to_string()));
    assert!(matches!(route_context_request("vault/../etc"), Err(RouteRejection::Traversal)));
}

#[test]
fn completions_are_planned_and_sorted() {
    let plan = plan_completion("vault/no");
    assert_eq!(plan.scan_dir, "/vault/");
    assert_eq!(plan.prefix, "no");
    assert_eq!(plan.offset, 6);
    let empty = plan_completion("");
    assert_eq!((empty.scan_dir.as_str(), empty.prefix.as_str(), empty.offset), ("/", "", 0));
    let dir = plan_completion("/home/");
    assert_eq!((dir.scan_dir.as_str(), dir.prefix.as_str(), dir.offset), ("/home/", "", 6));
    let entries = vec![
        DirEntryInfo { name: Some("notes".to_string()), leads_to_directory: true },
        DirEntryInfo { name: Some("novels".to_string()), leads_to_directory: true },
        DirEntryInfo { name: Some("note.txt".to_string()), leads_to_directory: false },
        DirEntryInfo { name: Some(".nothing".to_string()), leads_to_directory: true },
        DirEntryInfo { name: None, leads_to_directory: true },
    ];
    assert_eq!(completion_candidates(&entries, "no"), vec!["notes/", "novels/"]);
    assert_eq!(completion_candidates(&entries, ".no"), vec![".nothing/"]);
}

#[test]
fn text_order_and_insertion() {
    assert!(text_less_eq("abc", "abd"));
    assert!(text_less_eq("ab", "abc"));
    assert!(!text_less_eq("b", "a"));
    let mut v = vec!["a".to_string(), "c".to_string()];
    insert_sorted(&mut v, "b".to_string());
    assert_eq!(v, vec!["a", "b", "c"]);
    let mut s = "n=".to_string();
    push_decimal(&mut s, 1205);
    assert_eq!(s, "n=1205");
}

#[test]
fn search_helpers() {
    assert_eq!(default_limit(), 100);
    assert!(query_is_blank("  \t"));
    assert!(!query_is_blank(" a "));
    let paths = vec!["/vault/alpha.md".to_string(), "/vault/beta.md".to_string(), "/vault/alphabet.md".to_string()];
    let ranked = rank_paths(&paths, "alpha", 100);
    assert_eq!(ranked.total_found, 2);
    assert!(ranked.results.iter().all(|r| r.path.contains("alpha")));
    assert!(ranked.results[0].score >= ranked.results[1].score);
    let everything = rank_paths(&paths, "", 2);
    assert_eq!(everything.total_found, 3);
    assert_eq!(everything.results.len(), 2);
    assert!(everything.truncated);
    assert_eq!(everything.results[0].path, "/vault/alpha.md");
    let cut = limit_results(vec![ScoredPath { path: "x".to_string(), score: 3, indices: vec![0] }], 0);
    assert_eq!((cut.results.len(), cut.total_found, cut.truncated), (0, 1, true));
}

#[test]
fn bundles_are_previewed_and_named() {
    let file = ScannedEntry { file_name: Some("a.txt".to_string()), path: "/v/d/a.txt".to_string(), extension: Some("txt".to_string()), is_dir: false, size: 10, children: Vec::new() };
    let sub = ScannedEntry { file_name: Some("s".to_string()), path: "/v/d/s".to_string(), extension: None, is_dir: true, size: 0, children: vec![ScannedEntry { file_name: Some("b".to_string()), path: "/v/d/s/b".to_string(), extension: None, is_dir: false, size: 5, children: Vec::new() }] };
    let (nodes, files, dirs, bytes) = preview_entries(&vec![file, sub]);
    assert_eq!((files, dirs, bytes), (2, 1, 15));
    assert_eq!(nodes[0].node_type, "core/fs/file/txt");
    assert_eq!(nodes[1].node_type, "core/fs/dir");
    assert_eq!(nodes[1].file_count, Some(1));
    let items = vec![
        SelectedItem::Absent { name: "gone".to_string(), path: "/v/gone".to_string(), node_type: "core/text".to_string() },
        SelectedItem::File { name: "f".to_string(), path: "/v/f".to_string(), node_type: "core/fs/file".to_string(), size: 7 },
    ];
    let tree = bundle_tree(&items);
    assert_eq!(tree.tree.name, "Export Bundle");
    assert_eq!((tree.total_files, tree.total_directories, tree.total_size), (2, 0, 7));
    assert_eq!(export_filename(Some("My notes: 2024!")), "Mynotes2024.zip");
    assert_eq!(export_filename(None), "karta-export.zip");
    let request = ExportBundleRequest { node_ids: vec![], title: Some("Trip 2024".to_string()), description: None, include_assets: false };
    let response = export_bundle(&request, "abc", "2030-01-01T00:00:00+00:00");
    assert_eq!(response.download_url, "/api/exports/download/abc");
    assert_eq!(response.filename, "Trip2024.zip");
    assert_eq!(response.size, 1048576);
    assert_eq!(response.expires_at, "2030-01-01T00:00:00+00:00");
}

#[test]
fn context_edges_and_missing_nodes() {
    let nodes = vec![1, 2, 3];
    let direct = vec![(1, 2), (2, 2), (1, 9), (1, 2), (2, 3)];
    let extra = vec![(2, 3), (3, 1)];
    let (kept_direct, kept_extra) = choose_context_edges(&nodes, &direct, &extra);
    assert_eq!(kept_direct, vec![0, 4]);
    assert_eq!(kept_extra, vec![1]);
}

#[test]
fn vault_prompt_and_list() {
    assert_eq!(choose_vault("  ", 2), VaultChoice::Exit);
    assert_eq!(choose_vault("1", 2), VaultChoice::Listed(1));
    assert_eq!(choose_vault("5", 2), VaultChoice::UnknownNumber(5));
    assert_eq!(choose_vault(" home/me ", 2), VaultChoice::Typed("/home/me".to_string()));
    let mut v = Vaults::new();
    assert!(v.add_vault("/a"));
    assert!(!v.add_vault("/a"));
    assert!(v.add_vault("/b"));
    assert_eq!(v.default_vault(), "/b");
    assert_eq!(v.list(), &vec!["/a".to_string(), "/b".to_string()]);
}

#[test]
fn settings_and_stored_paths() {
    let theme = ColorTheme::default();
    assert_eq!(theme.viewport_bg, "#0d0d11ff");
    assert_eq!(theme.text_color, "#f0f0f0");
    assert_eq!(get_settings_path("/home/me/vault"), "/home/me/vault/.karta/settings.json");
    assert_eq!(get_settings_path("/home/me/vault/"), "/home/me/vault/.karta/settings.json");
    assert_eq!(str_to_buf("/a/b"), "/a/b");
    assert_eq!(buf_to_str(&"/a/b".to_string()), "/a/b");
}

#[test]
fn node_kinds_and_types() {
    assert_eq!(NodeType::root_type().name(), "Root");
    assert_eq!(NodeType::archetype_type().name(), "Archetype");
    assert_eq!(NodeType::other().name(), "Other");
    assert_eq!(NodeType::new("core/text".to_string()).name(), "core/text");
    assert_eq!(type_from_file_facts(true, Some("png")), NodeTypes::Folder);
    assert_eq!(type_from_file_facts(false, Some("png")), NodeTypes::FileImage);
    assert_eq!(type_from_file_facts(false, Some("svg")), NodeTypes::FileSvg);
    assert_eq!(type_from_file_facts(false, None), NodeTypes::FileBase);
    assert_eq!(NodeTypes::FileImage.data_type(), DataTypes::TypeImage);
    assert!(!NodeTypes::Text.has_data());
    assert_eq!(NodeTypes::FileText.label(), "Text File");
    assert_eq!(DataTypes::NoData.label(), "No data");
    assert_eq!(get_type_from_context_path("/vault/x"), Some(NodeTypes::Base));
}

#[test]
fn modes_and_picking() {
    assert_eq!(KartaModeState::default(), KartaModeState::Move);
    assert!(GraphPickingTarget::NodeOutline.is_outline());
    assert!(!GraphPickingTarget::Nothing.is_node());
    assert!(GraphPickingTarget::Edge.is_edge());
    assert!(Pins::new_pinpos().position);
    assert!(!edge_is_deletable(EdgeTypes::Parent));
    assert!(edge_is_deletable(EdgeTypes::Base));
}

#[test]
fn undo_then_redo_restores_the_stacks() {
    let mut m: ActionManager<u32> = ActionManager::new();
    m.queue_action(1);
    m.queue_action(2);
    let queued = m.take_queue();
    assert_eq!(queued, vec![1, 2]);
    m.record_performed(1);
    m.record_performed(2);
    assert!(m.undo());
    assert!(m.redo());
    assert!(!m.redo());
    assert!(m.undo());
    assert!(m.undo());
    assert!(!m.undo());
    let mut h = ActionHistory::new();
    h.add_action("moved".to_string());
}

#[test]
fn context_trail_back_and_forward() {
    let mut c = CurrentContext::new();
    assert!(c.current_path().is_none());
    c.enter("/vault".to_string(), ContextTypes::Physical);
    c.enter("/vault/a".to_string(), ContextTypes::Physical);
    assert_eq!(c.undo_context(), Some("/vault".to_string()));
    assert_eq!(c.undo_context(), None);
    let forth = c.redo_context().unwrap();
    assert_eq!(forth, "/vault/a");
    c.enter(forth, ContextTypes::Physical);
    assert_eq!(c.current_path(), Some("/vault/a".to_string()));
    assert_eq!(c.redo_context(), None);
    let mut action = MoveToContextAction::new("/vault/b".to_string());
    assert_eq!(action.execute(&c), "/vault/b");
    assert_eq!(action.undo(), Some("/vault/a".to_string()));
    assert_eq!(action.redo(), "/vault/b");
    let mut del = DeleteEdgeAction::new();
    assert!(!del.execute(EdgeTypes::Parent, "a", "b"));
    assert!(del.execute(EdgeTypes::Base, "a", "b"));
}

#[test]
fn bookmarks_read_back_what_was_saved() {
    let mut store = BookmarkStore::new();
    assert_eq!(store.get("/v"), None);
    store.save("/v", "b64-one");
    store.save("/w", "b64-two");
    store.save("/v", "b64-three");
    assert_eq!(store.get("/v"), Some("b64-three".to_string()));
    assert_eq!(store.get("/w"), Some("b64-two".to_string()));
    assert_eq!(store.stop_all_access(), Ok(()));
}

#[test]
fn vault_list_keeps_the_vaults_whose_marker_exists() {
    assert_eq!(karta_marker_path("/home/me/notes"), "/home/me/notes/.karta");
    assert_eq!(karta_marker_path("/home/me/notes/"), "/home/me/notes/.karta");
    let mut v = Vaults::from_parts("/b".to_string(), vec!["/a".to_string(), "/b".to_string(), "/c".to_string()]);
    assert_eq!(v.get(&vec![true, false, true]).clone(), vec!["/a".to_string(), "/c".to_string()]);
    assert_eq!(v.default_vault(), "/b");
    assert_eq!(v.list().clone(), vec!["/a".to_string(), "/c".to_string()]);
}

#[test]
fn bundle_totals_are_checked() {
    let big = SelectedItem::File { name: "a".to_string(), path: "/a".to_string(), node_type: "core/fs/file".to_string(), size: u64::MAX };
    let small = SelectedItem::File { name: "b".to_string(), path: "/b".to_string(), node_type: "core/fs/file".to_string(), size: 1 };
    assert!(try_bundle_tree(&vec![big]).is_some());
    let big = SelectedItem::File { name: "a".to_string(), path: "/a".to_string(), node_type: "core/fs/file".to_string(), size: u64::MAX };
    assert!(try_bundle_tree(&vec![big, small]).is_none());
    let dir = ScannedEntry { file_name: Some("d".to_string()), path: "/d".to_string(), extension: None, is_dir: true, size: 0, children: vec![
        ScannedEntry { file_name: Some("x.txt".to_string()), path: "/d/x.txt".to_string(), extension: Some("txt".to_string()), is_dir: false, size: 7, children: vec![] },
    ] };
    assert_eq!(entries_totals(&vec![dir]), Some((1, 1, 7)));
}

#[test]
fn prompt_numbers_and_blanks_follow_std_parsing() {
    assert_eq!(choose_vault("+1", 2), VaultChoice::Listed(1));
    assert_eq!(choose_vault("-1", 2), VaultChoice::Typed("/-1".to_string()));
    assert_eq!(choose_vault("99999999999999999999999", 2), VaultChoice::Typed("/99999999999999999999999".to_string()));
    assert_eq!(choose_vault("\u{3000}\u{a0}", 2), VaultChoice::Exit);
    assert!(query_is_blank("\u{2028}\u{85}"));
    assert!(!query_is_blank("\u{200b}"));
}

#[test]
fn context_update_plan_keeps_spawns_and_links() {
    let s = |x: &str| x.to_string();
    let shown = vec![s("/v/a"), s("/v/b"), s("/v/old")];
    let file = ContextFileView {
        nself: s("/v/a"),
        nodes: vec![
            FileNodeView { path: s("/v/b"), own_edges: None },
            FileNodeView { path: s("/v/c"), own_edges: Some(vec![(s("/v/c"), s("/v/d"))]) },
            FileNodeView { path: s("/v/e"), own_edges: None },
        ],
        edges: vec![(s("/v/a"), s("/v/b")), (s("/v/a"), s("/v/c"))],
    };
    let adjacent = vec![s("/v"), s("/v/c"), s("/v/f")];
    let plan = plan_context_update(&shown, "/v/a", Some(&file), &adjacent);
    assert_eq!(plan.keep, vec![s("/v/a"), s("/v/b")]);
    assert_eq!(plan.spawn, vec![s("/v/c"), s("/v"), s("/v/f")]);
    assert_eq!(
        plan.edges,
        vec![(s("/v/a"), s("/v/b")), (s("/v/a"), s("/v/c")), (s("/v/c"), s("/v/d")), (s("/v"), s("/v/a")), (s("/v/f"), s("/v/a"))]
    );
    let fresh = plan_context_update(&vec![], "/v/x", None, &vec![s("/v"), s("/v")]);
    assert_eq!(fresh.keep, Vec::<String>::new());
    assert_eq!(fresh.spawn, vec![s("/v/x"), s("/v")]);
    assert_eq!(fresh.edges, vec![(s("/v"), s("/v/x"))]);
}

#[test]
fn context_change_target_skips_the_current_context() {
    assert_eq!(context_change_target(Some("/v/a"), "/v/a", "/v"), None);
    assert_eq!(context_change_target(None, "/v", "/v"), Some("/v".to_string()));
    assert_eq!(context_change_target(Some("/v/b"), "/v/a", "/v"), Some("/v/b".to_string()));
    assert_eq!(context_change_target(None, "/v/a", "/v"), None);
}

#[test]
fn context_root_name_and_parent() {
    assert_eq!(context_root_split("/home/me/notes"), ("notes".to_string(), "/home/me".to_string()));
    // Every occurrence of the name goes, as the view's string replacement does.
    assert_eq!(context_root_split("/a/b/a"), ("a".to_string(), "//b".to_string()));
    assert_eq!(context_root_split("/home/me/"), ("".to_string(), "/home/me".to_string()));
}

#[test]
fn new_view_nodes_get_a_counted_name() {
    let taken = vec!["note".to_string(), "note1".to_string(), "x.txt".to_string()];
    assert_eq!(valid_node_name("note", &taken), "note2");
    assert_eq!(valid_node_name("other", &taken), "other");
    assert_eq!(valid_node_name("y.txt", &taken), "y.txt");
}
