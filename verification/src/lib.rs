//! Core logic of the Karta graph server: the index of the graph and the
//! service that keeps it in step with a vault on disk (moves, renames,
//! deletions, edges, search), the handling of write requests, node types,
//! vault bookkeeping, path completion for the vault prompt, export
//! previews, and the state of the graph view (contexts, undo and redo).

pub mod nodetype;
pub mod text;
pub mod unique_name;
pub mod node_path;
pub mod moves;
pub mod requests;
pub mod order;
pub mod completion;
pub mod search;
pub mod bundle;
pub mod context_view;
pub mod vaults;
pub mod path_ser;
pub mod settings;
pub mod node_types;
pub mod modes;
pub mod interaction;
pub mod graph;
pub mod payloads;
pub mod service;
pub mod bookmarks;
pub mod write_ops;
pub mod contexts;
pub mod context_plan;
