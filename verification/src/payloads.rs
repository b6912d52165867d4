use vstd::prelude::*;
use crate::graph::{DataNode, Edge};
use crate::moves::MovedNodeInfo;

verus! {

/// Which paths a listing asks for.
pub struct PathFilter {
    /// Only the indexed paths, not those found on disk.
    pub only_indexed: bool,
}

/// A request to rename the node at `path` to `new_name`.
pub struct RenameNodeByPathPayload {
    pub path: String,
    pub new_name: String,
}

/// A request to move several nodes.
pub struct MoveNodesPayload {
    pub moves: Vec<MoveOperation>,
}

/// One move: the node at `source_path` goes under `target_parent_path`.
pub struct MoveOperation {
    pub source_path: String,
    pub target_parent_path: String,
}

/// A move that failed, with the reason.
pub struct MoveError {
    pub source_path: String,
    pub error: String,
}

/// The answer to a request to move several nodes: what moved, and what
/// could not.
pub struct MoveNodesResponse {
    pub moved_nodes: Vec<MovedNodeInfo>,
    pub errors: Vec<MoveError>,
}

/// The nodes a rename moved: the renamed node and its descendants.
pub struct RenameNodeResponse {
    pub renamed_nodes: Vec<MovedNodeInfo>,
}

/// A request to change the ends of the first edge from `old_from` to
/// `old_to`.
pub struct ReconnectEdgePayload {
    pub old_from: u128,
    pub old_to: u128,
    pub new_from: u128,
    pub new_to: u128,
}

/// A request to delete the edges from `source` to `target`.
pub struct DeleteEdgePayload {
    pub source: u128,
    pub target: u128,
}

/// The pairs of ends that a list of edge deletions names, in order.
pub open spec fn payload_pairs(payload: Seq<DeleteEdgePayload>) -> Seq<(u128, u128)> {
    payload.map_values(|p: DeleteEdgePayload| (p.source, p.target))
}

/// The node after an update, and the nodes a rename moved with it.
pub struct UpdateNodeResponse {
    pub updated_node: DataNode,
    pub affected_nodes: Vec<DataNode>,
}

/// A request to delete nodes, each named by identifier or path.
pub struct DeleteNodesPayload {
    pub node_ids: Vec<String>,
    /// The context the deletion was made from.
    pub context_id: Option<String>,
}

/// The answer to a deletion request.
pub struct DeleteNodesResponse {
    pub deleted_nodes: Vec<DeletedNodeInfo>,
    pub failed_deletions: Vec<FailedDeletion>,
    /// Identifies the operation for a later undo.
    pub operation_id: String,
    /// Notes such as how many descendants a deleted directory took along.
    pub warnings: Vec<String>,
}

/// What was deleted for one node, with what an undo would need.
pub struct DeletedNodeInfo {
    pub node_id: String,
    pub node_path: String,
    pub node_type: String,
    /// The node was on disk and went to the trash.
    pub was_physical: bool,
    /// Identifiers of the indexed descendants removed with it.
    pub descendants_deleted: Vec<String>,
    pub node_snapshot: DataNode,
    pub edge_snapshots: Vec<Edge>,
    /// Contexts the node was removed from.
    pub context_removals: Vec<String>,
}

/// A node that could not be deleted, with the reason.
pub struct FailedDeletion {
    pub node_id: String,
    pub error: String,
}

/// An entry of the trash log.
pub struct TrashEntry {
    pub operation_id: String,
    /// Seconds since the Unix epoch.
    pub timestamp: i64,
    pub deleted_nodes: Vec<DeletedNodeInfo>,
}

} // verus!
