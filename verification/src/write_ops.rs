use vstd::prelude::*;
use crate::graph::{DataNode, Edge, NodeView, below, has_path, has_uuid, node_at_path, node_at_uuid, with_node, with_node_edges};
use crate::moves::{MoveRejection, MovedNodeInfo, TargetParentState, plan_move, relocate_subtree, relocated_alias};
use crate::node_path::{NodePath, alias_name, join_alias, normalize_alias, within_vault};
use crate::payloads::{MoveOperation, RenameNodeByPathPayload, UpdateNodeResponse};
use crate::requests::{RenameRejection, check_in_place_rename, check_rename, in_place_rename_check, rename_check};
use crate::service::{KartaService, MoveFacts, NodeHandle, ServiceError, first_free_child_attempt, lemma_indexed_node,
    node_option, opened_node, renaming_move};
use crate::text::{trim_text, trimmed};
use crate::unique_name::{candidate_name, name_views};

verus! {

/// The view of a moved-node record: identifier and path.
pub open spec fn moved_view(m: MovedNodeInfo) -> (u128, Seq<char>) {
    (m.uuid, m.path@)
}

/// The views of a list of moved-node records.
pub open spec fn moved_views(s: Seq<MovedNodeInfo>) -> Seq<(u128, Seq<char>)> {
    s.map_values(|m: MovedNodeInfo| moved_view(m))
}

/// The state of the proposed parent of a move: indexed (a directory or
/// not), else on disk (a directory or not), else missing.
pub open spec fn target_state(nodes: Seq<NodeView>, parent: Seq<char>, entry: Option<DataNode>, is_dir: bool) -> TargetParentState {
    if has_path(nodes, parent) {
        if node_at_path(nodes, parent).is_dir {
            TargetParentState::IndexedDirectory
        } else {
            TargetParentState::IndexedOther
        }
    } else if entry is Some {
        if is_dir {
            TargetParentState::DiskDirectory
        } else {
            TargetParentState::DiskOther
        }
    } else {
        TargetParentState::Missing
    }
}

/// The indexed nodes below `path` that a listing of descendants gives: all
/// of them, in index order, when `path` itself is indexed; none otherwise.
pub open spec fn listed_descendants(nodes: Seq<NodeView>, path: Seq<char>) -> Seq<NodeView> {
    if has_path(nodes, path) {
        nodes.filter(|n: NodeView| below(n.path, path))
    } else {
        Seq::empty()
    }
}

/// What a move from `source` to `target` will touch, computed before the
/// move: nothing when `source` is not indexed; otherwise the node itself at
/// `target`, then, for a directory, each indexed node below it at its
/// relocated path.
pub open spec fn relocations_before(nodes: Seq<NodeView>, source: Seq<char>, target: Seq<char>) -> Seq<(u128, Seq<char>)> {
    if !has_path(nodes, source) {
        Seq::empty()
    } else {
        let n = node_at_path(nodes, source);
        let below_nodes = if n.is_dir { nodes.filter(|m: NodeView| below(m.path, source)) } else { Seq::empty() };
        seq![(n.uuid, target)] + below_nodes.map_values(|m: NodeView| (m.uuid, relocated_alias(m.path, source, target)))
    }
}

/// The state of the proposed parent of a move.
pub fn target_parent_state(service: &KartaService, parent: &NodePath, facts: &MoveFacts) -> (res: TargetParentState)
    requires
        service.wf(),
    ensures
        res == target_state(service.graph().nodes_view(), parent@, facts.target_parent_entry, facts.target_parent_is_dir),
{
    match service.data().open_by_path(parent) {
        Some(n) => {
            if n.is_dir {
                TargetParentState::IndexedDirectory
            } else {
                TargetParentState::IndexedOther
            }
        },
        None => match &facts.target_parent_entry {
            Some(_) => if facts.target_parent_is_dir {
                TargetParentState::DiskDirectory
            } else {
                TargetParentState::DiskOther
            },
            None => TargetParentState::Missing,
        },
    }
}

/// The indexed descendants of the node at `path`, in index order; none when
/// `path` is not indexed.
pub fn collect_all_descendants(service: &KartaService, path: &NodePath) -> (res: Vec<DataNode>)
    ensures
        res@.map_values(|n: DataNode| n@) == listed_descendants(service.graph().nodes_view(), path@),
{
    if service.data().is_indexed(path) {
        service.data().descendants(path)
    } else {
        let res: Vec<DataNode> = Vec::new();
        assert(res@.map_values(|n: DataNode| n@) =~= Seq::<NodeView>::empty());
        res
    }
}

/// The texts of a list of (identifier, path) pairs.
pub open spec fn pair_texts(s: Seq<(u128, String)>) -> Seq<(u128, Seq<char>)> {
    s.map_values(|p: (u128, String)| (p.0, p.1@))
}

/// The indexed nodes below the node at `source`, with their paths, when
/// that node is a directory; none otherwise.
pub open spec fn subtree_members(nodes: Seq<NodeView>, source: Seq<char>) -> Seq<(u128, Seq<char>)> {
    let below_nodes = if node_at_path(nodes, source).is_dir {
        nodes.filter(|m: NodeView| below(m.path, source))
    } else {
        Seq::empty()
    };
    below_nodes.map_values(|m: NodeView| (m.uuid, m.path))
}

/// The node at `source` and the members of its subtree, read before a move:
/// `None` when `source` is not indexed.
fn subtree_before(service: &KartaService, source: &NodePath) -> (res: Option<(u128, Vec<(u128, String)>)>)
    requires
        service.wf(),
    ensures
        match res {
            None => !has_path(service.graph().nodes_view(), source@),
            Some((u, pairs)) => has_path(service.graph().nodes_view(), source@)
                && u == node_at_path(service.graph().nodes_view(), source@).uuid
                && pair_texts(pairs@) == subtree_members(service.graph().nodes_view(), source@),
        },
{
    let ghost nodes = service.graph().nodes_view();
    match service.data().open_by_path(source) {
        None => None,
        Some(n) => {
            let below_nodes: Vec<DataNode> = if n.is_dir {
                service.data().descendants(source)
            } else {
                Vec::new()
            };
            let ghost bv = below_nodes@.map_values(|d: DataNode| d@);
            assert(bv =~= (if n@.is_dir { nodes.filter(|m: NodeView| below(m.path, source@)) } else { Seq::<NodeView>::empty() }));
            let mut pairs: Vec<(u128, String)> = Vec::new();
            let mut i: usize = 0;
            while i < below_nodes.len()
                invariant
                    i <= below_nodes@.len(),
                    bv == below_nodes@.map_values(|d: DataNode| d@),
                    pair_texts(pairs@) == bv.subrange(0, i as int).map_values(|m: NodeView| (m.uuid, m.path)),
                decreases below_nodes@.len() - i,
            {
                let ghost before = pair_texts(pairs@);
                pairs.push((below_nodes[i].uuid, below_nodes[i].path.alias()));
                assert(pair_texts(pairs@) =~= before.push((bv[i as int].uuid, bv[i as int].path)));
                assert(bv.subrange(0, i + 1).map_values(|m: NodeView| (m.uuid, m.path))
                    =~= bv.subrange(0, i as int).map_values(|m: NodeView| (m.uuid, m.path)).push((bv[i as int].uuid, bv[i as int].path)));
                i = i + 1;
            }
            assert(bv.subrange(0, bv.len() as int) =~= bv);
            Some((n.uuid, pairs))
        },
    }
}

/// The report of a move of the subtree read by `subtree_before` to
/// `target`; see `relocations_before`.
fn report_move(source: &NodePath, target: &NodePath, before: &Option<(u128, Vec<(u128, String)>)>, Ghost(nodes): Ghost<Seq<NodeView>>) -> (res: Vec<MovedNodeInfo>)
    requires
        match *before {
            None => !has_path(nodes, source@),
            Some((u, pairs)) => has_path(nodes, source@) && u == node_at_path(nodes, source@).uuid
                && pair_texts(pairs@) == subtree_members(nodes, source@),
        },
    ensures
        moved_views(res@) == relocations_before(nodes, source@, target@),
{
    match before {
        None => {
            let res: Vec<MovedNodeInfo> = Vec::new();
            assert(moved_views(res@) =~= Seq::<(u128, Seq<char>)>::empty());
            res
        },
        Some((u, pairs)) => {
            let res = relocate_subtree(source, target, *u, pairs);
            proof {
                let members = subtree_members(nodes, source@);
                let n = node_at_path(nodes, source@);
                let bn = if n.is_dir { nodes.filter(|m: NodeView| below(m.path, source@)) } else { Seq::<NodeView>::empty() };
                let expected = seq![(n.uuid, target@)] + bn.map_values(|m: NodeView| (m.uuid, relocated_alias(m.path, source@, target@)));
                assert(relocations_before(nodes, source@, target@) == expected);
                assert(members == bn.map_values(|m: NodeView| (m.uuid, m.path)));
                assert(pair_texts(pairs@).len() == pairs@.len());
                assert(res@.len() == expected.len());
                assert forall|k: int| 0 <= k < res@.len() implies #[trigger] moved_views(res@)[k] == expected[k] by {
                    if k > 0 {
                        let j = k - 1;
                        assert(res@[j + 1] == res@[k]);
                        assert(pair_texts(pairs@)[j] == members[j]);
                        assert(pair_texts(pairs@)[j] == (pairs@[j].0, pairs@[j].1@));
                        assert(members[j] == (bn[j].uuid, bn[j].path));
                        assert(expected[k] == (bn[j].uuid, relocated_alias(bn[j].path, source@, target@)));
                    }
                }
                assert(moved_views(res@) =~= expected);
            }
            res
        },
    }
}

/// What moving the node at `source` to `target` will touch; see
/// `relocations_before`.
pub fn collect_nodes_before_move(service: &KartaService, source: &NodePath, target: &NodePath) -> (res: Vec<MovedNodeInfo>)
    requires
        service.wf(),
    ensures
        moved_views(res@) == relocations_before(service.graph().nodes_view(), source@, target@),
{
    let before = subtree_before(service, source);
    report_move(source, target, &before, Ghost(service.graph().nodes_view()))
}

/// The identifier `uuid::Uuid::new_v5` gives a name in the URL namespace.
pub uninterp spec fn uuid_v5_url(name: Seq<char>) -> u128;

/// Trusted: calls `uuid::Uuid::new_v5` with `Uuid::NAMESPACE_URL` and the
/// bytes of the name, and reads the UUID as its number. Version 5 UUIDs are
/// derived from the namespace and the name alone; the result is named
/// `uuid_v5_url`.
#[verifier::external_body]
fn name_based_uuid(name: &str) -> (res: u128)
    ensures
        res == uuid_v5_url(name@),
{
    uuid::Uuid::new_v5(&uuid::Uuid::NAMESPACE_URL, name.as_bytes()).as_u128()
}

/// What a move of `source` that ended at `final_path` touched, read after
/// the move: when `final_path` is indexed, the node there and, for a
/// directory, each indexed node below it with its path; else the node that
/// was at `source`, if indexed, now at `final_path`; else a node with the
/// name-based identifier of `final_path`.
pub open spec fn relocations_after(nodes: Seq<NodeView>, source: Seq<char>, final_path: Seq<char>) -> Seq<(u128, Seq<char>)> {
    if has_path(nodes, final_path) {
        let n = node_at_path(nodes, final_path);
        let below_nodes = if n.is_dir { nodes.filter(|m: NodeView| below(m.path, final_path)) } else { Seq::empty() };
        seq![(n.uuid, final_path)] + below_nodes.map_values(|m: NodeView| (m.uuid, m.path))
    } else if has_path(nodes, source) {
        seq![(node_at_path(nodes, source).uuid, final_path)]
    } else {
        seq![(uuid_v5_url(final_path), final_path)]
    }
}

/// What a move of `source` that ended at `final_path` touched; see
/// `relocations_after`.
pub fn collect_nodes_after_move(service: &KartaService, source: &NodePath, final_path: &NodePath) -> (res: Vec<MovedNodeInfo>)
    requires
        service.wf(),
    ensures
        moved_views(res@) == relocations_after(service.graph().nodes_view(), source@, final_path@),
{
    let ghost nodes = service.graph().nodes_view();
    let mut out: Vec<MovedNodeInfo> = Vec::new();
    match service.data().open_by_path(final_path) {
        Some(n) => {
            out.push(MovedNodeInfo { uuid: n.uuid, path: final_path.alias() });
            let below_nodes: Vec<DataNode> = if n.is_dir {
                service.data().descendants(final_path)
            } else {
                Vec::new()
            };
            let ghost bv = below_nodes@.map_values(|d: DataNode| d@);
            assert(bv =~= (if n@.is_dir { nodes.filter(|m: NodeView| below(m.path, final_path@)) } else { Seq::<NodeView>::empty() }));
            let mut i: usize = 0;
            while i < below_nodes.len()
                invariant
                    i <= below_nodes@.len(),
                    bv == below_nodes@.map_values(|d: DataNode| d@),
                    moved_views(out@) == seq![(n@.uuid, final_path@)] + bv.subrange(0, i as int).map_values(|m: NodeView| (m.uuid, m.path)),
                decreases below_nodes@.len() - i,
            {
                let ghost before = moved_views(out@);
                out.push(MovedNodeInfo { uuid: below_nodes[i].uuid, path: below_nodes[i].path.alias() });
                assert(moved_views(out@) =~= before.push((bv[i as int].uuid, bv[i as int].path)));
                assert(bv.subrange(0, i + 1).map_values(|m: NodeView| (m.uuid, m.path))
                    =~= bv.subrange(0, i as int).map_values(|m: NodeView| (m.uuid, m.path)).push((bv[i as int].uuid, bv[i as int].path)));
                i = i + 1;
            }
            assert(bv.subrange(0, bv.len() as int) =~= bv);
        },
        None => match service.data().open_by_path(source) {
            Some(o) => {
                out.push(MovedNodeInfo { uuid: o.uuid, path: final_path.alias() });
                assert(moved_views(out@) =~= seq![(o@.uuid, final_path@)]);
            },
            None => {
                out.push(MovedNodeInfo { uuid: name_based_uuid(final_path.alias_str()), path: final_path.alias() });
                assert(moved_views(out@) =~= seq![(uuid_v5_url(final_path@), final_path@)]);
            },
        },
    }
    out
}

/// Why a move request failed: it was refused before anything changed, or
/// the service refused the move.
#[derive(Clone, Copy, PartialEq, Eq, Structural, Debug)]
pub enum MoveFailure {
    Rejected(MoveRejection),
    Failed(ServiceError),
}

/// The outcome of a move request that passed validation: attempt `k1` gave
/// the name the request asks for (free among the indexed children of the
/// target parent), the service's renaming move went as `renaming_move` says
/// with attempt `k2` and answer `r`, and the request answers with the new
/// path and the nodes the move touched, at the places that path gives them
/// (read from the index before the move), or with the service's refusal.
pub open spec fn move_request_outcome(nodes0: Seq<NodeView>, edges0: Seq<Edge>, nodes: Seq<NodeView>, edges: Seq<Edge>, source: Seq<char>, target_parent: Seq<char>, facts: MoveFacts, k1: nat, k2: nat, r: Result<NodePath, ServiceError>, res: Result<(NodePath, Vec<MovedNodeInfo>), MoveFailure>) -> bool {
    let name1 = candidate_name(alias_name(source), k1);
    &&& first_free_child_attempt(nodes0, target_parent, Seq::empty(), alias_name(source), k1)
    &&& renaming_move(nodes0, edges0, nodes, edges, source, target_parent, Some(name1), facts, r, k2)
    &&& match r {
        Ok(p) => res is Ok && res.unwrap().0@ == p@
            && moved_views(res.unwrap().1@) == relocations_before(nodes0, source, p@),
        Err(e) => res == Err::<(NodePath, Vec<MovedNodeInfo>), MoveFailure>(MoveFailure::Failed(e)),
    }
}

/// One operation of a request to move nodes: the request is checked (both
/// paths in the vault, the target parent a directory that is indexed or on
/// disk, not moving a node into itself), the node keeps its name or takes
/// the first numbered variant free among the indexed children of the
/// target parent, and the service moves it (see `move_node_with_rename`).
/// Gives the node's new path and what the move touches; moving the entry
/// on disk is left to the caller.
pub fn move_node_request(service: &mut KartaService, op: &MoveOperation, facts: &MoveFacts) -> (res: Result<(NodePath, Vec<MovedNodeInfo>), MoveFailure>)
    requires
        old(service).wf(),
    ensures
        final(service).wf(),
        final(service).vault_view() == old(service).vault_view(),
        final(service).storage_view() == old(service).storage_view(),
        match crate::moves::move_refusal(normalize_alias(op.source_path@), normalize_alias(op.target_parent_path@),
            target_state(old(service).graph().nodes_view(), normalize_alias(op.target_parent_path@), facts.target_parent_entry, facts.target_parent_is_dir)) {
            Some(r) => res == Err::<(NodePath, Vec<MovedNodeInfo>), MoveFailure>(MoveFailure::Rejected(r)) && final(service).graph() == old(service).graph(),
            None => exists|k1: nat, k2: nat, r: Result<NodePath, ServiceError>| #[trigger] move_request_outcome(old(service).graph().nodes_view(),
                old(service).graph().edges_view(), final(service).graph().nodes_view(), final(service).graph().edges_view(),
                normalize_alias(op.source_path@), normalize_alias(op.target_parent_path@), *facts, k1, k2, r, res),
        },
{
    let source = NodePath::from_alias(op.source_path.as_str());
    let target_parent = NodePath::from_alias(op.target_parent_path.as_str());
    let state = target_parent_state(service, &target_parent, facts);
    let no_entries: Vec<String> = Vec::new();
    let taken = service.taken_child_names(&target_parent, &no_entries);
    let ghost nodes0 = service.graph().nodes_view();
    let ghost edges0 = service.graph().edges_view();
    let plan = match plan_move(&source, &target_parent, state, &taken) {
        Ok(plan) => plan,
        Err(r) => {
            return Err(MoveFailure::Rejected(r));
        },
    };
    let ghost k1 = choose|k: nat| #[trigger] candidate_name(alias_name(source@), k) == plan.final_name@
        && crate::unique_name::is_first_free_attempt(alias_name(source@), name_views(taken@), k);
    proof {
        assert(name_views(no_entries@) =~= Seq::<Seq<char>>::empty());
        assert forall|j: nat| j < k1 implies crate::service::child_name_taken(nodes0, target_parent@, Seq::empty(),
            #[trigger] candidate_name(alias_name(source@), j)) by {
            assert(name_views(taken@).contains(candidate_name(alias_name(source@), j)));
        }
        assert(first_free_child_attempt(nodes0, target_parent@, Seq::empty(), alias_name(source@), k1));
    }
    let before = subtree_before(service, &source);
    let moved = if plan.renamed {
        service.move_node_with_rename(&source, &target_parent, Some(plan.final_name.as_str()), facts)
    } else {
        let m = service.move_node_with_rename(&source, &target_parent, None, facts);
        proof {
            let k2 = choose|k: nat| #[trigger] renaming_move(nodes0, edges0, service.graph().nodes_view(), service.graph().edges_view(),
                source@, target_parent@, None, *facts, m, k);
            assert(renaming_move(nodes0, edges0, service.graph().nodes_view(), service.graph().edges_view(),
                source@, target_parent@, Some(plan.final_name@), *facts, m, k2));
        }
        m
    };
    let ghost r = moved;
    match moved {
        Ok(p) => {
            let affected = report_move(&source, &p, &before, Ghost(nodes0));
            let res: Result<(NodePath, Vec<MovedNodeInfo>), MoveFailure> = Ok((p, affected));
            proof {
                let k2 = choose|k: nat| #[trigger] renaming_move(nodes0, edges0, service.graph().nodes_view(), service.graph().edges_view(),
                    source@, target_parent@, Some(plan.final_name@), *facts, r, k);
                assert(move_request_outcome(nodes0, edges0, service.graph().nodes_view(), service.graph().edges_view(),
                    source@, target_parent@, *facts, k1, k2, r, res));
            }
            res
        },
        Err(e) => {
            let res: Result<(NodePath, Vec<MovedNodeInfo>), MoveFailure> = Err(MoveFailure::Failed(e));
            proof {
                let k2 = choose|k: nat| #[trigger] renaming_move(nodes0, edges0, service.graph().nodes_view(), service.graph().edges_view(),
                    source@, target_parent@, Some(plan.final_name@), *facts, r, k);
                assert(move_request_outcome(nodes0, edges0, service.graph().nodes_view(), service.graph().edges_view(),
                    source@, target_parent@, *facts, k1, k2, r, res));
            }
            res
        },
    }
}

/// Why a rename request failed: it was refused before anything changed, or
/// the service refused the move.
#[derive(Clone, Copy, PartialEq, Eq, Structural, Debug)]
pub enum RenameFailure {
    Rejected(RenameRejection),
    Failed(ServiceError),
}

/// The outcome of a checked rename of `source` in `parent` to `new_name`:
/// the service's renaming move went as `renaming_move` says with attempt
/// `k` and answer `r`; the request answers with the new path and what the
/// move touched, read after the move, or with the service's refusal.
pub open spec fn rename_outcome(nodes0: Seq<NodeView>, edges0: Seq<Edge>, nodes: Seq<NodeView>, edges: Seq<Edge>, source: Seq<char>, parent: Seq<char>, new_name: Seq<char>, facts: MoveFacts, k: nat, r: Result<NodePath, ServiceError>, res: Result<(NodePath, Vec<MovedNodeInfo>), RenameFailure>) -> bool {
    &&& renaming_move(nodes0, edges0, nodes, edges, source, parent, Some(new_name), facts, r, k)
    &&& match r {
        Ok(p) => res is Ok && res.unwrap().0@ == p@ && moved_views(res.unwrap().1@) == relocations_after(nodes, source, p@),
        Err(e) => res == Err::<(NodePath, Vec<MovedNodeInfo>), RenameFailure>(RenameFailure::Failed(e)),
    }
}

/// A request to rename the node at a path: the request is checked (see
/// `rename_check`), the service renames the node in its parent (see
/// `move_node_with_rename`), and the answer lists what the rename touched.
/// Gives the new path too; renaming the entry on disk is left to the
/// caller.
pub fn rename_node(service: &mut KartaService, payload: &RenameNodeByPathPayload, facts: &MoveFacts) -> (res: Result<(NodePath, Vec<MovedNodeInfo>), RenameFailure>)
    requires
        old(service).wf(),
    ensures
        final(service).wf(),
        final(service).vault_view() == old(service).vault_view(),
        final(service).storage_view() == old(service).storage_view(),
        match rename_check(normalize_alias(payload.path@), payload.new_name@) {
            Err(e) => res == Err::<(NodePath, Vec<MovedNodeInfo>), RenameFailure>(RenameFailure::Rejected(e))
                && final(service).graph() == old(service).graph(),
            Ok(parent) => exists|k: nat, r: Result<NodePath, ServiceError>| #[trigger] rename_outcome(old(service).graph().nodes_view(),
                old(service).graph().edges_view(), final(service).graph().nodes_view(), final(service).graph().edges_view(),
                normalize_alias(payload.path@), parent, payload.new_name@, *facts, k, r, res),
        },
{
    let source = NodePath::from_alias(payload.path.as_str());
    let parent = match check_rename(&source, payload.new_name.as_str()) {
        Ok(p) => p,
        Err(e) => {
            return Err(RenameFailure::Rejected(e));
        },
    };
    let ghost nodes0 = service.graph().nodes_view();
    let ghost edges0 = service.graph().edges_view();
    let moved = service.move_node_with_rename(&source, &parent, Some(payload.new_name.as_str()), facts);
    let ghost r = moved;
    let ghost k = choose|k: nat| #[trigger] renaming_move(nodes0, edges0, service.graph().nodes_view(), service.graph().edges_view(),
        source@, parent@, Some(payload.new_name@), *facts, r, k);
    let res: Result<(NodePath, Vec<MovedNodeInfo>), RenameFailure> = match moved {
        Ok(p) => {
            let affected = collect_nodes_after_move(service, &source, &p);
            Ok((p, affected))
        },
        Err(e) => Err(RenameFailure::Failed(e)),
    };
    proof {
        assert(rename_outcome(nodes0, edges0, service.graph().nodes_view(), service.graph().edges_view(),
            source@, parent@, payload.new_name@, *facts, k, r, res));
        assert(parent@ == rename_check(normalize_alias(payload.path@), payload.new_name@)->Ok_0);
    }
    res
}

/// Why an update or an in-place rename failed.
#[derive(Clone, Copy, PartialEq, Eq, Structural, Debug)]
pub enum UpdateFailure {
    /// No indexed node has the identifier.
    NotFound,
    /// The request is malformed: a blank or non-text name, or a system node
    /// or a node without a parent to rename.
    BadRequest,
    /// The service refused the move.
    Failed(ServiceError),
    /// The renamed node could not be read back.
    ReloadFailed,
}

/// The outcome of a checked in-place rename of `source` in `parent` to
/// `new_name` (trimmed): attempt `k1` gave the first name free among the
/// indexed children of `parent`, the service's renaming move went as
/// `renaming_move` says with attempt `k2` and answer `r`, and the request
/// answers with the new path or the service's refusal.
pub open spec fn in_place_rename_outcome(nodes0: Seq<NodeView>, edges0: Seq<Edge>, nodes: Seq<NodeView>, edges: Seq<Edge>, source: Seq<char>, parent: Seq<char>, new_name: Seq<char>, facts: MoveFacts, k1: nat, k2: nat, r: Result<NodePath, ServiceError>) -> bool {
    &&& first_free_child_attempt(nodes0, parent, Seq::empty(), trimmed(new_name), k1)
    &&& renaming_move(nodes0, edges0, nodes, edges, source, parent, Some(candidate_name(trimmed(new_name), k1)), facts, r, k2)
}

impl KartaService {
    /// Renames the node at `source` in `parent` to the trimmed `new_name`,
    /// or its first numbered variant free among the indexed children of
    /// `parent`, through `move_node_with_rename`.
    fn rename_in_place(&mut self, source: &NodePath, parent: &NodePath, new_name: &str, facts: &MoveFacts) -> (res: Result<NodePath, ServiceError>)
        requires
            old(self).wf(),
        ensures
            final(self).wf(),
            final(self).vault_view() == old(self).vault_view(),
            final(self).storage_view() == old(self).storage_view(),
            exists|k1: nat, k2: nat| #[trigger] in_place_rename_outcome(old(self).graph().nodes_view(), old(self).graph().edges_view(),
                final(self).graph().nodes_view(), final(self).graph().edges_view(), source@, parent@, new_name@, *facts, k1, k2, res),
    {
        let no_entries: Vec<String> = Vec::new();
        let ghost nodes0 = self.graph().nodes_view();
        let ghost edges0 = self.graph().edges_view();
        let trimmed_name = trim_text(new_name);
        let unique = self.generate_unique_name(parent, trimmed_name, &no_entries);
        assert(name_views(no_entries@) =~= Seq::<Seq<char>>::empty());
        let ghost k1 = choose|k: nat| #[trigger] candidate_name(trimmed_name@, k) == unique@
            && first_free_child_attempt(nodes0, parent@, name_views(no_entries@), trimmed_name@, k);
        let res = self.move_node_with_rename(source, parent, Some(unique.as_str()), facts);
        let ghost k2 = choose|k: nat| #[trigger] renaming_move(nodes0, edges0, self.graph().nodes_view(), self.graph().edges_view(),
            source@, parent@, Some(unique@), *facts, res, k);
        assert(in_place_rename_outcome(nodes0, edges0, self.graph().nodes_view(), self.graph().edges_view(),
            source@, parent@, new_name@, *facts, k1, k2, res));
        res
    }
}

/// First step of renaming the node at a path in place: the request is
/// checked (see `in_place_rename_check`) and the node is renamed (see
/// `in_place_rename_outcome`). Gives the new path; renaming the entry on
/// disk is left to the caller, before `renamed_node_response`.
pub fn rename_node_by_path(service: &mut KartaService, payload: &RenameNodeByPathPayload, facts: &MoveFacts) -> (res: Result<NodePath, UpdateFailure>)
    requires
        old(service).wf(),
    ensures
        final(service).wf(),
        final(service).vault_view() == old(service).vault_view(),
        final(service).storage_view() == old(service).storage_view(),
        match in_place_rename_check(normalize_alias(payload.path@), payload.new_name@) {
            None => res == Err::<NodePath, UpdateFailure>(UpdateFailure::BadRequest) && final(service).graph() == old(service).graph(),
            Some(parent) => exists|k1: nat, k2: nat, r: Result<NodePath, ServiceError>| #[trigger] in_place_rename_outcome(
                old(service).graph().nodes_view(), old(service).graph().edges_view(), final(service).graph().nodes_view(),
                final(service).graph().edges_view(), normalize_alias(payload.path@), parent, payload.new_name@, *facts, k1, k2, r)
                && match r {
                    Ok(p) => res is Ok && res.unwrap()@ == p@,
                    Err(e) => res == Err::<NodePath, UpdateFailure>(UpdateFailure::Failed(e)),
                },
        },
{
    let node_path = NodePath::from_alias(payload.path.as_str());
    let parent = match check_in_place_rename(&node_path, payload.new_name.as_str()) {
        Some(p) => p,
        None => {
            return Err(UpdateFailure::BadRequest);
        },
    };
    let ghost nodes0 = service.graph().nodes_view();
    let ghost edges0 = service.graph().edges_view();
    let r = service.rename_in_place(&node_path, &parent, payload.new_name.as_str(), facts);
    let res = match r {
        Ok(p) => Ok(p),
        Err(e) => Err(UpdateFailure::Failed(e)),
    };
    proof {
        let (k1, k2) = choose|k1: nat, k2: nat| #[trigger] in_place_rename_outcome(nodes0, edges0, service.graph().nodes_view(),
            service.graph().edges_view(), node_path@, parent@, payload.new_name@, *facts, k1, k2, r);
        assert(in_place_rename_check(normalize_alias(payload.path@), payload.new_name@) == Some(parent@));
        assert(in_place_rename_outcome(nodes0, edges0, service.graph().nodes_view(),
            service.graph().edges_view(), node_path@, parent@, payload.new_name@, *facts, k1, k2, r));
        assert(parent@ == in_place_rename_check(normalize_alias(payload.path@), payload.new_name@).unwrap());
        assert(node_path@ == normalize_alias(payload.path@));
    }
    res
}

/// The answer to an in-place rename by path, once the entry on disk, if
/// any, was renamed: the node now at `new_path` (see `open_node`; `on_disk`
/// is what the filesystem holds there) and, for a directory, its indexed
/// descendants.
pub fn renamed_node_response(service: &KartaService, new_path: &NodePath, on_disk: Option<DataNode>) -> (res: Result<UpdateNodeResponse, UpdateFailure>)
    requires
        service.wf(),
    ensures
        match opened_node(service.graph().nodes_view(), NodeHandle::Path(*new_path), node_option(on_disk)) {
            None => res == Err::<UpdateNodeResponse, UpdateFailure>(UpdateFailure::ReloadFailed),
            Some(n) => res is Ok && res.unwrap().updated_node@ == n
                && res.unwrap().affected_nodes@.map_values(|d: DataNode| d@) == if n.is_dir {
                    listed_descendants(service.graph().nodes_view(), n.path)
                } else {
                    Seq::empty()
                },
        },
{
    let handle = NodeHandle::Path(new_path.duplicate());
    let opened = service.open_node(&handle, on_disk);
    proof {
        if opened is Some && has_path(service.graph().nodes_view(), new_path@) {
            lemma_indexed_node(service.graph().nodes_view(), handle, opened.unwrap()@);
        }
    }
    let node = match opened {
        Some(n) => n,
        None => {
            return Err(UpdateFailure::ReloadFailed);
        },
    };
    let affected: Vec<DataNode> = if node.is_dir {
        collect_all_descendants(service, &node.path)
    } else {
        Vec::new()
    };
    assert(!node.is_dir ==> affected@.map_values(|d: DataNode| d@) =~= Seq::<NodeView>::empty());
    Ok(UpdateNodeResponse { updated_node: node, affected_nodes: affected })
}

/// The `name` attribute of an update request.
pub enum NameAttribute {
    /// The request sets no name.
    Absent,
    /// The request sets this name.
    Text(String),
    /// The request sets the name to something that is not text.
    Other,
}

/// The answer once a renamed node is read back from the index at `p`: the
/// node there and, for a directory, its indexed descendants; or a failure
/// when nothing is indexed there.
pub open spec fn reloaded(nodes: Seq<NodeView>, p: Seq<char>, res: Result<UpdateNodeResponse, UpdateFailure>) -> bool {
    if has_path(nodes, p) {
        let n = node_at_path(nodes, p);
        res is Ok && res.unwrap().updated_node@ == n
            && res.unwrap().affected_nodes@.map_values(|d: DataNode| d@) == if n.is_dir {
                listed_descendants(nodes, n.path)
            } else {
                Seq::empty()
            }
    } else {
        res == Err::<UpdateNodeResponse, UpdateFailure>(UpdateFailure::ReloadFailed)
    }
}

/// The outcome of an update that renames the node at `path` to `new_name`
/// in `parent`: the in-place rename went as `in_place_rename_outcome` says
/// with answer `r`, and the request answers with the node read back or the
/// failure.
pub open spec fn update_rename_outcome(nodes0: Seq<NodeView>, edges0: Seq<Edge>, nodes: Seq<NodeView>, edges: Seq<Edge>, path: Seq<char>, parent: Seq<char>, new_name: Seq<char>, facts: MoveFacts, k1: nat, k2: nat, r: Result<NodePath, ServiceError>, res: Result<UpdateNodeResponse, UpdateFailure>) -> bool {
    &&& in_place_rename_outcome(nodes0, edges0, nodes, edges, path, parent, new_name, facts, k1, k2, r)
    &&& match r {
        Err(e) => res == Err::<UpdateNodeResponse, UpdateFailure>(UpdateFailure::Failed(e)),
        Ok(p) => reloaded(nodes, p@, res),
    }
}

/// The node with the identifier (meaningful when indexed).
pub open spec fn node_with_uuid(nodes: Seq<NodeView>, uuid: u128) -> NodeView {
    nodes[choose|i: int| node_at_uuid(nodes, uuid, i)]
}

/// An update of the node with identifier `id`. Without a change of name,
/// the node is given back as it is. A new name renames the node in place
/// (see `in_place_rename_outcome`) and the node is read back from the index
/// with its descendants; a name that is not text, blank, or given to the
/// root, the vault or a node without a parent is refused. Renaming the
/// entry on disk is left to the caller.
pub fn update_node(service: &mut KartaService, id: u128, name: &NameAttribute, facts: &MoveFacts) -> (res: Result<UpdateNodeResponse, UpdateFailure>)
    requires
        old(service).wf(),
    ensures
        final(service).wf(),
        final(service).vault_view() == old(service).vault_view(),
        final(service).storage_view() == old(service).storage_view(),
        !has_uuid(old(service).graph().nodes_view(), id) ==> res == Err::<UpdateNodeResponse, UpdateFailure>(UpdateFailure::NotFound)
            && final(service).graph() == old(service).graph(),
        has_uuid(old(service).graph().nodes_view(), id) ==> {
            let n = node_with_uuid(old(service).graph().nodes_view(), id);
            match *name {
                NameAttribute::Other => res == Err::<UpdateNodeResponse, UpdateFailure>(UpdateFailure::BadRequest)
                    && final(service).graph() == old(service).graph(),
                NameAttribute::Text(t) if t@ != alias_name(n.path) => match in_place_rename_check(n.path, t@) {
                    None => res == Err::<UpdateNodeResponse, UpdateFailure>(UpdateFailure::BadRequest)
                        && final(service).graph() == old(service).graph(),
                    Some(parent) => exists|k1: nat, k2: nat, r: Result<NodePath, ServiceError>| #[trigger] update_rename_outcome(
                        old(service).graph().nodes_view(), old(service).graph().edges_view(), final(service).graph().nodes_view(),
                        final(service).graph().edges_view(), n.path, parent, t@, *facts, k1, k2, r, res),
                },
                _ => res is Ok && res.unwrap().updated_node@ == n && res.unwrap().affected_nodes@.len() == 0
                    && final(service).graph() == old(service).graph(),
            }
        },
{
    let node = match service.data().open_by_uuid(id) {
        Some(n) => n,
        None => {
            return Err(UpdateFailure::NotFound);
        },
    };
    let ghost nodes0 = service.graph().nodes_view();
    let ghost edges0 = service.graph().edges_view();
    proof {
        lemma_indexed_node(nodes0, NodeHandle::Uuid(id), node@);
        let i = choose|i: int| node_at_uuid(nodes0, id, i) && nodes0[i] == node@;
        assert(node_with_uuid(nodes0, id) == node@);
    }
    let new_name: &str = match name {
        NameAttribute::Absent => {
            return Ok(UpdateNodeResponse { updated_node: node, affected_nodes: Vec::new() });
        },
        NameAttribute::Other => {
            return Err(UpdateFailure::BadRequest);
        },
        NameAttribute::Text(t) => t.as_str(),
    };
    let own = node.path.name();
    if crate::text::same_text(new_name, own.as_str()) {
        return Ok(UpdateNodeResponse { updated_node: node, affected_nodes: Vec::new() });
    }
    let parent = match check_in_place_rename(&node.path, new_name) {
        Some(p) => p,
        None => {
            return Err(UpdateFailure::BadRequest);
        },
    };
    let r = service.rename_in_place(&node.path, &parent, new_name, facts);
    let res: Result<UpdateNodeResponse, UpdateFailure> = match r {
        Err(e) => Err(UpdateFailure::Failed(e)),
        Ok(p) => match service.data().open_by_path(&p) {
            Some(updated) => {
                let affected: Vec<DataNode> = if updated.is_dir {
                    collect_all_descendants(service, &updated.path)
                } else {
                    Vec::new()
                };
                assert(!updated.is_dir ==> affected@.map_values(|d: DataNode| d@) =~= Seq::<NodeView>::empty());
                Ok(UpdateNodeResponse { updated_node: updated, affected_nodes: affected })
            },
            None => Err(UpdateFailure::ReloadFailed),
        },
    };
    proof {
        let (k1, k2) = choose|k1: nat, k2: nat| #[trigger] in_place_rename_outcome(nodes0, edges0, service.graph().nodes_view(),
            service.graph().edges_view(), node@.path, parent@, new_name@, *facts, k1, k2, r);
        assert(update_rename_outcome(nodes0, edges0, service.graph().nodes_view(), service.graph().edges_view(),
            node@.path, parent@, new_name@, *facts, k1, k2, r, res));
        assert(parent@ == in_place_rename_check(node@.path, new_name@).unwrap());
    }
    res
}

/// The type of directory nodes.
pub open spec fn dir_type() -> Seq<char> {
    "core/fs/dir"@
}

/// Why creating a node was refused.
#[derive(Clone, Copy, PartialEq, Eq, Structural, Debug)]
pub enum CreateFailure {
    /// Nodes can only be created under the vault.
    OutsideVault,
}

/// Creates a node called `name` (or its first numbered variant free among
/// the indexed children of `parent_path`) with type `ntype` under
/// `parent_path`, which must lie in the vault, and indexes it under the
/// fresh identifier `uuid`. A node of the directory type is a directory.
pub fn create_node(service: &mut KartaService, name: &str, ntype: &str, parent_path: &str, uuid: u128) -> (res: Result<DataNode, CreateFailure>)
    requires
        old(service).wf(),
    ensures
        final(service).wf(),
        final(service).vault_view() == old(service).vault_view(),
        final(service).storage_view() == old(service).storage_view(),
        !within_vault(normalize_alias(parent_path@)) ==> res == Err::<DataNode, CreateFailure>(CreateFailure::OutsideVault)
            && final(service).graph() == old(service).graph(),
        within_vault(normalize_alias(parent_path@)) ==> exists|k: nat| {
            &&& #[trigger] first_free_child_attempt(old(service).graph().nodes_view(), normalize_alias(parent_path@), Seq::empty(), name@, k)
            &&& res is Ok
            &&& res.unwrap()@ == NodeView {
                uuid,
                path: join_alias(normalize_alias(parent_path@), candidate_name(name@, k)),
                ntype: ntype@,
                is_dir: ntype@ == dir_type(),
            }
            &&& final(service).graph().nodes_view() == with_node(old(service).graph().nodes_view(), res.unwrap()@)
            &&& final(service).graph().edges_view() == with_node_edges(old(service).graph().nodes_view(), old(service).graph().edges_view(), res.unwrap()@)
        },
{
    let parent = NodePath::from_alias(parent_path);
    if !crate::requests::may_create_under(&parent) {
        return Err(CreateFailure::OutsideVault);
    }
    let no_entries: Vec<String> = Vec::new();
    let ghost nodes0 = service.graph().nodes_view();
    let final_name = service.generate_unique_name(&parent, name, &no_entries);
    assert(name_views(no_entries@) =~= Seq::<Seq<char>>::empty());
    let path = parent.join(final_name.as_str());
    let is_dir = crate::text::same_text(ntype, "core/fs/dir");
    let node = DataNode { uuid, path, ntype: String::from_str(ntype), is_dir };
    service.data_mut().insert_node(node.duplicate());
    let ghost k = choose|k: nat| #[trigger] candidate_name(name@, k) == final_name@
        && first_free_child_attempt(nodes0, parent@, name_views(no_entries@), name@, k);
    assert(first_free_child_attempt(nodes0, parent@, Seq::empty(), name@, k));
    Ok(node)
}

} // verus!
