use vstd::prelude::*;
use crate::node_path::{NodePath, alias_name, join_alias, within_vault};
use crate::text::{has_prefix, push_char, same_text, starts_with};
use crate::unique_name::{candidate_name, generate_unique_name, is_first_free_attempt, name_views};

verus! {

/// Where a node under `source` ends up when `source` is moved to `target`:
/// the part below `source/` is kept under `target/`. A path that is not
/// under `source/` is placed whole under `target/`.
pub open spec fn relocated_alias(path: Seq<char>, source: Seq<char>, target: Seq<char>) -> Seq<char> {
    let prefix = source + seq!['/'];
    if has_prefix(path, prefix) {
        target + seq!['/'] + path.subrange(prefix.len() as int, path.len() as int)
    } else {
        target + seq!['/'] + path
    }
}

fn append_str(out: &mut String, s: &str)
    ensures
        final(out)@ == old(out)@ + s@,
{
    out.append(s);
}

/// The new alias of `path` when `source` moves to `target`; see `relocated_alias`.
pub fn relocate_alias(path: &str, source: &str, target: &str) -> (res: String)
    ensures
        res@ == relocated_alias(path@, source@, target@),
{
    let mut prefix = String::from_str(source);
    push_char(&mut prefix, '/');
    let mut out = String::from_str(target);
    push_char(&mut out, '/');
    assert(prefix@ =~= source@ + seq!['/']);
    assert(out@ =~= target@ + seq!['/']);
    if starts_with(path, prefix.as_str()) {
        let n = path.unicode_len();
        let m = prefix.as_str().unicode_len();
        append_str(&mut out, path.substring_char(m, n));
    } else {
        append_str(&mut out, path);
    }
    assert(out@ =~= relocated_alias(path@, source@, target@));
    out
}

/// Moving a subtree and moving it back restores every path inside it.
pub proof fn lemma_relocate_round_trip(path: Seq<char>, source: Seq<char>, target: Seq<char>)
    requires
        has_prefix(path, source + seq!['/']),
    ensures
        relocated_alias(relocated_alias(path, source, target), target, source) == path,
        has_prefix(relocated_alias(path, source, target), target + seq!['/']),
{
    let moved = relocated_alias(path, source, target);
    let tp = target + seq!['/'];
    assert(moved.subrange(0, tp.len() as int) =~= tp);
    let rest = path.subrange(source.len() as int + 1, path.len() as int);
    assert(moved.subrange(tp.len() as int, moved.len() as int) =~= rest);
    assert(path.subrange(0, source.len() as int + 1) == source + seq!['/']);
    assert(source + seq!['/'] + rest =~= path);
}

/// The state of the proposed new parent of a moved node.
#[derive(Clone, Copy, PartialEq, Eq, Structural, Debug)]
pub enum TargetParentState {
    /// Indexed in the graph and a directory.
    IndexedDirectory,
    /// Indexed in the graph but not a directory.
    IndexedOther,
    /// Not indexed; exists on disk as a directory.
    DiskDirectory,
    /// Not indexed; exists on disk but is not a directory.
    DiskOther,
    /// Neither indexed nor on disk.
    Missing,
}

/// Why a requested move was refused.
#[derive(Clone, Copy, PartialEq, Eq, Structural, Debug)]
pub enum MoveRejection {
    OutsideVault,
    TargetNotDirectory,
    TargetNotFound,
    IntoItself,
}

impl MoveRejection {
    /// The message sent back to the client.
    pub fn message(&self) -> (res: String)
        ensures
            res@ == move_rejection_message(*self),
    {
        match self {
            MoveRejection::OutsideVault => String::from_str("Paths must be within vault"),
            MoveRejection::TargetNotDirectory => String::from_str("Target parent must be a directory"),
            MoveRejection::TargetNotFound => String::from_str("Target parent path not found"),
            MoveRejection::IntoItself => String::from_str("Cannot move node to itself or its child"),
        }
    }
}

/// The text of each refusal.
pub open spec fn move_rejection_message(r: MoveRejection) -> Seq<char> {
    match r {
        MoveRejection::OutsideVault => "Paths must be within vault"@,
        MoveRejection::TargetNotDirectory => "Target parent must be a directory"@,
        MoveRejection::TargetNotFound => "Target parent path not found"@,
        MoveRejection::IntoItself => "Cannot move node to itself or its child"@,
    }
}

/// The refusal, if any, for moving the node at `source` into `target_parent`,
/// checked in this order: both aliases must lie in the vault; the target
/// must be a directory (indexed, or else present on disk); the target must
/// be neither the source nor below it.
pub open spec fn move_refusal(source: Seq<char>, target_parent: Seq<char>, state: TargetParentState) -> Option<MoveRejection> {
    if !within_vault(source) || !within_vault(target_parent) {
        Some(MoveRejection::OutsideVault)
    } else if state == TargetParentState::IndexedOther || state == TargetParentState::DiskOther {
        Some(MoveRejection::TargetNotDirectory)
    } else if state == TargetParentState::Missing {
        Some(MoveRejection::TargetNotFound)
    } else if target_parent == source || has_prefix(target_parent, source + seq!['/']) {
        Some(MoveRejection::IntoItself)
    } else {
        None
    }
}

/// A move that passed validation.
pub struct MovePlan {
    /// Name the node takes in its new parent.
    pub final_name: String,
    /// Alias of the node after the move.
    pub target_path: NodePath,
    /// Whether the name differs from the node's current one.
    pub renamed: bool,
}

/// Validates one move request and picks the name the node takes in the new
/// parent: its own name if free among `taken` (the names already used
/// there), otherwise the first free numbered variant.
pub fn plan_move(
    source: &NodePath,
    target_parent: &NodePath,
    state: TargetParentState,
    taken: &Vec<String>,
) -> (res: Result<MovePlan, MoveRejection>)
    ensures
        match res {
            Err(r) => move_refusal(source@, target_parent@, state) == Some(r),
            Ok(plan) => {
                &&& move_refusal(source@, target_parent@, state) is None
                &&& exists|k: nat| #[trigger] candidate_name(alias_name(source@), k) == plan.final_name@
                    && is_first_free_attempt(alias_name(source@), name_views(taken@), k)
                &&& plan.target_path@ == join_alias(target_parent@, plan.final_name@)
                &&& plan.renamed == (plan.final_name@ != alias_name(source@))
            },
        },
{
    let in_vault = source.is_within_vault() && target_parent.is_within_vault();
    if !in_vault {
        return Err(MoveRejection::OutsideVault);
    }
    match state {
        TargetParentState::IndexedOther | TargetParentState::DiskOther => {
            return Err(MoveRejection::TargetNotDirectory);
        },
        TargetParentState::Missing => {
            return Err(MoveRejection::TargetNotFound);
        },
        _ => {},
    }
    let mut source_dir = source.alias();
    push_char(&mut source_dir, '/');
    assert(source_dir@ =~= source@ + seq!['/']);
    if same_text(target_parent.alias_str(), source.alias_str()) || starts_with(target_parent.alias_str(), source_dir.as_str()) {
        return Err(MoveRejection::IntoItself);
    }
    let original = source.name();
    let final_name = generate_unique_name(original.as_str(), taken);
    let renamed = !crate::text::same_text(final_name.as_str(), original.as_str());
    let target_path = target_parent.join(final_name.as_str());
    Ok(MovePlan { final_name, target_path, renamed })
}

/// A node touched by a move, with its alias after the move.
pub struct MovedNodeInfo {
    pub uuid: u128,
    pub path: String,
}

/// The nodes affected by moving `source` so that it becomes `target`: the
/// moved node itself first, at `target`, then each of `descendants` (given
/// with their current aliases) at its relocated alias, in the given order.
pub fn relocate_subtree(
    source: &NodePath,
    target: &NodePath,
    moved_uuid: u128,
    descendants: &Vec<(u128, String)>,
) -> (res: Vec<MovedNodeInfo>)
    ensures
        res@.len() == descendants@.len() + 1,
        res@[0].uuid == moved_uuid,
        res@[0].path@ == target@,
        forall|i: int| 0 <= i < descendants@.len() ==> {
            &&& (#[trigger] res@[i + 1]).uuid == descendants@[i].0
            &&& res@[i + 1].path@ == relocated_alias(descendants@[i].1@, source@, target@)
        },
{
    let mut out: Vec<MovedNodeInfo> = Vec::new();
    out.push(MovedNodeInfo { uuid: moved_uuid, path: target.alias() });
    let mut i: usize = 0;
    while i < descendants.len()
        invariant
            i <= descendants@.len(),
            out@.len() == i + 1,
            out@[0].uuid == moved_uuid,
            out@[0].path@ == target@,
            forall|j: int| 0 <= j < i ==> {
                &&& (#[trigger] out@[j + 1]).uuid == descendants@[j].0
                &&& out@[j + 1].path@ == relocated_alias(descendants@[j].1@, source@, target@)
            },
        decreases descendants@.len() - i,
    {
        let path = relocate_alias(descendants[i].1.as_str(), source.alias_str(), target.alias_str());
        out.push(MovedNodeInfo { uuid: descendants[i].0, path });
        i = i + 1;
    }
    out
}

} // verus!
