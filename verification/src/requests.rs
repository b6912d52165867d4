use vstd::prelude::*;
use crate::node_path::{NodePath, alias_from_relative, parent_alias, root_alias, vault_alias, vault_relative, within_vault};
use crate::text::{contains_double_dot, has_double_dot, same_text, strip_leading, strip_leading_slashes, trim_text, trimmed};

verus! {

/// The alias lies in the vault: it is `/vault` or below it.
pub open spec fn deletable_alias(a: Seq<char>) -> bool {
    within_vault(a)
}

/// Only the vault and nodes below it can be deleted; the root and other
/// system nodes cannot.
pub fn is_deletable(path: &NodePath) -> (res: bool)
    ensures
        res == deletable_alias(path@),
{
    path.is_within_vault()
}

/// New nodes may only be created in the vault: under the vault or a node
/// below it.
pub fn may_create_under(parent: &NodePath) -> (res: bool)
    ensures
        res == within_vault(parent@),
{
    parent.is_within_vault()
}

/// Why a rename was refused: a malformed request, or an attempt on a
/// system node.
#[derive(Clone, Copy, PartialEq, Eq, Structural, Debug)]
pub enum RenameRejection {
    BadRequest,
    Forbidden,
}

/// The outcome of checking a rename request addressed by alias: the path
/// must lie under `/vault`, the new name must not be blank, the node must
/// have a parent, and neither `/vault` nor the root may be renamed.
pub open spec fn rename_check(source: Seq<char>, new_name: Seq<char>) -> Result<Seq<char>, RenameRejection> {
    if !within_vault(source) {
        Err(RenameRejection::BadRequest)
    } else if trimmed(new_name).len() == 0 {
        Err(RenameRejection::BadRequest)
    } else if parent_alias(source) is None {
        Err(RenameRejection::BadRequest)
    } else if source == vault_alias() || source == root_alias() {
        Err(RenameRejection::Forbidden)
    } else {
        Ok(parent_alias(source)->0)
    }
}

/// Checks a rename request; on success gives the parent in which the node
/// is renamed.
pub fn check_rename(source: &NodePath, new_name: &str) -> (res: Result<NodePath, RenameRejection>)
    ensures
        match res {
            Ok(p) => rename_check(source@, new_name@) == Ok::<Seq<char>, RenameRejection>(p@),
            Err(e) => rename_check(source@, new_name@) == Err::<Seq<char>, RenameRejection>(e),
        },
{
    if !source.is_within_vault() {
        return Err(RenameRejection::BadRequest);
    }
    if trim_text(new_name).unicode_len() == 0 {
        return Err(RenameRejection::BadRequest);
    }
    let parent = match source.parent() {
        Some(p) => p,
        None => {
            return Err(RenameRejection::BadRequest);
        },
    };
    if source.is_vault() || source.is_root() {
        return Err(RenameRejection::Forbidden);
    }
    Ok(parent)
}

/// The outcome of checking an in-place rename of a node (by alias or by
/// identifier): the new name must not be blank, the root and the vault
/// cannot be renamed, and the node must have a parent.
pub open spec fn in_place_rename_check(node: Seq<char>, new_name: Seq<char>) -> Option<Seq<char>> {
    if trimmed(new_name).len() == 0 || node == root_alias() || node == vault_alias() {
        None
    } else {
        parent_alias(node)
    }
}

/// Checks an in-place rename; gives the parent on success.
pub fn check_in_place_rename(node: &NodePath, new_name: &str) -> (res: Option<NodePath>)
    ensures
        match res {
            Some(p) => in_place_rename_check(node@, new_name@) == Some(p@),
            None => in_place_rename_check(node@, new_name@) is None,
        },
{
    if trim_text(new_name).unicode_len() == 0 {
        return None;
    }
    if node.is_root() || node.is_vault() {
        return None;
    }
    node.parent()
}

/// Where a context request leads.
pub struct ContextRoute {
    /// The focal node of the requested context.
    pub node: NodePath,
    /// The location below the vault directory to check on disk, when the
    /// focal node is not the virtual root.
    pub vault_relative: Option<String>,
}

/// Why a context request was refused.
#[derive(Clone, Copy, PartialEq, Eq, Structural, Debug)]
pub enum RouteRejection {
    /// The path holds `..`.
    Traversal,
}

/// The route for a context request, from the requested path with its
/// leading slashes removed: `root` is the virtual root; `.` and the empty
/// path are the vault; anything else is resolved with `alias_from_relative`.
/// A path holding `..` (other than `root`) is refused.
pub open spec fn context_route(request: Seq<char>) -> Result<(Seq<char>, Option<Seq<char>>), RouteRejection> {
    let p = strip_leading(request, '/');
    if p == "root"@ {
        Ok((root_alias(), None))
    } else if has_double_dot(p) {
        Err(RouteRejection::Traversal)
    } else if p == "."@ || p.len() == 0 {
        Ok((vault_alias(), Some(Seq::empty())))
    } else {
        Ok((alias_from_relative(p), vault_relative(alias_from_relative(p))))
    }
}

/// Resolves the path of a context request; see `context_route`.
pub fn route_context_request(request: &str) -> (res: Result<ContextRoute, RouteRejection>)
    ensures
        match res {
            Ok(r) => context_route(request@) == Ok::<(Seq<char>, Option<Seq<char>>), RouteRejection>((
                r.node@,
                match r.vault_relative {
                    Some(s) => Some(s@),
                    None => None,
                },
            )),
            Err(e) => context_route(request@) == Err::<(Seq<char>, Option<Seq<char>>), RouteRejection>(e),
        },
{
    let p = strip_leading_slashes(request);
    proof {
        reveal_strlit("root");
        reveal_strlit(".");
    }
    if same_text(p, "root") {
        return Ok(ContextRoute { node: NodePath::root(), vault_relative: None });
    }
    let (node, rel) = if same_text(p, ".") || p.unicode_len() == 0 {
        (NodePath::vault(), String::new())
    } else {
        let node = NodePath::from_relative(p);
        proof {
            crate::node_path::lemma_relative_alias_in_vault(p@);
        }
        let rel = match node.strip_vault_prefix() {
            Some(r) => r,
            None => {
                return Err(RouteRejection::Traversal);
            },
        };
        (node, rel)
    };
    if contains_double_dot(p) {
        return Err(RouteRejection::Traversal);
    }
    Ok(ContextRoute { node, vault_relative: Some(rel) })
}

} // verus!
