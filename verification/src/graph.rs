use vstd::prelude::*;
use crate::moves::{lemma_relocate_round_trip, relocate_alias, relocated_alias};
use crate::node_path::{NodePath, parent_alias, root_alias, vault_alias};
use crate::text::{has_prefix, push_char, same_text, starts_with};

verus! {

/// A node of the graph index: its identifier, its path, its type and
/// whether it is a directory.
pub struct DataNode {
    pub uuid: u128,
    pub path: NodePath,
    pub ntype: String,
    pub is_dir: bool,
}

/// The view of a node.
pub struct NodeView {
    pub uuid: u128,
    pub path: Seq<char>,
    pub ntype: Seq<char>,
    pub is_dir: bool,
}

impl View for DataNode {
    type V = NodeView;

    open spec fn view(&self) -> NodeView {
        NodeView { uuid: self.uuid, path: self.path@, ntype: self.ntype@, is_dir: self.is_dir }
    }
}

impl DataNode {
    /// A copy of the node.
    pub fn duplicate(&self) -> (res: DataNode)
        ensures
            res@ == self@,
    {
        DataNode {
            uuid: self.uuid,
            path: self.path.duplicate(),
            ntype: self.ntype.clone(),
            is_dir: self.is_dir,
        }
    }
}

/// An edge of the graph index. `contains` edges join a directory to what it
/// holds.
#[derive(Clone, Copy, PartialEq, Eq, Structural, Debug)]
pub struct Edge {
    pub source: u128,
    pub target: u128,
    pub contains: bool,
}

/// The identifier of the root node that every index holds. Identifiers made
/// by `uuid` (versions 4 and 5) carry version bits and are never this small.
pub const ROOT_UUID: u128 = 1;

/// The identifier of the vault node that every index holds.
pub const VAULT_UUID: u128 = 2;

/// The root node: the top of the graph, above the vault.
pub open spec fn root_node() -> NodeView {
    NodeView { uuid: ROOT_UUID, path: root_alias(), ntype: "core/root"@, is_dir: true }
}

/// The vault node: the vault directory, held by the root.
pub open spec fn vault_node() -> NodeView {
    NodeView { uuid: VAULT_UUID, path: vault_alias(), ntype: "core/fs/dir"@, is_dir: true }
}

/// The index of the graph: the nodes that have been indexed and the edges
/// between them.
pub struct GraphIndex {
    nodes: Vec<DataNode>,
    edges: Vec<Edge>,
}

/// The node with the given identifier is at position `i`.
pub open spec fn node_at_uuid(nodes: Seq<NodeView>, uuid: u128, i: int) -> bool {
    0 <= i < nodes.len() && nodes[i].uuid == uuid
}

/// Some node has the identifier.
pub open spec fn has_uuid(nodes: Seq<NodeView>, uuid: u128) -> bool {
    exists|i: int| 0 <= i < nodes.len() && #[trigger] nodes[i].uuid == uuid
}

/// Some node has the path.
pub open spec fn has_path(nodes: Seq<NodeView>, path: Seq<char>) -> bool {
    exists|i: int| 0 <= i < nodes.len() && #[trigger] nodes[i].path == path
}

/// The path lies strictly below `dir`.
pub open spec fn below(path: Seq<char>, dir: Seq<char>) -> bool {
    has_prefix(path, dir + seq!['/'])
}

/// Position `i` holds the first node with the path.
pub open spec fn first_at_path(nodes: Seq<NodeView>, path: Seq<char>, i: int) -> bool {
    &&& 0 <= i < nodes.len()
    &&& nodes[i].path == path
    &&& forall|j: int| 0 <= j < i ==> #[trigger] nodes[j].path != path
}

/// The indexed node at a path: the first one with it, as a lookup by path
/// finds it (meaningful when there is one).
pub open spec fn node_at_path(nodes: Seq<NodeView>, path: Seq<char>) -> NodeView {
    nodes[choose|i: int| first_at_path(nodes, path, i)]
}

/// When some node has the path, a first one has it, and it is the node at
/// the path.
pub proof fn lemma_node_at_path_indexed(nodes: Seq<NodeView>, path: Seq<char>)
    requires
        has_path(nodes, path),
    ensures
        exists|i: int| first_at_path(nodes, path, i) && nodes[i] == node_at_path(nodes, path),
    decreases nodes.len(),
{
    let init = nodes.drop_last();
    if has_path(init, path) {
        lemma_node_at_path_indexed(init, path);
        let i = choose|i: int| first_at_path(init, path, i) && init[i] == node_at_path(init, path);
        assert forall|j: int| 0 <= j < i implies #[trigger] nodes[j].path != path by {
            assert(nodes[j] == init[j]);
        }
        assert(first_at_path(nodes, path, i));
        lemma_first_at_path(nodes, path, i);
    } else {
        let i = nodes.len() - 1;
        let w = choose|w: int| 0 <= w < nodes.len() && #[trigger] nodes[w].path == path;
        if w < i {
            assert(init[w].path == path);
        }
        assert forall|j: int| 0 <= j < i implies #[trigger] nodes[j].path != path by {
            assert(nodes[j] == init[j]);
            if nodes[j].path == path {
                assert(init[j].path == path);
            }
        }
        assert(first_at_path(nodes, path, i));
        lemma_first_at_path(nodes, path, i);
    }
}

/// The node at the first position with the path is the node at the path.
pub proof fn lemma_first_at_path(nodes: Seq<NodeView>, path: Seq<char>, i: int)
    requires
        first_at_path(nodes, path, i),
    ensures
        node_at_path(nodes, path) == nodes[i],
{
    let c = choose|c: int| first_at_path(nodes, path, c);
    if c < i {
        assert(nodes[c].path != path);
    } else if c > i {
        assert(nodes[i].path != path);
    }
}

/// The parent of `path` is indexed.
pub open spec fn parent_indexed(nodes: Seq<NodeView>, path: Seq<char>) -> bool {
    match parent_alias(path) {
        Some(pp) => has_path(nodes, pp),
        None => false,
    }
}

/// The nodes after `node` is offered to the index: added when neither its
/// identifier nor its path is indexed.
pub open spec fn with_node(nodes: Seq<NodeView>, node: NodeView) -> Seq<NodeView> {
    if !has_uuid(nodes, node.uuid) && !has_path(nodes, node.path) {
        nodes.push(node)
    } else {
        nodes
    }
}

/// The edges after `node` is offered to the index: when it is added and its
/// parent is indexed, a `contains` edge from the parent to it.
pub open spec fn with_node_edges(nodes: Seq<NodeView>, edges: Seq<Edge>, node: NodeView) -> Seq<Edge> {
    if !has_uuid(nodes, node.uuid) && !has_path(nodes, node.path) && parent_indexed(nodes, node.path) {
        edges.push(Edge { source: node_at_path(nodes, parent_alias(node.path).unwrap()).uuid, target: node.uuid, contains: true })
    } else {
        edges
    }
}

/// With paths unique, the node found at a path is the indexed node there.
pub proof fn lemma_node_at_path(nodes: Seq<NodeView>, path: Seq<char>, n: NodeView)
    requires
        forall|i: int, j: int| 0 <= i < j < nodes.len() ==> #[trigger] nodes[i].path != #[trigger] nodes[j].path,
        n.path == path,
        exists|i: int| 0 <= i < nodes.len() && nodes[i] == n,
    ensures
        node_at_path(nodes, path) == n,
{
    let i = choose|i: int| 0 <= i < nodes.len() && nodes[i] == n;
    assert(nodes[i].path == path);
    assert forall|j: int| 0 <= j < i implies #[trigger] nodes[j].path != path by {
        assert(nodes[j].path != nodes[i].path);
    }
    lemma_first_at_path(nodes, path, i);
}

impl GraphIndex {
    /// The nodes, in insertion order.
    pub closed spec fn nodes_view(&self) -> Seq<NodeView> {
        self.nodes@.map_values(|n: DataNode| n@)
    }

    /// The edges, in insertion order.
    pub closed spec fn edges_view(&self) -> Seq<Edge> {
        self.edges@
    }

    /// Well-formedness: identifiers are unique, and every edge joins two
    /// indexed nodes. Paths are unique as long as no move lands a node on
    /// a path that is already taken (see `move_subtree`).
    pub open spec fn wf(&self) -> bool {
        let n = self.nodes_view();
        &&& forall|i: int, j: int| 0 <= i < j < n.len() ==> #[trigger] n[i].uuid != #[trigger] n[j].uuid
        &&& forall|k: int| 0 <= k < self.edges_view().len() ==> has_uuid(n, #[trigger] self.edges_view()[k].source)
            && has_uuid(n, self.edges_view()[k].target)
    }

    /// A new index: the root node and the vault node, joined by a
    /// `contains` edge from the root.
    pub fn new() -> (res: Self)
        ensures
            res.wf(),
            res.nodes_view() == seq![root_node(), vault_node()],
            res.edges_view() == seq![Edge { source: ROOT_UUID, target: VAULT_UUID, contains: true }],
    {
        let root = DataNode { uuid: ROOT_UUID, path: NodePath::root(), ntype: String::from_str("core/root"), is_dir: true };
        let vault = DataNode { uuid: VAULT_UUID, path: NodePath::vault(), ntype: String::from_str("core/fs/dir"), is_dir: true };
        let mut nodes: Vec<DataNode> = Vec::new();
        nodes.push(root);
        nodes.push(vault);
        let mut edges: Vec<Edge> = Vec::new();
        edges.push(Edge { source: ROOT_UUID, target: VAULT_UUID, contains: true });
        let g = GraphIndex { nodes, edges };
        assert(g.nodes_view() =~= seq![root_node(), vault_node()]);
        assert(g.nodes_view()[0].uuid == ROOT_UUID);
        assert(g.nodes_view()[1].uuid == VAULT_UUID);
        g
    }

    fn find_uuid(&self, uuid: u128) -> (res: Option<usize>)
        ensures
            match res {
                Some(i) => node_at_uuid(self.nodes_view(), uuid, i as int),
                None => !has_uuid(self.nodes_view(), uuid),
            },
    {
        let mut i: usize = 0;
        while i < self.nodes.len()
            invariant
                i <= self.nodes@.len(),
                forall|j: int| 0 <= j < i ==> self.nodes@[j].uuid != uuid,
            decreases self.nodes@.len() - i,
        {
            if self.nodes[i].uuid == uuid {
                return Some(i);
            }
            i = i + 1;
        }
        proof {
            if has_uuid(self.nodes_view(), uuid) {
                let j = choose|j: int| 0 <= j < self.nodes_view().len() && #[trigger] self.nodes_view()[j].uuid == uuid;
                assert(self.nodes@[j].uuid == uuid);
            }
        }
        None
    }

    fn find_path(&self, path: &str) -> (res: Option<usize>)
        ensures
            match res {
                Some(i) => first_at_path(self.nodes_view(), path@, i as int),
                None => !has_path(self.nodes_view(), path@),
            },
    {
        let mut i: usize = 0;
        while i < self.nodes.len()
            invariant
                i <= self.nodes@.len(),
                forall|j: int| 0 <= j < i ==> self.nodes@[j].path@ != path@,
            decreases self.nodes@.len() - i,
        {
            if same_text(self.nodes[i].path.alias_str(), path) {
                assert forall|j: int| 0 <= j < i implies #[trigger] self.nodes_view()[j].path != path@ by {
                    assert(self.nodes@[j].path@ != path@);
                }
                return Some(i);
            }
            i = i + 1;
        }
        proof {
            if has_path(self.nodes_view(), path@) {
                let j = choose|j: int| 0 <= j < self.nodes_view().len() && #[trigger] self.nodes_view()[j].path == path@;
                assert(self.nodes@[j].path@ == path@);
            }
        }
        None
    }

    /// The node with the identifier, if indexed.
    pub fn open_by_uuid(&self, uuid: u128) -> (res: Option<DataNode>)
        ensures
            match res {
                Some(n) => exists|i: int| node_at_uuid(self.nodes_view(), uuid, i) && self.nodes_view()[i] == n@,
                None => !has_uuid(self.nodes_view(), uuid),
            },
    {
        match self.find_uuid(uuid) {
            Some(i) => Some(self.nodes[i].duplicate()),
            None => None,
        }
    }

    /// The node at the path, if indexed.
    pub fn open_by_path(&self, path: &NodePath) -> (res: Option<DataNode>)
        ensures
            match res {
                Some(n) => n@.path == path@ && exists|i: int| 0 <= i < self.nodes_view().len() && self.nodes_view()[i] == n@,
                None => !has_path(self.nodes_view(), path@),
            },
            res is Some ==> has_path(self.nodes_view(), path@) && res.unwrap()@ == node_at_path(self.nodes_view(), path@),
    {
        match self.find_path(path.alias_str()) {
            Some(i) => {
                proof { lemma_first_at_path(self.nodes_view(), path@, i as int); }
                Some(self.nodes[i].duplicate())
            },
            None => None,
        }
    }

    /// The node whose alias is `alias`, if indexed.
    pub fn open_by_alias(&self, alias: &str) -> (res: Option<DataNode>)
        ensures
            match res {
                Some(n) => n@.path == alias@ && exists|i: int| 0 <= i < self.nodes_view().len() && self.nodes_view()[i] == n@,
                None => !has_path(self.nodes_view(), alias@),
            },
            res is Some ==> has_path(self.nodes_view(), alias@) && res.unwrap()@ == node_at_path(self.nodes_view(), alias@),
    {
        match self.find_path(alias) {
            Some(i) => {
                proof { lemma_first_at_path(self.nodes_view(), alias@, i as int); }
                Some(self.nodes[i].duplicate())
            },
            None => None,
        }
    }

    /// Whether the path is indexed.
    pub fn is_indexed(&self, path: &NodePath) -> (res: bool)
        ensures
            res == has_path(self.nodes_view(), path@),
    {
        self.find_path(path.alias_str()).is_some()
    }

    /// Adds a node when neither its identifier nor its path is indexed yet,
    /// and, when its parent is indexed, a `contains` edge from the parent to
    /// it; tells whether it was added.
    pub fn insert_node(&mut self, node: DataNode) -> (added: bool)
        requires
            old(self).wf(),
        ensures
            final(self).wf(),
            added == (!has_uuid(old(self).nodes_view(), node@.uuid) && !has_path(old(self).nodes_view(), node@.path)),
            final(self).nodes_view() == with_node(old(self).nodes_view(), node@),
            final(self).edges_view() == with_node_edges(old(self).nodes_view(), old(self).edges_view(), node@),
            added ==> has_path(final(self).nodes_view(), node@.path) && node_at_path(final(self).nodes_view(), node@.path) == node@,
            added ==> has_uuid(final(self).nodes_view(), node@.uuid),
    {
        if self.find_uuid(node.uuid).is_some() || self.find_path(node.path.alias_str()).is_some() {
            return false;
        }
        proof {
            lemma_added_node_found_by_path(self.nodes_view(), node@);
        }
        let parent_idx: Option<usize> = match node.path.parent() {
            Some(pp) => self.find_path(pp.alias_str()),
            None => None,
        };
        let ghost before = self.nodes_view();
        let ghost edges_before = self.edges_view();
        let ghost nv = node@;
        let child = node.uuid;
        proof {
            if parent_idx is Some {
                lemma_first_at_path(before, parent_alias(nv.path).unwrap(), parent_idx.unwrap() as int);
            } else {
                assert(!parent_indexed(before, nv.path));
            }
        }
        self.nodes.push(node);
        assert(self.nodes_view() =~= before.push(nv));
        match parent_idx {
            Some(pi) => {
                let e = Edge { source: self.nodes[pi].uuid, target: child, contains: true };
                self.edges.push(e);
                assert(self.nodes_view()[pi as int] == before[pi as int]);
                assert(self.edges_view() =~= edges_before.push(Edge { source: before[pi as int].uuid, target: child, contains: true }));
            },
            None => {
                assert(self.edges_view() =~= edges_before);
            },
        }
        proof {
            let nodes = self.nodes_view();
            assert(nodes[before.len() as int].uuid == child);
            assert forall|k: int| 0 <= k < self.edges_view().len() implies has_uuid(nodes, #[trigger] self.edges_view()[k].source)
                && has_uuid(nodes, self.edges_view()[k].target) by {
                if k < edges_before.len() {
                    assert(self.edges_view()[k] == edges_before[k]);
                    assert(has_uuid(before, edges_before[k].source));
                    assert(has_uuid(before, edges_before[k].target));
                    let a = choose|i: int| 0 <= i < before.len() && #[trigger] before[i].uuid == edges_before[k].source;
                    let b = choose|i: int| 0 <= i < before.len() && #[trigger] before[i].uuid == edges_before[k].target;
                    assert(nodes[a] == before[a]);
                    assert(nodes[b] == before[b]);
                } else {
                    let pi = parent_idx.unwrap() as int;
                    assert(nodes[pi] == before[pi]);
                    assert(self.edges_view()[k] == edges_before.push(Edge { source: before[pi].uuid, target: child, contains: true })[k]);
                    assert(nodes[pi].uuid == self.edges_view()[k].source);
                    assert(nodes[before.len() as int].uuid == self.edges_view()[k].target);
                }
            }
        }
        true
    }

    /// The paths of all indexed nodes, in index order.
    pub fn get_all_indexed_paths(&self) -> (res: Vec<String>)
        ensures
            res@.len() == self.nodes_view().len(),
            forall|i: int| 0 <= i < res@.len() ==> (#[trigger] res@[i])@ == self.nodes_view()[i].path,
    {
        let mut out: Vec<String> = Vec::new();
        let mut i: usize = 0;
        while i < self.nodes.len()
            invariant
                i <= self.nodes@.len(),
                out@.len() == i,
                forall|j: int| 0 <= j < i ==> (#[trigger] out@[j])@ == self.nodes@[j].path@,
            decreases self.nodes@.len() - i,
        {
            out.push(self.nodes[i].path.alias());
            i = i + 1;
        }
        out
    }

    /// The indexed nodes strictly below `dir`, in index order.
    pub fn descendants(&self, dir: &NodePath) -> (res: Vec<DataNode>)
        ensures
            res@.map_values(|n: DataNode| n@) == self.nodes_view().filter(|n: NodeView| below(n.path, dir@)),
    {
        let mut prefix = dir.alias();
        push_char(&mut prefix, '/');
        assert(prefix@ =~= dir@ + seq!['/']);
        let mut out: Vec<DataNode> = Vec::new();
        let mut i: usize = 0;
        while i < self.nodes.len()
            invariant
                i <= self.nodes@.len(),
                prefix@ == dir@ + seq!['/'],
                out@.map_values(|n: DataNode| n@) == self.nodes_view().subrange(0, i as int).filter(|n: NodeView| below(n.path, dir@)),
            decreases self.nodes@.len() - i,
        {
            proof {
                reveal(Seq::filter);
                assert(self.nodes_view().subrange(0, i + 1).drop_last() =~= self.nodes_view().subrange(0, i as int));
            }
            if starts_with(self.nodes[i].path.alias_str(), prefix.as_str()) {
                let ghost before = out@;
                out.push(self.nodes[i].duplicate());
                assert(out@.map_values(|n: DataNode| n@) =~= before.map_values(|n: DataNode| n@).push(self.nodes_view()[i as int]));
            }
            i = i + 1;
        }
        proof {
            assert(self.nodes_view().subrange(0, self.nodes@.len() as int) =~= self.nodes_view());
        }
        out
    }
}

} // verus!

verus! {

/// Where a node's path goes when the subtree at `source` moves to
/// `target`: the source itself goes to `target`, paths below it are
/// relocated, and every other path stays.
pub open spec fn moved_path(p: Seq<char>, source: Seq<char>, target: Seq<char>) -> Seq<char> {
    if p == source {
        target
    } else if below(p, source) {
        relocated_alias(p, source, target)
    } else {
        p
    }
}

/// A node after the subtree at `source` moved to `target`.
pub open spec fn moved_node(n: NodeView, source: Seq<char>, target: Seq<char>) -> NodeView {
    NodeView { path: moved_path(n.path, source, target), ..n }
}

/// The path is the source or lies below it.
pub open spec fn in_subtree(p: Seq<char>, source: Seq<char>) -> bool {
    p == source || below(p, source)
}

/// Two paths of a subtree never move to the same place.
pub proof fn lemma_moved_path_injective(p: Seq<char>, q: Seq<char>, source: Seq<char>, target: Seq<char>)
    requires
        in_subtree(p, source),
        in_subtree(q, source),
        moved_path(p, source, target) == moved_path(q, source, target),
    ensures
        p == q,
{
    let sp = source + seq!['/'];
    let tp = target + seq!['/'];
    if p != source && q != source {
        let rp = p.subrange(sp.len() as int, p.len() as int);
        let rq = q.subrange(sp.len() as int, q.len() as int);
        assert(tp + rp == tp + rq);
        assert(rp =~= (tp + rp).subrange(tp.len() as int, (tp + rp).len() as int));
        assert(rq =~= (tp + rq).subrange(tp.len() as int, (tp + rq).len() as int));
        assert(p =~= sp + rp);
        assert(q =~= sp + rq);
    } else if p != source {
        assert(moved_path(p, source, target).len() > target.len());
    } else if q != source {
        assert(moved_path(q, source, target).len() > target.len());
    }
}

/// Edge `e` is the first `contains` edge that ends at `child`.
pub open spec fn first_parent_edge(edges: Seq<Edge>, child: u128, e: int) -> bool {
    &&& 0 <= e < edges.len()
    &&& edges[e].contains && edges[e].target == child
    &&& forall|j: int| 0 <= j < e ==> !(#[trigger] edges[j].contains && edges[j].target == child)
}

/// The edges after a move: edge `e`, the first `contains` edge into the
/// moved node `m` (at `source`), now comes from node `p` (at the parent of
/// `target`); every other edge is unchanged.
pub open spec fn reparented(nodes: Seq<NodeView>, edges: Seq<Edge>, after: Seq<Edge>, source: Seq<char>, target: Seq<char>, m: int, e: int, p: int) -> bool {
    &&& 0 <= m < nodes.len() && nodes[m].path == source
    &&& first_parent_edge(edges, nodes[m].uuid, e)
    &&& 0 <= p < nodes.len() && parent_alias(target) == Some(nodes[p].path)
    &&& after.len() == edges.len()
    &&& forall|k: int| 0 <= k < after.len() ==> #[trigger] after[k] == if k == e {
        Edge { source: nodes[p].uuid, ..edges[k] }
    } else {
        edges[k]
    }
}

/// The index `(nodes, edges)` after moving the subtree at `source` to
/// `target` in `(nodes0, edges0)`: unchanged when nothing is indexed at
/// `source`; otherwise every node moved by `moved_node` and the first
/// `contains` edge into the moved node reparented (see `reparented`).
pub open spec fn subtree_moved(nodes0: Seq<NodeView>, edges0: Seq<Edge>, nodes: Seq<NodeView>, edges: Seq<Edge>, source: Seq<char>, target: Seq<char>) -> bool {
    if !has_path(nodes0, source) {
        nodes == nodes0 && edges == edges0
    } else {
        &&& nodes == nodes0.map_values(|n: NodeView| moved_node(n, source, target))
        &&& edges.len() == edges0.len()
        &&& exists|m: int, e: int, p: int| #[trigger] reparented(nodes0, edges0, edges, source, target, m, e, p)
    }
}

/// Some `contains` edge ends at `child`.
pub open spec fn has_parent_edge(edges: Seq<Edge>, child: u128) -> bool {
    exists|j: int| 0 <= j < edges.len() && #[trigger] edges[j].contains && edges[j].target == child
}

/// The parent of `target` is indexed.
pub open spec fn target_parent_indexed(nodes: Seq<NodeView>, target: Seq<char>) -> bool {
    match parent_alias(target) {
        Some(pp) => has_path(nodes, pp),
        None => false,
    }
}

/// The node at `source` has no incoming `contains` edge.
pub open spec fn source_orphaned(nodes: Seq<NodeView>, edges: Seq<Edge>, source: Seq<char>) -> bool {
    !has_parent_edge(edges, node_at_path(nodes, source).uuid)
}

/// Why moving the subtree at `source` to `target` is refused, if it is.
pub open spec fn move_refusal(nodes: Seq<NodeView>, edges: Seq<Edge>, source: Seq<char>, target: Seq<char>) -> Option<GraphError> {
    if !has_path(nodes, source) {
        None
    } else if source_orphaned(nodes, edges, source) {
        Some(GraphError::NoParent)
    } else if !target_parent_indexed(nodes, target) {
        Some(GraphError::TargetParentMissing)
    } else {
        None
    }
}

/// Why the index refused an operation.
#[derive(Clone, Copy, PartialEq, Eq, Structural, Debug)]
pub enum GraphError {
    /// The node has no incoming `contains` edge.
    NoParent,
    /// The new parent is not indexed.
    TargetParentMissing,
    /// The edge is a `contains` edge, which cannot be changed this way.
    ContainsEdge,
    /// No such edge.
    EdgeNotFound,
}

impl GraphIndex {
    fn find_parent_edge(&self, child: u128) -> (res: Option<usize>)
        ensures
            match res {
                Some(k) => 0 <= k < self.edges_view().len() && self.edges_view()[k as int].contains
                    && self.edges_view()[k as int].target == child
                    && forall|j: int| 0 <= j < k ==> !(#[trigger] self.edges_view()[j].contains && self.edges_view()[j].target == child),
                None => forall|j: int| 0 <= j < self.edges_view().len() ==> !(#[trigger] self.edges_view()[j].contains && self.edges_view()[j].target == child),
            },
    {
        let mut k: usize = 0;
        while k < self.edges.len()
            invariant
                k <= self.edges@.len(),
                forall|j: int| 0 <= j < k ==> !(#[trigger] self.edges@[j].contains && self.edges@[j].target == child),
            decreases self.edges@.len() - k,
        {
            if self.edges[k].contains && self.edges[k].target == child {
                return Some(k);
            }
            k = k + 1;
        }
        None
    }

    /// Moves the indexed subtree at `source` so that it sits at `target`:
    /// the node at `source` takes `target` as its path, every indexed node
    /// below it is relocated under `target`, and its first incoming
    /// `contains` edge is made to come from the node at the parent of
    /// `target`. Identifiers, types and all other nodes stay as they were.
    /// When nothing is indexed at `source`, nothing changes. The move is
    /// refused, changing nothing, when the node has no incoming `contains`
    /// edge or when the parent of `target` is not indexed. A path that a
    /// node outside the subtree already has is overwritten all the same:
    /// both nodes then have it, and a lookup by path finds the first.
    pub fn move_subtree(&mut self, source: &NodePath, target: &NodePath) -> (res: Result<(), GraphError>)
        requires
            old(self).wf(),
        ensures
            final(self).wf(),
            res is Err ==> final(self).nodes_view() == old(self).nodes_view() && final(self).edges_view() == old(self).edges_view(),
            res is Ok ==> subtree_moved(old(self).nodes_view(), old(self).edges_view(), final(self).nodes_view(),
                final(self).edges_view(), source@, target@),
            match move_refusal(old(self).nodes_view(), old(self).edges_view(), source@, target@) {
                Some(e) => res == Err::<(), GraphError>(e),
                None => res is Ok,
            },
    {
        let idx = match self.find_path(source.alias_str()) {
            Some(i) => i,
            None => {
                return Ok(());
            },
        };
        let moved_uuid = self.nodes[idx].uuid;
        proof {
            lemma_first_at_path(self.nodes_view(), source@, idx as int);
        }
        let edge_idx = match self.find_parent_edge(moved_uuid) {
            Some(k) => k,
            None => {
                assert(self.nodes_view()[idx as int].path == source@);
                assert(!has_parent_edge(self.edges_view(), moved_uuid));
                return Err(GraphError::NoParent);
            },
        };
        assert(!source_orphaned(self.nodes_view(), self.edges_view(), source@)) by {
            assert(self.edges_view()[edge_idx as int].contains);
        }
        let parent_idx = match target.parent() {
            Some(pp) => match self.find_path(pp.alias_str()) {
                Some(j) => j,
                None => {
                    return Err(GraphError::TargetParentMissing);
                },
            },
            None => {
                return Err(GraphError::TargetParentMissing);
            },
        };
        let new_parent = self.nodes[parent_idx].uuid;
        assert(self.nodes_view()[parent_idx as int].uuid == new_parent);
        assert(target_parent_indexed(self.nodes_view(), target@)) by {
            assert(self.nodes_view()[parent_idx as int].path == parent_alias(target@).unwrap());
        }
        assert(has_path(self.nodes_view(), source@)) by {
            assert(self.nodes_view()[idx as int].path == source@);
        }
        let ghost old_nodes = self.nodes_view();
        let ghost s = source@;
        let ghost t = target@;
        let mut prefix = source.alias();
        push_char(&mut prefix, '/');
        assert(prefix@ =~= s + seq!['/']);
        // New paths.
        let n = self.nodes.len();
        let mut new_nodes: Vec<DataNode> = Vec::new();
        let mut i: usize = 0;
        while i < n
            invariant
                n == self.nodes@.len(),
                old_nodes == self.nodes_view(),
                prefix@ == s + seq!['/'],
                s == source@,
                t == target@,
                i <= n,
                new_nodes@.len() == i,
                forall|j: int| 0 <= j < i ==> (#[trigger] new_nodes@[j])@ == moved_node(old_nodes[j], s, t),
            decreases n - i,
        {
            let node = &self.nodes[i];
            let path = if same_text(node.path.alias_str(), source.alias_str()) {
                target.duplicate()
            } else if starts_with(node.path.alias_str(), prefix.as_str()) {
                NodePath::from_alias(relocate_alias(node.path.alias_str(), source.alias_str(), target.alias_str()).as_str()).with_alias_of(
                    &relocate_alias(node.path.alias_str(), source.alias_str(), target.alias_str()))
            } else {
                node.path.duplicate()
            };
            new_nodes.push(DataNode { uuid: node.uuid, path, ntype: node.ntype.clone(), is_dir: node.is_dir });
            i = i + 1;
        }
        // Apply.
        let mut new_edges: Vec<Edge> = Vec::new();
        let mut k: usize = 0;
        while k < self.edges.len()
            invariant
                k <= self.edges@.len(),
                edge_idx < self.edges@.len(),
                new_edges@.len() == k,
                forall|j: int| 0 <= j < k ==> #[trigger] new_edges@[j] == if j == edge_idx {
                    Edge { source: new_parent, ..self.edges@[j] }
                } else {
                    self.edges@[j]
                },
            decreases self.edges@.len() - k,
        {
            if k == edge_idx {
                new_edges.push(Edge { source: new_parent, target: self.edges[k].target, contains: self.edges[k].contains });
            } else {
                new_edges.push(self.edges[k]);
            }
            k = k + 1;
        }
        let ghost old_edges = self.edges_view();
        self.nodes = new_nodes;
        self.edges = new_edges;
        proof {
            let nv = self.nodes_view();
            assert(nv =~= old_nodes.map_values(|x: NodeView| moved_node(x, s, t)));
            assert forall|x: int, y: int| 0 <= x < y < nv.len() implies #[trigger] nv[x].uuid != #[trigger] nv[y].uuid by {
                assert(old(self).nodes_view()[x].uuid != old(self).nodes_view()[y].uuid);
            }
            assert forall|e: int| 0 <= e < self.edges_view().len() implies has_uuid(nv, #[trigger] self.edges_view()[e].source)
                && has_uuid(nv, self.edges_view()[e].target) by {
                assert(has_uuid(old_nodes, old_edges[e].source));
                assert(has_uuid(old_nodes, old_edges[e].target));
                let a1 = choose|q: int| 0 <= q < old_nodes.len() && #[trigger] old_nodes[q].uuid == old_edges[e].source;
                let b1 = choose|q: int| 0 <= q < old_nodes.len() && #[trigger] old_nodes[q].uuid == old_edges[e].target;
                assert(nv[a1].uuid == old_nodes[a1].uuid);
                assert(nv[b1].uuid == old_nodes[b1].uuid);
                assert(nv[parent_idx as int].uuid == new_parent);
            }
            assert(has_path(old(self).nodes_view(), source@));
            assert(first_parent_edge(old(self).edges_view(), old(self).nodes_view()[idx as int].uuid, edge_idx as int));
            assert(reparented(old(self).nodes_view(), old(self).edges_view(), self.edges_view(), source@, target@,
                idx as int, edge_idx as int, parent_idx as int));
        }
        Ok(())
    }
}

} // verus!

verus! {

/// The nodes other than the one with the identifier.
pub open spec fn nodes_apart(nodes: Seq<NodeView>, uuid: u128) -> Seq<NodeView> {
    nodes.filter(|n: NodeView| n.uuid != uuid)
}

/// The edges that do not touch the node.
pub open spec fn edges_apart(edges: Seq<Edge>, uuid: u128) -> Seq<Edge> {
    edges.filter(|e: Edge| !touches(e, uuid))
}

/// The node's identifier is not among `ids`.
pub open spec fn kept_node(n: NodeView, ids: Seq<u128>) -> bool {
    !ids.contains(n.uuid)
}

/// Neither end of the edge is among `ids`.
pub open spec fn kept_edge(e: Edge, ids: Seq<u128>) -> bool {
    !ids.contains(e.source) && !ids.contains(e.target)
}

/// The nodes whose identifiers are not among `ids`.
pub open spec fn nodes_without(nodes: Seq<NodeView>, ids: Seq<u128>) -> Seq<NodeView> {
    nodes.filter(|n: NodeView| kept_node(n, ids))
}

/// The edges with no end among `ids`.
pub open spec fn edges_without(edges: Seq<Edge>, ids: Seq<u128>) -> Seq<Edge> {
    edges.filter(|e: Edge| kept_edge(e, ids))
}

/// The edge touches the node.
pub open spec fn touches(e: Edge, uuid: u128) -> bool {
    e.source == uuid || e.target == uuid
}

/// The edge joins two of the given nodes.
pub open spec fn joins_within(e: Edge, ids: Seq<u128>) -> bool {
    ids.contains(e.source) && ids.contains(e.target)
}

/// The edge's ends are one of the given pairs.
pub open spec fn named_by(e: Edge, pairs: Seq<(u128, u128)>) -> bool {
    pairs.contains((e.source, e.target))
}

fn contains_id(ids: &Vec<u128>, x: u128) -> (res: bool)
    ensures
        res == ids@.contains(x),
{
    let mut i: usize = 0;
    while i < ids.len()
        invariant
            i <= ids@.len(),
            forall|j: int| 0 <= j < i ==> ids@[j] != x,
        decreases ids@.len() - i,
    {
        if ids[i] == x {
            return true;
        }
        i = i + 1;
    }
    false
}

fn contains_pair(pairs: &Vec<(u128, u128)>, x: (u128, u128)) -> (res: bool)
    ensures
        res == pairs@.contains(x),
{
    let mut i: usize = 0;
    while i < pairs.len()
        invariant
            i <= pairs@.len(),
            forall|j: int| 0 <= j < i ==> pairs@[j] != x,
        decreases pairs@.len() - i,
    {
        if pairs[i].0 == x.0 && pairs[i].1 == x.1 {
            assert(pairs@[i as int] == x);
            return true;
        }
        i = i + 1;
    }
    false
}

/// Filtering one more element of a prefix adds it when it passes.
pub proof fn lemma_filter_step<A>(s: Seq<A>, i: int, p: spec_fn(A) -> bool)
    requires
        0 <= i < s.len(),
    ensures
        s.subrange(0, i + 1).filter(p) == if p(s[i]) {
            s.subrange(0, i).filter(p).push(s[i])
        } else {
            s.subrange(0, i).filter(p)
        },
{
    reveal(Seq::filter);
    assert(s.subrange(0, i + 1).drop_last() =~= s.subrange(0, i));
}

/// Edge `k` is the first edge from `from` to `to`.
pub open spec fn edge_from_to(edges: Seq<Edge>, from: u128, to: u128, k: int) -> bool {
    &&& 0 <= k < edges.len()
    &&& edges[k].source == from && edges[k].target == to
    &&& forall|j: int| 0 <= j < k ==> !(#[trigger] edges[j].source == from && edges[j].target == to)
}

/// The position of the first edge from `from` to `to` (meaningful when
/// there is one).
pub open spec fn first_edge_between(edges: Seq<Edge>, from: u128, to: u128) -> int {
    choose|k: int| edge_from_to(edges, from, to, k)
}

/// Why reconnecting the first edge from `old_from` to `old_to` to the ends
/// `new_from` and `new_to` is refused, if it is: there is no such edge, it
/// is a `contains` edge, or a new end is not indexed.
pub open spec fn reconnect_refusal(nodes: Seq<NodeView>, edges: Seq<Edge>, old_from: u128, old_to: u128, new_from: u128, new_to: u128) -> Option<GraphError> {
    if !exists|k: int| edge_from_to(edges, old_from, old_to, k) {
        Some(GraphError::EdgeNotFound)
    } else if edges[first_edge_between(edges, old_from, old_to)].contains {
        Some(GraphError::ContainsEdge)
    } else if !has_uuid(nodes, new_from) || !has_uuid(nodes, new_to) {
        Some(GraphError::EdgeNotFound)
    } else {
        None
    }
}

proof fn lemma_first_edge_unique(edges: Seq<Edge>, from: u128, to: u128, k: int)
    requires
        edge_from_to(edges, from, to, k),
    ensures
        first_edge_between(edges, from, to) == k,
{
    let c = first_edge_between(edges, from, to);
    assert(edge_from_to(edges, from, to, c));
    if c < k {
        assert(!(edges[c].source == from && edges[c].target == to));
    } else if k < c {
        assert(!(edges[k].source == from && edges[k].target == to));
    }
}

impl GraphIndex {
    /// The edges that touch the node, in index order.
    pub fn edges_of(&self, uuid: u128) -> (res: Vec<Edge>)
        ensures
            res@ == self.edges_view().filter(|e: Edge| touches(e, uuid)),
    {
        let mut out: Vec<Edge> = Vec::new();
        let mut k: usize = 0;
        while k < self.edges.len()
            invariant
                k <= self.edges@.len(),
                out@ == self.edges@.subrange(0, k as int).filter(|e: Edge| touches(e, uuid)),
            decreases self.edges@.len() - k,
        {
            proof { lemma_filter_step(self.edges@, k as int, |e: Edge| touches(e, uuid)); }
            if self.edges[k].source == uuid || self.edges[k].target == uuid {
                out.push(self.edges[k]);
            }
            k = k + 1;
        }
        assert(self.edges@.subrange(0, self.edges@.len() as int) =~= self.edges@);
        out
    }

    /// The edges whose two ends are among `ids`, in index order.
    pub fn edges_between(&self, ids: &Vec<u128>) -> (res: Vec<Edge>)
        ensures
            res@ == self.edges_view().filter(|e: Edge| joins_within(e, ids@)),
    {
        let mut out: Vec<Edge> = Vec::new();
        let mut k: usize = 0;
        while k < self.edges.len()
            invariant
                k <= self.edges@.len(),
                out@ == self.edges@.subrange(0, k as int).filter(|e: Edge| joins_within(e, ids@)),
            decreases self.edges@.len() - k,
        {
            proof { lemma_filter_step(self.edges@, k as int, |e: Edge| joins_within(e, ids@)); }
            if contains_id(ids, self.edges[k].source) && contains_id(ids, self.edges[k].target) {
                out.push(self.edges[k]);
            }
            k = k + 1;
        }
        assert(self.edges@.subrange(0, self.edges@.len() as int) =~= self.edges@);
        out
    }

    /// Adds an edge whose two ends are indexed; tells whether it was added.
    pub fn insert_edge(&mut self, edge: Edge) -> (added: bool)
        requires
            old(self).wf(),
        ensures
            final(self).wf(),
            added == (has_uuid(old(self).nodes_view(), edge.source) && has_uuid(old(self).nodes_view(), edge.target)),
            added ==> final(self).edges_view() == old(self).edges_view().push(edge),
            !added ==> final(self).edges_view() == old(self).edges_view(),
            final(self).nodes_view() == old(self).nodes_view(),
    {
        if self.find_uuid(edge.source).is_none() || self.find_uuid(edge.target).is_none() {
            return false;
        }
        let ghost before = self.edges@;
        self.edges.push(edge);
        proof {
            assert forall|k: int| 0 <= k < self.edges_view().len() implies has_uuid(self.nodes_view(), #[trigger] self.edges_view()[k].source)
                && has_uuid(self.nodes_view(), self.edges_view()[k].target) by {
                if k < before.len() {
                    assert(self.edges_view()[k] == old(self).edges_view()[k]);
                }
            }
        }
        true
    }

    /// Whether some `contains` edge has its ends among `pairs`.
    fn names_contains_edge(&self, pairs: &Vec<(u128, u128)>) -> (res: bool)
        ensures
            res == exists|k: int| 0 <= k < self.edges_view().len() && #[trigger] named_by(self.edges_view()[k], pairs@)
                && self.edges_view()[k].contains,
    {
        let mut k: usize = 0;
        while k < self.edges.len()
            invariant
                k <= self.edges@.len(),
                forall|j: int| 0 <= j < k ==> !(#[trigger] named_by(self.edges@[j], pairs@) && self.edges@[j].contains),
            decreases self.edges@.len() - k,
        {
            let e = self.edges[k];
            if e.contains && contains_pair(pairs, (e.source, e.target)) {
                assert(named_by(self.edges_view()[k as int], pairs@));
                return true;
            }
            k = k + 1;
        }
        false
    }

    /// Deletes the edges whose ends are one of `pairs`. Refused, changing
    /// nothing, when one of them is a `contains` edge.
    pub fn delete_edges(&mut self, pairs: &Vec<(u128, u128)>) -> (res: Result<(), GraphError>)
        requires
            old(self).wf(),
        ensures
            final(self).wf(),
            final(self).nodes_view() == old(self).nodes_view(),
            res is Err <==> exists|k: int| 0 <= k < old(self).edges_view().len() && #[trigger] named_by(old(self).edges_view()[k], pairs@)
                && old(self).edges_view()[k].contains,
            res is Err ==> res == Err::<(), GraphError>(GraphError::ContainsEdge) && final(self).edges_view() == old(self).edges_view(),
            res is Ok ==> final(self).edges_view() == old(self).edges_view().filter(|e: Edge| !named_by(e, pairs@)),
    {
        if self.names_contains_edge(pairs) {
            return Err(GraphError::ContainsEdge);
        }
        let kept = self.edges_not_named(pairs);
        let ghost before = self.edges@;
        self.edges = kept;
        proof {
            assert forall|q: int| 0 <= q < self.edges_view().len() implies has_uuid(self.nodes_view(), #[trigger] self.edges_view()[q].source)
                && has_uuid(self.nodes_view(), self.edges_view()[q].target) by {
                let e = self.edges_view()[q];
                assert(self.edges_view().contains(e));
                before.lemma_filter_contains_rev(|e: Edge| !named_by(e, pairs@), e);
                let w = choose|w: int| 0 <= w < before.len() && before[w] == e;
                assert(old(self).edges_view()[w] == e);
            }
        }
        Ok(())
    }

    fn edges_not_named(&self, pairs: &Vec<(u128, u128)>) -> (res: Vec<Edge>)
        ensures
            res@ == self.edges_view().filter(|e: Edge| !named_by(e, pairs@)),
    {
        let mut kept: Vec<Edge> = Vec::new();
        let mut j: usize = 0;
        while j < self.edges.len()
            invariant
                j <= self.edges@.len(),
                kept@ == self.edges@.subrange(0, j as int).filter(|e: Edge| !named_by(e, pairs@)),
            decreases self.edges@.len() - j,
        {
            proof { lemma_filter_step(self.edges@, j as int, |e: Edge| !named_by(e, pairs@)); }
            let e = self.edges[j];
            if !contains_pair(pairs, (e.source, e.target)) {
                kept.push(e);
            }
            j = j + 1;
        }
        assert(self.edges@.subrange(0, self.edges@.len() as int) =~= self.edges@);
        kept
    }

    /// Position of the first edge from `from` to `to`.
    fn find_edge(&self, from: u128, to: u128) -> (res: Option<usize>)
        ensures
            match res {
                Some(k) => k < self.edges_view().len() && #[trigger] self.edges_view()[k as int].source == from
                    && self.edges_view()[k as int].target == to
                    && forall|j: int| 0 <= j < k ==> !(#[trigger] self.edges_view()[j].source == from && self.edges_view()[j].target == to),
                None => forall|j: int| 0 <= j < self.edges_view().len() ==> !(#[trigger] self.edges_view()[j].source == from
                    && self.edges_view()[j].target == to),
            },
    {
        let mut k: usize = 0;
        while k < self.edges.len()
            invariant
                k <= self.edges@.len(),
                forall|j: int| 0 <= j < k ==> !(#[trigger] self.edges@[j].source == from && self.edges@[j].target == to),
            decreases self.edges@.len() - k,
        {
            if self.edges[k].source == from && self.edges[k].target == to {
                return Some(k);
            }
            k = k + 1;
        }
        None
    }

    /// The first edge from `from` to `to`, if there is one.
    pub fn edge_between(&self, from: u128, to: u128) -> (res: Option<Edge>)
        ensures
            match res {
                Some(e) => (exists|k: int| edge_from_to(self.edges_view(), from, to, k))
                    && e == self.edges_view()[first_edge_between(self.edges_view(), from, to)],
                None => !exists|k: int| edge_from_to(self.edges_view(), from, to, k),
            },
    {
        match self.find_edge(from, to) {
            Some(k) => {
                proof {
                    assert(edge_from_to(self.edges_view(), from, to, k as int));
                    lemma_first_edge_unique(self.edges_view(), from, to, k as int);
                }
                Some(self.edges[k])
            },
            None => {
                proof {
                    if exists|k: int| edge_from_to(self.edges_view(), from, to, k) {
                        let k = choose|k: int| edge_from_to(self.edges_view(), from, to, k);
                        assert(self.edges_view()[k].source == from && self.edges_view()[k].target == to);
                    }
                }
                None
            },
        }
    }

    /// Gives the first edge from `old_from` to `old_to` the ends `new_from`
    /// and `new_to`. Refused, changing nothing, when there is no such edge,
    /// when it is a `contains` edge, or when a new end is not indexed.
    pub fn reconnect_edge(&mut self, old_from: u128, old_to: u128, new_from: u128, new_to: u128) -> (res: Result<Edge, GraphError>)
        requires
            old(self).wf(),
        ensures
            final(self).wf(),
            final(self).nodes_view() == old(self).nodes_view(),
            match reconnect_refusal(old(self).nodes_view(), old(self).edges_view(), old_from, old_to, new_from, new_to) {
                Some(e) => res == Err::<Edge, GraphError>(e) && final(self).edges_view() == old(self).edges_view(),
                None => res == Ok::<Edge, GraphError>(Edge { source: new_from, target: new_to, contains: false })
                    && final(self).edges_view() == old(self).edges_view().update(
                        first_edge_between(old(self).edges_view(), old_from, old_to),
                        Edge { source: new_from, target: new_to, contains: false }),
            },
    {
        let k = match self.find_edge(old_from, old_to) {
            Some(k) => k,
            None => { return Err(GraphError::EdgeNotFound); }
        };
        proof {
            assert(edge_from_to(self.edges_view(), old_from, old_to, k as int));
            lemma_first_edge_unique(self.edges_view(), old_from, old_to, k as int);
        }
        if self.edges[k].contains {
            return Err(GraphError::ContainsEdge);
        }
        let from_idx = self.find_uuid(new_from);
        let to_idx = self.find_uuid(new_to);
        if from_idx.is_none() || to_idx.is_none() {
            return Err(GraphError::EdgeNotFound);
        }
        let edge = Edge { source: new_from, target: new_to, contains: false };
        proof {
            let fi = from_idx.unwrap() as int;
            let ti = to_idx.unwrap() as int;
            assert(self.nodes_view()[fi].uuid == new_from);
            assert(self.nodes_view()[ti].uuid == new_to);
        }
        self.edges.set(k, edge);
        proof {
            assert forall|q: int| 0 <= q < self.edges_view().len() implies has_uuid(self.nodes_view(), #[trigger] self.edges_view()[q].source)
                && has_uuid(self.nodes_view(), self.edges_view()[q].target) by {
                if q != k {
                    assert(self.edges_view()[q] == old(self).edges_view()[q]);
                }
            }
        }
        Ok(edge)
    }

    /// Removes the node with the identifier and every edge that touches it.
    pub fn delete_node_and_edges(&mut self, uuid: u128)
        requires
            old(self).wf(),
        ensures
            final(self).wf(),
            final(self).nodes_view() == nodes_apart(old(self).nodes_view(), uuid),
            final(self).edges_view() == edges_apart(old(self).edges_view(), uuid),
    {
        let ids: Vec<u128> = vec![uuid];
        self.remove_nodes(&ids);
        proof {
            assert(ids@ =~= seq![uuid]);
            assert forall|x: u128| ids@.contains(x) <==> x == uuid by {
                if x == uuid {
                    assert(ids@[0] == x);
                }
            }
            let f = |n: NodeView| kept_node(n, ids@);
            let g = |n: NodeView| n.uuid != uuid;
            assert(f =~= g);
            let fe = |e: Edge| kept_edge(e, ids@);
            let ge = |e: Edge| !touches(e, uuid);
            assert(fe =~= ge);
        }
    }

    /// Removes the nodes whose identifiers are in `ids` and every edge that
    /// touches one of them.
    pub fn remove_nodes(&mut self, ids: &Vec<u128>)
        requires
            old(self).wf(),
        ensures
            final(self).wf(),
            final(self).nodes_view() == nodes_without(old(self).nodes_view(), ids@),
            final(self).edges_view() == edges_without(old(self).edges_view(), ids@),
    {
        let mut kept_nodes: Vec<DataNode> = Vec::new();
        let mut i: usize = 0;
        while i < self.nodes.len()
            invariant
                i <= self.nodes@.len(),
                kept_nodes@.map_values(|n: DataNode| n@) == self.nodes_view().subrange(0, i as int).filter(|n: NodeView| kept_node(n, ids@)),
            decreases self.nodes@.len() - i,
        {
            proof { lemma_filter_step(self.nodes_view(), i as int, |n: NodeView| kept_node(n, ids@)); }
            if !contains_id(ids, self.nodes[i].uuid) {
                let ghost before = kept_nodes@;
                kept_nodes.push(self.nodes[i].duplicate());
                assert(kept_nodes@.map_values(|n: DataNode| n@) =~= before.map_values(|n: DataNode| n@).push(self.nodes_view()[i as int]));
            }
            i = i + 1;
        }
        assert(self.nodes_view().subrange(0, self.nodes@.len() as int) =~= self.nodes_view());
        let mut kept_edges: Vec<Edge> = Vec::new();
        let mut k: usize = 0;
        while k < self.edges.len()
            invariant
                k <= self.edges@.len(),
                kept_edges@ == self.edges@.subrange(0, k as int).filter(|e: Edge| kept_edge(e, ids@)),
            decreases self.edges@.len() - k,
        {
            proof { lemma_filter_step(self.edges@, k as int, |e: Edge| kept_edge(e, ids@)); }
            if !contains_id(ids, self.edges[k].source) && !contains_id(ids, self.edges[k].target) {
                kept_edges.push(self.edges[k]);
            }
            k = k + 1;
        }
        assert(self.edges@.subrange(0, self.edges@.len() as int) =~= self.edges@);
        let ghost old_nodes = self.nodes_view();
        let ghost old_edges = self.edges_view();
        self.nodes = kept_nodes;
        self.edges = kept_edges;
        proof {
            let nv = self.nodes_view();
            let ev = self.edges_view();
            let f = |n: NodeView| kept_node(n, ids@);
            // Survivors of the filter come from the old list in order.
            assert forall|x: int, y: int| 0 <= x < y < nv.len() implies #[trigger] nv[x].uuid != #[trigger] nv[y].uuid by {
                lemma_filter_order(old_nodes, f, x, y);
                let (a, b) = choose|a: int, b: int| 0 <= a < b < old_nodes.len() && old_nodes[a] == nv[x] && old_nodes[b] == nv[y];
                assert(old(self).nodes_view()[a].uuid != old(self).nodes_view()[b].uuid);
            }
            assert forall|q: int| 0 <= q < ev.len() implies has_uuid(nv, #[trigger] ev[q].source) && has_uuid(nv, ev[q].target) by {
                let e = ev[q];
                assert(ev.contains(e));
                old_edges.lemma_filter_contains_rev(|e: Edge| kept_edge(e, ids@), e);
                old_edges.lemma_filter_pred(|e: Edge| kept_edge(e, ids@), q);
                assert(old_edges.contains(e));
                let w = choose|w: int| 0 <= w < old_edges.len() && old_edges[w] == e;
                assert(has_uuid(old_nodes, old(self).edges_view()[w].source));
                assert(has_uuid(old_nodes, old(self).edges_view()[w].target));
                let a = choose|a: int| 0 <= a < old_nodes.len() && #[trigger] old_nodes[a].uuid == e.source;
                let b = choose|b: int| 0 <= b < old_nodes.len() && #[trigger] old_nodes[b].uuid == e.target;
                assert(f(old_nodes[a]));
                assert(f(old_nodes[b]));
                old_nodes.lemma_filter_contains(f, a);
                old_nodes.lemma_filter_contains(f, b);
                assert(nv.contains(old_nodes[a]));
                assert(nv.contains(old_nodes[b]));
                let a2 = choose|a2: int| 0 <= a2 < nv.len() && nv[a2] == old_nodes[a];
                let b2 = choose|b2: int| 0 <= b2 < nv.len() && nv[b2] == old_nodes[b];
            }
        }
    }
}

/// The filter keeps the relative order of the elements it keeps.
pub proof fn lemma_filter_order<A>(s: Seq<A>, p: spec_fn(A) -> bool, x: int, y: int)
    requires
        0 <= x < y < s.filter(p).len(),
    ensures
        exists|a: int, b: int| 0 <= a < b < s.len() && s[a] == s.filter(p)[x] && s[b] == s.filter(p)[y],
    decreases s.len(),
{
    reveal(Seq::filter);
    let f = s.filter(p);
    let init = s.drop_last();
    let fi = init.filter(p);
    init.lemma_filter_len(p);
    if p(s.last()) {
        assert(f == fi.push(s.last()));
        assert(f[x] == fi[x]);
        if y == f.len() - 1 {
            assert(fi.contains(fi[x]));
            init.lemma_filter_contains_rev(p, fi[x]);
            let a = choose|a: int| 0 <= a < init.len() && init[a] == fi[x];
            assert(s[a] == init[a]);
            assert(s[s.len() - 1] == f[y]);
            assert(0 <= a < s.len() - 1 < s.len() && s[a] == f[x] && s[s.len() - 1] == f[y]);
        } else {
            assert(f[y] == fi[y]);
            lemma_filter_order(init, p, x, y);
            let (a, b) = choose|a: int, b: int| 0 <= a < b < init.len() && init[a] == fi[x] && init[b] == fi[y];
            assert(s[a] == init[a] && s[b] == init[b]);
            assert(0 <= a < b < s.len() && s[a] == f[x] && s[b] == f[y]);
        }
    } else {
        assert(f == fi);
        lemma_filter_order(init, p, x, y);
        let (a, b) = choose|a: int, b: int| 0 <= a < b < init.len() && init[a] == fi[x] && init[b] == fi[y];
        assert(s[a] == init[a] && s[b] == init[b]);
        assert(0 <= a < b < s.len() && s[a] == f[x] && s[b] == f[y]);
    }
}

/// Moving a subtree from `source` to `target` and back puts every path
/// where it was, provided that no path outside the subtree lay under
/// `target` before the move.
pub proof fn lemma_move_back_path(p: Seq<char>, source: Seq<char>, target: Seq<char>)
    requires
        in_subtree(p, source) || !in_subtree(p, target),
    ensures
        moved_path(moved_path(p, source, target), target, source) == p,
{
    if p == source {
    } else if below(p, source) {
        lemma_relocate_round_trip(p, source, target);
        let q = relocated_alias(p, source, target);
        assert(q != target) by {
            assert(q.len() > target.len());
        }
    }
}

/// Moving the subtree at `source` to `target` and then the subtree at
/// `target` back to `source` restores every node of the index, provided
/// that no indexed path outside the first subtree lay under `target`.
pub proof fn lemma_move_round_trip(nodes: Seq<NodeView>, source: Seq<char>, target: Seq<char>)
    requires
        forall|i: int| 0 <= i < nodes.len() ==> in_subtree(#[trigger] nodes[i].path, source) || !in_subtree(nodes[i].path, target),
    ensures
        nodes.map_values(|n: NodeView| moved_node(n, source, target)).map_values(|n: NodeView| moved_node(n, target, source)) == nodes,
{
    let there = nodes.map_values(|n: NodeView| moved_node(n, source, target));
    let back = there.map_values(|n: NodeView| moved_node(n, target, source));
    assert forall|i: int| 0 <= i < nodes.len() implies #[trigger] back[i] == nodes[i] by {
        lemma_move_back_path(nodes[i].path, source, target);
    }
    assert(back =~= nodes);
}

/// After the subtree at `source` moves to `target`, the node found at
/// `target` is the one that was at `source`, with its identifier and type,
/// and every node outside the subtree is as it was (paths being unique
/// before and after, as in a well-formed index).
pub proof fn lemma_moved_node_found(nodes0: Seq<NodeView>, edges0: Seq<Edge>, nodes: Seq<NodeView>, edges: Seq<Edge>, source: Seq<char>, target: Seq<char>)
    requires
        forall|i: int, j: int| 0 <= i < j < nodes0.len() ==> #[trigger] nodes0[i].path != #[trigger] nodes0[j].path,
        forall|i: int, j: int| 0 <= i < j < nodes.len() ==> #[trigger] nodes[i].path != #[trigger] nodes[j].path,
        has_path(nodes0, source),
        subtree_moved(nodes0, edges0, nodes, edges, source, target),
    ensures
        has_path(nodes, target),
        node_at_path(nodes, target) == (NodeView { path: target, ..node_at_path(nodes0, source) }),
        forall|i: int| 0 <= i < nodes0.len() && !in_subtree(nodes0[i].path, source) ==> #[trigger] nodes[i] == nodes0[i],
{
    let i = choose|i: int| 0 <= i < nodes0.len() && #[trigger] nodes0[i].path == source;
    lemma_node_at_path(nodes0, source, nodes0[i]);
    assert(nodes[i] == moved_node(nodes0[i], source, target));
    assert(nodes[i].path == target);
    lemma_node_at_path(nodes, target, nodes[i]);
    assert forall|j: int| 0 <= j < nodes0.len() && !in_subtree(nodes0[j].path, source) implies #[trigger] nodes[j] == nodes0[j] by {
        assert(nodes[j] == moved_node(nodes0[j], source, target));
    }
}

/// After a node is added to the index, the node found under its
/// identifier is that node.
pub proof fn lemma_added_node_is_found(before: Seq<NodeView>, node: NodeView, i: int)
    requires
        !has_uuid(before, node.uuid),
        node_at_uuid(before.push(node), node.uuid, i),
    ensures
        before.push(node)[i] == node,
{
    if i < before.len() {
        assert(before.push(node)[i] == before[i]);
    }
}

/// After a node whose identifier and path are both new is offered to the
/// index, a lookup by its path finds it.
pub proof fn lemma_added_node_found_by_path(before: Seq<NodeView>, node: NodeView)
    requires
        !has_uuid(before, node.uuid),
        !has_path(before, node.path),
    ensures
        has_path(with_node(before, node), node.path),
        node_at_path(with_node(before, node), node.path) == node,
{
    let after = before.push(node);
    assert(with_node(before, node) == after);
    let i = before.len() as int;
    assert forall|j: int| 0 <= j < i implies #[trigger] after[j].path != node.path by {
        assert(after[j] == before[j]);
    }
    assert(first_at_path(after, node.path, i));
    lemma_first_at_path(after, node.path, i);
}

/// After a node and its edges are removed, no node has its identifier and
/// no edge touches it.
pub proof fn lemma_removed_node_is_gone(nodes: Seq<NodeView>, edges: Seq<Edge>, uuid: u128)
    ensures
        !has_uuid(nodes_apart(nodes, uuid), uuid),
        forall|k: int| 0 <= k < edges_apart(edges, uuid).len() ==> !touches(#[trigger] edges_apart(edges, uuid)[k], uuid),
{
    let f = |n: NodeView| n.uuid != uuid;
    let kept = nodes.filter(f);
    assert forall|i: int| 0 <= i < kept.len() implies #[trigger] kept[i].uuid != uuid by {
        nodes.lemma_filter_pred(f, i);
    }
    let g = |e: Edge| !touches(e, uuid);
    assert forall|k: int| 0 <= k < edges.filter(g).len() implies !touches(#[trigger] edges.filter(g)[k], uuid) by {
        edges.lemma_filter_pred(g, k);
    }
}

} // verus!
