use vstd::prelude::*;
use crate::context_view::{EdgeEnds, choose_context_edges, keeps_direct, keeps_extra, picks_exactly};
use crate::graph::{
    DataNode, Edge, NodeView, edge_from_to, first_edge_between, has_path, has_uuid, joins_within, node_at_path, node_at_uuid, touches,
};
use crate::node_path::{NodePath, parent_alias, root_alias};
use crate::service::{KartaService, NodeHandle, ServiceError, indexed_node, lemma_indexed_node, node_option};
use crate::text::same_text;
use crate::write_ops::node_with_uuid;

verus! {

/// What the filesystem holds for a context, read before it is opened.
pub struct ContextDiskFacts {
    /// The focal path exists on disk.
    pub focal_on_disk: bool,
    /// The entry on disk at the focal path, if any.
    pub focal_entry: Option<DataNode>,
    /// The entry on disk at the parent of the focal path, if any.
    pub parent_entry: Option<DataNode>,
    /// The entries on disk inside the focal directory (without `.karta`);
    /// empty when the focal path is not a directory.
    pub children: Vec<DataNode>,
}

/// An opened context: its nodes, the edges among them, the focal node and
/// the parent of the focal node among the nodes, if there.
pub struct ContextView {
    pub nodes: Vec<DataNode>,
    pub edges: Vec<Edge>,
    pub focal: u128,
    pub parent: Option<u128>,
}

/// How a context is opened: the root; a virtual node (indexed but not on
/// disk); anything else as a node on disk.
#[derive(Clone, Copy, PartialEq, Eq, Structural, Debug)]
pub enum ContextKind {
    Root,
    Virtual,
    Physical,
}

/// How the context at `path` is opened.
pub open spec fn context_kind(nodes: Seq<NodeView>, path: Seq<char>, focal_on_disk: bool) -> ContextKind {
    if path == root_alias() {
        ContextKind::Root
    } else if has_path(nodes, path) && !focal_on_disk {
        ContextKind::Virtual
    } else {
        ContextKind::Physical
    }
}

/// The views of a list of nodes.
pub open spec fn views(s: Seq<DataNode>) -> Seq<NodeView> {
    s.map_values(|d: DataNode| d@)
}

/// The identifiers of a list of nodes.
pub open spec fn uuids(s: Seq<NodeView>) -> Seq<u128> {
    s.map_values(|n: NodeView| n.uuid)
}

/// The ends of a list of edges.
pub open spec fn edge_ends(s: Seq<Edge>) -> Seq<EdgeEnds> {
    s.map_values(|e: Edge| (e.source, e.target))
}

/// The node a path opens: the indexed one, else the entry on disk.
pub open spec fn open_at(nodes: Seq<NodeView>, path: Seq<char>, entry: Option<NodeView>) -> Option<NodeView> {
    if has_path(nodes, path) {
        Some(node_at_path(nodes, path))
    } else {
        entry
    }
}

/// The end of `e` other than `u`.
pub open spec fn other_end(e: Edge, u: u128) -> u128 {
    if e.source == u {
        e.target
    } else {
        e.source
    }
}

/// The edges that touch `u`, in index order.
pub open spec fn links(edges: Seq<Edge>, u: u128) -> Seq<Edge> {
    edges.filter(|e: Edge| touches(e, u))
}

/// The nodes at the other end of the edges that touch `u`.
pub open spec fn linked_nodes(nodes: Seq<NodeView>, edges: Seq<Edge>, u: u128) -> Seq<NodeView> {
    links(edges, u).map_values(|e: Edge| node_with_uuid(nodes, other_end(e, u)))
}

/// The edge that joins a parent to the focal node: the first indexed edge
/// between them, else a new `contains` edge.
pub open spec fn parent_link(edges: Seq<Edge>, from: u128, to: u128) -> Edge {
    if exists|k: int| edge_from_to(edges, from, to, k) {
        edges[first_edge_between(edges, from, to)]
    } else {
        Edge { source: from, target: to, contains: true }
    }
}

/// A child found on disk: the indexed node at its path, else the entry.
pub open spec fn child_node(nodes: Seq<NodeView>, c: NodeView) -> NodeView {
    if has_path(nodes, c.path) {
        node_at_path(nodes, c.path)
    } else {
        c
    }
}

/// The parent part of a context for focal node `f` at `path`: the node at
/// the parent path and the edge to `f`. For a context on disk the parent
/// must open (indexed or on disk, see `open_at`), else the context is not
/// found; otherwise a parent that is not indexed is left out.
pub open spec fn parent_part(nodes: Seq<NodeView>, edges: Seq<Edge>, path: Seq<char>, f: NodeView, entry: Option<NodeView>, physical: bool) -> Option<(Seq<NodeView>, Seq<Edge>)> {
    match parent_alias(path) {
        None => Some((Seq::empty(), Seq::empty())),
        Some(pp) => {
            let p = if physical { open_at(nodes, pp, entry) } else { open_at(nodes, pp, None) };
            match p {
                Some(pn) => Some((seq![pn], seq![parent_link(edges, pn.uuid, f.uuid)])),
                None => if physical { None } else { Some((Seq::empty(), Seq::empty())) },
            }
        },
    }
}

/// The nodes and direct edges collected for the context at `path`, before
/// saved nodes are added and edges are chosen: the focal node, its parent
/// with the edge to it, for a context on disk each child on disk with a
/// `contains` edge from the focal node, and, when `path` is indexed, each
/// node joined to the focal node by an indexed edge with that edge. `None`
/// when the focal node (or, on disk, its parent) cannot be opened.
pub open spec fn context_parts(nodes: Seq<NodeView>, edges: Seq<Edge>, path: Seq<char>, facts: ContextDiskFacts) -> Option<(Seq<NodeView>, Seq<Edge>)> {
    let physical = context_kind(nodes, path, facts.focal_on_disk) == ContextKind::Physical;
    let focal = if physical { open_at(nodes, path, node_option(facts.focal_entry)) } else { open_at(nodes, path, None) };
    match focal {
        None => None,
        Some(f) => match parent_part(nodes, edges, path, f, node_option(facts.parent_entry), physical) {
            None => None,
            Some((pn, pe)) => {
                let kids: Seq<NodeView> = if physical {
                    facts.children@.map_values(|c: DataNode| child_node(nodes, c@))
                } else {
                    Seq::empty()
                };
                let ghost kid_edges = kids.map_values(|k: NodeView| Edge { source: f.uuid, target: k.uuid, contains: true });
                let ln: Seq<NodeView> = if has_path(nodes, path) { linked_nodes(nodes, edges, f.uuid) } else { Seq::empty() };
                let le: Seq<Edge> = if has_path(nodes, path) { links(edges, f.uuid) } else { Seq::empty() };
                Some((seq![f] + pn + kids + ln, pe + kid_edges + le))
            },
        },
    }
}

/// The indexed nodes of a saved context that are not collected yet.
pub open spec fn saved_extra(nodes: Seq<NodeView>, present: Seq<u128>, saved: Seq<u128>) -> Seq<NodeView> {
    saved.filter(keep_saved(nodes, present)).map_values(saved_node(nodes))
}

/// A saved identifier is added when it is indexed and not present yet.
pub open spec fn keep_saved(nodes: Seq<NodeView>, present: Seq<u128>) -> spec_fn(u128) -> bool {
    |id: u128| !present.contains(id) && has_uuid(nodes, id)
}

/// The indexed node with a saved identifier.
pub open spec fn saved_node(nodes: Seq<NodeView>) -> spec_fn(u128) -> NodeView {
    |id: u128| node_with_uuid(nodes, id)
}

/// The nodes with the first of each identifier kept, in order.
pub open spec fn dedup_ids(s: Seq<NodeView>) -> Seq<NodeView>
    decreases s.len(),
{
    if s.len() == 0 {
        Seq::empty()
    } else {
        let r = dedup_ids(s.drop_last());
        if uuids(r).contains(s.last().uuid) {
            r
        } else {
            r.push(s.last())
        }
    }
}

/// The identifier of the first node at `path` among `s`, if any.
pub open spec fn first_id_at(s: Seq<NodeView>, path: Option<Seq<char>>) -> Option<u128> {
    match path {
        Some(p) => if has_path(s, p) { Some(node_at_path(s, p).uuid) } else { None },
        None => None,
    }
}

/// The identifiers in `s` are distinct.
pub open spec fn distinct_ids(s: Seq<NodeView>) -> bool {
    forall|i: int, j: int| 0 <= i < j < s.len() ==> #[trigger] s[i].uuid != #[trigger] s[j].uuid
}

fn duplicate_option(o: &Option<DataNode>) -> (res: Option<DataNode>)
    ensures
        node_option(res) == node_option(*o),
{
    match o {
        Some(d) => Some(d.duplicate()),
        None => None,
    }
}

impl KartaService {
    /// The node a path opens in a context: on disk, as `open_node` does it;
    /// otherwise only an indexed node.
    fn open_in_context(&self, path: &NodePath, entry: &Option<DataNode>, physical: bool) -> (res: Option<DataNode>)
        requires
            self.wf(),
        ensures
            node_option(res) == if physical { open_at(self.graph().nodes_view(), path@, node_option(*entry)) } else {
                open_at(self.graph().nodes_view(), path@, None)
            },
    {
        if physical {
            self.open_node(&NodeHandle::Path(path.duplicate()), duplicate_option(entry))
        } else {
            self.data().open_by_path(path)
        }
    }

    /// The nodes and direct edges collected for a context; see
    /// `context_parts`.
    fn collect_context_parts(&self, path: &NodePath, facts: &ContextDiskFacts) -> (res: Result<(Vec<DataNode>, Vec<Edge>), ServiceError>)
        requires
            self.wf(),
        ensures
            match context_parts(self.graph().nodes_view(), self.graph().edges_view(), path@, *facts) {
                None => res == Err::<(Vec<DataNode>, Vec<Edge>), ServiceError>(ServiceError::NotFound),
                Some((c, d)) => res is Ok && views(res.unwrap().0@) == c && res.unwrap().1@ == d,
            },
    {
        let ghost nodes = self.graph().nodes_view();
        let ghost edges = self.graph().edges_view();
        let indexed = self.data().is_indexed(path);
        let physical = !path.is_root() && !(indexed && !facts.focal_on_disk);
        assert(physical == (context_kind(nodes, path@, facts.focal_on_disk) == ContextKind::Physical));
        let f = match self.open_in_context(path, &facts.focal_entry, physical) {
            Some(f) => f,
            None => {
                return Err(ServiceError::NotFound);
            },
        };
        let mut cands: Vec<DataNode> = Vec::new();
        let mut direct: Vec<Edge> = Vec::new();
        cands.push(f.duplicate());
        let ghost pn: Seq<NodeView>;
        let ghost pe: Seq<Edge>;
        match path.parent() {
            None => {
                proof { pn = Seq::empty(); pe = Seq::empty(); }
            },
            Some(pp) => {
                match self.open_in_context(&pp, &facts.parent_entry, physical) {
                    None => {
                        if physical {
                            return Err(ServiceError::NotFound);
                        }
                        proof { pn = Seq::empty(); pe = Seq::empty(); }
                    },
                    Some(p) => {
                        let link = match self.data().edge_between(p.uuid, f.uuid) {
                            Some(e) => e,
                            None => Edge { source: p.uuid, target: f.uuid, contains: true },
                        };
                        proof { pn = seq![p@]; pe = seq![link]; }
                        cands.push(p);
                        direct.push(link);
                    },
                }
            },
        }
        assert(parent_part(nodes, edges, path@, f@, node_option(facts.parent_entry), physical) == Some((pn, pe)));
        assert(views(cands@) =~= seq![f@] + pn);
        assert(direct@ =~= pe);
        // Children on disk.
        let ghost kids: Seq<NodeView> = if physical {
            facts.children@.map_values(|c: DataNode| child_node(nodes, c@))
        } else {
            Seq::empty()
        };
        let ghost base_c = views(cands@);
        let ghost base_d = direct@;
        if physical {
            let mut i: usize = 0;
            while i < facts.children.len()
                invariant
                    self.wf(),
                    nodes == self.graph().nodes_view(),
                    physical,
                    kids == facts.children@.map_values(|c: DataNode| child_node(nodes, c@)),
                    i <= facts.children@.len(),
                    views(cands@) == base_c + kids.subrange(0, i as int),
                    direct@ == base_d + kids.subrange(0, i as int).map_values(|k: NodeView| Edge { source: f@.uuid, target: k.uuid, contains: true }),
                decreases facts.children@.len() - i,
            {
                let c = &facts.children[i];
                let k = match self.data().open_by_path(&c.path) {
                    Some(n) => n,
                    None => c.duplicate(),
                };
                assert(k@ == kids[i as int]);
                let ghost bc = views(cands@);
                let ghost bd = direct@;
                direct.push(Edge { source: f.uuid, target: k.uuid, contains: true });
                cands.push(k);
                assert(views(cands@) =~= bc.push(kids[i as int]));
                assert(kids.subrange(0, i + 1) =~= kids.subrange(0, i as int).push(kids[i as int]));
                assert(direct@ =~= bd.push(Edge { source: f@.uuid, target: kids[i as int].uuid, contains: true }));
                i = i + 1;
            }
            assert(kids.subrange(0, facts.children@.len() as int) =~= kids);
        } else {
            assert(kids =~= Seq::<NodeView>::empty());
        }
        let ghost kid_edges = kids.map_values(|k: NodeView| Edge { source: f@.uuid, target: k.uuid, contains: true });
        assert(views(cands@) =~= base_c + kids);
        assert(direct@ =~= base_d + kid_edges);
        // Indexed edges of the focal node.
        let ghost mid_c = views(cands@);
        let ghost mid_d = direct@;
        if indexed {
            let es = self.data().edges_of(f.uuid);
            let ghost ln = linked_nodes(nodes, edges, f@.uuid);
            let mut j: usize = 0;
            while j < es.len()
                invariant
                    self.wf(),
                    nodes == self.graph().nodes_view(),
                    edges == self.graph().edges_view(),
                    es@ == links(edges, f@.uuid),
                    ln == linked_nodes(nodes, edges, f@.uuid),
                    j <= es@.len(),
                    views(cands@) == mid_c + ln.subrange(0, j as int),
                    direct@ == mid_d + es@.subrange(0, j as int),
                decreases es@.len() - j,
            {
                let e = es[j];
                let other = if e.source == f.uuid { e.target } else { e.source };
                proof {
                    let g = |x: Edge| touches(x, f@.uuid);
                    edges.lemma_filter_pred(g, j as int);
                    assert(edges.filter(g).contains(e));
                    edges.lemma_filter_contains_rev(g, e);
                    let w = choose|w: int| 0 <= w < edges.len() && edges[w] == e;
                    assert(has_uuid(nodes, edges[w].source) && has_uuid(nodes, edges[w].target));
                }
                let n = match self.data().open_by_uuid(other) {
                    Some(n) => n,
                    None => {
                        assert(false);
                        return Err(ServiceError::NotFound);
                    },
                };
                proof {
                    lemma_indexed_node(nodes, NodeHandle::Uuid(other), n@);
                    assert(n@ == node_with_uuid(nodes, other));
                    assert(ln[j as int] == n@);
                }
                let ghost bc = views(cands@);
                let ghost bd = direct@;
                cands.push(n);
                direct.push(e);
                assert(views(cands@) =~= bc.push(ln[j as int]));
                assert(ln.subrange(0, j + 1) =~= ln.subrange(0, j as int).push(ln[j as int]));
                assert(direct@ =~= bd.push(es@[j as int]));
                assert(es@.subrange(0, j + 1) =~= es@.subrange(0, j as int).push(es@[j as int]));
                j = j + 1;
            }
            assert(ln.subrange(0, es@.len() as int) =~= ln);
            assert(es@.subrange(0, es@.len() as int) =~= es@);
        }
        Ok((cands, direct))
    }
}

/// Removing repeated identifiers leaves each identifier once and no other.
pub proof fn lemma_dedup_ids(s: Seq<NodeView>)
    ensures
        distinct_ids(dedup_ids(s)),
        forall|u: u128| #[trigger] uuids(dedup_ids(s)).contains(u) <==> uuids(s).contains(u),
    decreases s.len(),
{
    if s.len() == 0 {
        assert(uuids(dedup_ids(s)) =~= Seq::<u128>::empty());
        assert(uuids(s) =~= Seq::<u128>::empty());
    } else {
        let init = s.drop_last();
        let last = s.last();
        lemma_dedup_ids(init);
        let r = dedup_ids(init);
        assert(uuids(s) =~= uuids(init).push(last.uuid));
        if uuids(r).contains(last.uuid) {
            assert(dedup_ids(s) == r);
            assert forall|u: u128| #[trigger] uuids(dedup_ids(s)).contains(u) <==> uuids(s).contains(u) by {
                if uuids(s).contains(u) {
                    let w = choose|w: int| 0 <= w < uuids(s).len() && uuids(s)[w] == u;
                    if w < init.len() {
                        assert(uuids(init)[w] == u);
                    }
                }
                if uuids(r).contains(u) {
                    assert(uuids(init).contains(u));
                    let w = choose|w: int| 0 <= w < uuids(init).len() && uuids(init)[w] == u;
                    assert(uuids(s)[w] == u);
                }
            }
        } else {
            let r2 = r.push(last);
            assert(dedup_ids(s) == r2);
            assert(uuids(r2) =~= uuids(r).push(last.uuid));
            assert forall|i: int, j: int| 0 <= i < j < r2.len() implies #[trigger] r2[i].uuid != #[trigger] r2[j].uuid by {
                if j == r.len() {
                    assert(uuids(r)[i] == r[i].uuid);
                } else {
                    assert(r2[i] == r[i] && r2[j] == r[j]);
                }
            }
            assert forall|u: u128| #[trigger] uuids(dedup_ids(s)).contains(u) <==> uuids(s).contains(u) by {
                if uuids(s).contains(u) {
                    let w = choose|w: int| 0 <= w < uuids(s).len() && uuids(s)[w] == u;
                    if w < init.len() {
                        assert(uuids(init)[w] == u);
                        assert(uuids(r).contains(u));
                        let z = choose|z: int| 0 <= z < uuids(r).len() && uuids(r)[z] == u;
                        assert(uuids(r2)[z] == u);
                    } else {
                        assert(uuids(r2)[r.len() as int] == u);
                    }
                }
                if uuids(r2).contains(u) {
                    let z = choose|z: int| 0 <= z < uuids(r2).len() && uuids(r2)[z] == u;
                    if z < r.len() {
                        assert(uuids(r)[z] == u);
                        assert(uuids(r).contains(u));
                        assert(uuids(init).contains(u));
                        let w = choose|w: int| 0 <= w < uuids(init).len() && uuids(init)[w] == u;
                        assert(uuids(s)[w] == u);
                    } else {
                        assert(uuids(s)[init.len() as int] == u);
                    }
                }
            }
        }
    }
}

fn has_id(ids: &Vec<u128>, x: u128) -> (res: bool)
    ensures
        res == ids@.contains(x),
{
    let mut i: usize = 0;
    while i < ids.len()
        invariant
            i <= ids@.len(),
            forall|j: int| 0 <= j < i ==> ids@[j] != x,
        decreases ids@.len() - i,
    {
        if ids[i] == x {
            return true;
        }
        i = i + 1;
    }
    false
}

/// The edges a context shows among the nodes `ids`, from the direct edges
/// `d` and the indexed edges among the nodes `extra`: `pd` and `px` pick
/// them as `choose_context_edges` does.
pub open spec fn context_edges(ids: Seq<u128>, d: Seq<Edge>, extra: Seq<Edge>, pd: Seq<usize>, px: Seq<usize>, edges: Seq<Edge>) -> bool {
    &&& picks_exactly(pd, d.len() as int, |i: int| keeps_direct(ids, edge_ends(d), i))
    &&& picks_exactly(px, extra.len() as int, |i: int| keeps_extra(ids, edge_ends(d), edge_ends(extra), i))
    &&& edges == pd.map_values(|k: usize| d[k as int]) + px.map_values(|k: usize| extra[k as int])
}

/// The indexed edges whose two ends are among `ids`, in index order.
pub open spec fn within(edges: Seq<Edge>, ids: Seq<u128>) -> Seq<Edge> {
    edges.filter(|e: Edge| joins_within(e, ids))
}

/// The edges a context shows join two of its nodes, no two of them have
/// the same ends, and none of those taken from the direct edges is a loop.
pub proof fn lemma_context_edges(all: Seq<Edge>, ids: Seq<u128>, d: Seq<Edge>, pd: Seq<usize>, px: Seq<usize>, edges: Seq<Edge>)
    requires
        context_edges(ids, d, within(all, ids), pd, px, edges),
    ensures
        forall|k: int| 0 <= k < edges.len() ==> ids.contains(#[trigger] edges[k].source) && ids.contains(edges[k].target),
        forall|a: int, b: int| 0 <= a < b < edges.len() ==> (#[trigger] edges[a].source, edges[a].target) != (#[trigger] edges[b].source, edges[b].target),
        forall|k: int| 0 <= k < pd.len() ==> #[trigger] edges[k].source != edges[k].target,
{
    let extra = within(all, ids);
    let de = edge_ends(d);
    let xe = edge_ends(extra);
    let kd = |i: int| keeps_direct(ids, de, i);
    let kx = |i: int| keeps_extra(ids, de, xe, i);
    let n = pd.len() as int;
    assert forall|k: int| 0 <= k < n implies #[trigger] keeps_direct(ids, de, pd[k] as int) && edges[k] == d[pd[k] as int] by {
        assert(pd.contains(pd[k]));
        assert(kd(pd[k] as int));
    }
    assert forall|k: int| 0 <= k < px.len() implies #[trigger] keeps_extra(ids, de, xe, px[k] as int) && edges[n + k] == extra[px[k] as int]
        && joins_within(extra[px[k] as int], ids) by {
        assert(px.contains(px[k]));
        assert(kx(px[k] as int));
        all.lemma_filter_pred(|e: Edge| joins_within(e, ids), px[k] as int);
    }
    assert forall|k: int| 0 <= k < edges.len() implies ids.contains(#[trigger] edges[k].source) && ids.contains(edges[k].target) by {
        if k < n {
            assert(keeps_direct(ids, de, pd[k] as int));
            assert(de[pd[k] as int] == (d[pd[k] as int].source, d[pd[k] as int].target));
        } else {
            assert(keeps_extra(ids, de, xe, px[k - n] as int));
        }
    }
    assert forall|k: int| 0 <= k < n implies #[trigger] edges[k].source != edges[k].target by {
        assert(keeps_direct(ids, de, pd[k] as int));
        assert(de[pd[k] as int] == (d[pd[k] as int].source, d[pd[k] as int].target));
    }
    assert forall|a: int, b: int| 0 <= a < b < edges.len() implies (#[trigger] edges[a].source, edges[a].target) != (#[trigger] edges[b].source, edges[b].target) by {
        if b < n {
            let ia = pd[a] as int;
            let ib = pd[b] as int;
            assert(pd[a] < pd[b]);
            assert(keeps_direct(ids, de, ia));
            assert(keeps_direct(ids, de, ib));
            assert(de[ia] != de[ib]);
            assert(de[ia] == (d[ia].source, d[ia].target));
            assert(de[ib] == (d[ib].source, d[ib].target));
        } else if a < n {
            let ia = pd[a] as int;
            let ib = px[b - n] as int;
            assert(keeps_direct(ids, de, ia));
            assert(keeps_extra(ids, de, xe, ib));
            assert(de[ia] != xe[ib]);
            assert(de[ia] == (d[ia].source, d[ia].target));
            assert(xe[ib] == (extra[ib].source, extra[ib].target));
        } else {
            let ia = px[a - n] as int;
            let ib = px[b - n] as int;
            assert(px[a - n] < px[b - n]);
            assert(keeps_extra(ids, de, xe, ib));
            assert(xe[ia] != xe[ib]);
            assert(xe[ia] == (extra[ia].source, extra[ia].target));
            assert(xe[ib] == (extra[ib].source, extra[ib].target));
        }
    }
}

/// The saved identifiers, if any.
pub open spec fn saved_ids(saved: Option<&Vec<u128>>) -> Seq<u128> {
    match saved {
        Some(v) => v@,
        None => Seq::empty(),
    }
}

fn node_ids(v: &Vec<DataNode>) -> (res: Vec<u128>)
    ensures
        res@ == uuids(views(v@)),
{
    let mut out: Vec<u128> = Vec::new();
    let mut i: usize = 0;
    while i < v.len()
        invariant
            i <= v@.len(),
            out@ == uuids(views(v@).subrange(0, i as int)),
        decreases v@.len() - i,
    {
        out.push(v[i].uuid);
        assert(uuids(views(v@).subrange(0, i + 1)) =~= uuids(views(v@).subrange(0, i as int)).push(v@[i as int].uuid));
        i = i + 1;
    }
    assert(views(v@).subrange(0, v@.len() as int) =~= views(v@));
    out
}

/// Keeps the first node of each identifier; gives the nodes and their
/// identifiers.
fn dedup_nodes(all: &Vec<DataNode>) -> (res: (Vec<DataNode>, Vec<u128>))
    ensures
        views(res.0@) == dedup_ids(views(all@)),
        res.1@ == uuids(views(res.0@)),
{
    let ghost av = views(all@);
    let mut out: Vec<DataNode> = Vec::new();
    let mut ids: Vec<u128> = Vec::new();
    let mut j: usize = 0;
    while j < all.len()
        invariant
            j <= all@.len(),
            av == views(all@),
            views(out@) == dedup_ids(av.subrange(0, j as int)),
            ids@ == uuids(views(out@)),
        decreases all@.len() - j,
    {
        assert(av.subrange(0, j + 1).drop_last() =~= av.subrange(0, j as int));
        assert(av.subrange(0, j + 1).last() == av[j as int]);
        if !has_id(&ids, all[j].uuid) {
            let ghost bo = views(out@);
            out.push(all[j].duplicate());
            ids.push(all[j].uuid);
            assert(views(out@) =~= bo.push(av[j as int]));
            assert(ids@ =~= uuids(views(out@)));
        }
        j = j + 1;
    }
    assert(av.subrange(0, av.len() as int) =~= av);
    (out, ids)
}

fn ends_of(v: &Vec<Edge>) -> (res: Vec<EdgeEnds>)
    ensures
        res@ == edge_ends(v@),
{
    let mut out: Vec<EdgeEnds> = Vec::new();
    let mut q: usize = 0;
    while q < v.len()
        invariant
            q <= v@.len(),
            out@ == edge_ends(v@.subrange(0, q as int)),
        decreases v@.len() - q,
    {
        out.push((v[q].source, v[q].target));
        assert(edge_ends(v@.subrange(0, q + 1)) =~= edge_ends(v@.subrange(0, q as int)).push((v@[q as int].source, v@[q as int].target)));
        q = q + 1;
    }
    assert(v@.subrange(0, v@.len() as int) =~= v@);
    out
}

fn picked(v: &Vec<Edge>, picks: &Vec<usize>) -> (res: Vec<Edge>)
    requires
        forall|t: int| 0 <= t < picks@.len() ==> #[trigger] picks@[t] < v@.len(),
    ensures
        res@ == picks@.map_values(|k: usize| v@[k as int]),
{
    let mut out: Vec<Edge> = Vec::new();
    let mut a: usize = 0;
    while a < picks.len()
        invariant
            a <= picks@.len(),
            forall|t: int| 0 <= t < picks@.len() ==> #[trigger] picks@[t] < v@.len(),
            out@ == picks@.subrange(0, a as int).map_values(|k: usize| v@[k as int]),
        decreases picks@.len() - a,
    {
        out.push(v[picks[a]]);
        assert(picks@.subrange(0, a + 1).map_values(|k: usize| v@[k as int])
            =~= picks@.subrange(0, a as int).map_values(|k: usize| v@[k as int]).push(v@[picks@[a as int] as int]));
        a = a + 1;
    }
    assert(picks@.subrange(0, picks@.len() as int) =~= picks@);
    out
}

fn first_with_path(v: &Vec<DataNode>, path: &NodePath) -> (res: Option<u128>)
    ensures
        res == first_id_at(views(v@), Some(path@)),
{
    let ghost vv = views(v@);
    let mut t: usize = 0;
    while t < v.len()
        invariant
            t <= v@.len(),
            vv == views(v@),
            forall|z: int| 0 <= z < t ==> #[trigger] vv[z].path != path@,
        decreases v@.len() - t,
    {
        if same_text(v[t].path.alias_str(), path.alias_str()) {
            proof {
                assert(crate::graph::first_at_path(vv, path@, t as int));
                crate::graph::lemma_first_at_path(vv, path@, t as int);
            }
            return Some(v[t].uuid);
        }
        t = t + 1;
    }
    proof {
        if has_path(vv, path@) {
            let w = choose|w: int| 0 <= w < vv.len() && #[trigger] vv[w].path == path@;
        }
    }
    None
}

impl KartaService {
    /// The indexed nodes with the identifiers of `list` that are not in
    /// `present`, in order.
    fn saved_nodes(&self, present: &Vec<u128>, list: &Vec<u128>) -> (res: Vec<DataNode>)
        requires
            self.wf(),
        ensures
            views(res@) == saved_extra(self.graph().nodes_view(), present@, list@),
    {
        let ghost nodes = self.graph().nodes_view();
        let ghost keep = keep_saved(nodes, present@);
        let ghost to_node = saved_node(nodes);
        let mut out: Vec<DataNode> = Vec::new();
        let mut k: usize = 0;
        while k < list.len()
            invariant
                self.wf(),
                nodes == self.graph().nodes_view(),
                keep == keep_saved(nodes, present@),
                to_node == saved_node(nodes),
                k <= list@.len(),
                views(out@) == list@.subrange(0, k as int).filter(keep).map_values(to_node),
            decreases list@.len() - k,
        {
            let id = list[k];
            proof { crate::graph::lemma_filter_step(list@, k as int, keep); }
            let ghost before = list@.subrange(0, k as int).filter(keep);
            if has_id(present, id) {
                assert(!keep(id));
            } else {
                match self.data().open_by_uuid(id) {
                    Some(n) => {
                        proof {
                            lemma_indexed_node(nodes, NodeHandle::Uuid(id), n@);
                            let w = choose|w: int| node_at_uuid(nodes, id, w) && nodes[w] == n@;
                            assert(nodes[w].uuid == id);
                            assert(keep(id));
                        }
                        let ghost bo = views(out@);
                        out.push(n);
                        assert(views(out@) =~= bo.push(n@));
                        assert(before.push(id).map_values(to_node) =~= before.map_values(to_node).push(to_node(id)));
                    },
                    None => {
                        assert(!keep(id));
                    },
                }
            }
            k = k + 1;
        }
        assert(list@.subrange(0, list@.len() as int) =~= list@);
        out
    }

    /// The saved contexts that can be listed: for each focal identifier of
    /// `focal_ids` that is indexed, in order, the identifier and the path
    /// of its node.
    pub fn available_contexts(&self, focal_ids: &Vec<u128>) -> (res: Vec<(u128, String)>)
        requires
            self.wf(),
        ensures
            res@.map_values(|p: (u128, String)| (p.0, p.1@)) == focal_ids@.filter(|id: u128| has_uuid(self.graph().nodes_view(), id))
                .map_values(|id: u128| (id, node_with_uuid(self.graph().nodes_view(), id).path)),
    {
        let ghost nodes = self.graph().nodes_view();
        let ghost keep = |id: u128| has_uuid(nodes, id);
        let ghost to_pair = |id: u128| (id, node_with_uuid(nodes, id).path);
        let ghost pv = |p: (u128, String)| (p.0, p.1@);
        let mut out: Vec<(u128, String)> = Vec::new();
        let mut k: usize = 0;
        while k < focal_ids.len()
            invariant
                self.wf(),
                nodes == self.graph().nodes_view(),
                keep == (|id: u128| has_uuid(nodes, id)),
                to_pair == (|id: u128| (id, node_with_uuid(nodes, id).path)),
                pv == (|p: (u128, String)| (p.0, p.1@)),
                k <= focal_ids@.len(),
                out@.map_values(pv) == focal_ids@.subrange(0, k as int).filter(keep).map_values(to_pair),
            decreases focal_ids@.len() - k,
        {
            let id = focal_ids[k];
            proof { crate::graph::lemma_filter_step(focal_ids@, k as int, keep); }
            let ghost before = focal_ids@.subrange(0, k as int).filter(keep);
            match self.data().open_by_uuid(id) {
                Some(n) => {
                    proof {
                        lemma_indexed_node(nodes, NodeHandle::Uuid(id), n@);
                        let w = choose|w: int| node_at_uuid(nodes, id, w) && nodes[w] == n@;
                        assert(nodes[w].uuid == id);
                        assert(keep(id));
                    }
                    let ghost bo = out@.map_values(pv);
                    out.push((id, n.path.alias()));
                    assert(out@.map_values(pv) =~= bo.push((id, n@.path)));
                    assert(before.push(id).map_values(to_pair) =~= before.map_values(to_pair).push(to_pair(id)));
                },
                None => {
                    assert(!keep(id));
                },
            }
            k = k + 1;
        }
        assert(focal_ids@.subrange(0, focal_ids@.len() as int) =~= focal_ids@);
        out
    }

    /// Opens the context at `path`. The nodes and direct edges are
    /// collected as `context_parts` says (the context is not found when the
    /// focal node, or on disk its parent, cannot be opened); the indexed
    /// nodes of the saved context `saved`, if any, that are not collected
    /// yet are added; each identifier is kept once, first come first kept.
    /// The edges are then chosen among the direct edges and the indexed
    /// edges between the nodes (see `choose_context_edges`). Nothing is
    /// written.
    pub fn open_context(&self, path: &NodePath, facts: &ContextDiskFacts, saved: Option<&Vec<u128>>) -> (res: Result<ContextView, ServiceError>)
        requires
            self.wf(),
        ensures
            match context_parts(self.graph().nodes_view(), self.graph().edges_view(), path@, *facts) {
                None => res == Err::<ContextView, ServiceError>(ServiceError::NotFound),
                Some((c, d)) => res is Ok && {
                    let nodes = self.graph().nodes_view();
                    let fin = dedup_ids(c + saved_extra(nodes, uuids(c), saved_ids(saved)));
                    let ids = uuids(fin);
                    let extra = within(self.graph().edges_view(), ids);
                    let v = res.unwrap();
                    &&& views(v.nodes@) == fin
                    &&& distinct_ids(fin)
                    &&& v.focal == c[0].uuid
                    &&& v.parent == first_id_at(fin, parent_alias(c[0].path))
                    &&& exists|pd: Seq<usize>, px: Seq<usize>| #[trigger] context_edges(ids, d, extra, pd, px, v.edges@)
                },
            },
    {
        let ghost nodes = self.graph().nodes_view();
        let (mut cands, direct) = match self.collect_context_parts(path, facts) {
            Ok(p) => p,
            Err(e) => {
                return Err(e);
            },
        };
        let ghost c = views(cands@);
        let f = cands[0].duplicate();
        let present = node_ids(&cands);
        let extra_nodes: Vec<DataNode> = match saved {
            Some(list) => self.saved_nodes(&present, list),
            None => {
                let v: Vec<DataNode> = Vec::new();
                assert(views(v@) =~= saved_extra(nodes, uuids(c), Seq::empty()));
                v
            },
        };
        let mut k: usize = 0;
        while k < extra_nodes.len()
            invariant
                k <= extra_nodes@.len(),
                views(cands@) == c + views(extra_nodes@).subrange(0, k as int),
            decreases extra_nodes@.len() - k,
        {
            let ghost bc = views(cands@);
            cands.push(extra_nodes[k].duplicate());
            assert(views(cands@) =~= bc.push(views(extra_nodes@)[k as int]));
            assert(views(extra_nodes@).subrange(0, k + 1) =~= views(extra_nodes@).subrange(0, k as int).push(views(extra_nodes@)[k as int]));
            k = k + 1;
        }
        assert(views(extra_nodes@).subrange(0, extra_nodes@.len() as int) =~= views(extra_nodes@));
        let ghost fin = dedup_ids(c + saved_extra(nodes, uuids(c), saved_ids(saved)));
        assert(views(cands@) == c + saved_extra(nodes, uuids(c), saved_ids(saved)));
        let (out, ids) = dedup_nodes(&cands);
        proof { lemma_dedup_ids(views(cands@)); }
        assert(views(out@) == fin);
        assert(ids@ == uuids(fin));
        let extra = self.data().edges_between(&ids);
        assert(extra@ == within(self.graph().edges_view(), uuids(fin)));
        let d_ends = ends_of(&direct);
        let x_ends = ends_of(&extra);
        let (pd, px) = choose_context_edges(&ids, &d_ends, &x_ends);
        let mut edges = picked(&direct, &pd);
        let mut more = picked(&extra, &px);
        let ghost de = edges@;
        edges.append(&mut more);
        assert(context_edges(ids@, direct@, extra@, pd@, px@, edges@));
        assert(context_edges(uuids(fin), direct@, within(self.graph().edges_view(), uuids(fin)), pd@, px@, edges@));
        let parent = match f.path.parent() {
            None => None,
            Some(pp) => first_with_path(&out, &pp),
        };
        let view = ContextView { nodes: out, edges, focal: f.uuid, parent };
        proof {
            let (c2, d2) = context_parts(self.graph().nodes_view(), self.graph().edges_view(), path@, *facts).unwrap();
            assert(c2 == c);
            assert(d2 == direct@);
            assert(view.edges@ == edges@);
            assert(context_edges(uuids(fin), d2, within(self.graph().edges_view(), uuids(fin)), pd@, px@, view.edges@));
        }
        Ok(view)
    }
}

} // verus!
