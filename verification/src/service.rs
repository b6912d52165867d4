use vstd::prelude::*;
use crate::graph::{
    DataNode, Edge, GraphError, GraphIndex, NodeView, below, edges_apart, edges_without, first_edge_between, has_path, has_uuid,
    lemma_node_at_path_indexed, first_at_path, move_refusal, named_by, node_at_path, node_at_uuid, nodes_apart, nodes_without, reconnect_refusal,
    subtree_moved, touches, with_node, with_node_edges, root_node, vault_node, ROOT_UUID, VAULT_UUID,
};
use crate::node_path::{NodePath, alias_name, join_alias, normalize_alias, parent_alias, root_alias};
use crate::payloads::{DeleteEdgePayload, DeletedNodeInfo, payload_pairs};
use crate::requests::{deletable_alias, is_deletable};
use crate::search::{RankedSearch, rank_paths, ranked_outcome};
use crate::settings::{push_component, push_component_exec};
use crate::text::{decimal, find_last_char, last_index_of, lemma_last_index_of, push_char, push_decimal, same_text, starts_with};
use crate::unique_name::{candidate_name, contains_name, generate_unique_name, is_first_free_attempt, name_views};

verus! {

broadcast use vstd::seq_lib::lemma_seq_contains_after_push;

/// The path without its trailing `/` and `/.` parts.
pub open spec fn without_trailing_separators(p: Seq<char>) -> Seq<char>
    decreases p.len(),
{
    if p.len() > 0 && p.last() == '/' {
        without_trailing_separators(p.drop_last())
    } else if p.len() >= 2 && p.last() == '.' && p[p.len() - 2] == '/' {
        without_trailing_separators(p.drop_last())
    } else {
        p
    }
}

/// The last component of a path, after trailing separators are dropped.
pub open spec fn final_component(p: Seq<char>) -> Seq<char> {
    let t = without_trailing_separators(p);
    match last_index_of(t, '/') {
        Some(k) => t.subrange(k + 1, t.len() as int),
        None => t,
    }
}

/// The file name of a path: its last component, unless the path has none
/// (it is empty or the root) or ends in `.` or `..`.
pub open spec fn file_name_of(p: Seq<char>) -> Option<Seq<char>> {
    let c = final_component(p);
    if c.len() == 0 || c == "."@ || c == ".."@ {
        None
    } else {
        Some(c)
    }
}

/// Where the service keeps its data: the given directory when it is
/// itself named `.karta`, otherwise its `.karta` subdirectory.
pub open spec fn karta_storage_dir(storage_dir: Seq<char>) -> Seq<char> {
    if file_name_of(storage_dir) == Some(".karta"@) {
        storage_dir
    } else {
        push_component(storage_dir, ".karta"@)
    }
}

/// A service made on its own storage directory keeps it: the storage
/// directory of a storage directory is itself.
pub proof fn lemma_storage_dir_stable(storage_dir: Seq<char>)
    ensures
        karta_storage_dir(karta_storage_dir(storage_dir)) == karta_storage_dir(storage_dir),
        file_name_of(karta_storage_dir(storage_dir)) == Some(".karta"@),
{
    reveal_strlit(".karta");
    reveal_strlit("/");
    reveal_strlit(".");
    reveal_strlit("..");
    if file_name_of(storage_dir) != Some(".karta"@) {
        let d = push_component(storage_dir, ".karta"@);
        let base = d.len() - 6;
        assert(d.subrange(base, d.len() as int) =~= ".karta"@);
        assert(without_trailing_separators(d) == d);
        if storage_dir.len() == 0 {
            assert(d =~= ".karta"@);
            crate::text::lemma_last_index_of(d, '/');
            assert(final_component(d) =~= ".karta"@);
        } else {
            assert(d[base - 1] == '/') by {
                if storage_dir.last() == '/' {
                    assert(d[base - 1] == storage_dir.last());
                }
            }
            crate::text::lemma_last_index_of_unique(d, '/', base - 1);
            assert(final_component(d) =~= ".karta"@);
        }
    }
}

/// Length of the path once its trailing separators are dropped.
fn trimmed_len(s: &str) -> (n: usize)
    ensures
        n <= s@.len(),
        without_trailing_separators(s@) == s@.subrange(0, n as int),
{
    let mut n = s.unicode_len();
    assert(s@.subrange(0, n as int) =~= s@);
    loop
        invariant
            n <= s@.len(),
            without_trailing_separators(s@) == without_trailing_separators(s@.subrange(0, n as int)),
        decreases n,
    {
        let ghost t = s@.subrange(0, n as int);
        if n > 0 && s.get_char(n - 1) == '/' {
            assert(t.drop_last() =~= s@.subrange(0, n - 1));
            n = n - 1;
        } else if n >= 2 && s.get_char(n - 1) == '.' && s.get_char(n - 2) == '/' {
            assert(t.drop_last() =~= s@.subrange(0, n - 1));
            n = n - 1;
        } else {
            assert(without_trailing_separators(t) == t);
            return n;
        }
    }
}

/// The file name of a path, as `file_name_of` defines it.
pub fn file_name(path: &str) -> (res: Option<&str>)
    ensures
        match res {
            Some(c) => file_name_of(path@) == Some(c@),
            None => file_name_of(path@) is None,
        },
{
    let n = trimmed_len(path);
    let t = path.substring_char(0, n);
    proof {
        lemma_last_index_of(t@, '/');
    }
    let c = match find_last_char(t, '/') {
        Some(k) => t.substring_char(k + 1, n),
        None => t,
    };
    proof {
        lemma_last_index_of(t@, '/');
        assert(c@ == final_component(path@));
    }
    if c.unicode_len() == 0 || same_text(c, ".") || same_text(c, "..") {
        None
    } else {
        Some(c)
    }
}

/// The directory where a service keeps its data; see `karta_storage_dir`.
pub fn storage_dir_for(storage_dir: &str) -> (res: String)
    ensures
        res@ == karta_storage_dir(storage_dir@),
{
    let is_karta = match file_name(storage_dir) {
        Some(c) => same_text(c, ".karta"),
        None => false,
    };
    let mut dir = String::from_str(storage_dir);
    if !is_karta {
        push_component_exec(&mut dir, ".karta");
    }
    dir
}

/// The service that owns a vault: where the vault lies on disk, where its
/// data is kept, and the index of its graph.
pub struct KartaService {
    name: String,
    vault_fs_path: String,
    storage_dir: String,
    data: GraphIndex,
}

impl KartaService {
    /// The vault directory.
    pub closed spec fn vault_view(&self) -> Seq<char> {
        self.vault_fs_path@
    }

    /// The storage directory.
    pub closed spec fn storage_view(&self) -> Seq<char> {
        self.storage_dir@
    }

    /// The name of the vault's graph store.
    pub closed spec fn name_view(&self) -> Seq<char> {
        self.name@
    }

    /// The index of the graph.
    pub closed spec fn graph(&self) -> GraphIndex {
        self.data
    }

    /// Well-formedness: the index is well formed.
    pub open spec fn wf(&self) -> bool {
        self.graph().wf()
    }

    /// A service for the vault at `vault_fs_path` that keeps its data in
    /// `storage_dir`, or in its `.karta` subdirectory when `storage_dir` is
    /// not itself named `.karta`. The index starts with the root and the
    /// vault (see `GraphIndex::new`). A storage path
    /// without a file name (empty, the root, or ending in `..`) is not
    /// accepted.
    pub fn new(name: &str, vault_fs_path: &str, storage_dir: &str) -> (res: Self)
        requires
            file_name_of(storage_dir@) is Some,
        ensures
            res.wf(),
            res.name_view() == name@,
            res.vault_view() == vault_fs_path@,
            res.storage_view() == karta_storage_dir(storage_dir@),
            res.graph().nodes_view() == seq![root_node(), vault_node()],
            res.graph().edges_view() == seq![Edge { source: ROOT_UUID, target: VAULT_UUID, contains: true }],
    {
        KartaService {
            name: String::from_str(name),
            vault_fs_path: String::from_str(vault_fs_path),
            storage_dir: storage_dir_for(storage_dir),
            data: GraphIndex::new(),
        }
    }

    /// The vault directory.
    pub fn vault_fs_path(&self) -> (res: &str)
        ensures
            res@ == self.vault_view(),
    {
        self.vault_fs_path.as_str()
    }

    /// The storage directory.
    pub fn storage_path(&self) -> (res: &str)
        ensures
            res@ == self.storage_view(),
    {
        self.storage_dir.as_str()
    }

    /// The index of the graph.
    pub fn data(&self) -> (res: &GraphIndex)
        ensures
            *res == self.graph(),
    {
        &self.data
    }

    /// The index of the graph, for changing it.
    pub fn data_mut(&mut self) -> (res: &mut GraphIndex)
        ensures
            *res == old(self).graph(),
            final(self).graph() == *final(res),
            final(self).vault_view() == old(self).vault_view(),
            final(self).storage_view() == old(self).storage_view(),
            final(self).name_view() == old(self).name_view(),
    {
        &mut self.data
    }
}

/// What `uuid::Uuid::parse_str` makes of a text, as the number the UUID
/// holds; `None` when the text is not a UUID.
pub uninterp spec fn uuid_parsed(text: Seq<char>) -> Option<u128>;

/// Trusted: calls `uuid::Uuid::parse_str` and reads the parsed UUID as its
/// 128-bit number (`as_u128`). The result depends on the text alone and is
/// named `uuid_parsed`.
#[verifier::external_body]
fn parse_uuid(text: &str) -> (res: Option<u128>)
    ensures
        res == uuid_parsed(text@),
{
    match uuid::Uuid::parse_str(text) {
        Ok(u) => Some(u.as_u128()),
        Err(_) => None,
    }
}

/// How a client names a node: by identifier or by path.
pub enum NodeHandle {
    Uuid(u128),
    Path(NodePath),
}

/// The handle stands for the text, given what UUID parsing made of it: the
/// parsed identifier when there is one, else the path the text names.
pub open spec fn handle_names(handle: NodeHandle, parsed: Option<u128>, text: Seq<char>) -> bool {
    match handle {
        NodeHandle::Uuid(u) => parsed == Some(u),
        NodeHandle::Path(p) => parsed is None && p@ == normalize_alias(text),
    }
}

/// The handle for a text, given what UUID parsing made of it.
pub fn node_handle_from(parsed: Option<u128>, text: &str) -> (res: NodeHandle)
    ensures
        handle_names(res, parsed, text@),
{
    match parsed {
        Some(u) => NodeHandle::Uuid(u),
        None => NodeHandle::Path(NodePath::from_alias(text)),
    }
}

/// Reads a client's node handle: a UUID when the text parses as one,
/// otherwise a path.
pub fn parse_node_handle(text: &str) -> (res: NodeHandle)
    ensures
        handle_names(res, uuid_parsed(text@), text@),
{
    node_handle_from(parse_uuid(text), text)
}

/// The paths of the index, in index order.
pub open spec fn indexed_paths(nodes: Seq<NodeView>) -> Seq<Seq<char>> {
    nodes.map_values(|n: NodeView| n.path)
}

/// The node `n` is the indexed node at `path` (the first with it).
pub open spec fn indexed_at(nodes: Seq<NodeView>, path: Seq<char>, n: NodeView) -> bool {
    has_path(nodes, path) && n == node_at_path(nodes, path)
}

/// The node `n` is the indexed node with the identifier.
pub open spec fn indexed_with(nodes: Seq<NodeView>, uuid: u128, n: NodeView) -> bool {
    exists|i: int| node_at_uuid(nodes, uuid, i) && nodes[i] == n
}

/// Where the children of `parent` have their paths: `parent` and a `/`,
/// or just `/` under the root.
pub open spec fn child_prefix(parent: Seq<char>) -> Seq<char> {
    if parent == root_alias() {
        root_alias()
    } else {
        parent + seq!['/']
    }
}

/// A name is taken under `parent` when an entry of that name is on disk
/// there or a node is indexed at the child path.
pub open spec fn child_name_taken(nodes: Seq<NodeView>, parent: Seq<char>, on_disk: Seq<Seq<char>>, name: Seq<char>) -> bool {
    on_disk.contains(name) || has_path(nodes, join_alias(parent, name))
}

/// `k` is the first attempt whose candidate name is free under `parent`.
pub open spec fn first_free_child_attempt(nodes: Seq<NodeView>, parent: Seq<char>, on_disk: Seq<Seq<char>>, original: Seq<char>, k: nat) -> bool {
    &&& !child_name_taken(nodes, parent, on_disk, candidate_name(original, k))
    &&& forall|j: nat| j < k ==> child_name_taken(nodes, parent, on_disk, #[trigger] candidate_name(original, j))
}

proof fn lemma_child_prefix(parent: Seq<char>, name: Seq<char>)
    ensures
        join_alias(parent, name) == child_prefix(parent) + name,
{
    assert(join_alias(parent, name) =~= child_prefix(parent) + name);
}

/// The texts with the first of each kept, in order.
pub open spec fn dedup_texts(s: Seq<Seq<char>>) -> Seq<Seq<char>>
    decreases s.len(),
{
    if s.len() == 0 {
        Seq::empty()
    } else {
        let r = dedup_texts(s.drop_last());
        if r.contains(s.last()) {
            r
        } else {
            r.push(s.last())
        }
    }
}

/// The paths listed when paths on disk are asked for too: those on disk,
/// then the indexed ones, each once, first come first kept.
pub open spec fn listed_paths(physical: Seq<Seq<char>>, nodes: Seq<NodeView>) -> Seq<Seq<char>> {
    dedup_texts(physical + indexed_paths(nodes))
}

impl KartaService {
    /// The paths of the graph, each once. With `only_indexed`, the indexed
    /// paths in index order; otherwise every path that is on disk
    /// (`physical_paths`) or indexed (see `listed_paths`).
    pub fn get_paths(&self, only_indexed: bool, physical_paths: &Vec<String>) -> (res: Vec<String>)
        ensures
            name_views(res@).no_duplicates(),
            only_indexed ==> name_views(res@) == dedup_texts(indexed_paths(self.graph().nodes_view())),
            only_indexed ==> forall|x: Seq<char>| #[trigger] name_views(res@).contains(x) <==> indexed_paths(self.graph().nodes_view()).contains(x),
            !only_indexed ==> name_views(res@) == listed_paths(name_views(physical_paths@), self.graph().nodes_view()),
            !only_indexed ==> forall|x: Seq<char>| #[trigger] name_views(res@).contains(x) <==> (name_views(physical_paths@).contains(x)
                || indexed_paths(self.graph().nodes_view()).contains(x)),
    {
        let indexed = self.data.get_all_indexed_paths();
        assert(name_views(indexed@) =~= indexed_paths(self.graph().nodes_view()));
        let no_paths: Vec<String> = Vec::new();
        let on_disk: &Vec<String> = if only_indexed { &no_paths } else { physical_paths };
        let ghost phys = name_views(on_disk@);
        let ghost idx = name_views(indexed@);
        assert(only_indexed ==> phys =~= Seq::<Seq<char>>::empty());
        assert(only_indexed ==> phys + idx =~= idx);
        let mut out: Vec<String> = Vec::new();
        let mut i: usize = 0;
        while i < on_disk.len()
            invariant
                i <= on_disk@.len(),
                phys == name_views(on_disk@),
                name_views(out@) == dedup_texts(phys.subrange(0, i as int)),
                name_views(out@).no_duplicates(),
                forall|x: Seq<char>| #[trigger] name_views(out@).contains(x) <==> phys.subrange(0, i as int).contains(x),
            decreases on_disk@.len() - i,
        {
            let ghost before = name_views(out@);
            let ghost pre = phys.subrange(0, i as int);
            assert(phys.subrange(0, i + 1) =~= pre.push(on_disk@[i as int]@));
            assert(phys.subrange(0, i + 1).drop_last() =~= pre);
            if !contains_name(&out, on_disk[i].as_str()) {
                out.push(on_disk[i].clone());
                assert(name_views(out@) =~= before.push(on_disk@[i as int]@));
            }
            i = i + 1;
        }
        assert(phys.subrange(0, phys.len() as int) =~= phys);
        let mut j: usize = 0;
        while j < indexed.len()
            invariant
                j <= indexed@.len(),
                phys == name_views(on_disk@),
                idx == name_views(indexed@),
                name_views(indexed@) == indexed_paths(self.graph().nodes_view()),
                name_views(out@) == dedup_texts(phys + idx.subrange(0, j as int)),
                name_views(out@).no_duplicates(),
                forall|x: Seq<char>| #[trigger] name_views(out@).contains(x) <==> (phys.contains(x)
                    || idx.subrange(0, j as int).contains(x)),
            decreases indexed@.len() - j,
        {
            let ghost before = name_views(out@);
            let ghost pre = idx.subrange(0, j as int);
            assert(idx.subrange(0, j + 1) =~= pre.push(indexed@[j as int]@));
            assert((phys + idx.subrange(0, j + 1)).drop_last() =~= phys + pre);
            assert((phys + idx.subrange(0, j + 1)).last() == indexed@[j as int]@);
            if !contains_name(&out, indexed[j].as_str()) {
                out.push(indexed[j].clone());
                assert(name_views(out@) =~= before.push(indexed@[j as int]@));
            }
            j = j + 1;
        }
        assert(idx.subrange(0, idx.len() as int) =~= idx);
        out
    }

    /// Opens a node. By identifier, the indexed node with it. By path, the
    /// indexed node at the path when there is one; otherwise the entry on
    /// disk (`on_disk`, as read from the filesystem), if any.
    pub fn open_node(&self, handle: &NodeHandle, on_disk: Option<DataNode>) -> (res: Option<DataNode>)
        ensures
            match *handle {
                NodeHandle::Uuid(u) => match res {
                    Some(n) => indexed_with(self.graph().nodes_view(), u, n@),
                    None => !has_uuid(self.graph().nodes_view(), u),
                },
                NodeHandle::Path(p) => if has_path(self.graph().nodes_view(), p@) {
                    res is Some && indexed_at(self.graph().nodes_view(), p@, res.unwrap()@)
                } else {
                    match on_disk {
                        Some(d) => res is Some && res.unwrap()@ == d@,
                        None => res is None,
                    }
                },
            },
    {
        match handle {
            NodeHandle::Uuid(u) => self.data.open_by_uuid(*u),
            NodeHandle::Path(p) => match self.data.open_by_path(p) {
                Some(n) => Some(n),
                None => on_disk,
            },
        }
    }

    /// Opens the node at `path` as `open_node` does and indexes it when
    /// no indexed node has its identifier yet.
    pub fn open_and_index_node(&mut self, path: &NodePath, on_disk: Option<DataNode>) -> (res: Option<DataNode>)
        requires
            old(self).wf(),
        ensures
            final(self).wf(),
            final(self).vault_view() == old(self).vault_view(),
            final(self).storage_view() == old(self).storage_view(),
            has_path(old(self).graph().nodes_view(), path@) ==> res is Some
                && indexed_at(old(self).graph().nodes_view(), path@, res.unwrap()@)
                && final(self).graph() == old(self).graph(),
            !has_path(old(self).graph().nodes_view(), path@) ==> match on_disk {
                Some(d) => res is Some && res.unwrap()@ == d@
                    && final(self).graph().nodes_view() == with_node(old(self).graph().nodes_view(), d@)
                    && final(self).graph().edges_view() == with_node_edges(old(self).graph().nodes_view(), old(self).graph().edges_view(), d@),
                None => res is None && final(self).graph() == old(self).graph(),
            },
    {
        let handle = NodeHandle::Path(path.duplicate());
        let node = match self.open_node(&handle, on_disk) {
            Some(n) => n,
            None => {
                return None;
            },
        };
        if self.data.open_by_uuid(node.uuid).is_none() {
            let copy = node.duplicate();
            self.data.insert_node(copy);
        } else {
            proof {
                if !has_path(old(self).graph().nodes_view(), path@) {
                    // The node read from disk carries an identifier already indexed.
                    assert(has_uuid(old(self).graph().nodes_view(), node@.uuid));
                }
            }
        }
        proof {
            if has_path(old(self).graph().nodes_view(), path@) {
                lemma_node_at_path_indexed(old(self).graph().nodes_view(), path@);
                let i = choose|i: int| first_at_path(old(self).graph().nodes_view(), path@, i)
                    && old(self).graph().nodes_view()[i] == node_at_path(old(self).graph().nodes_view(), path@);
                assert(old(self).graph().nodes_view()[i].uuid == node@.uuid);
                assert(has_uuid(old(self).graph().nodes_view(), node@.uuid));
            }
        }
        Some(node)
    }

    /// The names taken under `parent`: those on disk there (`on_disk`) and
    /// those of the nodes indexed at child paths of `parent`.
    pub fn taken_child_names(&self, parent: &NodePath, on_disk: &Vec<String>) -> (res: Vec<String>)
        ensures
            forall|c: Seq<char>| #[trigger] name_views(res@).contains(c)
                <==> child_name_taken(self.graph().nodes_view(), parent@, name_views(on_disk@), c),
    {
        let nodes_paths = self.data.get_all_indexed_paths();
        let ghost nodes = self.graph().nodes_view();
        let mut prefix = parent.alias();
        if !parent.is_root() {
            push_char(&mut prefix, '/');
        }
        assert(prefix@ =~= child_prefix(parent@));
        let mut taken: Vec<String> = on_disk.clone();
        assert(name_views(taken@) =~= name_views(on_disk@));
        let mut i: usize = 0;
        while i < nodes_paths.len()
            invariant
                i <= nodes_paths@.len(),
                nodes_paths@.len() == nodes.len(),
                nodes == self.graph().nodes_view(),
                forall|q: int| 0 <= q < nodes_paths@.len() ==> (#[trigger] nodes_paths@[q])@ == nodes[q].path,
                prefix@ == child_prefix(parent@),
                forall|c: Seq<char>| #[trigger] name_views(taken@).contains(c) <==> (name_views(on_disk@).contains(c)
                    || exists|q: int| 0 <= q < i && #[trigger] nodes[q].path == prefix@ + c),
            decreases nodes_paths@.len() - i,
        {
            let ghost before = name_views(taken@);
            if starts_with(nodes_paths[i].as_str(), prefix.as_str()) {
                let n = nodes_paths[i].as_str().unicode_len();
                let m = prefix.as_str().unicode_len();
                let rest = String::from_str(nodes_paths[i].as_str().substring_char(m, n));
                let ghost p = nodes_paths@[i as int]@;
                assert(p =~= prefix@ + rest@);
                taken.push(rest);
                assert(name_views(taken@) =~= before.push(p.subrange(m as int, n as int)));
                assert forall|c: Seq<char>| #[trigger] name_views(taken@).contains(c) <==> (name_views(on_disk@).contains(c)
                    || exists|q: int| 0 <= q < i + 1 && #[trigger] nodes[q].path == prefix@ + c) by {
                    if c == rest@ {
                        assert(nodes[i as int].path == prefix@ + c);
                    }
                    if exists|q: int| 0 <= q < i + 1 && #[trigger] nodes[q].path == prefix@ + c {
                        let q = choose|q: int| 0 <= q < i + 1 && #[trigger] nodes[q].path == prefix@ + c;
                        if q == i {
                            assert(c =~= (prefix@ + c).subrange(m as int, (prefix@ + c).len() as int));
                            assert(name_views(taken@)[before.len() as int] == c);
                        }
                    }
                }
            } else {
                assert forall|c: Seq<char>| #[trigger] name_views(taken@).contains(c) <==> (name_views(on_disk@).contains(c)
                    || exists|q: int| 0 <= q < i + 1 && #[trigger] nodes[q].path == prefix@ + c) by {
                    if exists|q: int| 0 <= q < i + 1 && #[trigger] nodes[q].path == prefix@ + c {
                        let q = choose|q: int| 0 <= q < i + 1 && #[trigger] nodes[q].path == prefix@ + c;
                        if q == i {
                            assert((prefix@ + c).subrange(0, prefix@.len() as int) =~= prefix@);
                        }
                    }
                }
            }
            i = i + 1;
        }
        proof {
            assert forall|c: Seq<char>| #[trigger] name_views(taken@).contains(c) <==> child_name_taken(nodes, parent@, name_views(on_disk@), c) by {
                lemma_child_prefix(parent@, c);
                if has_path(nodes, join_alias(parent@, c)) {
                    let q = choose|q: int| 0 <= q < nodes.len() && #[trigger] nodes[q].path == join_alias(parent@, c);
                    assert(nodes[q].path == prefix@ + c);
                }
            }
        }
        taken
    }

    /// The first free name for a child called `original` under `parent`:
    /// `original` itself when free, else the first free of its numbered
    /// variants (see `candidate_name`). A name is taken when an entry of
    /// that name is on disk under `parent` (`on_disk` lists them) or a node
    /// is indexed at the child path.
    pub fn generate_unique_name(&self, parent: &NodePath, original: &str, on_disk: &Vec<String>) -> (res: String)
        ensures
            exists|k: nat| #[trigger] candidate_name(original@, k) == res@
                && first_free_child_attempt(self.graph().nodes_view(), parent@, name_views(on_disk@), original@, k),
    {
        let ghost nodes = self.graph().nodes_view();
        let taken = self.taken_child_names(parent, on_disk);
        let res = generate_unique_name(original, &taken);
        proof {
            let k = choose|k: nat| #[trigger] candidate_name(original@, k) == res@ && is_first_free_attempt(original@, name_views(taken@), k);
            assert(candidate_name(original@, k) == res@);
            assert forall|j: nat| j < k implies child_name_taken(nodes, parent@, name_views(on_disk@), #[trigger] candidate_name(original@, j)) by {
                assert(name_views(taken@).contains(candidate_name(original@, j)));
            }
            assert(first_free_child_attempt(nodes, parent@, name_views(on_disk@), original@, k));
        }
        res
    }
}

/// What the filesystem holds for a move, read before the move.
pub struct MoveFacts {
    /// The node being moved exists on disk.
    pub source_on_disk: bool,
    /// The entry on disk at the target parent, if there is one.
    pub target_parent_entry: Option<DataNode>,
    /// The target parent is a directory on disk.
    pub target_parent_is_dir: bool,
    /// The names of the entries on disk under the target parent.
    pub target_entries: Vec<String>,
}

/// Why the service refused an operation.
#[derive(Clone, Copy, PartialEq, Eq, Structural, Debug)]
pub enum ServiceError {
    /// The target parent is neither indexed nor on disk.
    TargetMissing,
    /// The node is neither on disk nor indexed.
    VirtualNodeMissing,
    /// A node that is not on disk was moved to a parent that is not a
    /// directory on disk.
    VirtualTargetNotDirectory,
    /// The node could not be found.
    NotFound,
    /// Only the vault and what lies under it can be deleted.
    SystemNode,
    /// The index refused the change.
    Index(GraphError),
}

/// The nodes after the target parent of a renaming move is indexed: when it
/// is not indexed yet and is a directory on disk, its entry is offered to
/// the index.
pub open spec fn with_target_parent(nodes: Seq<NodeView>, parent: Seq<char>, entry: Option<DataNode>, is_dir: bool) -> Seq<NodeView> {
    if !has_path(nodes, parent) && is_dir && entry is Some {
        with_node(nodes, entry.unwrap()@)
    } else {
        nodes
    }
}

/// The edges after the target parent of a renaming move is indexed; see
/// `with_target_parent` and `with_node_edges`.
pub open spec fn with_target_parent_edges(nodes: Seq<NodeView>, edges: Seq<Edge>, parent: Seq<char>, entry: Option<DataNode>, is_dir: bool) -> Seq<Edge> {
    if !has_path(nodes, parent) && is_dir && entry is Some {
        with_node_edges(nodes, edges, entry.unwrap()@)
    } else {
        edges
    }
}

/// The name a renaming move starts from: the new name when one is given,
/// else the node's own name.
pub open spec fn desired_name(node_path: Seq<char>, new_name: Option<Seq<char>>) -> Seq<char> {
    match new_name {
        Some(n) => n,
        None => alias_name(node_path),
    }
}

/// The outcome of relocating the indexed subtree at `source` to `target`
/// in `(nodes0, edges0)`, giving `(nodes, edges)` and the index's answer.
pub open spec fn relocation(nodes0: Seq<NodeView>, edges0: Seq<Edge>, nodes: Seq<NodeView>, edges: Seq<Edge>, source: Seq<char>, target: Seq<char>, answer: Result<(), GraphError>) -> bool {
    match move_refusal(nodes0, edges0, source, target) {
        Some(e) => answer == Err::<(), GraphError>(e) && nodes == nodes0 && edges == edges0,
        None => answer is Ok && subtree_moved(nodes0, edges0, nodes, edges, source, target),
    }
}

/// The text of an optional string.
pub open spec fn text_option(o: Option<&str>) -> Option<Seq<char>> {
    match o {
        Some(t) => Some(t@),
        None => None,
    }
}

/// The outcome of a renaming move of `node_path` under `target_parent`,
/// where attempt `k` gave the first free name: the index goes from
/// `(nodes0, edges0)` to `(nodes, edges)` and the answer is `res`.
pub open spec fn renaming_move(nodes0: Seq<NodeView>, edges0: Seq<Edge>, nodes: Seq<NodeView>, edges: Seq<Edge>, node_path: Seq<char>, target_parent: Seq<char>, new_name: Option<Seq<char>>, facts: MoveFacts, res: Result<NodePath, ServiceError>, k: nat) -> bool {
    let desired = desired_name(node_path, new_name);
    let target = join_alias(target_parent, candidate_name(desired, k));
    let nodes1 = with_target_parent(nodes0, target_parent, facts.target_parent_entry, facts.target_parent_is_dir);
    let edges1 = with_target_parent_edges(nodes0, edges0, target_parent, facts.target_parent_entry, facts.target_parent_is_dir);
    &&& first_free_child_attempt(nodes0, target_parent, name_views(facts.target_entries@), desired, k)
    &&& !facts.source_on_disk && !has_path(nodes1, node_path) ==> res == Err::<NodePath, ServiceError>(ServiceError::VirtualNodeMissing)
        && nodes == nodes1 && edges == edges1
    &&& (facts.source_on_disk || has_path(nodes1, node_path)) ==> match move_refusal(nodes1, edges1, node_path, target) {
        Some(e) => res == Err::<NodePath, ServiceError>(ServiceError::Index(e)) && nodes == nodes1 && edges == edges1,
        None => subtree_moved(nodes1, edges1, nodes, edges, node_path, target)
            && if !facts.source_on_disk && parent_alias(node_path) != Some(target_parent) && !facts.target_parent_is_dir {
                res == Err::<NodePath, ServiceError>(ServiceError::VirtualTargetNotDirectory)
            } else {
                res is Ok && res.unwrap()@ == target
            },
    }
}

impl KartaService {
    /// Offers a node to the index.
    fn index_node(&mut self, node: DataNode)
        requires
            old(self).wf(),
        ensures
            final(self).wf(),
            final(self).vault_view() == old(self).vault_view(),
            final(self).storage_view() == old(self).storage_view(),
            final(self).graph().nodes_view() == with_node(old(self).graph().nodes_view(), node@),
            final(self).graph().edges_view() == with_node_edges(old(self).graph().nodes_view(), old(self).graph().edges_view(), node@),
    {
        self.data.insert_node(node);
    }

    /// Moves the indexed subtree at `source` to `target` in the index.
    fn relocate(&mut self, source: &NodePath, target: &NodePath) -> (res: Result<(), GraphError>)
        requires
            old(self).wf(),
        ensures
            final(self).wf(),
            final(self).vault_view() == old(self).vault_view(),
            final(self).storage_view() == old(self).storage_view(),
            relocation(old(self).graph().nodes_view(), old(self).graph().edges_view(), final(self).graph().nodes_view(),
                final(self).graph().edges_view(), source@, target@, res),
    {
        self.data.move_subtree(source, target)
    }

    /// Moves the indexed subtree at `node_path` under `target_parent`,
    /// keeping its name.
    pub fn move_node_in_database(&mut self, node_path: &NodePath, target_parent: &NodePath) -> (res: Result<(), GraphError>)
        requires
            old(self).wf(),
        ensures
            final(self).wf(),
            final(self).vault_view() == old(self).vault_view(),
            final(self).storage_view() == old(self).storage_view(),
            relocation(old(self).graph().nodes_view(), old(self).graph().edges_view(), final(self).graph().nodes_view(),
                final(self).graph().edges_view(), node_path@, join_alias(target_parent@, alias_name(node_path@)), res),
    {
        let name = node_path.name();
        let target = target_parent.join(name.as_str());
        self.relocate(node_path, &target)
    }

    /// Moves the indexed subtree at `node_path` so that it sits at
    /// `target_path`.
    pub fn move_node_in_database_with_target(&mut self, node_path: &NodePath, target_path: &NodePath) -> (res: Result<(), GraphError>)
        requires
            old(self).wf(),
        ensures
            final(self).wf(),
            final(self).vault_view() == old(self).vault_view(),
            final(self).storage_view() == old(self).storage_view(),
            relocation(old(self).graph().nodes_view(), old(self).graph().edges_view(), final(self).graph().nodes_view(),
                final(self).graph().edges_view(), node_path@, target_path@, res),
    {
        self.relocate(node_path, target_path)
    }

    /// Moves a node under `target_parent` in the index, keeping its name.
    /// A target parent that is not indexed is first indexed from its entry
    /// on disk, and the move is refused when it has none. After the index
    /// is updated, a node that is not on disk may only go to a parent that
    /// is a directory on disk. Moving the entry on disk is left to the
    /// caller.
    pub fn move_node(&mut self, node_path: &NodePath, target_parent: &NodePath, facts: &MoveFacts) -> (res: Result<(), ServiceError>)
        requires
            old(self).wf(),
        ensures
            final(self).wf(),
            final(self).vault_view() == old(self).vault_view(),
            final(self).storage_view() == old(self).storage_view(),
            !has_path(old(self).graph().nodes_view(), target_parent@) && facts.target_parent_entry is None ==>
                res == Err::<(), ServiceError>(ServiceError::TargetMissing) && final(self).graph() == old(self).graph(),
            has_path(old(self).graph().nodes_view(), target_parent@) || facts.target_parent_entry is Some ==> {
                let nodes1 = if has_path(old(self).graph().nodes_view(), target_parent@) {
                    old(self).graph().nodes_view()
                } else {
                    with_node(old(self).graph().nodes_view(), facts.target_parent_entry.unwrap()@)
                };
                let edges1 = if has_path(old(self).graph().nodes_view(), target_parent@) {
                    old(self).graph().edges_view()
                } else {
                    with_node_edges(old(self).graph().nodes_view(), old(self).graph().edges_view(), facts.target_parent_entry.unwrap()@)
                };
                let target = join_alias(target_parent@, alias_name(node_path@));
                match move_refusal(nodes1, edges1, node_path@, target) {
                    Some(e) => res == Err::<(), ServiceError>(ServiceError::Index(e)) && final(self).graph().nodes_view() == nodes1
                        && final(self).graph().edges_view() == edges1,
                    None => subtree_moved(nodes1, edges1, final(self).graph().nodes_view(),
                        final(self).graph().edges_view(), node_path@, target)
                        && res == if !facts.source_on_disk && !facts.target_parent_is_dir {
                            Err::<(), ServiceError>(ServiceError::VirtualTargetNotDirectory)
                        } else {
                            Ok::<(), ServiceError>(())
                        },
                }
            },
    {
        if !self.data.is_indexed(target_parent) {
            match &facts.target_parent_entry {
                Some(entry) => {
                    self.index_node(entry.duplicate());
                },
                None => {
                    return Err(ServiceError::TargetMissing);
                },
            }
        }
        match self.move_node_in_database(node_path, target_parent) {
            Ok(()) => {},
            Err(e) => {
                return Err(ServiceError::Index(e));
            },
        }
        if !facts.source_on_disk && !facts.target_parent_is_dir {
            return Err(ServiceError::VirtualTargetNotDirectory);
        }
        Ok(())
    }

    /// Moves a node under `target_parent` in the index, under `new_name`
    /// when given and its own name otherwise, made unique among the entries
    /// on disk and the indexed nodes there (see `generate_unique_name`).
    /// A target parent that is not indexed but is a directory on disk is
    /// indexed first. A node that is neither on disk nor indexed is refused.
    /// After the index is updated, a node that is not on disk and changes
    /// parent may only go to a directory on disk. Gives the node's new
    /// path; moving the entry on disk is left to the caller.
    pub fn move_node_with_rename(&mut self, node_path: &NodePath, target_parent: &NodePath, new_name: Option<&str>, facts: &MoveFacts) -> (res: Result<NodePath, ServiceError>)
        requires
            old(self).wf(),
        ensures
            final(self).wf(),
            final(self).vault_view() == old(self).vault_view(),
            final(self).storage_view() == old(self).storage_view(),
            exists|k: nat| #[trigger] renaming_move(old(self).graph().nodes_view(), old(self).graph().edges_view(),
                final(self).graph().nodes_view(), final(self).graph().edges_view(), node_path@, target_parent@,
                text_option(new_name), *facts, res, k),
    {
        let own_name = node_path.name();
        let desired: &str = match new_name {
            Some(n) => n,
            None => own_name.as_str(),
        };
        let final_name = self.generate_unique_name(target_parent, desired, &facts.target_entries);
        let target_node_path = target_parent.join(final_name.as_str());
        let ghost nodes0 = self.graph().nodes_view();
        let ghost edges0 = self.graph().edges_view();
        let ghost k = choose|k: nat| #[trigger] candidate_name(desired@, k) == final_name@
            && first_free_child_attempt(nodes0, target_parent@, name_views(facts.target_entries@), desired@, k);
        if !self.data.is_indexed(target_parent) && facts.target_parent_is_dir {
            match &facts.target_parent_entry {
                Some(entry) => {
                    self.index_node(entry.duplicate());
                },
                None => {},
            }
        }
        let ghost nodes1 = self.graph().nodes_view();
        let ghost edges1 = self.graph().edges_view();
        assert(nodes1 == with_target_parent(nodes0, target_parent@, facts.target_parent_entry, facts.target_parent_is_dir));
        assert(edges1 == with_target_parent_edges(nodes0, edges0, target_parent@, facts.target_parent_entry, facts.target_parent_is_dir));
        assert(desired@ == desired_name(node_path@, text_option(new_name)));
        assert(target_node_path@ == join_alias(target_parent@, candidate_name(desired@, k)));
        let source_is_indexed = self.data.is_indexed(node_path);
        if !facts.source_on_disk && !source_is_indexed {
            assert(renaming_move(nodes0, edges0, self.graph().nodes_view(), self.graph().edges_view(), node_path@, target_parent@,
                text_option(new_name), *facts, Err(ServiceError::VirtualNodeMissing), k));
            return Err(ServiceError::VirtualNodeMissing);
        }
        if source_is_indexed {
            match self.move_node_in_database_with_target(node_path, &target_node_path) {
                Ok(()) => {},
                Err(e) => {
                    assert(renaming_move(nodes0, edges0, self.graph().nodes_view(), self.graph().edges_view(), node_path@, target_parent@,
                        text_option(new_name), *facts, Err(ServiceError::Index(e)), k));
                    return Err(ServiceError::Index(e));
                },
            }
        } else {
            proof {
                // Nothing indexed at the source: the index stays as it is.
                assert(move_refusal(nodes1, edges1, node_path@, target_node_path@) is None);
            }
        }
        if !facts.source_on_disk {
            let same_parent = match node_path.parent() {
                Some(pp) => same_text(pp.alias_str(), target_parent.alias_str()),
                None => false,
            };
            assert(same_parent == (parent_alias(node_path@) == Some(target_parent@)));
            if !same_parent && !facts.target_parent_is_dir {
                assert(renaming_move(nodes0, edges0, self.graph().nodes_view(), self.graph().edges_view(), node_path@, target_parent@,
                    text_option(new_name), *facts, Err(ServiceError::VirtualTargetNotDirectory), k));
                return Err(ServiceError::VirtualTargetNotDirectory);
            }
        }
        let ghost answer: Result<NodePath, ServiceError> = Ok(target_node_path);
        assert(renaming_move(nodes0, edges0, self.graph().nodes_view(), self.graph().edges_view(), node_path@, target_parent@,
            text_option(new_name), *facts, answer, k));
        Ok(target_node_path)
    }
}

/// The lower-case hexadecimal digit for `d < 16`.
pub open spec fn hex_digit(d: nat) -> char {
    if d < 10 {
        (d + '0' as nat) as char
    } else {
        (d - 10 + 'a' as nat) as char
    }
}

/// The last `n` hexadecimal digits of `v`, most significant first.
pub open spec fn hex_digits(v: nat, n: nat) -> Seq<char>
    decreases n,
{
    if n == 0 {
        Seq::empty()
    } else {
        hex_digits(v / 16, (n - 1) as nat).push(hex_digit(v % 16))
    }
}

/// The hyphenated lower-case text of a UUID: its 32 hexadecimal digits,
/// most significant first, in groups of 8, 4, 4, 4 and 12 joined by `-`.
pub open spec fn uuid_text(uuid: u128) -> Seq<char> {
    let h = hex_digits(uuid as nat, 32);
    h.subrange(0, 8) + seq!['-'] + h.subrange(8, 12) + seq!['-'] + h.subrange(12, 16) + seq!['-']
        + h.subrange(16, 20) + seq!['-'] + h.subrange(20, 32)
}

/// Trusted: writes the UUID with the number through `uuid::Uuid`'s
/// `Display`: `Uuid::from_u128` takes the number's bytes most significant
/// first, and the text is the hyphenated lower-case form of them.
#[verifier::external_body]
fn format_uuid(uuid: u128) -> (res: String)
    ensures
        res@ == uuid_text(uuid),
{
    uuid::Uuid::from_u128(uuid).to_string()
}

/// The view of an optional node.
pub open spec fn node_option(o: Option<DataNode>) -> Option<NodeView> {
    match o {
        Some(n) => Some(n@),
        None => None,
    }
}

/// The indexed node a handle names, if any.
pub open spec fn indexed_node(nodes: Seq<NodeView>, handle: NodeHandle) -> Option<NodeView> {
    match handle {
        NodeHandle::Uuid(u) => if has_uuid(nodes, u) {
            Some(nodes[choose|i: int| node_at_uuid(nodes, u, i)])
        } else {
            None
        },
        NodeHandle::Path(p) => if has_path(nodes, p@) {
            Some(node_at_path(nodes, p@))
        } else {
            None
        },
    }
}

/// The node a handle opens: the indexed one, or for a path that is not
/// indexed, the entry on disk.
pub open spec fn opened_node(nodes: Seq<NodeView>, handle: NodeHandle, on_disk: Option<NodeView>) -> Option<NodeView> {
    match handle {
        NodeHandle::Path(p) => if has_path(nodes, p@) {
            indexed_node(nodes, handle)
        } else {
            on_disk
        },
        NodeHandle::Uuid(_) => indexed_node(nodes, handle),
    }
}

/// The identifiers of the indexed nodes below `dir`, in index order.
pub open spec fn descendant_ids(nodes: Seq<NodeView>, dir: Seq<char>) -> Seq<u128> {
    nodes.filter(|n: NodeView| below(n.path, dir)).map_values(|n: NodeView| n.uuid)
}

/// The texts of a list of identifiers.
pub open spec fn uuid_texts(ids: Seq<u128>) -> Seq<Seq<char>> {
    ids.map_values(|u: u128| uuid_text(u))
}

/// The warning given before deleting a directory with `count` indexed
/// descendants.
pub open spec fn directory_warning(path: Seq<char>, count: nat) -> Seq<char> {
    "Deleting directory '"@ + path + "' will also delete "@ + decimal(count) + " descendants"@
}

/// The warning, if any, for deleting what a handle names: only an indexed
/// directory gets one.
pub open spec fn deletion_warning(nodes: Seq<NodeView>, handle: NodeHandle) -> Option<Seq<char>> {
    match indexed_node(nodes, handle) {
        Some(n) => if n.is_dir {
            Some(directory_warning(n.path, nodes.filter(|m: NodeView| below(m.path, n.path)).len()))
        } else {
            None
        },
        None => None,
    }
}

/// The warnings for a list of handles, in order.
pub open spec fn deletion_warnings_for(nodes: Seq<NodeView>, handles: Seq<NodeHandle>) -> Seq<Seq<char>>
    decreases handles.len(),
{
    if handles.len() == 0 {
        Seq::empty()
    } else {
        let rest = deletion_warnings_for(nodes, handles.drop_last());
        match deletion_warning(nodes, handles.last()) {
            Some(w) => rest.push(w),
            None => rest,
        }
    }
}

/// The message for a refused deletion of a system node.
pub fn system_node_message(handle_text: &str, path: &str) -> (res: String)
    ensures
        res@ == "Cannot delete system node: "@ + handle_text@ + " (path: "@ + path@ + ")"@,
{
    let mut out = String::from_str("Cannot delete system node: ");
    out.append(handle_text);
    out.append(" (path: ");
    out.append(path);
    out.append(")");
    out
}

/// A deletion that passed its checks.
pub struct PendingDeletion {
    /// The node to delete.
    pub node: DataNode,
    /// The node was indexed when the deletion was checked.
    pub is_indexed: bool,
}

pub proof fn lemma_indexed_node(nodes: Seq<NodeView>, handle: NodeHandle, n: NodeView)
    requires
        forall|i: int, j: int| 0 <= i < j < nodes.len() ==> #[trigger] nodes[i].uuid != #[trigger] nodes[j].uuid,
        match handle {
            NodeHandle::Uuid(u) => indexed_with(nodes, u, n),
            NodeHandle::Path(p) => indexed_at(nodes, p@, n),
        },
    ensures
        indexed_node(nodes, handle) == Some(n),
{
    match handle {
        NodeHandle::Uuid(u) => {
            let i = choose|i: int| node_at_uuid(nodes, u, i) && nodes[i] == n;
            let c = choose|c: int| node_at_uuid(nodes, u, c);
            if c != i {
                if c < i {
                    assert(nodes[c].uuid != nodes[i].uuid);
                } else {
                    assert(nodes[i].uuid != nodes[c].uuid);
                }
            }
        },
        NodeHandle::Path(p) => {},
    }
}

impl KartaService {
    /// Looks up what a handle names in the index only.
    fn lookup_indexed(&self, handle: &NodeHandle) -> (res: Option<DataNode>)
        requires
            self.wf(),
        ensures
            node_option(res) == indexed_node(self.graph().nodes_view(), *handle),
    {
        let res = match handle {
            NodeHandle::Uuid(u) => self.data.open_by_uuid(*u),
            NodeHandle::Path(p) => self.data.open_by_path(p),
        };
        proof {
            if res is Some {
                lemma_indexed_node(self.graph().nodes_view(), *handle, res.unwrap()@);
            }
        }
        res
    }

    /// Checks a deletion: the handle must open a node (see `open_node`),
    /// and the node must lie in the vault. Tells whether it is indexed.
    pub fn prepare_deletion(&self, handle: &NodeHandle, on_disk: Option<DataNode>) -> (res: Result<PendingDeletion, ServiceError>)
        requires
            self.wf(),
        ensures
            match opened_node(self.graph().nodes_view(), *handle, node_option(on_disk)) {
                None => res == Err::<PendingDeletion, ServiceError>(ServiceError::NotFound),
                Some(n) => if !deletable_alias(n.path) {
                    res == Err::<PendingDeletion, ServiceError>(ServiceError::SystemNode)
                } else {
                    res is Ok && res.unwrap().node@ == n && res.unwrap().is_indexed == has_uuid(self.graph().nodes_view(), n.uuid)
                },
            },
    {
        let opened = self.open_node(handle, on_disk);
        proof {
            if opened is Some && (handle is Uuid || has_path(self.graph().nodes_view(), handle->Path_0@)) {
                lemma_indexed_node(self.graph().nodes_view(), *handle, opened.unwrap()@);
            }
        }
        let node = match opened {
            Some(n) => n,
            None => {
                return Err(ServiceError::NotFound);
            },
        };
        if !is_deletable(&node.path) {
            return Err(ServiceError::SystemNode);
        }
        let is_indexed = self.data.open_by_uuid(node.uuid).is_some();
        Ok(PendingDeletion { node, is_indexed })
    }

    /// First step of a deletion: an indexed directory loses its indexed
    /// descendants, with their edges. Gives their identifiers.
    pub fn delete_descendants(&mut self, pending: &PendingDeletion) -> (res: Vec<u128>)
        requires
            old(self).wf(),
        ensures
            final(self).wf(),
            final(self).vault_view() == old(self).vault_view(),
            final(self).storage_view() == old(self).storage_view(),
            pending.node.is_dir && pending.is_indexed ==> {
                &&& res@ == descendant_ids(old(self).graph().nodes_view(), pending.node.path@)
                &&& final(self).graph().nodes_view() == nodes_without(old(self).graph().nodes_view(), res@)
                &&& final(self).graph().edges_view() == edges_without(old(self).graph().edges_view(), res@)
            },
            !(pending.node.is_dir && pending.is_indexed) ==> res@.len() == 0 && final(self).graph() == old(self).graph(),
    {
        let mut ids: Vec<u128> = Vec::new();
        if !(pending.node.is_dir && pending.is_indexed) {
            return ids;
        }
        let below_nodes = self.data.descendants(&pending.node.path);
        let ghost kept = self.graph().nodes_view().filter(|n: NodeView| below(n.path, pending.node.path@));
        let mut i: usize = 0;
        while i < below_nodes.len()
            invariant
                i <= below_nodes@.len(),
                below_nodes@.map_values(|n: DataNode| n@) == kept,
                ids@ == kept.subrange(0, i as int).map_values(|n: NodeView| n.uuid),
            decreases below_nodes@.len() - i,
        {
            let ghost before = ids@;
            ids.push(below_nodes[i].uuid);
            assert(kept[i as int] == below_nodes@[i as int]@);
            assert(ids@ =~= kept.subrange(0, i + 1).map_values(|n: NodeView| n.uuid));
            i = i + 1;
        }
        assert(kept.subrange(0, kept.len() as int) =~= kept);
        self.data.remove_nodes(&ids);
        ids
    }

    /// Last step of a deletion, once the entry on disk, if any, went to the
    /// trash: an indexed node is removed with its edges. Gives the record of
    /// the deletion: the node, the edges it had, the descendants removed
    /// before, and whether it was on disk.
    pub fn finish_deletion(&mut self, pending: &PendingDeletion, descendants: &Vec<u128>, was_physical: bool) -> (res: DeletedNodeInfo)
        requires
            old(self).wf(),
        ensures
            final(self).wf(),
            final(self).vault_view() == old(self).vault_view(),
            final(self).storage_view() == old(self).storage_view(),
            pending.is_indexed ==> {
                &&& final(self).graph().nodes_view() == nodes_apart(old(self).graph().nodes_view(), pending.node.uuid)
                &&& final(self).graph().edges_view() == edges_apart(old(self).graph().edges_view(), pending.node.uuid)
                &&& res.edge_snapshots@ == old(self).graph().edges_view().filter(|e: Edge| touches(e, pending.node.uuid))
            },
            !pending.is_indexed ==> final(self).graph() == old(self).graph() && res.edge_snapshots@.len() == 0,
            res.node_id@ == uuid_text(pending.node.uuid),
            res.node_path@ == pending.node.path@,
            res.node_type@ == pending.node.ntype@,
            res.was_physical == was_physical,
            name_views(res.descendants_deleted@) == uuid_texts(descendants@),
            res.node_snapshot@ == pending.node@,
            res.context_removals@.len() == 0,
    {
        let mut edges: Vec<Edge> = Vec::new();
        if pending.is_indexed {
            edges = self.data.edges_of(pending.node.uuid);
            self.data.delete_node_and_edges(pending.node.uuid);
        }
        let mut texts: Vec<String> = Vec::new();
        let mut i: usize = 0;
        while i < descendants.len()
            invariant
                i <= descendants@.len(),
                name_views(texts@) == uuid_texts(descendants@.subrange(0, i as int)),
            decreases descendants@.len() - i,
        {
            let ghost before = name_views(texts@);
            texts.push(format_uuid(descendants[i]));
            assert(name_views(texts@) =~= before.push(uuid_text(descendants@[i as int])));
            assert(descendants@.subrange(0, i + 1) =~= descendants@.subrange(0, i as int).push(descendants@[i as int]));
            assert(name_views(texts@) =~= uuid_texts(descendants@.subrange(0, i + 1)));
            i = i + 1;
        }
        assert(descendants@.subrange(0, descendants@.len() as int) =~= descendants@);
        DeletedNodeInfo {
            node_id: format_uuid(pending.node.uuid),
            node_path: pending.node.path.alias(),
            node_type: pending.node.ntype.clone(),
            was_physical,
            descendants_deleted: texts,
            node_snapshot: pending.node.duplicate(),
            edge_snapshots: edges,
            context_removals: Vec::new(),
        }
    }

    /// The warnings given before deleting what the handles name: one for
    /// each indexed directory among them, with the number of its indexed
    /// descendants.
    pub fn deletion_warnings(&self, handles: &Vec<NodeHandle>) -> (res: Vec<String>)
        requires
            self.wf(),
        ensures
            name_views(res@) == deletion_warnings_for(self.graph().nodes_view(), handles@),
    {
        let mut out: Vec<String> = Vec::new();
        let mut i: usize = 0;
        while i < handles.len()
            invariant
                self.wf(),
                i <= handles@.len(),
                name_views(out@) == deletion_warnings_for(self.graph().nodes_view(), handles@.subrange(0, i as int)),
            decreases handles@.len() - i,
        {
            let ghost before = name_views(out@);
            assert(handles@.subrange(0, i + 1).drop_last() =~= handles@.subrange(0, i as int));
            match self.lookup_indexed(&handles[i]) {
                Some(node) => {
                    if node.is_dir {
                        let below_nodes = self.data.descendants(&node.path);
                        let mut w = String::from_str("Deleting directory '");
                        w.append(node.path.alias_str());
                        w.append("' will also delete ");
                        push_decimal(&mut w, below_nodes.len() as u128);
                        w.append(" descendants");
                        proof {
                            let kept = self.graph().nodes_view().filter(|m: NodeView| below(m.path, node@.path));
                            assert(below_nodes@.map_values(|n: DataNode| n@).len() == kept.len());
                            assert(w@ =~= directory_warning(node@.path, kept.len()));
                        }
                        out.push(w);
                        assert(name_views(out@) =~= before.push(directory_warning(node@.path,
                            self.graph().nodes_view().filter(|m: NodeView| below(m.path, node@.path)).len())));
                    }
                },
                None => {},
            }
            i = i + 1;
        }
        assert(handles@.subrange(0, handles@.len() as int) =~= handles@);
        out
    }
}

/// The node that stands at a path for an edge: the indexed one, else the
/// entry on disk.
pub open spec fn end_node(nodes: Seq<NodeView>, path: Seq<char>, on_disk: Option<DataNode>) -> NodeView {
    if has_path(nodes, path) {
        node_at_path(nodes, path)
    } else {
        on_disk.unwrap()@
    }
}

/// The nodes once an end of a new edge is indexed.
pub open spec fn with_end(nodes: Seq<NodeView>, path: Seq<char>, on_disk: Option<DataNode>) -> Seq<NodeView> {
    if has_path(nodes, path) {
        nodes
    } else {
        with_node(nodes, on_disk.unwrap()@)
    }
}

/// The edges once an end of a new edge is indexed.
pub open spec fn with_end_edges(nodes: Seq<NodeView>, edges: Seq<Edge>, path: Seq<char>, on_disk: Option<DataNode>) -> Seq<Edge> {
    if has_path(nodes, path) {
        edges
    } else {
        with_node_edges(nodes, edges, on_disk.unwrap()@)
    }
}

/// The outcome of creating an edge from the node at `source` to the node at
/// `target`: ends that are not indexed are indexed from disk first (the
/// source, then the target), then the edge is added when both its ends are
/// indexed.
pub open spec fn edge_creation(nodes0: Seq<NodeView>, edges0: Seq<Edge>, nodes: Seq<NodeView>, edges: Seq<Edge>, source: Seq<char>, target: Seq<char>, source_on_disk: Option<DataNode>, target_on_disk: Option<DataNode>, res: Option<Edge>) -> bool {
    let s = end_node(nodes0, source, source_on_disk);
    let nodes1 = with_end(nodes0, source, source_on_disk);
    let edges1 = with_end_edges(nodes0, edges0, source, source_on_disk);
    let t = end_node(nodes1, target, target_on_disk);
    let nodes2 = with_end(nodes1, target, target_on_disk);
    let edges2 = with_end_edges(nodes1, edges1, target, target_on_disk);
    let e = Edge { source: s.uuid, target: t.uuid, contains: false };
    &&& nodes == nodes2
    &&& if has_uuid(nodes2, e.source) && has_uuid(nodes2, e.target) {
        res == Some(e) && edges == edges2.push(e)
    } else {
        res is None && edges == edges2
    }
}

/// The edges once a new end of a reconnected edge is indexed.
pub open spec fn with_new_end_edges(nodes: Seq<NodeView>, edges: Seq<Edge>, uuid: u128, entry: Option<DataNode>) -> Seq<Edge> {
    if has_uuid(nodes, uuid) {
        edges
    } else {
        with_node_edges(nodes, edges, entry.unwrap()@)
    }
}

/// The nodes once a new end of a reconnected edge is indexed: when no node
/// has the identifier, the entry on disk is offered to the index.
pub open spec fn with_new_end(nodes: Seq<NodeView>, uuid: u128, entry: Option<DataNode>) -> Seq<NodeView> {
    if has_uuid(nodes, uuid) {
        nodes
    } else {
        with_node(nodes, entry.unwrap()@)
    }
}

impl KartaService {
    /// The node at `path`, indexed from its entry on disk when not indexed
    /// yet.
    fn index_end(&mut self, path: &NodePath, on_disk: &Option<DataNode>) -> (res: DataNode)
        requires
            old(self).wf(),
            has_path(old(self).graph().nodes_view(), path@) || on_disk is Some,
        ensures
            final(self).wf(),
            final(self).vault_view() == old(self).vault_view(),
            final(self).storage_view() == old(self).storage_view(),
            res@ == end_node(old(self).graph().nodes_view(), path@, *on_disk),
            final(self).graph().nodes_view() == with_end(old(self).graph().nodes_view(), path@, *on_disk),
            final(self).graph().edges_view() == with_end_edges(old(self).graph().nodes_view(), old(self).graph().edges_view(), path@, *on_disk),
    {
        match self.data.open_by_path(path) {
            Some(n) => {
                n
            },
            None => {
                let entry = on_disk.as_ref().unwrap().duplicate();
                self.index_node(entry.duplicate());
                entry
            },
        }
    }

    /// Creates an edge from the node at `source` to the node at `target`.
    /// An end that is not indexed is indexed from its entry on disk first;
    /// each end must be indexed or on disk. Gives the edge when it was
    /// added.
    pub fn create_edge(&mut self, source: &NodePath, target: &NodePath, source_on_disk: Option<DataNode>, target_on_disk: Option<DataNode>) -> (res: Option<Edge>)
        requires
            old(self).wf(),
            has_path(old(self).graph().nodes_view(), source@) || source_on_disk is Some,
            has_path(old(self).graph().nodes_view(), target@) || target_on_disk is Some,
        ensures
            final(self).wf(),
            final(self).vault_view() == old(self).vault_view(),
            final(self).storage_view() == old(self).storage_view(),
            edge_creation(old(self).graph().nodes_view(), old(self).graph().edges_view(), final(self).graph().nodes_view(),
                final(self).graph().edges_view(), source@, target@, source_on_disk, target_on_disk, res),
    {
        let s = self.index_end(source, &source_on_disk);
        proof {
            // An indexed path stays indexed when a node is offered.
            if has_path(old(self).graph().nodes_view(), target@) {
                let i = choose|i: int| 0 <= i < old(self).graph().nodes_view().len() && #[trigger] old(self).graph().nodes_view()[i].path == target@;
                assert(self.graph().nodes_view()[i] == old(self).graph().nodes_view()[i]);
            }
        }
        let t = self.index_end(target, &target_on_disk);
        let e = Edge { source: s.uuid, target: t.uuid, contains: false };
        if self.data.insert_edge(e) {
            Some(e)
        } else {
            None
        }
    }

    /// Gives the first edge from `old_from` to `old_to` the ends `new_from`
    /// and `new_to`. A new end that no indexed node has is first indexed
    /// from its entry on disk, and the change is refused when it has none;
    /// then the index decides (see `reconnect_refusal`).
    pub fn reconnect_edge(&mut self, old_from: u128, old_to: u128, new_from: u128, new_to: u128, new_from_entry: Option<DataNode>, new_to_entry: Option<DataNode>) -> (res: Result<Edge, ServiceError>)
        requires
            old(self).wf(),
        ensures
            final(self).wf(),
            final(self).vault_view() == old(self).vault_view(),
            final(self).storage_view() == old(self).storage_view(),
            !has_uuid(old(self).graph().nodes_view(), new_from) && new_from_entry is None ==> res == Err::<Edge, ServiceError>(ServiceError::NotFound)
                && final(self).graph() == old(self).graph(),
            has_uuid(old(self).graph().nodes_view(), new_from) || new_from_entry is Some ==> {
                let nodes1 = with_new_end(old(self).graph().nodes_view(), new_from, new_from_entry);
                let edges1 = with_new_end_edges(old(self).graph().nodes_view(), old(self).graph().edges_view(), new_from, new_from_entry);
                &&& !has_uuid(nodes1, new_to) && new_to_entry is None ==> res == Err::<Edge, ServiceError>(ServiceError::NotFound)
                    && final(self).graph().nodes_view() == nodes1 && final(self).graph().edges_view() == edges1
                &&& has_uuid(nodes1, new_to) || new_to_entry is Some ==> {
                    let nodes2 = with_new_end(nodes1, new_to, new_to_entry);
                    let edges2 = with_new_end_edges(nodes1, edges1, new_to, new_to_entry);
                    &&& final(self).graph().nodes_view() == nodes2
                    &&& match reconnect_refusal(nodes2, edges2, old_from, old_to, new_from, new_to) {
                        Some(e) => res == Err::<Edge, ServiceError>(ServiceError::Index(e)) && final(self).graph().edges_view() == edges2,
                        None => res == Ok::<Edge, ServiceError>(Edge { source: new_from, target: new_to, contains: false })
                            && final(self).graph().edges_view() == edges2.update(first_edge_between(edges2, old_from, old_to),
                                Edge { source: new_from, target: new_to, contains: false }),
                    }
                }
            },
    {
        if self.data.open_by_uuid(new_from).is_none() {
            match &new_from_entry {
                Some(n) => self.index_node(n.duplicate()),
                None => {
                    return Err(ServiceError::NotFound);
                },
            }
        }
        if self.data.open_by_uuid(new_to).is_none() {
            match &new_to_entry {
                Some(n) => self.index_node(n.duplicate()),
                None => {
                    return Err(ServiceError::NotFound);
                },
            }
        }
        match self.data.reconnect_edge(old_from, old_to, new_from, new_to) {
            Ok(e) => Ok(e),
            Err(e) => Err(ServiceError::Index(e)),
        }
    }

    /// Deletes the edges whose ends are those of one of the requests in
    /// `payload`; refused, changing nothing, when one of them is a
    /// `contains` edge.
    pub fn delete_edges(&mut self, payload: &Vec<DeleteEdgePayload>) -> (res: Result<(), GraphError>)
        requires
            old(self).wf(),
        ensures
            final(self).wf(),
            final(self).vault_view() == old(self).vault_view(),
            final(self).storage_view() == old(self).storage_view(),
            final(self).graph().nodes_view() == old(self).graph().nodes_view(),
            res is Err <==> exists|k: int| 0 <= k < old(self).graph().edges_view().len()
                && #[trigger] named_by(old(self).graph().edges_view()[k], payload_pairs(payload@))
                && old(self).graph().edges_view()[k].contains,
            res is Err ==> res == Err::<(), GraphError>(GraphError::ContainsEdge)
                && final(self).graph().edges_view() == old(self).graph().edges_view(),
            res is Ok ==> final(self).graph().edges_view() == old(self).graph().edges_view().filter(
                |e: Edge| !named_by(e, payload_pairs(payload@))),
    {
        let mut pairs: Vec<(u128, u128)> = Vec::new();
        let mut k: usize = 0;
        while k < payload.len()
            invariant
                k <= payload@.len(),
                pairs@ == payload_pairs(payload@.subrange(0, k as int)),
            decreases payload@.len() - k,
        {
            pairs.push((payload[k].source, payload[k].target));
            proof {
                assert(payload_pairs(payload@.subrange(0, k + 1)) =~= payload_pairs(payload@.subrange(0, k as int)).push(
                    (payload@[k as int].source, payload@[k as int].target)));
            }
            k = k + 1;
        }
        assert(payload@.subrange(0, payload@.len() as int) =~= payload@);
        self.data.delete_edges(&pairs)
    }
}

impl KartaService {
    /// Fuzzy search over the paths of the graph (those on disk,
    /// `physical_paths`, and the indexed ones, each once, as
    /// `listed_paths` orders them): the matches
    /// ranked by descending score and cut to `limit` (see
    /// `ranked_outcome`), and for each result the indexed node at its path,
    /// if any.
    pub fn search_nodes(&self, query: &str, limit: usize, physical_paths: &Vec<String>) -> (res: (RankedSearch, Vec<Option<DataNode>>))
        requires
            self.wf(),
        ensures
            exists|all: Seq<String>| {
                &&& name_views(all) == listed_paths(name_views(physical_paths@), self.graph().nodes_view())
                &&& name_views(all).no_duplicates()
                &&& forall|x: Seq<char>| #[trigger] name_views(all).contains(x) <==> (name_views(physical_paths@).contains(x)
                    || indexed_paths(self.graph().nodes_view()).contains(x))
                &&& #[trigger] ranked_outcome(all, query@, limit, res.0)
            },
            res.1@.len() == res.0.results@.len(),
            forall|k: int| 0 <= k < res.1@.len() ==> match #[trigger] res.1@[k] {
                Some(n) => indexed_at(self.graph().nodes_view(), res.0.results@[k].path@, n@),
                None => !has_path(self.graph().nodes_view(), res.0.results@[k].path@),
            },
    {
        let all = self.get_paths(false, physical_paths);
        let ranked = rank_paths(&all, query, limit);
        let mut nodes: Vec<Option<DataNode>> = Vec::new();
        let mut k: usize = 0;
        while k < ranked.results.len()
            invariant
                k <= ranked.results@.len(),
                nodes@.len() == k,
                forall|j: int| 0 <= j < k ==> match #[trigger] nodes@[j] {
                    Some(n) => indexed_at(self.graph().nodes_view(), ranked.results@[j].path@, n@),
                    None => !has_path(self.graph().nodes_view(), ranked.results@[j].path@),
                },
            decreases ranked.results@.len() - k,
        {
            let found = self.data.open_by_alias(ranked.results[k].path.as_str());
            nodes.push(found);
            k = k + 1;
        }
        proof {
            assert(ranked_outcome(all@, query@, limit, ranked));
            assert(name_views(all@) == listed_paths(name_views(physical_paths@), self.graph().nodes_view()));
            assert(name_views(all@).no_duplicates());
            assert(forall|x: Seq<char>| #[trigger] name_views(all@).contains(x) <==> (name_views(physical_paths@).contains(x)
                || indexed_paths(self.graph().nodes_view()).contains(x)));
        }
        let res = (ranked, nodes);
        assert(ranked_outcome(all@, query@, limit, res.0));
        res
    }
}

} // verus!
