use vstd::prelude::*;
use crate::text::{find_last_char, has_prefix, last_index_of, lemma_last_index_of, push_char, same_text, starts_with};
use crate::unique_name::{contains_name, name_views};

verus! {

/// A node listed in a saved context file, with the edges of its own saved
/// context when it has one.
pub struct FileNodeView {
    pub path: String,
    pub own_edges: Option<Vec<(String, String)>>,
}

/// A saved context file: its focal path, its nodes and its edges.
pub struct ContextFileView {
    pub nself: String,
    pub nodes: Vec<FileNodeView>,
    pub edges: Vec<(String, String)>,
}

/// What changing the graph view to a new context does: the shown nodes
/// that stay, the nodes to spawn, in order, and the edges to spawn
/// between paths, each once.
pub struct ContextUpdatePlan {
    pub keep: Vec<String>,
    pub spawn: Vec<String>,
    pub edges: Vec<(String, String)>,
}

/// The texts of a list of path pairs.
pub open spec fn pair_views(s: Seq<(String, String)>) -> Seq<(Seq<char>, Seq<char>)> {
    s.map_values(|p: (String, String)| (p.0@, p.1@))
}

/// `p` is joined to the file's focal path by one of the file's edges.
pub open spec fn file_neighbour(file: ContextFileView, p: Seq<char>) -> bool {
    exists|i: int| 0 <= i < file.edges@.len() && {
        let e = #[trigger] file.edges@[i];
        (e.0@ == file.nself@ && e.1@ == p) || (e.1@ == file.nself@ && e.0@ == p)
    }
}

/// A shown node stays: it is the new context's root, or the context has a
/// file that lists it or joins it to its focal node.
pub open spec fn stays(root: Seq<char>, file: Option<ContextFileView>, p: Seq<char>) -> bool {
    p == root || match file {
        Some(f) => name_views(f.nodes@.map_values(|n: FileNodeView| n.path)).contains(p) || file_neighbour(f, p),
        None => false,
    }
}

/// The file nodes that get spawned: those with a saved context of their
/// own that are neither `taken` (shown, or the root) nor spawned already.
pub open spec fn file_spawns(nodes: Seq<FileNodeView>, taken: Seq<Seq<char>>) -> Seq<Seq<char>>
    decreases nodes.len(),
{
    if nodes.len() == 0 {
        Seq::empty()
    } else {
        let r = file_spawns(nodes.drop_last(), taken);
        let n = nodes.last();
        if n.own_edges is Some && !taken.contains(n.path@) && !r.contains(n.path@) {
            r.push(n.path@)
        } else {
            r
        }
    }
}

/// The edges of the saved contexts of the file nodes that get spawned.
pub open spec fn file_spawn_edges(nodes: Seq<FileNodeView>, taken: Seq<Seq<char>>) -> Seq<(Seq<char>, Seq<char>)>
    decreases nodes.len(),
{
    if nodes.len() == 0 {
        Seq::empty()
    } else {
        let r = file_spawn_edges(nodes.drop_last(), taken);
        let n = nodes.last();
        if n.own_edges is Some && !taken.contains(n.path@) && !file_spawns(nodes.drop_last(), taken).contains(n.path@) {
            r + pair_views(n.own_edges->0@)
        } else {
            r
        }
    }
}

/// The adjacent nodes on disk that get spawned: those not spawned by the
/// update yet (`done`), each once.
pub open spec fn adjacent_spawns(adjacent: Seq<Seq<char>>, done: Seq<Seq<char>>) -> Seq<Seq<char>>
    decreases adjacent.len(),
{
    if adjacent.len() == 0 {
        Seq::empty()
    } else {
        let r = adjacent_spawns(adjacent.drop_last(), done);
        let p = adjacent.last();
        if done.contains(p) || r.contains(p) {
            r
        } else {
            r.push(p)
        }
    }
}

/// The pairs with the first of each kept, in order.
pub open spec fn dedup_pairs(s: Seq<(Seq<char>, Seq<char>)>) -> Seq<(Seq<char>, Seq<char>)>
    decreases s.len(),
{
    if s.len() == 0 {
        Seq::empty()
    } else {
        let r = dedup_pairs(s.drop_last());
        if r.contains(s.last()) {
            r
        } else {
            r.push(s.last())
        }
    }
}

/// The plan for changing the view to the context at `root`, given the
/// paths of the nodes `shown`, the context's saved file, if any, and the
/// nodes on disk next to it (`adjacent`: its parent and, for a directory,
/// its entries).
pub open spec fn context_update(shown: Seq<Seq<char>>, root: Seq<char>, file: Option<ContextFileView>, adjacent: Seq<Seq<char>>) -> (Seq<Seq<char>>, Seq<Seq<char>>, Seq<(Seq<char>, Seq<char>)>) {
    let keep = shown.filter(|p: Seq<char>| stays(root, file, p));
    let root_spawn: Seq<Seq<char>> = if shown.contains(root) { Seq::empty() } else { seq![root] };
    let taken = shown.push(root);
    let fs: Seq<Seq<char>> = match file { Some(f) => file_spawns(f.nodes@, taken), None => Seq::empty() };
    let fe: Seq<(Seq<char>, Seq<char>)> = match file { Some(f) => pair_views(f.edges@) + file_spawn_edges(f.nodes@, taken), None => Seq::empty() };
    let adj = adjacent_spawns(adjacent, seq![root] + fs);
    let edges = dedup_pairs(fe + adj.map_values(|p: Seq<char>| (p, root)));
    (keep, root_spawn + fs + adj, edges)
}

/// The context the view changes to after a node input: the node that was
/// last picked, else the current context; `None` when that is the current
/// context already and not the root.
pub fn context_change_target(latest: Option<&str>, current: &str, root: &str) -> (res: Option<String>)
    ensures
        ({
            let path = match latest { Some(l) => l@, None => current@ };
            &&& path == current@ && path != root@ ==> res is None
            &&& !(path == current@ && path != root@) ==> res is Some && res->0@ == path
        }),
{
    let path: &str = match latest {
        Some(l) => l,
        None => current,
    };
    if same_text(path, current) && !same_text(path, root) {
        None
    } else {
        Some(String::from_str(path))
    }
}

/// `s` with every occurrence of `pat` removed, scanning from the left as
/// `str::replace` with an empty replacement does (an empty `pat` removes
/// nothing).
pub open spec fn remove_all(s: Seq<char>, pat: Seq<char>) -> Seq<char>
    decreases s.len(),
{
    if pat.len() == 0 || s.len() == 0 {
        s
    } else if has_prefix(s, pat) {
        remove_all(s.subrange(pat.len() as int, s.len() as int), pat)
    } else {
        seq![s[0]] + remove_all(s.drop_first(), pat)
    }
}

/// The part of `path` after its last `/` (all of it without one).
pub open spec fn last_segment(path: Seq<char>) -> Seq<char> {
    match last_index_of(path, '/') {
        Some(i) => path.subrange(i + 1, path.len() as int),
        None => path,
    }
}

/// The parent the graph view gives a context root at `path`: the path with
/// every occurrence of its last segment removed, without its last
/// character.
pub open spec fn root_parent(path: Seq<char>) -> Seq<char> {
    remove_all(path, last_segment(path)).drop_last()
}

/// The name and the parent the graph view gives a context root at `path`;
/// see `last_segment` and `root_parent`. The path must keep a last
/// character (taken off as a single byte) once the name is removed.
pub fn context_root_split(path: &str) -> (res: (String, String))
    requires
        remove_all(path@, last_segment(path@)).len() > 0,
        (remove_all(path@, last_segment(path@)).last() as int) < 0x80,
    ensures
        res.0@ == last_segment(path@),
        res.1@ == root_parent(path@),
{
    let n = path.unicode_len();
    let name: &str = match find_last_char(path, '/') {
        Some(i) => {
            proof { lemma_last_index_of(path@, '/'); }
            path.substring_char(i + 1, n)
        },
        None => path,
    };
    assert(name@ == last_segment(path@));
    let m = name.unicode_len();
    let mut out = String::new();
    let mut i: usize = 0;
    assert(path@.subrange(0, n as int) =~= path@);
    assert(out@ + path@ =~= path@);
    if m > 0 {
        while i < n
            invariant
                n == path@.len(),
                m == name@.len(),
                m > 0,
                i <= n,
                out@ + remove_all(path@.subrange(i as int, n as int), name@) == remove_all(path@, name@),
            decreases n - i,
        {
            let rest = path.substring_char(i, n);
            let ghost t = path@.subrange(i as int, n as int);
            if starts_with(rest, name) {
                proof {
                    assert(t.subrange(m as int, t.len() as int) =~= path@.subrange(i + m, n as int));
                }
                i = i + m;
            } else {
                let c = path.get_char(i);
                let ghost before = out@;
                push_char(&mut out, c);
                proof {
                    assert(t.drop_first() =~= path@.subrange(i + 1, n as int));
                    assert(t[0] == c);
                    assert(out@ + remove_all(path@.subrange(i + 1, n as int), name@) =~= before + (seq![c] + remove_all(t.drop_first(), name@)));
                }
                i = i + 1;
            }
        }
        assert(path@.subrange(n as int, n as int) =~= Seq::<char>::empty());
        assert(out@ =~= remove_all(path@, name@)) by {
            assert(out@ + Seq::<char>::empty() =~= out@);
        }
    } else {
        assert(path@.subrange(0, n as int) =~= path@);
        out = String::from_str(path);
    }
    let k = out.unicode_len();
    let parent = String::from_str(out.as_str().substring_char(0, k - 1));
    assert(parent@ =~= out@.drop_last());
    (String::from_str(name), parent)
}

fn contains_pair(s: &Vec<(String, String)>, a: &str, b: &str) -> (res: bool)
    ensures
        res == pair_views(s@).contains((a@, b@)),
{
    let mut i: usize = 0;
    while i < s.len()
        invariant
            i <= s@.len(),
            forall|j: int| 0 <= j < i ==> pair_views(s@)[j] != (a@, b@),
        decreases s@.len() - i,
    {
        if same_text(s[i].0.as_str(), a) && same_text(s[i].1.as_str(), b) {
            assert(pair_views(s@)[i as int] == (a@, b@));
            return true;
        }
        i = i + 1;
    }
    false
}

fn is_file_neighbour(file: &ContextFileView, p: &str) -> (res: bool)
    ensures
        res == file_neighbour(*file, p@),
{
    let mut i: usize = 0;
    while i < file.edges.len()
        invariant
            i <= file.edges@.len(),
            forall|j: int| 0 <= j < i ==> {
                let e = #[trigger] file.edges@[j];
                !((e.0@ == file.nself@ && e.1@ == p@) || (e.1@ == file.nself@ && e.0@ == p@))
            },
        decreases file.edges@.len() - i,
    {
        let e = &file.edges[i];
        if (same_text(e.0.as_str(), file.nself.as_str()) && same_text(e.1.as_str(), p))
            || (same_text(e.1.as_str(), file.nself.as_str()) && same_text(e.0.as_str(), p)) {
            return true;
        }
        i = i + 1;
    }
    false
}

fn lists_node(nodes: &Vec<FileNodeView>, p: &str) -> (res: bool)
    ensures
        res == name_views(nodes@.map_values(|n: FileNodeView| n.path)).contains(p@),
{
    let ghost v = name_views(nodes@.map_values(|n: FileNodeView| n.path));
    let mut i: usize = 0;
    while i < nodes.len()
        invariant
            i <= nodes@.len(),
            v == name_views(nodes@.map_values(|n: FileNodeView| n.path)),
            forall|j: int| 0 <= j < i ==> v[j] != p@,
        decreases nodes@.len() - i,
    {
        if same_text(nodes[i].path.as_str(), p) {
            assert(v[i as int] == p@);
            return true;
        }
        i = i + 1;
    }
    false
}

fn push_pairs(out: &mut Vec<(String, String)>, more: &Vec<(String, String)>)
    ensures
        pair_views(final(out)@) == pair_views(old(out)@) + pair_views(more@),
{
    let ghost start = pair_views(out@);
    let mut i: usize = 0;
    while i < more.len()
        invariant
            i <= more@.len(),
            pair_views(out@) == start + pair_views(more@).subrange(0, i as int),
        decreases more@.len() - i,
    {
        let ghost before = pair_views(out@);
        out.push((more[i].0.clone(), more[i].1.clone()));
        assert(pair_views(out@) =~= before.push(pair_views(more@)[i as int]));
        assert(pair_views(more@).subrange(0, i + 1) =~= pair_views(more@).subrange(0, i as int).push(pair_views(more@)[i as int]));
        i = i + 1;
    }
    assert(pair_views(more@).subrange(0, more@.len() as int) =~= pair_views(more@));
}

/// Plans the change of the view to the context at `root`; see
/// `context_update`.
pub fn plan_context_update(shown: &Vec<String>, root: &str, file: Option<&ContextFileView>, adjacent: &Vec<String>) -> (res: ContextUpdatePlan)
    ensures
        ({
            let (keep, spawn, edges) = context_update(name_views(shown@), root@, match file { Some(f) => Some(*f), None => None }, name_views(adjacent@));
            &&& name_views(res.keep@) == keep
            &&& name_views(res.spawn@) == spawn
            &&& pair_views(res.edges@) == edges
        }),
{
    let ghost fv: Option<ContextFileView> = match file { Some(f) => Some(*f), None => None };
    let ghost sv = name_views(shown@);
    let ghost stay = |p: Seq<char>| stays(root@, fv, p);
    // The shown nodes that stay.
    let mut keep: Vec<String> = Vec::new();
    let mut i: usize = 0;
    while i < shown.len()
        invariant
            i <= shown@.len(),
            sv == name_views(shown@),
            stay == (|p: Seq<char>| stays(root@, fv, p)),
            fv == match file { Some(f) => Some(*f), None => None::<ContextFileView> },
            name_views(keep@) == sv.subrange(0, i as int).filter(stay),
        decreases shown@.len() - i,
    {
        proof { crate::graph::lemma_filter_step(sv, i as int, stay); }
        let p = shown[i].as_str();
        let s = same_text(p, root) || match file {
            Some(f) => lists_node(&f.nodes, p) || is_file_neighbour(f, p),
            None => false,
        };
        assert(s == stay(sv[i as int]));
        if s {
            let ghost before = name_views(keep@);
            keep.push(shown[i].clone());
            assert(name_views(keep@) =~= before.push(sv[i as int]));
        }
        i = i + 1;
    }
    assert(sv.subrange(0, sv.len() as int) =~= sv);
    // The nodes to spawn and the edges.
    let ghost taken = sv.push(root@);
    let mut taken_v: Vec<String> = shown.clone();
    taken_v.push(String::from_str(root));
    assert(name_views(taken_v@) =~= taken);
    let root_shown = contains_name(shown, root);
    let mut spawn: Vec<String> = Vec::new();
    if !root_shown {
        spawn.push(String::from_str(root));
    }
    let ghost root_spawn: Seq<Seq<char>> = if sv.contains(root@) { Seq::empty() } else { seq![root@] };
    assert(name_views(spawn@) =~= root_spawn);
    let mut fspawn: Vec<String> = Vec::new();
    let mut edges: Vec<(String, String)> = Vec::new();
    match file {
        Some(f) => {
            push_pairs(&mut edges, &f.edges);
            let ghost base = pair_views(edges@);
            let mut k: usize = 0;
            while k < f.nodes.len()
                invariant
                    k <= f.nodes@.len(),
                    name_views(taken_v@) == taken,
                    name_views(fspawn@) == file_spawns(f.nodes@.subrange(0, k as int), taken),
                    pair_views(edges@) == base + file_spawn_edges(f.nodes@.subrange(0, k as int), taken),
                decreases f.nodes@.len() - k,
            {
                let ghost pre = f.nodes@.subrange(0, k as int);
                assert(f.nodes@.subrange(0, k + 1).drop_last() =~= pre);
                assert(f.nodes@.subrange(0, k + 1).last() == f.nodes@[k as int]);
                let n = &f.nodes[k];
                match &n.own_edges {
                    Some(own) => {
                        if !contains_name(&taken_v, n.path.as_str()) && !contains_name(&fspawn, n.path.as_str()) {
                            let ghost bf = name_views(fspawn@);
                            fspawn.push(n.path.clone());
                            assert(name_views(fspawn@) =~= bf.push(n.path@));
                            let ghost be = pair_views(edges@);
                            push_pairs(&mut edges, own);
                            assert(pair_views(edges@) =~= base + file_spawn_edges(f.nodes@.subrange(0, k + 1), taken));
                        }
                    },
                    None => {},
                }
                k = k + 1;
            }
            assert(f.nodes@.subrange(0, f.nodes@.len() as int) =~= f.nodes@);
        },
        None => {
            assert(name_views(fspawn@) =~= Seq::<Seq<char>>::empty());
            assert(pair_views(edges@) =~= Seq::<(Seq<char>, Seq<char>)>::empty());
        },
    }
    let ghost fs = name_views(fspawn@);
    let ghost fe = pair_views(edges@);
    // Adjacent nodes on disk.
    let mut done: Vec<String> = Vec::new();
    done.push(String::from_str(root));
    let mut d: usize = 0;
    while d < fspawn.len()
        invariant
            d <= fspawn@.len(),
            fs == name_views(fspawn@),
            name_views(done@) == seq![root@] + fs.subrange(0, d as int),
        decreases fspawn@.len() - d,
    {
        let ghost bd = name_views(done@);
        done.push(fspawn[d].clone());
        assert(name_views(done@) =~= bd.push(fs[d as int]));
        assert(fs.subrange(0, d + 1) =~= fs.subrange(0, d as int).push(fs[d as int]));
        d = d + 1;
    }
    assert(fs.subrange(0, fs.len() as int) =~= fs);
    let ghost dv = seq![root@] + fs;
    let ghost av = name_views(adjacent@);
    let mut adj: Vec<String> = Vec::new();
    let mut a: usize = 0;
    while a < adjacent.len()
        invariant
            a <= adjacent@.len(),
            av == name_views(adjacent@),
            name_views(done@) == dv,
            name_views(adj@) == adjacent_spawns(av.subrange(0, a as int), dv),
        decreases adjacent@.len() - a,
    {
        assert(av.subrange(0, a + 1).drop_last() =~= av.subrange(0, a as int));
        assert(av.subrange(0, a + 1).last() == av[a as int]);
        if !contains_name(&done, adjacent[a].as_str()) && !contains_name(&adj, adjacent[a].as_str()) {
            let ghost ba = name_views(adj@);
            adj.push(adjacent[a].clone());
            assert(name_views(adj@) =~= ba.push(av[a as int]));
        }
        a = a + 1;
    }
    assert(av.subrange(0, av.len() as int) =~= av);
    let ghost adjv = name_views(adj@);
    // The edges from adjacent nodes to the root, then each pair once.
    let mut q: usize = 0;
    while q < adj.len()
        invariant
            q <= adj@.len(),
            adjv == name_views(adj@),
            pair_views(edges@) == fe + adjv.subrange(0, q as int).map_values(|p: Seq<char>| (p, root@)),
        decreases adj@.len() - q,
    {
        let ghost be = pair_views(edges@);
        edges.push((adj[q].clone(), String::from_str(root)));
        assert(pair_views(edges@) =~= be.push((adjv[q as int], root@)));
        assert(adjv.subrange(0, q + 1).map_values(|p: Seq<char>| (p, root@))
            =~= adjv.subrange(0, q as int).map_values(|p: Seq<char>| (p, root@)).push((adjv[q as int], root@)));
        q = q + 1;
    }
    assert(adjv.subrange(0, adjv.len() as int) =~= adjv);
    let ghost all = pair_views(edges@);
    let mut unique: Vec<(String, String)> = Vec::new();
    let mut u: usize = 0;
    while u < edges.len()
        invariant
            u <= edges@.len(),
            all == pair_views(edges@),
            pair_views(unique@) == dedup_pairs(all.subrange(0, u as int)),
        decreases edges@.len() - u,
    {
        assert(all.subrange(0, u + 1).drop_last() =~= all.subrange(0, u as int));
        assert(all.subrange(0, u + 1).last() == all[u as int]);
        if !contains_pair(&unique, edges[u].0.as_str(), edges[u].1.as_str()) {
            let ghost bu = pair_views(unique@);
            unique.push((edges[u].0.clone(), edges[u].1.clone()));
            assert(pair_views(unique@) =~= bu.push(all[u as int]));
        }
        u = u + 1;
    }
    assert(all.subrange(0, all.len() as int) =~= all);
    // The spawn list: the root if new, the file nodes, the adjacent nodes.
    let mut t: usize = 0;
    let ghost s0 = name_views(spawn@);
    while t < fspawn.len()
        invariant
            t <= fspawn@.len(),
            fs == name_views(fspawn@),
            name_views(spawn@) == s0 + fs.subrange(0, t as int),
        decreases fspawn@.len() - t,
    {
        let ghost bs = name_views(spawn@);
        spawn.push(fspawn[t].clone());
        assert(name_views(spawn@) =~= bs.push(fs[t as int]));
        assert(fs.subrange(0, t + 1) =~= fs.subrange(0, t as int).push(fs[t as int]));
        t = t + 1;
    }
    let ghost s1 = name_views(spawn@);
    let mut w: usize = 0;
    while w < adj.len()
        invariant
            w <= adj@.len(),
            adjv == name_views(adj@),
            name_views(spawn@) == s1 + adjv.subrange(0, w as int),
        decreases adj@.len() - w,
    {
        let ghost bs = name_views(spawn@);
        spawn.push(adj[w].clone());
        assert(name_views(spawn@) =~= bs.push(adjv[w as int]));
        assert(adjv.subrange(0, w + 1) =~= adjv.subrange(0, w as int).push(adjv[w as int]));
        w = w + 1;
    }
    assert(fs.subrange(0, fs.len() as int) =~= fs);
    assert(adjv.subrange(0, adjv.len() as int) =~= adjv);
    ContextUpdatePlan { keep, spawn, edges: unique }
}

} // verus!
