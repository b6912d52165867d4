use vstd::prelude::*;

verus! {

/// The two ends of an edge, by node identifier.
pub type EdgeEnds = (u128, u128);

/// A direct edge belongs in a context when it is not a loop and both of its
/// ends are nodes of the context.
pub open spec fn edge_in_context(nodes: Seq<u128>, e: EdgeEnds) -> bool {
    e.0 != e.1 && nodes.contains(e.0) && nodes.contains(e.1)
}

/// Direct edge `i` is kept: it belongs in the context and no earlier direct
/// edge that belongs has the same ends.
pub open spec fn keeps_direct(nodes: Seq<u128>, direct: Seq<EdgeEnds>, i: int) -> bool {
    &&& edge_in_context(nodes, direct[i])
    &&& forall|j: int| 0 <= j < i && edge_in_context(nodes, #[trigger] direct[j]) ==> direct[j] != direct[i]
}

/// Interconnecting edge `i` is kept: no kept direct edge and no earlier
/// interconnecting edge has the same ends.
pub open spec fn keeps_extra(nodes: Seq<u128>, direct: Seq<EdgeEnds>, extra: Seq<EdgeEnds>, i: int) -> bool {
    &&& forall|j: int| 0 <= j < direct.len() && edge_in_context(nodes, #[trigger] direct[j]) ==> direct[j] != extra[i]
    &&& forall|j: int| 0 <= j < i ==> #[trigger] extra[j] != extra[i]
}

/// `picked` lists, in increasing order, exactly the positions below `n`
/// that satisfy `keep`.
pub open spec fn picks_exactly(picked: Seq<usize>, n: int, keep: spec_fn(int) -> bool) -> bool {
    &&& forall|a: int, b: int| 0 <= a < b < picked.len() ==> #[trigger] picked[a] < #[trigger] picked[b]
    &&& forall|a: int| 0 <= a < picked.len() ==> #[trigger] picked[a] < n
    &&& forall|i: int| 0 <= i < n ==> (#[trigger] keep(i) <==> picked.contains(i as usize))
}

fn contains_id(ids: &Vec<u128>, x: u128) -> (res: bool)
    ensures
        res == ids@.contains(x),
{
    let mut i: usize = 0;
    while i < ids.len()
        invariant
            i <= ids@.len(),
            forall|j: int| 0 <= j < i ==> ids@[j] != x,
        decreases ids@.len() - i,
    {
        if ids[i] == x {
            return true;
        }
        i = i + 1;
    }
    false
}

fn contains_ends(seen: &Vec<EdgeEnds>, e: EdgeEnds) -> (res: bool)
    ensures
        res == seen@.contains(e),
{
    let mut i: usize = 0;
    while i < seen.len()
        invariant
            i <= seen@.len(),
            forall|j: int| 0 <= j < i ==> seen@[j] != e,
        decreases seen@.len() - i,
    {
        if seen[i].0 == e.0 && seen[i].1 == e.1 {
            assert(seen@[i as int] == e);
            return true;
        }
        i = i + 1;
    }
    false
}

/// Chooses the edges of a context view. Of the direct edges collected for
/// the context, loops and edges with an end outside `nodes` are dropped,
/// and of several edges with the same ends only the first is kept; then the
/// interconnecting edges found between the nodes are added, again skipping
/// any whose ends were already taken. Gives the positions kept in each list.
pub fn choose_context_edges(nodes: &Vec<u128>, direct: &Vec<EdgeEnds>, extra: &Vec<EdgeEnds>) -> (res: (Vec<usize>, Vec<usize>))
    ensures
        picks_exactly(res.0@, direct@.len() as int, |i: int| keeps_direct(nodes@, direct@, i)),
        picks_exactly(res.1@, extra@.len() as int, |i: int| keeps_extra(nodes@, direct@, extra@, i)),
{
    let mut seen: Vec<EdgeEnds> = Vec::new();
    let mut kept: Vec<usize> = Vec::new();
    let mut i: usize = 0;
    while i < direct.len()
        invariant
            i <= direct@.len(),
            forall|e: EdgeEnds| #[trigger] seen@.contains(e) <==> exists|j: int| 0 <= j < i && edge_in_context(nodes@, #[trigger] direct@[j]) && direct@[j] == e,
            forall|a: int, b: int| 0 <= a < b < kept@.len() ==> #[trigger] kept@[a] < #[trigger] kept@[b],
            forall|a: int| 0 <= a < kept@.len() ==> #[trigger] kept@[a] < i,
            forall|k: int| 0 <= k < i ==> (keeps_direct(nodes@, direct@, k) <==> kept@.contains(k as usize)),
        decreases direct@.len() - i,
    {
        let e = direct[i];
        let valid = e.0 != e.1 && contains_id(nodes, e.0) && contains_id(nodes, e.1);
        let dup = contains_ends(&seen, e);
        let ghost old_seen = seen@;
        let ghost old_kept = kept@;
        if valid && !dup {
            seen.push(e);
            kept.push(i);
        } else if valid {
            seen.push(e);
        }
        proof {
            assert(valid == edge_in_context(nodes@, direct@[i as int]));
            assert(dup == (exists|j: int| 0 <= j < i && edge_in_context(nodes@, #[trigger] direct@[j]) && direct@[j] == e)) by {
                if dup {
                    assert(old_seen.contains(e));
                }
            }
            assert(keeps_direct(nodes@, direct@, i as int) == (valid && !dup));
            assert forall|e2: EdgeEnds| #[trigger] seen@.contains(e2) <==> exists|j: int| 0 <= j < i + 1 && edge_in_context(nodes@, #[trigger] direct@[j]) && direct@[j] == e2 by {
                if seen@.contains(e2) {
                    if old_seen.contains(e2) {
                        let j = choose|j: int| 0 <= j < i && edge_in_context(nodes@, #[trigger] direct@[j]) && direct@[j] == e2;
                        assert(0 <= j < i + 1);
                    } else {
                        assert(e2 == e && valid);
                        assert(edge_in_context(nodes@, direct@[i as int]));
                    }
                }
                if exists|j: int| 0 <= j < i + 1 && edge_in_context(nodes@, #[trigger] direct@[j]) && direct@[j] == e2 {
                    let j = choose|j: int| 0 <= j < i + 1 && edge_in_context(nodes@, #[trigger] direct@[j]) && direct@[j] == e2;
                    if j < i {
                        assert(old_seen.contains(e2));
                        assert(seen@.contains(e2)) by {
                            let q = choose|q: int| 0 <= q < old_seen.len() && old_seen[q] == e2;
                            assert(seen@[q] == e2);
                        }
                    } else {
                        assert(seen@[seen@.len() - 1] == e2);
                    }
                }
            }
            assert forall|k: int| 0 <= k < i + 1 implies (keeps_direct(nodes@, direct@, k) <==> kept@.contains(k as usize)) by {
                if k < i {
                    if old_kept.contains(k as usize) {
                        let q = choose|q: int| 0 <= q < old_kept.len() && old_kept[q] == k as usize;
                        assert(kept@[q] == k as usize);
                    }
                    if kept@.contains(k as usize) {
                        let q = choose|q: int| 0 <= q < kept@.len() && kept@[q] == k as usize;
                        if q < old_kept.len() {
                            assert(old_kept[q] == k as usize);
                        }
                    }
                } else {
                    if kept@.contains(k as usize) && !(valid && !dup) {
                        let q = choose|q: int| 0 <= q < kept@.len() && kept@[q] == k as usize;
                        assert(kept@ == old_kept);
                    }
                    if valid && !dup {
                        assert(kept@[kept@.len() - 1] == k as usize);
                    }
                }
            }
        }
        i = i + 1;
    }
    let mut kept_extra: Vec<usize> = Vec::new();
    let ghost direct_seen = seen@;
    let mut x: usize = 0;
    while x < extra.len()
        invariant
            x <= extra@.len(),
            forall|e: EdgeEnds| #[trigger] direct_seen.contains(e) <==> exists|j: int| 0 <= j < direct@.len() && edge_in_context(nodes@, #[trigger] direct@[j]) && direct@[j] == e,
            forall|e: EdgeEnds| #[trigger] seen@.contains(e) <==> (direct_seen.contains(e) || exists|j: int| 0 <= j < x && #[trigger] extra@[j] == e),
            forall|a: int, b: int| 0 <= a < b < kept_extra@.len() ==> #[trigger] kept_extra@[a] < #[trigger] kept_extra@[b],
            forall|a: int| 0 <= a < kept_extra@.len() ==> #[trigger] kept_extra@[a] < x,
            forall|k: int| 0 <= k < x ==> (keeps_extra(nodes@, direct@, extra@, k) <==> kept_extra@.contains(k as usize)),
        decreases extra@.len() - x,
    {
        let e = extra[x];
        let dup = contains_ends(&seen, e);
        let ghost old_seen = seen@;
        let ghost old_kept = kept_extra@;
        if !dup {
            seen.push(e);
            kept_extra.push(x);
        }
        proof {
            assert(keeps_extra(nodes@, direct@, extra@, x as int) == !dup) by {
                if dup {
                    if direct_seen.contains(e) {
                        let j = choose|j: int| 0 <= j < direct@.len() && edge_in_context(nodes@, #[trigger] direct@[j]) && direct@[j] == e;
                    } else {
                        let j = choose|j: int| 0 <= j < x && #[trigger] extra@[j] == e;
                    }
                } else {
                    assert forall|j: int| 0 <= j < direct@.len() && edge_in_context(nodes@, #[trigger] direct@[j]) implies direct@[j] != extra@[x as int] by {
                        if direct@[j] == extra@[x as int] {
                            assert(direct_seen.contains(e));
                        }
                    }
                    assert forall|j: int| 0 <= j < x implies #[trigger] extra@[j] != extra@[x as int] by {
                        if extra@[j] == extra@[x as int] {
                            assert(old_seen.contains(e));
                        }
                    }
                }
            }
            assert forall|e2: EdgeEnds| #[trigger] seen@.contains(e2) <==> (direct_seen.contains(e2) || exists|j: int| 0 <= j < x + 1 && #[trigger] extra@[j] == e2) by {
                if seen@.contains(e2) && !old_seen.contains(e2) {
                    assert(e2 == e);
                    assert(extra@[x as int] == e2);
                }
                if old_seen.contains(e2) {
                    let q = choose|q: int| 0 <= q < old_seen.len() && old_seen[q] == e2;
                    assert(seen@[q] == e2);
                    if !direct_seen.contains(e2) {
                        let j = choose|j: int| 0 <= j < x && #[trigger] extra@[j] == e2;
                        assert(0 <= j < x + 1);
                    }
                }
                if exists|j: int| 0 <= j < x + 1 && #[trigger] extra@[j] == e2 {
                    let j = choose|j: int| 0 <= j < x + 1 && #[trigger] extra@[j] == e2;
                    if j < x {
                        assert(old_seen.contains(e2));
                    } else if !dup {
                        assert(seen@[seen@.len() - 1] == e2);
                    } else {
                        assert(old_seen.contains(e2));
                    }
                }
                if direct_seen.contains(e2) {
                    assert(old_seen.contains(e2));
                }
            }
            assert forall|k: int| 0 <= k < x + 1 implies (keeps_extra(nodes@, direct@, extra@, k) <==> kept_extra@.contains(k as usize)) by {
                if k < x {
                    if old_kept.contains(k as usize) {
                        let q = choose|q: int| 0 <= q < old_kept.len() && old_kept[q] == k as usize;
                        assert(kept_extra@[q] == k as usize);
                    }
                    if kept_extra@.contains(k as usize) {
                        let q = choose|q: int| 0 <= q < kept_extra@.len() && kept_extra@[q] == k as usize;
                        if q < old_kept.len() {
                            assert(old_kept[q] == k as usize);
                        }
                    }
                } else {
                    if kept_extra@.contains(k as usize) && dup {
                        assert(kept_extra@ == old_kept);
                    }
                    if !dup {
                        assert(kept_extra@[kept_extra@.len() - 1] == k as usize);
                    }
                }
            }
        }
        x = x + 1;
    }
    (kept, kept_extra)
}

} // verus!
