use vstd::prelude::*;
use crate::text::same_text;

verus! {

/// The access bookmarks saved for vault directories, by path.
pub struct BookmarkStore {
    entries: Vec<(String, String)>,
}

/// The bookmarks as pairs of texts.
pub open spec fn pair_views(entries: Seq<(String, String)>) -> Seq<(Seq<char>, Seq<char>)> {
    entries.map_values(|e: (String, String)| (e.0@, e.1@))
}

/// Some pair has the key.
pub open spec fn has_key(pairs: Seq<(Seq<char>, Seq<char>)>, key: Seq<char>) -> bool {
    exists|i: int| 0 <= i < pairs.len() && #[trigger] pairs[i].0 == key
}

/// The map the pairs stand for.
pub open spec fn pairs_map(pairs: Seq<(Seq<char>, Seq<char>)>) -> Map<Seq<char>, Seq<char>> {
    Map::new(
        |k: Seq<char>| has_key(pairs, k),
        |k: Seq<char>| pairs[choose|i: int| 0 <= i < pairs.len() && #[trigger] pairs[i].0 == k].1,
    )
}

/// No two pairs have the same key.
pub open spec fn keys_unique(pairs: Seq<(Seq<char>, Seq<char>)>) -> bool {
    forall|i: int, j: int| 0 <= i < j < pairs.len() ==> #[trigger] pairs[i].0 != #[trigger] pairs[j].0
}

proof fn lemma_value_at(pairs: Seq<(Seq<char>, Seq<char>)>, i: int)
    requires
        keys_unique(pairs),
        0 <= i < pairs.len(),
    ensures
        pairs_map(pairs).contains_key(pairs[i].0),
        pairs_map(pairs)[pairs[i].0] == pairs[i].1,
{
    let k = pairs[i].0;
    assert(has_key(pairs, k));
    let c = choose|c: int| 0 <= c < pairs.len() && #[trigger] pairs[c].0 == k;
    if c != i {
        if c < i {
            assert(pairs[c].0 != pairs[i].0);
        } else {
            assert(pairs[i].0 != pairs[c].0);
        }
    }
}

impl View for BookmarkStore {
    type V = Map<Seq<char>, Seq<char>>;

    closed spec fn view(&self) -> Map<Seq<char>, Seq<char>> {
        pairs_map(pair_views(self.entries@))
    }
}

impl BookmarkStore {
    /// Well-formedness: one bookmark per path.
    pub closed spec fn wf(&self) -> bool {
        keys_unique(pair_views(self.entries@))
    }

    /// A store with no bookmarks.
    pub fn new() -> (res: Self)
        ensures
            res.wf(),
            res@ == Map::<Seq<char>, Seq<char>>::empty(),
    {
        let res = BookmarkStore { entries: Vec::new() };
        assert(res@ =~= Map::<Seq<char>, Seq<char>>::empty());
        res
    }

    fn position(&self, path: &str) -> (res: Option<usize>)
        ensures
            match res {
                Some(i) => i < self.entries@.len() && pair_views(self.entries@)[i as int].0 == path@,
                None => !has_key(pair_views(self.entries@), path@),
            },
    {
        let mut i: usize = 0;
        while i < self.entries.len()
            invariant
                i <= self.entries@.len(),
                forall|j: int| 0 <= j < i ==> pair_views(self.entries@)[j].0 != path@,
            decreases self.entries@.len() - i,
        {
            if same_text(self.entries[i].0.as_str(), path) {
                return Some(i);
            }
            i = i + 1;
        }
        None
    }

    /// Saves the bookmark for `path`, replacing any earlier one.
    pub fn save(&mut self, path: &str, bookmark_b64: &str)
        requires
            old(self).wf(),
        ensures
            final(self).wf(),
            final(self)@ == old(self)@.insert(path@, bookmark_b64@),
    {
        let ghost before = pair_views(self.entries@);
        let entry = (String::from_str(path), String::from_str(bookmark_b64));
        match self.position(path) {
            Some(i) => {
                self.entries.set(i, entry);
                proof {
                    let after = pair_views(self.entries@);
                    assert(after =~= before.update(i as int, (path@, bookmark_b64@)));
                    assert forall|a: int, b: int| 0 <= a < b < after.len() implies #[trigger] after[a].0 != #[trigger] after[b].0 by {
                        assert(before[a].0 != before[b].0);
                    }
                    assert forall|k: Seq<char>| has_key(after, k) <==> has_key(before, k) || k == path@ by {
                        if has_key(before, k) {
                            let w = choose|w: int| 0 <= w < before.len() && #[trigger] before[w].0 == k;
                            assert(after[w].0 == k);
                        }
                        if k == path@ {
                            assert(after[i as int].0 == k);
                        }
                    }
                    assert forall|k: Seq<char>| #[trigger] pairs_map(after).contains_key(k) implies
                        pairs_map(after)[k] == old(self)@.insert(path@, bookmark_b64@)[k] by {
                        let w = choose|w: int| 0 <= w < after.len() && #[trigger] after[w].0 == k;
                        lemma_value_at(after, w);
                        if w != i as int {
                            lemma_value_at(before, w);
                        }
                    }
                    assert(self@ =~= old(self)@.insert(path@, bookmark_b64@));
                }
            },
            None => {
                self.entries.push(entry);
                proof {
                    let after = pair_views(self.entries@);
                    assert(after =~= before.push((path@, bookmark_b64@)));
                    assert forall|a: int, b: int| 0 <= a < b < after.len() implies #[trigger] after[a].0 != #[trigger] after[b].0 by {
                        if b < before.len() {
                            assert(before[a].0 != before[b].0);
                        } else {
                            assert(before[a].0 == after[a].0);
                        }
                    }
                    assert forall|k: Seq<char>| has_key(after, k) <==> has_key(before, k) || k == path@ by {
                        if has_key(before, k) {
                            let w = choose|w: int| 0 <= w < before.len() && #[trigger] before[w].0 == k;
                            assert(after[w].0 == k);
                        }
                        if k == path@ {
                            assert(after[before.len() as int].0 == k);
                        }
                        if has_key(after, k) {
                            let w = choose|w: int| 0 <= w < after.len() && #[trigger] after[w].0 == k;
                            if w < before.len() {
                                assert(before[w].0 == k);
                            }
                        }
                    }
                    assert forall|k: Seq<char>| #[trigger] pairs_map(after).contains_key(k) implies
                        pairs_map(after)[k] == old(self)@.insert(path@, bookmark_b64@)[k] by {
                        let w = choose|w: int| 0 <= w < after.len() && #[trigger] after[w].0 == k;
                        lemma_value_at(after, w);
                        if w < before.len() {
                            lemma_value_at(before, w);
                        }
                    }
                    assert(self@ =~= old(self)@.insert(path@, bookmark_b64@));
                }
            },
        }
    }

    /// The bookmark saved for `path`, if any.
    pub fn get(&self, path: &str) -> (res: Option<String>)
        requires
            self.wf(),
        ensures
            match res {
                Some(b) => self@.contains_key(path@) && b@ == self@[path@],
                None => !self@.contains_key(path@),
            },
    {
        match self.position(path) {
            Some(i) => {
                proof {
                    lemma_value_at(pair_views(self.entries@), i as int);
                }
                Some(self.entries[i].1.clone())
            },
            None => None,
        }
    }

    /// Ends access to the bookmarked directories. Access is granted per
    /// opened directory, so nothing is held here and this always succeeds.
    pub fn stop_all_access(&self) -> (res: Result<(), String>)
        ensures
            res is Ok,
    {
        Ok(())
    }
}

/// After `save` of a bookmark for `path` (taking `before` to `after`),
/// `get` for `path` gives that bookmark, and every other path keeps the
/// bookmark it had, or still has none.
pub proof fn lemma_get_after_save(before: BookmarkStore, after: BookmarkStore, path: Seq<char>, bookmark: Seq<char>, other: Seq<char>)
    requires
        after@ == before@.insert(path, bookmark),
    ensures
        after@.contains_key(path),
        after@[path] == bookmark,
        other != path ==> after@.contains_key(other) == before@.contains_key(other),
        other != path && before@.contains_key(other) ==> after@[other] == before@[other],
{
}

} // verus!
