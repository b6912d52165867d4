use vstd::prelude::*;
use fuzzy_matcher::FuzzyMatcher;
use fuzzy_matcher::skim::SkimMatcherV2;
use crate::text::{trim_text, trimmed};

verus! {

/// The score and matched character positions that the default skim matcher
/// (`SkimMatcherV2::default()`) gives `choice` for `pattern`, or `None` when
/// `pattern` does not match.
pub uninterp spec fn skim_match(choice: Seq<char>, pattern: Seq<char>) -> Option<(i64, Seq<usize>)>;

/// Trusted: calls `SkimMatcherV2::fuzzy_indices` on a default matcher. Its
/// result depends on the two texts alone and is named `skim_match`; the
/// source returns a score of 0 with no positions for an empty pattern,
/// before any other work.
#[verifier::external_body]
fn fuzzy_indices(choice: &str, pattern: &str) -> (res: Option<(i64, Vec<usize>)>)
    ensures
        res is Some <==> skim_match(choice@, pattern@) is Some,
        res is Some ==> skim_match(choice@, pattern@) == Some((res.unwrap().0, res.unwrap().1@)),
        pattern@.len() == 0 ==> res is Some && res.unwrap().0 == 0 && res.unwrap().1@.len() == 0,
{
    SkimMatcherV2::default().fuzzy_indices(choice, pattern)
}

/// A path that matched a query, with its score and the positions of the
/// matched characters.
pub struct ScoredPath {
    pub path: String,
    pub score: i64,
    pub indices: Vec<usize>,
}

/// The matches among the first `k` paths, in the given order.
pub open spec fn matches_among(paths: Seq<Seq<char>>, query: Seq<char>, k: int) -> Seq<(Seq<char>, i64, Seq<usize>)>
    decreases k,
{
    if k <= 0 {
        Seq::empty()
    } else {
        let rest = matches_among(paths, query, k - 1);
        match skim_match(paths[k - 1], query) {
            Some(m) => rest.push((paths[k - 1], m.0, m.1)),
            None => rest,
        }
    }
}

/// Every path that matches the query, in the given order.
pub open spec fn search_matches(paths: Seq<String>, query: Seq<char>) -> Seq<(Seq<char>, i64, Seq<usize>)> {
    matches_among(path_views(paths), query, paths.len() as int)
}

/// The scores of a list of matches.
pub open spec fn match_scores(all: Seq<(Seq<char>, i64, Seq<usize>)>) -> Seq<i64> {
    all.map_values(|m: (Seq<char>, i64, Seq<usize>)| m.1)
}

/// The view of a scored path.
pub open spec fn scored_view(s: ScoredPath) -> (Seq<char>, i64, Seq<usize>) {
    (s.path@, s.score, s.indices@)
}

/// The texts of a list of paths.
pub open spec fn path_views(paths: Seq<String>) -> Seq<Seq<char>> {
    paths.map_values(|p: String| p@)
}

/// Scores every path against the query, keeping those that match, in order.
pub fn match_paths(paths: &Vec<String>, query: &str) -> (res: Vec<ScoredPath>)
    ensures
        res@.map_values(|s: ScoredPath| scored_view(s)) == matches_among(path_views(paths@), query@, paths@.len() as int),
{
    let mut out: Vec<ScoredPath> = Vec::new();
    let mut i: usize = 0;
    while i < paths.len()
        invariant
            i <= paths@.len(),
            out@.map_values(|s: ScoredPath| scored_view(s)) == matches_among(path_views(paths@), query@, i as int),
        decreases paths@.len() - i,
    {
        let ghost before = out@;
        match fuzzy_indices(paths[i].as_str(), query) {
            Some((score, indices)) => {
                out.push(ScoredPath { path: paths[i].clone(), score, indices });
                assert(out@.map_values(|s: ScoredPath| scored_view(s)) =~= before.map_values(
                    |s: ScoredPath| scored_view(s),
                ).push((paths@[i as int]@, score, indices@)));
            },
            None => {},
        }
        i = i + 1;
    }
    out
}

/// `perm` lists the positions of `scores` so that scores never increase and
/// equal scores keep their original order: the order of a stable sort by
/// descending score.
pub open spec fn stable_descending(scores: Seq<i64>, perm: Seq<int>) -> bool {
    &&& perm.len() == scores.len()
    &&& forall|k: int| 0 <= k < perm.len() ==> 0 <= #[trigger] perm[k] < scores.len()
    &&& forall|k: int, l: int| 0 <= k < l < perm.len() ==> #[trigger] perm[k] != #[trigger] perm[l]
    &&& forall|k: int, l: int| 0 <= k < l < perm.len() ==> scores[#[trigger] perm[k]] >= scores[#[trigger] perm[l]]
    &&& forall|k: int, l: int| 0 <= k < l < perm.len() && scores[#[trigger] perm[k]] == scores[#[trigger] perm[l]] ==> perm[k] < perm[l]
}

/// The scores of a list of matches.
pub open spec fn scores_of(s: Seq<ScoredPath>) -> Seq<i64> {
    s.map_values(|x: ScoredPath| x.score)
}

/// Orders matches by descending score, keeping the original order among
/// equal scores.
pub fn rank_by_score(items: Vec<ScoredPath>) -> (res: Vec<ScoredPath>)
    ensures
        exists|perm: Seq<int>| #[trigger] stable_descending(scores_of(items@), perm)
            && forall|k: int| 0 <= k < res@.len() ==> #[trigger] res@[k] == items@[perm[k]],
        res@.len() == items@.len(),
{
    let ghost orig = items@;
    let ghost scores = scores_of(orig);
    let mut rest = items;
    let mut out: Vec<ScoredPath> = Vec::new();
    let ghost mut perm: Seq<int> = Seq::empty();
    while rest.len() > 0
        invariant
            rest@ == orig.subrange(0, rest@.len() as int),
            scores == scores_of(orig),
            out@.len() == perm.len(),
            rest@.len() + perm.len() == orig.len(),
            forall|k: int| 0 <= k < perm.len() ==> rest@.len() <= #[trigger] perm[k] < orig.len(),
            forall|k: int, l: int| 0 <= k < l < perm.len() ==> #[trigger] perm[k] != #[trigger] perm[l],
            forall|k: int, l: int| 0 <= k < l < perm.len() ==> scores[#[trigger] perm[k]] >= scores[#[trigger] perm[l]],
            forall|k: int, l: int| 0 <= k < l < perm.len() && scores[#[trigger] perm[k]] == scores[#[trigger] perm[l]] ==> perm[k] < perm[l],
            forall|k: int| 0 <= k < out@.len() ==> #[trigger] out@[k] == orig[perm[k]],
        decreases rest@.len(),
    {
        let x = rest.pop().unwrap();
        let ghost xi = rest@.len() as int;
        assert(x == orig[xi]);
        let mut p: usize = 0;
        while p < out.len() && out[p].score > x.score
            invariant
                p <= out@.len(),
                forall|k: int| 0 <= k < p ==> (#[trigger] out@[k]).score > x.score,
            decreases out@.len() - p,
        {
            p = p + 1;
        }
        proof {
            assert forall|k: int| 0 <= k < out@.len() implies #[trigger] out@[k].score == scores[perm[k]] by {}
        }
        let ghost old_out = out@;
        let ghost old_perm = perm;
        out.insert(p, x);
        proof {
            perm = old_perm.insert(p as int, xi);
            assert(scores[xi] == x.score);
            assert forall|k: int| 0 <= k < out@.len() implies #[trigger] out@[k] == orig[perm[k]] by {
                if k < p {
                    assert(out@[k] == old_out[k]);
                } else if k > p {
                    assert(out@[k] == old_out[k - 1]);
                }
            }
            assert forall|k: int, l: int| 0 <= k < l < perm.len() implies scores[#[trigger] perm[k]] >= scores[#[trigger] perm[l]] by {
                if l < p {
                } else if k < p && l == p {
                    assert(old_out[k].score > x.score);
                } else if k < p {
                    assert(perm[l] == old_perm[l - 1]);
                } else if k == p {
                    assert(perm[l] == old_perm[l - 1]);
                    if p < old_out.len() {
                        assert(old_out[p as int].score <= x.score);
                        if l - 1 > p {
                            assert(scores[old_perm[p as int]] >= scores[old_perm[l - 1]]);
                        }
                    }
                } else {
                    assert(perm[k] == old_perm[k - 1] && perm[l] == old_perm[l - 1]);
                }
            }
            assert forall|k: int, l: int| 0 <= k < l < perm.len() && scores[#[trigger] perm[k]] == scores[#[trigger] perm[l]] implies perm[k] < perm[l] by {
                if l < p {
                } else if k < p && l == p {
                    assert(old_out[k].score > x.score);
                } else if k < p {
                    assert(perm[l] == old_perm[l - 1]);
                } else if k == p {
                    assert(perm[l] == old_perm[l - 1]);
                } else {
                    assert(perm[k] == old_perm[k - 1] && perm[l] == old_perm[l - 1]);
                }
            }
            assert forall|k: int, l: int| 0 <= k < l < perm.len() implies #[trigger] perm[k] != #[trigger] perm[l] by {
                if l < p {
                } else if k < p && l == p {
                } else if k < p {
                    assert(perm[l] == old_perm[l - 1]);
                } else if k == p {
                    assert(perm[l] == old_perm[l - 1]);
                } else {
                    assert(perm[k] == old_perm[k - 1] && perm[l] == old_perm[l - 1]);
                }
            }
            assert forall|k: int| 0 <= k < perm.len() implies rest@.len() <= #[trigger] perm[k] < orig.len() by {
                if k < p {
                } else if k > p {
                    assert(perm[k] == old_perm[k - 1]);
                }
            }
            assert(rest@ =~= orig.subrange(0, rest@.len() as int));
        }
    }
    proof {
        assert(stable_descending(scores, perm));
    }
    out
}

/// The outcome of a search: the best matches up to the limit, how many
/// matched in all, and whether the limit cut the list short.
pub struct RankedSearch {
    pub results: Vec<ScoredPath>,
    pub total_found: usize,
    pub truncated: bool,
}

/// Keeps the first `limit` entries of the ranked list.
pub fn limit_results(ranked: Vec<ScoredPath>, limit: usize) -> (res: RankedSearch)
    ensures
        res.total_found == ranked@.len(),
        res.results@ == ranked@.subrange(0, if limit < ranked@.len() { limit as int } else { ranked@.len() as int }),
        res.truncated == (ranked@.len() > res.results@.len()),
{
    let total = ranked.len();
    let mut results = ranked;
    if limit < total {
        results.truncate(limit);
    }
    let n = results.len();
    RankedSearch { results, total_found: total, truncated: total > n }
}

/// Whether a search query is blank once trimmed; blank queries get an empty
/// answer without searching.
pub fn query_is_blank(query: &str) -> (res: bool)
    ensures
        res == (trimmed(query@).len() == 0),
{
    trim_text(query).unicode_len() == 0
}

/// `res` answers a search for `query` over `paths` cut to `limit`: every
/// path that matches (see `skim_match`), ordered by descending score with
/// ties in the given order, cut to `limit` entries.
pub open spec fn ranked_outcome(paths: Seq<String>, query: Seq<char>, limit: usize, res: RankedSearch) -> bool {
    &&& exists|perm: Seq<int>| {
        &&& #[trigger] stable_descending(match_scores(search_matches(paths, query)), perm)
        &&& res.total_found == search_matches(paths, query).len()
        &&& res.results@.len() == (if limit < search_matches(paths, query).len() { limit as int } else { search_matches(paths, query).len() as int })
        &&& forall|k: int| 0 <= k < res.results@.len() ==> scored_view(#[trigger] res.results@[k]) == search_matches(paths, query)[perm[k]]
    }
    &&& res.truncated == (res.total_found > res.results@.len())
}

/// How many results a search gives when the request sets no limit.
pub fn default_limit() -> (res: usize)
    ensures
        res == 100,
{
    100
}

/// Fuzzy search over `paths`: every path that matches `query` (see
/// `skim_match`), ordered by descending score with ties in the given order,
/// cut to `limit` entries.
pub fn rank_paths(paths: &Vec<String>, query: &str, limit: usize) -> (res: RankedSearch)
    ensures
        ranked_outcome(paths@, query@, limit, res),
{
    let matched = match_paths(paths, query);
    let ghost mv = matched@;
    let ranked = rank_by_score(matched);
    let ghost rv = ranked@;
    let res = limit_results(ranked, limit);
    proof {
        let all = matches_among(path_views(paths@), query@, paths@.len() as int);
        let perm = choose|perm: Seq<int>| #[trigger] stable_descending(scores_of(mv), perm)
            && forall|k: int| 0 <= k < rv.len() ==> #[trigger] rv[k] == mv[perm[k]];
        assert(match_scores(all) =~= scores_of(mv)) by {
            assert(all == mv.map_values(|s: ScoredPath| scored_view(s)));
        }
        assert(all == mv.map_values(|s: ScoredPath| scored_view(s)));
        assert(all == search_matches(paths@, query@));
        assert(all.len() == mv.len());
        assert forall|k: int| 0 <= k < res.results@.len() implies scored_view(#[trigger] res.results@[k]) == all[perm[k]] by {
            assert(res.results@[k] == rv[k]);
        }
        assert(stable_descending(match_scores(search_matches(paths@, query@)), perm));
    }
    res
}

} // verus!
