//! Fuzzy ranking: scores each candidate against a query, keeps those at or
//! above a threshold, orders them by descending score (ties keep the order in
//! which the candidates were given) and keeps at most a given number.
use vstd::prelude::*;
use crate::ieee::is_unit;

verus! {

/// Candidate `i` comes before candidate `j`: a higher score, or the same
/// score and an earlier position.
pub open spec fn precedes(sc: Seq<u32>, i: int, j: int) -> bool {
    sc[i] > sc[j] || (sc[i] == sc[j] && i < j)
}

/// Candidate `i` exists and scores at or above `t`.
pub open spec fn qualifies(sc: Seq<u32>, t: u32, i: int) -> bool {
    0 <= i < sc.len() && sc[i] >= t
}

/// `r` lists the first `limit` qualifying candidates of `sc` in ranking
/// order: each qualifies, each comes before the next, every qualifying
/// candidate left out comes after all that are listed, and fewer than
/// `limit` are listed only when every qualifying candidate is.
pub open spec fn is_ranking(sc: Seq<u32>, t: u32, limit: nat, r: Seq<usize>) -> bool {
    &&& r.len() <= limit
    &&& forall|k: int| 0 <= k < r.len() ==> qualifies(sc, t, #[trigger] r[k] as int)
    &&& forall|j: int, k: int|
        0 <= j < k < r.len() ==> precedes(sc, #[trigger] r[j] as int, #[trigger] r[k] as int)
    &&& forall|i: int|
        #![trigger qualifies(sc, t, i)]
        qualifies(sc, t, i) && !r.contains(i as usize) ==> forall|k: int|
            0 <= k < r.len() ==> precedes(sc, #[trigger] r[k] as int, i)
    &&& r.len() < limit ==> forall|i: int|
        #![trigger qualifies(sc, t, i)]
        qualifies(sc, t, i) ==> r.contains(i as usize)
}

/// The ranking of `sc` at threshold `t` and limit `limit` (there is exactly
/// one: see [`lemma_ranking_unique`]).
pub open spec fn ranking(sc: Seq<u32>, t: u32, limit: nat) -> Seq<usize> {
    choose|r: Seq<usize>| is_ranking(sc, t, limit, r)
}

proof fn lemma_agree_at(sc: Seq<u32>, t1: u32, t2: u32, limit: nat, r1: Seq<usize>, r2: Seq<usize>, k: int)
    requires
        t1 <= t2,
        is_ranking(sc, t1, limit, r1),
        is_ranking(sc, t2, limit, r2),
        0 <= k < r1.len(),
        k < r2.len(),
        forall|j: int| 0 <= j < k ==> r1[j] == r2[j],
    ensures
        r1[k] == r2[k],
{
    let a = r1[k] as int;
    let b = r2[k] as int;
    assert(qualifies(sc, t1, a));
    assert(qualifies(sc, t2, b));
    if a != b {
        if precedes(sc, a, b) {
            assert(qualifies(sc, t2, a));
            if r2.contains(a as usize) {
                let m = choose|m: int| 0 <= m < r2.len() && r2[m] == a as usize;
                if m < k {
                    assert(r1[m] == r2[m]);
                    assert(precedes(sc, r1[m] as int, r1[k] as int));
                } else if m > k {
                    assert(precedes(sc, r2[k] as int, r2[m] as int));
                }
            } else {
                assert(precedes(sc, r2[k] as int, a));
            }
        } else {
            assert(precedes(sc, b, a));
            assert(qualifies(sc, t1, b));
            if r1.contains(b as usize) {
                let m = choose|m: int| 0 <= m < r1.len() && r1[m] == b as usize;
                if m < k {
                    assert(r1[m] == r2[m]);
                    assert(precedes(sc, r2[m] as int, r2[k] as int));
                } else if m > k {
                    assert(precedes(sc, r1[k] as int, r1[m] as int));
                }
            } else {
                assert(precedes(sc, r1[k] as int, b));
            }
        }
    }
}

proof fn lemma_agree_upto(sc: Seq<u32>, t1: u32, t2: u32, limit: nat, r1: Seq<usize>, r2: Seq<usize>, n: int)
    requires
        t1 <= t2,
        is_ranking(sc, t1, limit, r1),
        is_ranking(sc, t2, limit, r2),
        0 <= n <= r1.len(),
        n <= r2.len(),
    ensures
        forall|j: int| 0 <= j < n ==> r1[j] == r2[j],
    decreases n,
{
    if n > 0 {
        lemma_agree_upto(sc, t1, t2, limit, r1, r2, n - 1);
        lemma_agree_at(sc, t1, t2, limit, r1, r2, n - 1);
    }
}

/// Raising the threshold never brings in a candidate: the ranking at the
/// higher threshold `t2` is a prefix of the ranking at the lower `t1`.
pub proof fn lemma_ranking_prefix(
    sc: Seq<u32>,
    t1: u32,
    t2: u32,
    limit: nat,
    r1: Seq<usize>,
    r2: Seq<usize>,
)
    requires
        t1 <= t2,
        is_ranking(sc, t1, limit, r1),
        is_ranking(sc, t2, limit, r2),
    ensures
        r2.len() <= r1.len(),
        r2 == r1.take(r2.len() as int),
        forall|k: int| 0 <= k < r2.len() ==> r1.contains(#[trigger] r2[k]),
{
    let n = if r1.len() < r2.len() { r1.len() } else { r2.len() };
    lemma_agree_upto(sc, t1, t2, limit, r1, r2, n as int);
    if r2.len() > r1.len() {
        let x = r2[r1.len() as int];
        assert(qualifies(sc, t2, x as int));
        assert(qualifies(sc, t1, x as int));
        let m = choose|m: int| 0 <= m < r1.len() && r1[m] == x;
        assert(r1[m] == r2[m]);
        assert(precedes(sc, r2[m] as int, r2[r1.len() as int] as int));
    }
    assert(r2 =~= r1.take(r2.len() as int));
    assert forall|k: int| 0 <= k < r2.len() implies r1.contains(#[trigger] r2[k]) by {
        assert(r1[k] == r2[k]);
    }
}

/// A ranking is in order of non-increasing score and holds at most `limit`
/// candidates, each scoring at or above the threshold.
pub proof fn lemma_ranking_sorted(sc: Seq<u32>, t: u32, limit: nat, r: Seq<usize>)
    requires
        is_ranking(sc, t, limit, r),
    ensures
        r.len() <= limit,
        forall|k: int| 0 <= k < r.len() ==> #[trigger] r[k] < sc.len() && sc[r[k] as int] >= t,
        forall|j: int, k: int|
            0 <= j < k < r.len() ==> sc[#[trigger] r[j] as int] >= sc[#[trigger] r[k] as int],
{
    assert forall|j: int, k: int| 0 <= j < k < r.len() implies sc[#[trigger] r[j] as int] >= sc[#[trigger] r[k] as int] by {
        assert(precedes(sc, r[j] as int, r[k] as int));
    }
    assert forall|k: int| 0 <= k < r.len() implies #[trigger] r[k] < sc.len() && sc[r[k] as int] >= t by {
        assert(qualifies(sc, t, r[k] as int));
    }
}

/// A threshold and a limit fix the ranking: two rankings of the same scores
/// are equal.
pub proof fn lemma_ranking_unique(sc: Seq<u32>, t: u32, limit: nat, r1: Seq<usize>, r2: Seq<usize>)
    requires
        is_ranking(sc, t, limit, r1),
        is_ranking(sc, t, limit, r2),
    ensures
        r1 == r2,
{
    lemma_ranking_prefix(sc, t, t, limit, r1, r2);
    lemma_ranking_prefix(sc, t, t, limit, r2, r1);
    assert(r1 =~= r2);
}

/// Ranks candidates by their scores `scores`: the positions of the first
/// `limit` candidates that score at or above `threshold`, by descending score,
/// ties in the order given.
pub fn rank_scores(scores: &Vec<u32>, threshold: u32, limit: usize) -> (r: Vec<usize>)
    ensures
        is_ranking(scores@, threshold, limit as nat, r@),
        r@ == ranking(scores@, threshold, limit as nat),
{
    let ghost sc = scores@;
    let mut sorted: Vec<usize> = Vec::new();
    let mut i: usize = 0;
    while i < scores.len()
        invariant
            sc == scores@,
            i <= scores.len(),
            forall|k: int| 0 <= k < sorted.len() ==> #[trigger] sorted[k] < i && qualifies(sc, threshold, sorted[k] as int),
            forall|j: int, k: int|
                0 <= j < k < sorted.len() ==> precedes(sc, #[trigger] sorted[j] as int, #[trigger] sorted[k] as int),
            forall|x: int| 0 <= x < i && #[trigger] qualifies(sc, threshold, x) ==> sorted@.contains(x as usize),
        decreases scores.len() - i,
    {
        let s = scores[i];
        if s >= threshold {
            let mut p: usize = 0;
            while p < sorted.len() && scores[sorted[p]] >= s
                invariant
                    sc == scores@,
                    p <= sorted.len(),
                    s == sc[i as int],
                    forall|k: int| 0 <= k < sorted.len() ==> #[trigger] sorted[k] < i && qualifies(sc, threshold, sorted[k] as int),
                    forall|q: int| 0 <= q < p ==> sc[#[trigger] sorted[q] as int] >= s,
                decreases sorted.len() - p,
            {
                p = p + 1;
            }
            let ghost before = sorted@;
            assert forall|q: int| p <= q < before.len() implies sc[#[trigger] before[q] as int] < s by {
                if q > p {
                    assert(precedes(sc, before[p as int] as int, before[q] as int));
                }
            }
            sorted.insert(p, i);
            assert(sorted@ == before.insert(p as int, i));
            assert forall|j: int, k: int|
                0 <= j < k < sorted.len() implies precedes(sc, #[trigger] sorted[j] as int, #[trigger] sorted[k] as int) by {
                if k < p {
                    assert(sorted[j] == before[j] && sorted[k] == before[k]);
                } else if k == p {
                    assert(sorted[j] == before[j]);
                } else if j == p {
                    assert(sorted[k] == before[k - 1]);
                } else if j < p {
                    assert(sorted[j] == before[j] && sorted[k] == before[k - 1]);
                } else {
                    assert(sorted[j] == before[j - 1] && sorted[k] == before[k - 1]);
                }
            }
            assert forall|x: int| 0 <= x < i + 1 && #[trigger] qualifies(sc, threshold, x) implies sorted@.contains(x as usize) by {
                if x < i {
                    let m = choose|m: int| 0 <= m < before.len() && before[m] == x as usize;
                    if m < p {
                        assert(sorted[m] == x as usize);
                    } else {
                        assert(sorted[m + 1] == x as usize);
                    }
                } else {
                    assert(sorted[p as int] == i);
                }
            }
        }
        i = i + 1;
    }
    let ghost full = sorted@;
    sorted.truncate(limit);
    assert(sorted@ == if limit < full.len() { full.take(limit as int) } else { full });
    assert forall|x: int| #[trigger] qualifies(sc, threshold, x) && !sorted@.contains(x as usize) implies forall|k: int|
        0 <= k < sorted.len() ==> precedes(sc, #[trigger] sorted[k] as int, x) by {
        let m = choose|m: int| 0 <= m < full.len() && full[m] == x as usize;
        assert forall|k: int| 0 <= k < sorted.len() implies precedes(sc, #[trigger] sorted[k] as int, x) by {
            if m < sorted.len() {
                assert(sorted[m] == x as usize);
            }
            assert(sorted[k] == full[k]);
        }
    }
    assert(is_ranking(sc, threshold, limit as nat, sorted@));
    proof {
        lemma_ranking_unique(sc, threshold, limit as nat, sorted@, ranking(sc, threshold, limit as nat));
    }
    sorted
}


/// The score that `rust_fuzzy_search::fuzzy_compare` gives `candidate`
/// against `query`, by its bit pattern.
pub uninterp spec fn similarity(query: Seq<char>, candidate: Seq<char>) -> u32;

/// Relies on `rust_fuzzy_search::fuzzy_compare`: the share of the query's
/// trigrams that the candidate also has, a value in `[0, 1]` that depends on
/// the two texts alone; handed over by its bit pattern.
#[verifier::external_body]
fn fuzzy_compare_bits(query: &str, candidate: &str) -> (r: u32)
    ensures
        r == similarity(query@, candidate@),
        is_unit(r),
{
    rust_fuzzy_search::fuzzy_compare(query, candidate).to_bits()
}

/// The texts of a sequence of strings.
pub open spec fn texts(cs: Seq<String>) -> Seq<Seq<char>> {
    cs.map_values(|c: String| c@)
}

/// The score of each candidate against `query`.
pub open spec fn similarities(query: Seq<char>, cs: Seq<Seq<char>>) -> Seq<u32> {
    cs.map_values(|c: Seq<char>| similarity(query, c))
}

/// Scores every candidate against `query`.
pub fn score_all(query: &str, candidates: &Vec<String>) -> (r: Vec<u32>)
    ensures
        r@ == similarities(query@, texts(candidates@)),
        forall|k: int| 0 <= k < r.len() ==> is_unit(#[trigger] r[k]),
{
    let mut out: Vec<u32> = Vec::new();
    let mut i: usize = 0;
    while i < candidates.len()
        invariant
            i <= candidates.len(),
            out@ == similarities(query@, texts(candidates@)).take(i as int),
            forall|k: int| 0 <= k < out.len() ==> is_unit(#[trigger] out[k]),
        decreases candidates.len() - i,
    {
        let s = fuzzy_compare_bits(query, candidates[i].as_str());
        out.push(s);
        i = i + 1;
        assert(out@ =~= similarities(query@, texts(candidates@)).take(i as int));
    }
    assert(out@ =~= similarities(query@, texts(candidates@)));
    out
}

/// Ranks `candidates` against `query`: each entry is a candidate's position
/// and its score, for the first `limit` candidates scoring at or above
/// `threshold`, by descending score, ties in the order given.
pub fn rank(query: &str, candidates: &Vec<String>, threshold: u32, limit: usize) -> (r: Vec<(usize, u32)>)
    ensures
        is_ranking(
            similarities(query@, texts(candidates@)),
            threshold,
            limit as nat,
            r@.map_values(|m: (usize, u32)| m.0),
        ),
        r@.map_values(|m: (usize, u32)| m.0) == ranking(
            similarities(query@, texts(candidates@)),
            threshold,
            limit as nat,
        ),
        forall|k: int|
            0 <= k < r.len() ==> (#[trigger] r[k]).0 < candidates.len() && r[k].1 == similarities(
                query@,
                texts(candidates@),
            )[r[k].0 as int],
{
    let scores = score_all(query, candidates);
    let order = rank_scores(&scores, threshold, limit);
    let mut out: Vec<(usize, u32)> = Vec::new();
    let mut i: usize = 0;
    while i < order.len()
        invariant
            i <= order.len(),
            is_ranking(scores@, threshold, limit as nat, order@),
            out@.map_values(|m: (usize, u32)| m.0) == order@.take(i as int),
            forall|k: int|
                0 <= k < out.len() ==> (#[trigger] out[k]).0 < scores.len() && out[k].1 == scores@[out[k].0 as int],
        decreases order.len() - i,
    {
        let c = order[i];
        assert(qualifies(scores@, threshold, order@[i as int] as int));
        let ghost before = out@;
        out.push((c, scores[c]));
        assert(out@.map_values(|m: (usize, u32)| m.0) =~= before.map_values(|m: (usize, u32)| m.0).push(c));
        i = i + 1;
        assert(out@.map_values(|m: (usize, u32)| m.0) =~= order@.take(i as int));
    }
    assert(order@.take(i as int) =~= order@);
    out
}

} // verus!
