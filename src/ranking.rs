//! Top-k selection over score keys: the stable ranking that a search
//! returns.

use vstd::prelude::*;
use crate::score_order::{is_nan_pattern, key_of, lemma_key_order_is_value_order, score_key, value_less};

verus! {

/// Whether entry `i` ranks ahead of entry `j`: a strictly better key wins
/// (larger when `descending`, smaller otherwise), and equal keys keep the
/// order of insertion.
pub open spec fn ranks_before(keys: Seq<u32>, descending: bool, i: int, j: int) -> bool {
    if keys[i] == keys[j] {
        i < j
    } else if descending {
        keys[i] > keys[j]
    } else {
        keys[i] < keys[j]
    }
}

/// The number of entries a ranking of `n` entries cut at `k` returns.
pub open spec fn cut_len(n: int, k: int) -> int {
    if k < n {
        k
    } else {
        n
    }
}

/// `r` is the best `min(k, n)` entries of `keys`, best first: its
/// positions are valid and strictly ranked, and every entry it leaves out
/// ranks behind every entry it holds.
pub open spec fn is_top_k(keys: Seq<u32>, descending: bool, k: int, r: Seq<usize>) -> bool {
    &&& r.len() == cut_len(keys.len() as int, k)
    &&& forall|i: int| 0 <= i < r.len() ==> r[i] < keys.len()
    &&& forall|i: int, j: int|
        0 <= i < j < r.len() ==> ranks_before(keys, descending, r[i] as int, r[j] as int)
    &&& forall|x: int, i: int|
        0 <= x < keys.len() && !r.contains(x as usize) && 0 <= i < r.len() ==> ranks_before(
            keys,
            descending,
            r[i] as int,
            x,
        )
}

fn ranks_before_exec(keys: &Vec<u32>, descending: bool, i: usize, j: usize) -> (r: bool)
    requires
        i < keys.len(),
        j < keys.len(),
    ensures
        r == ranks_before(keys@, descending, i as int, j as int),
{
    if keys[i] == keys[j] {
        i < j
    } else if descending {
        keys[i] > keys[j]
    } else {
        keys[i] < keys[j]
    }
}

/// The positions of the best `k` keys, best first, ties in position order.
/// All positions come back when `k` is at least the number of keys.
///
/// One pass over the keys keeps the best `min(k, j)` of the first `j`
/// positions in order, so the cost is O(n * min(k, n)).
pub fn top_k(keys: &Vec<u32>, descending: bool, k: usize) -> (r: Vec<usize>)
    ensures
        is_top_k(keys@, descending, k as int, r@),
        k >= keys@.len() ==> forall|x: usize| x < keys@.len() ==> #[trigger] r@.contains(x),
{
    let n = keys.len();
    let ghost ks = keys@;
    let mut best: Vec<usize> = Vec::new();
    let mut j: usize = 0;
    while j < n
        invariant
            n == ks.len(),
            ks == keys@,
            j <= n,
            best.len() == cut_len(j as int, k as int),
            j <= k ==> forall|x: int| 0 <= x < j ==> #[trigger] best@.contains(x as usize),
            forall|i: int| 0 <= i < best.len() ==> best[i] < j,
            forall|a: int, b: int|
                0 <= a < b < best.len() ==> ranks_before(ks, descending, best[a] as int, best[b] as int),
            forall|x: int, i: int|
                0 <= x < j && !best@.contains(x as usize) && 0 <= i < best.len() ==> ranks_before(
                    ks,
                    descending,
                    best[i] as int,
                    x,
                ),
        decreases n - j,
    {
        let len = best.len();
        let mut p: usize = 0;
        while p < len && ranks_before_exec(keys, descending, best[p], j)
            invariant
                len == best.len(),
                p <= len,
                j < n,
                n == ks.len(),
                ks == keys@,
                forall|i: int| 0 <= i < best.len() ==> best[i] < j,
                forall|q: int| 0 <= q < p ==> ranks_before(ks, descending, best[q] as int, j as int),
            decreases len - p,
        {
            p += 1;
        }
        // Everything from `p` on ranks behind the new entry.
        assert forall|q: int| p <= q < len implies ranks_before(
            ks,
            descending,
            j as int,
            best[q] as int,
        ) by {
            assert(!ranks_before(ks, descending, best[p as int] as int, j as int));
            if q > p {
                assert(ranks_before(ks, descending, best[p as int] as int, best[q] as int));
            }
        }
        if p < k {
            let ghost old_best = best@;
            best.insert(p, j);
            let ghost inserted = best@;
            assert(inserted == old_best.insert(p as int, j));
            if best.len() > k {
                best.pop();
                assert(best@ == inserted.drop_last());
                assert(best@[p as int] == j);
                assert forall|x: int, i: int|
                    0 <= x < j + 1 && !best@.contains(x as usize) && 0 <= i < best.len()
                    implies ranks_before(ks, descending, best[i] as int, x) by {
                    let d = inserted[len as int];
                    if x == d {
                        assert(ranks_before(ks, descending, inserted[i] as int, inserted[len as int] as int));
                    } else {
                        assert(!old_best.contains(x as usize)) by {
                            if old_best.contains(x as usize) {
                                let w = choose|w: int| 0 <= w < old_best.len() && old_best[w] == x as usize;
                                if w < p {
                                    assert(best@[w] == x as usize);
                                } else {
                                    assert(inserted[w + 1] == x as usize);
                                    assert(best@[w + 1] == x as usize);
                                }
                            }
                        }
                        assert(x != j);
                        assert(ranks_before(ks, descending, old_best[len - 1] as int, x));
                        assert(inserted[len as int] == old_best[len - 1]);
                        assert(ranks_before(ks, descending, inserted[i] as int, inserted[len as int] as int));
                    }
                }
            } else {
                assert(j < k);
                assert forall|x: int| 0 <= x < j + 1 implies #[trigger] best@.contains(x as usize) by {
                    if x == j {
                        assert(best@[p as int] == j);
                    } else {
                        assert(old_best.contains(x as usize));
                        let w = choose|w: int| 0 <= w < old_best.len() && old_best[w] == x as usize;
                        if w < p {
                            assert(best@[w] == x as usize);
                        } else {
                            assert(best@[w + 1] == x as usize);
                        }
                    }
                }
            }
        } else {
            assert forall|x: int, i: int|
                0 <= x < j + 1 && !best@.contains(x as usize) && 0 <= i < best.len()
                implies ranks_before(ks, descending, best[i] as int, x) by {
                if x == j {
                    assert(ranks_before(ks, descending, best[i] as int, j as int));
                }
            }
        }
        j += 1;
    }
    if k >= n {
        assert forall|x: usize| x < n implies #[trigger] best@.contains(x) by {
            assert(best@.contains((x as int) as usize));
        }
    }
    best
}

/// The order keys of a sequence of score bit patterns.
pub open spec fn keys_of(scores: Seq<u32>) -> Seq<u32> {
    scores.map_values(|b: u32| key_of(b))
}

/// The positions of the best `k` scores, given as IEEE-754 single bit
/// patterns, best first, ties in position order: largest values first when
/// `descending`, smallest first otherwise.
pub fn rank_scores(scores: &Vec<u32>, descending: bool, k: usize) -> (r: Vec<usize>)
    ensures
        is_top_k(keys_of(scores@), descending, k as int, r@),
        k >= scores@.len() ==> forall|x: usize| x < scores@.len() ==> #[trigger] r@.contains(x),
{
    let mut keys: Vec<u32> = Vec::with_capacity(scores.len());
    let mut i: usize = 0;
    while i < scores.len()
        invariant
            i <= scores@.len(),
            keys@ == keys_of(scores@.subrange(0, i as int)),
        decreases scores@.len() - i,
    {
        keys.push(score_key(scores[i]));
        i += 1;
        assert(keys@ =~= keys_of(scores@.subrange(0, i as int)));
    }
    assert(scores@.subrange(0, scores@.len() as int) =~= scores@);
    top_k(&keys, descending, k)
}

/// A ranking of scores that are not NaN lists them in numeric order: no
/// entry is numerically better than one listed before it, so similarity
/// scores never increase and distance scores never decrease along it.
pub proof fn lemma_ranked_scores_in_value_order(
    scores: Seq<u32>,
    descending: bool,
    k: int,
    r: Seq<usize>,
    i: int,
    j: int,
)
    requires
        is_top_k(keys_of(scores), descending, k, r),
        forall|x: int| 0 <= x < scores.len() ==> !is_nan_pattern(#[trigger] scores[x]),
        0 <= i < j < r.len(),
    ensures
        descending ==> !value_less(scores[r[i] as int], scores[r[j] as int]),
        !descending ==> !value_less(scores[r[j] as int], scores[r[i] as int]),
{
    let a = scores[r[i] as int];
    let b = scores[r[j] as int];
    assert(ranks_before(keys_of(scores), descending, r[i] as int, r[j] as int));
    lemma_key_order_is_value_order(a, b);
    lemma_key_order_is_value_order(b, a);
}

/// The top-k description admits one sequence only: two rankings of the
/// same keys, direction and cut are equal.
pub proof fn lemma_top_k_unique(keys: Seq<u32>, descending: bool, k: int, r1: Seq<usize>, r2: Seq<usize>)
    requires
        is_top_k(keys, descending, k, r1),
        is_top_k(keys, descending, k, r2),
    ensures
        r1 == r2,
{
    assert forall|p: int| 0 <= p < r1.len() implies r1[p] == r2[p] by {
        lemma_rankings_agree_at(keys, descending, k, r1, r2, p);
    }
    assert(r1 =~= r2);
}

proof fn lemma_rankings_agree_at(
    keys: Seq<u32>,
    descending: bool,
    k: int,
    r1: Seq<usize>,
    r2: Seq<usize>,
    p: int,
)
    requires
        is_top_k(keys, descending, k, r1),
        is_top_k(keys, descending, k, r2),
        0 <= p < r1.len(),
    ensures
        r1[p] == r2[p],
    decreases p,
{
    assert forall|q: int| 0 <= q < p implies r1[q] == r2[q] by {
        lemma_rankings_agree_at(keys, descending, k, r1, r2, q);
    }
    if r1[p] != r2[p] {
        lemma_differing_entry_not_ahead(keys, descending, k, r1, r2, p);
        lemma_differing_entry_not_ahead(keys, descending, k, r2, r1, p);
    }
}

/// Where two rankings agree before `p` and differ at `p`, the first one's
/// entry at `p` does not rank ahead of the second one's.
proof fn lemma_differing_entry_not_ahead(
    keys: Seq<u32>,
    descending: bool,
    k: int,
    r1: Seq<usize>,
    r2: Seq<usize>,
    p: int,
)
    requires
        is_top_k(keys, descending, k, r1),
        is_top_k(keys, descending, k, r2),
        0 <= p < r1.len(),
        forall|q: int| 0 <= q < p ==> r1[q] == r2[q],
        r1[p] != r2[p],
    ensures
        !ranks_before(keys, descending, r1[p] as int, r2[p] as int),
{
    let a = r1[p];
    if ranks_before(keys, descending, a as int, r2[p] as int) {
        if r2.contains(a) {
            let q = choose|q: int| 0 <= q < r2.len() && r2[q] == a;
            if q < p {
                assert(r1[q] == a);
                assert(ranks_before(keys, descending, r1[q] as int, r1[p] as int));
            } else if q > p {
                assert(ranks_before(keys, descending, r2[p] as int, r2[q] as int));
            }
        } else {
            assert(ranks_before(keys, descending, r2[p] as int, a as int));
        }
    }
}

} // verus!
