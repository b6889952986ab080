//! Ordering of search results.
//!
//! Results are ranked by a score held as an exact fraction, highest first;
//! equal scores are ordered by a tie-break key, smallest first. The ranking
//! keeps the best `limit` entries, which is what the search paths do with
//! "sort by score, descending, then truncate".
use vstd::prelude::*;

verus! {

/// One entry to be ranked: its score is `num / den`; `tiebreak` orders
/// entries whose scores are equal.
#[derive(Clone, Copy, Debug, PartialEq, Eq, Structural)]
pub struct RankItem {
    pub num: u64,
    pub den: u64,
    pub tiebreak: i64,
}

/// Score of `a` exceeds score of `b` (exact comparison of fractions).
pub open spec fn score_gt(a: RankItem, b: RankItem) -> bool {
    (a.num as int) * (b.den as int) > (b.num as int) * (a.den as int)
}

/// Scores of `a` and `b` are equal.
pub open spec fn score_eq(a: RankItem, b: RankItem) -> bool {
    (a.num as int) * (b.den as int) == (b.num as int) * (a.den as int)
}

/// `a` comes before `b` in a ranking: higher score first, then smaller
/// tie-break key.
pub open spec fn ranks_before(a: RankItem, b: RankItem) -> bool {
    score_gt(a, b) || (score_eq(a, b) && a.tiebreak < b.tiebreak)
}

/// Items that can be ranked: positive denominators and pairwise distinct
/// tie-break keys.
pub open spec fn rankable(items: Seq<RankItem>) -> bool {
    &&& forall|i: int| 0 <= i < items.len() ==> (#[trigger] items[i]).den > 0
    &&& forall|i: int, j: int|
        0 <= i < items.len() && 0 <= j < items.len() && i != j ==> (#[trigger] items[i]).tiebreak
            != (#[trigger] items[j]).tiebreak
}

/// `order` lists the best `min(len, limit)` positions of `items`, best
/// first, and every position left out ranks after every position kept.
pub open spec fn is_top_ranking(items: Seq<RankItem>, limit: nat, order: Seq<usize>) -> bool {
    &&& order.len() == if items.len() < limit { items.len() } else { limit }
    &&& forall|i: int| 0 <= i < order.len() ==> (#[trigger] order[i]) < items.len()
    &&& forall|i: int, j: int|
        0 <= i < j < order.len() ==> ranks_before(
            items[#[trigger] order[i] as int],
            items[#[trigger] order[j] as int],
        )
    &&& forall|x: int, i: int|
        0 <= x < items.len() && !order.contains(x as usize) && 0 <= i < order.len() ==> ranks_before(
            items[#[trigger] order[i] as int],
            #[trigger] items[x],
        )
}

proof fn lemma_cross_mul(an: int, ad: int, bn: int, bd: int, cn: int, cd: int)
    requires
        ad > 0,
        bd > 0,
        cd > 0,
    ensures
        (an * bd >= bn * ad && bn * cd >= cn * bd) ==> an * cd >= cn * ad,
        (an * bd > bn * ad && bn * cd >= cn * bd) ==> an * cd > cn * ad,
        (an * bd >= bn * ad && bn * cd > cn * bd) ==> an * cd > cn * ad,
{
    assert((an * bd >= bn * ad && bn * cd >= cn * bd) ==> an * cd >= cn * ad) by (nonlinear_arith)
        requires
            ad > 0,
            bd > 0,
            cd > 0,
    ;
    assert((an * bd > bn * ad && bn * cd >= cn * bd) ==> an * cd > cn * ad) by (nonlinear_arith)
        requires
            ad > 0,
            bd > 0,
            cd > 0,
    ;
    assert((an * bd >= bn * ad && bn * cd > cn * bd) ==> an * cd > cn * ad) by (nonlinear_arith)
        requires
            ad > 0,
            bd > 0,
            cd > 0,
    ;
}

/// `ranks_before` is transitive on items with positive denominators.
pub proof fn lemma_ranks_before_transitive(a: RankItem, b: RankItem, c: RankItem)
    requires
        a.den > 0,
        b.den > 0,
        c.den > 0,
        ranks_before(a, b),
        ranks_before(b, c),
    ensures
        ranks_before(a, c),
{
    lemma_cross_mul(
        a.num as int,
        a.den as int,
        b.num as int,
        b.den as int,
        c.num as int,
        c.den as int,
    );
}

/// Two items with distinct tie-break keys are ordered one way or the other,
/// and never both ways.
pub proof fn lemma_ranks_before_total(a: RankItem, b: RankItem)
    requires
        a.den > 0,
        b.den > 0,
        a.tiebreak != b.tiebreak,
    ensures
        ranks_before(a, b) != ranks_before(b, a),
{
}

/// Compares two items exactly.
pub fn item_ranks_before(a: &RankItem, b: &RankItem) -> (r: bool)
    ensures
        r == ranks_before(*a, *b),
{
    proof {
        let m: int = 0xffff_ffff_ffff_ffff;
        assert((a.num as int) * (b.den as int) <= m * m) by (nonlinear_arith)
            requires
                0 <= a.num <= m,
                0 <= b.den <= m,
        ;
        assert((b.num as int) * (a.den as int) <= m * m) by (nonlinear_arith)
            requires
                0 <= b.num <= m,
                0 <= a.den <= m,
        ;
    }
    let l = (a.num as u128) * (b.den as u128);
    let rr = (b.num as u128) * (a.den as u128);
    assert(l as int == (a.num as int) * (b.den as int)) by (nonlinear_arith)
        requires
            l == (a.num as u128) * (b.den as u128),
            a.num <= u64::MAX,
            b.den <= u64::MAX,
    ;
    assert(rr as int == (b.num as int) * (a.den as int)) by (nonlinear_arith)
        requires
            rr == (b.num as u128) * (a.den as u128),
            b.num <= u64::MAX,
            a.den <= u64::MAX,
    ;
    l > rr || (l == rr && a.tiebreak < b.tiebreak)
}

/// Ranks `items` best first and keeps the best `limit` of them, returning
/// their positions.
pub fn rank_items(items: &Vec<RankItem>, limit: usize) -> (order: Vec<usize>)
    requires
        rankable(items@),
    ensures
        is_top_ranking(items@, limit as nat, order@),
{
    let n = items.len();
    let mut order: Vec<usize> = Vec::new();
    let mut k: usize = 0;
    while k < n
        invariant
            n == items.len(),
            rankable(items@),
            k <= n,
            order.len() == k,
            forall|i: int| 0 <= i < order.len() ==> (#[trigger] order@[i]) < k,
            forall|x: int| 0 <= x < k ==> #[trigger] order@.contains(x as usize),
            forall|i: int, j: int|
                0 <= i < j < order.len() ==> ranks_before(
                    items@[#[trigger] order@[i] as int],
                    items@[#[trigger] order@[j] as int],
                ),
        decreases n - k,
    {
        let mut p: usize = 0;
        while p < order.len() && !item_ranks_before(&items[k], &items[order[p]])
            invariant
                n == items.len(),
                k < n,
                p <= order.len(),
                forall|i: int| 0 <= i < order.len() ==> (#[trigger] order@[i]) < k,
                forall|q: int|
                    0 <= q < p ==> !ranks_before(items@[k as int], items@[#[trigger] order@[q] as int]),
            decreases order.len() - p,
        {
            p += 1;
        }
        let ghost old_order = order@;
        order.insert(p, k);
        proof {
            assert(order@ == old_order.insert(p as int, k));
            assert forall|i: int, j: int| 0 <= i < j < order.len() implies ranks_before(
                items@[#[trigger] order@[i] as int],
                items@[#[trigger] order@[j] as int],
            ) by {
                let a = order@[i];
                let b = order@[j];
                if j < p {
                    assert(a == old_order[i] && b == old_order[j]);
                } else if j == p {
                    assert(a == old_order[i] && b == k);
                    assert(!ranks_before(items@[k as int], items@[a as int]));
                    assert(items@[a as int].tiebreak != items@[k as int].tiebreak);
                    lemma_ranks_before_total(items@[a as int], items@[k as int]);
                } else if i < p {
                    assert(a == old_order[i] && b == old_order[j - 1]);
                } else if i == p {
                    assert(a == k && b == old_order[j - 1]);
                    assert(p < old_order.len());
                    assert(ranks_before(items@[k as int], items@[old_order[p as int] as int]));
                    if j - 1 > p {
                        lemma_ranks_before_transitive(
                            items@[k as int],
                            items@[old_order[p as int] as int],
                            items@[b as int],
                        );
                    }
                } else {
                    assert(a == old_order[i - 1] && b == old_order[j - 1]);
                }
            }
            assert forall|x: int| 0 <= x < k + 1 implies #[trigger] order@.contains(x as usize) by {
                if x == k {
                    assert(order@[p as int] == k);
                } else {
                    assert(old_order.contains(x as usize));
                    let t = choose|t: int| 0 <= t < old_order.len() && old_order[t] == x as usize;
                    if t < p {
                        assert(order@[t] == x as usize);
                    } else {
                        assert(order@[t + 1] == x as usize);
                    }
                }
            }
            assert forall|i: int| 0 <= i < order.len() implies (#[trigger] order@[i]) < k + 1 by {
                if i < p {
                    assert(order@[i] == old_order[i]);
                } else if i > p {
                    assert(order@[i] == old_order[i - 1]);
                }
            }
        }
        k += 1;
    }
    let ghost full = order@;
    let m = if n < limit { n } else { limit };
    order.truncate(m);
    proof {
        assert(order@ == full.subrange(0, m as int));
        assert forall|x: int, i: int|
            0 <= x < items.len() && !order@.contains(x as usize) && 0 <= i < order.len()
            implies ranks_before(items@[#[trigger] order@[i] as int], #[trigger] items@[x]) by {
            assert(full.contains(x as usize));
            let t = choose|t: int| 0 <= t < full.len() && full[t] == x as usize;
            if t < m {
                assert(order@[t] == x as usize);
            }
            assert(full[i] == order@[i]);
        }
    }
    order
}

/// Ranks plain integer keys, largest first; equal keys keep their input
/// order. This is a stable descending sort followed by truncation to `limit`.
pub fn rank_by_key(keys: &Vec<u64>, limit: usize) -> (order: Vec<usize>)
    requires
        keys.len() <= i64::MAX,
    ensures
        order.len() == if keys.len() < limit { keys.len() as nat } else { limit as nat },
        forall|i: int| 0 <= i < order.len() ==> (#[trigger] order@[i]) < keys.len(),
        forall|i: int, j: int|
            0 <= i < j < order.len() ==> key_before(keys@, #[trigger] order@[i] as int, #[trigger] order@[j] as int),
        forall|x: int, i: int|
            0 <= x < keys.len() && !order@.contains(x as usize) && 0 <= i < order.len()
                ==> #[trigger] key_before(keys@, order@[i] as int, x),
{
    let mut items: Vec<RankItem> = Vec::new();
    let mut i: usize = 0;
    while i < keys.len()
        invariant
            i <= keys.len(),
            keys.len() <= i64::MAX,
            items.len() == i,
            forall|j: int|
                0 <= j < i ==> #[trigger] items@[j] == (RankItem { num: keys@[j], den: 1, tiebreak: j as i64 }),
        decreases keys.len() - i,
    {
        items.push(RankItem { num: keys[i], den: 1, tiebreak: i as i64 });
        i += 1;
    }
    let order = rank_items(&items, limit);
    proof {
        assert forall|i: int, j: int| 0 <= i < j < order.len() implies key_before(
            keys@,
            #[trigger] order@[i] as int,
            #[trigger] order@[j] as int,
        ) by {
            let a = order@[i] as int;
            let b = order@[j] as int;
            assert(items@[a] == (RankItem { num: keys@[a], den: 1, tiebreak: a as i64 }));
            assert(items@[b] == (RankItem { num: keys@[b], den: 1, tiebreak: b as i64 }));
            assert(ranks_before(items@[a], items@[b]));
            assert((items@[a].num as int) * (items@[b].den as int) == keys@[a] as int);
            assert((items@[b].num as int) * (items@[a].den as int) == keys@[b] as int);
        }
        assert forall|x: int, i: int|
            0 <= x < keys.len() && !order@.contains(x as usize) && 0 <= i < order.len()
            implies #[trigger] key_before(keys@, order@[i] as int, x) by {
            let a = order@[i] as int;
            assert(items@[a] == (RankItem { num: keys@[a], den: 1, tiebreak: a as i64 }));
            assert(items@[x] == (RankItem { num: keys@[x], den: 1, tiebreak: x as i64 }));
            assert(ranks_before(items@[a], items@[x]));
            assert(0 <= a < keys.len());
            assert(order@[i] == a as usize);
            if a == x {
                assert(order@.contains(x as usize));
            }
            if keys@[a] == keys@[x] {
                assert(items@[a].num == items@[x].num);
                assert(score_eq(items@[a], items@[x]));
                assert(!score_gt(items@[a], items@[x]));
                assert(items@[a].tiebreak < items@[x].tiebreak);
            }
            assert((a as i64) as int == a);
            assert((x as i64) as int == x);
            assert((items@[a].num as int) * (items@[x].den as int) == keys@[a] as int);
            assert((items@[x].num as int) * (items@[a].den as int) == keys@[x] as int);
            if keys@[a] != keys@[x] {
                assert(score_gt(items@[a], items@[x]));
                assert(keys@[a] > keys@[x]);
            }
            assert(key_before(keys@, a, x));
        }
    }
    order
}

/// Position `i` comes before position `j`: larger key, or equal keys and
/// `i` earlier.
pub open spec fn key_before(keys: Seq<u64>, i: int, j: int) -> bool {
    keys[i] > keys[j] || (keys[i] == keys[j] && i < j)
}

} // verus!
