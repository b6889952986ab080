//! Reciprocal rank fusion of a keyword ranking and a vector ranking.
//!
//! Each result list contributes `1 / (60 + rank)` to the fused score of the
//! ids it holds (rank counted from zero). Scores are kept as exact fractions;
//! equal scores are ordered by id.
use vstd::prelude::*;
use crate::ranking::{RankItem, rank_items, ranks_before, rankable, score_gt};

verus! {

/// The constant added to a rank before taking its reciprocal.
pub const RRF_K: u64 = 60;

/// One fused result: the id and where it stood in each input ranking.
#[derive(Clone, Copy, Debug, PartialEq, Eq, Structural)]
pub struct FusedHit {
    pub id: i64,
    pub keyword_rank: Option<usize>,
    pub vector_rank: Option<usize>,
}

/// Position of the first occurrence of `id` in `s`.
pub open spec fn index_of(s: Seq<i64>, id: i64) -> Option<int>
    decreases s.len(),
{
    if s.len() == 0 {
        None
    } else {
        match index_of(s.drop_last(), id) {
            Some(i) => Some(i),
            None => if s.last() == id {
                Some(s.len() - 1)
            } else {
                None
            },
        }
    }
}

/// No id occurs twice.
pub open spec fn distinct_ids(s: Seq<i64>) -> bool {
    forall|i: int, j: int| 0 <= i < j < s.len() ==> s[i] != s[j]
}

pub open spec fn as_rank(o: Option<int>) -> Option<usize> {
    match o {
        Some(i) => Some(i as usize),
        None => None,
    }
}

/// The fused entry for `id`.
pub open spec fn hit_for(keyword: Seq<i64>, vector: Seq<i64>, id: i64) -> FusedHit {
    FusedHit {
        id,
        keyword_rank: as_rank(index_of(keyword, id)),
        vector_rank: as_rank(index_of(vector, id)),
    }
}

/// Ids of the vector ranking that the keyword ranking lacks, in order.
pub open spec fn vector_only(keyword: Seq<i64>, vector: Seq<i64>) -> Seq<i64>
    decreases vector.len(),
{
    if vector.len() == 0 {
        Seq::empty()
    } else if keyword.contains(vector.last()) {
        vector_only(keyword, vector.drop_last())
    } else {
        vector_only(keyword, vector.drop_last()).push(vector.last())
    }
}

/// Every id of either ranking, once: the keyword ids, then the rest.
pub open spec fn fused_ids(keyword: Seq<i64>, vector: Seq<i64>) -> Seq<i64> {
    keyword + vector_only(keyword, vector)
}

/// The fused score of a hit as a fraction, with its id as tie-break:
/// `1/(60+k) + 1/(60+v)` over the rankings that hold it.
pub open spec fn rrf_item(h: FusedHit) -> RankItem {
    match (h.keyword_rank, h.vector_rank) {
        (Some(a), Some(c)) => RankItem {
            num: (2 * RRF_K + a + c) as u64,
            den: ((RRF_K + a) * (RRF_K + c)) as u64,
            tiebreak: h.id,
        },
        (Some(a), None) => RankItem { num: 1, den: (RRF_K + a) as u64, tiebreak: h.id },
        (None, Some(c)) => RankItem { num: 1, den: (RRF_K + c) as u64, tiebreak: h.id },
        (None, None) => RankItem { num: 0, den: 1, tiebreak: h.id },
    }
}

/// Largest ranking length for which the fused fractions fit in 64 bits.
pub open spec fn fusable_len(n: nat) -> bool {
    n <= 0x7fff_ffff
}

proof fn lemma_index_of_bounds(s: Seq<i64>, id: i64)
    ensures
        match index_of(s, id) {
            Some(i) => 0 <= i < s.len() && s[i] == id && forall|j: int|
                0 <= j < i ==> s[j] != id,
            None => !s.contains(id),
        },
    decreases s.len(),
{
    if s.len() > 0 {
        lemma_index_of_bounds(s.drop_last(), id);
        match index_of(s.drop_last(), id) {
            Some(i) => {
                assert(s.drop_last()[i] == s[i]);
                assert forall|j: int| 0 <= j < i implies s[j] != id by {
                    assert(s.drop_last()[j] == s[j]);
                }
            },
            None => {
                if s.last() != id {
                    assert forall|j: int| 0 <= j < s.len() implies s[j] != id by {
                        if j < s.len() - 1 {
                            assert(s.drop_last()[j] == s[j]);
                            assert(!s.drop_last().contains(id));
                        }
                    }
                } else {
                    assert forall|j: int| 0 <= j < s.len() - 1 implies s[j] != id by {
                        assert(s.drop_last()[j] == s[j]);
                        assert(!s.drop_last().contains(id));
                    }
                }
            },
        }
    }
}

proof fn lemma_index_of_distinct(s: Seq<i64>, i: int)
    requires
        distinct_ids(s),
        0 <= i < s.len(),
    ensures
        index_of(s, s[i]) == Some(i),
{
    lemma_index_of_bounds(s, s[i]);
    match index_of(s, s[i]) {
        Some(k) => {
            if k != i {
                if k < i {
                    assert(s[k] != s[i]);
                }
            }
        },
        None => {
            assert(s.contains(s[i]));
        },
    }
}

proof fn lemma_vector_only(keyword: Seq<i64>, vector: Seq<i64>)
    requires
        distinct_ids(vector),
    ensures
        distinct_ids(vector_only(keyword, vector)),
        forall|x: i64| #[trigger]
            vector_only(keyword, vector).contains(x) <==> (vector.contains(x)
                && !keyword.contains(x)),
    decreases vector.len(),
{
    if vector.len() > 0 {
        let p = vector.drop_last();
        assert(distinct_ids(p));
        lemma_vector_only(keyword, p);
        let w = vector_only(keyword, p);
        assert forall|x: i64| #[trigger] vector.contains(x) <==> (p.contains(x) || x
            == vector.last()) by {
            if vector.contains(x) {
                let t = choose|t: int| 0 <= t < vector.len() && vector[t] == x;
                if t < vector.len() - 1 {
                    assert(p[t] == x);
                }
            }
            if p.contains(x) {
                let t = choose|t: int| 0 <= t < p.len() && p[t] == x;
                assert(vector[t] == x);
            }
            if x == vector.last() {
                assert(vector[vector.len() - 1] == x);
            }
        }
        if !keyword.contains(vector.last()) {
            assert(!p.contains(vector.last())) by {
                if p.contains(vector.last()) {
                    let t = choose|t: int| 0 <= t < p.len() && p[t] == vector.last();
                    assert(vector[t] == vector[vector.len() - 1]);
                }
            }
            assert forall|x: i64| #[trigger] w.push(vector.last()).contains(x) <==> (w.contains(x)
                || x == vector.last()) by {
                if w.push(vector.last()).contains(x) {
                    let t = choose|t: int|
                        0 <= t < w.push(vector.last()).len() && w.push(vector.last())[t] == x;
                    if t < w.len() {
                        assert(w[t] == x);
                    }
                }
                if w.contains(x) {
                    let t = choose|t: int| 0 <= t < w.len() && w[t] == x;
                    assert(w.push(vector.last())[t] == x);
                }
                if x == vector.last() {
                    assert(w.push(vector.last())[w.len() as int] == x);
                }
            }
            assert forall|i: int, j: int|
                0 <= i < j < w.push(vector.last()).len() implies w.push(vector.last())[i]
                != w.push(vector.last())[j] by {
                if j == w.len() {
                    assert(w.contains(w[i]));
                }
            }
        }
    }
}

/// The candidate ids hold every id of both rankings exactly once.
proof fn lemma_fused_ids(keyword: Seq<i64>, vector: Seq<i64>)
    requires
        distinct_ids(keyword),
        distinct_ids(vector),
    ensures
        distinct_ids(fused_ids(keyword, vector)),
        forall|x: i64| #[trigger]
            fused_ids(keyword, vector).contains(x) <==> (keyword.contains(x) || vector.contains(
                x,
            )),
{
    lemma_vector_only(keyword, vector);
    let w = vector_only(keyword, vector);
    let c = fused_ids(keyword, vector);
    assert forall|i: int, j: int| 0 <= i < j < c.len() implies c[i] != c[j] by {
        if j >= keyword.len() && i < keyword.len() {
            assert(w.contains(c[j])) by {
                assert(w[j - keyword.len()] == c[j]);
            }
            assert(keyword.contains(c[i]));
        } else if i >= keyword.len() {
            assert(c[i] == w[i - keyword.len()]);
            assert(c[j] == w[j - keyword.len()]);
        }
    }
    assert forall|x: i64| #[trigger] c.contains(x) <==> (keyword.contains(x) || vector.contains(x)) by {
        if c.contains(x) {
            let t = choose|t: int| 0 <= t < c.len() && c[t] == x;
            if t < keyword.len() {
                assert(keyword[t] == x);
                assert(keyword.contains(x));
            } else {
                assert(w[t - keyword.len()] == x);
                assert(w.contains(x));
            }
        }
        if keyword.contains(x) {
            let t = choose|t: int| 0 <= t < keyword.len() && keyword[t] == x;
            assert(c[t] == x);
            assert(c.contains(x));
        } else if vector.contains(x) {
            assert(w.contains(x));
            let t = choose|t: int| 0 <= t < w.len() && w[t] == x;
            assert(c[t + keyword.len()] == x);
            assert(c.contains(x));
        }
    }
}

fn position_of(s: &Vec<i64>, id: i64) -> (r: Option<usize>)
    ensures
        as_rank(index_of(s@, id)) == r,
        r matches Some(i) ==> i < s.len(),
{
    let mut i: usize = 0;
    while i < s.len()
        invariant
            i <= s.len(),
            forall|j: int| 0 <= j < i ==> s@[j] != id,
        decreases s.len() - i,
    {
        if s[i] == id {
            proof {
                lemma_index_of_bounds(s@, id);
                match index_of(s@, id) {
                    Some(k) => {
                        if k < i {
                            assert(s@[k] != id);
                        } else if k > i {
                            assert(s@[i as int] != id);
                        }
                    },
                    None => {
                        assert(s@.contains(id));
                    },
                }
            }
            return Some(i);
        }
        i += 1;
    }
    proof {
        lemma_index_of_bounds(s@, id);
        match index_of(s@, id) {
            Some(k) => {
                assert(s@[k] != id);
            },
            None => {},
        }
    }
    None
}

fn rrf_item_exec(h: &FusedHit) -> (r: RankItem)
    requires
        h.keyword_rank matches Some(a) ==> fusable_len(a as nat),
        h.vector_rank matches Some(c) ==> fusable_len(c as nat),
    ensures
        r == rrf_item(*h),
        r.den > 0,
{
    match (h.keyword_rank, h.vector_rank) {
        (Some(a), Some(c)) => {
            let x: u64 = RRF_K + a as u64;
            let y: u64 = RRF_K + c as u64;
            assert(x * y <= 0x7fff_ffff_ffff_ffff) by (nonlinear_arith)
                requires
                    x <= 0x7fff_ffff + 60,
                    y <= 0x7fff_ffff + 60,
            ;
            assert(x * y > 0) by (nonlinear_arith)
                requires
                    x >= 60,
                    y >= 60,
            ;
            RankItem { num: 2 * RRF_K + a as u64 + c as u64, den: x * y, tiebreak: h.id }
        },
        (Some(a), None) => RankItem { num: 1, den: RRF_K + a as u64, tiebreak: h.id },
        (None, Some(c)) => RankItem { num: 1, den: RRF_K + c as u64, tiebreak: h.id },
        (None, None) => RankItem { num: 0, den: 1, tiebreak: h.id },
    }
}

/// `out` is the fused ranking of the two rankings cut to `limit`: as many
/// hits as there are ids (at most `limit`), each id's hit as `hit_for` gives
/// it, best first by fused score (ties by id), and every id left out ranks
/// after every hit kept.
pub open spec fn is_fused_top(keyword: Seq<i64>, vector: Seq<i64>, limit: nat, out: Seq<FusedHit>) -> bool {
    &&& out.len() == if fused_ids(keyword, vector).len() < limit {
        fused_ids(keyword, vector).len()
    } else {
        limit
    }
    &&& forall|k: int|
        0 <= k < out.len() ==> fused_ids(keyword, vector).contains((#[trigger] out[k]).id) && out[k]
            == hit_for(keyword, vector, out[k].id)
    &&& forall|k1: int, k2: int|
        0 <= k1 < k2 < out.len() ==> ranks_before(
            rrf_item(#[trigger] out[k1]),
            rrf_item(#[trigger] out[k2]),
        )
    &&& forall|id: i64, k: int|
        #![trigger fused_ids(keyword, vector).contains(id), out[k]]
        fused_ids(keyword, vector).contains(id) && (forall|q: int|
            0 <= q < out.len() ==> (#[trigger] out[q]).id != id) && 0 <= k < out.len() ==> ranks_before(
            rrf_item(out[k]),
            rrf_item(hit_for(keyword, vector, id)),
        )
}

/// Fuses a keyword ranking and a vector ranking (ids best first) and keeps
/// the best `limit` ids by fused score, best first; equal scores go in
/// ascending id order.
pub fn reciprocal_rank_fusion(keyword: &Vec<i64>, vector: &Vec<i64>, limit: usize) -> (out: Vec<
    FusedHit,
>)
    requires
        distinct_ids(keyword@),
        distinct_ids(vector@),
        fusable_len(keyword.len() as nat),
        fusable_len(vector.len() as nat),
    ensures
        is_fused_top(keyword@, vector@, limit as nat, out@),
{
    let ghost ids = fused_ids(keyword@, vector@);
    proof {
        lemma_fused_ids(keyword@, vector@);
        lemma_vector_only(keyword@, vector@);
    }
    let mut cands: Vec<FusedHit> = Vec::new();
    let mut i: usize = 0;
    while i < keyword.len()
        invariant
            i <= keyword.len(),
            distinct_ids(keyword@),
            cands.len() == i,
            forall|j: int|
                0 <= j < i ==> #[trigger] cands@[j] == hit_for(keyword@, vector@, keyword@[j]),
        decreases keyword.len() - i,
    {
        let vr = position_of(vector, keyword[i]);
        proof {
            lemma_index_of_distinct(keyword@, i as int);
        }
        cands.push(FusedHit { id: keyword[i], keyword_rank: Some(i), vector_rank: vr });
        i += 1;
    }
    let mut j: usize = 0;
    let ghost mut seen: Seq<i64> = Seq::empty();
    while j < vector.len()
        invariant
            j <= vector.len(),
            distinct_ids(keyword@),
            distinct_ids(vector@),
            seen == vector_only(keyword@, vector@.take(j as int)),
            cands.len() == keyword.len() + seen.len(),
            forall|q: int|
                0 <= q < keyword.len() ==> #[trigger] cands@[q] == hit_for(
                    keyword@,
                    vector@,
                    keyword@[q],
                ),
            forall|q: int|
                0 <= q < seen.len() ==> #[trigger] cands@[keyword.len() + q] == hit_for(
                    keyword@,
                    vector@,
                    seen[q],
                ),
        decreases vector.len() - j,
    {
        let kr = position_of(keyword, vector[j]);
        proof {
            assert(vector@.take(j + 1).drop_last() =~= vector@.take(j as int));
            lemma_index_of_bounds(keyword@, vector@[j as int]);
        }
        if kr.is_none() {
            proof {
                lemma_index_of_distinct(vector@, j as int);
            }
            cands.push(FusedHit { id: vector[j], keyword_rank: None, vector_rank: Some(j) });
            proof {
                seen = seen.push(vector@[j as int]);
                assert forall|q: int| 0 <= q < seen.len() implies #[trigger] cands@[keyword.len()
                    + q] == hit_for(keyword@, vector@, seen[q]) by {
                    if q < seen.len() - 1 {
                        assert(seen[q] == seen.drop_last()[q]);
                    }
                }
            }
        }
        j += 1;
    }
    proof {
        assert(vector@.take(vector.len() as int) =~= vector@);
        assert(cands@.len() == ids.len());
        assert forall|q: int| 0 <= q < cands.len() implies #[trigger] cands@[q] == hit_for(
            keyword@,
            vector@,
            ids[q],
        ) by {
            if q < keyword.len() {
                assert(ids[q] == keyword@[q]);
            } else {
                assert(cands@[keyword.len() + (q - keyword.len())] == cands@[q]);
                assert(ids[q] == seen[q - keyword.len()]);
            }
        }
    }
    let mut items: Vec<RankItem> = Vec::new();
    let mut t: usize = 0;
    while t < cands.len()
        invariant
            t <= cands.len(),
            cands.len() == ids.len(),
            distinct_ids(ids),
            fusable_len(keyword.len() as nat),
            fusable_len(vector.len() as nat),
            forall|q: int| 0 <= q < cands.len() ==> #[trigger] cands@[q] == hit_for(
                keyword@,
                vector@,
                ids[q],
            ),
            items.len() == t,
            forall|q: int| 0 <= q < t ==> #[trigger] items@[q] == rrf_item(cands@[q]),
            forall|q: int| 0 <= q < t ==> (#[trigger] items@[q]).den > 0,
        decreases cands.len() - t,
    {
        proof {
            lemma_index_of_bounds(keyword@, ids[t as int]);
            lemma_index_of_bounds(vector@, ids[t as int]);
        }
        let it = rrf_item_exec(&cands[t]);
        items.push(it);
        t += 1;
    }
    proof {
        assert forall|a: int, b: int|
            0 <= a < items.len() && 0 <= b < items.len() && a != b implies (#[trigger] items@[a]).tiebreak
            != (#[trigger] items@[b]).tiebreak by {
            assert(items@[a].tiebreak == ids[a]);
            assert(items@[b].tiebreak == ids[b]);
            if a < b {
                assert(ids[a] != ids[b]);
            } else {
                assert(ids[b] != ids[a]);
            }
        }
        assert(rankable(items@));
    }
    let order = rank_items(&items, limit);
    let mut out: Vec<FusedHit> = Vec::new();
    let mut k: usize = 0;
    while k < order.len()
        invariant
            k <= order.len(),
            forall|q: int| 0 <= q < order.len() ==> (#[trigger] order@[q]) < cands.len(),
            out.len() == k,
            forall|q: int| 0 <= q < k ==> #[trigger] out@[q] == cands@[order@[q] as int],
        decreases order.len() - k,
    {
        out.push(cands[order[k]]);
        k += 1;
    }
    proof {
        assert forall|q: int| 0 <= q < out.len() implies ids.contains((#[trigger] out@[q]).id)
            && out@[q] == hit_for(keyword@, vector@, out@[q].id) by {
            let x = order@[q] as int;
            assert(out@[q] == cands@[x]);
            assert(cands@[x].id == ids[x]);
        }
        assert forall|k1: int, k2: int| 0 <= k1 < k2 < out.len() implies ranks_before(
            rrf_item(#[trigger] out@[k1]),
            rrf_item(#[trigger] out@[k2]),
        ) by {
            assert(ranks_before(items@[order@[k1] as int], items@[order@[k2] as int]));
        }
        assert forall|id: i64, k: int|
            #![trigger ids.contains(id), out@[k]]
            ids.contains(id) && (forall|q: int| 0 <= q < out.len() ==> (#[trigger] out@[q]).id
                != id) && 0 <= k < out.len() implies ranks_before(
            rrf_item(out@[k]),
            rrf_item(hit_for(keyword@, vector@, id)),
        ) by {
            let x = choose|x: int| 0 <= x < ids.len() && ids[x] == id;
            assert(cands@[x] == hit_for(keyword@, vector@, id));
            if order@.contains(x as usize) {
                let q = choose|q: int| 0 <= q < order.len() && order@[q] == x as usize;
                assert(out@[q].id == id);
            }
            assert(ranks_before(items@[order@[k] as int], items@[x]));
        }
    }
    out
}

/// A single ranking gives a strictly higher score to a better rank.
pub proof fn lemma_better_rank_scores_higher(id1: i64, id2: i64, r1: usize, r2: usize)
    requires
        r1 < r2,
        fusable_len(r2 as nat),
    ensures
        score_gt(
            rrf_item(FusedHit { id: id1, keyword_rank: Some(r1), vector_rank: None }),
            rrf_item(FusedHit { id: id2, keyword_rank: Some(r2), vector_rank: None }),
        ),
        score_gt(
            rrf_item(FusedHit { id: id1, keyword_rank: None, vector_rank: Some(r1) }),
            rrf_item(FusedHit { id: id2, keyword_rank: None, vector_rank: Some(r2) }),
        ),
{
    assert((RRF_K + r1) as u64 == 60 + r1);
    assert((RRF_K + r2) as u64 == 60 + r2);
}

/// An id that both rankings hold outscores an id that only one ranking
/// holds, as long as the latter's rank is no better than the former's rank
/// in either list.
pub proof fn lemma_agreement_outscores(id1: i64, id2: i64, a: usize, c: usize, r: usize)
    requires
        a <= r || c <= r,
        fusable_len(a as nat),
        fusable_len(c as nat),
        fusable_len(r as nat),
    ensures
        score_gt(
            rrf_item(FusedHit { id: id1, keyword_rank: Some(a), vector_rank: Some(c) }),
            rrf_item(FusedHit { id: id2, keyword_rank: Some(r), vector_rank: None }),
        ),
        score_gt(
            rrf_item(FusedHit { id: id1, keyword_rank: Some(a), vector_rank: Some(c) }),
            rrf_item(FusedHit { id: id2, keyword_rank: None, vector_rank: Some(r) }),
        ),
{
    let x: int = 60 + a;
    let y: int = 60 + c;
    let z: int = 60 + r;
    assert(x * y <= 0x7fff_ffff_ffff_ffff) by (nonlinear_arith)
        requires
            60 <= x <= 0x7fff_ffff + 60,
            60 <= y <= 0x7fff_ffff + 60,
    ;
    assert((x + y) * z > 1 * (x * y)) by (nonlinear_arith)
        requires
            x >= 60,
            y >= 60,
            z >= x || z >= y,
    ;
}

/// The hit of the id at position `k` of a keyword ranking when there is no
/// vector ranking.
pub open spec fn keyword_hit(keyword: Seq<i64>, k: int) -> FusedHit {
    FusedHit { id: keyword[k], keyword_rank: Some(k as usize), vector_rank: None }
}

/// Between two hits that only the keyword ranking holds, the one ranked
/// first in the fusion has the better (or the same) keyword rank, and on the
/// same rank the smaller id.
proof fn lemma_keyword_hits_order(h1: FusedHit, h2: FusedHit)
    requires
        h1.vector_rank is None,
        h2.vector_rank is None,
        h1.keyword_rank matches Some(a) && fusable_len(a as nat),
        h2.keyword_rank matches Some(b) && fusable_len(b as nat),
        ranks_before(rrf_item(h1), rrf_item(h2)),
    ensures
        h1.keyword_rank->0 <= h2.keyword_rank->0,
        h1.keyword_rank->0 == h2.keyword_rank->0 ==> h1.id < h2.id,
{
    let a = h1.keyword_rank->0;
    let b = h2.keyword_rank->0;
    assert((RRF_K + a) as u64 == 60 + a);
    assert((RRF_K + b) as u64 == 60 + b);
    let x = rrf_item(h1);
    let y = rrf_item(h2);
    assert(x == RankItem { num: 1, den: (RRF_K + a) as u64, tiebreak: h1.id });
    assert(y == RankItem { num: 1, den: (RRF_K + b) as u64, tiebreak: h2.id });
    assert((x.num as int) * (y.den as int) == y.den) by (nonlinear_arith)
        requires
            x.num == 1,
    ;
    assert((y.num as int) * (x.den as int) == x.den) by (nonlinear_arith)
        requires
            y.num == 1,
    ;
}

proof fn lemma_keyword_only_prefix(keyword: Seq<i64>, limit: nat, out: Seq<FusedHit>, n: int)
    requires
        distinct_ids(keyword),
        fusable_len(keyword.len()),
        fused_ids(keyword, Seq::empty()) == keyword,
        is_fused_top(keyword, Seq::empty(), limit, out),
        0 <= n <= out.len(),
    ensures
        forall|k: int| 0 <= k < n ==> out[k] == keyword_hit(keyword, k),
    decreases n,
{
    if n > 0 {
        lemma_keyword_only_prefix(keyword, limit, out, n - 1);
        let e = Seq::<i64>::empty();
        let k = n - 1;
        let h = out[k];
        assert(keyword.contains(h.id) && h == hit_for(keyword, e, h.id));
        lemma_index_of_bounds(keyword, h.id);
        lemma_index_of_bounds(e, h.id);
        let r = index_of(keyword, h.id)->0;
        assert(0 <= r < keyword.len() && keyword[r] == h.id);
        assert(h.keyword_rank == Some(r as usize) && h.vector_rank is None);
        if k > 0 {
            assert(out[k - 1] == keyword_hit(keyword, k - 1));
            lemma_keyword_hits_order(out[k - 1], h);
            if r == k - 1 {
                assert(out[k - 1].id == h.id);
            }
        }
        if r != k {
            assert(r > k);
            let id = keyword[k];
            lemma_index_of_distinct(keyword, k);
            assert(hit_for(keyword, e, id) == keyword_hit(keyword, k));
            assert forall|q: int| 0 <= q < out.len() implies (#[trigger] out[q]).id != id by {
                if q < k {
                    assert(out[q] == keyword_hit(keyword, q));
                } else if q == k {
                } else if out[q].id == id {
                    assert(out[q] == hit_for(keyword, e, id));
                    lemma_keyword_hits_order(h, out[q]);
                }
            }
            assert(fused_ids(keyword, e).contains(id));
            lemma_keyword_hits_order(h, hit_for(keyword, e, id));
        }
        assert(r == k);
    }
}

/// With no vector ranking, fusion keeps the keyword ranking as it is: the
/// first `min(limit, len)` ids in their order, each scored by its position
/// alone (`1 / (60 + position)`).
pub proof fn lemma_keyword_only_fusion(keyword: Seq<i64>, limit: nat, out: Seq<FusedHit>)
    requires
        distinct_ids(keyword),
        fusable_len(keyword.len()),
        is_fused_top(keyword, Seq::empty(), limit, out),
    ensures
        out.len() == if keyword.len() < limit {
            keyword.len()
        } else {
            limit
        },
        forall|k: int| 0 <= k < out.len() ==> #[trigger] out[k] == keyword_hit(keyword, k),
{
    let e = Seq::<i64>::empty();
    assert(vector_only(keyword, e) =~= e);
    assert(fused_ids(keyword, e) =~= keyword);
    lemma_keyword_only_prefix(keyword, limit, out, out.len() as int);
}

} // verus!
