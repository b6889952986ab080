//! Stable ordering by text keys, as `sort_by` on `String` comparisons does.
//!
//! `String` compares its UTF-8 bytes lexicographically, which orders texts
//! the same way as comparing their characters by code point.
use vstd::prelude::*;
use crate::text::chars_of;

verus! {

/// Lexicographic "less than" on character sequences, by code point.
pub open spec fn text_lt(a: Seq<char>, b: Seq<char>) -> bool
    decreases a.len(),
{
    if a.len() == 0 {
        b.len() > 0
    } else if b.len() == 0 {
        false
    } else if a[0] != b[0] {
        (a[0] as u32) < (b[0] as u32)
    } else {
        text_lt(a.drop_first(), b.drop_first())
    }
}

/// Position `i` sorts before position `j`: smaller key, or equal keys and
/// `i` earlier.
pub open spec fn text_before(keys: Seq<Seq<char>>, i: int, j: int) -> bool {
    text_lt(keys[i], keys[j]) || (keys[i] == keys[j] && i < j)
}

proof fn lemma_char_u32_injective(x: char, y: char)
    ensures
        x != y ==> (x as u32) != (y as u32),
{
}

proof fn lemma_eq_from_parts(a: Seq<char>, b: Seq<char>)
    requires
        a.len() > 0,
        b.len() > 0,
        a[0] == b[0],
        a.drop_first() == b.drop_first(),
    ensures
        a == b,
{
    assert(a.drop_first().len() == a.len() - 1);
    assert(b.drop_first().len() == b.len() - 1);
    assert(a.len() == b.len());
    assert forall|i: int| 0 <= i < a.len() implies a[i] == b[i] by {
        if i > 0 {
            assert(a[i] == a.drop_first()[i - 1]);
            assert(b[i] == b.drop_first()[i - 1]);
        }
    }
    assert(a =~= b);
}

/// `text_lt` is irreflexive.
pub proof fn lemma_text_lt_irreflexive(a: Seq<char>)
    ensures
        !text_lt(a, a),
    decreases a.len(),
{
    if a.len() > 0 {
        lemma_text_lt_irreflexive(a.drop_first());
    }
}

/// Two different texts are ordered one way, never both.
pub proof fn lemma_text_lt_total(a: Seq<char>, b: Seq<char>)
    requires
        a != b,
    ensures
        text_lt(a, b) != text_lt(b, a),
    decreases a.len(),
{
    if a.len() == 0 {
        if b.len() == 0 {
            assert(a =~= b);
        }
    } else if b.len() > 0 {
        lemma_char_u32_injective(a[0], b[0]);
        if a[0] == b[0] {
            if a.drop_first() == b.drop_first() {
                lemma_eq_from_parts(a, b);
            }
            lemma_text_lt_total(a.drop_first(), b.drop_first());
        }
    }
}

/// `text_lt` is transitive.
pub proof fn lemma_text_lt_transitive(a: Seq<char>, b: Seq<char>, c: Seq<char>)
    requires
        text_lt(a, b),
        text_lt(b, c),
    ensures
        text_lt(a, c),
    decreases a.len(),
{
    if a.len() > 0 && b.len() > 0 && c.len() > 0 {
        if a[0] == b[0] && b[0] == c[0] {
            lemma_text_lt_transitive(a.drop_first(), b.drop_first(), c.drop_first());
        }
        lemma_char_u32_injective(a[0], c[0]);
    }
}

/// `text_lt` is a strict total order.
pub proof fn lemma_text_lt_order(a: Seq<char>, b: Seq<char>, c: Seq<char>)
    ensures
        !text_lt(a, a),
        a != b ==> text_lt(a, b) != text_lt(b, a),
        a == b ==> !text_lt(a, b),
        text_lt(a, b) && text_lt(b, c) ==> text_lt(a, c),
{
    lemma_text_lt_irreflexive(a);
    if a != b {
        lemma_text_lt_total(a, b);
    }
    if text_lt(a, b) && text_lt(b, c) {
        lemma_text_lt_transitive(a, b, c);
    }
}

proof fn lemma_text_lt_skip(a: Seq<char>, b: Seq<char>, k: int)
    requires
        0 <= k <= a.len(),
        k <= b.len(),
        forall|j: int| 0 <= j < k ==> a[j] == b[j],
    ensures
        text_lt(a, b) == text_lt(a.skip(k), b.skip(k)),
    decreases k,
{
    if k > 0 {
        assert(a.drop_first().skip(k - 1) =~= a.skip(k));
        assert(b.drop_first().skip(k - 1) =~= b.skip(k));
        lemma_text_lt_skip(a.drop_first(), b.drop_first(), k - 1);
    } else {
        assert(a.skip(0) =~= a);
        assert(b.skip(0) =~= b);
    }
}

/// Compares two character sequences by `text_lt`.
pub fn chars_less(a: &Vec<char>, b: &Vec<char>) -> (r: bool)
    ensures
        r == text_lt(a@, b@),
{
    let mut k: usize = 0;
    while k < a.len() && k < b.len() && a[k] == b[k]
        invariant
            k <= a.len(),
            k <= b.len(),
            forall|j: int| 0 <= j < k ==> a@[j] == b@[j],
        decreases a.len() - k,
    {
        k += 1;
    }
    proof {
        lemma_text_lt_skip(a@, b@, k as int);
    }
    if k == a.len() {
        k < b.len()
    } else if k == b.len() {
        false
    } else {
        proof {
            assert(a@.skip(k as int)[0] == a@[k as int]);
            assert(b@.skip(k as int)[0] == b@[k as int]);
        }
        (a[k] as u32) < (b[k] as u32)
    }
}

/// Positions of `keys` in ascending key order; equal keys keep their input
/// order (a stable sort).
pub fn sort_by_text(keys: &Vec<String>) -> (order: Vec<usize>)
    ensures
        order.len() == keys.len(),
        forall|i: int| 0 <= i < order.len() ==> (#[trigger] order@[i]) < keys.len(),
        forall|x: int| 0 <= x < keys.len() ==> #[trigger] order@.contains(x as usize),
        forall|i: int, j: int|
            0 <= i < j < order.len() ==> text_before(
                keys.deep_view(),
                #[trigger] order@[i] as int,
                #[trigger] order@[j] as int,
            ),
{
    let n = keys.len();
    let ghost kv = keys.deep_view();
    let mut cs: Vec<Vec<char>> = Vec::new();
    let mut t: usize = 0;
    while t < n
        invariant
            n == keys.len(),
            kv == keys.deep_view(),
            t <= n,
            cs.len() == t,
            forall|q: int| 0 <= q < t ==> (#[trigger] cs@[q])@ == kv[q],
        decreases n - t,
    {
        cs.push(chars_of(keys[t].as_str()));
        t += 1;
    }
    let mut order: Vec<usize> = Vec::new();
    let mut k: usize = 0;
    while k < n
        invariant
            n == keys.len(),
            kv == keys.deep_view(),
            cs.len() == n,
            forall|q: int| 0 <= q < n ==> (#[trigger] cs@[q])@ == kv[q],
            k <= n,
            order.len() == k,
            forall|i: int| 0 <= i < order.len() ==> (#[trigger] order@[i]) < k,
            forall|x: int| 0 <= x < k ==> #[trigger] order@.contains(x as usize),
            forall|i: int, j: int|
                0 <= i < j < order.len() ==> text_before(
                    kv,
                    #[trigger] order@[i] as int,
                    #[trigger] order@[j] as int,
                ),
        decreases n - k,
    {
        let mut p: usize = 0;
        while p < order.len() && !chars_less(&cs[k], &cs[order[p]])
            invariant
                n == keys.len(),
                cs.len() == n,
                forall|q: int| 0 <= q < n ==> (#[trigger] cs@[q])@ == kv[q],
                k < n,
                p <= order.len(),
                forall|i: int| 0 <= i < order.len() ==> (#[trigger] order@[i]) < k,
                forall|q: int| 0 <= q < p ==> !text_lt(kv[k as int], kv[#[trigger] order@[q] as int]),
            decreases order.len() - p,
        {
            p += 1;
        }
        let ghost old_order = order@;
        order.insert(p, k);
        proof {
            assert(order@ == old_order.insert(p as int, k));
            assert forall|i: int, j: int| 0 <= i < j < order.len() implies text_before(
                kv,
                #[trigger] order@[i] as int,
                #[trigger] order@[j] as int,
            ) by {
                let a = order@[i];
                let b = order@[j];
                if j < p {
                    assert(a == old_order[i] && b == old_order[j]);
                } else if j == p {
                    assert(a == old_order[i] && b == k);
                    assert(!text_lt(kv[k as int], kv[a as int]));
                    lemma_text_lt_order(kv[a as int], kv[k as int], kv[k as int]);
                } else if i < p {
                    assert(a == old_order[i] && b == old_order[j - 1]);
                } else if i == p {
                    assert(a == k && b == old_order[j - 1]);
                    assert(text_lt(kv[k as int], kv[old_order[p as int] as int]));
                    let m = old_order[p as int];
                    if j - 1 > p {
                        assert(text_before(kv, m as int, b as int));
                        lemma_text_lt_order(kv[k as int], kv[m as int], kv[b as int]);
                    }
                } else {
                    assert(a == old_order[i - 1] && b == old_order[j - 1]);
                }
            }
            assert forall|x: int| 0 <= x < k + 1 implies #[trigger] order@.contains(x as usize) by {
                if x == k {
                    assert(order@[p as int] == k);
                } else {
                    assert(old_order.contains(x as usize));
                    let t = choose|t: int| 0 <= t < old_order.len() && old_order[t] == x as usize;
                    if t < p {
                        assert(order@[t] == x as usize);
                    } else {
                        assert(order@[t + 1] == x as usize);
                    }
                }
            }
            assert forall|i: int| 0 <= i < order.len() implies (#[trigger] order@[i]) < k + 1 by {
                if i < p {
                    assert(order@[i] == old_order[i]);
                } else if i > p {
                    assert(order@[i] == old_order[i - 1]);
                }
            }
        }
        k += 1;
    }
    order
}

} // verus!

verus! {

/// `order` sorts the positions of `keys` stably by key.
pub open spec fn is_stable_text_sort(keys: Seq<Seq<char>>, order: Seq<usize>) -> bool {
    &&& order.len() == keys.len()
    &&& forall|i: int| 0 <= i < order.len() ==> (#[trigger] order[i]) < keys.len()
    &&& forall|x: int| 0 <= x < keys.len() ==> #[trigger] order.contains(x as usize)
    &&& forall|i: int, j: int|
        0 <= i < j < order.len() ==> text_before(keys, #[trigger] order[i] as int, #[trigger] order[j] as int)
}

/// The stable sort order of `keys` (there is exactly one).
pub open spec fn stable_text_order(keys: Seq<Seq<char>>) -> Seq<usize> {
    choose|o: Seq<usize>| is_stable_text_sort(keys, o)
}

proof fn lemma_text_before_asymmetric(keys: Seq<Seq<char>>, i: int, j: int)
    requires
        text_before(keys, i, j),
    ensures
        !text_before(keys, j, i),
        i != j,
{
    lemma_text_lt_irreflexive(keys[i]);
    lemma_text_lt_irreflexive(keys[j]);
    if text_lt(keys[i], keys[j]) && text_lt(keys[j], keys[i]) {
        lemma_text_lt_transitive(keys[i], keys[j], keys[i]);
    }
}

proof fn lemma_sorted_prefix_unique(keys: Seq<Seq<char>>, o1: Seq<usize>, o2: Seq<usize>)
    requires
        o1.len() == o2.len(),
        forall|x: usize| #[trigger] o1.contains(x) <==> o2.contains(x),
        forall|i: int, j: int|
            0 <= i < j < o1.len() ==> text_before(keys, #[trigger] o1[i] as int, #[trigger] o1[j] as int),
        forall|i: int, j: int|
            0 <= i < j < o2.len() ==> text_before(keys, #[trigger] o2[i] as int, #[trigger] o2[j] as int),
    ensures
        o1 == o2,
    decreases o1.len(),
{
    if o1.len() == 0 {
        assert(o1 =~= o2);
    } else {
        let a = o1[0];
        let b = o2[0];
        if a != b {
            assert(o1.contains(a));
            assert(o2.contains(a));
            let t = choose|t: int| 0 <= t < o2.len() && o2[t] == a;
            assert(o2.contains(b));
            assert(o1.contains(b));
            let s = choose|s: int| 0 <= s < o1.len() && o1[s] == b;
            assert(text_before(keys, b as int, a as int));
            assert(text_before(keys, a as int, b as int));
            lemma_text_before_asymmetric(keys, a as int, b as int);
        }
        let p1 = o1.drop_first();
        let p2 = o2.drop_first();
        assert forall|x: usize| #[trigger] p1.contains(x) <==> p2.contains(x) by {
            if p1.contains(x) {
                let t = choose|t: int| 0 <= t < p1.len() && p1[t] == x;
                assert(o1[t + 1] == x);
                lemma_text_before_asymmetric(keys, o1[0] as int, o1[t + 1] as int);
                assert(o1.contains(x));
                assert(o2.contains(x));
                let u = choose|u: int| 0 <= u < o2.len() && o2[u] == x;
                assert(u != 0);
                assert(p2[u - 1] == x);
            }
            if p2.contains(x) {
                let t = choose|t: int| 0 <= t < p2.len() && p2[t] == x;
                assert(o2[t + 1] == x);
                lemma_text_before_asymmetric(keys, o2[0] as int, o2[t + 1] as int);
                assert(o2.contains(x));
                assert(o1.contains(x));
                let u = choose|u: int| 0 <= u < o1.len() && o1[u] == x;
                assert(u != 0);
                assert(p1[u - 1] == x);
            }
        }
        assert forall|i: int, j: int| 0 <= i < j < p1.len() implies text_before(
            keys,
            #[trigger] p1[i] as int,
            #[trigger] p1[j] as int,
        ) by {
            assert(p1[i] == o1[i + 1] && p1[j] == o1[j + 1]);
        }
        assert forall|i: int, j: int| 0 <= i < j < p2.len() implies text_before(
            keys,
            #[trigger] p2[i] as int,
            #[trigger] p2[j] as int,
        ) by {
            assert(p2[i] == o2[i + 1] && p2[j] == o2[j + 1]);
        }
        lemma_sorted_prefix_unique(keys, p1, p2);
        assert(o1 =~= o2) by {
            assert forall|i: int| 0 <= i < o1.len() implies o1[i] == o2[i] by {
                if i > 0 {
                    assert(o1[i] == p1[i - 1]);
                    assert(o2[i] == p2[i - 1]);
                }
            }
        }
    }
}

/// A stable sort of text keys is unique: any two orders that sort the same
/// keys stably are equal.
pub proof fn lemma_stable_text_sort_unique(keys: Seq<Seq<char>>, o1: Seq<usize>, o2: Seq<usize>)
    requires
        is_stable_text_sort(keys, o1),
        is_stable_text_sort(keys, o2),
    ensures
        o1 == o2,
{
    assert forall|x: usize| #[trigger] o1.contains(x) <==> o2.contains(x) by {
        if o1.contains(x) {
            let t = choose|t: int| 0 <= t < o1.len() && o1[t] == x;
            assert(x < keys.len());
            assert(o2.contains((x as int) as usize));
        }
        if o2.contains(x) {
            let t = choose|t: int| 0 <= t < o2.len() && o2[t] == x;
            assert(x < keys.len());
            assert(o1.contains((x as int) as usize));
        }
    }
    lemma_sorted_prefix_unique(keys, o1, o2);
}

/// The positions of `keys` in their stable ascending order.
pub fn stable_sort_by_text(keys: &Vec<String>) -> (order: Vec<usize>)
    ensures
        is_stable_text_sort(keys.deep_view(), order@),
        order@ == stable_text_order(keys.deep_view()),
{
    let order = sort_by_text(keys);
    proof {
        assert(is_stable_text_sort(keys.deep_view(), order@));
        let c = stable_text_order(keys.deep_view());
        assert(is_stable_text_sort(keys.deep_view(), c));
        lemma_stable_text_sort_unique(keys.deep_view(), order@, c);
    }
    order
}

} // verus!
