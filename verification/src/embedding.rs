//! Batch layout for the embedding model: token rows padded with zeros to
//! the longest row and laid out row after row, as the model's input
//! tensors expect.
use vstd::prelude::*;

verus! {

/// The longest row length (zero for no rows).
pub open spec fn is_max_len(rows: Seq<Seq<u32>>, m: int) -> bool {
    &&& forall|i: int| 0 <= i < rows.len() ==> rows[i].len() <= m
    &&& rows.len() == 0 ==> m == 0
    &&& rows.len() > 0 ==> exists|i: int| 0 <= i < rows.len() && rows[i].len() == m
}

/// Entry `j` of row `i` after padding with zeros.
pub open spec fn padded_entry(rows: Seq<Seq<u32>>, i: int, j: int) -> u32 {
    if j < rows[i].len() {
        rows[i][j]
    } else {
        0
    }
}

/// Length of the longest row.
pub fn max_row_len(rows: &Vec<Vec<u32>>) -> (m: usize)
    ensures
        is_max_len(rows.deep_view(), m as int),
{
    let mut m: usize = 0;
    let mut i: usize = 0;
    while i < rows.len()
        invariant
            i <= rows.len(),
            forall|a: int| 0 <= a < i ==> rows@[a]@.len() <= m,
            i == 0 ==> m == 0,
            i > 0 ==> exists|a: int| 0 <= a < i && rows@[a]@.len() == m,
        decreases rows.len() - i,
    {
        if rows[i].len() > m {
            m = rows[i].len();
        }
        i += 1;
    }
    proof {
        assert forall|a: int| 0 <= a < rows.len() implies rows.deep_view()[a].len() <= m by {
            assert(rows.deep_view()[a] == rows@[a]@);
        }
        if rows.len() > 0 {
            let a = choose|a: int| 0 <= a < rows.len() && rows@[a]@.len() == m;
            assert(rows.deep_view()[a] == rows@[a]@);
        }
    }
    m
}

/// `a * width + b` addresses entry `b` of row `a` inside the first `n` rows.
proof fn lemma_row_major(a: int, b: int, width: int, n: int)
    requires
        0 <= a < n,
        0 <= b < width,
    ensures
        a * width + b < n * width,
        (a + 1) * width <= n * width,
        0 <= a * width,
{
    assert((a + 1) * width <= n * width) by (nonlinear_arith)
        requires
            a + 1 <= n,
            0 <= width,
    ;
    assert(0 <= a * width) by (nonlinear_arith)
        requires
            0 <= a,
            0 <= width,
    ;
    assert((a + 1) * width == a * width + width) by (nonlinear_arith);
}

/// The rows padded with zeros to `width` and laid out row after row.
pub fn pad_rows(rows: &Vec<Vec<u32>>, width: usize) -> (flat: Vec<u32>)
    requires
        forall|i: int| 0 <= i < rows.len() ==> rows@[i]@.len() <= width,
        rows.len() * width <= usize::MAX,
    ensures
        flat.len() == rows.len() * width,
        forall|i: int, j: int|
            0 <= i < rows.len() && 0 <= j < width ==> flat@[i * width + j] == padded_entry(
                rows.deep_view(),
                i,
                j,
            ),
{
    let n = rows.len();
    let mut flat: Vec<u32> = Vec::new();
    let mut i: usize = 0;
    while i < n
        invariant
            n == rows.len(),
            i <= n,
            n * width <= usize::MAX,
            forall|a: int| 0 <= a < rows.len() ==> rows@[a]@.len() <= width,
            flat.len() == i * width,
            forall|a: int, b: int|
                0 <= a < i && 0 <= b < width ==> flat@[a * width + b] == padded_entry(
                    rows.deep_view(),
                    a,
                    b,
                ),
        decreases n - i,
    {
        proof {
            assert((i + 1) * width <= n * width) by (nonlinear_arith)
                requires
                    i + 1 <= n,
            ;
            assert((i + 1) * width == i * width + width) by (nonlinear_arith);
        }
        let row = &rows[i];
        let ghost base = flat.len() as int;
        let mut j: usize = 0;
        while j < width
            invariant
                n == rows.len(),
                i < n,
                row@ == rows@[i as int]@,
                row.len() <= width,
                base == i * width,
                base + width <= n * width,
                n * width <= usize::MAX,
                j <= width,
                flat.len() == base + j,
                forall|a: int, b: int|
                    0 <= a < i && 0 <= b < width ==> flat@[a * width + b] == padded_entry(
                        rows.deep_view(),
                        a,
                        b,
                    ),
                forall|b: int| 0 <= b < j ==> flat@[base + b] == padded_entry(rows.deep_view(), i as int, b),
            decreases width - j,
        {
            let v: u32 = if j < row.len() {
                row[j]
            } else {
                0
            };
            proof {
                assert(rows.deep_view()[i as int] == rows@[i as int]@);
            }
            let ghost before = flat@;
            flat.push(v);
            proof {
                assert forall|a: int, b: int|
                    0 <= a < i && 0 <= b < width implies flat@[a * width + b] == padded_entry(
                        rows.deep_view(),
                        a,
                        b,
                    ) by {
                    lemma_row_major(a, b, width as int, i as int);
                    assert(flat@[a * width + b] == before[a * width + b]);
                }
            }
            j += 1;
        }
        proof {
            assert forall|a: int, b: int|
                0 <= a < i + 1 && 0 <= b < width implies flat@[a * width + b] == padded_entry(
                    rows.deep_view(),
                    a,
                    b,
                ) by {
                if a == i {
                    assert(a * width + b == base + b);
                }
            }
        }
        i += 1;
    }
    flat
}

/// Token ids and attention masks of a batch, each padded to the longest
/// sequence and laid out row after row, with that length.
pub fn batch_layout(ids: &Vec<Vec<u32>>, masks: &Vec<Vec<u32>>) -> (r: (Vec<u32>, Vec<u32>, usize))
    requires
        ids.len() == masks.len(),
        forall|i: int| 0 <= i < ids.len() ==> masks@[i]@.len() == ids@[i]@.len(),
        forall|i: int| 0 <= i < ids.len() ==> ids.len() * ids@[i]@.len() <= usize::MAX,
    ensures
        is_max_len(ids.deep_view(), r.2 as int),
        r.0.len() == ids.len() * r.2,
        r.1.len() == ids.len() * r.2,
        forall|i: int, j: int|
            0 <= i < ids.len() && 0 <= j < r.2 ==> r.0@[i * r.2 + j] == padded_entry(
                ids.deep_view(),
                i,
                j,
            ) && r.1@[i * r.2 + j] == padded_entry(masks.deep_view(), i, j),
{
    let width = max_row_len(ids);
    proof {
        if ids.len() > 0 {
            let a = choose|a: int| 0 <= a < ids.len() && ids.deep_view()[a].len() == width;
            assert(ids.deep_view()[a] == ids@[a]@);
        }
        assert forall|i: int| 0 <= i < ids.len() implies ids@[i]@.len() <= width && masks@[i]@.len()
            <= width by {
            assert(ids.deep_view()[i] == ids@[i]@);
        }
    }
    let flat_ids = pad_rows(ids, width);
    let flat_masks = pad_rows(masks, width);
    (flat_ids, flat_masks, width)
}

} // verus!
