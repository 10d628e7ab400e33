//! The computations that worker threads perform on shared data: sums and
//! maxima of slices, and the sums of consecutive chunks that scoped
//! threads compute in parallel.

use vstd::prelude::*;
use crate::idioms::{partial_sums_fit, sum};

verus! {

/// The sum of `data`, as each summing thread computes it.
pub fn sum_slice(data: &[i32]) -> (r: i32)
    requires
        partial_sums_fit(data@),
    ensures
        r == sum(data@),
{
    let mut total: i32 = 0;
    let mut i: usize = 0;
    assert(data@.take(0) =~= Seq::<i32>::empty());
    while i < data.len()
        invariant
            i <= data@.len(),
            partial_sums_fit(data@),
            total == sum(data@.take(i as int)),
        decreases data.len() - i,
    {
        assert(data@.take(i + 1).drop_last() =~= data@.take(i as int));
        assert(i32::MIN <= sum(data@.take(i + 1)) <= i32::MAX);
        total = total + data[i];
        i = i + 1;
    }
    assert(data@.take(data@.len() as int) =~= data@);
    total
}

/// The largest value of `data`, `None` when it is empty.
pub fn max_slice(data: &[i32]) -> (r: Option<i32>)
    ensures
        data@.len() == 0 <==> r is None,
        r matches Some(m) ==> data@.contains(m) && forall|i: int| 0 <= i < data@.len() ==> #[trigger] data@[i] <= m,
{
    if data.len() == 0 {
        return None;
    }
    let mut best = data[0];
    let mut i: usize = 1;
    while i < data.len()
        invariant
            1 <= i <= data@.len(),
            data@.contains(best),
            forall|k: int| 0 <= k < i ==> #[trigger] data@[k] <= best,
        decreases data.len() - i,
    {
        if data[i] > best {
            best = data[i];
        }
        i = i + 1;
    }
    Some(best)
}

/// The chunk of `data` with index `k` when it is cut into pieces of
/// `size`; the last piece may be shorter.
pub open spec fn chunk(data: Seq<i32>, size: int, k: int) -> Seq<i32> {
    data.subrange(k * size, if (k + 1) * size < data.len() { (k + 1) * size } else { data.len() as int })
}

/// The sum of each chunk of `size` values, in order, as the threads that
/// each sum one chunk compute them.
pub fn chunk_sums(data: &[i32], size: usize) -> (r: Vec<i32>)
    requires
        size > 0,
        forall|k: int| 0 <= k * size < data@.len() ==> #[trigger] partial_sums_fit(chunk(data@, size as int, k)),
    ensures
        r@.len() * size >= data@.len(),
        (r@.len() as int - 1) * size < data@.len(),
        forall|k: int| 0 <= k < r@.len() ==> #[trigger] r@[k] == sum(chunk(data@, size as int, k)),
{
    let mut r: Vec<i32> = Vec::new();
    let mut start: usize = 0;
    assert(r@.len() * size == 0) by (nonlinear_arith)
        requires r@.len() == 0;
    while start < data.len()
        invariant
            size > 0,
            forall|k: int| 0 <= k * size < data@.len() ==> #[trigger] partial_sums_fit(chunk(data@, size as int, k)),
            start <= data@.len(),
            start < data@.len() ==> start == r@.len() * size,
            start == data@.len() ==> r@.len() * size >= data@.len(),
            r@.len() > 0 ==> (r@.len() as int - 1) * size < data@.len(),
            forall|k: int| 0 <= k < r@.len() ==> #[trigger] r@[k] == sum(chunk(data@, size as int, k)),
        decreases data.len() - start,
    {
        let end: usize = if data.len() - start > size { start + size } else { data.len() };
        let ghost k = r@.len() as int;
        assert(k * size == start);
        assert((k + 1) * size == start + size) by (nonlinear_arith)
            requires k * size == start;
        let piece = &data[start..end];
        assert(piece@ == chunk(data@, size as int, k));
        assert(partial_sums_fit(chunk(data@, size as int, k)));
        let s = sum_slice(piece);
        r.push(s);
        assert((r@.len() as int - 1) * size == start) by (nonlinear_arith)
            requires r@.len() == k + 1, k * size == start;
        start = end;
    }
    proof {
        if r@.len() == 0 {
            assert((r@.len() as int - 1) * size < 0) by (nonlinear_arith)
                requires r@.len() == 0, size > 0;
        }
    }
    r
}

/// The sum of the first `n` chunk sums.
pub open spec fn chunks_total(data: Seq<i32>, size: int, n: int) -> int
    decreases n,
{
    if n <= 0 {
        0
    } else {
        chunks_total(data, size, n - 1) + sum(chunk(data, size, n - 1))
    }
}

proof fn lemma_sum_concat(a: Seq<i32>, b: Seq<i32>)
    ensures
        sum(a + b) == sum(a) + sum(b),
    decreases b.len(),
{
    if b.len() == 0 {
        assert(a + b =~= a);
    } else {
        assert((a + b).drop_last() =~= a + b.drop_last());
        assert((a + b).last() == b.last());
        lemma_sum_concat(a, b.drop_last());
    }
}

proof fn lemma_chunks_prefix(data: Seq<i32>, size: int, n: int)
    requires
        size > 0,
        n >= 0,
        (n - 1) * size < data.len(),
    ensures
        chunks_total(data, size, n) == sum(data.take(if n * size < data.len() { n * size } else { data.len() as int })),
    decreases n,
{
    if n == 0 {
        assert(n * size == 0) by (nonlinear_arith)
            requires n == 0;
        assert(data.take(0) =~= Seq::<i32>::empty());
    } else {
        assert((n - 2) * size < data.len()) by (nonlinear_arith)
            requires (n - 1) * size < data.len(), size > 0;
        lemma_chunks_prefix(data, size, n - 1);
        let start = (n - 1) * size;
        let end = if n * size < data.len() { n * size } else { data.len() as int };
        assert(n * size == start + size) by (nonlinear_arith)
            requires start == (n - 1) * size;
        assert(start >= 0) by (nonlinear_arith)
            requires start == (n - 1) * size, n >= 1, size > 0;
        assert(chunk(data, size, n - 1) == data.subrange(start, end));
        assert(data.take(start) + data.subrange(start, end) =~= data.take(end));
        lemma_sum_concat(data.take(start), data.subrange(start, end));
        assert(chunks_total(data, size, n - 1) == sum(data.take(start)));
        assert(chunks_total(data, size, n) == chunks_total(data, size, n - 1) + sum(chunk(data, size, n - 1)));
    }
}

/// The chunk sums together make the sum of the whole: splitting the work
/// among threads, one chunk each, loses and repeats nothing.
pub proof fn law_chunk_sums_total(data: Seq<i32>, size: int, n: int)
    requires
        size > 0,
        n >= 0,
        n * size >= data.len(),
        (n - 1) * size < data.len(),
    ensures
        chunks_total(data, size, n) == sum(data),
{
    lemma_chunks_prefix(data, size, n);
    assert(data.take(data.len() as int) =~= data);
}

} // verus!
