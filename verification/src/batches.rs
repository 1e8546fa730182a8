//! Where each record batch's rows lie among the rows of all batches, so
//! that per-row results computed for all rows at once can be handed back to
//! the batch they came from.

use vstd::prelude::*;

verus! {

/// The number of rows in the first `i` batches.
pub open spec fn rows_before(counts: Seq<usize>, i: int) -> int
    decreases i,
{
    if i <= 0 {
        0
    } else {
        rows_before(counts, i - 1) + counts[i - 1]
    }
}

proof fn lemma_rows_before_monotonic(counts: Seq<usize>, i: int, j: int)
    requires
        0 <= i <= j <= counts.len(),
    ensures
        rows_before(counts, i) <= rows_before(counts, j),
    decreases j - i,
{
    if i < j {
        lemma_rows_before_monotonic(counts, i, j - 1);
    }
}

/// The row range of each batch, given the batches' row counts: batch `i`
/// covers the rows from the count of the batches before it, for its own
/// count.  `None` where the total number of rows overflows.
pub fn batch_row_ranges(row_counts: &[usize]) -> (r: Option<Vec<(usize, usize)>>)
    ensures
        r is None <==> rows_before(row_counts@, row_counts@.len() as int) > usize::MAX,
        r matches Some(ranges) ==> ranges@.len() == row_counts@.len() && forall|i: int|
            0 <= i < ranges@.len() ==> #[trigger] ranges@[i] == (
                rows_before(row_counts@, i) as usize,
                rows_before(row_counts@, i + 1) as usize,
            ),
{
    let mut ranges: Vec<(usize, usize)> = Vec::new();
    let mut offset: usize = 0;
    let mut i: usize = 0;
    while i < row_counts.len()
        invariant
            i <= row_counts.len(),
            offset == rows_before(row_counts@, i as int),
            ranges@.len() == i,
            forall|k: int|
                0 <= k < i ==> #[trigger] ranges@[k] == (
                    rows_before(row_counts@, k) as usize,
                    rows_before(row_counts@, k + 1) as usize,
                ),
        decreases row_counts.len() - i,
    {
        let n = row_counts[i];
        if offset > usize::MAX - n {
            proof {
                lemma_rows_before_monotonic(row_counts@, i + 1, row_counts@.len() as int);
            }
            return None;
        }
        ranges.push((offset, offset + n));
        offset = offset + n;
        i = i + 1;
    }
    Some(ranges)
}

} // verus!
