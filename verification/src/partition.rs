use vstd::prelude::*;

verus! {

/// A row band is a half-open range `[start, end)` of row indices.
///
/// `bands_partition(bands, rows)` says that the bands cut `[0, rows)` into
/// contiguous, ordered, non-empty pieces: every band is non-empty, each band
/// begins where the previous one ended, the first begins at row 0 and the
/// last ends at `rows`. An empty grid has no bands.
pub open spec fn bands_partition(bands: Seq<(usize, usize)>, rows: int) -> bool {
    &&& (forall|i: int| 0 <= i < bands.len() ==> (#[trigger] bands[i]).0 < bands[i].1)
    &&& (forall|i: int| 0 < i < bands.len() ==> (#[trigger] bands[i]).0 == bands[i - 1].1)
    &&& (bands.len() == 0 <==> rows == 0)
    &&& (bands.len() > 0 ==> bands[0].0 == 0 && bands[bands.len() - 1].1 == rows)
}

/// The nominal band height: one row per band when there are at least as many
/// workers as rows, otherwise the ceiling of `rows / workers`.
pub open spec fn band_height(rows: int, workers: int) -> int
    recommends
        workers >= 1,
{
    if workers >= rows {
        1
    } else {
        rows / workers + if rows % workers == 0 {
            0int
        } else {
            1int
        }
    }
}

/// In an ordered partition, every earlier band ends no later than a
/// later band begins.
pub proof fn lemma_bands_ordered(bands: Seq<(usize, usize)>, rows: int, i: int, j: int)
    requires
        bands_partition(bands, rows),
        0 <= i < j < bands.len(),
    ensures
        bands[i].1 <= bands[j].0,
    decreases j - i,
{
    if i + 1 == j {
    } else {
        lemma_bands_ordered(bands, rows, i, j - 1);
    }
}

/// Band `i` of `bands` contains row `r`.
pub open spec fn band_contains(bands: Seq<(usize, usize)>, i: int, r: int) -> bool {
    0 <= i < bands.len() && bands[i].0 <= r < bands[i].1
}

/// Some band of `bands` contains row `r`.
pub open spec fn row_covered(bands: Seq<(usize, usize)>, r: int) -> bool {
    exists|i: int| #[trigger] band_contains(bands, i, r)
}

/// Every row of `[0, rows)` lies inside some band of the partition.
pub proof fn lemma_bands_cover(bands: Seq<(usize, usize)>, rows: int, r: int)
    requires
        bands_partition(bands, rows),
        0 <= r < rows,
    ensures
        row_covered(bands, r),
    decreases bands.len(),
{
    let last = bands.len() - 1;
    if bands[last].0 <= r {
        assert(band_contains(bands, last, r));
    } else {
        let front = bands.drop_last();
        assert(bands_partition(front, bands[last].0 as int));
        lemma_bands_cover(front, bands[last].0 as int, r);
        let w = choose|i: int| #[trigger] band_contains(front, i, r);
        assert(band_contains(bands, w, r));
    }
}

/// The bands of a partition are pairwise disjoint and together cover exactly
/// `[0, rows)`: each row lies in one and only one band, and no band reaches
/// outside the row range.
pub proof fn lemma_partition_complete(bands: Seq<(usize, usize)>, rows: int)
    requires
        bands_partition(bands, rows),
    ensures
        forall|r: int| 0 <= r < rows ==> #[trigger] row_covered(bands, r),
        forall|r: int| #[trigger] row_covered(bands, r) ==> 0 <= r < rows,
        forall|i: int, j: int| 0 <= i < j < bands.len() ==> (#[trigger] bands[i]).1 <= (
        #[trigger] bands[j]).0,
        forall|i: int, j: int, r: int|
            #[trigger] band_contains(bands, i, r) && #[trigger] band_contains(bands, j, r) ==> i
                == j,
{
    assert forall|r: int| 0 <= r < rows implies #[trigger] row_covered(bands, r) by {
        lemma_bands_cover(bands, rows, r);
    }
    assert forall|i: int, j: int| 0 <= i < j < bands.len() implies (#[trigger] bands[i]).1 <= (
    #[trigger] bands[j]).0 by {
        lemma_bands_ordered(bands, rows, i, j);
    }
    assert forall|r: int| #[trigger] row_covered(bands, r) implies 0 <= r < rows by {
        let i = choose|i: int| #[trigger] band_contains(bands, i, r);
        if i < bands.len() - 1 {
            lemma_bands_ordered(bands, rows, i, bands.len() - 1);
        }
    }
    assert forall|i: int, j: int, r: int|
        #[trigger] band_contains(bands, i, r) && #[trigger] band_contains(bands, j, r) implies i
        == j by {
        if i < j {
            lemma_bands_ordered(bands, rows, i, j);
        } else if j < i {
            lemma_bands_ordered(bands, rows, j, i);
        }
    }
}

/// Relies on num_cpus::get: the number of available logical CPUs, documented
/// to always be at least 1. The value depends on the machine, so nothing more
/// is stated of it.
#[verifier::external_body]
fn available_parallelism() -> (n: usize)
    ensures
        n >= 1,
{
    num_cpus::get()
}

/// The worker count derived from a given parallelism: two threads are
/// reserved for coordination and progress rendering, with a floor of one
/// worker.
pub fn worker_count_from(parallelism: usize) -> (n: usize)
    ensures
        parallelism >= 3 ==> n == parallelism - 2,
        parallelism < 3 ==> n == 1,
        n >= 1,
{
    if parallelism >= 3 {
        parallelism - 2
    } else {
        1
    }
}

/// The worker count for a run on this machine: the available parallelism
/// less the two reserved threads, and at least one.
pub fn worker_count() -> (n: usize)
    ensures
        n >= 1,
{
    worker_count_from(available_parallelism())
}

/// Splits the row range `[0, rows)` into contiguous bands, one per worker as
/// far as the row count allows.
///
/// With at least as many workers as rows, every row becomes its own band.
/// Otherwise bands have the nominal height `ceil(rows / num_threads)`, except
/// that the last band is clipped to the end of the row range.
pub fn split_rows(rows: usize, num_threads: usize) -> (result: Vec<(usize, usize)>)
    requires
        num_threads >= 1,
    ensures
        bands_partition(result@, rows as int),
        forall|k: int| 0 <= k < result@.len() ==> (#[trigger] result@[k]).1 - result@[k].0
            <= band_height(rows as int, num_threads as int),
        forall|k: int| 0 <= k < result@.len() && (#[trigger] result@[k]).1 < rows ==> result@[k].1
            - result@[k].0 == band_height(rows as int, num_threads as int),
        num_threads >= rows ==> result@.len() == rows,
        num_threads >= rows ==> forall|k: int| 0 <= k < result@.len() ==> #[trigger] result@[k]
            == (k as usize, (k + 1) as usize),
        result@.len() <= rows,
        rows > num_threads ==> result@.len() <= num_threads,
{
    let mut result: Vec<(usize, usize)> = Vec::new();

    if num_threads >= rows {
        let mut i: usize = 0;
        while i < rows
            invariant
                i <= rows,
                result@.len() == i,
                forall|k: int| 0 <= k < i ==> #[trigger] result@[k] == (k as usize, (k
                    + 1) as usize),
            decreases rows - i,
        {
            result.push((i, i + 1));
            i = i + 1;
        }
        assert(bands_partition(result@, rows as int));
    } else {
        let mut interval: usize = rows / num_threads;
        if rows % num_threads != 0 {
            proof {
                // a remainder means at least two workers, so the quotient
                // is at most half the row count and the bump cannot overflow
                if num_threads == 1 {
                    assert(rows as int % 1int == 0);
                }
                assert(rows as int / num_threads as int + 1 <= usize::MAX as int)
                    by (nonlinear_arith)
                    requires
                        2 <= num_threads as int,
                        0 <= rows as int <= usize::MAX as int,
                ;
            }
            interval = interval + 1;
        }
        let ghost h = band_height(rows as int, num_threads as int);
        assert(interval == h);
        assert(h >= 1) by (nonlinear_arith)
            requires
                h == rows as int / num_threads as int + if rows as int % num_threads as int == 0 {
                    0int
                } else {
                    1int
                },
                rows > num_threads >= 1,
        ;
        // `num_threads` bands of the nominal height reach at least to `rows`.
        assert(num_threads * h >= rows) by (nonlinear_arith)
            requires
                h == rows as int / num_threads as int + if rows as int % num_threads as int == 0 {
                    0int
                } else {
                    1int
                },
                rows > num_threads >= 1,
        ;

        let mut i: usize = 0;
        while i < rows
            invariant
                num_threads >= 1,
                rows > num_threads,
                h == band_height(rows as int, num_threads as int),
                interval == h,
                num_threads * h >= rows,
                i <= rows,
                i == result@.len() * h || (i == rows && result@.len() >= 1 && i <= (result@.len()
                    - 1) * h + h),
                result@.len() * h <= i + h - 1,
                forall|k: int| 0 <= k < result@.len() ==> (#[trigger] result@[k]).0 < result@[k].1,
                forall|k: int| 0 < k < result@.len() ==> (#[trigger] result@[k]).0 == result@[k
                    - 1].1,
                result@.len() > 0 ==> result@[0].0 == 0 && result@[result@.len() - 1].1 == i,
                result@.len() == 0 ==> i == 0,
                forall|k: int| 0 <= k < result@.len() ==> (#[trigger] result@[k]).1 - result@[k].0
                    <= h,
                forall|k: int| 0 <= k < result@.len() && (#[trigger] result@[k]).1 < rows
                    ==> result@[k].1 - result@[k].0 == h,
            decreases rows - i,
        {
            let start = i;
            let end = if rows - i <= interval {
                rows
            } else {
                i + interval
            };
            let ghost n = result@.len() as int;
            result.push((start, end));
            proof {
                assert((n + 1) * h == n * h + h) by (nonlinear_arith);
            }
            i = end;
        }
        proof {
            let n = result@.len() as int;
            assert(n >= 1);
            // the first n - 1 bands each add exactly h rows, so n is small
            // enough to fit the worker budget
            assert((n - 1) * h == n * h - h) by (nonlinear_arith);
            assert((n - 1) * h < rows);
            assert(n - 1 < num_threads) by (nonlinear_arith)
                requires
                    (n - 1) * h < rows,
                    num_threads * h >= rows,
                    h >= 1,
            ;
            assert(n <= rows) by (nonlinear_arith)
                requires
                    (n - 1) * h < rows,
                    h >= 1,
                    n >= 1,
            ;
        }
    }
    result
}

} // verus!
