use vstd::prelude::*;

use vstd::arithmetic::div_mod::{lemma_fundamental_div_mod, lemma_mod_bound};
use vstd::arithmetic::mul::lemma_mul_inequality;

use crate::assemble::{assemble, band_lo, bands_disjoint, band_fits, BandOutput};
use crate::grid::Grid;
use crate::partition::{band_contains, bands_partition, lemma_bands_cover, lemma_bands_ordered,
    split_rows};
use crate::progress::ProgressState;
use crate::worker::{burn_band, burned_cell, rasterized};

verus! {

/// Copies the cell values of positions `[a, b)` out of a buffer.
fn copy_range<T: Copy>(v: &Vec<T>, a: usize, b: usize) -> (out: Vec<T>)
    requires
        a <= b <= v@.len(),
    ensures
        out@ == v@.subrange(a as int, b as int),
{
    let mut out: Vec<T> = Vec::new();
    let mut i: usize = a;
    while i < b
        invariant
            a <= i <= b <= v@.len(),
            out@ =~= v@.subrange(a as int, i as int),
        decreases b - i,
    {
        out.push(v[i]);
        i = i + 1;
    }
    proof {
        assert(out@ =~= v@.subrange(a as int, b as int));
    }
    out
}

/// In an ordered partition every band ends within the row range.
proof fn lemma_band_end_bounded(bands: Seq<(usize, usize)>, rows: int, p: int)
    requires
        bands_partition(bands, rows),
        0 <= p < bands.len(),
    ensures
        bands[p].1 <= rows,
{
    if p < bands.len() - 1 {
        lemma_bands_ordered(bands, rows, p, bands.len() - 1);
    }
}

/// The reassembled buffer of per-band worker outputs is the burn/zero policy
/// applied to the whole input buffer.
#[verifier::rlimit(50)]
proof fn lemma_assembled_correct(
    cells: Seq<u32>,
    hits: Seq<bool>,
    burn: u32,
    zero: bool,
    rows: int,
    cols: int,
    bands: Seq<(usize, usize)>,
    parts: Seq<BandOutput>,
    out: Seq<u32>,
)
    requires
        rows >= 0,
        cols >= 0,
        rows * cols == cells.len(),
        hits.len() == cells.len(),
        bands_partition(bands, rows),
        parts.len() == bands.len(),
        forall|p: int| 0 <= p < parts.len() ==> (#[trigger] parts[p]).start == bands[p].0,
        forall|p: int|
            0 <= p < parts.len() ==> (#[trigger] parts[p]).cells@ == rasterized(
                cells.subrange(bands[p].0 as int * cols, bands[p].1 as int * cols),
                hits.subrange(bands[p].0 as int * cols, bands[p].1 as int * cols),
                burn,
                zero,
            ),
        out.len() == rows * cols,
        forall|j: int, k: int|
            0 <= j < parts.len() && 0 <= k < parts[j].cells@.len() ==> out[band_lo(parts[j], cols)
                + k] == #[trigger] parts[j].cells@[k],
    ensures
        out =~= rasterized(cells, hits, burn, zero),
{
    assert forall|idx: int| 0 <= idx < out.len() implies out[idx] == burned_cell(
        hits[idx],
        cells[idx],
        burn,
        zero,
    ) by {
        assert(cols > 0) by (nonlinear_arith)
            requires
                0 <= idx < rows * cols,
                rows >= 0,
                cols >= 0,
        ;
        let r = idx / cols;
        lemma_fundamental_div_mod(idx, cols);
        lemma_mod_bound(idx, cols);
        assert(0 <= r < rows) by (nonlinear_arith)
            requires
                idx == cols * r + idx % cols,
                0 <= idx % cols < cols,
                0 <= idx < rows * cols,
        ;
        lemma_bands_cover(bands, rows, r);
        let w = choose|w: int| #[trigger] band_contains(bands, w, r);
        let b0 = bands[w].0 as int;
        let b1 = bands[w].1 as int;
        lemma_band_end_bounded(bands, rows, w);
        lemma_mul_inequality(b0, b1, cols);
        lemma_mul_inequality(b1, rows, cols);
        lemma_mul_inequality(b0, r, cols);
        lemma_mul_inequality(r + 1, b1, cols);
        assert(b0 * cols <= idx < b1 * cols) by (nonlinear_arith)
            requires
                idx == cols * r + idx % cols,
                0 <= idx % cols < cols,
                b0 * cols <= r * cols,
                (r + 1) * cols <= b1 * cols,
        ;
        let k = idx - b0 * cols;
        assert(parts[w].cells@.len() == b1 * cols - b0 * cols);
        assert(0 <= k < parts[w].cells@.len());
        assert(out[band_lo(parts[w], cols) + k] == parts[w].cells@[k]);
        assert(parts[w].cells@[k] == burned_cell(hits[idx], cells[idx], burn, zero));
    }
}

/// Runs the whole rasterization: partitions the grid's rows into one band
/// per worker, lets each worker apply the burn/zero policy to its band, and
/// reassembles the bands in their original row order.
///
/// `hits[i]` says whether the footprint of cell `i` (row-major) intersects
/// the geometry. The output grid has the same dimensions and carries the
/// input's spatial reference unchanged, and every cell holds exactly the
/// value the policy assigns it — whatever the worker count, so two runs that
/// differ only in `workers` return identical buffers.
#[verifier::rlimit(50)]
pub fn rasterize(grid: Grid, hits: &Vec<bool>, burn: u32, zero: bool, workers: usize) -> (out: Grid)
    requires
        grid.wf(),
        hits@.len() == grid.cells@.len(),
        workers >= 1,
    ensures
        out.wf(),
        out.rows == grid.rows,
        out.cols == grid.cols,
        out.meta == grid.meta,
        out.cells@ == rasterized(grid.cells@, hits@, burn, zero),
{
    let rows = grid.rows;
    let cols = grid.cols;
    let total = grid.cells.len();
    let bands = split_rows(rows, workers);
    let mut progress = ProgressState::new();
    let mut parts: Vec<BandOutput> = Vec::new();
    let mut bi: usize = 0;
    while bi < bands.len()
        invariant
            grid.wf(),
            rows == grid.rows,
            cols == grid.cols,
            total == grid.cells@.len(),
            hits@.len() == grid.cells@.len(),
            bands_partition(bands@, rows as int),
            progress.wf(),
            bi <= bands@.len(),
            parts@.len() == bi,
            forall|p: int| 0 <= p < bi ==> (#[trigger] parts@[p]).start == bands@[p].0,
            forall|p: int|
                0 <= p < bi ==> (#[trigger] parts@[p]).cells@ == rasterized(
                    grid.cells@.subrange(
                        bands@[p].0 as int * cols as int,
                        bands@[p].1 as int * cols as int,
                    ),
                    hits@.subrange(
                        bands@[p].0 as int * cols as int,
                        bands@[p].1 as int * cols as int,
                    ),
                    burn,
                    zero,
                ),
        decreases bands@.len() - bi,
    {
        let (start, end) = bands[bi];
        proof {
            lemma_band_end_bounded(bands@, rows as int, bi as int);
            lemma_mul_inequality(end as int, rows as int, cols as int);
            lemma_mul_inequality(start as int, end as int, cols as int);
            assert(end as int * cols as int <= total as int);
        }
        let lo = start * cols;
        let hi = end * cols;
        let band_cells = copy_range(&grid.cells, lo, hi);
        let band_hits = copy_range(hits, lo, hi);
        let track = progress.register(band_cells.len());
        let burned = burn_band(&band_cells, &band_hits, burn, zero, &mut progress, track);
        parts.push(BandOutput { start, cells: burned });
        bi = bi + 1;
    }

    proof {
        assert forall|p: int| 0 <= p < parts@.len() implies band_fits(
            #[trigger] parts@[p],
            rows as int,
            cols as int,
        ) by {
            lemma_band_end_bounded(bands@, rows as int, p);
            lemma_mul_inequality(bands@[p].1 as int, rows as int, cols as int);
            lemma_mul_inequality(bands@[p].0 as int, bands@[p].1 as int, cols as int);
        }
        assert forall|p: int, q: int| 0 <= p < q < parts@.len() implies bands_disjoint(
            #[trigger] parts@[p],
            #[trigger] parts@[q],
            cols as int,
        ) by {
            lemma_bands_ordered(bands@, rows as int, p, q);
            lemma_mul_inequality(bands@[p].1 as int, bands@[q].0 as int, cols as int);
            lemma_mul_inequality(bands@[p].0 as int, bands@[p].1 as int, cols as int);
        }
    }
    proof {
        assert(rows * cols <= usize::MAX);
    }
    let cells = assemble(rows, cols, &parts);

    proof {
        lemma_assembled_correct(
            grid.cells@,
            hits@,
            burn,
            zero,
            rows as int,
            cols as int,
            bands@,
            parts@,
            cells@,
        );
    }

    Grid { rows, cols, cells, meta: grid.meta }
}

/// Order independence: the rasterized buffer is a function of the input
/// cells, the per-cell intersection results, the burn value and the zero flag
/// alone. Two runs of the engine over the same inputs return identical
/// buffers, whatever worker count each was given and in whatever order the
/// workers finished.
pub proof fn lemma_order_independence(
    cells: Seq<u32>,
    hits: Seq<bool>,
    burn: u32,
    zero: bool,
    out1: Seq<u32>,
    out2: Seq<u32>,
)
    requires
        out1 == rasterized(cells, hits, burn, zero),
        out2 == rasterized(cells, hits, burn, zero),
    ensures
        out1 == out2,
{
}

/// The burn/zero policy, cell by cell: where the footprint intersects the
/// geometry the output is the burn value; otherwise it is zero when the zero
/// flag is set and the untouched input value when it is not.
pub proof fn lemma_burn_policy(cells: Seq<u32>, hits: Seq<bool>, burn: u32, zero: bool, i: int)
    requires
        cells.len() == hits.len(),
        0 <= i < cells.len(),
    ensures
        hits[i] ==> rasterized(cells, hits, burn, zero)[i] == burn,
        !hits[i] && zero ==> rasterized(cells, hits, burn, zero)[i] == 0,
        !hits[i] && !zero ==> rasterized(cells, hits, burn, zero)[i] == cells[i],
{
}

} // verus!
