use vstd::prelude::*;

verus! {

/// One worker's finished output, tagged with the first row of its band so
/// that reassembly can place it whatever order workers completed in.
pub struct BandOutput {
    pub start: usize,
    pub cells: Vec<u32>,
}

/// The buffer positions a band output fills: `[start * cols, start * cols + len)`.
pub open spec fn band_lo(b: BandOutput, cols: int) -> int {
    b.start * cols
}

pub open spec fn band_hi(b: BandOutput, cols: int) -> int {
    b.start * cols + b.cells@.len()
}

/// The band output lies inside a buffer of `rows * cols` cells.
pub open spec fn band_fits(b: BandOutput, rows: int, cols: int) -> bool {
    band_hi(b, cols) <= rows * cols
}

/// Two band outputs fill disjoint position ranges.
pub open spec fn bands_disjoint(a: BandOutput, b: BandOutput, cols: int) -> bool {
    band_hi(a, cols) <= band_lo(b, cols) || band_hi(b, cols) <= band_lo(a, cols)
}

/// Position `idx` is filled by some part.
pub open spec fn position_covered(parts: Seq<BandOutput>, cols: int, idx: int) -> bool {
    exists|j: int| 0 <= j < parts.len() && band_lo(#[trigger] parts[j], cols) <= idx < band_hi(
        parts[j],
        cols,
    )
}

/// Joins completed band outputs back into one `rows * cols` buffer. Each
/// part's cells land at its own positions, determined by its start row alone,
/// so the result does not depend on the order of `parts`; positions no part
/// fills are zero.
pub fn assemble(rows: usize, cols: usize, parts: &Vec<BandOutput>) -> (out: Vec<u32>)
    requires
        rows * cols <= usize::MAX,
        forall|j: int| 0 <= j < parts@.len() ==> band_fits(#[trigger] parts@[j], rows as int,
        cols as int),
        forall|i: int, j: int| 0 <= i < j < parts@.len() ==> bands_disjoint(
            #[trigger] parts@[i],
            #[trigger] parts@[j],
            cols as int,
        ),
    ensures
        out@.len() == rows * cols,
        forall|j: int, k: int|
            0 <= j < parts@.len() && 0 <= k < parts@[j].cells@.len() ==> out@[band_lo(
                parts@[j],
                cols as int,
            ) + k] == #[trigger] parts@[j].cells@[k],
        forall|idx: int|
            0 <= idx < rows * cols && !position_covered(parts@, cols as int, idx) ==> out@[idx]
                == 0,
{
    let total: usize = rows * cols;
    let mut out: Vec<u32> = Vec::new();
    let mut z: usize = 0;
    while z < total
        invariant
            out@.len() == z,
            z <= total,
            forall|idx: int| 0 <= idx < z ==> out@[idx] == 0,
        decreases total - z,
    {
        out.push(0u32);
        z = z + 1;
    }

    let mut j: usize = 0;
    while j < parts.len()
        invariant
            rows * cols <= usize::MAX,
            total == rows * cols,
            out@.len() == total,
            forall|p: int| 0 <= p < parts@.len() ==> band_fits(#[trigger] parts@[p], rows as int,
            cols as int),
            forall|p: int, q: int| 0 <= p < q < parts@.len() ==> bands_disjoint(
                #[trigger] parts@[p],
                #[trigger] parts@[q],
                cols as int,
            ),
            j <= parts@.len(),
            forall|p: int, k: int|
                0 <= p < j && 0 <= k < parts@[p].cells@.len() ==> out@[band_lo(parts@[p], cols as int)
                    + k] == #[trigger] parts@[p].cells@[k],
            forall|idx: int|
                0 <= idx < total && !position_covered(parts@, cols as int, idx) ==> out@[idx] == 0,
        decreases parts@.len() - j,
    {
        let base: usize = parts[j].start * cols;
        let mut k: usize = 0;
        while k < parts[j].cells.len()
            invariant
                rows * cols <= usize::MAX,
                total == rows * cols,
                out@.len() == total,
                j < parts@.len(),
                forall|p: int| 0 <= p < parts@.len() ==> band_fits(#[trigger] parts@[p], rows as int,
                cols as int),
                forall|p: int, q: int| 0 <= p < q < parts@.len() ==> bands_disjoint(
                    #[trigger] parts@[p],
                    #[trigger] parts@[q],
                    cols as int,
                ),
                base == band_lo(parts@[j as int], cols as int),
                k <= parts@[j as int].cells@.len(),
                forall|p: int, m: int|
                    0 <= p < j && 0 <= m < parts@[p].cells@.len() ==> out@[band_lo(
                        parts@[p],
                        cols as int,
                    ) + m] == #[trigger] parts@[p].cells@[m],
                forall|m: int| 0 <= m < k ==> out@[base + m] == #[trigger] parts@[j as int].cells@[m],
                forall|idx: int|
                    0 <= idx < total && !position_covered(parts@, cols as int, idx) ==> out@[idx]
                        == 0,
            decreases parts@[j as int].cells@.len() - k,
        {
            let ghost prev = out@;
            let pos: usize = base + k;
            out[pos] = parts[j].cells[k];
            proof {
                assert(position_covered(parts@, cols as int, pos as int));
                assert forall|p: int, m: int|
                    0 <= p < j && 0 <= m < parts@[p].cells@.len() implies out@[band_lo(
                    parts@[p],
                    cols as int,
                ) + m] == #[trigger] parts@[p].cells@[m] by {
                    assert(bands_disjoint(parts@[p], parts@[j as int], cols as int));
                    assert(band_lo(parts@[p], cols as int) + m != pos as int);
                    assert(out@[band_lo(parts@[p], cols as int) + m] == prev[band_lo(
                        parts@[p],
                        cols as int,
                    ) + m]);
                }
            }
            k = k + 1;
        }
        j = j + 1;
    }
    out
}

} // verus!
