use vstd::prelude::*;

use crate::progress::ProgressState;

verus! {

/// How many processed cells a worker accumulates between two reports to the
/// progress state; coarse, to bound synchronization cost.
pub const PROGRESS_INTERVAL: usize = 1000;

/// The value a single cell takes: the burn value where the cell's footprint
/// intersects the geometry (`hit`), zero where it does not and the zero flag
/// is set, and the original value otherwise.
pub open spec fn burned_cell(hit: bool, orig: u32, burn: u32, zero: bool) -> u32 {
    if hit {
        burn
    } else if zero {
        0u32
    } else {
        orig
    }
}

/// The whole buffer after rasterization: the burn/zero policy applied to
/// every cell, given which cells' footprints intersect the geometry.
pub open spec fn rasterized(cells: Seq<u32>, hits: Seq<bool>, burn: u32, zero: bool) -> Seq<u32> {
    Seq::new(cells.len(), |i: int| burned_cell(hits[i], cells[i], burn, zero))
}

/// Applies the burn/zero policy to one cell.
pub fn cell_value(hit: bool, orig: u32, burn: u32, zero: bool) -> (r: u32)
    ensures
        r == burned_cell(hit, orig, burn, zero),
{
    if hit {
        burn
    } else if zero {
        0u32
    } else {
        orig
    }
}

/// A worker's run over one band: applies the burn/zero policy to every cell
/// of the band in row-major order, reporting its cumulative processed-cell
/// count to its own progress track after every `PROGRESS_INTERVAL` cells.
///
/// `cells` is the band's slice of the input buffer and `hits[i]` says whether
/// cell `i`'s footprint intersects the geometry. The worker owns track
/// `track`, fresh and sized for at least the whole band; every other track is
/// left untouched.
pub fn burn_band(
    cells: &Vec<u32>,
    hits: &Vec<bool>,
    burn: u32,
    zero: bool,
    progress: &mut ProgressState,
    track: usize,
) -> (out: Vec<u32>)
    requires
        cells@.len() == hits@.len(),
        track < old(progress).tracks@.len(),
        old(progress).tracks@[track as int].done == 0,
        cells@.len() <= old(progress).tracks@[track as int].total,
    ensures
        out@ == rasterized(cells@, hits@, burn, zero),
        final(progress).tracks@.len() == old(progress).tracks@.len(),
        forall|i: int| 0 <= i < final(progress).tracks@.len() && i != track ==> final(progress).tracks@[i]
            == old(progress).tracks@[i],
        final(progress).tracks@[track as int].total == old(progress).tracks@[track as int].total,
        final(progress).tracks@[track as int].done == cells@.len() as int - cells@.len() as int % (
        PROGRESS_INTERVAL as int),
{
    let mut out: Vec<u32> = Vec::new();
    let mut idx: usize = 0;
    let mut pending: usize = 0;
    while idx < cells.len()
        invariant
            cells@.len() == hits@.len(),
            idx <= cells@.len(),
            out@.len() == idx,
            forall|i: int| 0 <= i < idx ==> out@[i] == burned_cell(hits@[i], cells@[i], burn, zero),
            track < progress.tracks@.len(),
            progress.tracks@.len() == old(progress).tracks@.len(),
            forall|i: int| 0 <= i < progress.tracks@.len() && i != track ==> progress.tracks@[i]
                == old(progress).tracks@[i],
            progress.tracks@[track as int].total == old(progress).tracks@[track as int].total,
            cells@.len() <= progress.tracks@[track as int].total,
            pending <= idx,
            progress.tracks@[track as int].done == idx - pending,
            (idx - pending) % (PROGRESS_INTERVAL as int) == 0,
            pending < PROGRESS_INTERVAL,
        decreases cells@.len() - idx,
    {
        out.push(cell_value(hits[idx], cells[idx], burn, zero));
        idx = idx + 1;
        pending = pending + 1;
        if pending == PROGRESS_INTERVAL {
            progress.advance(track, PROGRESS_INTERVAL);
            pending = 0;
        }
    }
    proof {
        let n = cells@.len() as int;
        let d = progress.tracks@[track as int].done as int;
        assert(n % (PROGRESS_INTERVAL as int) == pending as int % (PROGRESS_INTERVAL as int)) by {
            assert(n == d + pending);
            assert(d % (PROGRESS_INTERVAL as int) == 0);
        }
        assert(out@ =~= rasterized(cells@, hits@, burn, zero));
    }
    out
}

} // verus!
