use vstd::prelude::*;

verus! {

/// One progress track: how many units of its total have been reported done.
#[derive(Clone, Copy)]
pub struct Track {
    pub done: usize,
    pub total: usize,
}

/// The shared progress state of one rasterization run: one track per worker,
/// each advanced monotonically from 0 towards its total. The state itself is
/// plain data; a caller that shares it between threads puts it behind its own
/// mutual-exclusion boundary.
pub struct ProgressState {
    pub tracks: Vec<Track>,
}

impl ProgressState {
    /// Every track has reported at most its total.
    pub open spec fn wf(self) -> bool {
        forall|i: int| 0 <= i < self.tracks@.len() ==> (#[trigger] self.tracks@[i]).done
            <= self.tracks@[i].total
    }

    /// A fresh state with no tracks.
    pub fn new() -> (s: ProgressState)
        ensures
            s.tracks@.len() == 0,
            s.wf(),
    {
        ProgressState { tracks: Vec::new() }
    }

    /// Registers a new track of `total` units, not yet started, and returns
    /// its identifier. Existing tracks are untouched.
    pub fn register(&mut self, total: usize) -> (id: usize)
        ensures
            id == old(self).tracks@.len(),
            final(self).tracks@ == old(self).tracks@.push(Track { done: 0, total }),
            old(self).wf() ==> final(self).wf(),
    {
        let id = self.tracks.len();
        self.tracks.push(Track { done: 0, total });
        id
    }

    /// Advances track `id` by `delta` units. Every other track is untouched,
    /// and the track never moves backwards.
    pub fn advance(&mut self, id: usize, delta: usize)
        requires
            id < old(self).tracks@.len(),
            old(self).tracks@[id as int].done + delta <= old(self).tracks@[id as int].total,
        ensures
            final(self).tracks@.len() == old(self).tracks@.len(),
            final(self).tracks@[id as int].done == old(self).tracks@[id as int].done + delta,
            final(self).tracks@[id as int].total == old(self).tracks@[id as int].total,
            forall|i: int| 0 <= i < final(self).tracks@.len() && i != id ==> final(self).tracks@[i]
                == old(self).tracks@[i],
            old(self).wf() ==> final(self).wf(),
    {
        let t = self.tracks[id];
        self.tracks[id] = Track { done: t.done + delta, total: t.total };
    }
}

} // verus!
