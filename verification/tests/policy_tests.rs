use rasterburn::progress::ProgressState;
use rasterburn::worker::{burn_band, cell_value};

#[test]
fn hit_cells_take_the_burn_value() {
    assert_eq!(cell_value(true, 5, 9, false), 9);
    assert_eq!(cell_value(true, 5, 9, true), 9);
}

#[test]
fn missed_cells_zero_or_keep() {
    assert_eq!(cell_value(false, 5, 9, true), 0);
    assert_eq!(cell_value(false, 5, 9, false), 5);
}

#[test]
fn band_applies_policy_per_cell() {
    let cells = vec![5u32, 6, 7, 8];
    let hits = vec![true, false, true, false];
    let mut progress = ProgressState::new();
    let track = progress.register(cells.len());
    let out = burn_band(&cells, &hits, 9, false, &mut progress, track);
    assert_eq!(out, vec![9, 6, 9, 8]);

    let mut progress = ProgressState::new();
    let track = progress.register(cells.len());
    let out = burn_band(&cells, &hits, 9, true, &mut progress, track);
    assert_eq!(out, vec![9, 0, 9, 0]);
}

#[test]
fn progress_reported_in_coarse_steps() {
    // short band: below one reporting interval, nothing reported
    let cells = vec![1u32; 5];
    let hits = vec![false; 5];
    let mut progress = ProgressState::new();
    let track = progress.register(cells.len());
    burn_band(&cells, &hits, 2, false, &mut progress, track);
    assert_eq!(progress.tracks[track].done, 0);
    assert_eq!(progress.tracks[track].total, 5);

    // long band: reported after every thousand cells
    let cells = vec![1u32; 2500];
    let hits = vec![true; 2500];
    let mut progress = ProgressState::new();
    let track = progress.register(cells.len());
    burn_band(&cells, &hits, 2, false, &mut progress, track);
    assert_eq!(progress.tracks[track].done, 2000);
    assert_eq!(progress.tracks[track].total, 2500);
}

#[test]
fn tracks_advance_independently() {
    let mut progress = ProgressState::new();
    let a = progress.register(10);
    let b = progress.register(20);
    assert_eq!(a, 0);
    assert_eq!(b, 1);
    progress.advance(a, 4);
    progress.advance(b, 20);
    progress.advance(a, 6);
    assert_eq!(progress.tracks[a].done, 10);
    assert_eq!(progress.tracks[b].done, 20);
}
