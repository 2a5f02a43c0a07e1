use rasterburn::partition::{split_rows, worker_count, worker_count_from};

#[test]
fn one_band_per_row_when_workers_exceed_rows() {
    let bands = split_rows(3, 5);
    assert_eq!(bands, vec![(0, 1), (1, 2), (2, 3)]);
}

#[test]
fn one_band_per_row_when_workers_equal_rows() {
    let bands = split_rows(4, 4);
    assert_eq!(bands, vec![(0, 1), (1, 2), (2, 3), (3, 4)]);
}

#[test]
fn clipped_final_band() {
    // ceil(10 / 3) = 4 rows per band, the last band is clipped
    let bands = split_rows(10, 3);
    assert_eq!(bands, vec![(0, 4), (4, 8), (8, 10)]);
}

#[test]
fn exact_division() {
    let bands = split_rows(8, 2);
    assert_eq!(bands, vec![(0, 4), (4, 8)]);
}

#[test]
fn single_worker_single_band() {
    let bands = split_rows(5, 1);
    assert_eq!(bands, vec![(0, 5)]);
}

#[test]
fn no_rows_no_bands() {
    let bands = split_rows(0, 4);
    assert_eq!(bands, Vec::<(usize, usize)>::new());
}

#[test]
fn bands_cover_every_row_exactly_once() {
    for &(rows, workers) in &[(7usize, 3usize), (1, 1), (16, 4), (9, 2), (100, 7), (5, 9)] {
        let bands = split_rows(rows, workers);
        let mut seen = vec![0usize; rows];
        let mut prev_end = 0usize;
        for &(start, end) in &bands {
            assert!(start < end, "band must be non-empty");
            assert_eq!(start, prev_end, "bands must be contiguous and ordered");
            for r in start..end {
                seen[r] += 1;
            }
            prev_end = end;
        }
        assert_eq!(prev_end, rows, "bands must end at the last row");
        assert!(seen.iter().all(|&c| c == 1), "every row in exactly one band");
    }
}

#[test]
fn worker_count_reserves_two_threads_with_a_floor_of_one() {
    assert_eq!(worker_count_from(1), 1);
    assert_eq!(worker_count_from(2), 1);
    assert_eq!(worker_count_from(3), 1);
    assert_eq!(worker_count_from(8), 6);
    assert!(worker_count() >= 1);
}
