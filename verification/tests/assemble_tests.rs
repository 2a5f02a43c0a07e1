use rasterburn::assemble::{assemble, BandOutput};

#[test]
fn parts_land_at_their_rows_whatever_their_order() {
    // 4 rows x 2 cols, parts handed over in reverse completion order
    let parts = vec![
        BandOutput { start: 2, cells: vec![31, 32, 41, 42] },
        BandOutput { start: 0, cells: vec![11, 12, 21, 22] },
    ];
    let out = assemble(4, 2, &parts);
    assert_eq!(out, vec![11, 12, 21, 22, 31, 32, 41, 42]);

    let parts = vec![
        BandOutput { start: 0, cells: vec![11, 12, 21, 22] },
        BandOutput { start: 2, cells: vec![31, 32, 41, 42] },
    ];
    let out = assemble(4, 2, &parts);
    assert_eq!(out, vec![11, 12, 21, 22, 31, 32, 41, 42]);
}

#[test]
fn unfilled_positions_are_zero() {
    let parts = vec![BandOutput { start: 1, cells: vec![7, 8] }];
    let out = assemble(3, 2, &parts);
    assert_eq!(out, vec![0, 0, 7, 8, 0, 0]);
}

#[test]
fn no_parts_all_zero() {
    let parts: Vec<BandOutput> = Vec::new();
    let out = assemble(2, 3, &parts);
    assert_eq!(out, vec![0; 6]);
}
