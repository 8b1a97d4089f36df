use shrinkz::{Axis, CellRect, ClaimCell, ClaimGrid};

fn cell_in(rects: &[CellRect], c: usize, r: usize) -> usize {
    rects
        .iter()
        .filter(|k| k.col <= c && c < k.col + k.width && k.row <= r && r < k.row + k.height)
        .count()
}

#[test]
fn new_grid_is_at_least_sixteen_by_sixteen_and_open() {
    let g = ClaimGrid::new(4, 2);
    assert_eq!(g.cols(), 16);
    assert_eq!(g.rows(), 16);
    assert_eq!(g.count_cells(ClaimCell::Open), 256);
    let g = ClaimGrid::new(40, 30);
    assert_eq!(g.cols(), 40);
    assert_eq!(g.rows(), 30);
    assert_eq!(g.get(39, 29), ClaimCell::Open);
}

#[test]
fn set_barrier_marks_one_cell() {
    let mut g = ClaimGrid::new(16, 16);
    g.set_barrier(3, 5);
    assert_eq!(g.get(3, 5), ClaimCell::Barrier);
    assert_eq!(g.get(5, 3), ClaimCell::Open);
    assert_eq!(g.count_cells(ClaimCell::Barrier), 1);
}

#[test]
fn centerline_is_clipped_to_the_grid() {
    let mut g = ClaimGrid::new(16, 16);
    g.mark_wall_centerline(Axis::Vertical, 4, -3, 100);
    assert_eq!(g.count_cells(ClaimCell::Barrier), 16);
    for r in 0..16 {
        assert_eq!(g.get(4, r), ClaimCell::Barrier);
    }
    let mut h = ClaimGrid::new(16, 16);
    h.mark_wall_centerline(Axis::Horizontal, 2, 5, 9);
    assert_eq!(h.count_cells(ClaimCell::Barrier), 4);
    assert_eq!(h.get(5, 2), ClaimCell::Barrier);
    assert_eq!(h.get(8, 2), ClaimCell::Barrier);
    assert_eq!(h.get(9, 2), ClaimCell::Open);
    assert_eq!(h.get(4, 2), ClaimCell::Open);
    let mut e = ClaimGrid::new(16, 16);
    e.mark_wall_centerline(Axis::Horizontal, 2, 9, 5);
    assert_eq!(e.count_cells(ClaimCell::Barrier), 0);
}

#[test]
fn open_field_with_a_ball_is_all_free() {
    let mut g = ClaimGrid::new(16, 16);
    g.fill_from_balls(&vec![(8, 8)]);
    assert_eq!(g.count_cells(ClaimCell::Free), 256);
    assert_eq!(g.count_cells(ClaimCell::Open), 0);
}

#[test]
fn field_without_balls_is_all_claimed() {
    let mut g = ClaimGrid::new(16, 16);
    g.fill_from_balls(&vec![]);
    assert_eq!(g.count_cells(ClaimCell::Free), 0);
    assert_eq!(g.count_cells(ClaimCell::Open), 256);
}

#[test]
fn sealed_side_of_a_vertical_wall_stays_claimed() {
    let mut g = ClaimGrid::new(20, 16);
    g.mark_wall_centerline(Axis::Vertical, 8, 0, 16);
    g.fill_from_balls(&vec![(14, 8)]);
    // Left of column 8: 8 columns of 16 rows stay open (claimed).
    assert_eq!(g.count_cells(ClaimCell::Open), 8 * 16);
    assert_eq!(g.count_cells(ClaimCell::Barrier), 16);
    assert_eq!(g.count_cells(ClaimCell::Free), 11 * 16);
    assert_eq!(g.get(0, 0), ClaimCell::Open);
    assert_eq!(g.get(19, 15), ClaimCell::Free);
}

#[test]
fn wall_with_a_gap_does_not_seal() {
    let mut g = ClaimGrid::new(20, 16);
    g.mark_wall_centerline(Axis::Vertical, 8, 0, 15);
    g.fill_from_balls(&vec![(14, 8)]);
    assert_eq!(g.count_cells(ClaimCell::Open), 0);
    assert_eq!(g.count_cells(ClaimCell::Free), 20 * 16 - 15);
}

#[test]
fn ball_on_a_barrier_fills_from_its_neighbours() {
    let mut g = ClaimGrid::new(20, 16);
    g.mark_wall_centerline(Axis::Vertical, 8, 0, 16);
    g.fill_from_balls(&vec![(8, 3)]);
    // Both sides are reached through the ball's open neighbours.
    assert_eq!(g.count_cells(ClaimCell::Open), 0);
    assert_eq!(g.get(8, 3), ClaimCell::Barrier);
}

#[test]
fn diagonal_gap_does_not_connect() {
    // A closed 3x3 box of barriers around (5, 5) with corners only touching diagonally.
    let mut g = ClaimGrid::new(16, 16);
    g.set_barrier(5, 4);
    g.set_barrier(5, 6);
    g.set_barrier(4, 5);
    g.set_barrier(6, 5);
    g.fill_from_balls(&vec![(0, 0)]);
    assert_eq!(g.get(5, 5), ClaimCell::Open);
    assert_eq!(g.count_cells(ClaimCell::Open), 1);
}

#[test]
fn merged_free_rects_cover_free_cells_exactly_once() {
    let mut g = ClaimGrid::new(20, 16);
    g.mark_wall_centerline(Axis::Vertical, 8, 0, 16);
    g.mark_wall_centerline(Axis::Horizontal, 10, 8, 20);
    g.fill_from_balls(&vec![(14, 3)]);
    let rects = g.merge_matching_cells(ClaimCell::Free);
    for r in 0..16 {
        for c in 0..20 {
            let n = cell_in(&rects, c, r);
            if g.get(c, r) == ClaimCell::Free {
                assert_eq!(n, 1, "free cell ({c},{r}) covered {n} times");
            } else {
                assert_eq!(n, 0);
            }
        }
    }
    // Free chamber is columns 9..20, rows 0..10: one block.
    assert_eq!(rects, vec![CellRect { col: 9, row: 0, width: 11, height: 10 }]);
}

#[test]
fn merge_of_l_shape_takes_widest_run_first() {
    let mut g = ClaimGrid::new(16, 16);
    for r in 0..16 {
        for c in 0..16 {
            if !((r == 0) || (c == 0)) {
                g.set_barrier(c, r);
            }
        }
    }
    g.fill_from_balls(&vec![(0, 0)]);
    let rects = g.merge_matching_cells(ClaimCell::Free);
    assert_eq!(
        rects,
        vec![
            CellRect { col: 0, row: 0, width: 16, height: 1 },
            CellRect { col: 0, row: 1, width: 1, height: 15 },
        ]
    );
}
