use game_of_life::Cell;

fn rule_grid(max_x: i64, max_y: i64, live: &[(i64, i64)]) -> Vec<Cell> {
    let mut colony = Vec::new();
    for y in 0..max_y {
        for x in 0..max_x {
            colony.push(Cell::new(x, y, live.contains(&(x, y))));
        }
    }
    colony
}

/// A 3x3 grid whose centre has the given liveness and `count` live cells
/// around it.
fn centre_with_neighbors(center_live: bool, count: usize) -> (Cell, Vec<Cell>) {
    let ring = [(0, 0), (1, 0), (2, 0), (0, 1), (2, 1), (0, 2), (1, 2), (2, 2)];
    let mut live: Vec<(i64, i64)> = ring[..count].to_vec();
    if center_live {
        live.push((1, 1));
    }
    let colony = rule_grid(3, 3, &live);
    (colony[4], colony)
}

#[test]
fn dead_cell_with_three_neighbors_comes_to_life() {
    let (c, colony) = centre_with_neighbors(false, 3);
    assert!(!c.live);
    assert_eq!(c.live_neighbors(&colony, 3, 3), 3);
    assert!(c.spawn_next(&colony, 3, 3));
}

#[test]
fn dead_cell_with_any_other_count_stays_dead() {
    for count in [0usize, 1, 2, 4, 5, 6, 7, 8] {
        let (c, colony) = centre_with_neighbors(false, count);
        assert_eq!(c.live_neighbors(&colony, 3, 3), count as i32);
        assert!(!c.spawn_next(&colony, 3, 3), "count {}", count);
    }
}

#[test]
fn live_cell_survives_on_two_or_three_neighbors() {
    for count in [2usize, 3] {
        let (c, colony) = centre_with_neighbors(true, count);
        assert!(c.live);
        assert_eq!(c.live_neighbors(&colony, 3, 3), count as i32);
        assert!(c.spawn_next(&colony, 3, 3), "count {}", count);
    }
}

#[test]
fn live_cell_dies_on_every_other_count() {
    for count in [0usize, 1, 4, 5, 6, 7, 8] {
        let (c, colony) = centre_with_neighbors(true, count);
        assert_eq!(c.live_neighbors(&colony, 3, 3), count as i32);
        assert!(!c.spawn_next(&colony, 3, 3), "count {}", count);
    }
}

#[test]
fn live_cell_with_one_neighbor_dies() {
    let colony = rule_grid(20, 20, &[(3, 3), (4, 3)]);
    let c = colony[3 * 20 + 3];
    assert_eq!(c.live_neighbors(&colony, 20, 20), 1);
    assert!(!c.spawn_next(&colony, 20, 20));
}

#[test]
fn live_centre_missing_from_the_cells_scanned() {
    // Three live cells in the window and the centre not among them: the
    // centre's own liveness still comes off, leaving two, so it survives.
    let others = vec![Cell::new(0, 0, true), Cell::new(1, 0, true), Cell::new(2, 0, true)];
    let c = Cell::new(1, 1, true);
    assert_eq!(c.live_neighbors(&others, 3, 3), 2);
    assert!(c.spawn_next(&others, 3, 3));
}
