use game_of_life::seed::{SEED_DRAW_BOUND, SEED_LIVE_ABOVE};
use game_of_life::{colony_is_grid, is_live_draw, seed_colony};

#[test]
fn draws_above_four_are_live() {
    assert!(!is_live_draw(0));
    assert!(!is_live_draw(1));
    assert!(!is_live_draw(2));
    assert!(!is_live_draw(3));
    assert!(!is_live_draw(4));
    assert!(is_live_draw(5));
    assert!(is_live_draw(6));
    assert!(is_live_draw(7));
    assert!(is_live_draw(8));
}

#[test]
fn four_of_nine_draws_are_live() {
    assert_eq!(SEED_DRAW_BOUND, 9);
    assert_eq!(SEED_LIVE_ABOVE, 4);
    let live = (0..SEED_DRAW_BOUND).filter(|&d| is_live_draw(d)).count();
    assert_eq!(live, 4);
}

#[test]
fn seeded_colony_covers_the_grid_row_by_row() {
    let colony = seed_colony(20, 20);
    assert_eq!(colony.len(), 400);
    for (i, c) in colony.iter().enumerate() {
        assert_eq!(c.x, (i % 20) as i64);
        assert_eq!(c.y, (i / 20) as i64);
    }
    assert!(colony_is_grid(&colony, 20, 20));
}

#[test]
fn seeded_colony_of_other_shapes() {
    let wide = seed_colony(7, 3);
    assert_eq!(wide.len(), 21);
    assert!(colony_is_grid(&wide, 7, 3));
    assert_eq!((wide[20].x, wide[20].y), (6, 2));
    let one = seed_colony(1, 1);
    assert_eq!(one.len(), 1);
    assert_eq!((one[0].x, one[0].y), (0, 0));
}

#[test]
fn seeded_colony_without_positive_bounds_is_empty() {
    assert!(seed_colony(0, 5).is_empty());
    assert!(seed_colony(5, 0).is_empty());
    assert!(seed_colony(0, 0).is_empty());
    assert!(seed_colony(-3, 4).is_empty());
    assert!(seed_colony(4, -3).is_empty());
}

#[test]
fn seeded_colony_mixes_live_and_dead() {
    // A drawing that always gave its lower or its upper bound would seed a
    // colony of one kind only.
    let colony = seed_colony(40, 40);
    let live = colony.iter().filter(|c| c.live).count();
    assert!(live > 0);
    assert!(live < colony.len());
    // About four in nine are alive; the margins are far wider than chance.
    assert!(live > 1600 * 3 / 10, "live = {}", live);
    assert!(live < 1600 * 6 / 10, "live = {}", live);
}

#[test]
fn two_seedings_differ() {
    let first = seed_colony(40, 40);
    let second = seed_colony(40, 40);
    assert_ne!(first, second);
}
