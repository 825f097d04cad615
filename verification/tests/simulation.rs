use game_of_life::{Action, Cell, Phase, Simulation};

fn sim_grid(max_x: i64, max_y: i64, live: &[(i64, i64)]) -> Vec<Cell> {
    let mut colony = Vec::new();
    for y in 0..max_y {
        for x in 0..max_x {
            colony.push(Cell::new(x, y, live.contains(&(x, y))));
        }
    }
    colony
}

#[test]
fn new_starts_at_generation_one_about_to_render() {
    let colony = sim_grid(5, 4, &[(1, 1)]);
    let sim = Simulation::new(colony.clone(), 5, 4).unwrap();
    assert_eq!(sim.generation(), 1);
    assert_eq!(sim.phase(), Phase::Rendering);
    assert_eq!(sim.max_x(), 5);
    assert_eq!(sim.max_y(), 4);
    assert_eq!(sim.colony(), &colony);
}

#[test]
fn new_refuses_what_is_no_grid() {
    let colony = sim_grid(5, 4, &[]);
    assert!(Simulation::new(colony.clone(), 4, 5).is_none());
    assert!(Simulation::new(colony.clone(), 5, 5).is_none());
    assert!(Simulation::new(colony, -5, -4).is_none());
    assert!(Simulation::new(vec![Cell::new(1, 0, true)], 1, 1).is_none());
    assert!(Simulation::new(Vec::new(), 0, 0).is_some());
}

#[test]
fn single_cell_on_five_by_five_ends_after_generation_two() {
    let mut sim = Simulation::new(sim_grid(5, 5, &[(2, 2)]), 5, 5).unwrap();

    assert_eq!(sim.step(), Action::Render);
    assert_eq!(sim.phase(), Phase::Advancing);
    assert_eq!(sim.render(), "-----\n-----\n--*--\n-----\n-----\n");
    assert_eq!(sim.generation(), 1);

    assert_eq!(sim.step(), Action::Announce(2));
    assert_eq!(sim.phase(), Phase::Checking);
    assert_eq!(sim.generation(), 2);
    assert!(sim.colony().iter().all(|c| !c.live));
    assert_eq!(sim.colony().len(), 25);

    assert_eq!(sim.step(), Action::ReportDead);
    assert_eq!(sim.phase(), Phase::Dead);
    assert_eq!(sim.generation(), 2);
}

#[test]
fn dead_simulation_stays_dead() {
    let mut sim = Simulation::new(sim_grid(3, 3, &[]), 3, 3).unwrap();
    assert_eq!(sim.step(), Action::Render);
    assert_eq!(sim.step(), Action::Announce(2));
    assert_eq!(sim.step(), Action::ReportDead);
    for _ in 0..5 {
        assert_eq!(sim.step(), Action::Stop);
        assert_eq!(sim.phase(), Phase::Dead);
        assert_eq!(sim.generation(), 2);
        assert_eq!(sim.colony(), &sim_grid(3, 3, &[]));
    }
}

#[test]
fn living_colony_cycles_through_the_phases() {
    let block = [(1, 1), (2, 1), (1, 2), (2, 2)];
    let mut sim = Simulation::new(sim_grid(4, 4, &block), 4, 4).unwrap();
    for round in 0..6i64 {
        assert_eq!(sim.phase(), Phase::Rendering);
        assert_eq!(sim.step(), Action::Render);
        assert_eq!(sim.render(), "----\n-**-\n-**-\n----\n");
        assert_eq!(sim.phase(), Phase::Advancing);
        assert_eq!(sim.step(), Action::Announce(round + 2));
        assert_eq!(sim.generation(), round + 2);
        assert_eq!(sim.phase(), Phase::Checking);
        assert_eq!(sim.step(), Action::Proceed);
    }
    assert_eq!(sim.colony(), &sim_grid(4, 4, &block));
}

#[test]
fn blinker_in_the_simulation_alternates() {
    let mut sim = Simulation::new(sim_grid(5, 5, &[(1, 2), (2, 2), (3, 2)]), 5, 5).unwrap();
    assert_eq!(sim.step(), Action::Render);
    assert_eq!(sim.render(), "-----\n-----\n-***-\n-----\n-----\n");
    assert_eq!(sim.step(), Action::Announce(2));
    assert_eq!(sim.step(), Action::Proceed);
    assert_eq!(sim.step(), Action::Render);
    assert_eq!(sim.render(), "-----\n--*--\n--*--\n--*--\n-----\n");
    assert_eq!(sim.step(), Action::Announce(3));
    assert_eq!(sim.step(), Action::Proceed);
    assert_eq!(sim.render(), "-----\n-----\n-***-\n-----\n-----\n");
}

#[test]
fn empty_grid_is_dead_at_the_first_check() {
    let mut sim = Simulation::new(Vec::new(), 0, 0).unwrap();
    assert_eq!(sim.step(), Action::Render);
    assert_eq!(sim.render(), "\n");
    assert_eq!(sim.step(), Action::Announce(2));
    assert_eq!(sim.step(), Action::ReportDead);
}
