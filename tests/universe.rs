use graph_walker::agent::AgentSpecies;
use graph_walker::prng::{draw_many, seeded};
use graph_walker::universe::{AgentMoves, TickError, Universe2D, UniverseError};

fn total_agent_size(universe: &Universe2D) -> u64 {
    universe.total_agents(AgentSpecies::Red) + universe.total_agents(AgentSpecies::Blue)
}

fn summed(universe: &Universe2D, species: AgentSpecies) -> u64 {
    universe.occupancy(species).iter().map(|&c| c as u64).sum()
}

fn uniform_tick(universe: &mut Universe2D) {
    let moves = universe.uniform_moves();
    universe.tick(&moves).unwrap();
}

fn assert_fresh_universe2d() {
    let universe = Universe2D::new(4, 100).unwrap();

    for i in 0..universe.node_count() {
        assert_eq!(universe.node(i).neighbours.size, 4);
    }

    assert_eq!(total_agent_size(&universe), 200);
    assert_eq!(summed(&universe, AgentSpecies::Blue), 100);
    assert_eq!(summed(&universe, AgentSpecies::Red), 100);
}

#[test]
fn lib_test_universe2d() {
    assert_fresh_universe2d();
}

#[test]
fn universe_2d_test_universe2d() {
    assert_fresh_universe2d();
}

// The cells of a 4 x 4 grid with 100 agents of each species, seeded with the
// default seed, after two ticks of uniform moves, as (red, blue) per cell.
fn golden_after_two_ticks() -> Vec<(u32, u32)> {
    vec![
        (6, 6),
        (2, 9),
        (4, 8),
        (11, 4),
        (3, 8),
        (5, 6),
        (7, 7),
        (4, 11),
        (6, 9),
        (4, 4),
        (9, 6),
        (9, 4),
        (12, 4),
        (7, 5),
        (7, 6),
        (4, 3),
    ]
}

fn run_two_ticks_and_compare() {
    let mut universe = Universe2D::new(4, 100).unwrap();

    assert_eq!(total_agent_size(&universe), 200, "0 iteration agents");
    uniform_tick(&mut universe);
    assert_eq!(total_agent_size(&universe), 200, "1 iteration agents");
    uniform_tick(&mut universe);
    assert_eq!(total_agent_size(&universe), 200, "2 iteration agents");

    let red = universe.occupancy(AgentSpecies::Red);
    let blue = universe.occupancy(AgentSpecies::Blue);
    let cells: Vec<(u32, u32)> = red.into_iter().zip(blue).collect();
    assert_eq!(cells, golden_after_two_ticks());
}

#[test]
fn lib_test_tick_agent_equal() {
    run_two_ticks_and_compare();
}

#[test]
fn universe_2d_test_tick_agent_equal() {
    run_two_ticks_and_compare();
}

fn performance_run() {
    let mut universe = Universe2D::new(100, 100000).unwrap();

    for _ in 0..300 {
        uniform_tick(&mut universe);
    }
    assert_eq!(universe.iteration(), 300);
    assert_eq!(summed(&universe, AgentSpecies::Red), 100000);
    assert_eq!(summed(&universe, AgentSpecies::Blue), 100000);
}

#[test]
fn lib_performance_test_tick() {
    performance_run();
}

#[test]
fn end_to_end_performance_test_tick() {
    performance_run();
}

#[test]
fn number_of_agents_in_universe() {
    const AGENT_SIZE: u32 = 100000;
    let mut u = Universe2D::new(100, AGENT_SIZE).unwrap();

    assert_eq!(total_agent_size(&u), (AGENT_SIZE * 2) as u64);

    uniform_tick(&mut u);
    assert_eq!(summed(&u, AgentSpecies::Red) + summed(&u, AgentSpecies::Blue), (AGENT_SIZE * 2) as u64);
}

#[test]
fn it_works() {
    let mut u = Universe2D::new(100, 100000).unwrap();
    uniform_tick(&mut u);

    assert_eq!(u.node_count(), 100 * 100);
    assert_eq!(summed(&u, AgentSpecies::Red) + summed(&u, AgentSpecies::Blue), 200000);
}

#[test]
fn prng_works() {
    let mut u1 = Universe2D::new(10, 100).unwrap();
    let mut u2 = Universe2D::new(10, 100).unwrap();

    assert_eq!(u1.occupancy(AgentSpecies::Red), u2.occupancy(AgentSpecies::Red));
    assert_eq!(u1.occupancy(AgentSpecies::Blue), u2.occupancy(AgentSpecies::Blue));

    let before = u1.occupancy(AgentSpecies::Red);
    uniform_tick(&mut u1);
    uniform_tick(&mut u2);
    assert_ne!(before, u2.occupancy(AgentSpecies::Red));
    assert_eq!(u1.occupancy(AgentSpecies::Red), u2.occupancy(AgentSpecies::Red));
    assert_eq!(u1.occupancy(AgentSpecies::Blue), u2.occupancy(AgentSpecies::Blue));
}

#[test]
fn same_agents() {}

#[test]
fn zero_size_is_refused() {
    assert_eq!(Universe2D::new(0, 10).err(), Some(UniverseError::ZeroSize));
}

#[test]
fn grid_too_large_is_refused() {
    assert_eq!(Universe2D::new(65536, 1).err(), Some(UniverseError::TooLarge));
}

#[test]
fn empty_universe_has_no_agents() {
    let u = Universe2D::new(3, 0).unwrap();
    assert_eq!(total_agent_size(&u), 0);
    assert_eq!(u.population(), 0);
}

#[test]
fn seed_is_kept_and_changes_placement() {
    let a = Universe2D::with_seed(10, 500, 1).unwrap();
    let b = Universe2D::with_seed(10, 500, 2).unwrap();
    assert_eq!(a.seed(), 1);
    assert_eq!(Universe2D::new(10, 500).unwrap().seed(), 100);
    assert_ne!(a.occupancy(AgentSpecies::Red), b.occupancy(AgentSpecies::Red));
    assert_eq!(summed(&a, AgentSpecies::Red), 500);
    assert_eq!(summed(&b, AgentSpecies::Blue), 500);
}

#[test]
fn all_agents_stepping_right_shift_one_column() {
    let mut u = Universe2D::with_seed(3, 20, 5).unwrap();
    let red_before = u.occupancy(AgentSpecies::Red);
    let blue_before = u.occupancy(AgentSpecies::Blue);
    let moves: Vec<AgentMoves> = (0..u.node_count())
        .map(|i| {
            let n = u.node(i);
            AgentMoves::new(vec![1; n.agents.red as usize], vec![2; n.agents.blue as usize])
        })
        .collect();
    assert_eq!(u.tick(&moves), Ok(()));
    assert_eq!(u.iteration(), 1);
    let red_after = u.occupancy(AgentSpecies::Red);
    let blue_after = u.occupancy(AgentSpecies::Blue);
    for row in 0..3usize {
        for col in 0..3usize {
            let here = row * 3 + col;
            let from_left = row * 3 + (col + 2) % 3;
            let from_above = ((row + 2) % 3) * 3 + col;
            assert_eq!(red_after[here], red_before[from_left]);
            assert_eq!(blue_after[here], blue_before[from_above]);
        }
    }
}

#[test]
fn moves_for_the_wrong_number_of_agents_are_refused() {
    let mut u = Universe2D::new(4, 10).unwrap();
    let before = u.occupancy(AgentSpecies::Red);
    let mut moves = u.uniform_moves();
    let first = (0..u.node_count()).find(|&i| u.node(i).agents.red > 0).unwrap();
    moves[first].red.pop();
    assert!(!u.moves_match(&moves));
    assert_eq!(u.tick(&moves), Err(TickError::MovesMismatch));
    assert_eq!(u.occupancy(AgentSpecies::Red), before);
    assert_eq!(u.iteration(), 0);
}

#[test]
fn moves_through_a_missing_slot_are_refused() {
    let mut u = Universe2D::new(4, 10).unwrap();
    let mut moves = u.uniform_moves();
    let first = (0..u.node_count()).find(|&i| u.node(i).agents.blue > 0).unwrap();
    moves[first].blue[0] = 4;
    assert_eq!(u.tick(&moves), Err(TickError::MovesMismatch));
    moves.pop();
    assert_eq!(u.tick(&moves), Err(TickError::MovesMismatch));
}

#[test]
fn conservation_over_many_ticks() {
    let mut u = Universe2D::with_seed(7, 333, 42).unwrap();
    for t in 0..50 {
        uniform_tick(&mut u);
        assert_eq!(summed(&u, AgentSpecies::Red), 333, "tick {}", t);
        assert_eq!(summed(&u, AgentSpecies::Blue), 333, "tick {}", t);
    }
}

#[test]
fn single_cell_universe_keeps_everyone() {
    let mut u = Universe2D::new(1, 25).unwrap();
    uniform_tick(&mut u);
    assert_eq!(u.occupancy(AgentSpecies::Red), vec![25]);
    assert_eq!(u.occupancy(AgentSpecies::Blue), vec![25]);
}

#[test]
fn uniform_fallback_spreads_evenly_over_slots() {
    let (slots, _) = draw_many(seeded(3), 120_000, 4);
    let mut counts = [0u32; 4];
    for s in slots {
        counts[s as usize] += 1;
    }
    for c in counts {
        assert!((29_000..31_000).contains(&c), "{:?}", counts);
    }
}

#[test]
fn uniform_moves_spread_evenly_over_slots_across_ticks() {
    let mut u = Universe2D::new(10, 2000).unwrap();
    let mut counts = [0u64; 4];
    for _ in 0..20 {
        let moves = u.uniform_moves();
        for m in &moves {
            for &s in m.red.iter().chain(m.blue.iter()) {
                counts[s as usize] += 1;
            }
        }
        u.tick(&moves).unwrap();
    }
    let total: u64 = counts.iter().sum();
    assert_eq!(total, 80_000);
    for c in counts {
        assert!((19_000..21_000).contains(&c), "{:?}", counts);
    }
}

#[test]
fn draws_come_from_the_generator() {
    let st = seeded(11);
    assert_eq!(st, oorandom::Rand32::new(11).state());
    let (v, next) = draw_many(st, 5, 4);
    let mut g = oorandom::Rand32::from_state(st);
    let expected: Vec<u32> = (0..5).map(|_| g.rand_range(0..4)).collect();
    assert_eq!(v, expected);
    assert_eq!(next, g.state());
    assert_ne!(next, st);
}

#[test]
fn universes_built_alike_agree_after_many_ticks() {
    let mut u1 = Universe2D::with_seed(6, 150, 77).unwrap();
    let mut u2 = Universe2D::with_seed(6, 150, 77).unwrap();
    for _ in 0..5 {
        uniform_tick(&mut u1);
        uniform_tick(&mut u2);
    }
    assert_eq!(u1.iteration(), u2.iteration());
    assert_eq!(u1.occupancy(AgentSpecies::Red), u2.occupancy(AgentSpecies::Red));
    assert_eq!(u1.occupancy(AgentSpecies::Blue), u2.occupancy(AgentSpecies::Blue));
}
