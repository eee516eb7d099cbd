use rand::rngs::SmallRng;
use rand::SeedableRng;
use td_sandbox::enemy::{
    check_edge_keys_fit,
    compute_steal_amount, enemy_path_goal, pick_spawn_and_goal, resolve_pile_arrival,
    EnemyBlueprint, EnemyRegistry, EnemyState,
};
use td_sandbox::geom::{GridConfig, GridPos};
use td_sandbox::pile::{compute_pile_cells, EdgeCells, PileScrap, PileState};

fn pos(x: u32, y: u32) -> GridPos {
    GridPos::new(x, y, 0)
}

#[test]
fn enemy_state_default_is_approaching() {
    assert_eq!(EnemyState::default(), EnemyState::Approaching);
}

#[test]
fn registry_lookup_returns_none_for_missing() {
    let reg: EnemyRegistry<()> = EnemyRegistry::default();
    assert!(reg.lookup("Shambler").is_none());
}

#[test]
fn registry_lookup_finds_blueprint() {
    let mut reg: EnemyRegistry<()> = EnemyRegistry::default();
    reg.blueprints.push(EnemyBlueprint { name: "TestEnemy".to_string(), data: () });
    assert!(reg.lookup("TestEnemy").is_some());
    assert!(reg.lookup("Other").is_none());
}

#[test]
fn registry_lookup_returns_first_match() {
    let mut reg: EnemyRegistry<u32> = EnemyRegistry::new();
    reg.blueprints.push(EnemyBlueprint { name: "Runner".to_string(), data: 1 });
    reg.blueprints.push(EnemyBlueprint { name: "Brute".to_string(), data: 2 });
    reg.blueprints.push(EnemyBlueprint { name: "Runner".to_string(), data: 3 });
    assert_eq!(reg.lookup("Runner").map(|b| b.data), Some(1));
    assert_eq!(reg.lookup("Brute").map(|b| b.data), Some(2));
    assert!(reg.lookup("runner").is_none());
}

#[test]
fn steal_amount_clamped_to_pile() {
    assert_eq!(compute_steal_amount(10, 3), 3);
}

#[test]
fn steal_amount_clamped_to_loot() {
    assert_eq!(compute_steal_amount(10, 100), 10);
}

#[test]
fn steal_amount_zero_pile() {
    assert_eq!(compute_steal_amount(10, 0), 0);
}

#[test]
fn steal_amount_zero_loot() {
    assert_eq!(compute_steal_amount(0, 100), 0);
}

// -- goals after a grid change --

/// The pile of a 40x32 map holding 200 scrap (radius below one tile).
fn test_pile() -> PileState {
    let config = GridConfig { width: 40, height: 32, pixel_scale: 1 };
    let center = config.center();
    let radius: f32 = (200.0f32 / (std::f32::consts::PI * 2000.0)).sqrt();
    let cells = compute_pile_cells(center, (radius * radius).floor() as u64, 40, 32);
    PileState { cells, center, last_radius_int: radius as u32 }
}

#[test]
fn recalculate_approaching_enemy_gets_pile_goal() {
    let pile = test_pile();
    let goal = enemy_path_goal(EnemyState::Approaching, pos(5, 5), &pile, &EdgeCells(Vec::new()));
    assert!(pile.cells.contains(&goal), "goal {:?} should be a pile cell", goal);
}

#[test]
fn recalculate_fleeing_enemy_gets_edge_goal() {
    let pile = test_pile();
    let edges = EdgeCells(vec![pos(0, 0), pos(39, 0)]);
    let goal = enemy_path_goal(EnemyState::Fleeing, pos(38, 1), &pile, &edges);
    assert_eq!(goal, pos(39, 0));
}

#[test]
fn recalculate_multiple_enemies_different_states() {
    let pile = test_pile();
    let edges = EdgeCells(vec![pos(0, 0), pos(39, 0)]);
    let approaching = enemy_path_goal(EnemyState::Approaching, pos(5, 5), &pile, &edges);
    let fleeing = enemy_path_goal(EnemyState::Fleeing, pos(1, 1), &pile, &edges);
    assert!(pile.cells.contains(&approaching));
    assert_eq!(fleeing, pos(0, 0));
}

#[test]
fn fleeing_enemy_without_edges_keeps_position() {
    let pile = test_pile();
    let goal = enemy_path_goal(EnemyState::Fleeing, pos(7, 3), &pile, &EdgeCells(Vec::new()));
    assert_eq!(goal, pos(7, 3));
}

// -- reaching the pile --

#[test]
fn arrival_steals_and_flees() {
    let mut state = EnemyState::Approaching;
    let mut scrap = PileScrap { amount: 25 };
    let edges = EdgeCells(vec![pos(0, 0), pos(39, 0), pos(0, 31)]);
    let arrival = resolve_pile_arrival(&mut state, false, pos(30, 2), 10, &mut scrap, &edges)
        .expect("approaching enemy without a path has arrived");
    assert_eq!(arrival.stolen, 10);
    assert_eq!(arrival.flee_target, pos(39, 0));
    assert_eq!(scrap.amount, 15);
    assert_eq!(state, EnemyState::Fleeing);
}

#[test]
fn arrival_at_empty_pile_steals_nothing() {
    let mut state = EnemyState::Approaching;
    let mut scrap = PileScrap { amount: 0 };
    let edges = EdgeCells(vec![pos(0, 0)]);
    let arrival = resolve_pile_arrival(&mut state, false, pos(3, 3), 10, &mut scrap, &edges).unwrap();
    assert_eq!(arrival.stolen, 0);
    assert_eq!(scrap.amount, 0);
    assert_eq!(state, EnemyState::Fleeing);
}

#[test]
fn arrival_takes_rest_of_small_pile() {
    let mut state = EnemyState::Approaching;
    let mut scrap = PileScrap { amount: 4 };
    let edges = EdgeCells(vec![pos(0, 0)]);
    let arrival = resolve_pile_arrival(&mut state, false, pos(3, 3), 10, &mut scrap, &edges).unwrap();
    assert_eq!(arrival.stolen, 4);
    assert_eq!(scrap.amount, 0);
}

#[test]
fn enemy_still_on_path_does_not_arrive() {
    let mut state = EnemyState::Approaching;
    let mut scrap = PileScrap { amount: 25 };
    let edges = EdgeCells(vec![pos(0, 0)]);
    assert!(resolve_pile_arrival(&mut state, true, pos(3, 3), 10, &mut scrap, &edges).is_none());
    assert_eq!(scrap.amount, 25);
    assert_eq!(state, EnemyState::Approaching);
}

#[test]
fn fleeing_enemy_does_not_steal_again() {
    let mut state = EnemyState::Fleeing;
    let mut scrap = PileScrap { amount: 25 };
    let edges = EdgeCells(vec![pos(0, 0)]);
    assert!(resolve_pile_arrival(&mut state, false, pos(3, 3), 10, &mut scrap, &edges).is_none());
    assert_eq!(scrap.amount, 25);
    assert_eq!(state, EnemyState::Fleeing);
}

// -- spawning --

#[test]
fn spawn_point_is_an_edge_and_goal_nearest_pile_cell() {
    let pile = PileState { cells: vec![pos(5, 5), pos(6, 5)], center: pos(5, 5), last_radius_int: 1 };
    let edges = EdgeCells(vec![pos(0, 5), pos(9, 5)]);
    let mut rng = SmallRng::seed_from_u64(7);
    let mut seen_left = false;
    let mut seen_right = false;
    for _ in 0..20 {
        let (spawn, goal) = pick_spawn_and_goal(&edges, &pile, &mut rng).unwrap();
        if spawn == pos(0, 5) {
            assert_eq!(goal, pos(5, 5));
            seen_left = true;
        } else {
            assert_eq!(spawn, pos(9, 5));
            assert_eq!(goal, pos(6, 5));
            seen_right = true;
        }
    }
    assert!(seen_left && seen_right, "both edge cells should be drawn");
}

#[test]
fn no_spawn_without_edges() {
    let pile = PileState { cells: vec![pos(5, 5)], center: pos(5, 5), last_radius_int: 0 };
    let mut rng = SmallRng::seed_from_u64(7);
    assert!(pick_spawn_and_goal(&EdgeCells(Vec::new()), &pile, &mut rng).is_none());
}

#[test]
fn spawn_with_empty_pile_heads_for_center() {
    let pile = PileState { cells: Vec::new(), center: pos(20, 16), last_radius_int: 0 };
    let edges = EdgeCells(vec![pos(0, 0)]);
    let mut rng = SmallRng::seed_from_u64(1);
    assert_eq!(pick_spawn_and_goal(&edges, &pile, &mut rng), Some((pos(0, 0), pos(20, 16))));
}

#[test]
fn edge_keys_fit_check() {
    assert!(check_edge_keys_fit(&[pos(0, 0), pos(39, 0)], &[pos(20, 16)]));
    assert!(!check_edge_keys_fit(&[pos(0, 0), pos(60000, 0)], &[pos(20, 16)]));
}
