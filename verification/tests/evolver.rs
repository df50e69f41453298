use nephos::evolver::{generation_plan, Evolver, EvolverConfig, Stage};

fn small_config() -> EvolverConfig {
    EvolverConfig { maps_per_set: 2, elite_len: 2, depth: 3, n_children: 3, n_points: 100 }
}

#[test]
fn width_is_elites_times_one_plus_children() {
    let config = small_config();
    assert!(config.validate());
    assert_eq!(config.width(), 8);
    assert_eq!(config.population_len(), 16);
}

#[test]
fn validate_rejects_degenerate_sizings() {
    let mut config = small_config();
    config.maps_per_set = 0;
    assert!(!config.validate());

    let mut config = small_config();
    config.elite_len = 0;
    assert!(!config.validate());

    let mut config = small_config();
    config.n_children = usize::MAX;
    assert!(!config.validate());

    let mut config = small_config();
    config.elite_len = usize::MAX;
    config.n_children = 1;
    assert!(!config.validate());
}

#[test]
fn map_set_offsets_tile_the_population_buffer() {
    let config = small_config();
    assert_eq!(config.map_set_offset(0), 0);
    assert_eq!(config.map_set_offset(1), 2);
    assert_eq!(config.map_set_offset(7), 14);
}

#[test]
fn generation_plan_runs_the_stage_cycle_in_order() {
    let plan = generation_plan(2, 2);
    assert_eq!(
        plan,
        vec![
            Stage::Reset,
            Stage::Step(0),
            Stage::Step(1),
            Stage::Render,
            Stage::Compare,
            Stage::Reduce(0),
            Stage::Reduce(1),
            Stage::Select,
        ]
    );
}

#[test]
fn generation_plan_with_no_steps_still_selects() {
    let plan = generation_plan(0, 0);
    assert_eq!(plan, vec![Stage::Reset, Stage::Render, Stage::Compare, Stage::Select]);
}

#[test]
fn evolver_counts_generations() {
    let mut evolver = Evolver::new(small_config());
    assert_eq!(evolver.generation, 0);
    evolver.advance_generation();
    evolver.advance_generation();
    assert_eq!(evolver.generation, 2);
}

#[test]
fn evolver_plan_matches_its_depth() {
    let evolver = Evolver::new(small_config());
    let plan = evolver.plan(4);
    assert_eq!(plan.len(), 3 + 4 + 4);
    assert_eq!(plan[0], Stage::Reset);
    assert_eq!(plan[plan.len() - 1], Stage::Select);
}

#[test]
fn best_map_set_is_the_first_set_after_selection() {
    let evolver = Evolver::new(small_config());
    let population: Vec<u64> = (0..16).collect();
    let best = evolver.best_map_set(&population);
    assert_eq!(best, vec![0, 1]);
}
