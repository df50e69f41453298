use nephos::select::{elite_pool, next_population, rank_by_score};

#[test]
fn ranking_orders_by_descending_score() {
    let scores: Vec<u32> = vec![10, 40, 20, 30];
    let ranked = rank_by_score(&scores);
    assert_eq!(ranked, vec![1, 3, 2, 0]);
}

#[test]
fn ranking_breaks_ties_by_original_index() {
    // equal scores keep their original order: the sort is stable
    let scores: Vec<u32> = vec![5, 9, 5, 9, 1];
    let ranked = rank_by_score(&scores);
    assert_eq!(ranked, vec![1, 3, 0, 2, 4]);
}

#[test]
fn ranking_all_equal_is_identity() {
    let scores: Vec<u32> = vec![7, 7, 7];
    let ranked = rank_by_score(&scores);
    assert_eq!(ranked, vec![0, 1, 2]);
}

#[test]
fn ranking_of_empty_scores_is_empty() {
    let scores: Vec<u32> = Vec::new();
    let ranked = rank_by_score(&scores);
    assert!(ranked.is_empty());
}

#[test]
fn elite_pool_gathers_top_map_sets_in_rank_order() {
    // four map sets of two entries each, scored 10, 40, 20, 30
    let population: Vec<u64> = vec![100, 101, 200, 201, 300, 301, 400, 401];
    let scores: Vec<u32> = vec![10, 40, 20, 30];
    let ranked = rank_by_score(&scores);
    let elites = elite_pool(&population, &ranked, 2, 2);
    // map set 1 (score 40) first, then map set 3 (score 30)
    assert_eq!(elites, vec![200, 201, 400, 401]);
}

#[test]
fn elitism_keeps_top_sets_unmutated_at_the_front() {
    let population: Vec<u64> = vec![100, 101, 200, 201, 300, 301, 400, 401];
    let scores: Vec<u32> = vec![10, 40, 20, 30];
    let ranked = rank_by_score(&scores);
    let elites = elite_pool(&population, &ranked, 2, 2);
    // children may be anything; the elites stay untouched at the front
    let children: Vec<u64> = vec![999, 998, 997, 996];
    let next = next_population(&elites, &children);
    assert_eq!(&next[0..4], &[200, 201, 400, 401]);
    assert_eq!(&next[4..], &[999, 998, 997, 996]);
}

#[test]
fn select_cycle_population_length_is_invariant() {
    // elite_len = 2, n_children = 3: width stays 2 * (1 + 3) = 8 for good
    let maps_per_set = 2;
    let elite_len = 2;
    let n_children = 3;
    let width = elite_len * (1 + n_children);
    let mut population: Vec<u64> = (0..(width * maps_per_set) as u64).collect();
    for generation in 0..5u32 {
        let scores: Vec<u32> = (0..width as u32).map(|i| (i * 31 + generation) % 7).collect();
        let ranked = rank_by_score(&scores);
        let elites = elite_pool(&population, &ranked, elite_len, maps_per_set);
        let mut children = Vec::new();
        for _ in 0..n_children {
            for e in &elites {
                children.push(e + 1);
            }
        }
        population = next_population(&elites, &children);
        assert_eq!(population.len(), width * maps_per_set);
        assert_eq!(population.len(), 16);
    }
}

#[test]
fn single_set_population_survives_a_cycle_unchanged() {
    // elite_len = 1, n_children = 0: the lone map set is its own elite
    let population: Vec<u64> = vec![42, 43];
    let scores: Vec<u32> = vec![17];
    let ranked = rank_by_score(&scores);
    assert_eq!(ranked, vec![0]);
    let elites = elite_pool(&population, &ranked, 1, 2);
    let children: Vec<u64> = Vec::new();
    let next = next_population(&elites, &children);
    assert_eq!(next, population);
    assert_eq!(next.len(), 1 * 2);
}
