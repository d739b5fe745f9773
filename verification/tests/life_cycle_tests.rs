use biosimrust::analysis::{action_short_name, sensor_short_name};
use biosimrust::basic_types::Coord;
use biosimrust::genome_compare::{genome_similarity_ratio, similarity_ratio, SimilarityCounts, Tally};
use biosimrust::genome_neurons::{make_random_gene, random_bit_flip, Gene, NEURON};
use biosimrust::grid::{Grid, BARRIER, EMPTY};
use biosimrust::indiv::Indiv;
use biosimrust::params::Params;
use biosimrust::peeps::Peeps;
use biosimrust::random::RandomUintGenerator;
use biosimrust::sensors_actions::{action_from_index, sensor_from_index};
use biosimrust::signals::Signals;
use biosimrust::simulator::CHALLENGE_MIGRATE_DISTANCE;
use biosimrust::spawn_new_generation::{initialize_generation_0, spawn_new_generation};
use biosimrust::survival_criteria::{passed_survival_criterion, SurvivalScore};

#[test]
fn random_genes_keep_seven_bit_numbers() {
    let mut rng = RandomUintGenerator::new();
    rng.initialize(true, 99, 0);
    for _ in 0..2000 {
        let g = make_random_gene(&mut rng);
        assert!(g.source_num < 128 && g.sink_num < 128);
        assert!(g.source_type <= 1 && g.sink_type <= 1);
    }
    let mut genome = vec![Gene { source_type: NEURON, source_num: 127, sink_type: NEURON, sink_num: 127, weight: 0 }];
    for _ in 0..500 {
        random_bit_flip(&mut rng, &mut genome);
        assert!(genome[0].source_num < 128 && genome[0].sink_num < 128);
    }
}

#[test]
fn migration_scores_are_capped_at_one() {
    let mut params = Params::default();
    params.size_x = 128;
    params.size_y = 128;
    let mut grid = Grid::new();
    grid.init(128, 128);
    let mut indiv = Indiv::new();
    indiv.alive = true;
    indiv.index = 1;
    indiv.birth_loc = Coord { x: 0, y: 0 };
    indiv.loc = Coord { x: 127, y: 127 };
    let (passed, score) = passed_survival_criterion(&indiv, CHALLENGE_MIGRATE_DISTANCE, &params, &grid);
    assert!(passed);
    assert_eq!(score, SurvivalScore::One);
    indiv.loc = Coord { x: 90, y: 0 };
    let (passed, score) = passed_survival_criterion(&indiv, CHALLENGE_MIGRATE_DISTANCE, &params, &grid);
    assert!(passed);
    assert_eq!(score, SurvivalScore::Fraction { num: 90, den: 128 });
    indiv.loc = Coord { x: 10, y: 10 };
    assert_eq!(passed_survival_criterion(&indiv, CHALLENGE_MIGRATE_DISTANCE, &params, &grid), (false, SurvivalScore::Zero));
}

#[test]
fn empty_genomes_have_no_similarity() {
    let r = similarity_ratio(SimilarityCounts::Bytes(Tally { count: 0, total: 0 }));
    assert_eq!((r.num, r.den), (0, 1));
    let mut params = Params::default();
    for method in 0..4 {
        params.genome_comparison_method = method;
        let (r, _) = genome_similarity_ratio(&vec![], &vec![], &params);
        assert_eq!(r.num, 0);
        assert!(r.den > 0);
    }
}

#[test]
fn a_new_generation_starts_fresh_with_its_barrier() {
    let mut params = Params::default();
    params.size_x = 16;
    params.size_y = 12;
    params.population = 30;
    params.barrier_type = 1;
    let mut grid = Grid::new();
    grid.init(params.size_x, params.size_y);
    let mut signals = Signals::new();
    signals.init(1, params.size_x, params.size_y);
    let mut peeps = Peeps::new();
    peeps.init(params.population);
    let mut rng = RandomUintGenerator::new();
    rng.initialize(true, 3, 0);
    initialize_generation_0(&mut grid, &mut signals, &mut peeps, &params, &mut rng);
    let n = spawn_new_generation(&[1, 2], &mut grid, &mut signals, &mut peeps, &params, &mut rng);
    assert_eq!(n, 2);
    for i in 1..=30usize {
        let ind = &peeps.individuals[i];
        assert!(ind.alive);
        assert_eq!(ind.age, 0);
        assert_eq!(ind.birth_loc, ind.loc);
    }
    let barriers = grid.get_barrier_locations().to_vec();
    assert!(!barriers.is_empty());
    for x in 0..16i16 {
        for y in 0..12i16 {
            let c = Coord { x, y };
            assert_eq!(grid.at(c) == BARRIER, barriers.contains(&c));
            assert_eq!(signals.get_magnitude(0, c), 0);
        }
    }
    assert_ne!(grid.at(peeps.individuals[1].loc), EMPTY);
}

#[test]
fn an_exactly_full_arena_still_names_every_individual() {
    let mut params = Params::default();
    params.size_x = 5;
    params.size_y = 4;
    params.population = 20;
    params.barrier_type = 0;
    let mut grid = Grid::new();
    grid.init(params.size_x, params.size_y);
    let mut signals = Signals::new();
    signals.init(1, params.size_x, params.size_y);
    let mut peeps = Peeps::new();
    peeps.init(params.population);
    let mut rng = RandomUintGenerator::new();
    rng.initialize(true, 11, 0);
    initialize_generation_0(&mut grid, &mut signals, &mut peeps, &params, &mut rng);
    for i in 1..=20usize {
        let ind = &peeps.individuals[i];
        assert_eq!(grid.at(ind.loc) as usize, i);
    }
    for x in 0..5i16 {
        for y in 0..4i16 {
            assert_ne!(grid.at(Coord { x, y }), EMPTY);
        }
    }
    let n = spawn_new_generation(&[3, 7], &mut grid, &mut signals, &mut peeps, &params, &mut rng);
    assert_eq!(n, 2);
    for i in 1..=20usize {
        let ind = &peeps.individuals[i];
        assert_eq!(grid.at(ind.loc) as usize, i);
    }
}

#[test]
fn mnemonics_are_distinct_words() {
    let mut seen: Vec<&str> = Vec::new();
    let mut i = 0;
    while let Some(s) = sensor_from_index(i) {
        let m = sensor_short_name(s);
        assert!(!m.is_empty() && m.chars().all(|c| c.is_ascii_alphabetic()));
        assert!(!seen.contains(&m));
        seen.push(m);
        i += 1;
    }
    assert_eq!(seen.len(), 22);
    assert_eq!(sensor_short_name(sensor_from_index(3).unwrap()), "ED");
    let mut seen: Vec<&str> = Vec::new();
    let mut i = 0;
    while let Some(a) = action_from_index(i) {
        let m = action_short_name(a);
        assert!(!m.is_empty() && m.chars().all(|c| c.is_ascii_alphabetic()));
        assert!(!seen.contains(&m));
        seen.push(m);
        i += 1;
    }
    assert_eq!(seen.len(), 18);
}
