use biosimrust::basic_types::Coord;
use biosimrust::execute_actions::prob2bool;
use biosimrust::frame_pixels::{draw_agents, frame_background, BARRIER_GREY, WHITE};
use biosimrust::genome_neurons::{Gene, Genome, NEURON};
use biosimrust::image_frame::{genetic_color_to_rgb, make_genetic_color, ImageFrameData};
use biosimrust::params::{ConfigLine, FloatValue, IngestResult, ParamManager, Params, RunMode};
use biosimrust::random::RandomUintGenerator;
use biosimrust::ranking::rank_descending;
use biosimrust::altruism::surviving_kin;
use biosimrust::simulator::{add_murders, after_generation, generation_continues};
use biosimrust::peeps::Peeps;
use biosimrust::speciation::{
    assign_survivors_to_species, assign_to_species, join_species, calculate_species_statistics, compatibility_counts, cull_stagnant_species,
    genes_match_topology, get_next_species_id, reset_species_list, update_species_stats,
    CompatibilityWeights, Species, SpeciesRegistry,
};

fn neuron_gene(source: u8, sink: u8, weight: i16) -> Gene {
    Gene { source_type: NEURON, source_num: source, sink_type: NEURON, sink_num: sink, weight }
}

fn no_float() -> FloatValue {
    FloatValue {
        parsed: false,
        nonnegative: false,
        positive: false,
        at_most_one: false,
        threshold: 0,
        radius_num: 0,
        radius_den: 1,
    }
}

#[test]
fn test_phase6_species_assignment() {
    let weights = CompatibilityWeights {
        excess_milli: 1000,
        disjoint_milli: 1000,
        weight_milli: 400,
        threshold_milli: 500,
    };
    let mut registry = SpeciesRegistry::new();
    reset_species_list(&mut registry);
    let genome1 = vec![neuron_gene(0, 1, 8192)];
    let genome2 = vec![neuron_gene(1, 2, 8192)];
    let mut species_list: Vec<Species> = Vec::new();
    let mut next_id = 1u32;
    let id1 = assign_to_species(&genome1, &mut species_list, &weights, &mut next_id);
    assert_eq!(id1, Some(1), "First genome should create species 1");
    assert_eq!(species_list.len(), 1, "Should have one species");
    let id2 = assign_to_species(&genome2, &mut species_list, &weights, &mut next_id);
    assert_eq!(id2, Some(2), "Second genome should create species 2");
    assert_eq!(species_list.len(), 2, "Should have two species");
    let id3 = assign_to_species(&genome1, &mut species_list, &weights, &mut next_id);
    assert_eq!(id3, Some(1), "Same genome should match existing species");
    assert_eq!(species_list.len(), 2, "Should still have two species");
}

#[test]
fn compatibility_counts_of_examples() {
    let gene1 = neuron_gene(0, 1, 8192);
    let gene2 = neuron_gene(1, 2, 8192);
    // identical: one pair, nothing left over
    let c = compatibility_counts(&vec![gene1], &vec![gene1]);
    assert_eq!((c.longer, c.matches, c.excess, c.disjoint, c.weight_gap_sum), (1, 1, 0, 0, 0));
    // one excess gene
    let c = compatibility_counts(&vec![gene1], &vec![gene1, gene2]);
    assert_eq!((c.longer, c.matches, c.excess, c.disjoint), (2, 1, 1, 0));
    // one disjoint gene on each side
    let c = compatibility_counts(&vec![gene1], &vec![gene2]);
    assert_eq!((c.longer, c.matches, c.excess, c.disjoint), (1, 0, 0, 1));
    // same topology, weights 1.0 and 2.0
    let c = compatibility_counts(&vec![gene1], &vec![neuron_gene(0, 1, 16384)]);
    assert_eq!((c.matches, c.weight_gap_sum), (1, 8192));
    assert!(genes_match_topology(&gene1, &neuron_gene(0, 1, -5)));
    assert!(!genes_match_topology(&gene1, &gene2));
}

#[test]
fn test_phase6_cull_stagnant_species() {
    let genome = vec![neuron_gene(0, 1, 8192)];
    let mut species_list = vec![Species::new(1, genome.clone(), 0), Species::new(2, genome.clone(), 0)];
    species_list[0].stagnation = 6;
    species_list[0].members = vec![1];
    species_list[1].stagnation = 3;
    species_list[1].members = vec![3, 4];
    let orphaned = cull_stagnant_species(&mut species_list, 5, 2);
    assert_eq!(species_list.len(), 1, "Should have one species remaining");
    assert_eq!(orphaned.len(), 1, "Should have orphaned members from culled species");
    assert_eq!(species_list[0].id, 2);
    assert_eq!(orphaned, vec![1]);
}

#[test]
fn single_species_is_never_culled() {
    let genome = vec![neuron_gene(0, 1, 8192)];
    let mut species_list = vec![Species::new(1, genome, 0)];
    species_list[0].stagnation = 100;
    let orphaned = cull_stagnant_species(&mut species_list, 5, 2);
    assert_eq!(species_list.len(), 1);
    assert!(orphaned.is_empty());
}

#[test]
fn species_stagnation_updates() {
    let mut species = Species::new(1, vec![neuron_gene(0, 1, 8192)], 0);
    assert_eq!(species.stagnation, 0);
    update_species_stats(&mut species, 1, true);
    assert_eq!(species.stagnation, 0, "Stagnation should reset on improvement");
    assert_eq!(species.last_improved_generation, 1);
    update_species_stats(&mut species, 2, false);
    assert_eq!(species.stagnation, 1, "Stagnation should increment");
    assert_eq!(species.age, 2);
    species.add_member(7);
    species.add_member(7);
    species.add_member(9);
    assert_eq!(species.members, vec![7, 9]);
    species.remove_member(7);
    assert_eq!(species.members, vec![9]);
    species.clear_members();
    assert!(species.members.is_empty());
}

#[test]
fn survivors_join_species() {
    let weights = CompatibilityWeights { excess_milli: 1000, disjoint_milli: 1000, weight_milli: 400, threshold_milli: 500 };
    let mut peeps = Peeps::new();
    peeps.init(3);
    peeps.individuals[1].genome = vec![neuron_gene(0, 1, 8192)];
    peeps.individuals[2].genome = vec![neuron_gene(1, 2, 8192)];
    peeps.individuals[3].genome = vec![neuron_gene(0, 1, 8192)];
    let mut registry = SpeciesRegistry::new();
    let pairs = assign_survivors_to_species(&[1, 2, 3, 9], &peeps, &mut registry, &weights).unwrap();
    // the first two found species 1 and 2; the third joins the first; 9 names nobody
    assert_eq!(pairs, vec![(1, 1), (2, 2), (3, 1)]);
    assert_eq!(registry.species.len(), 2);
    assert_eq!(registry.species[0].members, vec![1, 3]);
    assert_eq!(registry.species[1].members, vec![2]);
    assert_eq!(registry.next_id, 2);
    // a new generation clears the members first
    let pairs = assign_survivors_to_species(&[2], &peeps, &mut registry, &weights).unwrap();
    assert_eq!(pairs, vec![(2, 2)]);
    assert!(registry.species[0].members.is_empty());
    // an orphan joins directly
    let mut next = 10u32;
    let id = join_species(&peeps.individuals[3].genome, 3, &mut registry.species, &weights, &mut next);
    assert_eq!(id, Some(1));
    assert_eq!(registry.species[0].members, vec![3]);
    // no new species once the ids run out
    let mut full = u32::MAX;
    let other = vec![neuron_gene(5, 6, 0)];
    assert_eq!(join_species(&other, 1, &mut registry.species, &weights, &mut full), None);
    assert_eq!(registry.species.len(), 2);
}

#[test]
fn species_ids_and_tallies() {
    let mut registry = SpeciesRegistry::new();
    assert_eq!(get_next_species_id(&mut registry), 1);
    assert_eq!(get_next_species_id(&mut registry), 2);
    registry.next_id = u32::MAX - 1000;
    assert_eq!(get_next_species_id(&mut registry), 1);
    assert_eq!(registry.next_id, 2);
    reset_species_list(&mut registry);
    assert_eq!(registry.next_id, 1);
    let genome = vec![neuron_gene(0, 1, 8192)];
    let mut list = vec![Species::new(1, genome.clone(), 0), Species::new(2, genome, 0)];
    list[0].members = vec![1, 2, 3];
    list[1].members = vec![4];
    list[1].age = 5;
    list[1].stagnation = 2;
    let t = calculate_species_statistics(&list, 5);
    assert_eq!(t.num_species, 2);
    assert_eq!(t.total_members, 4);
    assert_eq!(t.largest_species, 3);
    assert_eq!(t.smallest_species, 1);
    assert_eq!(t.new_species, 1);
    assert_eq!(t.extinct_species, 3);
    assert_eq!(t.total_age, 5);
    assert_eq!(t.total_stagnation, 2);
    let empty: Vec<Species> = Vec::new();
    assert_eq!(calculate_species_statistics(&empty, 5).num_species, 0);
}

#[test]
fn genetic_colors() {
    let empty: Genome = Vec::new();
    assert_eq!(make_genetic_color(&empty), 0);
    let g: Genome = vec![
        Gene { source_type: 1, source_num: 1, sink_type: 1, sink_num: 1, weight: 0 },
    ];
    // length bit, both type bits of first and last gene, source and sink
    // parity of the first gene and source parity of the last
    assert_eq!(make_genetic_color(&g), 0xff);
    assert_eq!(genetic_color_to_rgb(0), (0, 0, 0));
    // too bright: every channel above 0xb0 is taken modulo 0xb0
    assert_eq!(genetic_color_to_rgb(0xff), (0xff % 0xb0, 0xf8 % 0xb0, 0xe0 % 0xb0));
    // dark enough: unchanged
    assert_eq!(genetic_color_to_rgb(0x20), (0x20, 0x00, 0x00));
}

#[test]
fn frame_background_and_agents() {
    let mut params = Params::default();
    params.size_x = 4;
    params.size_y = 3;
    params.display_scale = 2;
    params.agent_size = 0;
    let data = ImageFrameData {
        sim_step: 0,
        generation: 0,
        indiv_locs: vec![Coord::new(0, 0)],
        indiv_colors: vec![0x20],
        barrier_locs: vec![Coord::new(1, 1)],
        signal_layers: Vec::new(),
    };
    let mut buf = frame_background(&data, &params);
    assert_eq!(buf.len(), 8 * 6);
    let mut grey = 0;
    for y in 0..6 {
        for x in 0..8 {
            let p = buf[y * 8 + x];
            let inside = (1..4).contains(&x) && (1..4).contains(&y);
            assert_eq!(p, if inside { BARRIER_GREY } else { WHITE });
            if p == BARRIER_GREY {
                grey += 1;
            }
        }
    }
    assert_eq!(grey, 9);
    draw_agents(&mut buf, &data, &params);
    // grid row 0 is the bottom: the agent at (0, 0) is drawn at pixel (0, 4)
    assert_eq!(buf[4 * 8], 0x20_00_00);
    assert_eq!(buf[5 * 8], WHITE);
}

#[test]
fn config_lines_and_parameters() {
    let mut pm = ParamManager::new();
    pm.set_defaults();
    match pm.process_config_line("population = 500 # people", 0) {
        ConfigLine::Param { name, value } => {
            assert_eq!(name, "population");
            assert_eq!(value, "500");
            assert_eq!(pm.ingest_parameter(&name, &value, &no_float()), IngestResult::Stored);
        },
        _ => panic!("expected a parameter"),
    }
    assert_eq!(pm.get_param_ref().population, 500);
    assert!(matches!(pm.process_config_line("# comment", 0), ConfigLine::Skip));
    assert!(matches!(pm.process_config_line("   ", 0), ConfigLine::Skip));
    assert!(matches!(pm.process_config_line("sizex@5 = 10", 0), ConfigLine::Skip));
    assert!(matches!(pm.process_config_line("sizex@x = 10", 0), ConfigLine::InvalidGenerationSpecifier(_)));
    assert_eq!(pm.ingest_parameter("population", "many", &no_float()), IngestResult::Invalid);
    assert_eq!(pm.ingest_parameter("nosuchname", "1", &no_float()), IngestResult::Invalid);
    assert_eq!(
        pm.ingest_parameter("displaychallengeareacolor", "1,2", &no_float()),
        IngestResult::InvalidColorFormat
    );
    assert_eq!(
        pm.ingest_parameter("displaychallengeareacolor", "1,2,300", &no_float()),
        IngestResult::InvalidColorValues
    );
    assert_eq!(pm.ingest_parameter("displaychallengeareacolor", "1,2,3", &no_float()), IngestResult::Stored);
    assert_eq!(pm.get_param_ref().display_challenge_area_b, 3);
    let half = FloatValue {
        parsed: true,
        nonnegative: true,
        positive: true,
        at_most_one: true,
        threshold: 2147483584,
        radius_num: 1,
        radius_den: 2,
    };
    assert_eq!(pm.ingest_parameter("pointmutationrate", "0.5", &half), IngestResult::Stored);
    assert_eq!(pm.get_param_ref().point_mutation_threshold, 2147483584);
}

#[test]
fn seeded_generators_repeat() {
    let mut a = RandomUintGenerator::new();
    let mut b = RandomUintGenerator::new();
    a.initialize(true, 42, 0);
    b.initialize(true, 42, 0);
    for _ in 0..100 {
        assert_eq!(a.next(), b.next());
    }
    for _ in 0..100 {
        let r = a.next_range(1, 10);
        assert!((1..=10).contains(&r));
    }
    // a random seed still gives a working generator
    let mut c = RandomUintGenerator::new();
    c.initialize(false, 0, 0);
    let _ = c.next();
}

#[test]
fn draw_thresholds_as_probabilities() {
    let mut g = RandomUintGenerator::new();
    g.initialize(true, 7, 0);
    for _ in 0..50 {
        assert!(!prob2bool(&mut g, 0));
        assert!(prob2bool(&mut g, 0x1_0000_0000));
    }
    // the threshold of 0.5 matches single precision: u as f32 / u32::MAX as f32 < 0.5
    let t: u64 = 2147483584;
    for u in [t - 1, t, t + 200, 0, u32::MAX as u64] {
        let below = u < t;
        let float_below = ((u as u32) as f32 / (u32::MAX as f32)) < 0.5f32;
        assert_eq!(below, float_below);
    }
}

#[test]
fn simulation_loop_decisions() {
    assert!(generation_continues(&RunMode::Run, 0, 10));
    assert!(!generation_continues(&RunMode::Run, 10, 10));
    assert!(!generation_continues(&RunMode::Stop, 0, 10));
    let mut params = Params::default();
    params.genome_analysis_stride = 25;
    assert_eq!(after_generation(50, 10, &params), (51, true));
    assert_eq!(after_generation(51, 10, &params), (52, false));
    assert_eq!(after_generation(50, 0, &params), (0, false));
    assert_eq!(add_murders(u32::MAX, 2), 1);
    assert_eq!(add_murders(3, 4), 7);
}

#[test]
fn ranking_is_stable_and_descending() {
    let items: Vec<(u16, u64)> = vec![(1, 5), (2, 9), (3, 5), (4, 0), (5, 9)];
    let r = rank_descending(&items);
    assert_eq!(r, vec![(2, 9), (5, 9), (1, 5), (3, 5), (4, 0)]);
    assert!(rank_descending(&Vec::new()).is_empty());
}

#[test]
fn sacrifices_save_their_kin() {
    let mut peeps = Peeps::new();
    peeps.init(3);
    let g1 = vec![neuron_gene(0, 1, 8192), neuron_gene(1, 2, 100)];
    let g2 = vec![neuron_gene(7, 8, -8192), neuron_gene(9, 9, 5)];
    peeps.individuals[1].genome = g1.clone();
    peeps.individuals[2].genome = g2;
    peeps.individuals[3].genome = g1;
    let mut params = Params::default();
    params.genome_comparison_method = 0;
    let mut rng = RandomUintGenerator::new();
    rng.initialize(true, 3, 0);
    // whatever survivor the search starts at, it finds the identical genome
    assert_eq!(surviving_kin(&[1], &[2, 3], 2, &peeps, &params, 7, 10, &mut rng), vec![3, 3]);
    // without a similar survivor nobody is saved
    assert!(surviving_kin(&[2], &[1, 3], 1, &peeps, &params, 7, 10, &mut rng).is_empty());
    // without sacrifices nothing is drawn
    assert!(surviving_kin(&[], &[], 3, &peeps, &params, 7, 10, &mut rng).is_empty());
}

#[test]
fn default_parameters_name_their_directories() {
    let pm = ParamManager::new();
    let p = pm.get_param_ref();
    assert_eq!(p.log_dir, "./logs/");
    assert_eq!(p.image_dir, "./images/");
    assert_eq!(p.graph_log_update_command, "/usr/bin/gnuplot --persist ./tools/graphlog.gp");
    assert!(pm.config_filename().is_empty());
}

#[test]
fn test_phase6_species_stats_update() {
    let gene = neuron_gene(0, 1, 8192);
    let genome = vec![gene];
    let mut species = Species::new(1, genome, 0);
    // The best fitness is a float the program keeps beside the species.
    let mut best_fitness = 0.0f32;
    assert_eq!(best_fitness, 0.0);
    assert_eq!(species.stagnation, 0);

    let fitness = 5.0f32;
    let improved = fitness > best_fitness;
    if improved {
        best_fitness = fitness;
    }
    update_species_stats(&mut species, 1, improved);
    assert_eq!(best_fitness, 5.0);
    assert_eq!(species.stagnation, 0, "Stagnation should reset on improvement");

    let fitness = 3.0f32;
    let improved = fitness > best_fitness;
    if improved {
        best_fitness = fitness;
    }
    update_species_stats(&mut species, 2, improved);
    assert_eq!(best_fitness, 5.0, "Best fitness should not decrease");
    assert_eq!(species.stagnation, 1, "Stagnation should increment");
}

#[test]
fn the_last_species_is_never_culled() {
    let mut a = Species::new(1, vec![neuron_gene(0, 1, 1)], 0);
    a.stagnation = 6;
    let mut b = Species::new(2, vec![neuron_gene(1, 2, 1)], 0);
    b.stagnation = 6;
    b.members = vec![3];
    let mut list = vec![a, b];
    let orphans = cull_stagnant_species(&mut list, 5, 2);
    assert_eq!(list.len(), 1);
    assert_eq!(list[0].id, 2);
    assert!(orphans.is_empty());
}
