use biosimrust::basic_types::Coord;
use biosimrust::genome_compare::{
    genome_similarity_ratio, hamming_distance_bits, hamming_distance_bytes, jaro_winkler_distance,
    similarity_ratio, SimilarityCounts,
};
use biosimrust::genome_neurons::{Gene, Genome, ACTION, NEURON, SENSOR};
use biosimrust::grid::visit_neighborhood;
use biosimrust::indiv::Indiv;
use biosimrust::neural_net::{create_wiring_from_genome, NeuralNet};
use biosimrust::params::Params;

fn similarity(g1: &Genome, g2: &Genome, params: &Params) -> f32 {
    let (r, _) = genome_similarity_ratio(g1, g2, params);
    r.num as f32 / r.den as f32
}

fn jaro(g1: &Genome, g2: &Genome) -> f32 {
    let r = similarity_ratio(SimilarityCounts::Jaro(jaro_winkler_distance(g1, g2)));
    r.num as f32 / r.den as f32
}

fn patterned(n: usize) -> Genome {
    let mut g: Genome = Vec::new();
    for i in 0..n {
        g.push(Gene {
            source_type: SENSOR,
            source_num: (i % 5) as u8,
            sink_type: NEURON,
            sink_num: (i % 3) as u8,
            weight: (i as i32 * 1000) as i16,
        });
    }
    g
}

#[test]
fn test_connect_neural_net_wiring_from_genome() {
    let mut indiv = Indiv::new();
    let params = Params::default();
    let genome: Genome = vec![
        Gene { source_type: SENSOR, source_num: 0, sink_type: NEURON, sink_num: 0, weight: 0 },
        Gene { source_type: SENSOR, source_num: 1, sink_type: NEURON, sink_num: 2, weight: 2200 },
        Gene { source_type: NEURON, source_num: 0, sink_type: ACTION, sink_num: 1, weight: 11000 },
    ];
    indiv.genome = genome;
    create_wiring_from_genome(&mut indiv.nnet, &indiv.genome, &params);
    assert!(!indiv.nnet.connections.is_empty(), "Expected at least one connection");
    for conn in &indiv.nnet.connections {
        let source_type_str = if conn.source_type == SENSOR { "SENSOR" } else { "NEURON" };
        let sink_type_str = if conn.sink_type == ACTION { "ACTION" } else { "NEURON" };
        println!(
            "{} {} -> {} {} at {}",
            source_type_str, conn.source_num, sink_type_str, conn.sink_num, conn.weight
        );
    }
}

#[test]
fn wiring_keeps_fed_neurons_and_drops_dead_ends() {
    let params = Params::default();
    // sensor 1 -> neuron 2 feeds nothing, so neuron 2 and its input go away
    let genome: Genome = vec![
        Gene { source_type: SENSOR, source_num: 0, sink_type: NEURON, sink_num: 0, weight: 0 },
        Gene { source_type: SENSOR, source_num: 1, sink_type: NEURON, sink_num: 2, weight: 2200 },
        Gene { source_type: NEURON, source_num: 0, sink_type: ACTION, sink_num: 1, weight: 11000 },
    ];
    let mut nnet = NeuralNet { connections: Vec::new(), neurons: Vec::new() };
    create_wiring_from_genome(&mut nnet, &genome, &params);
    assert_eq!(nnet.neurons.len(), 1);
    assert!(nnet.neurons[0].driven);
    assert_eq!(nnet.connections.len(), 2);
    assert_eq!(nnet.connections[0].source_type, SENSOR);
    assert_eq!(nnet.connections[0].sink_type, NEURON);
    assert_eq!(nnet.connections[0].sink_num, 0);
    assert_eq!(nnet.connections[1].source_type, NEURON);
    assert_eq!(nnet.connections[1].sink_type, ACTION);
    assert_eq!(nnet.connections[1].sink_num, 1);
    assert_eq!(nnet.connections[1].weight, 11000);
}

#[test]
fn test_grid_visit_neighborhood() {
    let mut params = Params::default();
    params.size_x = 64;
    params.size_y = 64;
    // radii 1.0, 1.4, 1.5 and 2.0 as fractions
    let cases: [((i16, i16), (u64, u64)); 6] = [
        ((10, 10), (1, 1)),
        ((0, 0), (1, 1)),
        ((10, 10), (7, 5)),
        ((10, 10), (3, 2)),
        ((1, 1), (7, 5)),
        ((10, 10), (2, 1)),
    ];
    for ((x, y), (num, den)) in cases.iter() {
        let visited = visit_neighborhood(Coord::new(*x, *y), *num, *den, params.size_x, params.size_y);
        println!("Test loc {},{} radius {}/{}: {} locations", x, y, num, den, visited.len());
        assert!(!visited.is_empty());
    }
    let edge_x = (params.size_x - 1) as i16;
    let edge_y = (params.size_y - 1) as i16;
    let visited = visit_neighborhood(Coord::new(edge_x, edge_y), 2, 1, params.size_x, params.size_y);
    println!("Test loc {},{}, radius 2.0: {} locations", edge_x, edge_y, visited.len());
    assert!(!visited.is_empty());
    for loc in &visited {
        assert!(loc.x >= 0 && loc.x < params.size_x as i16);
        assert!(loc.y >= 0 && loc.y < params.size_y as i16);
    }
}

#[test]
fn neighborhood_sizes_from_the_readme() {
    // radius 1.0: the center and its four neighbors; 1.5: all eight
    assert_eq!(visit_neighborhood(Coord::new(10, 10), 1, 1, 64, 64).len(), 5);
    assert_eq!(visit_neighborhood(Coord::new(10, 10), 3, 2, 64, 64).len(), 9);
    assert_eq!(visit_neighborhood(Coord::new(10, 10), 2, 1, 64, 64).len(), 13);
    // clipped at the corner
    assert_eq!(visit_neighborhood(Coord::new(0, 0), 3, 2, 64, 64).len(), 4);
    let v = visit_neighborhood(Coord::new(10, 10), 1, 1, 64, 64);
    assert!(v.contains(&Coord::new(10, 10)));
    assert!(v.contains(&Coord::new(11, 10)));
    assert!(!v.contains(&Coord::new(11, 11)));
}

#[test]
fn test_jaro_winkler_unequal_lengths() {
    let genome1 = patterned(10);
    let genome2 = patterned(15);
    let similarity = jaro(&genome1, &genome2);
    println!("Similarity between 10-gene and 15-gene genomes: {}", similarity);
    assert!(similarity > 0.5, "Expected high similarity for overlapping genomes");
    assert!(similarity <= 1.0, "Similarity should not exceed 1.0");
}

#[test]
fn test_jaro_winkler_prefix_bonus() {
    let mut genome1: Genome = Vec::new();
    let mut genome2: Genome = Vec::new();
    for i in 0..4 {
        let gene = Gene {
            source_type: SENSOR,
            source_num: i as u8,
            sink_type: NEURON,
            sink_num: i as u8,
            weight: (i as i32 * 1000) as i16,
        };
        genome1.push(gene);
        genome2.push(gene);
    }
    for i in 4..10 {
        genome1.push(Gene {
            source_type: SENSOR,
            source_num: i as u8,
            sink_type: NEURON,
            sink_num: i as u8,
            weight: (i as i32 * 1000) as i16,
        });
        genome2.push(Gene {
            source_type: SENSOR,
            source_num: (i + 10) as u8,
            sink_type: NEURON,
            sink_num: (i + 10) as u8,
            weight: ((i + 10) as i32 * 1000) as i16,
        });
    }
    let similarity = jaro(&genome1, &genome2);
    println!("Similarity with 4 matching prefix genes: {}", similarity);
    assert!(similarity > 0.0, "Similarity should be positive");
    assert!(similarity <= 1.0, "Similarity should not exceed 1.0");
}

#[test]
fn jaro_winkler_exact_fraction() {
    // 4 of 10 genes match in place: dw = (0.4 + 0.4 + 1) / 3 = 0.6, and
    // the prefix bonus adds 0.4 * 0.4: 0.76
    let mut genome1: Genome = Vec::new();
    let mut genome2: Genome = Vec::new();
    for i in 0..10 {
        let g = Gene { source_type: SENSOR, source_num: i as u8, sink_type: NEURON, sink_num: 0, weight: 0 };
        genome1.push(g);
        if i < 4 {
            genome2.push(g);
        } else {
            genome2.push(Gene { source_num: (i + 100) as u8, ..g });
        }
    }
    let c = jaro_winkler_distance(&genome1, &genome2);
    assert_eq!(c.matches, 4);
    assert_eq!(c.transpositions, 0);
    assert_eq!(c.matching_prefix, 4);
    let r = similarity_ratio(SimilarityCounts::Jaro(c));
    assert_eq!(r.num * 100, r.den * 76);
}

#[test]
fn test_genome_similarity_length_penalty() {
    let mut params = Params::default();
    params.genome_comparison_method = 0;
    let genome1 = patterned(10);
    let genome2 = patterned(50);
    let similarity = similarity(&genome1, &genome2, &params);
    println!("Similarity between 10-gene and 50-gene genomes: {}", similarity);
    assert!(similarity < 1.0, "Similarity should be penalized for large length differences");
    assert!(similarity > 0.0, "Similarity should still be positive");
    let genome3 = patterned(12);
    let similarity2 = self::similarity(&genome1, &genome3, &params);
    println!("Similarity between 10-gene and 12-gene genomes: {}", similarity2);
    assert!(similarity2 > similarity, "Similarity should be higher for genomes with closer lengths");
}

#[test]
fn test_genome_similarity_equal_lengths() {
    let mut params = Params::default();
    params.genome_comparison_method = 0;
    let genome1 = patterned(10);
    let genome2 = patterned(10);
    let similarity = similarity(&genome1, &genome2, &params);
    println!("Similarity between identical 10-gene genomes: {}", similarity);
    assert!(similarity > 0.9, "Identical genomes should have very high similarity");
    assert!(similarity <= 1.0, "Similarity should not exceed 1.0");
}

#[test]
fn test_genome_similarity_completely_different() {
    let mut params = Params::default();
    params.genome_comparison_method = 0;
    let mut genome1: Genome = Vec::new();
    let mut genome2: Genome = Vec::new();
    for i in 0..10 {
        genome1.push(Gene {
            source_type: SENSOR,
            source_num: i as u8,
            sink_type: NEURON,
            sink_num: i as u8,
            weight: (i as i32 * 1000) as i16,
        });
    }
    for i in 100..110 {
        genome2.push(Gene {
            source_type: SENSOR,
            source_num: (i % 256) as u8,
            sink_type: NEURON,
            sink_num: (i % 256) as u8,
            weight: (i as i32 * 1000) as i16,
        });
    }
    let similarity = similarity(&genome1, &genome2, &params);
    println!("Similarity between completely different genomes: {}", similarity);
    assert!(similarity < 0.5, "Completely different genomes should have low similarity");
    assert!(similarity >= 0.0, "Similarity should not be negative");
}

#[test]
fn test_genome_similarity_edge_cases() {
    let mut params = Params::default();
    params.genome_comparison_method = 0;
    let mut genome1: Genome = Vec::new();
    genome1.push(Gene { source_type: SENSOR, source_num: 0, sink_type: NEURON, sink_num: 0, weight: 0 });
    let genome2 = patterned(20);
    let similarity = similarity(&genome1, &genome2, &params);
    println!("Similarity between 1-gene and 20-gene genomes: {}", similarity);
    assert!(similarity >= 0.0 && similarity <= 1.0, "Similarity should be in valid range [0.0, 1.0]");
    let empty1: Genome = Vec::new();
    let empty2: Genome = Vec::new();
    let similarity_empty = self::similarity(&empty1, &empty2, &params);
    println!("Similarity between empty genomes: {}", similarity_empty);
    assert_eq!(similarity_empty, 0.0, "Empty genomes should have 0 similarity");
}

#[test]
fn test_no_length_penalty_phase1() {
    let mut params = Params::default();
    params.genome_comparison_method = 0;
    let genome1 = patterned(10);
    let genome2 = patterned(20);
    let similarity = similarity(&genome1, &genome2, &params);
    println!("Phase 1 Test: No length penalty (10 vs 20 genes): {}", similarity);
    assert!(similarity > 0.5, "Similarity should be high for overlapping genomes");
    assert!(similarity <= 1.0, "Similarity should not exceed 1.0");
    let mut genome3: Genome = genome1.clone();
    for i in 0..10 {
        genome3.push(genome1[i]);
    }
    let similarity_identical = self::similarity(&genome1, &genome3, &params);
    println!("Phase 1 Test: Identical content, different lengths (10 vs 20 genes): {}", similarity_identical);
    assert!(
        similarity_identical > 0.7,
        "Genomes with identical content should have high similarity regardless of length"
    );
}

#[test]
fn test_variable_length_genome_no_penalty_phase1() {
    let mut params = Params::default();
    params.genome_comparison_method = 0;
    let lengths = [10, 15, 20, 25, 30, 50, 100];
    let mut genomes: Vec<Genome> = Vec::new();
    for &length in lengths.iter() {
        let mut genome: Genome = Vec::new();
        for i in 0..length {
            genome.push(Gene {
                source_type: SENSOR,
                source_num: (i % 5) as u8,
                sink_type: NEURON,
                sink_num: (i % 3) as u8,
                weight: ((i as i32 * 1000) % 32767) as i16,
            });
        }
        genomes.push(genome);
    }
    let reference = &genomes[2];
    let mut similarities: Vec<(usize, f32)> = Vec::new();
    for (i, genome) in genomes.iter().enumerate() {
        let sim = similarity(reference, genome, &params);
        similarities.push((i, sim));
        println!(
            "Phase 1 Test: Reference (20 genes) vs genome {} ({} genes): similarity = {}",
            i, lengths[i], sim
        );
    }
    let ref_sim = similarities[2].1;
    assert_eq!(ref_sim, 1.0, "Genome should have similarity of 1.0 with itself");
    for (i, (_, sim)) in similarities.iter().enumerate() {
        assert!(*sim >= 0.0 && *sim <= 1.0, "Similarity {} for genome {} should be in range [0.0, 1.0]", sim, i);
    }
    assert!(similarities[1].1 > 0.0, "15-gene genome should have some similarity with 20-gene reference");
    assert!(similarities[3].1 > 0.0, "25-gene genome should have some similarity with 20-gene reference");
}

#[test]
fn test_phase1_duplicate_connections_persist() {
    let mut params = Params::default();
    params.allow_duplicate_connections = true;
    let genome: Genome = vec![
        Gene { source_type: SENSOR, source_num: 0, sink_type: NEURON, sink_num: 0, weight: 1000 },
        Gene { source_type: SENSOR, source_num: 0, sink_type: NEURON, sink_num: 0, weight: 2000 },
        Gene { source_type: NEURON, source_num: 0, sink_type: ACTION, sink_num: 0, weight: 3000 },
        Gene { source_type: NEURON, source_num: 0, sink_type: ACTION, sink_num: 0, weight: 4000 },
    ];
    let mut nnet = NeuralNet { connections: Vec::new(), neurons: Vec::new() };
    create_wiring_from_genome(&mut nnet, &genome, &params);
    let mut neuron0_connections = 0;
    let mut action0_connections = 0;
    for conn in &nnet.connections {
        if conn.sink_type == NEURON && conn.sink_num == 0 {
            neuron0_connections += 1;
        }
        if conn.sink_type == ACTION && conn.sink_num == 0 {
            action0_connections += 1;
        }
    }
    assert!(neuron0_connections >= 1, "Should have at least one connection to neuron 0");
    assert!(action0_connections >= 1, "Should have at least one connection to action 0");
    println!("  Neuron 0 connections: {}", neuron0_connections);
    println!("  Action 0 connections: {}", action0_connections);
}

#[test]
fn duplicate_connections_merge_by_default() {
    let params = Params::default();
    let genome: Genome = vec![
        Gene { source_type: SENSOR, source_num: 0, sink_type: NEURON, sink_num: 0, weight: 1000 },
        Gene { source_type: SENSOR, source_num: 0, sink_type: NEURON, sink_num: 0, weight: 2000 },
        Gene { source_type: NEURON, source_num: 0, sink_type: ACTION, sink_num: 0, weight: 3000 },
        Gene { source_type: NEURON, source_num: 0, sink_type: ACTION, sink_num: 0, weight: 4000 },
    ];
    let mut nnet = NeuralNet { connections: Vec::new(), neurons: Vec::new() };
    create_wiring_from_genome(&mut nnet, &genome, &params);
    assert_eq!(nnet.connections.len(), 2);
    let mut dup = Params::default();
    dup.allow_duplicate_connections = true;
    let mut nnet2 = NeuralNet { connections: Vec::new(), neurons: Vec::new() };
    create_wiring_from_genome(&mut nnet2, &genome, &dup);
    assert_eq!(nnet2.connections.len(), 4);
}

#[test]
fn test_phase1_genome_similarity_no_length_penalty() {
    let mut params = Params::default();
    params.genome_comparison_method = 0;
    let genome1 = patterned(10);
    let genome2 = patterned(15);
    let similarity = similarity(&genome1, &genome2, &params);
    println!("Phase 1 Test: Genome similarity (10 vs 15 genes): {}", similarity);
    assert!(similarity > 0.0, "Similarity should be positive");
    assert!(similarity <= 1.0, "Similarity should not exceed 1.0");
}

#[test]
fn hamming_counts_and_self_similarity() {
    let g1 = patterned(4);
    let mut g2 = patterned(4);
    g2[0].weight = 1; // one bit differs from weight 0
    let bits = hamming_distance_bits(&g1, &g2);
    assert_eq!(bits.count, 1);
    assert_eq!(bits.total, 4 * 48);
    let bytes = hamming_distance_bytes(&g1, &g2);
    assert_eq!(bytes.count, 4 * 6 - 1);
    assert_eq!(bytes.total, 4 * 6);
    for method in 0..4u32 {
        let mut params = Params::default();
        params.genome_comparison_method = method;
        assert_eq!(similarity(&g1, &g1, &params), 1.0);
    }
    let mut params = Params::default();
    params.genome_comparison_method = 1;
    let r = similarity_ratio(SimilarityCounts::Bits(bits));
    assert_eq!((r.num, r.den), (192 - 2, 192));
    params.genome_comparison_method = 7;
    let (_, flagged) = genome_similarity_ratio(&g1, &g2, &params);
    assert!(flagged);
}
