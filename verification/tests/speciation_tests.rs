use std::collections::HashMap;
use biosimrust::genome_neurons::{Gene, NEURON};
use biosimrust::speciation::{
    compatibility_counts, genetic_compatibility_distance, is_compatible, limit_species_size,
    CompatibilityWeights, Distance, Species,
};

fn gene(source_num: u8, sink_num: u8, weight: i16) -> Gene {
    Gene { source_type: NEURON, source_num, sink_type: NEURON, sink_num, weight }
}

fn test_weights() -> CompatibilityWeights {
    CompatibilityWeights { excess_milli: 1000, disjoint_milli: 1000, weight_milli: 400, threshold_milli: 500 }
}

fn value(d: Distance) -> f64 {
    d.num as f64 / d.den as f64
}

#[test]
fn test_compatibility_distance_identical() {
    let g = gene(0, 1, 8192);
    let genome1 = vec![g];
    let genome2 = vec![g];
    let distance = value(genetic_compatibility_distance(&genome1, &genome2, &test_weights()));
    assert!(distance < 0.0001);
}

#[test]
fn test_compatibility_distance_excess_genes() {
    let gene1 = gene(0, 1, 8192);
    let gene2 = gene(1, 2, 8192);
    let genome1 = vec![gene1];
    let genome2 = vec![gene1, gene2];
    let distance = value(genetic_compatibility_distance(&genome1, &genome2, &test_weights()));
    assert!(distance > 0.4 && distance < 0.6);
}

#[test]
fn test_compatibility_distance_disjoint_genes() {
    let genome1 = vec![gene(0, 1, 8192)];
    let genome2 = vec![gene(1, 2, 8192)];
    let distance = value(genetic_compatibility_distance(&genome1, &genome2, &test_weights()));
    assert!(distance > 0.9 && distance < 1.1);
}

#[test]
fn test_compatibility_distance_weight_difference() {
    let genome1 = vec![gene(0, 1, 8192)];
    let genome2 = vec![gene(0, 1, 16384)];
    let distance = value(genetic_compatibility_distance(&genome1, &genome2, &test_weights()));
    assert!(distance > 0.35 && distance < 0.45);
}

#[test]
fn test_phase6_compatibility_distance_identical() {
    let g = gene(0, 1, 8192);
    let genome1 = vec![g];
    let genome2 = vec![g];
    let distance = value(genetic_compatibility_distance(&genome1, &genome2, &test_weights()));
    assert!(distance < 0.0001, "Identical genomes should have distance near 0, got {}", distance);
}

#[test]
fn test_phase6_compatibility_distance_excess_genes() {
    let gene1 = gene(0, 1, 8192);
    let gene2 = gene(1, 2, 8192);
    let genome1 = vec![gene1];
    let genome2 = vec![gene1, gene2];
    let distance = value(genetic_compatibility_distance(&genome1, &genome2, &test_weights()));
    assert!(distance > 0.4 && distance < 0.6, "Expected distance ~0.5 for excess genes, got {}", distance);
}

#[test]
fn compatibility_distances_are_exact_fractions() {
    let w = test_weights();
    // One excess gene of two: 1 * 1 / 2.
    let d = genetic_compatibility_distance(&vec![gene(0, 1, 8192)], &vec![gene(0, 1, 8192), gene(1, 2, 8192)], &w);
    assert_eq!(d.num * 2, d.den);
    // Weights 1.0 and 2.0 on one pair: 0.4 * 1.0.
    let d = genetic_compatibility_distance(&vec![gene(0, 1, 8192)], &vec![gene(0, 1, 16384)], &w);
    assert_eq!(d.num * 10, d.den * 4);
    // One genome empty: the excess coefficient alone.
    let d = genetic_compatibility_distance(&vec![], &vec![gene(0, 1, 1), gene(1, 2, 2)], &w);
    assert_eq!((d.num, d.den), (2000, 2000));
    // Both empty: 0.
    let d = genetic_compatibility_distance(&vec![], &vec![], &w);
    assert_eq!((d.num, d.den), (0, 1));
    // Disjoint and weight terms together: D = 1 of N = 2, W = (8192 / 8192) / 1.
    let a = vec![gene(0, 1, 0), gene(3, 4, 0)];
    let b = vec![gene(0, 1, 8192), gene(5, 6, 0)];
    let d = genetic_compatibility_distance(&a, &b, &w);
    // 1 * 1 / 2 + 0.4 * 1 = 0.9
    assert_eq!(d.num * 10, d.den * 9);
}

#[test]
fn compatibility_is_distance_within_threshold() {
    let a = vec![gene(0, 1, 0), gene(3, 4, 0)];
    let b = vec![gene(0, 1, 8192), gene(5, 6, 0)];
    for t in [0u32, 500, 899, 900, 901, 2000] {
        let w = CompatibilityWeights { threshold_milli: t, ..test_weights() };
        let d = genetic_compatibility_distance(&a, &b, &w);
        let c = compatibility_counts(&a, &b);
        assert_eq!(is_compatible(&c, &w), d.num * 1000 <= t as u128 * d.den);
        assert_eq!(is_compatible(&c, &w), t >= 900);
    }
}

#[test]
fn test_phase6_limit_species_size() {
    let max_species_size = 3;
    let genome = vec![gene(0, 1, 8192)];
    let mut species = Species::new(1, genome, 0);
    species.members = vec![1, 2, 3, 4, 5];
    let key = |f: f32| f.to_bits() as u64;
    let mut fitness_map: HashMap<u16, u64> = HashMap::new();
    fitness_map.insert(1, key(10.0));
    fitness_map.insert(2, key(8.0));
    fitness_map.insert(3, key(6.0));
    fitness_map.insert(4, key(4.0));
    fitness_map.insert(5, key(2.0));
    limit_species_size(&mut species, &fitness_map, key(0.0), max_species_size);
    assert_eq!(species.members.len(), 3, "Species should be limited to max_species_size");
    assert!(species.members.contains(&1));
    assert!(species.members.contains(&2));
    assert!(species.members.contains(&3));
}

#[test]
fn species_limits_keep_order_and_unscored_members_last() {
    let mut species = Species::new(7, vec![gene(0, 1, 1)], 3);
    species.members = vec![9, 4, 6, 2];
    let mut scores: HashMap<u16, u64> = HashMap::new();
    scores.insert(4, 5);
    scores.insert(6, 7);
    scores.insert(2, 5);
    limit_species_size(&mut species, &scores, 0, 3);
    // 6 scores 7; 4 and 2 tie at 5 and keep their order; 9 has none.
    assert_eq!(species.members, vec![6, 4, 2]);
    assert_eq!(species.id, 7);
    let mut small = Species::new(8, vec![], 0);
    small.members = vec![3, 1];
    limit_species_size(&mut small, &scores, 0, 2);
    assert_eq!(small.members, vec![3, 1]);
}
