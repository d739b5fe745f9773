use biosimrust::multi_objective::{non_dominated_sort, nsga2_selection, ObjectiveKeys};

fn keys(survival_score: f32, efficiency: f32, diversity_contribution: f32) -> ObjectiveKeys {
    ObjectiveKeys {
        survival: survival_score.to_bits() as u64,
        efficiency: efficiency.to_bits() as u64,
        diversity: diversity_contribution.to_bits() as u64,
    }
}

#[test]
fn test_phase5_pareto_dominance() {
    let obj1 = keys(0.8, 0.7, 0.6);
    let obj2 = keys(0.6, 0.5, 0.4);
    assert!(obj1.dominates(&obj2), "obj1 should dominate obj2");
    assert!(!obj2.dominates(&obj1), "obj2 should not dominate obj1");
    let obj3 = keys(0.9, 0.4, 0.3);
    assert!(!obj1.dominates(&obj3), "obj1 should not dominate obj3 (obj3 has better survival)");
    assert!(!obj3.dominates(&obj1), "obj3 should not dominate obj1 (obj1 has better efficiency and diversity)");
}

#[test]
fn test_phase5_non_dominated_sorting() {
    let individuals = vec![keys(0.9, 0.8, 0.7), keys(0.6, 0.5, 0.4), keys(0.7, 0.9, 0.3)];
    let (fronts, ranks) = non_dominated_sort(&individuals);
    assert!(!fronts.is_empty(), "Should have at least one front");
    assert!(fronts[0].contains(&0), "Best solution should be in first front");
    assert_eq!(ranks[0], 0, "Best solution should have rank 0");
}

#[test]
fn test_phase5_nsga2_selection() {
    let individuals = vec![keys(0.9, 0.8, 0.7), keys(0.6, 0.9, 0.5), keys(0.5, 0.4, 0.9)];
    let (fronts, _) = non_dominated_sort(&individuals);
    let inf = f32::INFINITY.to_bits() as u64;
    let crowding = vec![inf, inf, inf];
    let selected = nsga2_selection(&fronts, &crowding, 2);
    assert_eq!(selected.len(), 2, "Should select requested number of parents");
    for &idx in &selected {
        assert!(idx < individuals.len(), "Selected index should be valid");
    }
}

#[test]
fn fronts_peel_off_the_dominated() {
    // 0 dominates 1 and 2; 1 dominates 3; 2 and 1 are incomparable; 4 stands alone.
    let objs = vec![
        ObjectiveKeys { survival: 9, efficiency: 9, diversity: 9 },
        ObjectiveKeys { survival: 5, efficiency: 7, diversity: 5 },
        ObjectiveKeys { survival: 7, efficiency: 5, diversity: 5 },
        ObjectiveKeys { survival: 4, efficiency: 6, diversity: 5 },
        ObjectiveKeys { survival: 1, efficiency: 1, diversity: 10 },
    ];
    let (fronts, ranks) = non_dominated_sort(&objs);
    assert_eq!(fronts, vec![vec![0, 4], vec![1, 2], vec![3]]);
    assert_eq!(ranks, vec![0, 1, 1, 2, 0]);
    // Equal objectives dominate neither way.
    let same = vec![objs[1], objs[1]];
    assert_eq!(non_dominated_sort(&same).0, vec![vec![0, 1]]);
    assert!(non_dominated_sort(&Vec::new()).0.is_empty());
}

#[test]
fn selection_fills_whole_fronts_then_the_most_isolated() {
    let fronts = vec![vec![0, 4], vec![1, 2, 5], vec![3]];
    let crowding = vec![0, 3, 8, 1, 0, 8];
    // Front 0 fits; from front 1 the two most isolated, ties in front order.
    assert_eq!(nsga2_selection(&fronts, &crowding, 4), vec![0, 4, 2, 5]);
    assert_eq!(nsga2_selection(&fronts, &crowding, 6), vec![0, 4, 1, 2, 5, 3]);
    assert_eq!(nsga2_selection(&fronts, &crowding, 10), vec![0, 4, 1, 2, 5, 3]);
    assert_eq!(nsga2_selection(&fronts, &crowding, 0), Vec::<usize>::new());
}

#[test]
fn selection_from_sorted_fronts_picks_distinct_candidates() {
    let individuals = vec![
        keys(0.9, 0.1, 0.5),
        keys(0.2, 0.2, 0.2),
        keys(0.5, 0.5, 0.5),
        keys(0.1, 0.9, 0.3),
        keys(0.3, 0.3, 0.1),
        keys(0.6, 0.4, 0.9),
        keys(0.2, 0.2, 0.2),
    ];
    let (fronts, _ranks) = non_dominated_sort(&individuals);
    let crowding: Vec<u64> = vec![5, 1, 7, 3, 3, 9, 2];
    for wanted in 0..10usize {
        let selected = nsga2_selection(&fronts, &crowding, wanted);
        assert_eq!(selected.len(), wanted.min(individuals.len()));
        for (i, a) in selected.iter().enumerate() {
            assert!(*a < individuals.len());
            assert!(!selected[i + 1..].contains(a));
        }
    }
}
