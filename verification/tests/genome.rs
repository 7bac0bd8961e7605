use evolvim::genome::gene::{ConnectionGene, NodeGene, NodeType};
use evolvim::genome::mutation::{scale_weight, Mutation};
use evolvim::genome::recombination::Inheritance;
use evolvim::genome::{
    get_innovation_number, get_next_node_id, Genome, GenomeRegistry, AMOUNT_INPUT,
    AMOUNT_OUTPUT, WEIGHT_UNIT,
};

fn founder(weights: [i64; 6]) -> Genome {
    Genome::new_fully_linked_with(&weights.to_vec())
}

fn keep_own() -> Inheritance {
    Inheritance { from_secondary: false, disable: false }
}

#[test]
fn registry_starts_behind_the_founding_genome() {
    let registry = GenomeRegistry::new();
    assert_eq!(registry.last_innovation_number(), AMOUNT_INPUT * AMOUNT_OUTPUT);
    assert_eq!(registry.last_node_id(), AMOUNT_INPUT + AMOUNT_OUTPUT);
}

#[test]
fn innovation_numbers_ascend_and_never_repeat() {
    let mut registry = GenomeRegistry::new();
    let drawn: Vec<usize> = (0..50).map(|_| get_innovation_number(&mut registry)).collect();
    let expected: Vec<usize> = (7..57).collect();
    assert_eq!(drawn, expected);
    assert_eq!(registry.last_innovation_number(), 56);
    assert_eq!(registry.last_node_id(), 5);
}

#[test]
fn node_ids_ascend_and_never_repeat() {
    let mut registry = GenomeRegistry::new();
    assert_eq!(get_next_node_id(&mut registry), 6);
    assert_eq!(get_next_node_id(&mut registry), 7);
    assert_eq!(get_next_node_id(&mut registry), 8);
    assert_eq!(registry.last_innovation_number(), 6);
}

#[test]
fn innovation_numbers_ascend_across_genomes() {
    let mut registry = GenomeRegistry::new();
    let mut first = founder([0; 6]);
    let mut second = founder([0; 6]);
    first.add_connection(1, 4, 0, &mut registry);
    second.add_connection(2, 5, 0, &mut registry);
    first.split_connection(0, &mut registry);
    second.split_connection(1, &mut registry);
    let mut seen: Vec<usize> = first
        .get_connections()
        .iter()
        .chain(second.get_connections().iter())
        .map(|c| c.innovation_number)
        .filter(|n| *n > 6)
        .collect();
    assert_eq!(seen, vec![7, 9, 10, 8, 11, 12]);
    seen.sort();
    seen.dedup();
    assert_eq!(seen.len(), 6);
}

#[test]
fn new_fully_linked_with_links_every_sensor_to_every_output() {
    let genome = founder([10, 20, 30, 40, 50, 60]);
    let nodes = genome.get_nodes();
    assert_eq!(
        nodes,
        &vec![
            NodeGene { node_type: NodeType::Sensor, id: 1 },
            NodeGene { node_type: NodeType::Sensor, id: 2 },
            NodeGene { node_type: NodeType::Sensor, id: 3 },
            NodeGene { node_type: NodeType::Output, id: 4 },
            NodeGene { node_type: NodeType::Output, id: 5 },
        ]
    );
    let expected: Vec<ConnectionGene> = vec![
        (1, 4, 10, 1),
        (2, 4, 20, 2),
        (3, 4, 30, 3),
        (1, 5, 40, 4),
        (2, 5, 50, 5),
        (3, 5, 60, 6),
    ]
    .into_iter()
    .map(|(from, to, weight, innovation_number)| ConnectionGene {
        from,
        to,
        weight,
        enabled: true,
        innovation_number,
    })
    .collect();
    assert_eq!(genome.get_connections(), &expected);
}

#[test]
fn new_fully_linked_draws_weights_between_minus_one_and_one() {
    let mut all_equal = true;
    let mut first = None;
    for _ in 0..40 {
        let genome = Genome::new_fully_linked();
        assert_eq!(genome.get_nodes().len(), 5);
        assert_eq!(genome.get_connections().len(), 6);
        for (k, connection) in genome.get_connections().iter().enumerate() {
            assert!(-WEIGHT_UNIT <= connection.weight && connection.weight < WEIGHT_UNIT);
            assert_eq!(connection.innovation_number, k + 1);
            assert_eq!(connection.from, k % 3 + 1);
            assert_eq!(connection.to, 4 + k / 3);
            assert!(connection.enabled);
            if *first.get_or_insert(connection.weight) != connection.weight {
                all_equal = false;
            }
        }
    }
    assert!(!all_equal);
}

#[test]
fn random_places_stay_within_the_genome() {
    let genome = founder([0; 6]);
    let mut places = std::collections::BTreeSet::new();
    for _ in 0..200 {
        let place = genome.get_random_node_place();
        assert!(place < 5);
        places.insert(place);
        assert!(genome.get_random_connection_place() < 6);
        let id = genome.get_random_node_id();
        assert!((1..=5).contains(&id));
    }
    assert!(places.len() > 1);
}

#[test]
fn random_weight_multiplier_stays_in_its_band() {
    for _ in 0..200 {
        let factor = Genome::get_random_weight_multiplier();
        assert!(800_000 <= factor && factor < 1_200_000);
        let weight = Genome::get_random_weight();
        assert!(-1_000_000 <= weight && weight < 1_000_000);
    }
}

#[test]
fn add_node_appends() {
    let mut genome = founder([0; 6]);
    genome.add_node(NodeType::Hidden, 42);
    assert_eq!(genome.get_nodes().len(), 6);
    assert_eq!(genome.get_nodes()[5], NodeGene { node_type: NodeType::Hidden, id: 42 });
    assert_eq!(genome.get_connections().len(), 6);
}

#[test]
fn add_connection_takes_the_next_innovation_number() {
    let mut registry = GenomeRegistry::new();
    let mut genome = founder([0; 6]);
    genome.add_connection(1, 5, -5, &mut registry);
    assert_eq!(
        genome.get_connections()[6],
        ConnectionGene { from: 1, to: 5, weight: -5, enabled: true, innovation_number: 7 }
    );
    assert_eq!(registry.last_innovation_number(), 7);
}

#[test]
fn split_connection_puts_a_node_in_between() {
    let mut registry = GenomeRegistry::new();
    let mut genome = founder([10, 20, 30, 40, 50, 60]);
    genome.split_connection(4, &mut registry);
    assert_eq!(genome.get_nodes().len(), 6);
    assert_eq!(genome.get_nodes()[5], NodeGene { node_type: NodeType::Hidden, id: 6 });
    let connections = genome.get_connections();
    assert_eq!(connections.len(), 8);
    assert_eq!(
        connections[4],
        ConnectionGene { from: 2, to: 5, weight: 50, enabled: false, innovation_number: 5 }
    );
    assert_eq!(
        connections[6],
        ConnectionGene {
            from: 2,
            to: 6,
            weight: WEIGHT_UNIT,
            enabled: true,
            innovation_number: 7
        }
    );
    assert_eq!(
        connections[7],
        ConnectionGene { from: 6, to: 5, weight: 50, enabled: true, innovation_number: 8 }
    );
    assert_eq!(registry.last_innovation_number(), 8);
    assert_eq!(registry.last_node_id(), 6);
}

#[test]
fn mutate_add_node_splits_an_enabled_connection() {
    let mut registry = GenomeRegistry::new();
    let mut genome = founder([1, 2, 3, 4, 5, 6]);
    let place = genome.mutate_add_node(&mut registry).expect("all connections are enabled");
    assert!(place < 6);
    assert!(!genome.get_connections()[place].enabled);
    assert_eq!(genome.get_connections().len(), 8);
    assert_eq!(genome.get_nodes().len(), 6);
}

#[test]
fn mutate_add_node_leaves_an_empty_genome_alone() {
    let mut registry = GenomeRegistry::new();
    let mut bare = Genome::from_parts(founder([0; 6]).get_nodes().clone(), vec![]).unwrap();
    assert_eq!(bare.mutate_add_node(&mut registry), None);
    assert_eq!(registry.last_innovation_number(), 6);
    assert_eq!(registry.last_node_id(), 5);
    assert_eq!(bare.get_nodes().len(), 5);
    assert_eq!(bare.mutate_perturb_weight(), None);
    assert_eq!(bare.mutate_reset_weight(), None);
}

#[test]
fn can_link_follows_the_rules() {
    let mut registry = GenomeRegistry::new();
    let mut genome = founder([0; 6]);
    genome.split_connection(0, &mut registry);
    // 1 -> 6 -> 4 now exists beside the founding connections.
    assert!(genome.can_link(2, 6));
    assert!(genome.can_link(6, 5));
    assert!(!genome.can_link(1, 6), "already linked");
    assert!(!genome.can_link(6, 1), "linked the other way round");
    assert!(!genome.can_link(6, 6), "a node and itself");
    assert!(!genome.can_link(4, 6), "out of an output");
    assert!(!genome.can_link(6, 2), "into a sensor");
    assert!(!genome.can_link(1, 9), "no such node");
    assert!(!genome.can_link(9, 4), "no such node");
    assert!(!genome.can_link(1, 4), "already linked");
}

#[test]
fn link_adds_an_admissible_connection_only() {
    let mut registry = GenomeRegistry::new();
    let mut genome = founder([0; 6]);
    genome.split_connection(0, &mut registry);
    assert!(!genome.link(1, 4, 3, &mut registry));
    assert_eq!(genome.get_connections().len(), 8);
    assert_eq!(registry.last_innovation_number(), 8);
    assert!(genome.link(2, 6, 3, &mut registry));
    assert_eq!(
        genome.get_connections()[8],
        ConnectionGene { from: 2, to: 6, weight: 3, enabled: true, innovation_number: 9 }
    );
    assert_eq!(registry.last_innovation_number(), 9);
}

#[test]
fn mutate_add_connection_cannot_link_a_full_genome() {
    let mut registry = GenomeRegistry::new();
    let mut genome = founder([0; 6]);
    for _ in 0..50 {
        assert_eq!(genome.mutate_add_connection(&mut registry), None);
    }
    assert_eq!(genome.get_connections().len(), 6);
    assert_eq!(registry.last_innovation_number(), 6);
}

#[test]
fn mutate_add_connection_finds_a_free_pair() {
    let mut registry = GenomeRegistry::new();
    let mut genome = founder([0; 6]);
    genome.split_connection(0, &mut registry);
    let mut added = None;
    for _ in 0..10_000 {
        added = genome.mutate_add_connection(&mut registry);
        if added.is_some() {
            break;
        }
    }
    let added = added.expect("a free pair is drawn sooner or later");
    assert_eq!(added.innovation_number, 9);
    assert!(added.enabled);
    assert_eq!(genome.get_connections()[8], added);
    assert!(!genome.can_link(added.from, added.to));
}

#[test]
fn scale_weight_multiplies_in_fixed_point() {
    assert_eq!(scale_weight(500_000, 1_200_000), 600_000);
    assert_eq!(scale_weight(-500_000, 800_000), -400_000);
    assert_eq!(scale_weight(3, 500_000), 1);
    assert_eq!(scale_weight(-3, 500_000), -1);
    assert_eq!(scale_weight(0, 1_000_000), 0);
    assert_eq!(scale_weight(7, 0), 0);
    assert_eq!(scale_weight(i64::MAX, 1_200_000), i64::MAX);
    assert_eq!(scale_weight(i64::MIN, 1_200_000), -i64::MAX);
    assert_eq!(scale_weight(i64::MIN, 1_000_000), -i64::MAX);
}

#[test]
fn perturb_weight_changes_one_weight() {
    let mut genome = founder([100, 200, 300, 400, 500, 600]);
    genome.perturb_weight(2, 900_000);
    let weights: Vec<i64> = genome.get_connections().iter().map(|c| c.weight).collect();
    assert_eq!(weights, vec![100, 200, 270, 400, 500, 600]);
}

#[test]
fn reset_weight_replaces_one_weight() {
    let mut genome = founder([100, 200, 300, 400, 500, 600]);
    genome.reset_weight(5, -1);
    let weights: Vec<i64> = genome.get_connections().iter().map(|c| c.weight).collect();
    assert_eq!(weights, vec![100, 200, 300, 400, 500, -1]);
}

#[test]
fn mutate_perturb_weight_stays_in_the_band() {
    let mut genome = founder([1_000_000; 6]);
    let place = genome.mutate_perturb_weight().unwrap();
    for (k, connection) in genome.get_connections().iter().enumerate() {
        if k == place {
            assert!(800_000 <= connection.weight && connection.weight < 1_200_000);
        } else {
            assert_eq!(connection.weight, 1_000_000);
        }
    }
}

#[test]
fn mutate_reset_weight_draws_a_weight() {
    let mut genome = founder([5_000_000; 6]);
    let place = genome.mutate_reset_weight().unwrap();
    for (k, connection) in genome.get_connections().iter().enumerate() {
        if k == place {
            assert!(-1_000_000 <= connection.weight && connection.weight < 1_000_000);
        } else {
            assert_eq!(connection.weight, 5_000_000);
        }
    }
}

#[test]
fn find_connection_goes_by_the_innovation_number() {
    let genome = founder([10, 20, 30, 40, 50, 60]);
    assert_eq!(genome.find_connection(3).map(|c| c.weight), Some(30));
    assert_eq!(genome.find_connection(7), None);
    assert_eq!(genome.find_connection(0), None);
}

#[test]
fn crossover_with_of_founders_picks_weights_gene_by_gene() {
    let primary = founder([1, 2, 3, 4, 5, 6]);
    let secondary = founder([10, 20, 30, 40, 50, 60]);
    let rolls: Vec<Inheritance> = [false, true, true, false, true, false]
        .iter()
        .map(|s| Inheritance { from_secondary: *s, disable: true })
        .collect();
    let child = primary.crossover_with(&secondary, &rolls);
    assert_eq!(child.get_nodes(), primary.get_nodes());
    let weights: Vec<i64> = child.get_connections().iter().map(|c| c.weight).collect();
    assert_eq!(weights, vec![1, 20, 30, 4, 50, 6]);
    for (own, inherited) in primary.get_connections().iter().zip(child.get_connections()) {
        assert_eq!(own.from, inherited.from);
        assert_eq!(own.to, inherited.to);
        assert_eq!(own.innovation_number, inherited.innovation_number);
        assert!(inherited.enabled);
    }
}

#[test]
fn crossover_with_is_the_same_for_the_same_decisions() {
    let mut registry = GenomeRegistry::new();
    let mut primary = founder([1, 2, 3, 4, 5, 6]);
    let secondary = founder([10, 20, 30, 40, 50, 60]);
    primary.split_connection(2, &mut registry);
    let rolls: Vec<Inheritance> = (0..8)
        .map(|k| Inheritance { from_secondary: k % 2 == 0, disable: k % 3 == 0 })
        .collect();
    let first = primary.crossover_with(&secondary, &rolls);
    let second = primary.crossover_with(&secondary, &rolls);
    assert_eq!(first.get_nodes(), second.get_nodes());
    assert_eq!(first.get_connections(), second.get_connections());
}

#[test]
fn crossover_with_hands_down_genes_of_the_primary_parent_alone() {
    let mut registry = GenomeRegistry::new();
    let mut primary = founder([1, 2, 3, 4, 5, 6]);
    let mut secondary = founder([10, 20, 30, 40, 50, 60]);
    primary.split_connection(0, &mut registry);
    secondary.split_connection(5, &mut registry);
    let rolls = vec![Inheritance { from_secondary: true, disable: true }; 8];
    let child = primary.crossover_with(&secondary, &rolls);
    assert_eq!(child.get_nodes(), primary.get_nodes());
    let connections = child.get_connections();
    assert_eq!(connections.len(), 8);
    // Disabled in the primary parent, and the decision is to disable.
    assert_eq!(
        connections[0],
        ConnectionGene { from: 1, to: 4, weight: 10, enabled: false, innovation_number: 1 }
    );
    // Disabled in the secondary parent.
    assert_eq!(
        connections[5],
        ConnectionGene { from: 3, to: 5, weight: 60, enabled: false, innovation_number: 6 }
    );
    // Genes that the secondary parent lacks.
    assert_eq!(connections[6], primary.get_connections()[6]);
    assert_eq!(connections[7], primary.get_connections()[7]);
    // Every connection joins nodes of the child.
    for connection in connections {
        assert!(child.has_node(connection.from));
        assert!(child.has_node(connection.to));
    }
}

#[test]
fn crossover_with_may_keep_a_disabled_gene_enabled() {
    let mut registry = GenomeRegistry::new();
    let mut primary = founder([1, 2, 3, 4, 5, 6]);
    let secondary = founder([10, 20, 30, 40, 50, 60]);
    primary.split_connection(0, &mut registry);
    let child = primary.crossover_with(&secondary, &vec![keep_own(); 8]);
    assert!(child.get_connections()[0].enabled);
    assert_eq!(child.get_connections()[0].weight, 1);
}

#[test]
fn crossover_of_founders_keeps_the_structure() {
    for _ in 0..20 {
        let primary = Genome::new_fully_linked();
        let secondary = Genome::new_fully_linked();
        let child = primary.crossover(&secondary);
        assert_eq!(child.get_nodes(), primary.get_nodes());
        assert_eq!(child.get_connections().len(), 6);
        for (k, connection) in child.get_connections().iter().enumerate() {
            assert!(child.has_node(connection.from));
            assert!(child.has_node(connection.to));
            assert!(connection.enabled);
            let own = primary.get_connections()[k].weight;
            let other = secondary.get_connections()[k].weight;
            assert!(connection.weight == own || connection.weight == other);
        }
    }
}

#[test]
fn crossover_takes_weights_from_both_parents() {
    let primary = founder([1; 6]);
    let secondary = founder([2; 6]);
    let mut seen = std::collections::BTreeSet::new();
    for _ in 0..100 {
        for connection in primary.crossover(&secondary).get_connections() {
            seen.insert(connection.weight);
        }
    }
    assert_eq!(seen.into_iter().collect::<Vec<i64>>(), vec![1, 2]);
}

#[test]
fn compare_counts_matching_and_unmatched_genes() {
    let mut registry = GenomeRegistry::new();
    let mut first = founder([0, 0, 0, 0, 0, 0]);
    let mut second = founder([100, -100, 0, 0, 0, 50]);
    first.split_connection(0, &mut registry);
    second.add_connection(1, 5, 0, &mut registry);
    let counts = first.compare(&second);
    assert_eq!(counts.matching, 6);
    assert_eq!(counts.unmatched, 3);
    assert_eq!(counts.weight_gap, 250);
    assert_eq!(counts.larger, 8);
    let back = second.compare(&first);
    assert_eq!(back.matching, 6);
    assert_eq!(back.unmatched, 3);
    assert_eq!(back.weight_gap, 250);
    assert_eq!(back.larger, 8);
}

#[test]
fn species_distance_weighs_structure_and_weights() {
    let mut registry = GenomeRegistry::new();
    let mut first = founder([0, 0, 0, 0, 0, 0]);
    let second = founder([600_000, 600_000, 0, 0, 0, 0]);
    first.split_connection(0, &mut registry);
    // Two of eight genes unmatched; mean weight distance 0.2.
    assert_eq!(first.species_distance(&second, 1_000_000, 0), 250_000);
    assert_eq!(first.species_distance(&second, 0, 1_000_000), 200_000);
    assert_eq!(first.species_distance(&second, 1_000_000, 400_000), 330_000);
    assert_eq!(first.species_distance(&first, 1_000_000, 1_000_000), 0);
}

#[test]
fn species_distance_of_empty_genomes_is_zero() {
    let empty = Genome::from_parts(vec![], vec![]).unwrap();
    assert_eq!(empty.species_distance(&empty, 1_000_000, 1_000_000), 0);
    let full = founder([5; 6]);
    assert_eq!(empty.species_distance(&full, 1_000_000, 1_000_000), 1_000_000);
    assert_eq!(full.compare(&empty).matching, 0);
}

#[test]
fn from_parts_refuses_a_connection_into_nowhere() {
    let nodes = vec![
        NodeGene { node_type: NodeType::Sensor, id: 1 },
        NodeGene { node_type: NodeType::Output, id: 2 },
    ];
    let good =
        ConnectionGene { from: 1, to: 2, weight: 0, enabled: true, innovation_number: 1 };
    let dangling =
        ConnectionGene { from: 1, to: 3, weight: 0, enabled: true, innovation_number: 2 };
    assert!(Genome::from_parts(nodes.clone(), vec![good]).is_some());
    assert!(Genome::from_parts(nodes.clone(), vec![good, dangling]).is_none());
    assert!(Genome::from_parts(nodes.clone(), vec![good, good]).is_none());
    let twice = vec![nodes[0], nodes[0]];
    assert!(Genome::from_parts(twice, vec![]).is_none());
}

#[test]
fn resume_goes_on_from_the_counters() {
    assert!(GenomeRegistry::resume(5, 5).is_none());
    assert!(GenomeRegistry::resume(6, 4).is_none());
    let mut registry = GenomeRegistry::resume(40, 12).unwrap();
    assert_eq!(get_innovation_number(&mut registry), 41);
    assert_eq!(get_next_node_id(&mut registry), 13);
}

#[test]
fn mutate_does_what_it_says() {
    let mut registry = GenomeRegistry::new();
    let mut kinds = std::collections::BTreeSet::new();
    for _ in 0..400 {
        let mut genome = founder([100_000, 200_000, 300_000, 400_000, 500_000, 600_000]);
        let innovations = registry.last_innovation_number();
        let nodes = registry.last_node_id();
        match genome.mutate(&mut registry) {
            Mutation::AddedNode(place) => {
                kinds.insert("node");
                assert!(!genome.get_connections()[place].enabled);
                assert_eq!(genome.get_connections().len(), 8);
                assert_eq!(genome.get_nodes()[5].id, nodes + 1);
                assert_eq!(genome.get_connections()[6].innovation_number, innovations + 1);
                assert_eq!(genome.get_connections()[7].innovation_number, innovations + 2);
                assert_eq!(registry.last_innovation_number(), innovations + 2);
                assert_eq!(registry.last_node_id(), nodes + 1);
            }
            Mutation::AddedConnection(_) => panic!("a founding genome has no free pair"),
            Mutation::ResetWeight(place) => {
                kinds.insert("reset");
                let weight = genome.get_connections()[place].weight;
                assert!(-1_000_000 <= weight && weight < 1_000_000);
                assert_eq!(registry.last_innovation_number(), innovations);
            }
            Mutation::PerturbedWeight(place) => {
                kinds.insert("perturb");
                let old = (place as i64 + 1) * 100_000;
                let weight = genome.get_connections()[place].weight;
                assert!(old * 8 / 10 <= weight && weight < old * 12 / 10);
                assert_eq!(registry.last_innovation_number(), innovations);
            }
            Mutation::Nothing => {
                kinds.insert("nothing");
                assert_eq!(registry.last_innovation_number(), innovations);
                assert_eq!(registry.last_node_id(), nodes);
                let weights: Vec<i64> =
                    genome.get_connections().iter().map(|c| c.weight).collect();
                assert_eq!(weights, vec![100_000, 200_000, 300_000, 400_000, 500_000, 600_000]);
            }
        }
        assert!(genome.is_consistent());
    }
    assert!(kinds.contains("perturb"));
    assert!(kinds.len() > 1);
}

#[test]
fn is_consistent_holds_of_what_the_operators_make() {
    let mut registry = GenomeRegistry::new();
    let mut genome = Genome::new_fully_linked();
    assert!(genome.is_consistent());
    genome.split_connection(3, &mut registry);
    assert!(genome.link(2, 6, 7, &mut registry));
    assert!(genome.is_consistent());
    let child = genome.crossover(&Genome::new_fully_linked());
    assert!(child.is_consistent());
    genome.add_connection(1, 99, 0, &mut registry);
    assert!(!genome.is_consistent());
}

/// The founding genome with a chain of three hidden nodes between the first
/// sensor and the first output: 1 -> 6 -> 7 -> 8 -> 4.
fn chain() -> Genome {
    let mut registry = GenomeRegistry::new();
    let mut genome = founder([0; 6]);
    genome.split_connection(0, &mut registry);
    genome.split_connection(7, &mut registry);
    genome.split_connection(9, &mut registry);
    genome
}

#[test]
fn reaches_follows_the_connections() {
    let genome = chain();
    assert!(genome.reaches(1, 4));
    assert!(genome.reaches(1, 8));
    assert!(genome.reaches(6, 8));
    assert!(genome.reaches(6, 4));
    assert!(genome.reaches(3, 3));
    assert!(!genome.reaches(4, 1));
    assert!(!genome.reaches(8, 6));
    assert!(!genome.reaches(2, 6));
    assert!(!genome.reaches(1, 2));
    assert!(!genome.reaches(6, 5));
}

#[test]
fn has_link_knows_the_connections() {
    let genome = chain();
    assert!(genome.has_link(1, 6));
    assert!(genome.has_link(1, 4), "a disabled connection is a connection");
    assert!(genome.has_link(7, 8));
    assert!(!genome.has_link(6, 8));
    assert!(!genome.has_link(6, 1));
}

#[test]
fn can_link_closes_no_circle() {
    let genome = chain();
    assert!(!genome.can_link(8, 6), "a circle of three");
    assert!(!genome.can_link(8, 7), "a circle of two");
    assert!(!genome.can_link(7, 7), "a circle of one");
    assert!(genome.can_link(6, 8), "a shortcut");
    assert!(genome.can_link(2, 8));
    assert!(genome.can_link(6, 5));
}

#[test]
fn link_keeps_the_genome_free_of_circles() {
    let mut registry = GenomeRegistry::resume(12, 8).unwrap();
    let mut genome = chain();
    assert!(genome.link(2, 7, 1, &mut registry));
    assert!(genome.link(8, 5, 1, &mut registry));
    assert!(!genome.link(8, 6, 1, &mut registry));
    assert!(!genome.link(7, 6, 1, &mut registry));
    assert_eq!(registry.last_innovation_number(), 14);
    for node in genome.get_nodes() {
        for connection in genome.get_connections() {
            if connection.from == node.id {
                assert!(!genome.reaches(connection.to, node.id));
            }
        }
    }
}

#[test]
fn is_feed_forward_finds_a_circle() {
    let mut registry = GenomeRegistry::resume(12, 8).unwrap();
    let mut genome = chain();
    assert!(genome.is_feed_forward());
    assert!(Genome::new_fully_linked().is_feed_forward());
    genome.add_connection(8, 6, 0, &mut registry);
    assert!(!genome.is_feed_forward());
    let mut own = founder([0; 6]);
    own.add_connection(4, 4, 0, &mut registry);
    assert!(!own.is_feed_forward());
}

#[test]
fn the_operators_close_no_circle() {
    let mut registry = GenomeRegistry::new();
    let mut genome = Genome::new_fully_linked();
    for _ in 0..60 {
        genome.mutate(&mut registry);
        assert!(genome.is_consistent());
        assert!(genome.is_feed_forward());
    }
    let child = genome.crossover(&Genome::new_fully_linked());
    assert!(child.is_consistent());
    assert!(child.is_feed_forward());
    assert_eq!(child.get_nodes(), genome.get_nodes());
}

#[test]
fn mutate_add_node_splits_nothing_but_an_enabled_connection() {
    let nodes = founder([0; 6]).get_nodes().clone();
    let disabled: Vec<ConnectionGene> = founder([1, 2, 3, 4, 5, 6])
        .get_connections()
        .iter()
        .map(|c| ConnectionGene { enabled: false, ..*c })
        .collect();
    let mut registry = GenomeRegistry::new();
    let mut genome = Genome::from_parts(nodes, disabled.clone()).unwrap();
    for _ in 0..50 {
        assert_eq!(genome.mutate_add_node(&mut registry), None);
    }
    assert_eq!(genome.get_connections(), &disabled);
    assert_eq!(registry.last_innovation_number(), 6);
    assert_eq!(registry.last_node_id(), 5);
    // With every connection enabled, whichever is drawn is split.
    for _ in 0..50 {
        let mut enabled = founder([1, 2, 3, 4, 5, 6]);
        let mut registry = GenomeRegistry::new();
        let place = enabled.mutate_add_node(&mut registry).expect("every connection is enabled");
        assert!(!enabled.get_connections()[place].enabled);
        assert_eq!(enabled.get_connections()[6].to, 6);
        assert_eq!(enabled.get_connections()[7].from, 6);
    }
}
