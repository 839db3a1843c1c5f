//! Tests for the population-based neuro-evolution trainer.

use rl_core::neuro_evolution::{Agent, EvoError, NetworkParams, NeuroEvolution, MUTATION_SPAN};
use rl_core::randomness::rng_from_seed;
use rand::Rng;

/// A one-percent mutation rate, in parts per million.
const ONE_PERCENT_PPM: u32 = 10_000;

fn all_weights(network: &NetworkParams) -> Vec<Vec<Vec<i64>>> {
    network.layers.iter().map(|l| l.weights.clone()).collect()
}

fn all_biases(network: &NetworkParams) -> Vec<Vec<i64>> {
    network.layers.iter().map(|l| l.biases.clone()).collect()
}

/// A plain ReLU forward pass over the fixed-point parameters, in `f32` as a
/// network adapter would run it.
fn forward(network: &NetworkParams, input: &[f32]) -> Vec<f32> {
    let mut activation: Vec<f32> = input.to_vec();
    for layer in network.layers.iter() {
        let mut next: Vec<f32> = Vec::new();
        for (row, bias) in layer.weights.iter().zip(layer.biases.iter()) {
            let mut sum: f32 = (*bias as f32) / 1.0e6;
            for (w, x) in row.iter().zip(activation.iter()) {
                sum += ((*w as f32) / 1.0e6) * x;
            }
            next.push(if sum > 0.0 { sum } else { 0.0 });
        }
        activation = next;
    }
    activation
}

#[test]
fn test_new_generation() {
    let agent_amount = 5;
    let mut neuro_evolution = NeuroEvolution::new(
        agent_amount,
        &vec![2, 3, 1],
        ONE_PERCENT_PPM,
        rng_from_seed(42),
    )
    .unwrap();
    let first_generation = neuro_evolution.population.clone();
    assert_eq!(neuro_evolution.population.len(), agent_amount);

    // score population
    let mut score_rng = rng_from_seed(43);
    let scores: Vec<i32> = (0..agent_amount).map(|_| score_rng.gen_range(-10..10)).collect();
    neuro_evolution.new_generation(&scores).unwrap();

    assert_eq!(neuro_evolution.population.len(), first_generation.len());
    assert_ne!(neuro_evolution.population, first_generation);
}

#[test]
fn test_mutate() {
    let mut rng = rng_from_seed(5);
    let mut a = Agent::new(&vec![2, 3, 1], &mut rng).unwrap();
    let network_weights_before = all_weights(&a.network);
    let network_biases_before = all_biases(&a.network);

    a.mutate(&mut rng);

    let network_weights_after = all_weights(&a.network);
    let network_biases_after = all_biases(&a.network);

    assert!(
        network_weights_before != network_weights_after
            || network_biases_before != network_biases_after
    );
}

#[test]
fn test_child() {
    let empty = NeuroEvolution::new(0, &vec![], 0, rng_from_seed(1));
    assert!(empty.is_err());
    let mut rng = rng_from_seed(2);
    let a1 = Agent::new(&vec![2, 3, 1], &mut rng).unwrap();
    let a2 = Agent::new(&vec![2, 3, 1], &mut rng).unwrap();
    let child = a1.crossover(&a2, &mut rng);

    assert_ne!(child.network, a1.network);
    assert_ne!(child.network, a2.network);
    assert_eq!(child.network.shape_pairs(), a1.network.shape_pairs());
}

#[test]
fn test_agent_action() {
    let mut rng = rng_from_seed(3);
    let agent = Agent::new(&vec![2, 3, 1], &mut rng).unwrap();
    let state = [0.0f32, 1.0f32];
    let actions = 2;
    let outputs: Vec<u32> = forward(&agent.network, &state).iter().map(|v| v.to_bits()).collect();
    let agent_action = agent.act(&outputs).unwrap();

    assert!(agent_action < actions);
}

#[test]
fn test_crossover_takes_every_scalar_from_a_parent() {
    let mut rng = rng_from_seed(9);
    let a = Agent::new(&vec![3, 4, 2], &mut rng).unwrap();
    let b = Agent::new(&vec![3, 4, 2], &mut rng).unwrap();
    let child = a.crossover(&b, &mut rng);
    for (l, layer) in child.network.layers.iter().enumerate() {
        for (r, row) in layer.weights.iter().enumerate() {
            for (c, v) in row.iter().enumerate() {
                assert!(
                    *v == a.network.layers[l].weights[r][c]
                        || *v == b.network.layers[l].weights[r][c]
                );
            }
        }
        for (i, v) in layer.biases.iter().enumerate() {
            assert!(
                *v == a.network.layers[l].biases[i] || *v == b.network.layers[l].biases[i]
            );
        }
    }
}

#[test]
fn test_mutate_changes_exactly_one_scalar() {
    let mut rng = rng_from_seed(12);
    let mut a = Agent::new(&vec![2, 3, 1], &mut rng).unwrap();
    let weights_before = all_weights(&a.network);
    let biases_before = all_biases(&a.network);

    a.mutate(&mut rng);

    let mut changed: Vec<(usize, i64)> = Vec::new();
    let last_layer = a.network.layers.len() - 1;
    for (l, layer) in a.network.layers.iter().enumerate() {
        for (r, row) in layer.weights.iter().enumerate() {
            for (c, v) in row.iter().enumerate() {
                if *v != weights_before[l][r][c] {
                    changed.push((l, *v));
                }
            }
        }
        for (i, v) in layer.biases.iter().enumerate() {
            if *v != biases_before[l][i] {
                changed.push((l, *v));
            }
        }
    }
    assert_eq!(changed.len(), 1);
    let (layer, value) = changed[0];
    assert!(layer < last_layer);
    assert!(-MUTATION_SPAN <= value && value < MUTATION_SPAN);
}

#[test]
fn test_new_generation_with_shifted_scores() {
    // Scores [-2, 0, 0, 0, 5]: the worst agent gets sampling weight zero and
    // the all-but-best-equal distribution must not crash the replacement.
    let mut neuro_evolution =
        NeuroEvolution::new(5, &vec![2, 3, 1], ONE_PERCENT_PPM, rng_from_seed(21)).unwrap();
    let shapes_before: Vec<Vec<(usize, usize)>> =
        neuro_evolution.population.iter().map(|a| a.network.shape_pairs()).collect();
    let scores: Vec<i32> = vec![-2, 0, 0, 0, 5];
    neuro_evolution.new_generation(&scores).unwrap();
    assert_eq!(neuro_evolution.population.len(), 5);
    let shapes_after: Vec<Vec<(usize, usize)>> =
        neuro_evolution.population.iter().map(|a| a.network.shape_pairs()).collect();
    assert_eq!(shapes_before, shapes_after);
}

#[test]
fn test_new_generation_rejects_misaligned_scores() {
    let mut neuro_evolution =
        NeuroEvolution::new(3, &vec![2, 3, 1], 0, rng_from_seed(31)).unwrap();
    let before = neuro_evolution.population.clone();
    let scores: Vec<i32> = vec![1, 2];
    assert_eq!(
        neuro_evolution.new_generation(&scores),
        Err(EvoError::ScoreLengthMismatch)
    );
    assert_eq!(neuro_evolution.population, before);
}

#[test]
fn test_new_generation_rejects_single_agent() {
    let mut neuro_evolution =
        NeuroEvolution::new(1, &vec![2, 3, 1], 0, rng_from_seed(32)).unwrap();
    let scores: Vec<i32> = vec![7];
    assert_eq!(
        neuro_evolution.new_generation(&scores),
        Err(EvoError::PopulationTooSmall)
    );
    assert_eq!(neuro_evolution.population.len(), 1);
}

#[test]
fn test_constructor_errors() {
    assert_eq!(
        NeuroEvolution::new(0, &vec![2, 3, 1], 0, rng_from_seed(33)).err(),
        Some(EvoError::NoAgents)
    );
    assert_eq!(
        NeuroEvolution::new(4, &vec![], 0, rng_from_seed(34)).err(),
        Some(EvoError::EmptyTopology)
    );
    let mut rng = rng_from_seed(35);
    assert_eq!(Agent::new(&vec![], &mut rng).err(), Some(EvoError::EmptyTopology));
}

#[test]
fn test_act_rejects_bad_outputs() {
    let mut rng = rng_from_seed(36);
    let agent = Agent::new(&vec![2, 2], &mut rng).unwrap();
    let empty: Vec<u32> = vec![];
    assert_eq!(agent.act(&empty), Err(EvoError::EmptyOutput));
    assert_eq!(
        agent.act(&vec![1.0f32.to_bits(), f32::NAN.to_bits()]),
        Err(EvoError::NonFiniteOutput)
    );
    assert_eq!(
        agent.act(&vec![f32::INFINITY.to_bits(), 1.0f32.to_bits()]),
        Err(EvoError::NonFiniteOutput)
    );
}

#[test]
fn test_act_picks_first_maximum() {
    let mut rng = rng_from_seed(37);
    let agent = Agent::new(&vec![2, 2], &mut rng).unwrap();
    let outputs: Vec<u32> =
        vec![1.5f32, -2.0f32, 3.25f32, 3.25f32].iter().map(|v| v.to_bits()).collect();
    assert_eq!(agent.act(&outputs), Ok(2));
    // The two zero encodings compare equal, so the first one wins.
    let zeros: Vec<u32> = vec![(-0.0f32).to_bits(), 0.0f32.to_bits()];
    assert_eq!(agent.act(&zeros), Ok(0));
    let negatives: Vec<u32> = vec![(-3.0f32).to_bits(), (-1.5f32).to_bits()];
    assert_eq!(agent.act(&negatives), Ok(1));
}

#[test]
fn test_new_agent_shape_and_parameter_range() {
    let mut rng = rng_from_seed(60);
    let a = Agent::new(&vec![2, 3, 1], &mut rng).unwrap();
    assert_eq!(a.network.shape_pairs(), vec![(2, 3), (3, 1)]);
    let one: i64 = 1_000_000;
    for layer in a.network.layers.iter() {
        assert_eq!(layer.weights.len(), layer.biases.len());
        for row in layer.weights.iter() {
            assert_eq!(row.len(), layer.inputs);
            for w in row.iter() {
                assert!(-one <= *w && *w < one);
            }
        }
        for b in layer.biases.iter() {
            assert!(-one <= *b && *b < one);
        }
    }
}

#[test]
fn test_seeded_generator_is_deterministic() {
    let mut rng_a = rng_from_seed(55);
    let mut rng_b = rng_from_seed(55);
    let a = Agent::new(&vec![2, 3, 1], &mut rng_a).unwrap();
    let b = Agent::new(&vec![2, 3, 1], &mut rng_b).unwrap();
    assert_eq!(a.network, b.network);
}
