//! Tests for the tabular Q-learning agent.

use rl_core::fixed::{decay_rate, td_blend, ONE, VALUE_LIMIT};
use rl_core::q_learning::QLearner;
use rl_core::randomness::rng_from_seed;

/// One tenth, in fixed-point millionths.
const TENTH: i64 = 100_000;

#[test]
fn test_act() {
    let learner = QLearner::new(2, TENTH, TENTH);
    let env_state: u64 = 10;
    let mut rng = rng_from_seed(7);
    let action = learner.act(env_state, &mut rng);
    assert!(action < 2);
}

#[test]
fn test_learn() {
    let mut learner = QLearner::new(2, TENTH, TENTH);
    let env_state: u64 = 1;
    let mut rng = rng_from_seed(8);
    let action = learner.act(env_state, &mut rng);
    let reward: i64 = ONE;
    let next_state: u64 = 2;
    learner.learn(env_state, next_state, action, reward);
}

#[test]
fn test_first_learn_blend() {
    // QLearner(actions = 2, lr = 0.1, gamma = 0.1), one learn on a fresh
    // table with reward 1.0: the successor state is materialized as [0, 0],
    // and the observed state's value becomes (1 - 0.1) * 1.0 + 0.1 * (1.0 +
    // 0.1 * 0) = 1.0 exactly, the reward standing in for the prior value.
    let mut learner = QLearner::new(2, TENTH, TENTH);
    let state_a: u64 = 1;
    let state_b: u64 = 2;
    learner.learn(state_a, state_b, 0, ONE);
    assert_eq!(learner.action_values(state_b), Some(vec![0, 0]));
    assert_eq!(learner.action_values(state_a), Some(vec![ONE, 0]));
    assert_eq!(learner.epsilon_value(), 900_000);
}

#[test]
fn test_epsilon_decays_toward_zero() {
    let mut learner = QLearner::new(2, TENTH, TENTH);
    assert_eq!(learner.epsilon_value(), ONE);
    let mut previous = learner.epsilon_value();
    for step in 0..30u64 {
        learner.learn(step, step + 1, 0, 1_000);
        let current = learner.epsilon_value();
        assert!(current <= previous);
        assert!(current >= 0);
        if previous > 0 {
            assert!(current < previous);
        }
        previous = current;
    }
    // 0.9 ^ 22 is below the exploration floor of 0.1.
    assert!(learner.epsilon_value() <= TENTH);
    assert_eq!(learner.epsilon_value(), 42_387);
}

#[test]
fn test_rows_keep_one_value_per_action() {
    let mut learner = QLearner::new(3, TENTH, TENTH);
    for step in 0..10u64 {
        learner.learn(step % 4, (step + 1) % 4, (step % 3) as usize, 500_000);
    }
    for state in 0..4u64 {
        let row = learner.action_values(state).unwrap();
        assert_eq!(row.len(), 3);
    }
    assert_eq!(learner.action_values(99), None);
}

#[test]
fn test_exploit_picks_first_best_action() {
    // With lr = 1.0 and gamma = 0, one learn pins Q(state, action) to the
    // reward exactly, which makes the exploited choice predictable.
    let mut learner = QLearner::new(2, ONE, 0);
    let mut rng = rng_from_seed(11);
    // Decay epsilon below the floor.
    for step in 0..25u64 {
        learner.learn(100 + step, 200, 0, 0);
    }
    assert!(learner.epsilon_value() <= TENTH);
    // Q(5, 0) = 100, Q(5, 1) = 999: the best action is 1.
    learner.learn(5, 6, 0, 100);
    learner.learn(5, 6, 1, 999);
    assert_eq!(learner.act(5, &mut rng), 1);
    // Q(7, 0) = 5 = Q(7, 1): ties break toward the first index.
    learner.learn(7, 8, 0, 5);
    learner.learn(7, 8, 1, 5);
    assert_eq!(learner.act(7, &mut rng), 0);
    // An unseen state still yields a valid action.
    assert!(learner.act(77, &mut rng) < 2);
}

#[test]
fn test_blend_saturates_at_value_limit() {
    // lr = 1, gamma = 1, reward and successor value at the representable
    // limit: the unclamped target would be twice the limit.
    assert_eq!(td_blend(ONE, ONE, VALUE_LIMIT, 0, VALUE_LIMIT), VALUE_LIMIT);
    assert_eq!(
        td_blend(ONE, ONE, -VALUE_LIMIT, 0, -VALUE_LIMIT),
        -VALUE_LIMIT
    );
    // lr = 0 keeps the prior value untouched.
    assert_eq!(td_blend(0, TENTH, ONE, 123_456, 0), 123_456);
}

#[test]
fn test_decay_rate_exact_values() {
    assert_eq!(decay_rate(ONE), 900_000);
    assert_eq!(decay_rate(10), 9);
    assert_eq!(decay_rate(1), 0);
    assert_eq!(decay_rate(0), 0);
}
