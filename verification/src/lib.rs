//! Policy-improvement algorithms for discrete-action reinforcement learning:
//! a tabular Q-learning agent with epsilon-greedy exploration, and a
//! population-based neuro-evolution trainer built on fitness-proportionate
//! selection, uniform crossover and single-point mutation.
//!
//! All learned quantities (action values, learning rate, discount factor,
//! exploration rate, network weights and biases) are fixed-point numbers
//! carrying six decimal places, so every update rule is exact integer
//! arithmetic and is verified as such. The neural network adapter that turns
//! a parameter set into predictions is an external collaborator: this crate
//! owns how parameters are created, read, recombined and perturbed, and it
//! selects actions from the adapter's raw output.

pub mod fixed;
pub mod neuro_evolution;
pub mod q_learning;
pub mod randomness;
