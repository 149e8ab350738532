//! A verified core for a grid-world reinforcement-learning agent:
//! a deterministic box-pushing grid environment, a prioritized circular
//! replay buffer with weighted sampling, and the decision logic of a
//! double-DQN training loop (masked action selection, bootstrapped
//! targets, exploration and synchronization schedules).
//!
//! Rewards, priorities and Q-values are fixed-point integers: rewards
//! and Q-values in thousandths of a unit, priorities in
//! hundred-thousandths.

pub mod dqn;
pub mod env;
pub mod replay_buffer;
mod rng;
