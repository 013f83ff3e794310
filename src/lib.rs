//! Flocking ("boids") simulation kernel on integer world coordinates.
//!
//! Every agent carries a position and a velocity measured in integer world
//! units. One tick runs three passes: the neighbour influence pass, which
//! computes a steering vector per agent from a frozen snapshot; the velocity
//! pass, which adds the steering and renormalises to the cruise speed; and the
//! position pass, which advances and wraps each agent.
//!
//! Two choices are fixed here. Each unordered pair of agents is examined once
//! and only its member with the lower id gathers from it, so perception is
//! evaluated in one direction per pair. And the cohesion and alignment means
//! are taken as a sum and a count that are divided once per agent, which gives
//! the value of a running mean without depending on the order of the pairs;
//! every division rounds toward zero.

pub mod agent;
pub mod flock;
pub mod laws;
pub mod numeric;
pub mod spawn;

pub use agent::{
    position_step, rescale, sees, velocity_step, wrap_axis, Agent, Params, Vec2, COORD_LIMIT,
    MAX_COS_DEN, MAX_TICKS_PER_SECOND, SPEED_LIMIT, STEER_LIMIT,
};
pub use flock::{integrate_positions, integrate_velocities, steering_vectors, Flock, MAX_AGENTS};
pub use numeric::{isqrt, trunc_div};
pub use spawn::{agent_from_draws, spawn};
