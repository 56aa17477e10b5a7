//! Stateful conformance checking: a simple, trusted model and a real
//! implementation are driven through the same sequence of actions, and every
//! pair of observable results is compared.

pub mod campaign;
pub mod engine;
pub mod pq_domain;
pub mod pq_gen;
pub mod rng;
pub mod set_domain;
