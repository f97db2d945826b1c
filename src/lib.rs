//! A stigmergic segregation model on a toroidal grid: two species of agents
//! move between neighbouring cells, and every tick conserves the population
//! of each species exactly.
pub mod agent;
pub mod neighbour_data;
pub mod node;
pub mod prng;
pub mod species;
pub mod sums;
pub mod topology;
pub mod universe;
