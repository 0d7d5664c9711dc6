//! A small genetic-algorithm solver that evolves fixed-length character
//! strings toward a target by ranked evaluation, single-point crossover and
//! point mutation.
pub mod evolution;
pub mod fitness;
pub mod individual;
pub mod population;
mod random;
