//! Small building blocks shared by generation and simulation.

pub mod fast_random;
pub mod math;
pub mod torus;

pub use self::fast_random::FastRandom;
