//! The options `-node` and `-rate`.

pub mod node;
pub mod rate;
