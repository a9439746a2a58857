pub mod permutation;
pub mod simulation;
pub mod strategy;
