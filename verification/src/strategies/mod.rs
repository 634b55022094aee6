pub mod levels;
pub mod monitor;
pub mod strategy;
