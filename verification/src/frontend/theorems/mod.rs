pub mod alphabet;
pub mod classified;
pub mod end_token;
pub mod literals;
pub mod operators;
pub mod order;
pub mod placement;
pub mod runs;
