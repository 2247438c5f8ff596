pub mod error;
pub mod frontend;
