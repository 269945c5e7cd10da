pub mod alignment;
pub mod types;
