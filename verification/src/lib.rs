pub mod audit;
pub mod cache;
pub mod cli;
pub mod config;
pub mod github;
pub mod output;
pub mod reconcile;
pub mod sources;
pub mod suggest;
pub mod text;
pub mod timestamp;
