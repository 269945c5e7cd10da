pub mod catalog;
pub mod codeowners;
pub mod fetcher;
