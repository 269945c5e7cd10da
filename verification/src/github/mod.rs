pub mod repos;
