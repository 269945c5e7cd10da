pub mod order;
pub mod table;
pub mod report;
pub mod csv;
pub mod tally;
