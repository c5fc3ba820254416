//! What the commands of the program decide and say, apart from reading and printing.
pub mod check;
pub mod diff;
pub mod init;
pub mod order;
pub mod report;
pub mod skills;
