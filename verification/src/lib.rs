pub mod text;
pub mod search;
pub mod sort;
pub mod parser;
pub mod ranking;
pub mod language;
pub mod manager;
pub mod cli;
