pub mod board;
pub mod command;
pub mod engine;
