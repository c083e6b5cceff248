pub mod engine;
pub mod helper;
