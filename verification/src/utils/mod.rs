pub mod common;
pub mod export;
pub mod parser;
pub mod text;
