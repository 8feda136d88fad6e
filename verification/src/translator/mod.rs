pub mod laws;
pub mod objects;
pub mod wire;
