pub mod hex_buffer;
pub mod ints;
pub mod w3_buffer;

pub use hex_buffer::HexBuffer;
pub use w3_buffer::W3Buffer;
