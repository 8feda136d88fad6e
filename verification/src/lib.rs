//! A verified bidirectional codec for a game engine's binary "object
//! modification" files, together with the tooltip text dialect the
//! surrounding tools read and write.
//!
//! The codec decodes a raw byte buffer into an ordered, editable table of
//! per-object field overrides and encodes such a table back into bytes. Both
//! directions are specified against one byte-exact wire model, and the
//! round-trip laws are proved: decoding then encoding reproduces every clean
//! buffer byte for byte, and encoding then decoding is the identity on every
//! well-formed table.
//!
//! The text side parses the INI-like tooltip dialect into per-skill records
//! and renders them back, each function specified against a model of the
//! line grammar.

pub mod buffer;
pub mod data;
pub mod translator;
pub mod types;
pub mod utils;
