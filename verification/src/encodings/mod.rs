//! The encodings the engine supports: US-ASCII and UTF-8.
pub mod ascii;
pub mod utf8;
