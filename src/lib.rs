//! A toy symmetric cipher whose ciphertext is written as spaces and tabs.
//!
//! The wire format is `encrypted payload ++ checksum (4 bytes, big-endian) ++ salt`,
//! hex-encoded in lowercase, with each hex digit spelled as four whitespace
//! characters (space for a 0 bit, tab for a 1 bit, most significant bit first).
pub mod keystream;
pub mod codec;
pub mod error;
mod outside;
pub mod frame;
pub mod cipher;
pub mod laws;
