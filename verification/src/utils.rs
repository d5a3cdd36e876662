//! Utility layer: framing, parsing, key generation, AEAD glue.

pub mod decryptor;
pub mod encryptor;
pub mod generator;
pub mod parser;
