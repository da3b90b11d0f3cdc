//! Decryption of SOPS values: the envelope grammar and the ciphers behind it.

pub mod age;
pub mod envelope;
