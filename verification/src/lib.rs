//! Declarative secret deployment: SOPS documents are decrypted with age
//! identities derived from SSH keys, and what they hold is installed as a
//! generation below a base directory.
//!
//! The library decides and plans; it reads no file and changes none. A
//! caller hands it what it read, and carries out the steps that come back.

pub mod cli;
pub mod enc;
pub mod generation;
pub mod manifest;
pub mod number;
pub mod sops;
pub mod ssh;
pub mod template;
pub mod text;
