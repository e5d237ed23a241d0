//! The verified core of Crypt, a tool that packs files and folders into one
//! compressed and encrypted container.
//!
//! A container starts with a preamble (magic, version, salt, sealed header),
//! goes on with one record per chunk of the packed stream, and ends with an
//! empty record. Each chunk is compressed with Zstandard and sealed with
//! AES-256-GCM under a key that Argon2id derives from the password.

pub mod bytes;
pub mod chunk;
pub mod cipher;
pub mod config;
pub mod frame;
pub mod header;
pub mod key;
pub mod laws;
pub mod names;
pub mod pack;
pub mod progress;
pub mod prompt;
pub mod record;
pub mod reorder;
pub mod suffix;
pub mod text;
pub mod writer;
