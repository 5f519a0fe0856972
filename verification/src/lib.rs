//! An in-memory, FUSE-shaped filesystem that keeps every regular file
//! encrypted at rest with AES-256-GCM under a key derived by SHA-256 from a
//! process-wide secret. The owning user reads plaintext back; every other
//! user sees an uppercase hexadecimal rendering of the stored ciphertext.
//!
//! The crate holds the filesystem state machine itself: the inode table,
//! the directory tree, the per-file ciphertext store, and the per-operation
//! decrypt-modify-reencrypt transform. The kernel transport, argument
//! parsing and key-material lookup sit outside it and hand it plain values.

pub mod attrs;
pub mod cryption;
pub mod dirents;
pub mod hexview;
pub mod kriptofs;
pub mod laws;
