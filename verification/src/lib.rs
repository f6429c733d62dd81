//! A local password vault.
//!
//! - [`crypto`]: the key derived from the master passphrase, authenticated
//!   encryption, base64, and the handle that owns key material.
//! - [`container`]: the container that is kept on disk and what its fields
//!   stand for.
//! - [`storage`]: sealing the serialized vault into a container and opening
//!   it again; the rows of the delimited-text export and import.
//! - [`models`]: records, the vault, and the audit trail.
//! - [`password_generator`]: random passwords and an estimate of strength.
//! - [`session`]: what a session decides between two events.
//! - [`text`]: work on text that the other modules share.
//!
//! The library reads no file and shows nothing: it takes and gives plain
//! values, and leaves files, serialization and the window to its caller.

pub mod container;
pub mod crypto;
pub mod models;
pub mod password_generator;
pub mod session;
pub mod storage;
pub mod text;
