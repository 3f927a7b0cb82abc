//! An encrypted media vault engine: password-derived key management,
//! encrypt-at-rest file storage with hash/thumbnail sidecars kept in
//! lockstep, a media cache pipeline, and a password-verifiable backup
//! archive format.

pub mod archive;
pub mod crypto;
pub mod error;
pub mod laws;
pub mod listing;
pub mod media;
pub mod paths;
pub mod store;
pub mod token;
pub mod vault;

pub use error::VaultError;
