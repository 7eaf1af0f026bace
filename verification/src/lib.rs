//! A personal secret vault whose entries ("lockboxes") are gated by a
//! time-lock state machine and protected by password-derived authenticated
//! encryption.
//!
//! The crate is organised leaf-first:
//! - [`text`]: verified string comparison and byte-lexicographic order.
//! - [`crypto`]: the encryption envelope (PBKDF2 key derivation, AES-256-GCM,
//!   base64 framing) and the master-password verification hash.
//! - [`timelock`]: the lockbox record and the delayed unlock/relock state
//!   machine, written as pure functions over injected timestamps.
//! - [`store`]: an in-memory store of lockbox records and settings with the
//!   uniqueness, ordering and timer invariants the durable layer relies on.
//! - [`vault`]: the session object and the command-level operations that tie
//!   encryption, the session and the store together.

pub mod crypto;
pub mod store;
pub mod vault;
pub mod text;
pub mod timelock;
