//! A local encrypted credential vault.
//!
//! A single master password unlocks a 32-byte symmetric key; per-entry
//! secrets are encrypted field by field with that key and held in a
//! store of encrypted records.  A session guard keeps the live key in
//! memory and gates every entry operation on it.

pub mod crypto;
pub mod db;
pub mod session;
pub mod text;
