//! A personal secret store: labelled credentials kept encrypted under a master key,
//! which is itself wrapped under a key derived from the user's passphrase.

pub mod crypto;
pub mod error;
pub mod store;
pub mod diff;
pub mod text;
pub mod user;
pub mod table;
pub mod manager;
pub mod cmd;
pub mod pass_manager;
