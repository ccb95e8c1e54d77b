//! The library's error type.
use vstd::prelude::*;

verus! {

/// Everything that can go wrong inside the library.
#[allow(inconsistent_fields)]
#[derive(Debug)]
pub enum PassManagerErr {
    /// No writable data directory could be found.
    DataDir,
    /// A `key=value` line had no `=`.
    Split,
    /// The key derivation function refused its inputs.
    Argon2 { err: argon2::Error },
    /// Authenticated encryption or decryption failed: a wrong passphrase or corrupted data.
    Aes { err: aes_gcm::Error },
    /// A decrypted key did not have the expected length.
    TryFrom,
    /// A decrypted payload was not valid UTF-8.
    Utf8,
    /// A passphrase shorter than the policy minimum.
    PassphraseTooShort,
    /// A remote URL that does not parse.
    Url { err: String },
    /// A remote URL without a host.
    Host,
    /// The credential helper's answer lacked a field.
    Creds { key: String },
    /// A commit message that is not valid UTF-8.
    InvalidCommitMessage,
    /// A commit message outside the grammar.
    CommitMsgFormat { message: String },
    /// A blob, or an item in it, is missing from the parent snapshot.
    PreviousVersion { bin: String },
    /// A commit time that cannot be shown.
    Chrono { item: String },
}

} // verus!
