//! Error taxonomy of the store.
//!
//! Every failure of the table store or of the codec propagates upward
//! unchanged or annotated with identifying context; none is swallowed.

use vstd::prelude::*;

verus! {

/// A storage or codec failure.
#[derive(Debug)]
pub enum KvError {
    /// The store file could not be opened.
    StorageOpen,
    /// A statement could not be prepared against the engine.
    QueryPrepare,
    /// The engine or a primitive beneath the store failed mid-operation.
    StorageIo,
    /// A stored row could not be decoded; carries the table name and the
    /// raw encoded text.
    Deserialization { table: String, raw: String },
    /// A read-modify-write was asked for a key that holds no value.
    MissingKey { key: String },
    /// The ciphertext did not authenticate under the supplied password.
    DecryptionFailure { name: String },
    /// The stored cleartext half of an encrypted pair could not be decoded.
    /// The store never produces it at present — public keys are held as
    /// text, which always decodes — but it stays as the name such a
    /// failure would carry.
    PublicKeyDecode { name: String },
    /// The bounded interactive password flow ran out of attempts.
    PasswordRetriesExhausted,
}

impl KvError {
    /// A short description, for callers that print errors.
    pub fn describe(&self) -> (r: &'static str)
        ensures
            r@.len() > 0,
    {
        proof {
            reveal_strlit("could not open the store");
            reveal_strlit("failed to prepare a statement");
            reveal_strlit("a primitive beneath the store failed");
            reveal_strlit("failed to decode a stored row");
            reveal_strlit("no value for that key");
            reveal_strlit("wrong password or corrupted ciphertext");
            reveal_strlit("stored public half is unreadable");
            reveal_strlit("too many failed password attempts");
        }
        match self {
            KvError::StorageOpen => "could not open the store",
            KvError::QueryPrepare => "failed to prepare a statement",
            KvError::StorageIo => "a primitive beneath the store failed",
            KvError::Deserialization { .. } => "failed to decode a stored row",
            KvError::MissingKey { .. } => "no value for that key",
            KvError::DecryptionFailure { .. } => "wrong password or corrupted ciphertext",
            KvError::PublicKeyDecode { .. } => "stored public half is unreadable",
            KvError::PasswordRetriesExhausted => "too many failed password attempts",
        }
    }
}

/// Outcome of a read-modify-write: either the store failed, or the caller's
/// mutation failed and its own error is reported, wrapped, with the store
/// untouched.
#[derive(Debug)]
pub enum WithError<E> {
    /// The store itself failed.
    Store(KvError),
    /// The caller's mutation failed; carries its original cause.
    MutationFailure(E),
}

} // verus!
