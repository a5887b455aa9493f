//! Local, single-user persistence layer for a command-line wallet.
//!
//! The library stores configuration, key material, cached transaction and
//! asset data, and in-progress transaction builders in one SQLite file,
//! encrypting secret key material under a user password.  It is built from
//! three parts: a generic typed table store over the embedded engine
//! (`store`), a password-based encrypted-pair codec (`crypto`), and the
//! wallet-level repository composing them (`wallet`).  The row model and
//! its laws live in `model` and `laws`; the stable field serialization in
//! `codec`; the plain domain records in `records`.  Every operation's
//! contract is stated over the row model and verified; trusted code is
//! confined to the thin boundaries in `engine` (SQLite) and `crypto` (the
//! key-derivation and cipher primitives).

use vstd::prelude::*;
pub mod codec;
pub mod crypto;
pub mod engine;
pub mod errors;
pub mod laws;
pub mod model;
pub mod records;
pub mod store;
pub mod wallet;

verus! {

/// Bounded retry budget for interactive password entry.  The prompting
/// itself is I/O and lives outside the library; callers drive this counter
/// and must stop once it is exhausted.
pub struct PasswordRetry {
    pub remaining: u64,
}

impl PasswordRetry {
    /// A fresh budget: three attempts.
    pub fn new() -> (r: PasswordRetry)
        ensures
            r.remaining == 3,
    {
        PasswordRetry { remaining: 3 }
    }

    /// Record one failed attempt; returns true while another try is allowed.
    pub fn record_failure(&mut self) -> (again: bool)
        requires
            old(self).remaining >= 1,
        ensures
            final(self).remaining == old(self).remaining - 1,
            again == (final(self).remaining >= 1),
    {
        self.remaining = self.remaining - 1;
        self.remaining >= 1
    }
}

} // verus!
