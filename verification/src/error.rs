//! Error taxonomy for the authenticator library.

use vstd::prelude::*;

verus! {

/// Every failure the library reports. Variants that concern a particular
/// account carry that account's name.
#[derive(Debug, Clone)]
pub enum OtpError {
    /// The secret is not valid unpadded Base32.
    InvalidKey,
    /// `add` was asked to insert a name that is already present.
    DuplicateAccount { name: String },
    /// An operation named an account that is not in the store.
    AccountNotFound { name: String },
    /// The backing text is not a valid serialized store.
    CorruptStore,
    /// Writing the store back failed; reported, never fatal.
    PersistenceFailure,
}

} // verus!
