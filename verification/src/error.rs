use vstd::prelude::*;

verus! {

/// Why an operation was refused. Every failure is terminal for the operation
/// and leaves all storage blocks as they were.
#[derive(Clone, Copy, Debug, PartialEq, Eq, Structural)]
pub enum TokenError {
    /// The block's bytes do not have the shape of the expected record.
    DecodeError,
    /// The block decodes, but its tag is not the one required.
    TagMismatch,
    /// A required signer is absent, or the signer is not the recorded
    /// authority or owner.
    AuthorizationError,
    /// The amount to burn or transfer exceeds what is available.
    InsufficientBalance,
    /// A balance or supply would exceed `u64::MAX`.
    Overflow,
    /// The two accounts of a transfer are denominated in different mints.
    MintMismatch,
    /// Fewer handles were supplied than the operation consumes.
    MissingHandle,
    /// The block is too short to hold the record.
    EncodeError,
}

} // verus!
