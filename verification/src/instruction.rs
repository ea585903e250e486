use vstd::prelude::*;

verus! {

/// One operation on the ledger. The handles it works on come beside it, in
/// the order given with each variant.
#[derive(Clone, Copy, Debug, PartialEq, Eq, Structural)]
pub enum TokenInstruction {
    /// Handles: the mint's block, then the mint authority, which must sign.
    /// Makes the block a mint with that authority and no supply.
    InitializeMint,
    /// Handles: the account's block, then the mint. Makes the block an empty
    /// account of that mint, owned by the block's own identity.
    InitializeTokenAccount,
    /// Handles: the account, its mint, then the mint authority, which must
    /// sign. Issues `amount` to the account.
    Mint { amount: u64 },
    /// Handles: the account, its mint, then the mint authority, which must
    /// sign. Takes `amount` out of the account and out of circulation.
    Burn { amount: u64 },
    /// Handles: the source account, the destination account, then the owner
    /// of the source, which must sign. Moves `amount` from source to
    /// destination.
    Transfer { amount: u64 },
}

} // verus!
