use vstd::prelude::*;
use crate::account_info::{views, AccountInfo, AccountInfoView};
use crate::error::TokenError;
use crate::instruction::TokenInstruction;
use crate::pubkey::Pubkey;
use crate::state::{AccountTag, Mint, MintView, TokenAccount, TokenAccountView};

verus! {

/// `Ok` where `statement` holds, else `err`. The message names the failed
/// requirement for a reader of the code.
pub fn assert_with_msg(statement: bool, err: TokenError, _msg: &str) -> (checked: Result<
    (),
    TokenError,
>)
    ensures
        checked == (if statement {
            Ok::<(), TokenError>(())
        } else {
            Err::<(), TokenError>(err)
        }),
{
    if !statement {
        Err(err)
    } else {
        Ok(())
    }
}

/// What an operation makes of a list of handles: the handles as they are
/// afterwards, or the reason why nothing was done.
pub type Outcome = Result<Seq<AccountInfoView>, TokenError>;

/// Executes the operations of the ledger.
pub struct Processor {}

impl Processor {
    /// [`TokenInstruction::InitializeMint`] on `[mint, mint_authority, ..]`.
    /// What the block held before does not matter, as long as it is the size
    /// of a mint and starts with a tag.
    pub open spec fn initialize_mint_outcome(accounts: Seq<AccountInfoView>) -> Outcome {
        if accounts.len() < 2 {
            Err(TokenError::MissingHandle)
        } else if !accounts[1].is_signer {
            Err(TokenError::AuthorizationError)
        } else if MintView::decode(accounts[0].data) is None {
            Err(TokenError::DecodeError)
        } else {
            let mint = MintView { tag: AccountTag::Mint, authority: accounts[1].key, supply: 0 };
            Ok(accounts.update(0, accounts[0].with_data(mint.encode())))
        }
    }

    /// [`TokenInstruction::InitializeTokenAccount`] on `[account, mint, ..]`.
    /// The mint is taken by its identity alone; its block is not read.
    pub open spec fn initialize_token_account_outcome(accounts: Seq<AccountInfoView>) -> Outcome {
        if accounts.len() < 2 {
            Err(TokenError::MissingHandle)
        } else if TokenAccountView::decode(accounts[0].data) is None {
            Err(TokenError::DecodeError)
        } else {
            let account = TokenAccountView {
                tag: AccountTag::TokenAccount,
                owner: accounts[0].key,
                mint: accounts[1].key,
                amount: 0,
            };
            Ok(accounts.update(0, accounts[0].with_data(account.encode())))
        }
    }

    /// The account and the mint that `[account, mint, mint_authority, ..]`
    /// name, where the authority has signed and is the mint's own.
    pub open spec fn issuer_checked(accounts: Seq<AccountInfoView>) -> Result<
        (TokenAccountView, MintView),
        TokenError,
    > {
        if accounts.len() < 3 {
            Err(TokenError::MissingHandle)
        } else {
            match TokenAccountView::load_checked(accounts[0].data) {
                Err(e) => Err(e),
                Ok(account) => match MintView::load_checked(accounts[1].data) {
                    Err(e) => Err(e),
                    Ok(mint) => if !accounts[2].is_signer {
                        Err(TokenError::AuthorizationError)
                    } else if mint.authority != accounts[2].key {
                        Err(TokenError::AuthorizationError)
                    } else {
                        Ok((account, mint))
                    },
                },
            }
        }
    }

    /// The handles with a new balance in the first and a new supply in the
    /// second.
    pub open spec fn with_balance_and_supply(
        accounts: Seq<AccountInfoView>,
        account: TokenAccountView,
        mint: MintView,
        amount: u64,
        supply: u64,
    ) -> Seq<AccountInfoView> {
        accounts.update(
            0,
            accounts[0].with_data((TokenAccountView { amount, ..account }).encode()),
        ).update(1, accounts[1].with_data((MintView { supply, ..mint }).encode()))
    }

    /// [`TokenInstruction::Mint`] on `[account, mint, mint_authority, ..]`.
    pub open spec fn mint_outcome(accounts: Seq<AccountInfoView>, amount: u64) -> Outcome {
        match Self::issuer_checked(accounts) {
            Err(e) => Err(e),
            Ok((account, mint)) => if mint.supply + amount > u64::MAX || account.amount + amount
                > u64::MAX {
                Err(TokenError::Overflow)
            } else {
                Ok(
                    Self::with_balance_and_supply(
                        accounts,
                        account,
                        mint,
                        (account.amount + amount) as u64,
                        (mint.supply + amount) as u64,
                    ),
                )
            },
        }
    }

    /// [`TokenInstruction::Burn`] on `[account, mint, mint_authority, ..]`.
    pub open spec fn burn_outcome(accounts: Seq<AccountInfoView>, amount: u64) -> Outcome {
        match Self::issuer_checked(accounts) {
            Err(e) => Err(e),
            Ok((account, mint)) => if amount > account.amount || amount > mint.supply {
                Err(TokenError::InsufficientBalance)
            } else {
                Ok(
                    Self::with_balance_and_supply(
                        accounts,
                        account,
                        mint,
                        (account.amount - amount) as u64,
                        (mint.supply - amount) as u64,
                    ),
                )
            },
        }
    }

    /// The two accounts that `[source, destination, owner, ..]` name, where
    /// the owner has signed and is the owner of the source.
    pub open spec fn owner_checked(accounts: Seq<AccountInfoView>) -> Result<
        (TokenAccountView, TokenAccountView),
        TokenError,
    > {
        if accounts.len() < 3 {
            Err(TokenError::MissingHandle)
        } else {
            match TokenAccountView::load_checked(accounts[0].data) {
                Err(e) => Err(e),
                Ok(source) => match TokenAccountView::load_checked(accounts[1].data) {
                    Err(e) => Err(e),
                    Ok(destination) => if !accounts[2].is_signer {
                        Err(TokenError::AuthorizationError)
                    } else if source.owner != accounts[2].key {
                        Err(TokenError::AuthorizationError)
                    } else {
                        Ok((source, destination))
                    },
                },
            }
        }
    }

    /// The handles with new balances in the first and in the second.
    pub open spec fn with_balances(
        accounts: Seq<AccountInfoView>,
        source: TokenAccountView,
        destination: TokenAccountView,
        source_amount: u64,
        destination_amount: u64,
    ) -> Seq<AccountInfoView> {
        accounts.update(
            0,
            accounts[0].with_data((TokenAccountView { amount: source_amount, ..source }).encode()),
        ).update(
            1,
            accounts[1].with_data(
                (TokenAccountView { amount: destination_amount, ..destination }).encode(),
            ),
        )
    }

    /// [`TokenInstruction::Transfer`] on `[source, destination, owner, ..]`.
    /// Where source and destination are the same block, the checks are made
    /// and nothing moves.
    pub open spec fn transfer_outcome(accounts: Seq<AccountInfoView>, amount: u64) -> Outcome {
        match Self::owner_checked(accounts) {
            Err(e) => Err(e),
            Ok((source, destination)) => if amount > source.amount {
                Err(TokenError::InsufficientBalance)
            } else if source.mint != destination.mint {
                Err(TokenError::MintMismatch)
            } else if accounts[0].key == accounts[1].key {
                Ok(accounts)
            } else if destination.amount + amount > u64::MAX {
                Err(TokenError::Overflow)
            } else {
                Ok(
                    Self::with_balances(
                        accounts,
                        source,
                        destination,
                        (source.amount - amount) as u64,
                        (destination.amount + amount) as u64,
                    ),
                )
            },
        }
    }

    /// What `instruction` makes of `accounts`.
    pub open spec fn outcome(accounts: Seq<AccountInfoView>, instruction: TokenInstruction) -> Outcome {
        match instruction {
            TokenInstruction::InitializeMint => Self::initialize_mint_outcome(accounts),
            TokenInstruction::InitializeTokenAccount => Self::initialize_token_account_outcome(
                accounts,
            ),
            TokenInstruction::Mint { amount } => Self::mint_outcome(accounts, amount),
            TokenInstruction::Burn { amount } => Self::burn_outcome(accounts, amount),
            TokenInstruction::Transfer { amount } => Self::transfer_outcome(accounts, amount),
        }
    }

    /// `result` and the handles `after` are what `expected` asks for: on
    /// success the handles it gives, on failure its error and the handles as
    /// they were `before`. Either way there are as many handles as before.
    pub open spec fn carried_out(
        before: Seq<AccountInfo>,
        after: Seq<AccountInfo>,
        result: Result<(), TokenError>,
        expected: Outcome,
    ) -> bool {
        &&& after.len() == before.len()
        &&& match expected {
            Ok(handles) => result is Ok && views(after) == handles,
            Err(e) => result == Err::<(), TokenError>(e) && views(after) == views(before),
        }
    }

    fn process_initialize_mint(accounts: &mut Vec<AccountInfo>) -> (result: Result<(), TokenError>)
        ensures
            Self::carried_out(
                old(accounts)@,
                final(accounts)@,
                result,
                Self::initialize_mint_outcome(views(old(accounts)@)),
            ),
    {
        if accounts.len() < 2 {
            return Err(TokenError::MissingHandle);
        }
        let authority = accounts[1].key;
        match assert_with_msg(
            accounts[1].is_signer,
            TokenError::AuthorizationError,
            "Mint Authority must sign",
        ) {
            Ok(()) => {},
            Err(e) => { return Err(e); },
        }
        let mut mint = match Mint::load_unchecked(&accounts[0]) {
            Ok(mint) => mint,
            Err(e) => { return Err(e); },
        };
        mint.tag = AccountTag::Mint;
        mint.authority = authority;
        mint.supply = 0;
        let saved = mint.save(&mut accounts[0]);
        proof {
            let before = views(old(accounts)@);
            authority.lemma_len();
            mint@.lemma_decode_encode();
            assert(accounts@[0]@.data =~= mint@.encode());
            assert(views(accounts@) =~= before.update(0, before[0].with_data(mint@.encode())));
        }
        saved
    }

    fn process_initialize_token_account(accounts: &mut Vec<AccountInfo>) -> (result: Result<
        (),
        TokenError,
    >)
        ensures
            Self::carried_out(
                old(accounts)@,
                final(accounts)@,
                result,
                Self::initialize_token_account_outcome(views(old(accounts)@)),
            ),
    {
        if accounts.len() < 2 {
            return Err(TokenError::MissingHandle);
        }
        let owner = accounts[0].key;
        let mint = accounts[1].key;
        let mut token_account = match TokenAccount::load_unchecked(&accounts[0]) {
            Ok(token_account) => token_account,
            Err(e) => { return Err(e); },
        };
        token_account.tag = AccountTag::TokenAccount;
        token_account.owner = owner;
        token_account.mint = mint;
        token_account.amount = 0;
        let saved = token_account.save(&mut accounts[0]);
        proof {
            let before = views(old(accounts)@);
            owner.lemma_len();
            mint.lemma_len();
            token_account@.lemma_decode_encode();
            assert(accounts@[0]@.data =~= token_account@.encode());
            assert(views(accounts@) =~= before.update(
                0,
                before[0].with_data(token_account@.encode()),
            ));
        }
        saved
    }

    /// Loads the account and the mint of an issue or a burn and checks the
    /// authority.
    fn load_issuer(accounts: &Vec<AccountInfo>) -> (loaded: Result<
        (TokenAccount, Mint),
        TokenError,
    >)
        ensures
            match loaded {
                Ok((account, mint)) => Self::issuer_checked(views(accounts@)) == Ok::<
                    (TokenAccountView, MintView),
                    TokenError,
                >((account@, mint@)),
                Err(e) => Self::issuer_checked(views(accounts@)) == Err::<
                    (TokenAccountView, MintView),
                    TokenError,
                >(e),
            },
    {
        if accounts.len() < 3 {
            return Err(TokenError::MissingHandle);
        }
        let token_account = match TokenAccount::load_check(&accounts[0]) {
            Ok(token_account) => token_account,
            Err(e) => { return Err(e); },
        };
        let mint = match Mint::load_check(&accounts[1]) {
            Ok(mint) => mint,
            Err(e) => { return Err(e); },
        };
        match assert_with_msg(
            accounts[2].is_signer,
            TokenError::AuthorizationError,
            "Mint Authority Must be a signer",
        ) {
            Ok(()) => {},
            Err(e) => { return Err(e); },
        }
        match assert_with_msg(
            mint.authority == accounts[2].key,
            TokenError::AuthorizationError,
            "Mint Authority Mismatch - you cant mint more tokens with this signature",
        ) {
            Ok(()) => {},
            Err(e) => { return Err(e); },
        }
        Ok((token_account, mint))
    }

    /// Writes an account to the first block and a mint to the second. Both
    /// blocks have held a record of the same kind, so both writes succeed.
    fn save_account_and_mint(
        accounts: &mut Vec<AccountInfo>,
        token_account: &TokenAccount,
        mint: &Mint,
    ) -> (saved: Result<(), TokenError>)
        requires
            old(accounts)@.len() >= 2,
            old(accounts)@[0]@.data.len() == 73,
            old(accounts)@[1]@.data.len() == 41,
        ensures
            saved is Ok,
            final(accounts)@.len() == old(accounts)@.len(),
            views(final(accounts)@) == views(old(accounts)@).update(
                0,
                views(old(accounts)@)[0].with_data(token_account@.encode()),
            ).update(1, views(old(accounts)@)[1].with_data(mint@.encode())),
    {
        match token_account.save(&mut accounts[0]) {
            Ok(()) => {},
            Err(e) => { return Err(e); },
        }
        let saved = mint.save(&mut accounts[1]);
        proof {
            let before = views(old(accounts)@);
            token_account.owner.lemma_len();
            token_account.mint.lemma_len();
            mint.authority.lemma_len();
            token_account@.lemma_decode_encode();
            mint@.lemma_decode_encode();
            assert(accounts@[0]@.data =~= token_account@.encode());
            assert(accounts@[1]@.data =~= mint@.encode());
            assert(views(accounts@) =~= before.update(
                0,
                before[0].with_data(token_account@.encode()),
            ).update(1, before[1].with_data(mint@.encode())));
        }
        saved
    }

    fn process_mint(accounts: &mut Vec<AccountInfo>, amount: u64) -> (result: Result<
        (),
        TokenError,
    >)
        ensures
            Self::carried_out(
                old(accounts)@,
                final(accounts)@,
                result,
                Self::mint_outcome(views(old(accounts)@), amount),
            ),
    {
        let (mut token_account, mut mint) = match Self::load_issuer(accounts) {
            Ok(loaded) => loaded,
            Err(e) => { return Err(e); },
        };
        mint.supply = match mint.supply.checked_add(amount) {
            Some(supply) => supply,
            None => { return Err(TokenError::Overflow); },
        };
        token_account.amount = match token_account.amount.checked_add(amount) {
            Some(balance) => balance,
            None => { return Err(TokenError::Overflow); },
        };
        Self::save_account_and_mint(accounts, &token_account, &mint)
    }

    fn process_burn(accounts: &mut Vec<AccountInfo>, amount: u64) -> (result: Result<
        (),
        TokenError,
    >)
        ensures
            Self::carried_out(
                old(accounts)@,
                final(accounts)@,
                result,
                Self::burn_outcome(views(old(accounts)@), amount),
            ),
    {
        let (mut token_account, mut mint) = match Self::load_issuer(accounts) {
            Ok(loaded) => loaded,
            Err(e) => { return Err(e); },
        };
        mint.supply = match mint.supply.checked_sub(amount) {
            Some(supply) => supply,
            None => { return Err(TokenError::InsufficientBalance); },
        };
        token_account.amount = match token_account.amount.checked_sub(amount) {
            Some(balance) => balance,
            None => { return Err(TokenError::InsufficientBalance); },
        };
        Self::save_account_and_mint(accounts, &token_account, &mint)
    }

    fn process_transfer(accounts: &mut Vec<AccountInfo>, amount: u64) -> (result: Result<
        (),
        TokenError,
    >)
        ensures
            Self::carried_out(
                old(accounts)@,
                final(accounts)@,
                result,
                Self::transfer_outcome(views(old(accounts)@), amount),
            ),
    {
        if accounts.len() < 3 {
            return Err(TokenError::MissingHandle);
        }
        let mut source = match TokenAccount::load_check(&accounts[0]) {
            Ok(source) => source,
            Err(e) => { return Err(e); },
        };
        let mut destination = match TokenAccount::load_check(&accounts[1]) {
            Ok(destination) => destination,
            Err(e) => { return Err(e); },
        };
        match assert_with_msg(
            accounts[2].is_signer,
            TokenError::AuthorizationError,
            "Token owner must sign",
        ) {
            Ok(()) => {},
            Err(e) => { return Err(e); },
        }
        match assert_with_msg(
            source.owner == accounts[2].key,
            TokenError::AuthorizationError,
            "Token owner mismatch",
        ) {
            Ok(()) => {},
            Err(e) => { return Err(e); },
        }
        match assert_with_msg(
            source.amount >= amount,
            TokenError::InsufficientBalance,
            "Attempting to transfer more than account balance",
        ) {
            Ok(()) => {},
            Err(e) => { return Err(e); },
        }
        match assert_with_msg(
            source.mint == destination.mint,
            TokenError::MintMismatch,
            "Token account mints do not match",
        ) {
            Ok(()) => {},
            Err(e) => { return Err(e); },
        }
        if accounts[0].key == accounts[1].key {
            return Ok(());
        }
        source.amount = source.amount - amount;
        destination.amount = match destination.amount.checked_add(amount) {
            Some(balance) => balance,
            None => { return Err(TokenError::Overflow); },
        };
        match source.save(&mut accounts[0]) {
            Ok(()) => {},
            Err(e) => { return Err(e); },
        }
        let saved = destination.save(&mut accounts[1]);
        proof {
            let before = views(old(accounts)@);
            source.owner.lemma_len();
            source.mint.lemma_len();
            destination.owner.lemma_len();
            destination.mint.lemma_len();
            source@.lemma_decode_encode();
            destination@.lemma_decode_encode();
            assert(accounts@[0]@.data =~= source@.encode());
            assert(accounts@[1]@.data =~= destination@.encode());
            assert(views(accounts@) =~= before.update(
                0,
                before[0].with_data(source@.encode()),
            ).update(1, before[1].with_data(destination@.encode())));
        }
        saved
    }

    /// Executes one operation on the handles it names. Everything is checked
    /// before anything is written: on failure every block is as it was, on
    /// success the blocks hold exactly what [`Self::outcome`] says.
    pub fn process_instruction(
        _program_id: &Pubkey,
        accounts: &mut Vec<AccountInfo>,
        instruction: TokenInstruction,
    ) -> (result: Result<(), TokenError>)
        ensures
            Self::carried_out(
                old(accounts)@,
                final(accounts)@,
                result,
                Self::outcome(views(old(accounts)@), instruction),
            ),
    {
        match instruction {
            TokenInstruction::InitializeMint => Self::process_initialize_mint(accounts),
            TokenInstruction::InitializeTokenAccount => Self::process_initialize_token_account(
                accounts,
            ),
            TokenInstruction::Mint { amount } => Self::process_mint(accounts, amount),
            TokenInstruction::Burn { amount } => Self::process_burn(accounts, amount),
            TokenInstruction::Transfer { amount } => Self::process_transfer(accounts, amount),
        }
    }

    /// Issuing and burning need the mint's authority: where account and mint
    /// load, but the third handle has not signed or is not the authority on
    /// record, both operations are refused for want of authorization, and every
    /// block stays as it was.
    pub proof fn lemma_authority_enforced(
        before: Seq<AccountInfo>,
        after: Seq<AccountInfo>,
        result: Result<(), TokenError>,
        instruction: TokenInstruction,
    )
        requires
            instruction is Mint || instruction is Burn,
            Self::carried_out(before, after, result, Self::outcome(views(before), instruction)),
            before.len() >= 3,
            TokenAccountView::load_checked(before[0]@.data) is Ok,
            MintView::load_checked(before[1]@.data) matches Ok(mint) && (!before[2].is_signer
                || before[2].key@ != mint.authority),
        ensures
            result == Err::<(), TokenError>(TokenError::AuthorizationError),
            views(after) == views(before),
    {
    }

    /// No balance and no supply wraps past the top: an issue that would take
    /// the supply or the balance past `u64::MAX` is refused as an overflow,
    /// and every block stays as it was.
    pub proof fn lemma_issue_overflow_refused(
        before: Seq<AccountInfo>,
        after: Seq<AccountInfo>,
        result: Result<(), TokenError>,
        amount: u64,
    )
        requires
            Self::carried_out(
                before,
                after,
                result,
                Self::outcome(views(before), TokenInstruction::Mint { amount }),
            ),
            Self::issuer_checked(views(before)) matches Ok((account, mint)) && (account.amount
                + amount > u64::MAX || mint.supply + amount > u64::MAX),
        ensures
            result == Err::<(), TokenError>(TokenError::Overflow),
            views(after) == views(before),
    {
    }

    /// A transfer between two blocks that would take the destination past
    /// `u64::MAX` is refused as an overflow, and every block stays as it was.
    pub proof fn lemma_transfer_overflow_refused(
        before: Seq<AccountInfo>,
        after: Seq<AccountInfo>,
        result: Result<(), TokenError>,
        amount: u64,
    )
        requires
            Self::carried_out(
                before,
                after,
                result,
                Self::outcome(views(before), TokenInstruction::Transfer { amount }),
            ),
            Self::owner_checked(views(before)) matches Ok((source, destination)) && amount
                <= source.amount && source.mint == destination.mint && destination.amount
                + amount > u64::MAX,
            before[0].key@ != before[1].key@,
        ensures
            result == Err::<(), TokenError>(TokenError::Overflow),
            views(after) == views(before),
    {
    }

    /// No balance and no supply goes below zero: a burn of more than the
    /// account holds or than is in circulation is refused as insufficient, and
    /// every block stays as it was.
    pub proof fn lemma_burn_beyond_balance_refused(
        before: Seq<AccountInfo>,
        after: Seq<AccountInfo>,
        result: Result<(), TokenError>,
        amount: u64,
    )
        requires
            Self::carried_out(
                before,
                after,
                result,
                Self::outcome(views(before), TokenInstruction::Burn { amount }),
            ),
            Self::issuer_checked(views(before)) matches Ok((account, mint)) && (amount
                > account.amount || amount > mint.supply),
        ensures
            result == Err::<(), TokenError>(TokenError::InsufficientBalance),
            views(after) == views(before),
    {
    }

    /// A transfer of more than the source holds is refused as insufficient,
    /// and every block stays as it was.
    pub proof fn lemma_transfer_beyond_balance_refused(
        before: Seq<AccountInfo>,
        after: Seq<AccountInfo>,
        result: Result<(), TokenError>,
        amount: u64,
    )
        requires
            Self::carried_out(
                before,
                after,
                result,
                Self::outcome(views(before), TokenInstruction::Transfer { amount }),
            ),
            Self::owner_checked(views(before)) matches Ok((source, _)) && amount > source.amount,
        ensures
            result == Err::<(), TokenError>(TokenError::InsufficientBalance),
            views(after) == views(before),
    {
    }

    /// A transfer that the source can afford, between accounts of different
    /// mints, is refused as a mismatch, and every block stays as it was.
    pub proof fn lemma_transfer_across_mints_refused(
        before: Seq<AccountInfo>,
        after: Seq<AccountInfo>,
        result: Result<(), TokenError>,
        amount: u64,
    )
        requires
            Self::carried_out(
                before,
                after,
                result,
                Self::outcome(views(before), TokenInstruction::Transfer { amount }),
            ),
            Self::owner_checked(views(before)) matches Ok((source, destination)) && amount
                <= source.amount && source.mint != destination.mint,
        ensures
            result == Err::<(), TokenError>(TokenError::MintMismatch),
            views(after) == views(before),
    {
    }

    /// A transfer of all that the source holds, to another block of the same
    /// mint that has room for it, succeeds: the source is left with nothing,
    /// the destination has that much more, nothing else of the two accounts
    /// changes, and no other handle is touched, so no mint is.
    pub proof fn lemma_transfer_of_everything(
        before: Seq<AccountInfo>,
        after: Seq<AccountInfo>,
        result: Result<(), TokenError>,
        amount: u64,
    )
        requires
            Self::carried_out(
                before,
                after,
                result,
                Self::outcome(views(before), TokenInstruction::Transfer { amount }),
            ),
            Self::owner_checked(views(before)) matches Ok((source, destination)) && amount
                == source.amount && source.mint == destination.mint && destination.amount
                + amount <= u64::MAX,
            before[0].key@ != before[1].key@,
        ensures
            result is Ok,
            Self::owner_checked(views(before)) matches Ok((source, destination)) && {
                &&& TokenAccountView::load_checked(after[0]@.data) == Ok::<
                    TokenAccountView,
                    TokenError,
                >(TokenAccountView { amount: 0, ..source })
                &&& TokenAccountView::load_checked(after[1]@.data) == Ok::<
                    TokenAccountView,
                    TokenError,
                >(
                    TokenAccountView {
                        amount: (destination.amount + amount) as u64,
                        ..destination
                    },
                )
            },
            forall|k: int| 2 <= k < before.len() ==> after[k]@ == before[k]@,
    {
        let given = views(before);
        let (source, destination) = Self::owner_checked(given)->Ok_0;
        TokenAccountView::lemma_encode_decode(given[0].data);
        TokenAccountView::lemma_encode_decode(given[1].data);
        (TokenAccountView { amount: 0, ..source }).lemma_decode_encode();
        (TokenAccountView {
            amount: (destination.amount + amount) as u64,
            ..destination
        }).lemma_decode_encode();
        assert(views(after)[0] == after[0]@);
        assert(views(after)[1] == after[1]@);
        assert forall|k: int| 2 <= k < before.len() implies after[k]@ == before[k]@ by {
            assert(views(after)[k] == after[k]@);
            assert(given[k] == before[k]@);
        }
    }

    /// Issuing, burning and transferring change amounts and nothing else: a
    /// handle keeps its identity, and a block that held an initialized
    /// account or mint holds the same one afterwards, but for its balance or
    /// supply.
    pub proof fn lemma_only_amounts_change(
        accounts: Seq<AccountInfoView>,
        instruction: TokenInstruction,
        after: Seq<AccountInfoView>,
        k: int,
    )
        requires
            instruction is Mint || instruction is Burn || instruction is Transfer,
            Self::outcome(accounts, instruction) == Ok::<Seq<AccountInfoView>, TokenError>(after),
            0 <= k < accounts.len(),
        ensures
            after.len() == accounts.len(),
            after[k].key == accounts[k].key,
            after[k].is_signer == accounts[k].is_signer,
            TokenAccountView::load_checked(accounts[k].data) matches Ok(account) ==> (
            TokenAccountView::load_checked(after[k].data) matches Ok(kept) && kept == (
            TokenAccountView { amount: kept.amount, ..account })),
            MintView::load_checked(accounts[k].data) matches Ok(mint) ==> (MintView::load_checked(
                after[k].data,
            ) matches Ok(kept) && kept == (MintView { supply: kept.supply, ..mint })),
    {
        TokenAccountView::lemma_encode_decode(accounts[0].data);
        if TokenAccountView::decode(accounts[1].data) is Some {
            TokenAccountView::lemma_encode_decode(accounts[1].data);
        }
        if MintView::decode(accounts[1].data) is Some {
            MintView::lemma_encode_decode(accounts[1].data);
        }
        if k == 0 {
            let account = TokenAccountView::load_checked(accounts[0].data)->Ok_0;
            match instruction {
                TokenInstruction::Mint { amount } => {
                    (TokenAccountView {
                        amount: (account.amount + amount) as u64,
                        ..account
                    }).lemma_decode_encode();
                },
                TokenInstruction::Burn { amount } => {
                    (TokenAccountView {
                        amount: (account.amount - amount) as u64,
                        ..account
                    }).lemma_decode_encode();
                },
                TokenInstruction::Transfer { amount } => {
                    (TokenAccountView {
                        amount: (account.amount - amount) as u64,
                        ..account
                    }).lemma_decode_encode();
                },
                _ => {},
            }
        } else if k == 1 {
            match instruction {
                TokenInstruction::Mint { amount } => {
                    let mint = MintView::load_checked(accounts[1].data)->Ok_0;
                    (MintView { supply: (mint.supply + amount) as u64, ..mint }).lemma_decode_encode();
                },
                TokenInstruction::Burn { amount } => {
                    let mint = MintView::load_checked(accounts[1].data)->Ok_0;
                    (MintView { supply: (mint.supply - amount) as u64, ..mint }).lemma_decode_encode();
                },
                TokenInstruction::Transfer { amount } => {
                    let account = TokenAccountView::load_checked(accounts[1].data)->Ok_0;
                    if accounts[0].key != accounts[1].key {
                        (TokenAccountView {
                            amount: (account.amount + amount) as u64,
                            ..account
                        }).lemma_decode_encode();
                    }
                },
                _ => {},
            }
        }
    }
}

} // verus!
