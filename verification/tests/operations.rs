use token_ledger::{
    assert_with_msg, AccountInfo, AccountTag, Mint, Processor, Pubkey, TokenAccount, TokenError,
    TokenInstruction,
};

fn key(byte: u8) -> Pubkey {
    Pubkey::new_from_array([byte; 32])
}

fn handle(id: u8, is_signer: bool, data: Vec<u8>) -> AccountInfo {
    AccountInfo::new(key(id), is_signer, data)
}

fn mint_block(id: u8, authority: u8, supply: u64) -> AccountInfo {
    let mut stored = handle(id, false, vec![0; 41]);
    Mint { tag: AccountTag::Mint, authority: key(authority), supply }.save(&mut stored).unwrap();
    stored
}

fn account_block(id: u8, owner: u8, mint: u8, amount: u64) -> AccountInfo {
    let mut stored = handle(id, false, vec![0; 73]);
    TokenAccount { tag: AccountTag::TokenAccount, owner: key(owner), mint: key(mint), amount }
        .save(&mut stored)
        .unwrap();
    stored
}

fn signer(id: u8) -> AccountInfo {
    handle(id, true, Vec::new())
}

fn run(accounts: &mut Vec<AccountInfo>, instruction: TokenInstruction) -> Result<(), TokenError> {
    Processor::process_instruction(&key(0), accounts, instruction)
}

fn data_of(accounts: &[AccountInfo]) -> Vec<Vec<u8>> {
    accounts.iter().map(|a| a.data.clone()).collect()
}

/// Runs the instruction, expects the error, and expects every block to be as
/// it was.
fn refused(mut accounts: Vec<AccountInfo>, instruction: TokenInstruction, error: TokenError) {
    let before = data_of(&accounts);
    assert_eq!(run(&mut accounts, instruction), Err(error));
    assert_eq!(data_of(&accounts), before);
}

fn amount_of(account: &AccountInfo) -> u64 {
    TokenAccount::load_check(account).unwrap().amount
}

fn supply_of(mint: &AccountInfo) -> u64 {
    Mint::load_check(mint).unwrap().supply
}

#[test]
fn assert_with_msg_passes_or_gives_the_error() {
    assert_eq!(assert_with_msg(true, TokenError::Overflow, "never"), Ok(()));
    assert_eq!(
        assert_with_msg(false, TokenError::Overflow, "too much"),
        Err(TokenError::Overflow)
    );
    assert_eq!(
        assert_with_msg(false, TokenError::MintMismatch, ""),
        Err(TokenError::MintMismatch)
    );
}

#[test]
fn every_operation_needs_its_handles() {
    let all = [
        (TokenInstruction::InitializeMint, 2usize),
        (TokenInstruction::InitializeTokenAccount, 2),
        (TokenInstruction::Mint { amount: 1 }, 3),
        (TokenInstruction::Burn { amount: 1 }, 3),
        (TokenInstruction::Transfer { amount: 1 }, 3),
    ];
    for (instruction, needed) in all {
        for given in 0..needed {
            let mut accounts =
                vec![account_block(2, 2, 1, 10), mint_block(1, 9, 10), signer(9)];
            accounts.truncate(given);
            refused(accounts, instruction, TokenError::MissingHandle);
        }
    }
}

#[test]
fn handles_beyond_those_consumed_are_left_alone() {
    let extra = handle(50, true, vec![1, 2, 3]);
    let mut accounts =
        vec![account_block(2, 2, 1, 10), mint_block(1, 9, 10), signer(9), extra.clone()];
    assert_eq!(run(&mut accounts, TokenInstruction::Mint { amount: 5 }), Ok(()));
    assert_eq!(accounts.len(), 4);
    assert_eq!(accounts[3].data, extra.data);
    assert!(accounts[3].key == key(50));
    assert!(accounts[3].is_signer);
    assert_eq!(amount_of(&accounts[0]), 15);
    assert_eq!(supply_of(&accounts[1]), 15);
}

#[test]
fn initialize_mint_needs_the_signature_of_the_authority() {
    refused(
        vec![handle(1, false, vec![0; 41]), handle(9, false, Vec::new())],
        TokenInstruction::InitializeMint,
        TokenError::AuthorizationError,
    );
    // The signature is asked for before the block is read.
    refused(
        vec![handle(1, false, vec![0; 5]), handle(9, false, Vec::new())],
        TokenInstruction::InitializeMint,
        TokenError::AuthorizationError,
    );
}

#[test]
fn initialize_mint_needs_a_block_of_the_size_of_a_mint() {
    for len in [0usize, 40, 42, 73] {
        refused(
            vec![handle(1, false, vec![0; len]), signer(9)],
            TokenInstruction::InitializeMint,
            TokenError::DecodeError,
        );
    }
    let mut garbage = vec![0u8; 41];
    garbage[0] = 200;
    refused(
        vec![handle(1, false, garbage), signer(9)],
        TokenInstruction::InitializeMint,
        TokenError::DecodeError,
    );
}

#[test]
fn initialize_mint_overwrites_an_initialized_mint() {
    let mut accounts = vec![mint_block(1, 9, 500), signer(8)];
    assert_eq!(run(&mut accounts, TokenInstruction::InitializeMint), Ok(()));
    let mint = Mint::load_check(&accounts[0]).unwrap();
    assert_eq!(mint.supply, 0);
    assert!(mint.authority == key(8));
}

#[test]
fn initialize_token_account_asks_for_no_signature_and_reads_no_mint() {
    let mut accounts = vec![handle(2, false, vec![0; 73]), handle(1, false, vec![1, 2, 3])];
    assert_eq!(run(&mut accounts, TokenInstruction::InitializeTokenAccount), Ok(()));
    let account = TokenAccount::load_check(&accounts[0]).unwrap();
    assert!(account.owner == key(2));
    assert!(account.mint == key(1));
    assert_eq!(account.amount, 0);
    assert_eq!(accounts[1].data, vec![1, 2, 3]);
}

#[test]
fn initialize_token_account_needs_a_block_of_the_size_of_an_account() {
    for len in [0usize, 41, 72, 74] {
        refused(
            vec![handle(2, false, vec![0; len]), mint_block(1, 9, 0)],
            TokenInstruction::InitializeTokenAccount,
            TokenError::DecodeError,
        );
    }
}

#[test]
fn initialize_token_account_overwrites_an_initialized_account() {
    let mut accounts = vec![account_block(2, 3, 1, 44), mint_block(5, 9, 0)];
    assert_eq!(run(&mut accounts, TokenInstruction::InitializeTokenAccount), Ok(()));
    let account = TokenAccount::load_check(&accounts[0]).unwrap();
    assert!(account.owner == key(2));
    assert!(account.mint == key(5));
    assert_eq!(account.amount, 0);
}

#[test]
fn mint_and_burn_need_an_initialized_account_and_mint() {
    for instruction in [TokenInstruction::Mint { amount: 1 }, TokenInstruction::Burn { amount: 1 }]
    {
        refused(
            vec![handle(2, false, vec![0; 10]), mint_block(1, 9, 10), signer(9)],
            instruction,
            TokenError::DecodeError,
        );
        refused(
            vec![handle(2, false, vec![0; 73]), mint_block(1, 9, 10), signer(9)],
            instruction,
            TokenError::TagMismatch,
        );
        refused(
            vec![account_block(2, 2, 1, 10), handle(1, false, vec![0; 73]), signer(9)],
            instruction,
            TokenError::DecodeError,
        );
        refused(
            vec![account_block(2, 2, 1, 10), handle(1, false, vec![0; 41]), signer(9)],
            instruction,
            TokenError::TagMismatch,
        );
        // The account is read before the mint.
        refused(
            vec![handle(2, false, vec![0; 73]), handle(1, false, vec![0; 3]), signer(9)],
            instruction,
            TokenError::TagMismatch,
        );
    }
}

#[test]
fn mint_and_burn_need_the_authority_to_sign() {
    for instruction in [TokenInstruction::Mint { amount: 1 }, TokenInstruction::Burn { amount: 1 }]
    {
        refused(
            vec![account_block(2, 2, 1, 10), mint_block(1, 9, 10), handle(9, false, Vec::new())],
            instruction,
            TokenError::AuthorizationError,
        );
    }
}

#[test]
fn mint_and_burn_need_the_authority_on_record() {
    for instruction in [TokenInstruction::Mint { amount: 1 }, TokenInstruction::Burn { amount: 1 }]
    {
        refused(
            vec![account_block(2, 2, 1, 10), mint_block(1, 9, 10), signer(8)],
            instruction,
            TokenError::AuthorizationError,
        );
        let mut nearly = [9u8; 32];
        nearly[17] = 0;
        refused(
            vec![
                account_block(2, 2, 1, 10),
                mint_block(1, 9, 10),
                AccountInfo::new(Pubkey::new_from_array(nearly), true, Vec::new()),
            ],
            instruction,
            TokenError::AuthorizationError,
        );
    }
}

#[test]
fn mint_adds_to_balance_and_supply() {
    let mut accounts = vec![account_block(2, 2, 1, 10), mint_block(1, 9, 30), signer(9)];
    assert_eq!(run(&mut accounts, TokenInstruction::Mint { amount: 5 }), Ok(()));
    assert_eq!(amount_of(&accounts[0]), 15);
    assert_eq!(supply_of(&accounts[1]), 35);
    assert_eq!(run(&mut accounts, TokenInstruction::Mint { amount: 0 }), Ok(()));
    assert_eq!(amount_of(&accounts[0]), 15);
    assert_eq!(supply_of(&accounts[1]), 35);
    let account = TokenAccount::load_check(&accounts[0]).unwrap();
    assert!(account.owner == key(2));
    assert!(account.mint == key(1));
    assert!(Mint::load_check(&accounts[1]).unwrap().authority == key(9));
}

#[test]
fn mint_does_not_wrap() {
    refused(
        vec![account_block(2, 2, 1, 10), mint_block(1, 9, u64::MAX - 4), signer(9)],
        TokenInstruction::Mint { amount: 5 },
        TokenError::Overflow,
    );
    refused(
        vec![account_block(2, 2, 1, u64::MAX - 4), mint_block(1, 9, 10), signer(9)],
        TokenInstruction::Mint { amount: 5 },
        TokenError::Overflow,
    );
    refused(
        vec![account_block(2, 2, 1, 1), mint_block(1, 9, 1), signer(9)],
        TokenInstruction::Mint { amount: u64::MAX },
        TokenError::Overflow,
    );
    let mut accounts =
        vec![account_block(2, 2, 1, 10), mint_block(1, 9, u64::MAX - 5), signer(9)];
    assert_eq!(run(&mut accounts, TokenInstruction::Mint { amount: 5 }), Ok(()));
    assert_eq!(amount_of(&accounts[0]), 15);
    assert_eq!(supply_of(&accounts[1]), u64::MAX);
}

#[test]
fn mint_does_not_compare_the_mint_of_the_account() {
    let mut accounts = vec![account_block(2, 2, 77, 10), mint_block(1, 9, 30), signer(9)];
    assert_eq!(run(&mut accounts, TokenInstruction::Mint { amount: 5 }), Ok(()));
    assert_eq!(amount_of(&accounts[0]), 15);
    assert_eq!(supply_of(&accounts[1]), 35);
}

#[test]
fn burn_takes_from_balance_and_supply() {
    let mut accounts = vec![account_block(2, 2, 1, 10), mint_block(1, 9, 30), signer(9)];
    assert_eq!(run(&mut accounts, TokenInstruction::Burn { amount: 4 }), Ok(()));
    assert_eq!(amount_of(&accounts[0]), 6);
    assert_eq!(supply_of(&accounts[1]), 26);
    assert_eq!(run(&mut accounts, TokenInstruction::Burn { amount: 6 }), Ok(()));
    assert_eq!(amount_of(&accounts[0]), 0);
    assert_eq!(supply_of(&accounts[1]), 20);
}

#[test]
fn burn_does_not_go_below_zero() {
    refused(
        vec![account_block(2, 2, 1, 10), mint_block(1, 9, 30), signer(9)],
        TokenInstruction::Burn { amount: 11 },
        TokenError::InsufficientBalance,
    );
    refused(
        vec![account_block(2, 2, 1, 10), mint_block(1, 9, 3), signer(9)],
        TokenInstruction::Burn { amount: 4 },
        TokenError::InsufficientBalance,
    );
    refused(
        vec![account_block(2, 2, 1, 0), mint_block(1, 9, 0), signer(9)],
        TokenInstruction::Burn { amount: u64::MAX },
        TokenError::InsufficientBalance,
    );
}

#[test]
fn transfer_needs_two_initialized_accounts() {
    refused(
        vec![handle(2, false, vec![0; 72]), account_block(3, 3, 1, 0), signer(2)],
        TokenInstruction::Transfer { amount: 1 },
        TokenError::DecodeError,
    );
    refused(
        vec![account_block(2, 2, 1, 10), mint_block(1, 9, 10), signer(2)],
        TokenInstruction::Transfer { amount: 1 },
        TokenError::DecodeError,
    );
    refused(
        vec![account_block(2, 2, 1, 10), handle(3, false, vec![0; 73]), signer(2)],
        TokenInstruction::Transfer { amount: 1 },
        TokenError::TagMismatch,
    );
}

#[test]
fn transfer_needs_the_owner_to_sign() {
    refused(
        vec![account_block(2, 2, 1, 10), account_block(3, 3, 1, 0), handle(2, false, Vec::new())],
        TokenInstruction::Transfer { amount: 1 },
        TokenError::AuthorizationError,
    );
    refused(
        vec![account_block(2, 2, 1, 10), account_block(3, 3, 1, 0), signer(3)],
        TokenInstruction::Transfer { amount: 1 },
        TokenError::AuthorizationError,
    );
}

#[test]
fn transfer_beyond_the_balance_is_refused() {
    refused(
        vec![account_block(2, 2, 1, 10), account_block(3, 3, 1, 0), signer(2)],
        TokenInstruction::Transfer { amount: 11 },
        TokenError::InsufficientBalance,
    );
    // The balance is looked at before the mints are compared.
    refused(
        vec![account_block(2, 2, 1, 10), account_block(3, 3, 4, 0), signer(2)],
        TokenInstruction::Transfer { amount: 11 },
        TokenError::InsufficientBalance,
    );
}

#[test]
fn transfer_between_mints_is_refused() {
    refused(
        vec![account_block(2, 2, 1, 10), account_block(3, 3, 4, 0), signer(2)],
        TokenInstruction::Transfer { amount: 10 },
        TokenError::MintMismatch,
    );
    refused(
        vec![account_block(2, 2, 1, 10), account_block(3, 3, 4, 0), signer(2)],
        TokenInstruction::Transfer { amount: 0 },
        TokenError::MintMismatch,
    );
}

#[test]
fn transfer_does_not_wrap_the_destination() {
    refused(
        vec![account_block(2, 2, 1, 10), account_block(3, 3, 1, u64::MAX - 9), signer(2)],
        TokenInstruction::Transfer { amount: 10 },
        TokenError::Overflow,
    );
    let mut accounts =
        vec![account_block(2, 2, 1, 10), account_block(3, 3, 1, u64::MAX - 10), signer(2)];
    assert_eq!(run(&mut accounts, TokenInstruction::Transfer { amount: 10 }), Ok(()));
    assert_eq!(amount_of(&accounts[0]), 0);
    assert_eq!(amount_of(&accounts[1]), u64::MAX);
}

#[test]
fn transfer_of_the_whole_balance_empties_the_source() {
    let mint = mint_block(1, 9, 100);
    let mut accounts = vec![account_block(2, 2, 1, 100), account_block(3, 3, 1, 7), signer(2)];
    assert_eq!(run(&mut accounts, TokenInstruction::Transfer { amount: 100 }), Ok(()));
    assert_eq!(amount_of(&accounts[0]), 0);
    assert_eq!(amount_of(&accounts[1]), 107);
    let source = TokenAccount::load_check(&accounts[0]).unwrap();
    assert!(source.owner == key(2));
    assert!(source.mint == key(1));
    let destination = TokenAccount::load_check(&accounts[1]).unwrap();
    assert!(destination.owner == key(3));
    assert!(destination.mint == key(1));
    assert_eq!(supply_of(&mint), 100);
}

#[test]
fn transfer_to_the_same_block_moves_nothing() {
    let source = account_block(2, 2, 1, 10);
    let mut accounts = vec![source.clone(), source.clone(), signer(2)];
    let before = data_of(&accounts);
    assert_eq!(run(&mut accounts, TokenInstruction::Transfer { amount: 4 }), Ok(()));
    assert_eq!(data_of(&accounts), before);
    assert_eq!(amount_of(&accounts[0]), 10);
    assert_eq!(amount_of(&accounts[1]), 10);
    // The checks are still made.
    refused(
        vec![source.clone(), source.clone(), signer(2)],
        TokenInstruction::Transfer { amount: 11 },
        TokenError::InsufficientBalance,
    );
    refused(
        vec![source.clone(), source.clone(), signer(3)],
        TokenInstruction::Transfer { amount: 4 },
        TokenError::AuthorizationError,
    );
    // A full block moved onto itself neither wraps nor grows.
    let full = account_block(2, 2, 1, u64::MAX);
    let mut accounts = vec![full.clone(), full.clone(), signer(2)];
    assert_eq!(run(&mut accounts, TokenInstruction::Transfer { amount: u64::MAX }), Ok(()));
    assert_eq!(amount_of(&accounts[0]), u64::MAX);
}

#[test]
fn the_program_identity_does_not_matter() {
    for program in [0u8, 1, 255] {
        let mut accounts = vec![account_block(2, 2, 1, 10), mint_block(1, 9, 30), signer(9)];
        assert_eq!(
            Processor::process_instruction(
                &key(program),
                &mut accounts,
                TokenInstruction::Mint { amount: 5 }
            ),
            Ok(())
        );
        assert_eq!(amount_of(&accounts[0]), 15);
    }
}
