use vstd::prelude::*;
use crate::account_info::AccountInfoView;
use crate::instruction::TokenInstruction;
use crate::processor::Processor;
use crate::state::{AccountTag, MintView, TokenAccountView};

verus! {

/// One storage block of a ledger: the identity it is stored under, and its
/// bytes.
pub struct Block {
    pub key: Seq<u8>,
    pub data: Seq<u8>,
}

/// One handle of a call: which block of the ledger it is on, and whether the
/// block's identity has signed.
pub struct Slot {
    pub index: int,
    pub is_signer: bool,
}

/// One operation with the blocks it is to work on, in the order in which the
/// operation consumes them. A block may be named more than once.
pub struct Call {
    pub instruction: TokenInstruction,
    pub slots: Seq<Slot>,
}

/// Every block is stored under an identity of 32 bytes.
pub open spec fn ledger_wf(ledger: Seq<Block>) -> bool {
    forall|i: int| 0 <= i < ledger.len() ==> (#[trigger] ledger[i]).key.len() == 32
}

/// Every handle of the call is on a block of the ledger.
pub open spec fn call_wf(ledger: Seq<Block>, call: Call) -> bool {
    forall|k: int| 0 <= k < call.slots.len() ==> 0 <= (#[trigger] call.slots[k]).index < ledger.len()
}

/// The handles that the call hands to the operation.
pub open spec fn handles(ledger: Seq<Block>, call: Call) -> Seq<AccountInfoView> {
    Seq::new(
        call.slots.len(),
        |k: int|
            AccountInfoView {
                key: ledger[call.slots[k].index].key,
                is_signer: call.slots[k].is_signer,
                data: ledger[call.slots[k].index].data,
            },
    )
}

/// The ledger once the first `n` handles have been put back: a handle whose
/// bytes the operation changed is written to its block, the others are not.
pub open spec fn write_back(
    ledger: Seq<Block>,
    slots: Seq<Slot>,
    before: Seq<AccountInfoView>,
    after: Seq<AccountInfoView>,
    n: nat,
) -> Seq<Block>
    decreases n,
{
    if n == 0 {
        ledger
    } else {
        let k = n - 1;
        let rest = write_back(ledger, slots, before, after, k as nat);
        if after[k].data == before[k].data {
            rest
        } else {
            rest.update(slots[k].index, Block { key: before[k].key, data: after[k].data })
        }
    }
}

/// The ledger after the call: as it was where the operation fails, and with
/// the changed handles put back where it succeeds.
pub open spec fn step(ledger: Seq<Block>, call: Call) -> Seq<Block> {
    let before = handles(ledger, call);
    match Processor::outcome(before, call.instruction) {
        Err(_) => ledger,
        Ok(after) => write_back(ledger, call.slots, before, after, before.len()),
    }
}

/// The ledger after the calls, one after the other.
pub open spec fn run(ledger: Seq<Block>, calls: Seq<Call>) -> Seq<Block>
    decreases calls.len(),
{
    if calls.len() == 0 {
        ledger
    } else {
        run(step(ledger, calls[0]), calls.drop_first())
    }
}

/// What the block adds to the balances denominated in `mint`: its amount
/// where it is an initialized account of that mint, else nothing.
pub open spec fn balance_in(block: Block, mint: Seq<u8>) -> nat {
    match TokenAccountView::load_checked(block.data) {
        Ok(account) => if account.mint == mint {
            account.amount as nat
        } else {
            0
        },
        Err(_) => 0,
    }
}

/// What the block adds to the supply of `mint`: its supply where it is an
/// initialized mint stored under that identity, else nothing.
pub open spec fn supply_in(block: Block, mint: Seq<u8>) -> nat {
    match MintView::load_checked(block.data) {
        Ok(record) => if block.key == mint {
            record.supply as nat
        } else {
            0
        },
        Err(_) => 0,
    }
}

/// The sum of the balances of all accounts of `mint`.
pub open spec fn total_balance(ledger: Seq<Block>, mint: Seq<u8>) -> nat
    decreases ledger.len(),
{
    if ledger.len() == 0 {
        0
    } else {
        total_balance(ledger.drop_last(), mint) + balance_in(ledger.last(), mint)
    }
}

/// The supply on record for `mint`, summed over the blocks stored under that
/// identity. [`lemma_supply_of_mint`] says that this is the supply of the mint
/// where no two blocks share an identity.
pub open spec fn total_supply(ledger: Seq<Block>, mint: Seq<u8>) -> nat
    decreases ledger.len(),
{
    if ledger.len() == 0 {
        0
    } else {
        total_supply(ledger.drop_last(), mint) + supply_in(ledger.last(), mint)
    }
}

/// For every mint, the supply on record is the sum of the balances
/// denominated in it.
pub open spec fn conserved(ledger: Seq<Block>) -> bool {
    forall|mint: Seq<u8>| #[trigger] total_supply(ledger, mint) == total_balance(ledger, mint)
}

/// The call does none of the three things that put the books out of balance
/// when they succeed: initializing over a mint that has supply, initializing
/// over an account that has a balance, and issuing to or burning from an
/// account of another mint.
pub open spec fn keeps_books(ledger: Seq<Block>, call: Call) -> bool {
    let given = handles(ledger, call);
    match call.instruction {
        TokenInstruction::InitializeMint => !(MintView::load_checked(given[0].data) matches Ok(
            mint,
        ) && mint.supply > 0),
        TokenInstruction::InitializeTokenAccount => !(TokenAccountView::load_checked(
            given[0].data,
        ) matches Ok(account) && account.amount > 0),
        TokenInstruction::Mint { amount } => amount == 0 || (Processor::issuer_checked(
            given,
        ) matches Ok((account, _)) && account.mint == given[1].key),
        TokenInstruction::Burn { amount } => amount == 0 || (Processor::issuer_checked(
            given,
        ) matches Ok((account, _)) && account.mint == given[1].key),
        TokenInstruction::Transfer { amount } => true,
    }
}

/// Every call is on blocks of the ledger as it is when the call is made, and
/// every call that succeeds keeps the books.
pub open spec fn all_keep_books(ledger: Seq<Block>, calls: Seq<Call>) -> bool
    decreases calls.len(),
{
    calls.len() == 0 || {
        &&& call_wf(ledger, calls[0])
        &&& Processor::outcome(handles(ledger, calls[0]), calls[0].instruction) is Ok
            ==> keeps_books(ledger, calls[0])
        &&& all_keep_books(step(ledger, calls[0]), calls.drop_first())
    }
}

/// Replacing one block changes the sum of balances by the difference between
/// what the new block adds and what the old one added.
pub proof fn lemma_total_balance_update(ledger: Seq<Block>, i: int, block: Block, mint: Seq<u8>)
    requires
        0 <= i < ledger.len(),
    ensures
        total_balance(ledger.update(i, block), mint) == total_balance(ledger, mint) - balance_in(
            ledger[i],
            mint,
        ) + balance_in(block, mint),
    decreases ledger.len(),
{
    let updated = ledger.update(i, block);
    if i == ledger.len() - 1 {
        assert(updated.drop_last() =~= ledger.drop_last());
    } else {
        lemma_total_balance_update(ledger.drop_last(), i, block, mint);
        assert(updated.drop_last() =~= ledger.drop_last().update(i, block));
    }
}

/// Replacing one block changes the supply on record by the difference between
/// what the new block adds and what the old one added.
pub proof fn lemma_total_supply_update(ledger: Seq<Block>, i: int, block: Block, mint: Seq<u8>)
    requires
        0 <= i < ledger.len(),
    ensures
        total_supply(ledger.update(i, block), mint) == total_supply(ledger, mint) - supply_in(
            ledger[i],
            mint,
        ) + supply_in(block, mint),
    decreases ledger.len(),
{
    let updated = ledger.update(i, block);
    if i == ledger.len() - 1 {
        assert(updated.drop_last() =~= ledger.drop_last());
    } else {
        lemma_total_supply_update(ledger.drop_last(), i, block, mint);
        assert(updated.drop_last() =~= ledger.drop_last().update(i, block));
    }
}

/// Handles that the operation left as they were are not written: putting back
/// `n` handles is putting back the first `m`, where the others are unchanged.
proof fn lemma_write_back_frame(
    ledger: Seq<Block>,
    slots: Seq<Slot>,
    before: Seq<AccountInfoView>,
    after: Seq<AccountInfoView>,
    m: nat,
    n: nat,
)
    requires
        m <= n,
        forall|k: int| m <= k < n ==> after[k].data == before[k].data,
    ensures
        write_back(ledger, slots, before, after, n) == write_back(ledger, slots, before, after, m),
    decreases n,
{
    if n > m {
        lemma_write_back_frame(ledger, slots, before, after, m, (n - 1) as nat);
    }
}

/// Where the operation changed at most its first handle, the ledger
/// afterwards is the ledger with that handle's bytes in its block.
proof fn lemma_put_one(ledger: Seq<Block>, call: Call, after: Seq<AccountInfoView>)
    requires
        call_wf(ledger, call),
        call.slots.len() >= 1,
        forall|k: int| 1 <= k < call.slots.len() ==> after[k].data == handles(ledger, call)[k].data,
    ensures
        write_back(ledger, call.slots, handles(ledger, call), after, call.slots.len())
            == ledger.update(
            call.slots[0].index,
            Block { key: ledger[call.slots[0].index].key, data: after[0].data },
        ),
{
    let before = handles(ledger, call);
    let first = call.slots[0].index;
    lemma_write_back_frame(ledger, call.slots, before, after, 1, call.slots.len());
    assert(write_back(ledger, call.slots, before, after, 0) == ledger);
    let put = ledger.update(first, Block { key: ledger[first].key, data: after[0].data });
    if after[0].data == before[0].data {
        assert(put =~= ledger);
    }
    assert(write_back(ledger, call.slots, before, after, 1) == put);
}

/// Where the operation changed at most its first two handles, and these are
/// on two blocks, the ledger afterwards is the ledger with the bytes of both
/// in their blocks.
proof fn lemma_put_two(ledger: Seq<Block>, call: Call, after: Seq<AccountInfoView>)
    requires
        call_wf(ledger, call),
        call.slots.len() >= 2,
        call.slots[0].index != call.slots[1].index,
        forall|k: int| 2 <= k < call.slots.len() ==> after[k].data == handles(ledger, call)[k].data,
    ensures
        write_back(ledger, call.slots, handles(ledger, call), after, call.slots.len())
            == ledger.update(
            call.slots[0].index,
            Block { key: ledger[call.slots[0].index].key, data: after[0].data },
        ).update(
            call.slots[1].index,
            Block { key: ledger[call.slots[1].index].key, data: after[1].data },
        ),
{
    let before = handles(ledger, call);
    let first = call.slots[0].index;
    let second = call.slots[1].index;
    lemma_write_back_frame(ledger, call.slots, before, after, 2, call.slots.len());
    assert(write_back(ledger, call.slots, before, after, 0) == ledger);
    let one = ledger.update(first, Block { key: ledger[first].key, data: after[0].data });
    if after[0].data == before[0].data {
        assert(one =~= ledger);
    }
    assert(write_back(ledger, call.slots, before, after, 1) == one);
    let two = one.update(second, Block { key: ledger[second].key, data: after[1].data });
    if after[1].data == before[1].data {
        assert(two =~= one);
    }
    assert(write_back(ledger, call.slots, before, after, 2) == two);
}

/// What a block that holds an encoded mint adds to supply and balances.
proof fn lemma_mint_block(key: Seq<u8>, record: MintView, mint: Seq<u8>)
    requires
        record.wf(),
        record.tag == AccountTag::Mint,
    ensures
        balance_in(Block { key, data: record.encode() }, mint) == 0,
        supply_in(Block { key, data: record.encode() }, mint) == (if key == mint {
            record.supply as nat
        } else {
            0
        }),
{
    record.lemma_decode_encode();
}

/// What a block that holds an encoded account adds to supply and balances.
proof fn lemma_account_block(key: Seq<u8>, record: TokenAccountView, mint: Seq<u8>)
    requires
        record.wf(),
        record.tag == AccountTag::TokenAccount,
    ensures
        supply_in(Block { key, data: record.encode() }, mint) == 0,
        balance_in(Block { key, data: record.encode() }, mint) == (if record.mint == mint {
            record.amount as nat
        } else {
            0
        }),
{
    record.lemma_decode_encode();
}

proof fn lemma_initialize_mint_conserves(ledger: Seq<Block>, call: Call)
    requires
        ledger_wf(ledger),
        call_wf(ledger, call),
        conserved(ledger),
        call.instruction == TokenInstruction::InitializeMint,
        Processor::outcome(handles(ledger, call), call.instruction) is Ok,
        keeps_books(ledger, call),
    ensures
        conserved(step(ledger, call)),
        ledger_wf(step(ledger, call)),
{
    let before = handles(ledger, call);
    let after = Processor::outcome(before, call.instruction)->Ok_0;
    let first = call.slots[0].index;
    let record = MintView { tag: AccountTag::Mint, authority: before[1].key, supply: 0 };
    assert(record.wf());
    lemma_put_one(ledger, call, after);
    let block = Block { key: ledger[first].key, data: record.encode() };
    assert(step(ledger, call) == ledger.update(first, block));
    assert forall|mint: Seq<u8>| #[trigger]
        total_supply(step(ledger, call), mint) == total_balance(step(ledger, call), mint) by {
        lemma_total_supply_update(ledger, first, block, mint);
        lemma_total_balance_update(ledger, first, block, mint);
        lemma_mint_block(ledger[first].key, record, mint);
        assert(total_supply(ledger, mint) == total_balance(ledger, mint));
    }
}

proof fn lemma_initialize_token_account_conserves(ledger: Seq<Block>, call: Call)
    requires
        ledger_wf(ledger),
        call_wf(ledger, call),
        conserved(ledger),
        call.instruction == TokenInstruction::InitializeTokenAccount,
        Processor::outcome(handles(ledger, call), call.instruction) is Ok,
        keeps_books(ledger, call),
    ensures
        conserved(step(ledger, call)),
        ledger_wf(step(ledger, call)),
{
    let before = handles(ledger, call);
    let after = Processor::outcome(before, call.instruction)->Ok_0;
    let first = call.slots[0].index;
    let record = TokenAccountView {
        tag: AccountTag::TokenAccount,
        owner: before[0].key,
        mint: before[1].key,
        amount: 0,
    };
    assert(record.wf());
    lemma_put_one(ledger, call, after);
    let block = Block { key: ledger[first].key, data: record.encode() };
    assert(step(ledger, call) == ledger.update(first, block));
    assert forall|mint: Seq<u8>| #[trigger]
        total_supply(step(ledger, call), mint) == total_balance(step(ledger, call), mint) by {
        lemma_total_supply_update(ledger, first, block, mint);
        lemma_total_balance_update(ledger, first, block, mint);
        lemma_account_block(ledger[first].key, record, mint);
        assert(total_supply(ledger, mint) == total_balance(ledger, mint));
    }
}

/// The ledger after an account and a mint on two blocks were rewritten, with
/// the balance and the supply changed by the same amount in a mint that the
/// account is denominated in, is in balance as it was before.
proof fn lemma_rewrite_account_and_mint(
    ledger: Seq<Block>,
    first: int,
    second: int,
    account: TokenAccountView,
    record: MintView,
    amount: u64,
    supply: u64,
)
    requires
        ledger_wf(ledger),
        conserved(ledger),
        0 <= first < ledger.len(),
        0 <= second < ledger.len(),
        TokenAccountView::load_checked(ledger[first].data) == Ok::<
            TokenAccountView,
            crate::error::TokenError,
        >(account),
        MintView::load_checked(ledger[second].data) == Ok::<MintView, crate::error::TokenError>(
            record,
        ),
        amount - account.amount == supply - record.supply,
        amount == account.amount || account.mint == ledger[second].key,
    ensures
        first != second,
        conserved(
            ledger.update(
                first,
                Block {
                    key: ledger[first].key,
                    data: (TokenAccountView { amount, ..account }).encode(),
                },
            ).update(
                second,
                Block { key: ledger[second].key, data: (MintView { supply, ..record }).encode() },
            ),
        ),
{
    let account_after = TokenAccountView { amount, ..account };
    let record_after = MintView { supply, ..record };
    let block_one = Block { key: ledger[first].key, data: account_after.encode() };
    let block_two = Block { key: ledger[second].key, data: record_after.encode() };
    let one = ledger.update(first, block_one);
    let two = one.update(second, block_two);
    TokenAccountView::lemma_encode_decode(ledger[first].data);
    MintView::lemma_encode_decode(ledger[second].data);
    assert forall|mint: Seq<u8>| #[trigger]
        total_supply(two, mint) == total_balance(two, mint) by {
        lemma_total_supply_update(ledger, first, block_one, mint);
        lemma_total_balance_update(ledger, first, block_one, mint);
        lemma_total_supply_update(one, second, block_two, mint);
        lemma_total_balance_update(one, second, block_two, mint);
        lemma_account_block(ledger[first].key, account_after, mint);
        lemma_mint_block(ledger[second].key, record_after, mint);
        assert(total_supply(ledger, mint) == total_balance(ledger, mint));
    }
}

proof fn lemma_issue_or_burn_conserves(ledger: Seq<Block>, call: Call)
    requires
        ledger_wf(ledger),
        call_wf(ledger, call),
        conserved(ledger),
        call.instruction is Mint || call.instruction is Burn,
        Processor::outcome(handles(ledger, call), call.instruction) is Ok,
        keeps_books(ledger, call),
    ensures
        conserved(step(ledger, call)),
        ledger_wf(step(ledger, call)),
{
    let before = handles(ledger, call);
    let after = Processor::outcome(before, call.instruction)->Ok_0;
    let first = call.slots[0].index;
    let second = call.slots[1].index;
    let (account, record) = Processor::issuer_checked(before)->Ok_0;
    match call.instruction {
        TokenInstruction::Mint { amount } => {
            lemma_rewrite_account_and_mint(
                ledger,
                first,
                second,
                account,
                record,
                (account.amount + amount) as u64,
                (record.supply + amount) as u64,
            );
        },
        TokenInstruction::Burn { amount } => {
            lemma_rewrite_account_and_mint(
                ledger,
                first,
                second,
                account,
                record,
                (account.amount - amount) as u64,
                (record.supply - amount) as u64,
            );
        },
        _ => {},
    }
    lemma_put_two(ledger, call, after);
}

proof fn lemma_transfer_conserves(ledger: Seq<Block>, call: Call)
    requires
        ledger_wf(ledger),
        call_wf(ledger, call),
        conserved(ledger),
        call.instruction is Transfer,
        Processor::outcome(handles(ledger, call), call.instruction) is Ok,
    ensures
        conserved(step(ledger, call)),
        ledger_wf(step(ledger, call)),
{
    let before = handles(ledger, call);
    let after = Processor::outcome(before, call.instruction)->Ok_0;
    let amount = call.instruction->Transfer_amount;
    let first = call.slots[0].index;
    let second = call.slots[1].index;
    let source = TokenAccountView::load_checked(before[0].data)->Ok_0;
    let destination = TokenAccountView::load_checked(before[1].data)->Ok_0;
    if before[0].key == before[1].key {
        assert(after == before);
        lemma_put_one(ledger, call, after);
        assert(step(ledger, call) =~= ledger);
    } else {
        TokenAccountView::lemma_encode_decode(ledger[first].data);
        TokenAccountView::lemma_encode_decode(ledger[second].data);
        let source_after = TokenAccountView { amount: (source.amount - amount) as u64, ..source };
        let destination_after = TokenAccountView {
            amount: (destination.amount + amount) as u64,
            ..destination
        };
        let block_one = Block { key: ledger[first].key, data: source_after.encode() };
        let block_two = Block { key: ledger[second].key, data: destination_after.encode() };
        let one = ledger.update(first, block_one);
        let two = one.update(second, block_two);
        lemma_put_two(ledger, call, after);
        assert(step(ledger, call) == two);
        assert forall|mint: Seq<u8>| #[trigger]
            total_supply(two, mint) == total_balance(two, mint) by {
            lemma_total_supply_update(ledger, first, block_one, mint);
            lemma_total_balance_update(ledger, first, block_one, mint);
            lemma_total_supply_update(one, second, block_two, mint);
            lemma_total_balance_update(one, second, block_two, mint);
            lemma_account_block(ledger[first].key, source_after, mint);
            lemma_account_block(ledger[second].key, destination_after, mint);
            assert(total_supply(ledger, mint) == total_balance(ledger, mint));
        }
    }
}

/// One call keeps a ledger in balance: where supply and balances agree for
/// every mint before a call that keeps the books, they agree after it.
pub proof fn lemma_step_conserves(ledger: Seq<Block>, call: Call)
    requires
        ledger_wf(ledger),
        call_wf(ledger, call),
        conserved(ledger),
        Processor::outcome(handles(ledger, call), call.instruction) is Ok ==> keeps_books(
            ledger,
            call,
        ),
    ensures
        conserved(step(ledger, call)),
        ledger_wf(step(ledger, call)),
{
    if Processor::outcome(handles(ledger, call), call.instruction) is Ok {
        match call.instruction {
            TokenInstruction::InitializeMint => lemma_initialize_mint_conserves(ledger, call),
            TokenInstruction::InitializeTokenAccount => lemma_initialize_token_account_conserves(
                ledger,
                call,
            ),
            TokenInstruction::Mint { .. } => lemma_issue_or_burn_conserves(ledger, call),
            TokenInstruction::Burn { .. } => lemma_issue_or_burn_conserves(ledger, call),
            TokenInstruction::Transfer { .. } => lemma_transfer_conserves(ledger, call),
        }
    }
}

/// Supply is conserved: after any sequence of calls that keep the books, made
/// on a ledger in which the supply of every mint is the sum of the balances
/// of its accounts, the supply of every mint is again that sum.
pub proof fn lemma_run_conserves(ledger: Seq<Block>, calls: Seq<Call>)
    requires
        ledger_wf(ledger),
        conserved(ledger),
        all_keep_books(ledger, calls),
    ensures
        conserved(run(ledger, calls)),
        ledger_wf(run(ledger, calls)),
    decreases calls.len(),
{
    if calls.len() > 0 {
        lemma_step_conserves(ledger, calls[0]);
        lemma_run_conserves(step(ledger, calls[0]), calls.drop_first());
    }
}

/// No two blocks are stored under the same identity.
pub open spec fn distinct_keys(ledger: Seq<Block>) -> bool {
    forall|i: int, j: int|
        0 <= i < j < ledger.len() ==> (#[trigger] ledger[i]).key != (#[trigger] ledger[j]).key
}

/// Putting handles back changes no block's identity and adds no block.
proof fn lemma_write_back_keeps_keys(ledger: Seq<Block>, call: Call, after: Seq<AccountInfoView>, n: nat)
    requires
        call_wf(ledger, call),
        n <= call.slots.len(),
    ensures
        write_back(ledger, call.slots, handles(ledger, call), after, n).len() == ledger.len(),
        forall|i: int|
            0 <= i < ledger.len() ==> (#[trigger] write_back(
                ledger,
                call.slots,
                handles(ledger, call),
                after,
                n,
            )[i]).key == ledger[i].key,
    decreases n,
{
    if n > 0 {
        lemma_write_back_keeps_keys(ledger, call, after, (n - 1) as nat);
        assert(0 <= call.slots[n - 1].index < ledger.len());
    }
}

/// A call changes no block's identity and adds no block.
pub proof fn lemma_step_keeps_keys(ledger: Seq<Block>, call: Call)
    requires
        call_wf(ledger, call),
    ensures
        step(ledger, call).len() == ledger.len(),
        forall|i: int| 0 <= i < ledger.len() ==> (#[trigger] step(ledger, call)[i]).key == ledger[i].key,
{
    let before = handles(ledger, call);
    match Processor::outcome(before, call.instruction) {
        Err(_) => {},
        Ok(after) => {
            lemma_write_back_keeps_keys(ledger, call, after, before.len());
        },
    }
}

/// A sequence of calls changes no block's identity and adds no block.
pub proof fn lemma_run_keeps_keys(ledger: Seq<Block>, calls: Seq<Call>)
    requires
        all_keep_books(ledger, calls),
    ensures
        run(ledger, calls).len() == ledger.len(),
        forall|i: int| 0 <= i < ledger.len() ==> (#[trigger] run(ledger, calls)[i]).key == ledger[i].key,
    decreases calls.len(),
{
    if calls.len() > 0 {
        lemma_step_keeps_keys(ledger, calls[0]);
        lemma_run_keeps_keys(step(ledger, calls[0]), calls.drop_first());
    }
}

/// Blocks stored under other identities add nothing to the supply of `mint`.
proof fn lemma_no_block_no_supply(ledger: Seq<Block>, mint: Seq<u8>)
    requires
        forall|i: int| 0 <= i < ledger.len() ==> (#[trigger] ledger[i]).key != mint,
    ensures
        total_supply(ledger, mint) == 0,
    decreases ledger.len(),
{
    if ledger.len() > 0 {
        assert(ledger.last() == ledger[ledger.len() - 1]);
        assert forall|i: int| 0 <= i < ledger.drop_last().len() implies (#[trigger] ledger.drop_last()[i]).key
            != mint by {
            assert(ledger.drop_last()[i] == ledger[i]);
        }
        lemma_no_block_no_supply(ledger.drop_last(), mint);
    }
}

/// Where no two blocks share an identity, the supply on record for the
/// identity of an initialized mint is the supply of that mint.
pub proof fn lemma_supply_of_mint(ledger: Seq<Block>, i: int)
    requires
        distinct_keys(ledger),
        0 <= i < ledger.len(),
        MintView::load_checked(ledger[i].data) is Ok,
    ensures
        total_supply(ledger, ledger[i].key) == MintView::load_checked(ledger[i].data)->Ok_0.supply,
    decreases ledger.len(),
{
    let mint = ledger[i].key;
    let rest = ledger.drop_last();
    assert forall|a: int, b: int| 0 <= a < b < rest.len() implies (#[trigger] rest[a]).key != (
    #[trigger] rest[b]).key by {
        assert(rest[a] == ledger[a] && rest[b] == ledger[b]);
    }
    if i == ledger.len() - 1 {
        assert forall|j: int| 0 <= j < rest.len() implies (#[trigger] rest[j]).key != mint by {
            assert(rest[j] == ledger[j]);
        }
        lemma_no_block_no_supply(rest, mint);
    } else {
        assert(rest[i] == ledger[i]);
        assert(ledger.last() == ledger[ledger.len() - 1]);
        lemma_supply_of_mint(rest, i);
    }
}

/// The block is no mint with supply and no account with a balance.
pub open spec fn holds_nothing(block: Block) -> bool {
    &&& MintView::load_checked(block.data) matches Ok(mint) ==> mint.supply == 0
    &&& TokenAccountView::load_checked(block.data) matches Ok(account) ==> account.amount == 0
}

/// No mint has supply and no account has a balance.
pub open spec fn nothing_issued(ledger: Seq<Block>) -> bool {
    forall|i: int| 0 <= i < ledger.len() ==> holds_nothing(#[trigger] ledger[i])
}

/// A ledger on which nothing was issued yet is in balance. This is where a
/// ledger starts: its mints are initialized with no supply and its accounts
/// with no balance.
pub proof fn lemma_nothing_issued_conserved(ledger: Seq<Block>)
    requires
        nothing_issued(ledger),
    ensures
        conserved(ledger),
    decreases ledger.len(),
{
    if ledger.len() > 0 {
        let rest = ledger.drop_last();
        assert forall|i: int| 0 <= i < rest.len() implies holds_nothing(#[trigger] rest[i]) by {
            assert(rest[i] == ledger[i]);
        }
        lemma_nothing_issued_conserved(rest);
        assert(holds_nothing(ledger[ledger.len() - 1]));
        assert forall|mint: Seq<u8>| #[trigger]
            total_supply(ledger, mint) == total_balance(ledger, mint) by {
            assert(total_supply(rest, mint) == total_balance(rest, mint));
        }
    }
}

/// Supply conservation, for one mint: on a ledger that was in balance, with
/// no two blocks under one identity, and after any sequence of calls that
/// keep the books, the supply of every initialized mint is the sum of the
/// balances of the accounts denominated in it.
pub proof fn lemma_supply_is_sum_of_balances(ledger: Seq<Block>, calls: Seq<Call>, i: int)
    requires
        ledger_wf(ledger),
        distinct_keys(ledger),
        conserved(ledger),
        all_keep_books(ledger, calls),
        0 <= i < ledger.len(),
        MintView::load_checked(run(ledger, calls)[i].data) is Ok,
    ensures
        MintView::load_checked(run(ledger, calls)[i].data)->Ok_0.supply == total_balance(
            run(ledger, calls),
            ledger[i].key,
        ),
{
    let end = run(ledger, calls);
    lemma_run_conserves(ledger, calls);
    lemma_run_keeps_keys(ledger, calls);
    assert forall|a: int, b: int| 0 <= a < b < end.len() implies (#[trigger] end[a]).key != (
    #[trigger] end[b]).key by {
        assert(ledger[a].key != ledger[b].key);
    }
    lemma_supply_of_mint(end, i);
    assert(total_supply(end, ledger[i].key) == total_balance(end, ledger[i].key));
}

} // verus!
