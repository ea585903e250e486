use vstd::prelude::*;
use crate::pubkey::Pubkey;

verus! {

/// A handle on one storage block, as the caller supplies it for one operation:
/// the block's bytes, the identity the block is stored under, and whether that
/// identity has authorized the call.
#[derive(Clone, Debug)]
pub struct AccountInfo {
    /// Identity of the storage block.
    pub key: Pubkey,
    /// Did `key` authorize the current call?
    pub is_signer: bool,
    /// The block's bytes: the encoded record, or whatever was there before
    /// the block was initialized.
    pub data: Vec<u8>,
}

/// What a handle stands for in contracts.
pub struct AccountInfoView {
    pub key: Seq<u8>,
    pub is_signer: bool,
    pub data: Seq<u8>,
}

impl AccountInfoView {
    /// The same handle over other bytes.
    pub open spec fn with_data(self, data: Seq<u8>) -> AccountInfoView {
        AccountInfoView { key: self.key, is_signer: self.is_signer, data }
    }
}

impl View for AccountInfo {
    type V = AccountInfoView;

    open spec fn view(&self) -> AccountInfoView {
        AccountInfoView { key: self.key@, is_signer: self.is_signer, data: self.data@ }
    }
}

/// The handles of a list, each by its view.
pub open spec fn views(accounts: Seq<AccountInfo>) -> Seq<AccountInfoView> {
    accounts.map_values(|account: AccountInfo| account@)
}

impl AccountInfo {
    /// A handle on the block stored under `key`, holding `data`.
    pub fn new(key: Pubkey, is_signer: bool, data: Vec<u8>) -> (account: AccountInfo)
        ensures
            account@ == (AccountInfoView { key: key@, is_signer, data: data@ }),
    {
        AccountInfo { key, is_signer, data }
    }
}

} // verus!
