use vstd::prelude::*;
use vstd::bytes::{
    lemma_auto_spec_u64_to_from_le_bytes, spec_u64_from_le_bytes, spec_u64_to_le_bytes,
};
use vstd::slice::slice_subrange;
use crate::account_info::AccountInfo;
use crate::error::TokenError;
use crate::pubkey::Pubkey;
use crate::wire::{u64_from_borsh, u64_to_borsh};

verus! {

/// Length in bytes of an encoded [`Mint`]: tag, authority, supply.
pub const MINT_LEN: usize = 41;

/// Length in bytes of an encoded [`TokenAccount`]: tag, owner, mint, amount.
pub const TOKEN_ACCOUNT_LEN: usize = 73;

/// Says what a storage block holds. It is the first byte of every record, and
/// the only thing that tells a mint from an account from a block that was
/// never written.
#[derive(Clone, Copy, Debug, PartialEq, Eq, Structural)]
pub enum AccountTag {
    Uninitialized,
    Mint,
    TokenAccount,
}

impl AccountTag {
    /// The byte that stands for this tag in a block.
    pub open spec fn spec_to_byte(self) -> u8 {
        match self {
            AccountTag::Uninitialized => 0,
            AccountTag::Mint => 1,
            AccountTag::TokenAccount => 2,
        }
    }

    /// The tag that a byte stands for, if any.
    pub open spec fn spec_from_byte(byte: u8) -> Option<AccountTag> {
        if byte == 0 {
            Some(AccountTag::Uninitialized)
        } else if byte == 1 {
            Some(AccountTag::Mint)
        } else if byte == 2 {
            Some(AccountTag::TokenAccount)
        } else {
            None
        }
    }

    /// The byte that stands for this tag in a block.
    pub fn to_byte(&self) -> (byte: u8)
        ensures
            byte == self.spec_to_byte(),
    {
        match self {
            AccountTag::Uninitialized => 0,
            AccountTag::Mint => 1,
            AccountTag::TokenAccount => 2,
        }
    }

    /// The tag that a byte stands for, if any.
    pub fn from_byte(byte: u8) -> (tag: Option<AccountTag>)
        ensures
            tag == Self::spec_from_byte(byte),
    {
        if byte == 0 {
            Some(AccountTag::Uninitialized)
        } else if byte == 1 {
            Some(AccountTag::Mint)
        } else if byte == 2 {
            Some(AccountTag::TokenAccount)
        } else {
            None
        }
    }
}

/// Overwrites the first `bytes.len()` bytes of `data` and keeps the rest.
fn write_prefix(data: &mut Vec<u8>, bytes: &Vec<u8>)
    requires
        bytes@.len() <= old(data)@.len(),
    ensures
        final(data)@ == bytes@ + old(data)@.subrange(bytes@.len() as int, old(data)@.len() as int),
{
    let n = bytes.len();
    let mut i: usize = 0;
    while i < n
        invariant
            i <= n,
            n == bytes@.len(),
            data@.len() == old(data)@.len(),
            n <= data@.len(),
            forall|j: int| 0 <= j < i ==> data@[j] == bytes@[j],
            forall|j: int| i <= j < data@.len() ==> data@[j] == old(data)@[j],
        decreases n - i,
    {
        data[i] = bytes[i];
        i += 1;
    }
    assert(data@ =~= bytes@ + old(data)@.subrange(n as int, old(data)@.len() as int));
}

/// A token: who may issue it, and how much of it is in circulation.
#[derive(Clone, Copy, Debug)]
pub struct Mint {
    /// [`AccountTag::Mint`] once the block is initialized.
    pub tag: AccountTag,
    /// The identity that may issue and burn.
    pub authority: Pubkey,
    /// Amount in circulation over all accounts of this mint.
    pub supply: u64,
}

/// What a [`Mint`] stands for in contracts.
pub struct MintView {
    pub tag: AccountTag,
    pub authority: Seq<u8>,
    pub supply: u64,
}

impl View for Mint {
    type V = MintView;

    open spec fn view(&self) -> MintView {
        MintView { tag: self.tag, authority: self.authority@, supply: self.supply }
    }
}

impl MintView {
    /// The authority is an identity of 32 bytes.
    pub open spec fn wf(self) -> bool {
        self.authority.len() == 32
    }

    /// The bytes of this record in a block: the tag, the authority, then the
    /// supply in eight bytes, least significant first.
    pub open spec fn encode(self) -> Seq<u8> {
        seq![self.tag.spec_to_byte()] + self.authority + spec_u64_to_le_bytes(self.supply)
    }

    /// The record that a block's bytes spell, whatever its tag. There is one
    /// exactly when the block is [`MINT_LEN`] bytes long and starts with the
    /// byte of a tag.
    pub open spec fn decode(data: Seq<u8>) -> Option<MintView> {
        if data.len() != 41 {
            None
        } else {
            match AccountTag::spec_from_byte(data[0]) {
                None => None,
                Some(tag) => Some(
                    MintView {
                        tag,
                        authority: data.subrange(1, 33),
                        supply: spec_u64_from_le_bytes(data.subrange(33, 41)),
                    },
                ),
            }
        }
    }

    /// The initialized mint that a block's bytes spell, or why there is none.
    pub open spec fn load_checked(data: Seq<u8>) -> Result<MintView, TokenError> {
        match Self::decode(data) {
            None => Err(TokenError::DecodeError),
            Some(mint) => if mint.tag == AccountTag::Mint {
                Ok(mint)
            } else {
                Err(TokenError::TagMismatch)
            },
        }
    }

    /// Decoding what was encoded gives the record back.
    pub proof fn lemma_decode_encode(self)
        requires
            self.wf(),
        ensures
            self.encode().len() == 41,
            Self::decode(self.encode()) == Some(self),
    {
        lemma_auto_spec_u64_to_from_le_bytes();
        let data = self.encode();
        assert(data[0] == self.tag.spec_to_byte());
        assert(data.subrange(1, 33) =~= self.authority);
        assert(data.subrange(33, 41) =~= spec_u64_to_le_bytes(self.supply));
    }

    /// A block of the size of a mint spells the mint that was last saved to
    /// it.
    pub proof fn lemma_saved_is_loaded(self, before: Seq<u8>)
        requires
            self.wf(),
            before.len() == 41,
        ensures
            Self::decode(self.encode() + before.subrange(41, before.len() as int)) == Some(self),
    {
        self.lemma_decode_encode();
        assert(self.encode() + before.subrange(41, before.len() as int) =~= self.encode());
    }

    /// Encoding what was decoded gives the bytes back, and what is decoded has
    /// an authority of 32 bytes.
    pub proof fn lemma_encode_decode(data: Seq<u8>)
        requires
            Self::decode(data) is Some,
        ensures
            Self::decode(data).unwrap().wf(),
            Self::decode(data).unwrap().encode() == data,
    {
        lemma_auto_spec_u64_to_from_le_bytes();
        let mint = Self::decode(data).unwrap();
        assert(spec_u64_to_le_bytes(mint.supply) == data.subrange(33, 41));
        assert(mint.encode() =~= data);
    }
}

impl Mint {
    /// The bytes of this record in a block.
    fn encode(&self) -> (bytes: Vec<u8>)
        ensures
            bytes@ == self@.encode(),
            bytes@.len() == 41,
    {
        let mut bytes: Vec<u8> = Vec::new();
        bytes.push(self.tag.to_byte());
        self.authority.append_to(&mut bytes);
        let mut tail = u64_to_borsh(self.supply);
        bytes.append(&mut tail);
        proof {
            self.authority.lemma_len();
            lemma_auto_spec_u64_to_from_le_bytes();
            assert(bytes@ =~= self@.encode());
        }
        bytes
    }

    /// The record that a block's bytes spell, whatever its tag.
    fn decode(data: &[u8]) -> (mint: Option<Mint>)
        ensures
            match mint {
                Some(mint) => MintView::decode(data@) == Some(mint@),
                None => MintView::decode(data@) is None,
            },
    {
        if data.len() != MINT_LEN {
            return None;
        }
        let tag = match AccountTag::from_byte(data[0]) {
            Some(tag) => tag,
            None => { return None; },
        };
        let authority = Pubkey::from_slice(slice_subrange(data, 1, 33));
        let supply = u64_from_borsh(slice_subrange(data, 33, 41));
        match (authority, supply) {
            (Some(authority), Some(supply)) => Some(Mint { tag, authority, supply }),
            _ => None,
        }
    }

    /// Reads the block as a mint without looking at its tag: for a block that
    /// is about to be initialized.
    pub fn load_unchecked(account_info: &AccountInfo) -> (loaded: Result<Mint, TokenError>)
        ensures
            match loaded {
                Ok(mint) => MintView::decode(account_info@.data) == Some(mint@),
                Err(e) => e == TokenError::DecodeError && MintView::decode(account_info@.data)
                    is None,
            },
    {
        match Self::decode(account_info.data.as_slice()) {
            Some(mint) => Ok(mint),
            None => Err(TokenError::DecodeError),
        }
    }

    /// Reads the block as a mint and requires it to be an initialized one.
    pub fn load_check(account_info: &AccountInfo) -> (loaded: Result<Mint, TokenError>)
        ensures
            match loaded {
                Ok(mint) => MintView::load_checked(account_info@.data) == Ok::<
                    MintView,
                    TokenError,
                >(mint@),
                Err(e) => MintView::load_checked(account_info@.data) == Err::<
                    MintView,
                    TokenError,
                >(e),
            },
    {
        let mint = match Self::decode(account_info.data.as_slice()) {
            Some(mint) => mint,
            None => { return Err(TokenError::DecodeError); },
        };
        match mint.validate() {
            Ok(()) => Ok(mint),
            Err(e) => Err(e),
        }
    }

    /// Is this an initialized mint?
    pub fn validate(&self) -> (checked: Result<(), TokenError>)
        ensures
            checked == (if self.tag == AccountTag::Mint {
                Ok::<(), TokenError>(())
            } else {
                Err::<(), TokenError>(TokenError::TagMismatch)
            }),
    {
        match self.tag {
            AccountTag::Mint => Ok(()),
            _ => Err(TokenError::TagMismatch),
        }
    }

    /// Writes this record over the start of the block. A block shorter than
    /// [`MINT_LEN`] is refused and left as it was; bytes of the block beyond the
    /// record stay.
    pub fn save(&self, account_info: &mut AccountInfo) -> (saved: Result<(), TokenError>)
        ensures
            final(account_info)@.key == old(account_info)@.key,
            final(account_info)@.is_signer == old(account_info)@.is_signer,
            old(account_info)@.data.len() >= 41 ==> saved is Ok && final(account_info)@.data
                == self@.encode() + old(account_info)@.data.subrange(
                41,
                old(account_info)@.data.len() as int,
            ),
            old(account_info)@.data.len() < 41 ==> saved == Err::<(), TokenError>(
                TokenError::EncodeError,
            ) && final(account_info)@.data == old(account_info)@.data,
    {
        let bytes = self.encode();
        if account_info.data.len() < bytes.len() {
            return Err(TokenError::EncodeError);
        }
        write_prefix(&mut account_info.data, &bytes);
        Ok(())
    }
}

/// One owner's holding of one mint.
#[derive(Clone, Copy, Debug)]
pub struct TokenAccount {
    /// [`AccountTag::TokenAccount`] once the block is initialized.
    pub tag: AccountTag,
    /// The identity that may transfer out of this account.
    pub owner: Pubkey,
    /// The identity of the mint that the balance is denominated in.
    pub mint: Pubkey,
    /// The balance.
    pub amount: u64,
}

/// What a [`TokenAccount`] stands for in contracts.
pub struct TokenAccountView {
    pub tag: AccountTag,
    pub owner: Seq<u8>,
    pub mint: Seq<u8>,
    pub amount: u64,
}

impl View for TokenAccount {
    type V = TokenAccountView;

    open spec fn view(&self) -> TokenAccountView {
        TokenAccountView {
            tag: self.tag,
            owner: self.owner@,
            mint: self.mint@,
            amount: self.amount,
        }
    }
}

impl TokenAccountView {
    /// Owner and mint are identities of 32 bytes.
    pub open spec fn wf(self) -> bool {
        self.owner.len() == 32 && self.mint.len() == 32
    }

    /// The bytes of this record in a block: the tag, the owner, the mint, then
    /// the amount in eight bytes, least significant first.
    pub open spec fn encode(self) -> Seq<u8> {
        seq![self.tag.spec_to_byte()] + self.owner + self.mint + spec_u64_to_le_bytes(
            self.amount,
        )
    }

    /// The record that a block's bytes spell, whatever its tag. There is one
    /// exactly when the block is [`TOKEN_ACCOUNT_LEN`] bytes long and starts
    /// with the byte of a tag.
    pub open spec fn decode(data: Seq<u8>) -> Option<TokenAccountView> {
        if data.len() != 73 {
            None
        } else {
            match AccountTag::spec_from_byte(data[0]) {
                None => None,
                Some(tag) => Some(
                    TokenAccountView {
                        tag,
                        owner: data.subrange(1, 33),
                        mint: data.subrange(33, 65),
                        amount: spec_u64_from_le_bytes(data.subrange(65, 73)),
                    },
                ),
            }
        }
    }

    /// The initialized account that a block's bytes spell, or why there is
    /// none.
    pub open spec fn load_checked(data: Seq<u8>) -> Result<TokenAccountView, TokenError> {
        match Self::decode(data) {
            None => Err(TokenError::DecodeError),
            Some(account) => if account.tag == AccountTag::TokenAccount {
                Ok(account)
            } else {
                Err(TokenError::TagMismatch)
            },
        }
    }

    /// Decoding what was encoded gives the record back.
    pub proof fn lemma_decode_encode(self)
        requires
            self.wf(),
        ensures
            self.encode().len() == 73,
            Self::decode(self.encode()) == Some(self),
    {
        lemma_auto_spec_u64_to_from_le_bytes();
        let data = self.encode();
        assert(data[0] == self.tag.spec_to_byte());
        assert(data.subrange(1, 33) =~= self.owner);
        assert(data.subrange(33, 65) =~= self.mint);
        assert(data.subrange(65, 73) =~= spec_u64_to_le_bytes(self.amount));
    }

    /// A block of the size of an account spells the account that was last
    /// saved to it.
    pub proof fn lemma_saved_is_loaded(self, before: Seq<u8>)
        requires
            self.wf(),
            before.len() == 73,
        ensures
            Self::decode(self.encode() + before.subrange(73, before.len() as int)) == Some(self),
    {
        self.lemma_decode_encode();
        assert(self.encode() + before.subrange(73, before.len() as int) =~= self.encode());
    }

    /// Encoding what was decoded gives the bytes back, and what is decoded has
    /// an owner and a mint of 32 bytes each.
    pub proof fn lemma_encode_decode(data: Seq<u8>)
        requires
            Self::decode(data) is Some,
        ensures
            Self::decode(data).unwrap().wf(),
            Self::decode(data).unwrap().encode() == data,
    {
        lemma_auto_spec_u64_to_from_le_bytes();
        let account = Self::decode(data).unwrap();
        assert(spec_u64_to_le_bytes(account.amount) == data.subrange(65, 73));
        assert(account.encode() =~= data);
    }
}

impl TokenAccount {
    /// The bytes of this record in a block.
    fn encode(&self) -> (bytes: Vec<u8>)
        ensures
            bytes@ == self@.encode(),
            bytes@.len() == 73,
    {
        let mut bytes: Vec<u8> = Vec::new();
        bytes.push(self.tag.to_byte());
        self.owner.append_to(&mut bytes);
        self.mint.append_to(&mut bytes);
        let mut tail = u64_to_borsh(self.amount);
        bytes.append(&mut tail);
        proof {
            self.owner.lemma_len();
            self.mint.lemma_len();
            lemma_auto_spec_u64_to_from_le_bytes();
            assert(bytes@ =~= self@.encode());
        }
        bytes
    }

    /// The record that a block's bytes spell, whatever its tag.
    fn decode(data: &[u8]) -> (account: Option<TokenAccount>)
        ensures
            match account {
                Some(account) => TokenAccountView::decode(data@) == Some(account@),
                None => TokenAccountView::decode(data@) is None,
            },
    {
        if data.len() != TOKEN_ACCOUNT_LEN {
            return None;
        }
        let tag = match AccountTag::from_byte(data[0]) {
            Some(tag) => tag,
            None => { return None; },
        };
        let owner = Pubkey::from_slice(slice_subrange(data, 1, 33));
        let mint = Pubkey::from_slice(slice_subrange(data, 33, 65));
        let amount = u64_from_borsh(slice_subrange(data, 65, 73));
        match (owner, mint, amount) {
            (Some(owner), Some(mint), Some(amount)) => Some(
                TokenAccount { tag, owner, mint, amount },
            ),
            _ => None,
        }
    }

    /// Reads the block as an account without looking at its tag: for a block
    /// that is about to be initialized.
    pub fn load_unchecked(account_info: &AccountInfo) -> (loaded: Result<TokenAccount, TokenError>)
        ensures
            match loaded {
                Ok(account) => TokenAccountView::decode(account_info@.data) == Some(account@),
                Err(e) => e == TokenError::DecodeError && TokenAccountView::decode(
                    account_info@.data,
                ) is None,
            },
    {
        match Self::decode(account_info.data.as_slice()) {
            Some(account) => Ok(account),
            None => Err(TokenError::DecodeError),
        }
    }

    /// Is this an initialized account?
    pub fn validate(&self) -> (checked: Result<(), TokenError>)
        ensures
            checked == (if self.tag == AccountTag::TokenAccount {
                Ok::<(), TokenError>(())
            } else {
                Err::<(), TokenError>(TokenError::TagMismatch)
            }),
    {
        match self.tag {
            AccountTag::TokenAccount => Ok(()),
            _ => Err(TokenError::TagMismatch),
        }
    }

    /// Reads the block as an account and requires it to be an initialized one.
    pub fn load_check(account_info: &AccountInfo) -> (loaded: Result<TokenAccount, TokenError>)
        ensures
            match loaded {
                Ok(account) => TokenAccountView::load_checked(account_info@.data) == Ok::<
                    TokenAccountView,
                    TokenError,
                >(account@),
                Err(e) => TokenAccountView::load_checked(account_info@.data) == Err::<
                    TokenAccountView,
                    TokenError,
                >(e),
            },
    {
        let account = match Self::decode(account_info.data.as_slice()) {
            Some(account) => account,
            None => { return Err(TokenError::DecodeError); },
        };
        match account.validate() {
            Ok(()) => Ok(account),
            Err(e) => Err(e),
        }
    }

    /// Writes this record over the start of the block. A block shorter than
    /// [`TOKEN_ACCOUNT_LEN`] is refused and left as it was; bytes of the block
    /// beyond the record stay.
    pub fn save(&self, account_info: &mut AccountInfo) -> (saved: Result<(), TokenError>)
        ensures
            final(account_info)@.key == old(account_info)@.key,
            final(account_info)@.is_signer == old(account_info)@.is_signer,
            old(account_info)@.data.len() >= 73 ==> saved is Ok && final(account_info)@.data
                == self@.encode() + old(account_info)@.data.subrange(
                73,
                old(account_info)@.data.len() as int,
            ),
            old(account_info)@.data.len() < 73 ==> saved == Err::<(), TokenError>(
                TokenError::EncodeError,
            ) && final(account_info)@.data == old(account_info)@.data,
    {
        let bytes = self.encode();
        if account_info.data.len() < bytes.len() {
            return Err(TokenError::EncodeError);
        }
        write_prefix(&mut account_info.data, &bytes);
        Ok(())
    }
}

} // verus!
