//! State-transition logic of a minimal fungible-token ledger.
//!
//! A storage block is a byte buffer with an identity. Once initialized it holds
//! either a [`Mint`] (issuance authority and circulating supply of one token) or a
//! [`TokenAccount`] (one owner's balance of one mint). [`Processor`] executes one
//! [`TokenInstruction`] against an ordered list of [`AccountInfo`] handles: it
//! validates everything first and only then writes the records it changed.
pub mod account_info;
pub mod error;
pub mod instruction;
pub mod ledger;
pub mod processor;
pub mod pubkey;
pub mod state;
mod wire;

pub use account_info::AccountInfo;
pub use error::TokenError;
pub use instruction::TokenInstruction;
pub use processor::{assert_with_msg, Processor};
pub use pubkey::Pubkey;
pub use state::{AccountTag, Mint, TokenAccount};
