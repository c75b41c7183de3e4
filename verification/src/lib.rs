//! Liquidation-risk monitor for the accounts of an on-chain margin protocol.
//!
//! The library mirrors account state from a stream of account writes, slot reports and
//! periodic snapshots, judges the health of each margin account on what the mirror holds,
//! and announces when an account becomes liquidatable and when it ceases to be.
//!
//! - [`pubkey`], [`pubkey_map`], [`pubkey_set`]: account addresses and containers keyed by
//!   them.
//! - [`account`]: accounts, writes, slot reports, messages and snapshots.
//! - [`ledger`]: the mirror as a mathematical object, and the laws that hold of it.
//! - [`retention`]: the proof that what the mirror drops is never missed, and that the
//!   floor of an account only rises.
//! - [`chain_data`]: the mirror itself.
//! - [`records`]: how the protocol's records lie in account data, and which accounts hold
//!   which kind.
//! - [`liquidation`]: judging accounts, and how the set of liquidatable accounts follows.
//! - [`feed`]: the monitor, which takes one message at a time.
//! - [`config`]: the settings of the surrounding program.
//!
//! The library performs no input or output. The health of an account is computed by a
//! function that the caller supplies; every contract that depends on it says what holds
//! whatever that function answers.

pub mod account;
pub mod chain_data;
pub mod config;
pub mod feed;
pub mod ledger;
pub mod liquidation;
pub mod pubkey;
pub mod pubkey_map;
pub mod pubkey_set;
pub mod records;
pub mod retention;
