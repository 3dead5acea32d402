//! Core of a hierarchical-deterministic wallet for a UTXO ledger: account
//! synchronisation and the transfer engine, with their rules stated as
//! contracts and proved.

pub mod account;
pub mod account_manager;
pub mod actor;
pub mod address;
pub mod client;
pub mod error;
pub mod message;
pub mod search;
pub mod signing;
