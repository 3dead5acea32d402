//! The protocol between a user interface and the wallet: tagged requests
//! and the responses to them.

pub mod message;
