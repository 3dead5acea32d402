//! The error kinds that the wallet reports to its users.

use vstd::prelude::*;

verus! {

/// Every failure that a wallet operation can report.
#[derive(Debug)]
pub enum Error {
    /// The inputs at hand do not cover the requested amount.
    InsufficientFunds,
    /// The transaction would leave more dust on the named address than its
    /// dust allowance covers.
    DustError(String),
    /// The account still holds funds.
    AccountNotEmpty,
    /// Another account already uses the alias.
    AccountAliasAlreadyExists,
    /// The address chosen for the remainder does not belong to the account.
    InvalidRemainderValueAddress,
    /// The backup source is not a snapshot file.
    InvalidBackupFile,
    /// The backup destination is neither a directory nor inside one.
    InvalidBackupDestination,
    /// Accounts are already loaded where a backup was to be imported.
    StorageExists,
    /// The storage to back up does not exist.
    StorageDoesntExist,
    /// The accounts were not loaded yet because the storage is encrypted.
    StorageIsEncrypted,
    /// No account matches the identifier.
    RecordNotFound,
    /// The account holds no message with the identifier.
    MessageNotFound,
    /// Several accounts share the index, so it identifies none of them.
    CannotUseIndexIdentifier,
    /// The mnemonic is not valid, with the reason.
    InvalidMnemonic(String),
    /// A mnemonic could not be produced, with the reason.
    MnemonicEncode(String),
    /// The node client failed, with its report.
    ClientError(String),
    /// A task panicked, with what it said.
    Panic(String),
}

} // verus!
