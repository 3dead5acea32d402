//! The requests that the wallet serves and the responses that it gives.

use crate::account::sync::SyncedAccount;
use crate::account::{Account, SignerType};
use crate::account_manager::AccountIdentifier;
use crate::address::Address;
use crate::client::ClientOptions;
use crate::error::Error;
use crate::message::TransferBuilder;
use vstd::prelude::*;

verus! {

#[verifier::external_type_specification]
#[verifier::external_body]
#[verifier::reject_recursive_types(T)]
pub struct ExUnboundedSender<T>(tokio::sync::mpsc::UnboundedSender<T>);

/// The balance of an account.
#[derive(Clone, Copy, Debug, PartialEq, Eq, Structural)]
pub struct AccountBalance {
    /// All that the addresses of the account hold.
    pub total: u64,
    /// What of it can be spent.
    pub available: u64,
    /// What unconfirmed messages bring.
    pub incoming: u64,
    /// What unconfirmed messages take.
    pub outgoing: u64,
}

/// An account to create.
#[derive(Debug)]
pub struct AccountToCreate {
    /// The node options.
    pub client_options: ClientOptions,
    /// The account alias.
    pub alias: Option<String>,
    /// The time at which the account was created, in milliseconds since
    /// the epoch.
    pub created_at: Option<i64>,
    /// Whether to skip saving the account to storage or not.
    pub skip_persistence: bool,
    /// The account's signer type.
    pub signer_type: Option<SignerType>,
}

/// Each public account method.
#[derive(Debug)]
pub enum AccountMethod {
    /// Generate a new unused address.
    GenerateAddress,
    /// Get a unused address.
    GetUnusedAddress,
    /// List messages.
    ListMessages {
        /// Message type filter.
        message_type: Option<crate::message::MessageType>,
        /// Number of messages to get.
        count: usize,
        /// Number of messages to skip.
        from: usize,
    },
    /// List addresses.
    ListAddresses,
    /// List spent addresses.
    ListSpentAddresses,
    /// List unspent addresses.
    ListUnspentAddresses,
    /// Get account balance information.
    GetBalance,
    /// Get latest address.
    GetLatestAddress,
    /// Sync the account.
    SyncAccount {
        /// The first address index to sync.
        address_index: Option<usize>,
        /// The gap limit.
        gap_limit: Option<usize>,
        /// Whether to skip writing the account in storage or not (defaults
        /// to false).
        skip_persistence: Option<bool>,
    },
    /// Checks if the account's latest address is unused after syncing with
    /// the Tangle.
    IsLatestAddressUnused,
    /// Updates the account alias.
    SetAlias(String),
    /// Updates the account client options.
    SetClientOptions(Box<ClientOptions>),
}

/// The messages that can be sent to the actor.
#[derive(Debug)]
pub enum MessageType {
    /// Remove the account related to the specified `account_id`.
    RemoveAccount(AccountIdentifier),
    /// Creates an account.
    CreateAccount(Box<AccountToCreate>),
    /// Read account.
    GetAccount(AccountIdentifier),
    /// Read accounts.
    GetAccounts,
    /// Consume an account method.
    CallAccountMethod {
        /// The account identifier.
        account_id: AccountIdentifier,
        /// The account method to call.
        method: AccountMethod,
    },
    /// Sync accounts.
    SyncAccounts {
        /// The first address index to sync.
        address_index: Option<usize>,
        /// The gap limit.
        gap_limit: Option<usize>,
    },
    /// Reattach message.
    Reattach {
        /// The account identifier.
        account_id: AccountIdentifier,
        /// The message to reattach.
        message_id: String,
    },
    /// Backup storage.
    Backup {
        /// The backup destination.
        destination: String,
        /// Stronghold file password.
        password: String,
    },
    /// Import accounts from storage.
    RestoreBackup {
        /// The path to the backed up storage.
        backup_path: String,
        /// Stronghold file password.
        password: String,
    },
    /// Sets the password used to encrypt/decrypt the storage.
    SetStoragePassword(String),
    /// Set stronghold snapshot password.
    SetStrongholdPassword(String),
    /// Sets the password clear interval, in milliseconds.
    SetStrongholdPasswordClearInterval(u64),
    /// Get stronghold status.
    GetStrongholdStatus,
    /// Lock the stronghold snapshot (clears password and unload snapshot
    /// from memory).
    LockStronghold,
    /// Send funds.
    SendTransfer {
        /// The account identifier.
        account_id: AccountIdentifier,
        /// The transfer details.
        transfer: Box<TransferBuilder>,
    },
    /// Move funds on stored accounts.
    InternalTransfer {
        /// The source account identifier.
        from_account_id: AccountIdentifier,
        /// The destination account identifier.
        to_account_id: AccountIdentifier,
        /// The transfer amount.
        amount: u64,
    },
    /// Generates a new mnemonic.
    GenerateMnemonic,
    /// Checks if the given mnemonic is valid.
    VerifyMnemonic(String),
    /// Store mnemonic.
    StoreMnemonic {
        /// The signer type.
        signer_type: SignerType,
        /// The mnemonic. If empty, we'll generate one.
        mnemonic: Option<String>,
    },
    /// Checks if all accounts has unused latest address after syncing with
    /// the Tangle.
    IsLatestAddressUnused,
    /// Get the Ledger Nano or Speculos simulator status.
    GetLedgerStatus(bool),
    /// Deletes the storage.
    DeleteStorage,
    /// Changes stronghold snapshot password.
    ChangeStrongholdPassword {
        /// The current stronghold password.
        current_password: String,
        /// The new stronghold password.
        new_password: String,
    },
    /// Updates the client options for all accounts.
    SetClientOptions(Box<ClientOptions>),
}

impl MessageType {
    /// The number under which the kind of request is written out.
    pub open spec fn spec_variant_index(&self) -> u32 {
        match self {
            MessageType::RemoveAccount(_) => 0,
            MessageType::CreateAccount(_) => 1,
            MessageType::GetAccount(_) => 2,
            MessageType::GetAccounts => 3,
            MessageType::CallAccountMethod { .. } => 4,
            MessageType::SyncAccounts { .. } => 5,
            MessageType::Reattach { .. } => 6,
            MessageType::Backup { .. } => 7,
            MessageType::RestoreBackup { .. } => 8,
            MessageType::SetStoragePassword(_) => 9,
            MessageType::SetStrongholdPassword(_) => 10,
            MessageType::SetStrongholdPasswordClearInterval(_) => 11,
            MessageType::GetStrongholdStatus => 12,
            MessageType::LockStronghold => 13,
            MessageType::SendTransfer { .. } => 14,
            MessageType::InternalTransfer { .. } => 15,
            MessageType::GenerateMnemonic => 16,
            MessageType::VerifyMnemonic(_) => 17,
            MessageType::StoreMnemonic { .. } => 18,
            MessageType::IsLatestAddressUnused => 19,
            MessageType::GetLedgerStatus(_) => 20,
            MessageType::DeleteStorage => 21,
            MessageType::ChangeStrongholdPassword { .. } => 22,
            MessageType::SetClientOptions(_) => 23,
        }
    }

    /// The name under which the kind of request is written out.
    pub open spec fn spec_variant_name(&self) -> Seq<char> {
        match self {
            MessageType::RemoveAccount(_) => "RemoveAccount"@,
            MessageType::CreateAccount(_) => "CreateAccount"@,
            MessageType::GetAccount(_) => "GetAccount"@,
            MessageType::GetAccounts => "GetAccounts"@,
            MessageType::CallAccountMethod { .. } => "CallAccountMethod"@,
            MessageType::SyncAccounts { .. } => "SyncAccounts"@,
            MessageType::Reattach { .. } => "Reattach"@,
            MessageType::Backup { .. } => "Backup"@,
            MessageType::RestoreBackup { .. } => "RestoreBackup"@,
            MessageType::SetStoragePassword(_) => "SetStoragePassword"@,
            MessageType::SetStrongholdPassword(_) => "SetStrongholdPassword"@,
            MessageType::SetStrongholdPasswordClearInterval(_) => "SetStrongholdPasswordClearInterval"@,
            MessageType::GetStrongholdStatus => "GetStrongholdStatus"@,
            MessageType::LockStronghold => "LockStronghold"@,
            MessageType::SendTransfer { .. } => "SendTransfer"@,
            MessageType::InternalTransfer { .. } => "InternalTransfer"@,
            MessageType::GenerateMnemonic => "GenerateMnemonic"@,
            MessageType::VerifyMnemonic(_) => "VerifyMnemonic"@,
            MessageType::StoreMnemonic { .. } => "StoreMnemonic"@,
            MessageType::IsLatestAddressUnused => "IsLatestAddressUnused"@,
            MessageType::GetLedgerStatus(_) => "GetLedgerStatus"@,
            MessageType::DeleteStorage => "DeleteStorage"@,
            MessageType::ChangeStrongholdPassword { .. } => "ChangeStrongholdPassword"@,
            MessageType::SetClientOptions(_) => "SetClientOptions"@,
        }
    }

    /// A request is written out as its kind alone, under this number: what
    /// it carries, which may hold passwords, is left out.
    pub fn variant_index(&self) -> (r: u32)
        ensures
            r == self.spec_variant_index(),
    {
        match self {
            MessageType::RemoveAccount(_) => 0,
            MessageType::CreateAccount(_) => 1,
            MessageType::GetAccount(_) => 2,
            MessageType::GetAccounts => 3,
            MessageType::CallAccountMethod { .. } => 4,
            MessageType::SyncAccounts { .. } => 5,
            MessageType::Reattach { .. } => 6,
            MessageType::Backup { .. } => 7,
            MessageType::RestoreBackup { .. } => 8,
            MessageType::SetStoragePassword(_) => 9,
            MessageType::SetStrongholdPassword(_) => 10,
            MessageType::SetStrongholdPasswordClearInterval(_) => 11,
            MessageType::GetStrongholdStatus => 12,
            MessageType::LockStronghold => 13,
            MessageType::SendTransfer { .. } => 14,
            MessageType::InternalTransfer { .. } => 15,
            MessageType::GenerateMnemonic => 16,
            MessageType::VerifyMnemonic(_) => 17,
            MessageType::StoreMnemonic { .. } => 18,
            MessageType::IsLatestAddressUnused => 19,
            MessageType::GetLedgerStatus(_) => 20,
            MessageType::DeleteStorage => 21,
            MessageType::ChangeStrongholdPassword { .. } => 22,
            MessageType::SetClientOptions(_) => 23,
        }
    }

    /// A request is written out as its kind alone, under this name.
    pub fn variant_name(&self) -> (r: &'static str)
        ensures
            r@ == self.spec_variant_name(),
    {
        match self {
            MessageType::RemoveAccount(_) => "RemoveAccount",
            MessageType::CreateAccount(_) => "CreateAccount",
            MessageType::GetAccount(_) => "GetAccount",
            MessageType::GetAccounts => "GetAccounts",
            MessageType::CallAccountMethod { .. } => "CallAccountMethod",
            MessageType::SyncAccounts { .. } => "SyncAccounts",
            MessageType::Reattach { .. } => "Reattach",
            MessageType::Backup { .. } => "Backup",
            MessageType::RestoreBackup { .. } => "RestoreBackup",
            MessageType::SetStoragePassword(_) => "SetStoragePassword",
            MessageType::SetStrongholdPassword(_) => "SetStrongholdPassword",
            MessageType::SetStrongholdPasswordClearInterval(_) => "SetStrongholdPasswordClearInterval",
            MessageType::GetStrongholdStatus => "GetStrongholdStatus",
            MessageType::LockStronghold => "LockStronghold",
            MessageType::SendTransfer { .. } => "SendTransfer",
            MessageType::InternalTransfer { .. } => "InternalTransfer",
            MessageType::GenerateMnemonic => "GenerateMnemonic",
            MessageType::VerifyMnemonic(_) => "VerifyMnemonic",
            MessageType::StoreMnemonic { .. } => "StoreMnemonic",
            MessageType::IsLatestAddressUnused => "IsLatestAddressUnused",
            MessageType::GetLedgerStatus(_) => "GetLedgerStatus",
            MessageType::DeleteStorage => "DeleteStorage",
            MessageType::ChangeStrongholdPassword { .. } => "ChangeStrongholdPassword",
            MessageType::SetClientOptions(_) => "SetClientOptions",
        }
    }
}

/// The response message.
#[derive(Debug)]
pub enum ResponseType {
    /// Account succesfully removed.
    RemovedAccount(AccountIdentifier),
    /// Account succesfully created.
    CreatedAccount(Account),
    /// GetAccount response.
    ReadAccount(Account),
    /// GetAccounts response.
    ReadAccounts(Vec<Account>),
    /// ListMessages response.
    Messages(Vec<crate::message::Message>),
    /// ListAddresses/ListSpentAddresses/ListUnspentAddresses response.
    Addresses(Vec<Address>),
    /// GenerateAddress response.
    GeneratedAddress(Address),
    /// GetUnusedAddress response.
    UnusedAddress(Address),
    /// GetLatestAddress response.
    LatestAddress(Address),
    /// GetBalance response.
    Balance(AccountBalance),
    /// SyncAccounts response.
    SyncedAccounts(Vec<SyncedAccount>),
    /// SyncAccount response.
    SyncedAccount(SyncedAccount),
    /// Reattach response.
    Reattached(String),
    /// Backup response.
    BackupSuccessful,
    /// ImportAccounts response.
    BackupRestored,
    /// SetStoragePassword response.
    StoragePasswordSet,
    /// SetStrongholdPassword response.
    StrongholdPasswordSet,
    /// SetStrongholdPasswordClearInterval response.
    StrongholdPasswordClearIntervalSet,
    /// GetStrongholdStatus response: whether the snapshot is locked.
    StrongholdStatus(bool),
    /// LockStronghold response.
    LockedStronghold,
    /// SendTransfer and InternalTransfer response.
    SentTransfer(crate::message::Message),
    /// An error occurred.
    Error(Error),
    /// A panic occurred.
    Panic(String),
    /// GenerateMnemonic response.
    GeneratedMnemonic(String),
    /// VerifyMnemonic response.
    VerifiedMnemonic,
    /// StoreMnemonic response.
    StoredMnemonic,
    /// AccountMethod's IsLatestAddressUnused response.
    IsLatestAddressUnused(bool),
    /// IsLatestAddressUnused response.
    AreAllLatestAddressesUnused(bool),
    /// SetAlias response.
    UpdatedAlias,
    /// Account method SetClientOptions response.
    UpdatedClientOptions,
    /// GetLedgerStatus response: whether the device is connected.
    LedgerStatus(bool),
    /// DeleteStorage response.
    DeletedStorage,
    /// ChangeStrongholdPassword response.
    StrongholdPasswordChanged,
    /// SetClientOptions response.
    UpdatedAllClientOptions,
}

/// The actor response type.
#[derive(Debug)]
pub struct Response {
    pub id: String,
    pub response: ResponseType,
    pub action: MessageType,
}

impl Response {
    /// Creates a new response: to the request `id`, which asked for
    /// `action`.
    pub fn new(id: String, action: MessageType, response: ResponseType) -> (r: Self)
        ensures
            r.id == id,
            r.action == action,
            r.response == response,
    {
        Response { id, response, action }
    }

    /// The response's type.
    pub fn response(&self) -> (r: &ResponseType)
        ensures
            *r == self.response,
    {
        &self.response
    }
}

/// The message type.
#[derive(Debug)]
pub struct Message {
    pub id: String,
    pub message_type: MessageType,
    pub response_tx: tokio::sync::mpsc::UnboundedSender<Response>,
}

impl Message {
    /// Creates a new instance of a Message.
    pub fn new(id: String, message_type: MessageType, response_tx: tokio::sync::mpsc::UnboundedSender<Response>) -> (r:
        Self)
        ensures
            r.id == id,
            r.message_type == message_type,
            r.response_tx == response_tx,
    {
        Message { id, message_type, response_tx }
    }

    /// The message type.
    pub fn message_type(&self) -> (r: &MessageType)
        ensures
            *r == self.message_type,
    {
        &self.message_type
    }

    /// The response sender.
    pub fn response_tx(&self) -> (r: &tokio::sync::mpsc::UnboundedSender<Response>)
        ensures
            *r == self.response_tx,
    {
        &self.response_tx
    }

    /// The message identifier.
    pub fn id(&self) -> (r: &String)
        ensures
            *r == self.id,
    {
        &self.id
    }
}

} // verus!
