//! The account manager: the table of accounts and what is decided across
//! accounts.

pub mod polling;

use crate::account::sync::events::{
    SyncedAccountEvents, balance_events, confirmation_event, get_events,
};
use crate::account::sync::{
    AccountSynchronizer,
    SyncOutcome,
    SyncedAccount,
    SyncedAccountData,
    SyncedAccountView,
    addresses_changed,
    changed_addresses,
    confirmation_changed_messages,
    confirmations,
    deposit_address,
    deposit_address_of,
    diff_messages,
    known_messages,
    new_messages,
};
use crate::account::{
    Account,
    AccountView,
    addresses_appended,
    is_latest_address,
    messages_appended,
    total_balance,
};
use crate::account_manager::polling::{RepostAction, repost_check};
use crate::address::{Address, MessageId, clone_addresses};
use crate::message::{
    MessageView,
    RemainderValueStrategyView,
    Transfer,
    TransferView,
    clone_messages,
};
use crate::error::Error;
use crate::search::{
    first_position, lemma_first_position, lemma_unmarked_fresh, lemma_unmarked_set,
    lemma_unmarked_zero, unmarked_count,
};
use vstd::prelude::*;
use vstd::string::*;

verus! {

/// The default storage folder.
pub const DEFAULT_STORAGE_FOLDER: &'static str = "./storage";

/// The number of outputs on an address beyond which they are consolidated,
/// unless another number is set.
pub const DEFAULT_OUTPUT_CONSOLIDATION_THRESHOLD: usize = 100;

/// The default stronghold storage file name.
pub const STRONGHOLD_FILENAME: &'static str = "wallet.stronghold";

/// The default SQLite storage file name.
pub const SQLITE_FILENAME: &'static str = "wallet.db";

/// The interval between two polls in milliseconds, unless another is set.
pub const DEFAULT_POLLING_INTERVAL: u64 = 30_000;

/// The number of rounds by which a storage password is stretched.
pub const STORAGE_KEY_ROUNDS: usize = 100;

/// The storage used by the manager.
#[derive(Clone, Copy, Debug, PartialEq, Eq, Structural)]
pub enum ManagerStorage {
    /// Stronghold storage.
    Stronghold,
    /// Sqlite storage.
    Sqlite,
}

/// The options that the manager hands to each account.
#[derive(Clone, Copy, Debug, PartialEq, Eq, Structural)]
pub struct AccountOptions {
    /// The number of outputs on an address beyond which they are
    /// consolidated.
    pub output_consolidation_threshold: usize,
    /// Whether outputs are consolidated without being asked for.
    pub automatic_output_consolidation: bool,
    /// Whether the history of spent outputs is synchronised.
    pub sync_spent_outputs: bool,
    /// Whether events are stored.
    pub persist_events: bool,
}

/// The extension that a path names, where it names one. Paths are read as
/// the platform reads them that the library is built for.
pub uninterp spec fn path_extension(path: Seq<char>) -> Option<Seq<char>>;

/// Whether a path names an extension.
pub open spec fn path_has_extension(path: Seq<char>) -> bool {
    path_extension(path).is_some()
}

/// A path with a further component, joined as the platform joins paths
/// that the library is built for.
pub uninterp spec fn path_joined(path: Seq<char>, component: Seq<char>) -> Seq<char>;

/// The path without its last component, where it has one, as the platform
/// reads paths that the library is built for.
pub uninterp spec fn path_parent(path: Seq<char>) -> Option<Seq<char>>;

/// The bytes that PBKDF2 with HMAC-SHA512 derives from a password and a
/// salt in `rounds` rounds, sixty-four of them.
pub uninterp spec fn pbkdf2_hmac_sha512_output(password: Seq<u8>, salt: Seq<u8>, rounds: nat) -> Seq<u8>;

/// Asks `std::path::Path::extension` for the extension that the path
/// names. The contract names the answer.
#[verifier::external_body]
fn extension_of(path: &String) -> (r: Option<String>)
    ensures
        match r {
            Some(extension) => path_extension(path@) == Some(extension@),
            None => path_extension(path@).is_none(),
        },
{
    std::path::Path::new(path).extension().map(|extension| extension.to_string_lossy().into_owned())
}

/// Whether the path names an extension.
pub fn has_extension(path: &String) -> (r: bool)
    ensures
        r == path_has_extension(path@),
{
    extension_of(path).is_some()
}

/// The extension of snapshot files.
pub const STRONGHOLD_EXTENSION: &'static str = "stronghold";

/// Whether the path names a snapshot file by its extension.
pub fn is_snapshot_path(path: &String) -> (r: bool)
    ensures
        r == (path_extension(path@) == Some(STRONGHOLD_EXTENSION@)),
{
    match extension_of(path) {
        Some(extension) => extension == STRONGHOLD_EXTENSION.to_string(),
        None => false,
    }
}

/// Adds a component to a path with `std::path::Path::join`. The contract
/// names the result.
#[verifier::external_body]
fn join_path(path: &String, component: &str) -> (r: String)
    ensures
        r@ == path_joined(path@, component@),
{
    std::path::Path::new(path).join(component).to_string_lossy().into_owned()
}

/// Takes the last component off a path with `std::path::Path::parent`. The
/// contract names the result.
#[verifier::external_body]
fn parent_path(path: &String) -> (r: Option<String>)
    ensures
        match r {
            Some(parent) => path_parent(path@) == Some(parent@),
            None => path_parent(path@).is_none(),
        },
{
    std::path::Path::new(path).parent().map(|parent| parent.to_string_lossy().into_owned())
}

/// Derives sixty-four bytes with `crypto::keys::pbkdf::PBKDF2_HMAC_SHA512`.
/// The contract names the result; the call fails on a count of zero, which
/// is left out.
#[verifier::external_body]
fn pbkdf2_hmac_sha512(password: &[u8], salt: &[u8], rounds: usize) -> (r: [u8; 64])
    requires
        0 < rounds <= u32::MAX,
    ensures
        r@ == pbkdf2_hmac_sha512_output(password@, salt@, rounds as nat),
{
    let mut derived = [0; 64];
    crypto::keys::pbkdf::PBKDF2_HMAC_SHA512(password, salt, rounds, &mut derived).unwrap();
    derived
}

/// The file that a storage of the given kind lives in by default.
pub open spec fn storage_file_name(storage: ManagerStorage) -> Seq<char> {
    match storage {
        ManagerStorage::Stronghold => STRONGHOLD_FILENAME@,
        ManagerStorage::Sqlite => SQLITE_FILENAME@,
    }
}

/// The path of the storage file: the given path where it is a file or
/// names an extension, else the default file of the storage in the folder
/// that the path names.
pub open spec fn storage_file_path_of(storage: ManagerStorage, storage_path: Seq<char>, is_file: bool) -> Seq<
    char,
> {
    if is_file || path_has_extension(storage_path) {
        storage_path
    } else {
        path_joined(storage_path, storage_file_name(storage))
    }
}

/// The path of the storage file. Whether the path is a file at present is
/// for the caller to find out.
pub fn storage_file_path(storage: &ManagerStorage, storage_path: &String, is_file: bool) -> (r: String)
    ensures
        r@ == storage_file_path_of(*storage, storage_path@, is_file),
{
    if is_file || has_extension(storage_path) {
        storage_path.clone()
    } else {
        match storage {
            ManagerStorage::Stronghold => join_path(storage_path, STRONGHOLD_FILENAME),
            ManagerStorage::Sqlite => join_path(storage_path, SQLITE_FILENAME),
        }
    }
}

/// The folder of the storage: the folder of the given path where that is a
/// file or names an extension and has a folder; else the path itself.
pub open spec fn storage_folder_of(storage_path: Seq<char>, is_file: bool) -> Seq<char> {
    if is_file || path_has_extension(storage_path) {
        match path_parent(storage_path) {
            Some(parent) => parent,
            None => storage_path,
        }
    } else {
        storage_path
    }
}

/// The folder of the storage.
pub fn storage_folder(storage_path: &String, is_file: bool) -> (r: String)
    ensures
        r@ == storage_folder_of(storage_path@, is_file),
{
    if is_file || has_extension(storage_path) {
        match parent_path(storage_path) {
            Some(parent) => parent,
            None => storage_path.clone(),
        }
    } else {
        storage_path.clone()
    }
}

/// The salt that sets the keys of storages apart from other keys.
pub open spec fn storage_key_salt() -> Seq<u8> {
    "wallet.rs::storage".spec_bytes()
}

/// The key that a storage password stands for: the first thirty-two bytes
/// of what PBKDF2 with HMAC-SHA512 derives from it in a hundred rounds.
pub open spec fn encryption_key_of(password: Seq<u8>) -> Seq<u8> {
    pbkdf2_hmac_sha512_output(password, storage_key_salt(), STORAGE_KEY_ROUNDS as nat).take(32)
}

/// The key that a storage is encrypted with under `password`.
pub fn storage_password_to_encryption_key(password: &str) -> (r: [u8; 32])
    ensures
        r@ == encryption_key_of(password.spec_bytes()),
{
    let derived = pbkdf2_hmac_sha512(
        password.as_bytes(),
        "wallet.rs::storage".as_bytes(),
        STORAGE_KEY_ROUNDS,
    );
    let mut key = [0u8; 32];
    let mut i: usize = 0;
    while i < 32
        invariant
            i <= 32,
            forall|j: int| 0 <= j < i ==> key@[j] == derived@[j],
        decreases 32 - i,
    {
        key[i] = derived[i];
        i += 1;
    }
    assert(key@ =~= derived@.take(32));
    key
}

/// The salt that sets the passwords of snapshots apart from other keys.
pub open spec fn snapshot_key_salt() -> Seq<u8> {
    "wallet.rs".spec_bytes()
}

/// The key that a snapshot password stands for: the first thirty-two bytes
/// of what PBKDF2 with HMAC-SHA512 derives from it in a hundred rounds.
pub open spec fn snapshot_key_of(password: Seq<u8>) -> Seq<u8> {
    pbkdf2_hmac_sha512_output(password, snapshot_key_salt(), STORAGE_KEY_ROUNDS as nat).take(32)
}

/// The key that a snapshot is opened with under `password`.
pub fn stronghold_password(password: &str) -> (r: Vec<u8>)
    ensures
        r@ == snapshot_key_of(password.spec_bytes()),
{
    let derived = pbkdf2_hmac_sha512(password.as_bytes(), "wallet.rs".as_bytes(), STORAGE_KEY_ROUNDS);
    let mut key: Vec<u8> = Vec::new();
    let mut i: usize = 0;
    while i < 32
        invariant
            i <= 32,
            key@ == derived@.take(i as int),
        decreases 32 - i,
    {
        key.push(derived[i]);
        assert(key@ =~= derived@.take(i as int + 1));
        i += 1;
    }
    key
}

/// A key as a mathematical value.
pub open spec fn key_view(key: Option<[u8; 32]>) -> Option<Seq<u8>> {
    match key {
        Some(bytes) => Some(bytes@),
        None => None,
    }
}

/// Account manager builder.
#[derive(Debug)]
pub struct AccountManagerBuilder {
    pub storage_path: String,
    pub storage: ManagerStorage,
    pub polling_interval: u64,
    pub skip_polling: bool,
    pub storage_encryption_key: Option<[u8; 32]>,
    pub account_options: AccountOptions,
}

/// The settings of a manager under construction, as a mathematical value.
pub ghost struct AccountManagerBuilderView {
    pub storage_path: Seq<char>,
    pub storage: ManagerStorage,
    pub polling_interval: u64,
    pub skip_polling: bool,
    pub storage_encryption_key: Option<Seq<u8>>,
    pub account_options: AccountOptions,
}

impl View for AccountManagerBuilder {
    type V = AccountManagerBuilderView;

    open spec fn view(&self) -> AccountManagerBuilderView {
        AccountManagerBuilderView {
            storage_path: self.storage_path@,
            storage: self.storage,
            polling_interval: self.polling_interval,
            skip_polling: self.skip_polling,
            storage_encryption_key: key_view(self.storage_encryption_key),
            account_options: self.account_options,
        }
    }
}

/// The settings of a manager that nothing was said about.
pub open spec fn default_builder() -> AccountManagerBuilderView {
    AccountManagerBuilderView {
        storage_path: DEFAULT_STORAGE_FOLDER@,
        storage: ManagerStorage::Sqlite,
        polling_interval: DEFAULT_POLLING_INTERVAL,
        skip_polling: false,
        storage_encryption_key: None,
        account_options: AccountOptions {
            output_consolidation_threshold: DEFAULT_OUTPUT_CONSOLIDATION_THRESHOLD,
            automatic_output_consolidation: true,
            sync_spent_outputs: false,
            persist_events: false,
        },
    }
}

impl Default for AccountManagerBuilder {
    fn default() -> (r: Self)
        ensures
            r@ == default_builder(),
    {
        AccountManagerBuilder {
            storage_path: DEFAULT_STORAGE_FOLDER.to_string(),
            storage: ManagerStorage::Sqlite,
            polling_interval: DEFAULT_POLLING_INTERVAL,
            skip_polling: false,
            storage_encryption_key: None,
            account_options: AccountOptions {
                output_consolidation_threshold: DEFAULT_OUTPUT_CONSOLIDATION_THRESHOLD,
                automatic_output_consolidation: true,
                sync_spent_outputs: false,
                persist_events: false,
            },
        }
    }
}

impl AccountManagerBuilder {
    /// Initialises a new instance of the account manager builder with the
    /// default storage adapter.
    pub fn new() -> (r: Self)
        ensures
            r@ == default_builder(),
    {
        AccountManagerBuilder {
            storage_path: DEFAULT_STORAGE_FOLDER.to_string(),
            storage: ManagerStorage::Sqlite,
            polling_interval: DEFAULT_POLLING_INTERVAL,
            skip_polling: false,
            storage_encryption_key: None,
            account_options: AccountOptions {
                output_consolidation_threshold: DEFAULT_OUTPUT_CONSOLIDATION_THRESHOLD,
                automatic_output_consolidation: true,
                sync_spent_outputs: false,
                persist_events: false,
            },
        }
    }

    /// Sets the storage config to be used: the path, and the key that the
    /// password stands for, if there is a password.
    pub fn with_storage(self, storage_path: &str, password: Option<&str>) -> (r: Result<Self, Error>)
        ensures
            r matches Ok(builder) && builder@ == (AccountManagerBuilderView {
                storage_path: storage_path@,
                storage_encryption_key: match password {
                    Some(p) => Some(encryption_key_of(p.spec_bytes())),
                    None => None,
                },
                ..self@
            }),
    {
        let mut this = self;
        this.storage_path = storage_path.to_string();
        this.storage_encryption_key = match password {
            Some(p) => Some(storage_password_to_encryption_key(p)),
            None => None,
        };
        Ok(this)
    }

    /// Sets the polling interval, in milliseconds.
    pub fn with_polling_interval(self, polling_interval: u64) -> (r: Self)
        ensures
            r@ == (AccountManagerBuilderView { polling_interval, ..self@ }),
    {
        let mut this = self;
        this.polling_interval = polling_interval;
        this
    }

    /// Has the manager start without polling.
    pub fn skip_polling(self) -> (r: Self)
        ensures
            r@ == (AccountManagerBuilderView { skip_polling: true, ..self@ }),
    {
        let mut this = self;
        this.skip_polling = true;
        this
    }

    /// Use stronghold as storage system.
    pub fn with_stronghold_storage(self) -> (r: Self)
        ensures
            r@ == (AccountManagerBuilderView { storage: ManagerStorage::Stronghold, ..self@ }),
    {
        let mut this = self;
        this.storage = ManagerStorage::Stronghold;
        this
    }

    /// Sets the number of outputs an address must have to trigger the
    /// automatic consolidation process.
    pub fn with_output_consolidation_threshold(self, threshold: usize) -> (r: Self)
        ensures
            r@ == (AccountManagerBuilderView {
                account_options: AccountOptions {
                    output_consolidation_threshold: threshold,
                    ..self@.account_options
                },
                ..self@
            }),
    {
        let mut this = self;
        this.account_options.output_consolidation_threshold = threshold;
        this
    }

    /// Disables the automatic output consolidation process.
    pub fn with_automatic_output_consolidation_disabled(self) -> (r: Self)
        ensures
            r@ == (AccountManagerBuilderView {
                account_options: AccountOptions {
                    automatic_output_consolidation: false,
                    ..self@.account_options
                },
                ..self@
            }),
    {
        let mut this = self;
        this.account_options.automatic_output_consolidation = false;
        this
    }

    /// Enables fetching spent output history on sync.
    pub fn with_sync_spent_outputs(self) -> (r: Self)
        ensures
            r@ == (AccountManagerBuilderView {
                account_options: AccountOptions { sync_spent_outputs: true, ..self@.account_options },
                ..self@
            }),
    {
        let mut this = self;
        this.account_options.sync_spent_outputs = true;
        this
    }

    /// Enables event persistence.
    pub fn with_event_persistence(self) -> (r: Self)
        ensures
            r@ == (AccountManagerBuilderView {
                account_options: AccountOptions { persist_events: true, ..self@.account_options },
                ..self@
            }),
    {
        let mut this = self;
        this.account_options.persist_events = true;
        this
    }

    /// Builds the manager. Whether the storage path is a file at present,
    /// and the accounts that the storage holds, are for the caller to find
    /// out; `stored` holds none where they could not be read. A stronghold
    /// storage hands its accounts out only once its password is set, so the
    /// manager starts without them.
    pub fn finish(self, is_file: bool, stored: Option<Vec<Account>>) -> (r: AccountManager)
        ensures
            r@ == (AccountManagerView {
                storage_folder: storage_folder_of(self@.storage_path, is_file),
                loaded_accounts: self@.storage == ManagerStorage::Sqlite && stored.is_some(),
                storage_path: storage_file_path_of(self@.storage, self@.storage_path, is_file),
                accounts: if self@.storage == ManagerStorage::Sqlite && stored.is_some() {
                    stored.unwrap().deep_view()
                } else {
                    Seq::empty()
                },
                generated_mnemonic: None,
                account_options: self@.account_options,
            }),
    {
        let storage_path = storage_file_path(&self.storage, &self.storage_path, is_file);
        let storage_folder = storage_folder(&self.storage_path, is_file);
        let (accounts, loaded_accounts) = match (self.storage, stored) {
            (ManagerStorage::Sqlite, Some(accounts)) => (accounts, true),
            _ => {
                let none: Vec<Account> = Vec::new();
                assert(none.deep_view() =~= Seq::empty());
                (none, false)
            },
        };
        AccountManager {
            storage_folder,
            loaded_accounts,
            storage_path,
            accounts,
            generated_mnemonic: None,
            account_options: self.account_options,
        }
    }
}

/// The account manager.
///
/// Used to manage multiple accounts.
#[derive(Debug)]
pub struct AccountManager {
    pub storage_folder: String,
    pub loaded_accounts: bool,
    /// The path to the storage.
    pub storage_path: String,
    /// The accounts.
    pub accounts: Vec<Account>,
    pub generated_mnemonic: Option<String>,
    pub account_options: AccountOptions,
}

/// The manager as a mathematical value.
pub ghost struct AccountManagerView {
    pub storage_folder: Seq<char>,
    pub loaded_accounts: bool,
    pub storage_path: Seq<char>,
    pub accounts: Seq<AccountView>,
    pub generated_mnemonic: Option<Seq<char>>,
    pub account_options: AccountOptions,
}

impl View for AccountManager {
    type V = AccountManagerView;

    open spec fn view(&self) -> AccountManagerView {
        AccountManagerView {
            storage_folder: self.storage_folder@,
            loaded_accounts: self.loaded_accounts,
            storage_path: self.storage_path@,
            accounts: self.accounts.deep_view(),
            generated_mnemonic: match self.generated_mnemonic {
                Some(m) => Some(m@),
                None => None,
            },
            account_options: self.account_options,
        }
    }
}

/// The ways to name an account.
#[derive(Debug)]
pub enum AccountIdentifier {
    /// By the address of one of its addresses, in bech32.
    Address(String),
    /// By its identifier.
    Id(String),
    /// By its alias.
    Alias(String),
    /// By its index.
    Index(usize),
}

/// A way to name an account, as a mathematical value.
pub ghost enum AccountIdentifierView {
    Address(Seq<char>),
    Id(Seq<char>),
    Alias(Seq<char>),
    Index(usize),
}

impl View for AccountIdentifier {
    type V = AccountIdentifierView;

    open spec fn view(&self) -> AccountIdentifierView {
        match self {
            AccountIdentifier::Address(a) => AccountIdentifierView::Address(a@),
            AccountIdentifier::Id(a) => AccountIdentifierView::Id(a@),
            AccountIdentifier::Alias(a) => AccountIdentifierView::Alias(a@),
            AccountIdentifier::Index(i) => AccountIdentifierView::Index(*i),
        }
    }
}

/// What the identifiers of accounts begin with.
pub const ACCOUNT_ID_PREFIX: &'static str = "wallet-account://";

/// What a text names an account by: by its identifier where the text
/// begins like one, by an address where the text is one, else by its
/// alias.
pub open spec fn identifier_of(text: Seq<char>) -> AccountIdentifierView {
    if crate::search::begins_with(text, ACCOUNT_ID_PREFIX@) {
        AccountIdentifierView::Id(text)
    } else if crate::account::sync::essence::bech32_address_bytes(text).is_some() {
        AccountIdentifierView::Address(text)
    } else {
        AccountIdentifierView::Alias(text)
    }
}

impl AccountIdentifier {
    /// Reads a text as the name of an account.
    pub fn from_text(text: String) -> (r: Self)
        ensures
            r@ == identifier_of(text@),
    {
        if crate::search::starts_with(&text, ACCOUNT_ID_PREFIX) {
            AccountIdentifier::Id(text)
        } else if crate::account::sync::essence::is_bech32_address(&text) {
            AccountIdentifier::Address(text)
        } else {
            AccountIdentifier::Alias(text)
        }
    }
}

/// The identifier names the account.
pub open spec fn names(identifier: AccountIdentifierView, account: AccountView) -> bool {
    match identifier {
        AccountIdentifierView::Address(a) => account.owns(a),
        AccountIdentifierView::Id(id) => account.id == id,
        AccountIdentifierView::Alias(alias) => account.alias == alias,
        AccountIdentifierView::Index(index) => account.index == index,
    }
}

/// The property of being named by the identifier.
pub open spec fn named_by(identifier: AccountIdentifierView) -> spec_fn(AccountView) -> bool {
    |account: AccountView| names(identifier, account)
}

/// The identifier is an index that several accounts have, so that it
/// names none of them.
pub open spec fn is_ambiguous(accounts: Seq<AccountView>, identifier: AccountIdentifierView) -> bool {
    identifier is Index && exists|i: int, j: int|
        0 <= i < j < accounts.len() && names(identifier, #[trigger] accounts[i]) && names(
            identifier,
            #[trigger] accounts[j],
        )
}

/// What looking an account up comes to: its position in the table, or the
/// reason why there is none. The storage must have handed its accounts
/// out; an index must not name several accounts; and some account must be
/// named. The account is the first that the identifier names.
pub open spec fn lookup(manager: AccountManagerView, identifier: AccountIdentifierView) -> Result<
    int,
    LookupFailure,
> {
    if !manager.loaded_accounts {
        Err(LookupFailure::StorageIsEncrypted)
    } else if is_ambiguous(manager.accounts, identifier) {
        Err(LookupFailure::CannotUseIndexIdentifier)
    } else {
        match first_position(manager.accounts, named_by(identifier)) {
            Some(i) => Ok(i),
            None => Err(LookupFailure::RecordNotFound),
        }
    }
}

/// The reasons for which no account is found.
pub ghost enum LookupFailure {
    StorageIsEncrypted,
    CannotUseIndexIdentifier,
    RecordNotFound,
}

/// Whether an error states the given reason.
pub open spec fn states_failure(e: Error, reason: LookupFailure) -> bool {
    match reason {
        LookupFailure::StorageIsEncrypted => e is StorageIsEncrypted,
        LookupFailure::CannotUseIndexIdentifier => e is CannotUseIndexIdentifier,
        LookupFailure::RecordNotFound => e is RecordNotFound,
    }
}

/// Whether the identifier names the account.
pub fn identifies(identifier: &AccountIdentifier, account: &Account) -> (r: bool)
    ensures
        r == names(identifier@, account@),
{
    match identifier {
        AccountIdentifier::Address(a) => account.find_address(a).is_some(),
        AccountIdentifier::Id(id) => account.id == *id,
        AccountIdentifier::Alias(alias) => account.alias == *alias,
        AccountIdentifier::Index(index) => account.index == *index,
    }
}

impl AccountManager {
    /// Initialises the account manager builder.
    pub fn builder() -> (r: AccountManagerBuilder)
        ensures
            r@ == default_builder(),
    {
        AccountManagerBuilder::new()
    }

    /// Fails while the storage has not handed out its accounts because it
    /// is encrypted.
    pub fn check_storage_encryption(&self) -> (r: Result<(), Error>)
        ensures
            match r {
                Ok(_) => self@.loaded_accounts,
                Err(e) => !self@.loaded_accounts && e is StorageIsEncrypted,
            },
    {
        if self.loaded_accounts {
            Ok(())
        } else {
            Err(Error::StorageIsEncrypted)
        }
    }

    /// Gets the position in the table of the account associated with the
    /// given identifier.
    pub fn get_account(&self, account_id: &AccountIdentifier) -> (r: Result<usize, Error>)
        ensures
            match r {
                Ok(i) => i < self.accounts.len() && lookup(self@, account_id@) == Ok::<
                    int,
                    LookupFailure,
                >(i as int),
                Err(e) => lookup(self@, account_id@) matches Err(reason) && states_failure(e, reason),
            },
    {
        if !self.loaded_accounts {
            return Err(Error::StorageIsEncrypted);
        }
        let ghost view = self@.accounts;
        let only_one = match account_id {
            AccountIdentifier::Index(_) => true,
            _ => false,
        };
        let mut found: Option<usize> = None;
        let mut i: usize = 0;
        while i < self.accounts.len()
            invariant
                i <= self.accounts.len(),
                view == self@.accounts,
                self.loaded_accounts,
                only_one == account_id@ is Index,
                match found {
                    Some(p) => {
                        &&& p < i
                        &&& names(account_id@, view[p as int])
                        &&& forall|j: int|
                            0 <= j < i && j != p ==> !names(account_id@, #[trigger] view[j])
                        &&& only_one
                    },
                    None => forall|j: int| 0 <= j < i ==> !names(account_id@, #[trigger] view[j]),
                },
            decreases self.accounts.len() - i,
        {
            assert(view[i as int] == self.accounts@[i as int]@);
            if identifies(account_id, &self.accounts[i]) {
                match found {
                    Some(p) => {
                        assert(names(account_id@, view[p as int]) && names(
                            account_id@,
                            view[i as int],
                        ));
                        assert(is_ambiguous(view, account_id@));
                        return Err(Error::CannotUseIndexIdentifier);
                    },
                    None => {
                        if !only_one {
                            proof {
                                lemma_first_position(view, named_by(account_id@));
                            }
                            return Ok(i);
                        }
                        found = Some(i);
                    },
                }
            }
            i += 1;
        }
        proof {
            lemma_first_position(view, named_by(account_id@));
        }
        match found {
            Some(p) => Ok(p),
            None => Err(Error::RecordNotFound),
        }
    }
}

/// Position `i` comes before position `j` in the order of the indices;
/// equal indices keep the order of the list.
pub open spec fn index_precedes(indices: Seq<usize>, i: int, j: int) -> bool {
    indices[i] < indices[j] || (indices[i] == indices[j] && i < j)
}

/// `order` lists every position of `indices` once, by ascending index, and
/// positions with the same index in their order.
pub open spec fn orders_by_index(indices: Seq<usize>, order: Seq<int>) -> bool {
    &&& order.len() == indices.len()
    &&& order.no_duplicates()
    &&& forall|k: int| 0 <= k < order.len() ==> 0 <= #[trigger] order[k] < indices.len()
    &&& forall|k: int| 0 <= k < order.len() - 1 ==> index_precedes(indices, #[trigger] order[k], order[k + 1])
}

/// The positions as mathematical integers.
pub open spec fn positions(order: Seq<usize>) -> Seq<int> {
    Seq::new(order.len(), |k: int| order[k] as int)
}

/// The unmarked position that comes first in the order of the indices, if
/// any is left.
fn first_unmarked(indices: &Vec<usize>, used: &Vec<bool>) -> (r: Option<usize>)
    requires
        used.len() == indices.len(),
    ensures
        match r {
            Some(j) => {
                &&& j < indices.len()
                &&& !used@[j as int]
                &&& forall|k: int|
                    0 <= k < indices.len() && k != j && !(#[trigger] used@[k]) ==> index_precedes(
                        indices@,
                        j as int,
                        k,
                    )
            },
            None => forall|k: int| 0 <= k < indices.len() ==> used@[k],
        },
{
    let mut best: Option<usize> = None;
    let mut i: usize = 0;
    while i < indices.len()
        invariant
            i <= indices.len(),
            used.len() == indices.len(),
            match best {
                Some(j) => {
                    &&& j < i
                    &&& !used@[j as int]
                    &&& forall|k: int|
                        0 <= k < i && k != j && !(#[trigger] used@[k]) ==> index_precedes(
                            indices@,
                            j as int,
                            k,
                        )
                },
                None => forall|k: int| 0 <= k < i ==> used@[k],
            },
        decreases indices.len() - i,
    {
        if !used[i] {
            match best {
                Some(j) => {
                    if indices[i] < indices[j] {
                        best = Some(i);
                    }
                },
                None => {
                    best = Some(i);
                },
            }
        }
        i += 1;
    }
    best
}

/// The positions of `indices` by ascending index.
pub fn order_by_index(indices: &Vec<usize>) -> (r: Vec<usize>)
    ensures
        orders_by_index(indices@, positions(r@)),
{
    let n = indices.len();
    let mut used: Vec<bool> = Vec::new();
    let mut i: usize = 0;
    while i < n
        invariant
            i <= n,
            used.len() == i,
            forall|k: int| 0 <= k < i ==> !used@[k],
        decreases n - i,
    {
        used.push(false);
        i += 1;
    }
    let mut order: Vec<usize> = Vec::new();
    proof {
        lemma_unmarked_fresh(used@, n as int);
    }
    while order.len() < n
        invariant
            n == indices.len(),
            used.len() == n,
            order.len() <= n,
            unmarked_count(used@, n as int) == n - order.len(),
            positions(order@).no_duplicates(),
            forall|k: int| 0 <= k < order.len() ==> 0 <= #[trigger] order@[k] < n,
            forall|i: int| 0 <= i < n ==> (used@[i] <==> positions(order@).contains(i)),
            forall|k: int|
                0 <= k < order.len() - 1 ==> index_precedes(
                    indices@,
                    #[trigger] positions(order@)[k],
                    positions(order@)[k + 1],
                ),
            order.len() > 0 ==> forall|i: int|
                0 <= i < n && !(#[trigger] used@[i]) ==> index_precedes(
                    indices@,
                    positions(order@).last(),
                    i,
                ),
        decreases n - order.len(),
    {
        proof {
            lemma_unmarked_zero(used@, n as int);
        }
        match first_unmarked(indices, &used) {
            Some(j) => {
                let ghost before = positions(order@);
                proof {
                    lemma_unmarked_set(used@, j as int, n as int);
                }
                order.push(j);
                used[j] = true;
                proof {
                    let after = positions(order@);
                    assert(after =~= before.push(j as int));
                    assert(!before.contains(j as int));
                    assert forall|a: int, b: int|
                        0 <= a < after.len() && 0 <= b < after.len() && a != b implies after[a]
                        != after[b] by {
                        if a < before.len() && b < before.len() {
                            assert(before[a] != before[b]);
                        } else if a < before.len() {
                            assert(before.contains(before[a]));
                        } else {
                            assert(before.contains(before[b]));
                        }
                    }
                    assert forall|i: int| 0 <= i < n implies (used@[i] <==> after.contains(i)) by {
                        if i == j {
                            assert(after[before.len() as int] == j);
                        } else if before.contains(i) {
                            let k = choose|k: int| 0 <= k < before.len() && before[k] == i;
                            assert(after[k] == i);
                        } else if after.contains(i) {
                            let k = choose|k: int| 0 <= k < after.len() && after[k] == i;
                            assert(before[k] == i);
                        }
                    }
                    assert forall|k: int| 0 <= k < after.len() - 1 implies index_precedes(
                        indices@,
                        #[trigger] after[k],
                        after[k + 1],
                    ) by {
                        if k == before.len() - 1 {
                            assert(after[k] == before.last());
                        } else {
                            assert(after[k] == before[k] && after[k + 1] == before[k + 1]);
                        }
                    }
                }
            },
            None => {
                assert(false);
            },
        }
    }
    order
}

/// The indices of the accounts, in the order of the table.
pub open spec fn account_indices(accounts: Seq<AccountView>) -> Seq<usize> {
    accounts.map_values(|a: AccountView| a.index)
}

/// Some account has the alias.
pub open spec fn alias_is_taken(accounts: Seq<AccountView>, alias: Seq<char>) -> bool {
    exists|i: int| 0 <= i < accounts.len() && (#[trigger] accounts[i]).alias == alias
}

impl AccountManager {
    /// Gets all accounts, by ascending index.
    pub fn get_accounts(&self) -> (r: Result<Vec<Account>, Error>)
        ensures
            match r {
                Ok(accounts) => self@.loaded_accounts && exists|order: Seq<int>|
                    {
                        &&& #[trigger] orders_by_index(account_indices(self@.accounts), order)
                        &&& accounts.deep_view() == Seq::new(
                            order.len(),
                            |k: int| self@.accounts[order[k]],
                        )
                    },
                Err(e) => !self@.loaded_accounts && e is StorageIsEncrypted,
            },
    {
        if !self.loaded_accounts {
            return Err(Error::StorageIsEncrypted);
        }
        let ghost view = self@.accounts;
        let mut indices: Vec<usize> = Vec::new();
        let mut i: usize = 0;
        while i < self.accounts.len()
            invariant
                i <= self.accounts.len(),
                view == self@.accounts,
                indices.len() == i,
                forall|j: int| 0 <= j < i ==> indices@[j] == (#[trigger] view[j]).index,
            decreases self.accounts.len() - i,
        {
            assert(view[i as int] == self.accounts@[i as int]@);
            indices.push(self.accounts[i].index);
            i += 1;
        }
        assert(indices@ =~= account_indices(view));
        let order = order_by_index(&indices);
        let mut accounts: Vec<Account> = Vec::new();
        let mut k: usize = 0;
        while k < order.len()
            invariant
                k <= order.len(),
                order.len() == self.accounts.len(),
                view == self@.accounts,
                forall|j: int|
                    0 <= j < order.len() ==> 0 <= #[trigger] positions(order@)[j] < self.accounts.len(),
                accounts.len() == k,
                forall|j: int| 0 <= j < k ==> accounts@[j]@ == view[positions(order@)[j]],
            decreases order.len() - k,
        {
            assert(positions(order@)[k as int] == order@[k as int]);
            assert(view[order@[k as int] as int] == self.accounts@[order@[k as int] as int]@);
            accounts.push(self.accounts[order[k]].clone());
            k += 1;
        }
        proof {
            let listed = positions(order@);
            assert(accounts.deep_view() =~= Seq::new(listed.len(), |k: int| view[listed[k]]));
        }
        Ok(accounts)
    }

    /// Deletes an account from the table, unless it still holds funds.
    pub fn remove_account(&mut self, account_id: &AccountIdentifier) -> (r: Result<(), Error>)
        ensures
            match r {
                Ok(_) => {
                    &&& lookup(old(self)@, account_id@) matches Ok(p)
                    &&& total_balance(old(self)@.accounts[p].addresses) == 0
                    &&& final(self)@ == (AccountManagerView {
                        accounts: old(self)@.accounts.remove(p),
                        ..old(self)@
                    })
                },
                Err(e) => {
                    &&& final(self)@ == old(self)@
                    &&& match lookup(old(self)@, account_id@) {
                        Ok(p) => total_balance(old(self)@.accounts[p].addresses) > 0
                            && e is AccountNotEmpty,
                        Err(reason) => states_failure(e, reason),
                    }
                },
            },
    {
        let position = match self.get_account(account_id) {
            Ok(position) => position,
            Err(e) => {
                return Err(e);
            },
        };
        assert(self@.accounts[position as int] == self.accounts@[position as int]@);
        if self.accounts[position].balance_total() > 0 {
            return Err(Error::AccountNotEmpty);
        }
        self.accounts.remove(position);
        assert(self@.accounts =~= old(self)@.accounts.remove(position as int));
        Ok(())
    }

    /// Adds a new account to the table, unless that is to be skipped. No
    /// two accounts of the table have the same alias.
    pub fn create_account(&mut self, account: Account, skip_persistence: bool) -> (r: Result<(), Error>)
        ensures
            match r {
                Ok(_) => {
                    &&& old(self)@.loaded_accounts
                    &&& !alias_is_taken(old(self)@.accounts, account@.alias)
                    &&& final(self)@ == (AccountManagerView {
                        accounts: if skip_persistence {
                            old(self)@.accounts
                        } else {
                            old(self)@.accounts.push(account@)
                        },
                        ..old(self)@
                    })
                },
                Err(e) => {
                    &&& final(self)@ == old(self)@
                    &&& if !old(self)@.loaded_accounts {
                        e is StorageIsEncrypted
                    } else {
                        alias_is_taken(old(self)@.accounts, account@.alias)
                            && e is AccountAliasAlreadyExists
                    }
                },
            },
    {
        if !self.loaded_accounts {
            return Err(Error::StorageIsEncrypted);
        }
        let mut i: usize = 0;
        while i < self.accounts.len()
            invariant
                i <= self.accounts.len(),
                *self == *old(self),
                self.loaded_accounts,
                forall|j: int| 0 <= j < i ==> (#[trigger] self@.accounts[j]).alias != account@.alias,
            decreases self.accounts.len() - i,
        {
            assert(self@.accounts[i as int] == self.accounts@[i as int]@);
            if self.accounts[i].alias == account.alias {
                return Err(Error::AccountAliasAlreadyExists);
            }
            i += 1;
        }
        if !skip_persistence {
            self.accounts.push(account);
            assert(self@.accounts =~= old(self)@.accounts.push(account@));
        }
        Ok(())
    }
}

/// Whether a sentence is a mnemonic of the English word list: its words
/// are of the list, their number is one that is allowed, and the checksum
/// holds.
pub uninterp spec fn mnemonic_is_valid(mnemonic: Seq<char>) -> bool;

/// The mnemonic of the English word list that stands for an entropy, where
/// the entropy has a length that is allowed.
pub uninterp spec fn mnemonic_of_entropy(entropy: Seq<u8>) -> Option<Seq<char>>;

/// Checks a mnemonic with `crypto::keys::bip39::wordlist::verify` against
/// the English word list. The contract names the verdict; where the
/// mnemonic is refused the reason comes back as text.
#[verifier::external_body]
fn verify_bip39(mnemonic: &str) -> (r: Result<(), String>)
    ensures
        r.is_ok() == mnemonic_is_valid(mnemonic@),
{
    crypto::keys::bip39::wordlist::verify(mnemonic, &crypto::keys::bip39::wordlist::ENGLISH).map_err(
        |e| format!("{:?}", e),
    )
}

/// Encodes an entropy with `crypto::keys::bip39::wordlist::encode` in the
/// English word list. The contract names the result; where the entropy is
/// refused the reason comes back as text.
#[verifier::external_body]
fn encode_bip39(entropy: &[u8; 32]) -> (r: Result<String, String>)
    ensures
        match r {
            Ok(mnemonic) => mnemonic_of_entropy(entropy@) == Some(mnemonic@),
            Err(_) => mnemonic_of_entropy(entropy@).is_none(),
        },
{
    crypto::keys::bip39::wordlist::encode(entropy, &crypto::keys::bip39::wordlist::ENGLISH).map_err(
        |e| format!("{:?}", e),
    )
}

/// Draws thirty-two bytes from the system's source of entropy with
/// `crypto::utils::rand::fill`. Nothing is claimed of them; where the
/// source fails the reason comes back as text.
#[verifier::external_body]
fn random_entropy() -> (r: Result<[u8; 32], String>) {
    let mut entropy = [0u8; 32];
    match crypto::utils::rand::fill(&mut entropy) {
        Ok(_) => Ok(entropy),
        Err(e) => Err(format!("{:?}", e)),
    }
}

/// Wipes a text with `zeroize::Zeroize::zeroize`, which overwrites its
/// bytes and leaves it empty.
#[verifier::external_body]
fn wipe(text: &mut String)
    ensures
        final(text)@ == Seq::<char>::empty(),
{
    zeroize::Zeroize::zeroize(text);
}

/// The text of the refusal of a mnemonic that is not the generated one.
pub open spec fn mismatch_text() -> Seq<char> {
    "doesn't match the generated mnemonic"@
}

/// The mnemonic passes: it is valid, and it is the mnemonic that the
/// manager generated, if it generated one.
pub open spec fn mnemonic_passes(manager: AccountManagerView, mnemonic: Seq<char>) -> bool {
    mnemonic_is_valid(mnemonic) && match manager.generated_mnemonic {
        Some(generated) => generated == mnemonic,
        None => true,
    }
}

impl AccountManager {
    /// Checks is the mnemonic is valid. If a mnemonic was generated with
    /// `generate_mnemonic()`, the mnemonic here should match the generated.
    pub fn verify_mnemonic(&self, mnemonic: &String) -> (r: Result<(), Error>)
        ensures
            match r {
                Ok(_) => mnemonic_passes(self@, mnemonic@),
                Err(e) => {
                    &&& !mnemonic_passes(self@, mnemonic@)
                    &&& e matches Error::InvalidMnemonic(text)
                    &&& mnemonic_is_valid(mnemonic@) ==> text@ == mismatch_text()
                },
            },
    {
        match verify_bip39(mnemonic.as_str()) {
            Ok(_) => {},
            Err(reason) => {
                return Err(Error::InvalidMnemonic(reason));
            },
        }
        if let Some(generated) = &self.generated_mnemonic {
            if !(*generated == *mnemonic) {
                return Err(
                    Error::InvalidMnemonic("doesn't match the generated mnemonic".to_string()),
                );
            }
        }
        Ok(())
    }

    /// Makes a mnemonic of an entropy and keeps it for a later check. The
    /// entropy comes from the system; where there is none, or it cannot be
    /// encoded, nothing is kept.
    pub fn mnemonic_from_entropy(&mut self, entropy: Result<[u8; 32], String>) -> (r: Result<
        String,
        Error,
    >)
        ensures
            match r {
                Ok(mnemonic) => {
                    &&& entropy matches Ok(bytes)
                    &&& mnemonic_of_entropy(bytes@) == Some(mnemonic@)
                    &&& final(self)@ == (AccountManagerView {
                        generated_mnemonic: Some(mnemonic@),
                        ..old(self)@
                    })
                },
                Err(e) => {
                    &&& e is MnemonicEncode
                    &&& final(self)@ == old(self)@
                    &&& match entropy {
                        Ok(bytes) => mnemonic_of_entropy(bytes@).is_none(),
                        Err(text) => e matches Error::MnemonicEncode(t) && t@ == text@,
                    }
                },
            },
    {
        let bytes = match entropy {
            Ok(bytes) => bytes,
            Err(reason) => {
                return Err(Error::MnemonicEncode(reason));
            },
        };
        match encode_bip39(&bytes) {
            Ok(mnemonic) => {
                self.generated_mnemonic = Some(mnemonic.clone());
                Ok(mnemonic)
            },
            Err(reason) => Err(Error::MnemonicEncode(reason)),
        }
    }

    /// Generates a new mnemonic from fresh entropy, and keeps it for a
    /// later check.
    pub fn generate_mnemonic(&mut self) -> (r: Result<String, Error>)
        ensures
            match r {
                Ok(mnemonic) => {
                    &&& exists|entropy: Seq<u8>|
                        entropy.len() == 32 && #[trigger] mnemonic_of_entropy(entropy) == Some(
                            mnemonic@,
                        )
                    &&& final(self)@ == (AccountManagerView {
                        generated_mnemonic: Some(mnemonic@),
                        ..old(self)@
                    })
                },
                Err(e) => e is MnemonicEncode && final(self)@ == old(self)@,
            },
    {
        let entropy = random_entropy();
        let r = self.mnemonic_from_entropy(entropy);
        proof {
            if r.is_ok() {
                let bytes = entropy.unwrap();
                assert(bytes@.len() == 32);
                assert(mnemonic_of_entropy(bytes@) == Some(r.unwrap()@));
            }
        }
        r
    }

    /// Stores a mnemonic: settles which one is stored, the given one if it
    /// passes the check, or a fresh one where none is given, and hands it out
    /// for the signer to keep.
    pub fn store_mnemonic(&mut self, mnemonic: Option<String>) -> (r: Result<String, Error>)
        ensures
            match mnemonic {
                Some(given) => match r {
                    Ok(m) => mnemonic_passes(old(self)@, given@) && m@ == given@ && final(self)@
                        == old(self)@,
                    Err(e) => !mnemonic_passes(old(self)@, given@) && e is InvalidMnemonic
                        && final(self)@ == old(self)@,
                },
                None => match r {
                    Ok(m) => final(self)@ == (AccountManagerView {
                        generated_mnemonic: Some(m@),
                        ..old(self)@
                    }),
                    Err(e) => e is MnemonicEncode && final(self)@ == old(self)@,
                },
            },
    {
        match mnemonic {
            Some(given) => match self.verify_mnemonic(&given) {
                Ok(_) => Ok(given),
                Err(e) => Err(e),
            },
            None => self.generate_mnemonic(),
        }
    }

    /// Forgets the generated mnemonic once it is stored, and wipes it from
    /// memory. What is left of the text is handed out: nothing.
    pub fn forget_generated_mnemonic(&mut self) -> (r: Option<String>)
        ensures
            final(self)@ == (AccountManagerView { generated_mnemonic: None, ..old(self)@ }),
            r.is_some() == old(self)@.generated_mnemonic.is_some(),
            r matches Some(left) ==> left@ == Seq::<char>::empty(),
    {
        let taken = self.generated_mnemonic.take();
        match taken {
            Some(mnemonic) => {
                let mut mnemonic = mnemonic;
                wipe(&mut mnemonic);
                Some(mnemonic)
            },
            None => None,
        }
    }
}

/// The format in which the time of a backup is written: the date, a `T`,
/// and the time of day with dashes for colons.
pub open spec fn backup_time_format() -> Seq<char> {
    "%FT%H-%M-%S"@
}

/// The time of day of this machine, written with `chrono::Local::now` and
/// `chrono::DateTime::format` in the given format. Nothing is claimed of
/// the text: it depends on the clock and on the time zone. The call does
/// not return on a format that is none, so only the format of backups is
/// let in.
#[verifier::external_body]
fn local_time_text(format: &str) -> (r: String)
    requires
        format@ == backup_time_format(),
{
    chrono::Local::now().format(format).to_string()
}

/// The name of a backup file made at the time that `timestamp` tells, of
/// a storage file named `original`.
pub open spec fn backup_name(timestamp: Seq<char>, original: Seq<char>) -> Seq<char> {
    timestamp + "-iota-wallet-backup"@ + if original.len() == 0 {
        Seq::<char>::empty()
    } else {
        "-"@ + original
    }
}

/// Names a backup file after the time it is made at and the storage file
/// it is made of.
pub fn backup_filename_at(timestamp: String, original: &str) -> (r: String)
    ensures
        r@ == backup_name(timestamp@, original@),
{
    let mut name = timestamp;
    name.append("-iota-wallet-backup");
    if original.unicode_len() > 0 {
        name.append("-");
        name.append(original);
    }
    assert(name@ =~= backup_name(timestamp@, original@));
    name
}

/// Names a backup file after the present time and the storage file it is
/// made of.
pub fn backup_filename(original: &str) -> (r: String)
    ensures
        exists|timestamp: Seq<char>| r@ == #[trigger] backup_name(timestamp, original@),
{
    let timestamp = local_time_text("%FT%H-%M-%S");
    let ghost at = timestamp@;
    let name = backup_filename_at(timestamp, original);
    assert(name@ == backup_name(at, original@));
    name
}

/// Whether a backup can be written to a destination: the destination is a
/// folder, or lies in one.
pub fn check_backup_destination(is_dir: bool, parent_is_dir: bool) -> (r: Result<(), Error>)
    ensures
        match r {
            Ok(_) => is_dir || parent_is_dir,
            Err(e) => !(is_dir || parent_is_dir) && e is InvalidBackupDestination,
        },
{
    if is_dir || parent_is_dir {
        Ok(())
    } else {
        Err(Error::InvalidBackupDestination)
    }
}

/// Where a backup is written: into the destination where that is a folder,
/// under a name of its own; else to the destination itself.
pub fn backup_destination(destination: &String, is_dir: bool, file_name: &str) -> (r: String)
    ensures
        is_dir ==> exists|timestamp: Seq<char>|
            r@ == path_joined(destination@, #[trigger] backup_name(timestamp, file_name@)),
        !is_dir ==> r@ == destination@,
{
    if is_dir {
        let name = backup_filename(file_name);
        join_path(destination, name.as_str())
    } else {
        destination.clone()
    }
}

/// The views of the accounts after the client options of each were set.
pub open spec fn with_client_options(accounts: Seq<AccountView>, options: crate::client::ClientOptionsView) -> Seq<
    AccountView,
> {
    accounts.map_values(|a: AccountView| AccountView { client_options: options, ..a })
}

impl AccountManager {
    /// Whether accounts can be imported from a source: it must be a file
    /// that is there and is a snapshot, and the manager must not have
    /// accounts yet.
    pub fn check_import_source(&self, source: &String, is_dir: bool, is_there: bool) -> (r: Result<
        (),
        Error,
    >)
        ensures
            match r {
                Ok(_) => !is_dir && is_there && path_extension(source@) == Some(STRONGHOLD_EXTENSION@)
                    && self@.accounts.len() == 0,
                Err(e) => if is_dir || !is_there || path_extension(source@) != Some(
                    STRONGHOLD_EXTENSION@,
                ) {
                    e is InvalidBackupFile
                } else {
                    self@.accounts.len() > 0 && e is StorageExists
                },
            },
    {
        if is_dir || !is_there || !is_snapshot_path(source) {
            return Err(Error::InvalidBackupFile);
        }
        if self.accounts.len() > 0 {
            return Err(Error::StorageExists);
        }
        Ok(())
    }

    /// Import backed up accounts: after the source was found fit, the
    /// accounts that the backup holds become the accounts of the manager.
    /// What the source is at present is for the caller to find out.
    pub fn import_accounts(&mut self, source: &String, is_dir: bool, is_there: bool, stored: Vec<Account>) -> (r:
        Result<(), Error>)
        ensures
            match r {
                Ok(_) => {
                    &&& !is_dir && is_there && path_extension(source@) == Some(STRONGHOLD_EXTENSION@)
                    &&& old(self)@.accounts.len() == 0
                    &&& final(self)@ == (AccountManagerView {
                        accounts: stored.deep_view(),
                        loaded_accounts: true,
                        ..old(self)@
                    })
                },
                Err(e) => {
                    &&& final(self)@ == old(self)@
                    &&& if is_dir || !is_there || path_extension(source@) != Some(
                        STRONGHOLD_EXTENSION@,
                    ) {
                        e is InvalidBackupFile
                    } else {
                        old(self)@.accounts.len() > 0 && e is StorageExists
                    }
                },
            },
    {
        match self.check_import_source(source, is_dir, is_there) {
            Ok(_) => {},
            Err(e) => {
                return Err(e);
            },
        }
        self.accounts = stored;
        self.loaded_accounts = true;
        Ok(())
    }

    /// Backups the storage to the given destination: says where the backup
    /// is to be written. The destination must be a folder or lie in one, and
    /// the snapshot of the storage must exist; what they are at present is
    /// for the caller to find out.
    pub fn backup(&self, destination: &String, is_dir: bool, parent_is_dir: bool, snapshot_is_there: bool) -> (r:
        Result<String, Error>)
        ensures
            match r {
                Ok(written) => {
                    &&& is_dir || parent_is_dir
                    &&& snapshot_is_there
                    &&& is_dir ==> exists|timestamp: Seq<char>|
                        written@ == path_joined(
                            destination@,
                            #[trigger] backup_name(timestamp, STRONGHOLD_FILENAME@),
                        )
                    &&& !is_dir ==> written@ == destination@
                },
                Err(e) => if !(is_dir || parent_is_dir) {
                    e is InvalidBackupDestination
                } else {
                    !snapshot_is_there && e is StorageDoesntExist
                },
            },
    {
        match check_backup_destination(is_dir, parent_is_dir) {
            Ok(_) => {},
            Err(e) => {
                return Err(e);
            },
        }
        if !snapshot_is_there {
            return Err(Error::StorageDoesntExist);
        }
        Ok(backup_destination(destination, is_dir, STRONGHOLD_FILENAME))
    }

    /// The path of the snapshot that holds the seed: the storage itself
    /// where that is a snapshot, else the snapshot in the storage folder.
    pub fn stronghold_snapshot_path(&self) -> (r: String)
        ensures
            r@ == if path_extension(self@.storage_path) == Some(STRONGHOLD_EXTENSION@) {
                self@.storage_path
            } else {
                path_joined(self@.storage_folder, STRONGHOLD_FILENAME@)
            },
    {
        if is_snapshot_path(&self.storage_path) {
            self.storage_path.clone()
        } else {
            join_path(&self.storage_folder, STRONGHOLD_FILENAME)
        }
    }

    /// Sets the password for the stored accounts: works out the key that
    /// the storage is to be encrypted with, and says whether the accounts
    /// are yet to be read with it. Where the manager has accounts already,
    /// they are to be written again, so that they are encrypted with the new
    /// key.
    pub fn set_storage_password(&self, password: &str) -> (r: ([u8; 32], bool))
        ensures
            r.0@ == encryption_key_of(password.spec_bytes()),
            r.1 == (self@.accounts.len() == 0),
    {
        (storage_password_to_encryption_key(password), self.accounts.len() == 0)
    }

    /// Takes in the accounts that the storage handed out once its key was
    /// set.
    pub fn accounts_loaded(&mut self, stored: Vec<Account>)
        ensures
            final(self)@ == (AccountManagerView {
                accounts: stored.deep_view(),
                loaded_accounts: true,
                ..old(self)@
            }),
    {
        self.accounts = stored;
        self.loaded_accounts = true;
    }

    /// Sets the client options for all accounts.
    pub fn set_client_options(&mut self, options: &crate::client::ClientOptions)
        ensures
            final(self)@ == (AccountManagerView {
                accounts: with_client_options(old(self)@.accounts, options@),
                ..old(self)@
            }),
    {
        let ghost before = self@.accounts;
        let mut i: usize = 0;
        while i < self.accounts.len()
            invariant
                i <= self.accounts.len(),
                self.accounts.len() == before.len(),
                self@ == (AccountManagerView { accounts: self@.accounts, ..old(self)@ }),
                forall|j: int|
                    0 <= j < i ==> self@.accounts[j] == (AccountView {
                        client_options: options@,
                        ..#[trigger] before[j]
                    }),
                forall|j: int| i <= j < before.len() ==> self@.accounts[j] == #[trigger] before[j],
            decreases self.accounts.len() - i,
        {
            let ghost so_far = self@.accounts;
            assert(so_far[i as int] == self.accounts@[i as int]@);
            let mut account = self.accounts[i].clone();
            account.client_options = options.clone();
            self.accounts[i] = account;
            proof {
                let now = self@.accounts;
                assert(now =~= so_far.update(
                    i as int,
                    AccountView { client_options: options@, ..before[i as int] },
                ));
            }
            i += 1;
        }
        assert(self@.accounts =~= with_client_options(before, options@));
    }
}

/// The accounts synchronizer: what a synchronisation of all accounts is to
/// do.
#[derive(Debug)]
pub struct AccountsSynchronizer {
    pub address_index: Option<usize>,
    pub gap_limit: Option<usize>,
    pub account_options: AccountOptions,
}

impl AccountsSynchronizer {
    /// A synchronisation of all accounts that leaves it to each account
    /// where to begin and how far to look.
    pub fn new(account_options: AccountOptions) -> (r: Self)
        ensures
            r == (AccountsSynchronizer { address_index: None, gap_limit: None, account_options }),
    {
        AccountsSynchronizer { address_index: None, gap_limit: None, account_options }
    }

    /// Number of address indexes that are generated.
    pub fn gap_limit(self, limit: usize) -> (r: Self)
        ensures
            r == (AccountsSynchronizer { gap_limit: Some(limit), ..self }),
    {
        let mut this = self;
        this.gap_limit = Some(limit);
        this
    }

    /// Initial address index to start syncing.
    pub fn address_index(self, address_index: usize) -> (r: Self)
        ensures
            r == (AccountsSynchronizer { address_index: Some(address_index), ..self }),
    {
        let mut this = self;
        this.address_index = Some(address_index);
        this
    }

    /// The synchronisation of one account: as the account would do it by
    /// default, but from the address index and with the gap limit that were
    /// set for all accounts.
    pub fn synchronizer_for(&self, account: &Account) -> (r: AccountSynchronizer)
        ensures
            r@.skip_persistence == false,
            r@.address_index == match self.address_index {
                Some(index) => index,
                None => crate::account::sync::latest_key_index(account@),
            },
            r@.gap_limit == match self.gap_limit {
                Some(limit) => limit,
                None => if crate::account::sync::latest_key_index(account@) == 0 {
                    crate::account::sync::INITIAL_GAP_LIMIT
                } else {
                    1
                },
            },
            r@.steps == seq![
                crate::account::sync::AccountSynchronizeStepView::SyncAddresses(None),
                crate::account::sync::AccountSynchronizeStepView::SyncMessages,
            ],
    {
        let mut sync = AccountSynchronizer::new(account);
        if let Some(index) = self.address_index {
            sync = sync.address_index(index);
        }
        if let Some(limit) = self.gap_limit {
            sync = sync.gap_limit(limit);
        }
        sync
    }

    /// Stores the addresses that the synchronisation of an account found,
    /// and hands out the addresses as they were before.
    pub fn store_addresses(account: &mut Account, data: &SyncedAccountData) -> (r: Vec<Address>)
        ensures
            r.deep_view() == old(account)@.addresses,
            final(account)@ == (AccountView {
                addresses: addresses_appended(old(account)@.addresses, data@.addresses),
                ..old(account)@
            }),
    {
        let before = clone_addresses(&account.addresses);
        account.append_addresses(clone_addresses(&data.addresses));
        before
    }

    /// Takes a discovered account into the table, with the addresses that
    /// its synchronisation found.
    pub fn adopt_discovered(accounts: &mut Vec<Account>, account: Account, data: &SyncedAccountData)
        ensures
            final(accounts).deep_view() == old(accounts).deep_view().push(
                AccountView { addresses: data@.addresses, ..account@ },
            ),
    {
        let mut account = account;
        account.addresses = clone_addresses(&data.addresses);
        let ghost before = accounts.deep_view();
        accounts.push(account);
        assert(accounts.deep_view() =~= before.push(account@));
    }

    /// Concludes the synchronisation of one account, whose addresses were
    /// stored already: stores the messages, and works out the result and the
    /// events by comparing the account with what it was before. A
    /// discovered account is new as a whole, so it gives rise to no event.
    pub fn execute(
        &self,
        account: &mut Account,
        addresses_before_sync: &Vec<Address>,
        data: SyncedAccountData,
        discovered: bool,
        now: i64,
    ) -> (r: SyncOutcome)
        ensures
            final(account)@ == (AccountView {
                messages: messages_appended(old(account)@.messages, data@.messages),
                last_synced_at: Some(now),
                ..old(account)@
            }),
            r.synced_account@ == (SyncedAccountView {
                id: old(account)@.id,
                index: old(account)@.index,
                deposit_address: deposit_address_of(old(account)@),
                is_empty: false,
                messages: new_messages(confirmations(old(account)@.messages), data@.messages)
                    + confirmation_changed_messages(
                    confirmations(old(account)@.messages),
                    data@.messages,
                ),
                addresses: changed_addresses(
                    addresses_before_sync.deep_view(),
                    old(account)@.addresses,
                ),
            }),
            r.events.balance_change_events.deep_view() == if discovered {
                Seq::empty()
            } else {
                balance_events(
                    self.account_options.sync_spent_outputs,
                    addresses_before_sync.deep_view(),
                    old(account)@.addresses,
                )
            },
            r.events.new_transaction_events.deep_view() == if discovered {
                Seq::empty()
            } else {
                new_messages(confirmations(old(account)@.messages), data@.messages)
            },
            r.events.confirmation_change_events.deep_view() == if discovered {
                Seq::empty()
            } else {
                confirmation_changed_messages(
                    confirmations(old(account)@.messages),
                    data@.messages,
                ).map_values(|m: MessageView| confirmation_event(m))
            },
    {
        let messages_before_sync = known_messages(account);
        account.append_messages(clone_messages(&data.messages));
        account.set_last_synced_at(Some(now));
        let (new, changed) = diff_messages(&messages_before_sync, &data.messages);
        let events = if discovered {
            let none = SyncedAccountEvents {
                balance_change_events: Vec::new(),
                new_transaction_events: Vec::new(),
                confirmation_change_events: Vec::new(),
            };
            assert(none.balance_change_events.deep_view() =~= Seq::empty());
            assert(none.new_transaction_events.deep_view() =~= Seq::empty());
            assert(none.confirmation_change_events.deep_view() =~= Seq::empty());
            none
        } else {
            get_events(
                self.account_options.sync_spent_outputs,
                addresses_before_sync,
                &account.addresses,
                &new,
                &changed,
            )
        };
        let mut updated_messages = clone_messages(&new);
        let ghost first = updated_messages.deep_view();
        let mut rest = changed;
        let ghost second = rest.deep_view();
        updated_messages.append(&mut rest);
        assert(updated_messages.deep_view() =~= first + second);
        let synced_account = SyncedAccount {
            id: account.id.clone(),
            index: account.index,
            deposit_address: deposit_address(account),
            is_empty: false,
            messages: updated_messages,
            addresses: addresses_changed(addresses_before_sync, &account.addresses),
        };
        SyncOutcome { synced_account, events }
    }
}

/// The latest address of the account is unused: it has neither balance
/// nor outputs.
pub open spec fn latest_is_unused(account: AccountView) -> bool {
    forall|i: int| #[trigger] is_latest_address(account.addresses, i) ==> account.addresses[i].is_empty()
}

/// Whether the latest address of the account is unused; an account
/// without public address has none that is used.
pub fn is_latest_address_unused(account: &Account) -> (r: bool)
    ensures
        r == latest_is_unused(account@),
{
    match account.latest_address() {
        Some(i) => {
            proof {
                assert(account@.addresses[i as int] == account.addresses@[i as int]@);
                assert forall|j: int| #[trigger] is_latest_address(account@.addresses, j) implies j
                    == i by {
                    crate::account::lemma_latest_is_unique(account@.addresses, i as int, j);
                }
            }
            account.addresses[i].is_empty()
        },
        None => {
            proof {
                assert forall|j: int| #[trigger] is_latest_address(account@.addresses, j) implies false by {
                    crate::account::lemma_latest_is_unique(account@.addresses, j, j);
                }
            }
            true
        },
    }
}

impl AccountManager {
    /// Determines whether all accounts has the latest address unused, as
    /// far as the accounts themselves tell.
    pub fn is_latest_address_unused(&self) -> (r: Result<bool, Error>)
        ensures
            match r {
                Ok(unused) => self@.loaded_accounts && unused == forall|i: int|
                    0 <= i < self@.accounts.len() ==> latest_is_unused(#[trigger] self@.accounts[i]),
                Err(e) => !self@.loaded_accounts && e is StorageIsEncrypted,
            },
    {
        if !self.loaded_accounts {
            return Err(Error::StorageIsEncrypted);
        }
        let mut i: usize = 0;
        while i < self.accounts.len()
            invariant
                i <= self.accounts.len(),
                self.loaded_accounts,
                forall|j: int| 0 <= j < i ==> latest_is_unused(#[trigger] self@.accounts[j]),
            decreases self.accounts.len() - i,
        {
            assert(self@.accounts[i as int] == self.accounts@[i as int]@);
            if !is_latest_address_unused(&self.accounts[i]) {
                return Ok(false);
            }
            i += 1;
        }
        Ok(true)
    }

    /// Syncs all accounts.
    pub fn sync_accounts(&self) -> (r: Result<AccountsSynchronizer, Error>)
        ensures
            match r {
                Ok(sync) => self@.loaded_accounts && sync == (AccountsSynchronizer {
                    address_index: None,
                    gap_limit: None,
                    account_options: self@.account_options,
                }),
                Err(e) => !self@.loaded_accounts && e is StorageIsEncrypted,
            },
    {
        if !self.loaded_accounts {
            return Err(Error::StorageIsEncrypted);
        }
        Ok(AccountsSynchronizer::new(self.account_options))
    }

    /// Plans a transfer of an amount from an account to another: finds the
    /// two accounts and describes the transfer to the latest address of the
    /// receiving account. The positions of the paying and of the receiving
    /// account are handed out with it.
    pub fn internal_transfer(
        &self,
        from_account_id: &AccountIdentifier,
        to_account_id: &AccountIdentifier,
        amount: u64,
    ) -> (r: Result<(usize, usize, Transfer), Error>)
        requires
            amount > 0,
        ensures
            match r {
                Ok((from, to, transfer)) => {
                    &&& lookup(self@, to_account_id@) == Ok::<int, LookupFailure>(to as int)
                    &&& lookup(self@, from_account_id@) == Ok::<int, LookupFailure>(from as int)
                    &&& deposit_address_of(self@.accounts[to as int]) matches Some(latest)
                    &&& transfer@ == (TransferView {
                        address: latest.address,
                        amount,
                        remainder_value_strategy: RemainderValueStrategyView::ChangeAddress,
                        input: None,
                        indexation: None,
                        with_events: true,
                    })
                },
                Err(e) => match lookup(self@, to_account_id@) {
                    Err(reason) => states_failure(e, reason),
                    Ok(to) => match deposit_address_of(self@.accounts[to]) {
                        None => e is RecordNotFound,
                        Some(_) => lookup(self@, from_account_id@) matches Err(reason)
                            && states_failure(e, reason),
                    },
                },
            },
    {
        let to = match self.get_account(to_account_id) {
            Ok(to) => to,
            Err(e) => {
                return Err(e);
            },
        };
        assert(self@.accounts[to as int] == self.accounts@[to as int]@);
        let latest = match deposit_address(&self.accounts[to]) {
            Some(latest) => latest,
            None => {
                return Err(Error::RecordNotFound);
            },
        };
        let from = match self.get_account(from_account_id) {
            Ok(from) => from,
            Err(e) => {
                return Err(e);
            },
        };
        Ok((from, to, Transfer::builder(latest.address, amount).finish()))
    }
}

impl AccountManager {
    /// Finds the account and makes sure that the message may be posted
    /// again: the position of the account is handed out with the way in
    /// which the message is to be posted.
    fn repost(&self, account_id: &AccountIdentifier, message_id: &MessageId, action: RepostAction) -> (r:
        Result<(usize, RepostAction), Error>)
        ensures
            may_repost(self@, account_id@, message_id@, action, r),
    {
        let position = match self.get_account(account_id) {
            Ok(position) => position,
            Err(e) => {
                return Err(e);
            },
        };
        assert(self@.accounts[position as int] == self.accounts@[position as int]@);
        match repost_check(&self.accounts[position], message_id) {
            Ok(_) => Ok((position, action)),
            Err(e) => Err(e),
        }
    }

    /// Reattaches an unconfirmed transaction: says in which account, after
    /// making sure that the message may be posted again.
    pub fn reattach(&self, account_id: &AccountIdentifier, message_id: &MessageId) -> (r: Result<
        (usize, RepostAction),
        Error,
    >)
        ensures
            may_repost(self@, account_id@, message_id@, RepostAction::Reattach, r),
    {
        self.repost(account_id, message_id, RepostAction::Reattach)
    }

    /// Promotes an unconfirmed transaction: says in which account, after
    /// making sure that the message may be posted again.
    pub fn promote(&self, account_id: &AccountIdentifier, message_id: &MessageId) -> (r: Result<
        (usize, RepostAction),
        Error,
    >)
        ensures
            may_repost(self@, account_id@, message_id@, RepostAction::Promote, r),
    {
        self.repost(account_id, message_id, RepostAction::Promote)
    }

    /// Retries an unconfirmed transaction: says in which account, after
    /// making sure that the message may be posted again.
    pub fn retry(&self, account_id: &AccountIdentifier, message_id: &MessageId) -> (r: Result<
        (usize, RepostAction),
        Error,
    >)
        ensures
            may_repost(self@, account_id@, message_id@, RepostAction::Retry, r),
    {
        self.repost(account_id, message_id, RepostAction::Retry)
    }
}

/// What the request to post a message of an account again comes to. The
/// account must be found; it must hold the message; and none of the
/// reattachments of the message may be confirmed. Then the position of the
/// account is handed out with the way of posting.
pub open spec fn may_repost(
    manager: AccountManagerView,
    account_id: AccountIdentifierView,
    message_id: Seq<u8>,
    action: RepostAction,
    r: Result<(usize, RepostAction), Error>,
) -> bool {
    match lookup(manager, account_id) {
        Err(reason) => r matches Err(e) && states_failure(e, reason),
        Ok(p) => match crate::account::message_position(manager.accounts[p].messages, message_id) {
            None => r matches Err(e) && e is MessageNotFound,
            Some(m) => if crate::account_manager::polling::payload_is_confirmed(
                manager.accounts[p].messages,
                manager.accounts[p].messages[m].payload,
            ) {
                r matches Err(Error::ClientError(text)) && text@
                    == crate::account_manager::polling::no_need_text()
            } else {
                r == Ok::<(usize, RepostAction), Error>((p as usize, action))
            },
        },
    }
}

} // verus!
