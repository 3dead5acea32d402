use iota_wallet::account::sync::consolidation::get_output_consolidation_transfers;
use iota_wallet::account::sync::{AccountSynchronizer, SyncedAccountData};
use iota_wallet::account::{Account, SignerType};
use iota_wallet::account_manager::polling::{
    apply_inclusion_state, consolidates_automatically, discovery_signer, repost_check, should_sync,
    store_retried, unconfirmed_messages, AccountDiscovery, RepostAction, RetriedData, RetryOutcome,
};
use iota_wallet::account_manager::{
    backup_destination, backup_filename, backup_filename_at, check_backup_destination, has_extension,
    is_snapshot_path, order_by_index, storage_file_path, storage_folder, storage_password_to_encryption_key,
    stronghold_password, AccountIdentifier, AccountManager, AccountManagerBuilder, AccountsSynchronizer, ManagerStorage,
};
use iota_wallet::account::sync::address_sync::LedgerInclusionState;
use iota_wallet::address::{Address, AddressOutput, MessageId, OutputId, OutputKind, TransactionId};
use iota_wallet::client::ClientOptions;
use iota_wallet::error::Error;
use iota_wallet::message::{Message, RemainderValueStrategy};

fn output(address: &str, tx: u8, index: u16, amount: u64) -> AddressOutput {
    AddressOutput {
        transaction_id: TransactionId::new([tx; 32]),
        message_id: MessageId::new([0; 32]),
        index,
        amount,
        is_spent: false,
        address: address.to_string(),
        kind: OutputKind::SignatureLockedSingle,
    }
}

fn address(name: &str, key_index: usize, internal: bool, outputs: Vec<AddressOutput>) -> Address {
    let balance = outputs.iter().map(|o| o.amount).sum();
    Address {
        address: name.to_string(),
        key_index,
        internal,
        balance,
        outputs,
    }
}

fn message(id: u8, confirmed: Option<bool>, payload: u8) -> Message {
    Message {
        id: MessageId::new([id; 32]),
        confirmed,
        payload: Some(vec![payload]),
        inputs: Vec::new(),
    }
}

fn account(id: &str, index: usize, alias: &str, addresses: Vec<Address>) -> Account {
    Account {
        id: id.to_string(),
        index,
        alias: alias.to_string(),
        signer_type: SignerType::Stronghold,
        client_options: ClientOptions::new(),
        created_at: 0,
        last_synced_at: None,
        addresses,
        messages: Vec::new(),
    }
}

fn manager(accounts: Vec<Account>) -> AccountManager {
    AccountManager::builder().skip_polling().finish(false, Some(accounts))
}

#[test]
fn builder_starts_from_the_defaults() {
    let builder = AccountManagerBuilder::new();
    assert_eq!(builder.storage_path, "./storage");
    assert_eq!(builder.storage, ManagerStorage::Sqlite);
    assert_eq!(builder.polling_interval, 30_000);
    assert!(!builder.skip_polling);
    assert!(builder.storage_encryption_key.is_none());
    assert_eq!(builder.account_options.output_consolidation_threshold, 100);
    assert!(builder.account_options.automatic_output_consolidation);
    assert!(!builder.account_options.sync_spent_outputs);
    assert!(!builder.account_options.persist_events);
    let builder = builder
        .with_polling_interval(5)
        .with_output_consolidation_threshold(7)
        .with_automatic_output_consolidation_disabled()
        .with_sync_spent_outputs()
        .with_event_persistence()
        .skip_polling()
        .with_stronghold_storage();
    assert_eq!(builder.polling_interval, 5);
    assert_eq!(builder.account_options.output_consolidation_threshold, 7);
    assert!(!builder.account_options.automatic_output_consolidation);
    assert!(builder.account_options.sync_spent_outputs);
    assert!(builder.account_options.persist_events);
    assert!(builder.skip_polling);
    assert_eq!(builder.storage, ManagerStorage::Stronghold);
    let default = AccountManagerBuilder::default();
    assert_eq!(default.storage_path, "./storage");
}

#[test]
fn storage_paths_follow_the_kind_of_storage() {
    let folder = "./storage".to_string();
    assert_eq!(storage_file_path(&ManagerStorage::Sqlite, &folder, false), "./storage/wallet.db");
    assert_eq!(
        storage_file_path(&ManagerStorage::Stronghold, &folder, false),
        "./storage/wallet.stronghold"
    );
    assert_eq!(storage_file_path(&ManagerStorage::Sqlite, &folder, true), "./storage");
    let file = "data/my.stronghold".to_string();
    assert_eq!(storage_file_path(&ManagerStorage::Sqlite, &file, false), "data/my.stronghold");
    assert_eq!(storage_folder(&file, false), "data");
    assert_eq!(storage_folder(&folder, false), "./storage");
    assert_eq!(storage_folder(&folder, true), ".");
    assert_eq!(storage_folder(&"/".to_string(), true), "/");
}

#[test]
fn finish_loads_the_stored_accounts() {
    let stored = vec![account("a", 0, "first", vec![])];
    let manager = AccountManagerBuilder::new()
        .with_storage("wallets/main", None)
        .unwrap()
        .finish(false, Some(stored));
    assert_eq!(manager.storage_folder, "wallets/main");
    assert_eq!(manager.storage_path, "wallets/main/wallet.db");
    assert!(manager.loaded_accounts);
    assert_eq!(manager.accounts.len(), 1);
    assert!(manager.generated_mnemonic.is_none());
    let encrypted = AccountManagerBuilder::new().finish(false, None);
    assert!(!encrypted.loaded_accounts);
    assert!(encrypted.accounts.is_empty());
    let stronghold = AccountManagerBuilder::new()
        .with_stronghold_storage()
        .finish(false, Some(vec![account("a", 0, "first", vec![])]));
    assert!(!stronghold.loaded_accounts);
    assert!(stronghold.accounts.is_empty());
    assert_eq!(stronghold.storage_path, "./storage/wallet.stronghold");
}

fn hex(bytes: &[u8]) -> String {
    bytes.iter().map(|b| format!("{:02x}", b)).collect()
}

#[test]
fn storage_key_is_derived_from_the_password() {
    let key = storage_password_to_encryption_key("password");
    let mut derived = [0u8; 64];
    crypto::keys::pbkdf::PBKDF2_HMAC_SHA512(b"password", b"wallet.rs::storage", 100, &mut derived).unwrap();
    assert_eq!(hex(&key), hex(&derived[..32]));
    assert_ne!(key, storage_password_to_encryption_key("Password"));
    assert_ne!(key, [0u8; 32]);
    let builder = AccountManagerBuilder::new().with_storage("x", Some("password")).unwrap();
    assert_eq!(builder.storage_encryption_key, Some(key));
    assert_eq!(builder.storage_path, "x");
}

#[test]
fn snapshot_key_is_derived_with_a_salt_of_its_own() {
    let key = stronghold_password("password");
    let mut derived = [0u8; 64];
    crypto::keys::pbkdf::PBKDF2_HMAC_SHA512(b"password", b"wallet.rs", 100, &mut derived).unwrap();
    assert_eq!(key, derived[..32].to_vec());
    assert_ne!(key, storage_password_to_encryption_key("password").to_vec());
}

#[test]
fn storage_password_reencrypt() {
    let mut manager = manager(vec![account("a", 0, "a", vec![])]);
    let (new_key, to_load) = manager.set_storage_password("new-password");
    assert_eq!(new_key, storage_password_to_encryption_key("new-password"));
    assert_ne!(new_key, storage_password_to_encryption_key("password"));
    assert!(!to_load);
    let stored = manager.accounts.clone();
    let mut encrypted = AccountManagerBuilder::new().finish(false, None);
    let (key, to_load) = encrypted.set_storage_password("new-password");
    assert_eq!(key, new_key);
    assert!(to_load);
    encrypted.accounts_loaded(stored);
    assert!(encrypted.loaded_accounts);
    assert_eq!(encrypted.accounts.len(), 1);
    manager.set_client_options(&ClientOptions {
        nodes: vec!["https://api.lb-0.testnet.chrysalis2.com".to_string()],
        network: None,
        local_pow: true,
    });
    assert_eq!(manager.accounts[0].client_options.nodes.len(), 1);
    assert_eq!(manager.accounts[0].id, "a");
}

#[test]
fn the_seed_lives_in_a_snapshot() {
    let sqlite = AccountManagerBuilder::new().finish(false, None);
    assert_eq!(sqlite.stronghold_snapshot_path(), "./storage/wallet.stronghold");
    let snapshot = AccountManagerBuilder::new()
        .with_storage("data/seed.stronghold", None)
        .unwrap()
        .with_stronghold_storage()
        .finish(false, None);
    assert_eq!(snapshot.stronghold_snapshot_path(), "data/seed.stronghold");
    assert!(is_snapshot_path(&"a/b.stronghold".to_string()));
    assert!(!is_snapshot_path(&"a/b.db".to_string()));
    assert!(!is_snapshot_path(&"a/stronghold".to_string()));
    assert!(has_extension(&"a/b.db".to_string()));
    assert!(!has_extension(&"a/b".to_string()));
}

#[test]
fn store_accounts() {
    let mut manager = manager(vec![]);
    manager.create_account(account("a", 0, "first", vec![address("p0", 0, false, vec![])]), false).unwrap();
    assert_eq!(manager.accounts.len(), 1);
    manager.remove_account(&AccountIdentifier::Id("a".to_string())).expect("failed to remove account");
    assert!(manager.accounts.is_empty());
}

#[test]
fn duplicated_alias() {
    let mut manager = manager(vec![]);
    let alias = "alias";
    manager.create_account(account("a", 0, alias, vec![]), false).expect("failed to add account");
    let second_create_response = manager.create_account(account("b", 1, alias, vec![]), false);
    assert_eq!(second_create_response.is_err(), true);
    match second_create_response.unwrap_err() {
        Error::AccountAliasAlreadyExists => {}
        _ => panic!("unexpected create account response; expected AccountAliasAlreadyExists"),
    }
    assert_eq!(manager.accounts.len(), 1);
}

#[test]
fn get_account() {
    let mut manager = manager(vec![]);
    manager
        .create_account(
            account("id1", 0, "alias", vec![address("first", 0, false, vec![output("first", 1, 0, 5)])]),
            false,
        )
        .expect("failed to add account");
    manager
        .create_account(account("id2", 1, "alias2", vec![address("second", 0, false, vec![])]), false)
        .expect("failed to add account");
    assert_eq!(manager.get_account(&AccountIdentifier::Index(0)).unwrap(), 0);
    assert_eq!(manager.get_account(&AccountIdentifier::Alias("alias".to_string())).unwrap(), 0);
    assert_eq!(manager.get_account(&AccountIdentifier::Id("id1".to_string())).unwrap(), 0);
    assert_eq!(manager.get_account(&AccountIdentifier::Address("first".to_string())).unwrap(), 0);
    assert_eq!(manager.get_account(&AccountIdentifier::Index(1)).unwrap(), 1);
    assert_eq!(manager.get_account(&AccountIdentifier::Alias("alias2".to_string())).unwrap(), 1);
    assert_eq!(manager.get_account(&AccountIdentifier::Id("id2".to_string())).unwrap(), 1);
    assert_eq!(manager.get_account(&AccountIdentifier::Address("second".to_string())).unwrap(), 1);
    assert!(matches!(
        manager.get_account(&AccountIdentifier::Index(2)),
        Err(Error::RecordNotFound)
    ));
}

#[test]
fn an_index_that_several_accounts_have_names_none() {
    let manager = manager(vec![account("a", 0, "a", vec![]), account("b", 1, "b", vec![]), account("c", 0, "c", vec![])]);
    assert!(matches!(
        manager.get_account(&AccountIdentifier::Index(0)),
        Err(Error::CannotUseIndexIdentifier)
    ));
    assert_eq!(manager.get_account(&AccountIdentifier::Index(1)).unwrap(), 1);
}

#[test]
fn accounts_are_listed_by_index() {
    let manager = manager(vec![
        account("c", 2, "c", vec![]),
        account("a", 0, "a", vec![]),
        account("b2", 1, "b2", vec![]),
        account("b1", 1, "b1", vec![]),
    ]);
    let listed: Vec<String> = manager.get_accounts().unwrap().iter().map(|a| a.id.clone()).collect();
    assert_eq!(listed, vec!["a", "b2", "b1", "c"]);
    assert_eq!(order_by_index(&vec![5, 1, 5, 0]), vec![3, 1, 0, 2]);
}

#[test]
fn an_encrypted_storage_hands_nothing_out() {
    let mut manager = AccountManagerBuilder::new().finish(false, None);
    assert!(matches!(manager.check_storage_encryption(), Err(Error::StorageIsEncrypted)));
    assert!(matches!(
        manager.get_account(&AccountIdentifier::Index(0)),
        Err(Error::StorageIsEncrypted)
    ));
    assert!(matches!(manager.get_accounts(), Err(Error::StorageIsEncrypted)));
    assert!(matches!(manager.sync_accounts(), Err(Error::StorageIsEncrypted)));
    assert!(matches!(manager.is_latest_address_unused(), Err(Error::StorageIsEncrypted)));
    assert!(matches!(
        manager.create_account(account("a", 0, "a", vec![]), false),
        Err(Error::StorageIsEncrypted)
    ));
    assert!(matches!(
        manager.remove_account(&AccountIdentifier::Index(0)),
        Err(Error::StorageIsEncrypted)
    ));
}

#[test]
fn remove_account_with_message_history() {
    let mut with_history = account("a", 0, "a", vec![address("p0", 0, false, vec![])]);
    with_history.messages.push(message(0, Some(true), 1));
    let mut manager = manager(vec![with_history]);
    let remove_response = manager.remove_account(&AccountIdentifier::Id("a".to_string()));
    assert!(remove_response.is_ok());
}

#[test]
fn remove_account_with_balance() {
    let holder = account("a", 0, "a", vec![address("atoi", 0, false, vec![output("atoi", 0, 0, 5)])]);
    let mut manager = manager(vec![holder]);
    let remove_response = manager.remove_account(&AccountIdentifier::Id("a".to_string()));
    assert!(remove_response.is_err());
    assert!(matches!(remove_response, Err(Error::AccountNotEmpty)));
    assert_eq!(manager.accounts.len(), 1);
    assert!(matches!(
        manager.remove_account(&AccountIdentifier::Id("b".to_string())),
        Err(Error::RecordNotFound)
    ));
}

#[test]
fn create_account_skip_persistence() {
    let mut manager = manager(vec![]);
    manager.create_account(account("a", 0, "a", vec![]), true).expect("failed to add account");
    let account_get_res = manager.get_account(&AccountIdentifier::Id("a".to_string()));
    assert!(account_get_res.is_err(), "{}", true);
    match account_get_res.unwrap_err() {
        Error::RecordNotFound => {}
        _ => panic!("unexpected get_account response; expected RecordNotFound"),
    }
}

const TWELVE_WORDS: &str =
    "abandon abandon abandon abandon abandon abandon abandon abandon abandon abandon abandon about";

#[test]
fn mnemonics_are_checked_against_the_word_list() {
    let manager = manager(vec![]);
    assert!(manager.verify_mnemonic(&TWELVE_WORDS.to_string()).is_ok());
    let wrong_checksum = TWELVE_WORDS.replace("about", "abandon");
    assert!(matches!(
        manager.verify_mnemonic(&wrong_checksum),
        Err(Error::InvalidMnemonic(_))
    ));
    assert!(matches!(
        manager.verify_mnemonic(&"no such words".to_string()),
        Err(Error::InvalidMnemonic(_))
    ));
}

#[test]
fn a_generated_mnemonic_must_be_the_one_that_is_verified() {
    let mut manager = manager(vec![]);
    let generated = manager.generate_mnemonic().unwrap();
    assert_eq!(generated.split(' ').count(), 24);
    assert_eq!(manager.generated_mnemonic, Some(generated.clone()));
    assert!(manager.verify_mnemonic(&generated).is_ok());
    match manager.verify_mnemonic(&TWELVE_WORDS.to_string()) {
        Err(Error::InvalidMnemonic(text)) => assert_eq!(text, "doesn't match the generated mnemonic"),
        other => panic!("unexpected result {:?}", other),
    }
    assert_ne!(manager.generate_mnemonic().unwrap(), generated);
    assert_eq!(manager.store_mnemonic(Some(TWELVE_WORDS.to_string())).is_err(), true);
    assert_eq!(manager.forget_generated_mnemonic(), Some(String::new()));
    assert!(manager.generated_mnemonic.is_none());
    assert_eq!(manager.forget_generated_mnemonic(), None);
    assert_eq!(manager.store_mnemonic(Some(TWELVE_WORDS.to_string())).unwrap(), TWELVE_WORDS);
    assert!(manager.generated_mnemonic.is_none());
    let fresh = manager.store_mnemonic(None).unwrap();
    assert_eq!(manager.generated_mnemonic, Some(fresh));
}

#[test]
fn a_mnemonic_stands_for_its_entropy() {
    let mut manager = manager(vec![]);
    let mnemonic = manager.mnemonic_from_entropy(Ok([0u8; 32])).unwrap();
    let mut expected = vec!["abandon"; 23];
    expected.push("art");
    assert_eq!(mnemonic, expected.join(" "));
    match manager.mnemonic_from_entropy(Err("no entropy".to_string())) {
        Err(Error::MnemonicEncode(text)) => assert_eq!(text, "no entropy"),
        other => panic!("unexpected result {:?}", other),
    }
    assert_eq!(manager.generated_mnemonic, Some(mnemonic));
}

#[test]
fn backups_are_named_after_their_time() {
    assert_eq!(
        backup_filename_at("2021-03-04T05-06-07".to_string(), "wallet.stronghold"),
        "2021-03-04T05-06-07-iota-wallet-backup-wallet.stronghold"
    );
    assert_eq!(backup_filename_at("t".to_string(), ""), "t-iota-wallet-backup");
    let name = backup_filename("wallet.stronghold");
    assert!(name.ends_with("-iota-wallet-backup-wallet.stronghold"));
    let timestamp = &name[..name.len() - "-iota-wallet-backup-wallet.stronghold".len()];
    assert_eq!(timestamp.len(), 19);
    assert_eq!(&timestamp[10..11], "T");
    assert!(timestamp.chars().filter(|c| *c == '-').count() == 4);
    assert_eq!(backup_destination(&"target/file".to_string(), false, "wallet.stronghold"), "target/file");
    let inside = backup_destination(&"target".to_string(), true, "wallet.stronghold");
    assert!(inside.starts_with("target/"));
    assert!(inside.ends_with("-iota-wallet-backup-wallet.stronghold"));
}

#[test]
fn backup_and_restore_storage_already_exists() {
    assert!(check_backup_destination(true, false).is_ok());
    assert!(check_backup_destination(false, true).is_ok());
    assert!(matches!(
        check_backup_destination(false, false),
        Err(Error::InvalidBackupDestination)
    ));
    let mut manager = manager(vec![account("a", 0, "a", vec![])]);
    let backup_file_path = "./backup/account-exists/wallet.stronghold".to_string();
    let backup_path = manager.backup(&backup_file_path, false, true, true).unwrap();
    assert_eq!(backup_path, backup_file_path);
    let response = manager.import_accounts(&backup_file_path, false, true, vec![]);
    assert!(response.is_err());
    assert!(matches!(response.unwrap_err(), Error::StorageExists));
    assert_eq!(manager.accounts.len(), 1);
}

#[test]
fn backup_and_restore_happy_path() {
    let source = manager(vec![account("a", 0, "a", vec![address("p0", 0, false, vec![])])]);
    let backup_path = source.backup(&"./backup/happy-path".to_string(), true, false, true).unwrap();
    assert!(backup_path.starts_with("./backup/happy-path/"));
    assert!(backup_path.ends_with("-iota-wallet-backup-wallet.stronghold"));
    assert!(matches!(
        source.backup(&"./nowhere/file".to_string(), false, false, true),
        Err(Error::InvalidBackupDestination)
    ));
    assert!(matches!(
        source.backup(&"./backup/happy-path".to_string(), true, false, false),
        Err(Error::StorageDoesntExist)
    ));
    let mut empty = AccountManagerBuilder::new().with_stronghold_storage().finish(false, None);
    assert!(empty.check_import_source(&backup_path, false, true).is_ok());
    assert!(matches!(
        empty.check_import_source(&backup_path, true, true),
        Err(Error::InvalidBackupFile)
    ));
    assert!(matches!(
        empty.check_import_source(&backup_path, false, false),
        Err(Error::InvalidBackupFile)
    ));
    assert!(matches!(
        empty.check_import_source(&"./backup/wallet.db".to_string(), false, true),
        Err(Error::InvalidBackupFile)
    ));
    assert!(matches!(
        empty.check_import_source(&"./backup/stronghold".to_string(), false, true),
        Err(Error::InvalidBackupFile)
    ));
    empty.import_accounts(&backup_path, false, true, source.accounts.clone()).unwrap();
    assert!(empty.loaded_accounts);
    assert_eq!(empty.accounts.len(), 1);
    let imported_account = empty.get_account(&AccountIdentifier::Id("a".to_string())).unwrap();
    assert_eq!(empty.accounts[imported_account].addresses[0].address, "p0");
    let full = manager(vec![account("a", 0, "a", vec![])]);
    assert!(matches!(
        full.check_import_source(&backup_path, true, true),
        Err(Error::InvalidBackupFile)
    ));
}

#[test]
fn latest_addresses_are_unused_until_something_is_on_them() {
    let unused = account("a", 0, "a", vec![address("p0", 0, false, vec![output("p0", 1, 0, 5)]), address("p1", 1, false, vec![])]);
    let used = account("b", 1, "b", vec![address("q0", 0, false, vec![output("q0", 1, 0, 5)])]);
    assert_eq!(manager(vec![unused.clone()]).is_latest_address_unused().unwrap(), true);
    assert_eq!(manager(vec![unused, used]).is_latest_address_unused().unwrap(), false);
    assert_eq!(manager(vec![]).is_latest_address_unused().unwrap(), true);
}

#[test]
fn internal_transfers_go_to_the_latest_address_of_the_receiver() {
    let manager = manager(vec![
        account("a", 0, "a", vec![address("p0", 0, false, vec![output("p0", 1, 0, 5)])]),
        account("b", 1, "b", vec![address("q0", 0, false, vec![]), address("q1", 1, false, vec![])]),
        account("c", 2, "c", vec![address("r0", 0, true, vec![])]),
    ]);
    let (from, to, transfer) = manager
        .internal_transfer(&AccountIdentifier::Id("a".to_string()), &AccountIdentifier::Alias("b".to_string()), 3)
        .unwrap();
    assert_eq!((from, to), (0, 1));
    assert_eq!(transfer.address, "q1");
    assert_eq!(transfer.amount, 3);
    assert!(matches!(transfer.remainder_value_strategy, RemainderValueStrategy::ChangeAddress));
    assert!(matches!(
        manager.internal_transfer(&AccountIdentifier::Index(9), &AccountIdentifier::Index(1), 3),
        Err(Error::RecordNotFound)
    ));
    assert!(matches!(
        manager.internal_transfer(&AccountIdentifier::Index(0), &AccountIdentifier::Index(2), 3),
        Err(Error::RecordNotFound)
    ));
}

#[test]
fn all_accounts_are_synchronised_alike() {
    let manager = manager(vec![]);
    let sync = manager.sync_accounts().unwrap();
    assert_eq!((sync.address_index, sync.gap_limit), (None, None));
    let grown = account("a", 0, "a", vec![address("p0", 0, false, vec![]), address("p4", 4, false, vec![])]);
    let own = sync.synchronizer_for(&grown);
    assert_eq!((own.address_index, own.gap_limit), (4, 1));
    let sync = sync.gap_limit(20).address_index(1);
    let set = sync.synchronizer_for(&grown);
    assert_eq!((set.address_index, set.gap_limit, set.skip_persistence), (1, 20, false));
}

#[test]
fn accounts_are_concluded_after_their_addresses_were_stored() {
    let mut held = account("a", 0, "a", vec![address("p0", 0, false, vec![])]);
    held.messages.push(message(1, None, 1));
    let data = SyncedAccountData::new(
        vec![address("p0", 0, false, vec![output("p0", 1, 0, 5)]), address("p1", 1, false, vec![])],
        vec![message(1, Some(true), 1), message(2, None, 2)],
    );
    let sync = AccountManager::builder().with_sync_spent_outputs().finish(false, Some(vec![])).sync_accounts().unwrap();
    let before = AccountsSynchronizer::store_addresses(&mut held, &data);
    assert_eq!(before.len(), 1);
    assert_eq!(held.addresses.len(), 2);
    let mut twin = held.clone();
    let outcome = sync.execute(&mut held, &before, data, false, 9);
    assert_eq!(held.messages.len(), 2);
    assert_eq!(held.last_synced_at, Some(9));
    assert_eq!(outcome.events.new_transaction_events.len(), 1);
    assert_eq!(outcome.events.confirmation_change_events.len(), 1);
    assert_eq!(outcome.events.balance_change_events.len(), 1);
    assert_eq!(outcome.synced_account.messages.len(), 2);
    assert_eq!(outcome.synced_account.addresses.len(), 2);
    assert!(!outcome.synced_account.is_empty);
    let data = SyncedAccountData::new(vec![], vec![message(3, None, 3)]);
    let discovered = sync.execute(&mut twin, &Vec::new(), data, true, 9);
    assert!(discovered.events.new_transaction_events.is_empty());
    assert!(discovered.events.balance_change_events.is_empty());
    assert_eq!(discovered.synced_account.messages.len(), 1);
    assert_eq!(discovered.synced_account.addresses.len(), 2);
    let mut table = vec![];
    let found = SyncedAccountData::new(vec![address("z0", 0, false, vec![output("z0", 1, 0, 5)])], vec![]);
    AccountsSynchronizer::adopt_discovered(&mut table, account("z", 1, "z", vec![]), &found);
    assert_eq!(table.len(), 1);
    assert_eq!(table[0].addresses[0].address, "z0");
}

#[test]
fn the_poller_synchronises_unless_monitoring_is_healthy() {
    assert!(should_sync(false, false));
    assert!(should_sync(false, true));
    assert!(should_sync(true, false));
    assert!(!should_sync(true, true));
}

#[test]
fn poller_retry() {
    let mut held = account("a", 0, "a", vec![]);
    held.messages.push(message(1, None, 7));
    held.messages.push(message(2, Some(true), 8));
    let unconfirmed = unconfirmed_messages(&held);
    assert_eq!(unconfirmed.len(), 1);
    assert_eq!(unconfirmed[0].0, MessageId::new([1; 32]));
    assert!(repost_check(&held, &unconfirmed[0].0).is_ok());
    let mut retried = RetriedData::new();
    retried.record(unconfirmed[0].0, &unconfirmed[0].1, RetryOutcome::Reposted(message(9, None, 7)));
    assert_eq!(retried.reattached.len(), 1);
    assert_eq!(retried.reattached[0].0, MessageId::new([1; 32]));
    assert_eq!(retried.reattached[0].1.id, MessageId::new([9; 32]));
    assert!(retried.promoted.is_empty());
    assert!(retried.no_need_promote_or_reattach.is_empty());
    store_retried(&mut held, &retried.reattached, &retried.promoted);
    assert_eq!(held.messages.len(), 3);
    assert_eq!(held.messages[2].id, MessageId::new([9; 32]));
}

#[test]
fn a_message_with_another_payload_promotes() {
    let mut retried = RetriedData::new();
    let id = MessageId::new([1; 32]);
    retried.record(id, &Some(vec![7]), RetryOutcome::Reposted(message(9, None, 8)));
    retried.record(id, &Some(vec![7]), RetryOutcome::NoNeedPromoteOrReattach);
    retried.record(id, &Some(vec![7]), RetryOutcome::Failed);
    retried.record(id, &None, RetryOutcome::Reposted(message(10, None, 7)));
    assert_eq!(retried.promoted.len(), 2);
    assert!(retried.reattached.is_empty());
    assert_eq!(retried.no_need_promote_or_reattach, vec![id]);
}

#[test]
fn a_confirmed_message_needs_no_retry() {
    let mut held = account("a", 0, "a", vec![]);
    held.messages.push(message(1, None, 7));
    held.messages.push(message(2, Some(true), 7));
    held.messages.push(message(3, Some(false), 8));
    match repost_check(&held, &MessageId::new([1; 32])) {
        Err(Error::ClientError(text)) => assert_eq!(text, "NoNeedPromoteOrReattach"),
        other => panic!("unexpected result {:?}", other),
    }
    assert!(repost_check(&held, &MessageId::new([3; 32])).is_ok());
    assert!(matches!(
        repost_check(&held, &MessageId::new([4; 32])),
        Err(Error::MessageNotFound)
    ));
    assert_eq!(unconfirmed_messages(&held).len(), 2);
}

#[test]
fn the_ledger_decides_on_messages_that_need_no_retry() {
    let mut held = account("a", 0, "a", vec![]);
    held.messages.push(message(1, None, 7));
    held.messages.push(message(2, Some(true), 8));
    let event = apply_inclusion_state(&mut held, &MessageId::new([1; 32]), Some(LedgerInclusionState::Included)).unwrap();
    assert!(event.confirmed);
    assert_eq!(event.message.confirmed, Some(true));
    assert_eq!(held.messages[0].confirmed, Some(true));
    let event = apply_inclusion_state(&mut held, &MessageId::new([2; 32]), Some(LedgerInclusionState::Conflicting)).unwrap();
    assert!(event.confirmed);
    assert_eq!(held.messages[1].confirmed, Some(true));
    held.messages.push(message(3, None, 9));
    let event = apply_inclusion_state(&mut held, &MessageId::new([3; 32]), Some(LedgerInclusionState::NoTransaction)).unwrap();
    assert!(!event.confirmed);
    assert_eq!(held.messages[2].confirmed, Some(false));
    assert!(apply_inclusion_state(&mut held, &MessageId::new([3; 32]), None).is_none());
    assert!(apply_inclusion_state(&mut held, &MessageId::new([4; 32]), Some(LedgerInclusionState::Included)).is_none());
}

#[test]
fn further_accounts_are_looked_for_after_a_used_one() {
    let empty = account("a", 0, "a", vec![address("p0", 0, false, vec![])]);
    let used = account("b", 1, "b", vec![address("q0", 0, false, vec![output("q0", 1, 0, 5)])]);
    let mut ledger = account("c", 1, "c", vec![address("r0", 0, false, vec![output("r0", 1, 0, 5)])]);
    ledger.signer_type = SignerType::LedgerNano;
    assert_eq!(discovery_signer(&vec![]), None);
    assert_eq!(discovery_signer(&vec![empty.clone()]), None);
    assert_eq!(discovery_signer(&vec![used.clone(), empty.clone()]), Some(SignerType::Stronghold));
    assert_eq!(discovery_signer(&vec![used.clone(), ledger.clone(), empty.clone()]), Some(SignerType::LedgerNano));
    let mut last_empty = empty.clone();
    last_empty.index = 2;
    assert_eq!(discovery_signer(&vec![used.clone(), last_empty]), None);
    let mut discovery = AccountDiscovery::new(2);
    assert_eq!(discovery.index, 2);
    let found = SyncedAccountData::new(vec![address("z0", 0, false, vec![output("z0", 1, 0, 5)])], vec![]);
    assert!(discovery.absorb(Some((account("z", 2, "z", vec![]), found))));
    assert_eq!(discovery.index, 3);
    let nothing = SyncedAccountData::new(vec![address("y0", 0, false, vec![])], vec![]);
    assert!(!discovery.absorb(Some((account("y", 3, "y", vec![]), nothing))));
    assert!(!discovery.absorb(None));
    assert_eq!(discovery.discovered.len(), 1);
    assert_eq!(discovery.index, 3);
}

#[test]
fn hardware_wallets_do_not_consolidate_on_their_own() {
    assert!(consolidates_automatically(true, SignerType::Stronghold));
    assert!(consolidates_automatically(true, SignerType::Custom));
    assert!(!consolidates_automatically(true, SignerType::LedgerNano));
    assert!(!consolidates_automatically(true, SignerType::LedgerNanoSimulator));
    assert!(!consolidates_automatically(false, SignerType::Stronghold));
}

#[test]
fn outputs_are_consolidated_in_chunks() {
    let mut outputs = Vec::new();
    for i in 0..300u16 {
        outputs.push(output("p0", (i / 100) as u8, i % 100, 2));
    }
    let mut held = account(
        "a",
        0,
        "a",
        vec![
            address("p0", 0, false, outputs),
            address("p1", 1, false, vec![output("p1", 9, 0, 1), output("p1", 9, 1, 1)]),
            address("p2", 2, false, vec![output("p2", 8, 0, 0), output("p2", 8, 1, 0), output("p2", 8, 2, 0)]),
        ],
    );
    let transfers = get_output_consolidation_transfers(&held, 2);
    let seen: Vec<(String, u64, usize, bool)> = transfers
        .iter()
        .map(|t| (t.address.clone(), t.amount, t.input.as_ref().unwrap().1.len(), t.with_events))
        .collect();
    assert_eq!(
        seen,
        vec![
            ("p0".to_string(), 254, 127, false),
            ("p0".to_string(), 254, 127, false),
            ("p0".to_string(), 92, 46, false),
        ]
    );
    assert_eq!(transfers[1].input.as_ref().unwrap().0, "p0");
    assert_eq!(transfers[1].input.as_ref().unwrap().1[0].index, 27);
    assert_eq!(get_output_consolidation_transfers(&held, 1).len(), 4);
    held.messages.push(Message {
        id: MessageId::new([1; 32]),
        confirmed: None,
        payload: None,
        inputs: vec![OutputId::new(TransactionId::new([9; 32]), 0)],
    });
    assert_eq!(get_output_consolidation_transfers(&held, 1).len(), 3);
    assert!(get_output_consolidation_transfers(&held, 300).is_empty());
    let pending = AccountSynchronizer::new(&held);
    assert_eq!(pending.address_index, 2);
}

#[test]
fn accounts_are_named_by_identifier_address_or_alias() {
    let address = bee_message::address::Address::from(bee_message::address::Ed25519Address::new([3; 32])).to_bech32("atoi");
    assert!(matches!(
        AccountIdentifier::from_text("wallet-account://abc".to_string()),
        AccountIdentifier::Id(id) if id == "wallet-account://abc"
    ));
    assert!(matches!(
        AccountIdentifier::from_text(address.clone()),
        AccountIdentifier::Address(found) if found == address
    ));
    assert!(matches!(
        AccountIdentifier::from_text("savings".to_string()),
        AccountIdentifier::Alias(alias) if alias == "savings"
    ));
}

#[test]
fn the_outcome_of_a_retry_is_read_from_its_result() {
    assert!(matches!(RetryOutcome::of(Ok(message(1, None, 1))), RetryOutcome::Reposted(m) if m.id == MessageId::new([1; 32])));
    assert!(matches!(
        RetryOutcome::of(Err(Error::ClientError("NoNeedPromoteOrReattach: abc".to_string()))),
        RetryOutcome::NoNeedPromoteOrReattach
    ));
    assert!(matches!(
        RetryOutcome::of(Err(Error::ClientError("timeout".to_string()))),
        RetryOutcome::Failed
    ));
    assert!(matches!(RetryOutcome::of(Err(Error::MessageNotFound)), RetryOutcome::Failed));
}

#[test]
fn messages_are_posted_again_in_the_account_that_holds_them() {
    let mut holder = account("a", 0, "a", vec![]);
    holder.messages.push(message(1, None, 7));
    holder.messages.push(message(2, Some(true), 8));
    let manager = manager(vec![account("z", 1, "z", vec![]), holder]);
    let id = AccountIdentifier::Alias("a".to_string());
    assert_eq!(manager.retry(&id, &MessageId::new([1; 32])).unwrap(), (1, RepostAction::Retry));
    assert_eq!(manager.promote(&id, &MessageId::new([1; 32])).unwrap(), (1, RepostAction::Promote));
    assert_eq!(manager.reattach(&id, &MessageId::new([1; 32])).unwrap(), (1, RepostAction::Reattach));
    assert!(matches!(
        manager.reattach(&id, &MessageId::new([2; 32])),
        Err(Error::ClientError(_))
    ));
    assert!(matches!(
        manager.retry(&id, &MessageId::new([3; 32])),
        Err(Error::MessageNotFound)
    ));
    assert!(matches!(
        manager.promote(&AccountIdentifier::Index(7), &MessageId::new([1; 32])),
        Err(Error::RecordNotFound)
    ));
}
