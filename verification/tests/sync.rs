use iota_wallet::account::sync::address_sync::{
    apply_synced_outputs, confirmation_of, merge_output_ids, needs_message, needs_unspent_query,
    outputs_to_fetch, synced_confirmation, synced_message, LedgerInclusionState,
};
use iota_wallet::account::sync::discovery::{
    address_to_sync, keep_addresses, known_address, trim_unused_tail, AddressDiscovery,
};
use iota_wallet::account::sync::events::{get_events, BalanceChange};
use iota_wallet::account::sync::{
    address_step, addresses_changed, addresses_for_message_sync, diff_messages, known_messages,
    listed_addresses_to_sync, new_found_messages, runs_message_step, AccountSynchronizeStep,
    AccountSynchronizer, AddressStep, SyncedAccount, SyncedAccountData,
};
use iota_wallet::account::{Account, SignerType};
use iota_wallet::address::{Address, AddressOutput, MessageId, OutputId, OutputKind, TransactionId};
use iota_wallet::client::ClientOptions;
use iota_wallet::message::Message;

fn output(address: &str, tx: u8, index: u16, amount: u64, is_spent: bool) -> AddressOutput {
    AddressOutput {
        transaction_id: TransactionId::new([tx; 32]),
        message_id: MessageId::new([tx; 32]),
        index,
        amount,
        is_spent,
        address: address.to_string(),
        kind: OutputKind::SignatureLockedSingle,
    }
}

fn address(name: &str, key_index: usize, internal: bool, outputs: Vec<AddressOutput>) -> Address {
    let balance = outputs.iter().filter(|o| !o.is_spent).map(|o| o.amount).sum();
    Address {
        address: name.to_string(),
        key_index,
        internal,
        balance,
        outputs,
    }
}

fn message(id: u8, confirmed: Option<bool>) -> Message {
    Message {
        id: MessageId::new([id; 32]),
        confirmed,
        payload: Some(vec![id]),
        inputs: Vec::new(),
    }
}

fn account(addresses: Vec<Address>, messages: Vec<Message>) -> Account {
    Account {
        id: "account".to_string(),
        index: 3,
        alias: "alias".to_string(),
        signer_type: SignerType::Stronghold,
        client_options: ClientOptions::new(),
        created_at: 0,
        last_synced_at: None,
        addresses,
        messages,
    }
}

fn id(tx: u8, index: u16) -> OutputId {
    OutputId::new(TransactionId::new([tx; 32]), index)
}

fn names(addresses: &[Address]) -> Vec<String> {
    addresses.iter().map(|a| a.address.clone()).collect()
}

#[test]
fn synchronizer_starts_from_the_latest_address() {
    let fresh = account(vec![address("p0", 0, false, vec![])], vec![]);
    let sync = AccountSynchronizer::new(&fresh);
    assert_eq!((sync.address_index, sync.gap_limit, sync.skip_persistence), (0, 10, false));
    assert_eq!(sync.steps.len(), 2);
    let grown = account(
        vec![address("p0", 0, false, vec![]), address("c5", 5, true, vec![]), address("p4", 4, false, vec![])],
        vec![],
    );
    let sync = AccountSynchronizer::new(&grown);
    assert_eq!((sync.address_index, sync.gap_limit), (4, 1));
    let sync = sync.gap_limit(7).address_index(2).skip_persistence();
    assert_eq!((sync.address_index, sync.gap_limit, sync.skip_persistence), (2, 7, true));
    let sync = sync.steps(vec![AccountSynchronizeStep::SyncMessages]);
    assert_eq!(sync.steps.len(), 1);
    assert!(matches!(address_step(&sync.steps), AddressStep::Skip));
    assert!(runs_message_step(&sync.steps));
}

#[test]
fn the_first_address_step_decides() {
    let steps = vec![
        AccountSynchronizeStep::SyncMessages,
        AccountSynchronizeStep::SyncAddresses(Some(vec!["a".to_string()])),
        AccountSynchronizeStep::SyncAddresses(None),
    ];
    match address_step(&steps) {
        AddressStep::Listed(list) => assert_eq!(list, vec!["a".to_string()]),
        other => panic!("unexpected step {:?}", other),
    }
    assert!(matches!(
        address_step(&vec![AccountSynchronizeStep::SyncAddresses(None)]),
        AddressStep::Discover
    ));
    assert!(!runs_message_step(&vec![AccountSynchronizeStep::SyncAddresses(None)]));
}

#[test]
fn a_cut_off_answer_asks_for_the_unspent_outputs_again() {
    assert!(needs_unspent_query(true, 1000));
    assert!(!needs_unspent_query(true, 999));
    assert!(!needs_unspent_query(true, 1001));
    assert!(!needs_unspent_query(false, 1000));
}

#[test]
fn merged_output_ids_hold_each_identifier_once() {
    let first = vec![id(1, 0), id(2, 0), id(1, 0)];
    let second = vec![id(2, 0), id(3, 0), id(1, 1)];
    let merged = merge_output_ids(&first, &second);
    assert_eq!(merged, vec![id(1, 0), id(2, 0), id(3, 0), id(1, 1)]);
}

#[test]
fn spent_outputs_are_not_fetched_again() {
    let known = address("a", 0, false, vec![output("a", 1, 0, 5, true), output("a", 2, 0, 6, false)]);
    let reported = vec![id(1, 0), id(2, 0), id(3, 0)];
    assert_eq!(outputs_to_fetch(&known, &reported), vec![id(2, 0), id(3, 0)]);
}

#[test]
fn messages_with_known_confirmation_are_not_fetched_again() {
    let known = vec![
        (MessageId::new([1; 32]), None),
        (MessageId::new([2; 32]), Some(false)),
        (MessageId::new([3; 32]), Some(true)),
    ];
    assert!(needs_message(&known, &MessageId::new([1; 32])));
    assert!(!needs_message(&known, &MessageId::new([2; 32])));
    assert!(!needs_message(&known, &MessageId::new([3; 32])));
    assert!(needs_message(&known, &MessageId::new([4; 32])));
}

#[test]
fn a_spent_output_confirms_its_message() {
    assert_eq!(confirmation_of(None), None);
    assert_eq!(confirmation_of(Some(LedgerInclusionState::Included)), Some(true));
    assert_eq!(confirmation_of(Some(LedgerInclusionState::Conflicting)), Some(false));
    assert_eq!(confirmation_of(Some(LedgerInclusionState::NoTransaction)), Some(false));
    assert_eq!(synced_confirmation(true, None), Some(true));
    assert_eq!(synced_confirmation(true, Some(false)), Some(true));
    assert_eq!(synced_confirmation(false, Some(false)), Some(false));
    assert_eq!(synced_confirmation(false, None), None);
    let found = synced_message(message(1, None), true, Some(LedgerInclusionState::Conflicting));
    assert_eq!(found.confirmed, Some(true));
    let found = synced_message(message(1, Some(true)), false, None);
    assert_eq!(found.confirmed, None);
}

#[test]
fn the_last_write_of_an_output_wins() {
    let mut synced = address("a", 0, false, vec![output("a", 1, 0, 5, false), output("a", 2, 0, 6, false)]);
    apply_synced_outputs(
        &mut synced,
        6,
        vec![output("a", 1, 0, 5, true), output("a", 3, 0, 7, false), output("a", 3, 0, 8, true)],
    );
    assert_eq!(synced.balance, 6);
    let seen: Vec<(u8, u64, bool)> = synced
        .outputs
        .iter()
        .map(|o| (o.transaction_id.bytes[0], o.amount, o.is_spent))
        .collect();
    assert_eq!(seen, vec![(1, 5, true), (2, 6, false), (3, 8, true)]);
}

#[test]
fn known_addresses_are_synchronised_with_their_outputs() {
    let held = account(
        vec![address("p0", 0, false, vec![output("p0", 1, 0, 5, false)]), address("c0", 0, true, vec![])],
        vec![],
    );
    assert_eq!(known_address(&held, 0, false), Some("p0".to_string()));
    assert_eq!(known_address(&held, 0, true), Some("c0".to_string()));
    assert_eq!(known_address(&held, 1, false), None);
    let known = address_to_sync(&held, 0, false, "p0".to_string());
    assert_eq!((known.balance, known.outputs.len(), known.key_index, known.internal), (0, 1, 0, false));
    let fresh = address_to_sync(&held, 1, true, "c1".to_string());
    assert_eq!((fresh.balance, fresh.outputs.len(), fresh.key_index, fresh.internal), (0, 0, 1, true));
}

#[test]
fn gap_limit_discovery() {
    let mut discovery = AddressDiscovery::new(0, 10);
    assert_eq!(discovery.next_batch(), Some((0, 10)));
    let mut batch = Vec::new();
    for index in 0..10 {
        let outputs = if index == 7 { vec![output("p7", 7, 0, 5, false)] } else { vec![] };
        batch.push(address(&format!("p{}", index), index, false, outputs));
        batch.push(address(&format!("c{}", index), index, true, vec![]));
    }
    assert!(!discovery.absorb(batch, vec![message(7, None)], false));
    assert_eq!(discovery.addresses.len(), 10);
    assert_eq!(discovery.next_batch(), Some((10, 20)));
    let mut batch = Vec::new();
    for index in 10..20 {
        batch.push(address(&format!("p{}", index), index, false, vec![]));
        batch.push(address(&format!("c{}", index), index, true, vec![]));
    }
    assert!(discovery.absorb(batch, vec![], false));
    assert_eq!(discovery.next_batch(), None);
    assert_eq!(discovery.addresses.len(), 20);
    let data = SyncedAccountData::new(discovery.addresses, discovery.messages);
    assert_eq!(
        names(&data.addresses),
        vec!["p0", "p1", "p2", "p3", "p4", "p5", "p6", "p7", "p8"]
    );
    assert!(!data.addresses[7].outputs.is_empty());
    assert!(data.addresses[8].outputs.is_empty());
    assert_eq!(data.messages.len(), 1);
    assert!(!data.is_empty());
}

#[test]
fn discovery_ends_when_the_signer_is_locked() {
    let mut discovery = AddressDiscovery::new(4, 2);
    let used = address("p4", 4, false, vec![output("p4", 4, 0, 5, false)]);
    assert!(discovery.absorb(vec![used], vec![], true));
    assert_eq!(discovery.next_batch(), None);
    assert_eq!(discovery.address_index, 6);
    let mut saturated = AddressDiscovery::new(usize::MAX - 1, 5);
    assert_eq!(saturated.next_batch(), Some((usize::MAX - 1, usize::MAX)));
    saturated.absorb(vec![address("p", 0, false, vec![output("p", 1, 0, 1, false)])], vec![], false);
    assert_eq!(saturated.address_index, usize::MAX);
}

#[test]
fn empty_change_addresses_are_dropped() {
    let kept = keep_addresses(vec![
        address("c0", 0, true, vec![]),
        address("p0", 0, false, vec![]),
        address("c1", 1, true, vec![output("c1", 1, 0, 5, true)]),
    ]);
    assert_eq!(names(&kept), vec!["p0", "c1"]);
}

#[test]
fn only_the_unused_tail_is_trimmed() {
    let used = |name: &str| address(name, 0, false, vec![output(name, 1, 0, 5, false)]);
    let unused = |name: &str| address(name, 0, false, vec![]);
    let trimmed = trim_unused_tail(vec![unused("a"), unused("b"), used("c"), unused("d"), unused("e"), unused("f")]);
    assert_eq!(names(&trimmed), vec!["a", "b", "c", "d"]);
    assert_eq!(names(&trim_unused_tail(vec![unused("a"), unused("b")])), vec!["a"]);
    assert_eq!(names(&trim_unused_tail(vec![used("a"), unused("b")])), vec!["a", "b"]);
    assert_eq!(names(&trim_unused_tail(vec![unused("a"), used("b")])), vec!["a", "b"]);
    assert!(trim_unused_tail(vec![]).is_empty());
}

#[test]
fn listed_addresses_are_synchronised_from_scratch() {
    let held = account(
        vec![
            address("p0", 0, false, vec![output("p0", 1, 0, 5, false)]),
            address("p1", 1, false, vec![]),
            address("c1", 1, true, vec![output("c1", 2, 0, 6, false)]),
        ],
        vec![],
    );
    let listed = listed_addresses_to_sync(&held, &vec!["c1".to_string(), "p0".to_string(), "x".to_string()]);
    assert_eq!(names(&listed), vec!["p0", "c1"]);
    assert!(listed.iter().all(|a| a.balance == 0 && a.outputs.is_empty()));
    assert_eq!((listed[1].key_index, listed[1].internal), (1, true));
    let rest = addresses_for_message_sync(&held, &listed);
    assert_eq!(names(&rest), vec!["p1"]);
}

#[test]
fn found_messages_that_tell_nothing_are_dropped() {
    let held = account(vec![], vec![message(1, None), message(2, Some(true)), message(3, Some(false))]);
    let found = vec![message(1, None), message(1, Some(true)), message(2, Some(true)), message(3, None), message(4, None)];
    let telling = new_found_messages(&held, found);
    let seen: Vec<(u8, Option<bool>)> = telling.iter().map(|m| (m.id.bytes[0], m.confirmed)).collect();
    assert_eq!(seen, vec![(1, Some(true)), (3, None), (4, None)]);
}

#[test]
fn new_messages_are_told_from_changed_ones() {
    let held = account(vec![], vec![message(1, None), message(2, Some(true))]);
    let before = known_messages(&held);
    let (new, changed) = diff_messages(
        &before,
        &vec![message(1, Some(true)), message(2, Some(true)), message(3, None), message(1, None)],
    );
    assert_eq!(new.iter().map(|m| m.id.bytes[0]).collect::<Vec<u8>>(), vec![3]);
    assert_eq!(changed.iter().map(|m| m.id.bytes[0]).collect::<Vec<u8>>(), vec![1]);
}

#[test]
fn changed_addresses_are_those_with_another_balance_or_other_outputs() {
    let before = vec![
        address("a", 0, false, vec![output("a", 1, 0, 5, false)]),
        address("b", 1, false, vec![output("b", 2, 0, 5, false)]),
        address("c", 2, false, vec![]),
    ];
    let mut other_balance = address("c", 2, false, vec![]);
    other_balance.balance = 1;
    let after = vec![
        address("a", 0, false, vec![output("a", 1, 0, 5, false)]),
        address("b", 1, false, vec![output("b", 2, 0, 5, true)]),
        other_balance,
        address("d", 3, false, vec![]),
    ];
    assert_eq!(names(&addresses_changed(&before, &after)), vec!["b", "c", "d"]);
}

#[test]
fn balance_events_name_the_message_of_each_new_output() {
    let before = vec![address("a", 0, false, vec![output("a", 1, 0, 5, false)])];
    let after = vec![
        address("a", 0, false, vec![output("a", 1, 0, 5, true), output("a", 2, 0, 30, false), output("a", 3, 0, 4, true)]),
        address("b", 1, false, vec![output("b", 4, 0, 9, false)]),
        address("c", 2, false, vec![]),
    ];
    let events = get_events(true, &before, &after, &vec![], &vec![]);
    let seen: Vec<(String, BalanceChange, Option<u8>)> = events
        .balance_change_events
        .iter()
        .map(|e| (e.address.clone(), e.balance_change, e.message_id.map(|m| m.bytes[0])))
        .collect();
    assert_eq!(
        seen,
        vec![
            ("a".to_string(), BalanceChange::received(30), Some(2)),
            ("a".to_string(), BalanceChange::spent(4), Some(3)),
            ("a".to_string(), BalanceChange::spent(1), None),
            ("b".to_string(), BalanceChange::received(9), Some(4)),
        ]
    );
    let events = get_events(false, &before, &after, &vec![], &vec![]);
    let seen: Vec<(String, BalanceChange, Option<u8>)> = events
        .balance_change_events
        .iter()
        .map(|e| (e.address.clone(), e.balance_change, e.message_id.map(|m| m.bytes[0])))
        .collect();
    assert_eq!(
        seen,
        vec![
            ("a".to_string(), BalanceChange::received(25), None),
            ("b".to_string(), BalanceChange::received(9), None),
        ]
    );
}

#[test]
fn confirmation_change_event() {
    let spent_amount = 40;
    let m = message(1, None);
    let mut held = account(
        vec![address("a", 0, false, vec![output("a", 1, 0, spent_amount, false)])],
        vec![m],
    );
    let found_output = output("a", 1, 0, spent_amount, true);
    let reported = vec![id(1, 0)];
    assert_eq!(outputs_to_fetch(&held.addresses[0], &reported), reported);
    assert!(needs_message(&known_messages(&held), &found_output.message_id));
    let found_message = synced_message(message(1, None), found_output.is_spent, None);
    let mut synced = address_to_sync(&held, 0, false, "a".to_string());
    apply_synced_outputs(&mut synced, 0, vec![found_output]);
    let telling = new_found_messages(&held, vec![found_message]);
    let data = SyncedAccountData::new(vec![synced], telling);
    let outcome = AccountSynchronizer::new(&held).execute(&mut held, data, true, 77);
    assert_eq!(outcome.events.confirmation_change_events.len(), 1);
    assert!(outcome.events.confirmation_change_events[0].confirmed);
    assert_eq!(outcome.events.confirmation_change_events[0].message.id, MessageId::new([1; 32]));
    assert!(outcome.events.new_transaction_events.is_empty());
    assert_eq!(outcome.events.balance_change_events.len(), 1);
    assert_eq!(outcome.events.balance_change_events[0].balance_change, BalanceChange::spent(spent_amount));
    assert_eq!(outcome.events.balance_change_events[0].address, "a");
    assert_eq!(held.messages[0].confirmed, Some(true));
    assert_eq!(held.addresses[0].balance, 0);
    assert!(held.addresses[0].outputs[0].is_spent);
    assert_eq!(held.last_synced_at, Some(77));
    assert_eq!(outcome.synced_account.messages.len(), 1);
    assert_eq!(names(&outcome.synced_account.addresses), vec!["a"]);
}

#[test]
fn a_second_sync_without_change_tells_nothing() {
    let mut held = account(vec![address("p0", 0, false, vec![])], vec![]);
    let found_addresses = || {
        vec![
            address("p0", 0, false, vec![output("p0", 1, 0, 5, false)]),
            address("p1", 1, false, vec![]),
        ]
    };
    let found_messages = || vec![message(1, None), message(2, Some(true))];
    let telling = new_found_messages(&held, found_messages());
    let first = AccountSynchronizer::new(&held).execute(
        &mut held,
        SyncedAccountData::new(found_addresses(), telling),
        true,
        1,
    );
    assert_eq!(first.events.new_transaction_events.len(), 2);
    assert_eq!(first.events.balance_change_events.len(), 1);
    let addresses_then: Vec<(String, u64, usize)> =
        held.addresses.iter().map(|a| (a.address.clone(), a.balance, a.outputs.len())).collect();
    let messages_then: Vec<(u8, Option<bool>)> = held.messages.iter().map(|m| (m.id.bytes[0], m.confirmed)).collect();
    let telling = new_found_messages(&held, found_messages());
    assert!(telling.is_empty());
    let second = AccountSynchronizer::new(&held).execute(
        &mut held,
        SyncedAccountData::new(found_addresses(), telling),
        true,
        2,
    );
    assert!(second.events.new_transaction_events.is_empty());
    assert!(second.events.confirmation_change_events.is_empty());
    assert!(second.events.balance_change_events.is_empty());
    assert!(second.synced_account.messages.is_empty());
    assert!(second.synced_account.addresses.is_empty());
    let addresses_now: Vec<(String, u64, usize)> =
        held.addresses.iter().map(|a| (a.address.clone(), a.balance, a.outputs.len())).collect();
    let messages_now: Vec<(u8, Option<bool>)> = held.messages.iter().map(|m| (m.id.bytes[0], m.confirmed)).collect();
    assert_eq!(addresses_then, addresses_now);
    assert_eq!(messages_then, messages_now);
}

#[test]
fn a_confirmation_is_never_taken_back() {
    let mut held = account(vec![], vec![message(1, Some(true)), message(2, Some(false)), message(3, None)]);
    held.append_messages(vec![message(1, None), message(2, None), message(3, Some(false)), message(1, Some(false))]);
    let seen: Vec<(u8, Option<bool>)> = held.messages.iter().map(|m| (m.id.bytes[0], m.confirmed)).collect();
    assert_eq!(seen, vec![(1, Some(true)), (2, None), (3, Some(false))]);
}

#[test]
fn skipping_persistence_leaves_the_account_alone() {
    let mut held = account(vec![address("p0", 0, false, vec![])], vec![]);
    let data = SyncedAccountData::new(
        vec![address("p0", 0, false, vec![output("p0", 1, 0, 5, false)])],
        vec![message(1, None)],
    );
    let outcome = AccountSynchronizer::new(&held).skip_persistence().execute(&mut held, data, true, 5);
    assert!(held.messages.is_empty());
    assert!(held.addresses[0].outputs.is_empty());
    assert_eq!(held.last_synced_at, None);
    assert!(outcome.events.balance_change_events.is_empty());
    assert_eq!(outcome.events.new_transaction_events.len(), 1);
    assert!(!outcome.synced_account.is_empty);
    assert_eq!(outcome.synced_account.id, "account");
    assert_eq!(outcome.synced_account.index, 3);
    assert_eq!(outcome.synced_account.deposit_address.as_ref().unwrap().address, "p0");
}

#[test]
fn a_synced_account_is_emulated_from_an_account() {
    let held = account(vec![address("c0", 0, true, vec![]), address("p2", 2, false, vec![]), address("p1", 1, false, vec![])], vec![]);
    let synced = SyncedAccount::from(&held);
    assert_eq!(synced.deposit_address().as_ref().unwrap().address, "p2");
    assert!(!synced.is_empty());
    assert!(synced.messages().is_empty());
    assert!(synced.addresses().is_empty());
    let without = account(vec![address("c0", 0, true, vec![])], vec![]);
    assert!(SyncedAccount::from(&without).deposit_address.is_none());
}
