use iota_wallet::account::sync::dust::unspent_amounts_of;
use iota_wallet::account::sync::essence::{seal_essence, EssenceOutput};
use iota_wallet::account::sync::preparation::{clamp_amount, release_address, TransferInput};
use iota_wallet::account::sync::input_selection::Input;
use iota_wallet::account::sync::transfer::{
    accumulate_outputs, addresses_to_ask_for, check_dust, contains_string, note_remainder, plan_transfer,
};
use iota_wallet::account::{position_of_address, sum_output_amounts, Account, SignerType};
use iota_wallet::account_manager::polling::panic_error;
use iota_wallet::address::{
    bytes32_eq, output_eq, outputs_eq, Address, AddressOutput, MessageId, OutputId, OutputKind, TransactionId,
};
use iota_wallet::client::ClientOptions;
use iota_wallet::error::Error;
use iota_wallet::message::{bytes_eq, payload_eq, Message, Transfer};
use iota_wallet::search::starts_with;
use iota_wallet::signing::{append_decimal, transaction_inputs};

fn bech32(byte: u8) -> String {
    bee_message::address::Address::from(bee_message::address::Ed25519Address::new([byte; 32])).to_bech32("atoi")
}

fn output(address: &str, tx: u8, index: u16, amount: u64, kind: OutputKind, is_spent: bool) -> AddressOutput {
    AddressOutput {
        transaction_id: TransactionId::new([tx; 32]),
        message_id: MessageId::new([tx; 32]),
        index,
        amount,
        is_spent,
        address: address.to_string(),
        kind,
    }
}

fn single(address: &str, tx: u8, amount: u64) -> AddressOutput {
    output(address, tx, 0, amount, OutputKind::SignatureLockedSingle, false)
}

fn address(name: &str, key_index: usize, internal: bool, outputs: Vec<AddressOutput>) -> Address {
    let balance = outputs.iter().filter(|o| !o.is_spent).map(|o| o.amount).sum();
    Address {
        address: name.to_string(),
        key_index,
        internal,
        balance,
        outputs,
    }
}

fn account(addresses: Vec<Address>) -> Account {
    Account {
        id: "account".to_string(),
        index: 2,
        alias: "alias".to_string(),
        signer_type: SignerType::Stronghold,
        client_options: ClientOptions::new(),
        created_at: 0,
        last_synced_at: None,
        addresses,
        messages: Vec::new(),
    }
}

#[test]
fn identifiers_are_equal_when_their_bytes_are() {
    let mut other = [7u8; 32];
    assert!(bytes32_eq(&[7u8; 32], &other));
    other[31] = 8;
    assert!(!bytes32_eq(&[7u8; 32], &other));
    assert_eq!(MessageId::new([1; 32]), MessageId::new([1; 32]));
    assert_ne!(MessageId::new([1; 32]), MessageId::new([2; 32]));
    assert_eq!(TransactionId::new([1; 32]), TransactionId::new([1; 32]));
    assert_ne!(OutputId::new(TransactionId::new([1; 32]), 0), OutputId::new(TransactionId::new([1; 32]), 1));
    assert_ne!(OutputId::new(TransactionId::new([1; 32]), 0), OutputId::new(TransactionId::new([2; 32]), 0));
    assert!(bytes_eq(&vec![1, 2], &vec![1, 2]));
    assert!(!bytes_eq(&vec![1, 2], &vec![1, 2, 3]));
    assert!(!bytes_eq(&vec![1, 2], &vec![1, 3]));
    assert!(payload_eq(&None, &None));
    assert!(!payload_eq(&None, &Some(vec![])));
    assert!(payload_eq(&Some(vec![5]), &Some(vec![5])));
}

#[test]
fn outputs_are_equal_when_all_they_hold_is() {
    let a = single("a", 1, 5);
    assert!(output_eq(&a, &a.clone()));
    let mut spent = a.clone();
    spent.is_spent = true;
    assert!(!output_eq(&a, &spent));
    let mut other_kind = a.clone();
    other_kind.kind = OutputKind::Treasury;
    assert!(!output_eq(&a, &other_kind));
    let mut other_address = a.clone();
    other_address.address = "b".to_string();
    assert!(!output_eq(&a, &other_address));
    assert!(outputs_eq(&vec![a.clone(), spent.clone()], &vec![a.clone(), spent.clone()]));
    assert!(!outputs_eq(&vec![a.clone(), spent.clone()], &vec![spent.clone(), a.clone()]));
    assert!(!outputs_eq(&vec![a.clone()], &vec![]));
    assert_eq!(a.id(), OutputId::new(TransactionId::new([1; 32]), 0));
}

#[test]
fn the_balance_is_what_the_unspent_outputs_hold() {
    let mut held = address(
        "a",
        0,
        false,
        vec![single("a", 1, 5), output("a", 2, 0, 7, OutputKind::SignatureLockedSingle, true), single("a", 3, 6)],
    );
    assert_eq!(held.balance, 11);
    assert!(held.is_consistent());
    held.balance = 18;
    assert!(!held.is_consistent());
    assert!(!held.is_unused());
    assert!(!held.is_empty());
    let fresh = Address::new("b".to_string(), 4, true);
    assert!(fresh.is_consistent() && fresh.is_unused() && fresh.is_empty());
    assert_eq!((fresh.key_index, fresh.internal, fresh.balance), (4, true, 0));
    assert_eq!(held.find_output(&OutputId::new(TransactionId::new([3; 32]), 0)), Some(2));
    assert_eq!(held.find_output(&OutputId::new(TransactionId::new([3; 32]), 1)), None);
    assert_eq!(unspent_amounts_of(&held.outputs), vec![
        (5, OutputKind::SignatureLockedSingle),
        (6, OutputKind::SignatureLockedSingle)
    ]);
    assert_eq!(sum_output_amounts(&held.outputs), 18);
    assert_eq!(sum_output_amounts(&vec![single("a", 1, u64::MAX), single("a", 2, u64::MAX)]), 2 * (u64::MAX as u128));
}

#[test]
fn addresses_are_recorded_by_what_they_read() {
    let mut held = account(vec![address("p0", 0, false, vec![]), address("c0", 0, true, vec![])]);
    held.append_addresses(vec![
        address("p1", 1, false, vec![]),
        address("p0", 0, false, vec![single("p0", 1, 5)]),
        address("p1", 1, false, vec![single("p1", 2, 6)]),
    ]);
    let seen: Vec<(String, u64)> = held.addresses.iter().map(|a| (a.address.clone(), a.balance)).collect();
    assert_eq!(
        seen,
        vec![("p0".to_string(), 5), ("c0".to_string(), 0), ("p1".to_string(), 6)]
    );
    assert_eq!(held.balance_total(), 11);
    assert_eq!(held.latest_address(), Some(2));
    assert_eq!(held.find_address(&"c0".to_string()), Some(1));
    assert_eq!(held.find_address(&"x".to_string()), None);
    assert_eq!(position_of_address(&held.addresses, &"p1".to_string()), Some(2));
    assert!(!held.is_empty());
    assert!(account(vec![address("p0", 0, false, vec![])]).is_empty());
    assert_eq!(account(vec![address("c0", 0, true, vec![])]).latest_address(), None);
    held.set_last_synced_at(Some(4));
    assert_eq!(held.last_synced_at, Some(4));
    let copy = held.clone();
    assert_eq!(copy.addresses.len(), 3);
    assert_eq!(copy.id, "account");
}

#[test]
fn messages_are_found_by_their_identifier() {
    let mut held = account(vec![]);
    held.record_message(Message { id: MessageId::new([1; 32]), confirmed: None, payload: None, inputs: vec![] });
    held.record_message(Message {
        id: MessageId::new([2; 32]),
        confirmed: Some(false),
        payload: Some(vec![1]),
        inputs: vec![OutputId::new(TransactionId::new([9; 32]), 3)],
    });
    assert_eq!(held.find_message(&MessageId::new([2; 32])), Some(1));
    assert_eq!(held.find_message(&MessageId::new([3; 32])), None);
    assert!(held.is_consumed_by_pending(&OutputId::new(TransactionId::new([9; 32]), 3)));
    assert!(!held.is_consumed_by_pending(&OutputId::new(TransactionId::new([9; 32]), 4)));
    assert!(held.messages[1].consumes(&OutputId::new(TransactionId::new([9; 32]), 3)));
    assert!(held.messages[0].is_unconfirmed() && held.messages[1].is_unconfirmed());
    let copy = held.messages[1].clone();
    assert_eq!((copy.id, copy.confirmed, copy.payload.clone(), copy.inputs.len()), (MessageId::new([2; 32]), Some(false), Some(vec![1]), 1));
}

#[test]
fn client_options_are_copied_whole() {
    let options = ClientOptions {
        nodes: vec!["https://node.one".to_string(), "https://node.two".to_string()],
        network: Some("testnet".to_string()),
        local_pow: false,
    };
    let copy = options.clone();
    assert_eq!(copy.nodes, options.nodes);
    assert_eq!(copy.network, options.network);
    assert_eq!(copy.local_pow, options.local_pow);
    let fresh = ClientOptions::new();
    assert!(fresh.nodes.is_empty() && fresh.network.is_none() && fresh.local_pow);
}

#[test]
fn transfers_are_built_step_by_step() {
    let transfer = Transfer::builder("a".to_string(), 5)
        .with_input("b".to_string(), vec![single("b", 1, 5)])
        .with_indexation(vec![1], vec![2, 3])
        .with_events(false)
        .finish();
    assert_eq!((transfer.address.as_str(), transfer.amount, transfer.with_events), ("a", 5, false));
    assert_eq!(transfer.indexation, Some((vec![1], vec![2, 3])));
    assert_eq!(transfer.input.as_ref().unwrap().0, "b");
    let plain = Transfer::builder("a".to_string(), 5).finish();
    assert!(plain.with_events && plain.input.is_none() && plain.indexation.is_none());
}

#[test]
fn amounts_beyond_sixty_four_bits_are_cut() {
    assert_eq!(clamp_amount(0), 0);
    assert_eq!(clamp_amount(u64::MAX as u128), u64::MAX);
    assert_eq!(clamp_amount(u64::MAX as u128 + 1), u64::MAX);
}

#[test]
fn one_pledge_is_released_at_a_time() {
    let mut locked = vec!["a".to_string(), "b".to_string(), "a".to_string()];
    assert!(contains_string(&locked, &"b".to_string()));
    assert!(!contains_string(&locked, &"c".to_string()));
    release_address(&mut locked, &"a".to_string());
    assert_eq!(locked, vec!["b".to_string(), "a".to_string()]);
    release_address(&mut locked, &"c".to_string());
    assert_eq!(locked.len(), 2);
    release_address(&mut locked, &"a".to_string());
    assert_eq!(locked, vec!["b".to_string()]);
}

#[test]
fn the_signer_gets_every_output_with_its_path() {
    let held = account(vec![
        address("p0", 0, false, vec![single("p0", 1, 5)]),
        address("c3", 3, true, vec![single("c3", 2, 6), single("c3", 3, 7)]),
    ]);
    let paying = vec![
        TransferInput {
            input: Input { address: "c3".to_string(), internal: true, balance: 13, key_index: 3 },
            outputs: vec![single("c3", 2, 6), single("c3", 3, 7)],
        },
        TransferInput {
            input: Input { address: "p0".to_string(), internal: false, balance: 5, key_index: 0 },
            outputs: vec![single("p0", 1, 5)],
        },
    ];
    let inputs = transaction_inputs(&held, &paying).unwrap();
    let hardened = 0x8000_0000u32;
    let seen: Vec<(u64, usize, bool, Vec<u32>)> = inputs
        .iter()
        .map(|i| (i.utxo.amount, i.address_index, i.address_internal, i.address_path.clone()))
        .collect();
    let change_path = vec![hardened + 44, hardened + 4218, hardened + 2, hardened + 1, hardened + 3];
    let public_path = vec![hardened + 44, hardened + 4218, hardened + 2, hardened, hardened];
    assert_eq!(
        seen,
        vec![
            (6, 3, true, change_path.clone()),
            (7, 3, true, change_path),
            (5, 0, false, public_path),
        ]
    );
    let stranger = vec![TransferInput {
        input: Input { address: "x".to_string(), internal: false, balance: 5, key_index: 0 },
        outputs: vec![single("x", 1, 5)],
    }];
    assert!(transaction_inputs(&held, &stranger).is_none());
    assert!(plan_transfer(&held, 5, &"d".to_string(), &stranger).is_none());
    let too_much = vec![TransferInput {
        input: Input { address: "p0".to_string(), internal: false, balance: 5, key_index: 0 },
        outputs: vec![single("p0", 1, u64::MAX), single("p0", 2, 1)],
    }];
    assert!(plan_transfer(&held, 5, &"d".to_string(), &too_much).is_none());
    let mut text = "n=".to_string();
    append_decimal(&mut text, 0);
    append_decimal(&mut text, 90210);
    append_decimal(&mut text, usize::MAX);
    assert_eq!(text, format!("n=090210{}", usize::MAX));
}

#[test]
fn the_essence_is_sealed_in_order() {
    let inputs = vec![
        OutputId::new(TransactionId::new([9; 32]), 1),
        OutputId::new(TransactionId::new([9; 32]), 0),
        OutputId::new(TransactionId::new([2; 32]), 5),
    ];
    let outputs = vec![
        EssenceOutput { address: bech32(8), amount: 10 },
        EssenceOutput { address: bech32(1), amount: 20 },
    ];
    let essence = seal_essence(&inputs, &outputs, Some((vec![1], vec![2]))).unwrap();
    let seen: Vec<(u8, u16)> = essence.inputs.iter().map(|i| (i.transaction_id.bytes[0], i.index)).collect();
    assert_eq!(seen, vec![(2, 5), (9, 0), (9, 1)]);
    assert_eq!(essence.outputs[0].address, bech32(1));
    assert_eq!(essence.outputs[1].address, bech32(8));
    assert_eq!(essence.indexation, Some((vec![1], vec![2])));
    match seal_essence(&inputs, &vec![EssenceOutput { address: bech32(1), amount: 0 }], None) {
        Err(Error::ClientError(text)) => assert_eq!(text, "invalid transaction input or output"),
        other => panic!("unexpected result {:?}", other),
    }
    assert!(seal_essence(&vec![OutputId::new(TransactionId::new([9; 32]), 200)], &outputs, None).is_err());
}

#[test]
fn the_dust_rule_is_checked_on_every_touched_address() {
    let own = bech32(1);
    let allowed = bech32(2);
    let refused = bech32(3);
    let held = account(vec![address(
        &own,
        0,
        false,
        vec![
            single(&own, 1, 500),
            output(&own, 2, 0, 1_000_000, OutputKind::SignatureLockedDustAllowance, false),
            output(&own, 3, 0, 1_000_000, OutputKind::SignatureLockedDustAllowance, true),
        ],
    )]);
    let mut records = accumulate_outputs(400, &allowed, &vec![single(&own, 1, 500)]).records;
    note_remainder(&mut records, 100, &own);
    assert_eq!(addresses_to_ask_for(&held, &records), vec![allowed.clone()]);
    let no_report = Vec::new();
    match check_dust(&held, &records, &no_report) {
        Err(Error::DustError(address)) => assert_eq!(address, allowed),
        other => panic!("unexpected result {:?}", other),
    }
    let report = vec![
        (refused.clone(), vec![]),
        (allowed.clone(), vec![(100_000, OutputKind::SignatureLockedDustAllowance)]),
        (allowed.clone(), vec![]),
    ];
    assert!(check_dust(&held, &records, &report).is_ok());
    note_remainder(&mut records, 7, &refused);
    assert_eq!(addresses_to_ask_for(&held, &records), vec![allowed.clone(), refused.clone()]);
    match check_dust(&held, &records, &report) {
        Err(Error::DustError(address)) => assert_eq!(address, refused),
        other => panic!("unexpected result {:?}", other),
    }
    let mut too_dusty = accumulate_outputs(5_000_000, &allowed, &vec![]).records;
    for _ in 0..11 {
        note_remainder(&mut too_dusty, 1, &own);
    }
    match check_dust(&held, &too_dusty, &report) {
        Err(Error::DustError(address)) => assert_eq!(address, own),
        other => panic!("unexpected result {:?}", other),
    }
}

#[test]
fn a_tick_that_panics_is_reported() {
    match panic_error(Some("boom".to_string())) {
        Error::Panic(text) => assert_eq!(text, "Internal error: boom"),
        other => panic!("unexpected error {:?}", other),
    }
    match panic_error(None) {
        Error::Panic(text) => assert_eq!(text, "Internal error"),
        other => panic!("unexpected error {:?}", other),
    }
}

#[test]
fn the_next_address_follows_the_latest() {
    let held = account(vec![address("p0", 0, false, vec![]), address("c9", 9, true, vec![]), address("p4", 4, false, vec![])]);
    assert_eq!(held.next_address_index(), Some(5));
    assert_eq!(account(vec![address("c9", 9, true, vec![])]).next_address_index(), Some(0));
    assert_eq!(account(vec![address("p", usize::MAX, false, vec![])]).next_address_index(), None);
}

#[test]
fn texts_begin_with_their_prefixes() {
    assert!(starts_with(&"wallet-account://1".to_string(), "wallet-account://"));
    assert!(starts_with(&"abc".to_string(), "abc"));
    assert!(starts_with(&"abc".to_string(), ""));
    assert!(!starts_with(&"ab".to_string(), "abc"));
    assert!(!starts_with(&"xbc".to_string(), "abc"));
    assert!(starts_with(&"\u{e9}t\u{e9}".to_string(), "\u{e9}t"));
}
