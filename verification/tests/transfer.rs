use iota_wallet::account::sync::dust::{is_dust_allowed, known_dust_outputs};
use iota_wallet::account::sync::essence::{order_inputs, order_outputs};
use iota_wallet::account::sync::preparation::{
    available_inputs, prepare_transfer, release_inputs, select_inputs, PreparedTransfer,
};
use iota_wallet::account::sync::transfer::{
    accumulate_outputs, changes_for, needs_fresh_address, note_remainder, plan_transfer,
    remainder_deposit_target, touched_addresses, transfer_input_ids, transfer_outputs, RemainderTarget,
};
use iota_wallet::account::{Account, SignerType};
use iota_wallet::address::{Address, AddressOutput, MessageId, OutputId, OutputKind, TransactionId};
use iota_wallet::client::ClientOptions;
use iota_wallet::error::Error;
use iota_wallet::message::{Message, RemainderValueStrategy, Transfer};

fn bech32(byte: u8) -> String {
    bee_message::address::Address::from(bee_message::address::Ed25519Address::new([byte; 32])).to_bech32("atoi")
}

fn output(address: &str, tx: u8, index: u16, amount: u64, kind: OutputKind) -> AddressOutput {
    AddressOutput {
        transaction_id: TransactionId::new([tx; 32]),
        message_id: MessageId::new([tx; 32]),
        index,
        amount,
        is_spent: false,
        address: address.to_string(),
        kind,
    }
}

fn address(name: &str, key_index: usize, internal: bool, outputs: Vec<AddressOutput>) -> Address {
    let balance = outputs.iter().filter(|o| !o.is_spent).map(|o| o.amount).sum();
    Address {
        address: name.to_string(),
        key_index,
        internal,
        balance,
        outputs,
    }
}

fn account(addresses: Vec<Address>) -> Account {
    Account {
        id: "account".to_string(),
        index: 0,
        alias: "alias".to_string(),
        signer_type: SignerType::Stronghold,
        client_options: ClientOptions::new(),
        created_at: 0,
        last_synced_at: None,
        addresses,
        messages: Vec::new(),
    }
}

fn transfer(prepared: &PreparedTransfer) -> &Transfer {
    &prepared.transfer
}

fn dust_check(account: &Account, prepared: &PreparedTransfer, deposit: Option<String>) -> Result<(), Error> {
    let plan = plan_transfer(account, prepared.transfer.amount, &prepared.transfer.address, &prepared.inputs).unwrap();
    let mut records = plan.records;
    if let Some(deposit) = &deposit {
        note_remainder(&mut records, plan.remainder_value, deposit);
    }
    for touched in touched_addresses(&records) {
        let current = known_dust_outputs(account, &touched).unwrap_or_default();
        is_dust_allowed(touched.clone(), &current, changes_for(&records, &touched))?;
    }
    Ok(())
}

fn dust_scenario() -> Account {
    let a = bech32(1);
    let b = bech32(2);
    let c = bech32(3);
    account(vec![
        address(&a, 0, false, vec![output(&a, 1, 0, 10_000_000, OutputKind::SignatureLockedSingle)]),
        address(&b, 1, false, vec![]),
        address(&c, 0, true, vec![output(&c, 3, 0, 10_000_000, OutputKind::SignatureLockedDustAllowance)]),
    ])
}

#[test]
fn dust_refusal() {
    let account = dust_scenario();
    let mut locked = Vec::new();
    let prepared =
        prepare_transfer(&account, &mut locked, Transfer::builder(bech32(2), 9_999_500).finish()).unwrap();
    assert!(matches!(
        transfer(&prepared).remainder_value_strategy,
        RemainderValueStrategy::ReuseAddress
    ));
    let paying = prepared.remainder_address.as_ref().unwrap().address.clone();
    let target = remainder_deposit_target(&account, &prepared.transfer, &paying).unwrap();
    let deposit = match target {
        RemainderTarget::Existing(deposit) => deposit,
        other => panic!("unexpected target {:?}", other),
    };
    assert_eq!(deposit, paying);
    match dust_check(&account, &prepared, Some(deposit)) {
        Err(Error::DustError(refused)) => assert_eq!(refused, paying),
        other => panic!("unexpected result {:?}", other),
    }
}

#[test]
fn dust_refusal_names_the_paying_address() {
    let account = dust_scenario();
    let mut locked = vec![bech32(3)];
    let prepared =
        prepare_transfer(&account, &mut locked, Transfer::builder(bech32(2), 9_999_500).finish()).unwrap();
    assert_eq!(prepared.inputs.len(), 1);
    assert_eq!(prepared.inputs[0].input.address, bech32(1));
    let plan = plan_transfer(&account, 9_999_500, &bech32(2), &prepared.inputs).unwrap();
    assert_eq!(plan.remainder_value, 500);
    match dust_check(&account, &prepared, Some(bech32(1))) {
        Err(Error::DustError(refused)) => assert_eq!(refused, bech32(1)),
        other => panic!("unexpected result {:?}", other),
    }
}

#[test]
fn remainder_to_change() {
    let public = bech32(1);
    let destination = bech32(9);
    let mut account = account(vec![address(
        &public,
        0,
        false,
        vec![output(&public, 1, 0, 5, OutputKind::SignatureLockedSingle)],
    )]);
    let mut locked = Vec::new();
    let asked = Transfer::builder(destination.clone(), 3)
        .with_remainder_value_strategy(RemainderValueStrategy::ChangeAddress)
        .finish();
    let prepared = prepare_transfer(&account, &mut locked, asked).unwrap();
    assert_eq!(prepared.inputs.len(), 1);
    assert_eq!(prepared.inputs[0].outputs.len(), 1);
    assert_eq!(prepared.inputs[0].outputs[0].amount, 5);
    assert_eq!(locked, vec![public.clone()]);
    let plan = plan_transfer(&account, 3, &destination, &prepared.inputs).unwrap();
    assert_eq!(plan.output_sum, 3);
    assert_eq!(plan.remainder_value, 2);
    assert_eq!(plan.inputs.len(), 1);
    let paying = prepared.remainder_address.as_ref().unwrap().address.clone();
    let target = remainder_deposit_target(&account, &prepared.transfer, &paying).unwrap();
    assert!(matches!(target, RemainderTarget::FreshChangeAddress));
    let change = bech32(4);
    account.append_addresses(vec![address(&change, 0, true, vec![])]);
    assert_eq!(account.addresses.len(), 2);
    assert!(account.addresses[1].internal);
    let outputs = transfer_outputs(&destination, 3, plan.remainder_value, &change);
    assert_eq!(outputs.len(), 2);
    assert_eq!((outputs[0].address.clone(), outputs[0].amount), (destination.clone(), 3));
    assert_eq!((outputs[1].address.clone(), outputs[1].amount), (change.clone(), 2));
    assert_eq!(order_outputs(&outputs).unwrap().len(), 2);
    assert_eq!(order_inputs(&transfer_input_ids(&plan.inputs)).unwrap().len(), 1);
    release_inputs(&mut locked, &vec![prepared.inputs[0].input.clone()]);
    assert!(locked.is_empty());
}

#[test]
fn reuse_for_intra_account() {
    let first = bech32(1);
    let second = bech32(2);
    let account = account(vec![
        address(&first, 0, false, vec![output(&first, 1, 0, 150, OutputKind::SignatureLockedSingle)]),
        address(&second, 1, false, vec![]),
    ]);
    let mut locked = Vec::new();
    let asked = Transfer::builder(second.clone(), 100)
        .with_remainder_value_strategy(RemainderValueStrategy::ChangeAddress)
        .finish();
    let prepared = prepare_transfer(&account, &mut locked, asked).unwrap();
    assert!(matches!(
        prepared.transfer.remainder_value_strategy,
        RemainderValueStrategy::ReuseAddress
    ));
    assert_eq!(prepared.inputs.len(), 1);
    assert_eq!(prepared.inputs[0].input.address, first);
    let plan = plan_transfer(&account, 100, &second, &prepared.inputs).unwrap();
    assert_eq!(plan.inputs.len(), 1);
    assert_eq!(plan.remainder_value, 50);
    let paying = prepared.remainder_address.as_ref().unwrap().address.clone();
    assert_eq!(paying, first);
    match remainder_deposit_target(&account, &prepared.transfer, &paying).unwrap() {
        RemainderTarget::Existing(deposit) => assert_eq!(deposit, first),
        other => panic!("unexpected target {:?}", other),
    }
    let outputs = transfer_outputs(&second, 100, 50, &first);
    assert_eq!(outputs.len(), 2);
    assert_eq!((outputs[1].address.clone(), outputs[1].amount), (first.clone(), 50));
}

#[test]
fn transfer_beyond_the_balance_is_refused() {
    let a = bech32(1);
    let account = account(vec![address(&a, 0, false, vec![output(&a, 1, 0, 10, OutputKind::SignatureLockedSingle)])]);
    let mut locked = Vec::new();
    let result = prepare_transfer(&account, &mut locked, Transfer::builder(bech32(9), 11).finish());
    assert!(matches!(result, Err(Error::InsufficientFunds)));
    assert!(locked.is_empty());
}

#[test]
fn remainder_address_of_another_account_is_refused() {
    let a = bech32(1);
    let account = account(vec![address(&a, 0, false, vec![output(&a, 1, 0, 10, OutputKind::SignatureLockedSingle)])]);
    let mut locked = Vec::new();
    let asked = Transfer::builder(bech32(9), 5)
        .with_remainder_value_strategy(RemainderValueStrategy::AccountAddress(bech32(8)))
        .finish();
    assert!(matches!(
        prepare_transfer(&account, &mut locked, asked),
        Err(Error::InvalidRemainderValueAddress)
    ));
    let asked = Transfer::builder(bech32(9), 5)
        .with_remainder_value_strategy(RemainderValueStrategy::AccountAddress(a.clone()))
        .finish();
    let prepared = prepare_transfer(&account, &mut locked, asked).unwrap();
    match remainder_deposit_target(&account, &prepared.transfer, &a).unwrap() {
        RemainderTarget::Existing(deposit) => assert_eq!(deposit, a),
        other => panic!("unexpected target {:?}", other),
    }
}

#[test]
fn chosen_input_of_another_account_is_refused() {
    let a = bech32(1);
    let account = account(vec![address(&a, 0, false, vec![output(&a, 1, 0, 10, OutputKind::SignatureLockedSingle)])]);
    let mut locked = Vec::new();
    let stranger = bech32(7);
    let asked = Transfer::builder(bech32(9), 5)
        .with_input(stranger.clone(), vec![output(&stranger, 7, 0, 5, OutputKind::SignatureLockedSingle)])
        .finish();
    assert!(matches!(
        prepare_transfer(&account, &mut locked, asked),
        Err(Error::InsufficientFunds)
    ));
    let asked = Transfer::builder(bech32(9), 10)
        .with_input(a.clone(), vec![output(&a, 1, 0, 10, OutputKind::SignatureLockedSingle)])
        .finish();
    let prepared = prepare_transfer(&account, &mut locked, asked).unwrap();
    assert_eq!(prepared.inputs[0].input.balance, 10);
    assert!(prepared.remainder_address.is_none());
    assert_eq!(locked, vec![a]);
}

#[test]
fn pledged_addresses_are_not_selected_again() {
    let a = bech32(1);
    let b = bech32(2);
    let account = account(vec![
        address(&a, 0, false, vec![output(&a, 1, 0, 10, OutputKind::SignatureLockedSingle)]),
        address(&b, 1, false, vec![output(&b, 2, 0, 10, OutputKind::SignatureLockedSingle)]),
    ]);
    let mut locked = Vec::new();
    let first = Transfer::builder(bech32(9), 10).finish();
    let (selected_first, _) = select_inputs(&mut locked, &first, &account).unwrap();
    let second = Transfer::builder(bech32(9), 10).finish();
    let (selected_second, _) = select_inputs(&mut locked, &second, &account).unwrap();
    assert_eq!(selected_first.len(), 1);
    assert_eq!(selected_second.len(), 1);
    assert_ne!(selected_first[0].address, selected_second[0].address);
    assert_eq!(locked.len(), 2);
    let third = Transfer::builder(bech32(9), 1).finish();
    assert!(matches!(
        select_inputs(&mut locked, &third, &account),
        Err(Error::InsufficientFunds)
    ));
    assert_eq!(locked.len(), 2);
    release_inputs(&mut locked, &selected_first);
    assert_eq!(locked, vec![selected_second[0].address.clone()]);
    assert!(select_inputs(&mut locked, &third, &account).is_ok());
}

#[test]
fn outputs_consumed_by_pending_messages_are_not_available() {
    let a = bech32(1);
    let mut account = account(vec![address(
        &a,
        0,
        false,
        vec![
            output(&a, 1, 0, 10, OutputKind::SignatureLockedSingle),
            output(&a, 1, 1, 20, OutputKind::SignatureLockedSingle),
        ],
    )]);
    account.messages.push(Message {
        id: MessageId::new([5; 32]),
        confirmed: None,
        payload: Some(vec![1, 2, 3]),
        inputs: vec![OutputId::new(TransactionId::new([1; 32]), 0)],
    });
    assert_eq!(account.available_outputs(0).len(), 1);
    assert_eq!(account.available_balance(0), 20);
    let pool = available_inputs(&account, &Vec::new(), &bech32(9), true);
    assert_eq!(pool.len(), 1);
    assert_eq!(pool[0].balance, 20);
    account.messages[0].confirmed = Some(true);
    assert_eq!(account.available_balance(0), 30);
    account.addresses[0].outputs[1].is_spent = true;
    assert_eq!(account.available_balance(0), 10);
}

#[test]
fn destination_pays_only_with_several_outputs() {
    let a = bech32(1);
    let single = account(vec![address(&a, 0, false, vec![output(&a, 1, 0, 10, OutputKind::SignatureLockedSingle)])]);
    assert!(available_inputs(&single, &Vec::new(), &a, true).is_empty());
    let several = account(vec![address(
        &a,
        0,
        false,
        vec![
            output(&a, 1, 0, 10, OutputKind::SignatureLockedSingle),
            output(&a, 1, 1, 10, OutputKind::SignatureLockedSingle),
        ],
    )]);
    assert_eq!(available_inputs(&several, &Vec::new(), &a, true).len(), 1);
    assert!(available_inputs(&several, &Vec::new(), &a, false).is_empty());
}

#[test]
fn accumulation_splits_the_crossing_output() {
    let a = bech32(1);
    let destination = bech32(9);
    let utxos = vec![
        output(&a, 1, 0, 40, OutputKind::SignatureLockedSingle),
        output(&a, 1, 1, 70, OutputKind::SignatureLockedSingle),
        output(&a, 1, 2, 5, OutputKind::SignatureLockedDustAllowance),
        output(&a, 1, 3, 2_000_000, OutputKind::SignatureLockedSingle),
        output(&a, 1, 4, 9, OutputKind::Treasury),
    ];
    let accumulated = accumulate_outputs(100, &destination, &utxos);
    assert_eq!(accumulated.output_sum, 100);
    assert_eq!(accumulated.remainder_value, 10 + 5 + 2_000_000 + 9);
    let records: Vec<(u64, String, bool)> = accumulated
        .records
        .iter()
        .map(|r| (r.amount, r.address.clone(), r.created))
        .collect();
    assert_eq!(
        records,
        vec![
            (100, destination.clone(), true),
            (40, a.clone(), false),
            (70, a.clone(), false),
            (5, a.clone(), false),
        ]
    );
    let exact = accumulate_outputs(110, &destination, &utxos[..2].to_vec());
    assert_eq!((exact.output_sum, exact.remainder_value), (110, 0));
    let short = accumulate_outputs(1_000_000, &destination, &utxos[..2].to_vec());
    assert_eq!((short.output_sum, short.remainder_value), (110, 0));
    assert_eq!(short.records.len(), 2);
}

#[test]
fn dust_is_checked_once_for_each_touched_address() {
    let a = bech32(1);
    let destination = bech32(9);
    let utxos = vec![
        output(&a, 1, 0, 40, OutputKind::SignatureLockedSingle),
        output(&a, 1, 1, 70, OutputKind::SignatureLockedSingle),
    ];
    let mut records = accumulate_outputs(100, &destination, &utxos).records;
    note_remainder(&mut records, 10, &a);
    note_remainder(&mut records, 0, &a);
    note_remainder(&mut records, 1_000_000, &a);
    assert_eq!(touched_addresses(&records), vec![destination.clone(), a.clone()]);
    assert_eq!(changes_for(&records, &a), vec![(40, false), (70, false), (10, true)]);
    assert_eq!(changes_for(&records, &destination), vec![(100, true)]);
    assert!(changes_for(&records, &bech32(4)).is_empty());
}

#[test]
fn change_goes_to_the_change_address_of_the_same_key_index() {
    let p0 = bech32(1);
    let p1 = bech32(2);
    let c1 = bech32(3);
    let c0 = bech32(4);
    let destination = bech32(9);
    let account = account(vec![
        address(&p0, 0, false, vec![]),
        address(&c1, 1, true, vec![]),
        address(&p1, 1, false, vec![]),
        address(&c0, 0, true, vec![]),
    ]);
    let asked = Transfer::builder(destination.clone(), 5).finish();
    match remainder_deposit_target(&account, &asked, &p1).unwrap() {
        RemainderTarget::Existing(deposit) => assert_eq!(deposit, c1),
        other => panic!("unexpected target {:?}", other),
    }
    match remainder_deposit_target(&account, &asked, &c0).unwrap() {
        RemainderTarget::Existing(deposit) => assert_eq!(deposit, p1),
        other => panic!("unexpected target {:?}", other),
    }
    let to_latest = Transfer::builder(p1.clone(), 5)
        .with_remainder_value_strategy(RemainderValueStrategy::ChangeAddress)
        .finish();
    assert!(matches!(
        remainder_deposit_target(&account, &to_latest, &c0).unwrap(),
        RemainderTarget::FreshPublicAddress
    ));
    assert!(remainder_deposit_target(&account, &asked, &destination).is_none());
}

#[test]
fn a_fresh_address_is_needed_when_the_latest_was_used() {
    let latest = bech32(1);
    let other = bech32(2);
    assert!(needs_fresh_address(&latest, &latest, &None));
    assert!(needs_fresh_address(&latest, &other, &Some(latest.clone())));
    assert!(!needs_fresh_address(&latest, &other, &Some(other.clone())));
    assert!(!needs_fresh_address(&latest, &other, &None));
}
