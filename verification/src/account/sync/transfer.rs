//! The steps of a transfer between the selection of its inputs and its
//! signature: what the inputs leave over, where that goes, and which
//! addresses the dust rule has to be checked on.

use crate::account::{
    Account, AccountView, address_position, is_latest_address, lemma_address_position,
    lemma_sum_amounts_bounds, sum_amounts,
};
use crate::address::{AddressOutput, AddressOutputView, AddressView, OutputKind, DUST_ALLOWANCE_VALUE};
use crate::message::{RemainderValueStrategy, RemainderValueStrategyView, Transfer, TransferView};
use crate::account::sync::essence::{EssenceOutput, EssenceOutputView};
use crate::account::sync::preparation::{TransferInput, TransferInputView};
use crate::address::OutputId;
use crate::search::{first_position, lemma_first_position};
use crate::signing::{TransactionInput, TransactionInputView, inputs_to_sign, transaction_inputs};
use vstd::prelude::*;

verus! {

/// An output that a transaction creates on an address or consumes from it,
/// noted for the dust rule.
#[derive(Debug)]
pub struct DustRecord {
    /// The amount of the output.
    pub amount: u64,
    /// The address that the output is on, in bech32.
    pub address: String,
    /// Whether the transaction creates the output; else it consumes it.
    pub created: bool,
}

/// A dust record as a mathematical value.
pub ghost struct DustRecordView {
    pub amount: u64,
    pub address: Seq<char>,
    pub created: bool,
}

impl View for DustRecord {
    type V = DustRecordView;

    open spec fn view(&self) -> DustRecordView {
        DustRecordView { amount: self.amount, address: self.address@, created: self.created }
    }
}

impl DeepView for DustRecord {
    type V = DustRecordView;

    open spec fn deep_view(&self) -> DustRecordView {
        self@
    }
}

/// What the dust rule has to know of an output that a transaction
/// consumes: a dust output and a dust-allowance output are noted, any other
/// output is not.
pub open spec fn consumed_record(utxo: AddressOutputView) -> Option<DustRecordView> {
    if (utxo.kind == OutputKind::SignatureLockedSingle && utxo.amount < DUST_ALLOWANCE_VALUE)
        || utxo.kind == OutputKind::SignatureLockedDustAllowance {
        Some(DustRecordView { amount: utxo.amount, address: utxo.address, created: false })
    } else {
        None
    }
}

/// The records of the outputs that a transaction consumes, in their order.
pub open spec fn consumed_records(utxos: Seq<AddressOutputView>) -> Seq<DustRecordView>
    decreases utxos.len(),
{
    if utxos.len() == 0 {
        Seq::empty()
    } else {
        match consumed_record(utxos.last()) {
            Some(record) => consumed_records(utxos.drop_last()).push(record),
            None => consumed_records(utxos.drop_last()),
        }
    }
}

/// The record of the output that pays the destination: noted where the
/// amount is dust.
pub open spec fn destination_records(amount: u64, destination: Seq<char>) -> Seq<DustRecordView> {
    if amount < DUST_ALLOWANCE_VALUE {
        seq![DustRecordView { amount, address: destination, created: true }]
    } else {
        Seq::empty()
    }
}

/// What the consumed outputs hold beyond the amount to send.
pub open spec fn remainder_of(amount: u64, utxos: Seq<AddressOutputView>) -> int {
    if sum_amounts(utxos) > amount {
        sum_amounts(utxos) - amount
    } else {
        0
    }
}

/// What the consumed outputs contribute to the amount to send.
pub open spec fn covered_of(amount: u64, utxos: Seq<AddressOutputView>) -> int {
    if sum_amounts(utxos) > amount {
        amount as int
    } else {
        sum_amounts(utxos)
    }
}

/// What going through the consumed outputs of a transfer yields.
#[derive(Debug)]
pub struct Accumulated {
    /// The part of the amount that the outputs cover.
    pub output_sum: u64,
    /// What the outputs hold beyond the amount.
    pub remainder_value: u64,
    /// The records for the dust rule: the destination's output, then the
    /// consumed outputs.
    pub records: Vec<DustRecord>,
}

/// Goes through the outputs that a transfer of `amount` to `destination`
/// consumes. Outputs fill the amount in their order; the output that
/// crosses it is split, and what it and the later outputs hold beyond the
/// amount is the remainder.
pub fn accumulate_outputs(amount: u64, destination: &String, utxos: &Vec<AddressOutput>) -> (r:
    Accumulated)
    requires
        sum_amounts(utxos.deep_view()) <= u64::MAX,
    ensures
        r.output_sum == covered_of(amount, utxos.deep_view()),
        r.remainder_value == remainder_of(amount, utxos.deep_view()),
        r.records.deep_view() == destination_records(amount, destination@) + consumed_records(
            utxos.deep_view(),
        ),
{
    let ghost view = utxos.deep_view();
    let mut records: Vec<DustRecord> = Vec::new();
    if amount < DUST_ALLOWANCE_VALUE {
        records.push(DustRecord { amount, address: destination.clone(), created: true });
    }
    let mut output_sum: u64 = 0;
    let mut remainder_value: u64 = 0;
    let mut i: usize = 0;
    proof {
        assert(view.take(0) =~= Seq::empty());
        assert(records.deep_view() =~= destination_records(amount, destination@) + consumed_records(
            view.take(0),
        ));
    }
    while i < utxos.len()
        invariant
            i <= utxos.len(),
            view == utxos.deep_view(),
            sum_amounts(view) <= u64::MAX,
            output_sum == covered_of(amount, view.take(i as int)),
            remainder_value == remainder_of(amount, view.take(i as int)),
            records.deep_view() == destination_records(amount, destination@) + consumed_records(
                view.take(i as int),
            ),
        decreases utxos.len() - i,
    {
        let utxo = &utxos[i];
        proof {
            assert(view[i as int] == utxo@);
            assert(view.take(i as int + 1).drop_last() =~= view.take(i as int));
            lemma_sum_amounts_prefix(view, i as int + 1);
            lemma_sum_amounts_bounds(view.take(i as int));
        }
        let noted = match utxo.kind {
            OutputKind::SignatureLockedSingle => utxo.amount < DUST_ALLOWANCE_VALUE,
            OutputKind::SignatureLockedDustAllowance => true,
            OutputKind::Treasury => false,
        };
        if noted {
            let ghost before = records.deep_view();
            records.push(
                DustRecord { amount: utxo.amount, address: utxo.address.clone(), created: false },
            );
            assert(records.deep_view() =~= before.push(consumed_record(utxo@).unwrap()));
        }
        if output_sum == amount {
            remainder_value = remainder_value + utxo.amount;
        } else if utxo.amount > amount - output_sum {
            let missing = amount - output_sum;
            remainder_value = remainder_value + (utxo.amount - missing);
            output_sum = output_sum + missing;
        } else {
            output_sum = output_sum + utxo.amount;
        }
        i += 1;
    }
    assert(view.take(utxos.len() as int) =~= view);
    Accumulated { output_sum, remainder_value, records }
}

/// The amounts of the first outputs of a list add up to no more than those
/// of the whole list.
pub proof fn lemma_sum_amounts_prefix(outputs: Seq<AddressOutputView>, n: int)
    requires
        0 <= n <= outputs.len(),
    ensures
        sum_amounts(outputs.take(n)) <= sum_amounts(outputs),
    decreases outputs.len() - n,
{
    if n < outputs.len() {
        lemma_sum_amounts_prefix(outputs, n + 1);
        assert(outputs.take(n + 1).drop_last() =~= outputs.take(n));
    } else {
        assert(outputs.take(n) =~= outputs);
    }
}

/// Where the remainder of a transfer is deposited.
#[derive(Debug)]
pub enum RemainderTarget {
    /// On this address, which the account has.
    Existing(String),
    /// On a public address that is yet to be generated, which becomes the
    /// account's latest address.
    FreshPublicAddress,
    /// On a change address that is yet to be generated, at the key index of
    /// the address that pays.
    FreshChangeAddress,
}

/// A remainder target as a mathematical value.
pub ghost enum RemainderTargetView {
    Existing(Seq<char>),
    FreshPublicAddress,
    FreshChangeAddress,
}

impl View for RemainderTarget {
    type V = RemainderTargetView;

    open spec fn view(&self) -> RemainderTargetView {
        match self {
            RemainderTarget::Existing(a) => RemainderTargetView::Existing(a@),
            RemainderTarget::FreshPublicAddress => RemainderTargetView::FreshPublicAddress,
            RemainderTarget::FreshChangeAddress => RemainderTargetView::FreshChangeAddress,
        }
    }
}

/// The position of the first change address with key index `key_index`.
pub open spec fn change_address_position(addresses: Seq<AddressView>, key_index: usize) -> Option<
    int,
> {
    first_position(addresses, |a: AddressView| a.internal && a.key_index == key_index)
}

/// Where the remainder goes under the change-address strategy, for the
/// paying address at position `source`: from a change address to the
/// latest address, or to a fresh public address where the latest address
/// is the destination; from a public address to the change address with
/// the same key index, or to a fresh one where there is none.
pub open spec fn change_target(
    addresses: Seq<AddressView>,
    destination: Seq<char>,
    source: int,
    latest: int,
) -> RemainderTargetView {
    if addresses[source].internal {
        if addresses[latest].address == destination {
            RemainderTargetView::FreshPublicAddress
        } else {
            RemainderTargetView::Existing(addresses[latest].address)
        }
    } else {
        match change_address_position(addresses, addresses[source].key_index) {
            Some(i) => RemainderTargetView::Existing(addresses[i].address),
            None => RemainderTargetView::FreshChangeAddress,
        }
    }
}

/// Where the remainder of `transfer` goes, when the address that reads
/// `source` paid last: to the address that the user named, back to the
/// paying address, or to a change address.
pub open spec fn remainder_target(
    account: AccountView,
    transfer: TransferView,
    source: Seq<char>,
    target: RemainderTargetView,
) -> bool {
    match transfer.remainder_value_strategy {
        RemainderValueStrategyView::AccountAddress(a) => target == RemainderTargetView::Existing(a),
        RemainderValueStrategyView::ReuseAddress => target == RemainderTargetView::Existing(source),
        RemainderValueStrategyView::ChangeAddress => exists|latest: int|
            {
                &&& #[trigger] is_latest_address(account.addresses, latest)
                &&& address_position(account.addresses, source) matches Some(at)
                &&& target == change_target(account.addresses, transfer.address, at, latest)
            },
    }
}

/// Decides where the remainder of a transfer is deposited. There is no
/// answer where the paying address is not one of the account's, or where a
/// change address paid and the account has no public address.
#[verifier::loop_isolation(false)]
pub fn remainder_deposit_target(account: &Account, transfer: &Transfer, source: &String) -> (r:
    Option<RemainderTarget>)
    ensures
        match r {
            Some(target) => account@.owns(source@) && remainder_target(
                account@,
                transfer@,
                source@,
                target@,
            ),
            None => {
                ||| !account@.owns(source@)
                ||| (transfer@.remainder_value_strategy is ChangeAddress
                    && !crate::account::has_public_address(account@.addresses))
            },
        },
{
    let at = match account.find_address(source) {
        Some(at) => at,
        None => {
            return None;
        },
    };
    proof {
        lemma_address_position(account@.addresses, source@);
    }
    let paying = &account.addresses[at];
    assert(account@.addresses[at as int] == paying@);
    match &transfer.remainder_value_strategy {
        RemainderValueStrategy::AccountAddress(a) => Some(RemainderTarget::Existing(a.clone())),
        RemainderValueStrategy::ReuseAddress => Some(RemainderTarget::Existing(paying.address.clone())),
        RemainderValueStrategy::ChangeAddress => {
            let latest = match account.latest_address() {
                Some(latest) => latest,
                None => {
                    return None;
                },
            };
            assert(account@.addresses[latest as int] == account.addresses@[latest as int]@);
            if paying.internal {
                if account.addresses[latest].address == transfer.address {
                    Some(RemainderTarget::FreshPublicAddress)
                } else {
                    Some(RemainderTarget::Existing(account.addresses[latest].address.clone()))
                }
            } else {
                let ghost wanted = |a: AddressView| a.internal && a.key_index == paying.key_index;
                let mut i: usize = 0;
                while i < account.addresses.len()
                    invariant
                        i <= account.addresses.len(),
                        forall|j: int|
                            0 <= j < i ==> !((#[trigger] account@.addresses[j]).internal
                                && account@.addresses[j].key_index == paying.key_index),
                    decreases account.addresses.len() - i,
                {
                    let candidate = &account.addresses[i];
                    assert(account@.addresses[i as int] == candidate@);
                    if candidate.internal && candidate.key_index == paying.key_index {
                        proof {
                            lemma_change_address_position(account@.addresses, paying.key_index);
                            let found = change_address_position(
                                account@.addresses,
                                paying.key_index,
                            );
                            assert(found.is_some());
                            assert(account@.addresses[found.unwrap()].internal);
                            assert(found == Some(i as int));
                            assert(is_latest_address(account@.addresses, latest as int));
                        }
                        return Some(RemainderTarget::Existing(candidate.address.clone()));
                    }
                    i += 1;
                }
                proof {
                    lemma_change_address_position(account@.addresses, paying.key_index);
                }
                Some(RemainderTarget::FreshChangeAddress)
            }
        },
    }
}

/// What `change_address_position` finds is the first change address with
/// the key index, and it finds nothing only where there is none.
pub proof fn lemma_change_address_position(addresses: Seq<AddressView>, key_index: usize)
    ensures
        match change_address_position(addresses, key_index) {
            Some(i) => {
                &&& 0 <= i < addresses.len()
                &&& addresses[i].internal
                &&& addresses[i].key_index == key_index
                &&& forall|j: int|
                    0 <= j < i ==> !((#[trigger] addresses[j]).internal && addresses[j].key_index
                        == key_index)
            },
            None => forall|j: int|
                0 <= j < addresses.len() ==> !((#[trigger] addresses[j]).internal
                    && addresses[j].key_index == key_index),
        },
{
    lemma_first_position(addresses, |a: AddressView| a.internal && a.key_index == key_index);
}

/// The record of the remainder's output: noted where there is a remainder
/// and it is dust.
pub open spec fn remainder_records(remainder_value: u64, deposit: Seq<char>) -> Seq<DustRecordView> {
    if 0 < remainder_value < DUST_ALLOWANCE_VALUE {
        seq![DustRecordView { amount: remainder_value, address: deposit, created: true }]
    } else {
        Seq::empty()
    }
}

/// Notes the output that carries the remainder to `deposit`, where it is
/// dust.
pub fn note_remainder(records: &mut Vec<DustRecord>, remainder_value: u64, deposit: &String)
    ensures
        final(records).deep_view() == old(records).deep_view() + remainder_records(
            remainder_value,
            deposit@,
        ),
{
    if remainder_value > 0 && remainder_value < DUST_ALLOWANCE_VALUE {
        records.push(DustRecord { amount: remainder_value, address: deposit.clone(), created: true });
        assert(records.deep_view() =~= old(records).deep_view() + remainder_records(
            remainder_value,
            deposit@,
        ));
    } else {
        assert(records.deep_view() =~= old(records).deep_view() + remainder_records(
            remainder_value,
            deposit@,
        ));
    }
}

/// The addresses of the records, each once, in the order in which they
/// first occur.
pub open spec fn touched(records: Seq<DustRecordView>) -> Seq<Seq<char>>
    decreases records.len(),
{
    if records.len() == 0 {
        Seq::empty()
    } else {
        let before = touched(records.drop_last());
        if before.contains(records.last().address) {
            before
        } else {
            before.push(records.last().address)
        }
    }
}

/// The changes that the records note for `address`, in their order, each as
/// amount and whether it is created.
pub open spec fn changes_on(records: Seq<DustRecordView>, address: Seq<char>) -> Seq<(u64, bool)> {
    records.filter(|r: DustRecordView| r.address == address).map_values(
        |r: DustRecordView| (r.amount, r.created),
    )
}

/// The views of a list of strings.
pub open spec fn strings_view(strings: Seq<String>) -> Seq<Seq<char>> {
    Seq::new(strings.len(), |i: int| strings[i]@)
}

/// Whether `list` holds a string that reads `wanted`.
pub fn contains_string(list: &Vec<String>, wanted: &String) -> (r: bool)
    ensures
        r == strings_view(list@).contains(wanted@),
{
    let mut i: usize = 0;
    while i < list.len()
        invariant
            i <= list.len(),
            forall|j: int| 0 <= j < i ==> strings_view(list@)[j] != wanted@,
        decreases list.len() - i,
    {
        if list[i] == *wanted {
            assert(strings_view(list@)[i as int] == wanted@);
            return true;
        }
        i += 1;
    }
    false
}

/// The addresses that the dust rule has to be checked on: each address
/// that a record names, once.
pub fn touched_addresses(records: &Vec<DustRecord>) -> (r: Vec<String>)
    ensures
        strings_view(r@) == touched(records.deep_view()),
        strings_view(r@).no_duplicates(),
{
    let ghost view = records.deep_view();
    let mut found: Vec<String> = Vec::new();
    let mut i: usize = 0;
    proof {
        assert(view.take(0) =~= Seq::empty());
        assert(strings_view(found@) =~= touched(view.take(0)));
    }
    while i < records.len()
        invariant
            i <= records.len(),
            view == records.deep_view(),
            strings_view(found@) == touched(view.take(i as int)),
            strings_view(found@).no_duplicates(),
        decreases records.len() - i,
    {
        let record = &records[i];
        proof {
            assert(view[i as int] == record@);
            assert(view.take(i as int + 1).drop_last() =~= view.take(i as int));
        }
        if !contains_string(&found, &record.address) {
            let ghost before = strings_view(found@);
            found.push(record.address.clone());
            assert(strings_view(found@) =~= before.push(record@.address));
        }
        i += 1;
    }
    assert(view.take(records.len() as int) =~= view);
    found
}

/// The changes that the records note for `address`.
pub fn changes_for(records: &Vec<DustRecord>, address: &String) -> (r: Vec<(u64, bool)>)
    ensures
        r@ == changes_on(records.deep_view(), address@),
{
    let ghost view = records.deep_view();
    let ghost on = |r: DustRecordView| r.address == address@;
    let ghost pair = |r: DustRecordView| (r.amount, r.created);
    let mut found: Vec<(u64, bool)> = Vec::new();
    let mut i: usize = 0;
    proof {
        assert(view.take(0) =~= Seq::empty());
        assert(found@ =~= view.take(0).filter(on).map_values(pair));
    }
    while i < records.len()
        invariant
            i <= records.len(),
            view == records.deep_view(),
            on == |r: DustRecordView| r.address == address@,
            pair == |r: DustRecordView| (r.amount, r.created),
            found@ == view.take(i as int).filter(on).map_values(pair),
        decreases records.len() - i,
    {
        let record = &records[i];
        proof {
            assert(view[i as int] == record@);
            assert(view.take(i as int + 1).drop_last() =~= view.take(i as int));
            reveal(Seq::filter);
        }
        if record.address == *address {
            found.push((record.amount, record.created));
            assert(found@ =~= view.take(i as int + 1).filter(on).map_values(pair));
        }
        i += 1;
    }
    assert(view.take(records.len() as int) =~= view);
    found
}

/// Whether the account needs a fresh latest address after a transfer: it
/// does where the latest address received the amount or the remainder, so
/// that the latest address stays unused.
pub fn needs_fresh_address(latest: &String, destination: &String, deposit: &Option<String>) -> (r:
    bool)
    ensures
        r == (latest@ == destination@ || (deposit matches Some(d) && d@ == latest@)),
{
    if *latest == *destination {
        return true;
    }
    match deposit {
        Some(d) => *d == *latest,
        None => false,
    }
}

/// The outputs that the inputs to sign consume, in order.
pub open spec fn consumed_outputs(inputs: Seq<TransactionInputView>) -> Seq<AddressOutputView> {
    inputs.map_values(|i: TransactionInputView| i.utxo)
}

/// The identifiers of the outputs that the inputs to sign consume, in
/// order.
pub open spec fn consumed_ids(inputs: Seq<TransactionInputView>) -> Seq<(Seq<u8>, u16)> {
    inputs.map_values(|i: TransactionInputView| i.utxo.id())
}

/// What a transfer consumes and what that leaves over.
#[derive(Debug)]
pub struct TransferPlan {
    /// The consumed outputs as the signer needs them.
    pub inputs: Vec<TransactionInput>,
    /// The part of the amount that the outputs cover.
    pub output_sum: u64,
    /// What the outputs hold beyond the amount.
    pub remainder_value: u64,
    /// The records for the dust rule: the destination's output, then the
    /// consumed outputs.
    pub records: Vec<DustRecord>,
}

/// The consumed outputs can be planned with: they can be listed for the
/// signer, and their amounts add up to a number of 64 bits.
pub open spec fn can_plan(account: AccountView, paying: Seq<TransferInputView>) -> bool {
    inputs_to_sign(account, paying) matches Some(inputs) && sum_amounts(consumed_outputs(inputs))
        <= u64::MAX
}

/// Plans a transfer of `amount` to `destination` that the addresses in
/// `paying` pay: lists what it consumes and works out what that leaves
/// over. There is no plan where a paying address is not one of the
/// account's, where the path of a key cannot be had, or where the consumed
/// amounts add up to more than 64 bits hold.
pub fn plan_transfer(account: &Account, amount: u64, destination: &String, paying: &Vec<TransferInput>) -> (r:
    Option<TransferPlan>)
    ensures
        match r {
            Some(plan) => {
                let utxos = consumed_outputs(plan.inputs.deep_view());
                &&& can_plan(account@, paying.deep_view())
                &&& inputs_to_sign(account@, paying.deep_view()) == Some(plan.inputs.deep_view())
                &&& plan.output_sum == covered_of(amount, utxos)
                &&& plan.remainder_value == remainder_of(amount, utxos)
                &&& plan.records.deep_view() == destination_records(amount, destination@)
                    + consumed_records(utxos)
            },
            None => !can_plan(account@, paying.deep_view()),
        },
{
    let inputs = match transaction_inputs(account, paying) {
        Some(inputs) => inputs,
        None => {
            return None;
        },
    };
    let ghost view = inputs.deep_view();
    let mut utxos: Vec<AddressOutput> = Vec::new();
    let mut i: usize = 0;
    while i < inputs.len()
        invariant
            i <= inputs.len(),
            view == inputs.deep_view(),
            utxos.len() == i,
            forall|k: int| 0 <= k < i ==> utxos.deep_view()[k] == (#[trigger] view[k]).utxo,
        decreases inputs.len() - i,
    {
        let ghost before = utxos.deep_view();
        assert(view[i as int] == inputs@[i as int]@);
        utxos.push(inputs[i].utxo.clone());
        proof {
            assert forall|k: int| 0 <= k < i + 1 implies utxos.deep_view()[k] == (#[trigger] view[k]).utxo by {
                if k < i {
                    assert(utxos.deep_view()[k] == before[k]);
                }
            }
        }
        i += 1;
    }
    assert(utxos.deep_view() =~= consumed_outputs(view));
    if crate::account::sum_output_amounts(&utxos) > u64::MAX as u128 {
        return None;
    }
    let accumulated = accumulate_outputs(amount, destination, &utxos);
    Some(
        TransferPlan {
            inputs,
            output_sum: accumulated.output_sum,
            remainder_value: accumulated.remainder_value,
            records: accumulated.records,
        },
    )
}

/// The outputs of the transaction of a transfer: the amount for the
/// destination and, where there is a remainder, the remainder for the
/// address it is deposited on.
pub open spec fn outputs_of_transfer(
    destination: Seq<char>,
    amount: u64,
    remainder_value: u64,
    deposit: Seq<char>,
) -> Seq<EssenceOutputView> {
    if remainder_value > 0 {
        seq![
            EssenceOutputView { address: destination, amount },
            EssenceOutputView { address: deposit, amount: remainder_value },
        ]
    } else {
        seq![EssenceOutputView { address: destination, amount }]
    }
}

/// The outputs of the transaction of a transfer, before they are put in
/// order.
pub fn transfer_outputs(destination: &String, amount: u64, remainder_value: u64, deposit: &String) -> (r:
    Vec<EssenceOutput>)
    ensures
        r.deep_view() == outputs_of_transfer(destination@, amount, remainder_value, deposit@),
{
    let mut outputs: Vec<EssenceOutput> = Vec::new();
    outputs.push(EssenceOutput { address: destination.clone(), amount });
    if remainder_value > 0 {
        outputs.push(EssenceOutput { address: deposit.clone(), amount: remainder_value });
    }
    assert(outputs.deep_view() =~= outputs_of_transfer(
        destination@,
        amount,
        remainder_value,
        deposit@,
    ));
    outputs
}

/// The identifiers of the outputs that a plan consumes, before they are
/// put in order.
pub fn transfer_input_ids(inputs: &Vec<TransactionInput>) -> (r: Vec<OutputId>)
    ensures
        crate::account::sync::essence::ids_view(r@) == consumed_ids(inputs.deep_view()),
{
    let ghost view = inputs.deep_view();
    let mut ids: Vec<OutputId> = Vec::new();
    let mut i: usize = 0;
    while i < inputs.len()
        invariant
            i <= inputs.len(),
            view == inputs.deep_view(),
            ids.len() == i,
            forall|k: int| 0 <= k < i ==> ids@[k]@ == (#[trigger] view[k]).utxo.id(),
        decreases inputs.len() - i,
    {
        assert(view[i as int] == inputs@[i as int]@);
        ids.push(inputs[i].utxo.id());
        i += 1;
    }
    assert(crate::account::sync::essence::ids_view(ids@) =~= consumed_ids(view));
    ids
}

/// The outputs of addresses that the account does not own, each address
/// with its unspent outputs as amount and kind, as the node reported them.
pub open spec fn foreign_view(foreign: Seq<(String, Vec<(u64, OutputKind)>)>) -> Seq<
    (Seq<char>, Seq<(u64, OutputKind)>),
> {
    Seq::new(foreign.len(), |i: int| (foreign[i].0@, foreign[i].1@))
}

/// The property of being the report on `address`.
pub open spec fn reports_on(address: Seq<char>) -> spec_fn((Seq<char>, Seq<(u64, OutputKind)>)) -> bool {
    |report: (Seq<char>, Seq<(u64, OutputKind)>)| report.0 == address
}

/// The outputs that the dust rule is checked against on an address: the
/// unspent outputs that the account holds for it; for an address of
/// somebody else, those of the first report on it, or none where there is no
/// report.
pub open spec fn outputs_for_dust(
    account: AccountView,
    foreign: Seq<(Seq<char>, Seq<(u64, OutputKind)>)>,
    address: Seq<char>,
) -> Seq<(u64, OutputKind)> {
    match address_position(account.addresses, address) {
        Some(i) => crate::account::sync::dust::unspent_amounts(account.addresses[i].outputs),
        None => match first_position(foreign, reports_on(address)) {
            Some(j) => foreign[j].1,
            None => Seq::empty(),
        },
    }
}

/// The transaction that the records describe would leave more dust on
/// `address` than its allowance permits.
pub open spec fn is_refused_on(
    account: AccountView,
    foreign: Seq<(Seq<char>, Seq<(u64, OutputKind)>)>,
    records: Seq<DustRecordView>,
    address: Seq<char>,
) -> bool {
    !crate::account::sync::dust::dust_allowed(
        outputs_for_dust(account, foreign, address),
        changes_on(records, address),
    )
}

/// The property of being an address that the transaction is refused on.
pub open spec fn refused_on(
    account: AccountView,
    foreign: Seq<(Seq<char>, Seq<(u64, OutputKind)>)>,
    records: Seq<DustRecordView>,
) -> spec_fn(Seq<char>) -> bool {
    |address: Seq<char>| is_refused_on(account, foreign, records, address)
}

/// The touched addresses that the account does not own. The node has to
/// report their outputs before the dust rule can be checked.
pub fn addresses_to_ask_for(account: &Account, records: &Vec<DustRecord>) -> (r: Vec<String>)
    ensures
        strings_view(r@) == touched(records.deep_view()).filter(|a: Seq<char>| !account@.owns(a)),
{
    let all = touched_addresses(records);
    let ghost view = strings_view(all@);
    let ghost foreign = |a: Seq<char>| !account@.owns(a);
    let mut found: Vec<String> = Vec::new();
    let mut i: usize = 0;
    proof {
        assert(view.take(0) =~= Seq::empty());
        assert(strings_view(found@) =~= view.take(0).filter(foreign));
    }
    while i < all.len()
        invariant
            i <= all.len(),
            view == strings_view(all@),
            foreign == |a: Seq<char>| !account@.owns(a),
            strings_view(found@) == view.take(i as int).filter(foreign),
        decreases all.len() - i,
    {
        proof {
            assert(view[i as int] == all@[i as int]@);
            assert(view.take(i as int + 1).drop_last() =~= view.take(i as int));
            reveal(Seq::filter);
        }
        if account.find_address(&all[i]).is_none() {
            let ghost before = strings_view(found@);
            found.push(all[i].clone());
            assert(strings_view(found@) =~= before.push(all@[i as int]@));
        }
        i += 1;
    }
    assert(view.take(all.len() as int) =~= view);
    found
}

/// The outputs that the dust rule is checked against on an address.
#[verifier::loop_isolation(false)]
fn dust_outputs(account: &Account, foreign: &Vec<(String, Vec<(u64, OutputKind)>)>, address: &String) -> (r:
    Vec<(u64, OutputKind)>)
    ensures
        r@ == outputs_for_dust(account@, foreign_view(foreign@), address@),
{
    match crate::account::sync::dust::known_dust_outputs(account, address) {
        Some(known) => known,
        None => {
            let ghost reports = foreign_view(foreign@);
            let mut i: usize = 0;
            while i < foreign.len()
                invariant
                    i <= foreign.len(),
                    reports == foreign_view(foreign@),
                    forall|j: int| 0 <= j < i ==> (#[trigger] reports[j]).0 != address@,
                decreases foreign.len() - i,
            {
                assert(reports[i as int] == (foreign@[i as int].0@, foreign@[i as int].1@));
                if foreign[i].0 == *address {
                    proof {
                        lemma_first_position(reports, reports_on(address@));
                    }
                    let mut copy: Vec<(u64, OutputKind)> = Vec::new();
                    let mut k: usize = 0;
                    while k < foreign[i].1.len()
                        invariant
                            i < foreign.len(),
                            k <= foreign@[i as int].1.len(),
                            copy@ == foreign@[i as int].1@.take(k as int),
                        decreases foreign@[i as int].1.len() - k,
                    {
                        copy.push(foreign[i].1[k]);
                        assert(copy@ =~= foreign@[i as int].1@.take(k as int + 1));
                        k += 1;
                    }
                    assert(foreign@[i as int].1@.take(foreign@[i as int].1.len() as int)
                        =~= foreign@[i as int].1@);
                    return copy;
                }
                i += 1;
            }
            proof {
                lemma_first_position(reports, reports_on(address@));
            }
            Vec::new()
        },
    }
}

/// Checks the dust rule on every address that the transaction touches, in
/// the order in which the records first name them. The transaction is
/// refused on the first address that it would leave with more dust than
/// its allowance permits.
pub fn check_dust(account: &Account, records: &Vec<DustRecord>, foreign: &Vec<(String, Vec<(u64, OutputKind)>)>) -> (r:
    Result<(), crate::error::Error>)
    ensures
        match first_position(
            touched(records.deep_view()),
            refused_on(account@, foreign_view(foreign@), records.deep_view()),
        ) {
            Some(i) => r matches Err(crate::error::Error::DustError(address)) && address@ == touched(
                records.deep_view(),
            )[i],
            None => r.is_ok(),
        },
{
    let all = touched_addresses(records);
    let ghost view = strings_view(all@);
    let ghost refused = refused_on(account@, foreign_view(foreign@), records.deep_view());
    let mut i: usize = 0;
    while i < all.len()
        invariant
            i <= all.len(),
            view == strings_view(all@),
            view == touched(records.deep_view()),
            refused == refused_on(account@, foreign_view(foreign@), records.deep_view()),
            forall|j: int| 0 <= j < i ==> !refused(#[trigger] view[j]),
        decreases all.len() - i,
    {
        assert(view[i as int] == all@[i as int]@);
        let current = dust_outputs(account, foreign, &all[i]);
        let changes = changes_for(records, &all[i]);
        match crate::account::sync::dust::is_dust_allowed(all[i].clone(), &current, changes) {
            Ok(_) => {},
            Err(e) => {
                proof {
                    assert(refused(view[i as int]));
                    lemma_first_position(view, refused);
                }
                return Err(e);
            },
        }
        i += 1;
    }
    proof {
        lemma_first_position(view, refused);
    }
    Ok(())
}

} // verus!
