//! The first steps of a transfer: its preconditions, the choice of the
//! addresses that pay, and the pledge that keeps two transfers in flight
//! from paying with the same address.

use crate::account::sync::input_selection::{
    Input, InputView, select_input, selected_from, sum_balances,
};
use crate::account::sync::transfer::{contains_string, strings_view};
use crate::account::{
    Account, AccountView, address_position, available_balance, available_outputs,
    lemma_address_position, sum_amounts, sum_output_amounts, total_balance,
};
use crate::address::{AddressOutput, AddressOutputView, AddressView};
use crate::error::Error;
use crate::message::{RemainderValueStrategy, RemainderValueStrategyView, Transfer, TransferView};
use vstd::prelude::*;

verus! {

/// An amount as it fits into 64 bits: itself, or the largest such number
/// where it is larger.
pub open spec fn clamped(amount: int) -> u64 {
    if amount > u64::MAX {
        u64::MAX
    } else if amount < 0 {
        0
    } else {
        amount as u64
    }
}

/// An amount as it fits into 64 bits.
pub fn clamp_amount(amount: u128) -> (r: u64)
    ensures
        r == clamped(amount as int),
{
    if amount > u64::MAX as u128 {
        u64::MAX
    } else {
        amount as u64
    }
}

/// Whether an address may pay for a transfer to `destination`: it has
/// funds that can be spent, no transfer in flight has pledged it, and it
/// is not the destination, unless that is allowed and the destination
/// holds more than one spendable output.
pub open spec fn is_candidate(
    account: AccountView,
    locked: Seq<Seq<char>>,
    destination: Seq<char>,
    allow_destination: bool,
    address: AddressView,
) -> bool {
    &&& address.address != destination || (allow_destination && available_outputs(
        account.messages,
        address.outputs,
    ).len() > 1)
    &&& available_balance(account.messages, address) > 0
    &&& !locked.contains(address.address)
}

/// An address as a candidate for selection, with what of it can be spent.
pub open spec fn candidate_input(account: AccountView, address: AddressView) -> InputView {
    InputView {
        address: address.address,
        internal: address.internal,
        balance: clamped(available_balance(account.messages, address)),
        key_index: address.key_index,
    }
}

/// The addresses of the account that may pay for a transfer to
/// `destination`, in the account's order.
pub open spec fn candidates(
    account: AccountView,
    locked: Seq<Seq<char>>,
    destination: Seq<char>,
    allow_destination: bool,
) -> Seq<InputView> {
    account.addresses.filter(
        |a: AddressView| is_candidate(account, locked, destination, allow_destination, a),
    ).map_values(|a: AddressView| candidate_input(account, a))
}

/// The addresses of the selected inputs, in order.
pub open spec fn input_addresses(selected: Seq<InputView>) -> Seq<Seq<char>> {
    selected.map_values(|i: InputView| i.address)
}

/// The second selection, without the destination, is the one that counts:
/// the first left a remainder, the remainder stays on the paying address,
/// and the destination is one of the account's addresses.
pub open spec fn selects_again(account: AccountView, transfer: TransferView, first: Seq<InputView>) -> bool {
    &&& sum_balances(first) > transfer.amount
    &&& transfer.remainder_value_strategy is ReuseAddress
    &&& account.owns(transfer.address)
}

/// `selected` and `remainder` are what the choice of inputs for `transfer`
/// yields while `locked` is pledged. The inputs are selected among the
/// candidates; where the second selection counts they are selected again
/// among the candidates without the destination. The remainder is paid by
/// the last input, where the first selection left one.
pub open spec fn inputs_chosen(
    account: AccountView,
    locked: Seq<Seq<char>>,
    transfer: TransferView,
    selected: Seq<InputView>,
    remainder: Option<InputView>,
) -> bool {
    exists|first: Seq<InputView>|
        {
            &&& #[trigger] selected_from(
                candidates(account, locked, transfer.address, true),
                transfer.amount,
                first,
            )
            &&& if selects_again(account, transfer, first) {
                selected_from(
                    candidates(account, locked, transfer.address, false),
                    transfer.amount,
                    selected,
                )
            } else {
                selected == first
            }
            &&& remainder == if sum_balances(first) > transfer.amount && selected.len() > 0 {
                Some(selected.last())
            } else {
                None
            }
        }
}

/// No inputs can be chosen for `transfer` while `locked` is pledged: the
/// candidates do not cover the amount, or the second selection counts and
/// the candidates without the destination do not cover it.
pub open spec fn inputs_lacking(account: AccountView, locked: Seq<Seq<char>>, transfer: TransferView) -> bool {
    ||| sum_balances(candidates(account, locked, transfer.address, true)) < transfer.amount
    ||| exists|first: Seq<InputView>|
        {
            &&& #[trigger] selected_from(
                candidates(account, locked, transfer.address, true),
                transfer.amount,
                first,
            )
            &&& selects_again(account, transfer, first)
            &&& sum_balances(candidates(account, locked, transfer.address, false))
                < transfer.amount
        }
}

/// The pledge of a transfer: none of the addresses it selected was pledged
/// before, and all of them are pledged after.
pub open spec fn pledged(before: Seq<Seq<char>>, selected: Seq<InputView>, after: Seq<Seq<char>>) -> bool {
    &&& forall|k: int| 0 <= k < selected.len() ==> !before.contains((#[trigger] selected[k]).address)
    &&& after == before + input_addresses(selected)
}

/// The candidates for a transfer, each with what of it can be spent.
pub fn available_inputs(
    account: &Account,
    locked: &Vec<String>,
    destination: &String,
    allow_destination: bool,
) -> (r: Vec<Input>)
    ensures
        r.deep_view() == candidates(account@, strings_view(locked@), destination@, allow_destination),
{
    let ghost addresses = account@.addresses;
    let ghost keep = |a: AddressView|
        is_candidate(account@, strings_view(locked@), destination@, allow_destination, a);
    let ghost make = |a: AddressView| candidate_input(account@, a);
    let mut found: Vec<Input> = Vec::new();
    let mut i: usize = 0;
    proof {
        assert(addresses.take(0) =~= Seq::empty());
        assert(found.deep_view() =~= addresses.take(0).filter(keep).map_values(make));
    }
    while i < account.addresses.len()
        invariant
            i <= account.addresses.len(),
            addresses == account@.addresses,
            keep == |a: AddressView|
                is_candidate(account@, strings_view(locked@), destination@, allow_destination, a),
            make == |a: AddressView| candidate_input(account@, a),
            found.deep_view() == addresses.take(i as int).filter(keep).map_values(make),
        decreases account.addresses.len() - i,
    {
        let address = &account.addresses[i];
        proof {
            assert(addresses[i as int] == address@);
            assert(addresses.take(i as int + 1).drop_last() =~= addresses.take(i as int));
            reveal(Seq::filter);
        }
        let outputs = account.available_outputs(i);
        let balance = sum_output_amounts(&outputs);
        let is_destination = address.address == *destination;
        let may_pay = (!is_destination || (allow_destination && outputs.len() > 1)) && balance > 0
            && !contains_string(locked, &address.address);
        assert(may_pay == keep(address@));
        if may_pay {
            let ghost before = found.deep_view();
            found.push(
                Input {
                    address: address.address.clone(),
                    internal: address.internal,
                    balance: clamp_amount(balance),
                    key_index: address.key_index,
                },
            );
            assert(found.deep_view() =~= before.push(make(address@)));
            assert(found.deep_view() =~= addresses.take(i as int + 1).filter(keep).map_values(make));
        }
        i += 1;
    }
    assert(addresses.take(account.addresses.len() as int) =~= addresses);
    found
}

/// The sum of the balances of `inputs`.
fn balance_of(inputs: &Vec<Input>) -> (r: u128)
    ensures
        r == sum_balances(inputs.deep_view()),
{
    let ghost view = inputs.deep_view();
    let mut total: u128 = 0;
    let mut i: usize = 0;
    while i < inputs.len()
        invariant
            i <= inputs.len(),
            view == inputs.deep_view(),
            total == sum_balances(view.take(i as int)),
            total <= i * u64::MAX,
        decreases inputs.len() - i,
    {
        proof {
            assert(view.take(i as int + 1).drop_last() =~= view.take(i as int));
            assert(i * u64::MAX + u64::MAX == (i + 1) * u64::MAX) by (nonlinear_arith);
            assert(i * u64::MAX + u64::MAX <= u64::MAX * u64::MAX + u64::MAX) by (nonlinear_arith)
                requires
                    i <= u64::MAX,
            ;
            assert(u64::MAX * u64::MAX + u64::MAX < u128::MAX);
        }
        total = total + inputs[i].balance as u128;
        i += 1;
    }
    assert(view.take(inputs.len() as int) =~= view);
    total
}

/// Chooses the addresses that pay for `transfer` and pledges them, so that
/// no other transfer chooses them while this one is in flight. Nothing is
/// pledged where the choice fails.
pub fn select_inputs(locked_addresses: &mut Vec<String>, transfer: &Transfer, account: &Account) -> (r:
    Result<(Vec<Input>, Option<Input>), Error>)
    ensures
        match r {
            Ok((selected, remainder)) => {
                &&& inputs_chosen(
                    account@,
                    strings_view(old(locked_addresses)@),
                    transfer@,
                    selected.deep_view(),
                    remainder.deep_view(),
                )
                &&& pledged(
                    strings_view(old(locked_addresses)@),
                    selected.deep_view(),
                    strings_view(final(locked_addresses)@),
                )
                &&& sum_balances(selected.deep_view()) >= transfer@.amount
            },
            Err(e) => {
                &&& e is InsufficientFunds
                &&& inputs_lacking(account@, strings_view(old(locked_addresses)@), transfer@)
                &&& final(locked_addresses)@ == old(locked_addresses)@
            },
        },
{
    let ghost locked = strings_view(locked_addresses@);
    let pool = available_inputs(account, locked_addresses, &transfer.address, true);
    let ghost first_pool = pool.deep_view();
    let mut selected = match select_input(transfer.amount, pool) {
        Ok(selected) => selected,
        Err(e) => {
            return Err(Error::InsufficientFunds);
        },
    };
    let ghost first = selected.deep_view();
    let ghost mut again = false;
    let has_remainder = balance_of(&selected) > transfer.amount as u128;
    let reuses = match &transfer.remainder_value_strategy {
        RemainderValueStrategy::ReuseAddress => true,
        _ => false,
    };
    if has_remainder && reuses && account.find_address(&transfer.address).is_some() {
        let pool = available_inputs(account, locked_addresses, &transfer.address, false);
        proof {
            again = true;
        }
        selected = match select_input(transfer.amount, pool) {
            Ok(selected) => selected,
            Err(e) => {
                return Err(Error::InsufficientFunds);
            },
        };
    }
    proof {
        assert(again == selects_again(account@, transfer@, first));
        lemma_selected_are_candidates(
            account@,
            locked,
            transfer@.address,
            !again,
            transfer.amount,
            selected.deep_view(),
        );
    }
    let mut i: usize = 0;
    while i < selected.len()
        invariant
            i <= selected.len(),
            strings_view(locked_addresses@) == locked + input_addresses(
                selected.deep_view().take(i as int),
            ),
        decreases selected.len() - i,
    {
        let ghost before = strings_view(locked_addresses@);
        locked_addresses.push(selected[i].address.clone());
        proof {
            assert(strings_view(locked_addresses@) =~= before.push(selected@[i as int]@.address));
            assert(input_addresses(selected.deep_view().take(i as int + 1)) =~= input_addresses(
                selected.deep_view().take(i as int),
            ).push(selected@[i as int]@.address));
            assert(strings_view(locked_addresses@) =~= locked + input_addresses(
                selected.deep_view().take(i as int + 1),
            ));
        }
        i += 1;
    }
    assert(selected.deep_view().take(selected.len() as int) =~= selected.deep_view());
    let remainder = if has_remainder && selected.len() > 0 {
        Some(selected[selected.len() - 1].clone())
    } else {
        None
    };
    proof {
        assert(selected_from(
            candidates(account@, locked, transfer@.address, true),
            transfer@.amount,
            first,
        ));
        assert(remainder.deep_view() == if sum_balances(first) > transfer@.amount
            && selected.deep_view().len() > 0 {
            Some(selected.deep_view().last())
        } else {
            None
        });
        assert(inputs_chosen(
            account@,
            locked,
            transfer@,
            selected.deep_view(),
            remainder.deep_view(),
        ));
    }
    Ok((selected, remainder))
}

/// What is selected among the candidates is a candidate, so no transfer in
/// flight has pledged it.
pub proof fn lemma_selected_are_candidates(
    account: AccountView,
    locked: Seq<Seq<char>>,
    destination: Seq<char>,
    allow_destination: bool,
    target: u64,
    selected: Seq<InputView>,
)
    requires
        selected_from(candidates(account, locked, destination, allow_destination), target, selected),
    ensures
        forall|k: int| 0 <= k < selected.len() ==> !locked.contains((#[trigger] selected[k]).address),
{
    let pool = candidates(account, locked, destination, allow_destination);
    let keep = |a: AddressView| is_candidate(account, locked, destination, allow_destination, a);
    let kept = account.addresses.filter(keep);
    let picks = choose|picks: Seq<int>|
        #![trigger crate::account::sync::input_selection::is_selection(pool, target, picks)]
        crate::account::sync::input_selection::is_selection(pool, target, picks) && selected
            == crate::account::sync::input_selection::picked(pool, picks);
    assert forall|k: int| 0 <= k < selected.len() implies !locked.contains(
        (#[trigger] selected[k]).address,
    ) by {
        let at = picks[k];
        assert(0 <= at < pool.len());
        account.addresses.lemma_filter_pred(keep, at);
        assert(keep(kept[at]));
        assert(selected[k] == pool[at]);
        assert(pool[at].address == kept[at].address);
    }
}

/// Two transfers in flight never pay with the same address: what the
/// second selects while the pledge of the first stands is none of what the
/// first selected.
pub proof fn lemma_in_flight_disjoint(
    before_first: Seq<Seq<char>>,
    first: Seq<InputView>,
    after_first: Seq<Seq<char>>,
    before_second: Seq<Seq<char>>,
    second: Seq<InputView>,
    after_second: Seq<Seq<char>>,
)
    requires
        pledged(before_first, first, after_first),
        pledged(before_second, second, after_second),
        forall|k: int| 0 <= k < first.len() ==> before_second.contains((#[trigger] first[k]).address),
    ensures
        forall|i: int, j: int|
            0 <= i < first.len() && 0 <= j < second.len() ==> (#[trigger] first[i]).address
                != (#[trigger] second[j]).address,
{
}

/// The property of reading `address`.
pub open spec fn reads(address: Seq<char>) -> spec_fn(Seq<char>) -> bool {
    |a: Seq<char>| a == address
}

/// A list of pledges without the first pledge of `address`, if it holds
/// one.
pub open spec fn without_first(list: Seq<Seq<char>>, address: Seq<char>) -> Seq<Seq<char>> {
    match crate::search::first_position(list, reads(address)) {
        Some(i) => list.remove(i),
        None => list,
    }
}

/// A list of pledges after one pledge of each of `addresses` was taken
/// back, in order.
pub open spec fn released(list: Seq<Seq<char>>, addresses: Seq<Seq<char>>) -> Seq<Seq<char>>
    decreases addresses.len(),
{
    if addresses.len() == 0 {
        list
    } else {
        released(without_first(list, addresses[0]), addresses.drop_first())
    }
}

/// `without_first` takes out the first pledge of the address and nothing
/// else.
pub proof fn lemma_without_first(list: Seq<Seq<char>>, address: Seq<char>, at: int)
    requires
        0 <= at <= list.len(),
        forall|j: int| 0 <= j < at ==> #[trigger] list[j] != address,
        at < list.len() ==> list[at] == address,
    ensures
        without_first(list, address) == if at < list.len() {
            list.remove(at)
        } else {
            list
        },
{
    crate::search::lemma_first_position(list, reads(address));
}

/// Takes back one pledge of `address`, if there is one.
pub fn release_address(locked_addresses: &mut Vec<String>, address: &String)
    ensures
        strings_view(final(locked_addresses)@) == without_first(
            strings_view(old(locked_addresses)@),
            address@,
        ),
{
    let ghost list = strings_view(locked_addresses@);
    let mut i: usize = 0;
    while i < locked_addresses.len()
        invariant
            i <= locked_addresses.len(),
            locked_addresses@ == old(locked_addresses)@,
            list == strings_view(locked_addresses@),
            forall|j: int| 0 <= j < i ==> #[trigger] list[j] != address@,
        decreases locked_addresses.len() - i,
    {
        if locked_addresses[i] == *address {
            proof {
                assert(list[i as int] == address@);
                lemma_without_first(list, address@, i as int);
            }
            locked_addresses.remove(i);
            assert(strings_view(locked_addresses@) =~= list.remove(i as int));
            return ;
        }
        i += 1;
    }
    proof {
        lemma_without_first(list, address@, list.len() as int);
    }
}

/// Takes back the pledges of a transfer, when it is done or has failed.
pub fn release_inputs(locked_addresses: &mut Vec<String>, inputs: &Vec<Input>)
    ensures
        strings_view(final(locked_addresses)@) == released(
            strings_view(old(locked_addresses)@),
            input_addresses(inputs.deep_view()),
        ),
{
    let ghost all = input_addresses(inputs.deep_view());
    let mut i: usize = 0;
    assert(all.skip(0) =~= all);
    while i < inputs.len()
        invariant
            i <= inputs.len(),
            all == input_addresses(inputs.deep_view()),
            released(strings_view(locked_addresses@), all.skip(i as int)) == released(
                strings_view(old(locked_addresses)@),
                all,
            ),
        decreases inputs.len() - i,
    {
        proof {
            assert(all.skip(i as int)[0] == inputs@[i as int]@.address);
            assert(all.skip(i as int).drop_first() =~= all.skip(i as int + 1));
        }
        release_address(locked_addresses, &inputs[i].address);
        i += 1;
    }
}

/// Releasing what a transfer pledged leaves the pledges as they were
/// before it.
pub proof fn lemma_release_undoes_pledge(before: Seq<Seq<char>>, selected: Seq<InputView>)
    requires
        forall|k: int| 0 <= k < selected.len() ==> !before.contains((#[trigger] selected[k]).address),
    ensures
        released(before + input_addresses(selected), input_addresses(selected)) == before,
    decreases selected.len(),
{
    let addresses = input_addresses(selected);
    if selected.len() == 0 {
        assert(before + addresses =~= before);
    } else {
        let list = before + addresses;
        let first = addresses[0];
        assert(first == selected[0].address);
        assert(list[before.len() as int] == first);
        assert forall|j: int| 0 <= j < before.len() implies #[trigger] list[j] != first by {
            if list[j] == first {
                assert(before[j] == first);
                assert(before.contains(first));
            }
        }
        lemma_without_first(list, first, before.len() as int);
        let rest = selected.drop_first();
        assert(input_addresses(rest) =~= addresses.drop_first());
        assert(list.remove(before.len() as int) =~= before + input_addresses(rest));
        assert forall|k: int| 0 <= k < rest.len() implies !before.contains(
            (#[trigger] rest[k]).address,
        ) by {
            assert(rest[k] == selected[k + 1]);
        }
        lemma_release_undoes_pledge(before, rest);
    }
}

/// An address that pays for a transfer, with the outputs that it pays
/// with.
#[derive(Debug)]
pub struct TransferInput {
    /// The paying address.
    pub input: Input,
    /// The outputs of the address that the transaction consumes.
    pub outputs: Vec<AddressOutput>,
}

/// A paying address with its outputs, as a mathematical value.
pub ghost struct TransferInputView {
    pub input: InputView,
    pub outputs: Seq<AddressOutputView>,
}

impl View for TransferInput {
    type V = TransferInputView;

    open spec fn view(&self) -> TransferInputView {
        TransferInputView { input: self.input@, outputs: self.outputs.deep_view() }
    }
}

impl DeepView for TransferInput {
    type V = TransferInputView;

    open spec fn deep_view(&self) -> TransferInputView {
        self@
    }
}

/// A transfer whose preconditions hold and whose inputs are chosen and
/// pledged.
#[derive(Debug)]
pub struct PreparedTransfer {
    /// The transfer, with the remainder strategy that applies.
    pub transfer: Transfer,
    /// The addresses that pay, each with its outputs.
    pub inputs: Vec<TransferInput>,
    /// The address that pays the remainder, where one is expected.
    pub remainder_address: Option<Input>,
}

/// The transfer as it is carried out: value that stays within the account
/// leaves its remainder on the paying address, which alone tells how much
/// was moved; the inputs that the user chose are taken out of it.
pub open spec fn effective_transfer(account: AccountView, transfer: TransferView) -> TransferView {
    TransferView {
        remainder_value_strategy: if account.owns(transfer.address) {
            RemainderValueStrategyView::ReuseAddress
        } else {
            transfer.remainder_value_strategy
        },
        input: None,
        ..transfer
    }
}

/// The account holds less than the transfer sends.
pub open spec fn exceeds_balance(account: AccountView, transfer: TransferView) -> bool {
    transfer.amount > total_balance(account.addresses)
}

/// The transfer names an address for its remainder that the account does
/// not own.
pub open spec fn remainder_address_unknown(account: AccountView, transfer: TransferView) -> bool {
    effective_transfer(account, transfer).remainder_value_strategy matches RemainderValueStrategyView::AccountAddress(
        a,
    ) && !account.owns(a)
}

/// The inputs of a transfer whose paying address and outputs the user
/// chose.
pub open spec fn chosen_input(
    account: AccountView,
    address: Seq<char>,
    outputs: Seq<AddressOutputView>,
) -> TransferInputView {
    let at = address_position(account.addresses, address).unwrap();
    TransferInputView {
        input: InputView {
            address: account.addresses[at].address,
            internal: account.addresses[at].internal,
            balance: clamped(sum_amounts(outputs)),
            key_index: account.addresses[at].key_index,
        },
        outputs,
    }
}

/// The selected address `input` pays with all that can be spent of it.
pub open spec fn pays_with_available(account: AccountView, input: TransferInputView) -> bool {
    address_position(account.addresses, input.input.address) matches Some(at) && input.outputs
        == available_outputs(account.messages, account.addresses[at].outputs)
}

/// The paying addresses of the inputs, in order.
pub open spec fn paying(inputs: Seq<TransferInputView>) -> Seq<InputView> {
    inputs.map_values(|i: TransferInputView| i.input)
}

/// `prepared` is what the preparation of `transfer` yields while `locked`
/// is pledged, and `after` are the pledges then.
pub open spec fn is_prepared(
    account: AccountView,
    locked: Seq<Seq<char>>,
    transfer: TransferView,
    prepared_transfer: TransferView,
    inputs: Seq<TransferInputView>,
    remainder: Option<InputView>,
    after: Seq<Seq<char>>,
) -> bool {
    &&& prepared_transfer == effective_transfer(account, transfer)
    &&& match transfer.input {
        Some((address, outputs)) => {
            &&& account.owns(address)
            &&& inputs == seq![chosen_input(account, address, outputs)]
            &&& remainder.is_none()
            &&& after == locked.push(address)
        },
        None => {
            &&& inputs_chosen(
                account,
                locked,
                effective_transfer(account, transfer),
                paying(inputs),
                remainder,
            )
            &&& pledged(locked, paying(inputs), after)
            &&& forall|k: int| 0 <= k < inputs.len() ==> pays_with_available(account, #[trigger] inputs[k])
        },
    }
}

/// Why the preparation of `transfer` fails while `locked` is pledged, if
/// it does: the first of the reasons that applies.
pub open spec fn refusal(account: AccountView, locked: Seq<Seq<char>>, transfer: TransferView) -> Option<Refusal> {
    if exceeds_balance(account, transfer) {
        Some(Refusal::InsufficientFunds)
    } else if remainder_address_unknown(account, transfer) {
        Some(Refusal::InvalidRemainderValueAddress)
    } else {
        match transfer.input {
            Some((address, outputs)) => if account.owns(address) {
                None
            } else {
                Some(Refusal::InsufficientFunds)
            },
            None => if inputs_lacking(account, locked, effective_transfer(account, transfer)) {
                Some(Refusal::InsufficientFunds)
            } else {
                None
            },
        }
    }
}

/// The reasons for which a transfer is refused before anything is sent.
pub ghost enum Refusal {
    InsufficientFunds,
    InvalidRemainderValueAddress,
}

/// Whether an error states the given reason.
pub open spec fn states(e: Error, reason: Refusal) -> bool {
    match reason {
        Refusal::InsufficientFunds => e is InsufficientFunds,
        Refusal::InvalidRemainderValueAddress => e is InvalidRemainderValueAddress,
    }
}

/// Prepares a transfer from `account`: checks its preconditions, chooses
/// the addresses that pay and pledges them. A transfer to an address of the
/// account leaves its remainder on the paying address, whatever strategy
/// was asked for. A transfer is refused where it sends more than the
/// account holds, where the address named for the remainder is not one of
/// the account's, where the paying address that the user chose is not one
/// of the account's, and where the inputs that are free do not cover the
/// amount. Nothing is pledged for a transfer that is refused.
pub fn prepare_transfer(account: &Account, locked_addresses: &mut Vec<String>, transfer: Transfer) -> (r:
    Result<PreparedTransfer, Error>)
    requires
        transfer.wf(),
    ensures
        match r {
            Ok(prepared) => is_prepared(
                account@,
                strings_view(old(locked_addresses)@),
                transfer@,
                prepared.transfer@,
                prepared.inputs.deep_view(),
                prepared.remainder_address.deep_view(),
                strings_view(final(locked_addresses)@),
            ),
            Err(e) => {
                &&& refusal(account@, strings_view(old(locked_addresses)@), transfer@) matches Some(
                    reason,
                )
                &&& states(e, reason)
                &&& final(locked_addresses)@ == old(locked_addresses)@
            },
        },
{
    let ghost asked = transfer@;
    let ghost locked = strings_view(locked_addresses@);
    let mut transfer = transfer;
    if account.find_address(&transfer.address).is_some() {
        transfer.remainder_value_strategy = RemainderValueStrategy::ReuseAddress;
    }
    if transfer.amount as u128 > account.balance_total() {
        return Err(Error::InsufficientFunds);
    }
    if let RemainderValueStrategy::AccountAddress(a) = &transfer.remainder_value_strategy {
        if account.find_address(a).is_none() {
            return Err(Error::InvalidRemainderValueAddress);
        }
    }
    let chosen = transfer.input.take();
    assert(transfer@ == effective_transfer(account@, asked));
    match chosen {
        Some((address, outputs)) => {
            match account.find_address(&address) {
                Some(at) => {
                    let owner = &account.addresses[at];
                    proof {
                        assert(account@.addresses[at as int] == owner@);
                        lemma_address_position(account@.addresses, address@);
                    }
                    let ghost before = strings_view(locked_addresses@);
                    locked_addresses.push(owner.address.clone());
                    assert(strings_view(locked_addresses@) =~= before.push(address@));
                    let input = Input {
                        address: owner.address.clone(),
                        internal: owner.internal,
                        balance: clamp_amount(sum_output_amounts(&outputs)),
                        key_index: owner.key_index,
                    };
                    let mut inputs: Vec<TransferInput> = Vec::new();
                    inputs.push(TransferInput { input, outputs });
                    assert(inputs.deep_view() =~= seq![chosen_input(account@, address@, outputs.deep_view())]);
                    Ok(PreparedTransfer { transfer, inputs, remainder_address: None })
                },
                None => Err(Error::InsufficientFunds),
            }
        },
        None => {
            let (selected, remainder) = match select_inputs(locked_addresses, &transfer, account) {
                Ok(chosen) => chosen,
                Err(e) => {
                    return Err(Error::InsufficientFunds);
                },
            };
            let ghost picked = selected.deep_view();
            proof {
                lemma_chosen_are_owned(account@, locked, transfer@, picked, remainder.deep_view());
            }
            let mut inputs: Vec<TransferInput> = Vec::new();
            let mut i: usize = 0;
            assert(paying(inputs.deep_view()) =~= picked.take(0));
            while i < selected.len()
                invariant
                    i <= selected.len(),
                    picked == selected.deep_view(),
                    inputs.len() == i,
                    paying(inputs.deep_view()) == picked.take(i as int),
                    forall|k: int| 0 <= k < picked.len() ==> account@.owns((#[trigger] picked[k]).address),
                    forall|k: int|
                        0 <= k < i ==> pays_with_available(account@, #[trigger] inputs.deep_view()[k]),
                decreases selected.len() - i,
            {
                let input = selected[i].clone();
                assert(picked[i as int] == input@);
                let outputs = match account.find_address(&input.address) {
                    Some(at) => account.available_outputs(at),
                    None => Vec::new(),
                };
                let ghost before = inputs.deep_view();
                inputs.push(TransferInput { input, outputs });
                proof {
                    let now = inputs.deep_view();
                    assert(now =~= before.push(inputs@[i as int]@));
                    assert(paying(now) =~= picked.take(i as int + 1));
                    assert forall|k: int| 0 <= k < i + 1 implies pays_with_available(
                        account@,
                        #[trigger] now[k],
                    ) by {
                        if k < i {
                            assert(now[k] == before[k]);
                        }
                    }
                }
                i += 1;
            }
            assert(picked.take(selected.len() as int) =~= picked);
            Ok(PreparedTransfer { transfer, inputs, remainder_address: remainder })
        },
    }
}

/// The addresses that are chosen to pay are addresses of the account.
pub proof fn lemma_chosen_are_owned(
    account: AccountView,
    locked: Seq<Seq<char>>,
    transfer: TransferView,
    selected: Seq<InputView>,
    remainder: Option<InputView>,
)
    requires
        inputs_chosen(account, locked, transfer, selected, remainder),
    ensures
        forall|k: int| 0 <= k < selected.len() ==> account.owns((#[trigger] selected[k]).address),
{
    let first = choose|first: Seq<InputView>|
        {
            &&& #[trigger] selected_from(
                candidates(account, locked, transfer.address, true),
                transfer.amount,
                first,
            )
            &&& if selects_again(account, transfer, first) {
                selected_from(
                    candidates(account, locked, transfer.address, false),
                    transfer.amount,
                    selected,
                )
            } else {
                selected == first
            }
        };
    let allow = !selects_again(account, transfer, first);
    let pool = candidates(account, locked, transfer.address, allow);
    let keep = |a: AddressView| is_candidate(account, locked, transfer.address, allow, a);
    let kept = account.addresses.filter(keep);
    let picks = choose|picks: Seq<int>|
        #![trigger crate::account::sync::input_selection::is_selection(pool, transfer.amount, picks)]
        crate::account::sync::input_selection::is_selection(pool, transfer.amount, picks)
            && selected == crate::account::sync::input_selection::picked(pool, picks);
    assert forall|k: int| 0 <= k < selected.len() implies account.owns(
        (#[trigger] selected[k]).address,
    ) by {
        let at = picks[k];
        assert(0 <= at < pool.len());
        assert(selected[k] == pool[at]);
        assert(pool[at].address == kept[at].address);
        account.addresses.lemma_filter_contains_rev(keep, kept[at]);
        let j = choose|j: int| 0 <= j < account.addresses.len() && account.addresses[j] == kept[at];
        lemma_address_position(account.addresses, kept[at].address);
    }
}

} // verus!
