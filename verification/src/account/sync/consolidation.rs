//! Consolidation of outputs: an address that holds many outputs sends them
//! to itself, a bounded number at a time, so that each transfer leaves one
//! output where there were many.

use crate::account::sync::essence::INPUT_OUTPUT_COUNT_MAX;
use crate::account::{Account, AccountView, available_outputs, sum_amounts, sum_output_amounts};
use crate::address::{AddressOutput, AddressOutputView, AddressView};
use crate::message::{RemainderValueStrategyView, Transfer, TransferView};
use vstd::prelude::*;

verus! {

/// The number of transfers that it takes to consolidate `count` outputs.
pub open spec fn chunk_count(count: int) -> int {
    (count + INPUT_OUTPUT_COUNT_MAX - 1) / (INPUT_OUTPUT_COUNT_MAX as int)
}

/// The outputs that the transfer number `k` consolidates: as many as one
/// transaction may consume, or those that are left.
pub open spec fn chunk(outputs: Seq<AddressOutputView>, k: int) -> Seq<AddressOutputView> {
    outputs.subrange(
        k * INPUT_OUTPUT_COUNT_MAX,
        if (k + 1) * INPUT_OUTPUT_COUNT_MAX < outputs.len() {
            (k + 1) * INPUT_OUTPUT_COUNT_MAX
        } else {
            outputs.len() as int
        },
    )
}

/// The transfer that consolidates some outputs of an address: it sends
/// what they hold to the address itself, without reporting progress.
pub open spec fn consolidation_transfer(address: Seq<char>, outputs: Seq<AddressOutputView>) -> TransferView {
    TransferView {
        address,
        amount: sum_amounts(outputs) as u64,
        remainder_value_strategy: RemainderValueStrategyView::ChangeAddress,
        input: Some((address, outputs)),
        indexation: None,
        with_events: false,
    }
}

/// Some outputs can be consolidated by a transfer: they hold more than
/// nothing, and no more than an amount can express.
pub open spec fn can_consolidate(outputs: Seq<AddressOutputView>) -> bool {
    0 < sum_amounts(outputs) <= u64::MAX
}

/// The transfers that consolidate the first `n` chunks of the outputs of
/// an address.
pub open spec fn chunk_transfers(address: Seq<char>, outputs: Seq<AddressOutputView>, n: int) -> Seq<
    TransferView,
>
    decreases n,
{
    if n <= 0 {
        Seq::empty()
    } else if can_consolidate(chunk(outputs, n - 1)) {
        chunk_transfers(address, outputs, n - 1).push(
            consolidation_transfer(address, chunk(outputs, n - 1)),
        )
    } else {
        chunk_transfers(address, outputs, n - 1)
    }
}

/// The transfers that consolidate the outputs of one address: none unless
/// it holds more spendable outputs than the threshold.
pub open spec fn address_transfers(account: AccountView, address: AddressView, threshold: usize) -> Seq<
    TransferView,
> {
    let outputs = available_outputs(account.messages, address.outputs);
    if outputs.len() > threshold {
        chunk_transfers(address.address, outputs, chunk_count(outputs.len() as int))
    } else {
        Seq::empty()
    }
}

/// The transfers that consolidate the outputs of the first `n` addresses
/// of the account.
pub open spec fn consolidation_transfers(account: AccountView, threshold: usize, n: int) -> Seq<
    TransferView,
>
    decreases n,
{
    if n <= 0 {
        Seq::empty()
    } else {
        consolidation_transfers(account, threshold, n - 1) + address_transfers(
            account,
            account.addresses[n - 1],
            threshold,
        )
    }
}

/// A copy of the outputs from position `from` to before position `to`.
fn copy_outputs(outputs: &Vec<AddressOutput>, from: usize, to: usize) -> (r: Vec<AddressOutput>)
    requires
        from <= to <= outputs.len(),
    ensures
        r.deep_view() == outputs.deep_view().subrange(from as int, to as int),
{
    let mut copy: Vec<AddressOutput> = Vec::new();
    let mut i: usize = from;
    while i < to
        invariant
            from <= i <= to,
            to <= outputs.len(),
            copy.len() == i - from,
            forall|j: int| 0 <= j < i - from ==> copy@[j]@ == outputs@[from + j]@,
        decreases to - i,
    {
        copy.push(outputs[i].clone());
        i += 1;
    }
    assert(copy.deep_view() =~= outputs.deep_view().subrange(from as int, to as int));
    copy
}

/// Lists the transfers that consolidate the outputs of the account: for
/// each address that holds more spendable outputs than `threshold`, one
/// transfer to itself for every hundred and twenty-seven of them.
pub fn get_output_consolidation_transfers(account: &Account, threshold: usize) -> (r: Vec<Transfer>)
    ensures
        r.deep_view() == consolidation_transfers(account@, threshold, account@.addresses.len() as int),
{
    let mut transfers: Vec<Transfer> = Vec::new();
    let mut i: usize = 0;
    assert(transfers.deep_view() =~= consolidation_transfers(account@, threshold, 0));
    while i < account.addresses.len()
        invariant
            i <= account.addresses.len(),
            transfers.deep_view() == consolidation_transfers(account@, threshold, i as int),
        decreases account.addresses.len() - i,
    {
        let address = &account.addresses[i];
        assert(account@.addresses[i as int] == address@);
        let outputs = account.available_outputs(i);
        let ghost so_far = transfers.deep_view();
        let ghost view = outputs.deep_view();
        if outputs.len() > threshold {
            let mut k: usize = 0;
            let mut from: usize = 0;
            assert(transfers.deep_view() =~= so_far + chunk_transfers(address@.address, view, 0));
            while from < outputs.len()
                invariant
                    from <= outputs.len(),
                    from == k * INPUT_OUTPUT_COUNT_MAX || (from == outputs.len() && k == chunk_count(
                        outputs.len() as int,
                    )),
                    k <= chunk_count(outputs.len() as int),
                    from < outputs.len() ==> k < chunk_count(outputs.len() as int),
                    view == outputs.deep_view(),
                    transfers.deep_view() == so_far + chunk_transfers(address@.address, view, k as int),
                decreases outputs.len() - from,
            {
                let to = if outputs.len() - from > INPUT_OUTPUT_COUNT_MAX {
                    from + INPUT_OUTPUT_COUNT_MAX
                } else {
                    outputs.len()
                };
                let part = copy_outputs(&outputs, from, to);
                assert(part.deep_view() == chunk(view, k as int));
                let sum = sum_output_amounts(&part);
                if sum > 0 && sum <= u64::MAX as u128 {
                    let ghost before = transfers.deep_view();
                    let transfer = Transfer::builder(address.address.clone(), sum as u64).with_input(
                        address.address.clone(),
                        part,
                    ).with_events(false).finish();
                    transfers.push(transfer);
                    assert(transfers.deep_view() =~= before.push(
                        consolidation_transfer(address@.address, chunk(view, k as int)),
                    ));
                }
                from = to;
                k = k + 1;
            }
            assert(k == chunk_count(outputs.len() as int));
        } else {
            assert(transfers.deep_view() =~= so_far + Seq::<TransferView>::empty());
        }
        i += 1;
    }
    transfers
}

} // verus!
