//! The events that a synchronisation gives rise to: changes of balance,
//! new transactions, and changes of confirmation.

use crate::account::sync::preparation::{clamp_amount, clamped};
use crate::account::{address_position, position_of_address};
use crate::address::{
    Address,
    AddressOutputView,
    AddressView,
    MessageId,
    lemma_output_position,
    output_position,
};
use crate::message::{Message, MessageView, clone_messages};
use vstd::prelude::*;

verus! {

/// A change of the balance of an address: what left it and what reached
/// it.
#[derive(Clone, Copy, Debug, PartialEq, Eq, Structural)]
pub struct BalanceChange {
    /// The amount that left the address.
    pub spent: u64,
    /// The amount that reached the address.
    pub received: u64,
}

impl BalanceChange {
    /// A change by which `value` left the address.
    pub fn spent(value: u64) -> (r: Self)
        ensures
            r == (BalanceChange { spent: value, received: 0 }),
    {
        BalanceChange { spent: value, received: 0 }
    }

    /// A change by which `value` reached the address.
    pub fn received(value: u64) -> (r: Self)
        ensures
            r == (BalanceChange { spent: 0, received: value }),
    {
        BalanceChange { spent: 0, received: value }
    }
}

/// The event of a change of balance.
#[derive(Debug)]
pub struct BalanceChangeEventData {
    /// The address whose balance changed, in bech32.
    pub address: String,
    /// The change.
    pub balance_change: BalanceChange,
    /// The message that caused the change, where it is known.
    pub message_id: Option<MessageId>,
}

/// The event of a change of balance as a mathematical value.
pub ghost struct BalanceChangeEventView {
    pub address: Seq<char>,
    pub balance_change: BalanceChange,
    pub message_id: Option<Seq<u8>>,
}

impl View for BalanceChangeEventData {
    type V = BalanceChangeEventView;

    open spec fn view(&self) -> BalanceChangeEventView {
        BalanceChangeEventView {
            address: self.address@,
            balance_change: self.balance_change,
            message_id: match self.message_id {
                Some(id) => Some(id@),
                None => None,
            },
        }
    }
}

impl DeepView for BalanceChangeEventData {
    type V = BalanceChangeEventView;

    open spec fn deep_view(&self) -> BalanceChangeEventView {
        self@
    }
}

/// The event of a change of confirmation.
#[derive(Debug)]
pub struct ConfirmationChangeEventData {
    /// The message whose confirmation changed.
    pub message: Message,
    /// Whether the ledger includes it now.
    pub confirmed: bool,
}

/// The event of a change of confirmation as a mathematical value.
pub ghost struct ConfirmationChangeEventView {
    pub message: MessageView,
    pub confirmed: bool,
}

impl View for ConfirmationChangeEventData {
    type V = ConfirmationChangeEventView;

    open spec fn view(&self) -> ConfirmationChangeEventView {
        ConfirmationChangeEventView { message: self.message@, confirmed: self.confirmed }
    }
}

impl DeepView for ConfirmationChangeEventData {
    type V = ConfirmationChangeEventView;

    open spec fn deep_view(&self) -> ConfirmationChangeEventView {
        self@
    }
}

/// The events of one synchronisation.
#[derive(Debug)]
pub struct SyncedAccountEvents {
    /// The changes of balance, address by address.
    pub balance_change_events: Vec<BalanceChangeEventData>,
    /// The messages that are new to the account.
    pub new_transaction_events: Vec<Message>,
    /// The messages whose confirmation changed.
    pub confirmation_change_events: Vec<ConfirmationChangeEventData>,
}

/// The balance that an address had before the synchronisation: none where
/// the account did not have the address.
pub open spec fn balance_before(before: Seq<AddressView>, address: Seq<char>) -> u64 {
    match address_position(before, address) {
        Some(i) => before[i].balance,
        None => 0,
    }
}

/// The outputs that an address had before the synchronisation.
pub open spec fn outputs_before(before: Seq<AddressView>, address: Seq<char>) -> Seq<AddressOutputView> {
    match address_position(before, address) {
        Some(i) => before[i].outputs,
        None => Seq::empty(),
    }
}

/// The outputs of `after` that `before` does not hold, in the order of
/// `after`.
pub open spec fn new_outputs(before: Seq<AddressOutputView>, after: Seq<AddressOutputView>) -> Seq<
    AddressOutputView,
> {
    after.filter(|o: AddressOutputView| output_position(before, o.id()).is_none())
}

/// The event of an output that is new to an address: spent where the
/// output is spent, else received, with the message that carried it.
pub open spec fn output_event(address: Seq<char>, output: AddressOutputView) -> BalanceChangeEventView {
    BalanceChangeEventView {
        address,
        balance_change: if output.is_spent {
            BalanceChange { spent: output.amount, received: 0 }
        } else {
            BalanceChange { spent: 0, received: output.amount }
        },
        message_id: Some(output.message_id),
    }
}

/// What the events of the outputs add up to: received amounts count up,
/// spent amounts count down.
pub open spec fn noted_change(outputs: Seq<AddressOutputView>) -> int
    decreases outputs.len(),
{
    if outputs.len() == 0 {
        0
    } else {
        noted_change(outputs.drop_last()) + if outputs.last().is_spent {
            -(outputs.last().amount as int)
        } else {
            outputs.last().amount as int
        }
    }
}

/// The event of the part of a change of balance that no output accounts
/// for: received where the part is positive, else spent, without a
/// message. Amounts beyond 64 bits are cut to the largest such amount.
pub open spec fn residual_event(address: Seq<char>, part: int) -> BalanceChangeEventView {
    BalanceChangeEventView {
        address,
        balance_change: if part > 0 {
            BalanceChange { spent: 0, received: clamped(part) }
        } else {
            BalanceChange { spent: clamped(-part), received: 0 }
        },
        message_id: None,
    }
}

/// The outputs of an address that get an event of their own: those that
/// are new to it, where the history of spent outputs is synchronised.
pub open spec fn noted_outputs(sync_spent_outputs: bool, before: Seq<AddressView>, after: AddressView) -> Seq<
    AddressOutputView,
> {
    if sync_spent_outputs {
        new_outputs(outputs_before(before, after.address), after.outputs)
    } else {
        Seq::empty()
    }
}

/// The part of the change of balance of an address that its noted outputs
/// do not account for.
pub open spec fn residual_change(sync_spent_outputs: bool, before: Seq<AddressView>, after: AddressView) -> int {
    after.balance - balance_before(before, after.address) - noted_change(
        noted_outputs(sync_spent_outputs, before, after),
    )
}

/// The events of one address: none where its balance did not change; else
/// one for each noted output, and one more for the part of the change that
/// they do not account for, if there is such a part.
pub open spec fn address_events(sync_spent_outputs: bool, before: Seq<AddressView>, after: AddressView) -> Seq<
    BalanceChangeEventView,
> {
    if after.balance == balance_before(before, after.address) {
        Seq::empty()
    } else {
        noted_outputs(sync_spent_outputs, before, after).map_values(
            |o: AddressOutputView| output_event(after.address, o),
        ) + if residual_change(sync_spent_outputs, before, after) != 0 {
            seq![residual_event(after.address, residual_change(sync_spent_outputs, before, after))]
        } else {
            Seq::empty()
        }
    }
}

/// The events of the changes of balance of all addresses, in the order of
/// the addresses.
pub open spec fn balance_events(sync_spent_outputs: bool, before: Seq<AddressView>, after: Seq<AddressView>) -> Seq<
    BalanceChangeEventView,
>
    decreases after.len(),
{
    if after.len() == 0 {
        Seq::empty()
    } else {
        balance_events(sync_spent_outputs, before, after.drop_last()) + address_events(
            sync_spent_outputs,
            before,
            after.last(),
        )
    }
}

/// The event of a message whose confirmation changed: confirmed where the
/// ledger is known to include it.
pub open spec fn confirmation_event(message: MessageView) -> ConfirmationChangeEventView {
    ConfirmationChangeEventView { message, confirmed: message.confirmed == Some(true) }
}

/// Appends the events of one address.
fn push_address_events(
    events: &mut Vec<BalanceChangeEventData>,
    sync_spent_outputs: bool,
    before: &Vec<Address>,
    after: &Address,
)
    ensures
        final(events).deep_view() == old(events).deep_view() + address_events(
            sync_spent_outputs,
            before.deep_view(),
            after@,
        ),
{
    let ghost start = events.deep_view();
    let ghost snapshot = before.deep_view();
    let position = position_of_address(before, &after.address);
    let balance_then: u64 = match position {
        Some(p) => {
            assert(snapshot[p as int] == before@[p as int]@);
            before[p].balance
        },
        None => 0,
    };
    assert(balance_then == balance_before(snapshot, after@.address));
    if after.balance == balance_then {
        assert(events.deep_view() =~= start + address_events(sync_spent_outputs, snapshot, after@));
        return ;
    }
    let ghost held = outputs_before(snapshot, after@.address);
    let ghost is_new = |o: AddressOutputView| output_position(held, o.id()).is_none();
    let ghost to_event = |o: AddressOutputView| output_event(after@.address, o);
    let ghost outputs = after@.outputs;
    let mut received: u128 = 0;
    let mut spent: u128 = 0;
    let mut k: usize = 0;
    if sync_spent_outputs {
        proof {
            assert(outputs.take(0) =~= Seq::empty());
            assert(events.deep_view() =~= start + outputs.take(0).filter(is_new).map_values(to_event));
        }
        while k < after.outputs.len()
            invariant
                k <= after.outputs.len(),
                outputs == after@.outputs,
                snapshot == before.deep_view(),
                held == outputs_before(snapshot, after@.address),
                is_new == |o: AddressOutputView| output_position(held, o.id()).is_none(),
                to_event == |o: AddressOutputView| output_event(after@.address, o),
                match position {
                    Some(p) => p < before.len() && address_position(snapshot, after@.address) == Some(
                        p as int,
                    ),
                    None => address_position(snapshot, after@.address).is_none(),
                },
                events.deep_view() == start + outputs.take(k as int).filter(is_new).map_values(
                    to_event,
                ),
                received - spent == noted_change(outputs.take(k as int).filter(is_new)),
                received + spent <= k * u64::MAX,
            decreases after.outputs.len() - k,
        {
            let output = &after.outputs[k];
            proof {
                assert(outputs[k as int] == output@);
                assert(outputs.take(k as int + 1).drop_last() =~= outputs.take(k as int));
                reveal(Seq::filter);
                assert(k * u64::MAX + u64::MAX == (k + 1) * u64::MAX) by (nonlinear_arith);
                assert(k * u64::MAX + u64::MAX <= u64::MAX * u64::MAX + u64::MAX) by (nonlinear_arith)
                    requires
                        k <= u64::MAX,
                ;
                assert(u64::MAX * u64::MAX + u64::MAX < u128::MAX);
            }
            let id = output.id();
            let known = match position {
                Some(p) => {
                    assert(snapshot[p as int] == before@[p as int]@);
                    before[p].find_output(&id).is_some()
                },
                None => {
                    proof {
                        lemma_output_position(held, id@);
                    }
                    false
                },
            };
            assert(known == !is_new(output@));
            if !known {
                let change = if output.is_spent {
                    spent = spent + output.amount as u128;
                    BalanceChange::spent(output.amount)
                } else {
                    received = received + output.amount as u128;
                    BalanceChange::received(output.amount)
                };
                let ghost so_far = events.deep_view();
                let ghost noted = outputs.take(k as int).filter(is_new);
                events.push(
                    BalanceChangeEventData {
                        address: after.address.clone(),
                        balance_change: change,
                        message_id: Some(output.message_id),
                    },
                );
                proof {
                    assert(events.deep_view() =~= so_far.push(to_event(output@)));
                    assert(noted.push(output@).drop_last() =~= noted);
                    assert(outputs.take(k as int + 1).filter(is_new) =~= noted.push(output@));
                    assert(events.deep_view() =~= start + noted.push(output@).map_values(to_event));
                }
            }
            k += 1;
        }
        assert(outputs.take(after.outputs.len() as int) =~= outputs);
    } else {
        assert(events.deep_view() =~= start + Seq::<AddressOutputView>::empty().map_values(to_event));
    }
    let ghost noted = noted_outputs(sync_spent_outputs, snapshot, after@);
    assert(received - spent == noted_change(noted));
    assert(events.deep_view() == start + noted.map_values(to_event));
    proof {
        assert(after.outputs.len() * u64::MAX <= u64::MAX * u64::MAX) by (nonlinear_arith)
            requires
                after.outputs.len() <= u64::MAX,
        ;
        assert(u64::MAX * u64::MAX + u64::MAX < u128::MAX);
    }
    let gained: u128 = after.balance as u128 + spent;
    let lost: u128 = balance_then as u128 + received;
    let ghost part = residual_change(sync_spent_outputs, snapshot, after@);
    assert(part == gained - lost);
    if gained != lost {
        let change = if gained > lost {
            BalanceChange::received(clamp_amount(gained - lost))
        } else {
            BalanceChange::spent(clamp_amount(lost - gained))
        };
        let ghost so_far = events.deep_view();
        events.push(
            BalanceChangeEventData {
                address: after.address.clone(),
                balance_change: change,
                message_id: None,
            },
        );
        assert(events.deep_view() =~= so_far.push(residual_event(after@.address, part)));
        assert(events.deep_view() =~= start + address_events(sync_spent_outputs, snapshot, after@));
    } else {
        assert(events.deep_view() =~= start + address_events(sync_spent_outputs, snapshot, after@));
    }
}

/// Works out the events of a synchronisation from the addresses as they
/// were before it and as they are after it, and from the messages that are
/// new or whose confirmation changed.
pub fn get_events(
    sync_spent_outputs: bool,
    addresses_before_sync: &Vec<Address>,
    addresses: &Vec<Address>,
    new_messages: &Vec<Message>,
    confirmation_changed_messages: &Vec<Message>,
) -> (r: SyncedAccountEvents)
    ensures
        r.balance_change_events.deep_view() == balance_events(
            sync_spent_outputs,
            addresses_before_sync.deep_view(),
            addresses.deep_view(),
        ),
        r.new_transaction_events.deep_view() == new_messages.deep_view(),
        r.confirmation_change_events.deep_view() == confirmation_changed_messages.deep_view().map_values(
            |m: MessageView| confirmation_event(m),
        ),
{
    let ghost after = addresses.deep_view();
    let ghost before = addresses_before_sync.deep_view();
    let mut balance_change_events: Vec<BalanceChangeEventData> = Vec::new();
    let mut i: usize = 0;
    proof {
        assert(after.take(0) =~= Seq::empty());
        assert(balance_change_events.deep_view() =~= balance_events(
            sync_spent_outputs,
            before,
            after.take(0),
        ));
    }
    while i < addresses.len()
        invariant
            i <= addresses.len(),
            after == addresses.deep_view(),
            before == addresses_before_sync.deep_view(),
            balance_change_events.deep_view() == balance_events(
                sync_spent_outputs,
                before,
                after.take(i as int),
            ),
        decreases addresses.len() - i,
    {
        proof {
            assert(after[i as int] == addresses@[i as int]@);
            assert(after.take(i as int + 1).drop_last() =~= after.take(i as int));
        }
        push_address_events(
            &mut balance_change_events,
            sync_spent_outputs,
            addresses_before_sync,
            &addresses[i],
        );
        i += 1;
    }
    assert(after.take(addresses.len() as int) =~= after);
    let ghost changed = confirmation_changed_messages.deep_view();
    let mut confirmation_change_events: Vec<ConfirmationChangeEventData> = Vec::new();
    let mut k: usize = 0;
    while k < confirmation_changed_messages.len()
        invariant
            k <= confirmation_changed_messages.len(),
            changed == confirmation_changed_messages.deep_view(),
            confirmation_change_events.len() == k,
            forall|j: int|
                0 <= j < k ==> confirmation_change_events.deep_view()[j] == confirmation_event(
                    #[trigger] changed[j],
                ),
        decreases confirmation_changed_messages.len() - k,
    {
        let message = confirmation_changed_messages[k].clone();
        assert(changed[k as int] == message@);
        let confirmed = match message.confirmed {
            Some(true) => true,
            _ => false,
        };
        let ghost so_far = confirmation_change_events.deep_view();
        confirmation_change_events.push(ConfirmationChangeEventData { message, confirmed });
        proof {
            let now = confirmation_change_events.deep_view();
            assert forall|j: int| 0 <= j < k + 1 implies now[j] == confirmation_event(
                #[trigger] changed[j],
            ) by {
                if j < k {
                    assert(now[j] == so_far[j]);
                }
            }
        }
        k += 1;
    }
    assert(confirmation_change_events.deep_view() =~= changed.map_values(
        |m: MessageView| confirmation_event(m),
    ));
    SyncedAccountEvents {
        balance_change_events,
        new_transaction_events: clone_messages(new_messages),
        confirmation_change_events,
    }
}

} // verus!
