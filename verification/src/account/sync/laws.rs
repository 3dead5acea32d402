//! What holds of synchronisation as a whole: it never takes a confirmation
//! back, repeating it against an unchanged ledger changes nothing, and a
//! discovery that ran to its end leaves one unused address to receive on.

use crate::account::sync::events::balance_events;
use crate::account::sync::{
    SyncedAccountDataView, account_synced, confirmation_changed_messages, confirmations,
    is_known_as_is, new_messages, telling_messages,
};
use crate::account::{
    AccountView, address_position, addresses_appended, addresses_with, distinct_addresses,
    distinct_messages, lemma_address_position, lemma_message_position, message_merged,
    message_position, messages_appended, messages_with,
};
use crate::address::AddressView;
use crate::message::MessageView;
use vstd::prelude::*;

verus! {

/// The list holds the address as it is, at the first place that reads like
/// it.
pub open spec fn holds_address(addresses: Seq<AddressView>, address: AddressView) -> bool {
    address_position(addresses, address.address) matches Some(p) && addresses[p] == address
}

/// The list holds the message as it is, at the first place with its
/// identifier.
pub open spec fn holds_message(messages: Seq<MessageView>, message: MessageView) -> bool {
    message_position(messages, message.id) matches Some(p) && messages[p] == message
}

/// Recording an address puts it in the list as it is, keeps the addresses
/// that read otherwise where they are, and keeps the list free of
/// repetitions.
pub proof fn lemma_addresses_with(addresses: Seq<AddressView>, address: AddressView)
    ensures
        holds_address(addresses_with(addresses, address), address),
        addresses_with(addresses, address).len() >= addresses.len(),
        forall|i: int|
            0 <= i < addresses.len() && (#[trigger] addresses[i]).address != address.address
                ==> addresses_with(addresses, address)[i] == addresses[i],
        forall|i: int|
            0 <= i < addresses.len() ==> (#[trigger] addresses_with(addresses, address)[i]).address
                == addresses[i].address,
        forall|other: AddressView|
            #![trigger holds_address(addresses, other)]
            holds_address(addresses, other) && other.address != address.address ==> holds_address(
                addresses_with(addresses, address),
                other,
            ),
        holds_address(addresses, address) ==> addresses_with(addresses, address) == addresses,
        distinct_addresses(addresses) ==> distinct_addresses(addresses_with(addresses, address)),
{
    let after = addresses_with(addresses, address);
    lemma_address_position(addresses, address.address);
    lemma_address_position(after, address.address);
    match address_position(addresses, address.address) {
        Some(p) => {
            assert(after[p] == address);
        },
        None => {
            assert(after[addresses.len() as int] == address);
        },
    }
    assert forall|other: AddressView|
        #![trigger holds_address(addresses, other)]
        holds_address(addresses, other) && other.address != address.address implies holds_address(
        after,
        other,
    ) by {
        lemma_address_position(addresses, other.address);
        lemma_address_position(after, other.address);
        let q = address_position(addresses, other.address).unwrap();
        assert(after[q] == other);
    }
    if holds_address(addresses, address) {
        assert(after =~= addresses);
    }
}

/// Recording addresses keeps what the list holds of other addresses, and
/// keeps the list free of repetitions.
pub proof fn lemma_addresses_appended_keeps(
    addresses: Seq<AddressView>,
    found: Seq<AddressView>,
    other: AddressView,
)
    requires
        holds_address(addresses, other),
        forall|k: int| 0 <= k < found.len() ==> (#[trigger] found[k]).address != other.address,
    ensures
        holds_address(addresses_appended(addresses, found), other),
    decreases found.len(),
{
    if found.len() > 0 {
        lemma_addresses_with(addresses, found[0]);
        let rest = found.drop_first();
        assert forall|k: int| 0 <= k < rest.len() implies (#[trigger] rest[k]).address
            != other.address by {
            assert(rest[k] == found[k + 1]);
        }
        lemma_addresses_appended_keeps(addresses_with(addresses, found[0]), rest, other);
    }
}

/// Recording addresses keeps a list free of repetitions so.
pub proof fn lemma_addresses_appended_distinct(addresses: Seq<AddressView>, found: Seq<AddressView>)
    requires
        distinct_addresses(addresses),
    ensures
        distinct_addresses(addresses_appended(addresses, found)),
    decreases found.len(),
{
    if found.len() > 0 {
        lemma_addresses_with(addresses, found[0]);
        lemma_addresses_appended_distinct(addresses_with(addresses, found[0]), found.drop_first());
    }
}

/// After addresses were recorded, none of them twice, the list holds each
/// of them as it is.
pub proof fn lemma_addresses_appended_holds(addresses: Seq<AddressView>, found: Seq<AddressView>, k: int)
    requires
        distinct_addresses(found),
        0 <= k < found.len(),
    ensures
        holds_address(addresses_appended(addresses, found), found[k]),
    decreases found.len(),
{
    lemma_addresses_with(addresses, found[0]);
    let rest = found.drop_first();
    let next = addresses_with(addresses, found[0]);
    assert forall|i: int, j: int| 0 <= i < j < rest.len() implies (#[trigger] rest[i]).address != (
    #[trigger] rest[j]).address by {
        assert(rest[i] == found[i + 1] && rest[j] == found[j + 1]);
    }
    if k == 0 {
        assert forall|j: int| 0 <= j < rest.len() implies (#[trigger] rest[j]).address
            != found[0].address by {
            assert(rest[j] == found[j + 1]);
        }
        lemma_addresses_appended_keeps(next, rest, found[0]);
    } else {
        assert(rest[k - 1] == found[k]);
        lemma_addresses_appended_holds(next, rest, k - 1);
    }
}

/// Recording addresses that the list holds as they are changes nothing.
pub proof fn lemma_addresses_appended_same(addresses: Seq<AddressView>, found: Seq<AddressView>)
    requires
        forall|k: int| 0 <= k < found.len() ==> holds_address(addresses, #[trigger] found[k]),
    ensures
        addresses_appended(addresses, found) == addresses,
    decreases found.len(),
{
    if found.len() > 0 {
        lemma_addresses_with(addresses, found[0]);
        let rest = found.drop_first();
        assert forall|k: int| 0 <= k < rest.len() implies holds_address(addresses, #[trigger] rest[k]) by {
            assert(rest[k] == found[k + 1]);
        }
        lemma_addresses_appended_same(addresses, rest);
    }
}

/// Storing the same addresses a second time changes nothing.
pub proof fn lemma_append_addresses_idempotent(addresses: Seq<AddressView>, found: Seq<AddressView>)
    requires
        distinct_addresses(found),
    ensures
        addresses_appended(addresses_appended(addresses, found), found) == addresses_appended(
            addresses,
            found,
        ),
{
    let stored = addresses_appended(addresses, found);
    assert forall|k: int| 0 <= k < found.len() implies holds_address(stored, #[trigger] found[k]) by {
        lemma_addresses_appended_holds(addresses, found, k);
    }
    lemma_addresses_appended_same(stored, found);
}

/// Recording a message keeps the identifiers of the messages where they
/// are, and keeps every confirmation that the list held.
pub proof fn lemma_messages_with(messages: Seq<MessageView>, message: MessageView)
    ensures
        messages_with(messages, message).len() >= messages.len(),
        forall|i: int|
            0 <= i < messages.len() ==> (#[trigger] messages_with(messages, message)[i]).id
                == messages[i].id,
        forall|i: int|
            0 <= i < messages.len() && (#[trigger] messages[i]).confirmed == Some(true)
                ==> messages_with(messages, message)[i].confirmed == Some(true),
        forall|i: int|
            0 <= i < messages.len() && (#[trigger] messages[i]).id != message.id ==> messages_with(
                messages,
                message,
            )[i] == messages[i],
        forall|other: MessageView|
            #![trigger holds_message(messages, other)]
            holds_message(messages, other) && other.id != message.id ==> holds_message(
                messages_with(messages, message),
                other,
            ),
        holds_message(messages, message) ==> messages_with(messages, message) == messages,
        distinct_messages(messages) ==> distinct_messages(messages_with(messages, message)),
        (message_position(messages, message.id) matches Some(p) ==> messages[p].confirmed != Some(
            true,
        ) || message.confirmed == Some(true)) ==> holds_message(
            messages_with(messages, message),
            message,
        ),
{
    let after = messages_with(messages, message);
    lemma_message_position(messages, message.id);
    lemma_message_position(after, message.id);
    match message_position(messages, message.id) {
        Some(p) => {
            assert(after[p] == message_merged(messages[p], message));
        },
        None => {
            assert(after[messages.len() as int] == message);
        },
    }
    assert forall|other: MessageView|
        #![trigger holds_message(messages, other)]
        holds_message(messages, other) && other.id != message.id implies holds_message(
        after,
        other,
    ) by {
        lemma_message_position(messages, other.id);
        lemma_message_position(after, other.id);
        let q = message_position(messages, other.id).unwrap();
        assert(after[q] == other);
    }
    if holds_message(messages, message) {
        assert(after =~= messages);
    }
}

/// Storing what a synchronisation found never takes a confirmation back: a
/// message that the ledger was known to include stays where it is, and
/// stays confirmed.
pub proof fn lemma_confirmation_is_kept(messages: Seq<MessageView>, found: Seq<MessageView>, i: int)
    requires
        0 <= i < messages.len(),
        messages[i].confirmed == Some(true),
    ensures
        i < messages_appended(messages, found).len(),
        messages_appended(messages, found)[i].id == messages[i].id,
        messages_appended(messages, found)[i].confirmed == Some(true),
    decreases found.len(),
{
    if found.len() > 0 {
        lemma_messages_with(messages, found[0]);
        lemma_confirmation_is_kept(messages_with(messages, found[0]), found.drop_first(), i);
    }
}

/// A synchronisation leaves every confirmed message of the account
/// confirmed.
pub proof fn lemma_sync_keeps_confirmations(account: AccountView, data: SyncedAccountDataView, now: i64)
    ensures
        forall|i: int|
            0 <= i < account.messages.len() && (#[trigger] account.messages[i]).confirmed == Some(
                true,
            ) ==> {
                &&& i < account_synced(account, data, now).messages.len()
                &&& account_synced(account, data, now).messages[i].id == account.messages[i].id
                &&& account_synced(account, data, now).messages[i].confirmed == Some(true)
            },
{
    assert forall|i: int|
        0 <= i < account.messages.len() && (#[trigger] account.messages[i]).confirmed == Some(
            true,
        ) implies {
        &&& i < account_synced(account, data, now).messages.len()
        &&& account_synced(account, data, now).messages[i].id == account.messages[i].id
        &&& account_synced(account, data, now).messages[i].confirmed == Some(true)
    } by {
        lemma_confirmation_is_kept(account.messages, data.messages, i);
    }
}

/// Recording messages keeps a list free of repetitions so.
pub proof fn lemma_messages_appended_distinct(messages: Seq<MessageView>, found: Seq<MessageView>)
    requires
        distinct_messages(messages),
    ensures
        distinct_messages(messages_appended(messages, found)),
    decreases found.len(),
{
    if found.len() > 0 {
        lemma_messages_with(messages, found[0]);
        lemma_messages_appended_distinct(messages_with(messages, found[0]), found.drop_first());
    }
}

/// Recording messages keeps what the list holds of other messages.
pub proof fn lemma_messages_appended_keeps(
    messages: Seq<MessageView>,
    found: Seq<MessageView>,
    other: MessageView,
)
    requires
        holds_message(messages, other),
        forall|k: int| 0 <= k < found.len() ==> (#[trigger] found[k]).id != other.id,
    ensures
        holds_message(messages_appended(messages, found), other),
    decreases found.len(),
{
    if found.len() > 0 {
        lemma_messages_with(messages, found[0]);
        let rest = found.drop_first();
        assert forall|k: int| 0 <= k < rest.len() implies (#[trigger] rest[k]).id != other.id by {
            assert(rest[k] == found[k + 1]);
        }
        lemma_messages_appended_keeps(messages_with(messages, found[0]), rest, other);
    }
}

/// The found message does not contradict a confirmation that the list
/// holds: the list does not hold the message as confirmed, or the found
/// message is confirmed too.
pub open spec fn agrees_with(messages: Seq<MessageView>, found: MessageView) -> bool {
    message_position(messages, found.id) matches Some(p) ==> messages[p].confirmed != Some(true)
        || found.confirmed == Some(true)
}

/// After messages were recorded, none of them twice and none against a
/// confirmation, the list holds each of them as it is.
pub proof fn lemma_messages_appended_holds(messages: Seq<MessageView>, found: Seq<MessageView>, k: int)
    requires
        distinct_messages(found),
        forall|j: int| 0 <= j < found.len() ==> agrees_with(messages, #[trigger] found[j]),
        0 <= k < found.len(),
    ensures
        holds_message(messages_appended(messages, found), found[k]),
    decreases found.len(),
{
    lemma_messages_with(messages, found[0]);
    let rest = found.drop_first();
    let next = messages_with(messages, found[0]);
    assert forall|i: int, j: int| 0 <= i < j < rest.len() implies (#[trigger] rest[i]).id != (
    #[trigger] rest[j]).id by {
        assert(rest[i] == found[i + 1] && rest[j] == found[j + 1]);
    }
    if k == 0 {
        assert forall|j: int| 0 <= j < rest.len() implies (#[trigger] rest[j]).id != found[0].id by {
            assert(rest[j] == found[j + 1]);
        }
        lemma_messages_appended_keeps(next, rest, found[0]);
    } else {
        assert(rest[k - 1] == found[k]);
        assert forall|j: int| 0 <= j < rest.len() implies agrees_with(next, #[trigger] rest[j]) by {
            assert(rest[j] == found[j + 1]);
            assert(agrees_with(messages, found[j + 1]));
            lemma_message_position(messages, rest[j].id);
            lemma_message_position(next, rest[j].id);
            if message_position(next, rest[j].id).is_some() {
                let p = message_position(next, rest[j].id).unwrap();
                if p < messages.len() {
                    assert(messages[p].id == next[p].id);
                    assert(rest[j].id != found[0].id);
                    assert(next[p] == messages[p]);
                    assert(message_position(messages, rest[j].id) == Some(p));
                } else {
                    lemma_message_position(messages, found[0].id);
                    match message_position(messages, found[0].id) {
                        Some(q) => {
                            assert(next.len() == messages.len());
                        },
                        None => {
                            assert(next == messages.push(found[0]));
                            assert(next[p] == found[0]);
                        },
                    }
                }
            }
        }
        lemma_messages_appended_holds(next, rest, k - 1);
    }
}

/// A message that the list holds as it is, is known as it is.
pub proof fn lemma_held_is_known(messages: Seq<MessageView>, message: MessageView)
    requires
        holds_message(messages, message),
    ensures
        is_known_as_is(messages, message),
{
    lemma_message_position(messages, message.id);
    let p = message_position(messages, message.id).unwrap();
    assert(messages[p].id == message.id && messages[p].confirmed == message.confirmed);
}

/// An address of a list without repetitions is the first that reads like
/// it.
pub proof fn lemma_distinct_holds(addresses: Seq<AddressView>, i: int)
    requires
        distinct_addresses(addresses),
        0 <= i < addresses.len(),
    ensures
        address_position(addresses, addresses[i].address) == Some(i),
        holds_address(addresses, addresses[i]),
{
    lemma_address_position(addresses, addresses[i].address);
}

/// Between a state of the addresses and itself no balance has changed, so
/// there is no event.
pub proof fn lemma_no_events_without_change(sync_spent_outputs: bool, addresses: Seq<AddressView>, n: int)
    requires
        distinct_addresses(addresses),
        0 <= n <= addresses.len(),
    ensures
        balance_events(sync_spent_outputs, addresses, addresses.take(n)).len() == 0,
    decreases n,
{
    if n > 0 {
        lemma_no_events_without_change(sync_spent_outputs, addresses, n - 1);
        assert(addresses.take(n).drop_last() =~= addresses.take(n - 1));
        assert(addresses.take(n).last() == addresses[n - 1]);
        lemma_distinct_holds(addresses, n - 1);
    }
}

/// Idempotent synchronisation. An account without repeated addresses takes
/// in what a synchronisation found: addresses, none twice, and messages,
/// none twice and none against a confirmation that the account holds. If a
/// second synchronisation finds the same on an unchanged ledger, it has
/// nothing to tell: every found message is known as it is, storing the
/// found addresses again leaves the addresses as they are, and no event
/// arises, neither of a balance nor of a message.
pub proof fn lemma_sync_is_idempotent(
    account: AccountView,
    data: SyncedAccountDataView,
    sync_spent_outputs: bool,
    first: i64,
    second: i64,
)
    requires
        distinct_addresses(account.addresses),
        distinct_addresses(data.addresses),
        distinct_messages(data.messages),
        forall|j: int|
            0 <= j < data.messages.len() ==> agrees_with(account.messages, #[trigger] data.messages[j]),
    ensures
        ({
            let stored = account_synced(account, data, first);
            let again = SyncedAccountDataView {
                messages: telling_messages(stored, data.messages),
                addresses: data.addresses,
            };
            let after = account_synced(stored, again, second);
            &&& again.messages.len() == 0
            &&& after.addresses == stored.addresses
            &&& after.messages == stored.messages
            &&& balance_events(sync_spent_outputs, stored.addresses, after.addresses).len() == 0
            &&& new_messages(confirmations(stored.messages), again.messages).len() == 0
            &&& confirmation_changed_messages(confirmations(stored.messages), again.messages).len()
                == 0
        }),
{
    let stored = account_synced(account, data, first);
    let unknown = |m: MessageView| !is_known_as_is(stored.messages, m);
    let telling = data.messages.filter(unknown);
    if telling.len() > 0 {
        data.messages.lemma_filter_pred(unknown, 0);
        assert(telling.contains(telling[0]));
        data.messages.lemma_filter_contains_rev(unknown, telling[0]);
        let k = choose|k: int| 0 <= k < data.messages.len() && data.messages[k] == telling[0];
        lemma_messages_appended_holds(account.messages, data.messages, k);
        lemma_held_is_known(stored.messages, data.messages[k]);
    }
    assert(telling =~= Seq::<MessageView>::empty());
    lemma_append_addresses_idempotent(account.addresses, data.addresses);
    lemma_addresses_appended_distinct(account.addresses, data.addresses);
    lemma_no_events_without_change(sync_spent_outputs, stored.addresses, stored.addresses.len() as int);
    assert(stored.addresses.take(stored.addresses.len() as int) =~= stored.addresses);
    let nothing = Seq::<MessageView>::empty();
    assert(messages_appended(stored.messages, nothing) == stored.messages);
    let before = confirmations(stored.messages);
    reveal(Seq::filter);
    assert(nothing.filter(|m: MessageView| crate::account::sync::is_new_to(before, m)).len() == 0);
    assert(nothing.filter(|m: MessageView| crate::account::sync::confirmation_differs(before, m)).len()
        == 0);
}

/// Recording addresses that the list does not hold, none of them twice,
/// adds them at the end in their order.
pub proof fn lemma_new_addresses_are_added(addresses: Seq<AddressView>, found: Seq<AddressView>)
    requires
        distinct_addresses(found),
        forall|i: int, k: int|
            0 <= i < addresses.len() && 0 <= k < found.len() ==> (#[trigger] addresses[i]).address != (
            #[trigger] found[k]).address,
    ensures
        addresses_appended(addresses, found) == addresses + found,
    decreases found.len(),
{
    if found.len() == 0 {
        assert(addresses + found =~= addresses);
    } else {
        lemma_address_position(addresses, found[0].address);
        let next = addresses_with(addresses, found[0]);
        assert(next == addresses.push(found[0]));
        let rest = found.drop_first();
        assert forall|i: int, j: int| 0 <= i < j < rest.len() implies (#[trigger] rest[i]).address != (
        #[trigger] rest[j]).address by {
            assert(rest[i] == found[i + 1] && rest[j] == found[j + 1]);
        }
        assert forall|i: int, k: int| 0 <= i < next.len() && 0 <= k < rest.len() implies (
        #[trigger] next[i]).address != (#[trigger] rest[k]).address by {
            assert(rest[k] == found[k + 1]);
            if i < addresses.len() {
                assert(next[i] == addresses[i]);
            } else {
                assert(next[i] == found[0]);
            }
        }
        lemma_new_addresses_are_added(next, rest);
        assert(next + rest =~= addresses + found);
    }
}

/// The gap-limit contract. A discovery ends, the signer not being locked,
/// with a batch that showed nothing but added an address. Then what the
/// account takes over ends with exactly one unused address, the address to
/// receive on; and an account that had no address before has exactly these
/// addresses after.
pub proof fn lemma_gap_limit_contract(
    before: crate::account::sync::discovery::AddressDiscoveryView,
    synced: Seq<AddressView>,
    messages: Seq<MessageView>,
)
    requires
        before.absorbed(synced, messages, false).finished,
        crate::account::sync::discovery::kept(synced).len() > 0,
    ensures
        ({
            let found = before.absorbed(synced, messages, false).addresses;
            let taken = crate::account::sync::discovery::trimmed(found);
            &&& taken.len() > 0
            &&& taken.last().is_unused()
            &&& taken.len() >= 2 ==> !taken[taken.len() - 2].is_unused()
            &&& distinct_addresses(taken) ==> addresses_appended(Seq::empty(), taken) == taken
        }),
{
    let found = before.absorbed(synced, messages, false).addresses;
    let taken = crate::account::sync::discovery::trimmed(found);
    crate::account::sync::discovery::lemma_last_batch_unused(before, synced, messages);
    assert(found.last().is_unused());
    crate::account::sync::discovery::lemma_one_unused_at_end(found);
    if distinct_addresses(taken) {
        lemma_new_addresses_are_added(Seq::empty(), taken);
        assert(Seq::<AddressView>::empty() + taken =~= taken);
    }
}

} // verus!
