//! An account: its addresses, its messages and what they add up to.

pub mod sync;

use crate::address::{
    Address, AddressOutput, AddressOutputView, AddressView, OutputId, clone_addresses,
};
use crate::address::MessageId;
use crate::client::{ClientOptions, ClientOptionsView};
use crate::message::{Message, MessageView, clone_messages};
use crate::search::{first_position, lemma_first_position};
use vstd::prelude::*;

verus! {

/// What signs for an account.
#[derive(Clone, Copy, Debug, PartialEq, Eq, Structural)]
pub enum SignerType {
    /// A software signer that keeps the seed in an encrypted snapshot.
    Stronghold,
    /// A hardware wallet.
    LedgerNano,
    /// The simulator of a hardware wallet.
    LedgerNanoSimulator,
    /// A signer that the user registered.
    Custom,
}

/// An account of the wallet.
#[derive(Debug)]
pub struct Account {
    /// The identifier of the account.
    pub id: String,
    /// The index of the account in the derivation path.
    pub index: usize,
    /// The name that the user gave the account.
    pub alias: String,
    /// What signs for the account.
    pub signer_type: SignerType,
    /// The options of the connection to the nodes.
    pub client_options: ClientOptions,
    /// When the account was created, in milliseconds since the epoch.
    pub created_at: i64,
    /// When the account was last synchronised, if ever.
    pub last_synced_at: Option<i64>,
    /// The addresses of the account, in the order in which they were found.
    pub addresses: Vec<Address>,
    /// The messages of the account, one for each message identifier.
    pub messages: Vec<Message>,
}

/// An account as a mathematical value.
pub ghost struct AccountView {
    pub id: Seq<char>,
    pub index: usize,
    pub alias: Seq<char>,
    pub signer_type: SignerType,
    pub client_options: ClientOptionsView,
    pub created_at: i64,
    pub last_synced_at: Option<i64>,
    pub addresses: Seq<AddressView>,
    pub messages: Seq<MessageView>,
}

impl View for Account {
    type V = AccountView;

    open spec fn view(&self) -> AccountView {
        AccountView {
            id: self.id@,
            index: self.index,
            alias: self.alias@,
            signer_type: self.signer_type,
            client_options: self.client_options@,
            created_at: self.created_at,
            last_synced_at: self.last_synced_at,
            addresses: self.addresses.deep_view(),
            messages: self.messages.deep_view(),
        }
    }
}

impl DeepView for Account {
    type V = AccountView;

    open spec fn deep_view(&self) -> AccountView {
        self@
    }
}

impl Clone for Account {
    fn clone(&self) -> (r: Self)
        ensures
            r@ == self@,
    {
        Account {
            id: self.id.clone(),
            index: self.index,
            alias: self.alias.clone(),
            signer_type: self.signer_type,
            client_options: self.client_options.clone(),
            created_at: self.created_at,
            last_synced_at: self.last_synced_at,
            addresses: clone_addresses(&self.addresses),
            messages: clone_messages(&self.messages),
        }
    }
}

/// The position of the first address that reads `address`, if there is one.
pub open spec fn address_position(addresses: Seq<AddressView>, address: Seq<char>) -> Option<int> {
    first_position(addresses, |a: AddressView| a.address == address)
}

/// The position of the first message with identifier `id`, if there is one.
pub open spec fn message_position(messages: Seq<MessageView>, id: Seq<u8>) -> Option<int> {
    first_position(messages, |m: MessageView| m.id == id)
}

/// The sum of the balances of the addresses.
pub open spec fn total_balance(addresses: Seq<AddressView>) -> int
    decreases addresses.len(),
{
    if addresses.len() == 0 {
        0
    } else {
        total_balance(addresses.drop_last()) + addresses.last().balance
    }
}

/// Some unconfirmed message consumes the output `id`.
pub open spec fn consumed_by_pending(messages: Seq<MessageView>, id: (Seq<u8>, u16)) -> bool {
    exists|i: int|
        0 <= i < messages.len() && (#[trigger] messages[i]).is_unconfirmed() && messages[i].consumes(id)
}

/// An output can be spent while it is neither spent on the ledger nor
/// consumed by a message that awaits confirmation.
pub open spec fn output_is_available(messages: Seq<MessageView>, output: AddressOutputView) -> bool {
    !output.is_spent && !consumed_by_pending(messages, output.id())
}

/// The outputs among `outputs` that can be spent.
pub open spec fn available_outputs(messages: Seq<MessageView>, outputs: Seq<AddressOutputView>) -> Seq<
    AddressOutputView,
> {
    outputs.filter(|o: AddressOutputView| output_is_available(messages, o))
}

/// The sum of the amounts of `outputs`.
pub open spec fn sum_amounts(outputs: Seq<AddressOutputView>) -> int
    decreases outputs.len(),
{
    if outputs.len() == 0 {
        0
    } else {
        sum_amounts(outputs.drop_last()) + outputs.last().amount
    }
}

/// What of an address can be spent.
pub open spec fn available_balance(messages: Seq<MessageView>, address: AddressView) -> int {
    sum_amounts(available_outputs(messages, address.outputs))
}

/// Position `i` holds the latest address: the public address with the
/// highest key index, the last of them where several share it.
pub open spec fn is_latest_address(addresses: Seq<AddressView>, i: int) -> bool {
    &&& 0 <= i < addresses.len()
    &&& !addresses[i].internal
    &&& forall|j: int|
        0 <= j < addresses.len() && !(#[trigger] addresses[j]).internal ==> {
            ||| addresses[j].key_index < addresses[i].key_index
            ||| (addresses[j].key_index == addresses[i].key_index && j <= i)
        }
}

/// Some address of the list is public.
pub open spec fn has_public_address(addresses: Seq<AddressView>) -> bool {
    exists|i: int| 0 <= i < addresses.len() && !(#[trigger] addresses[i]).internal
}

/// The list after `address` was recorded in it: an address that reads the
/// same is replaced where it stands, a new one is added at the end.
pub open spec fn addresses_with(addresses: Seq<AddressView>, address: AddressView) -> Seq<AddressView> {
    match address_position(addresses, address.address) {
        Some(i) => addresses.update(i, address),
        None => addresses.push(address),
    }
}

/// The list after each of `found` was recorded in it, in order.
pub open spec fn addresses_appended(addresses: Seq<AddressView>, found: Seq<AddressView>) -> Seq<
    AddressView,
>
    decreases found.len(),
{
    if found.len() == 0 {
        addresses
    } else {
        addresses_appended(addresses_with(addresses, found[0]), found.drop_first())
    }
}

/// What a stored message becomes when `found` arrives for it: the new
/// message, except that a confirmation is never taken back.
pub open spec fn message_merged(stored: MessageView, found: MessageView) -> MessageView {
    if stored.confirmed == Some(true) {
        MessageView { confirmed: Some(true), ..found }
    } else {
        found
    }
}

/// The list after `message` was recorded in it: a message with the same
/// identifier is merged where it stands, a new one is added at the end.
pub open spec fn messages_with(messages: Seq<MessageView>, message: MessageView) -> Seq<MessageView> {
    match message_position(messages, message.id) {
        Some(i) => messages.update(i, message_merged(messages[i], message)),
        None => messages.push(message),
    }
}

/// The list after each of `found` was recorded in it, in order.
pub open spec fn messages_appended(messages: Seq<MessageView>, found: Seq<MessageView>) -> Seq<
    MessageView,
>
    decreases found.len(),
{
    if found.len() == 0 {
        messages
    } else {
        messages_appended(messages_with(messages, found[0]), found.drop_first())
    }
}

/// No two addresses of the list read the same.
pub open spec fn distinct_addresses(addresses: Seq<AddressView>) -> bool {
    forall|i: int, j: int|
        0 <= i < j < addresses.len() ==> (#[trigger] addresses[i]).address != (
        #[trigger] addresses[j]).address
}

/// No two messages of the list have the same identifier.
pub open spec fn distinct_messages(messages: Seq<MessageView>) -> bool {
    forall|i: int, j: int|
        0 <= i < j < messages.len() ==> (#[trigger] messages[i]).id != (#[trigger] messages[j]).id
}

impl AccountView {
    /// The addresses are told apart by what they read, and the messages by
    /// their identifiers.
    pub open spec fn wf(self) -> bool {
        distinct_addresses(self.addresses) && distinct_messages(self.messages)
    }

    /// An account is empty while none of its addresses has balance or
    /// outputs.
    pub open spec fn is_empty(self) -> bool {
        forall|i: int| 0 <= i < self.addresses.len() ==> (#[trigger] self.addresses[i]).is_empty()
    }

    /// The account owns the address that reads `address`.
    pub open spec fn owns(self, address: Seq<char>) -> bool {
        address_position(self.addresses, address).is_some()
    }
}

/// What `address_position` finds is the first address that reads
/// `address`, and it finds nothing only where none does.
pub proof fn lemma_address_position(addresses: Seq<AddressView>, address: Seq<char>)
    ensures
        match address_position(addresses, address) {
            Some(i) => 0 <= i < addresses.len() && addresses[i].address == address && forall|j: int|
                0 <= j < i ==> (#[trigger] addresses[j]).address != address,
            None => forall|j: int|
                0 <= j < addresses.len() ==> (#[trigger] addresses[j]).address != address,
        },
{
    lemma_first_position(addresses, |a: AddressView| a.address == address);
}

/// What `message_position` finds is the first message with the identifier,
/// and it finds nothing only where no message has it.
pub proof fn lemma_message_position(messages: Seq<MessageView>, id: Seq<u8>)
    ensures
        match message_position(messages, id) {
            Some(i) => 0 <= i < messages.len() && messages[i].id == id && forall|j: int|
                0 <= j < i ==> (#[trigger] messages[j]).id != id,
            None => forall|j: int| 0 <= j < messages.len() ==> (#[trigger] messages[j]).id != id,
        },
{
    lemma_first_position(messages, |m: MessageView| m.id == id);
}

/// An account has but one latest address.
pub proof fn lemma_latest_is_unique(addresses: Seq<AddressView>, i: int, j: int)
    requires
        is_latest_address(addresses, i),
    ensures
        has_public_address(addresses),
        is_latest_address(addresses, j) ==> i == j,
{
}

proof fn lemma_total_take(addresses: Seq<AddressView>, i: int)
    requires
        0 <= i < addresses.len(),
    ensures
        total_balance(addresses.take(i + 1)) == total_balance(addresses.take(i)) + addresses[i].balance,
{
    assert(addresses.take(i + 1).drop_last() =~= addresses.take(i));
}

proof fn lemma_total_bounds(addresses: Seq<AddressView>)
    ensures
        0 <= total_balance(addresses) <= addresses.len() * u64::MAX,
    decreases addresses.len(),
{
    if addresses.len() > 0 {
        lemma_total_bounds(addresses.drop_last());
        assert((addresses.len() - 1) * u64::MAX + u64::MAX == addresses.len() * u64::MAX)
            by (nonlinear_arith);
    }
}

/// The sum of amounts of `n` outputs is below `n` times the largest amount.
pub proof fn lemma_sum_amounts_bounds(outputs: Seq<AddressOutputView>)
    ensures
        0 <= sum_amounts(outputs) <= outputs.len() * u64::MAX,
    decreases outputs.len(),
{
    if outputs.len() > 0 {
        lemma_sum_amounts_bounds(outputs.drop_last());
        assert((outputs.len() - 1) * u64::MAX + u64::MAX == outputs.len() * u64::MAX)
            by (nonlinear_arith);
    }
}

/// Filtering the first `i + 1` outputs is filtering the first `i` and then
/// deciding on the next.
pub proof fn lemma_available_take(
    messages: Seq<MessageView>,
    outputs: Seq<AddressOutputView>,
    i: int,
)
    requires
        0 <= i < outputs.len(),
    ensures
        available_outputs(messages, outputs.take(i + 1)) == if output_is_available(
            messages,
            outputs[i],
        ) {
            available_outputs(messages, outputs.take(i)).push(outputs[i])
        } else {
            available_outputs(messages, outputs.take(i))
        },
        available_outputs(messages, outputs.take(i)).len() <= i,
{
    let p = |o: AddressOutputView| output_is_available(messages, o);
    assert(outputs.take(i + 1).drop_last() =~= outputs.take(i));
    reveal(Seq::filter);
    outputs.take(i).lemma_filter_len(p);
}

impl Account {
    /// Whether none of the addresses has balance or outputs.
    pub fn is_empty(&self) -> (r: bool)
        ensures
            r == self@.is_empty(),
    {
        let mut i: usize = 0;
        while i < self.addresses.len()
            invariant
                i <= self.addresses.len(),
                forall|j: int| 0 <= j < i ==> (#[trigger] self@.addresses[j]).is_empty(),
            decreases self.addresses.len() - i,
        {
            assert(self@.addresses[i as int] == self.addresses@[i as int]@);
            if !self.addresses[i].is_empty() {
                return false;
            }
            i += 1;
        }
        true
    }

    /// The sum of the balances of all addresses.
    pub fn balance_total(&self) -> (r: u128)
        ensures
            r == total_balance(self@.addresses),
    {
        let ghost view = self@.addresses;
        let mut total: u128 = 0;
        let mut i: usize = 0;
        while i < self.addresses.len()
            invariant
                i <= self.addresses.len(),
                view == self@.addresses,
                total == total_balance(view.take(i as int)),
            decreases self.addresses.len() - i,
        {
            proof {
                lemma_total_take(view, i as int);
                lemma_total_bounds(view.take(i as int));
                assert(i * u64::MAX + u64::MAX <= usize::MAX * u64::MAX + u64::MAX) by (nonlinear_arith)
                    requires
                        i <= usize::MAX,
                ;
                assert(view[i as int] == self.addresses@[i as int]@);
            }
            total = total + self.addresses[i].balance as u128;
            i += 1;
        }
        assert(view.take(self.addresses.len() as int) =~= view);
        total
    }

    /// The position of the address that reads `address`, if the account owns
    /// it.
    pub fn find_address(&self, address: &String) -> (r: Option<usize>)
        ensures
            match r {
                Some(i) => i < self.addresses.len() && address_position(self@.addresses, address@)
                    == Some(i as int),
                None => address_position(self@.addresses, address@).is_none(),
            },
            r.is_some() == self@.owns(address@),
    {
        position_of_address(&self.addresses, address)
    }

    /// The position of the message with identifier `id`, if the account
    /// holds it.
    pub fn find_message(&self, id: &MessageId) -> (r: Option<usize>)
        ensures
            match r {
                Some(i) => i < self.messages.len() && message_position(self@.messages, id@) == Some(
                    i as int,
                ),
                None => message_position(self@.messages, id@).is_none(),
            },
    {
        let mut i: usize = 0;
        while i < self.messages.len()
            invariant
                i <= self.messages.len(),
                forall|j: int| 0 <= j < i ==> (#[trigger] self@.messages[j]).id != id@,
            decreases self.messages.len() - i,
        {
            assert(self@.messages[i as int] == self.messages@[i as int]@);
            if self.messages[i].id == *id {
                proof {
                    lemma_message_position(self@.messages, id@);
                }
                return Some(i);
            }
            i += 1;
        }
        proof {
            lemma_message_position(self@.messages, id@);
        }
        None
    }

    /// The position of the latest address: the public address with the
    /// highest key index. There is none only where the account has no public
    /// address.
    pub fn latest_address(&self) -> (r: Option<usize>)
        ensures
            match r {
                Some(i) => i < self.addresses.len() && is_latest_address(self@.addresses, i as int),
                None => !has_public_address(self@.addresses),
            },
    {
        let ghost view = self@.addresses;
        let mut best: Option<usize> = None;
        let mut i: usize = 0;
        while i < self.addresses.len()
            invariant
                i <= self.addresses.len(),
                view == self@.addresses,
                match best {
                    Some(b) => is_latest_address(view.take(i as int), b as int),
                    None => forall|j: int| 0 <= j < i ==> (#[trigger] view[j]).internal,
                },
            decreases self.addresses.len() - i,
        {
            assert(view[i as int] == self.addresses@[i as int]@);
            let ghost before = view.take(i as int);
            let ghost after = view.take(i as int + 1);
            assert(forall|j: int| 0 <= j < i ==> before[j] == after[j]);
            if !self.addresses[i].internal {
                match best {
                    Some(b) => {
                        if self.addresses[b].key_index <= self.addresses[i].key_index {
                            assert(view[b as int] == self.addresses@[b as int]@);
                            assert(before[b as int] == view[b as int]);
                            best = Some(i);
                        }
                    },
                    None => {
                        best = Some(i);
                    },
                }
            }
            i += 1;
        }
        assert(view.take(self.addresses.len() as int) =~= view);
        best
    }

    /// Records an address: one that reads the same is replaced where it
    /// stands, a new one is added at the end.
    pub fn record_address(&mut self, address: Address)
        ensures
            final(self)@ == (AccountView {
                addresses: addresses_with(old(self)@.addresses, address@),
                ..old(self)@
            }),
            old(self)@.wf() ==> final(self)@.wf(),
    {
        proof {
            crate::account::sync::laws::lemma_addresses_with(self@.addresses, address@);
        }
        proof {
            lemma_address_position(self@.addresses, address@.address);
        }
        match self.find_address(&address.address) {
            Some(i) => {
                self.addresses[i] = address;
                assert(self@.addresses =~= old(self)@.addresses.update(i as int, address@));
            },
            None => {
                self.addresses.push(address);
                assert(self@.addresses =~= old(self)@.addresses.push(address@));
            },
        }
    }

    /// Records each of the found addresses, in order.
    pub fn append_addresses(&mut self, found: Vec<Address>)
        ensures
            final(self)@ == (AccountView {
                addresses: addresses_appended(old(self)@.addresses, found.deep_view()),
                ..old(self)@
            }),
            old(self)@.wf() ==> final(self)@.wf(),
    {
        proof {
            if self@.wf() {
                crate::account::sync::laws::lemma_addresses_appended_distinct(
                    self@.addresses,
                    found.deep_view(),
                );
            }
        }
        let ghost all = found.deep_view();
        let mut i: usize = 0;
        assert(all.skip(0) =~= all);
        while i < found.len()
            invariant
                i <= found.len(),
                all == found.deep_view(),
                self@ == (AccountView { addresses: self@.addresses, ..old(self)@ }),
                addresses_appended(self@.addresses, all.skip(i as int)) == addresses_appended(
                    old(self)@.addresses,
                    all,
                ),
            decreases found.len() - i,
        {
            proof {
                assert(all.skip(i as int)[0] == found@[i as int]@);
                assert(all.skip(i as int).drop_first() =~= all.skip(i as int + 1));
            }
            self.record_address(found[i].clone());
            i += 1;
        }
    }

    /// Records a message: one with the same identifier is merged where it
    /// stands, without taking a confirmation back; a new one is added at the
    /// end.
    pub fn record_message(&mut self, message: Message)
        ensures
            final(self)@ == (AccountView {
                messages: messages_with(old(self)@.messages, message@),
                ..old(self)@
            }),
            old(self)@.wf() ==> final(self)@.wf(),
    {
        proof {
            crate::account::sync::laws::lemma_messages_with(self@.messages, message@);
        }
        proof {
            lemma_message_position(self@.messages, message@.id);
        }
        match self.find_message(&message.id) {
            Some(i) => {
                assert(self@.messages[i as int] == self.messages@[i as int]@);
                let mut message = message;
                if let Some(true) = self.messages[i].confirmed {
                    message.confirmed = Some(true);
                }
                self.messages[i] = message;
                assert(self@.messages =~= old(self)@.messages.update(
                    i as int,
                    message_merged(old(self)@.messages[i as int], message@),
                ));
            },
            None => {
                self.messages.push(message);
                assert(self@.messages =~= old(self)@.messages.push(message@));
            },
        }
    }

    /// Records each of the found messages, in order.
    pub fn append_messages(&mut self, found: Vec<Message>)
        ensures
            final(self)@ == (AccountView {
                messages: messages_appended(old(self)@.messages, found.deep_view()),
                ..old(self)@
            }),
            old(self)@.wf() ==> final(self)@.wf(),
    {
        proof {
            if self@.wf() {
                crate::account::sync::laws::lemma_messages_appended_distinct(
                    self@.messages,
                    found.deep_view(),
                );
            }
        }
        let ghost all = found.deep_view();
        let mut i: usize = 0;
        assert(all.skip(0) =~= all);
        while i < found.len()
            invariant
                i <= found.len(),
                all == found.deep_view(),
                self@ == (AccountView { messages: self@.messages, ..old(self)@ }),
                messages_appended(self@.messages, all.skip(i as int)) == messages_appended(
                    old(self)@.messages,
                    all,
                ),
            decreases found.len() - i,
        {
            proof {
                assert(all.skip(i as int)[0] == found@[i as int]@);
                assert(all.skip(i as int).drop_first() =~= all.skip(i as int + 1));
            }
            self.record_message(found[i].clone());
            i += 1;
        }
    }

    /// Notes when the account was last synchronised.
    pub fn set_last_synced_at(&mut self, at: Option<i64>)
        ensures
            final(self)@ == (AccountView { last_synced_at: at, ..old(self)@ }),
    {
        self.last_synced_at = at;
    }

    /// The key index of the public address that is generated next: one
    /// beyond the latest address, or zero where the account has no public
    /// address. There is none where the latest address has the largest index
    /// that there is.
    pub fn next_address_index(&self) -> (r: Option<usize>)
        ensures
            match r {
                Some(next) => if has_public_address(self@.addresses) {
                    exists|i: int|
                        #[trigger] is_latest_address(self@.addresses, i) && next
                            == self@.addresses[i].key_index + 1
                } else {
                    next == 0
                },
                None => exists|i: int|
                    #[trigger] is_latest_address(self@.addresses, i) && self@.addresses[i].key_index
                        == usize::MAX,
            },
    {
        match self.latest_address() {
            Some(latest) => {
                assert(self@.addresses[latest as int] == self.addresses@[latest as int]@);
                proof {
                    lemma_latest_is_unique(self@.addresses, latest as int, latest as int);
                }
                if self.addresses[latest].key_index == usize::MAX {
                    None
                } else {
                    Some(self.addresses[latest].key_index + 1)
                }
            },
            None => Some(0),
        }
    }

    /// Whether some message that awaits confirmation consumes the output.
    pub fn is_consumed_by_pending(&self, id: &OutputId) -> (r: bool)
        ensures
            r == consumed_by_pending(self@.messages, id@),
    {
        let mut i: usize = 0;
        while i < self.messages.len()
            invariant
                i <= self.messages.len(),
                forall|j: int|
                    0 <= j < i ==> !((#[trigger] self@.messages[j]).is_unconfirmed()
                        && self@.messages[j].consumes(id@)),
            decreases self.messages.len() - i,
        {
            assert(self@.messages[i as int] == self.messages@[i as int]@);
            if self.messages[i].is_unconfirmed() && self.messages[i].consumes(id) {
                return true;
            }
            i += 1;
        }
        false
    }

    /// The outputs of the address at `position` that can be spent, in the
    /// order in which the address holds them.
    pub fn available_outputs(&self, position: usize) -> (r: Vec<AddressOutput>)
        requires
            position < self.addresses.len(),
        ensures
            r.deep_view() == available_outputs(
                self@.messages,
                self@.addresses[position as int].outputs,
            ),
    {
        let address = &self.addresses[position];
        assert(self@.addresses[position as int] == address@);
        let ghost outputs = address@.outputs;
        let ghost messages = self@.messages;
        let mut found: Vec<AddressOutput> = Vec::new();
        let mut i: usize = 0;
        assert(outputs.take(0) =~= Seq::empty());
        assert(found.deep_view() =~= available_outputs(messages, outputs.take(0)));
        while i < address.outputs.len()
            invariant
                i <= address.outputs.len(),
                outputs == address@.outputs,
                messages == self@.messages,
                found.deep_view() == available_outputs(messages, outputs.take(i as int)),
            decreases address.outputs.len() - i,
        {
            let output = &address.outputs[i];
            assert(outputs[i as int] == output@);
            proof {
                lemma_available_take(messages, outputs, i as int);
            }
            let id = output.id();
            if !output.is_spent && !self.is_consumed_by_pending(&id) {
                let ghost before = found.deep_view();
                found.push(output.clone());
                assert(found.deep_view() =~= before.push(output@));
            }
            i += 1;
        }
        assert(outputs.take(address.outputs.len() as int) =~= outputs);
        found
    }

    /// What of the address at `position` can be spent.
    pub fn available_balance(&self, position: usize) -> (r: u128)
        requires
            position < self.addresses.len(),
        ensures
            r == available_balance(self@.messages, self@.addresses[position as int]),
    {
        let outputs = self.available_outputs(position);
        sum_output_amounts(&outputs)
    }
}

/// The sum of the amounts of `outputs`, which fits into 128 bits whatever
/// the outputs.
pub fn sum_output_amounts(outputs: &Vec<AddressOutput>) -> (r: u128)
    ensures
        r == sum_amounts(outputs.deep_view()),
{
    let ghost view = outputs.deep_view();
    let mut total: u128 = 0;
    let mut i: usize = 0;
    while i < outputs.len()
        invariant
            i <= outputs.len(),
            view == outputs.deep_view(),
            total == sum_amounts(view.take(i as int)),
        decreases outputs.len() - i,
    {
        proof {
            assert(view.take(i as int + 1).drop_last() =~= view.take(i as int));
            lemma_sum_amounts_bounds(view.take(i as int));
            assert(i * u64::MAX + u64::MAX <= usize::MAX * u64::MAX + u64::MAX) by (nonlinear_arith)
                requires
                    i <= usize::MAX,
            ;
            assert(view[i as int] == outputs@[i as int]@);
        }
        total = total + outputs[i].amount as u128;
        i += 1;
    }
    assert(view.take(outputs.len() as int) =~= view);
    total
}

/// The position of the first address in the list that reads `address`, if
/// there is one.
pub fn position_of_address(addresses: &Vec<Address>, address: &String) -> (r: Option<usize>)
    ensures
        match r {
            Some(i) => i < addresses.len() && address_position(addresses.deep_view(), address@)
                == Some(i as int),
            None => address_position(addresses.deep_view(), address@).is_none(),
        },
{
    let ghost view = addresses.deep_view();
    let mut i: usize = 0;
    while i < addresses.len()
        invariant
            i <= addresses.len(),
            view == addresses.deep_view(),
            forall|j: int| 0 <= j < i ==> (#[trigger] view[j]).address != address@,
        decreases addresses.len() - i,
    {
        assert(view[i as int] == addresses@[i as int]@);
        if addresses[i].address == *address {
            proof {
                lemma_address_position(view, address@);
            }
            return Some(i);
        }
        i += 1;
    }
    proof {
        lemma_address_position(view, address@);
    }
    None
}

} // verus!
