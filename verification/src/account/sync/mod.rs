//! Synchronisation of an account with the ledger, and transfers from it.

pub mod address_sync;
pub mod consolidation;
pub mod discovery;
pub mod dust;
pub mod essence;
pub mod events;
pub mod input_selection;
pub mod laws;
pub mod preparation;
pub mod transfer;

use crate::account::sync::discovery::{trim_unused_tail, trimmed};
use crate::account::sync::events::{SyncedAccountEvents, balance_events, confirmation_event, get_events};
use crate::account::sync::transfer::{contains_string, strings_view};
use crate::account::{
    Account,
    AccountView,
    address_position,
    addresses_appended,
    is_latest_address,
    has_public_address,
    messages_appended,
    position_of_address,
};
use crate::address::{Address, AddressView, MessageId, clone_addresses};
use crate::message::{Message, MessageView, clone_messages};
use vstd::prelude::*;

verus! {

/// A step of the synchronisation of an account.
#[derive(Debug)]
pub enum AccountSynchronizeStep {
    /// Synchronise the addresses: the listed ones, or, where none are
    /// listed, those that discovery finds.
    SyncAddresses(Option<Vec<String>>),
    /// Synchronise the messages of the addresses that the account has.
    SyncMessages,
}

/// A step as a mathematical value.
pub ghost enum AccountSynchronizeStepView {
    SyncAddresses(Option<Seq<Seq<char>>>),
    SyncMessages,
}

impl View for AccountSynchronizeStep {
    type V = AccountSynchronizeStepView;

    open spec fn view(&self) -> AccountSynchronizeStepView {
        match self {
            AccountSynchronizeStep::SyncAddresses(Some(list)) => AccountSynchronizeStepView::SyncAddresses(
                Some(strings_view(list@)),
            ),
            AccountSynchronizeStep::SyncAddresses(None) => AccountSynchronizeStepView::SyncAddresses(
                None,
            ),
            AccountSynchronizeStep::SyncMessages => AccountSynchronizeStepView::SyncMessages,
        }
    }
}

impl DeepView for AccountSynchronizeStep {
    type V = AccountSynchronizeStepView;

    open spec fn deep_view(&self) -> AccountSynchronizeStepView {
        self@
    }
}

/// The number of key indices in a batch when an account is synchronised
/// from its beginning.
pub const INITIAL_GAP_LIMIT: usize = 10;

/// Account sync helper: what a synchronisation of an account is to do.
#[derive(Debug)]
pub struct AccountSynchronizer {
    pub address_index: usize,
    pub gap_limit: usize,
    pub skip_persistence: bool,
    pub steps: Vec<AccountSynchronizeStep>,
}

/// The settings of a synchronisation as a mathematical value.
pub ghost struct AccountSynchronizerView {
    pub address_index: usize,
    pub gap_limit: usize,
    pub skip_persistence: bool,
    pub steps: Seq<AccountSynchronizeStepView>,
}

impl View for AccountSynchronizer {
    type V = AccountSynchronizerView;

    open spec fn view(&self) -> AccountSynchronizerView {
        AccountSynchronizerView {
            address_index: self.address_index,
            gap_limit: self.gap_limit,
            skip_persistence: self.skip_persistence,
            steps: self.steps.deep_view(),
        }
    }
}

/// The key index of the latest address of the account, or zero where it
/// has no public address.
pub open spec fn latest_key_index(account: AccountView) -> usize {
    if has_public_address(account.addresses) {
        account.addresses[choose|i: int| is_latest_address(account.addresses, i)].key_index
    } else {
        0
    }
}

impl AccountSynchronizer {
    /// The synchronisation of an account as it is done by default: from
    /// the latest address, which is supposed to be unused, with a gap limit
    /// of one, or of ten where the account is at its beginning; both steps
    /// are run, and what is found is stored.
    pub fn new(account: &Account) -> (r: Self)
        ensures
            r@ == (AccountSynchronizerView {
                address_index: latest_key_index(account@),
                gap_limit: if latest_key_index(account@) == 0 {
                    INITIAL_GAP_LIMIT
                } else {
                    1
                },
                skip_persistence: false,
                steps: seq![
                    AccountSynchronizeStepView::SyncAddresses(None),
                    AccountSynchronizeStepView::SyncMessages,
                ],
            }),
    {
        let latest_address_index = match account.latest_address() {
            Some(i) => {
                proof {
                    crate::account::lemma_latest_is_unique(
                        account@.addresses,
                        i as int,
                        choose|j: int| is_latest_address(account@.addresses, j),
                    );
                    assert(account@.addresses[i as int] == account.addresses@[i as int]@);
                }
                account.addresses[i].key_index
            },
            None => 0,
        };
        let mut steps: Vec<AccountSynchronizeStep> = Vec::new();
        steps.push(AccountSynchronizeStep::SyncAddresses(None));
        steps.push(AccountSynchronizeStep::SyncMessages);
        let r = AccountSynchronizer {
            address_index: latest_address_index,
            gap_limit: if latest_address_index == 0 {
                INITIAL_GAP_LIMIT
            } else {
                1
            },
            skip_persistence: false,
            steps,
        };
        assert(r@.steps =~= seq![
            AccountSynchronizeStepView::SyncAddresses(None),
            AccountSynchronizeStepView::SyncMessages,
        ]);
        r
    }

    /// Number of address indexes that are generated.
    pub fn gap_limit(self, limit: usize) -> (r: Self)
        ensures
            r@ == (AccountSynchronizerView { gap_limit: limit, ..self@ }),
    {
        let mut this = self;
        this.gap_limit = limit;
        this
    }

    /// Skip saving new messages and addresses on the account object. The
    /// found data is handed out but not stored.
    pub fn skip_persistence(self) -> (r: Self)
        ensures
            r@ == (AccountSynchronizerView { skip_persistence: true, ..self@ }),
    {
        let mut this = self;
        this.skip_persistence = true;
        this
    }

    /// Initial address index to start syncing.
    pub fn address_index(self, address_index: usize) -> (r: Self)
        ensures
            r@ == (AccountSynchronizerView { address_index, ..self@ }),
    {
        let mut this = self;
        this.address_index = address_index;
        this
    }

    /// Sets the steps to run on the sync process. By default it runs all
    /// steps.
    pub fn steps(self, steps: Vec<AccountSynchronizeStep>) -> (r: Self)
        ensures
            r@ == (AccountSynchronizerView { steps: steps.deep_view(), ..self@ }),
    {
        let mut this = self;
        this.steps = steps;
        this
    }
}

/// What the address step of a synchronisation asks for.
#[derive(Debug)]
pub enum AddressStep {
    /// No step synchronises addresses.
    Skip,
    /// The listed addresses are synchronised.
    Listed(Vec<String>),
    /// Discovery finds the addresses to synchronise.
    Discover,
}

/// The position of the first step that synchronises addresses.
pub open spec fn address_step_position(steps: Seq<AccountSynchronizeStepView>) -> Option<int> {
    crate::search::first_position(steps, |s: AccountSynchronizeStepView| s is SyncAddresses)
}

/// What the address step of the steps asks for: the first step that
/// synchronises addresses decides.
pub open spec fn address_step_of(steps: Seq<AccountSynchronizeStepView>, step: AddressStep) -> bool {
    match address_step_position(steps) {
        Some(i) => match steps[i] {
            AccountSynchronizeStepView::SyncAddresses(Some(list)) => step matches AddressStep::Listed(
                l,
            ) && strings_view(l@) == list,
            _ => step is Discover,
        },
        None => step is Skip,
    }
}

/// What `address_step_position` finds is the first step that synchronises
/// addresses, and it finds nothing only where there is none.
pub proof fn lemma_address_step_position(steps: Seq<AccountSynchronizeStepView>)
    ensures
        match address_step_position(steps) {
            Some(i) => 0 <= i < steps.len() && steps[i] is SyncAddresses && forall|j: int|
                0 <= j < i ==> !((#[trigger] steps[j]) is SyncAddresses),
            None => forall|j: int| 0 <= j < steps.len() ==> !((#[trigger] steps[j]) is SyncAddresses),
        },
{
    crate::search::lemma_first_position(steps, |s: AccountSynchronizeStepView| s is SyncAddresses);
}

/// A copy of a list of strings.
pub fn clone_strings(list: &Vec<String>) -> (r: Vec<String>)
    ensures
        strings_view(r@) == strings_view(list@),
{
    let mut out: Vec<String> = Vec::new();
    let mut i: usize = 0;
    while i < list.len()
        invariant
            i <= list.len(),
            out.len() == i,
            forall|j: int| 0 <= j < i ==> out@[j]@ == list@[j]@,
        decreases list.len() - i,
    {
        out.push(list[i].clone());
        i += 1;
    }
    assert(strings_view(out@) =~= strings_view(list@));
    out
}

/// What the address step of a synchronisation asks for.
pub fn address_step(steps: &Vec<AccountSynchronizeStep>) -> (r: AddressStep)
    ensures
        address_step_of(steps.deep_view(), r),
{
    let ghost view = steps.deep_view();
    let mut i: usize = 0;
    while i < steps.len()
        invariant
            i <= steps.len(),
            view == steps.deep_view(),
            forall|j: int| 0 <= j < i ==> !((#[trigger] view[j]) is SyncAddresses),
        decreases steps.len() - i,
    {
        assert(view[i as int] == steps@[i as int]@);
        match &steps[i] {
            AccountSynchronizeStep::SyncAddresses(Some(list)) => {
                proof {
                    lemma_address_step_position(view);
                }
                return AddressStep::Listed(clone_strings(list));
            },
            AccountSynchronizeStep::SyncAddresses(None) => {
                proof {
                    lemma_address_step_position(view);
                }
                return AddressStep::Discover;
            },
            AccountSynchronizeStep::SyncMessages => {},
        }
        i += 1;
    }
    proof {
        lemma_address_step_position(view);
    }
    AddressStep::Skip
}

/// Whether some step synchronises the messages.
pub fn runs_message_step(steps: &Vec<AccountSynchronizeStep>) -> (r: bool)
    ensures
        r == exists|i: int| 0 <= i < steps.len() && (#[trigger] steps.deep_view()[i]) is SyncMessages,
{
    let mut i: usize = 0;
    while i < steps.len()
        invariant
            i <= steps.len(),
            forall|j: int| 0 <= j < i ==> !((#[trigger] steps.deep_view()[j]) is SyncMessages),
        decreases steps.len() - i,
    {
        assert(steps.deep_view()[i as int] == steps@[i as int]@);
        if let AccountSynchronizeStep::SyncMessages = &steps[i] {
            return true;
        }
        i += 1;
    }
    false
}

/// An address as it is handed to synchronisation where the user listed
/// it: without balance and without outputs.
pub open spec fn address_reset(address: AddressView) -> AddressView {
    AddressView { balance: 0, outputs: Seq::empty(), ..address }
}

/// The addresses of the account that the user listed, each reset, in the
/// account's order.
pub open spec fn listed_addresses(account: AccountView, wanted: Seq<Seq<char>>) -> Seq<AddressView> {
    account.addresses.filter(|a: AddressView| wanted.contains(a.address)).map_values(
        |a: AddressView| address_reset(a),
    )
}

/// The addresses to synchronise where the user listed them.
pub fn listed_addresses_to_sync(account: &Account, wanted: &Vec<String>) -> (r: Vec<Address>)
    ensures
        r.deep_view() == listed_addresses(account@, strings_view(wanted@)),
{
    let ghost addresses = account@.addresses;
    let ghost keep = |a: AddressView| strings_view(wanted@).contains(a.address);
    let ghost make = |a: AddressView| address_reset(a);
    let mut found: Vec<Address> = Vec::new();
    let mut i: usize = 0;
    proof {
        assert(addresses.take(0) =~= Seq::empty());
        assert(found.deep_view() =~= addresses.take(0).filter(keep).map_values(make));
    }
    while i < account.addresses.len()
        invariant
            i <= account.addresses.len(),
            addresses == account@.addresses,
            keep == |a: AddressView| strings_view(wanted@).contains(a.address),
            make == |a: AddressView| address_reset(a),
            found.deep_view() == addresses.take(i as int).filter(keep).map_values(make),
        decreases account.addresses.len() - i,
    {
        let address = &account.addresses[i];
        proof {
            assert(addresses[i as int] == address@);
            assert(addresses.take(i as int + 1).drop_last() =~= addresses.take(i as int));
            reveal(Seq::filter);
        }
        if contains_string(wanted, &address.address) {
            let ghost before = found.deep_view();
            let reset = Address::new(address.address.clone(), address.key_index, address.internal);
            found.push(reset);
            assert(found.deep_view() =~= before.push(make(address@)));
        }
        i += 1;
    }
    assert(addresses.take(account.addresses.len() as int) =~= addresses);
    found
}

/// The account holds the message with the same confirmation.
pub open spec fn is_known_as_is(messages: Seq<MessageView>, found: MessageView) -> bool {
    exists|i: int|
        0 <= i < messages.len() && (#[trigger] messages[i]).id == found.id && messages[i].confirmed
            == found.confirmed
}

/// The found messages that tell the account something: those that it does
/// not hold with the same confirmation.
pub open spec fn telling_messages(account: AccountView, found: Seq<MessageView>) -> Seq<MessageView> {
    found.filter(|m: MessageView| !is_known_as_is(account.messages, m))
}

/// The found messages that tell the account something.
pub fn new_found_messages(account: &Account, found: Vec<Message>) -> (r: Vec<Message>)
    ensures
        r.deep_view() == telling_messages(account@, found.deep_view()),
{
    let ghost view = found.deep_view();
    let ghost keep = |m: MessageView| !is_known_as_is(account@.messages, m);
    let mut telling: Vec<Message> = Vec::new();
    let mut i: usize = 0;
    proof {
        assert(view.take(0) =~= Seq::empty());
        assert(telling.deep_view() =~= view.take(0).filter(keep));
    }
    while i < found.len()
        invariant
            i <= found.len(),
            view == found.deep_view(),
            keep == |m: MessageView| !is_known_as_is(account@.messages, m),
            telling.deep_view() == view.take(i as int).filter(keep),
        decreases found.len() - i,
    {
        let message = &found[i];
        proof {
            assert(view[i as int] == message@);
            assert(view.take(i as int + 1).drop_last() =~= view.take(i as int));
            reveal(Seq::filter);
        }
        let mut known = false;
        let mut k: usize = 0;
        while k < account.messages.len()
            invariant
                k <= account.messages.len(),
                !known ==> forall|j: int|
                    0 <= j < k ==> !((#[trigger] account@.messages[j]).id == message@.id
                        && account@.messages[j].confirmed == message@.confirmed),
                known ==> is_known_as_is(account@.messages, message@),
            decreases account.messages.len() - k,
        {
            let held = &account.messages[k];
            assert(account@.messages[k as int] == held@);
            if held.id == message.id && held.confirmed == message.confirmed {
                known = true;
            }
            k += 1;
        }
        if !known {
            let ghost before = telling.deep_view();
            telling.push(message.clone());
            assert(telling.deep_view() =~= before.push(message@));
        }
        i += 1;
    }
    assert(view.take(found.len() as int) =~= view);
    telling
}

/// The addresses of the account that the address step did not touch: they
/// are synchronised with the messages, so that a change of confirmation on
/// a spent output shows.
pub open spec fn untouched_addresses(account: AccountView, touched: Seq<AddressView>) -> Seq<AddressView> {
    account.addresses.filter(|a: AddressView| address_position(touched, a.address).is_none())
}

/// The addresses that are synchronised with the messages.
pub fn addresses_for_message_sync(account: &Account, touched: &Vec<Address>) -> (r: Vec<Address>)
    ensures
        r.deep_view() == untouched_addresses(account@, touched.deep_view()),
{
    let ghost addresses = account@.addresses;
    let ghost keep = |a: AddressView| address_position(touched.deep_view(), a.address).is_none();
    let mut found: Vec<Address> = Vec::new();
    let mut i: usize = 0;
    proof {
        assert(addresses.take(0) =~= Seq::empty());
        assert(found.deep_view() =~= addresses.take(0).filter(keep));
    }
    while i < account.addresses.len()
        invariant
            i <= account.addresses.len(),
            addresses == account@.addresses,
            keep == |a: AddressView| address_position(touched.deep_view(), a.address).is_none(),
            found.deep_view() == addresses.take(i as int).filter(keep),
        decreases account.addresses.len() - i,
    {
        let address = &account.addresses[i];
        proof {
            assert(addresses[i as int] == address@);
            assert(addresses.take(i as int + 1).drop_last() =~= addresses.take(i as int));
            reveal(Seq::filter);
        }
        if position_of_address(touched, &address.address).is_none() {
            let ghost before = found.deep_view();
            found.push(address.clone());
            assert(found.deep_view() =~= before.push(address@));
        }
        i += 1;
    }
    assert(addresses.take(account.addresses.len() as int) =~= addresses);
    found
}

/// What a synchronisation found, before it is stored.
#[derive(Debug)]
pub struct SyncedAccountData {
    /// The messages that tell the account something.
    pub messages: Vec<Message>,
    /// The addresses that the account takes over.
    pub addresses: Vec<Address>,
}

/// What a synchronisation found, as a mathematical value.
pub ghost struct SyncedAccountDataView {
    pub messages: Seq<MessageView>,
    pub addresses: Seq<AddressView>,
}

impl View for SyncedAccountData {
    type V = SyncedAccountDataView;

    open spec fn view(&self) -> SyncedAccountDataView {
        SyncedAccountDataView {
            messages: self.messages.deep_view(),
            addresses: self.addresses.deep_view(),
        }
    }
}

impl SyncedAccountDataView {
    /// Nothing was found: every address is without balance and outputs.
    pub open spec fn is_empty(self) -> bool {
        forall|i: int| 0 <= i < self.addresses.len() ==> (#[trigger] self.addresses[i]).is_empty()
    }
}

impl SyncedAccountData {
    /// Makes the result of a synchronisation of the addresses that were
    /// synchronised, in their order, and of the messages that tell the
    /// account something. Of the unused addresses at the end only the first
    /// is kept.
    pub fn new(found_addresses: Vec<Address>, new_messages: Vec<Message>) -> (r: Self)
        ensures
            r@ == (SyncedAccountDataView {
                messages: new_messages.deep_view(),
                addresses: trimmed(found_addresses.deep_view()),
            }),
    {
        SyncedAccountData { messages: new_messages, addresses: trim_unused_tail(found_addresses) }
    }

    /// Whether every address is without balance and outputs.
    pub fn is_empty(&self) -> (r: bool)
        ensures
            r == self@.is_empty(),
    {
        let mut i: usize = 0;
        while i < self.addresses.len()
            invariant
                i <= self.addresses.len(),
                forall|j: int| 0 <= j < i ==> (#[trigger] self@.addresses[j]).is_empty(),
            decreases self.addresses.len() - i,
        {
            assert(self@.addresses[i as int] == self.addresses@[i as int]@);
            if !self.addresses[i].is_empty() {
                return false;
            }
            i += 1;
        }
        true
    }
}

/// The identifiers and confirmations of the messages, in their order.
pub open spec fn confirmations(messages: Seq<MessageView>) -> Seq<(Seq<u8>, Option<bool>)> {
    messages.map_values(|m: MessageView| (m.id, m.confirmed))
}

/// The views of a list of message identifiers with confirmations.
pub open spec fn known_view(known: Seq<(MessageId, Option<bool>)>) -> Seq<(Seq<u8>, Option<bool>)> {
    Seq::new(known.len(), |i: int| (known[i].0@, known[i].1))
}

/// The identifiers of the messages of the account, each with what is known
/// of its confirmation.
pub fn known_messages(account: &Account) -> (r: Vec<(MessageId, Option<bool>)>)
    ensures
        known_view(r@) == confirmations(account@.messages),
{
    let mut known: Vec<(MessageId, Option<bool>)> = Vec::new();
    let mut i: usize = 0;
    while i < account.messages.len()
        invariant
            i <= account.messages.len(),
            known.len() == i,
            forall|j: int|
                0 <= j < i ==> (known@[j].0@ == (#[trigger] account@.messages[j]).id && known@[j].1
                    == account@.messages[j].confirmed),
        decreases account.messages.len() - i,
    {
        let message = &account.messages[i];
        assert(account@.messages[i as int] == message@);
        known.push((message.id, message.confirmed));
        i += 1;
    }
    assert(known_view(known@) =~= confirmations(account@.messages));
    known
}

/// The message was not known before.
pub open spec fn is_new_to(before: Seq<(Seq<u8>, Option<bool>)>, message: MessageView) -> bool {
    forall|i: int| 0 <= i < before.len() ==> (#[trigger] before[i]).0 != message.id
}

/// The message was known before with another confirmation.
pub open spec fn confirmation_differs(before: Seq<(Seq<u8>, Option<bool>)>, message: MessageView) -> bool {
    exists|i: int|
        0 <= i < before.len() && (#[trigger] before[i]).0 == message.id && before[i].1
            != message.confirmed
}

/// The messages among `found` that were not known before.
pub open spec fn new_messages(before: Seq<(Seq<u8>, Option<bool>)>, found: Seq<MessageView>) -> Seq<
    MessageView,
> {
    found.filter(|m: MessageView| is_new_to(before, m))
}

/// The messages among `found` that were known before with another
/// confirmation.
pub open spec fn confirmation_changed_messages(
    before: Seq<(Seq<u8>, Option<bool>)>,
    found: Seq<MessageView>,
) -> Seq<MessageView> {
    found.filter(|m: MessageView| confirmation_differs(before, m))
}

/// Tells the found messages that are new from those whose confirmation
/// changed.
pub fn diff_messages(before: &Vec<(MessageId, Option<bool>)>, found: &Vec<Message>) -> (r: (
    Vec<Message>,
    Vec<Message>,
))
    ensures
        r.0.deep_view() == new_messages(known_view(before@), found.deep_view()),
        r.1.deep_view() == confirmation_changed_messages(known_view(before@), found.deep_view()),
{
    let ghost view = found.deep_view();
    let ghost known = known_view(before@);
    let ghost fresh = |m: MessageView| is_new_to(known, m);
    let ghost differs = |m: MessageView| confirmation_differs(known, m);
    let mut new: Vec<Message> = Vec::new();
    let mut changed: Vec<Message> = Vec::new();
    let mut i: usize = 0;
    proof {
        assert(view.take(0) =~= Seq::empty());
        assert(new.deep_view() =~= view.take(0).filter(fresh));
        assert(changed.deep_view() =~= view.take(0).filter(differs));
    }
    while i < found.len()
        invariant
            i <= found.len(),
            view == found.deep_view(),
            known == known_view(before@),
            fresh == |m: MessageView| is_new_to(known, m),
            differs == |m: MessageView| confirmation_differs(known, m),
            new.deep_view() == view.take(i as int).filter(fresh),
            changed.deep_view() == view.take(i as int).filter(differs),
        decreases found.len() - i,
    {
        let message = &found[i];
        proof {
            assert(view[i as int] == message@);
            assert(view.take(i as int + 1).drop_last() =~= view.take(i as int));
            reveal(Seq::filter);
        }
        let mut seen = false;
        let mut differing = false;
        let mut k: usize = 0;
        while k < before.len()
            invariant
                k <= before.len(),
                known == known_view(before@),
                seen == exists|j: int| 0 <= j < k && (#[trigger] known[j]).0 == message@.id,
                differing == exists|j: int|
                    0 <= j < k && (#[trigger] known[j]).0 == message@.id && known[j].1
                        != message@.confirmed,
            decreases before.len() - k,
        {
            assert(known[k as int] == (before@[k as int].0@, before@[k as int].1));
            if before[k].0 == message.id {
                seen = true;
                if before[k].1 != message.confirmed {
                    differing = true;
                }
            }
            k += 1;
        }
        assert(seen == !is_new_to(known, message@));
        assert(differing == confirmation_differs(known, message@));
        if !seen {
            let ghost so_far = new.deep_view();
            new.push(message.clone());
            assert(new.deep_view() =~= so_far.push(message@));
        }
        if differing {
            let ghost so_far = changed.deep_view();
            changed.push(message.clone());
            assert(changed.deep_view() =~= so_far.push(message@));
        }
        i += 1;
    }
    assert(view.take(found.len() as int) =~= view);
    (new, changed)
}

/// The address differs from what the account held before: it was not
/// held, or its balance or its outputs are others.
pub open spec fn address_changed(before: Seq<AddressView>, address: AddressView) -> bool {
    match address_position(before, address.address) {
        Some(i) => before[i].balance != address.balance || before[i].outputs != address.outputs,
        None => true,
    }
}

/// The addresses among `after` that differ from what the account held
/// before.
pub open spec fn changed_addresses(before: Seq<AddressView>, after: Seq<AddressView>) -> Seq<AddressView> {
    after.filter(|a: AddressView| address_changed(before, a))
}

/// The addresses that a synchronisation changed or added.
pub fn addresses_changed(before: &Vec<Address>, after: &Vec<Address>) -> (r: Vec<Address>)
    ensures
        r.deep_view() == changed_addresses(before.deep_view(), after.deep_view()),
{
    let ghost view = after.deep_view();
    let ghost snapshot = before.deep_view();
    let ghost keep = |a: AddressView| address_changed(snapshot, a);
    let mut found: Vec<Address> = Vec::new();
    let mut i: usize = 0;
    proof {
        assert(view.take(0) =~= Seq::empty());
        assert(found.deep_view() =~= view.take(0).filter(keep));
    }
    while i < after.len()
        invariant
            i <= after.len(),
            view == after.deep_view(),
            snapshot == before.deep_view(),
            keep == |a: AddressView| address_changed(snapshot, a),
            found.deep_view() == view.take(i as int).filter(keep),
        decreases after.len() - i,
    {
        let address = &after[i];
        proof {
            assert(view[i as int] == address@);
            assert(view.take(i as int + 1).drop_last() =~= view.take(i as int));
            reveal(Seq::filter);
        }
        let changed = match position_of_address(before, &address.address) {
            Some(p) => {
                assert(snapshot[p as int] == before@[p as int]@);
                before[p].balance != address.balance || !crate::address::outputs_eq(
                    &before[p].outputs,
                    &address.outputs,
                )
            },
            None => true,
        };
        if changed {
            let ghost so_far = found.deep_view();
            found.push(address.clone());
            assert(found.deep_view() =~= so_far.push(address@));
        }
        i += 1;
    }
    assert(view.take(after.len() as int) =~= view);
    found
}

/// Data returned from account synchronization.
#[derive(Debug)]
pub struct SyncedAccount {
    /// The account identifier.
    pub id: String,
    /// The account index.
    pub index: usize,
    /// The account's deposit address: its latest address, where it has a
    /// public address.
    pub deposit_address: Option<Address>,
    /// Whether the synced account is empty or not.
    pub is_empty: bool,
    /// The newly found and updated account messages.
    pub messages: Vec<Message>,
    /// The newly generated and updated account addresses.
    pub addresses: Vec<Address>,
}

/// The result of a synchronisation as a mathematical value.
pub ghost struct SyncedAccountView {
    pub id: Seq<char>,
    pub index: usize,
    pub deposit_address: Option<AddressView>,
    pub is_empty: bool,
    pub messages: Seq<MessageView>,
    pub addresses: Seq<AddressView>,
}

impl View for SyncedAccount {
    type V = SyncedAccountView;

    open spec fn view(&self) -> SyncedAccountView {
        SyncedAccountView {
            id: self.id@,
            index: self.index,
            deposit_address: self.deposit_address.deep_view(),
            is_empty: self.is_empty,
            messages: self.messages.deep_view(),
            addresses: self.addresses.deep_view(),
        }
    }
}

/// The latest address of the account, where it has a public address.
pub open spec fn deposit_address_of(account: AccountView) -> Option<AddressView> {
    if has_public_address(account.addresses) {
        Some(account.addresses[choose|i: int| is_latest_address(account.addresses, i)])
    } else {
        None
    }
}

/// A copy of the latest address of the account, where it has a public
/// address.
pub fn deposit_address(account: &Account) -> (r: Option<Address>)
    ensures
        r.deep_view() == deposit_address_of(account@),
{
    match account.latest_address() {
        Some(i) => {
            proof {
                crate::account::lemma_latest_is_unique(
                    account@.addresses,
                    i as int,
                    choose|j: int| is_latest_address(account@.addresses, j),
                );
                assert(account@.addresses[i as int] == account.addresses@[i as int]@);
            }
            Some(account.addresses[i].clone())
        },
        None => None,
    }
}

impl SyncedAccount {
    /// Emulates a synced account from an account. Should only be used if
    /// sync is guaranteed.
    pub fn from(account: &Account) -> (r: Self)
        ensures
            r@ == (SyncedAccountView {
                id: account@.id,
                index: account@.index,
                deposit_address: deposit_address_of(account@),
                is_empty: false,
                messages: Seq::empty(),
                addresses: Seq::empty(),
            }),
    {
        let r = SyncedAccount {
            id: account.id.clone(),
            index: account.index,
            deposit_address: deposit_address(account),
            is_empty: false,
            messages: Vec::new(),
            addresses: Vec::new(),
        };
        assert(r.messages.deep_view() =~= Seq::empty());
        assert(r.addresses.deep_view() =~= Seq::empty());
        r
    }

    /// The account's deposit address.
    pub fn deposit_address(&self) -> (r: &Option<Address>)
        ensures
            r == &self.deposit_address,
    {
        &self.deposit_address
    }

    /// Whether nothing was found on the account.
    pub fn is_empty(&self) -> (r: bool)
        ensures
            r == self.is_empty,
    {
        self.is_empty
    }

    /// The newly found and updated account messages.
    pub fn messages(&self) -> (r: &Vec<Message>)
        ensures
            r == &self.messages,
    {
        &self.messages
    }

    /// The newly generated and updated account addresses.
    pub fn addresses(&self) -> (r: &Vec<Address>)
        ensures
            r == &self.addresses,
    {
        &self.addresses
    }
}

/// The account after what a synchronisation found was stored in it at
/// time `now`.
pub open spec fn account_synced(account: AccountView, data: SyncedAccountDataView, now: i64) -> AccountView {
    AccountView {
        addresses: addresses_appended(account.addresses, data.addresses),
        messages: messages_appended(account.messages, data.messages),
        last_synced_at: Some(now),
        ..account
    }
}

/// The account after a synchronisation: with what was found, unless that
/// is not to be stored.
pub open spec fn account_after(
    account: AccountView,
    data: SyncedAccountDataView,
    skip_persistence: bool,
    now: i64,
) -> AccountView {
    if skip_persistence {
        account
    } else {
        account_synced(account, data, now)
    }
}

/// What a synchronisation comes to: the result that is handed out, and the
/// events to emit.
#[derive(Debug)]
pub struct SyncOutcome {
    /// The result of the synchronisation.
    pub synced_account: SyncedAccount,
    /// The events to emit.
    pub events: SyncedAccountEvents,
}

/// The result of the synchronisation of `before` that found `data` and
/// left the account as `after`. It holds the messages that are new to the
/// account and then those whose confirmation changed, and the addresses
/// that are new or changed.
pub open spec fn synced_account_of(
    before: AccountView,
    data: SyncedAccountDataView,
    after: AccountView,
) -> SyncedAccountView {
    SyncedAccountView {
        id: after.id,
        index: after.index,
        deposit_address: deposit_address_of(after),
        is_empty: data.is_empty(),
        messages: new_messages(confirmations(before.messages), data.messages)
            + confirmation_changed_messages(confirmations(before.messages), data.messages),
        addresses: changed_addresses(before.addresses, after.addresses),
    }
}

impl AccountSynchronizer {
    /// Concludes a synchronisation with what was found on the ledger:
    /// stores it in the account, unless that is to be skipped, and works out
    /// the result and the events by comparing the account with what it was
    /// before.
    pub fn execute(self, account: &mut Account, data: SyncedAccountData, sync_spent_outputs: bool, now: i64) -> (r:
        SyncOutcome)
        ensures
            final(account)@ == account_after(old(account)@, data@, self@.skip_persistence, now),
            r.synced_account@ == synced_account_of(old(account)@, data@, final(account)@),
            r.events.balance_change_events.deep_view() == balance_events(
                sync_spent_outputs,
                old(account)@.addresses,
                final(account)@.addresses,
            ),
            r.events.new_transaction_events.deep_view() == new_messages(
                confirmations(old(account)@.messages),
                data@.messages,
            ),
            r.events.confirmation_change_events.deep_view() == confirmation_changed_messages(
                confirmations(old(account)@.messages),
                data@.messages,
            ).map_values(|m: MessageView| confirmation_event(m)),
    {
        let is_empty = data.is_empty();
        let messages_before_sync = known_messages(account);
        let addresses_before_sync = clone_addresses(&account.addresses);
        if !self.skip_persistence {
            account.append_addresses(clone_addresses(&data.addresses));
            account.append_messages(clone_messages(&data.messages));
            account.set_last_synced_at(Some(now));
        }
        let (new, changed) = diff_messages(&messages_before_sync, &data.messages);
        let events = get_events(
            sync_spent_outputs,
            &addresses_before_sync,
            &account.addresses,
            &new,
            &changed,
        );
        let mut updated_messages = clone_messages(&new);
        let ghost first = updated_messages.deep_view();
        let mut rest = changed;
        let ghost second = rest.deep_view();
        updated_messages.append(&mut rest);
        assert(updated_messages.deep_view() =~= first + second);
        let synced_account = SyncedAccount {
            id: account.id.clone(),
            index: account.index,
            deposit_address: deposit_address(account),
            is_empty,
            messages: updated_messages,
            addresses: addresses_changed(&addresses_before_sync, &account.addresses),
        };
        SyncOutcome { synced_account, events }
    }
}

} // verus!
