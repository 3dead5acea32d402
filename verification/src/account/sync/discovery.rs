//! Discovery of the addresses of an account: batches of key indices are
//! synchronised until a batch shows nothing, and of the unused addresses at
//! the end one is kept to receive.

use crate::account::{Account, AccountView, address_position};
use crate::address::{Address, AddressView, clone_outputs};
use crate::message::{Message, MessageView};
use crate::search::{first_position, lemma_first_position};
use vstd::prelude::*;

verus! {

/// The position of the first address with the given key index and kind.
pub open spec fn derived_position(addresses: Seq<AddressView>, key_index: usize, internal: bool) -> Option<
    int,
> {
    first_position(addresses, |a: AddressView| a.key_index == key_index && a.internal == internal)
}

/// What `derived_position` finds is the first address with the key index
/// and kind, and it finds nothing only where there is none.
pub proof fn lemma_derived_position(addresses: Seq<AddressView>, key_index: usize, internal: bool)
    ensures
        match derived_position(addresses, key_index, internal) {
            Some(i) => {
                &&& 0 <= i < addresses.len()
                &&& addresses[i].key_index == key_index
                &&& addresses[i].internal == internal
                &&& forall|j: int|
                    0 <= j < i ==> !((#[trigger] addresses[j]).key_index == key_index
                        && addresses[j].internal == internal)
            },
            None => forall|j: int|
                0 <= j < addresses.len() ==> !((#[trigger] addresses[j]).key_index == key_index
                    && addresses[j].internal == internal),
        },
{
    lemma_first_position(addresses, |a: AddressView| a.key_index == key_index && a.internal == internal);
}

/// The address that the account already has for a key index and kind, if
/// it has one. Where it has none the signer has to generate the address.
pub fn known_address(account: &Account, key_index: usize, internal: bool) -> (r: Option<String>)
    ensures
        match r {
            Some(address) => derived_position(account@.addresses, key_index, internal) matches Some(
                i,
            ) && address@ == account@.addresses[i].address,
            None => derived_position(account@.addresses, key_index, internal).is_none(),
        },
{
    let mut i: usize = 0;
    while i < account.addresses.len()
        invariant
            i <= account.addresses.len(),
            forall|j: int|
                0 <= j < i ==> !((#[trigger] account@.addresses[j]).key_index == key_index
                    && account@.addresses[j].internal == internal),
        decreases account.addresses.len() - i,
    {
        let candidate = &account.addresses[i];
        assert(account@.addresses[i as int] == candidate@);
        if candidate.key_index == key_index && candidate.internal == internal {
            proof {
                lemma_derived_position(account@.addresses, key_index, internal);
            }
            return Some(candidate.address.clone());
        }
        i += 1;
    }
    proof {
        lemma_derived_position(account@.addresses, key_index, internal);
    }
    None
}

/// The address that is handed to synchronisation for a key index: without
/// balance, and with the outputs that the account already holds for it.
pub open spec fn address_for_sync(
    account: AccountView,
    key_index: usize,
    internal: bool,
    address: Seq<char>,
) -> AddressView {
    AddressView {
        address,
        key_index,
        internal,
        balance: 0,
        outputs: match address_position(account.addresses, address) {
            Some(i) => account.addresses[i].outputs,
            None => Seq::empty(),
        },
    }
}

/// Makes the address that is handed to synchronisation for a key index.
pub fn address_to_sync(account: &Account, key_index: usize, internal: bool, address: String) -> (r:
    Address)
    ensures
        r@ == address_for_sync(account@, key_index, internal, address@),
{
    let outputs = match account.find_address(&address) {
        Some(i) => {
            assert(account@.addresses[i as int] == account.addresses@[i as int]@);
            clone_outputs(&account.addresses[i].outputs)
        },
        None => {
            let empty: Vec<crate::address::AddressOutput> = Vec::new();
            assert(empty.deep_view() =~= Seq::empty());
            empty
        },
    };
    Address { address, key_index, internal, balance: 0, outputs }
}

/// A synchronised address is kept unless it is a change address without
/// outputs.
pub open spec fn is_kept(address: AddressView) -> bool {
    !(address.internal && address.is_unused())
}

/// The synchronised addresses that are kept, in order.
pub open spec fn kept(addresses: Seq<AddressView>) -> Seq<AddressView> {
    addresses.filter(|a: AddressView| is_kept(a))
}

/// A batch shows nothing: it brought no message, and none of its addresses
/// has an output.
pub open spec fn batch_is_empty(addresses: Seq<AddressView>, messages: Seq<MessageView>) -> bool {
    messages.len() == 0 && forall|i: int| 0 <= i < addresses.len() ==> (#[trigger] addresses[i]).is_unused()
}

/// The synchronised addresses that are kept.
pub fn keep_addresses(synced: Vec<Address>) -> (r: Vec<Address>)
    ensures
        r.deep_view() == kept(synced.deep_view()),
{
    let ghost view = synced.deep_view();
    let ghost keep = |a: AddressView| is_kept(a);
    let mut found: Vec<Address> = Vec::new();
    let mut i: usize = 0;
    proof {
        assert(view.take(0) =~= Seq::empty());
        assert(found.deep_view() =~= view.take(0).filter(keep));
    }
    while i < synced.len()
        invariant
            i <= synced.len(),
            view == synced.deep_view(),
            keep == |a: AddressView| is_kept(a),
            found.deep_view() == view.take(i as int).filter(keep),
        decreases synced.len() - i,
    {
        let address = &synced[i];
        proof {
            assert(view[i as int] == address@);
            assert(view.take(i as int + 1).drop_last() =~= view.take(i as int));
            reveal(Seq::filter);
        }
        if !(address.internal && address.is_unused()) {
            let ghost before = found.deep_view();
            found.push(address.clone());
            assert(found.deep_view() =~= before.push(address@));
        }
        i += 1;
    }
    assert(view.take(synced.len() as int) =~= view);
    found
}

/// Whether none of the addresses has an output.
pub fn all_unused(addresses: &Vec<Address>) -> (r: bool)
    ensures
        r == forall|i: int|
            0 <= i < addresses.len() ==> (#[trigger] addresses.deep_view()[i]).is_unused(),
{
    let mut i: usize = 0;
    while i < addresses.len()
        invariant
            i <= addresses.len(),
            forall|j: int| 0 <= j < i ==> (#[trigger] addresses.deep_view()[j]).is_unused(),
        decreases addresses.len() - i,
    {
        assert(addresses.deep_view()[i as int] == addresses@[i as int]@);
        if !addresses[i].is_unused() {
            return false;
        }
        i += 1;
    }
    true
}

/// The state of the discovery of an account's addresses.
#[derive(Debug)]
pub struct AddressDiscovery {
    /// The first key index of the next batch.
    pub address_index: usize,
    /// The number of key indices in a batch.
    pub gap_limit: usize,
    /// The addresses kept so far, in the order in which they were
    /// synchronised.
    pub addresses: Vec<Address>,
    /// The messages found so far.
    pub messages: Vec<Message>,
    /// Whether the discovery is over.
    pub finished: bool,
}

/// The state of a discovery as a mathematical value.
pub ghost struct AddressDiscoveryView {
    pub address_index: usize,
    pub gap_limit: usize,
    pub addresses: Seq<AddressView>,
    pub messages: Seq<MessageView>,
    pub finished: bool,
}

impl View for AddressDiscovery {
    type V = AddressDiscoveryView;

    open spec fn view(&self) -> AddressDiscoveryView {
        AddressDiscoveryView {
            address_index: self.address_index,
            gap_limit: self.gap_limit,
            addresses: self.addresses.deep_view(),
            messages: self.messages.deep_view(),
            finished: self.finished,
        }
    }
}

/// The end of a batch that begins at `address_index`: `gap_limit` indices
/// further, or at the largest index.
pub open spec fn batch_end(address_index: usize, gap_limit: usize) -> usize {
    if address_index + gap_limit > usize::MAX {
        usize::MAX
    } else {
        (address_index + gap_limit) as usize
    }
}

impl AddressDiscoveryView {
    /// The state after a batch was synchronised. The kept addresses and the
    /// messages are added, the next batch begins where this one ended, and
    /// the discovery is over where the batch showed nothing or the signer
    /// could not generate all of its addresses.
    pub open spec fn absorbed(
        self,
        synced: Seq<AddressView>,
        messages: Seq<MessageView>,
        generation_locked: bool,
    ) -> AddressDiscoveryView {
        AddressDiscoveryView {
            address_index: batch_end(self.address_index, self.gap_limit),
            gap_limit: self.gap_limit,
            addresses: self.addresses + kept(synced),
            messages: self.messages + messages,
            finished: batch_is_empty(synced, messages) || generation_locked,
        }
    }
}

impl AddressDiscovery {
    /// A discovery that begins at `address_index` with batches of
    /// `gap_limit` key indices.
    pub fn new(address_index: usize, gap_limit: usize) -> (r: Self)
        ensures
            r@ == (AddressDiscoveryView {
                address_index,
                gap_limit,
                addresses: Seq::empty(),
                messages: Seq::empty(),
                finished: false,
            }),
    {
        let r = AddressDiscovery {
            address_index,
            gap_limit,
            addresses: Vec::new(),
            messages: Vec::new(),
            finished: false,
        };
        assert(r.addresses.deep_view() =~= Seq::empty());
        assert(r.messages.deep_view() =~= Seq::empty());
        r
    }

    /// The key indices of the next batch, from the first to before the
    /// second, for each of which the public and the change address are
    /// synchronised. There is no next batch once the discovery is over.
    pub fn next_batch(&self) -> (r: Option<(usize, usize)>)
        ensures
            r == if self@.finished {
                None
            } else {
                Some((self@.address_index, batch_end(self@.address_index, self@.gap_limit)))
            },
    {
        if self.finished {
            None
        } else {
            Some((self.address_index, self.address_index.saturating_add(self.gap_limit)))
        }
    }

    /// Takes in a synchronised batch and says whether the discovery is
    /// over.
    pub fn absorb(&mut self, synced: Vec<Address>, messages: Vec<Message>, generation_locked: bool) -> (r:
        bool)
        ensures
            final(self)@ == old(self)@.absorbed(
                synced.deep_view(),
                messages.deep_view(),
                generation_locked,
            ),
            r == final(self)@.finished,
    {
        let empty = messages.len() == 0 && all_unused(&synced);
        let ghost batch = kept(synced.deep_view());
        let ghost found = messages.deep_view();
        let mut kept_addresses = keep_addresses(synced);
        let mut messages = messages;
        let ghost addresses_before = self.addresses.deep_view();
        let ghost messages_before = self.messages.deep_view();
        self.addresses.append(&mut kept_addresses);
        self.messages.append(&mut messages);
        self.address_index = self.address_index.saturating_add(self.gap_limit);
        self.finished = empty || generation_locked;
        proof {
            assert(self.addresses.deep_view() =~= addresses_before + batch);
            assert(self.messages.deep_view() =~= messages_before + found);
        }
        self.finished
    }
}

/// The number of unused addresses at the end of the list.
pub open spec fn trailing_unused(addresses: Seq<AddressView>) -> nat
    decreases addresses.len(),
{
    if addresses.len() == 0 || !addresses.last().is_unused() {
        0
    } else {
        trailing_unused(addresses.drop_last()) + 1
    }
}

/// The discovered addresses that an account takes over: all of them, but
/// of the unused addresses at the end only the first. Unused addresses
/// before a used one stay.
pub open spec fn trimmed(addresses: Seq<AddressView>) -> Seq<AddressView> {
    if trailing_unused(addresses) > 1 {
        addresses.take(addresses.len() - trailing_unused(addresses) + 1)
    } else {
        addresses
    }
}

/// The unused addresses at the end are no more than there are addresses,
/// each of them is unused, and the address before them is not.
pub proof fn lemma_trailing_unused(addresses: Seq<AddressView>)
    ensures
        trailing_unused(addresses) <= addresses.len(),
        forall|i: int|
            addresses.len() - trailing_unused(addresses) <= i < addresses.len() ==> (
            #[trigger] addresses[i]).is_unused(),
        trailing_unused(addresses) < addresses.len() ==> !addresses[addresses.len()
            - trailing_unused(addresses) - 1].is_unused(),
    decreases addresses.len(),
{
    if addresses.len() > 0 && addresses.last().is_unused() {
        lemma_trailing_unused(addresses.drop_last());
        let rest = addresses.drop_last();
        assert forall|i: int|
            addresses.len() - trailing_unused(addresses) <= i < addresses.len() implies (
        #[trigger] addresses[i]).is_unused() by {
            if i < rest.len() {
                assert(rest[i] == addresses[i]);
            }
        }
        if trailing_unused(addresses) < addresses.len() {
            assert(rest[rest.len() - trailing_unused(rest) - 1] == addresses[addresses.len()
                - trailing_unused(addresses) - 1]);
        }
    }
}

/// Drops from the discovered addresses the unused addresses at the end,
/// but for the first of them.
pub fn trim_unused_tail(found: Vec<Address>) -> (r: Vec<Address>)
    ensures
        r.deep_view() == trimmed(found.deep_view()),
{
    let ghost view = found.deep_view();
    let mut unused: usize = 0;
    assert(view.take(found.len() as int) =~= view);
    while unused < found.len() && found[found.len() - 1 - unused].is_unused()
        invariant
            unused <= found.len(),
            view == found.deep_view(),
            trailing_unused(view) == trailing_unused(view.take(found.len() - unused)) + unused,
        decreases found.len() - unused,
    {
        proof {
            let now = view.take(found.len() - unused);
            assert(now.last() == found@[found.len() - 1 - unused]@);
            assert(now.drop_last() =~= view.take(found.len() - unused - 1));
        }
        unused += 1;
    }
    proof {
        let now = view.take(found.len() - unused);
        if unused < found.len() {
            assert(now.last() == found@[found.len() - 1 - unused]@);
        }
        assert(trailing_unused(now) == 0);
        assert(view.take(found.len() as int) =~= view);
    }
    if unused <= 1 {
        return found;
    }
    let keep = found.len() - unused + 1;
    let mut found = found;
    found.truncate(keep);
    assert(found.deep_view() =~= view.take(keep as int));
    found
}

/// A list of discovered addresses that ends with an unused address is
/// taken over with exactly one unused address at its end: the address to
/// receive on.
pub proof fn lemma_one_unused_at_end(addresses: Seq<AddressView>)
    requires
        addresses.len() > 0,
        addresses.last().is_unused(),
    ensures
        trimmed(addresses).len() > 0,
        trimmed(addresses).last().is_unused(),
        trimmed(addresses).len() >= 2 ==> !trimmed(addresses)[trimmed(addresses).len() - 2].is_unused(),
        trailing_unused(trimmed(addresses)) == 1,
{
    lemma_trailing_unused(addresses);
    let kept = trimmed(addresses);
    assert(kept.last().is_unused());
    lemma_trailing_unused(kept);
    if kept.len() >= 2 {
        assert(kept[kept.len() - 2] == addresses[addresses.len() - trailing_unused(addresses) - 1]);
        assert(kept.drop_last().last() == kept[kept.len() - 2]);
        assert(trailing_unused(kept.drop_last()) == 0);
    } else {
        assert(kept.drop_last().len() == 0);
    }
}

/// A discovery that ended because a batch showed nothing, and not because
/// the signer was locked, ends with unused addresses only: every address
/// that this batch added is unused.
pub proof fn lemma_last_batch_unused(
    before: AddressDiscoveryView,
    synced: Seq<AddressView>,
    messages: Seq<MessageView>,
)
    requires
        before.absorbed(synced, messages, false).finished,
    ensures
        forall|i: int|
            before.addresses.len() <= i < before.absorbed(synced, messages, false).addresses.len()
                ==> (#[trigger] before.absorbed(synced, messages, false).addresses[i]).is_unused(),
{
    let after = before.absorbed(synced, messages, false).addresses;
    let keep = |a: AddressView| is_kept(a);
    assert forall|i: int| before.addresses.len() <= i < after.len() implies (#[trigger] after[i]).is_unused() by {
        let k = i - before.addresses.len();
        assert(after[i] == kept(synced)[k]);
        assert(kept(synced).contains(kept(synced)[k]));
        synced.lemma_filter_contains_rev(keep, kept(synced)[k]);
        let j = choose|j: int| 0 <= j < synced.len() && synced[j] == kept(synced)[k];
        assert(synced[j].is_unused());
    }
}

} // verus!
