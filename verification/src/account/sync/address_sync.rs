//! The decisions of the synchronisation of one address: which outputs and
//! messages to ask the node for, and what to make of its answers.

use crate::address::{Address, AddressOutput, AddressOutputView, AddressView, MessageId, OutputId};
use crate::address::{lemma_output_position, output_position};
use crate::message::{Message, MessageView};
use crate::search::distinct;
use vstd::prelude::*;

verus! {

/// The number of output identifiers at which the node cuts its answer off.
pub const OUTPUT_QUERY_LIMIT: usize = 1000;

/// What the node reports of a message's place in the ledger.
#[derive(Clone, Copy, Debug, PartialEq, Eq, Structural)]
pub enum LedgerInclusionState {
    /// The message's transaction conflicts with another.
    Conflicting,
    /// The ledger includes the message's transaction.
    Included,
    /// The message carries no transaction.
    NoTransaction,
}

/// Whether the unspent outputs have to be asked for once more: they do
/// where spent outputs were asked for too and the answer was cut off.
pub fn needs_unspent_query(fetch_spent_outputs: bool, found: usize) -> (r: bool)
    ensures
        r == (fetch_spent_outputs && found == OUTPUT_QUERY_LIMIT),
{
    fetch_spent_outputs && found == OUTPUT_QUERY_LIMIT
}

/// The views of a list of output identifiers.
pub open spec fn ids_view(ids: Seq<OutputId>) -> Seq<(Seq<u8>, u16)> {
    Seq::new(ids.len(), |i: int| ids[i]@)
}

/// Whether `ids` holds the identifier `wanted`.
pub fn contains_id(ids: &Vec<OutputId>, wanted: &OutputId) -> (r: bool)
    ensures
        r == ids_view(ids@).contains(wanted@),
{
    let mut i: usize = 0;
    while i < ids.len()
        invariant
            i <= ids.len(),
            forall|j: int| 0 <= j < i ==> ids_view(ids@)[j] != wanted@,
        decreases ids.len() - i,
    {
        if ids[i] == *wanted {
            assert(ids_view(ids@)[i as int] == wanted@);
            return true;
        }
        i += 1;
    }
    false
}

/// Joins the answers of the two queries for the outputs of an address:
/// every identifier of either answer, each once, in the order in which
/// they first occur.
pub fn merge_output_ids(first: &Vec<OutputId>, second: &Vec<OutputId>) -> (r: Vec<OutputId>)
    ensures
        ids_view(r@) == distinct(ids_view(first@) + ids_view(second@)),
{
    let ghost all = ids_view(first@) + ids_view(second@);
    let mut merged: Vec<OutputId> = Vec::new();
    let mut i: usize = 0;
    proof {
        assert(all.take(0) =~= Seq::empty());
        assert(ids_view(merged@) =~= distinct(all.take(0)));
    }
    while i < first.len()
        invariant
            i <= first.len(),
            all == ids_view(first@) + ids_view(second@),
            ids_view(merged@) == distinct(all.take(i as int)),
        decreases first.len() - i,
    {
        proof {
            assert(all.take(i as int + 1).drop_last() =~= all.take(i as int));
            assert(all[i as int] == first@[i as int]@);
        }
        if !contains_id(&merged, &first[i]) {
            let ghost before = ids_view(merged@);
            merged.push(first[i]);
            assert(ids_view(merged@) =~= before.push(first@[i as int]@));
        }
        i += 1;
    }
    let mut k: usize = 0;
    while k < second.len()
        invariant
            k <= second.len(),
            all == ids_view(first@) + ids_view(second@),
            ids_view(merged@) == distinct(all.take(first.len() + k)),
        decreases second.len() - k,
    {
        proof {
            assert(all.take(first.len() + k + 1).drop_last() =~= all.take(first.len() + k));
            assert(all[first.len() + k] == second@[k as int]@);
        }
        if !contains_id(&merged, &second[k]) {
            let ghost before = ids_view(merged@);
            merged.push(second[k]);
            assert(ids_view(merged@) =~= before.push(second@[k as int]@));
        }
        k += 1;
    }
    assert(all.take(first.len() + second.len()) =~= all);
    merged
}

/// An output has to be asked for unless the address already holds it as
/// spent: a spent output does not change any more.
pub open spec fn output_is_settled(outputs: Seq<AddressOutputView>, id: (Seq<u8>, u16)) -> bool {
    output_position(outputs, id) matches Some(i) && outputs[i].is_spent
}

/// The identifiers among `reported` whose outputs have to be asked for.
pub open spec fn ids_to_fetch(outputs: Seq<AddressOutputView>, reported: Seq<(Seq<u8>, u16)>) -> Seq<
    (Seq<u8>, u16),
> {
    reported.filter(|id: (Seq<u8>, u16)| !output_is_settled(outputs, id))
}

/// Whether the address holds the output `id` as spent.
pub fn is_settled(address: &Address, id: &OutputId) -> (r: bool)
    ensures
        r == output_is_settled(address@.outputs, id@),
{
    match address.find_output(id) {
        Some(i) => {
            assert(address@.outputs[i as int] == address.outputs@[i as int]@);
            address.outputs[i].is_spent
        },
        None => false,
    }
}

/// The outputs that the node has to be asked for, of those it reported for
/// an address: all but those that the address already holds as spent.
pub fn outputs_to_fetch(address: &Address, reported: &Vec<OutputId>) -> (r: Vec<OutputId>)
    ensures
        ids_view(r@) == ids_to_fetch(address@.outputs, ids_view(reported@)),
{
    let ghost all = ids_view(reported@);
    let ghost open = |id: (Seq<u8>, u16)| !output_is_settled(address@.outputs, id);
    let mut found: Vec<OutputId> = Vec::new();
    let mut i: usize = 0;
    proof {
        assert(all.take(0) =~= Seq::empty());
        assert(ids_view(found@) =~= all.take(0).filter(open));
    }
    while i < reported.len()
        invariant
            i <= reported.len(),
            all == ids_view(reported@),
            open == |id: (Seq<u8>, u16)| !output_is_settled(address@.outputs, id),
            ids_view(found@) == all.take(i as int).filter(open),
        decreases reported.len() - i,
    {
        proof {
            assert(all.take(i as int + 1).drop_last() =~= all.take(i as int));
            assert(all[i as int] == reported@[i as int]@);
            reveal(Seq::filter);
        }
        if !is_settled(address, &reported[i]) {
            let ghost before = ids_view(found@);
            found.push(reported[i]);
            assert(ids_view(found@) =~= before.push(reported@[i as int]@));
        }
        i += 1;
    }
    assert(all.take(reported.len() as int) =~= all);
    found
}

/// The account knows the message `id` and whether the ledger includes it.
pub open spec fn confirmation_is_known(known: Seq<(MessageId, Option<bool>)>, id: Seq<u8>) -> bool {
    exists|i: int| 0 <= i < known.len() && (#[trigger] known[i]).0@ == id && known[i].1.is_some()
}

/// Whether the message that carried an output has to be asked for: it has
/// unless the account knows the message and its confirmation.
pub fn needs_message(known: &Vec<(MessageId, Option<bool>)>, id: &MessageId) -> (r: bool)
    ensures
        r == !confirmation_is_known(known@, id@),
{
    let mut i: usize = 0;
    while i < known.len()
        invariant
            i <= known.len(),
            forall|j: int| 0 <= j < i ==> !((#[trigger] known@[j]).0@ == id@ && known@[j].1.is_some()),
        decreases known.len() - i,
    {
        if known[i].0 == *id && known[i].1.is_some() {
            return false;
        }
        i += 1;
    }
    true
}

/// What an inclusion state says of a message's confirmation: nothing where
/// the node reports none, else whether the ledger includes the message.
pub fn confirmation_of(state: Option<LedgerInclusionState>) -> (r: Option<bool>)
    ensures
        r == match state {
            Some(s) => Some(s == LedgerInclusionState::Included),
            None => None,
        },
{
    match state {
        Some(LedgerInclusionState::Included) => Some(true),
        Some(_) => Some(false),
        None => None,
    }
}

/// The confirmation of the message that carried an output: a message whose
/// output was spent is confirmed, whatever the node reports of it.
pub fn synced_confirmation(output_is_spent: bool, reported: Option<bool>) -> (r: Option<bool>)
    ensures
        r == if output_is_spent {
            Some(true)
        } else {
            reported
        },
{
    if output_is_spent {
        Some(true)
    } else {
        reported
    }
}

/// The message that carried an output, as it is handed on: with the
/// confirmation that the output and the node's report give it.
pub fn synced_message(message: Message, output_is_spent: bool, state: Option<LedgerInclusionState>) -> (r:
    Message)
    ensures
        r@ == (MessageView {
            confirmed: if output_is_spent {
                Some(true)
            } else {
                match state {
                    Some(s) => Some(s == LedgerInclusionState::Included),
                    None => None,
                }
            },
            ..message@
        }),
{
    let mut message = message;
    message.confirmed = synced_confirmation(output_is_spent, confirmation_of(state));
    message
}

/// The address with the balance and the outputs that the node reported:
/// each output is recorded in turn, and the last one with an identifier
/// wins.
pub open spec fn address_synced(address: AddressView, balance: u64, found: Seq<AddressOutputView>) -> AddressView
    decreases found.len(),
{
    if found.len() == 0 {
        AddressView { balance, ..address }
    } else {
        address_synced(address, balance, found.drop_last()).with_output(found.last())
    }
}

/// Records on an address what the node reported of it.
pub fn apply_synced_outputs(address: &mut Address, balance: u64, found: Vec<AddressOutput>)
    ensures
        final(address)@ == address_synced(old(address)@, balance, found.deep_view()),
        old(address)@.wf() ==> final(address)@.wf(),
{
    let ghost view = found.deep_view();
    address.balance = balance;
    let mut i: usize = 0;
    assert(view.take(0) =~= Seq::empty());
    while i < found.len()
        invariant
            i <= found.len(),
            view == found.deep_view(),
            address@ == address_synced(old(address)@, balance, view.take(i as int)),
            old(address)@.wf() ==> address@.wf(),
        decreases found.len() - i,
    {
        proof {
            assert(view.take(i as int + 1).drop_last() =~= view.take(i as int));
            assert(view[i as int] == found@[i as int]@);
        }
        address.insert_output(found[i].clone());
        i += 1;
    }
    assert(view.take(found.len() as int) =~= view);
}

/// An output that was seen as spent stays as it is. The outputs that are
/// fetched are none of those that the address holds as spent, so
/// recording them leaves every spent output of the address untouched, and
/// where it was.
pub proof fn lemma_spent_outputs_stay(address: AddressView, balance: u64, found: Seq<AddressOutputView>, i: int)
    requires
        forall|k: int| 0 <= k < found.len() ==> !output_is_settled(address.outputs, (#[trigger] found[k]).id()),
        0 <= i < address.outputs.len(),
        address.outputs[i].is_spent,
        address.wf(),
    ensures
        i < address_synced(address, balance, found).outputs.len(),
        address_synced(address, balance, found).outputs[i] == address.outputs[i],
    decreases found.len(),
{
    if found.len() > 0 {
        let rest = found.drop_last();
        assert forall|k: int| 0 <= k < rest.len() implies !output_is_settled(
            address.outputs,
            (#[trigger] rest[k]).id(),
        ) by {
            assert(rest[k] == found[k]);
        }
        lemma_spent_outputs_stay(address, balance, rest, i);
        let before = address_synced(address, balance, rest);
        let last = found.last();
        lemma_output_position(before.outputs, last.id());
        lemma_output_position(address.outputs, last.id());
        lemma_ids_stay(address, balance, rest);
        match output_position(before.outputs, last.id()) {
            Some(p) => {
                if p == i {
                    assert(address.outputs[i].id() == last.id());
                    assert(output_position(address.outputs, last.id()) == Some(i)) by {
                        let q = output_position(address.outputs, last.id()).unwrap();
                        if q != i {
                            assert(address.outputs[q].id() == address.outputs[i].id());
                        }
                    }
                }
            },
            None => {},
        }
    }
}

/// Recording outputs keeps the identifiers of the outputs that the address
/// held where they are.
pub proof fn lemma_ids_stay(address: AddressView, balance: u64, found: Seq<AddressOutputView>)
    ensures
        address_synced(address, balance, found).outputs.len() >= address.outputs.len(),
        forall|i: int|
            0 <= i < address.outputs.len() ==> (#[trigger] address_synced(
                address,
                balance,
                found,
            ).outputs[i]).id() == address.outputs[i].id(),
    decreases found.len(),
{
    if found.len() > 0 {
        let rest = found.drop_last();
        lemma_ids_stay(address, balance, rest);
        let before = address_synced(address, balance, rest);
        lemma_output_position(before.outputs, found.last().id());
    }
}

} // verus!
