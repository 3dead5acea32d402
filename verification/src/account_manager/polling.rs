//! What the poller decides on each tick: whether to synchronise, what
//! became of the messages it retried, whether to look for further
//! accounts, and which outputs to consolidate.

use crate::account::sync::address_sync::LedgerInclusionState;
use crate::account::sync::events::{ConfirmationChangeEventData, ConfirmationChangeEventView};
use crate::account::sync::{SyncedAccountData, SyncedAccountDataView};
use crate::account::{Account, AccountView, SignerType, message_position, messages_appended};
use crate::address::MessageId;
use crate::error::Error;
use crate::message::{Message, MessageView, clone_bytes, payload_eq, payload_view};
use vstd::prelude::*;
use vstd::string::*;

verus! {

/// Whether a tick synchronises the accounts: it does unless the last tick
/// did and the live monitoring is healthy since.
pub fn should_sync(synced: bool, is_monitoring: bool) -> (r: bool)
    ensures
        r == !(synced && is_monitoring),
{
    !(synced && is_monitoring)
}

/// The unconfirmed messages of a list, each as identifier and payload.
pub open spec fn unconfirmed(messages: Seq<MessageView>) -> Seq<(Seq<u8>, Option<Seq<u8>>)> {
    messages.filter(|m: MessageView| m.is_unconfirmed()).map_values(
        |m: MessageView| (m.id, m.payload),
    )
}

/// The views of a list of identifiers with payloads.
pub open spec fn retry_list_view(list: Seq<(MessageId, Option<Vec<u8>>)>) -> Seq<
    (Seq<u8>, Option<Seq<u8>>),
> {
    Seq::new(list.len(), |i: int| (list[i].0@, payload_view(list[i].1)))
}

/// The messages of the account that are to be retried: those that the
/// ledger is not known to include.
pub fn unconfirmed_messages(account: &Account) -> (r: Vec<(MessageId, Option<Vec<u8>>)>)
    ensures
        retry_list_view(r@) == unconfirmed(account@.messages),
{
    let ghost view = account@.messages;
    let ghost open = |m: MessageView| m.is_unconfirmed();
    let ghost pair = |m: MessageView| (m.id, m.payload);
    let mut found: Vec<(MessageId, Option<Vec<u8>>)> = Vec::new();
    let mut i: usize = 0;
    proof {
        assert(view.take(0) =~= Seq::empty());
        assert(retry_list_view(found@) =~= view.take(0).filter(open).map_values(pair));
    }
    while i < account.messages.len()
        invariant
            i <= account.messages.len(),
            view == account@.messages,
            open == |m: MessageView| m.is_unconfirmed(),
            pair == |m: MessageView| (m.id, m.payload),
            retry_list_view(found@) == view.take(i as int).filter(open).map_values(pair),
        decreases account.messages.len() - i,
    {
        let message = &account.messages[i];
        proof {
            assert(view[i as int] == message@);
            assert(view.take(i as int + 1).drop_last() =~= view.take(i as int));
            reveal(Seq::filter);
        }
        if message.is_unconfirmed() {
            let payload = match &message.payload {
                Some(bytes) => Some(clone_bytes(bytes)),
                None => None,
            };
            let ghost before = retry_list_view(found@);
            found.push((message.id, payload));
            assert(retry_list_view(found@) =~= before.push(pair(message@)));
        }
        i += 1;
    }
    assert(view.take(account.messages.len() as int) =~= view);
    found
}

/// Some message of the list carries the payload and is confirmed.
pub open spec fn payload_is_confirmed(messages: Seq<MessageView>, payload: Option<Seq<u8>>) -> bool {
    exists|i: int|
        0 <= i < messages.len() && (#[trigger] messages[i]).payload == payload
            && messages[i].confirmed == Some(true)
}

/// The text of the refusal to post a message again whose transaction the
/// ledger already includes.
pub open spec fn no_need_text() -> Seq<char> {
    "NoNeedPromoteOrReattach"@
}

/// Whether a message may be posted again. The account must hold it, and
/// none of its reattachments, which carry the same payload, may be
/// confirmed.
pub fn repost_check(account: &Account, message_id: &MessageId) -> (r: Result<(), Error>)
    ensures
        match message_position(account@.messages, message_id@) {
            Some(p) => if payload_is_confirmed(account@.messages, account@.messages[p].payload) {
                r matches Err(Error::ClientError(text)) && text@ == no_need_text()
            } else {
                r.is_ok()
            },
            None => r matches Err(e) && e is MessageNotFound,
        },
{
    let position = match account.find_message(message_id) {
        Some(position) => position,
        None => {
            return Err(Error::MessageNotFound);
        },
    };
    let wanted = &account.messages[position];
    assert(account@.messages[position as int] == wanted@);
    let mut i: usize = 0;
    while i < account.messages.len()
        invariant
            i <= account.messages.len(),
            position < account.messages.len(),
            account@.messages[position as int] == wanted@,
            message_position(account@.messages, message_id@) == Some(position as int),
            forall|j: int|
                0 <= j < i ==> !((#[trigger] account@.messages[j]).payload == wanted@.payload
                    && account@.messages[j].confirmed == Some(true)),
        decreases account.messages.len() - i,
    {
        let message = &account.messages[i];
        assert(account@.messages[i as int] == message@);
        if payload_eq(&message.payload, &wanted.payload) && !message.is_unconfirmed() {
            return Err(Error::ClientError("NoNeedPromoteOrReattach".to_string()));
        }
        i += 1;
    }
    Ok(())
}

/// The ways to post a message again.
#[derive(Clone, Copy, Debug, PartialEq, Eq, Structural)]
pub enum RepostAction {
    /// As the node sees fit: by a reattachment or by a promotion.
    Retry,
    /// By publishing the same payload under a new message.
    Reattach,
    /// By publishing a message that refers to it.
    Promote,
}

/// What became of the attempt to post a message again.
#[derive(Debug)]
pub enum RetryOutcome {
    /// The node published this message for it.
    Reposted(Message),
    /// The node saw no need: the ledger has decided on the message.
    NoNeedPromoteOrReattach,
    /// The attempt failed otherwise.
    Failed,
}

/// What an attempt to post a message again came to: the message that was
/// published; no need where the node, or the wallet before it, refused
/// because the ledger has decided; a failure otherwise.
pub open spec fn outcome_of(result: Result<Message, Error>, outcome: RetryOutcome) -> bool {
    match result {
        Ok(message) => outcome matches RetryOutcome::Reposted(m) && m@ == message@,
        Err(Error::ClientError(text)) => if crate::search::begins_with(text@, no_need_text()) {
            outcome is NoNeedPromoteOrReattach
        } else {
            outcome is Failed
        },
        Err(_) => outcome is Failed,
    }
}

impl RetryOutcome {
    /// Reads the outcome of an attempt to post a message again.
    pub fn of(result: Result<Message, Error>) -> (r: Self)
        ensures
            outcome_of(result, r),
    {
        match result {
            Ok(message) => RetryOutcome::Reposted(message),
            Err(Error::ClientError(text)) => {
                if crate::search::starts_with(&text, "NoNeedPromoteOrReattach") {
                    RetryOutcome::NoNeedPromoteOrReattach
                } else {
                    RetryOutcome::Failed
                }
            },
            Err(_) => RetryOutcome::Failed,
        }
    }
}

/// What became of the retried messages of one account.
#[derive(Debug)]
pub struct RetriedData {
    /// The messages that were published to promote a message.
    pub promoted: Vec<Message>,
    /// The messages that were published as reattachments, each with the
    /// identifier of the message it reattaches.
    pub reattached: Vec<(MessageId, Message)>,
    /// The messages that the node saw no need to post again.
    pub no_need_promote_or_reattach: Vec<MessageId>,
}

/// The retried messages as a mathematical value.
pub ghost struct RetriedDataView {
    pub promoted: Seq<MessageView>,
    pub reattached: Seq<(Seq<u8>, MessageView)>,
    pub no_need_promote_or_reattach: Seq<Seq<u8>>,
}

impl View for RetriedData {
    type V = RetriedDataView;

    open spec fn view(&self) -> RetriedDataView {
        RetriedDataView {
            promoted: self.promoted.deep_view(),
            reattached: Seq::new(
                self.reattached@.len(),
                |i: int| (self.reattached@[i].0@, self.reattached@[i].1@),
            ),
            no_need_promote_or_reattach: Seq::new(
                self.no_need_promote_or_reattach@.len(),
                |i: int| self.no_need_promote_or_reattach@[i]@,
            ),
        }
    }
}

impl RetriedDataView {
    /// The record after the outcome of one more retry was noted. A message
    /// that was published with the payload of the retried one reattaches
    /// it; one with another payload promotes it.
    pub open spec fn noted(self, id: Seq<u8>, payload: Option<Seq<u8>>, outcome: RetryOutcome) -> RetriedDataView {
        match outcome {
            RetryOutcome::Reposted(message) => if message@.payload == payload {
                RetriedDataView { reattached: self.reattached.push((id, message@)), ..self }
            } else {
                RetriedDataView { promoted: self.promoted.push(message@), ..self }
            },
            RetryOutcome::NoNeedPromoteOrReattach => RetriedDataView {
                no_need_promote_or_reattach: self.no_need_promote_or_reattach.push(id),
                ..self
            },
            RetryOutcome::Failed => self,
        }
    }
}

impl RetriedData {
    /// A record without entries.
    pub fn new() -> (r: Self)
        ensures
            r@ == (RetriedDataView {
                promoted: Seq::empty(),
                reattached: Seq::empty(),
                no_need_promote_or_reattach: Seq::empty(),
            }),
    {
        let r = RetriedData {
            promoted: Vec::new(),
            reattached: Vec::new(),
            no_need_promote_or_reattach: Vec::new(),
        };
        assert(r@.promoted =~= Seq::empty());
        assert(r@.reattached =~= Seq::empty());
        assert(r@.no_need_promote_or_reattach =~= Seq::empty());
        r
    }

    /// Notes what became of the retry of the message `message_id`, which
    /// carries `payload`.
    pub fn record(&mut self, message_id: MessageId, payload: &Option<Vec<u8>>, outcome: RetryOutcome)
        ensures
            final(self)@ == old(self)@.noted(message_id@, payload_view(*payload), outcome),
    {
        match outcome {
            RetryOutcome::Reposted(message) => {
                if payload_eq(&message.payload, payload) {
                    self.reattached.push((message_id, message));
                    assert(self@.reattached =~= old(self)@.reattached.push((message_id@, message@)));
                    assert(self@.promoted =~= old(self)@.promoted);
                    assert(self@.no_need_promote_or_reattach =~= old(
                        self,
                    )@.no_need_promote_or_reattach);
                } else {
                    self.promoted.push(message);
                    assert(self@.promoted =~= old(self)@.promoted.push(message@));
                    assert(self@.reattached =~= old(self)@.reattached);
                    assert(self@.no_need_promote_or_reattach =~= old(
                        self,
                    )@.no_need_promote_or_reattach);
                }
            },
            RetryOutcome::NoNeedPromoteOrReattach => {
                self.no_need_promote_or_reattach.push(message_id);
                assert(self@.no_need_promote_or_reattach =~= old(
                    self,
                )@.no_need_promote_or_reattach.push(message_id@));
                assert(self@.promoted =~= old(self)@.promoted);
                assert(self@.reattached =~= old(self)@.reattached);
            },
            RetryOutcome::Failed => {
                assert(self@.promoted =~= old(self)@.promoted);
                assert(self@.reattached =~= old(self)@.reattached);
                assert(self@.no_need_promote_or_reattach =~= old(
                    self,
                )@.no_need_promote_or_reattach);
            },
        }
    }
}

/// The messages of the reattachments, in order.
pub open spec fn reattachment_messages(reattached: Seq<(Seq<u8>, MessageView)>) -> Seq<MessageView> {
    reattached.map_values(|r: (Seq<u8>, MessageView)| r.1)
}

/// Stores the messages that the retries published in the account: the
/// reattachments first, then the promotions.
pub fn store_retried(account: &mut Account, reattached: &Vec<(MessageId, Message)>, promoted: &Vec<Message>)
    ensures
        final(account)@ == (AccountView {
            messages: messages_appended(
                messages_appended(
                    old(account)@.messages,
                    Seq::new(reattached@.len(), |i: int| reattached@[i].1@),
                ),
                promoted.deep_view(),
            ),
            ..old(account)@
        }),
{
    let mut messages: Vec<Message> = Vec::new();
    let mut i: usize = 0;
    while i < reattached.len()
        invariant
            i <= reattached.len(),
            messages.len() == i,
            forall|j: int| 0 <= j < i ==> messages@[j]@ == reattached@[j].1@,
        decreases reattached.len() - i,
    {
        messages.push(reattached[i].1.clone());
        i += 1;
    }
    assert(messages.deep_view() =~= Seq::new(reattached@.len(), |i: int| reattached@[i].1@));
    account.append_messages(messages);
    account.append_messages(crate::message::clone_messages(promoted));
}

/// What a message's confirmation becomes when the node reports on it: a
/// confirmation is never taken back; else the report decides.
pub open spec fn confirmation_after(held: Option<bool>, state: LedgerInclusionState) -> Option<bool> {
    if held == Some(true) {
        Some(true)
    } else {
        Some(state == LedgerInclusionState::Included)
    }
}

/// Takes in what the node reports of a message that it saw no need to post
/// again. Where the ledger has decided, the message's confirmation is
/// brought up to date and the event of the change is handed out. Nothing
/// happens where the account does not hold the message or the node
/// reports no decision.
pub fn apply_inclusion_state(account: &mut Account, message_id: &MessageId, state: Option<
    LedgerInclusionState,
>) -> (r: Option<ConfirmationChangeEventData>)
    ensures
        match (message_position(old(account)@.messages, message_id@), state) {
            (Some(p), Some(s)) => {
                let updated = MessageView {
                    confirmed: confirmation_after(old(account)@.messages[p].confirmed, s),
                    ..old(account)@.messages[p]
                };
                &&& final(account)@ == (AccountView {
                    messages: old(account)@.messages.update(p, updated),
                    ..old(account)@
                })
                &&& r.deep_view() == Some(
                    ConfirmationChangeEventView {
                        message: updated,
                        confirmed: updated.confirmed == Some(true),
                    },
                )
            },
            _ => final(account)@ == old(account)@ && r.is_none(),
        },
{
    let position = match account.find_message(message_id) {
        Some(position) => position,
        None => {
            return None;
        },
    };
    let state = match state {
        Some(state) => state,
        None => {
            return None;
        },
    };
    assert(account@.messages[position as int] == account.messages@[position as int]@);
    let mut updated = account.messages[position].clone();
    let held_confirmed = match updated.confirmed {
        Some(true) => true,
        _ => false,
    };
    let confirmed = held_confirmed || state == LedgerInclusionState::Included;
    updated.confirmed = Some(confirmed);
    let event_message = updated.clone();
    account.messages[position] = updated;
    assert(account@.messages =~= old(account)@.messages.update(position as int, event_message@));
    Some(ConfirmationChangeEventData { message: event_message, confirmed })
}

/// The account with the highest index decides on the search for further
/// accounts; of several with that index the last.
pub open spec fn is_last_account(accounts: Seq<AccountView>, i: int) -> bool {
    &&& 0 <= i < accounts.len()
    &&& forall|j: int|
        0 <= j < accounts.len() ==> {
            ||| (#[trigger] accounts[j]).index < accounts[i].index
            ||| (accounts[j].index == accounts[i].index && j <= i)
        }
}

/// The signer whose further accounts are looked for: that of the account
/// with the highest index, where that account is not empty. There is
/// nothing to look for where there is no account or that account is
/// empty.
pub fn discovery_signer(accounts: &Vec<Account>) -> (r: Option<SignerType>)
    ensures
        match r {
            Some(signer) => exists|i: int|
                #[trigger] is_last_account(accounts.deep_view(), i) && !accounts.deep_view()[i].is_empty()
                    && accounts.deep_view()[i].signer_type == signer,
            None => forall|i: int|
                #[trigger] is_last_account(accounts.deep_view(), i) ==> accounts.deep_view()[i].is_empty(),
        },
{
    let ghost view = accounts.deep_view();
    if accounts.len() == 0 {
        return None;
    }
    let mut last: usize = 0;
    let mut i: usize = 1;
    assert(view.take(1)[0] == view[0]);
    while i < accounts.len()
        invariant
            1 <= i <= accounts.len(),
            view == accounts.deep_view(),
            last < i,
            is_last_account(view.take(i as int), last as int),
        decreases accounts.len() - i,
    {
        proof {
            assert(view[i as int] == accounts@[i as int]@);
            assert(view[last as int] == accounts@[last as int]@);
            assert(view.take(i as int)[last as int] == view[last as int]);
            assert forall|j: int| 0 <= j < i implies view.take(i as int)[j] == #[trigger] view.take(
                i as int + 1,
            )[j] by {}
        }
        if accounts[i].index >= accounts[last].index {
            last = i;
        }
        i += 1;
    }
    assert(view.take(accounts.len() as int) =~= view);
    assert(view[last as int] == accounts@[last as int]@);
    proof {
        assert forall|j: int| #[trigger] is_last_account(view, j) implies j == last by {
            assert(view[j].index == view[last as int].index);
        }
    }
    if accounts[last].is_empty() {
        None
    } else {
        Some(accounts[last].signer_type)
    }
}

/// The search for further accounts of a signer.
#[derive(Debug)]
pub struct AccountDiscovery {
    /// The index of the account that is tried next.
    pub index: usize,
    /// The accounts found so far, each with what its synchronisation
    /// found.
    pub discovered: Vec<(Account, SyncedAccountData)>,
}

/// The views of the discovered accounts.
pub open spec fn discovered_view(found: Seq<(Account, SyncedAccountData)>) -> Seq<
    (AccountView, SyncedAccountDataView),
> {
    Seq::new(found.len(), |i: int| (found[i].0@, found[i].1@))
}

impl AccountDiscovery {
    /// A search that begins after the accounts that the manager has.
    pub fn new(accounts: usize) -> (r: Self)
        ensures
            r.index == accounts,
            discovered_view(r.discovered@) == Seq::<(AccountView, SyncedAccountDataView)>::empty(),
    {
        let r = AccountDiscovery { index: accounts, discovered: Vec::new() };
        assert(discovered_view(r.discovered@) =~= Seq::empty());
        r
    }

    /// Takes in the synchronisation of the account that was tried, and says
    /// whether the next index is to be tried. An account on which something
    /// was found is kept, and the search goes on; it ends with the first
    /// account on which nothing was found, or whose synchronisation failed.
    pub fn absorb(&mut self, tried: Option<(Account, SyncedAccountData)>) -> (r: bool)
        ensures
            match tried {
                Some(found) => if found.1@.is_empty() || old(self).index == usize::MAX {
                    !r && *final(self) == *old(self)
                } else {
                    &&& r
                    &&& final(self).index == old(self).index + 1
                    &&& discovered_view(final(self).discovered@) == discovered_view(
                        old(self).discovered@,
                    ).push((found.0@, found.1@))
                },
                None => !r && *final(self) == *old(self),
            },
    {
        match tried {
            Some(found) => {
                if found.1.is_empty() || self.index == usize::MAX {
                    false
                } else {
                    self.index = self.index + 1;
                    self.discovered.push(found);
                    assert(discovered_view(self.discovered@) =~= discovered_view(
                        old(self).discovered@,
                    ).push((found.0@, found.1@)));
                    true
                }
            },
            None => false,
        }
    }
}

/// Whether the outputs of accounts are consolidated without being asked
/// for: where that is switched on and the signer is no hardware wallet,
/// which would have its user confirm every transfer.
pub fn consolidates_automatically(automatic_consolidation: bool, signer_type: SignerType) -> (r: bool)
    ensures
        r == (automatic_consolidation && signer_type != SignerType::LedgerNano && signer_type
            != SignerType::LedgerNanoSimulator),
{
    automatic_consolidation && signer_type != SignerType::LedgerNano && signer_type
        != SignerType::LedgerNanoSimulator
}

/// The text of the error for a tick that panicked: with what the panic
/// said, where it said something.
pub open spec fn panic_text(said: Option<Seq<char>>) -> Seq<char> {
    match said {
        Some(text) => "Internal error: "@ + text,
        None => "Internal error"@,
    }
}

/// The error that a tick that panicked is reported with. The poller goes
/// on after it.
pub fn panic_error(said: Option<String>) -> (r: Error)
    ensures
        r matches Error::Panic(text) && text@ == panic_text(
            match said {
                Some(s) => Some(s@),
                None => None,
            },
        ),
{
    match said {
        Some(what) => {
            let mut text = "Internal error: ".to_string();
            text.append(what.as_str());
            Error::Panic(text)
        },
        None => Error::Panic("Internal error".to_string()),
    }
}

} // verus!
