//! Messages of an account and the transfers that a user asks for.

use crate::address::{AddressOutput, AddressOutputView, MessageId, OutputId};
use vstd::prelude::*;

verus! {

/// Whether two byte strings are equal.
pub fn bytes_eq(a: &Vec<u8>, b: &Vec<u8>) -> (r: bool)
    ensures
        r == (a@ == b@),
{
    if a.len() != b.len() {
        return false;
    }
    let mut i: usize = 0;
    while i < a.len()
        invariant
            i <= a.len(),
            a.len() == b.len(),
            forall|j: int| 0 <= j < i ==> a@[j] == b@[j],
        decreases a.len() - i,
    {
        if a[i] != b[i] {
            return false;
        }
        i += 1;
    }
    assert(a@ =~= b@);
    true
}

/// A copy of a byte string.
pub fn clone_bytes(a: &Vec<u8>) -> (r: Vec<u8>)
    ensures
        r@ == a@,
{
    let mut out: Vec<u8> = Vec::new();
    let mut i: usize = 0;
    while i < a.len()
        invariant
            i <= a.len(),
            out@ == a@.take(i as int),
        decreases a.len() - i,
    {
        out.push(a[i]);
        assert(out@ =~= a@.take(i as int + 1));
        i += 1;
    }
    assert(a@.take(a.len() as int) =~= a@);
    out
}

/// The payload of a message as a mathematical value.
pub open spec fn payload_view(payload: Option<Vec<u8>>) -> Option<Seq<u8>> {
    match payload {
        Some(bytes) => Some(bytes@),
        None => None,
    }
}

/// Whether two payloads are equal.
pub fn payload_eq(a: &Option<Vec<u8>>, b: &Option<Vec<u8>>) -> (r: bool)
    ensures
        r == (payload_view(*a) == payload_view(*b)),
{
    match (a, b) {
        (Some(x), Some(y)) => bytes_eq(x, y),
        (None, None) => true,
        _ => false,
    }
}

/// A message of an account.
#[derive(Debug)]
pub struct Message {
    /// The identifier of the message.
    pub id: MessageId,
    /// Whether the ledger included the message: unknown, yes or no.
    pub confirmed: Option<bool>,
    /// The payload in its canonical encoding, if the message has one.
    pub payload: Option<Vec<u8>>,
    /// The outputs that the message's transaction consumes; empty where the
    /// payload is no transaction.
    pub inputs: Vec<OutputId>,
}

/// A message as a mathematical value.
pub ghost struct MessageView {
    pub id: Seq<u8>,
    pub confirmed: Option<bool>,
    pub payload: Option<Seq<u8>>,
    pub inputs: Seq<(Seq<u8>, u16)>,
}

impl MessageView {
    /// A message is unconfirmed until the ledger is known to include it.
    pub open spec fn is_unconfirmed(self) -> bool {
        self.confirmed != Some(true)
    }

    /// The message consumes the output with identifier `id`.
    pub open spec fn consumes(self, id: (Seq<u8>, u16)) -> bool {
        self.inputs.contains(id)
    }
}

/// The identifiers in a list, as mathematical values.
pub open spec fn output_ids_view(ids: Seq<OutputId>) -> Seq<(Seq<u8>, u16)> {
    Seq::new(ids.len(), |i: int| ids[i]@)
}

impl View for Message {
    type V = MessageView;

    open spec fn view(&self) -> MessageView {
        MessageView {
            id: self.id@,
            confirmed: self.confirmed,
            payload: payload_view(self.payload),
            inputs: output_ids_view(self.inputs@),
        }
    }
}

impl DeepView for Message {
    type V = MessageView;

    open spec fn deep_view(&self) -> MessageView {
        self@
    }
}

impl Clone for Message {
    fn clone(&self) -> (r: Self)
        ensures
            r@ == self@,
    {
        let payload = match &self.payload {
            Some(bytes) => Some(clone_bytes(bytes)),
            None => None,
        };
        let mut inputs: Vec<OutputId> = Vec::new();
        let mut i: usize = 0;
        while i < self.inputs.len()
            invariant
                i <= self.inputs.len(),
                inputs@ == self.inputs@.take(i as int),
            decreases self.inputs.len() - i,
        {
            inputs.push(self.inputs[i]);
            assert(inputs@ =~= self.inputs@.take(i as int + 1));
            i += 1;
        }
        assert(self.inputs@.take(self.inputs.len() as int) =~= self.inputs@);
        Message { id: self.id, confirmed: self.confirmed, payload, inputs }
    }
}

impl Message {
    /// Whether the ledger is not known to include the message.
    pub fn is_unconfirmed(&self) -> (r: bool)
        ensures
            r == self@.is_unconfirmed(),
    {
        match self.confirmed {
            Some(true) => false,
            _ => true,
        }
    }

    /// Whether the message's transaction consumes the output `id`.
    pub fn consumes(&self, id: &OutputId) -> (r: bool)
        ensures
            r == self@.consumes(id@),
    {
        let mut i: usize = 0;
        while i < self.inputs.len()
            invariant
                i <= self.inputs.len(),
                forall|j: int| 0 <= j < i ==> self@.inputs[j] != id@,
            decreases self.inputs.len() - i,
        {
            if self.inputs[i] == *id {
                assert(self@.inputs[i as int] == id@);
                return true;
            }
            i += 1;
        }
        false
    }
}

/// A copy of a list of messages.
pub fn clone_messages(messages: &Vec<Message>) -> (r: Vec<Message>)
    ensures
        r.deep_view() == messages.deep_view(),
{
    let mut out: Vec<Message> = Vec::new();
    let mut i: usize = 0;
    while i < messages.len()
        invariant
            i <= messages.len(),
            out.len() == i,
            forall|j: int| 0 <= j < i ==> out@[j]@ == messages@[j]@,
        decreases messages.len() - i,
    {
        out.push(messages[i].clone());
        i += 1;
    }
    assert(out.deep_view() =~= messages.deep_view());
    out
}

/// The kinds of message that a listing can be narrowed to.
#[derive(Clone, Copy, Debug, PartialEq, Eq, Structural)]
pub enum MessageType {
    /// Messages that brought funds to the account.
    Received,
    /// Messages that took funds from the account.
    Sent,
    /// Messages that were not broadcast.
    Failed,
    /// Messages that the ledger is not known to include.
    Unconfirmed,
    /// Messages that carry a transaction.
    Value,
}

/// Where the value that a transfer does not send goes.
#[derive(Debug)]
pub enum RemainderValueStrategy {
    /// It stays on the address that paid.
    ReuseAddress,
    /// It goes to a change address.
    ChangeAddress,
    /// It goes to the given address of the account.
    AccountAddress(String),
}

/// A remainder strategy as a mathematical value.
pub ghost enum RemainderValueStrategyView {
    ReuseAddress,
    ChangeAddress,
    AccountAddress(Seq<char>),
}

impl View for RemainderValueStrategy {
    type V = RemainderValueStrategyView;

    open spec fn view(&self) -> RemainderValueStrategyView {
        match self {
            RemainderValueStrategy::ReuseAddress => RemainderValueStrategyView::ReuseAddress,
            RemainderValueStrategy::ChangeAddress => RemainderValueStrategyView::ChangeAddress,
            RemainderValueStrategy::AccountAddress(a) => RemainderValueStrategyView::AccountAddress(
                a@,
            ),
        }
    }
}

impl Clone for RemainderValueStrategy {
    fn clone(&self) -> (r: Self)
        ensures
            r@ == self@,
    {
        match self {
            RemainderValueStrategy::ReuseAddress => RemainderValueStrategy::ReuseAddress,
            RemainderValueStrategy::ChangeAddress => RemainderValueStrategy::ChangeAddress,
            RemainderValueStrategy::AccountAddress(a) => RemainderValueStrategy::AccountAddress(
                a.clone(),
            ),
        }
    }
}

/// What a user asks to be sent.
#[derive(Debug)]
pub struct Transfer {
    /// The address that receives the amount, in bech32.
    pub address: String,
    /// The amount to send, which is not zero.
    pub amount: u64,
    /// Where the rest of the consumed value goes.
    pub remainder_value_strategy: RemainderValueStrategy,
    /// The address and the outputs to pay from, where the user chose them.
    pub input: Option<(String, Vec<AddressOutput>)>,
    /// The index and the data of an indexation payload to attach.
    pub indexation: Option<(Vec<u8>, Vec<u8>)>,
    /// Whether progress of the transfer is reported.
    pub with_events: bool,
}

/// A transfer as a mathematical value.
pub ghost struct TransferView {
    pub address: Seq<char>,
    pub amount: u64,
    pub remainder_value_strategy: RemainderValueStrategyView,
    pub input: Option<(Seq<char>, Seq<AddressOutputView>)>,
    pub indexation: Option<(Seq<u8>, Seq<u8>)>,
    pub with_events: bool,
}

impl View for Transfer {
    type V = TransferView;

    open spec fn view(&self) -> TransferView {
        TransferView {
            address: self.address@,
            amount: self.amount,
            remainder_value_strategy: self.remainder_value_strategy@,
            input: match self.input {
                Some((address, outputs)) => Some((address@, outputs.deep_view())),
                None => None,
            },
            indexation: match self.indexation {
                Some((index, data)) => Some((index@, data@)),
                None => None,
            },
            with_events: self.with_events,
        }
    }
}

impl DeepView for Transfer {
    type V = TransferView;

    open spec fn deep_view(&self) -> TransferView {
        self@
    }
}

impl Transfer {
    /// A transfer sends more than nothing.
    pub open spec fn wf(&self) -> bool {
        self.amount > 0
    }

    /// Starts the description of a transfer of `amount` to `address`.
    pub fn builder(address: String, amount: u64) -> (r: TransferBuilder)
        requires
            amount > 0,
        ensures
            r.0@ == (TransferView {
                address: address@,
                amount,
                remainder_value_strategy: RemainderValueStrategyView::ChangeAddress,
                input: None,
                indexation: None,
                with_events: true,
            }),
    {
        TransferBuilder(
            Transfer {
                address,
                amount,
                remainder_value_strategy: RemainderValueStrategy::ChangeAddress,
                input: None,
                indexation: None,
                with_events: true,
            },
        )
    }
}

/// A transfer under construction.
#[derive(Debug)]
pub struct TransferBuilder(pub Transfer);

impl TransferBuilder {
    /// Sets where the remainder goes.
    pub fn with_remainder_value_strategy(self, strategy: RemainderValueStrategy) -> (r: Self)
        ensures
            r.0@ == (TransferView { remainder_value_strategy: strategy@, ..self.0@ }),
    {
        let mut transfer = self.0;
        transfer.remainder_value_strategy = strategy;
        TransferBuilder(transfer)
    }

    /// Sets the address and the outputs to pay from.
    pub fn with_input(self, address: String, outputs: Vec<AddressOutput>) -> (r: Self)
        ensures
            r.0@ == (TransferView { input: Some((address@, outputs.deep_view())), ..self.0@ }),
    {
        let mut transfer = self.0;
        transfer.input = Some((address, outputs));
        TransferBuilder(transfer)
    }

    /// Attaches an indexation payload.
    pub fn with_indexation(self, index: Vec<u8>, data: Vec<u8>) -> (r: Self)
        ensures
            r.0@ == (TransferView { indexation: Some((index@, data@)), ..self.0@ }),
    {
        let mut transfer = self.0;
        transfer.indexation = Some((index, data));
        TransferBuilder(transfer)
    }

    /// Sets whether progress of the transfer is reported.
    pub fn with_events(self, flag: bool) -> (r: Self)
        ensures
            r.0@ == (TransferView { with_events: flag, ..self.0@ }),
    {
        let mut transfer = self.0;
        transfer.with_events = flag;
        TransferBuilder(transfer)
    }

    /// The transfer as described.
    pub fn finish(self) -> (r: Transfer)
        ensures
            r@ == self.0@,
    {
        self.0
    }
}

} // verus!
