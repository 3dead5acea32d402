//! Addresses of an account and the outputs seen on them.

use crate::search::{first_position, lemma_first_position};
use vstd::prelude::*;
use vstd::std_specs::cmp::PartialEqSpecImpl;

verus! {

/// Outputs strictly below this amount are dust; created outputs of at least
/// this amount count as dust allowance.
pub const DUST_ALLOWANCE_VALUE: u64 = 1_000_000;

/// The length in bytes of a transaction or message identifier.
pub const ID_LENGTH: usize = 32;

/// Whether two identifiers hold the same bytes.
pub fn bytes32_eq(a: &[u8; 32], b: &[u8; 32]) -> (r: bool)
    ensures
        r == (a@ == b@),
{
    let mut i: usize = 0;
    while i < 32
        invariant
            i <= 32,
            forall|j: int| 0 <= j < i ==> a@[j] == b@[j],
        decreases 32 - i,
    {
        if a[i] != b[i] {
            return false;
        }
        i += 1;
    }
    assert(a@ =~= b@);
    true
}

/// The identifier of a transaction: thirty-two bytes.
#[derive(Clone, Copy, Debug)]
pub struct TransactionId {
    pub bytes: [u8; 32],
}

impl View for TransactionId {
    type V = Seq<u8>;

    open spec fn view(&self) -> Seq<u8> {
        self.bytes@
    }
}

impl TransactionId {
    /// The identifier made of `bytes`.
    pub fn new(bytes: [u8; 32]) -> (r: Self)
        ensures
            r@ == bytes@,
    {
        TransactionId { bytes }
    }
}

impl PartialEq for TransactionId {
    fn eq(&self, other: &Self) -> (r: bool) {
        bytes32_eq(&self.bytes, &other.bytes)
    }
}

impl PartialEqSpecImpl for TransactionId {
    open spec fn obeys_eq_spec() -> bool {
        true
    }

    open spec fn eq_spec(&self, other: &Self) -> bool {
        self@ == other@
    }
}

impl Eq for TransactionId {

}

/// The identifier of a message: thirty-two bytes.
#[derive(Clone, Copy, Debug)]
pub struct MessageId {
    pub bytes: [u8; 32],
}

impl View for MessageId {
    type V = Seq<u8>;

    open spec fn view(&self) -> Seq<u8> {
        self.bytes@
    }
}

impl MessageId {
    /// The identifier made of `bytes`.
    pub fn new(bytes: [u8; 32]) -> (r: Self)
        ensures
            r@ == bytes@,
    {
        MessageId { bytes }
    }
}

impl PartialEq for MessageId {
    fn eq(&self, other: &Self) -> (r: bool) {
        bytes32_eq(&self.bytes, &other.bytes)
    }
}

impl PartialEqSpecImpl for MessageId {
    open spec fn obeys_eq_spec() -> bool {
        true
    }

    open spec fn eq_spec(&self, other: &Self) -> bool {
        self@ == other@
    }
}

impl Eq for MessageId {

}

/// The identifier of an output: the transaction that made it and its place
/// among that transaction's outputs.
#[derive(Clone, Copy, Debug)]
pub struct OutputId {
    pub transaction_id: TransactionId,
    pub index: u16,
}

impl View for OutputId {
    type V = (Seq<u8>, u16);

    open spec fn view(&self) -> (Seq<u8>, u16) {
        (self.transaction_id@, self.index)
    }
}

impl OutputId {
    /// The identifier of output `index` of `transaction_id`.
    pub fn new(transaction_id: TransactionId, index: u16) -> (r: Self)
        ensures
            r@ == (transaction_id@, index),
    {
        OutputId { transaction_id, index }
    }
}

impl PartialEq for OutputId {
    fn eq(&self, other: &Self) -> (r: bool) {
        self.index == other.index && self.transaction_id == other.transaction_id
    }
}

impl PartialEqSpecImpl for OutputId {
    open spec fn obeys_eq_spec() -> bool {
        true
    }

    open spec fn eq_spec(&self, other: &Self) -> bool {
        self@ == other@
    }
}

impl Eq for OutputId {

}

/// The kinds of output that the ledger knows.
#[derive(Clone, Copy, Debug, PartialEq, Eq, Structural)]
pub enum OutputKind {
    /// An output that one signature unlocks.
    SignatureLockedSingle,
    /// An output that raises the dust allowance of its address.
    SignatureLockedDustAllowance,
    /// The treasury's output.
    Treasury,
}

/// An output observed on an address.
#[derive(Debug)]
pub struct AddressOutput {
    /// The transaction that created the output.
    pub transaction_id: TransactionId,
    /// The message that carried that transaction.
    pub message_id: MessageId,
    /// The place of the output among the transaction's outputs.
    pub index: u16,
    /// The amount deposited.
    pub amount: u64,
    /// Whether the output was already consumed.
    pub is_spent: bool,
    /// The address that owns the output, in bech32.
    pub address: String,
    /// The kind of the output.
    pub kind: OutputKind,
}

/// An output as a mathematical value.
pub ghost struct AddressOutputView {
    pub transaction_id: Seq<u8>,
    pub message_id: Seq<u8>,
    pub index: u16,
    pub amount: u64,
    pub is_spent: bool,
    pub address: Seq<char>,
    pub kind: OutputKind,
}

impl AddressOutputView {
    /// The identifier of the output.
    pub open spec fn id(self) -> (Seq<u8>, u16) {
        (self.transaction_id, self.index)
    }

    /// Whether the output is dust: a single-signature output below the
    /// dust threshold.
    pub open spec fn is_dust(self) -> bool {
        self.kind == OutputKind::SignatureLockedSingle && self.amount < DUST_ALLOWANCE_VALUE
    }
}

impl View for AddressOutput {
    type V = AddressOutputView;

    open spec fn view(&self) -> AddressOutputView {
        AddressOutputView {
            transaction_id: self.transaction_id@,
            message_id: self.message_id@,
            index: self.index,
            amount: self.amount,
            is_spent: self.is_spent,
            address: self.address@,
            kind: self.kind,
        }
    }
}

impl DeepView for AddressOutput {
    type V = AddressOutputView;

    open spec fn deep_view(&self) -> AddressOutputView {
        self@
    }
}

impl Clone for AddressOutput {
    fn clone(&self) -> (r: Self)
        ensures
            r@ == self@,
    {
        AddressOutput {
            transaction_id: self.transaction_id,
            message_id: self.message_id,
            index: self.index,
            amount: self.amount,
            is_spent: self.is_spent,
            address: self.address.clone(),
            kind: self.kind,
        }
    }
}

impl AddressOutput {
    /// The identifier of the output.
    pub fn id(&self) -> (r: OutputId)
        ensures
            r@ == self@.id(),
    {
        OutputId { transaction_id: self.transaction_id, index: self.index }
    }
}

/// The position of the first output with identifier `id`, if there is one.
pub open spec fn output_position(outputs: Seq<AddressOutputView>, id: (Seq<u8>, u16)) -> Option<int> {
    first_position(outputs, |o: AddressOutputView| o.id() == id)
}

/// No two outputs of the sequence share an identifier.
pub open spec fn distinct_output_ids(outputs: Seq<AddressOutputView>) -> bool {
    forall|i: int, j: int|
        0 <= i < j < outputs.len() ==> #[trigger] outputs[i].id() != #[trigger] outputs[j].id()
}

/// The outputs after `output` was recorded among them: one with the same
/// identifier is replaced where it stands, a new one is added at the end.
pub open spec fn outputs_with(outputs: Seq<AddressOutputView>, output: AddressOutputView) -> Seq<
    AddressOutputView,
> {
    match output_position(outputs, output.id()) {
        Some(i) => outputs.update(i, output),
        None => outputs.push(output),
    }
}

/// What `output_position` finds is the first output with the identifier,
/// and it finds nothing only where no output has it.
pub proof fn lemma_output_position(outputs: Seq<AddressOutputView>, id: (Seq<u8>, u16))
    ensures
        match output_position(outputs, id) {
            Some(i) => 0 <= i < outputs.len() && outputs[i].id() == id && forall|j: int|
                0 <= j < i ==> (#[trigger] outputs[j]).id() != id,
            None => forall|j: int| 0 <= j < outputs.len() ==> (#[trigger] outputs[j]).id() != id,
        },
{
    lemma_first_position(outputs, |o: AddressOutputView| o.id() == id);
}

/// Recording an output keeps the identifiers distinct.
pub proof fn lemma_outputs_with_distinct(outputs: Seq<AddressOutputView>, output: AddressOutputView)
    requires
        distinct_output_ids(outputs),
    ensures
        distinct_output_ids(outputs_with(outputs, output)),
        output_position(outputs_with(outputs, output), output.id()).is_some(),
{
    lemma_output_position(outputs, output.id());
    let after = outputs_with(outputs, output);
    lemma_output_position(after, output.id());
    match output_position(outputs, output.id()) {
        Some(i) => {
            assert(after[i].id() == output.id());
        },
        None => {
            assert(after[outputs.len() as int].id() == output.id());
        },
    }
}

/// An address of an account, with what the last synchronisation saw on it.
#[derive(Debug)]
pub struct Address {
    /// The address in bech32, which identifies it.
    pub address: String,
    /// The index of the key that the address was derived from.
    pub key_index: usize,
    /// Whether it is a change address.
    pub internal: bool,
    /// The balance that the node reported.
    pub balance: u64,
    /// The outputs seen on the address, one for each output identifier.
    pub outputs: Vec<AddressOutput>,
}

/// An address as a mathematical value.
pub ghost struct AddressView {
    pub address: Seq<char>,
    pub key_index: usize,
    pub internal: bool,
    pub balance: u64,
    pub outputs: Seq<AddressOutputView>,
}

/// The sum of the amounts of the outputs that are not spent.
pub open spec fn unspent_sum(outputs: Seq<AddressOutputView>) -> int
    decreases outputs.len(),
{
    if outputs.len() == 0 {
        0
    } else {
        unspent_sum(outputs.drop_last()) + if outputs.last().is_spent {
            0
        } else {
            outputs.last().amount as int
        }
    }
}

impl AddressView {
    /// The balance is what the unspent outputs hold.
    pub open spec fn is_consistent(self) -> bool {
        self.balance == unspent_sum(self.outputs)
    }

    /// The outputs are keyed by their identifier: none occurs twice.
    pub open spec fn wf(self) -> bool {
        distinct_output_ids(self.outputs)
    }

    /// An address is unused while no output was ever seen on it.
    pub open spec fn is_unused(self) -> bool {
        self.outputs.len() == 0
    }

    /// An address is empty while it has neither balance nor outputs.
    pub open spec fn is_empty(self) -> bool {
        self.balance == 0 && self.outputs.len() == 0
    }

    /// The address after `output` was recorded on it.
    pub open spec fn with_output(self, output: AddressOutputView) -> AddressView {
        AddressView { outputs: outputs_with(self.outputs, output), ..self }
    }
}

impl View for Address {
    type V = AddressView;

    open spec fn view(&self) -> AddressView {
        AddressView {
            address: self.address@,
            key_index: self.key_index,
            internal: self.internal,
            balance: self.balance,
            outputs: self.outputs.deep_view(),
        }
    }
}

impl DeepView for Address {
    type V = AddressView;

    open spec fn deep_view(&self) -> AddressView {
        self@
    }
}

impl Address {
    /// A new address without balance or outputs.
    pub fn new(address: String, key_index: usize, internal: bool) -> (r: Self)
        ensures
            r@ == (AddressView {
                address: address@,
                key_index,
                internal,
                balance: 0,
                outputs: Seq::empty(),
            }),
    {
        let r = Address { address, key_index, internal, balance: 0, outputs: Vec::new() };
        assert(r.outputs.deep_view() =~= Seq::empty());
        r
    }

    /// Whether no output was ever seen on the address.
    pub fn is_unused(&self) -> (r: bool)
        ensures
            r == self@.is_unused(),
    {
        self.outputs.len() == 0
    }

    /// Whether the address has neither balance nor outputs.
    pub fn is_empty(&self) -> (r: bool)
        ensures
            r == self@.is_empty(),
    {
        self.balance == 0 && self.outputs.len() == 0
    }

    /// Whether the balance is what the unspent outputs hold. The balance
    /// and the outputs come from the node in two answers, so that this is for
    /// the node to keep and for the wallet to check.
    pub fn is_consistent(&self) -> (r: bool)
        ensures
            r == self@.is_consistent(),
    {
        let ghost view = self@.outputs;
        let mut sum: u128 = 0;
        let mut i: usize = 0;
        while i < self.outputs.len()
            invariant
                i <= self.outputs.len(),
                view == self@.outputs,
                sum == unspent_sum(view.take(i as int)),
                sum <= i * u64::MAX,
            decreases self.outputs.len() - i,
        {
            proof {
                assert(view[i as int] == self.outputs@[i as int]@);
                assert(view.take(i as int + 1).drop_last() =~= view.take(i as int));
                assert(i * u64::MAX + u64::MAX == (i + 1) * u64::MAX) by (nonlinear_arith);
                assert(i * u64::MAX + u64::MAX <= u64::MAX * u64::MAX + u64::MAX) by (nonlinear_arith)
                    requires
                        i <= u64::MAX,
                ;
                assert(u64::MAX * u64::MAX + u64::MAX < u128::MAX);
            }
            if !self.outputs[i].is_spent {
                sum = sum + self.outputs[i].amount as u128;
            }
            i += 1;
        }
        assert(view.take(self.outputs.len() as int) =~= view);
        sum == self.balance as u128
    }

    /// The position of the output with identifier `id`, if the address
    /// holds it.
    pub fn find_output(&self, id: &OutputId) -> (r: Option<usize>)
        ensures
            match r {
                Some(i) => i < self.outputs.len() && output_position(self@.outputs, id@) == Some(
                    i as int,
                ),
                None => output_position(self@.outputs, id@).is_none(),
            },
    {
        let mut i: usize = 0;
        while i < self.outputs.len()
            invariant
                i <= self.outputs.len(),
                forall|j: int| 0 <= j < i ==> (#[trigger] self@.outputs[j]).id() != id@,
            decreases self.outputs.len() - i,
        {
            let candidate = self.outputs[i].id();
            assert(self@.outputs[i as int] == self.outputs@[i as int]@);
            if candidate == *id {
                proof {
                    lemma_output_position(self@.outputs, id@);
                }
                return Some(i);
            }
            i += 1;
        }
        proof {
            lemma_output_position(self@.outputs, id@);
        }
        None
    }

    /// Records an output on the address. An output with the same identifier
    /// is replaced where it stands, so the last write wins; a new one is
    /// added at the end.
    pub fn insert_output(&mut self, output: AddressOutput)
        ensures
            final(self)@ == old(self)@.with_output(output@),
            old(self)@.wf() ==> final(self)@.wf(),
    {
        let id = output.id();
        proof {
            lemma_output_position(self@.outputs, id@);
            if self@.wf() {
                lemma_outputs_with_distinct(self@.outputs, output@);
            }
        }
        match self.find_output(&id) {
            Some(i) => {
                self.outputs[i] = output;
                assert(self@.outputs =~= old(self)@.outputs.update(i as int, output@));
            },
            None => {
                self.outputs.push(output);
                assert(self@.outputs =~= old(self)@.outputs.push(output@));
            },
        }
    }
}

impl Clone for Address {
    fn clone(&self) -> (r: Self)
        ensures
            r@ == self@,
    {
        Address {
            address: self.address.clone(),
            key_index: self.key_index,
            internal: self.internal,
            balance: self.balance,
            outputs: clone_outputs(&self.outputs),
        }
    }
}

/// A copy of a list of outputs.
pub fn clone_outputs(outputs: &Vec<AddressOutput>) -> (r: Vec<AddressOutput>)
    ensures
        r.deep_view() == outputs.deep_view(),
{
    let mut out: Vec<AddressOutput> = Vec::new();
    let mut i: usize = 0;
    while i < outputs.len()
        invariant
            i <= outputs.len(),
            out.len() == i,
            forall|j: int| 0 <= j < i ==> out@[j]@ == outputs@[j]@,
        decreases outputs.len() - i,
    {
        out.push(outputs[i].clone());
        i += 1;
    }
    assert(out.deep_view() =~= outputs.deep_view());
    out
}

/// A copy of a list of addresses.
pub fn clone_addresses(addresses: &Vec<Address>) -> (r: Vec<Address>)
    ensures
        r.deep_view() == addresses.deep_view(),
{
    let mut out: Vec<Address> = Vec::new();
    let mut i: usize = 0;
    while i < addresses.len()
        invariant
            i <= addresses.len(),
            out.len() == i,
            forall|j: int| 0 <= j < i ==> out@[j]@ == addresses@[j]@,
        decreases addresses.len() - i,
    {
        out.push(addresses[i].clone());
        i += 1;
    }
    assert(out.deep_view() =~= addresses.deep_view());
    out
}

/// Whether two outputs hold the same values.
pub fn output_eq(a: &AddressOutput, b: &AddressOutput) -> (r: bool)
    ensures
        r == (a@ == b@),
{
    let same = a.transaction_id == b.transaction_id && a.message_id == b.message_id && a.index
        == b.index && a.amount == b.amount && a.is_spent == b.is_spent && a.address == b.address
        && a.kind == b.kind;
    same
}

/// Whether two lists of outputs hold the same outputs in the same order.
pub fn outputs_eq(a: &Vec<AddressOutput>, b: &Vec<AddressOutput>) -> (r: bool)
    ensures
        r == (a.deep_view() == b.deep_view()),
{
    if a.len() != b.len() {
        assert(a.deep_view().len() != b.deep_view().len());
        return false;
    }
    let mut i: usize = 0;
    while i < a.len()
        invariant
            i <= a.len(),
            a.len() == b.len(),
            forall|j: int| 0 <= j < i ==> a.deep_view()[j] == b.deep_view()[j],
        decreases a.len() - i,
    {
        assert(a.deep_view()[i as int] == a@[i as int]@);
        assert(b.deep_view()[i as int] == b@[i as int]@);
        if !output_eq(&a[i], &b[i]) {
            return false;
        }
        i += 1;
    }
    assert(a.deep_view() =~= b.deep_view());
    true
}

} // verus!
