//! The inputs and outputs of a transaction in the order that the protocol
//! asks for: ascending by their canonical byte encoding.

use crate::address::OutputId;
use crate::error::Error;
use crate::search::{lemma_unmarked_fresh, lemma_unmarked_set, lemma_unmarked_zero, unmarked_count};
use bee_common::packable::Packable;
use vstd::prelude::*;

verus! {

/// One more than the highest index that an input or output may have.
pub const INPUT_OUTPUT_INDEX_END: u16 = 127;

/// The highest number of inputs, and of outputs, of one transaction.
pub const INPUT_OUTPUT_COUNT_MAX: usize = 127;

/// The total number of tokens, which no output exceeds.
pub const IOTA_SUPPLY: u64 = 2_779_530_283_277_761;

/// The thirty-two bytes of the address that a bech32 string encodes, where
/// it encodes one.
pub uninterp spec fn bech32_address_bytes(address: Seq<char>) -> Option<Seq<u8>>;

/// The first `width` bytes of `value`, least significant first.
pub open spec fn le_bytes(value: nat, width: nat) -> Seq<u8>
    decreases width,
{
    if width == 0 {
        Seq::empty()
    } else {
        seq![(value % 256) as u8] + le_bytes(value / 256, (width - 1) as nat)
    }
}

/// The canonical encoding of an input that consumes output `index` of a
/// transaction: the kind of input, the transaction's identifier, the index.
pub open spec fn utxo_input_encoding(transaction_id: Seq<u8>, index: u16) -> Seq<u8> {
    seq![0u8] + transaction_id + le_bytes(index as nat, 2)
}

/// The canonical encoding of an output that deposits `amount` on an
/// address: the kind of output, the kind of address, the address, the
/// amount.
pub open spec fn single_output_encoding(address: Seq<u8>, amount: u64) -> Seq<u8> {
    seq![0u8, 0u8] + address + le_bytes(amount as nat, 8)
}

/// `a` comes no later than `b` in the order of byte strings: at the first
/// place where they differ `a` has the smaller byte, or `a` ends first.
pub open spec fn lex_le(a: Seq<u8>, b: Seq<u8>) -> bool
    decreases a.len(),
{
    if a.len() == 0 {
        true
    } else if b.len() == 0 {
        false
    } else if a[0] != b[0] {
        a[0] < b[0]
    } else {
        lex_le(a.drop_first(), b.drop_first())
    }
}

/// Of two byte strings one comes no later than the other.
pub proof fn lemma_lex_le_total(a: Seq<u8>, b: Seq<u8>)
    ensures
        lex_le(a, b) || lex_le(b, a),
    decreases a.len(),
{
    if a.len() > 0 && b.len() > 0 && a[0] == b[0] {
        lemma_lex_le_total(a.drop_first(), b.drop_first());
    }
}

/// The order of byte strings is transitive.
pub proof fn lemma_lex_le_transitive(a: Seq<u8>, b: Seq<u8>, c: Seq<u8>)
    requires
        lex_le(a, b),
        lex_le(b, c),
    ensures
        lex_le(a, c),
    decreases a.len(),
{
    if a.len() > 0 && b.len() > 0 && c.len() > 0 && a[0] == b[0] && b[0] == c[0] {
        lemma_lex_le_transitive(a.drop_first(), b.drop_first(), c.drop_first());
    }
}

/// Whether `a` comes no later than `b` in the order of byte strings.
pub fn bytes_le(a: &Vec<u8>, b: &Vec<u8>) -> (r: bool)
    ensures
        r == lex_le(a@, b@),
{
    let mut i: usize = 0;
    assert(a@.skip(0) =~= a@ && b@.skip(0) =~= b@);
    while i < a.len() && i < b.len()
        invariant
            i <= a.len(),
            i <= b.len(),
            lex_le(a@, b@) == lex_le(a@.skip(i as int), b@.skip(i as int)),
        decreases a.len() - i,
    {
        proof {
            assert(a@.skip(i as int)[0] == a@[i as int]);
            assert(b@.skip(i as int)[0] == b@[i as int]);
            assert(a@.skip(i as int).drop_first() =~= a@.skip(i as int + 1));
            assert(b@.skip(i as int).drop_first() =~= b@.skip(i as int + 1));
        }
        if a[i] != b[i] {
            return a[i] < b[i];
        }
        i += 1;
    }
    i == a.len()
}

/// `order` lists every position of `keys` once, by ascending key.
pub open spec fn sorts(keys: Seq<Seq<u8>>, order: Seq<int>) -> bool {
    &&& order.len() == keys.len()
    &&& order.no_duplicates()
    &&& forall|k: int| 0 <= k < order.len() ==> 0 <= #[trigger] order[k] < keys.len()
    &&& forall|k: int|
        0 <= k < order.len() - 1 ==> lex_le(keys[#[trigger] order[k]], keys[order[k + 1]])
}

/// The items of `items` in the order `order`.
pub open spec fn arranged<T>(items: Seq<T>, order: Seq<int>) -> Seq<T> {
    Seq::new(order.len(), |k: int| items[order[k]])
}

/// The positions as mathematical integers.
pub open spec fn positions(order: Seq<usize>) -> Seq<int> {
    Seq::new(order.len(), |k: int| order[k] as int)
}

/// The unused position with the least key, if any is left.
fn least_unused(keys: &Vec<Vec<u8>>, used: &Vec<bool>) -> (r: Option<usize>)
    requires
        used.len() == keys.len(),
    ensures
        match r {
            Some(j) => {
                &&& j < keys.len()
                &&& !used@[j as int]
                &&& forall|k: int|
                    0 <= k < keys.len() && !(#[trigger] used@[k]) ==> lex_le(
                        keys.deep_view()[j as int],
                        keys.deep_view()[k],
                    )
            },
            None => forall|k: int| 0 <= k < keys.len() ==> used@[k],
        },
{
    let ghost view = keys.deep_view();
    let mut best: Option<usize> = None;
    let mut i: usize = 0;
    while i < keys.len()
        invariant
            i <= keys.len(),
            used.len() == keys.len(),
            view == keys.deep_view(),
            match best {
                Some(j) => {
                    &&& j < i
                    &&& !used@[j as int]
                    &&& forall|k: int|
                        0 <= k < i && !(#[trigger] used@[k]) ==> lex_le(view[j as int], view[k])
                },
                None => forall|k: int| 0 <= k < i ==> used@[k],
            },
        decreases keys.len() - i,
    {
        if !used[i] {
            assert(view[i as int] == keys@[i as int]@);
            match best {
                Some(j) => {
                    assert(view[j as int] == keys@[j as int]@);
                    if !bytes_le(&keys[j], &keys[i]) {
                        proof {
                            lemma_lex_le_total(view[j as int], view[i as int]);
                            assert forall|k: int| 0 <= k < i + 1 && !(#[trigger] used@[k]) implies lex_le(
                                view[i as int],
                                view[k],
                            ) by {
                                if k < i {
                                    lemma_lex_le_transitive(view[i as int], view[j as int], view[k]);
                                } else {
                                    lemma_lex_le_total(view[i as int], view[i as int]);
                                }
                            }
                        }
                        best = Some(i);
                    }
                },
                None => {
                    proof {
                        lemma_lex_le_total(view[i as int], view[i as int]);
                    }
                    best = Some(i);
                },
            }
        }
        i += 1;
    }
    best
}

/// The positions of `keys` by ascending key.
pub fn sort_order(keys: &Vec<Vec<u8>>) -> (r: Vec<usize>)
    ensures
        sorts(keys.deep_view(), positions(r@)),
{
    let ghost view = keys.deep_view();
    let n = keys.len();
    let mut used: Vec<bool> = Vec::new();
    let mut i: usize = 0;
    while i < n
        invariant
            i <= n,
            used.len() == i,
            forall|k: int| 0 <= k < i ==> !used@[k],
        decreases n - i,
    {
        used.push(false);
        i += 1;
    }
    let mut order: Vec<usize> = Vec::new();
    proof {
        lemma_unmarked_fresh(used@, n as int);
    }
    while order.len() < n
        invariant
            n == keys.len(),
            view == keys.deep_view(),
            used.len() == n,
            order.len() <= n,
            unmarked_count(used@, n as int) == n - order.len(),
            positions(order@).no_duplicates(),
            forall|k: int| 0 <= k < order.len() ==> 0 <= #[trigger] order@[k] < n,
            forall|i: int| 0 <= i < n ==> (used@[i] <==> positions(order@).contains(i)),
            forall|k: int|
                0 <= k < order.len() - 1 ==> lex_le(
                    view[#[trigger] positions(order@)[k]],
                    view[positions(order@)[k + 1]],
                ),
            order.len() > 0 ==> forall|i: int|
                0 <= i < n && !(#[trigger] used@[i]) ==> lex_le(
                    view[positions(order@).last()],
                    view[i],
                ),
        decreases n - order.len(),
    {
        proof {
            lemma_unmarked_zero(used@, n as int);
        }
        match least_unused(keys, &used) {
            Some(j) => {
                let ghost before = positions(order@);
                proof {
                    lemma_unmarked_set(used@, j as int, n as int);
                }
                order.push(j);
                used[j] = true;
                proof {
                    let after = positions(order@);
                    assert(after =~= before.push(j as int));
                    assert(!before.contains(j as int));
                    assert forall|a: int, b: int|
                        0 <= a < after.len() && 0 <= b < after.len() && a != b implies after[a]
                        != after[b] by {
                        if a < before.len() && b < before.len() {
                            assert(before[a] != before[b]);
                        } else if a < before.len() {
                            assert(before.contains(before[a]));
                        } else {
                            assert(before.contains(before[b]));
                        }
                    }
                    assert forall|i: int| 0 <= i < n implies (used@[i] <==> after.contains(i)) by {
                        if i == j {
                            assert(after[before.len() as int] == j);
                        } else if before.contains(i) {
                            let k = choose|k: int| 0 <= k < before.len() && before[k] == i;
                            assert(after[k] == i);
                        } else if after.contains(i) {
                            let k = choose|k: int| 0 <= k < after.len() && after[k] == i;
                            assert(before[k] == i);
                        }
                    }
                    assert forall|k: int| 0 <= k < after.len() - 1 implies lex_le(
                        view[#[trigger] after[k]],
                        view[after[k + 1]],
                    ) by {
                        if k == before.len() - 1 {
                            assert(after[k] == before.last());
                        } else {
                            assert(after[k] == before[k] && after[k + 1] == before[k + 1]);
                        }
                    }
                }
            },
            None => {
                assert(false);
            },
        }
    }
    order
}

/// Decodes a bech32 address with `bee_message::address::Address::try_from_bech32`.
/// The contract names what the call yields: the bytes of the address that
/// the string encodes, or nothing where the call fails.
#[verifier::external_body]
fn decode_bech32(address: &String) -> (r: Option<[u8; 32]>)
    ensures
        match r {
            Some(bytes) => bech32_address_bytes(address@) == Some(bytes@),
            None => bech32_address_bytes(address@).is_none(),
        },
{
    match bee_message::address::Address::try_from_bech32(address) {
        Ok(bee_message::address::Address::Ed25519(found)) => {
            let mut bytes = [0u8; 32];
            bytes.copy_from_slice(found.as_ref());
            Some(bytes)
        },
        Err(_) => None,
    }
}

/// Whether a text is an address in bech32.
pub fn is_bech32_address(text: &String) -> (r: bool)
    ensures
        r == bech32_address_bytes(text@).is_some(),
{
    decode_bech32(text).is_some()
}

/// Encodes an input with `bee_message::input::UtxoInput::new` and
/// `bee_common::packable::Packable::pack_new`. The contract claims that the
/// input is refused exactly where the index is out of range, and that the
/// encoding is the kind byte, the transaction identifier and the index in
/// two bytes.
#[verifier::external_body]
fn packed_utxo_input(transaction_id: &[u8; 32], index: u16) -> (r: Option<Vec<u8>>)
    ensures
        match r {
            Some(bytes) => index < INPUT_OUTPUT_INDEX_END && bytes@ == utxo_input_encoding(
                transaction_id@,
                index,
            ),
            None => index >= INPUT_OUTPUT_INDEX_END,
        },
{
    let id = bee_message::payload::transaction::TransactionId::new(*transaction_id);
    match bee_message::input::UtxoInput::new(id, index) {
        Ok(input) => Some(bee_message::input::Input::from(input).pack_new()),
        Err(_) => None,
    }
}

/// Encodes an output with `bee_message::output::SignatureLockedSingleOutput::new`
/// and `bee_common::packable::Packable::pack_new`. The contract claims that
/// the output is refused exactly where the amount is zero or above the
/// supply, and that the encoding is the kind byte of the output, that of
/// the address, the address and the amount in eight bytes.
#[verifier::external_body]
fn packed_single_output(address: &[u8; 32], amount: u64) -> (r: Option<Vec<u8>>)
    ensures
        match r {
            Some(bytes) => 1 <= amount <= IOTA_SUPPLY && bytes@ == single_output_encoding(
                address@,
                amount,
            ),
            None => amount == 0 || amount > IOTA_SUPPLY,
        },
{
    let owner = bee_message::address::Ed25519Address::new(*address);
    let made = bee_message::output::SignatureLockedSingleOutput::new(owner.into(), amount);
    match made {
        Ok(output) => Some(bee_message::output::Output::from(output).pack_new()),
        Err(_) => None,
    }
}

/// An output of a transaction: an amount deposited on an address.
#[derive(Debug)]
pub struct EssenceOutput {
    /// The address that receives, in bech32.
    pub address: String,
    /// The amount deposited.
    pub amount: u64,
}

/// An output of a transaction as a mathematical value.
pub ghost struct EssenceOutputView {
    pub address: Seq<char>,
    pub amount: u64,
}

impl View for EssenceOutput {
    type V = EssenceOutputView;

    open spec fn view(&self) -> EssenceOutputView {
        EssenceOutputView { address: self.address@, amount: self.amount }
    }
}

impl DeepView for EssenceOutput {
    type V = EssenceOutputView;

    open spec fn deep_view(&self) -> EssenceOutputView {
        self@
    }
}

/// An input can stand in a transaction: its index is in range.
pub open spec fn input_is_valid(input: (Seq<u8>, u16)) -> bool {
    input.1 < INPUT_OUTPUT_INDEX_END
}

/// An output can stand in a transaction: its address is one, and its
/// amount is neither zero nor above the supply.
pub open spec fn output_is_valid(output: EssenceOutputView) -> bool {
    bech32_address_bytes(output.address).is_some() && 1 <= output.amount <= IOTA_SUPPLY
}

/// The canonical encoding of an input.
pub open spec fn input_key(input: (Seq<u8>, u16)) -> Seq<u8> {
    utxo_input_encoding(input.0, input.1)
}

/// The canonical encoding of an output.
pub open spec fn output_key(output: EssenceOutputView) -> Seq<u8> {
    single_output_encoding(bech32_address_bytes(output.address).unwrap(), output.amount)
}

/// The views of a list of output identifiers.
pub open spec fn ids_view(ids: Seq<OutputId>) -> Seq<(Seq<u8>, u16)> {
    Seq::new(ids.len(), |i: int| ids[i]@)
}

/// `sorted` holds the items of `items`, each once, by ascending key.
pub open spec fn is_sorted_by_key<T>(items: Seq<T>, keys: Seq<Seq<u8>>, sorted: Seq<T>) -> bool {
    exists|order: Seq<int>| #[trigger] sorts(keys, order) && sorted == arranged(items, order)
}

/// The text of the error for an input or output that cannot stand in a
/// transaction.
pub fn invalid_essence_error() -> (r: Error)
    ensures
        r matches Error::ClientError(text) && text@ == "invalid transaction input or output"@,
{
    Error::ClientError("invalid transaction input or output".to_string())
}

/// Puts the inputs of a transaction in the order that the protocol asks
/// for: ascending by canonical encoding. It fails exactly where an input
/// has an index out of range.
pub fn order_inputs(inputs: &Vec<OutputId>) -> (r: Result<Vec<OutputId>, Error>)
    ensures
        match r {
            Ok(sorted) => {
                &&& forall|i: int| 0 <= i < inputs.len() ==> input_is_valid(#[trigger] ids_view(inputs@)[i])
                &&& is_sorted_by_key(
                    ids_view(inputs@),
                    ids_view(inputs@).map_values(|i: (Seq<u8>, u16)| input_key(i)),
                    ids_view(sorted@),
                )
            },
            Err(e) => e is ClientError && exists|i: int|
                0 <= i < inputs.len() && !input_is_valid(#[trigger] ids_view(inputs@)[i]),
        },
{
    let ghost view = ids_view(inputs@);
    let ghost key_of = |i: (Seq<u8>, u16)| input_key(i);
    let mut keys: Vec<Vec<u8>> = Vec::new();
    let mut i: usize = 0;
    while i < inputs.len()
        invariant
            i <= inputs.len(),
            view == ids_view(inputs@),
            keys.len() == i,
            forall|k: int| 0 <= k < i ==> input_is_valid(#[trigger] view[k]),
            forall|k: int| 0 <= k < i ==> keys.deep_view()[k] == input_key(#[trigger] view[k]),
        decreases inputs.len() - i,
    {
        let ghost before = keys.deep_view();
        match packed_utxo_input(&inputs[i].transaction_id.bytes, inputs[i].index) {
            Some(key) => {
                keys.push(key);
            },
            None => {
                assert(!input_is_valid(view[i as int]));
                return Err(invalid_essence_error());
            },
        }
        proof {
            assert forall|k: int| 0 <= k < i + 1 implies keys.deep_view()[k] == input_key(
                #[trigger] view[k],
            ) by {
                if k < i {
                    assert(keys.deep_view()[k] == before[k]);
                }
            }
        }
        i += 1;
    }
    let order = sort_order(&keys);
    let mut sorted: Vec<OutputId> = Vec::new();
    let mut k: usize = 0;
    while k < order.len()
        invariant
            k <= order.len(),
            order.len() == inputs.len(),
            forall|j: int| 0 <= j < order.len() ==> 0 <= #[trigger] positions(order@)[j] < inputs.len(),
            sorted.len() == k,
            forall|j: int| 0 <= j < k ==> sorted@[j] == inputs@[positions(order@)[j]],
        decreases order.len() - k,
    {
        assert(positions(order@)[k as int] == order@[k as int]);
        sorted.push(inputs[order[k]]);
        k += 1;
    }
    proof {
        assert(keys.deep_view() =~= view.map_values(key_of));
        assert(ids_view(sorted@) =~= arranged(view, positions(order@)));
    }
    Ok(sorted)
}

/// Puts the outputs of a transaction in the order that the protocol asks
/// for: ascending by canonical encoding. It fails exactly where an output
/// names no address or deposits nothing or more than the supply.
pub fn order_outputs(outputs: &Vec<EssenceOutput>) -> (r: Result<Vec<EssenceOutput>, Error>)
    ensures
        match r {
            Ok(sorted) => {
                &&& forall|i: int|
                    0 <= i < outputs.len() ==> output_is_valid(#[trigger] outputs.deep_view()[i])
                &&& is_sorted_by_key(
                    outputs.deep_view(),
                    outputs.deep_view().map_values(|o: EssenceOutputView| output_key(o)),
                    sorted.deep_view(),
                )
            },
            Err(e) => e is ClientError && exists|i: int|
                0 <= i < outputs.len() && !output_is_valid(#[trigger] outputs.deep_view()[i]),
        },
{
    let ghost view = outputs.deep_view();
    let ghost key_of = |o: EssenceOutputView| output_key(o);
    let mut keys: Vec<Vec<u8>> = Vec::new();
    let mut i: usize = 0;
    while i < outputs.len()
        invariant
            i <= outputs.len(),
            view == outputs.deep_view(),
            keys.len() == i,
            forall|k: int| 0 <= k < i ==> output_is_valid(#[trigger] view[k]),
            forall|k: int| 0 <= k < i ==> keys.deep_view()[k] == output_key(#[trigger] view[k]),
        decreases outputs.len() - i,
    {
        let ghost before = keys.deep_view();
        assert(view[i as int] == outputs@[i as int]@);
        let packed = match decode_bech32(&outputs[i].address) {
            Some(bytes) => packed_single_output(&bytes, outputs[i].amount),
            None => None,
        };
        match packed {
            Some(key) => {
                keys.push(key);
            },
            None => {
                assert(!output_is_valid(view[i as int]));
                return Err(invalid_essence_error());
            },
        }
        proof {
            assert forall|k: int| 0 <= k < i + 1 implies keys.deep_view()[k] == output_key(
                #[trigger] view[k],
            ) by {
                if k < i {
                    assert(keys.deep_view()[k] == before[k]);
                }
            }
        }
        i += 1;
    }
    let order = sort_order(&keys);
    let mut sorted: Vec<EssenceOutput> = Vec::new();
    let mut k: usize = 0;
    while k < order.len()
        invariant
            k <= order.len(),
            order.len() == outputs.len(),
            view == outputs.deep_view(),
            forall|j: int| 0 <= j < order.len() ==> 0 <= #[trigger] positions(order@)[j] < outputs.len(),
            sorted.len() == k,
            forall|j: int| 0 <= j < k ==> sorted@[j]@ == view[positions(order@)[j]],
        decreases order.len() - k,
    {
        assert(positions(order@)[k as int] == order@[k as int]);
        let from = &outputs[order[k]];
        assert(view[order@[k as int] as int] == from@);
        sorted.push(EssenceOutput { address: from.address.clone(), amount: from.amount });
        k += 1;
    }
    proof {
        assert(keys.deep_view() =~= view.map_values(key_of));
        assert(sorted.deep_view() =~= arranged(view, positions(order@)));
    }
    Ok(sorted)
}

/// The part of a transaction that is signed: its inputs and outputs in
/// the order that the protocol asks for, and the indexation payload that
/// goes with them.
#[derive(Debug)]
pub struct Essence {
    /// The consumed outputs, by ascending encoding.
    pub inputs: Vec<OutputId>,
    /// The created outputs, by ascending encoding.
    pub outputs: Vec<EssenceOutput>,
    /// The index and the data of the indexation payload, if there is one.
    pub indexation: Option<(Vec<u8>, Vec<u8>)>,
}

/// Some input or output cannot stand in a transaction.
pub open spec fn essence_is_invalid(inputs: Seq<(Seq<u8>, u16)>, outputs: Seq<EssenceOutputView>) -> bool {
    ||| exists|i: int| 0 <= i < inputs.len() && !input_is_valid(#[trigger] inputs[i])
    ||| exists|i: int| 0 <= i < outputs.len() && !output_is_valid(#[trigger] outputs[i])
}

/// Seals the essence of a transaction: puts its inputs and its outputs in
/// order. It fails exactly where an input or an output cannot stand in a
/// transaction.
pub fn seal_essence(inputs: &Vec<OutputId>, outputs: &Vec<EssenceOutput>, indexation: Option<
    (Vec<u8>, Vec<u8>),
>) -> (r: Result<Essence, Error>)
    ensures
        match r {
            Ok(essence) => {
                &&& !essence_is_invalid(ids_view(inputs@), outputs.deep_view())
                &&& is_sorted_by_key(
                    ids_view(inputs@),
                    ids_view(inputs@).map_values(|i: (Seq<u8>, u16)| input_key(i)),
                    ids_view(essence.inputs@),
                )
                &&& is_sorted_by_key(
                    outputs.deep_view(),
                    outputs.deep_view().map_values(|o: EssenceOutputView| output_key(o)),
                    essence.outputs.deep_view(),
                )
                &&& essence.indexation == indexation
            },
            Err(e) => e is ClientError && essence_is_invalid(ids_view(inputs@), outputs.deep_view()),
        },
{
    let sorted_inputs = match order_inputs(inputs) {
        Ok(sorted) => sorted,
        Err(e) => {
            return Err(e);
        },
    };
    let sorted_outputs = match order_outputs(outputs) {
        Ok(sorted) => sorted,
        Err(e) => {
            return Err(e);
        },
    };
    Ok(Essence { inputs: sorted_inputs, outputs: sorted_outputs, indexation })
}

} // verus!
