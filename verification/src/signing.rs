//! What the signer is handed: the consumed outputs, each with the
//! derivation path of the key that unlocks it.

use crate::account::sync::preparation::{TransferInput, TransferInputView};
use crate::account::{Account, AccountView, address_position};
use crate::address::{AddressOutput, AddressOutputView};
use vstd::prelude::*;
use vstd::string::*;

verus! {

/// The character of a decimal digit.
pub open spec fn digit_char(d: nat) -> char {
    if d == 0 {
        '0'
    } else if d == 1 {
        '1'
    } else if d == 2 {
        '2'
    } else if d == 3 {
        '3'
    } else if d == 4 {
        '4'
    } else if d == 5 {
        '5'
    } else if d == 6 {
        '6'
    } else if d == 7 {
        '7'
    } else if d == 8 {
        '8'
    } else {
        '9'
    }
}

/// A number written in decimal.
pub open spec fn decimal(n: nat) -> Seq<char>
    decreases n,
{
    if n < 10 {
        seq![digit_char(n)]
    } else {
        decimal(n / 10).push(digit_char(n % 10))
    }
}

/// The text of a decimal digit.
fn digit_text(d: usize) -> (r: &'static str)
    requires
        d < 10,
    ensures
        r@ == seq![digit_char(d as nat)],
{
    proof {
        reveal_strlit("0");
        reveal_strlit("1");
        reveal_strlit("2");
        reveal_strlit("3");
        reveal_strlit("4");
        reveal_strlit("5");
        reveal_strlit("6");
        reveal_strlit("7");
        reveal_strlit("8");
        reveal_strlit("9");
    }
    let r = if d == 0 {
        "0"
    } else if d == 1 {
        "1"
    } else if d == 2 {
        "2"
    } else if d == 3 {
        "3"
    } else if d == 4 {
        "4"
    } else if d == 5 {
        "5"
    } else if d == 6 {
        "6"
    } else if d == 7 {
        "7"
    } else if d == 8 {
        "8"
    } else {
        "9"
    };
    assert(r@ =~= seq![digit_char(d as nat)]);
    r
}

/// Writes a number in decimal at the end of a text.
pub fn append_decimal(text: &mut String, n: usize)
    ensures
        final(text)@ == old(text)@ + decimal(n as nat),
    decreases n,
{
    if n >= 10 {
        append_decimal(text, n / 10);
    }
    text.append(digit_text(n % 10));
    assert(text@ =~= old(text)@ + decimal(n as nat));
}

/// The derivation path of a key as text: purpose, coin type, account,
/// whether the address is a change address, and the key index, each
/// hardened.
pub open spec fn path_text(account_index: usize, internal: bool, key_index: usize) -> Seq<char> {
    "m/44H/4218H/"@ + decimal(account_index as nat) + "H/"@ + decimal(
        if internal {
            1nat
        } else {
            0nat
        },
    ) + "H/"@ + decimal(key_index as nat) + "H"@
}

/// The derivation path of a key as text.
pub fn derivation_path_text(account_index: usize, internal: bool, key_index: usize) -> (r: String)
    ensures
        r@ == path_text(account_index, internal, key_index),
{
    let mut text = String::from_str("m/44H/4218H/");
    append_decimal(&mut text, account_index);
    text.append("H/");
    append_decimal(&mut text, if internal {
        1
    } else {
        0
    });
    text.append("H/");
    append_decimal(&mut text, key_index);
    text.append("H");
    text
}

/// The indices of the path that a text describes, where it describes one.
pub uninterp spec fn bip32_path_segments(text: Seq<char>) -> Option<Seq<u32>>;

/// Parses a path with `slip10::BIP32Path::from_str`. The contract names
/// what the call yields: the indices of the parsed path, or nothing where
/// the text is refused.
#[verifier::external_body]
fn parse_bip32_path(text: &String) -> (r: Option<Vec<u32>>)
    ensures
        match r {
            Some(path) => bip32_path_segments(text@) == Some(path@),
            None => bip32_path_segments(text@).is_none(),
        },
{
    match text.parse::<slip10::BIP32Path>() {
        Ok(path) => Some((0..path.depth()).map(|depth| *path.index(depth).unwrap()).collect()),
        Err(_) => None,
    }
}

/// The index from which on indices are hardened.
pub const HARDENED: u32 = 0x8000_0000;

/// The purpose that the wallet's paths begin with.
pub const PURPOSE: u32 = 44;

/// The coin type of the wallet's paths.
pub const COIN_TYPE: u32 = 4218;

/// The indices of the derivation path of a key, each hardened: purpose,
/// coin type, account, whether the address is a change address, and the
/// key index.
pub open spec fn hardened_path(account_index: usize, internal: bool, key_index: usize) -> Seq<u32> {
    seq![
        (HARDENED + PURPOSE) as u32,
        (HARDENED + COIN_TYPE) as u32,
        (HARDENED + account_index) as u32,
        (HARDENED + if internal {
            1int
        } else {
            0int
        }) as u32,
        (HARDENED + key_index) as u32,
    ]
}

/// The derivation path of a key, where it has one: the account and the
/// key index must be below the index from which on indices are hardened,
/// and the path as text must read as these indices.
pub open spec fn derived_path(account_index: usize, internal: bool, key_index: usize) -> Option<
    Seq<u32>,
> {
    if account_index < HARDENED && key_index < HARDENED && bip32_path_segments(
        path_text(account_index, internal, key_index),
    ) == Some(hardened_path(account_index, internal, key_index)) {
        Some(hardened_path(account_index, internal, key_index))
    } else {
        None
    }
}

/// Whether two paths hold the same indices.
fn path_eq(a: &Vec<u32>, b: &Vec<u32>) -> (r: bool)
    ensures
        r == (a@ == b@),
{
    if a.len() != b.len() {
        return false;
    }
    let mut i: usize = 0;
    while i < a.len()
        invariant
            i <= a.len(),
            a.len() == b.len(),
            forall|j: int| 0 <= j < i ==> a@[j] == b@[j],
        decreases a.len() - i,
    {
        if a[i] != b[i] {
            return false;
        }
        i += 1;
    }
    assert(a@ =~= b@);
    true
}

/// The derivation path of the key of an address of an account:
/// `m/44'/4218'/account'/internal'/key'`. The path is written as text and
/// parsed, and it is handed out only where the parsed indices are the
/// hardened ones.
pub fn derivation_path(account_index: usize, internal: bool, key_index: usize) -> (r: Option<
    Vec<u32>,
>)
    ensures
        match r {
            Some(path) => derived_path(account_index, internal, key_index) == Some(path@),
            None => derived_path(account_index, internal, key_index).is_none(),
        },
{
    if account_index >= HARDENED as usize || key_index >= HARDENED as usize {
        return None;
    }
    let text = derivation_path_text(account_index, internal, key_index);
    let parsed = match parse_bip32_path(&text) {
        Some(parsed) => parsed,
        None => {
            return None;
        },
    };
    let mut expected: Vec<u32> = Vec::new();
    expected.push(HARDENED + PURPOSE);
    expected.push(HARDENED + COIN_TYPE);
    expected.push(HARDENED + account_index as u32);
    expected.push(HARDENED + if internal {
        1
    } else {
        0
    });
    expected.push(HARDENED + key_index as u32);
    assert(expected@ =~= hardened_path(account_index, internal, key_index));
    if path_eq(&parsed, &expected) {
        Some(parsed)
    } else {
        None
    }
}

/// An output that a transaction consumes, as the signer needs it.
#[derive(Debug)]
pub struct TransactionInput {
    /// The output.
    pub utxo: AddressOutput,
    /// The key index of the address that owns the output.
    pub address_index: usize,
    /// Whether that address is a change address.
    pub address_internal: bool,
    /// The derivation path of the key that unlocks the output.
    pub address_path: Vec<u32>,
}

/// An output to sign for, as a mathematical value.
pub ghost struct TransactionInputView {
    pub utxo: AddressOutputView,
    pub address_index: usize,
    pub address_internal: bool,
    pub address_path: Seq<u32>,
}

impl View for TransactionInput {
    type V = TransactionInputView;

    open spec fn view(&self) -> TransactionInputView {
        TransactionInputView {
            utxo: self.utxo@,
            address_index: self.address_index,
            address_internal: self.address_internal,
            address_path: self.address_path@,
        }
    }
}

impl DeepView for TransactionInput {
    type V = TransactionInputView;

    open spec fn deep_view(&self) -> TransactionInputView {
        self@
    }
}

/// The outputs of one paying address as the signer needs them, where the
/// account owns the address and its key has a path.
pub open spec fn inputs_of_address(account: AccountView, paying: TransferInputView) -> Option<
    Seq<TransactionInputView>,
> {
    match address_position(account.addresses, paying.input.address) {
        Some(at) => {
            let owner = account.addresses[at];
            match derived_path(account.index, owner.internal, owner.key_index) {
                Some(path) => Some(
                    Seq::new(
                        paying.outputs.len(),
                        |i: int|
                            TransactionInputView {
                                utxo: paying.outputs[i],
                                address_index: owner.key_index,
                                address_internal: owner.internal,
                                address_path: path,
                            },
                    ),
                ),
                None => None,
            }
        },
        None => None,
    }
}

/// The outputs of all paying addresses as the signer needs them, in the
/// order of the addresses and of their outputs.
pub open spec fn inputs_to_sign(account: AccountView, paying: Seq<TransferInputView>) -> Option<
    Seq<TransactionInputView>,
>
    decreases paying.len(),
{
    if paying.len() == 0 {
        Some(Seq::empty())
    } else {
        match (
            inputs_to_sign(account, paying.drop_last()),
            inputs_of_address(account, paying.last()),
        ) {
            (Some(before), Some(last)) => Some(before + last),
            _ => None,
        }
    }
}

/// A copy of a path.
fn clone_path(path: &Vec<u32>) -> (r: Vec<u32>)
    ensures
        r@ == path@,
{
    let mut out: Vec<u32> = Vec::new();
    let mut i: usize = 0;
    while i < path.len()
        invariant
            i <= path.len(),
            out@ == path@.take(i as int),
        decreases path.len() - i,
    {
        out.push(path[i]);
        assert(out@ =~= path@.take(i as int + 1));
        i += 1;
    }
    assert(path@.take(path.len() as int) =~= path@);
    out
}

/// Lists the outputs that a transaction consumes, each with the key index
/// and the derivation path of its address. There is no list where a paying
/// address is not one of the account's, or where the path of a key cannot
/// be had.
pub fn transaction_inputs(account: &Account, paying: &Vec<TransferInput>) -> (r: Option<
    Vec<TransactionInput>,
>)
    ensures
        r.deep_view() == inputs_to_sign(account@, paying.deep_view()),
{
    let ghost view = paying.deep_view();
    let mut found: Vec<TransactionInput> = Vec::new();
    let mut i: usize = 0;
    proof {
        assert(view.take(0) =~= Seq::empty());
        assert(found.deep_view() =~= Seq::empty());
    }
    while i < paying.len()
        invariant
            i <= paying.len(),
            view == paying.deep_view(),
            inputs_to_sign(account@, view.take(i as int)) == Some(found.deep_view()),
        decreases paying.len() - i,
    {
        let payer = &paying[i];
        proof {
            assert(view[i as int] == payer@);
            assert(view.take(i as int + 1).drop_last() =~= view.take(i as int));
            lemma_inputs_to_sign_prefix(account@, view, i as int + 1);
        }
        let at = match account.find_address(&payer.input.address) {
            Some(at) => at,
            None => {
                return None;
            },
        };
        let owner = &account.addresses[at];
        assert(account@.addresses[at as int] == owner@);
        let path = match derivation_path(account.index, owner.internal, owner.key_index) {
            Some(path) => path,
            None => {
                return None;
            },
        };
        let ghost before = found.deep_view();
        let ghost last = inputs_of_address(account@, payer@).unwrap();
        let mut k: usize = 0;
        assert(found.deep_view() =~= before + last.take(0));
        while k < payer.outputs.len()
            invariant
                k <= payer.outputs.len(),
                inputs_of_address(account@, payer@) == Some(last),
                last.len() == payer.outputs.len(),
                at < account.addresses.len(),
                account@.addresses[at as int] == owner@,
                address_position(account@.addresses, payer@.input.address) == Some(at as int),
                derived_path(account@.index, owner@.internal, owner@.key_index) == Some(path@),
                found.deep_view() == before + last.take(k as int),
            decreases payer.outputs.len() - k,
        {
            let ghost so_far = found.deep_view();
            assert(payer@.outputs[k as int] == payer.outputs@[k as int]@);
            found.push(
                TransactionInput {
                    utxo: payer.outputs[k].clone(),
                    address_index: owner.key_index,
                    address_internal: owner.internal,
                    address_path: clone_path(&path),
                },
            );
            assert(found.deep_view() =~= so_far.push(last[k as int]));
            assert(found.deep_view() =~= before + last.take(k as int + 1));
            k += 1;
        }
        assert(last.take(payer.outputs.len() as int) =~= last);
        i += 1;
    }
    assert(view.take(paying.len() as int) =~= view);
    Some(found)
}

/// Where the inputs of the first paying addresses cannot be listed, those
/// of all of them cannot either.
pub proof fn lemma_inputs_to_sign_prefix(account: AccountView, paying: Seq<TransferInputView>, n: int)
    requires
        0 <= n <= paying.len(),
    ensures
        inputs_to_sign(account, paying.take(n)).is_none() ==> inputs_to_sign(account, paying).is_none(),
    decreases paying.len() - n,
{
    if n < paying.len() {
        assert(paying.take(n + 1).drop_last() =~= paying.take(n));
        lemma_inputs_to_sign_prefix(account, paying, n + 1);
    } else {
        assert(paying.take(n) =~= paying);
    }
}

} // verus!
