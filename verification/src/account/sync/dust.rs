//! The ledger's dust protection: how much dust an address may hold.

use crate::account::Account;
use crate::address::{AddressOutput, AddressOutputView, OutputKind, DUST_ALLOWANCE_VALUE};
use crate::error::Error;
use vstd::prelude::*;

verus! {

/// Each full multiple of this amount of dust allowance permits one dust
/// output.
pub const DUST_ALLOWANCE_DIVISOR: u64 = 100_000;

/// No address may hold more dust outputs than this, whatever its allowance.
pub const DUST_OUTPUTS_MAX: u64 = 100;

/// The dust allowance among outputs given as amount and kind: the sum of
/// the dust-allowance outputs.
pub open spec fn held_allowance(outputs: Seq<(u64, OutputKind)>) -> int
    decreases outputs.len(),
{
    if outputs.len() == 0 {
        0
    } else {
        held_allowance(outputs.drop_last()) + if outputs.last().1
            == OutputKind::SignatureLockedDustAllowance {
            outputs.last().0 as int
        } else {
            0
        }
    }
}

/// The number of dust outputs among outputs given as amount and kind: the
/// single-signature outputs below the dust threshold.
pub open spec fn held_dust(outputs: Seq<(u64, OutputKind)>) -> int
    decreases outputs.len(),
{
    if outputs.len() == 0 {
        0
    } else {
        held_dust(outputs.drop_last()) + if outputs.last().1 == OutputKind::SignatureLockedSingle
            && outputs.last().0 < DUST_ALLOWANCE_VALUE {
            1int
        } else {
            0
        }
    }
}

/// The allowance that a transaction adds to an address. Its changes are
/// given as amount and whether the output is created (else consumed); an
/// output of at least the dust threshold counts as allowance.
pub open spec fn created_allowance(changes: Seq<(u64, bool)>) -> int
    decreases changes.len(),
{
    if changes.len() == 0 {
        0
    } else {
        created_allowance(changes.drop_last()) + if changes.last().1 && changes.last().0
            >= DUST_ALLOWANCE_VALUE {
            changes.last().0 as int
        } else {
            0
        }
    }
}

/// The allowance that a transaction takes from an address.
pub open spec fn consumed_allowance(changes: Seq<(u64, bool)>) -> int
    decreases changes.len(),
{
    if changes.len() == 0 {
        0
    } else {
        consumed_allowance(changes.drop_last()) + if !changes.last().1 && changes.last().0
            >= DUST_ALLOWANCE_VALUE {
            changes.last().0 as int
        } else {
            0
        }
    }
}

/// The number of dust outputs that a transaction creates on an address.
pub open spec fn created_dust(changes: Seq<(u64, bool)>) -> int
    decreases changes.len(),
{
    if changes.len() == 0 {
        0
    } else {
        created_dust(changes.drop_last()) + if changes.last().1 && changes.last().0
            < DUST_ALLOWANCE_VALUE {
            1int
        } else {
            0
        }
    }
}

/// The number of dust outputs that a transaction consumes on an address.
pub open spec fn consumed_dust(changes: Seq<(u64, bool)>) -> int
    decreases changes.len(),
{
    if changes.len() == 0 {
        0
    } else {
        consumed_dust(changes.drop_last()) + if !changes.last().1 && changes.last().0
            < DUST_ALLOWANCE_VALUE {
            1int
        } else {
            0
        }
    }
}

/// The dust allowance of an address once the transaction is confirmed.
pub open spec fn allowance_after(outputs: Seq<(u64, OutputKind)>, changes: Seq<(u64, bool)>) -> int {
    held_allowance(outputs) + created_allowance(changes) - consumed_allowance(changes)
}

/// The number of dust outputs on an address once the transaction is
/// confirmed.
pub open spec fn dust_after(outputs: Seq<(u64, OutputKind)>, changes: Seq<(u64, bool)>) -> int {
    held_dust(outputs) + created_dust(changes) - consumed_dust(changes)
}

/// The number of dust outputs that an allowance permits: one for each full
/// hundred thousand, and never more than a hundred.
pub open spec fn dust_limit(allowance: int) -> int {
    if allowance / (DUST_ALLOWANCE_DIVISOR as int) < DUST_OUTPUTS_MAX as int {
        allowance / (DUST_ALLOWANCE_DIVISOR as int)
    } else {
        DUST_OUTPUTS_MAX as int
    }
}

/// The transaction respects the dust rule on an address that holds
/// `outputs`.
pub open spec fn dust_allowed(outputs: Seq<(u64, OutputKind)>, changes: Seq<(u64, bool)>) -> bool {
    dust_after(outputs, changes) <= dust_limit(allowance_after(outputs, changes))
}

/// The unspent outputs among `outputs`, each as amount and kind.
pub open spec fn unspent_amounts(outputs: Seq<AddressOutputView>) -> Seq<(u64, OutputKind)> {
    outputs.filter(|o: AddressOutputView| !o.is_spent).map_values(
        |o: AddressOutputView| (o.amount, o.kind),
    )
}

struct Tally {
    first: u128,
    second: u128,
    first_count: usize,
    second_count: usize,
}

proof fn lemma_tally_bound(i: usize)
    ensures
        i * u64::MAX + u64::MAX <= u64::MAX * u64::MAX + u64::MAX,
        u64::MAX * u64::MAX + u64::MAX < u128::MAX,
{
    assert(i * u64::MAX + u64::MAX <= u64::MAX * u64::MAX + u64::MAX) by (nonlinear_arith)
        requires
            i <= u64::MAX,
    ;
    assert(u64::MAX * u64::MAX + u64::MAX < u128::MAX);
}

fn tally_outputs(outputs: &Vec<(u64, OutputKind)>) -> (t: Tally)
    ensures
        t.first == held_allowance(outputs@),
        t.first_count == held_dust(outputs@),
        t.first <= outputs.len() * u64::MAX,
{
    let mut t = Tally { first: 0, second: 0, first_count: 0, second_count: 0 };
    let mut i: usize = 0;
    while i < outputs.len()
        invariant
            i <= outputs.len(),
            t.first == held_allowance(outputs@.take(i as int)),
            t.first_count == held_dust(outputs@.take(i as int)),
            t.first <= i * u64::MAX,
            t.first_count <= i,
        decreases outputs.len() - i,
    {
        proof {
            assert(outputs@.take(i as int + 1).drop_last() =~= outputs@.take(i as int));
            lemma_tally_bound(i);
            assert(i * u64::MAX + u64::MAX == (i + 1) * u64::MAX) by (nonlinear_arith);
        }
        let (amount, kind) = outputs[i];
        match kind {
            OutputKind::SignatureLockedDustAllowance => {
                t.first = t.first + amount as u128;
            },
            OutputKind::SignatureLockedSingle => {
                if amount < DUST_ALLOWANCE_VALUE {
                    t.first_count = t.first_count + 1;
                }
            },
            OutputKind::Treasury => {},
        }
        i += 1;
    }
    assert(outputs@.take(outputs.len() as int) =~= outputs@);
    t
}

fn tally_changes(changes: &Vec<(u64, bool)>) -> (t: Tally)
    ensures
        t.first == created_allowance(changes@),
        t.second == consumed_allowance(changes@),
        t.first_count == created_dust(changes@),
        t.second_count == consumed_dust(changes@),
        t.first + t.second <= changes.len() * u64::MAX,
{
    let mut t = Tally { first: 0, second: 0, first_count: 0, second_count: 0 };
    let mut i: usize = 0;
    while i < changes.len()
        invariant
            i <= changes.len(),
            t.first == created_allowance(changes@.take(i as int)),
            t.second == consumed_allowance(changes@.take(i as int)),
            t.first_count == created_dust(changes@.take(i as int)),
            t.second_count == consumed_dust(changes@.take(i as int)),
            t.first + t.second <= i * u64::MAX,
            t.first_count + t.second_count <= i,
        decreases changes.len() - i,
    {
        proof {
            assert(changes@.take(i as int + 1).drop_last() =~= changes@.take(i as int));
            lemma_tally_bound(i);
            assert(i * u64::MAX + u64::MAX == (i + 1) * u64::MAX) by (nonlinear_arith);
        }
        let (amount, created) = changes[i];
        if created {
            if amount >= DUST_ALLOWANCE_VALUE {
                t.first = t.first + amount as u128;
            } else {
                t.first_count = t.first_count + 1;
            }
        } else {
            if amount >= DUST_ALLOWANCE_VALUE {
                t.second = t.second + amount as u128;
            } else {
                t.second_count = t.second_count + 1;
            }
        }
        i += 1;
    }
    assert(changes@.take(changes.len() as int) =~= changes@);
    t
}

/// Whether `a + b <= c + d`, whatever the four are.
fn sum_le(a: u128, b: u128, c: u128, d: u128) -> (r: bool)
    requires
        a + b <= u128::MAX,
    ensures
        r == (a + b <= c + d),
{
    if c > u128::MAX - d {
        true
    } else {
        a + b <= c + d
    }
}

/// Whether a transaction with the given changes on an address that holds
/// `outputs` leaves no more dust there than the allowance permits.
pub fn respects_dust_rule(outputs: &Vec<(u64, OutputKind)>, changes: &Vec<(u64, bool)>) -> (r: bool)
    ensures
        r == dust_allowed(outputs@, changes@),
{
    let held = tally_outputs(outputs);
    let moved = tally_changes(changes);
    let ghost dust = dust_after(outputs@, changes@);
    let ghost allowance = allowance_after(outputs@, changes@);
    proof {
        lemma_tally_bound(outputs.len());
        lemma_tally_bound(changes.len());
        assert(outputs.len() * u64::MAX <= u64::MAX * u64::MAX) by (nonlinear_arith)
            requires
                outputs.len() <= u64::MAX,
        ;
        assert(changes.len() * u64::MAX <= u64::MAX * u64::MAX) by (nonlinear_arith)
            requires
                changes.len() <= u64::MAX,
        ;
        assert(u64::MAX * u64::MAX + 10_000_000 < u128::MAX);
        assert(dust <= dust_limit(allowance) <==> (dust <= 100 && dust * 100_000 <= allowance));
    }
    let present: u128 = held.first_count as u128 + moved.first_count as u128;
    let gone: u128 = moved.second_count as u128;
    if present >= gone {
        let count: u128 = present - gone;
        if count > DUST_OUTPUTS_MAX as u128 {
            return false;
        }
        sum_le(count * (DUST_ALLOWANCE_DIVISOR as u128), moved.second, held.first, moved.first)
    } else {
        let below: u128 = gone - present;
        assert(below * 100_000 <= u64::MAX * 100_000) by (nonlinear_arith)
            requires
                below <= u64::MAX,
        ;
        let credit: u128 = below * (DUST_ALLOWANCE_DIVISOR as u128);
        if held.first > u128::MAX - credit {
            true
        } else {
            sum_le(moved.second, 0, held.first + credit, moved.first)
        }
    }
}

/// Decides whether a transaction may be sent, as far as the dust on one
/// address goes. `current` holds the unspent outputs of the address as
/// amount and kind; `outputs` the outputs of that address which the
/// transaction consumes (`false`) or creates (`true`).
pub fn is_dust_allowed(address: String, current: &Vec<(u64, OutputKind)>, outputs: Vec<(u64, bool)>) -> (r:
    Result<(), Error>)
    ensures
        match r {
            Ok(_) => dust_allowed(current@, outputs@),
            Err(e) => {
                &&& !dust_allowed(current@, outputs@)
                &&& e matches Error::DustError(a)
                &&& a@ == address@
            },
        },
{
    if respects_dust_rule(current, &outputs) {
        Ok(())
    } else {
        Err(Error::DustError(address))
    }
}

/// The unspent outputs of a list, each as amount and kind.
pub fn unspent_amounts_of(outputs: &Vec<AddressOutput>) -> (r: Vec<(u64, OutputKind)>)
    ensures
        r@ == unspent_amounts(outputs.deep_view()),
{
    let ghost view = outputs.deep_view();
    let ghost unspent = |o: AddressOutputView| !o.is_spent;
    let ghost pair = |o: AddressOutputView| (o.amount, o.kind);
    let mut found: Vec<(u64, OutputKind)> = Vec::new();
    let mut k: usize = 0;
    assert(view.take(0) =~= Seq::empty());
    assert(found@ =~= view.take(0).filter(unspent).map_values(pair));
    while k < outputs.len()
        invariant
            k <= outputs.len(),
            view == outputs.deep_view(),
            unspent == |o: AddressOutputView| !o.is_spent,
            pair == |o: AddressOutputView| (o.amount, o.kind),
            found@ == view.take(k as int).filter(unspent).map_values(pair),
        decreases outputs.len() - k,
    {
        let output = &outputs[k];
        proof {
            assert(view[k as int] == output@);
            assert(view.take(k as int + 1).drop_last() =~= view.take(k as int));
            reveal(Seq::filter);
        }
        if !output.is_spent {
            found.push((output.amount, output.kind));
            assert(found@ =~= view.take(k as int + 1).filter(unspent).map_values(pair));
        }
        k += 1;
    }
    assert(view.take(outputs.len() as int) =~= view);
    found
}

/// The outputs that the dust rule is checked against, for an address that
/// the account owns: its unspent outputs as amount and kind. For an address
/// of somebody else there is nothing to hand out, and the node has to be
/// asked.
pub fn known_dust_outputs(account: &Account, address: &String) -> (r: Option<Vec<(u64, OutputKind)>>)
    ensures
        match r {
            Some(found) => {
                &&& crate::account::address_position(account@.addresses, address@) matches Some(i)
                &&& found@ == unspent_amounts(account@.addresses[i].outputs)
            },
            None => !account@.owns(address@),
        },
{
    match account.find_address(address) {
        Some(i) => {
            let holder = &account.addresses[i];
            assert(account@.addresses[i as int] == holder@);
            Some(unspent_amounts_of(&holder.outputs))
        },
        None => None,
    }
}

/// Adding an output of at least the dust threshold to a transaction never
/// turns a permitted transaction into a refused one.
pub proof fn lemma_dust_monotone(
    outputs: Seq<(u64, OutputKind)>,
    changes: Seq<(u64, bool)>,
    amount: u64,
)
    requires
        dust_allowed(outputs, changes),
        amount >= DUST_ALLOWANCE_VALUE,
    ensures
        dust_allowed(outputs, changes.push((amount, true))),
{
    assert(changes.push((amount, true)).drop_last() =~= changes);
}

/// On an address with `held_dust` dust outputs and `held_allowance` of dust
/// allowance, one more dust output may be created exactly when the count
/// with it stays within what the allowance permits.
pub proof fn lemma_dust_limit_exact(outputs: Seq<(u64, OutputKind)>, amount: u64)
    requires
        amount < DUST_ALLOWANCE_VALUE,
    ensures
        dust_allowed(outputs, seq![(amount, true)]) <==> held_dust(outputs) + 1 <= dust_limit(
            held_allowance(outputs),
        ),
{
    let one = seq![(amount, true)];
    assert(one.drop_last() =~= Seq::<(u64, bool)>::empty());
    assert(created_dust(one.drop_last()) == 0);
    assert(created_allowance(one.drop_last()) == 0);
    assert(consumed_dust(one.drop_last()) == 0);
    assert(consumed_allowance(one.drop_last()) == 0);
}

} // verus!
