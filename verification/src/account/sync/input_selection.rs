//! Selection of the addresses whose funds pay for a transfer.

use crate::error::Error;
use crate::search::{lemma_unmarked_set, lemma_unmarked_zero, unmarked_count};
use vstd::prelude::*;

verus! {

/// An address that may pay for a transfer.
#[derive(Debug)]
pub struct Input {
    /// The address in bech32.
    pub address: String,
    /// Whether it is a change address.
    pub internal: bool,
    /// The balance of the address that is free to be spent.
    pub balance: u64,
    /// The index of the key that the address was derived from.
    pub key_index: usize,
}

/// A candidate address as a mathematical value.
pub ghost struct InputView {
    pub address: Seq<char>,
    pub internal: bool,
    pub balance: u64,
    pub key_index: usize,
}

impl View for Input {
    type V = InputView;

    open spec fn view(&self) -> InputView {
        InputView {
            address: self.address@,
            internal: self.internal,
            balance: self.balance,
            key_index: self.key_index,
        }
    }
}

impl DeepView for Input {
    type V = InputView;

    open spec fn deep_view(&self) -> InputView {
        self@
    }
}

impl Clone for Input {
    fn clone(&self) -> (r: Self)
        ensures
            r@ == self@,
    {
        Input {
            address: self.address.clone(),
            internal: self.internal,
            balance: self.balance,
            key_index: self.key_index,
        }
    }
}

/// The sum of the balances of `inputs`.
pub open spec fn sum_balances(inputs: Seq<InputView>) -> int
    decreases inputs.len(),
{
    if inputs.len() == 0 {
        0
    } else {
        sum_balances(inputs.drop_last()) + inputs.last().balance
    }
}

/// The inputs at the positions `picks`, in that order.
pub open spec fn picked(inputs: Seq<InputView>, picks: Seq<int>) -> Seq<InputView> {
    Seq::new(picks.len(), |k: int| inputs[picks[k]])
}

/// Among inputs that each cover the target alone, `a` is preferred to `b`:
/// the smaller balance leaves less excess, then the lower key index, then
/// the change address.
pub open spec fn single_before(a: InputView, b: InputView) -> bool {
    ||| a.balance < b.balance
    ||| (a.balance == b.balance && a.key_index < b.key_index)
    ||| (a.balance == b.balance && a.key_index == b.key_index && a.internal && !b.internal)
}

/// Where several inputs are needed, `a` is taken before `b`: change
/// addresses first, then the larger balance, then the lower key index.
pub open spec fn accumulate_before(a: InputView, b: InputView) -> bool {
    ||| (a.internal && !b.internal)
    ||| (a.internal == b.internal && a.balance > b.balance)
    ||| (a.internal == b.internal && a.balance == b.balance && a.key_index < b.key_index)
}

/// Position `i` is preferred to position `j` as a single input; inputs
/// that rank alike keep the order of the list.
pub open spec fn single_precedes(inputs: Seq<InputView>, i: int, j: int) -> bool {
    single_before(inputs[i], inputs[j]) || (!single_before(inputs[j], inputs[i]) && i < j)
}

/// Position `i` is taken before position `j` when accumulating; inputs
/// that rank alike keep the order of the list.
pub open spec fn accumulate_precedes(inputs: Seq<InputView>, i: int, j: int) -> bool {
    accumulate_before(inputs[i], inputs[j]) || (!accumulate_before(inputs[j], inputs[i]) && i < j)
}

/// Some input covers `target` alone.
pub open spec fn some_input_covers(inputs: Seq<InputView>, target: u64) -> bool {
    exists|i: int| 0 <= i < inputs.len() && (#[trigger] inputs[i]).balance >= target
}

/// Position `j` holds the preferred one among the inputs that cover
/// `target` alone.
pub open spec fn is_best_single(inputs: Seq<InputView>, target: u64, j: int) -> bool {
    &&& 0 <= j < inputs.len()
    &&& inputs[j].balance >= target
    &&& forall|i: int|
        0 <= i < inputs.len() && i != j && (#[trigger] inputs[i]).balance >= target ==> single_precedes(
            inputs,
            j,
            i,
        )
}

/// `picks` are the first positions in accumulation order, as many as it
/// takes to cover `target` and no more.
pub open spec fn is_accumulation(inputs: Seq<InputView>, target: u64, picks: Seq<int>) -> bool {
    &&& forall|k: int| 0 <= k < picks.len() ==> 0 <= #[trigger] picks[k] < inputs.len()
    &&& forall|k: int|
        0 <= k < picks.len() - 1 ==> accumulate_precedes(inputs, #[trigger] picks[k], picks[k + 1])
    &&& picks.len() > 0 ==> forall|i: int|
        0 <= i < inputs.len() && !picks.contains(i) ==> #[trigger] accumulate_precedes(
            inputs,
            picks.last(),
            i,
        )
    &&& sum_balances(picked(inputs, picks)) >= target
    &&& picks.len() > 0 ==> sum_balances(picked(inputs, picks.drop_last())) < target
}

/// `picks` are the positions that selection takes from `inputs` to pay
/// `target`: the preferred single input where one covers the target alone,
/// else the shortest beginning of the accumulation order that covers it.
pub open spec fn is_selection(inputs: Seq<InputView>, target: u64, picks: Seq<int>) -> bool {
    if some_input_covers(inputs, target) {
        picks.len() == 1 && is_best_single(inputs, target, picks[0])
    } else {
        is_accumulation(inputs, target, picks)
    }
}

/// `selected` is what selection takes from `inputs` to pay `target`.
pub open spec fn selected_from(inputs: Seq<InputView>, target: u64, selected: Seq<InputView>) -> bool {
    exists|picks: Seq<int>|
        #![trigger is_selection(inputs, target, picks)]
        is_selection(inputs, target, picks) && selected == picked(inputs, picks)
}

/// The balances of the inputs that are not marked in `used`, among the
/// first `n`.
pub open spec fn unused_sum(inputs: Seq<InputView>, used: Seq<bool>, n: int) -> int
    decreases n,
{
    if n <= 0 {
        0
    } else {
        unused_sum(inputs, used, n - 1) + if used[n - 1] {
            0
        } else {
            inputs[n - 1].balance as int
        }
    }
}

proof fn lemma_sum_take(inputs: Seq<InputView>, i: int)
    requires
        0 <= i < inputs.len(),
    ensures
        sum_balances(inputs.take(i + 1)) == sum_balances(inputs.take(i)) + inputs[i].balance,
{
    assert(inputs.take(i + 1).drop_last() =~= inputs.take(i));
}

proof fn lemma_sum_bounds(inputs: Seq<InputView>)
    ensures
        0 <= sum_balances(inputs) <= inputs.len() * u64::MAX,
    decreases inputs.len(),
{
    if inputs.len() > 0 {
        lemma_sum_bounds(inputs.drop_last());
        assert((inputs.len() - 1) * u64::MAX + u64::MAX == inputs.len() * u64::MAX) by (nonlinear_arith);
    }
}

proof fn lemma_sum_push(inputs: Seq<InputView>, x: InputView)
    ensures
        sum_balances(inputs.push(x)) == sum_balances(inputs) + x.balance,
{
    assert(inputs.push(x).drop_last() =~= inputs);
}

proof fn lemma_unused_fresh(inputs: Seq<InputView>, used: Seq<bool>, n: int)
    requires
        0 <= n <= inputs.len(),
        used.len() == inputs.len(),
        forall|i: int| 0 <= i < n ==> !used[i],
    ensures
        unused_sum(inputs, used, n) == sum_balances(inputs.take(n)),
    decreases n,
{
    if n > 0 {
        lemma_unused_fresh(inputs, used, n - 1);
        lemma_sum_take(inputs, n - 1);
    }
}

proof fn lemma_unused_mark(inputs: Seq<InputView>, used: Seq<bool>, j: int, n: int)
    requires
        0 <= n <= inputs.len(),
        used.len() == inputs.len(),
        0 <= j < inputs.len(),
        !used[j],
    ensures
        unused_sum(inputs, used.update(j, true), n) == unused_sum(inputs, used, n) - if j < n {
            inputs[j].balance as int
        } else {
            0
        },
    decreases n,
{
    if n > 0 {
        lemma_unused_mark(inputs, used, j, n - 1);
    }
}

proof fn lemma_unused_nonneg(inputs: Seq<InputView>, used: Seq<bool>, n: int)
    requires
        0 <= n <= inputs.len(),
        used.len() == inputs.len(),
    ensures
        unused_sum(inputs, used, n) >= 0,
        (forall|i: int| 0 <= i < n ==> used[i]) ==> unused_sum(inputs, used, n) == 0,
    decreases n,
{
    if n > 0 {
        lemma_unused_nonneg(inputs, used, n - 1);
    }
}

/// The sum of all balances, which fits into 128 bits whatever the inputs.
fn total_balance(inputs: &Vec<Input>) -> (total: u128)
    ensures
        total == sum_balances(inputs.deep_view()),
{
    let ghost view = inputs.deep_view();
    let mut total: u128 = 0;
    let mut i: usize = 0;
    while i < inputs.len()
        invariant
            i <= inputs.len(),
            view == inputs.deep_view(),
            total == sum_balances(view.take(i as int)),
        decreases inputs.len() - i,
    {
        proof {
            lemma_sum_take(view, i as int);
            lemma_sum_bounds(view.take(i as int));
            assert(i * u64::MAX + u64::MAX <= usize::MAX * u64::MAX + u64::MAX) by (nonlinear_arith)
                requires
                    i <= usize::MAX,
            ;
        }
        total = total + inputs[i].balance as u128;
        i += 1;
    }
    assert(view.take(inputs.len() as int) =~= view);
    total
}

/// The position of the preferred input among those that cover `target`
/// alone, if there is one.
fn best_single(target: u64, inputs: &Vec<Input>) -> (r: Option<usize>)
    ensures
        match r {
            Some(j) => is_best_single(inputs.deep_view(), target, j as int),
            None => !some_input_covers(inputs.deep_view(), target),
        },
{
    let ghost view = inputs.deep_view();
    let mut best: Option<usize> = None;
    let mut i: usize = 0;
    while i < inputs.len()
        invariant
            i <= inputs.len(),
            view == inputs.deep_view(),
            match best {
                Some(j) => {
                    &&& j < i
                    &&& view[j as int].balance >= target
                    &&& forall|k: int|
                        0 <= k < i && k != j && (#[trigger] view[k]).balance >= target
                            ==> single_precedes(view, j as int, k)
                },
                None => forall|k: int| 0 <= k < i ==> (#[trigger] view[k]).balance < target,
            },
        decreases inputs.len() - i,
    {
        let candidate = &inputs[i];
        if candidate.balance >= target {
            match best {
                Some(j) => {
                    let current = &inputs[j];
                    let better = candidate.balance < current.balance || (candidate.balance
                        == current.balance && (candidate.key_index < current.key_index || (
                    candidate.key_index == current.key_index && candidate.internal
                        && !current.internal)));
                    assert(better == single_before(view[i as int], view[j as int]));
                    if better {
                        best = Some(i);
                    }
                },
                None => {
                    best = Some(i);
                },
            }
        }
        i += 1;
    }
    best
}

/// The unused position that accumulation takes next, if any is left.
fn next_to_accumulate(inputs: &Vec<Input>, used: &Vec<bool>) -> (r: Option<usize>)
    requires
        used.len() == inputs.len(),
    ensures
        match r {
            Some(j) => {
                &&& j < inputs.len()
                &&& !used@[j as int]
                &&& forall|k: int|
                    0 <= k < inputs.len() && k != j && !(#[trigger] used@[k]) ==> accumulate_precedes(
                        inputs.deep_view(),
                        j as int,
                        k,
                    )
            },
            None => forall|k: int| 0 <= k < inputs.len() ==> used@[k],
        },
{
    let ghost view = inputs.deep_view();
    let mut best: Option<usize> = None;
    let mut i: usize = 0;
    while i < inputs.len()
        invariant
            i <= inputs.len(),
            used.len() == inputs.len(),
            view == inputs.deep_view(),
            match best {
                Some(j) => {
                    &&& j < i
                    &&& !used@[j as int]
                    &&& forall|k: int|
                        0 <= k < i && k != j && !(#[trigger] used@[k]) ==> accumulate_precedes(
                            view,
                            j as int,
                            k,
                        )
                },
                None => forall|k: int| 0 <= k < i ==> used@[k],
            },
        decreases inputs.len() - i,
    {
        if !used[i] {
            let candidate = &inputs[i];
            match best {
                Some(j) => {
                    let current = &inputs[j];
                    let earlier = (candidate.internal && !current.internal) || (candidate.internal
                        == current.internal && (candidate.balance > current.balance || (
                    candidate.balance == current.balance && candidate.key_index
                        < current.key_index)));
                    assert(earlier == accumulate_before(view[i as int], view[j as int]));
                    if earlier {
                        best = Some(i);
                    }
                },
                None => {
                    best = Some(i);
                },
            }
        }
        i += 1;
    }
    best
}

/// Selects the inputs that pay `target`.
///
/// Where one input covers the target alone, the one with the smallest
/// balance is taken, so an exact match wins; among equal balances the lower
/// key index, then the change address. Otherwise inputs are added up,
/// change addresses first and larger balances first, until the target is
/// covered. The selection fails exactly when all the inputs together do not
/// cover the target.
pub fn select_input(target: u64, available: Vec<Input>) -> (r: Result<Vec<Input>, Error>)
    ensures
        match r {
            Ok(selected) => {
                &&& sum_balances(available.deep_view()) >= target
                &&& sum_balances(selected.deep_view()) >= target
                &&& selected_from(available.deep_view(), target, selected.deep_view())
            },
            Err(e) => e is InsufficientFunds && sum_balances(available.deep_view()) < target,
        },
{
    let ghost view = available.deep_view();
    let total = total_balance(&available);
    if total < target as u128 {
        return Err(Error::InsufficientFunds);
    }
    match best_single(target, &available) {
        Some(j) => {
            let mut selected: Vec<Input> = Vec::new();
            selected.push(available[j].clone());
            proof {
                let picks = seq![j as int];
                assert(selected.deep_view() =~= picked(view, picks));
                assert(selected.deep_view().drop_last() =~= Seq::<InputView>::empty());
                assert(sum_balances(Seq::<InputView>::empty()) == 0);
                assert(is_selection(view, target, picks));
            }
            return Ok(selected);
        },
        None => {},
    }
    let n = available.len();
    let mut used: Vec<bool> = Vec::new();
    let mut i: usize = 0;
    while i < n
        invariant
            i <= n,
            used.len() == i,
            forall|k: int| 0 <= k < i ==> !used@[k],
        decreases n - i,
    {
        used.push(false);
        i += 1;
    }
    let mut selected: Vec<Input> = Vec::new();
    let mut sum: u128 = 0;
    let ghost mut picks: Seq<int> = Seq::empty();
    proof {
        lemma_unused_fresh(view, used@, n as int);
        assert(view.take(n as int) =~= view);
        assert(selected.deep_view() =~= picked(view, picks));
    }
    while sum < target as u128
        invariant
            n == available.len(),
            view == available.deep_view(),
            used.len() == n,
            !some_input_covers(view, target),
            total == sum_balances(view),
            total >= target,
            selected.deep_view() == picked(view, picks),
            sum == sum_balances(picked(view, picks)),
            sum + unused_sum(view, used@, n as int) == total,
            forall|k: int| 0 <= k < picks.len() ==> 0 <= #[trigger] picks[k] < n,
            forall|i: int| 0 <= i < n ==> (used@[i] <==> picks.contains(i)),
            forall|k: int|
                0 <= k < picks.len() - 1 ==> accumulate_precedes(view, #[trigger] picks[k], picks[k + 1]),
            picks.len() > 0 ==> forall|i: int|
                0 <= i < n && !picks.contains(i) ==> #[trigger] accumulate_precedes(
                    view,
                    picks.last(),
                    i,
                ),
            picks.len() > 0 ==> sum_balances(picked(view, picks.drop_last())) < target,
        decreases unmarked_count(used@, n as int),
    {
        proof {
            lemma_unused_nonneg(view, used@, n as int);
            lemma_unmarked_zero(used@, n as int);
        }
        match next_to_accumulate(&available, &used) {
            Some(j) => {
                proof {
                    lemma_unused_mark(view, used@, j as int, n as int);
                    lemma_unmarked_set(used@, j as int, n as int);
                    assert(!picks.contains(j as int));
                    let next = picks.push(j as int);
                    assert(next.drop_last() =~= picks);
                    assert(picked(view, next) =~= picked(view, picks).push(view[j as int]));
                    lemma_sum_push(picked(view, picks), view[j as int]);
                    assert(view[j as int].balance < target);
                    assert forall|i: int| 0 <= i < n && !next.contains(i) implies #[trigger] accumulate_precedes(
                        view,
                        next.last(),
                        i,
                    ) by {
                        assert(!picks.contains(i)) by {
                            if picks.contains(i) {
                                let k = choose|k: int| 0 <= k < picks.len() && picks[k] == i;
                                assert(next[k] == i);
                            }
                        }
                        assert(i != j) by {
                            assert(next[picks.len() as int] == j);
                        }
                    }
                    assert forall|i: int| 0 <= i < n implies (used@.update(j as int, true)[i]
                        <==> next.contains(i)) by {
                        if i == j {
                            assert(next[picks.len() as int] == j);
                        } else if picks.contains(i) {
                            let k = choose|k: int| 0 <= k < picks.len() && picks[k] == i;
                            assert(next[k] == i);
                        } else if next.contains(i) {
                            let k = choose|k: int| 0 <= k < next.len() && next[k] == i;
                            assert(picks[k] == i);
                        }
                    }
                    assert forall|k: int| 0 <= k < next.len() - 1 implies accumulate_precedes(
                        view,
                        #[trigger] next[k],
                        next[k + 1],
                    ) by {
                        if k == picks.len() - 1 {
                            assert(next[k] == picks.last());
                        } else {
                            assert(next[k] == picks[k] && next[k + 1] == picks[k + 1]);
                        }
                    }
                    picks = next;
                }
                sum = sum + available[j].balance as u128;
                selected.push(available[j].clone());
                used[j] = true;
                assert(selected.deep_view() =~= picked(view, picks));
            },
            None => {
                proof {
                    lemma_unused_nonneg(view, used@, n as int);
                    assert(false);
                }
            },
        }
    }
    proof {
        assert(is_accumulation(view, target, picks));
        assert(is_selection(view, target, picks));
    }
    Ok(selected)
}

/// Where one input covers the target alone, exactly one input is
/// selected: an input that matches the target exactly if there is one,
/// and else the covering input that leaves the least excess.
pub proof fn lemma_single_selection_is_tight(inputs: Seq<InputView>, target: u64, selected: Seq<InputView>)
    requires
        selected_from(inputs, target, selected),
        some_input_covers(inputs, target),
    ensures
        selected.len() == 1,
        selected[0].balance >= target,
        forall|i: int|
            0 <= i < inputs.len() && (#[trigger] inputs[i]).balance >= target ==> selected[0].balance
                <= inputs[i].balance,
        (exists|i: int| 0 <= i < inputs.len() && (#[trigger] inputs[i]).balance == target)
            ==> selected[0].balance == target,
{
    let picks = choose|picks: Seq<int>|
        #![trigger is_selection(inputs, target, picks)]
        is_selection(inputs, target, picks) && selected == picked(inputs, picks);
    assert(selected[0] == inputs[picks[0]]);
    assert forall|i: int|
        0 <= i < inputs.len() && (#[trigger] inputs[i]).balance >= target implies selected[0].balance
        <= inputs[i].balance by {
        if i != picks[0] {
            assert(single_precedes(inputs, picks[0], i));
        }
    }
}

/// In accumulation order, an earlier pick comes before every later one.
proof fn lemma_accumulation_is_ordered(inputs: Seq<InputView>, picks: Seq<int>, a: int, b: int)
    requires
        forall|k: int| 0 <= k < picks.len() ==> 0 <= #[trigger] picks[k] < inputs.len(),
        forall|k: int|
            0 <= k < picks.len() - 1 ==> accumulate_precedes(inputs, #[trigger] picks[k], picks[k + 1]),
        0 <= a < b < picks.len(),
    ensures
        accumulate_precedes(inputs, picks[a], picks[b]),
    decreases b - a,
{
    if a + 1 < b {
        lemma_accumulation_is_ordered(inputs, picks, a, b - 1);
        assert(accumulate_precedes(inputs, picks[b - 1], picks[b]));
    }
}

/// No input is accumulated twice.
proof fn lemma_selection_subset_of_accumulation(inputs: Seq<InputView>, target: u64, picks: Seq<int>)
    requires
        is_accumulation(inputs, target, picks),
    ensures
        picks.no_duplicates(),
{
    assert forall|a: int, b: int| 0 <= a < picks.len() && 0 <= b < picks.len() && a != b implies picks[a]
        != picks[b] by {
        if a < b {
            lemma_accumulation_is_ordered(inputs, picks, a, b);
        } else {
            lemma_accumulation_is_ordered(inputs, picks, b, a);
        }
    }
}

/// No input is selected twice: a selection is a subset of the inputs.
pub proof fn lemma_selection_is_subset(inputs: Seq<InputView>, target: u64, picks: Seq<int>)
    requires
        is_selection(inputs, target, picks),
    ensures
        picks.no_duplicates(),
        forall|k: int| 0 <= k < picks.len() ==> 0 <= #[trigger] picks[k] < inputs.len(),
{
    if !some_input_covers(inputs, target) {
        lemma_selection_subset_of_accumulation(inputs, target, picks);
    }
}

proof fn lemma_picked_sum_prefix(inputs: Seq<InputView>, picks: Seq<int>, n: int)
    requires
        0 <= n <= picks.len(),
    ensures
        sum_balances(picked(inputs, picks.take(n))) <= sum_balances(picked(inputs, picks)),
    decreases picks.len() - n,
{
    if n < picks.len() {
        lemma_picked_sum_prefix(inputs, picks, n + 1);
        assert(picked(inputs, picks.take(n + 1)).drop_last() =~= picked(inputs, picks.take(n)));
    } else {
        assert(picks.take(n) =~= picks);
    }
}

/// Two accumulations from the same inputs agree pick by pick.
proof fn lemma_accumulations_agree(inputs: Seq<InputView>, target: u64, first: Seq<int>, second: Seq<int>, k: int)
    requires
        is_accumulation(inputs, target, first),
        is_accumulation(inputs, target, second),
        0 <= k < first.len(),
        k < second.len(),
    ensures
        first[k] == second[k],
    decreases k,
{
    if k > 0 {
        lemma_accumulations_agree(inputs, target, first, second, k - 1);
    }
    assert forall|i: int| 0 <= i < k implies first[i] == second[i] by {
        lemma_accumulations_agree(inputs, target, first, second, i);
    }
    if first[k] != second[k] {
        lemma_comes_later(inputs, target, first, second, k);
        lemma_comes_later(inputs, target, second, first, k);
    }
}

/// Where two accumulations agree before pick `k` and differ at it, the
/// pick of the second comes before the pick of the first.
proof fn lemma_comes_later(inputs: Seq<InputView>, target: u64, first: Seq<int>, second: Seq<int>, k: int)
    requires
        is_accumulation(inputs, target, first),
        is_accumulation(inputs, target, second),
        0 <= k < first.len(),
        k < second.len(),
        forall|i: int| 0 <= i < k ==> first[i] == second[i],
        first[k] != second[k],
    ensures
        accumulate_precedes(inputs, second[k], first[k]),
{
    lemma_selection_subset_of_accumulation(inputs, target, first);
    lemma_selection_subset_of_accumulation(inputs, target, second);
    if second.contains(first[k]) {
        let m = choose|m: int| 0 <= m < second.len() && second[m] == first[k];
        if m < k {
            assert(first[m] == second[m]);
            assert(first[m] == first[k]);
        }
        lemma_accumulation_is_ordered(inputs, second, k, m);
    } else {
        assert(accumulate_precedes(inputs, second.last(), first[k]));
        if k < second.len() - 1 {
            lemma_accumulation_is_ordered(inputs, second, k, second.len() - 1);
        }
    }
}

/// Selection is determined: the inputs and the target leave no choice of
/// what is selected.
pub proof fn lemma_selection_is_determined(inputs: Seq<InputView>, target: u64, first: Seq<int>, second: Seq<int>)
    requires
        is_selection(inputs, target, first),
        is_selection(inputs, target, second),
    ensures
        first == second,
{
    if some_input_covers(inputs, target) {
        if first[0] != second[0] {
            assert(single_precedes(inputs, first[0], second[0]));
            assert(single_precedes(inputs, second[0], first[0]));
        }
        assert(first =~= second);
    } else {
        lemma_prefix_is_whole(inputs, target, first, second);
        lemma_prefix_is_whole(inputs, target, second, first);
        assert forall|k: int| 0 <= k < first.len() implies first[k] == second[k] by {
            lemma_accumulations_agree(inputs, target, first, second, k);
        }
        assert(first =~= second);
    }
}

/// An accumulation is not the beginning of a longer one: the longer one
/// would have stopped earlier.
proof fn lemma_prefix_is_whole(inputs: Seq<InputView>, target: u64, first: Seq<int>, second: Seq<int>)
    requires
        is_accumulation(inputs, target, first),
        is_accumulation(inputs, target, second),
    ensures
        first.len() >= second.len(),
{
    if first.len() < second.len() {
        assert forall|k: int| 0 <= k < first.len() implies first[k] == second[k] by {
            lemma_accumulations_agree(inputs, target, first, second, k);
        }
        assert(first =~= second.drop_last().take(first.len() as int));
        lemma_picked_sum_prefix(inputs, second.drop_last(), first.len() as int);
    }
}

} // verus!
