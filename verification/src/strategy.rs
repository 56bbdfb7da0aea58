use crate::database::Database;
use crate::error::Error;
use crate::fee_rate::FeeRate;
use crate::output_group::{
    all_exact, effective_term, fee_term, lemma_totals_fit, sum_fees, sum_values,
    total_effective_value, total_fee, total_value, value_term, OutputGroup,
};
use crate::sorting::{
    arrange, arranged, descending_order, descending_order_of, lemma_arranged_keeps_items,
    lemma_descending_order,
};
use crate::sums::{
    lemma_prefix_is_part, lemma_sum_difference, lemma_sum_permutation, lemma_sum_take_next,
};
use vstd::prelude::*;

verus! {

/// What a selection returns, with the selected groups as a sequence.
pub open spec fn outcome<'u>(r: Result<(Vec<OutputGroup<'u>>, u64), Error>) -> Result<
    (Seq<OutputGroup<'u>>, u64),
    Error,
> {
    match r {
        Ok((selected, fee_amount)) => Ok((selected@, fee_amount)),
        Err(e) => Err(e),
    }
}

/// A way to pick, among the coins that a transaction may spend, those that
/// it will spend.
pub trait CoinSelectionAlgorithm<D: Database> {
    /// Whether `outcome` is what this algorithm may return for the given
    /// arguments of `coin_select`. An algorithm that does not say is held
    /// to nothing but what `coin_select` promises of every algorithm.
    open spec fn selects<'u>(
        &self,
        optional_utxos: Seq<OutputGroup<'u>>,
        fee_rate: FeeRate,
        target_amount: u64,
        available_value: i64,
        outcome: Result<(Seq<OutputGroup<'u>>, u64), Error>,
    ) -> bool {
        true
    }

    /// Picks groups among `optional_utxos` whose effective values cover
    /// `target_amount`, and returns them with the sum of their fees.
    ///
    /// - `database`: what the wallet knows about its transactions
    /// - `optional_utxos`: the groups to pick from, in no particular order
    /// - `fee_rate`: the fee rate that the fees of the groups were computed at
    /// - `target_amount`: the amount in satoshi that the picked groups must
    ///   bring once their own fees are paid
    /// - `available_value`: the summed effective value of `optional_utxos`
    fn coin_select<'u>(
        &self,
        database: &D,
        optional_utxos: Vec<OutputGroup<'u>>,
        fee_rate: FeeRate,
        target_amount: u64,
        available_value: i64,
    ) -> (r: Result<(Vec<OutputGroup<'u>>, u64), Error>)
        ensures
            self.selects(optional_utxos@, fee_rate, target_amount, available_value, outcome(r)),
            r matches Ok((selected, fee_amount)) ==> {
                &&& selected@.to_multiset().subset_of(optional_utxos@.to_multiset())
                &&& fee_amount == total_fee(selected@)
                &&& all_exact(optional_utxos@) && total_effective_value(optional_utxos@)
                    >= target_amount ==> total_effective_value(selected@) >= target_amount
            },
    ;
}

/// The error that reports that `groups`, all of them spent, do not bring
/// `target_amount`: it names the target plus the fees of the groups, at most
/// `u64::MAX`, and the summed value of the groups; `ArithmeticOverflow`
/// where that value is beyond `u64::MAX`.
pub open spec fn insufficient_funds<'u>(groups: Seq<OutputGroup<'u>>, target_amount: u64) -> Error {
    if total_value(groups) > u64::MAX {
        Error::ArithmeticOverflow
    } else {
        Error::InsufficientFunds {
            needed: if target_amount + total_fee(groups) > u64::MAX {
                u64::MAX
            } else {
                (target_amount + total_fee(groups)) as u64
            },
            available: total_value(groups) as u64,
        }
    }
}

/// The error that reports that `groups`, all of them spent, do not bring
/// `target_amount`.
pub fn insufficient_funds_error<'u>(groups: &Vec<OutputGroup<'u>>, target_amount: u64) -> (e: Error)
    ensures
        e == insufficient_funds(groups@, target_amount),
{
    proof {
        assert(groups@.len() == groups.len());
        lemma_totals_fit(groups@);
    }
    let available = sum_values(groups);
    let needed = target_amount as u128 + sum_fees(groups);
    if available > u64::MAX as u128 {
        Error::ArithmeticOverflow
    } else if needed > u64::MAX as u128 {
        Error::InsufficientFunds { needed: u64::MAX, available: available as u64 }
    } else {
        Error::InsufficientFunds { needed: needed as u64, available: available as u64 }
    }
}

/// Whether the values of `groups` pay `target` and the fees of `groups`.
pub open spec fn funds<'u>(groups: Seq<OutputGroup<'u>>, target: int) -> bool {
    total_value(groups) >= target + total_fee(groups)
}

/// The length of the shortest prefix of `groups`, among those of at least
/// `from` groups, that funds `target`; the length of `groups` where there is
/// none.
pub open spec fn funded_len_from<'u>(groups: Seq<OutputGroup<'u>>, target: int, from: int) -> int
    decreases groups.len() - from,
{
    if from >= groups.len() || funds(groups.take(from), target) {
        from
    } else {
        funded_len_from(groups, target, from + 1)
    }
}

/// The length of the shortest prefix of `groups` that funds `target`; the
/// length of `groups` where no prefix does.
pub open spec fn funded_len<'u>(groups: Seq<OutputGroup<'u>>, target: int) -> int {
    funded_len_from(groups, target, 0)
}

/// What selecting from `groups` in the order in which they stand returns:
/// the shortest prefix that funds `target_amount`, or all of them, with the
/// sum of its fees.
pub open spec fn selection_in_order<'u>(groups: Seq<OutputGroup<'u>>, target_amount: u64) -> Result<
    (Seq<OutputGroup<'u>>, u64),
    Error,
> {
    let chosen = groups.take(funded_len(groups, target_amount as int));
    if total_fee(chosen) > u64::MAX {
        Err(Error::ArithmeticOverflow)
    } else {
        Ok((chosen, total_fee(chosen) as u64))
    }
}

/// `funded_len_from` gives a length between `from` and the length of
/// `groups`; no prefix from `from` up to it funds the target, and the prefix
/// of that length does unless it is the whole of `groups`.
pub proof fn lemma_funded_len_from<'u>(groups: Seq<OutputGroup<'u>>, target: int, from: int)
    requires
        0 <= from <= groups.len(),
    ensures
        from <= funded_len_from(groups, target, from) <= groups.len(),
        forall|j: int|
            from <= j < funded_len_from(groups, target, from) ==> !funds(
                #[trigger] groups.take(j),
                target,
            ),
        funded_len_from(groups, target, from) < groups.len() ==> funds(
            groups.take(funded_len_from(groups, target, from)),
            target,
        ),
    decreases groups.len() - from,
{
    if from >= groups.len() || funds(groups.take(from), target) {
    } else {
        lemma_funded_len_from(groups, target, from + 1);
    }
}

/// Selecting in order takes the shortest prefix that pays the target and
/// its own fees: no shorter prefix does, and the one taken does unless it is
/// the whole of `groups`.
pub proof fn lemma_shortest_funding_prefix<'u>(groups: Seq<OutputGroup<'u>>, target: int)
    ensures
        0 <= funded_len(groups, target) <= groups.len(),
        forall|j: int|
            0 <= j < funded_len(groups, target) ==> !funds(#[trigger] groups.take(j), target),
        funded_len(groups, target) < groups.len() ==> funds(
            groups.take(funded_len(groups, target)),
            target,
        ),
{
    lemma_funded_len_from(groups, target, 0);
}

/// The effective values of exact groups sum to their values minus their
/// fees.
pub proof fn lemma_exact_total<'u>(groups: Seq<OutputGroup<'u>>)
    requires
        all_exact(groups),
    ensures
        total_effective_value(groups) == total_value(groups) - total_fee(groups),
{
    assert forall|i: int| 0 <= i < groups.len() implies #[trigger] effective_term()(groups[i])
        == value_term()(groups[i]) - fee_term()(groups[i]) by {
        assert(groups[i].is_exact());
    }
    lemma_sum_difference(groups, effective_term(), value_term(), fee_term());
}

/// Where the groups are exact and all of them together cover the target,
/// what selecting in order takes covers it.
pub proof fn lemma_in_order_covers<'u>(groups: Seq<OutputGroup<'u>>, target: int)
    requires
        all_exact(groups),
        total_effective_value(groups) >= target,
    ensures
        total_effective_value(groups.take(funded_len(groups, target))) >= target,
{
    let k = funded_len(groups, target);
    lemma_shortest_funding_prefix(groups, target);
    if k < groups.len() {
        let chosen = groups.take(k);
        assert forall|i: int| 0 <= i < chosen.len() implies (#[trigger] chosen[i]).is_exact() by {
            assert(chosen[i] == groups[i]);
        }
        lemma_exact_total(chosen);
    } else {
        assert(groups.take(k) =~= groups);
    }
}

/// Takes groups from `utxos`, in the order in which they stand, until the
/// values taken pay `target_amount` and the fees of the groups taken, or
/// until none is left. Returns the groups taken and the sum of their fees;
/// `ArithmeticOverflow` where that sum is beyond `u64::MAX`.
pub fn select_sorted_utxos<'u>(utxos: Vec<OutputGroup<'u>>, target_amount: u64) -> (r: Result<
    (Vec<OutputGroup<'u>>, u64),
    Error,
>)
    ensures
        outcome(r) == selection_in_order(utxos@, target_amount),
{
    let mut selected: Vec<OutputGroup<'u>> = Vec::new();
    let mut selected_amount: u128 = 0;
    let mut fee_amount: u128 = 0;
    let mut i: usize = 0;
    proof {
        assert(utxos@.take(0) =~= Seq::empty());
        lemma_totals_fit(utxos@.take(0));
    }
    while i < utxos.len() && selected_amount < target_amount as u128 + fee_amount
        invariant
            i <= utxos.len(),
            selected@ == utxos@.take(i as int),
            selected_amount == total_value(utxos@.take(i as int)),
            fee_amount == total_fee(utxos@.take(i as int)),
            fee_amount + u64::MAX <= u128::MAX,
            funded_len(utxos@, target_amount as int) == funded_len_from(
                utxos@,
                target_amount as int,
                i as int,
            ),
        decreases utxos.len() - i,
    {
        let group = utxos[i];
        proof {
            lemma_sum_take_next(utxos@, fee_term(), i as int);
            lemma_sum_take_next(utxos@, value_term(), i as int);
            lemma_totals_fit(utxos@.take(i as int));
            lemma_totals_fit(utxos@.take(i + 1));
            assert(utxos@.take(i + 1) =~= utxos@.take(i as int).push(group));
        }
        fee_amount = fee_amount + group.fee as u128;
        selected_amount = selected_amount + group.weighted_utxo.utxo.txout().value as u128;
        selected.push(group);
        i += 1;
    }
    if fee_amount > u64::MAX as u128 {
        Err(Error::ArithmeticOverflow)
    } else {
        Ok((selected, fee_amount as u64))
    }
}

/// What selecting from `groups` returns once they stand by descending key,
/// groups of equal key in the order in which they stand in `groups`; the key
/// of a group is the entry of `keys` at its position.
pub open spec fn selection_by_keys<'u>(
    groups: Seq<OutputGroup<'u>>,
    keys: Seq<i64>,
    target_amount: u64,
) -> Result<(Seq<OutputGroup<'u>>, u64), Error> {
    selection_in_order(arranged(groups, descending_order(keys)), target_amount)
}

/// Arranging groups by the descending order of their keys keeps each of
/// them as often as it occurs, keeps them exact, and keeps the sum of their
/// effective values.
pub proof fn lemma_arranged_groups<'u>(groups: Seq<OutputGroup<'u>>, keys: Seq<i64>)
    requires
        keys.len() == groups.len(),
        groups.len() <= usize::MAX,
    ensures
        arranged(groups, descending_order(keys)).len() == groups.len(),
        arranged(groups, descending_order(keys)).to_multiset() == groups.to_multiset(),
        all_exact(groups) ==> all_exact(arranged(groups, descending_order(keys))),
        total_effective_value(arranged(groups, descending_order(keys))) == total_effective_value(
            groups,
        ),
{
    let order = descending_order(keys);
    let sorted = arranged(groups, order);
    lemma_descending_order(keys);
    lemma_arranged_keeps_items(groups, keys);
    lemma_sum_permutation(sorted, groups, effective_term());
    if all_exact(groups) {
        assert forall|i: int| 0 <= i < sorted.len() implies (#[trigger] sorted[i]).is_exact() by {
            assert(groups[order[i] as int].is_exact());
        }
    }
}

/// A selection by keys is made of groups of the pool, comes with the sum of
/// its fees, and covers the target wherever the groups are exact and all of
/// them together cover it.
pub proof fn lemma_selection_by_keys<'u>(
    groups: Seq<OutputGroup<'u>>,
    keys: Seq<i64>,
    target_amount: u64,
)
    requires
        keys.len() == groups.len(),
        groups.len() <= usize::MAX,
    ensures
        selection_by_keys(groups, keys, target_amount) matches Ok((selected, fee_amount)) ==> {
            &&& selected.to_multiset().subset_of(groups.to_multiset())
            &&& fee_amount == total_fee(selected)
            &&& all_exact(groups) && total_effective_value(groups) >= target_amount
                ==> total_effective_value(selected) >= target_amount
        },
{
    let sorted = arranged(groups, descending_order(keys));
    let k = funded_len(sorted, target_amount as int);
    lemma_arranged_groups(groups, keys);
    lemma_shortest_funding_prefix(sorted, target_amount as int);
    lemma_prefix_is_part(sorted, k);
    lemma_totals_fit(sorted.take(k));
    if all_exact(groups) && total_effective_value(groups) >= target_amount {
        lemma_in_order_covers(sorted, target_amount as int);
    }
}

/// Selects from `groups` once they stand by descending key, groups of equal
/// key in the order in which they stand in `groups`; the key of a group is
/// the entry of `keys` at its position.
pub fn select_by_keys<'u>(groups: Vec<OutputGroup<'u>>, keys: &Vec<i64>, target_amount: u64) -> (r:
    Result<(Vec<OutputGroup<'u>>, u64), Error>)
    requires
        keys.len() == groups.len(),
    ensures
        outcome(r) == selection_by_keys(groups@, keys@, target_amount),
{
    proof {
        lemma_descending_order(keys@);
    }
    let order = descending_order_of(keys);
    let sorted = arrange(&groups, &order);
    select_sorted_utxos(sorted, target_amount)
}

} // verus!
