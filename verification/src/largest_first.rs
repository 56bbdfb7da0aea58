use crate::database::Database;
use crate::error::Error;
use crate::fee_rate::FeeRate;
use crate::output_group::{
    all_exact, lemma_totals_fit, total_effective_value, total_fee, OutputGroup,
};
use crate::sorting::{
    arrange, arranged, descending_order, descending_order_of, lemma_descending_order,
};
use crate::strategy::{
    funded_len, funds, lemma_arranged_groups, lemma_selection_by_keys,
    lemma_shortest_funding_prefix, select_by_keys, selection_by_keys,
    CoinSelectionAlgorithm,
};
use vstd::prelude::*;

verus! {

/// The effective values of `groups`, in the order of the groups.
pub open spec fn effective_values<'u>(groups: Seq<OutputGroup<'u>>) -> Seq<i64> {
    Seq::new(groups.len(), |i: int| groups[i].effective_value)
}

/// `groups` by descending effective value, groups of equal effective value
/// in the order in which they stand in `groups`.
pub open spec fn by_descending_value<'u>(groups: Seq<OutputGroup<'u>>) -> Seq<OutputGroup<'u>> {
    arranged(groups, descending_order(effective_values(groups)))
}

/// What largest-first selection returns: the shortest prefix of the groups
/// by descending effective value whose values pay the target and the fees
/// of the prefix, or all the groups, with the sum of its fees.
pub open spec fn largest_first<'u>(groups: Seq<OutputGroup<'u>>, target_amount: u64) -> Result<
    (Seq<OutputGroup<'u>>, u64),
    Error,
> {
    selection_by_keys(groups, effective_values(groups), target_amount)
}

/// The groups by descending effective value are the same groups, each as
/// often as before; none has a greater effective value than one that stands
/// before it.
pub proof fn lemma_by_descending_value<'u>(groups: Seq<OutputGroup<'u>>)
    requires
        groups.len() <= usize::MAX,
    ensures
        by_descending_value(groups).len() == groups.len(),
        by_descending_value(groups).to_multiset() == groups.to_multiset(),
        forall|i: int, j: int|
            0 <= i <= j < groups.len() ==> (#[trigger] by_descending_value(
                groups,
            )[i]).effective_value >= (#[trigger] by_descending_value(groups)[j]).effective_value,
        all_exact(groups) ==> all_exact(by_descending_value(groups)),
        total_effective_value(by_descending_value(groups)) == total_effective_value(groups),
{
    let keys = effective_values(groups);
    let order = descending_order(keys);
    lemma_descending_order(keys);
    lemma_arranged_groups(groups, keys);
    assert forall|i: int, j: int| 0 <= i <= j < groups.len() implies (#[trigger] by_descending_value(
        groups,
    )[i]).effective_value >= (#[trigger] by_descending_value(groups)[j]).effective_value by {
        if i < j {
            assert(keys[order[i] as int] >= keys[order[j] as int]);
        }
    }
}

/// Largest-first selection takes the shortest prefix of the groups by
/// descending effective value whose values pay the target and the fees of
/// the prefix: no shorter prefix pays, and the one taken does unless it is
/// all the groups. It fails only where the fees of that prefix sum to more
/// than `u64::MAX`.
pub proof fn lemma_largest_first_prefix<'u>(groups: Seq<OutputGroup<'u>>, target_amount: u64)
    requires
        groups.len() <= usize::MAX,
    ensures
        largest_first(groups, target_amount) matches Ok((selected, fee_amount)) ==> {
            &&& selected.len() <= groups.len()
            &&& selected == by_descending_value(groups).take(selected.len() as int)
            &&& fee_amount == total_fee(selected)
            &&& forall|j: int|
                0 <= j < selected.len() ==> !funds(
                    #[trigger] by_descending_value(groups).take(j),
                    target_amount as int,
                )
            &&& selected.len() < groups.len() ==> funds(selected, target_amount as int)
        },
        largest_first(groups, target_amount) matches Err(e) ==> e == Error::ArithmeticOverflow
            && total_fee(
            by_descending_value(groups).take(
                funded_len(by_descending_value(groups), target_amount as int),
            ),
        ) > u64::MAX,
{
    let sorted = by_descending_value(groups);
    let k = funded_len(sorted, target_amount as int);
    lemma_by_descending_value(groups);
    lemma_shortest_funding_prefix(sorted, target_amount as int);
    lemma_totals_fit(sorted.take(k));
}

/// The effective values of `groups`, in the order of the groups.
pub fn effective_values_of<'u>(groups: &Vec<OutputGroup<'u>>) -> (r: Vec<i64>)
    ensures
        r@ == effective_values(groups@),
{
    let mut r: Vec<i64> = Vec::new();
    let mut i: usize = 0;
    while i < groups.len()
        invariant
            i <= groups.len(),
            r@ == effective_values(groups@).take(i as int),
        decreases groups.len() - i,
    {
        r.push(groups[i].effective_value);
        proof {
            assert(r@ =~= effective_values(groups@).take(i + 1));
        }
        i += 1;
    }
    proof {
        assert(r@ =~= effective_values(groups@));
    }
    r
}

/// `groups` by descending effective value, groups of equal effective value
/// in the order in which they stand in `groups`.
pub fn sort_by_descending_value<'u>(groups: Vec<OutputGroup<'u>>) -> (r: Vec<OutputGroup<'u>>)
    ensures
        r@ == by_descending_value(groups@),
{
    let keys = effective_values_of(&groups);
    proof {
        lemma_descending_order(keys@);
    }
    let order = descending_order_of(&keys);
    arrange(&groups, &order)
}

/// Largest-first coin selection: the groups are taken by descending
/// effective value until the target and the fees of the groups taken are
/// paid.
#[derive(Debug, Default, Clone, Copy)]
pub struct LargestFirstCoinSelection;

impl<D: Database> CoinSelectionAlgorithm<D> for LargestFirstCoinSelection {
    open spec fn selects<'u>(
        &self,
        optional_utxos: Seq<OutputGroup<'u>>,
        fee_rate: FeeRate,
        target_amount: u64,
        available_value: i64,
        outcome: Result<(Seq<OutputGroup<'u>>, u64), Error>,
    ) -> bool {
        outcome == largest_first(optional_utxos, target_amount)
    }

    fn coin_select<'u>(
        &self,
        _database: &D,
        optional_utxos: Vec<OutputGroup<'u>>,
        _fee_rate: FeeRate,
        target_amount: u64,
        _available_value: i64,
    ) -> (r: Result<(Vec<OutputGroup<'u>>, u64), Error>) {
        let keys = effective_values_of(&optional_utxos);
        proof {
            lemma_selection_by_keys(optional_utxos@, keys@, target_amount);
        }
        select_by_keys(optional_utxos, &keys, target_amount)
    }
}

} // verus!
