use crate::branch_and_bound::BranchAndBoundCoinSelection;
use crate::database::Database;
use crate::error::Error;
use crate::excess::{change_fee_of, decide_change, excess_of, script_dust_value, Excess};
use crate::fee_rate::FeeRate;
use crate::output_group::{
    all_exact, copy_groups, effective_term, fee_term, join_groups, lemma_totals_fit,
    sum_effective_values, sum_fees, sum_values, total_effective_value, total_fee, total_value,
    value_term, OutputGroup,
};
use crate::single_random_draw::{
    entropy_rng, may_draw, single_random_draw, SingleRandomDrawCoinSelection,
};
use crate::strategy::{
    insufficient_funds, insufficient_funds_error, lemma_exact_total, CoinSelectionAlgorithm,
};
use crate::sums::{
    lemma_part_is_shorter, lemma_part_items, lemma_sum_concat, lemma_sum_dominates,
    lemma_sum_nonneg, lemma_sum_of_part, lemma_sum_pointwise, lemma_sum_take_next, sum_of,
};
use crate::types::{Utxo, UtxoView, WeightedScript, WeightedUtxo};
use crate::waste::{waste_of, waste_result, Waste};
use rand::rngs::StdRng;
use vstd::prelude::*;

verus! {

/// The algorithm that a wallet uses unless it is given another.
pub type DefaultCoinSelectionAlgorithm = BranchAndBoundCoinSelection;

/// The algorithm that takes the place of one that fails: a simple random
/// selection, which succeeds wherever the funds suffice.
pub type FallbackCoinSelectionAlgorithm = SingleRandomDrawCoinSelection;

/// What a successful coin selection gives.
#[derive(Debug)]
pub struct CoinSelectionResult {
    /// The outputs selected as inputs of the transaction.
    pub selected: Vec<Utxo>,
    /// The summed fees in satoshi of the inputs selected.
    pub fee_amount: u64,
    /// What becomes of the amount beyond the target and the fees.
    pub excess: Excess,
    /// The waste of the selection.
    pub waste: Waste,
}

/// What a `CoinSelectionResult` holds.
pub struct CoinSelectionResultView {
    pub selected: Seq<UtxoView>,
    pub fee_amount: u64,
    pub excess: Excess,
    pub waste: Waste,
}

impl View for CoinSelectionResult {
    type V = CoinSelectionResultView;

    open spec fn view(&self) -> CoinSelectionResultView {
        CoinSelectionResultView {
            selected: utxo_views(self.selected@),
            fee_amount: self.fee_amount,
            excess: self.excess,
            waste: self.waste,
        }
    }
}

/// What each of `utxos` holds.
pub open spec fn utxo_views(utxos: Seq<Utxo>) -> Seq<UtxoView> {
    Seq::new(utxos.len(), |i: int| utxos[i]@)
}

/// What the output of each of `groups` holds.
pub open spec fn group_utxo_views<'u>(groups: Seq<OutputGroup<'u>>) -> Seq<UtxoView> {
    Seq::new(groups.len(), |i: int| groups[i].weighted_utxo.utxo@)
}

/// The value of an output, as a term of a sum.
pub open spec fn utxo_value_term() -> spec_fn(Utxo) -> int {
    |utxo: Utxo| utxo.value() as int
}

/// The value of an output of the wallet, and nothing for any other, as a
/// term of a sum.
pub open spec fn local_value_term() -> spec_fn(Utxo) -> int {
    |utxo: Utxo|
        match utxo {
            Utxo::Local(local) => local.txout.value as int,
            Utxo::Foreign { .. } => 0,
        }
}

impl CoinSelectionResult {
    /// The summed value of the inputs selected.
    pub open spec fn selected_total(&self) -> int {
        sum_of(self.selected@, utxo_value_term())
    }

    /// The summed value of the inputs selected that the wallet owns.
    pub open spec fn local_selected_total(&self) -> int {
        sum_of(self.selected@, local_value_term())
    }

    /// The total value of the inputs selected.
    pub fn selected_amount(&self) -> (r: u64)
        requires
            self.selected_total() <= u64::MAX,
        ensures
            r == self.selected_total(),
    {
        let mut sum: u64 = 0;
        let mut i: usize = 0;
        proof {
            assert(self.selected@.take(0) =~= Seq::empty());
            assert(self.selected@.take(self.selected@.len() as int) =~= self.selected@);
        }
        while i < self.selected.len()
            invariant
                i <= self.selected.len(),
                sum == sum_of(self.selected@.take(i as int), utxo_value_term()),
                self.selected_total() <= u64::MAX,
            decreases self.selected.len() - i,
        {
            proof {
                lemma_sum_take_next(self.selected@, utxo_value_term(), i as int);
                assert(self.selected@.take(self.selected@.len() as int) =~= self.selected@);
                assert forall|j: int| 0 <= j < self.selected@.len() implies 0
                    <= #[trigger] utxo_value_term()(self.selected@[j]) by {}
                crate::sums::lemma_sum_prefix_grows(
                    self.selected@,
                    utxo_value_term(),
                    i + 1,
                    self.selected@.len() as int,
                );
            }
            sum = sum + self.selected[i].txout().value;
            i += 1;
        }
        sum
    }

    /// The total value of the inputs selected that the wallet owns.
    pub fn local_selected_amount(&self) -> (r: u64)
        requires
            self.local_selected_total() <= u64::MAX,
        ensures
            r == self.local_selected_total(),
    {
        let mut sum: u64 = 0;
        let mut i: usize = 0;
        proof {
            assert(self.selected@.take(0) =~= Seq::empty());
            assert(self.selected@.take(self.selected@.len() as int) =~= self.selected@);
        }
        while i < self.selected.len()
            invariant
                i <= self.selected.len(),
                sum == sum_of(self.selected@.take(i as int), local_value_term()),
                self.local_selected_total() <= u64::MAX,
            decreases self.selected.len() - i,
        {
            proof {
                lemma_sum_take_next(self.selected@, local_value_term(), i as int);
                assert(self.selected@.take(self.selected@.len() as int) =~= self.selected@);
                assert forall|j: int| 0 <= j < self.selected@.len() implies 0
                    <= #[trigger] local_value_term()(self.selected@[j]) by {}
                crate::sums::lemma_sum_prefix_grows(
                    self.selected@,
                    local_value_term(),
                    i + 1,
                    self.selected@.len() as int,
                );
            }
            match &self.selected[i] {
                Utxo::Local(local) => {
                    sum = sum + local.txout.value;
                },
                Utxo::Foreign { .. } => {},
            }
            i += 1;
        }
        sum
    }
}

/// What a selection returns, with what its result holds.
pub open spec fn result_view(r: Result<CoinSelectionResult, Error>) -> Result<
    CoinSelectionResultView,
    Error,
> {
    match r {
        Ok(result) => Ok(result@),
        Err(e) => Err(e),
    }
}

/// What the groups `selected` bring beyond `target_amount` once their fees
/// are paid; nothing where they bring less.
pub open spec fn remaining_amount<'u>(selected: Seq<OutputGroup<'u>>, target_amount: u64) -> int {
    if total_effective_value(selected) > target_amount {
        total_effective_value(selected) - target_amount
    } else {
        0
    }
}

/// The result for the groups `selected`, whose fees sum to `fee_amount`:
/// the outputs of the groups, the fees, what becomes of the amount that the
/// groups bring beyond `target_amount` where a change output is locked by
/// `drain_script`, and the waste. `ArithmeticOverflow` where that amount is
/// beyond `u64::MAX` or the waste is out of the range of `i64`.
pub open spec fn selection_result<'u>(
    selected: Seq<OutputGroup<'u>>,
    fee_amount: u64,
    fee_rate: FeeRate,
    target_amount: u64,
    drain_script: Seq<u8>,
    drain_script_weight: usize,
) -> Result<CoinSelectionResultView, Error> {
    let remaining = remaining_amount(selected, target_amount);
    if remaining > u64::MAX {
        Err(Error::ArithmeticOverflow)
    } else {
        let excess = excess_of(
            remaining as u64,
            change_fee_of(fee_rate, drain_script.len()),
            script_dust_value(drain_script),
        );
        match waste_result(waste_of(selected, drain_script_weight as int, excess)) {
            Ok(waste) => Ok(
                CoinSelectionResultView {
                    selected: group_utxo_views(selected),
                    fee_amount,
                    excess,
                    waste,
                },
            ),
            Err(e) => Err(e),
        }
    }
}

/// The outputs of `groups`, each of them cloned.
pub fn selected_utxos<'u>(groups: &Vec<OutputGroup<'u>>) -> (r: Vec<Utxo>)
    ensures
        utxo_views(r@) == group_utxo_views(groups@),
{
    let mut r: Vec<Utxo> = Vec::new();
    let mut i: usize = 0;
    while i < groups.len()
        invariant
            i <= groups.len(),
            r@.len() == i,
            forall|j: int| 0 <= j < i ==> (#[trigger] r@[j])@ == groups@[j].weighted_utxo.utxo@,
        decreases groups.len() - i,
    {
        r.push(groups[i].weighted_utxo.utxo.clone());
        i += 1;
    }
    proof {
        assert(utxo_views(r@) =~= group_utxo_views(groups@));
    }
    r
}

/// Makes the result of a selection out of the groups selected.
///
/// - `selected`: the groups selected, the optional before the required
/// - `fee_amount`: the summed fees of the groups
/// - `fee_rate`: the fee rate of the transaction
/// - `target_amount`: the amount that the groups had to bring
/// - `weighted_drain_script`: the script for the change output, with the
///   weight of its satisfaction
pub fn finish_selection<'u>(
    selected: Vec<OutputGroup<'u>>,
    fee_amount: u64,
    fee_rate: FeeRate,
    target_amount: u64,
    weighted_drain_script: &WeightedScript,
) -> (r: Result<CoinSelectionResult, Error>)
    ensures
        result_view(r) == selection_result(
            selected@,
            fee_amount,
            fee_rate,
            target_amount,
            weighted_drain_script.script_pubkey@,
            weighted_drain_script.satisfaction_weight,
        ),
{
    let effective_value = sum_effective_values(&selected);
    let remaining: i128 = if effective_value > target_amount as i128 {
        effective_value - target_amount as i128
    } else {
        0
    };
    if remaining > u64::MAX as i128 {
        return Err(Error::ArithmeticOverflow);
    }
    let excess = decide_change(remaining as u64, fee_rate, &weighted_drain_script.script_pubkey);
    let waste = match Waste::calculate(
        selected.as_slice(),
        weighted_drain_script.satisfaction_weight,
        &excess,
    ) {
        Ok(waste) => waste,
        Err(e) => {
            return Err(e);
        },
    };
    let utxos = selected_utxos(&selected);
    Ok(CoinSelectionResult { selected: utxos, fee_amount, excess, waste })
}

/// The outputs of groups have the summed value of the groups.
pub proof fn lemma_selected_total<'u>(groups: Seq<OutputGroup<'u>>, utxos: Seq<Utxo>)
    requires
        utxo_views(utxos) == group_utxo_views(groups),
    ensures
        sum_of(utxos, utxo_value_term()) == crate::output_group::total_value(groups),
{
    assert(utxos.len() == utxo_views(utxos).len());
    assert(groups.len() == group_utxo_views(groups).len());
    assert forall|i: int| 0 <= i < utxos.len() implies #[trigger] utxo_value_term()(utxos[i])
        == value_term()(groups[i]) by {
        assert(utxo_views(utxos)[i] == utxos[i]@);
        assert(group_utxo_views(groups)[i] == groups[i].weighted_utxo.utxo@);
    }
    lemma_sum_pointwise(utxos, utxo_value_term(), groups, value_term());
}

/// The group of each of `utxos` at `fee_rate`.
pub open spec fn groups_of<'u>(utxos: Seq<WeightedUtxo>, fee_rate: FeeRate) -> Seq<OutputGroup<'u>> {
    Seq::new(utxos.len(), |i: int| OutputGroup::of(&utxos[i], fee_rate))
}

/// Whether a group is worth spending: its output brings more than the fee
/// of the input that spends it.
pub open spec fn worth_spending<'u>() -> spec_fn(OutputGroup<'u>) -> bool {
    |group: OutputGroup<'u>| group.effective_value > 0
}

/// The groups that the selection may pick from: those of `utxos` at
/// `fee_rate` that are worth spending.
pub open spec fn optional_groups<'u>(utxos: Seq<WeightedUtxo>, fee_rate: FeeRate) -> Seq<
    OutputGroup<'u>,
> {
    groups_of(utxos, fee_rate).filter(worth_spending())
}

/// The groups that the selection has to spend or may spend: those of
/// `required_utxos`, and behind them those of `optional_utxos` that are
/// worth spending.
pub open spec fn spendable<'u>(
    required_utxos: Seq<WeightedUtxo>,
    optional_utxos: Seq<WeightedUtxo>,
    fee_rate: FeeRate,
) -> Seq<OutputGroup<'u>> {
    groups_of(required_utxos, fee_rate) + optional_groups(optional_utxos, fee_rate)
}

/// What `groups` bring once their fees are paid.
pub open spec fn net_value<'u>(groups: Seq<OutputGroup<'u>>) -> int {
    total_value(groups) - total_fee(groups)
}

/// Whether `groups` are groups at `fee_rate`.
pub open spec fn all_at_rate<'u>(groups: Seq<OutputGroup<'u>>, fee_rate: FeeRate) -> bool {
    forall|i: int|
        0 <= i < groups.len() ==> #[trigger] groups[i] == OutputGroup::of(
            groups[i].weighted_utxo,
            fee_rate,
        )
}

/// Whether `algorithm`, with single random draw behind it, may hand over
/// the groups `chosen` with the fees `fee_amount` when it is asked to cover
/// `target_amount` out of the groups `optional`: it returns them itself, or
/// it fails and the draw returns them. Either way they are groups of
/// `optional`, `fee_amount` is the sum of their fees, and they cover
/// `target_amount`.
pub open spec fn hands_over<'u, D: Database, Cs: CoinSelectionAlgorithm<D>>(
    algorithm: Cs,
    optional: Seq<OutputGroup<'u>>,
    fee_rate: FeeRate,
    target_amount: u64,
    available_value: i64,
    chosen: Seq<OutputGroup<'u>>,
    fee_amount: u64,
) -> bool {
    &&& {
        ||| algorithm.selects(
            optional,
            fee_rate,
            target_amount,
            available_value,
            Ok((chosen, fee_amount)),
        )
        ||| {
            &&& exists|e: Error|
                #[trigger] algorithm.selects(
                    optional,
                    fee_rate,
                    target_amount,
                    available_value,
                    Err(e),
                )
            &&& may_draw(optional, target_amount, Ok((chosen, fee_amount)))
        }
    }
    &&& chosen.to_multiset().subset_of(optional.to_multiset())
    &&& fee_amount == total_fee(chosen)
    &&& total_effective_value(chosen) >= target_amount
}

/// Whether `outcome` is what the selection gives with `algorithm` for the
/// groups `required`, which must be spent, and `optional`, which may be.
///
/// Where all the groups together bring less than `target_amount` once
/// their fees are paid, it is the error that says so. Where their values
/// sum to more than `i64::MAX`, it is `ArithmeticOverflow`. Where the
/// required groups cover the target, it is the result for them alone.
/// Otherwise it is the result for the groups that the algorithm hands over
/// to cover what the required groups leave open, followed by the required
/// groups.
pub open spec fn selection_outcome<'u, D: Database, Cs: CoinSelectionAlgorithm<D>>(
    algorithm: Cs,
    required: Seq<OutputGroup<'u>>,
    optional: Seq<OutputGroup<'u>>,
    fee_rate: FeeRate,
    target_amount: u64,
    drain_script: Seq<u8>,
    drain_script_weight: usize,
    outcome: Result<CoinSelectionResultView, Error>,
) -> bool {
    let all = required + optional;
    if net_value(all) < target_amount {
        outcome == Err::<CoinSelectionResultView, Error>(insufficient_funds(all, target_amount))
    } else if total_value(all) > i64::MAX {
        outcome == Err::<CoinSelectionResultView, Error>(Error::ArithmeticOverflow)
    } else if net_value(required) >= target_amount {
        outcome == selection_result(
            required,
            total_fee(required) as u64,
            fee_rate,
            target_amount,
            drain_script,
            drain_script_weight,
        )
    } else {
        exists|chosen: Seq<OutputGroup<'u>>, fee_amount: u64|
            {
                &&& #[trigger] hands_over::<D, Cs>(
                    algorithm,
                    optional,
                    fee_rate,
                    (target_amount - net_value(required)) as u64,
                    net_value(optional) as i64,
                    chosen,
                    fee_amount,
                )
                &&& outcome == selection_result(
                    chosen + required,
                    (fee_amount + total_fee(required)) as u64,
                    fee_rate,
                    target_amount,
                    drain_script,
                    drain_script_weight,
                )
            }
    }
}

/// The group of each of `utxos` at `fee_rate`.
pub fn output_groups<'u>(utxos: &'u Vec<WeightedUtxo>, fee_rate: FeeRate) -> (r: Vec<
    OutputGroup<'u>,
>)
    ensures
        r@ == groups_of(utxos@, fee_rate),
{
    let mut r: Vec<OutputGroup<'u>> = Vec::new();
    let mut i: usize = 0;
    while i < utxos.len()
        invariant
            i <= utxos.len(),
            r@ == groups_of(utxos@, fee_rate).take(i as int),
        decreases utxos.len() - i,
    {
        r.push(OutputGroup::new(&utxos[i], fee_rate));
        proof {
            assert(r@ =~= groups_of(utxos@, fee_rate).take(i + 1));
        }
        i += 1;
    }
    proof {
        assert(r@ =~= groups_of(utxos@, fee_rate));
    }
    r
}

/// The groups of `groups` that are worth spending.
pub fn groups_worth_spending<'u>(groups: &Vec<OutputGroup<'u>>) -> (r: Vec<OutputGroup<'u>>)
    ensures
        r@ == groups@.filter(worth_spending()),
{
    let mut r: Vec<OutputGroup<'u>> = Vec::new();
    let mut i: usize = 0;
    proof {
        reveal(Seq::filter);
        assert(groups@.take(0) =~= Seq::empty());
    }
    while i < groups.len()
        invariant
            i <= groups.len(),
            r@ == groups@.take(i as int).filter(worth_spending()),
        decreases groups.len() - i,
    {
        proof {
            reveal(Seq::filter);
            assert(groups@.take(i + 1).drop_last() =~= groups@.take(i as int));
        }
        if groups[i].effective_value > 0 {
            r.push(groups[i]);
        }
        i += 1;
    }
    proof {
        assert(groups@.take(groups.len() as int) =~= groups@);
    }
    r
}

/// Groups at one fee rate whose values and whose fees each sum to no more
/// than `i64::MAX` are exact, and bring what their effective values sum to.
pub proof fn lemma_groups_in_range<'u>(groups: Seq<OutputGroup<'u>>, fee_rate: FeeRate)
    requires
        all_at_rate(groups, fee_rate),
        total_value(groups) <= i64::MAX,
        total_fee(groups) <= i64::MAX,
    ensures
        all_exact(groups),
        total_effective_value(groups) == net_value(groups),
        0 <= total_value(groups),
        0 <= total_fee(groups),
{
    assert forall|i: int| 0 <= i < groups.len() implies 0 <= #[trigger] value_term()(groups[i]) by {}
    assert forall|i: int| 0 <= i < groups.len() implies 0 <= #[trigger] fee_term()(groups[i]) by {}
    lemma_sum_nonneg(groups, value_term());
    lemma_sum_nonneg(groups, fee_term());
    assert forall|i: int| 0 <= i < groups.len() implies (#[trigger] groups[i]).is_exact() by {
        lemma_sum_dominates(groups, value_term(), i);
        lemma_sum_dominates(groups, fee_term(), i);
        assert(groups[i] == OutputGroup::of(groups[i].weighted_utxo, fee_rate));
        fee_rate.lemma_fee_range(
            crate::output_group::input_vbytes(groups[i].weighted_utxo.satisfaction_weight as int),
        );
    }
    lemma_exact_total(groups);
}

/// The groups at a fee rate that are worth spending are groups at that
/// rate, no more than there were, and each brings more than its fee.
pub proof fn lemma_optional_groups<'u>(utxos: Seq<WeightedUtxo>, fee_rate: FeeRate)
    ensures
        all_at_rate(groups_of::<'u>(utxos, fee_rate), fee_rate),
        all_at_rate(optional_groups::<'u>(utxos, fee_rate), fee_rate),
        optional_groups::<'u>(utxos, fee_rate).len() <= utxos.len(),
        forall|i: int|
            0 <= i < optional_groups::<'u>(utxos, fee_rate).len() ==> (#[trigger] optional_groups::<
                'u,
            >(utxos, fee_rate)[i]).effective_value > 0,
{
    let all = groups_of::<'u>(utxos, fee_rate);
    let kept = optional_groups::<'u>(utxos, fee_rate);
    all.lemma_filter_len(worth_spending());
    assert forall|i: int| 0 <= i < kept.len() implies #[trigger] kept[i] == OutputGroup::of(
        kept[i].weighted_utxo,
        fee_rate,
    ) && kept[i].effective_value > 0 by {
        all.lemma_filter_pred(worth_spending(), i);
        assert(all.filter(worth_spending()).contains(kept[i]));
        all.lemma_filter_contains_rev(worth_spending(), kept[i]);
        let j = choose|j: int| 0 <= j < all.len() && all[j] == kept[i];
        assert(all[j] == OutputGroup::of(&utxos[j], fee_rate));
    }
}

/// Groups picked among exact groups are exact, and their number, their
/// values and their fees are no more than those of the groups they were
/// picked from.
pub proof fn lemma_picked_groups<'u>(picked: Seq<OutputGroup<'u>>, pool: Seq<OutputGroup<'u>>)
    requires
        picked.to_multiset().subset_of(pool.to_multiset()),
    ensures
        picked.len() <= pool.len(),
        total_fee(picked) <= total_fee(pool),
        total_value(picked) <= total_value(pool),
        all_exact(pool) ==> all_exact(picked),
{
    lemma_part_is_shorter(picked, pool);
    assert forall|i: int| 0 <= i < pool.len() implies 0 <= #[trigger] value_term()(pool[i]) by {}
    assert forall|i: int| 0 <= i < pool.len() implies 0 <= #[trigger] fee_term()(pool[i]) by {}
    lemma_sum_of_part(picked, pool, value_term());
    lemma_sum_of_part(picked, pool, fee_term());
    if all_exact(pool) {
        assert forall|i: int| 0 <= i < picked.len() implies (#[trigger] picked[i]).is_exact() by {
            let j = lemma_part_items(picked, pool, i);
            assert(pool[j].is_exact());
        }
    }
}

/// The sums over two sequences of groups, one behind the other, are the
/// sums of the sums.
pub proof fn lemma_joined_totals<'u>(first: Seq<OutputGroup<'u>>, second: Seq<OutputGroup<'u>>)
    ensures
        total_value(first + second) == total_value(first) + total_value(second),
        total_fee(first + second) == total_fee(first) + total_fee(second),
        total_effective_value(first + second) == total_effective_value(first)
            + total_effective_value(second),
        all_exact(first) && all_exact(second) ==> all_exact(first + second),
        0 <= total_value(first),
        0 <= total_value(second),
        0 <= total_fee(first),
        0 <= total_fee(second),
{
    lemma_sum_concat(first, second, value_term());
    lemma_sum_concat(first, second, fee_term());
    lemma_sum_concat(first, second, effective_term());
    assert forall|i: int| 0 <= i < first.len() implies 0 <= #[trigger] value_term()(first[i]) by {}
    assert forall|i: int| 0 <= i < first.len() implies 0 <= #[trigger] fee_term()(first[i]) by {}
    assert forall|i: int| 0 <= i < second.len() implies 0 <= #[trigger] value_term()(second[i]) by {}
    assert forall|i: int| 0 <= i < second.len() implies 0 <= #[trigger] fee_term()(second[i]) by {}
    lemma_sum_nonneg(first, value_term());
    lemma_sum_nonneg(first, fee_term());
    lemma_sum_nonneg(second, value_term());
    lemma_sum_nonneg(second, fee_term());
    if all_exact(first) && all_exact(second) {
        assert forall|i: int| 0 <= i < (first + second).len() implies (#[trigger] (first
            + second)[i]).is_exact() by {
            if i < first.len() {
                assert(first[i].is_exact());
            } else {
                assert(second[i - first.len()].is_exact());
            }
        }
    }
}

/// Groups at one fee rate, one sequence behind the other, are groups at
/// that rate.
pub proof fn lemma_joined_at_rate<'u>(
    first: Seq<OutputGroup<'u>>,
    second: Seq<OutputGroup<'u>>,
    fee_rate: FeeRate,
)
    requires
        all_at_rate(first, fee_rate),
        all_at_rate(second, fee_rate),
    ensures
        all_at_rate(first + second, fee_rate),
{
    assert forall|i: int| 0 <= i < (first + second).len() implies #[trigger] (first + second)[i]
        == OutputGroup::of((first + second)[i].weighted_utxo, fee_rate) by {
        if i < first.len() {
            assert(first[i] == OutputGroup::of(first[i].weighted_utxo, fee_rate));
        } else {
            let k = i - first.len();
            assert(second[k] == OutputGroup::of(second[k].weighted_utxo, fee_rate));
        }
    }
}

/// Where the target is more than the values of all the groups together,
/// the selection fails with `InsufficientFunds`, which names the summed
/// value of the groups.
pub proof fn lemma_target_beyond_funds<'u, D: Database, Cs: CoinSelectionAlgorithm<D>>(
    algorithm: Cs,
    required: Seq<OutputGroup<'u>>,
    optional: Seq<OutputGroup<'u>>,
    fee_rate: FeeRate,
    target_amount: u64,
    drain_script: Seq<u8>,
    drain_script_weight: usize,
    outcome: Result<CoinSelectionResultView, Error>,
)
    requires
        selection_outcome::<D, Cs>(
            algorithm,
            required,
            optional,
            fee_rate,
            target_amount,
            drain_script,
            drain_script_weight,
            outcome,
        ),
        target_amount > total_value(required + optional),
    ensures
        outcome matches Err(Error::InsufficientFunds { needed, available }) && available
            == total_value(required + optional) && needed == if target_amount + total_fee(
            required + optional,
        ) > u64::MAX {
            u64::MAX as int
        } else {
            target_amount + total_fee(required + optional)
        },
{
    lemma_joined_totals(required + optional, Seq::empty());
}

/// Performs the coin selection; where `algorithm` fails, single random draw
/// takes its place, with `rng` as the source of its order, or with a
/// generator of its own where there is none.
fn select<D: Database, Cs: CoinSelectionAlgorithm<D>>(
    algorithm: Cs,
    database: &D,
    required_utxos: Vec<WeightedUtxo>,
    optional_utxos: Vec<WeightedUtxo>,
    fee_rate: FeeRate,
    target_amount: u64,
    weighted_drain_script: &WeightedScript,
    rng: Option<&mut StdRng>,
) -> (r: Result<CoinSelectionResult, Error>)
    requires
        required_utxos@.len() + optional_utxos@.len() <= usize::MAX,
    ensures
        selection_outcome::<D, Cs>(
            algorithm,
            groups_of(required_utxos@, fee_rate),
            optional_groups(optional_utxos@, fee_rate),
            fee_rate,
            target_amount,
            weighted_drain_script.script_pubkey@,
            weighted_drain_script.satisfaction_weight,
            result_view(r),
        ),
        r matches Ok(result) ==> target_amount + result.fee_amount <= result.selected_total()
            <= i64::MAX,
        target_amount > total_value(spendable(required_utxos@, optional_utxos@, fee_rate)) ==> (r
            matches Err(Error::InsufficientFunds { available, .. }) && available == total_value(
            spendable(required_utxos@, optional_utxos@, fee_rate),
        )),
{
    let required = output_groups(&required_utxos, fee_rate);
    let candidates = output_groups(&optional_utxos, fee_rate);
    let optional = groups_worth_spending(&candidates);
    let ghost must = required@;
    let ghost may = optional@;
    proof {
        lemma_optional_groups(required_utxos@, fee_rate);
        lemma_optional_groups(optional_utxos@, fee_rate);
        lemma_joined_at_rate(must, may, fee_rate);
        lemma_joined_totals(must, may);
        lemma_totals_fit(must + may);
    }
    let all = join_groups(copy_groups(&required), &optional);
    let total_values = sum_values(&all);
    let total_fees = sum_fees(&all);
    if total_values < target_amount as u128 + total_fees {
        return Err(insufficient_funds_error(&all, target_amount));
    }
    if total_values > i64::MAX as u128 {
        return Err(Error::ArithmeticOverflow);
    }
    proof {
        lemma_groups_in_range(must + may, fee_rate);
        lemma_groups_in_range(must, fee_rate);
        lemma_groups_in_range(may, fee_rate);
        lemma_totals_fit(must);
        lemma_totals_fit(may);
    }
    let required_value = sum_effective_values(&required);
    let required_fees = sum_fees(&required);
    if required_value >= target_amount as i128 {
        let r = finish_selection(
            required,
            required_fees as u64,
            fee_rate,
            target_amount,
            weighted_drain_script,
        );
        proof {
            if let Ok(result) = &r {
                lemma_selected_total(must, result.selected@);
            }
        }
        return r;
    }
    let remaining_target = (target_amount as i128 - required_value) as u64;
    let available_value = sum_effective_values(&optional) as i64;
    let first = algorithm.coin_select(
        database,
        copy_groups(&optional),
        fee_rate,
        remaining_target,
        available_value,
    );
    let (chosen, chosen_fees) = match first {
        Ok(selection) => selection,
        Err(_) => {
            let drawn = match rng {
                Some(rng) => single_random_draw(optional, remaining_target, rng),
                None => {
                    let mut own = entropy_rng();
                    single_random_draw(optional, remaining_target, &mut own)
                },
            };
            match drawn {
                Ok(selection) => selection,
                Err(e) => {
                    return Err(e);
                },
            }
        },
    };
    let ghost picked = chosen@;
    proof {
        lemma_picked_groups(picked, may);
        lemma_joined_totals(picked, must);
        assert(hands_over::<D, Cs>(
            algorithm,
            may,
            fee_rate,
            remaining_target,
            available_value,
            picked,
            chosen_fees,
        ));
    }
    let selected = join_groups(chosen, &required);
    let fee_amount = chosen_fees + required_fees as u64;
    let r = finish_selection(selected, fee_amount, fee_rate, target_amount, weighted_drain_script);
    proof {
        lemma_exact_total(picked + must);
        if let Ok(result) = &r {
            lemma_selected_total(picked + must, result.selected@);
        }
    }
    r
}

/// Performs the coin selection, with `rng` as the source of the order in
/// which single random draw takes the outputs where `algorithm` fails.
///
/// - `algorithm`: the algorithm that picks among the optional outputs
/// - `database`: what the wallet knows about its transactions, for the
///   algorithms that ask
/// - `required_utxos`: the outputs that must be spent whatever the target,
///   with the weights of their satisfactions
/// - `optional_utxos`: the outputs that may be spent to reach the target,
///   with the weights of their satisfactions; those that bring no more
///   than the fee of their input are left aside
/// - `fee_rate`: the fee rate of the transaction
/// - `target_amount`: the amount in satoshi to send, with the fees of the
///   outputs and of the fixed parts of the transaction
/// - `weighted_drain_script`: the script for the change output, with the
///   weight of its satisfaction
///
/// A result holds outputs worth `target_amount` and their own fees at
/// least. The selection fails with `InsufficientFunds` where the outputs
/// left to spend bring less than `target_amount` once their fees are paid,
/// and with `ArithmeticOverflow` where their values sum to more than
/// `i64::MAX` or the waste is out of the range of `i64`.
pub fn get_selection_with_rng<D: Database, Cs: CoinSelectionAlgorithm<D>>(
    algorithm: Cs,
    database: &D,
    required_utxos: Vec<WeightedUtxo>,
    optional_utxos: Vec<WeightedUtxo>,
    fee_rate: FeeRate,
    target_amount: u64,
    weighted_drain_script: &WeightedScript,
    rng: &mut StdRng,
) -> (r: Result<CoinSelectionResult, Error>)
    requires
        required_utxos@.len() + optional_utxos@.len() <= usize::MAX,
    ensures
        selection_outcome::<D, Cs>(
            algorithm,
            groups_of(required_utxos@, fee_rate),
            optional_groups(optional_utxos@, fee_rate),
            fee_rate,
            target_amount,
            weighted_drain_script.script_pubkey@,
            weighted_drain_script.satisfaction_weight,
            result_view(r),
        ),
        r matches Ok(result) ==> target_amount + result.fee_amount <= result.selected_total()
            <= i64::MAX,
        target_amount > total_value(spendable(required_utxos@, optional_utxos@, fee_rate)) ==> (r
            matches Err(Error::InsufficientFunds { available, .. }) && available == total_value(
            spendable(required_utxos@, optional_utxos@, fee_rate),
        )),
{
    select(
        algorithm,
        database,
        required_utxos,
        optional_utxos,
        fee_rate,
        target_amount,
        weighted_drain_script,
        Some(rng),
    )
}

/// Performs the coin selection.
///
/// - `algorithm`: the algorithm that picks among the optional outputs;
///   where it fails, single random draw picks in its place
/// - `database`: what the wallet knows about its transactions, for the
///   algorithms that ask
/// - `required_utxos`: the outputs that must be spent whatever the target,
///   with the weights of their satisfactions
/// - `optional_utxos`: the outputs that may be spent to reach the target,
///   with the weights of their satisfactions; those that bring no more
///   than the fee of their input are left aside
/// - `fee_rate`: the fee rate of the transaction
/// - `target_amount`: the amount in satoshi to send, with the fees of the
///   outputs and of the fixed parts of the transaction
/// - `weighted_drain_script`: the script for the change output, with the
///   weight of its satisfaction
///
/// A result holds outputs worth `target_amount` and their own fees at
/// least. The selection fails with `InsufficientFunds` where the outputs
/// left to spend bring less than `target_amount` once their fees are paid,
/// and with `ArithmeticOverflow` where their values sum to more than
/// `i64::MAX` or the waste is out of the range of `i64`.
pub fn get_selection<D: Database, Cs: CoinSelectionAlgorithm<D>>(
    algorithm: Cs,
    database: &D,
    required_utxos: Vec<WeightedUtxo>,
    optional_utxos: Vec<WeightedUtxo>,
    fee_rate: FeeRate,
    target_amount: u64,
    weighted_drain_script: &WeightedScript,
) -> (r: Result<CoinSelectionResult, Error>)
    requires
        required_utxos@.len() + optional_utxos@.len() <= usize::MAX,
    ensures
        selection_outcome::<D, Cs>(
            algorithm,
            groups_of(required_utxos@, fee_rate),
            optional_groups(optional_utxos@, fee_rate),
            fee_rate,
            target_amount,
            weighted_drain_script.script_pubkey@,
            weighted_drain_script.satisfaction_weight,
            result_view(r),
        ),
        r matches Ok(result) ==> target_amount + result.fee_amount <= result.selected_total()
            <= i64::MAX,
        target_amount > total_value(spendable(required_utxos@, optional_utxos@, fee_rate)) ==> (r
            matches Err(Error::InsufficientFunds { available, .. }) && available == total_value(
            spendable(required_utxos@, optional_utxos@, fee_rate),
        )),
{
    select(
        algorithm,
        database,
        required_utxos,
        optional_utxos,
        fee_rate,
        target_amount,
        weighted_drain_script,
        None,
    )
}

} // verus!
