use crate::error::Error;
use crate::excess::Excess;
use crate::fee_rate::{capped_fee, FeeRate};
use crate::output_group::{
    fee_term, input_fee, input_vbytes, lemma_totals_fit, total_fee, OutputGroup,
};
use crate::sums::{lemma_sum_bounds, lemma_sum_difference, lemma_sum_take_next, sum_of};
use vstd::prelude::*;

verus! {

/// The long-term fee rate in satoshi per thousand virtual bytes: the rate
/// at which the wallet expects to consolidate its coins one day.
pub const LONG_TERM_SAT_PER_KVB: u64 = 5000;

/// The long-term fee rate.
pub fn long_term_fee_rate() -> (r: FeeRate)
    ensures
        r.rate() == LONG_TERM_SAT_PER_KVB,
{
    FeeRate::from_sat_per_kvb(LONG_TERM_SAT_PER_KVB)
}

/// The fee at the long-term rate of an input whose script takes
/// `satisfaction_weight` weight units to satisfy.
pub open spec fn long_term_input_fee(satisfaction_weight: int) -> int {
    capped_fee(LONG_TERM_SAT_PER_KVB as int, input_vbytes(satisfaction_weight))
}

/// The long-term fee of the input of a group, as a term of a sum.
pub open spec fn long_term_term<'u>() -> spec_fn(OutputGroup<'u>) -> int {
    |g: OutputGroup<'u>| long_term_input_fee(g.weighted_utxo.satisfaction_weight as int)
}

/// What spending a group now costs beyond spending it at the long-term
/// rate, as a term of a sum.
pub open spec fn timing_term<'u>() -> spec_fn(OutputGroup<'u>) -> int {
    |g: OutputGroup<'u>| g.fee - long_term_input_fee(g.weighted_utxo.satisfaction_weight as int)
}

/// The timing cost of `selected`: the sum, over the groups, of the fee of
/// the group less the fee of its input at the long-term rate.
pub open spec fn timing_cost<'u>(selected: Seq<OutputGroup<'u>>) -> int {
    sum_of(selected, timing_term())
}

/// The creation cost of a selection: the whole remainder where there is no
/// change; with change, the fee of the change output and the fee, at the
/// long-term rate, of the input that will spend it.
pub open spec fn creation_cost(excess: Excess, drain_script_weight: int) -> int {
    match excess {
        Excess::NoChange { remaining_amount, .. } => remaining_amount as int,
        Excess::Change { fee, .. } => fee + long_term_input_fee(drain_script_weight),
    }
}

/// The waste of a selection: its timing cost and its creation cost.
pub open spec fn waste_of<'u>(
    selected: Seq<OutputGroup<'u>>,
    drain_script_weight: int,
    excess: Excess,
) -> int {
    timing_cost(selected) + creation_cost(excess, drain_script_weight)
}

/// A measure of what a selection throws away: what its inputs cost now
/// beyond what they would cost at the long-term fee rate, and what the
/// amount beyond the target costs, as change or as a gift to the miner.
/// It is negative where spending now is the cheaper.
#[derive(Debug, Clone, Copy, PartialEq, Eq, Structural, PartialOrd, Ord)]
pub struct Waste(pub i64);

/// `waste` as a `Waste`, or `ArithmeticOverflow` where an `i64` cannot
/// hold it.
pub open spec fn waste_result(waste: int) -> Result<Waste, Error> {
    if i64::MIN <= waste <= i64::MAX {
        Ok(Waste(waste as i64))
    } else {
        Err(Error::ArithmeticOverflow)
    }
}

/// Where each selected group carries the fee of the long-term rate and
/// nothing remains beyond the target, there is no waste.
pub proof fn lemma_no_waste_at_long_term_rate<'u>(
    selected: Seq<OutputGroup<'u>>,
    fee_rate: FeeRate,
    drain_script_weight: int,
    dust_threshold: u64,
    change_fee: u64,
)
    requires
        fee_rate.rate() == LONG_TERM_SAT_PER_KVB,
        forall|i: int|
            0 <= i < selected.len() ==> (#[trigger] selected[i]).fee == OutputGroup::of(
                selected[i].weighted_utxo,
                fee_rate,
            ).fee,
    ensures
        waste_of(
            selected,
            drain_script_weight,
            Excess::NoChange { dust_threshold, remaining_amount: 0, change_fee },
        ) == 0,
{
    assert forall|i: int| 0 <= i < selected.len() implies 0 <= #[trigger] timing_term()(
        selected[i],
    ) <= 0 by {
        let group = selected[i];
        assert(group.fee == OutputGroup::of(group.weighted_utxo, fee_rate).fee);
    }
    lemma_sum_bounds(selected, timing_term(), 0, 0);
}

/// The fees at the long-term rate of up to `usize::MAX` inputs sum to less
/// than what a `u128` holds.
proof fn lemma_long_term_fits<'u>(groups: Seq<OutputGroup<'u>>)
    requires
        groups.len() <= usize::MAX,
    ensures
        0 <= sum_of(groups, long_term_term()) <= groups.len() * u64::MAX,
        groups.len() * u64::MAX + 2 * u64::MAX <= u128::MAX,
{
    assert forall|i: int| 0 <= i < groups.len() implies 0 <= #[trigger] long_term_term()(groups[i])
        <= u64::MAX by {
        let vbytes = input_vbytes(groups[i].weighted_utxo.satisfaction_weight as int);
        assert(0 <= LONG_TERM_SAT_PER_KVB * vbytes) by (nonlinear_arith)
            requires
                vbytes >= 0,
        ;
    }
    lemma_sum_bounds(groups, long_term_term(), 0, u64::MAX as int);
    assert(groups.len() * u64::MAX + 2 * u64::MAX <= u128::MAX) by (nonlinear_arith)
        requires
            groups.len() <= u64::MAX,
    ;
    assert(groups.len() * 0 == 0);
}

impl Waste {
    /// Calculates the waste of a selection.
    ///
    /// - `selected`: the groups selected as inputs
    /// - `drain_script_weight`: the weight of what will satisfy the change
    ///   script; zero where the script belongs to somebody else
    /// - `excess`: what becomes of the amount beyond the target
    ///
    /// Returns `ArithmeticOverflow` where the waste is out of the range of
    /// `i64`.
    pub fn calculate<'u>(
        selected: &[OutputGroup<'u>],
        drain_script_weight: usize,
        excess: &Excess,
    ) -> (r: Result<Waste, Error>)
        ensures
            r == waste_result(waste_of(selected@, drain_script_weight as int, *excess)),
    {
        let long_term = long_term_fee_rate();
        let mut fees: u128 = 0;
        let mut long_term_fees: u128 = 0;
        let mut i: usize = 0;
        proof {
            assert(selected@.take(0) =~= Seq::empty());
        }
        while i < selected.len()
            invariant
                i <= selected.len(),
                long_term.rate() == LONG_TERM_SAT_PER_KVB,
                fees == total_fee(selected@.take(i as int)),
                long_term_fees == sum_of(selected@.take(i as int), long_term_term()),
            decreases selected.len() - i,
        {
            proof {
                lemma_sum_take_next(selected@, fee_term(), i as int);
                lemma_sum_take_next(selected@, long_term_term(), i as int);
                lemma_totals_fit(selected@.take(i as int));
                lemma_totals_fit(selected@.take(i + 1));
                lemma_long_term_fits(selected@.take(i as int));
                lemma_long_term_fits(selected@.take(i + 1));
            }
            fees = fees + selected[i].fee as u128;
            long_term_fees = long_term_fees + input_fee(
                long_term,
                selected[i].weighted_utxo.satisfaction_weight,
            ) as u128;
            i += 1;
        }
        proof {
            assert(selected@.take(selected.len() as int) =~= selected@);
            lemma_totals_fit(selected@);
            lemma_long_term_fits(selected@);
            assert forall|k: int| 0 <= k < selected@.len() implies #[trigger] timing_term()(
                selected@[k],
            ) == fee_term()(selected@[k]) - long_term_term()(selected@[k]) by {}
            lemma_sum_difference(selected@, timing_term(), fee_term(), long_term_term());
        }
        let creation: u128 = match *excess {
            Excess::NoChange { remaining_amount, .. } => remaining_amount as u128,
            Excess::Change { fee, .. } => fee as u128 + input_fee(long_term, drain_script_weight)
                as u128,
        };
        let spent: u128 = fees + creation;
        if spent >= long_term_fees {
            let waste = spent - long_term_fees;
            if waste > i64::MAX as u128 {
                Err(Error::ArithmeticOverflow)
            } else {
                Ok(Waste(waste as i64))
            }
        } else {
            let gain = long_term_fees - spent;
            if gain > i64::MAX as u128 + 1 {
                Err(Error::ArithmeticOverflow)
            } else {
                Ok(Waste((-(gain as i128)) as i64))
            }
        }
    }
}

} // verus!
