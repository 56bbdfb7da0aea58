use crate::fee_rate::{vbytes, vbytes_of, FeeRate};
use crate::sums::{lemma_sum_bounds, lemma_sum_take_next, sum_of};
use crate::types::WeightedUtxo;
use vstd::prelude::*;

verus! {

/// The weight of a transaction input without what satisfies its script: the
/// transaction id of the previous output (32 bytes), its index (4 bytes) and
/// the sequence number (4 bytes), at four weight units a byte.
pub const TXIN_BASE_WEIGHT: usize = (32 + 4 + 4) * 4;

/// The virtual bytes of an input whose script takes `satisfaction_weight`
/// weight units to satisfy.
pub open spec fn input_vbytes(satisfaction_weight: int) -> int {
    vbytes_of(TXIN_BASE_WEIGHT + satisfaction_weight)
}

/// `x`, held to the range of `i64`.
pub open spec fn clamp_i64(x: int) -> i64 {
    if x > i64::MAX {
        i64::MAX
    } else if x < i64::MIN {
        i64::MIN
    } else {
        x as i64
    }
}

/// A `WeightedUtxo` with the fee that spending it costs at some fee rate, and
/// what is left of its value once that fee is paid.
#[derive(Debug, Clone, Copy)]
pub struct OutputGroup<'u> {
    /// The output and the weight of its satisfaction.
    pub weighted_utxo: &'u WeightedUtxo,
    /// The fee in satoshi that the input adds to the transaction.
    pub fee: u64,
    /// The value of the output minus `fee`; negative where spending the
    /// output costs more than it brings.
    pub effective_value: i64,
}

impl<'u> OutputGroup<'u> {
    /// The value in satoshi of the output.
    pub open spec fn value(self) -> u64 {
        self.weighted_utxo.utxo.value()
    }

    /// Whether `effective_value` is the value minus the fee, which it is
    /// unless that difference is out of the range of `i64`.
    pub open spec fn is_exact(self) -> bool {
        self.effective_value == self.value() - self.fee
    }

    /// The group that `new` makes of `weighted_utxo` at `fee_rate`.
    pub open spec fn of(weighted_utxo: &'u WeightedUtxo, fee_rate: FeeRate) -> OutputGroup<'u> {
        let fee = fee_rate.fee_of_vbytes(input_vbytes(weighted_utxo.satisfaction_weight as int));
        OutputGroup {
            weighted_utxo,
            fee: fee as u64,
            effective_value: clamp_i64(weighted_utxo.utxo.value() - fee),
        }
    }

    /// The group of `weighted_utxo` at `fee_rate`: its fee is that of the
    /// input's base weight and satisfaction weight together, rounded up, and
    /// its effective value is the output's value minus that fee, held to the
    /// range of `i64`.
    pub fn new(weighted_utxo: &'u WeightedUtxo, fee_rate: FeeRate) -> (r: OutputGroup<'u>)
        ensures
            r == OutputGroup::of(weighted_utxo, fee_rate),
    {
        let fee = input_fee(fee_rate, weighted_utxo.satisfaction_weight);
        let value = weighted_utxo.utxo.txout().value;
        let net: i128 = value as i128 - fee as i128;
        let effective_value: i64 = if net > i64::MAX as i128 {
            i64::MAX
        } else if net < i64::MIN as i128 {
            i64::MIN
        } else {
            net as i64
        };
        OutputGroup { weighted_utxo, fee, effective_value }
    }
}

/// The fee at `fee_rate` of an input whose script takes
/// `satisfaction_weight` weight units to satisfy.
pub fn input_fee(fee_rate: FeeRate, satisfaction_weight: usize) -> (r: u64)
    ensures
        r == fee_rate.fee_of_vbytes(input_vbytes(satisfaction_weight as int)),
{
    let size: usize = TXIN_BASE_WEIGHT / 4 + vbytes(satisfaction_weight);
    assert(size == input_vbytes(satisfaction_weight as int)) by {
        assert(TXIN_BASE_WEIGHT == 160);
        assert((160 + satisfaction_weight + 3) / 4 == 40 + (satisfaction_weight + 3) / 4);
    }
    fee_rate.fee_vb(size)
}

/// The fee of a group, as a term of a sum.
pub open spec fn fee_term<'u>() -> spec_fn(OutputGroup<'u>) -> int {
    |g: OutputGroup<'u>| g.fee as int
}

/// The value of a group's output, as a term of a sum.
pub open spec fn value_term<'u>() -> spec_fn(OutputGroup<'u>) -> int {
    |g: OutputGroup<'u>| g.value() as int
}

/// The effective value of a group, as a term of a sum.
pub open spec fn effective_term<'u>() -> spec_fn(OutputGroup<'u>) -> int {
    |g: OutputGroup<'u>| g.effective_value as int
}

/// The summed fees of `groups`.
pub open spec fn total_fee<'u>(groups: Seq<OutputGroup<'u>>) -> int {
    sum_of(groups, fee_term())
}

/// The summed values of the outputs of `groups`.
pub open spec fn total_value<'u>(groups: Seq<OutputGroup<'u>>) -> int {
    sum_of(groups, value_term())
}

/// The summed effective values of `groups`.
pub open spec fn total_effective_value<'u>(groups: Seq<OutputGroup<'u>>) -> int {
    sum_of(groups, effective_term())
}

/// Whether every group of `groups` is exact.
pub open spec fn all_exact<'u>(groups: Seq<OutputGroup<'u>>) -> bool {
    forall|i: int| 0 <= i < groups.len() ==> (#[trigger] groups[i]).is_exact()
}

/// The fees and the values of up to `usize::MAX` groups sum to less than
/// what a `u128` holds, with room for one more amount; their effective
/// values sum to what an `i128` holds.
pub proof fn lemma_totals_fit<'u>(groups: Seq<OutputGroup<'u>>)
    requires
        groups.len() <= usize::MAX,
    ensures
        0 <= total_fee(groups) <= groups.len() * u64::MAX,
        0 <= total_value(groups) <= groups.len() * u64::MAX,
        groups.len() * u64::MAX + u64::MAX <= u128::MAX,
        groups.len() * i64::MIN <= total_effective_value(groups) <= groups.len() * i64::MAX,
        i128::MIN - i64::MIN <= groups.len() * i64::MIN,
        groups.len() * i64::MAX <= i128::MAX - i64::MAX,
{
    lemma_sum_bounds(groups, fee_term(), 0, u64::MAX as int);
    lemma_sum_bounds(groups, value_term(), 0, u64::MAX as int);
    lemma_sum_bounds(groups, effective_term(), i64::MIN as int, i64::MAX as int);
    assert(groups.len() * u64::MAX + u64::MAX <= u128::MAX) by (nonlinear_arith)
        requires
            groups.len() <= u64::MAX,
    ;
    assert(i128::MIN - i64::MIN <= groups.len() * i64::MIN && groups.len() * i64::MAX <= i128::MAX
        - i64::MAX) by (nonlinear_arith)
        requires
            0 <= groups.len() <= u64::MAX,
    ;
    assert(groups.len() * 0 == 0);
}

/// The summed fees of `groups`.
pub fn sum_fees<'u>(groups: &Vec<OutputGroup<'u>>) -> (r: u128)
    ensures
        r == total_fee(groups@),
{
    let mut sum: u128 = 0;
    let mut i: usize = 0;
    proof {
        assert(groups@.take(0) =~= Seq::empty());
    }
    while i < groups.len()
        invariant
            i <= groups.len(),
            sum == total_fee(groups@.take(i as int)),
        decreases groups.len() - i,
    {
        proof {
            lemma_sum_take_next(groups@, fee_term(), i as int);
            lemma_totals_fit(groups@.take(i as int));
            lemma_totals_fit(groups@.take(i + 1));
        }
        sum = sum + groups[i].fee as u128;
        i += 1;
    }
    proof {
        assert(groups@.take(groups.len() as int) =~= groups@);
    }
    sum
}

/// The summed values of the outputs of `groups`.
pub fn sum_values<'u>(groups: &Vec<OutputGroup<'u>>) -> (r: u128)
    ensures
        r == total_value(groups@),
{
    let mut sum: u128 = 0;
    let mut i: usize = 0;
    proof {
        assert(groups@.take(0) =~= Seq::empty());
    }
    while i < groups.len()
        invariant
            i <= groups.len(),
            sum == total_value(groups@.take(i as int)),
        decreases groups.len() - i,
    {
        proof {
            lemma_sum_take_next(groups@, value_term(), i as int);
            lemma_totals_fit(groups@.take(i as int));
            lemma_totals_fit(groups@.take(i + 1));
        }
        sum = sum + groups[i].weighted_utxo.utxo.txout().value as u128;
        i += 1;
    }
    proof {
        assert(groups@.take(groups.len() as int) =~= groups@);
    }
    sum
}

/// The summed effective values of `groups`.
pub fn sum_effective_values<'u>(groups: &Vec<OutputGroup<'u>>) -> (r: i128)
    ensures
        r == total_effective_value(groups@),
{
    let mut sum: i128 = 0;
    let mut i: usize = 0;
    proof {
        assert(groups@.take(0) =~= Seq::empty());
    }
    while i < groups.len()
        invariant
            i <= groups.len(),
            sum == total_effective_value(groups@.take(i as int)),
        decreases groups.len() - i,
    {
        proof {
            lemma_sum_take_next(groups@, effective_term(), i as int);
            lemma_totals_fit(groups@.take(i as int));
            lemma_totals_fit(groups@.take(i + 1));
        }
        sum = sum + groups[i].effective_value as i128;
        i += 1;
    }
    proof {
        assert(groups@.take(groups.len() as int) =~= groups@);
    }
    sum
}

/// A copy of `groups`.
pub fn copy_groups<'u>(groups: &Vec<OutputGroup<'u>>) -> (r: Vec<OutputGroup<'u>>)
    ensures
        r@ == groups@,
{
    let mut r: Vec<OutputGroup<'u>> = Vec::new();
    let mut i: usize = 0;
    while i < groups.len()
        invariant
            i <= groups.len(),
            r@ == groups@.take(i as int),
        decreases groups.len() - i,
    {
        r.push(groups[i]);
        proof {
            assert(r@ =~= groups@.take(i + 1));
        }
        i += 1;
    }
    proof {
        assert(groups@.take(groups.len() as int) =~= groups@);
    }
    r
}

/// The groups of `first` followed by those of `second`.
pub fn join_groups<'u>(first: Vec<OutputGroup<'u>>, second: &Vec<OutputGroup<'u>>) -> (r: Vec<
    OutputGroup<'u>,
>)
    requires
        first@.len() + second@.len() <= usize::MAX,
    ensures
        r@ == first@ + second@,
{
    let mut r = first;
    let ghost start = r@;
    let mut i: usize = 0;
    while i < second.len()
        invariant
            i <= second.len(),
            start.len() + second@.len() <= usize::MAX,
            r@ == start + second@.take(i as int),
        decreases second.len() - i,
    {
        r.push(second[i]);
        proof {
            assert(r@ =~= start + second@.take(i + 1));
        }
        i += 1;
    }
    proof {
        assert(second@.take(second.len() as int) =~= second@);
    }
    r
}

} // verus!
