use crate::database::Database;
use crate::error::Error;
use crate::fee_rate::FeeRate;
use crate::output_group::{
    effective_term, fee_term, lemma_totals_fit, sum_fees, total_effective_value, total_fee,
    value_term, OutputGroup,
};
use crate::strategy::{
    insufficient_funds, insufficient_funds_error, outcome, CoinSelectionAlgorithm,
};
use crate::sums::{
    lemma_prefix_is_part, lemma_sum_permutation, lemma_sum_prefix_grows, lemma_sum_take_next,
};
use rand::rngs::StdRng;
use rand::seq::SliceRandom;
use rand::SeedableRng;
use vstd::prelude::*;

verus! {

/// The random number generator of the `rand` crate; nothing is known of
/// what it holds.
#[verifier::external_type_specification]
#[verifier::external_body]
pub struct ExStdRng(rand::rngs::StdRng);

/// Calls `rand::SeedableRng::from_entropy` for a `StdRng`: a generator
/// seeded by the operating system. Nothing is claimed of it.
#[verifier::external_body]
pub(crate) fn entropy_rng() -> StdRng {
    StdRng::from_entropy()
}

/// Calls `rand::seq::SliceRandom::shuffle` on the groups. The claim is that
/// of its source, which only swaps items of the slice: afterwards the vector
/// holds the same groups, each as often as before.
#[verifier::external_body]
fn shuffle_groups<'u>(groups: &mut Vec<OutputGroup<'u>>, rng: &mut StdRng)
    ensures
        final(groups)@.to_multiset() == old(groups)@.to_multiset(),
{
    groups.shuffle(rng);
}

/// The length of the shortest prefix of `groups`, among those of at least
/// `from` groups, whose effective values sum to `target` or more; the length
/// of `groups` where there is none.
pub open spec fn covered_len_from<'u>(groups: Seq<OutputGroup<'u>>, target: int, from: int) -> int
    decreases groups.len() - from,
{
    if from >= groups.len() || total_effective_value(groups.take(from)) >= target {
        from
    } else {
        covered_len_from(groups, target, from + 1)
    }
}

/// The length of the shortest prefix of `groups` whose effective values sum
/// to `target` or more; the length of `groups` where there is none.
pub open spec fn covered_len<'u>(groups: Seq<OutputGroup<'u>>, target: int) -> int {
    covered_len_from(groups, target, 0)
}

/// What the draw returns once the groups stand in the order `drawn`: the
/// shortest prefix whose effective values sum to `target_amount` or more,
/// with the sum of its fees; where all the groups together bring less,
/// the error that says so.
pub open spec fn drawn_selection<'u>(drawn: Seq<OutputGroup<'u>>, target_amount: u64) -> Result<
    (Seq<OutputGroup<'u>>, u64),
    Error,
> {
    let chosen = drawn.take(covered_len(drawn, target_amount as int));
    if total_effective_value(chosen) < target_amount {
        Err(insufficient_funds(drawn, target_amount))
    } else if total_fee(chosen) > u64::MAX {
        Err(Error::ArithmeticOverflow)
    } else {
        Ok((chosen, total_fee(chosen) as u64))
    }
}

/// Whether `outcome` is what the draw returns for some order of the groups
/// of `pool`.
pub open spec fn may_draw<'u>(
    pool: Seq<OutputGroup<'u>>,
    target_amount: u64,
    outcome: Result<(Seq<OutputGroup<'u>>, u64), Error>,
) -> bool {
    exists|drawn: Seq<OutputGroup<'u>>|
        drawn.to_multiset() == pool.to_multiset() && outcome == #[trigger] drawn_selection(
            drawn,
            target_amount,
        )
}

/// `covered_len_from` gives a length between `from` and the length of
/// `groups`; no prefix from `from` up to it covers the target, and the
/// prefix of that length does unless it is the whole of `groups`.
pub proof fn lemma_covered_len_from<'u>(groups: Seq<OutputGroup<'u>>, target: int, from: int)
    requires
        0 <= from <= groups.len(),
    ensures
        from <= covered_len_from(groups, target, from) <= groups.len(),
        forall|j: int|
            from <= j < covered_len_from(groups, target, from) ==> total_effective_value(
                #[trigger] groups.take(j),
            ) < target,
        covered_len_from(groups, target, from) < groups.len() ==> total_effective_value(
            groups.take(covered_len_from(groups, target, from)),
        ) >= target,
    decreases groups.len() - from,
{
    if from >= groups.len() || total_effective_value(groups.take(from)) >= target {
    } else {
        lemma_covered_len_from(groups, target, from + 1);
    }
}

/// What the draw arrives at when the groups stand in the order `drawn`,
/// which holds the groups of `pool`: a selection is made of groups of the
/// pool, comes with the sum of its fees and covers the target; and there is
/// one wherever the pool covers the target and its fees fit a `u64`.
pub proof fn lemma_drawn_selection<'u>(
    pool: Seq<OutputGroup<'u>>,
    drawn: Seq<OutputGroup<'u>>,
    target_amount: u64,
)
    requires
        drawn.to_multiset() == pool.to_multiset(),
        pool.len() <= usize::MAX,
    ensures
        drawn_selection(drawn, target_amount) matches Ok((selected, fee_amount)) ==> {
            &&& selected.to_multiset().subset_of(pool.to_multiset())
            &&& fee_amount == total_fee(selected)
            &&& total_effective_value(selected) >= target_amount
        },
        total_effective_value(pool) >= target_amount && total_fee(pool) <= u64::MAX
            ==> drawn_selection(drawn, target_amount) is Ok,
        insufficient_funds(drawn, target_amount) == insufficient_funds(pool, target_amount),
{
    broadcast use vstd::seq_lib::group_to_multiset_ensures;

    let k = covered_len(drawn, target_amount as int);
    let chosen = drawn.take(k);
    assert(drawn.len() == pool.len()) by {
        assert(drawn.to_multiset().len() == drawn.len());
        assert(pool.to_multiset().len() == pool.len());
    }
    lemma_covered_len_from(drawn, target_amount as int, 0);
    lemma_prefix_is_part(drawn, k);
    lemma_totals_fit(chosen);
    lemma_sum_permutation(drawn, pool, effective_term());
    lemma_sum_permutation(drawn, pool, fee_term());
    lemma_sum_permutation(drawn, pool, value_term());
    assert(drawn.take(drawn.len() as int) =~= drawn);
    assert forall|i: int| 0 <= i < drawn.len() implies 0 <= #[trigger] fee_term()(drawn[i]) by {}
    lemma_sum_prefix_grows(drawn, fee_term(), k, drawn.len() as int);
}

/// Takes groups from `drawn`, in the order in which they stand, until their
/// effective values sum to `target_amount` or more. Returns the groups taken
/// and the sum of their fees; `InsufficientFunds` where all the groups
/// together bring less than `target_amount`; `ArithmeticOverflow` where a
/// sum to return is beyond `u64::MAX`.
pub fn select_in_drawn_order<'u>(drawn: Vec<OutputGroup<'u>>, target_amount: u64) -> (r: Result<
    (Vec<OutputGroup<'u>>, u64),
    Error,
>)
    ensures
        outcome(r) == drawn_selection(drawn@, target_amount),
{
    let mut selected: Vec<OutputGroup<'u>> = Vec::new();
    let mut selected_value: i128 = 0;
    let mut i: usize = 0;
    proof {
        assert(drawn@.take(0) =~= Seq::empty());
    }
    while i < drawn.len() && selected_value < target_amount as i128
        invariant
            i <= drawn.len(),
            selected@ == drawn@.take(i as int),
            selected_value == total_effective_value(drawn@.take(i as int)),
            covered_len(drawn@, target_amount as int) == covered_len_from(
                drawn@,
                target_amount as int,
                i as int,
            ),
        decreases drawn.len() - i,
    {
        let group = drawn[i];
        proof {
            lemma_sum_take_next(drawn@, effective_term(), i as int);
            lemma_totals_fit(drawn@.take(i as int));
            lemma_totals_fit(drawn@.take(i + 1));
            assert(drawn@.take(i + 1) =~= drawn@.take(i as int).push(group));
        }
        selected_value = selected_value + group.effective_value as i128;
        selected.push(group);
        i += 1;
    }
    if selected_value < target_amount as i128 {
        Err(insufficient_funds_error(&drawn, target_amount))
    } else {
        proof {
            lemma_totals_fit(selected@);
        }
        let fee_amount = sum_fees(&selected);
        if fee_amount > u64::MAX as u128 {
            Err(Error::ArithmeticOverflow)
        } else {
            Ok((selected, fee_amount as u64))
        }
    }
}

/// Shuffles `optional_utxos` with `rng` and takes groups in the shuffled
/// order until their effective values sum to `target_amount` or more.
///
/// Whatever the order drawn: a selection returned is made of groups of
/// `optional_utxos`, comes with the sum of its fees, and covers
/// `target_amount`; one is returned wherever all the groups together cover
/// `target_amount` and their fees fit a `u64`.
pub fn single_random_draw<'u>(
    optional_utxos: Vec<OutputGroup<'u>>,
    target_amount: u64,
    rng: &mut StdRng,
) -> (r: Result<(Vec<OutputGroup<'u>>, u64), Error>)
    ensures
        may_draw(optional_utxos@, target_amount, outcome(r)),
        r matches Ok((selected, fee_amount)) ==> {
            &&& selected@.to_multiset().subset_of(optional_utxos@.to_multiset())
            &&& fee_amount == total_fee(selected@)
            &&& total_effective_value(selected@) >= target_amount
        },
        r matches Err(e) ==> e == insufficient_funds(optional_utxos@, target_amount) || e
            == Error::ArithmeticOverflow,
        total_effective_value(optional_utxos@) >= target_amount && total_fee(optional_utxos@)
            <= u64::MAX ==> r is Ok,
{
    let ghost pool = optional_utxos@;
    assert(pool.len() == optional_utxos.len());
    let mut drawn = optional_utxos;
    shuffle_groups(&mut drawn, rng);
    proof {
        lemma_drawn_selection(pool, drawn@, target_amount);
    }
    select_in_drawn_order(drawn, target_amount)
}

/// Single random draw coin selection: the groups are shuffled and taken in
/// the shuffled order until their effective values cover the target.
#[derive(Debug, Default, Clone, Copy)]
pub struct SingleRandomDrawCoinSelection;

impl<D: Database> CoinSelectionAlgorithm<D> for SingleRandomDrawCoinSelection {
    open spec fn selects<'u>(
        &self,
        optional_utxos: Seq<OutputGroup<'u>>,
        fee_rate: FeeRate,
        target_amount: u64,
        available_value: i64,
        outcome: Result<(Seq<OutputGroup<'u>>, u64), Error>,
    ) -> bool {
        may_draw(optional_utxos, target_amount, outcome)
    }

    fn coin_select<'u>(
        &self,
        _database: &D,
        optional_utxos: Vec<OutputGroup<'u>>,
        _fee_rate: FeeRate,
        target_amount: u64,
        _available_value: i64,
    ) -> (r: Result<(Vec<OutputGroup<'u>>, u64), Error>)
        ensures
            r matches Ok((selected, _)) ==> total_effective_value(selected@) >= target_amount,
            r matches Err(e) ==> e == insufficient_funds(optional_utxos@, target_amount) || e
                == Error::ArithmeticOverflow,
            total_effective_value(optional_utxos@) >= target_amount && total_fee(optional_utxos@)
                <= u64::MAX ==> r is Ok,
    {
        let mut rng = entropy_rng();
        single_random_draw(optional_utxos, target_amount, &mut rng)
    }
}

} // verus!
