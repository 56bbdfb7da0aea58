use crate::database::Database;
use crate::error::Error;
use crate::fee_rate::FeeRate;
use crate::largest_first::{
    by_descending_value, effective_values, effective_values_of, lemma_by_descending_value,
    sort_by_descending_value,
};
use crate::output_group::{
    effective_term, lemma_totals_fit, sum_fees, total_effective_value, total_fee, OutputGroup,
};
use crate::strategy::CoinSelectionAlgorithm;
use crate::sums::{
    lemma_prefix_is_part, lemma_sum_bounds, lemma_sum_push, lemma_sum_take_next, sum_of,
};
use vstd::prelude::*;
use vstd::seq_lib::group_to_multiset_ensures;

verus! {

/// The number of steps after which the search gives up.
pub const BNB_TOTAL_TRIES: usize = 100_000;

/// The amount by which a selection may exceed the target: what a change
/// output of `size_of_change` bytes costs at `fee_rate`, rounded down.
pub open spec fn cost_of_change(size_of_change: u64, fee_rate: FeeRate) -> int {
    size_of_change * fee_rate.rate() / 1000
}

/// The items of `items` at the positions where `mask` holds `true`.
pub open spec fn masked<T>(items: Seq<T>, mask: Seq<bool>) -> Seq<T>
    decreases mask.len(),
{
    if mask.len() == 0 {
        Seq::empty()
    } else if mask.last() && mask.len() <= items.len() {
        masked(items, mask.drop_last()).push(items[mask.len() - 1])
    } else {
        masked(items, mask.drop_last())
    }
}

/// The sum of the values at the positions where `mask` holds `true`.
pub open spec fn mask_total(values: Seq<i64>, mask: Seq<bool>) -> int
    decreases mask.len(),
{
    if mask.len() == 0 {
        0
    } else if mask.last() && mask.len() <= values.len() {
        mask_total(values, mask.drop_last()) + values[mask.len() - 1]
    } else {
        mask_total(values, mask.drop_last())
    }
}

/// A value, as a term of a sum.
pub open spec fn amount_term() -> spec_fn(i64) -> int {
    |v: i64| v as int
}

/// The sum of the first `count` values.
pub open spec fn prefix_total(values: Seq<i64>, count: int) -> int {
    sum_of(values.take(count), amount_term())
}

/// Where the depth-first search stands.
pub struct SearchState {
    /// For each group decided so far, in order, whether it is included.
    pub decisions: Seq<bool>,
    /// The summed effective value of the groups included.
    pub selected_value: int,
    /// The summed effective value of the groups not decided yet.
    pub available_value: int,
    /// The decisions that gave the least value in range so far, with that
    /// value.
    pub best: Option<(Seq<bool>, int)>,
}

/// What one step of the search leads to.
pub enum SearchStep {
    /// The search goes on from the state.
    Next(SearchState),
    /// The search is over, with the decisions of the selection found or with
    /// the reason why there is none.
    End(Result<Seq<bool>, Error>),
}

/// The state in which the search starts: nothing decided, and
/// `available_value` still to decide on.
pub open spec fn search_start(available_value: int) -> SearchState {
    SearchState {
        decisions: Seq::empty(),
        selected_value: 0,
        available_value,
        best: None,
    }
}

/// The decisions without the exclusions at their end, and the available
/// value with the values of the groups that those exclusions were about.
pub open spec fn unwind(values: Seq<i64>, decisions: Seq<bool>, available_value: int) -> (
    Seq<bool>,
    int,
)
    decreases decisions.len(),
{
    if decisions.len() > 0 && !decisions.last() {
        unwind(values, decisions.drop_last(), available_value + values[decisions.len() - 1])
    } else {
        (decisions, available_value)
    }
}

/// What the search gives when it stops with `best` as the best selection
/// recorded, and `otherwise` as the reason to give where there is none.
pub open spec fn search_result(best: Option<(Seq<bool>, int)>, otherwise: Error) -> Result<
    Seq<bool>,
    Error,
> {
    match best {
        Some((decisions, _)) => Ok(decisions),
        None => Err(otherwise),
    }
}

/// Whether the branch below the state `s` is given up at once: even with all
/// the groups not decided yet it cannot reach `target`, or it is above
/// `upper` already.
pub open spec fn out_of_range(target: int, upper: int, s: SearchState) -> bool {
    s.selected_value + s.available_value < target || s.selected_value > upper
}

/// Whether the selection of the state `s` is a solution: its value is
/// between `target` and `upper`.
pub open spec fn in_range(target: int, upper: int, s: SearchState) -> bool {
    !out_of_range(target, upper, s) && s.selected_value >= target
}

/// The best selection recorded once the state `s` has been looked at: that of
/// `s` where it is a solution of less value than the one recorded before.
pub open spec fn best_after(target: int, upper: int, s: SearchState) -> Option<(Seq<bool>, int)> {
    if in_range(target, upper, s) && (s.best matches Some((_, value)) ==> s.selected_value
        < value) {
        Some((s.decisions, s.selected_value))
    } else {
        s.best
    }
}

/// One step of the depth-first search over the groups with effective values
/// `values`, for a selection worth at least `target` and at most `upper`.
///
/// A state whose selection is worth exactly `target` ends the search. A state
/// that is out of range, a solution, or has every group decided, is left
/// backwards: the exclusions at the end of the decisions are dropped and the
/// last inclusion becomes an exclusion; with no inclusion left the search is
/// over. From any other state the next group is included.
pub open spec fn search_step(values: Seq<i64>, target: int, upper: int, s: SearchState) -> SearchStep {
    let best = best_after(target, upper, s);
    if in_range(target, upper, s) && s.selected_value == target {
        SearchStep::End(search_result(best, Error::BnBNoExactMatch))
    } else if out_of_range(target, upper, s) || in_range(target, upper, s) || s.decisions.len()
        >= values.len() {
        let (decisions, available_value) = unwind(values, s.decisions, s.available_value);
        if decisions.len() == 0 {
            SearchStep::End(search_result(best, Error::BnBNoExactMatch))
        } else {
            SearchStep::Next(
                SearchState {
                    decisions: decisions.update(decisions.len() - 1, false),
                    selected_value: s.selected_value - values[decisions.len() - 1],
                    available_value,
                    best,
                },
            )
        }
    } else {
        let value = values[s.decisions.len() as int];
        SearchStep::Next(
            SearchState {
                decisions: s.decisions.push(true),
                selected_value: s.selected_value + value,
                available_value: s.available_value - value,
                best,
            },
        )
    }
}

/// What the search gives from the state `s` with `tries` steps left: the
/// decisions of the best selection recorded when it stops, or
/// `BnBNoExactMatch` where every branch was looked at and
/// `BnBTotalTriesExceeded` where the steps ran out, in both cases with no
/// selection recorded.
pub open spec fn search(values: Seq<i64>, target: int, upper: int, s: SearchState, tries: nat) -> Result<
    Seq<bool>,
    Error,
>
    decreases tries,
{
    if tries == 0 {
        search_result(s.best, Error::BnBTotalTriesExceeded)
    } else {
        match search_step(values, target, upper, s) {
            SearchStep::Next(next) => search(values, target, upper, next, (tries - 1) as nat),
            SearchStep::End(r) => r,
        }
    }
}

/// Whether the state `s` can come up in a search that started with
/// `base` as the available value: no more decisions than groups, the
/// selected value is that of the groups included, the available value is
/// `base` less the values of the groups decided, and the best selection
/// recorded is worth what it holds, which is between `target` and `upper`.
pub open spec fn consistent(values: Seq<i64>, target: int, upper: int, base: int, s: SearchState) -> bool {
    &&& s.decisions.len() <= values.len()
    &&& s.selected_value == mask_total(values, s.decisions)
    &&& s.available_value == base - prefix_total(values, s.decisions.len() as int)
    &&& s.best matches Some((decisions, value)) ==> {
        &&& decisions.len() <= values.len()
        &&& value == mask_total(values, decisions)
        &&& target <= value <= upper
    }
}

/// Whether `r`, where it holds decisions, holds those of a selection worth
/// at least `target` and at most `upper`.
pub open spec fn sound(values: Seq<i64>, target: int, upper: int, r: Result<Seq<bool>, Error>) -> bool {
    r matches Ok(decisions) ==> {
        &&& decisions.len() <= values.len()
        &&& target <= mask_total(values, decisions) <= upper
    }
}

/// Unwinding leaves consistent what it is given: the decisions become no
/// more, they end with an inclusion unless none is left, the selected value
/// stays that of the groups included, and the available value stays `base`
/// less the values of the groups decided.
pub proof fn lemma_unwind(values: Seq<i64>, decisions: Seq<bool>, available_value: int, base: int)
    requires
        decisions.len() <= values.len(),
        available_value == base - prefix_total(values, decisions.len() as int),
    ensures
        ({
            let (left, available) = unwind(values, decisions, available_value);
            &&& left.len() <= decisions.len()
            &&& left.len() > 0 ==> left.last()
            &&& mask_total(values, left) == mask_total(values, decisions)
            &&& available == base - prefix_total(values, left.len() as int)
        }),
    decreases decisions.len(),
{
    if decisions.len() > 0 && !decisions.last() {
        lemma_sum_take_next(values, amount_term(), decisions.len() - 1);
        lemma_unwind(
            values,
            decisions.drop_last(),
            available_value + values[decisions.len() - 1],
            base,
        );
    }
}

/// A step from a consistent state leads to a consistent state, or ends the
/// search with a sound result.
pub proof fn lemma_search_step(values: Seq<i64>, target: int, upper: int, base: int, s: SearchState)
    requires
        consistent(values, target, upper, base, s),
    ensures
        match search_step(values, target, upper, s) {
            SearchStep::Next(next) => consistent(values, target, upper, base, next)
                && next.decisions.len() <= s.decisions.len() + 1,
            SearchStep::End(r) => sound(values, target, upper, r),
        },
{
    let best = best_after(target, upper, s);
    if in_range(target, upper, s) && s.selected_value == target {
    } else if out_of_range(target, upper, s) || in_range(target, upper, s) || s.decisions.len()
        >= values.len() {
        lemma_unwind(values, s.decisions, s.available_value, base);
        let (decisions, available_value) = unwind(values, s.decisions, s.available_value);
        if decisions.len() > 0 {
            let flipped = decisions.update(decisions.len() - 1, false);
            assert(flipped.drop_last() =~= decisions.drop_last());
        }
    } else {
        let k = s.decisions.len() as int;
        assert(s.decisions.push(true).drop_last() =~= s.decisions);
        lemma_sum_take_next(values, amount_term(), k);
    }
}

/// The search from a consistent state gives a sound result: the decisions
/// that it gives are those of a selection worth at least `target` and at
/// most `upper`.
pub proof fn lemma_search_sound(
    values: Seq<i64>,
    target: int,
    upper: int,
    base: int,
    s: SearchState,
    tries: nat,
)
    requires
        consistent(values, target, upper, base, s),
    ensures
        sound(values, target, upper, search(values, target, upper, s, tries)),
    decreases tries,
{
    if tries > 0 {
        lemma_search_step(values, target, upper, base, s);
        match search_step(values, target, upper, s) {
            SearchStep::Next(next) => lemma_search_sound(
                values,
                target,
                upper,
                base,
                next,
                (tries - 1) as nat,
            ),
            SearchStep::End(_) => {},
        }
    }
}

/// The values at the positions that a mask of `count` entries holds sum to
/// no more than `count` times the greatest `i64`, and to no less than
/// `count` times the least.
pub proof fn lemma_mask_total_bounds(values: Seq<i64>, mask: Seq<bool>)
    ensures
        mask.len() * i64::MIN <= mask_total(values, mask) <= mask.len() * i64::MAX,
    decreases mask.len(),
{
    if mask.len() > 0 {
        lemma_mask_total_bounds(values, mask.drop_last());
        assert(mask.len() * i64::MAX == mask.drop_last().len() * i64::MAX + i64::MAX)
            by (nonlinear_arith)
            requires
                mask.len() == mask.drop_last().len() + 1,
        ;
        assert(mask.len() * i64::MIN == mask.drop_last().len() * i64::MIN + i64::MIN)
            by (nonlinear_arith)
            requires
                mask.len() == mask.drop_last().len() + 1,
        ;
    }
}

/// The selected and the available value of a consistent state that holds
/// at most `BNB_TOTAL_TRIES` decisions, in a search that started with an
/// available value in the range of `i64`, are far inside the range of
/// `i128`.
pub proof fn lemma_state_bounds(values: Seq<i64>, target: int, upper: int, base: int, s: SearchState)
    requires
        consistent(values, target, upper, base, s),
        s.decisions.len() <= BNB_TOTAL_TRIES,
        i64::MIN <= base <= i64::MAX,
    ensures
        -0x1_0000_0000_0000_0000_0000 < s.selected_value < 0x1_0000_0000_0000_0000_0000,
        -0x1_0000_0000_0000_0000_0000 < s.available_value < 0x1_0000_0000_0000_0000_0000,
{
    let count = s.decisions.len();
    let decided = values.take(count as int);
    lemma_mask_total_bounds(values, s.decisions);
    assert forall|i: int| 0 <= i < decided.len() implies i64::MIN <= #[trigger] amount_term()(
        decided[i],
    ) <= i64::MAX by {}
    lemma_sum_bounds(decided, amount_term(), i64::MIN as int, i64::MAX as int);
    assert(count * i64::MAX <= 100_000 * i64::MAX && count * i64::MIN >= 100_000 * i64::MIN)
        by (nonlinear_arith)
        requires
            0 <= count <= 100_000,
    ;
}

/// The best selection that the search holds, with its decisions as a
/// sequence.
pub open spec fn best_view(best: Option<(Vec<bool>, i128)>) -> Option<(Seq<bool>, int)> {
    match best {
        Some((decisions, value)) => Some((decisions@, value as int)),
        None => None,
    }
}

/// What the search returns, with the decisions as a sequence.
pub open spec fn decisions_view(r: Result<Vec<bool>, Error>) -> Result<Seq<bool>, Error> {
    match r {
        Ok(decisions) => Ok(decisions@),
        Err(e) => Err(e),
    }
}

/// A copy of `decisions`.
fn copy_decisions(decisions: &Vec<bool>) -> (r: Vec<bool>)
    ensures
        r@ == decisions@,
{
    let mut r: Vec<bool> = Vec::new();
    let mut i: usize = 0;
    while i < decisions.len()
        invariant
            i <= decisions.len(),
            r@ == decisions@.take(i as int),
        decreases decisions.len() - i,
    {
        r.push(decisions[i]);
        proof {
            assert(r@ =~= decisions@.take(i + 1));
        }
        i += 1;
    }
    proof {
        assert(decisions@.take(decisions.len() as int) =~= decisions@);
    }
    r
}

/// Searches depth first, group by group in the order of `values` and
/// inclusion before exclusion, for the groups to include so that their
/// effective values sum to at least `target` and at most `upper`; gives up
/// after `BNB_TOTAL_TRIES` steps. Returns the decisions of the selection of
/// least value that it came by.
pub fn search_decisions(values: &Vec<i64>, target: u64, upper: i128, available_value: i64) -> (r:
    Result<Vec<bool>, Error>)
    ensures
        decisions_view(r) == search(
            values@,
            target as int,
            upper as int,
            search_start(available_value as int),
            BNB_TOTAL_TRIES as nat,
        ),
{
    let goal: i128 = target as i128;
    let mut decisions: Vec<bool> = Vec::new();
    let mut selected_value: i128 = 0;
    let mut available: i128 = available_value as i128;
    let mut best: Option<(Vec<bool>, i128)> = None;
    let mut tries: usize = 0;
    let ghost base = available_value as int;
    let ghost mut s = search_start(base);
    proof {
        assert(values@.take(0) =~= Seq::empty());
    }
    while tries < BNB_TOTAL_TRIES
        invariant
            tries <= BNB_TOTAL_TRIES,
            decisions@.len() <= tries,
            base == available_value,
            goal == target,
            s.decisions == decisions@,
            s.selected_value == selected_value,
            s.available_value == available,
            s.best == best_view(best),
            consistent(values@, target as int, upper as int, base, s),
            search(
                values@,
                target as int,
                upper as int,
                search_start(base),
                BNB_TOTAL_TRIES as nat,
            ) == search(values@, target as int, upper as int, s, (BNB_TOTAL_TRIES - tries) as nat),
        decreases BNB_TOTAL_TRIES - tries,
    {
        proof {
            lemma_state_bounds(values@, target as int, upper as int, base, s);
            lemma_search_step(values@, target as int, upper as int, base, s);
        }
        let ghost before = s;
        let beyond = selected_value + available < goal || selected_value > upper;
        let solution = !beyond && selected_value >= goal;
        if solution {
            let better = match &best {
                Some((_, value)) => selected_value < *value,
                None => true,
            };
            if better {
                best = Some((copy_decisions(&decisions), selected_value));
            }
        }
        assert(best_view(best) == best_after(target as int, upper as int, before));
        if solution && selected_value == goal {
            return match best {
                Some((found, _)) => Ok(found),
                None => Err(Error::BnBNoExactMatch),
            };
        }
        if beyond || solution || decisions.len() >= values.len() {
            while decisions.len() > 0 && !decisions[decisions.len() - 1]
                invariant
                    decisions@.len() <= before.decisions.len() <= BNB_TOTAL_TRIES,
                    decisions@.len() <= values@.len(),
                    i64::MIN <= base <= i64::MAX,
                    available == base - prefix_total(values@, decisions@.len() as int),
                    unwind(values@, decisions@, available as int) == unwind(
                        values@,
                        before.decisions,
                        before.available_value,
                    ),
                decreases decisions@.len(),
            {
                proof {
                    let count = decisions@.len() as int;
                    lemma_sum_take_next(values@, amount_term(), count - 1);
                    let decided = values@.take(count - 1);
                    assert forall|i: int| 0 <= i < decided.len() implies i64::MIN
                        <= #[trigger] amount_term()(decided[i]) <= i64::MAX by {}
                    lemma_sum_bounds(decided, amount_term(), i64::MIN as int, i64::MAX as int);
                    assert((count - 1) * i64::MAX <= 100_000 * i64::MAX && (count - 1) * i64::MIN
                        >= 100_000 * i64::MIN) by (nonlinear_arith)
                        requires
                            0 <= count - 1 <= 100_000,
                    ;
                }
                decisions.pop();
                available = available + values[decisions.len()] as i128;
            }
            if decisions.len() == 0 {
                return match best {
                    Some((found, _)) => Ok(found),
                    None => Err(Error::BnBNoExactMatch),
                };
            }
            let last = decisions.len() - 1;
            decisions.set(last, false);
            selected_value = selected_value - values[last] as i128;
        } else {
            let value = values[decisions.len()] as i128;
            available = available - value;
            decisions.push(true);
            selected_value = selected_value + value;
        }
        proof {
            s = search_step(values@, target as int, upper as int, before)->Next_0;
        }
        tries += 1;
    }
    match best {
        Some((found, _)) => Ok(found),
        None => Err(Error::BnBTotalTriesExceeded),
    }
}

/// What branch and bound returns for `groups`: the search runs over the
/// groups by descending effective value, for a selection worth at least
/// `target_amount` and at most that plus the cost of a change output of
/// `size_of_change` bytes; the groups that it decides to include are
/// returned with the sum of their fees.
pub open spec fn branch_and_bound<'u>(
    size_of_change: u64,
    groups: Seq<OutputGroup<'u>>,
    fee_rate: FeeRate,
    target_amount: u64,
    available_value: i64,
) -> Result<(Seq<OutputGroup<'u>>, u64), Error> {
    let sorted = by_descending_value(groups);
    let upper = target_amount + cost_of_change(size_of_change, fee_rate);
    match search(
        effective_values(sorted),
        target_amount as int,
        upper,
        search_start(available_value as int),
        BNB_TOTAL_TRIES as nat,
    ) {
        Ok(decisions) => {
            let chosen = masked(sorted, decisions);
            if total_fee(chosen) > u64::MAX {
                Err(Error::ArithmeticOverflow)
            } else {
                Ok((chosen, total_fee(chosen) as u64))
            }
        },
        Err(e) => Err(e),
    }
}

/// The items that a mask picks are items of the sequence, none picked more
/// often than it occurs.
pub proof fn lemma_masked_is_part<T>(items: Seq<T>, mask: Seq<bool>)
    requires
        mask.len() <= items.len(),
    ensures
        masked(items, mask).to_multiset().subset_of(items.to_multiset()),
        masked(items, mask).len() <= mask.len(),
{
    lemma_masked_in_prefix(items, mask);
    lemma_prefix_is_part(items, mask.len() as int);
}

/// The items that a mask picks are items of the prefix that the mask
/// covers, none picked more often than it occurs.
proof fn lemma_masked_in_prefix<T>(items: Seq<T>, mask: Seq<bool>)
    requires
        mask.len() <= items.len(),
    ensures
        masked(items, mask).to_multiset().subset_of(items.take(mask.len() as int).to_multiset()),
        masked(items, mask).len() <= mask.len(),
    decreases mask.len(),
{
    broadcast use group_to_multiset_ensures;

    if mask.len() > 0 {
        let k = mask.len() - 1;
        lemma_masked_in_prefix(items, mask.drop_last());
        assert(items.take(k + 1) =~= items.take(k).push(items[k]));
    }
}

/// The groups that a mask picks have as their summed effective value the
/// sum of the effective values that the mask picks.
pub proof fn lemma_masked_total<'u>(groups: Seq<OutputGroup<'u>>, mask: Seq<bool>)
    requires
        mask.len() <= groups.len(),
    ensures
        total_effective_value(masked(groups, mask)) == mask_total(effective_values(groups), mask),
    decreases mask.len(),
{
    if mask.len() > 0 {
        lemma_masked_total(groups, mask.drop_last());
        if mask.last() {
            lemma_sum_push(masked(groups, mask.drop_last()), effective_term(), groups[mask.len() - 1]);
        }
    }
}

/// What branch and bound selects is worth at least the target, and at most
/// the target plus the cost of change.
pub proof fn lemma_branch_and_bound_in_range<'u>(
    size_of_change: u64,
    groups: Seq<OutputGroup<'u>>,
    fee_rate: FeeRate,
    target_amount: u64,
    available_value: i64,
)
    requires
        groups.len() <= usize::MAX,
        available_value == total_effective_value(groups),
    ensures
        branch_and_bound(size_of_change, groups, fee_rate, target_amount, available_value)
            matches Ok((selected, _)) ==> target_amount <= total_effective_value(selected)
            <= target_amount + cost_of_change(size_of_change, fee_rate),
{
    let sorted = by_descending_value(groups);
    let values = effective_values(sorted);
    let upper = target_amount + cost_of_change(size_of_change, fee_rate);
    let start = search_start(available_value as int);
    lemma_by_descending_value(groups);
    assert(values.take(0) =~= Seq::empty());
    lemma_search_sound(
        values,
        target_amount as int,
        upper,
        available_value as int,
        start,
        BNB_TOTAL_TRIES as nat,
    );
    match search(values, target_amount as int, upper, start, BNB_TOTAL_TRIES as nat) {
        Ok(decisions) => {
            lemma_masked_total(sorted, decisions);
        },
        Err(_) => {},
    }
}

/// The groups of `groups` at the positions where `mask` holds `true`.
pub fn select_masked<'u>(groups: &Vec<OutputGroup<'u>>, mask: &Vec<bool>) -> (r: Vec<
    OutputGroup<'u>,
>)
    ensures
        r@ == masked(groups@, mask@),
{
    let mut r: Vec<OutputGroup<'u>> = Vec::new();
    let mut i: usize = 0;
    proof {
        assert(mask@.take(0) =~= Seq::empty());
    }
    while i < mask.len()
        invariant
            i <= mask.len(),
            r@ == masked(groups@, mask@.take(i as int)),
        decreases mask.len() - i,
    {
        proof {
            assert(mask@.take(i + 1).drop_last() =~= mask@.take(i as int));
        }
        if mask[i] && i < groups.len() {
            r.push(groups[i]);
        }
        i += 1;
    }
    proof {
        assert(mask@.take(mask.len() as int) =~= mask@);
    }
    r
}

/// Branch and bound coin selection: a bounded depth-first search for the
/// selection that exceeds the target by the least, and by no more than a
/// change output would cost.
#[derive(Debug)]
pub struct BranchAndBoundCoinSelection {
    size_of_change: u64,
}

impl Default for BranchAndBoundCoinSelection {
    /// A selection for a change output that pays to a witness public key
    /// hash: its value (8 bytes), the length of its script (1 byte) and the
    /// script (22 bytes).
    fn default() -> (r: Self)
        ensures
            r.size_of_change() == 8 + 1 + 22,
    {
        BranchAndBoundCoinSelection { size_of_change: 8 + 1 + 22 }
    }
}

impl BranchAndBoundCoinSelection {
    /// The size in bytes of the change output that the search allows for.
    pub closed spec fn size_of_change(&self) -> u64 {
        self.size_of_change
    }

    /// A selection for a change output of `size_of_change` bytes.
    pub fn new(size_of_change: u64) -> (r: Self)
        ensures
            r.size_of_change() == size_of_change,
    {
        BranchAndBoundCoinSelection { size_of_change }
    }

    /// What a change output of the size that this selection allows for
    /// costs at `fee_rate`, rounded down.
    fn change_cost(&self, fee_rate: FeeRate) -> (r: i128)
        ensures
            r == cost_of_change(self.size_of_change(), fee_rate),
            0 <= r <= u128::MAX / 1000,
    {
        let size: u128 = self.size_of_change as u128;
        let rate: u128 = fee_rate.as_sat_per_kvb() as u128;
        assert(0 <= size * rate <= u128::MAX) by (nonlinear_arith)
            requires
                0 <= size <= u64::MAX,
                0 <= rate <= u64::MAX,
        ;
        (size * rate / 1000) as i128
    }
}

impl<D: Database> CoinSelectionAlgorithm<D> for BranchAndBoundCoinSelection {
    open spec fn selects<'u>(
        &self,
        optional_utxos: Seq<OutputGroup<'u>>,
        fee_rate: FeeRate,
        target_amount: u64,
        available_value: i64,
        outcome: Result<(Seq<OutputGroup<'u>>, u64), Error>,
    ) -> bool {
        outcome == branch_and_bound(
            self.size_of_change(),
            optional_utxos,
            fee_rate,
            target_amount,
            available_value,
        )
    }

    fn coin_select<'u>(
        &self,
        _database: &D,
        optional_utxos: Vec<OutputGroup<'u>>,
        fee_rate: FeeRate,
        target_amount: u64,
        available_value: i64,
    ) -> (r: Result<(Vec<OutputGroup<'u>>, u64), Error>) {
        let ghost pool = optional_utxos@;
        assert(pool.len() == optional_utxos.len());
        let sorted = sort_by_descending_value(optional_utxos);
        let values = effective_values_of(&sorted);
        let upper: i128 = target_amount as i128 + self.change_cost(fee_rate);
        proof {
            lemma_by_descending_value(pool);
            assert(values@.take(0) =~= Seq::empty());
            lemma_search_sound(
                values@,
                target_amount as int,
                upper as int,
                available_value as int,
                search_start(available_value as int),
                BNB_TOTAL_TRIES as nat,
            );
        }
        match search_decisions(&values, target_amount, upper, available_value) {
            Ok(decisions) => {
                let chosen = select_masked(&sorted, &decisions);
                proof {
                    lemma_masked_is_part(sorted@, decisions@);
                    lemma_masked_total(sorted@, decisions@);
                    lemma_totals_fit(chosen@);
                }
                let fee_amount = sum_fees(&chosen);
                if fee_amount > u64::MAX as u128 {
                    Err(Error::ArithmeticOverflow)
                } else {
                    Ok((chosen, fee_amount as u64))
                }
            },
            Err(e) => Err(e),
        }
    }
}

} // verus!
