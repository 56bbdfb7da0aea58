use crate::branch_and_bound::{
    amount_term, best_after, branch_and_bound, consistent, cost_of_change, in_range,
    lemma_masked_total, lemma_search_step, lemma_unwind, mask_total, masked, out_of_range,
    prefix_total, search, search_result, search_start, search_step, unwind, SearchState,
    SearchStep, BNB_TOTAL_TRIES,
};
use crate::error::Error;
use crate::fee_rate::FeeRate;
use crate::largest_first::{by_descending_value, effective_values, lemma_by_descending_value};
use crate::output_group::{effective_term, total_effective_value, OutputGroup};
use crate::sums::{lemma_sum_pointwise, lemma_sum_take_next};
use vstd::prelude::*;

verus! {

/// Whether none of `values` is negative.
pub open spec fn none_negative(values: Seq<i64>) -> bool {
    forall|i: int| 0 <= i < values.len() ==> 0 <= #[trigger] values[i]
}

/// Whether `mask` starts with the decisions `prefix`.
pub open spec fn continues(mask: Seq<bool>, prefix: Seq<bool>) -> bool {
    prefix.len() <= mask.len() && mask.take(prefix.len() as int) == prefix
}

/// Whether `mask` leaves `decisions` at the position `i`: up to there both
/// agree, and there `decisions` excludes the group that `mask` includes.
pub open spec fn leaves_at(mask: Seq<bool>, decisions: Seq<bool>, i: int) -> bool {
    &&& 0 <= i < decisions.len()
    &&& i < mask.len()
    &&& !decisions[i]
    &&& mask[i]
    &&& mask.take(i) == decisions.take(i)
}

/// Whether the selection that `mask` makes is no better than `best`: it is
/// not worth between `target` and `upper`, or `best` holds a selection that
/// is worth no more.
pub open spec fn no_better(
    values: Seq<i64>,
    target: int,
    upper: int,
    best: Option<(Seq<bool>, int)>,
    mask: Seq<bool>,
) -> bool {
    target <= mask_total(values, mask) <= upper ==> (best matches Some((_, value)) && value
        <= mask_total(values, mask))
}

/// Whether every selection in the branches that the search has left behind
/// on its way to `decisions` is no better than `best`: those are the
/// selections that include a group where `decisions` excludes it, and agree
/// with `decisions` before.
pub open spec fn left_behind(
    values: Seq<i64>,
    target: int,
    upper: int,
    best: Option<(Seq<bool>, int)>,
    decisions: Seq<bool>,
) -> bool {
    forall|mask: Seq<bool>, i: int|
        mask.len() == values.len() && #[trigger] leaves_at(mask, decisions, i) ==> no_better(
            values,
            target,
            upper,
            best,
            mask,
        )
}

/// Whether every selection that starts with the decisions `prefix` is no
/// better than `best`.
pub open spec fn closed(
    values: Seq<i64>,
    target: int,
    upper: int,
    best: Option<(Seq<bool>, int)>,
    prefix: Seq<bool>,
) -> bool {
    forall|mask: Seq<bool>|
        mask.len() == values.len() && #[trigger] continues(mask, prefix) ==> no_better(
            values,
            target,
            upper,
            best,
            mask,
        )
}

/// Whether the search from the state `s` ends before `tries` steps are
/// over: with an exact match, or with every branch looked at.
pub open spec fn completes(values: Seq<i64>, target: int, upper: int, s: SearchState, tries: nat) -> bool
    decreases tries,
{
    tries > 0 && match search_step(values, target, upper, s) {
        SearchStep::Next(next) => completes(values, target, upper, next, (tries - 1) as nat),
        SearchStep::End(_) => true,
    }
}

/// Whether `r` is the last word on the selections from `values`: where it
/// holds decisions, no selection worth between `target` and `upper` is worth
/// less than theirs; where it holds none, there is no such selection.
pub open spec fn conclusive(values: Seq<i64>, target: int, upper: int, r: Result<Seq<bool>, Error>) -> bool {
    forall|mask: Seq<bool>|
        #![trigger mask_total(values, mask)]
        mask.len() == values.len() && target <= mask_total(values, mask) <= upper ==> (r
            matches Ok(decisions) && mask_total(values, decisions) <= mask_total(values, mask))
}

/// Where no value is negative, a selection that starts with given decisions
/// is worth at least what those decisions include, and at most that and
/// all the values not decided on.
pub proof fn lemma_continuation_bounds(
    values: Seq<i64>,
    prefix: Seq<bool>,
    mask: Seq<bool>,
    upto: int,
)
    requires
        none_negative(values),
        continues(mask, prefix),
        prefix.len() <= upto <= mask.len() <= values.len(),
    ensures
        mask_total(values, prefix) <= mask_total(values, mask.take(upto)) <= mask_total(
            values,
            prefix,
        ) + prefix_total(values, upto) - prefix_total(values, prefix.len() as int),
    decreases upto - prefix.len(),
{
    if upto == prefix.len() {
        assert(mask.take(upto) =~= prefix);
    } else {
        lemma_continuation_bounds(values, prefix, mask, upto - 1);
        lemma_sum_take_next(values, amount_term(), upto - 1);
        assert(mask.take(upto).drop_last() =~= mask.take(upto - 1));
        assert(mask.take(upto).last() == mask[upto - 1]);
        assert(0 <= values[upto - 1]);
    }
}

/// A better selection on record leaves no better what was no better before.
pub proof fn lemma_best_improves(
    values: Seq<i64>,
    target: int,
    upper: int,
    base: int,
    s: SearchState,
)
    requires
        consistent(values, target, upper, base, s),
        left_behind(values, target, upper, s.best, s.decisions),
    ensures
        left_behind(values, target, upper, best_after(target, upper, s), s.decisions),
{
    let best = best_after(target, upper, s);
    assert forall|mask: Seq<bool>, i: int|
        mask.len() == values.len() && #[trigger] leaves_at(mask, s.decisions, i) implies no_better(
        values,
        target,
        upper,
        best,
        mask,
    ) by {
        assert(no_better(values, target, upper, s.best, mask));
    }
}

/// Unwinding keeps what was shown: where every selection that starts with
/// the decisions, and every one left behind on the way to them, is no better
/// than `best`, the same holds of the decisions that unwinding leaves.
pub proof fn lemma_unwind_closed(
    values: Seq<i64>,
    target: int,
    upper: int,
    best: Option<(Seq<bool>, int)>,
    decisions: Seq<bool>,
    available_value: int,
)
    requires
        decisions.len() <= values.len(),
        closed(values, target, upper, best, decisions),
        left_behind(values, target, upper, best, decisions),
    ensures
        closed(values, target, upper, best, unwind(values, decisions, available_value).0),
        left_behind(values, target, upper, best, unwind(values, decisions, available_value).0),
    decreases decisions.len(),
{
    if decisions.len() > 0 && !decisions.last() {
        let shorter = decisions.drop_last();
        let at = shorter.len() as int;
        assert forall|mask: Seq<bool>|
            mask.len() == values.len() && #[trigger] continues(mask, shorter) implies no_better(
            values,
            target,
            upper,
            best,
            mask,
        ) by {
            if mask[at] {
                assert(decisions.take(at) =~= shorter);
                assert(leaves_at(mask, decisions, at));
            } else {
                assert(mask.take(at + 1) =~= decisions);
                assert(continues(mask, decisions));
            }
        }
        assert forall|mask: Seq<bool>, i: int|
            mask.len() == values.len() && #[trigger] leaves_at(mask, shorter, i) implies no_better(
            values,
            target,
            upper,
            best,
            mask,
        ) by {
            assert(shorter.take(i) =~= decisions.take(i));
            assert(leaves_at(mask, decisions, i));
        }
        lemma_unwind_closed(
            values,
            target,
            upper,
            best,
            shorter,
            available_value + values[decisions.len() - 1],
        );
    }
}

/// A step of the search keeps what was shown, and where it ends the search
/// its result is conclusive.
pub proof fn lemma_step_examines(values: Seq<i64>, target: int, upper: int, s: SearchState)
    requires
        none_negative(values),
        consistent(values, target, upper, prefix_total(values, values.len() as int), s),
        left_behind(values, target, upper, s.best, s.decisions),
    ensures
        match search_step(values, target, upper, s) {
            SearchStep::Next(next) => left_behind(values, target, upper, next.best, next.decisions),
            SearchStep::End(r) => conclusive(values, target, upper, r),
        },
{
    let base = prefix_total(values, values.len() as int);
    let best = best_after(target, upper, s);
    let count = values.len() as int;
    lemma_best_improves(values, target, upper, base, s);
    if in_range(target, upper, s) && s.selected_value == target {
        assert(best matches Some((found, value)) && value == target && value == mask_total(
            values,
            found,
        ));
    } else if out_of_range(target, upper, s) || in_range(target, upper, s) || s.decisions.len()
        >= values.len() {
        assert forall|mask: Seq<bool>|
            mask.len() == values.len() && #[trigger] continues(mask, s.decisions) implies no_better(
            values,
            target,
            upper,
            best,
            mask,
        ) by {
            lemma_continuation_bounds(values, s.decisions, mask, count);
            assert(mask.take(count) =~= mask);
        }
        lemma_unwind(values, s.decisions, s.available_value, base);
        lemma_unwind_closed(values, target, upper, best, s.decisions, s.available_value);
        let (decisions, available_value) = unwind(values, s.decisions, s.available_value);
        if decisions.len() == 0 {
            assert forall|mask: Seq<bool>|
                #![trigger mask_total(values, mask)]
                mask.len() == values.len() && target <= mask_total(values, mask)
                    <= upper implies (search_result(best, Error::BnBNoExactMatch) matches Ok(found)
                && mask_total(values, found) <= mask_total(values, mask)) by {
                assert(mask.take(0) =~= decisions);
                assert(continues(mask, decisions));
                assert(no_better(values, target, upper, best, mask));
            }
        } else {
            let last = decisions.len() - 1;
            let flipped = decisions.update(last, false);
            assert forall|mask: Seq<bool>, i: int|
                mask.len() == values.len() && #[trigger] leaves_at(
                    mask,
                    flipped,
                    i,
                ) implies no_better(values, target, upper, best, mask) by {
                if i < last {
                    assert(flipped.take(i) =~= decisions.take(i));
                    assert(leaves_at(mask, decisions, i));
                } else {
                    assert(flipped.take(last) =~= decisions.take(last));
                    assert(mask.take(last + 1) =~= decisions);
                    assert(continues(mask, decisions));
                }
            }
        }
    } else {
        let longer = s.decisions.push(true);
        assert forall|mask: Seq<bool>, i: int|
            mask.len() == values.len() && #[trigger] leaves_at(mask, longer, i) implies no_better(
            values,
            target,
            upper,
            best,
            mask,
        ) by {
            assert(longer.take(i) =~= s.decisions.take(i));
            assert(leaves_at(mask, s.decisions, i));
        }
    }
}

/// Where no value is negative and the available value is the sum of the
/// values, a search that ends before its tries are over is conclusive: the
/// selection that it gives is the one of least worth between `target` and
/// `upper`, and where it gives none there is none. A search that does not
/// end before its tries are over never says that there is none.
pub proof fn lemma_search_conclusive(
    values: Seq<i64>,
    target: int,
    upper: int,
    s: SearchState,
    tries: nat,
)
    requires
        none_negative(values),
        consistent(values, target, upper, prefix_total(values, values.len() as int), s),
        left_behind(values, target, upper, s.best, s.decisions),
    ensures
        completes(values, target, upper, s, tries) ==> conclusive(
            values,
            target,
            upper,
            search(values, target, upper, s, tries),
        ),
        search(values, target, upper, s, tries) == Err::<Seq<bool>, Error>(Error::BnBNoExactMatch)
            ==> completes(values, target, upper, s, tries),
    decreases tries,
{
    if tries > 0 {
        lemma_step_examines(values, target, upper, s);
        lemma_search_step(values, target, upper, prefix_total(values, values.len() as int), s);
        match search_step(values, target, upper, s) {
            SearchStep::Next(next) => {
                lemma_search_conclusive(values, target, upper, next, (tries - 1) as nat);
            },
            SearchStep::End(_) => {},
        }
    }
}

/// Whether branch and bound, for the given arguments, ends its search
/// before its tries are over.
pub open spec fn searches_all<'u>(
    size_of_change: u64,
    groups: Seq<OutputGroup<'u>>,
    fee_rate: FeeRate,
    target_amount: u64,
    available_value: i64,
) -> bool {
    completes(
        effective_values(by_descending_value(groups)),
        target_amount as int,
        target_amount + cost_of_change(size_of_change, fee_rate),
        search_start(available_value as int),
        BNB_TOTAL_TRIES as nat,
    )
}

/// Whether some choice among `groups` is worth at least `target` and at
/// most `upper`, and less than `worth`.
pub open spec fn better_choice<'u>(
    groups: Seq<OutputGroup<'u>>,
    target: int,
    upper: int,
    worth: int,
) -> bool {
    exists|mask: Seq<bool>|
        mask.len() == groups.len() && target <= #[trigger] total_effective_value(
            masked(groups, mask),
        ) <= upper && total_effective_value(masked(groups, mask)) < worth
}

/// Where no group has a negative effective value and `available_value` is
/// the sum of the effective values: branch and bound says that there is no
/// match only where no choice among the groups is in range, and a search
/// that ended before its tries were over gives the choice in range that is
/// worth the least.
pub proof fn lemma_branch_and_bound_conclusive<'u>(
    size_of_change: u64,
    groups: Seq<OutputGroup<'u>>,
    fee_rate: FeeRate,
    target_amount: u64,
    available_value: i64,
)
    requires
        groups.len() <= usize::MAX,
        available_value == total_effective_value(groups),
        forall|i: int| 0 <= i < groups.len() ==> (#[trigger] groups[i]).effective_value >= 0,
    ensures
        branch_and_bound(size_of_change, groups, fee_rate, target_amount, available_value) == Err::<
            (Seq<OutputGroup<'u>>, u64),
            Error,
        >(Error::BnBNoExactMatch) ==> !better_choice(
            by_descending_value(groups),
            target_amount as int,
            target_amount + cost_of_change(size_of_change, fee_rate),
            target_amount + cost_of_change(size_of_change, fee_rate) + 1,
        ),
        searches_all(size_of_change, groups, fee_rate, target_amount, available_value) ==> (
        branch_and_bound(size_of_change, groups, fee_rate, target_amount, available_value)
            matches Ok((selected, _)) ==> !better_choice(
            by_descending_value(groups),
            target_amount as int,
            target_amount + cost_of_change(size_of_change, fee_rate),
            total_effective_value(selected),
        )),
{
    let sorted = by_descending_value(groups);
    let values = effective_values(sorted);
    let target = target_amount as int;
    let upper = target_amount + cost_of_change(size_of_change, fee_rate);
    let start = search_start(available_value as int);
    let tries = BNB_TOTAL_TRIES as nat;
    let r = search(values, target, upper, start, tries);
    lemma_by_descending_value(groups);
    assert(none_negative(values)) by {
        assert forall|i: int| 0 <= i < values.len() implies 0 <= #[trigger] values[i] by {
            let order = crate::sorting::descending_order(effective_values(groups));
            crate::sorting::lemma_descending_order(effective_values(groups));
            assert(sorted[i] == groups[order[i] as int]);
            assert(groups[order[i] as int].effective_value >= 0);
        }
    }
    assert(prefix_total(values, values.len() as int) == available_value) by {
        assert(values.take(values.len() as int) =~= values);
        assert forall|i: int| 0 <= i < values.len() implies #[trigger] amount_term()(values[i])
            == effective_term()(sorted[i]) by {}
        lemma_sum_pointwise(values, amount_term(), sorted, effective_term());
    }
    assert(values.take(0) =~= Seq::empty());
    lemma_search_conclusive(values, target, upper, start, tries);
    assert forall|mask: Seq<bool>| mask.len() == sorted.len() implies mask_total(values, mask)
        == #[trigger] total_effective_value(masked(sorted, mask)) by {
        lemma_masked_total(sorted, mask);
    }
    if completes(values, target, upper, start, tries) {
        assert forall|mask: Seq<bool>|
            mask.len() == sorted.len() && target <= #[trigger] total_effective_value(
                masked(sorted, mask),
            ) <= upper implies (r matches Ok(decisions) && mask_total(values, decisions)
            <= total_effective_value(masked(sorted, mask))) by {
            assert(mask_total(values, mask) == total_effective_value(masked(sorted, mask)));
        }
        match r {
            Ok(decisions) => {
                crate::branch_and_bound::lemma_search_sound(
                    values,
                    target,
                    upper,
                    available_value as int,
                    start,
                    tries,
                );
                lemma_masked_total(sorted, decisions);
            },
            Err(_) => {},
        }
    }
}

} // verus!
