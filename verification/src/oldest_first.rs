use crate::database::Database;
use crate::error::Error;
use crate::fee_rate::FeeRate;
use crate::output_group::OutputGroup;
use crate::sorting::{descending_order, lemma_descending_order};
use crate::strategy::{
    lemma_selection_by_keys, outcome, select_by_keys, selection_by_keys, CoinSelectionAlgorithm,
};
use crate::types::Txid;
use vstd::prelude::*;

verus! {

/// The height that stands for a transaction of which no confirmation is
/// known: the greatest, so that its coins come last.
pub const UNKNOWN_HEIGHT: u32 = u32::MAX;

/// The keys by which `count` groups with the confirmation heights `heights`
/// are put in order: the lower the height, the greater the key; a group for
/// which `heights` has no entry counts as unconfirmed.
pub open spec fn height_keys(count: nat, heights: Seq<u32>) -> Seq<i64> {
    Seq::new(
        count,
        |i: int|
            if i < heights.len() {
                (-heights[i]) as i64
            } else {
                (-UNKNOWN_HEIGHT) as i64
            },
    )
}

/// What oldest-first selection returns for groups whose transactions were
/// confirmed at `heights`: the groups are put by ascending height, groups
/// of equal height in the order in which they stand in `groups`, and the
/// shortest prefix is taken whose values pay the target and the fees of the
/// prefix, or all the groups.
pub open spec fn oldest_first<'u>(
    groups: Seq<OutputGroup<'u>>,
    heights: Seq<u32>,
    target_amount: u64,
) -> Result<(Seq<OutputGroup<'u>>, u64), Error> {
    selection_by_keys(groups, height_keys(groups.len(), heights), target_amount)
}

/// Whether `order` lists positions of `heights` by ascending height,
/// positions of equal height in ascending order.
pub open spec fn oldest_first_order(heights: Seq<u32>, order: Seq<usize>) -> bool {
    forall|i: int, j: int|
        0 <= i < j < order.len() ==> {
            ||| heights[#[trigger] order[i] as int] < heights[#[trigger] order[j] as int]
            ||| heights[order[i] as int] == heights[order[j] as int] && order[i] < order[j]
        }
}

/// The order in which oldest-first selection takes the groups lists every
/// group once, by ascending height, groups of equal height in the order in
/// which they stand.
pub proof fn lemma_oldest_come_first(count: nat, heights: Seq<u32>)
    requires
        heights.len() == count,
        count <= usize::MAX,
    ensures
        descending_order(height_keys(count, heights)).len() == count,
        forall|i: int|
            0 <= i < count ==> (#[trigger] descending_order(height_keys(count, heights))[i])
                < count,
        oldest_first_order(heights, descending_order(height_keys(count, heights))),
{
    let keys = height_keys(count, heights);
    let order = descending_order(keys);
    lemma_descending_order(keys);
    assert forall|i: int, j: int| 0 <= i < j < order.len() implies {
        ||| heights[#[trigger] order[i] as int] < heights[#[trigger] order[j] as int]
        ||| heights[order[i] as int] == heights[order[j] as int] && order[i] < order[j]
    } by {
        let a = order[i] as int;
        let b = order[j] as int;
        assert(keys[a] == -heights[a]);
        assert(keys[b] == -heights[b]);
    }
}

/// Whether `heights` holds one height for each group of `groups`, the same
/// for groups that come from one transaction.
pub open spec fn heights_by_transaction<'u>(groups: Seq<OutputGroup<'u>>, heights: Seq<u32>) -> bool {
    &&& heights.len() == groups.len()
    &&& forall|i: int, j: int|
        0 <= i < groups.len() && 0 <= j < groups.len()
            && groups[i].weighted_utxo.utxo.txid() == groups[j].weighted_utxo.utxo.txid()
            ==> #[trigger] heights[i] == #[trigger] heights[j]
}

/// Whether `known` holds `height` as the height of the transaction `txid`.
pub open spec fn recorded(known: Seq<(Txid, u32)>, txid: Txid, height: u32) -> bool {
    exists|c: int| 0 <= c < known.len() && (#[trigger] known[c]).0 == txid && known[c].1 == height
}

/// Selects from `groups` by ascending confirmation height; `heights` holds
/// the height of each group at its position.
pub fn select_oldest_first<'u>(
    groups: Vec<OutputGroup<'u>>,
    heights: &Vec<u32>,
    target_amount: u64,
) -> (r: Result<(Vec<OutputGroup<'u>>, u64), Error>)
    ensures
        outcome(r) == oldest_first(groups@, heights@, target_amount),
{
    let mut keys: Vec<i64> = Vec::new();
    let mut i: usize = 0;
    while i < groups.len()
        invariant
            i <= groups.len(),
            keys@ == height_keys(groups@.len(), heights@).take(i as int),
        decreases groups.len() - i,
    {
        let height: u32 = if i < heights.len() {
            heights[i]
        } else {
            UNKNOWN_HEIGHT
        };
        keys.push(-(height as i64));
        proof {
            assert(keys@ =~= height_keys(groups@.len(), heights@).take(i + 1));
        }
        i += 1;
    }
    proof {
        assert(keys@ =~= height_keys(groups@.len(), heights@));
    }
    select_by_keys(groups, &keys, target_amount)
}

/// Asks `database` for the confirmation height of the transaction of each
/// group, once for each transaction; a transaction of which it knows no
/// confirmation gets `UNKNOWN_HEIGHT`.
pub fn resolve_heights<'u, D: Database>(database: &D, groups: &Vec<OutputGroup<'u>>) -> (heights:
    Vec<u32>)
    ensures
        heights_by_transaction(groups@, heights@),
{
    let mut known: Vec<(Txid, u32)> = Vec::new();
    let mut heights: Vec<u32> = Vec::new();
    let mut i: usize = 0;
    while i < groups.len()
        invariant
            i <= groups.len(),
            heights@.len() == i,
            forall|a: int, b: int|
                0 <= a < b < known@.len() ==> (#[trigger] known@[a]).0 != (#[trigger] known@[b]).0,
            forall|j: int|
                0 <= j < i ==> #[trigger] recorded(
                    known@,
                    groups@[j].weighted_utxo.utxo.txid(),
                    heights@[j],
                ),
            forall|a: int, b: int|
                0 <= a < i && 0 <= b < i && groups@[a].weighted_utxo.utxo.txid()
                    == groups@[b].weighted_utxo.utxo.txid() ==> #[trigger] heights@[a]
                    == #[trigger] heights@[b],
        decreases groups.len() - i,
    {
        let txid = groups[i].weighted_utxo.utxo.outpoint().txid;
        let mut c: usize = 0;
        while c < known.len() && !known[c].0.same(&txid)
            invariant
                c <= known@.len(),
                forall|d: int| 0 <= d < c ==> (#[trigger] known@[d]).0 != txid,
            decreases known@.len() - c,
        {
            c += 1;
        }
        let ghost before = heights@;
        let ghost seen = known@;
        let height: u32 = if c < known.len() {
            known[c].1
        } else {
            let found = match database.confirmation_height(&txid) {
                Some(height) => height,
                None => UNKNOWN_HEIGHT,
            };
            known.push((txid, found));
            found
        };
        heights.push(height);
        proof {
            let at = c as int;
            assert(known@[at].0 == txid && known@[at].1 == height);
            assert forall|j: int| 0 <= j < i + 1 implies #[trigger] recorded(
                known@,
                groups@[j].weighted_utxo.utxo.txid(),
                heights@[j],
            ) by {
                if j < i {
                    assert(recorded(seen, groups@[j].weighted_utxo.utxo.txid(), before[j]));
                    let d = choose|d: int|
                        0 <= d < seen.len() && (#[trigger] seen[d]).0
                            == groups@[j].weighted_utxo.utxo.txid() && seen[d].1 == before[j];
                    assert(known@[d] == seen[d]);
                    assert(heights@[j] == before[j]);
                } else {
                    assert(known@[at].0 == groups@[j].weighted_utxo.utxo.txid());
                }
            }
            assert forall|a: int, b: int|
                0 <= a < i + 1 && 0 <= b < i + 1 && groups@[a].weighted_utxo.utxo.txid()
                    == groups@[b].weighted_utxo.utxo.txid() implies #[trigger] heights@[a]
                == #[trigger] heights@[b] by {
                if a < i && b < i {
                    assert(heights@[a] == before[a] && heights@[b] == before[b]);
                } else if a < i || b < i {
                    let j = if a < i {
                        a
                    } else {
                        b
                    };
                    assert(recorded(seen, groups@[j].weighted_utxo.utxo.txid(), before[j]));
                    let d = choose|d: int|
                        0 <= d < seen.len() && (#[trigger] seen[d]).0
                            == groups@[j].weighted_utxo.utxo.txid() && seen[d].1 == before[j];
                    assert(seen[d].0 == txid);
                    assert(d == at);
                    assert(heights@[j] == before[j]);
                }
            }
        }
        i += 1;
    }
    heights
}

/// Oldest-first coin selection: the groups are taken by ascending
/// confirmation height of their transactions, those without a known
/// confirmation last, until the target and the fees of the groups taken are
/// paid.
#[derive(Debug, Default, Clone, Copy)]
pub struct OldestFirstCoinSelection;

impl<D: Database> CoinSelectionAlgorithm<D> for OldestFirstCoinSelection {
    open spec fn selects<'u>(
        &self,
        optional_utxos: Seq<OutputGroup<'u>>,
        fee_rate: FeeRate,
        target_amount: u64,
        available_value: i64,
        outcome: Result<(Seq<OutputGroup<'u>>, u64), Error>,
    ) -> bool {
        exists|heights: Seq<u32>|
            heights_by_transaction(optional_utxos, heights) && outcome == #[trigger] oldest_first(
                optional_utxos,
                heights,
                target_amount,
            )
    }

    fn coin_select<'u>(
        &self,
        database: &D,
        optional_utxos: Vec<OutputGroup<'u>>,
        _fee_rate: FeeRate,
        target_amount: u64,
        _available_value: i64,
    ) -> (r: Result<(Vec<OutputGroup<'u>>, u64), Error>) {
        let heights = resolve_heights(database, &optional_utxos);
        proof {
            assert(optional_utxos@.len() == optional_utxos.len());
            lemma_selection_by_keys(
                optional_utxos@,
                height_keys(optional_utxos@.len(), heights@),
                target_amount,
            );
        }
        select_oldest_first(optional_utxos, &heights, target_amount)
    }
}

} // verus!
