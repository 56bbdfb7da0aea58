use vstd::prelude::*;
use vstd::seq_lib::group_to_multiset_ensures;

verus! {

/// `order` with the position `x` put in behind every position whose key is
/// at least the key of `x`.
pub open spec fn insert_descending(keys: Seq<i64>, order: Seq<usize>, x: usize) -> Seq<usize>
    decreases order.len(),
{
    if order.len() == 0 || keys[order.last() as int] >= keys[x as int] {
        order.push(x)
    } else {
        insert_descending(keys, order.drop_last(), x).push(order.last())
    }
}

/// The first `n` positions of `keys` by descending key, positions with equal
/// keys in ascending order.
pub open spec fn descending_order_upto(keys: Seq<i64>, n: nat) -> Seq<usize>
    decreases n,
{
    if n == 0 {
        Seq::empty()
    } else {
        insert_descending(keys, descending_order_upto(keys, (n - 1) as nat), (n - 1) as usize)
    }
}

/// The positions of `keys` by descending key, positions with equal keys in
/// ascending order.
pub open spec fn descending_order(keys: Seq<i64>) -> Seq<usize> {
    descending_order_upto(keys, keys.len())
}

/// Whether `order` holds positions of `keys` by descending key, positions
/// with equal keys in ascending order.
pub open spec fn is_descending(keys: Seq<i64>, order: Seq<usize>) -> bool {
    &&& forall|i: int| 0 <= i < order.len() ==> (#[trigger] order[i]) < keys.len()
    &&& forall|i: int, j: int|
        0 <= i < j < order.len() ==> {
            ||| keys[#[trigger] order[i] as int] > keys[#[trigger] order[j] as int]
            ||| keys[order[i] as int] == keys[order[j] as int] && order[i] < order[j]
        }
}

/// The items of `items` at the positions that `order` lists, in that order.
pub open spec fn arranged<T>(items: Seq<T>, order: Seq<usize>) -> Seq<T> {
    Seq::new(order.len(), |i: int| items[order[i] as int])
}

/// Where `insert_descending` puts `x`: behind the last position whose key is
/// at least that of `x`.
pub proof fn lemma_insert_place(keys: Seq<i64>, order: Seq<usize>, x: usize) -> (p: int)
    ensures
        0 <= p <= order.len(),
        insert_descending(keys, order, x) == order.insert(p, x),
        p > 0 ==> keys[order[p - 1] as int] >= keys[x as int],
        forall|i: int| p <= i < order.len() ==> keys[#[trigger] order[i] as int] < keys[x as int],
    decreases order.len(),
{
    if order.len() == 0 || keys[order.last() as int] >= keys[x as int] {
        assert(order.push(x) =~= order.insert(order.len() as int, x));
        order.len() as int
    } else {
        let head = order.drop_last();
        let p = lemma_insert_place(keys, head, x);
        assert(head.insert(p, x).push(order.last()) =~= order.insert(p, x));
        assert forall|i: int| p <= i < order.len() implies keys[#[trigger] order[i] as int]
            < keys[x as int] by {
            if i < head.len() {
                assert(head[i] == order[i]);
            }
        }
        if p > 0 {
            assert(head[p - 1] == order[p - 1]);
        }
        p
    }
}

/// The order of the first `n` keys lists `n` positions below `n`, and is
/// descending.
pub proof fn lemma_descending_order_upto(keys: Seq<i64>, n: nat)
    requires
        n <= keys.len(),
        n <= usize::MAX,
    ensures
        descending_order_upto(keys, n).len() == n,
        forall|i: int| 0 <= i < n ==> (#[trigger] descending_order_upto(keys, n)[i]) < n,
        is_descending(keys, descending_order_upto(keys, n)),
    decreases n,
{
    if n > 0 {
        let before = descending_order_upto(keys, (n - 1) as nat);
        let x = (n - 1) as usize;
        lemma_descending_order_upto(keys, (n - 1) as nat);
        let p = lemma_insert_place(keys, before, x);
        let after = before.insert(p, x);
        assert forall|i: int| 0 <= i < n implies (#[trigger] after[i]) < n by {
            if i < p {
                assert(after[i] == before[i]);
            } else if i > p {
                assert(after[i] == before[i - 1]);
            }
        }
        assert forall|i: int, j: int| 0 <= i < j < after.len() implies {
            ||| keys[#[trigger] after[i] as int] > keys[#[trigger] after[j] as int]
            ||| keys[after[i] as int] == keys[after[j] as int] && after[i] < after[j]
        } by {
            if j < p {
                assert(after[i] == before[i] && after[j] == before[j]);
            } else if j == p {
                assert(after[i] == before[i]);
                if i < p - 1 {
                    assert(before[i] == before[i] && before[p - 1] == before[p - 1]);
                }
                assert(keys[before[i] as int] >= keys[x as int]);
                assert(before[i] < x);
            } else if i < p {
                assert(after[i] == before[i] && after[j] == before[j - 1]);
            } else if i == p {
                assert(after[j] == before[j - 1]);
            } else {
                assert(after[i] == before[i - 1] && after[j] == before[j - 1]);
            }
        }
    }
}

/// `descending_order` lists every position of `keys` once, by descending
/// key, positions with equal keys in ascending order.
pub proof fn lemma_descending_order(keys: Seq<i64>)
    requires
        keys.len() <= usize::MAX,
    ensures
        descending_order(keys).len() == keys.len(),
        is_descending(keys, descending_order(keys)),
{
    lemma_descending_order_upto(keys, keys.len());
}

/// Arranging the first `n` items by the order of the first `n` keys keeps
/// each of them, as often as it occurs.
pub proof fn lemma_arranged_upto<T>(items: Seq<T>, keys: Seq<i64>, n: nat)
    requires
        n <= keys.len(),
        n <= items.len(),
        n <= usize::MAX,
    ensures
        arranged(items, descending_order_upto(keys, n)).to_multiset() == items.take(
            n as int,
        ).to_multiset(),
    decreases n,
{
    broadcast use group_to_multiset_ensures;

    if n == 0 {
        assert(arranged(items, descending_order_upto(keys, n)) =~= items.take(0));
    } else {
        let before = descending_order_upto(keys, (n - 1) as nat);
        let x = (n - 1) as usize;
        lemma_descending_order_upto(keys, (n - 1) as nat);
        lemma_arranged_upto(items, keys, (n - 1) as nat);
        let p = lemma_insert_place(keys, before, x);
        assert(arranged(items, before.insert(p, x)) =~= arranged(items, before).insert(
            p,
            items[n - 1],
        ));
        assert(items.take(n as int) =~= items.take(n - 1).push(items[n - 1]));
    }
}

/// Arranging items by the descending order of their keys keeps each of
/// them, as often as it occurs.
pub proof fn lemma_arranged_keeps_items<T>(items: Seq<T>, keys: Seq<i64>)
    requires
        items.len() == keys.len(),
        keys.len() <= usize::MAX,
    ensures
        arranged(items, descending_order(keys)).len() == items.len(),
        arranged(items, descending_order(keys)).to_multiset() == items.to_multiset(),
{
    lemma_descending_order(keys);
    lemma_arranged_upto(items, keys, keys.len());
    assert(items.take(items.len() as int) =~= items);
}

/// Whether the position `a` comes before the position `b` in the descending
/// order of `keys`: its key is the greater, or the keys are equal and it is
/// the lower position.
pub open spec fn comes_before(keys: Seq<i64>, a: usize, b: usize) -> bool {
    keys[a as int] > keys[b as int] || (keys[a as int] == keys[b as int] && a < b)
}

/// Whether the position `a` is `b` or comes before it.
pub open spec fn not_after(keys: Seq<i64>) -> spec_fn(usize, usize) -> bool {
    |a: usize, b: usize| a == b || comes_before(keys, a, b)
}

/// The positions from `from` up to, and without, `to`.
pub open spec fn positions(from: int, to: int) -> Seq<usize> {
    Seq::new((to - from) as nat, |i: int| (from + i) as usize)
}

/// The descending order is the only one: an order that lists every
/// position of `keys` once, by descending key and positions with equal keys
/// in ascending order, is `descending_order(keys)`.
pub proof fn lemma_descending_order_unique(keys: Seq<i64>, order: Seq<usize>)
    requires
        keys.len() <= usize::MAX,
        is_descending(keys, order),
        order.to_multiset() == positions(0, keys.len() as int).to_multiset(),
    ensures
        order == descending_order(keys),
{
    let all = positions(0, keys.len() as int);
    let sorted = descending_order(keys);
    let leq = not_after(keys);
    lemma_descending_order(keys);
    lemma_arranged_upto(all, keys, keys.len());
    assert(all.take(keys.len() as int) =~= all);
    assert(arranged(all, sorted) =~= sorted);
    assert(vstd::relations::total_ordering(leq)) by {
        assert(vstd::relations::reflexive(leq));
        assert(vstd::relations::antisymmetric(leq));
        assert(vstd::relations::transitive(leq));
        assert(vstd::relations::strongly_connected(leq));
    }
    assert(vstd::relations::sorted_by(order, leq)) by {
        assert forall|i: int, j: int| 0 <= i < j < order.len() implies #[trigger] leq(
            order[i],
            order[j],
        ) by {
            assert(comes_before(keys, order[i], order[j]));
        }
    }
    assert(vstd::relations::sorted_by(sorted, leq)) by {
        assert forall|i: int, j: int| 0 <= i < j < sorted.len() implies #[trigger] leq(
            sorted[i],
            sorted[j],
        ) by {
            assert(comes_before(keys, sorted[i], sorted[j]));
        }
    }
    vstd::seq_lib::lemma_sorted_unique(order, sorted, leq);
}

/// Merges two descending orders into one. The positions of `left` are all
/// lower than those of `right`.
fn merge_descending(keys: &Vec<i64>, left: &Vec<usize>, right: &Vec<usize>) -> (r: Vec<usize>)
    requires
        is_descending(keys@, left@),
        is_descending(keys@, right@),
        forall|i: int, j: int|
            0 <= i < left@.len() && 0 <= j < right@.len() ==> (#[trigger] left@[i])
                < (#[trigger] right@[j]),
        left@.len() + right@.len() <= usize::MAX,
    ensures
        is_descending(keys@, r@),
        r@.to_multiset() == left@.to_multiset().add(right@.to_multiset()),
{
    broadcast use group_to_multiset_ensures;
    broadcast use vstd::multiset::group_multiset_axioms;

    let mut r: Vec<usize> = Vec::new();
    let mut i: usize = 0;
    let mut j: usize = 0;
    proof {
        assert(left@.take(0) =~= Seq::empty());
        assert(right@.take(0) =~= Seq::empty());
        assert(r@.to_multiset() =~= left@.take(0).to_multiset().add(right@.take(0).to_multiset()));
    }
    while i < left.len() || j < right.len()
        invariant
            i <= left@.len(),
            j <= right@.len(),
            left@.len() + right@.len() <= usize::MAX,
            r@.len() == i + j,
            is_descending(keys@, left@),
            is_descending(keys@, right@),
            forall|a: int, b: int|
                0 <= a < left@.len() && 0 <= b < right@.len() ==> (#[trigger] left@[a])
                    < (#[trigger] right@[b]),
            is_descending(keys@, r@),
            r@.to_multiset() == left@.take(i as int).to_multiset().add(
                right@.take(j as int).to_multiset(),
            ),
            forall|k: int, a: int|
                0 <= k < r@.len() && i <= a < left@.len() ==> comes_before(
                    keys@,
                    #[trigger] r@[k],
                    #[trigger] left@[a],
                ),
            forall|k: int, b: int|
                0 <= k < r@.len() && j <= b < right@.len() ==> comes_before(
                    keys@,
                    #[trigger] r@[k],
                    #[trigger] right@[b],
                ),
        decreases left@.len() - i + right@.len() - j,
    {
        let ghost before = r@;
        let from_left = if j >= right.len() {
            true
        } else if i >= left.len() {
            false
        } else {
            keys[left[i]] >= keys[right[j]]
        };
        if from_left {
            let x = left[i];
            r.push(x);
            proof {
                broadcast use group_to_multiset_ensures;
                broadcast use vstd::multiset::group_multiset_axioms;

                assert(r@ =~= before.push(x));
                assert(left@.take(i + 1) =~= left@.take(i as int).push(x));
                assert(r@.to_multiset() =~= before.to_multiset().insert(x));
                assert(left@.take(i + 1).to_multiset() =~= left@.take(i as int).to_multiset().insert(
                    x,
                ));
                assert(r@.to_multiset() =~= left@.take(i + 1).to_multiset().add(
                    right@.take(j as int).to_multiset(),
                ));
                assert forall|k: int, a: int|
                    0 <= k < r@.len() && i + 1 <= a < left@.len() implies comes_before(
                    keys@,
                    #[trigger] r@[k],
                    #[trigger] left@[a],
                ) by {
                    if k < before.len() {
                        assert(r@[k] == before[k]);
                    }
                }
                assert forall|k: int, b: int|
                    0 <= k < r@.len() && j <= b < right@.len() implies comes_before(
                    keys@,
                    #[trigger] r@[k],
                    #[trigger] right@[b],
                ) by {
                    if k < before.len() {
                        assert(r@[k] == before[k]);
                    } else {
                        assert(left@[i as int] < right@[b]);
                        if j < b {
                            assert(comes_before(keys@, right@[j as int], right@[b]));
                        }
                    }
                }
                assert forall|k: int, l: int| 0 <= k < l < r@.len() implies {
                    ||| keys@[#[trigger] r@[k] as int] > keys@[#[trigger] r@[l] as int]
                    ||| keys@[r@[k] as int] == keys@[r@[l] as int] && r@[k] < r@[l]
                } by {
                    assert(r@[k] == before[k]);
                    if l < before.len() {
                        assert(r@[l] == before[l]);
                    } else {
                        assert(comes_before(keys@, before[k], left@[i as int]));
                    }
                }
            }
            i += 1;
        } else {
            let y = right[j];
            r.push(y);
            proof {
                broadcast use group_to_multiset_ensures;
                broadcast use vstd::multiset::group_multiset_axioms;

                assert(r@ =~= before.push(y));
                assert(right@.take(j + 1) =~= right@.take(j as int).push(y));
                assert(r@.to_multiset() =~= before.to_multiset().insert(y));
                assert(right@.take(j + 1).to_multiset() =~= right@.take(
                    j as int,
                ).to_multiset().insert(y));
                assert(r@.to_multiset() =~= left@.take(i as int).to_multiset().add(
                    right@.take(j + 1).to_multiset(),
                ));
                assert forall|k: int, a: int|
                    0 <= k < r@.len() && i <= a < left@.len() implies comes_before(
                    keys@,
                    #[trigger] r@[k],
                    #[trigger] left@[a],
                ) by {
                    if k < before.len() {
                        assert(r@[k] == before[k]);
                    } else {
                        if i < a {
                            assert(comes_before(keys@, left@[i as int], left@[a]));
                        }
                    }
                }
                assert forall|k: int, b: int|
                    0 <= k < r@.len() && j + 1 <= b < right@.len() implies comes_before(
                    keys@,
                    #[trigger] r@[k],
                    #[trigger] right@[b],
                ) by {
                    if k < before.len() {
                        assert(r@[k] == before[k]);
                    }
                }
                assert forall|k: int, l: int| 0 <= k < l < r@.len() implies {
                    ||| keys@[#[trigger] r@[k] as int] > keys@[#[trigger] r@[l] as int]
                    ||| keys@[r@[k] as int] == keys@[r@[l] as int] && r@[k] < r@[l]
                } by {
                    assert(r@[k] == before[k]);
                    if l < before.len() {
                        assert(r@[l] == before[l]);
                    } else {
                        assert(comes_before(keys@, before[k], right@[j as int]));
                    }
                }
            }
            j += 1;
        }
    }
    proof {
        assert(left@.take(left@.len() as int) =~= left@);
        assert(right@.take(right@.len() as int) =~= right@);
    }
    r
}

/// The positions from `from` up to `to` by descending key, positions with
/// equal keys in ascending order.
fn sort_positions(keys: &Vec<i64>, from: usize, to: usize) -> (r: Vec<usize>)
    requires
        from <= to <= keys@.len(),
    ensures
        is_descending(keys@, r@),
        r@.to_multiset() == positions(from as int, to as int).to_multiset(),
        r@.len() == to - from,
        forall|i: int| 0 <= i < r@.len() ==> from <= (#[trigger] r@[i]) < to,
    decreases to - from,
{
    broadcast use group_to_multiset_ensures;

    let ghost all = positions(from as int, to as int);
    let r = if to - from == 0 {
        let r: Vec<usize> = Vec::new();
        proof {
            assert(r@ =~= all);
        }
        r
    } else if to - from == 1 {
        let mut r: Vec<usize> = Vec::new();
        r.push(from);
        proof {
            assert(r@ =~= all);
        }
        r
    } else {
        let middle = from + (to - from) / 2;
        let left = sort_positions(keys, from, middle);
        let right = sort_positions(keys, middle, to);
        proof {
            assert(all =~= positions(from as int, middle as int) + positions(
                middle as int,
                to as int,
            ));
            vstd::seq_lib::lemma_multiset_commutative(
                positions(from as int, middle as int),
                positions(middle as int, to as int),
            );
        }
        merge_descending(keys, &left, &right)
    };
    proof {
        assert(r@.to_multiset().len() == r@.len());
        assert(all.to_multiset().len() == all.len());
        assert forall|i: int| 0 <= i < r@.len() implies from <= (#[trigger] r@[i]) < to by {
            assert(r@.contains(r@[i]));
            assert(r@.to_multiset().count(r@[i]) > 0);
            assert(all.contains(r@[i]));
        }
    }
    r
}

/// The positions of `keys` by descending key, positions with equal keys in
/// ascending order.
pub fn descending_order_of(keys: &Vec<i64>) -> (order: Vec<usize>)
    ensures
        order@ == descending_order(keys@),
{
    let order = sort_positions(keys, 0, keys.len());
    proof {
        lemma_descending_order_unique(keys@, order@);
    }
    order
}

/// The items of `items` at the positions that `order` lists, in that order.
pub fn arrange<T: Copy>(items: &Vec<T>, order: &Vec<usize>) -> (r: Vec<T>)
    requires
        forall|i: int| 0 <= i < order.len() ==> (#[trigger] order@[i]) < items.len(),
    ensures
        r@ == arranged(items@, order@),
{
    let mut r: Vec<T> = Vec::new();
    let mut i: usize = 0;
    while i < order.len()
        invariant
            i <= order.len(),
            forall|j: int| 0 <= j < order.len() ==> (#[trigger] order@[j]) < items.len(),
            r@ == arranged(items@, order@.take(i as int)),
        decreases order.len() - i,
    {
        r.push(items[order[i]]);
        proof {
            assert(r@ =~= arranged(items@, order@.take(i + 1)));
        }
        i += 1;
    }
    proof {
        assert(order@.take(order.len() as int) =~= order@);
    }
    r
}

} // verus!
