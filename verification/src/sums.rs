use vstd::prelude::*;
use vstd::seq_lib::group_to_multiset_ensures;

verus! {

/// The sum of `f` over the items of `s`.
pub open spec fn sum_of<T>(s: Seq<T>, f: spec_fn(T) -> int) -> int
    decreases s.len(),
{
    if s.len() == 0 {
        0
    } else {
        sum_of(s.drop_last(), f) + f(s.last())
    }
}

/// Adding an item at the end adds its term to the sum.
pub proof fn lemma_sum_push<T>(s: Seq<T>, f: spec_fn(T) -> int, x: T)
    ensures
        sum_of(s.push(x), f) == sum_of(s, f) + f(x),
{
    assert(s.push(x).drop_last() =~= s);
}

/// The sum of a prefix grows by the term of the next item.
pub proof fn lemma_sum_take_next<T>(s: Seq<T>, f: spec_fn(T) -> int, k: int)
    requires
        0 <= k < s.len(),
    ensures
        sum_of(s.take(k + 1), f) == sum_of(s.take(k), f) + f(s[k]),
{
    assert(s.take(k + 1).drop_last() =~= s.take(k));
}

/// The sum of a concatenation is the sum of the sums.
pub proof fn lemma_sum_concat<T>(a: Seq<T>, b: Seq<T>, f: spec_fn(T) -> int)
    ensures
        sum_of(a + b, f) == sum_of(a, f) + sum_of(b, f),
    decreases b.len(),
{
    if b.len() == 0 {
        assert(a + b =~= a);
    } else {
        assert((a + b).drop_last() =~= a + b.drop_last());
        lemma_sum_concat(a, b.drop_last(), f);
    }
}

/// Putting an item in at any place adds its term to the sum.
pub proof fn lemma_sum_insert<T>(s: Seq<T>, f: spec_fn(T) -> int, i: int, x: T)
    requires
        0 <= i <= s.len(),
    ensures
        sum_of(s.insert(i, x), f) == sum_of(s, f) + f(x),
{
    let front = s.subrange(0, i);
    let back = s.subrange(i, s.len() as int);
    assert(s =~= front + back);
    lemma_sum_concat(front, back, f);
    lemma_sum_push(front, f, x);
    lemma_sum_concat(front.push(x), back, f);
}

/// Taking an item out takes its term from the sum.
pub proof fn lemma_sum_remove<T>(s: Seq<T>, f: spec_fn(T) -> int, i: int)
    requires
        0 <= i < s.len(),
    ensures
        sum_of(s.remove(i), f) == sum_of(s, f) - f(s[i]),
{
    let rest = s.remove(i);
    assert(rest.insert(i, s[i]) =~= s);
    lemma_sum_insert(rest, f, i, s[i]);
}

/// A sum lies between the number of items times the least term and the
/// number of items times the greatest.
pub proof fn lemma_sum_bounds<T>(s: Seq<T>, f: spec_fn(T) -> int, lo: int, hi: int)
    requires
        forall|i: int| 0 <= i < s.len() ==> lo <= #[trigger] f(s[i]) <= hi,
    ensures
        s.len() * lo <= sum_of(s, f) <= s.len() * hi,
    decreases s.len(),
{
    if s.len() > 0 {
        let head = s.drop_last();
        assert forall|i: int| 0 <= i < head.len() implies lo <= #[trigger] f(head[i]) <= hi by {
            assert(head[i] == s[i]);
        }
        lemma_sum_bounds(head, f, lo, hi);
        assert(lo <= f(s[s.len() - 1]) <= hi);
        assert(s.len() * lo == head.len() * lo + lo) by (nonlinear_arith)
            requires
                s.len() == head.len() + 1,
        ;
        assert(s.len() * hi == head.len() * hi + hi) by (nonlinear_arith)
            requires
                s.len() == head.len() + 1,
        ;
    }
}

/// With terms that are never negative, a shorter prefix sums to no more
/// than a longer one.
pub proof fn lemma_sum_prefix_grows<T>(s: Seq<T>, f: spec_fn(T) -> int, j: int, k: int)
    requires
        0 <= j <= k <= s.len(),
        forall|i: int| 0 <= i < s.len() ==> 0 <= #[trigger] f(s[i]),
    ensures
        sum_of(s.take(j), f) <= sum_of(s.take(k), f),
    decreases k - j,
{
    if j < k {
        lemma_sum_prefix_grows(s, f, j, k - 1);
        lemma_sum_take_next(s, f, k - 1);
        assert(0 <= f(s[k - 1]));
    }
}

/// Two sequences that hold the same items, in whatever order, have the same
/// sum.
pub proof fn lemma_sum_permutation<T>(a: Seq<T>, b: Seq<T>, f: spec_fn(T) -> int)
    requires
        a.to_multiset() == b.to_multiset(),
    ensures
        sum_of(a, f) == sum_of(b, f),
    decreases a.len(),
{
    broadcast use group_to_multiset_ensures;

    if a.len() == 0 {
        assert(a.to_multiset().len() == 0);
        assert(b.to_multiset().len() == b.len());
    } else {
        let x = a.last();
        let head = a.drop_last();
        assert(a =~= head.push(x));
        assert(a.to_multiset().count(x) > 0);
        assert(b.contains(x));
        let j = choose|j: int| 0 <= j < b.len() && b[j] == x;
        let rest = b.remove(j);
        assert(head.to_multiset() =~= rest.to_multiset());
        lemma_sum_permutation(head, rest, f);
        lemma_sum_remove(b, f, j);
    }
}

/// A prefix holds no item more often than the whole sequence does.
pub proof fn lemma_prefix_is_part<T>(s: Seq<T>, k: int)
    requires
        0 <= k <= s.len(),
    ensures
        s.take(k).to_multiset().subset_of(s.to_multiset()),
{
    broadcast use vstd::multiset::group_multiset_axioms;

    assert(s =~= s.take(k) + s.skip(k));
    vstd::seq_lib::lemma_multiset_commutative(s.take(k), s.skip(k));
}

/// With terms that are never negative, a sequence whose items all come
/// from another, none more often than it occurs there, sums to no more.
pub proof fn lemma_sum_of_part<T>(a: Seq<T>, b: Seq<T>, f: spec_fn(T) -> int)
    requires
        a.to_multiset().subset_of(b.to_multiset()),
        forall|i: int| 0 <= i < b.len() ==> 0 <= #[trigger] f(b[i]),
    ensures
        sum_of(a, f) <= sum_of(b, f),
    decreases a.len(),
{
    broadcast use group_to_multiset_ensures;

    if a.len() == 0 {
        lemma_sum_nonneg(b, f);
    } else {
        let x = a.last();
        let head = a.drop_last();
        assert(a =~= head.push(x));
        assert(a.to_multiset().count(x) > 0);
        assert(b.to_multiset().count(x) > 0);
        assert(b.contains(x));
        let j = choose|j: int| 0 <= j < b.len() && b[j] == x;
        let rest = b.remove(j);
        assert(head.to_multiset().subset_of(rest.to_multiset())) by {
            assert forall|v: T| head.to_multiset().count(v) <= rest.to_multiset().count(v) by {
                assert(a.to_multiset().count(v) <= b.to_multiset().count(v));
            }
        }
        assert forall|i: int| 0 <= i < rest.len() implies 0 <= #[trigger] f(rest[i]) by {
            if i < j {
                assert(rest[i] == b[i]);
            } else {
                assert(rest[i] == b[i + 1]);
            }
        }
        lemma_sum_of_part(head, rest, f);
        lemma_sum_remove(b, f, j);
        assert(0 <= f(b[j]));
    }
}

/// Where each term of `f` is the term of `g` minus the term of `h`, the sum
/// of `f` is the sum of `g` minus the sum of `h`.
pub proof fn lemma_sum_difference<T>(
    s: Seq<T>,
    f: spec_fn(T) -> int,
    g: spec_fn(T) -> int,
    h: spec_fn(T) -> int,
)
    requires
        forall|i: int| 0 <= i < s.len() ==> #[trigger] f(s[i]) == g(s[i]) - h(s[i]),
    ensures
        sum_of(s, f) == sum_of(s, g) - sum_of(s, h),
    decreases s.len(),
{
    if s.len() > 0 {
        let head = s.drop_last();
        assert forall|i: int| 0 <= i < head.len() implies #[trigger] f(head[i]) == g(head[i]) - h(
            head[i],
        ) by {
            assert(head[i] == s[i]);
        }
        lemma_sum_difference(head, f, g, h);
        assert(f(s[s.len() - 1]) == g(s[s.len() - 1]) - h(s[s.len() - 1]));
    }
}

/// Two sequences of one length whose terms agree place by place have the
/// same sum.
pub proof fn lemma_sum_pointwise<A, B>(
    a: Seq<A>,
    f: spec_fn(A) -> int,
    b: Seq<B>,
    g: spec_fn(B) -> int,
)
    requires
        a.len() == b.len(),
        forall|i: int| 0 <= i < a.len() ==> #[trigger] f(a[i]) == g(b[i]),
    ensures
        sum_of(a, f) == sum_of(b, g),
    decreases a.len(),
{
    if a.len() > 0 {
        let head = a.drop_last();
        let other = b.drop_last();
        assert forall|i: int| 0 <= i < head.len() implies #[trigger] f(head[i]) == g(other[i]) by {
            assert(head[i] == a[i] && other[i] == b[i]);
            assert(f(a[i]) == g(b[i]));
        }
        lemma_sum_pointwise(head, f, other, g);
        assert(f(a[a.len() - 1]) == g(b[a.len() - 1]));
    }
}

/// With terms that are never negative, no term is greater than the sum.
pub proof fn lemma_sum_dominates<T>(s: Seq<T>, f: spec_fn(T) -> int, i: int)
    requires
        0 <= i < s.len(),
        forall|j: int| 0 <= j < s.len() ==> 0 <= #[trigger] f(s[j]),
    ensures
        f(s[i]) <= sum_of(s, f),
{
    let rest = s.remove(i);
    assert forall|j: int| 0 <= j < rest.len() implies 0 <= #[trigger] f(rest[j]) by {
        if j < i {
            assert(rest[j] == s[j]);
        } else {
            assert(rest[j] == s[j + 1]);
        }
    }
    lemma_sum_nonneg(rest, f);
    lemma_sum_remove(s, f, i);
}

/// A sequence whose items all come from another, none more often than it
/// occurs there, is no longer.
pub proof fn lemma_part_is_shorter<T>(a: Seq<T>, b: Seq<T>)
    requires
        a.to_multiset().subset_of(b.to_multiset()),
    ensures
        a.len() <= b.len(),
{
    let one = |x: T| 1int;
    lemma_sum_bounds(a, one, 1, 1);
    lemma_sum_bounds(b, one, 1, 1);
    lemma_sum_of_part(a, b, one);
}

/// Every item of a sequence whose items all come from another is an item
/// of that other.
pub proof fn lemma_part_items<T>(a: Seq<T>, b: Seq<T>, i: int) -> (j: int)
    requires
        a.to_multiset().subset_of(b.to_multiset()),
        0 <= i < a.len(),
    ensures
        0 <= j < b.len(),
        b[j] == a[i],
{
    broadcast use group_to_multiset_ensures;

    assert(a.contains(a[i]));
    assert(a.to_multiset().count(a[i]) > 0);
    assert(b.to_multiset().count(a[i]) > 0);
    assert(b.contains(a[i]));
    choose|j: int| 0 <= j < b.len() && b[j] == a[i]
}

/// With terms that are never negative, the sum is not negative.
pub proof fn lemma_sum_nonneg<T>(s: Seq<T>, f: spec_fn(T) -> int)
    requires
        forall|i: int| 0 <= i < s.len() ==> 0 <= #[trigger] f(s[i]),
    ensures
        0 <= sum_of(s, f),
    decreases s.len(),
{
    if s.len() > 0 {
        let head = s.drop_last();
        assert forall|i: int| 0 <= i < head.len() implies 0 <= #[trigger] f(head[i]) by {
            assert(head[i] == s[i]);
        }
        lemma_sum_nonneg(head, f);
        assert(0 <= f(s[s.len() - 1]));
    }
}

} // verus!
