//! Stable sorting by a ranking.
//!
//! A type is ranked when any two of its values can be compared and the
//! comparison is transitive. Two values may rank alike without being equal;
//! a stable sort leaves values that rank alike in the order they came in.

use vstd::prelude::*;

verus! {

broadcast use {vstd::seq_lib::group_to_multiset_ensures, vstd::seq_lib::group_filter_ensures};

/// A type whose values are ranked by a total preorder on their views.
pub trait Ranked: DeepView + Sized {
    /// `a` may stand before `b`.
    spec fn rank_le(a: Self::V, b: Self::V) -> bool;

    /// Any two values are comparable.
    proof fn lemma_rank_total(a: Self::V, b: Self::V)
        ensures
            Self::rank_le(a, b) || Self::rank_le(b, a),
    ;

    /// The ranking is transitive.
    proof fn lemma_rank_transitive(a: Self::V, b: Self::V, c: Self::V)
        requires
            Self::rank_le(a, b),
            Self::rank_le(b, c),
        ensures
            Self::rank_le(a, c),
    ;

    /// Whether `self` may stand before `other`.
    fn ranks_le(&self, other: &Self) -> (r: bool)
        ensures
            r == Self::rank_le(self.deep_view(), other.deep_view()),
    ;
}

/// `x` and `y` rank alike.
pub open spec fn tied<T: Ranked>(x: T::V, y: T::V) -> bool {
    T::rank_le(x, y) && T::rank_le(y, x)
}

/// The values of `s` that rank like `x`, in the order they have in `s`.
pub open spec fn ties_of<T: Ranked>(s: Seq<T::V>, x: T::V) -> Seq<T::V> {
    s.filter(|y: T::V| tied::<T>(x, y))
}

/// No value of `s` stands before one that must rank before it.
pub open spec fn sorted<T: Ranked>(s: Seq<T::V>) -> bool {
    forall|i: int, j: int| 0 <= i < j < s.len() ==> T::rank_le(#[trigger] s[i], #[trigger] s[j])
}

/// `r` is `s` sorted stably: `r` is sorted, and the values that rank alike
/// are the same in both and stand in the same order.
pub open spec fn is_stable_sort<T: Ranked>(r: Seq<T::V>, s: Seq<T::V>) -> bool {
    &&& sorted::<T>(r)
    &&& forall|x: T::V| #[trigger] ties_of::<T>(r, x) == ties_of::<T>(s, x)
}

/// `r` holds the values of `s` in another order: `r[i]` is `s[from[i]]`,
/// and no place of `s` is taken twice.
pub open spec fn rearranges<A>(from: Seq<int>, r: Seq<A>, s: Seq<A>) -> bool {
    &&& from.len() == r.len()
    &&& r.len() == s.len()
    &&& from.no_duplicates()
    &&& forall|i: int|
        0 <= i < r.len() ==> 0 <= #[trigger] from[i] < s.len() && r[i] == s[from[i]]
}

/// A filter that no value passes leaves nothing.
pub proof fn lemma_filter_nothing<A>(s: Seq<A>, pred: spec_fn(A) -> bool)
    requires
        forall|i: int| 0 <= i < s.len() ==> !pred(#[trigger] s[i]),
    ensures
        s.filter(pred) == Seq::<A>::empty(),
{
    let f = s.filter(pred);
    if f.len() > 0 {
        assert(pred(f[0]));
        assert(f.contains(f[0]));
        s.lemma_filter_contains_rev(pred, f[0]);
        assert(false);
    }
    assert(f =~= Seq::<A>::empty());
}

proof fn lemma_filter_one<A>(x: A, pred: spec_fn(A) -> bool)
    ensures
        seq![x].filter(pred) == if pred(x) {
            seq![x]
        } else {
            Seq::<A>::empty()
        },
{
    let e = Seq::<A>::empty();
    assert(seq![x] =~= e.push(x));
    e.lemma_filter_push(x, pred);
    lemma_filter_nothing(e, pred);
    assert(e.push(x) =~= seq![x]);
}

/// The ties of a sequence, told apart by its first value.
proof fn lemma_ties_of_front<T: Ranked>(s: Seq<T::V>, x: T::V)
    requires
        s.len() > 0,
    ensures
        ties_of::<T>(s, x) == if tied::<T>(x, s[0]) {
            seq![s[0]] + ties_of::<T>(s.drop_first(), x)
        } else {
            ties_of::<T>(s.drop_first(), x)
        },
{
    broadcast use Seq::filter_distributes_over_add;

    let pred = |y: T::V| tied::<T>(x, y);
    assert(s =~= seq![s[0]] + s.drop_first());
    lemma_filter_one(s[0], pred);
    assert((seq![s[0]] + s.drop_first()).filter(pred) == seq![s[0]].filter(pred)
        + s.drop_first().filter(pred));
    if !tied::<T>(x, s[0]) {
        assert(Seq::<T::V>::empty() + s.drop_first().filter(pred) =~= s.drop_first().filter(pred));
    }
}

/// Two sorted sequences with the same ties are the same sequence.
proof fn lemma_sorted_with_same_ties<T: Ranked>(a: Seq<T::V>, b: Seq<T::V>)
    requires
        sorted::<T>(a),
        sorted::<T>(b),
        forall|x: T::V| #[trigger] ties_of::<T>(a, x) == ties_of::<T>(b, x),
    ensures
        a == b,
    decreases a.len() + b.len(),
{
    if a.len() == 0 && b.len() == 0 {
        assert(a =~= b);
    } else if a.len() == 0 || b.len() == 0 {
        let (full, none) = if a.len() == 0 {
            (b, a)
        } else {
            (a, b)
        };
        T::lemma_rank_total(full[0], full[0]);
        lemma_ties_of_front::<T>(full, full[0]);
        lemma_filter_nothing(none, |y: T::V| tied::<T>(full[0], y));
        assert(ties_of::<T>(a, full[0]) == ties_of::<T>(b, full[0]));
        assert(ties_of::<T>(full, full[0]).len() > 0);
        assert(false);
    } else {
        let x = a[0];
        let y = b[0];
        T::lemma_rank_total(x, x);
        T::lemma_rank_total(y, y);
        lemma_ties_of_front::<T>(a, x);
        lemma_ties_of_front::<T>(b, y);
        assert(ties_of::<T>(a, x) == ties_of::<T>(b, x));
        assert(ties_of::<T>(a, y) == ties_of::<T>(b, y));
        // the first of each stands somewhere in the other
        assert(ties_of::<T>(a, x)[0] == x);
        assert(ties_of::<T>(b, x).contains(x)) by {
            assert(ties_of::<T>(b, x)[0] == x);
        }
        b.lemma_filter_contains_rev(|z: T::V| tied::<T>(x, z), x);
        let j = choose|j: int| 0 <= j < b.len() && b[j] == x;
        assert(T::rank_le(y, x)) by {
            if j > 0 {
                assert(T::rank_le(b[0], b[j]));
            }
        }
        assert(ties_of::<T>(b, y)[0] == y);
        assert(ties_of::<T>(a, y).contains(y)) by {
            assert(ties_of::<T>(a, y)[0] == y);
        }
        a.lemma_filter_contains_rev(|z: T::V| tied::<T>(y, z), y);
        let i = choose|i: int| 0 <= i < a.len() && a[i] == y;
        assert(T::rank_le(x, y)) by {
            if i > 0 {
                assert(T::rank_le(a[0], a[i]));
            }
        }
        // so they rank alike, and are the same
        lemma_ties_of_front::<T>(b, x);
        assert(ties_of::<T>(b, x)[0] == y);
        assert(x == y);
        let rest_a = a.drop_first();
        let rest_b = b.drop_first();
        assert forall|p: int, q: int| 0 <= p < q < rest_a.len() implies T::rank_le(
            #[trigger] rest_a[p],
            #[trigger] rest_a[q],
        ) by {
            assert(T::rank_le(a[p + 1], a[q + 1]));
        }
        assert forall|p: int, q: int| 0 <= p < q < rest_b.len() implies T::rank_le(
            #[trigger] rest_b[p],
            #[trigger] rest_b[q],
        ) by {
            assert(T::rank_le(b[p + 1], b[q + 1]));
        }
        assert forall|z: T::V| #[trigger]
            ties_of::<T>(rest_a, z) == ties_of::<T>(rest_b, z) by {
            lemma_ties_of_front::<T>(a, z);
            lemma_ties_of_front::<T>(b, z);
            assert(ties_of::<T>(a, z) == ties_of::<T>(b, z));
            if tied::<T>(z, x) {
                let ta = ties_of::<T>(rest_a, z);
                let tb = ties_of::<T>(rest_b, z);
                assert((seq![x] + ta).drop_first() =~= ta);
                assert((seq![x] + tb).drop_first() =~= tb);
            }
        }
        lemma_sorted_with_same_ties::<T>(rest_a, rest_b);
        assert(a =~= seq![x] + rest_a);
        assert(b =~= seq![y] + rest_b);
    }
}

/// A sequence has one stable sort only.
pub proof fn lemma_stable_sort_unique<T: Ranked>(a: Seq<T::V>, b: Seq<T::V>, s: Seq<T::V>)
    requires
        is_stable_sort::<T>(a, s),
        is_stable_sort::<T>(b, s),
    ensures
        a == b,
{
    assert forall|x: T::V| #[trigger] ties_of::<T>(a, x) == ties_of::<T>(b, x) by {
        assert(ties_of::<T>(a, x) == ties_of::<T>(s, x));
        assert(ties_of::<T>(b, x) == ties_of::<T>(s, x));
    }
    lemma_sorted_with_same_ties::<T>(a, b);
}

/// No two values at different places of `s` rank alike.
pub open spec fn no_ties<T: Ranked>(s: Seq<T::V>) -> bool {
    forall|i: int, j: int|
        0 <= i < s.len() && 0 <= j < s.len() && i != j ==> !tied::<T>(
            #[trigger] s[i],
            #[trigger] s[j],
        )
}

/// Where no two values rank alike, the ties of `x` are the one value that
/// ranks like it, or nothing.
proof fn lemma_ties_without_ties<T: Ranked>(s: Seq<T::V>, x: T::V)
    requires
        no_ties::<T>(s),
    ensures
        forall|i: int|
            0 <= i < s.len() && tied::<T>(x, #[trigger] s[i]) ==> ties_of::<T>(s, x) == seq![s[i]],
        (forall|i: int| 0 <= i < s.len() ==> !tied::<T>(x, #[trigger] s[i])) ==> ties_of::<T>(s, x)
            == Seq::<T::V>::empty(),
    decreases s.len(),
{
    let pred = |y: T::V| tied::<T>(x, y);
    if s.len() == 0 {
        lemma_filter_nothing(s, pred);
    } else {
        let front = s.drop_last();
        let e = s.last();
        assert forall|i: int, j: int|
            0 <= i < front.len() && 0 <= j < front.len() && i != j implies !tied::<T>(
            #[trigger] front[i],
            #[trigger] front[j],
        ) by {
            assert(!tied::<T>(s[i], s[j]));
        }
        lemma_ties_without_ties::<T>(front, x);
        assert(s =~= front.push(e));
        front.lemma_filter_push(e, pred);
        if tied::<T>(x, e) {
            assert forall|i: int| 0 <= i < front.len() implies !tied::<T>(
                x,
                #[trigger] front[i],
            ) by {
                if tied::<T>(x, front[i]) {
                    T::lemma_rank_transitive(front[i], x, e);
                    T::lemma_rank_transitive(e, x, front[i]);
                    assert(tied::<T>(s[i], s[s.len() - 1]));
                }
            }
            assert(Seq::<T::V>::empty().push(e) =~= seq![e]);
            assert forall|i: int| 0 <= i < s.len() && tied::<T>(x, #[trigger] s[i]) implies ties_of::<
                T,
            >(s, x) == seq![s[i]] by {
                if i < front.len() {
                    assert(front[i] == s[i]);
                }
            }
        } else {
            assert forall|i: int| 0 <= i < s.len() && tied::<T>(x, #[trigger] s[i]) implies ties_of::<
                T,
            >(s, x) == seq![s[i]] by {
                assert(front[i] == s[i]);
            }
            if forall|i: int| 0 <= i < s.len() ==> !tied::<T>(x, #[trigger] s[i]) {
                assert forall|i: int| 0 <= i < front.len() implies !tied::<T>(
                    x,
                    #[trigger] front[i],
                ) by {
                    assert(front[i] == s[i]);
                }
            }
        }
    }
}

/// Where no two values rank alike, the order in which they come in does
/// not matter: two sequences that hold the same values have the same
/// stable sort.
pub proof fn lemma_sort_ignores_input_order<T: Ranked>(
    a: Seq<T::V>,
    b: Seq<T::V>,
    s: Seq<T::V>,
    t: Seq<T::V>,
)
    requires
        s.to_multiset() == t.to_multiset(),
        no_ties::<T>(s),
        is_stable_sort::<T>(a, s),
        is_stable_sort::<T>(b, t),
    ensures
        a == b,
{
    // `t` has no ties either
    assert(s.no_duplicates()) by {
        assert forall|i: int, j: int| 0 <= i < s.len() && 0 <= j < s.len() && i != j implies s[i]
            != s[j] by {
            T::lemma_rank_total(s[i], s[i]);
            assert(!tied::<T>(s[i], s[j]));
        }
    }
    s.lemma_multiset_has_no_duplicates();
    t.lemma_multiset_has_no_duplicates_conv();
    assert forall|i: int, j: int| 0 <= i < t.len() && 0 <= j < t.len() && i != j implies !tied::<
        T,
    >(#[trigger] t[i], #[trigger] t[j]) by {
        assert(t.contains(t[i]));
        assert(t.contains(t[j]));
        assert(s.to_multiset().count(t[i]) > 0);
        assert(s.to_multiset().count(t[j]) > 0);
        assert(s.contains(t[i]));
        assert(s.contains(t[j]));
        let p = choose|p: int| 0 <= p < s.len() && s[p] == t[i];
        let q = choose|q: int| 0 <= q < s.len() && s[q] == t[j];
        assert(t[i] != t[j]);
        assert(!tied::<T>(s[p], s[q]));
    }
    assert forall|x: T::V| #[trigger] ties_of::<T>(b, x) == ties_of::<T>(s, x) by {
        lemma_ties_without_ties::<T>(s, x);
        lemma_ties_without_ties::<T>(t, x);
        assert(ties_of::<T>(b, x) == ties_of::<T>(t, x));
        if exists|i: int| 0 <= i < s.len() && tied::<T>(x, #[trigger] s[i]) {
            let i = choose|i: int| 0 <= i < s.len() && tied::<T>(x, #[trigger] s[i]);
            assert(s.contains(s[i]));
            assert(t.to_multiset().count(s[i]) > 0);
            assert(t.contains(s[i]));
            let k = choose|k: int| 0 <= k < t.len() && t[k] == s[i];
            assert(tied::<T>(x, t[k]));
        } else {
            assert forall|k: int| 0 <= k < t.len() implies !tied::<T>(x, #[trigger] t[k]) by {
                assert(t.contains(t[k]));
                assert(s.to_multiset().count(t[k]) > 0);
                assert(s.contains(t[k]));
                let i = choose|i: int| 0 <= i < s.len() && s[i] == t[k];
                assert(!tied::<T>(x, s[i]));
            }
        }
    }
    lemma_stable_sort_unique::<T>(a, b, s);
}

/// A stable sort of values holds values.
pub proof fn lemma_stable_sort_of_nothing<T: Ranked>(r: Seq<T::V>, s: Seq<T::V>)
    requires
        is_stable_sort::<T>(r, s),
        r.len() > 0,
    ensures
        s.len() > 0,
{
    T::lemma_rank_total(r[0], r[0]);
    lemma_ties_of_front::<T>(r, r[0]);
    assert(ties_of::<T>(r, r[0]) == ties_of::<T>(s, r[0]));
    if s.len() == 0 {
        lemma_filter_nothing(s, |y: T::V| tied::<T>(r[0], y));
    }
}

/// Two sorted sequences without ties that hold the same values are the
/// same sequence.
pub proof fn lemma_sorted_members_unique<T: Ranked>(a: Seq<T::V>, b: Seq<T::V>)
    requires
        sorted::<T>(a),
        sorted::<T>(b),
        no_ties::<T>(a),
        no_ties::<T>(b),
        forall|x: T::V| a.contains(x) <==> b.contains(x),
    ensures
        a == b,
{
    assert forall|x: T::V| #[trigger] ties_of::<T>(a, x) == ties_of::<T>(b, x) by {
        lemma_ties_without_ties::<T>(a, x);
        lemma_ties_without_ties::<T>(b, x);
        if exists|i: int| 0 <= i < a.len() && tied::<T>(x, #[trigger] a[i]) {
            let i = choose|i: int| 0 <= i < a.len() && tied::<T>(x, #[trigger] a[i]);
            assert(a.contains(a[i]));
            assert(b.contains(a[i]));
            let k = choose|k: int| 0 <= k < b.len() && b[k] == a[i];
            assert(tied::<T>(x, b[k]));
        } else {
            assert forall|k: int| 0 <= k < b.len() implies !tied::<T>(x, #[trigger] b[k]) by {
                assert(b.contains(b[k]));
                assert(a.contains(b[k]));
                let i = choose|i: int| 0 <= i < a.len() && a[i] == b[k];
                assert(!tied::<T>(x, a[i]));
            }
        }
    }
    lemma_sorted_with_same_ties::<T>(a, b);
}

/// Two sequences that hold the same values are rearrangements of each
/// other.
pub proof fn lemma_same_values_rearranged<A>(r: Seq<A>, s: Seq<A>) -> (from: Seq<int>)
    requires
        r.to_multiset() == s.to_multiset(),
    ensures
        rearranges(from, r, s),
    decreases r.len(),
{
    assert(r.len() == s.len()) by {
        assert(r.to_multiset().len() == r.len());
        assert(s.to_multiset().len() == s.len());
    }
    if r.len() == 0 {
        Seq::empty()
    } else {
        let last = r.len() - 1;
        let x = r[last];
        assert(r.contains(x));
        assert(s.to_multiset().count(x) > 0);
        assert(s.contains(x));
        let p = choose|p: int| 0 <= p < s.len() && s[p] == x;
        let shorter = r.drop_last();
        let without = s.remove(p);
        assert(shorter =~= r.remove(last));
        assert(shorter.to_multiset() == r.to_multiset().remove(x));
        assert(without.to_multiset() == s.to_multiset().remove(x));
        let inner = lemma_same_values_rearranged(shorter, without);
        let from = Seq::new(
            r.len(),
            |i: int|
                if i == last {
                    p
                } else if inner[i] >= p {
                    inner[i] + 1
                } else {
                    inner[i]
                },
        );
        assert forall|i: int| 0 <= i < r.len() implies 0 <= #[trigger] from[i] < s.len() && r[i]
            == s[from[i]] by {
            if i != last {
                assert(shorter[i] == without[inner[i]]);
            }
        }
        assert forall|i: int, j: int|
            0 <= i < from.len() && 0 <= j < from.len() && i != j implies from[i] != from[j] by {
            if i != last && j != last {
                assert(inner[i] != inner[j]);
            }
        }
        from
    }
}

/// `r` holds the values of `s` from the last to the first.
spec fn turned<A>(r: Seq<A>, s: Seq<A>) -> bool {
    &&& r.len() == s.len()
    &&& forall|i: int| 0 <= i < r.len() ==> #[trigger] r[i] == s[s.len() - 1 - i]
}

/// Merges two sorted sequences into one. Of values that rank alike, those
/// of `left` come first.
fn merge<T: Ranked>(left: Vec<T>, right: Vec<T>) -> (out: Vec<T>)
    requires
        sorted::<T>(left.deep_view()),
        sorted::<T>(right.deep_view()),
    ensures
        sorted::<T>(out.deep_view()),
        forall|x: T::V| #[trigger]
            ties_of::<T>(out.deep_view(), x) == ties_of::<T>(left.deep_view(), x) + ties_of::<T>(
                right.deep_view(),
                x,
            ),
        out.deep_view().to_multiset() == left.deep_view().to_multiset().add(
            right.deep_view().to_multiset(),
        ),
{
    broadcast use Seq::filter_distributes_over_add;

    let ghost a = left.deep_view();
    let ghost b = right.deep_view();
    let mut left = left;
    let mut right = right;
    // the values taken so far, the last of them first
    let mut greatest_first: Vec<T> = Vec::new();
    let ghost mut taken: Seq<T::V> = Seq::empty();
    proof {
        assert(a.take(a.len() as int) =~= a);
        assert(b.take(b.len() as int) =~= b);
        assert(a.skip(a.len() as int) =~= Seq::<T::V>::empty());
        assert(b.skip(b.len() as int) =~= Seq::<T::V>::empty());
        assert(turned(greatest_first.deep_view(), taken));
        assert forall|x: T::V| #[trigger]
            ties_of::<T>(taken, x) == ties_of::<T>(a.skip(a.len() as int), x) + ties_of::<T>(
                b.skip(b.len() as int),
                x,
            ) by {
            lemma_filter_nothing(taken, |y: T::V| tied::<T>(x, y));
            assert(taken + taken =~= taken);
        }
        assert(taken.to_multiset() =~= taken.to_multiset().add(taken.to_multiset()));
    }
    while left.len() > 0 || right.len() > 0
        invariant
            sorted::<T>(a),
            sorted::<T>(b),
            left.len() <= a.len(),
            right.len() <= b.len(),
            left.deep_view() == a.take(left.len() as int),
            right.deep_view() == b.take(right.len() as int),
            turned(greatest_first.deep_view(), taken),
            taken.len() == a.len() - left.len() + b.len() - right.len(),
            sorted::<T>(taken),
            forall|x: T::V| #[trigger]
                ties_of::<T>(taken, x) == ties_of::<T>(a.skip(left.len() as int), x) + ties_of::<T>(
                    b.skip(right.len() as int),
                    x,
                ),
            taken.len() > 0 ==> forall|i: int|
                0 <= i < left.len() ==> T::rank_le(#[trigger] a[i], taken[0]),
            taken.len() > 0 ==> forall|j: int|
                0 <= j < right.len() ==> T::rank_le(#[trigger] b[j], taken[0]),
            forall|i: int, j: int|
                left.len() <= i < a.len() && 0 <= j < right.len() ==> !T::rank_le(
                    #[trigger] a[i],
                    #[trigger] b[j],
                ),
            taken.to_multiset() == a.skip(left.len() as int).to_multiset().add(
                b.skip(right.len() as int).to_multiset(),
            ),
        decreases left.len() + right.len(),
    {
        let ghost na = left.len() as int;
        let ghost nb = right.len() as int;
        let ghost left_before = left.deep_view();
        let ghost right_before = right.deep_view();
        let from_right = if right.len() == 0 {
            false
        } else if left.len() == 0 {
            true
        } else {
            left[left.len() - 1].ranks_le(&right[right.len() - 1])
        };
        proof {
            if na > 0 {
                assert(left[na - 1].deep_view() == left_before[na - 1]);
                assert(left_before[na - 1] == a[na - 1]);
            }
            if nb > 0 {
                assert(right[nb - 1].deep_view() == right_before[nb - 1]);
                assert(right_before[nb - 1] == b[nb - 1]);
            }
        }
        if from_right {
            let z = right.pop().unwrap();
            let ghost zv = z.deep_view();
            let ghost grown = seq![zv] + taken;
            let ghost stacked = greatest_first.deep_view();
            greatest_first.push(z);
            proof {
                assert(greatest_first.deep_view() =~= stacked.push(zv));
                assert forall|i: int| 0 <= i < stacked.len() + 1 implies #[trigger] stacked.push(
                    zv,
                )[i] == grown[grown.len() - 1 - i] by {
                    if i < stacked.len() {
                        assert(stacked[i] == taken[taken.len() - 1 - i]);
                    }
                }
                assert(zv == b[nb - 1]);
                assert(right.deep_view() =~= b.take(nb - 1));
                assert(turned(greatest_first.deep_view(), grown));
                assert(b.skip(nb - 1) =~= seq![zv] + b.skip(nb));
                assert forall|p: int, q: int| 0 <= p < q < grown.len() implies T::rank_le(
                    #[trigger] grown[p],
                    #[trigger] grown[q],
                ) by {
                    if p == 0 {
                        assert(T::rank_le(b[nb - 1], taken[0]));
                        if q > 1 {
                            assert(T::rank_le(taken[0], taken[q - 1]));
                            T::lemma_rank_transitive(zv, taken[0], taken[q - 1]);
                        }
                    } else {
                        assert(T::rank_le(taken[p - 1], taken[q - 1]));
                    }
                }
                assert forall|i: int| 0 <= i < na implies T::rank_le(#[trigger] a[i], grown[0]) by {
                    if i < na - 1 {
                        assert(T::rank_le(a[i], a[na - 1]));
                    } else {
                        T::lemma_rank_total(a[i], a[i]);
                    }
                    T::lemma_rank_transitive(a[i], a[na - 1], zv);
                }
                assert forall|j: int| 0 <= j < nb - 1 implies T::rank_le(
                    #[trigger] b[j],
                    grown[0],
                ) by {
                    assert(T::rank_le(b[j], b[nb - 1]));
                }
                assert forall|x: T::V| #[trigger]
                    ties_of::<T>(grown, x) == ties_of::<T>(a.skip(na), x) + ties_of::<T>(
                        b.skip(nb - 1),
                        x,
                    ) by {
                    let pred = |y: T::V| tied::<T>(x, y);
                    let from_a = a.skip(na);
                    lemma_filter_one(zv, pred);
                    assert(ties_of::<T>(taken, x) == ties_of::<T>(from_a, x) + ties_of::<T>(
                        b.skip(nb),
                        x,
                    ));
                    if tied::<T>(x, zv) {
                        assert forall|i: int| 0 <= i < from_a.len() implies !pred(
                            #[trigger] from_a[i],
                        ) by {
                            if tied::<T>(x, from_a[i]) {
                                assert(from_a[i] == a[na + i]);
                                T::lemma_rank_transitive(from_a[i], x, zv);
                                assert(!T::rank_le(a[na + i], b[nb - 1]));
                            }
                        }
                        lemma_filter_nothing(from_a, pred);
                        assert(seq![zv] + (Seq::<T::V>::empty() + b.skip(nb).filter(pred))
                            =~= Seq::<T::V>::empty() + (seq![zv] + b.skip(nb).filter(pred)));
                    } else {
                        assert(Seq::<T::V>::empty() + (from_a.filter(pred) + b.skip(nb).filter(
                            pred,
                        )) =~= from_a.filter(pred) + (Seq::<T::V>::empty() + b.skip(nb).filter(
                            pred,
                        )));
                    }
                }
                assert(grown =~= taken.insert(0, zv));
                assert(b.skip(nb - 1) =~= b.skip(nb).insert(0, zv));
                assert(grown.to_multiset() =~= a.skip(na).to_multiset().add(
                    b.skip(nb - 1).to_multiset(),
                ));
                taken = grown;
            }
        } else {
            let y = left.pop().unwrap();
            let ghost yv = y.deep_view();
            let ghost grown = seq![yv] + taken;
            let ghost stacked = greatest_first.deep_view();
            greatest_first.push(y);
            proof {
                assert(greatest_first.deep_view() =~= stacked.push(yv));
                assert forall|i: int| 0 <= i < stacked.len() + 1 implies #[trigger] stacked.push(
                    yv,
                )[i] == grown[grown.len() - 1 - i] by {
                    if i < stacked.len() {
                        assert(stacked[i] == taken[taken.len() - 1 - i]);
                    }
                }
                assert(yv == a[na - 1]);
                assert(left.deep_view() =~= a.take(na - 1));
                assert(turned(greatest_first.deep_view(), grown));
                assert(a.skip(na - 1) =~= seq![yv] + a.skip(na));
                if nb > 0 {
                    T::lemma_rank_total(yv, b[nb - 1]);
                }
                assert forall|p: int, q: int| 0 <= p < q < grown.len() implies T::rank_le(
                    #[trigger] grown[p],
                    #[trigger] grown[q],
                ) by {
                    if p == 0 {
                        assert(T::rank_le(a[na - 1], taken[0]));
                        if q > 1 {
                            assert(T::rank_le(taken[0], taken[q - 1]));
                            T::lemma_rank_transitive(yv, taken[0], taken[q - 1]);
                        }
                    } else {
                        assert(T::rank_le(taken[p - 1], taken[q - 1]));
                    }
                }
                assert forall|i: int| 0 <= i < na - 1 implies T::rank_le(
                    #[trigger] a[i],
                    grown[0],
                ) by {
                    assert(T::rank_le(a[i], a[na - 1]));
                }
                assert forall|j: int| 0 <= j < nb implies T::rank_le(#[trigger] b[j], grown[0]) by {
                    if j < nb - 1 {
                        assert(T::rank_le(b[j], b[nb - 1]));
                    } else {
                        T::lemma_rank_total(b[j], b[j]);
                    }
                    T::lemma_rank_transitive(b[j], b[nb - 1], yv);
                }
                assert forall|i: int, j: int| na - 1 <= i < a.len() && 0 <= j < nb implies !T::rank_le(
                    #[trigger] a[i],
                    #[trigger] b[j],
                ) by {
                    if i == na - 1 && T::rank_le(a[i], b[j]) {
                        if j < nb - 1 {
                            assert(T::rank_le(b[j], b[nb - 1]));
                            T::lemma_rank_transitive(a[i], b[j], b[nb - 1]);
                        }
                    }
                }
                assert forall|x: T::V| #[trigger]
                    ties_of::<T>(grown, x) == ties_of::<T>(a.skip(na - 1), x) + ties_of::<T>(
                        b.skip(nb),
                        x,
                    ) by {
                    let pred = |y: T::V| tied::<T>(x, y);
                    assert(ties_of::<T>(taken, x) == ties_of::<T>(a.skip(na), x) + ties_of::<T>(
                        b.skip(nb),
                        x,
                    ));
                    assert(seq![yv].filter(pred) + (a.skip(na).filter(pred) + b.skip(nb).filter(
                        pred,
                    )) =~= (seq![yv].filter(pred) + a.skip(na).filter(pred)) + b.skip(nb).filter(
                        pred,
                    ));
                }
                assert(grown =~= taken.insert(0, yv));
                assert(a.skip(na - 1) =~= a.skip(na).insert(0, yv));
                assert(grown.to_multiset() =~= a.skip(na - 1).to_multiset().add(
                    b.skip(nb).to_multiset(),
                ));
                taken = grown;
            }
        }
    }
    proof {
        assert(a.skip(0) =~= a);
        assert(b.skip(0) =~= b);
    }
    // turn the values round
    let mut out: Vec<T> = Vec::new();
    proof {
        assert(out.deep_view() =~= taken.take(0));
        assert(taken.skip(0) =~= taken);
    }
    while greatest_first.len() > 0
        invariant
            out.len() + greatest_first.len() == taken.len(),
            out.deep_view() == taken.take(out.len() as int),
            turned(greatest_first.deep_view(), taken.skip(out.len() as int)),
        decreases greatest_first.len(),
    {
        let ghost k = out.len() as int;
        let ghost rest = greatest_first.deep_view();
        let ghost had = out.deep_view();
        let x = greatest_first.pop().unwrap();
        out.push(x);
        proof {
            let left_over = greatest_first.deep_view();
            assert(x.deep_view() == rest[rest.len() - 1]);
            assert(rest[rest.len() - 1] == taken.skip(k)[0]);
            assert(out.deep_view() =~= had.push(x.deep_view()));
            assert(out.deep_view() =~= taken.take(k + 1));
            assert(left_over =~= rest.drop_last());
            assert forall|i: int| 0 <= i < left_over.len() implies #[trigger] left_over[i]
                == taken.skip(k + 1)[taken.skip(k + 1).len() - 1 - i] by {
                assert(rest[i] == taken.skip(k)[taken.skip(k).len() - 1 - i]);
            }
            assert(turned(greatest_first.deep_view(), taken.skip(k + 1)));
        }
    }
    proof {
        assert(taken.take(taken.len() as int) =~= taken);
    }
    out
}

/// The values of `v`, sorted stably. Splits `v` in two, sorts each half
/// and merges them.
fn merge_sort<T: Ranked>(v: Vec<T>) -> (out: Vec<T>)
    ensures
        is_stable_sort::<T>(out.deep_view(), v.deep_view()),
        out.deep_view().to_multiset() == v.deep_view().to_multiset(),
    decreases v.len(),
{
    broadcast use Seq::filter_distributes_over_add;

    if v.len() <= 1 {
        return v;
    }
    let ghost all = v.deep_view();
    let mut first = v;
    let half = first.len() / 2;
    let second = first.split_off(half);
    let ghost a = first.deep_view();
    let ghost b = second.deep_view();
    proof {
        assert(all =~= a + b);
    }
    let first_sorted = merge_sort(first);
    let second_sorted = merge_sort(second);
    let out = merge(first_sorted, second_sorted);
    proof {
        vstd::seq_lib::lemma_multiset_commutative(a, b);
        assert forall|x: T::V| #[trigger]
            ties_of::<T>(out.deep_view(), x) == ties_of::<T>(all, x) by {
            assert(ties_of::<T>(first_sorted.deep_view(), x) == ties_of::<T>(a, x));
            assert(ties_of::<T>(second_sorted.deep_view(), x) == ties_of::<T>(b, x));
        }
    }
    out
}

/// Sorts `v` stably by the ranking of its type.
pub fn stable_sort<T: Ranked>(v: &mut Vec<T>)
    ensures
        is_stable_sort::<T>(final(v).deep_view(), old(v).deep_view()),
        final(v).deep_view().to_multiset() == old(v).deep_view().to_multiset(),
        exists|from: Seq<int>| rearranges(from, final(v).deep_view(), old(v).deep_view()),
        final(v).len() == old(v).len(),
{
    let mut values: Vec<T> = Vec::new();
    std::mem::swap(v, &mut values);
    let sorted_values = merge_sort(values);
    *v = sorted_values;
    proof {
        let from = lemma_same_values_rearranged(v.deep_view(), old(v).deep_view());
        assert(rearranges(from, v.deep_view(), old(v).deep_view()));
    }
}

} // verus!
