//! The speed that nine tenths of the measured ones do not exceed.

use crate::double::Double;
use vstd::prelude::*;

verus! {

/// `x` put into an ordered sequence behind everything that it is not less than.
pub open spec fn inserted(t: Seq<Double>, x: Double) -> Seq<Double>
    decreases t.len(),
{
    if t.len() == 0 || t.last().value() <= x.value() {
        t.push(x)
    } else {
        inserted(t.drop_last(), x).push(t.last())
    }
}

/// `s` in ascending order; equal numbers keep the order that they had.
pub open spec fn sorted(s: Seq<Double>) -> Seq<Double>
    decreases s.len(),
{
    if s.len() == 0 {
        seq![]
    } else {
        inserted(sorted(s.drop_last()), s.last())
    }
}

/// Whether no number is followed by a smaller one.
pub open spec fn ascending(t: Seq<Double>) -> bool {
    forall|i: int, j: int|
        0 <= i <= j < t.len() ==> (#[trigger] t[i]).value() <= (#[trigger] t[j]).value()
}

/// Whether speeds can be put in order: a single one always can, several if all
/// of them are numbers.
pub open spec fn sortable(s: Seq<Double>) -> bool {
    s.len() < 2 || forall|i: int| 0 <= i < s.len() ==> !(#[trigger] s[i]).is_nan_spec()
}

/// The index of the speed to report among `len` ordered ones.
pub open spec fn p90_index_spec(len: nat) -> nat {
    len * 9 / 10
}

/// The speed to report for a list of measured ones: zero if there is none.
pub open spec fn p90_of(speeds: Seq<Double>) -> Double {
    if speeds.len() == 0 {
        Double::zero()
    } else {
        sorted(speeds)[p90_index_spec(speeds.len()) as int]
    }
}

proof fn lemma_inserted_at(t: Seq<Double>, x: Double, at: int)
    requires
        0 <= at <= t.len(),
        at > 0 ==> t[at - 1].value() <= x.value(),
        forall|k: int| at <= k < t.len() ==> (#[trigger] t[k]).value() > x.value(),
    ensures
        inserted(t, x) == t.insert(at, x),
    decreases t.len(),
{
    if at == t.len() {
        assert(t.insert(at, x) == t.push(x));
    } else {
        assert(t[t.len() - 1].value() > x.value());
        lemma_inserted_at(t.drop_last(), x, at);
        assert(t.insert(at, x) == t.drop_last().insert(at, x).push(t.last()));
    }
}

proof fn lemma_inserted(t: Seq<Double>, x: Double)
    requires
        ascending(t),
    ensures
        ascending(inserted(t, x)),
        inserted(t, x).to_multiset() == t.to_multiset().insert(x),
        inserted(t, x).len() == t.len() + 1,
        forall|k: int| 0 <= k < inserted(t, x).len() ==> {
            ||| (#[trigger] inserted(t, x)[k]) == x
            ||| t.contains(inserted(t, x)[k])
        },
    decreases t.len(),
{
    broadcast use vstd::seq_lib::group_to_multiset_ensures;

    if t.len() == 0 || t.last().value() <= x.value() {
        let r = t.push(x);
        assert forall|i: int, j: int| 0 <= i <= j < r.len() implies (#[trigger] r[i]).value() <= (
        #[trigger] r[j]).value() by {
            if j == t.len() && i < t.len() {
                assert(t[i].value() <= t[t.len() - 1].value());
            }
        }
    } else {
        let front = t.drop_last();
        lemma_inserted(front, x);
        let mid = inserted(front, x);
        let r = mid.push(t.last());
        assert forall|k: int| 0 <= k < mid.len() implies (#[trigger] mid[k]).value()
            <= t.last().value() by {
            if mid[k] != x {
                let i = choose|i: int| 0 <= i < front.len() && front[i] == mid[k];
                assert(t[i].value() <= t[t.len() - 1].value());
            }
        }
        assert(front.push(t.last()) == t);
        assert(t.to_multiset() == front.to_multiset().insert(t.last()));
        assert(r.to_multiset() == mid.to_multiset().insert(t.last()));
        assert(r.to_multiset() =~= t.to_multiset().insert(x));
        assert forall|k: int| 0 <= k < r.len() implies (#[trigger] r[k]) == x || t.contains(
            r[k],
        ) by {
            if k == mid.len() {
                assert(t[t.len() - 1] == r[k]);
            } else if mid[k] != x {
                let i = choose|i: int| 0 <= i < front.len() && front[i] == mid[k];
                assert(t[i] == r[k]);
            }
        }
    }
}

/// Sorting yields the same values, in ascending order.
pub proof fn sorted_is_ordered_permutation(s: Seq<Double>)
    ensures
        ascending(sorted(s)),
        sorted(s).to_multiset() == s.to_multiset(),
        sorted(s).len() == s.len(),
    decreases s.len(),
{
    broadcast use vstd::seq_lib::group_to_multiset_ensures;

    if s.len() == 0 {
        assert(sorted(s) == s);
    } else {
        sorted_is_ordered_permutation(s.drop_last());
        lemma_inserted(sorted(s.drop_last()), s.last());
        assert(s.drop_last().push(s.last()) == s);
    }
}

/// The reported speed is one of the measured ones. In ascending order it stands
/// at nine tenths of their number: nothing before it exceeds it, and nothing
/// behind it falls below it.
pub proof fn p90_is_the_ninth_tenth(speeds: Seq<Double>)
    requires
        speeds.len() > 0,
    ensures
        p90_index_spec(speeds.len()) < speeds.len(),
        speeds.contains(p90_of(speeds)),
        forall|i: int|
            0 <= i <= p90_index_spec(speeds.len()) ==> (#[trigger] sorted(speeds)[i]).value()
                <= p90_of(speeds).value(),
        forall|i: int|
            p90_index_spec(speeds.len()) <= i < speeds.len() ==> (#[trigger] sorted(
                speeds,
            )[i]).value() >= p90_of(speeds).value(),
{
    broadcast use vstd::seq_lib::group_to_multiset_ensures;

    sorted_is_ordered_permutation(speeds);
    let t = sorted(speeds);
    let k = p90_index_spec(speeds.len()) as int;
    assert(t.contains(t[k]));
    assert(t.to_multiset().count(t[k]) > 0);
    assert(speeds.to_multiset().count(t[k]) > 0);
}

/// The numbers that the values stand for.
spec fn numbers(s: Seq<Double>) -> Seq<int> {
    s.map_values(|d: Double| d.value())
}

/// Two lists of the same values hold the same numbers.
proof fn lemma_numbers(s: Seq<Double>, t: Seq<Double>)
    requires
        s.to_multiset() == t.to_multiset(),
    ensures
        numbers(s).to_multiset() == numbers(t).to_multiset(),
    decreases s.len(),
{
    broadcast use vstd::seq_lib::group_to_multiset_ensures;

    assert(s.to_multiset().len() == s.len() && t.to_multiset().len() == t.len());
    if s.len() == 0 {
        assert(numbers(s) == numbers(t));
    } else {
        let n = s.len() - 1;
        let x = s[n];
        assert(s.contains(x));
        assert(s.to_multiset().count(x) > 0);
        assert(t.to_multiset().count(x) > 0);
        let j = choose|j: int| 0 <= j < t.len() && t[j] == x;
        assert(s.remove(n).to_multiset() == t.remove(j).to_multiset());
        lemma_numbers(s.remove(n), t.remove(j));
        assert(numbers(s).remove(n) == numbers(s.remove(n)));
        assert(numbers(t).remove(j) == numbers(t.remove(j)));
        assert(numbers(s)[n] == x.value() && numbers(t)[j] == x.value());
        lemma_restore(numbers(s), n);
        lemma_restore(numbers(t), j);
    }
}

/// A list holds what is left without one element, and that element.
proof fn lemma_restore(s: Seq<int>, i: int)
    requires
        0 <= i < s.len(),
    ensures
        s.to_multiset() == s.remove(i).to_multiset().insert(s[i]),
{
    vstd::seq_lib::to_multiset_insert(s.remove(i), i, s[i]);
    assert(s.remove(i).insert(i, s[i]) == s);
}

/// Two ascending lists of the same numbers are the same.
proof fn lemma_ascending_unique(s: Seq<int>, t: Seq<int>)
    requires
        s.to_multiset() == t.to_multiset(),
        forall|i: int, j: int| 0 <= i <= j < s.len() ==> s[i] <= s[j],
        forall|i: int, j: int| 0 <= i <= j < t.len() ==> t[i] <= t[j],
    ensures
        s == t,
    decreases s.len(),
{
    broadcast use vstd::seq_lib::group_to_multiset_ensures;

    assert(s.to_multiset().len() == s.len() && t.to_multiset().len() == t.len());
    if s.len() > 0 {
        let n = s.len() - 1;
        assert(s.contains(s[n]) && t.contains(t[n]));
        assert(s.to_multiset().count(s[n]) > 0 && t.to_multiset().count(t[n]) > 0);
        assert(t.to_multiset().count(s[n]) > 0 && s.to_multiset().count(t[n]) > 0);
        assert(t.contains(s[n]) && s.contains(t[n]));
        assert(s[n] == t[n]);
        assert(s.remove(n).to_multiset() == t.remove(n).to_multiset());
        lemma_ascending_unique(s.remove(n), t.remove(n));
        assert(s.remove(n).insert(n, s[n]) == s);
        assert(t.remove(n).insert(n, t[n]) == t);
    }
}

/// The reported speed does not depend on the order of the measured ones.
pub proof fn p90_ignores_order(a: Seq<Double>, b: Seq<Double>)
    requires
        a.to_multiset() == b.to_multiset(),
    ensures
        p90_of(a).value() == p90_of(b).value(),
{
    broadcast use vstd::seq_lib::group_to_multiset_ensures;

    assert(a.to_multiset().len() == a.len() && b.to_multiset().len() == b.len());
    if a.len() > 0 {
        sorted_is_ordered_permutation(a);
        sorted_is_ordered_permutation(b);
        lemma_numbers(sorted(a), sorted(b));
        let s = numbers(sorted(a));
        let t = numbers(sorted(b));
        assert forall|i: int, j: int| 0 <= i <= j < s.len() implies s[i] <= s[j] by {
            assert(sorted(a)[i].value() <= sorted(a)[j].value());
        }
        assert forall|i: int, j: int| 0 <= i <= j < t.len() implies t[i] <= t[j] by {
            assert(sorted(b)[i].value() <= sorted(b)[j].value());
        }
        lemma_ascending_unique(s, t);
        let k = p90_index_spec(a.len()) as int;
        assert(s[k] == p90_of(a).value() && t[k] == p90_of(b).value());
    }
}

/// The significand of the double nearest to nine tenths, whose value is this
/// number divided by 2^53.
pub open spec fn nine_tenths_significand() -> nat {
    8106479329266893
}

/// The index is also what the double-precision product of the length and nine
/// tenths truncates to, for lengths up to 2^49: the exact product with the
/// double nearest to nine tenths lies at or above the index and more than 1/32
/// below the next whole number, while rounding a product below 2^49 moves it by
/// at most 1/32 and never across a whole number.
pub proof fn p90_index_is_truncated_product(len: nat)
    requires
        len <= 0x2_0000_0000_0000,
    ensures
        p90_index_spec(len) * 0x20_0000_0000_0000 <= len * nine_tenths_significand(),
        len * nine_tenths_significand() + 0x1_0000_0000_0000 < (p90_index_spec(len) + 1)
            * 0x20_0000_0000_0000,
{
}

/// The index of the speed to report among `len` ordered ones.
pub fn p90_index(len: usize) -> (i: usize)
    ensures
        i == p90_index_spec(len as nat),
        len > 0 ==> i < len,
{
    len / 10 * 9 + len % 10 * 9 / 10
}

/// Puts speeds in ascending order.
pub fn sort(speeds: &Vec<Double>) -> (ordered: Vec<Double>)
    requires
        sortable(speeds@),
    ensures
        ordered@ == sorted(speeds@),
{
    let mut ordered: Vec<Double> = Vec::new();
    for i in 0..speeds.len()
        invariant
            sortable(speeds@),
            ordered@ == sorted(speeds@.take(i as int)),
            ordered@.len() == i,
            ascending(ordered@),
            speeds@.len() >= 2 ==> forall|k: int|
                0 <= k < ordered@.len() ==> !(#[trigger] ordered@[k]).is_nan_spec(),
    {
        let x = speeds[i];
        assert(speeds@.take(i + 1).drop_last() == speeds@.take(i as int));
        let ghost before = ordered@;
        let mut at: usize = i;
        while at > 0 && !ordered[at - 1].le(x)
            invariant
                at <= i < speeds@.len(),
                sortable(speeds@),
                x == speeds@[i as int],
                ordered@.len() == i,
                speeds@.len() >= 2 ==> forall|k: int|
                    0 <= k < ordered@.len() ==> !(#[trigger] ordered@[k]).is_nan_spec(),
                forall|k: int| at <= k < i ==> (#[trigger] ordered@[k]).value() > x.value(),
            decreases at,
        {
            at -= 1;
        }
        proof {
            lemma_inserted_at(before, x, at as int);
            lemma_inserted(before, x);
        }
        ordered.insert(at, x);
    }
    assert(speeds@.take(speeds@.len() as int) == speeds@);
    ordered
}

/// The speed to report for a list of measured ones.
pub fn p90(speeds: &Vec<Double>) -> (speed: Double)
    requires
        sortable(speeds@),
    ensures
        speed == p90_of(speeds@),
{
    if speeds.len() == 0 {
        return Double::zero();
    }
    let ordered = sort(speeds);
    let i = p90_index(speeds.len());
    proof {
        sorted_is_ordered_permutation(speeds@);
    }
    ordered[i]
}

/// The index of the speed to report is nine tenths of their number, without what
/// is behind the point.
pub proof fn p90_index_is_nine_tenths(len: nat)
    ensures
        10 * p90_index_spec(len) <= 9 * len < 10 * (p90_index_spec(len) + 1),
{
}

/// Without speeds, zero is reported.
pub proof fn p90_of_nothing_is_zero(speeds: Seq<Double>)
    requires
        speeds.len() == 0,
    ensures
        !p90_of(speeds).is_nan_spec(),
        p90_of(speeds).value() == 0,
{
}

/// Equal numbers keep the order that they had.
pub proof fn sorting_is_stable(s: Seq<Double>, v: int)
    ensures
        sorted(s).filter(|d: Double| d.value() == v) == s.filter(|d: Double| d.value() == v),
    decreases s.len(),
{
    reveal(Seq::filter);
    if s.len() > 0 {
        sorting_is_stable(s.drop_last(), v);
        lemma_insertion_is_stable(sorted(s.drop_last()), s.last(), v);
    } else {
        assert(sorted(s) == s);
    }
}

proof fn lemma_insertion_is_stable(t: Seq<Double>, x: Double, v: int)
    ensures
        inserted(t, x).filter(|d: Double| d.value() == v) == (if x.value() == v {
            t.filter(|d: Double| d.value() == v).push(x)
        } else {
            t.filter(|d: Double| d.value() == v)
        }),
    decreases t.len(),
{
    reveal(Seq::filter);
    let r = inserted(t, x);
    if t.len() == 0 || t.last().value() <= x.value() {
        assert(r.drop_last() == t);
    } else {
        lemma_insertion_is_stable(t.drop_last(), x, v);
        assert(r.drop_last() == inserted(t.drop_last(), x));
    }
}

} // verus!
