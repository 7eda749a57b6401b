//! A stable sort, and what it guarantees.
use vstd::multiset::Multiset;
use vstd::prelude::*;

verus! {

/// `x` placed in front of the first element that does not come before it.
pub open spec fn placed<T>(x: T, list: Seq<T>, before: spec_fn(T, T) -> bool) -> Seq<T>
    decreases list.len(),
{
    if list.len() == 0 || !before(list[0], x) {
        seq![x] + list
    } else {
        seq![list[0]] + placed(x, list.drop_first(), before)
    }
}

/// The list sorted by `before`; elements of which neither comes before the
/// other keep their order.
pub open spec fn sorted_by<T>(list: Seq<T>, before: spec_fn(T, T) -> bool) -> Seq<T>
    decreases list.len(),
{
    if list.len() == 0 {
        Seq::empty()
    } else {
        placed(list[0], sorted_by(list.drop_first(), before), before)
    }
}

/// `before` is a strict order in which being incomparable is transitive.
pub open spec fn strict_weak<T>(before: spec_fn(T, T) -> bool) -> bool {
    &&& forall|a: T, b: T| #[trigger] before(a, b) ==> !before(b, a)
    &&& forall|a: T, b: T, c: T|
        !(#[trigger] before(b, a)) && !(#[trigger] before(c, b)) ==> !before(c, a)
}

/// No element comes before an earlier one.
pub open spec fn ordered<T>(list: Seq<T>, before: spec_fn(T, T) -> bool) -> bool {
    forall|i: int, j: int| 0 <= i < j < list.len() ==> !before(list[j], list[i])
}

proof fn lemma_placed<T>(x: T, list: Seq<T>, before: spec_fn(T, T) -> bool)
    requires
        strict_weak(before),
        ordered(list, before),
    ensures
        ordered(placed(x, list, before), before),
        placed(x, list, before).to_multiset() == list.to_multiset().insert(x),
        placed(x, list, before).len() == list.len() + 1,
    decreases list.len(),
{
    broadcast use vstd::seq_lib::group_to_multiset_ensures;

    let r = placed(x, list, before);
    if list.len() == 0 || !before(list[0], x) {
        assert(r.drop_first() =~= list);
        assert(r =~= seq![x] + list);
        lemma_cons_multiset(x, list);
        assert forall|i: int, j: int| 0 <= i < j < r.len() implies !before(r[j], r[i]) by {
            if i == 0 {
                assert(r[j] == list[j - 1]);
                if j > 1 {
                    assert(!before(list[j - 1], list[0]));
                    assert(!before(list[0], x));
                }
            } else {
                assert(r[i] == list[i - 1] && r[j] == list[j - 1]);
            }
        }
    } else {
        let tail = list.drop_first();
        assert(ordered(tail, before)) by {
            assert forall|i: int, j: int| 0 <= i < j < tail.len() implies !before(tail[j], tail[i]) by {
                assert(tail[i] == list[i + 1] && tail[j] == list[j + 1]);
            }
        }
        lemma_placed(x, tail, before);
        let rest = placed(x, tail, before);
        lemma_cons_multiset(list[0], rest);
        lemma_cons_multiset(list[0], tail);
        assert(seq![list[0]] + tail =~= list);
        assert(r.to_multiset() =~= list.to_multiset().insert(x));
        assert forall|i: int, j: int| 0 <= i < j < r.len() implies !before(r[j], r[i]) by {
            assert(r[j] == rest[j - 1]);
            if i == 0 {
                assert(rest.to_multiset().contains(rest[j - 1]));
                assert(tail.to_multiset().insert(x).contains(rest[j - 1]));
                if rest[j - 1] == x {
                    assert(before(list[0], x));
                } else {
                    assert(tail.to_multiset().contains(rest[j - 1]));
                    assert(tail.contains(rest[j - 1]));
                    let k = choose|k: int| 0 <= k < tail.len() && tail[k] == rest[j - 1];
                    assert(list[k + 1] == rest[j - 1]);
                    assert(!before(list[k + 1], list[0]));
                }
            } else {
                assert(r[i] == rest[i - 1]);
            }
        }
    }
}

proof fn lemma_cons_multiset<T>(x: T, list: Seq<T>)
    ensures
        (seq![x] + list).to_multiset() == list.to_multiset().insert(x),
{
    vstd::seq_lib::lemma_multiset_commutative(seq![x], list);
    broadcast use vstd::seq_lib::group_to_multiset_ensures;

    assert(seq![x] =~= Seq::<T>::empty().push(x));
    assert(seq![x].to_multiset() =~= Multiset::empty().insert(x));
    assert((seq![x] + list).to_multiset() =~= list.to_multiset().insert(x));
}

/// Sorting orders the list and neither loses nor invents an element.
pub proof fn law_sorting<T>(list: Seq<T>, before: spec_fn(T, T) -> bool)
    requires
        strict_weak(before),
    ensures
        ordered(sorted_by(list, before), before),
        sorted_by(list, before).to_multiset() == list.to_multiset(),
        sorted_by(list, before).len() == list.len(),
    decreases list.len(),
{
    if list.len() == 0 {
        assert(list =~= Seq::<T>::empty());
    } else {
        law_sorting(list.drop_first(), before);
        lemma_placed(list[0], sorted_by(list.drop_first(), before), before);
        lemma_cons_multiset(list[0], list.drop_first());
        assert(seq![list[0]] + list.drop_first() =~= list);
    }
}

proof fn lemma_placed_at<T>(x: T, list: Seq<T>, before: spec_fn(T, T) -> bool, p: int)
    requires
        0 <= p <= list.len(),
        forall|k: int| 0 <= k < p ==> before(#[trigger] list[k], x),
        p < list.len() ==> !before(list[p], x),
    ensures
        placed(x, list, before) == list.insert(p, x),
    decreases p,
{
    if p == 0 {
        assert(seq![x] + list =~= list.insert(0, x));
    } else {
        assert(before(list[0], x));
        let tail = list.drop_first();
        assert forall|k: int| 0 <= k < p - 1 implies before(#[trigger] tail[k], x) by {
            assert(tail[k] == list[k + 1]);
        }
        lemma_placed_at(x, tail, before, p - 1);
        assert(seq![list[0]] + tail.insert(p - 1, x) =~= list.insert(p, x));
    }
}

/// Sorts a list. `comes_before` decides what `order` states.
pub(crate) fn stable_sort<T: DeepView, F: Fn(&T, &T) -> bool>(
    list: Vec<T>,
    comes_before: F,
    Ghost(order): Ghost<spec_fn(T::V, T::V) -> bool>,
) -> (r: Vec<T>)
    requires
        forall|a: &T, b: &T| call_requires(comes_before, (a, b)),
        forall|a: &T, b: &T, r: bool|
            call_ensures(comes_before, (a, b), r) ==> r == order(a.deep_view(), b.deep_view()),
    ensures
        r.deep_view() == sorted_by(list.deep_view(), order),
{
    let ghost all = list.deep_view();
    let mut rest = list;
    let mut out: Vec<T> = Vec::new();
    assert(out.deep_view() =~= Seq::<T::V>::empty());
    assert(all.skip(all.len() as int) =~= Seq::<T::V>::empty());
    assert(rest.deep_view() =~= all.take(rest.len() as int));
    while rest.len() > 0
        invariant
            rest.len() <= all.len(),
            rest.deep_view() == all.take(rest.len() as int),
            out.deep_view() == sorted_by(all.skip(rest.len() as int), order),
            forall|a: &T, b: &T| call_requires(comes_before, (a, b)),
            forall|a: &T, b: &T, r: bool|
                call_ensures(comes_before, (a, b), r) ==> r == order(a.deep_view(), b.deep_view()),
        decreases rest.len(),
    {
        let ghost n = rest.len() as int;
        let ghost was = rest.deep_view();
        let x = rest.pop().unwrap();
        let ghost v = x.deep_view();
        assert(v == was[n - 1]);
        assert(rest.deep_view() =~= all.take(n - 1));
        assert(all.skip(n - 1)[0] == v);
        assert(all.skip(n - 1).drop_first() =~= all.skip(n));
        let mut p: usize = 0;
        while p < out.len() && comes_before(&out[p], &x)
            invariant
                p <= out.len(),
                v == x.deep_view(),
                forall|k: int| 0 <= k < p ==> order(#[trigger] out.deep_view()[k], v),
                forall|a: &T, b: &T| call_requires(comes_before, (a, b)),
                forall|a: &T, b: &T, r: bool|
                    call_ensures(comes_before, (a, b), r) ==> r == order(
                        a.deep_view(),
                        b.deep_view(),
                    ),
            ensures
                p <= out.len(),
                forall|k: int| 0 <= k < p ==> order(#[trigger] out.deep_view()[k], v),
                p < out.len() ==> !order(out.deep_view()[p as int], v),
            decreases out.len() - p,
        {
            p += 1;
        }
        let ghost before = out.deep_view();
        proof {
            lemma_placed_at(v, before, order, p as int);
        }
        out.insert(p, x);
        assert(out.deep_view() =~= before.insert(p as int, v));
    }
    assert(all.skip(0) =~= all);
    out
}

} // verus!
