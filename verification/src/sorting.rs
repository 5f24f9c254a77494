//! Sorting by an explicit order, and what makes a sorted sequence unique.

use vstd::prelude::*;

verus! {

/// A strict weak order on `T`: which value has to come first.
pub trait Order<T> {
    /// Whether `a` has to come before `b`.
    spec fn before(a: T, b: T) -> bool;

    /// Nothing comes before itself, and the order chains, also across ties.
    proof fn is_strict(a: T, b: T, c: T)
        ensures
            !Self::before(a, a),
            Self::before(a, b) && Self::before(b, c) ==> Self::before(a, c),
            !Self::before(b, a) && !Self::before(c, b) ==> !Self::before(c, a),
    ;

    /// Whether `a` has to come before `b`.
    fn is_before(a: &T, b: &T) -> (result: bool)
        ensures
            result == Self::before(*a, *b),
    ;
}

/// No value comes after one that it has to precede.
pub open spec fn in_order<T, O: Order<T>>(items: Seq<T>) -> bool {
    forall|i: int, j: int| 0 <= i < j < items.len() ==> !O::before(items[j], items[i])
}

/// The values that tie with one value, in their order.
pub open spec fn ties<T, O: Order<T>>(items: Seq<T>, value: T) -> Seq<T> {
    items.filter(|other: T| !O::before(value, other) && !O::before(other, value))
}

/// The values in order, with ties in the order in which they came.
pub open spec fn sorted<T, O: Order<T>>(items: Seq<T>) -> Seq<T> {
    choose|result: Seq<T>|
        in_order::<T, O>(result) && forall|value: T| #[trigger]
            ties::<T, O>(result, value) == ties::<T, O>(items, value)
}

/// Every value has to precede all that come after it.
pub open spec fn strictly_in_order<T>(items: Seq<T>, before: spec_fn(T, T) -> bool) -> bool {
    forall|i: int, j: int|
        #![trigger items[i], items[j]]
        0 <= i < j < items.len() ==> before(items[i], items[j])
}

/// A strictly ordered sequence is determined by the values that it holds.
pub proof fn strict_order_is_unique<T>(a: Seq<T>, b: Seq<T>, before: spec_fn(T, T) -> bool)
    requires
        forall|x: T| !#[trigger] before(x, x),
        forall|x: T, y: T, z: T| #[trigger]
            before(x, y) && #[trigger] before(y, z) ==> before(x, z),
        strictly_in_order(a, before),
        strictly_in_order(b, before),
        forall|x: T| a.contains(x) <==> b.contains(x),
    ensures
        a == b,
    decreases a.len(),
{
    if a.len() == 0 {
        if b.len() > 0 {
            assert(b.contains(b[0]));
        }
        assert(a =~= b);
    } else {
        assert(a.contains(a.last()));
        assert(b.contains(a.last()));
        let j = choose|j: int| 0 <= j < b.len() && b[j] == a.last();
        assert(b.contains(b.last()));
        assert(a.contains(b.last()));
        let i = choose|i: int| 0 <= i < a.len() && a[i] == b.last();
        if a.last() != b.last() {
            assert(before(b[j], b.last()));
            assert(before(a[i], a.last()));
            assert(before(a.last(), a.last()));
        }
        assert forall|x: T| a.drop_last().contains(x) <==> b.drop_last().contains(x) by {
            if a.drop_last().contains(x) {
                let k = choose|k: int| 0 <= k < a.drop_last().len() && a.drop_last()[k] == x;
                assert(a[k] == x);
                assert(before(a[k], a.last()));
                assert(a.contains(x));
                let l = choose|l: int| 0 <= l < b.len() && b[l] == x;
                assert(b.drop_last()[l] == x);
            }
            if b.drop_last().contains(x) {
                let k = choose|k: int| 0 <= k < b.drop_last().len() && b.drop_last()[k] == x;
                assert(b[k] == x);
                assert(before(b[k], b.last()));
                assert(b.contains(x));
                let l = choose|l: int| 0 <= l < a.len() && a[l] == x;
                assert(a.drop_last()[l] == x);
            }
        }
        strict_order_is_unique(a.drop_last(), b.drop_last(), before);
        assert(a =~= a.drop_last().push(a.last()));
        assert(b =~= b.drop_last().push(b.last()));
    }
}

/// Turns a sequence around.
pub fn reversed<T>(items: Vec<T>) -> (result: Vec<T>)
    ensures
        result@ == items@.reverse(),
{
    let ghost all = items@;
    let mut rest: Vec<T> = items;
    let mut result: Vec<T> = Vec::new();
    while rest.len() > 0
        invariant
            rest@.len() + result@.len() == all.len(),
            rest@ == all.take(rest@.len() as int),
            forall|i: int| 0 <= i < result@.len() ==> result@[i] == all[all.len() - 1 - i],
        decreases rest@.len(),
    {
        if let Some(item) = rest.pop() {
            result.push(item);
        }
    }
    assert(result@ =~= all.reverse());
    result
}

/// Moving the last of one sequence to the front of the output keeps the ties in
/// order.
proof fn moved_tie<T, O: Order<T>>(
    left: Seq<T>,
    right: Seq<T>,
    output: Seq<T>,
    item: T,
    value: T,
    from_left: bool,
)
    requires
        from_left ==> forall|i: int| 0 <= i < right.len() ==> O::before(#[trigger] right[i], item),
    ensures
        from_left ==> ties::<T, O>(left.push(item), value) + ties::<T, O>(right, value) + ties::<
            T,
            O,
        >(output, value) == ties::<T, O>(left, value) + ties::<T, O>(right, value) + ties::<T, O>(
            seq![item] + output,
            value,
        ),
        !from_left ==> ties::<T, O>(left, value) + ties::<T, O>(right.push(item), value) + ties::<
            T,
            O,
        >(output, value) == ties::<T, O>(left, value) + ties::<T, O>(right, value) + ties::<T, O>(
            seq![item] + output,
            value,
        ),
{
    let tie = |other: T| !O::before(value, other) && !O::before(other, value);
    let one = seq![item];
    assert(left.push(item) =~= left + one);
    assert(right.push(item) =~= right + one);
    Seq::filter_distributes_over_add(left, one, tie);
    Seq::filter_distributes_over_add(right, one, tie);
    Seq::filter_distributes_over_add(one, output, tie);
    reveal(Seq::filter);
    if from_left && tie(item) {
        assert forall|i: int| 0 <= i < right.len() implies !tie(#[trigger] right[i]) by {
            O::is_strict(right[i], item, value);
            O::is_strict(right[i], value, item);
            O::is_strict(item, value, right[i]);
            O::is_strict(value, item, right[i]);
        }
        nothing_ties(right, tie);
        assert(one.drop_last() =~= Seq::empty());
        assert(one.filter(tie) =~= one);
        assert(left.filter(tie) + one + right.filter(tie) + output.filter(tie) =~= left.filter(tie)
            + right.filter(tie) + (one + output.filter(tie)));
    } else if from_left {
        nothing_ties(one, tie);
        assert(left.filter(tie) + one.filter(tie) + right.filter(tie) + output.filter(tie)
            =~= left.filter(tie) + right.filter(tie) + (one.filter(tie) + output.filter(tie)));
    } else {
        assert(left.filter(tie) + (right.filter(tie) + one.filter(tie)) + output.filter(tie)
            =~= left.filter(tie) + right.filter(tie) + (one.filter(tie) + output.filter(tie)));
    }
}

proof fn nothing_ties<T>(items: Seq<T>, tie: spec_fn(T) -> bool)
    requires
        forall|i: int| 0 <= i < items.len() ==> !tie(#[trigger] items[i]),
    ensures
        items.filter(tie) == Seq::<T>::empty(),
    decreases items.len(),
{
    reveal(Seq::filter);
    if items.len() > 0 {
        let front = items.drop_last();
        assert forall|i: int| 0 <= i < front.len() implies !tie(#[trigger] front[i]) by {
            assert(front[i] == items[i]);
        }
        nothing_ties(front, tie);
        assert(!tie(items[items.len() - 1]));
    }
}

/// Joins two ordered sequences into one; the first one's values come first among ties.
fn merge<T, O: Order<T>>(left: Vec<T>, right: Vec<T>) -> (result: Vec<T>)
    requires
        in_order::<T, O>(left@),
        in_order::<T, O>(right@),
    ensures
        in_order::<T, O>(result@),
        result@.to_multiset() == left@.to_multiset().add(right@.to_multiset()),
        forall|value: T| #[trigger]
            ties::<T, O>(result@, value) == ties::<T, O>(left@, value) + ties::<T, O>(
                right@,
                value,
            ),
{
    let ghost lefts = left@;
    let ghost rights = right@;
    let mut left: Vec<T> = left;
    let mut right: Vec<T> = right;
    let mut backwards: Vec<T> = Vec::new();
    proof {
        broadcast use vstd::seq_lib::group_to_multiset_ensures;

        assert(backwards@.to_multiset().len() == 0);
        assert(backwards@.to_multiset().add(left@.to_multiset()).add(right@.to_multiset())
            =~= lefts.to_multiset().add(rights.to_multiset()));
        assert(backwards@.reverse() =~= Seq::empty());
        assert forall|value: T| #[trigger]
            ties::<T, O>(lefts, value) + ties::<T, O>(rights, value) == ties::<T, O>(left@, value)
            + ties::<T, O>(right@, value) + ties::<T, O>(backwards@.reverse(), value) by {
            reveal(Seq::filter);
            assert(ties::<T, O>(backwards@.reverse(), value) =~= Seq::empty());
        }
    }
    while left.len() > 0 || right.len() > 0
        invariant
            in_order::<T, O>(left@),
            in_order::<T, O>(right@),
            forall|i: int, j: int|
                0 <= i < j < backwards@.len() ==> !O::before(backwards@[i], backwards@[j]),
            forall|i: int, j: int|
                0 <= i < left@.len() && 0 <= j < backwards@.len() ==> !O::before(
                    #[trigger] backwards@[j],
                    #[trigger] left@[i],
                ),
            forall|i: int, j: int|
                0 <= i < right@.len() && 0 <= j < backwards@.len() ==> !O::before(
                    #[trigger] backwards@[j],
                    #[trigger] right@[i],
                ),
            backwards@.to_multiset().add(left@.to_multiset()).add(right@.to_multiset())
                == lefts.to_multiset().add(rights.to_multiset()),
            forall|value: T| #[trigger]
                ties::<T, O>(lefts, value) + ties::<T, O>(rights, value) == ties::<T, O>(
                    left@,
                    value,
                ) + ties::<T, O>(right@, value) + ties::<T, O>(backwards@.reverse(), value),
        decreases left@.len() + right@.len(),
    {
        let take_left: bool = if right.len() == 0 {
            true
        } else if left.len() == 0 {
            false
        } else {
            O::is_before(&right[right.len() - 1], &left[left.len() - 1])
        };
        let ghost before_left = left@;
        let ghost before_right = right@;
        let ghost before_out = backwards@;
        proof {
            if take_left {
                let item = left@.last();
                assert forall|i: int| 0 <= i < right@.len() implies O::before(
                    #[trigger] right@[i],
                    item,
                ) by {
                    let top = right@.last();
                    assert(O::before(top, item));
                    O::is_strict(item, right@[i], top);
                    O::is_strict(right@[i], top, item);
                    O::is_strict(top, right@[i], item);
                    O::is_strict(top, top, item);
                    O::is_strict(item, top, right@[i]);
                }
            }
        }
        if take_left {
            if let Some(item) = left.pop() {
                proof {
                    assert(before_left =~= left@.push(item));
                    assert forall|i: int| 0 <= i < right@.len() implies !O::before(
                        item,
                        #[trigger] right@[i],
                    ) by {
                        let top = right@.last();
                        O::is_strict(top, item, item);
                        O::is_strict(item, top, item);
                        O::is_strict(right@[i], top, item);
                        O::is_strict(top, top, top);
                    }
                }
                backwards.push(item);
            }
        } else {
            if let Some(item) = right.pop() {
                proof {
                    assert(before_right =~= right@.push(item));
                    assert forall|i: int| 0 <= i < left@.len() implies !O::before(
                        item,
                        #[trigger] left@[i],
                    ) by {
                        let top = left@.last();
                        O::is_strict(left@[i], top, item);
                        O::is_strict(top, top, top);
                    }
                }
                backwards.push(item);
            }
        }
        proof {
            broadcast use vstd::seq_lib::group_to_multiset_ensures;

            assert(backwards@.to_multiset().add(left@.to_multiset()).add(right@.to_multiset())
                =~= before_out.to_multiset().add(before_left.to_multiset()).add(
                before_right.to_multiset(),
            ));
            let item = backwards@.last();
            assert(backwards@.reverse() =~= seq![item] + before_out.reverse());
            assert forall|value: T| #[trigger]
                ties::<T, O>(lefts, value) + ties::<T, O>(rights, value) == ties::<T, O>(
                left@,
                value,
            ) + ties::<T, O>(right@, value) + ties::<T, O>(backwards@.reverse(), value) by {
                moved_tie::<T, O>(left@, right@, before_out.reverse(), item, value, take_left);
            }
        }
    }
    proof {
        broadcast use vstd::seq_lib::group_to_multiset_ensures;

        backwards@.lemma_reverse_to_multiset();
        assert(left@ =~= Seq::empty());
        assert(right@ =~= Seq::empty());
        assert(left@.to_multiset().len() == 0);
        assert(right@.to_multiset().len() == 0);
        assert(backwards@.to_multiset().add(left@.to_multiset()).add(right@.to_multiset())
            =~= backwards@.to_multiset());
        assert forall|value: T| #[trigger]
            ties::<T, O>(backwards@.reverse(), value) == ties::<T, O>(lefts, value) + ties::<T, O>(
            rights,
            value,
        ) by {
            reveal(Seq::filter);
            assert(ties::<T, O>(left@, value) =~= Seq::empty());
            assert(ties::<T, O>(right@, value) =~= Seq::empty());
            assert(ties::<T, O>(left@, value) + ties::<T, O>(right@, value) + ties::<T, O>(
                backwards@.reverse(),
                value,
            ) =~= ties::<T, O>(backwards@.reverse(), value));
        }
    }
    reversed(backwards)
}

/// Sorts by an order; no value is added or lost, and ties keep their order.
pub fn sort<T, O: Order<T>>(items: Vec<T>) -> (result: Vec<T>)
    ensures
        in_order::<T, O>(result@),
        result@.to_multiset() == items@.to_multiset(),
        result@.len() == items@.len(),
        forall|item: T| result@.contains(item) <==> items@.contains(item),
        forall|value: T| #[trigger] ties::<T, O>(result@, value) == ties::<T, O>(items@, value),
        result@ == sorted::<T, O>(items@),
    decreases items@.len(),
{
    if items.len() <= 1 {
        proof {
            assert(in_order::<T, O>(items@));
            stable_order_is_unique::<T, O>(items@, sorted::<T, O>(items@));
        }
        return items;
    }
    let ghost all = items@;
    let mut left: Vec<T> = items;
    let middle: usize = left.len() / 2;
    let right: Vec<T> = left.split_off(middle);
    proof {
        assert(all =~= left@ + right@);
        vstd::seq_lib::lemma_multiset_commutative(left@, right@);
    }
    let result = merge::<T, O>(sort::<T, O>(left), sort::<T, O>(right));
    proof {
        assert forall|value: T| #[trigger]
            ties::<T, O>(result@, value) == ties::<T, O>(all, value) by {
            Seq::filter_distributes_over_add(
                left@,
                right@,
                |other: T| !O::before(value, other) && !O::before(other, value),
            );
        }
        broadcast use vstd::seq_lib::group_to_multiset_ensures;

        assert(result@.to_multiset().len() == all.to_multiset().len());
        assert forall|item: T| result@.contains(item) <==> all.contains(item) by {
            assert(result@.to_multiset().count(item) == all.to_multiset().count(item));
        }
        stable_order_is_unique::<T, O>(result@, sorted::<T, O>(all));
    }
    result
}

/// A sequence in order has a place for one more value that comes last among its
/// ties.
proof fn place_for<T, O: Order<T>>(items: Seq<T>, value: T) -> (result: Seq<T>)
    requires
        in_order::<T, O>(items),
    ensures
        in_order::<T, O>(result),
        result.to_multiset() == items.push(value).to_multiset(),
        forall|other: T| #[trigger]
            ties::<T, O>(result, other) == ties::<T, O>(items.push(value), other),
    decreases items.len(),
{
    broadcast use vstd::seq_lib::group_to_multiset_ensures;

    if items.len() == 0 || !O::before(value, items.last()) {
        let result = items.push(value);
        assert forall|i: int, j: int| 0 <= i < j < result.len() implies !O::before(
            result[j],
            result[i],
        ) by {
            if j == items.len() {
                O::is_strict(items[i], items.last(), value);
                O::is_strict(items[i], items[i], items[i]);
            }
        }
        result
    } else {
        let front = items.drop_last();
        let last = items.last();
        let shorter = place_for::<T, O>(front, value);
        let result = shorter.push(last);
        assert forall|i: int, j: int| 0 <= i < j < result.len() implies !O::before(
            result[j],
            result[i],
        ) by {
            if j == shorter.len() {
                assert(shorter.to_multiset().count(shorter[i]) > 0);
                assert(front.push(value).contains(shorter[i]));
                let k = choose|k: int|
                    0 <= k < front.push(value).len() && front.push(value)[k] == shorter[i];
                if k < front.len() {
                    assert(items[k] == shorter[i]);
                } else {
                    O::is_strict(value, last, value);
                }
            }
        }
        assert(front.push(last) =~= items);
        assert(result.to_multiset() =~= items.push(value).to_multiset());
        assert forall|other: T| #[trigger]
            ties::<T, O>(result, other) == ties::<T, O>(items.push(value), other) by {
            reveal(Seq::filter);
            let tie = |item: T| !O::before(other, item) && !O::before(item, other);
            assert(ties::<T, O>(shorter, other) == ties::<T, O>(front.push(value), other));
            assert(result.drop_last() =~= shorter);
            assert(items.push(value).drop_last() =~= items);
            assert(front.push(value).drop_last() =~= front);
            O::is_strict(last, other, value);
            let both = ties::<T, O>(front, other);
            assert(ties::<T, O>(items, other) == if tie(last) {
                both.push(last)
            } else {
                both
            });
            assert(ties::<T, O>(front.push(value), other) == if tie(value) {
                both.push(value)
            } else {
                both
            });
            assert(!(tie(value) && tie(last)));
        }
        result
    }
}

/// Every sequence can be sorted: the result is in order, holds the same values
/// equally often, and keeps ties as they came.
pub proof fn sorted_is_in_order<T, O: Order<T>>(items: Seq<T>)
    ensures
        in_order::<T, O>(sorted::<T, O>(items)),
        sorted::<T, O>(items).to_multiset() == items.to_multiset(),
        sorted::<T, O>(items).len() == items.len(),
        forall|value: T| #[trigger]
            sorted::<T, O>(items).contains(value) <==> items.contains(value),
        forall|value: T| #[trigger]
            ties::<T, O>(sorted::<T, O>(items), value) == ties::<T, O>(items, value),
    decreases items.len(),
{
    broadcast use vstd::seq_lib::group_to_multiset_ensures;

    let goal = sorted::<T, O>(items);
    if items.len() == 0 {
        assert(in_order::<T, O>(items));
        stable_order_is_unique::<T, O>(items, goal);
    } else {
        let front = items.drop_last();
        let last = items.last();
        sorted_is_in_order::<T, O>(front);
        let shorter = sorted::<T, O>(front);
        let result = place_for::<T, O>(shorter, last);
        assert(front.push(last) =~= items);
        assert(shorter.push(last).to_multiset() =~= items.to_multiset());
        assert forall|value: T| #[trigger]
            ties::<T, O>(result, value) == ties::<T, O>(items, value) by {
            reveal(Seq::filter);
            assert(ties::<T, O>(shorter, value) == ties::<T, O>(front, value));
            assert(ties::<T, O>(result, value) == ties::<T, O>(shorter.push(last), value));
            assert(shorter.push(last).drop_last() =~= shorter);
        }
        stable_order_is_unique::<T, O>(result, goal);
    }
    assert(goal.to_multiset().len() == items.to_multiset().len());
    assert forall|value: T| #[trigger] goal.contains(value) <==> items.contains(value) by {
        assert(goal.to_multiset().count(value) == items.to_multiset().count(value));
    }
}

/// The order of the result and of its ties determines it: two ordered sequences
/// with the same ties are the same.
pub proof fn stable_order_is_unique<T, O: Order<T>>(a: Seq<T>, b: Seq<T>)
    requires
        in_order::<T, O>(a),
        in_order::<T, O>(b),
        forall|value: T| #[trigger] ties::<T, O>(a, value) == ties::<T, O>(b, value),
    ensures
        a == b,
    decreases a.len(),
{
    reveal(Seq::filter);
    if a.len() == 0 {
        if b.len() > 0 {
            let y = b.last();
            O::is_strict(y, y, y);
            assert(ties::<T, O>(b, y) == ties::<T, O>(a, y));
            assert(ties::<T, O>(b, y).last() == y);
            assert(ties::<T, O>(b, y).len() > 0);
        }
        assert(a =~= b);
    } else {
        let x = a.last();
        O::is_strict(x, x, x);
        assert(ties::<T, O>(a, x) == ties::<T, O>(b, x));
        assert(ties::<T, O>(a, x).last() == x);
        assert(ties::<T, O>(b, x).contains(x));
        b.lemma_filter_contains_rev(
            |other: T| !O::before(x, other) && !O::before(other, x),
            x,
        );
        let i = choose|i: int| 0 <= i < b.len() && b[i] == x;
        let y = b.last();
        O::is_strict(y, y, y);
        assert(!O::before(y, x));
        assert(ties::<T, O>(b, y) == ties::<T, O>(a, y));
        assert(ties::<T, O>(b, y).last() == y);
        assert(ties::<T, O>(a, y).contains(y));
        a.lemma_filter_contains_rev(
            |other: T| !O::before(y, other) && !O::before(other, y),
            y,
        );
        let j = choose|j: int| 0 <= j < a.len() && a[j] == y;
        assert(!O::before(x, y));
        assert(ties::<T, O>(b, x).last() == y);
        assert(x == y);
        let front = a.drop_last();
        let other_front = b.drop_last();
        assert forall|value: T| #[trigger]
            ties::<T, O>(front, value) == ties::<T, O>(other_front, value) by {
            let tie = |other: T| !O::before(value, other) && !O::before(other, value);
            assert(ties::<T, O>(a, value) == ties::<T, O>(b, value));
            if tie(x) {
                assert(ties::<T, O>(a, value).drop_last() =~= ties::<T, O>(front, value));
                assert(ties::<T, O>(b, value).drop_last() =~= ties::<T, O>(other_front, value));
            }
        }
        stable_order_is_unique::<T, O>(front, other_front);
        assert(a =~= front.push(x));
        assert(b =~= other_front.push(x));
    }
}

} // verus!
