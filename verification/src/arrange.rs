//! Putting things in order.
use vstd::prelude::*;

verus! {

/// Things of which one can come before another.
pub trait Ranked: Sized {
    /// Whether one comes before another.
    spec fn before(self, other: Self) -> bool;

    /// Not both of two come before the other; and what does not come before a
    /// second, which does not come before a third, does not come before the
    /// third.
    proof fn before_orders(a: Self, b: Self, c: Self)
        ensures
            !(a.before(b) && b.before(a)),
            !a.before(b) && !b.before(c) ==> !a.before(c),
    ;

    /// Whether one comes before another.
    fn comes_before(&self, other: &Self) -> (r: bool)
        ensures
            r == self.before(*other),
    ;
}

/// An item put into a list, behind those that come before it.
pub open spec fn placed<T: Ranked>(list: Seq<T>, item: T) -> Seq<T>
    decreases list.len(),
{
    if list.len() == 0 {
        seq![item]
    } else if list[0].before(item) {
        seq![list[0]] + placed(list.skip(1), item)
    } else {
        seq![item] + list
    }
}

/// Items in order; those that tie stay as they came.
pub open spec fn in_order<T: Ranked>(list: Seq<T>) -> Seq<T>
    decreases list.len(),
{
    if list.len() == 0 {
        Seq::empty()
    } else {
        placed(in_order(list.skip(1)), list[0])
    }
}

/// Whether no item comes after one that it comes before.
pub open spec fn is_ordered<T: Ranked>(list: Seq<T>) -> bool {
    forall|i: int, j: int|
        0 <= i < j < list.len() ==> !(#[trigger] list[j]).before(#[trigger] list[i])
}

proof fn lemma_placed<T: Ranked>(list: Seq<T>, item: T)
    requires
        is_ordered(list),
    ensures
        is_ordered(placed(list, item)),
        placed(list, item).to_multiset() == list.to_multiset().insert(item),
        placed(list, item).len() == list.len() + 1,
        forall|i: int|
            0 <= i < placed(list, item).len() ==> (#[trigger] placed(list, item)[i]) == item
                || list.contains(placed(list, item)[i]),
    decreases list.len(),
{
    broadcast use vstd::seq_lib::group_to_multiset_ensures;

    let out = placed(list, item);
    if list.len() == 0 {
        assert(out =~= list.push(item));
    } else if list[0].before(item) {
        let rest = list.skip(1);
        assert(is_ordered(rest)) by {
            assert forall|i: int, j: int| 0 <= i < j < rest.len() implies !(
            #[trigger] rest[j]).before(#[trigger] rest[i]) by {
                assert(rest[i] == list[i + 1] && rest[j] == list[j + 1]);
            }
        }
        lemma_placed(rest, item);
        let tail = placed(rest, item);
        assert(out == seq![list[0]] + tail);
        assert forall|i: int, j: int| 0 <= i < j < out.len() implies !(
        #[trigger] out[j]).before(#[trigger] out[i]) by {
            assert(out[j] == tail[j - 1]);
            if i == 0 {
                T::before_orders(list[0], item, item);
                if tail[j - 1] != item {
                    let k = choose|k: int| 0 <= k < rest.len() && rest[k] == tail[j - 1];
                    assert(rest[k] == list[k + 1]);
                    assert(!list[k + 1].before(list[0]));
                }
            } else {
                assert(out[i] == tail[i - 1]);
            }
        }
        assert forall|i: int| 0 <= i < out.len() implies (#[trigger] out[i]) == item
            || list.contains(out[i]) by {
            if i == 0 {
                assert(list[0] == out[0]);
            } else {
                assert(out[i] == tail[i - 1]);
                if tail[i - 1] != item {
                    let k = choose|k: int| 0 <= k < rest.len() && rest[k] == tail[i - 1];
                    assert(list[k + 1] == out[i]);
                }
            }
        }
        lemma_multiset_join(seq![list[0]], tail);
        lemma_multiset_join(seq![list[0]], rest);
        assert(seq![list[0]] + rest =~= list);
        assert(out.to_multiset() =~= list.to_multiset().insert(item));
    } else {
        lemma_multiset_join(seq![item], list);
        assert(seq![item] =~= Seq::empty().push(item));
        assert(out.to_multiset() =~= list.to_multiset().insert(item));
        assert forall|i: int, j: int| 0 <= i < j < out.len() implies !(
        #[trigger] out[j]).before(#[trigger] out[i]) by {
            assert(out[j] == list[j - 1]);
            if i == 0 {
                if j > 1 {
                    assert(!list[j - 1].before(list[0]));
                    T::before_orders(list[j - 1], list[0], item);
                }
            } else {
                assert(out[i] == list[i - 1]);
            }
        }
        assert forall|i: int| 0 <= i < out.len() implies (#[trigger] out[i]) == item
            || list.contains(out[i]) by {
            if i > 0 {
                assert(out[i] == list[i - 1]);
            }
        }
    }
}

proof fn lemma_multiset_join<T: Ranked>(a: Seq<T>, b: Seq<T>)
    ensures
        (a + b).to_multiset() == a.to_multiset().add(b.to_multiset()),
{
    vstd::seq_lib::lemma_multiset_commutative(a, b);
}

/// Putting items in order keeps every one of them, as often as it was there,
/// and leaves none behind one that comes after it.
pub proof fn law_order_keeps_all<T: Ranked>(list: Seq<T>)
    ensures
        is_ordered(in_order(list)),
        in_order(list).to_multiset() == list.to_multiset(),
        in_order(list).len() == list.len(),
    decreases list.len(),
{
    broadcast use vstd::seq_lib::group_to_multiset_ensures;

    if list.len() > 0 {
        let rest = list.skip(1);
        law_order_keeps_all(rest);
        lemma_placed(in_order(rest), list[0]);
        lemma_multiset_join(seq![list[0]], rest);
        assert(seq![list[0]] =~= Seq::empty().push(list[0]));
        assert(seq![list[0]] + rest =~= list);
        assert(in_order(list).to_multiset() =~= list.to_multiset());
    } else {
        assert(in_order(list) =~= list);
    }
}

/// Items that are in order stay as they are.
pub proof fn law_order_is_kept<T: Ranked>(list: Seq<T>)
    requires
        is_ordered(list),
    ensures
        in_order(list) == list,
    decreases list.len(),
{
    if list.len() == 0 {
        assert(in_order(list) =~= list);
    } else {
        let rest = list.skip(1);
        assert forall|i: int, j: int| 0 <= i < j < rest.len() implies !(#[trigger] rest[j]).before(
            #[trigger] rest[i],
        ) by {
            assert(rest[i] == list[i + 1] && rest[j] == list[j + 1]);
        }
        law_order_is_kept(rest);
        if rest.len() > 0 {
            assert(!list[1].before(list[0]));
        }
        assert(seq![list[0]] + rest =~= list);
    }
}

fn place<T: Ranked>(list: &mut Vec<T>, item: T)
    ensures
        final(list)@ == placed(old(list)@, item),
{
    let ghost before = list@;
    let mut at: usize = 0;
    assert(before.take(0) + placed(before.skip(0), item) =~= placed(before, item)) by {
        assert(before.skip(0) =~= before);
    }
    while at < list.len() && list[at].comes_before(&item)
        invariant
            at <= list.len(),
            list@ == before,
            placed(before, item) == before.take(at as int) + placed(before.skip(at as int), item),
        decreases list.len() - at,
    {
        proof {
            let rest = before.skip(at as int);
            assert(rest[0] == before[at as int]);
            assert(rest.skip(1) =~= before.skip(at + 1));
            assert(before.take(at as int) + (seq![before[at as int]] + placed(
                before.skip(at + 1),
                item,
            )) =~= before.take(at + 1) + placed(before.skip(at + 1), item));
        }
        at += 1;
    }
    proof {
        let rest = before.skip(at as int);
        if at < before.len() {
            assert(rest[0] == before[at as int]);
            assert(placed(rest, item) == seq![item] + rest);
        } else {
            assert(placed(rest, item) =~= seq![item] + rest);
        }
        assert(before.insert(at as int, item) =~= before.take(at as int) + (seq![item] + rest));
    }
    list.insert(at, item);
}

/// Items in order; those that tie stay as they came.
pub fn arrange<T: Ranked>(list: Vec<T>) -> (out: Vec<T>)
    ensures
        out@ == in_order(list@),
{
    let mut left = list;
    let mut out: Vec<T> = Vec::new();
    let ghost all = left@;
    assert(all.skip(all.len() as int) =~= Seq::empty());
    assert(all.take(all.len() as int) =~= all);
    while left.len() > 0
        invariant
            left.len() <= all.len(),
            left@ == all.take(left.len() as int),
            out@ == in_order(all.skip(left.len() as int)),
        decreases left.len(),
    {
        let ghost n = left.len() as int;
        let next = left.pop();
        proof {
            assert(all.skip(n - 1)[0] == all[n - 1]);
            assert(all.skip(n - 1).skip(1) =~= all.skip(n));
            assert(left@ =~= all.take(n - 1));
        }
        if let Some(item) = next {
            place(&mut out, item);
        }
    }
    assert(all.skip(0) =~= all);
    out
}

/// A list turned round.
pub fn reversed<T>(list: Vec<T>) -> (out: Vec<T>)
    ensures
        out@ == list@.reverse(),
{
    let mut left = list;
    let mut out: Vec<T> = Vec::new();
    let ghost all = left@;
    while left.len() > 0
        invariant
            left.len() <= all.len(),
            left@ == all.take(left.len() as int),
            out@ == all.skip(left.len() as int).reverse(),
        decreases left.len(),
    {
        let ghost n = left.len() as int;
        let next = left.pop();
        proof {
            assert(left@ =~= all.take(n - 1));
            assert(all.skip(n - 1).reverse() =~= all.skip(n).reverse().push(all[n - 1]));
        }
        if let Some(item) = next {
            out.push(item);
        }
    }
    assert(all.skip(0) =~= all);
    out
}

} // verus!
