//! Selections: the items of a sequence that a sequence of marks keeps, in
//! their order.

use vstd::prelude::*;

verus! {

/// The items of `items` whose mark in `keep` is set, in order. Only the
/// marks that stand beside an item count.
pub open spec fn select<T>(items: Seq<T>, keep: Seq<bool>) -> Seq<T>
    decreases items.len(),
{
    if items.len() == 0 || keep.len() < items.len() {
        Seq::empty()
    } else {
        let rest = select(items.drop_last(), keep.take(items.len() - 1));
        if keep[items.len() - 1] {
            rest.push(items.last())
        } else {
            rest
        }
    }
}

/// The marks negated.
pub open spec fn opposite(keep: Seq<bool>) -> Seq<bool> {
    Seq::new(keep.len(), |i: int| !keep[i])
}

/// A selection is no longer than what it is taken from.
pub proof fn select_len<T>(items: Seq<T>, keep: Seq<bool>)
    ensures
        select(items, keep).len() <= items.len(),
    decreases items.len(),
{
    if items.len() > 0 && keep.len() >= items.len() {
        select_len(items.drop_last(), keep.take(items.len() - 1));
    }
}

/// Taking one more item and its mark extends the selection by that item, or
/// leaves it as it is.
pub proof fn select_step<T>(items: Seq<T>, keep: Seq<bool>, n: int)
    requires
        0 <= n < items.len(),
        items.len() <= keep.len(),
    ensures
        select(items.take(n + 1), keep.take(n + 1)) == if keep[n] {
            select(items.take(n), keep.take(n)).push(items[n])
        } else {
            select(items.take(n), keep.take(n))
        },
{
    let head = items.take(n + 1);
    assert(head.drop_last() =~= items.take(n));
    assert(keep.take(n + 1).take(n) =~= keep.take(n));
    assert(head.last() == items[n]);
}

/// Putting an item and its mark at the end extends the selection by that
/// item, or leaves it as it is.
pub proof fn select_push<T>(items: Seq<T>, keep: Seq<bool>, item: T, mark: bool)
    requires
        keep.len() == items.len(),
    ensures
        select(items.push(item), keep.push(mark)) == if mark {
            select(items, keep).push(item)
        } else {
            select(items, keep)
        },
{
    assert(items.push(item).drop_last() =~= items);
    assert(keep.push(mark).take(items.len() as int) =~= keep);
}

/// Whether `x` is an item of `items` whose mark is set.
pub open spec fn marked<T>(items: Seq<T>, keep: Seq<bool>, x: T) -> bool {
    exists|i: int| 0 <= i < items.len() && keep[i] && #[trigger] items[i] == x
}

/// Every item of a selection is an item whose mark is set, and every item
/// whose mark is set is in the selection.
pub proof fn select_members<T>(items: Seq<T>, keep: Seq<bool>)
    requires
        keep.len() == items.len(),
    ensures
        forall|k: int|
            0 <= k < select(items, keep).len() ==> marked(
                items,
                keep,
                #[trigger] select(items, keep)[k],
            ),
        forall|i: int|
            0 <= i < items.len() && keep[i] ==> select(items, keep).contains(#[trigger] items[i]),
    decreases items.len(),
{
    if items.len() > 0 {
        let n = items.len() - 1;
        let front = items.drop_last();
        let marks = keep.take(n);
        let rest = select(front, marks);
        select_members(front, marks);
        let all = select(items, keep);
        assert forall|k: int| 0 <= k < all.len() implies marked(items, keep, #[trigger] all[k]) by {
            if k < rest.len() {
                assert(marked(front, marks, rest[k]));
                let i = choose|i: int| 0 <= i < front.len() && marks[i] && front[i] == rest[k];
                assert(keep[i] && items[i] == all[k]);
            } else {
                assert(keep[n] && items[n] == all[k]);
            }
        }
        assert forall|i: int| 0 <= i < items.len() && keep[i] implies all.contains(
            #[trigger] items[i],
        ) by {
            if i < n {
                assert(marks[i]);
                assert(rest.contains(front[i]));
                let k = choose|k: int| 0 <= k < rest.len() && rest[k] == front[i];
                assert(all[k] == items[i]);
            } else {
                assert(all[rest.len() as int] == items[i]);
            }
        }
    }
}

/// A selection keeps the order of the items: its items come from rising
/// positions.
pub proof fn select_order<T>(items: Seq<T>, keep: Seq<bool>)
    requires
        keep.len() == items.len(),
    ensures
        exists|at: Seq<int>|
            {
                &&& at.len() == select(items, keep).len()
                &&& forall|k: int|
                    0 <= k < at.len() ==> 0 <= #[trigger] at[k] < items.len() && keep[at[k]]
                        && items[at[k]] == select(items, keep)[k]
                &&& forall|k: int, l: int| 0 <= k < l < at.len() ==> at[k] < at[l]
            },
    decreases items.len(),
{
    if items.len() == 0 {
        let at = Seq::<int>::empty();
        assert(at.len() == select(items, keep).len());
    } else {
        let n = items.len() - 1;
        let front = items.drop_last();
        let marks = keep.take(n);
        let rest = select(front, marks);
        select_order(front, marks);
        let before = choose|at: Seq<int>|
            {
                &&& at.len() == rest.len()
                &&& forall|k: int|
                    0 <= k < at.len() ==> 0 <= #[trigger] at[k] < front.len() && marks[at[k]]
                        && front[at[k]] == rest[k]
                &&& forall|k: int, l: int| 0 <= k < l < at.len() ==> at[k] < at[l]
            };
        let at = if keep[n] {
            before.push(n)
        } else {
            before
        };
        let all = select(items, keep);
        assert(at.len() == all.len());
        assert forall|k: int| 0 <= k < at.len() implies 0 <= #[trigger] at[k] < items.len()
            && keep[at[k]] && items[at[k]] == all[k] by {
            if k < before.len() {
                assert(0 <= before[k] < front.len() && marks[before[k]]);
            }
        }
        assert forall|k: int, l: int| 0 <= k < l < at.len() implies at[k] < at[l] by {
            if l < before.len() {
                assert(before[k] < before[l]);
            } else {
                assert(0 <= before[k] < front.len());
            }
        }
    }
}

/// The two selections by a sequence of marks and by its opposite hold every
/// item exactly once between them.
pub proof fn select_partition<T>(items: Seq<T>, keep: Seq<bool>)
    requires
        keep.len() == items.len(),
    ensures
        select(items, keep).to_multiset().add(select(items, opposite(keep)).to_multiset())
            == items.to_multiset(),
        select(items, keep).len() + select(items, opposite(keep)).len() == items.len(),
    decreases items.len(),
{
    broadcast use vstd::seq_lib::group_to_multiset_ensures;

    if items.len() == 0 {
        assert(select(items, keep) =~= Seq::<T>::empty());
        assert(select(items, opposite(keep)) =~= Seq::<T>::empty());
        assert(items =~= Seq::<T>::empty());
    } else {
        let n = items.len() - 1;
        let front = items.drop_last();
        let marks = keep.take(n);
        select_partition(front, marks);
        assert(opposite(keep).take(n) =~= opposite(marks));
        assert(items =~= front.push(items.last()));
        let kept = select(front, marks);
        let dropped = select(front, opposite(marks));
        if keep[n] {
            assert(select(items, keep) == kept.push(items.last()));
            assert(select(items, opposite(keep)) == dropped);
        } else {
            assert(select(items, keep) == kept);
            assert(select(items, opposite(keep)) == dropped.push(items.last()));
        }
        assert(select(items, keep).to_multiset().add(select(items, opposite(keep)).to_multiset())
            =~= items.to_multiset());
    }
}

/// The items in the opposite order.
pub fn reversed<T>(items: Vec<T>) -> (turned: Vec<T>)
    ensures
        turned@ == items@.reverse(),
{
    let ghost all = items@;
    let mut rest = items;
    let mut turned: Vec<T> = Vec::new();
    while rest.len() > 0
        invariant
            rest@ == all.take(rest@.len() as int),
            rest@.len() <= all.len(),
            turned@.len() == all.len() - rest@.len(),
            forall|k: int| 0 <= k < turned@.len() ==> turned@[k] == all[all.len() - 1 - k],
        decreases rest@.len(),
    {
        match rest.pop() {
            Some(item) => {
                turned.push(item);
            },
            None => {},
        }
    }
    assert(turned@ =~= all.reverse());
    turned
}

/// Keeps the items whose mark is set, in their order, and drops the others.
pub fn retain_marked<T>(items: &mut Vec<T>, keep: &Vec<bool>)
    requires
        keep@.len() == old(items)@.len(),
    ensures
        final(items)@ == select(old(items)@, keep@),
{
    let ghost all = items@;
    let mut taken: Vec<T> = Vec::new();
    core::mem::swap(items, &mut taken);
    let mut stack = reversed(taken);
    let n: usize = keep.len();
    let mut i: usize = 0;
    proof {
        assert(select(all.take(0), keep@.take(0)) =~= Seq::<T>::empty());
    }
    while i < n
        invariant
            i <= n,
            n == all.len(),
            n == keep@.len(),
            stack@ == all.reverse().take(n - i),
            items@ == select(all.take(i as int), keep@.take(i as int)),
        decreases n - i,
    {
        proof {
            select_step(all, keep@, i as int);
        }
        match stack.pop() {
            Some(item) => {
                assert(item == all[i as int]);
                if keep[i] {
                    items.push(item);
                }
            },
            None => {},
        }
        assert(stack@ =~= all.reverse().take(n - i - 1));
        i += 1;
    }
    proof {
        assert(all.take(n as int) =~= all);
        assert(keep@.take(n as int) =~= keep@);
    }
}

} // verus!
