//! Stable ordering of timed items by tick.

use vstd::prelude::*;

verus! {

/// An item that happens at a tick.
pub trait Timed: Copy {
    /// The tick at which the item happens.
    spec fn tick_of(&self) -> u64;

    /// The tick at which the item happens.
    fn tick(&self) -> (t: u64)
        ensures
            t == self.tick_of(),
    ;
}

/// `s` with `x` put behind the last item that is not later than `x`.
pub open spec fn insert_by_tick<T: Timed>(s: Seq<T>, x: T) -> Seq<T>
    decreases s.len(),
{
    if s.len() > 0 && s.last().tick_of() > x.tick_of() {
        insert_by_tick(s.drop_last(), x).push(s.last())
    } else {
        s.push(x)
    }
}

/// The items of `s` in ascending order of tick, items of one tick in the
/// order in which they stand in `s`.
pub open spec fn sorted_by_tick<T: Timed>(s: Seq<T>) -> Seq<T>
    decreases s.len(),
{
    if s.len() == 0 {
        s
    } else {
        insert_by_tick(sorted_by_tick(s.drop_last()), s.last())
    }
}

/// No item of `s` is later than one that follows it.
pub open spec fn ticks_ascend<T: Timed>(s: Seq<T>) -> bool {
    forall|i: int, j: int| 0 <= i <= j < s.len() ==> s[i].tick_of() <= s[j].tick_of()
}

/// Putting an item into an ascending sequence keeps it ascending and adds
/// exactly that item.
pub proof fn lemma_insert_by_tick<T: Timed>(s: Seq<T>, x: T)
    requires
        ticks_ascend(s),
    ensures
        ticks_ascend(insert_by_tick(s, x)),
        insert_by_tick(s, x).len() == s.len() + 1,
        insert_by_tick(s, x).to_multiset() == s.to_multiset().insert(x),
    decreases s.len(),
{
    broadcast use vstd::seq_lib::group_to_multiset_ensures;

    if s.len() > 0 && s.last().tick_of() > x.tick_of() {
        let front = s.drop_last();
        lemma_insert_by_tick(front, x);
        let inner = insert_by_tick(front, x);
        let r = inner.push(s.last());
        assert(s =~= front.push(s.last()));
        assert forall|i: int, j: int| 0 <= i <= j < r.len() implies r[i].tick_of()
            <= r[j].tick_of() by {
            if j == r.len() - 1 && i < j {
                // every item of `inner` is `x` or an item of `front`
                assert(inner.to_multiset().count(inner[i]) > 0);
                if inner[i] != x {
                    assert(front.to_multiset().count(inner[i]) > 0);
                    let k = choose|k: int| 0 <= k < front.len() && front[k] == inner[i];
                    assert(s[k] == inner[i]);
                }
            }
        }
        assert(r.to_multiset() =~= s.to_multiset().insert(x));
    } else {
        let r = s.push(x);
        assert forall|i: int, j: int| 0 <= i <= j < r.len() implies r[i].tick_of()
            <= r[j].tick_of() by {
            if j == r.len() - 1 && i < j {
                assert(s[i].tick_of() <= s.last().tick_of());
            }
        }
    }
}

/// `sorted_by_tick` yields an ascending rearrangement of its argument.
pub proof fn lemma_sorted_by_tick<T: Timed>(s: Seq<T>)
    ensures
        ticks_ascend(sorted_by_tick(s)),
        sorted_by_tick(s).len() == s.len(),
        sorted_by_tick(s).to_multiset() == s.to_multiset(),
    decreases s.len(),
{
    broadcast use vstd::seq_lib::group_to_multiset_ensures;

    if s.len() > 0 {
        lemma_sorted_by_tick(s.drop_last());
        lemma_insert_by_tick(sorted_by_tick(s.drop_last()), s.last());
        assert(s =~= s.drop_last().push(s.last()));
    }
}

/// Every item of the sorted sequence is an item of the given one.
pub proof fn lemma_sorted_member<T: Timed>(s: Seq<T>, i: int)
    requires
        0 <= i < s.len(),
    ensures
        exists|j: int| 0 <= j < s.len() && s[j] == sorted_by_tick(s)[i],
{
    broadcast use vstd::seq_lib::group_to_multiset_ensures;

    lemma_sorted_by_tick(s);
    let x = sorted_by_tick(s)[i];
    assert(sorted_by_tick(s).to_multiset().count(x) > 0);
    assert(s.to_multiset().count(x) > 0);
    assert(s.contains(x));
}

/// Sorting keeps, for each tick, the items of that tick in their order.
pub proof fn lemma_sorted_stable<T: Timed>(s: Seq<T>, tick: u64)
    ensures
        sorted_by_tick(s).filter(|x: T| x.tick_of() == tick) == s.filter(
            |x: T| x.tick_of() == tick,
        ),
    decreases s.len(),
{
    reveal(Seq::filter);
    if s.len() > 0 {
        lemma_sorted_stable(s.drop_last(), tick);
        lemma_insert_stable(sorted_by_tick(s.drop_last()), s.last(), tick);
    }
}

/// Putting an item in adds it behind the items of its own tick and leaves
/// those of any other tick as they are.
pub proof fn lemma_insert_stable<T: Timed>(s: Seq<T>, x: T, tick: u64)
    ensures
        insert_by_tick(s, x).filter(|y: T| y.tick_of() == tick) == if x.tick_of() == tick {
            s.filter(|y: T| y.tick_of() == tick).push(x)
        } else {
            s.filter(|y: T| y.tick_of() == tick)
        },
    decreases s.len(),
{
    reveal(Seq::filter);
    let pred = |y: T| y.tick_of() == tick;
    if s.len() > 0 && s.last().tick_of() > x.tick_of() {
        let inner = insert_by_tick(s.drop_last(), x);
        lemma_insert_stable(s.drop_last(), x, tick);
        let r = inner.push(s.last());
        assert(r.drop_last() =~= inner);
        assert(r.last() == s.last());
    } else {
        let r = s.push(x);
        assert(r.drop_last() =~= s);
        assert(r.last() == x);
    }
}

/// An ascending sequence is its own sorted form.
pub proof fn lemma_sorted_fixed<T: Timed>(s: Seq<T>)
    requires
        ticks_ascend(s),
    ensures
        sorted_by_tick(s) == s,
    decreases s.len(),
{
    if s.len() > 0 {
        let front = s.drop_last();
        lemma_sorted_fixed(front);
        if front.len() > 0 {
            assert(front.last() == s[s.len() - 2]);
        }
        assert(s =~= front.push(s.last()));
    }
}

/// The items of `v`, stably sorted by tick.
pub fn sort_by_tick<T: Timed>(v: &Vec<T>) -> (r: Vec<T>)
    ensures
        r@ == sorted_by_tick(v@),
{
    let mut out: Vec<T> = Vec::new();
    let mut i: usize = 0;
    assert(v@.take(0) =~= Seq::<T>::empty());
    while i < v.len()
        invariant
            i <= v.len(),
            out@ == sorted_by_tick(v@.take(i as int)),
            out.len() == i,
        decreases v.len() - i,
    {
        let x = v[i];
        let mut j: usize = out.len();
        assert(out@.take(j as int) =~= out@);
        assert(out@.skip(j as int) =~= Seq::<T>::empty());
        while j > 0 && out[j - 1].tick() > x.tick()
            invariant
                j <= out.len(),
                insert_by_tick(out@, x) == insert_by_tick(out@.take(j as int), x) + out@.skip(
                    j as int,
                ),
            decreases j,
        {
            proof {
                let head = out@.take(j as int);
                assert(head.drop_last() =~= out@.take(j - 1));
                assert(head.last() == out@[j - 1]);
                assert(insert_by_tick(head, x) + out@.skip(j as int) =~= insert_by_tick(
                    out@.take(j - 1),
                    x,
                ) + out@.skip(j - 1));
            }
            j -= 1;
        }
        proof {
            let head = out@.take(j as int);
            if j > 0 {
                assert(head.last() == out@[j - 1]);
            }
            assert(insert_by_tick(head, x) == head.push(x));
            assert(head.push(x) + out@.skip(j as int) =~= out@.insert(j as int, x));
            assert(v@.take(i + 1).drop_last() =~= v@.take(i as int));
            assert(v@.take(i + 1).last() == x);
        }
        out.insert(j, x);
        i += 1;
    }
    assert(v@.take(v.len() as int) =~= v@);
    out
}

} // verus!
