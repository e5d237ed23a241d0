//! Putting items back in order that workers finish in any order.

use std::collections::HashMap;
use vstd::prelude::*;

verus! {

/// What is held between two arrivals: the index that is to leave next, and
/// the items that came too early.
pub struct OrderState<T> {
    pub next: u64,
    pub pending: Map<u64, T>,
}

/// The state before the first arrival.
pub open spec fn order_start<T>() -> OrderState<T> {
    OrderState { next: 0, pending: Map::empty() }
}

/// `out` are items of `pending` with the indices from `next` on.
pub open spec fn follows<T>(pending: Map<u64, T>, next: u64, out: Seq<T>) -> bool {
    &&& forall|k: u64| next <= k < next + out.len() ==> #[trigger] pending.contains_key(k)
    &&& forall|i: int| 0 <= i < out.len() ==> #[trigger] out[i] == pending[(next + i) as u64]
}

/// `pending` without the indices from `from` up to `to`.
pub open spec fn without<T>(pending: Map<u64, T>, from: u64, to: u64) -> Map<u64, T> {
    pending.remove_keys(Set::new(|k: u64| from <= k < to))
}

/// `out` are the items of `before` from `next` up to the first index that is
/// not there, and `after` is the state without them.
pub open spec fn released<T>(
    before: OrderState<T>,
    out: Seq<T>,
    after: OrderState<T>,
) -> bool {
    &&& after.next == before.next + out.len()
    &&& follows(before.pending, before.next, out)
    &&& !before.pending.contains_key(after.next)
    &&& after.pending == without(before.pending, before.next, after.next)
}

/// On arrival of `item` with `index`, the items in `out` leave.
pub open spec fn accepted<T>(
    before: OrderState<T>,
    index: u64,
    item: T,
    out: Seq<T>,
    after: OrderState<T>,
) -> bool {
    released(
        OrderState { next: before.next, pending: before.pending.insert(index, item) },
        out,
        after,
    )
}

/// A run of arrivals: item `order[k]` arrives, `outs[k]` leave, and the state
/// goes from `states[k]` to the next.
pub open spec fn is_run<T>(
    items: Seq<T>,
    order: Seq<u64>,
    outs: Seq<Seq<T>>,
    states: Seq<OrderState<T>>,
) -> bool {
    &&& outs.len() == order.len()
    &&& states.len() == order.len() + 1
    &&& states[0] == order_start::<T>()
    &&& forall|k: int|
        0 <= k < order.len() ==> accepted(
            states[k],
            order[k],
            items[order[k] as int],
            #[trigger] outs[k],
            states[k + 1],
        )
}

/// Each of the items arrives at most once.
pub open spec fn distinct_arrivals<T>(items: Seq<T>, order: Seq<u64>) -> bool {
    &&& items.len() <= u64::MAX
    &&& order.no_duplicates()
    &&& forall|k: int| 0 <= k < order.len() ==> #[trigger] order[k] < items.len()
}

/// Whatever the order of arrival, what has left is the longest run of items
/// from the first on that have all arrived, in order; what arrived beyond it
/// is held.
pub proof fn law_released_in_order<T>(
    items: Seq<T>,
    order: Seq<u64>,
    outs: Seq<Seq<T>>,
    states: Seq<OrderState<T>>,
)
    requires
        distinct_arrivals(items, order),
        is_run(items, order, outs, states),
    ensures
        states.last().next <= items.len(),
        outs.flatten() == items.take(states.last().next as int),
        forall|i: u64| i < states.last().next ==> #[trigger] order.contains(i),
        !order.contains(states.last().next),
        forall|i: u64| #[trigger]
            states.last().pending.contains_key(i) <==> states.last().next < i && order.contains(i),
        forall|i: u64|
            states.last().pending.contains_key(i) ==> #[trigger] states.last().pending[i]
                == items[i as int],
    decreases order.len(),
{
    if order.len() == 0 {
        assert(outs.flatten() =~= items.take(0));
    } else {
        let n = order.len() - 1;
        let earlier = order.drop_last();
        let j = order.last();
        let was = states[n];
        let now = states[n + 1];
        assert(states.last() == now);
        assert(states.drop_last().last() == was);
        assert forall|k: int| 0 <= k < earlier.len() implies accepted(
            states.drop_last()[k],
            earlier[k],
            items[earlier[k] as int],
            #[trigger] outs.drop_last()[k],
            states.drop_last()[k + 1],
        ) by {
            assert(outs.drop_last()[k] == outs[k]);
        }
        law_released_in_order(items, earlier, outs.drop_last(), states.drop_last());
        assert(outs[n] == outs.last());
        let out = outs.last();
        let filled = was.pending.insert(j, items[j as int]);
        assert(accepted(was, j, items[j as int], out, now));

        assert(!earlier.contains(j)) by {
            if earlier.contains(j) {
                let k = choose|k: int| 0 <= k < earlier.len() && earlier[k] == j;
                assert(order[k] == order[n]);
            }
        }
        assert forall|i: u64| #[trigger] order.contains(i) <==> (earlier.contains(i) || i == j) by {
            if order.contains(i) {
                let k = choose|k: int| 0 <= k < order.len() && order[k] == i;
                if k < n {
                    assert(earlier[k] == i);
                }
            }
            if earlier.contains(i) {
                let k = choose|k: int| 0 <= k < earlier.len() && earlier[k] == i;
                assert(order[k] == i);
            }
            assert(order[n] == j);
        }
        assert(j >= was.next);
        assert forall|i: u64| #[trigger] filled.contains_key(i) implies order.contains(i) && i
            < items.len() && filled[i] == items[i as int] by {
            if i != j {
                assert(was.pending.contains_key(i));
                assert(earlier.contains(i));
                let k = choose|k: int| 0 <= k < earlier.len() && earlier[k] == i;
                assert(order[k] == i);
            } else {
                assert(order[n] == j);
            }
        }
        assert forall|i: u64| was.next <= i && #[trigger] order.contains(i) implies
            filled.contains_key(i) by {
            if i != j {
                assert(earlier.contains(i));
                assert(i != was.next);
                assert(was.pending.contains_key(i));
            }
        }
        assert forall|i: u64| i < now.next implies #[trigger] order.contains(i) by {
            if i < was.next {
                assert(earlier.contains(i));
            } else {
                let d = i - was.next;
                assert(out[d] == filled[i]);
                assert(filled.contains_key(i));
            }
        }
        assert(!order.contains(now.next)) by {
            if order.contains(now.next) {
                assert(filled.contains_key(now.next));
            }
        }
        if now.next > items.len() {
            let i = (now.next - 1) as u64;
            assert(order.contains(i));
            let k = choose|k: int| 0 <= k < order.len() && order[k] == i;
            assert(order[k] < items.len());
        }
        assert forall|i: u64| #[trigger] now.pending.contains_key(i) <==> now.next < i
            && order.contains(i) by {
            if now.pending.contains_key(i) {
                assert(filled.contains_key(i));
                assert(i >= was.next) by {
                    if i != j {
                        assert(was.pending.contains_key(i));
                    }
                }
            }
            if now.next < i && order.contains(i) {
                assert(filled.contains_key(i));
            }
        }
        assert(outs =~= outs.drop_last().push(out));
        outs.drop_last().lemma_flatten_push(out);
        assert(items.take(now.next as int) =~= items.take(was.next as int) + out) by {
            assert forall|d: int| 0 <= d < out.len() implies out[d] == items[was.next + d] by {
                assert(out[d] == filled[(was.next + d) as u64]);
                assert(filled.contains_key((was.next + d) as u64));
            }
        }
    }
}

/// Once every item has arrived, in whatever order, all of them have left in
/// order and nothing is held.
pub proof fn law_any_arrival_order<T>(
    items: Seq<T>,
    order: Seq<u64>,
    outs: Seq<Seq<T>>,
    states: Seq<OrderState<T>>,
)
    requires
        distinct_arrivals(items, order),
        order.len() == items.len(),
        is_run(items, order, outs, states),
    ensures
        outs.flatten() == items,
        states.last().next == items.len(),
        states.last().pending == Map::<u64, T>::empty(),
{
    law_released_in_order(items, order, outs, states);
    let next = states.last().next;
    if next < items.len() {
        let seen = order.map_values(|i: u64| i as int);
        assert(seen.no_duplicates());
        seen.unique_seq_to_set();
        let all = vstd::set_lib::set_int_range(0, items.len() as int);
        vstd::set_lib::lemma_int_range(0, items.len() as int);
        assert forall|i: int| #[trigger] seen.to_set().contains(i) implies all.contains(i) by {
            let k = choose|k: int| 0 <= k < seen.len() && seen[k] == i;
            assert(order[k] < items.len());
        }
        assert(seen.to_set().finite()) by {
            vstd::seq_lib::seq_to_set_is_finite(seen);
        }
        vstd::set_lib::lemma_subset_equality(seen.to_set(), all);
        assert(all.contains(next as int));
        assert(seen.contains(next as int));
        let k = choose|k: int| 0 <= k < seen.len() && seen[k] == next as int;
        assert(order[k] == next);
        assert(false);
    }
    assert(items.take(items.len() as int) =~= items);
    assert(states.last().pending =~= Map::<u64, T>::empty()) by {
        assert forall|i: u64| !(#[trigger] states.last().pending.contains_key(i)) by {
            if states.last().pending.contains_key(i) {
                assert(order.contains(i));
                let k = choose|k: int| 0 <= k < order.len() && order[k] == i;
                assert(order[k] < items.len());
            }
        }
    }
}

/// Takes in items in any order and hands them out in the order of their
/// indices.
pub struct ReorderBuffer<T> {
    next_index: u64,
    pending: HashMap<u64, T>,
    limit: usize,
}

impl<T> View for ReorderBuffer<T> {
    type V = OrderState<T>;

    closed spec fn view(&self) -> OrderState<T> {
        OrderState { next: self.next_index, pending: self.pending@ }
    }
}

impl<T> ReorderBuffer<T> {
    /// The item that is to leave next is never held: it leaves as it arrives.
    pub open spec fn wf(&self) -> bool {
        &&& !self@.pending.contains_key(self@.next)
        &&& forall|k: u64| #[trigger] self@.pending.contains_key(k) ==> k < u64::MAX
        &&& self@.pending.dom().finite()
    }

    /// A buffer before the first arrival. Once three items per worker are
    /// held, each arrival first looks for items that can leave.
    pub fn new(num_workers: usize) -> (b: ReorderBuffer<T>)
        requires
            num_workers * 3 <= usize::MAX,
        ensures
            b.wf(),
            b@ == order_start::<T>(),
    {
        ReorderBuffer { next_index: 0, pending: HashMap::new(), limit: num_workers * 3 }
    }

    /// Hands out the items from the next index up to the first that is not
    /// there.
    fn release(&mut self) -> (out: Vec<T>)
        requires
            forall|k: u64| #[trigger] old(self)@.pending.contains_key(k) ==> k < u64::MAX,
        ensures
            released(old(self)@, out@, final(self)@),
            final(self).wf(),
    {
        broadcast use vstd::std_specs::hash::group_hash_axioms;

        let mut out: Vec<T> = Vec::new();
        let ghost start = self@;
        assert(self@.pending =~= without(start.pending, start.next, self@.next));
        loop
            invariant
                forall|k: u64| #[trigger] start.pending.contains_key(k) ==> k < u64::MAX,
                self@.next == start.next + out@.len(),
                follows(start.pending, start.next, out@),
                self@.pending == without(start.pending, start.next, self@.next),
                start == old(self)@,
            decreases u64::MAX - self@.next,
        {
            broadcast use vstd::std_specs::hash::group_hash_axioms;

            let ghost before = self@;
            let key = self.next_index;
            match self.pending.remove(&key) {
                Some(item) => {
                    assert(before.pending.contains_key(key));
                    assert(start.pending.contains_key(key));
                    assert(item == start.pending[key]);
                    let ghost had = out@;
                    out.push(item);
                    assert forall|i: int| 0 <= i < out@.len() implies #[trigger] out@[i]
                        == start.pending[(start.next + i) as u64] by {
                        if i < had.len() {
                            assert(out@[i] == had[i]);
                        } else {
                            assert((start.next + i) as u64 == key);
                        }
                    }
                    self.next_index = key + 1;
                    assert(self@.pending =~= without(start.pending, start.next, self@.next));
                },
                None => {
                    assert(!before.pending.contains_key(key));
                    assert(!start.pending.contains_key(key));
                    assert(self@.pending =~= before.pending);
                    return out;
                },
            }
        }
    }

    /// Takes in an item, and hands out those that can leave. How many are held
    /// is not bounded: each that came too early is.
    pub fn push(&mut self, index: u64, item: T) -> (out: Vec<T>)
        requires
            old(self).wf(),
            index < u64::MAX,
        ensures
            final(self).wf(),
            accepted(old(self)@, index, item, out@, final(self)@),
    {
        broadcast use vstd::std_specs::hash::group_hash_axioms;

        if self.pending.len() >= self.limit {
            let early = self.release();
            proof {
                if early@.len() > 0 {
                    assert(early@[0] == old(self)@.pending[(old(self)@.next + 0) as u64]);
                    assert(false);
                }
                assert(self@.pending =~= old(self)@.pending);
            }
        }
        self.pending.insert(index, item);
        assert(self@.pending =~= old(self)@.pending.insert(index, item));
        self.release()
    }

    /// Hands out what can still leave once no more items will arrive. There is
    /// nothing: what could leave has left.
    pub fn finish(&mut self) -> (out: Vec<T>)
        requires
            old(self).wf(),
        ensures
            final(self).wf(),
            final(self)@ == old(self)@,
            out@ == Seq::<T>::empty(),
    {
        let out = self.release();
        proof {
            if out@.len() > 0 {
                assert(out@[0] == old(self)@.pending[(old(self)@.next + 0) as u64]);
                assert(false);
            }
            assert(self@.pending =~= old(self)@.pending);
        }
        out
    }

    /// How many items are held.
    pub fn held(&self) -> (n: usize)
        requires
            self.wf(),
        ensures
            n == self@.pending.len(),
    {
        self.pending.len()
    }
}

} // verus!
