//! A binary max-heap of index records.
//!
//! The heap keeps the records of one side in a vector laid out as an
//! implicit binary tree: the record at position `i` is served no later than
//! the records at `2i + 1` and `2i + 2`. Its abstract value is the multiset
//! of records it holds; of their arrangement only the root is told, and the
//! root is always a record that no other record in the heap outranks.

use vstd::prelude::*;
use vstd::multiset::Multiset;
use vstd::seq_lib::*;
use crate::engine::domain::OrderSide;
use crate::engine::order_index::OrderIndex;

verus! {

/// Position of the parent of position `i` in the implicit tree.
spec fn parent(i: int) -> int {
    (i - 1) / 2
}

/// All records of `s` rest on one side.
pub open spec fn one_sided(s: Seq<OrderIndex>) -> bool {
    forall|i: int| 0 <= i < s.len() ==> (#[trigger] s[i]).order_side == s[0].order_side
}

/// The record at `i` is not served before the record at its parent.
spec fn edge_ok(s: Seq<OrderIndex>, i: int) -> bool {
    s[parent(i)].at_least(s[i])
}

/// Every edge whose upper end lies at `start` or later, and is not `hole`,
/// is in order.
spec fn ordered_below(s: Seq<OrderIndex>, start: int, hole: int) -> bool {
    forall|i: int|
        1 <= i < s.len() && start <= parent(i) && parent(i) != hole ==> #[trigger] edge_ok(s, i)
}

/// Every edge whose lower end is not `hole` is in order.
spec fn ordered_except(s: Seq<OrderIndex>, hole: int) -> bool {
    forall|i: int| 1 <= i < s.len() && i != hole ==> #[trigger] edge_ok(s, i)
}

/// The whole sequence is laid out as a heap.
spec fn heap_ordered(s: Seq<OrderIndex>) -> bool {
    forall|i: int| 1 <= i < s.len() ==> #[trigger] edge_ok(s, i)
}

/// The record at `above` is served no later than either child of `pos`.
spec fn covers_children(s: Seq<OrderIndex>, above: int, pos: int) -> bool {
    &&& 2 * pos + 1 < s.len() ==> s[above].at_least(s[2 * pos + 1])
    &&& 2 * pos + 2 < s.len() ==> s[above].at_least(s[2 * pos + 2])
}

/// In a heap the root is served no later than any other record.
proof fn lemma_root_leads(s: Seq<OrderIndex>, i: int)
    requires
        one_sided(s),
        heap_ordered(s),
        0 <= i < s.len(),
    ensures
        s[0].at_least(s[i]),
    decreases i,
{
    if i > 0 {
        lemma_root_leads(s, parent(i));
        assert(edge_ok(s, i));
    }
}

/// Exchanging two records changes neither the multiset nor the side.
proof fn lemma_exchange(s: Seq<OrderIndex>, i: int, j: int)
    requires
        0 <= i < s.len(),
        0 <= j < s.len(),
    ensures
        s.update(i, s[j]).update(j, s[i]).to_multiset() == s.to_multiset(),
        one_sided(s) ==> one_sided(s.update(i, s[j]).update(j, s[i])),
{
    broadcast use {to_multiset_update, group_to_multiset_ensures};

    let swapped = s.update(i, s[j]).update(j, s[i]);
    assert(s.to_multiset().count(s[i]) > 0);
    assert(s.to_multiset().count(s[j]) > 0);
    if one_sided(s) {
        assert forall|k: int| 0 <= k < swapped.len() implies (#[trigger] swapped[k]).order_side
            == swapped[0].order_side by {}
    }
}

/// Exchanges the records at `i` and `j`.
fn exchange(items: &mut Vec<OrderIndex>, i: usize, j: usize)
    requires
        i < old(items)@.len(),
        j < old(items)@.len(),
    ensures
        final(items)@ == old(items)@.update(i as int, old(items)@[j as int]).update(
            j as int,
            old(items)@[i as int],
        ),
        final(items)@.to_multiset() == old(items)@.to_multiset(),
        one_sided(old(items)@) ==> one_sided(final(items)@),
{
    let a = items[i];
    let b = items[j];
    items.set(i, b);
    items.set(j, a);
    proof {
        lemma_exchange(old(items)@, i as int, j as int);
    }
}

/// Lets the record at `start` sink until neither child outranks it.
fn sift_down(items: &mut Vec<OrderIndex>, start: usize)
    requires
        start < old(items)@.len(),
        one_sided(old(items)@),
        ordered_below(old(items)@, start + 1, old(items)@.len() as int),
    ensures
        final(items)@.len() == old(items)@.len(),
        final(items)@.to_multiset() == old(items)@.to_multiset(),
        one_sided(final(items)@),
        ordered_below(final(items)@, start as int, final(items)@.len() as int),
{
    let n = items.len();
    let mut pos = start;
    loop
        invariant
            n == items@.len(),
            n == old(items)@.len(),
            start <= pos < n,
            one_sided(items@),
            items@.to_multiset() == old(items)@.to_multiset(),
            ordered_below(items@, start as int, pos as int),
            pos > start ==> covers_children(items@, parent(pos as int), pos as int),
        decreases n - pos,
    {
        if pos >= n / 2 {
            return ;
        }
        let left = 2 * pos + 1;
        let right = left + 1;
        let mut child = left;
        if right < n && items[right].ranks_above(&items[left]) {
            child = right;
        }
        let ghost s = items@;
        if !items[child].ranks_above(&items[pos]) {
            proof {
                assert forall|i: int|
                    1 <= i < s.len() && start <= parent(i) implies #[trigger] edge_ok(s, i) by {}
            }
            return ;
        }
        exchange(items, pos, child);
        proof {
            let t = items@;
            assert forall|i: int|
                1 <= i < t.len() && start <= parent(i) && parent(i) != child implies #[trigger] edge_ok(
                t,
                i,
            ) by {
                if parent(i) != pos && i != pos {
                    assert(edge_ok(s, i));
                }
            }
            assert(covers_children(t, parent(child as int), child as int)) by {
                if 2 * child + 1 < n {
                    assert(edge_ok(s, 2 * child + 1));
                }
                if 2 * child + 2 < n {
                    assert(edge_ok(s, 2 * child + 2));
                }
            }
        }
        pos = child;
    }
}

/// Lets the record at `start` rise until its parent is served no later.
fn sift_up(items: &mut Vec<OrderIndex>, start: usize)
    requires
        start < old(items)@.len(),
        one_sided(old(items)@),
        ordered_except(old(items)@, start as int),
        start > 0 ==> covers_children(old(items)@, parent(start as int), start as int),
    ensures
        final(items)@.len() == old(items)@.len(),
        final(items)@.to_multiset() == old(items)@.to_multiset(),
        one_sided(final(items)@),
        heap_ordered(final(items)@),
{
    let n = items.len();
    let mut pos = start;
    while pos > 0
        invariant
            n == items@.len(),
            n == old(items)@.len(),
            pos < n,
            one_sided(items@),
            items@.to_multiset() == old(items)@.to_multiset(),
            ordered_except(items@, pos as int),
            pos > 0 ==> covers_children(items@, parent(pos as int), pos as int),
        decreases pos,
    {
        let up = (pos - 1) / 2;
        let ghost s = items@;
        if !items[pos].ranks_above(&items[up]) {
            return ;
        }
        exchange(items, pos, up);
        proof {
            let t = items@;
            assert forall|i: int| 1 <= i < t.len() && i != up implies #[trigger] edge_ok(t, i) by {
                if i != pos && parent(i) != pos {
                    assert(edge_ok(s, i));
                }
            }
            if up > 0 {
                assert(edge_ok(s, up as int));
                assert(covers_children(t, parent(up as int), up as int)) by {
                    let left = 2 * up + 1;
                    let right = 2 * up + 2;
                    if left < n && left != pos {
                        assert(edge_ok(s, left));
                    }
                    if right < n && right != pos {
                        assert(edge_ok(s, right));
                    }
                }
            }
        }
        pos = up;
    }
}

/// A max-heap of the index records of one side.
pub struct IndexHeap {
    items: Vec<OrderIndex>,
}

impl View for IndexHeap {
    type V = Multiset<OrderIndex>;

    /// The records held, each as often as it was pushed and not yet removed.
    closed spec fn view(&self) -> Multiset<OrderIndex> {
        self.items@.to_multiset()
    }
}

impl IndexHeap {
    /// The records lie in heap order and rest on one side.
    pub closed spec fn wf(&self) -> bool {
        one_sided(self.items@) && heap_ordered(self.items@)
    }

    /// The record at the root, if the heap holds any.
    pub closed spec fn top(&self) -> Option<OrderIndex> {
        if self.items@.len() == 0 {
            None
        } else {
            Some(self.items@[0])
        }
    }

    /// `side` is the side of every record held.
    pub open spec fn rests_on(&self, side: OrderSide) -> bool {
        forall|r: OrderIndex| self@.contains(r) ==> r.order_side == side
    }

    /// `r` may join the heap: it rests on the side of the records held.
    pub open spec fn admits(&self, r: OrderIndex) -> bool {
        forall|q: OrderIndex| self@.contains(q) ==> q.order_side == r.order_side
    }

    /// The root is held by the heap and no record held outranks it; the heap
    /// has a root exactly when it holds a record.
    pub proof fn lemma_top_leads(&self)
        requires
            self.wf(),
        ensures
            self.top() is None <==> self@.len() == 0,
            self.top() matches Some(t) ==> self@.contains(t) && forall|r: OrderIndex|
                self@.contains(r) ==> t.at_least(r),
    {
        broadcast use group_to_multiset_ensures;

        let s = self.items@;
        if s.len() > 0 {
            assert forall|r: OrderIndex| self@.contains(r) implies s[0].at_least(r) by {
                let i = choose|i: int| 0 <= i < s.len() && s[i] == r;
                lemma_root_leads(s, i);
            }
        }
    }

    /// An empty heap.
    pub fn new() -> (heap: Self)
        ensures
            heap.wf(),
            heap@ == Multiset::<OrderIndex>::empty(),
    {
        let heap = IndexHeap { items: Vec::new() };
        proof {
            broadcast use group_to_multiset_ensures;

        }
        heap
    }

    /// An empty heap with room for `capacity` records.
    pub fn with_capacity(capacity: usize) -> (heap: Self)
        ensures
            heap.wf(),
            heap@ == Multiset::<OrderIndex>::empty(),
    {
        let heap = IndexHeap { items: Vec::with_capacity(capacity) };
        proof {
            broadcast use group_to_multiset_ensures;

        }
        heap
    }

    /// How many records the heap holds, stale ones included.
    pub fn len(&self) -> (n: usize)
        ensures
            n == self@.len(),
    {
        proof {
            broadcast use group_to_multiset_ensures;

        }
        self.items.len()
    }

    /// Whether the heap holds no record.
    pub fn is_empty(&self) -> (b: bool)
        ensures
            b == (self@.len() == 0),
    {
        proof {
            broadcast use group_to_multiset_ensures;

        }
        self.items.len() == 0
    }

    /// The record at the root, left in place.
    pub fn peek(&self) -> (r: Option<OrderIndex>)
        requires
            self.wf(),
        ensures
            r == self.top(),
            r is None <==> self@.len() == 0,
            r matches Some(t) ==> self@.contains(t) && forall|q: OrderIndex|
                self@.contains(q) ==> t.at_least(q),
    {
        proof {
            self.lemma_top_leads();
        }
        if self.items.len() == 0 {
            None
        } else {
            Some(self.items[0])
        }
    }

    /// Adds `record` to the heap.
    pub fn push(&mut self, record: OrderIndex)
        requires
            old(self).wf(),
            old(self).admits(record),
        ensures
            final(self).wf(),
            final(self)@ == old(self)@.insert(record),
    {
        let ghost s = self.items@;
        self.items.push(record);
        let n = self.items.len();
        proof {
            broadcast use group_to_multiset_ensures;

            let t = self.items@;
            assert forall|i: int| 0 <= i < t.len() implies (#[trigger] t[i]).order_side
                == t[0].order_side by {
                if s.len() > 0 {
                    assert(old(self)@.contains(s[0]));
                }
            }
            assert forall|i: int| 1 <= i < t.len() && i != n - 1 implies #[trigger] edge_ok(
                t,
                i,
            ) by {
                assert(edge_ok(s, i));
            }
        }
        sift_up(&mut self.items, n - 1);
    }

    /// Removes the record at the root and returns it.
    pub fn pop(&mut self) -> (r: Option<OrderIndex>)
        requires
            old(self).wf(),
        ensures
            final(self).wf(),
            r == old(self).top(),
            r is None <==> old(self)@.len() == 0,
            r is None ==> *final(self) == *old(self),
            r matches Some(t) ==> {
                &&& old(self)@.contains(t)
                &&& final(self)@ == old(self)@.remove(t)
                &&& forall|q: OrderIndex| old(self)@.contains(q) ==> t.at_least(q)
            },
    {
        proof {
            self.lemma_top_leads();
        }
        if self.items.len() == 0 {
            return None;
        }
        let ghost s = self.items@;
        let top = self.items.swap_remove(0);
        proof {
            broadcast use {to_multiset_update, group_to_multiset_ensures};

            let u = s.update(0, s.last());
            let t = self.items@;
            assert(u.drop_last() =~= u.remove(u.len() - 1));
            assert forall|i: int| 0 <= i < t.len() implies (#[trigger] t[i]).order_side
                == t[0].order_side by {}
            assert forall|i: int|
                1 <= i < t.len() && 1 <= parent(i) implies #[trigger] edge_ok(t, i) by {
                assert(edge_ok(s, i));
            }
        }
        if self.items.len() > 0 {
            sift_down(&mut self.items, 0);
        }
        Some(top)
    }

    /// Builds a heap from records in any order.
    pub fn from_vec(items: Vec<OrderIndex>) -> (heap: Self)
        requires
            one_sided(items@),
        ensures
            heap.wf(),
            heap@ == items@.to_multiset(),
    {
        let mut items = items;
        let ghost s = items@;
        let n = items.len();
        let mut i = n / 2;
        while i > 0
            invariant
                n == items@.len(),
                i <= n / 2,
                one_sided(items@),
                items@.to_multiset() == s.to_multiset(),
                ordered_below(items@, i as int, n as int),
            decreases i,
        {
            i = i - 1;
            sift_down(&mut items, i);
        }
        IndexHeap { items }
    }

    /// Gives up the records, in no particular order.
    pub fn into_vec(self) -> (items: Vec<OrderIndex>)
        requires
            self.wf(),
        ensures
            items@.to_multiset() == self@,
            one_sided(items@),
    {
        self.items
    }
}

} // verus!
