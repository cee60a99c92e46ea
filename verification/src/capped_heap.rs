//! Fixed-capacity, array-backed binary min-heap that retains the highest-keyed
//! items from an arbitrarily long stream of pushes.
//!
//! The heap is keyed by fixed-point ratings (see [`crate::fixed`]). The backing
//! array holds `capacity + 1` slots in the classic 1-indexed binary-heap
//! layout (root at index 1, children of `i` at `2i` and `2i + 1`); the extra
//! slot lets a push transiently exceed the capacity by one before the minimum
//! is evicted.

use vstd::prelude::*;
use vstd::multiset::Multiset;

verus! {

#[derive(Debug)]
struct HeapNode<T> {
    value: i64,
    item: T,
}

/// A min-heap that never holds more than `capacity` items: pushing into a full
/// heap either evicts the current minimum (when the new key is strictly
/// greater) or rejects the new item (when the new key is less than or equal,
/// so ties favour what is already stored).
#[derive(Debug)]
pub struct CappedHeap<T> {
    size: usize,
    push_head: usize,
    data: Vec<Option<HeapNode<T>>>,
}

/// Parent of the node at 0-indexed heap position `j`, for `j >= 1`.
pub open spec fn parent_index(j: int) -> int {
    (j + 1) / 2 - 1
}

/// One step of the key-retention policy: the key multiset after pushing `v`
/// into a heap of capacity `k` whose keys were `ms`.
pub open spec fn top_k_step(ms: Multiset<int>, v: int, k: int) -> Multiset<int> {
    if ms.len() < k {
        ms.insert(v)
    } else if k > 0 && v > multiset_min(ms) {
        ms.insert(v).remove(multiset_min(ms))
    } else {
        ms
    }
}

/// The smallest value of a non-empty multiset of keys.
pub open spec fn multiset_min(ms: Multiset<int>) -> int {
    choose|m: int| ms.count(m) > 0 && (forall|x: int| #[trigger] ms.count(x) > 0 ==> m <= x)
}

/// The key multiset retained after pushing the keys of `pushes`, in order,
/// into an initially empty heap of capacity `k`.
pub open spec fn retained_after(pushes: Seq<int>, k: int) -> Multiset<int>
    decreases pushes.len(),
{
    if pushes.len() <= 0 {
        Multiset::empty()
    } else {
        top_k_step(retained_after(pushes.drop_last(), k), pushes.last(), k)
    }
}

/// `r` is a selection of `min(|all|, k)` elements of `all` such that every
/// element left out is less than or equal to every element retained.
pub open spec fn is_top_selection(all: Multiset<int>, r: Multiset<int>, k: int) -> bool {
    &&& r.subset_of(all)
    &&& r.len() == if all.len() <= k {
        all.len() as int
    } else {
        k
    }
    &&& forall|a: int, b: int|
        #[trigger] r.count(a) > 0 && #[trigger] all.sub(r).count(b) > 0 ==> b <= a
}

/// A non-empty multiset of keys has a least value, and `multiset_min` is it.
pub proof fn lemma_multiset_min(ms: Multiset<int>)
    requires
        ms.len() > 0,
    ensures
        ms.count(multiset_min(ms)) > 0,
        forall|x: int| #[trigger] ms.count(x) > 0 ==> multiset_min(ms) <= x,
    decreases ms.len(),
{
    broadcast use vstd::multiset::group_multiset_axioms;
    broadcast use vstd::multiset::group_multiset_properties;

    let c = ms.choose();
    assert(ms.count(c) > 0);
    let rest = ms.remove(c);
    assert(rest.insert(c) =~= ms);
    assert(ms.len() == rest.len() + 1);
    if rest.len() == 0 {
        assert forall|x: int| #[trigger] ms.count(x) > 0 implies c <= x by {
            if x != c {
                assert(rest.count(x) == ms.count(x));
                assert(rest.count(x) <= rest.len());
            }
        }
        assert(ms.count(c) > 0 && (forall|x: int| #[trigger] ms.count(x) > 0 ==> c <= x));
    } else {
        lemma_multiset_min(rest);
        let m0 = multiset_min(rest);
        let m = if c <= m0 {
            c
        } else {
            m0
        };
        assert(ms.count(m) > 0);
        assert forall|x: int| #[trigger] ms.count(x) > 0 implies m <= x by {
            if x != c {
                assert(rest.count(x) == ms.count(x));
            }
        }
        assert(ms.count(m) > 0 && (forall|x: int| #[trigger] ms.count(x) > 0 ==> m <= x));
    }
}

/// Any witness of minimality equals `multiset_min`.
pub proof fn lemma_multiset_min_unique(ms: Multiset<int>, m: int)
    requires
        ms.count(m) > 0,
        forall|x: int| #[trigger] ms.count(x) > 0 ==> m <= x,
    ensures
        multiset_min(ms) == m,
{
    broadcast use vstd::multiset::group_multiset_axioms;

    assert(ms.count(m) > 0 && (forall|x: int| #[trigger] ms.count(x) > 0 ==> m <= x));
    let w = multiset_min(ms);
    assert(ms.count(w) > 0 && (forall|x: int| #[trigger] ms.count(x) > 0 ==> w <= x));
    assert(w <= m && m <= w);
}

/// Swapping two positions of a sequence leaves its multiset unchanged.
proof fn lemma_swap_to_multiset<A>(s: Seq<A>, i: int, j: int)
    requires
        0 <= i < s.len(),
        0 <= j < s.len(),
    ensures
        s.update(i, s[j]).update(j, s[i]).to_multiset() == s.to_multiset(),
{
    broadcast use vstd::seq_lib::to_multiset_update;
    broadcast use vstd::seq_lib::group_to_multiset_ensures;
    broadcast use vstd::multiset::group_multiset_axioms;
    broadcast use vstd::multiset::group_multiset_properties;

    if i == j {
        assert(s.update(i, s[j]).update(j, s[i]) =~= s);
    } else {
        let s1 = s.update(i, s[j]);
        let s2 = s1.update(j, s[i]);
        assert(s1[j] == s[j]);
        assert(s.contains(s[i]));
        assert(s.to_multiset().count(s[i]) > 0);
        assert(s1.to_multiset() == s.to_multiset().insert(s[j]).remove(s[i]));
        assert(s2.to_multiset() == s1.to_multiset().insert(s[i]).remove(s[j]));
        assert forall|x: A| s2.to_multiset().count(x) == s.to_multiset().count(x) by {
            let n = s.to_multiset().count(x);
            if x == s[i] && x == s[j] {
                assert(s1.to_multiset().count(x) == n);
                assert(s2.to_multiset().count(x) == n);
            } else if x == s[i] {
                assert(s1.to_multiset().count(x) == n - 1);
                assert(s2.to_multiset().count(x) == n);
            } else if x == s[j] {
                assert(s1.to_multiset().count(x) == n + 1);
                assert(s2.to_multiset().count(x) == n);
            } else {
                assert(s1.to_multiset().count(x) == n);
                assert(s2.to_multiset().count(x) == n);
            }
        }
        assert(s2.to_multiset() =~= s.to_multiset());
    }
}

impl<T> CappedHeap<T> {
    /// Number of items the heap may retain.
    pub closed spec fn capacity(self) -> int {
        self.size as int
    }

    /// Number of items currently stored.
    pub closed spec fn occupancy(self) -> int {
        self.push_head as int
    }

    spec fn node(self, j: int) -> HeapNode<T> {
        self.data@[j].unwrap()
    }

    /// The key/item pair stored at 0-indexed heap position `j`.
    pub closed spec fn entry(self, j: int) -> (i64, T) {
        (self.node(j).value, self.node(j).item)
    }

    /// All stored key/item pairs, in backing-array order.
    pub closed spec fn entries(self) -> Seq<(i64, T)> {
        Seq::new(self.push_head as nat, |j: int| self.entry(j))
    }

    /// The key stored at 0-indexed heap position `j`.
    pub closed spec fn key(self, j: int) -> int {
        self.node(j).value as int
    }

    /// All stored keys, in backing-array order.
    pub closed spec fn keys(self) -> Seq<int> {
        Seq::new(self.push_head as nat, |j: int| self.key(j))
    }

    spec fn slots_ok(self) -> bool {
        &&& self.size < usize::MAX
        &&& self.data@.len() == self.size + 1
        &&& self.push_head <= self.data@.len()
        &&& forall|j: int| 0 <= j < self.push_head ==> (#[trigger] self.data@[j]).is_some()
        &&& forall|j: int|
            self.push_head <= j < self.data@.len() ==> (#[trigger] self.data@[j]).is_none()
    }

    spec fn heap_ok_at(self, j: int) -> bool {
        self.key(parent_index(j)) <= self.key(j)
    }

    /// Occupied slots form a min-heap; occupancy may transiently reach
    /// `capacity + 1` in the middle of a push.
    spec fn heap_shaped(self) -> bool {
        &&& self.slots_ok()
        &&& forall|j: int| 1 <= j < self.push_head ==> self.heap_ok_at(j)
    }

    /// Well-formedness between public operations.
    pub closed spec fn wf(self) -> bool {
        &&& self.heap_shaped()
        &&& self.push_head <= self.size
    }

    /// Links the published views: `keys` are the first components of
    /// `entries`, and both sequences read back the per-position accessors.
    pub proof fn lemma_views_agree(self)
        ensures
            self.keys().len() == self.occupancy(),
            self.entries().len() == self.occupancy(),
            forall|j: int|
                0 <= j < self.occupancy() ==> #[trigger] self.keys()[j] == self.entries()[j].0 as int,
            forall|j: int| 0 <= j < self.occupancy() ==> #[trigger] self.keys()[j] == self.key(j),
            forall|j: int|
                0 <= j < self.occupancy() ==> #[trigger] self.entries()[j] == self.entry(j),
    {
    }

    /// A well-formed heap's occupancy never exceeds its capacity.
    pub proof fn lemma_wf_bounds(self)
        requires
            self.wf(),
        ensures
            0 <= self.occupancy() <= self.capacity(),
    {
    }

    /// The root key is the least key stored.
    pub proof fn lemma_root_min(self)
        requires
            self.wf(),
        ensures
            forall|j: int| 0 <= j < self.occupancy() ==> self.key(0) <= #[trigger] self.key(j),
    {
        assert forall|j: int| 0 <= j < self.occupancy() implies self.key(0) <= #[trigger] self.key(
            j,
        ) by {
            self.lemma_root_min_at(j);
        }
    }

    proof fn lemma_root_min_at(self, j: int)
        requires
            self.heap_shaped(),
            0 <= j < self.push_head,
        ensures
            self.key(0) <= self.key(j),
        decreases j,
    {
        if j >= 1 {
            let p = parent_index(j);
            assert(0 <= p < j);
            self.lemma_root_min_at(p);
            assert(self.heap_ok_at(j));
        }
    }

    /// Creates an empty heap that will retain at most `size` items.
    pub fn new(size: usize) -> (h: CappedHeap<T>)
        requires
            size < usize::MAX,
        ensures
            h.wf(),
            h.capacity() == size,
            h.occupancy() == 0,
            h.entries() == Seq::<(i64, T)>::empty(),
            h.keys() == Seq::<int>::empty(),
    {
        let mut data: Vec<Option<HeapNode<T>>> = Vec::new();
        let mut i: usize = 0;
        while i < size + 1
            invariant
                size < usize::MAX,
                i <= size + 1,
                data@.len() == i,
                forall|j: int| 0 <= j < i ==> (#[trigger] data@[j]).is_none(),
            decreases size + 1 - i,
        {
            data.push(None);
            i = i + 1;
        }
        let h = CappedHeap { size, push_head: 0, data };
        proof {
            assert(h.entries() =~= Seq::<(i64, T)>::empty());
            assert(h.keys() =~= Seq::<int>::empty());
        }
        h
    }

    fn value_at(&self, j: usize) -> (v: i64)
        requires
            j < self.data@.len(),
            self.data@[j as int].is_some(),
        ensures
            v as int == self.key(j as int),
            v == self.entry(j as int).0,
    {
        match &self.data[j] {
            Some(n) => n.value,
            None => 0,
        }
    }

    fn swap_nodes(&mut self, h1: usize, h2: usize)
        requires
            old(self).slots_ok(),
            1 <= h1 <= old(self).push_head,
            1 <= h2 <= old(self).push_head,
            h1 != h2,
        ensures
            final(self).slots_ok(),
            final(self).size == old(self).size,
            final(self).push_head == old(self).push_head,
            final(self).entry(h1 - 1) == old(self).entry(h2 - 1),
            final(self).entry(h2 - 1) == old(self).entry(h1 - 1),
            forall|j: int|
                0 <= j < old(self).data@.len() && j != h1 - 1 && j != h2 - 1 ==> final(self).data@[j] == old(self).data@[j],
            final(self).entries() == old(self).entries().update(
                h1 - 1 as int,
                old(self).entry(h2 - 1),
            ).update(h2 - 1 as int, old(self).entry(h1 - 1)),
            final(self).keys() == old(self).keys().update(h1 - 1 as int, old(self).key(h2 - 1)).update(
                h2 - 1 as int,
                old(self).key(h1 - 1),
            ),
            final(self).entries().to_multiset() == old(self).entries().to_multiset(),
            final(self).keys().to_multiset() == old(self).keys().to_multiset(),
    {
        let mut slot: Option<HeapNode<T>> = None;
        self.data.set_and_swap(h1 - 1, &mut slot);
        self.data.set_and_swap(h2 - 1, &mut slot);
        self.data.set(h1 - 1, slot);
        proof {
            let oe = old(self).entries();
            let ok = old(self).keys();
            let i = h1 - 1 as int;
            let j = h2 - 1 as int;
            assert(self.entries() =~= oe.update(i, old(self).entry(j)).update(
                j,
                old(self).entry(i),
            ));
            assert(self.keys() =~= ok.update(i, old(self).key(j)).update(j, old(self).key(i)));
            assert(oe.update(i, old(self).entry(j)).update(j, old(self).entry(i)) == oe.update(
                i,
                oe[j],
            ).update(j, oe[i]));
            assert(ok.update(i, old(self).key(j)).update(j, old(self).key(i)) == ok.update(
                i,
                ok[j],
            ).update(j, ok[i]));
            lemma_swap_to_multiset(oe, i, j);
            lemma_swap_to_multiset(ok, i, j);
        }
    }

    fn float_node(&mut self, h_idx: usize)
        requires
            old(self).slots_ok(),
            1 <= h_idx <= old(self).push_head,
            forall|j: int|
                1 <= j < old(self).push_head && j != h_idx - 1 ==> old(self).heap_ok_at(j),
            h_idx >= 2 ==> forall|d: int|
                0 <= d < old(self).push_head && #[trigger] parent_index(d) == h_idx - 1 ==> old(self).key(
                    parent_index(h_idx - 1),
                ) <= old(self).key(d),
        ensures
            final(self).slots_ok(),
            final(self).size == old(self).size,
            final(self).push_head == old(self).push_head,
            forall|j: int| 1 <= j < final(self).push_head ==> final(self).heap_ok_at(j),
            final(self).entries().to_multiset() == old(self).entries().to_multiset(),
            final(self).keys().to_multiset() == old(self).keys().to_multiset(),
            final(self).entry(0) == old(self).entry(0) || final(self).entry(0) == old(self).entry(
                h_idx - 1,
            ),
        decreases h_idx,
    {
        if h_idx == 1 {
            return ;
        }
        let child_val = self.value_at(h_idx - 1);
        let parent_val = self.value_at(h_idx / 2 - 1);
        if child_val < parent_val {
            proof {
                assert(parent_index(h_idx - 1) == h_idx / 2 - 1);
            }
            self.swap_nodes(h_idx, h_idx / 2);
            proof {
                let c = h_idx - 1 as int;
                let p = h_idx / 2 - 1 as int;
                assert(parent_index(c) == p);
                assert forall|j: int|
                    1 <= j < self.push_head && j != p implies self.heap_ok_at(j) by {
                    if j == c {
                        assert(self.key(c) == old(self).key(p));
                        assert(self.key(p) == old(self).key(c));
                    } else if parent_index(j) == c {
                        assert(old(self).heap_ok_at(j));
                        assert(old(self).key(parent_index(c)) <= old(self).key(j));
                        assert(self.key(j) == old(self).key(j));
                    } else if parent_index(j) == p {
                        assert(old(self).heap_ok_at(j));
                        assert(self.key(j) == old(self).key(j));
                        assert(old(self).key(p) <= old(self).key(j));
                        assert(self.key(p) == old(self).key(c));
                    } else {
                        assert(old(self).heap_ok_at(j));
                        assert(self.key(j) == old(self).key(j));
                        assert(self.key(parent_index(j)) == old(self).key(parent_index(j)));
                    }
                }
                if h_idx / 2 >= 2 {
                    assert forall|d: int|
                        0 <= d < self.push_head && #[trigger] parent_index(d) == p implies self.key(
                        parent_index(p),
                    ) <= self.key(d) by {
                        assert(parent_index(p) != c && parent_index(p) != p);
                        assert(self.key(parent_index(p)) == old(self).key(parent_index(p)));
                        assert(old(self).heap_ok_at(p));
                        if d == c {
                            assert(self.key(d) == old(self).key(p));
                        } else {
                            assert(d != p);
                            assert(self.key(d) == old(self).key(d));
                            assert(old(self).heap_ok_at(d));
                            assert(old(self).key(p) <= old(self).key(d));
                            assert(self.key(parent_index(p)) <= old(self).key(p));
                        }
                    }
                }
            }
            let ghost mid = *self;
            self.float_node(h_idx / 2);
            proof {
                if h_idx / 2 == 1 {
                    assert(mid.entry(0) == old(self).entry(h_idx - 1));
                } else {
                    assert(mid.entry(0) == old(self).entry(0));
                    assert(mid.entry(h_idx / 2 - 1) == old(self).entry(h_idx - 1));
                }
            }
        }
    }

    fn sink_node(&mut self, h_idx: usize)
        requires
            old(self).slots_ok(),
            1 <= h_idx <= old(self).push_head,
            forall|j: int|
                1 <= j < old(self).push_head && parent_index(j) != h_idx - 1 ==> old(self).heap_ok_at(j),
            h_idx >= 2 ==> forall|d: int|
                0 <= d < old(self).push_head && #[trigger] parent_index(d) == h_idx - 1 ==> old(self).key(
                    parent_index(h_idx - 1),
                ) <= old(self).key(d),
        ensures
            final(self).slots_ok(),
            final(self).size == old(self).size,
            final(self).push_head == old(self).push_head,
            forall|j: int| 1 <= j < final(self).push_head ==> final(self).heap_ok_at(j),
            final(self).entries().to_multiset() == old(self).entries().to_multiset(),
            final(self).keys().to_multiset() == old(self).keys().to_multiset(),
        decreases old(self).push_head - h_idx, 1int,
    {
        let node_val = self.value_at(h_idx - 1);
        if h_idx > self.push_head / 2 {
            proof {
                assert forall|j: int|
                    1 <= j < self.push_head implies self.heap_ok_at(j) by {
                    assert(parent_index(j) != h_idx - 1);
                }
            }
            return ;
        }
        let h_left = h_idx * 2;
        let left_val = self.value_at(h_left - 1);
        let left_q = left_val < node_val;
        let right_exists = h_left < self.push_head;
        let right_val = if right_exists {
            self.value_at(h_left)
        } else {
            0
        };
        let right_q = right_exists && right_val < node_val;

        proof {
            assert(parent_index(h_left - 1) == h_idx - 1);
            assert(parent_index(h_left as int) == h_idx - 1);
        }

        if left_q && right_q {
            if left_val < right_val {
                self.sink_swap(h_idx, h_left, node_val);
            } else {
                self.sink_swap(h_idx, h_left + 1, node_val);
            }
        } else if left_q {
            self.sink_swap(h_idx, h_left, node_val);
        } else if right_q {
            self.sink_swap(h_idx, h_left + 1, node_val);
        } else {
            proof {
                assert forall|j: int|
                    1 <= j < self.push_head implies self.heap_ok_at(j) by {
                    if parent_index(j) == h_idx - 1 {
                        assert(j == h_left - 1 || j == h_left as int);
                    }
                }
            }
        }
    }

    /// Helper for `sink_node`: swaps the node at `h_idx` with its child at
    /// `h_child` (whose key is strictly smaller, and no larger than the other
    /// child's key when that child also qualifies), then keeps sinking.
    fn sink_swap(&mut self, h_idx: usize, h_child: usize, node_val: i64)
        requires
            old(self).slots_ok(),
            1 <= h_idx <= old(self).push_head,
            h_child == 2 * h_idx || h_child == 2 * h_idx + 1,
            h_child <= old(self).push_head,
            node_val as int == old(self).key(h_idx - 1),
            old(self).key(h_child - 1) < old(self).key(h_idx - 1),
            forall|d: int|
                0 <= d < old(self).push_head && #[trigger] parent_index(d) == h_idx - 1 ==> old(self).key(
                    h_child - 1,
                ) <= old(self).key(d),
            forall|j: int|
                1 <= j < old(self).push_head && parent_index(j) != h_idx - 1 ==> old(self).heap_ok_at(j),
            h_idx >= 2 ==> forall|d: int|
                0 <= d < old(self).push_head && #[trigger] parent_index(d) == h_idx - 1 ==> old(self).key(
                    parent_index(h_idx - 1),
                ) <= old(self).key(d),
        ensures
            final(self).slots_ok(),
            final(self).size == old(self).size,
            final(self).push_head == old(self).push_head,
            forall|j: int| 1 <= j < final(self).push_head ==> final(self).heap_ok_at(j),
            final(self).entries().to_multiset() == old(self).entries().to_multiset(),
            final(self).keys().to_multiset() == old(self).keys().to_multiset(),
        decreases old(self).push_head - h_idx, 0int,
    {
        let c = h_idx - 1;
        proof {
            assert(parent_index(h_child - 1) == h_idx - 1);
        }
        self.swap_nodes(h_idx, h_child);
        proof {
            let ci = h_idx - 1 as int;
            let mi = h_child - 1 as int;
            assert(self.key(ci) == old(self).key(mi));
            assert(self.key(mi) == old(self).key(ci));
            assert forall|j: int|
                1 <= j < self.push_head && parent_index(j) != mi implies self.heap_ok_at(j) by {
                if j == mi {
                    assert(parent_index(mi) == ci);
                } else if j == ci {
                    assert(h_idx >= 2);
                    assert(old(self).key(parent_index(ci)) <= old(self).key(mi));
                    assert(self.key(parent_index(ci)) == old(self).key(parent_index(ci)));
                } else if parent_index(j) == ci {
                    assert(old(self).key(mi) <= old(self).key(j));
                    assert(self.key(j) == old(self).key(j));
                } else {
                    assert(old(self).heap_ok_at(j));
                    assert(self.key(j) == old(self).key(j));
                    assert(self.key(parent_index(j)) == old(self).key(parent_index(j)));
                }
            }
            assert forall|d: int|
                0 <= d < self.push_head && #[trigger] parent_index(d) == mi implies self.key(
                parent_index(mi),
            ) <= self.key(d) by {
                assert(d != ci && d != mi);
                assert(self.key(d) == old(self).key(d));
                assert(old(self).heap_ok_at(d));
                assert(old(self).key(mi) <= old(self).key(d));
                assert(self.key(parent_index(mi)) == old(self).key(mi));
            }
        }
        self.sink_node(h_child);
    }

    /// Pushes `(value, item)` into the heap: inserted when there is room,
    /// evicting the minimum when full and `value` is strictly greater than it,
    /// and rejected outright otherwise (ties keep what is already stored).
    pub fn push(&mut self, value: i64, item: T)
        requires
            old(self).wf(),
        ensures
            final(self).wf(),
            final(self).capacity() == old(self).capacity(),
            forall|j: int|
                0 <= j < old(self).occupancy() ==> old(self).key(0) <= #[trigger] old(self).key(j),
            (old(self).occupancy() == old(self).capacity() && (old(self).capacity() == 0
                || value as int <= old(self).key(0))) ==> *final(self) == *old(self),
            old(self).occupancy() < old(self).capacity() ==> {
                &&& final(self).occupancy() == old(self).occupancy() + 1
                &&& final(self).entries().to_multiset() == old(self).entries().to_multiset().insert(
                    (value, item),
                )
                &&& final(self).keys().to_multiset() == old(self).keys().to_multiset().insert(
                    value as int,
                )
            },
            (old(self).occupancy() == old(self).capacity() && old(self).capacity() > 0
                && value as int > old(self).key(0)) ==> {
                &&& final(self).occupancy() == old(self).occupancy()
                &&& old(self).entries().to_multiset().count(old(self).entry(0)) > 0
                &&& final(self).entries().to_multiset() == old(self).entries().to_multiset().insert(
                    (value, item),
                ).remove(old(self).entry(0))
                &&& final(self).keys().to_multiset() == old(self).keys().to_multiset().insert(
                    value as int,
                ).remove(old(self).key(0))
            },
            final(self).keys().to_multiset() == top_k_step(
                old(self).keys().to_multiset(),
                value as int,
                old(self).capacity(),
            ),
    {
        proof {
            broadcast use vstd::seq_lib::group_to_multiset_ensures;

            old(self).lemma_root_min();
            if old(self).push_head > 0 {
                assert(old(self).entries()[0] == old(self).entry(0));
                assert(old(self).entries().contains(old(self).entry(0)));
                assert(old(self).entries().to_multiset().count(old(self).entry(0)) > 0);
                assert(old(self).keys()[0] == old(self).key(0));
                assert(old(self).keys().contains(old(self).key(0)));
                assert(old(self).keys().to_multiset().count(old(self).key(0)) > 0);
                assert forall|x: int|
                    old(self).keys().to_multiset().count(x) > 0 implies old(self).key(0) <= x by {
                    assert(old(self).keys().contains(x));
                    let j = choose|j: int|
                        0 <= j < old(self).keys().len() && old(self).keys()[j] == x;
                    assert(old(self).key(j) == x);
                }
                lemma_multiset_min_unique(old(self).keys().to_multiset(), old(self).key(0));
            }
            assert(old(self).keys().to_multiset().len() == old(self).occupancy());
        }
        if self.push_head == self.size {
            if self.size == 0 {
                return ;
            }
            let root_val = self.value_at(0);
            if value <= root_val {
                return ;
            }
        }

        self.data.set(self.push_head, Some(HeapNode { value, item }));
        self.push_head = self.push_head + 1;
        proof {
            broadcast use vstd::seq_lib::group_to_multiset_ensures;

            assert(self.entries() =~= old(self).entries().push((value, item)));
            assert(self.keys() =~= old(self).keys().push(value as int));
            assert forall|j: int|
                1 <= j < self.push_head && j != self.push_head - 1 implies self.heap_ok_at(j) by {
                assert(old(self).heap_ok_at(j));
                assert(self.key(j) == old(self).key(j));
                assert(self.key(parent_index(j)) == old(self).key(parent_index(j)));
            }
            assert forall|d: int|
                0 <= d < self.push_head && #[trigger] parent_index(d) == self.push_head - 1 implies false by {
                assert(parent_index(d) < d);
                assert(d <= self.push_head - 1);
            }
        }
        let ghost inserted = *self;
        self.float_node(self.push_head);
        proof {
            assert(self.entries().to_multiset() == old(self).entries().to_multiset().insert(
                (value, item),
            ));
            assert(self.keys().to_multiset() == old(self).keys().to_multiset().insert(
                value as int,
            ));
        }
        if self.push_head == self.size + 1 {
            let ghost floated = *self;
            proof {
                // The old root entry is still at the root: the freshly pushed
                // entry could only reach the root with a key strictly below
                // the old root key, but its key is strictly greater.
                assert(floated.entry(0) == old(self).entry(0) || floated.entry(0)
                    == inserted.entry(inserted.push_head - 1));
                if floated.entry(0) == inserted.entry(inserted.push_head - 1) {
                    assert(floated.key(0) == value as int);
                    assert(floated.keys().to_multiset().count(old(self).key(0)) > 0) by {
                        broadcast use vstd::seq_lib::group_to_multiset_ensures;
                        broadcast use vstd::multiset::group_multiset_properties;

                        assert(old(self).keys().to_multiset().count(old(self).key(0)) > 0);
                    }
                    assert(floated.keys().contains(old(self).key(0))) by {
                        broadcast use vstd::seq_lib::group_to_multiset_ensures;

                    }
                    let j = choose|j: int|
                        0 <= j < floated.keys().len() && floated.keys()[j] == old(self).key(0);
                    floated.lemma_root_min_at(j);
                    assert(floated.key(0) <= old(self).key(0));
                    assert(false);
                }
                assert(floated.entry(0) == old(self).entry(0));
                assert(floated.key(0) == old(self).key(0));
            }
            self.pop_inner();
            proof {
                broadcast use vstd::multiset::group_multiset_properties;

                assert(self.entries().to_multiset() =~= old(self).entries().to_multiset().insert(
                    (value, item),
                ).remove(old(self).entry(0)));
                assert(self.keys().to_multiset() =~= old(self).keys().to_multiset().insert(
                    value as int,
                ).remove(old(self).key(0)));
            }
        }
    }

    fn pop_inner(&mut self) -> (r: Option<T>)
        requires
            old(self).heap_shaped(),
        ensures
            final(self).heap_shaped(),
            final(self).size == old(self).size,
            old(self).push_head == 0 ==> r.is_none() && *final(self) == *old(self),
            old(self).push_head > 0 ==> {
                &&& r == Some(old(self).entry(0).1)
                &&& final(self).push_head == old(self).push_head - 1
                &&& final(self).entries().to_multiset() == old(self).entries().to_multiset().remove(
                    old(self).entry(0),
                )
                &&& final(self).keys().to_multiset() == old(self).keys().to_multiset().remove(
                    old(self).key(0),
                )
            },
    {
        broadcast use vstd::seq_lib::group_to_multiset_ensures;
        broadcast use vstd::seq_lib::to_multiset_update;
        broadcast use vstd::multiset::group_multiset_axioms;
        broadcast use vstd::multiset::group_multiset_properties;

        if self.push_head == 0 {
            return None;
        }
        let mut rootslot: Option<HeapNode<T>> = None;
        self.data.set_and_swap(0, &mut rootslot);
        let result = match rootslot {
            Some(n) => Some(n.item),
            None => None,
        };

        if self.push_head <= 1 {
            self.push_head = 0;
            proof {
                assert(old(self).entries() =~= Seq::<(i64, T)>::empty().push(old(self).entry(0)));
                assert(old(self).keys() =~= Seq::<int>::empty().push(old(self).key(0)));
                assert(self.entries() =~= Seq::<(i64, T)>::empty());
                assert(self.keys() =~= Seq::<int>::empty());
                assert(self.entries().to_multiset() =~= old(self).entries().to_multiset().remove(old(self).entry(0)));
                assert(self.keys().to_multiset() =~= old(self).keys().to_multiset().remove(
                    old(self).key(0),
                ));
            }
            return result;
        }

        let mut last: Option<HeapNode<T>> = None;
        self.data.set_and_swap(self.push_head - 1, &mut last);
        self.data.set(0, last);
        self.push_head = self.push_head - 1;
        proof {
            let n = old(self).push_head as int;
            let oe = old(self).entries();
            let ok = old(self).keys();
            assert(self.entries() =~= oe.update(0, oe[n - 1]).remove(n - 1));
            assert(self.keys() =~= ok.update(0, ok[n - 1]).remove(n - 1));
            assert(oe.update(0, oe[n - 1])[n - 1] == oe[n - 1]);
            assert(oe.contains(oe[0]));
            assert(ok.contains(ok[0]));
            assert(self.entries().to_multiset() =~= oe.to_multiset().remove(oe[0]));
            assert(self.keys().to_multiset() =~= ok.to_multiset().remove(ok[0]));
            assert(oe[0] == old(self).entry(0));
            assert(ok[0] == old(self).key(0));
            assert forall|j: int|
                1 <= j < self.push_head && parent_index(j) != 0 implies self.heap_ok_at(j) by {
                assert(old(self).heap_ok_at(j));
                assert(parent_index(j) >= 1);
                assert(self.key(j) == old(self).key(j));
                assert(self.key(parent_index(j)) == old(self).key(parent_index(j)));
            }
        }
        self.sink_node(1);
        result
    }

    /// How many items are currently stored.
    pub fn len(&self) -> (r: usize)
        ensures
            r == self.occupancy(),
    {
        self.push_head
    }

    /// Removes and returns the item with the least key; `None` when empty.
    pub fn pop(&mut self) -> (r: Option<T>)
        requires
            old(self).wf(),
        ensures
            final(self).wf(),
            final(self).capacity() == old(self).capacity(),
            old(self).occupancy() == 0 ==> r.is_none() && *final(self) == *old(self),
            old(self).occupancy() > 0 ==> {
                &&& r == Some(old(self).entry(0).1)
                &&& old(self).entries().to_multiset().count(old(self).entry(0)) > 0
                &&& final(self).occupancy() == old(self).occupancy() - 1
                &&& final(self).entries().to_multiset() == old(self).entries().to_multiset().remove(
                    old(self).entry(0),
                )
                &&& final(self).keys().to_multiset() == old(self).keys().to_multiset().remove(
                    old(self).key(0),
                )
                &&& forall|j: int|
                    0 <= j < old(self).occupancy() ==> old(self).key(0) <= #[trigger] old(self).key(
                        j,
                    )
            },
    {
        proof {
            old(self).lemma_root_min();
            if old(self).push_head > 0 {
                broadcast use vstd::seq_lib::group_to_multiset_ensures;

                assert(old(self).entries()[0] == old(self).entry(0));
                assert(old(self).entries().contains(old(self).entry(0)));
            }
        }
        self.pop_inner()
    }
}

/// The retention policy keeps exactly `min(M, K)` of the first `M` keys
/// pushed, and the retained keys are the `K` greatest ones: every key left
/// out is less than or equal to every key kept.
pub proof fn lemma_retained_is_top_selection(pushes: Seq<int>, k: int)
    requires
        k >= 0,
    ensures
        is_top_selection(pushes.to_multiset(), retained_after(pushes, k), k),
    decreases pushes.len(),
{
    broadcast use vstd::seq_lib::group_to_multiset_ensures;
    broadcast use vstd::multiset::group_multiset_axioms;
    broadcast use vstd::multiset::group_multiset_properties;

    if pushes.len() == 0 {
        assert(pushes.to_multiset().len() == 0);
        assert(retained_after(pushes, k) == Multiset::<int>::empty());
        assert(forall|x: int| Multiset::<int>::empty().count(x) == 0);
    } else {
        let s0 = pushes.drop_last();
        let v = pushes.last();
        lemma_retained_is_top_selection(s0, k);
        let all0 = s0.to_multiset();
        let r0 = retained_after(s0, k);
        let all = pushes.to_multiset();
        let r = retained_after(pushes, k);
        assert(pushes =~= s0.push(v));
        assert(all == all0.insert(v));
        assert(all.len() == all0.len() + 1);

        if r0.len() < k {
            // Room to spare: nothing has ever been left out.
            assert(all0.len() <= k);
            assert(r == r0.insert(v));
            assert(r.subset_of(all)) by {
                assert(forall|x: int|
                    #[trigger] r.count(x) <= all.count(x));
            }
            assert forall|a: int, b: int|
                #[trigger] r.count(a) > 0 && #[trigger] all.sub(r).count(b) > 0 implies b <= a by {
                assert(all0.len() == r0.len());
                assert(all0.sub(r0).len() == 0);
                assert(all.sub(r).count(b) == all0.sub(r0).count(b));
                assert(all0.sub(r0).count(b) <= all0.sub(r0).len());
            }
        } else {
            assert(r0.len() == k);
            assert(all0.len() >= k);
            if k > 0 && v > multiset_min(r0) {
                lemma_multiset_min(r0);
                let m = multiset_min(r0);
                assert(r == r0.insert(v).remove(m));
                assert(r0.count(m) > 0);
                assert(r.len() == k);
                assert(r.subset_of(all)) by {
                    assert forall|x: int| #[trigger] r.count(x) <= all.count(x) by {
                        if x == v {
                            assert(r0.count(x) <= all0.count(x));
                        } else if x == m {
                            assert(r0.count(x) <= all0.count(x));
                        } else {
                            assert(r.count(x) == r0.count(x));
                            assert(r0.count(x) <= all0.count(x));
                        }
                    }
                }
                assert forall|a: int, b: int|
                    #[trigger] r.count(a) > 0 && #[trigger] all.sub(r).count(b) > 0 implies b
                    <= a by {
                    // excluded counts: all.sub(r) == all0.sub(r0).insert(m)
                    assert(all.sub(r).count(b) > 0);
                    if b == m {
                        // m <= every retained element of r0, and m < v
                        if a == v {
                            assert(m <= a);
                        } else {
                            assert(r.count(a) > 0);
                            if a != m {
                                assert(r0.count(a) > 0);
                                assert(m <= a);
                            } else {
                                assert(r.count(m) > 0);
                                assert(r0.count(m) >= r.count(m));
                                assert(m <= a);
                            }
                        }
                    } else {
                        assert(all.sub(r).count(b) == all0.sub(r0).count(b));
                        assert(all0.sub(r0).count(b) > 0);
                        if a == v {
                            assert(r0.count(m) > 0);
                            assert(b <= m);
                            assert(m < v);
                        } else {
                            if r0.count(a) > 0 {
                                assert(b <= a);
                            } else {
                                assert(r.count(a) > 0);
                                assert(a == v);
                            }
                        }
                    }
                }
            } else {
                assert(r == r0);
                assert(r.subset_of(all)) by {
                    assert forall|x: int| #[trigger] r.count(x) <= all.count(x) by {
                        assert(r0.count(x) <= all0.count(x));
                        assert(all0.count(x) <= all.count(x));
                    }
                }
                assert(r.len() == if all.len() <= k {
                    all.len() as int
                } else {
                    k
                });
                assert forall|a: int, b: int|
                    #[trigger] r.count(a) > 0 && #[trigger] all.sub(r).count(b) > 0 implies b
                    <= a by {
                    if b == v && all0.sub(r0).count(b) == 0 {
                        // the newly rejected key: at full capacity it is <= the minimum
                        if k > 0 {
                            lemma_multiset_min(r0);
                            assert(v <= multiset_min(r0));
                            assert(multiset_min(r0) <= a);
                        } else {
                            assert(r0.len() == 0);
                            assert(r0.count(a) <= r0.len());
                        }
                    } else {
                        assert(all.sub(r).count(b) > 0);
                        if b != v {
                            assert(all.sub(r).count(b) == all0.sub(r0).count(b));
                        }
                        assert(all0.sub(r0).count(b) > 0);
                        assert(b <= a);
                    }
                }
            }
        }
    }
}

} // verus!
