//! A queue that hands out the cheapest of its entries first.
use vstd::multiset::Multiset;
use vstd::prelude::*;

verus! {

/// One pending edge collapse, and the error it would cost.
///
/// The stamps are how many collapses each end had taken when this was queued:
/// an end that has moved since makes the entry stale.
#[derive(Clone, Copy, Debug)]
pub struct Collapse<P> {
    pub key: u32,
    pub from: u32,
    pub into: u32,
    pub from_stamp: u32,
    pub into_stamp: u32,
    pub position: P,
}

/// Pending collapses, as a heap: no entry costs less than the one above it.
pub struct Queue<P> {
    items: Vec<Collapse<P>>,
}

spec fn in_order<P>(items: Seq<Collapse<P>>, i: int) -> bool {
    items[(i - 1) / 2].key <= items[i].key
}

proof fn lemma_swap<A>(s: Seq<A>, i: int, j: int)
    requires
        0 <= i < s.len(),
        0 <= j < s.len(),
    ensures
        s.update(i, s[j]).update(j, s[i]).to_multiset() == s.to_multiset(),
{
    broadcast use vstd::seq_lib::group_to_multiset_ensures;
    broadcast use vstd::multiset::group_multiset_axioms;

    let t = s.update(i, s[j]).update(j, s[i]);
    if i == j {
        assert(t =~= s);
    } else {
        let u = s.update(i, s[j]);
        assert(u.remove(i) =~= s.remove(i));
        assert(t.remove(j) =~= u.remove(j));
        assert(u.to_multiset().remove(s[j]) == s.to_multiset().remove(s[i]));
        assert(t.to_multiset().remove(s[i]) == u.to_multiset().remove(u[j]));
        assert(u[j] == s[j]);
        assert(t.to_multiset().contains(s[i])) by {
            assert(t[j] == s[i]);
        }
        assert(s.to_multiset().contains(s[i]));
        assert(t.to_multiset() =~= t.to_multiset().remove(s[i]).insert(s[i]));
        assert(s.to_multiset() =~= s.to_multiset().remove(s[i]).insert(s[i]));
    }
}

/// The top of a heap costs least.
proof fn lemma_top<P>(items: Seq<Collapse<P>>, i: int)
    requires
        0 <= i < items.len(),
        forall|k: int| 0 < k < items.len() ==> #[trigger] in_order(items, k),
    ensures
        items[0].key <= items[i].key,
    decreases i,
{
    if i > 0 {
        assert(in_order(items, i));
        lemma_top(items, (i - 1) / 2);
    }
}

impl<P: Copy> Queue<P> {
    /// The entries.
    pub closed spec fn entries(&self) -> Multiset<Collapse<P>> {
        self.items@.to_multiset()
    }

    /// Whether no entry costs less than the one above it.
    pub closed spec fn wf(&self) -> bool {
        forall|k: int| 0 < k < self.items@.len() ==> #[trigger] in_order(self.items@, k)
    }

    /// A queue of nothing.
    pub fn new() -> (queue: Queue<P>)
        ensures
            queue.wf(),
            queue.entries() == Multiset::<Collapse<P>>::empty(),
    {
        let queue = Queue { items: Vec::new() };
        proof {
            broadcast use vstd::seq_lib::group_to_multiset_ensures;
            broadcast use vstd::multiset::group_multiset_axioms;

            assert(queue.items@.to_multiset().len() == 0);
            assert(queue.entries() =~= Multiset::empty());
        }
        queue
    }

    /// Adds an entry.
    pub fn push(&mut self, entry: Collapse<P>)
        requires
            old(self).wf(),
        ensures
            final(self).wf(),
            final(self).entries() == old(self).entries().insert(entry),
    {
        broadcast use vstd::seq_lib::group_to_multiset_ensures;

        let ghost wanted = self.entries().insert(entry);
        let ghost start = self.items@;
        let mut i: usize = self.items.len();
        self.items.push(entry);
        assert(self.items@.to_multiset() =~= wanted);
        assert forall|k: int| 0 < k < self.items@.len() && k != i implies #[trigger] in_order(
            self.items@,
            k,
        ) by {
            assert(in_order(start, k));
        }
        while i > 0
            invariant
                i < self.items@.len(),
                self.items@.to_multiset() == wanted,
                forall|k: int|
                    0 < k < self.items@.len() && k != i ==> #[trigger] in_order(self.items@, k),
                forall|k: int|
                    0 < k < self.items@.len() && (k - 1) / 2 == i && i > 0 ==> self.items@[(i - 1)
                        / 2].key <= (#[trigger] self.items@[k]).key,
            ensures
                self.items@.to_multiset() == wanted,
                forall|k: int| 0 < k < self.items@.len() ==> #[trigger] in_order(self.items@, k),
            decreases i,
        {
            let parent: usize = (i - 1) / 2;
            let (above, below) = (self.items[parent], self.items[i]);
            if above.key <= below.key {
                assert(in_order(self.items@, i as int));
                break;
            }
            let ghost before = self.items@;
            proof {
                lemma_swap(before, parent as int, i as int);
            }
            self.items.set(parent, below);
            self.items.set(i, above);
            proof {
                let after = self.items@;
                assert(after =~= before.update(parent as int, before[i as int]).update(
                    i as int,
                    before[parent as int],
                ));
                assert forall|k: int| 0 < k < after.len() && k != parent implies #[trigger] in_order(
                    after,
                    k,
                ) by {
                    if k == i {
                    } else {
                        assert(in_order(before, k));
                        if (k - 1) / 2 == i {
                            assert(before[parent as int].key <= before[k].key);
                        }
                    }
                }
                assert forall|k: int|
                    0 < k < after.len() && (k - 1) / 2 == parent && parent
                        > 0 implies after[(parent - 1) / 2].key <= (#[trigger] after[k]).key by {
                    assert(in_order(before, parent as int));
                    if k != i {
                        assert(in_order(before, k));
                    }
                }
            }
            i = parent;
        }
    }

    /// Takes the cheapest entry.
    pub fn pop(&mut self) -> (entry: Option<Collapse<P>>)
        requires
            old(self).wf(),
        ensures
            final(self).wf(),
            match entry {
                None => {
                    &&& old(self).entries() == Multiset::<Collapse<P>>::empty()
                    &&& final(self).entries() == old(self).entries()
                },
                Some(entry) => {
                    &&& old(self).entries().count(entry) > 0
                    &&& final(self).entries() == old(self).entries().remove(entry)
                    &&& forall|other: Collapse<P>| #[trigger]
                        old(self).entries().count(other) > 0 ==> entry.key <= other.key
                },
            },
    {
        broadcast use vstd::seq_lib::group_to_multiset_ensures;
        broadcast use vstd::multiset::group_multiset_axioms;

        let ghost start = self.items@;
        let count: usize = self.items.len();
        if count == 0 {
            assert(start.to_multiset().len() == 0);
            assert(self.entries() =~= Multiset::empty());
            return None;
        }
        let top = self.items[0];
        proof {
            assert(start.contains(start[0]));
            assert forall|other: Collapse<P>| #[trigger]
                start.to_multiset().count(other) > 0 implies top.key <= other.key by {
                assert(start.contains(other));
                let i = choose|i: int| 0 <= i < start.len() && start[i] == other;
                lemma_top(start, i);
            }
        }
        let last = self.items[count - 1];
        self.items.pop();
        let ghost wanted = start.to_multiset().remove(top);
        if count == 1 {
            assert(self.items@ =~= start.remove(0));
            return Some(top);
        }
        let mut i: usize = 0;
        let ghost short = start.drop_last();
        proof {
            assert(start.to_multiset() =~= short.to_multiset().insert(last)) by {
                assert(short.push(last) =~= start);
            }
            assert(short.to_multiset().remove(top).insert(last) =~= wanted) by {
                assert(short.contains(short[0]));
            }
        }
        self.items.set(0, last);
        proof {
            let s = self.items@;
            assert(s.remove(0) =~= short.remove(0));
            assert(s.to_multiset().remove(last) == short.to_multiset().remove(top));
            assert(s.contains(s[0]));
            assert(s.to_multiset() =~= s.to_multiset().remove(last).insert(last));
            assert(s.to_multiset() =~= wanted);
            assert forall|k: int| 0 < k < s.len() && (k - 1) / 2 != 0 implies #[trigger] in_order(
                s,
                k,
            ) by {
                assert(in_order(start, k));
            }
        }
        loop
            invariant
                i < self.items@.len(),
                self.items@.len() == count - 1,
                self.items@.to_multiset() == wanted,
                forall|k: int|
                    0 < k < self.items@.len() && (k - 1) / 2 != i ==> #[trigger] in_order(
                        self.items@,
                        k,
                    ),
                forall|k: int|
                    0 < k < self.items@.len() && (k - 1) / 2 == i && i > 0 ==> self.items@[(i - 1)
                        / 2].key <= (#[trigger] self.items@[k]).key,
            ensures
                self.items@.to_multiset() == wanted,
                forall|k: int| 0 < k < self.items@.len() ==> #[trigger] in_order(self.items@, k),
            decreases count - i,
        {
            let size: usize = self.items.len();
            if i > (size - 1) / 2 || 2 * i + 1 >= size {
                assert forall|k: int| 0 < k < self.items@.len() implies #[trigger] in_order(
                    self.items@,
                    k,
                ) by {}
                break;
            }
            let left: usize = 2 * i + 1;
            let child: usize = if left + 1 < size && self.items[left + 1].key
                < self.items[left].key {
                left + 1
            } else {
                left
            };
            let (above, below) = (self.items[i], self.items[child]);
            if above.key <= below.key {
                assert forall|k: int| 0 < k < self.items@.len() implies #[trigger] in_order(
                    self.items@,
                    k,
                ) by {
                    if (k - 1) / 2 == i {
                        assert(k == left || k == left + 1);
                    }
                }
                break;
            }
            let ghost before = self.items@;
            proof {
                lemma_swap(before, i as int, child as int);
            }
            self.items.set(i, below);
            self.items.set(child, above);
            proof {
                let after = self.items@;
                assert(after =~= before.update(i as int, before[child as int]).update(
                    child as int,
                    before[i as int],
                ));
                assert forall|k: int|
                    0 < k < after.len() && (k - 1) / 2 != child implies #[trigger] in_order(
                    after,
                    k,
                ) by {
                    if (k - 1) / 2 == i {
                        assert(k == left || k == left + 1);
                    } else {
                        assert(in_order(before, k));
                        if k == i {
                            assert(before[(i - 1) / 2].key <= before[child as int].key);
                        }
                    }
                }
                assert forall|k: int|
                    0 < k < after.len() && (k - 1) / 2 == child && child
                        > 0 implies after[(child - 1) / 2].key <= (#[trigger] after[k]).key by {
                    assert(in_order(before, k));
                }
            }
            i = child;
        }
        Some(top)
    }
}

} // verus!
