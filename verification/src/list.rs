use vstd::prelude::*;

use crate::order::Cmp;
use crate::order::TotalOrder;
use crate::order::merge_seqs;
use crate::order::sorted;

verus! {

/// One element holder in the chain: a value and the arena index of the
/// next node, or `None` at the tail.
pub struct Node<T> {
    pub val: T,
    pub next: Option<usize>,
}

impl<T> Node<T> {
    pub fn new(t: T) -> (n: Node<T>)
        ensures
            n.val == t,
            n.next == None::<usize>,
    {
        Node { val: t, next: None }
    }
}

/// A singly linked list whose nodes live in an arena and are chained by
/// `next` indices from `head` to `tail`.
///
/// Values and links are kept in two vectors sharing their indexing, so
/// that a link can be rewritten without touching (or copying) the value
/// held by the node. The ghost sequence `order` records the arena index
/// of each node in list order; it ties the chain of links to the
/// sequence of values the list abstracts to.
pub struct LinkedList<T> {
    vals: Vec<T>,
    nexts: Vec<Option<usize>>,
    head: Option<usize>,
    tail: Option<usize>,
    length: u32,
    order: Ghost<Seq<usize>>,
}

impl<T> View for LinkedList<T> {
    type V = Seq<T>;

    closed spec fn view(&self) -> Seq<T> {
        Seq::new(self.order@.len(), |k: int| self.vals@[self.order@[k] as int])
    }
}

impl<T> Default for LinkedList<T> {
    /// The default list is the empty list.
    fn default() -> (l: Self)
        ensures
            l.wf(),
            l@ == Seq::<T>::empty(),
    {
        LinkedList::new()
    }
}

impl<T> LinkedList<T> {
    /// Well-formedness: `length` counts the nodes, the nodes listed by
    /// `order` are distinct arena slots, `head` and `tail` name the first
    /// and last of them, and each node's link leads to its successor in
    /// `order`, the tail's link leading nowhere.
    pub closed spec fn wf(&self) -> bool {
        let ord = self.order@;
        &&& self.nexts@.len() == self.vals@.len()
        &&& ord.len() == self.length as nat
        &&& (forall|k: int| 0 <= k < ord.len() ==> (#[trigger] ord[k] as int) < self.vals@.len())
        &&& (forall|k1: int, k2: int| 0 <= k1 < k2 < ord.len() ==> ord[k1] != ord[k2])
        &&& (if ord.len() == 0 {
            self.head == None::<usize> && self.tail == None::<usize>
        } else {
            self.head == Some(ord[0]) && self.tail == Some(ord[ord.len() - 1])
        })
        &&& (forall|k: int| 0 <= k < ord.len() - 1 ==> self.nexts@[#[trigger] ord[k] as int] == Some(
            ord[k + 1],
        ))
        &&& (ord.len() > 0 ==> self.nexts@[ord[ord.len() - 1] as int] == None::<usize>)
    }

    /// An empty list: no nodes, no head, no tail.
    pub fn new() -> (l: LinkedList<T>)
        ensures
            l.wf(),
            l@ == Seq::<T>::empty(),
    {
        let l = LinkedList {
            vals: Vec::new(),
            nexts: Vec::new(),
            head: None,
            tail: None,
            length: 0,
            order: Ghost(Seq::empty()),
        };
        proof {
            assert(l@ =~= Seq::<T>::empty());
        }
        l
    }

    /// Appends `obj` at the tail: a new node is allocated at a fresh
    /// arena slot, linked after the current tail (or made the head of an
    /// empty list), and the count grows by one.
    pub fn add(&mut self, obj: T)
        requires
            old(self).wf(),
            old(self)@.len() < u32::MAX as nat,
        ensures
            final(self).wf(),
            final(self)@ == old(self)@.push(obj),
    {
        let idx = self.vals.len();
        let node = Node::new(obj);
        let Node { val, next } = node;
        self.vals.push(val);
        self.nexts.push(next);
        match self.tail {
            None => {
                self.head = Some(idx);
            },
            Some(t) => {
                proof {
                    let ord = self.order@;
                    assert(t == ord[ord.len() - 1]);
                }
                self.nexts.set(t, Some(idx));
            },
        }
        self.tail = Some(idx);
        self.length = self.length + 1;
        proof {
            self.order@ = self.order@.push(idx);
            assert(self@ =~= old(self)@.push(obj));
        }
    }

    /// Zero-based indexed lookup: walks the chain from the head and
    /// returns the value at `index`, or `None` when `index` is negative
    /// or at least the length. The walk is iterative, bounded by `index`.
    pub fn get(&self, index: i32) -> (r: Option<&T>)
        requires
            self.wf(),
        ensures
            (r is Some) <==> 0 <= index && (index as int) < self@.len(),
            (r matches Some(v) ==> *v == self@[index as int]),
    {
        if index < 0 {
            return None;
        }
        let idx = index as usize;
        let mut cur: Option<usize> = self.head;
        let mut k: usize = 0;
        loop
            invariant
                self.wf(),
                idx == index as int,
                k <= idx,
                k as int <= self@.len(),
                cur == (if (k as int) < self@.len() {
                    Some(self.order@[k as int])
                } else {
                    None::<usize>
                }),
            decreases idx - k,
        {
            match cur {
                None => {
                    return None;
                },
                Some(i) => {
                    proof {
                        assert(i == self.order@[k as int]);
                    }
                    if k == idx {
                        return Some(&self.vals[i]);
                    }
                    cur = self.nexts[i];
                    k = k + 1;
                },
            }
        }
    }

    /// Reverses the list in place: one forward pass re-points each
    /// node's link at its predecessor, so the former tail becomes the
    /// head and the former head becomes the tail. No node is moved or
    /// copied; only links change. Empty and single-element lists are
    /// left unchanged.
    pub fn reverse(&mut self)
        requires
            old(self).wf(),
        ensures
            final(self).wf(),
            final(self)@ == old(self)@.reverse(),
    {
        let ghost ord0 = self.order@;
        let ghost nexts0 = self.nexts@;
        let mut prev: Option<usize> = None;
        let mut cur: Option<usize> = self.head;
        let ghost mut j: int = 0;
        loop
            invariant
                old(self).wf(),
                ord0 == old(self).order@,
                nexts0 == old(self).nexts@,
                self.vals@ == old(self).vals@,
                self.head == old(self).head,
                self.tail == old(self).tail,
                self.length == old(self).length,
                self.order@ == ord0,
                self.nexts@.len() == nexts0.len(),
                0 <= j <= ord0.len(),
                cur == (if j < ord0.len() {
                    Some(ord0[j])
                } else {
                    None::<usize>
                }),
                prev == (if j == 0 {
                    None::<usize>
                } else {
                    Some(ord0[j - 1])
                }),
                forall|k: int|
                    0 <= k < j ==> self.nexts@[#[trigger] ord0[k] as int] == (if k == 0 {
                        None::<usize>
                    } else {
                        Some(ord0[k - 1])
                    }),
                forall|k: int|
                    j <= k < ord0.len() ==> self.nexts@[#[trigger] ord0[k] as int] == nexts0[ord0[k] as int],
            ensures
                self.vals@ == old(self).vals@,
                self.head == old(self).head,
                self.tail == old(self).tail,
                self.length == old(self).length,
                self.order@ == ord0,
                self.nexts@.len() == nexts0.len(),
                j == ord0.len(),
                prev == (if ord0.len() == 0 {
                    None::<usize>
                } else {
                    Some(ord0[ord0.len() - 1])
                }),
                forall|k: int|
                    0 <= k < ord0.len() ==> self.nexts@[#[trigger] ord0[k] as int] == (if k == 0 {
                        None::<usize>
                    } else {
                        Some(ord0[k - 1])
                    }),
            decreases ord0.len() - j,
        {
            match cur {
                None => {
                    break ;
                },
                Some(i) => {
                    proof {
                        assert(i == ord0[j]);
                    }
                    let nxt = self.nexts[i];
                    self.nexts.set(i, prev);
                    prev = Some(i);
                    cur = nxt;
                    proof {
                        j = j + 1;
                    }
                },
            }
        }
        self.tail = self.head;
        self.head = prev;
        proof {
            assert(j == ord0.len());
            self.order@ = ord0.reverse();
            let n = ord0.len() as int;
            let ordn = self.order@;
            assert(ordn.len() == n);
            assert forall|k: int| 0 <= k < n implies ordn[k] == ord0[n - 1 - k] by {}
            assert forall|k: int| 0 <= k < n - 1 implies self.nexts@[#[trigger] ordn[k] as int]
                == Some(ordn[k + 1]) by {
                assert(ordn[k] == ord0[n - 1 - k]);
                assert(self.nexts@[ord0[n - 1 - k] as int] == Some(ord0[n - 2 - k]));
            }
            if n > 0 {
                assert(ordn[0] == ord0[n - 1]);
                assert(ordn[n - 1] == ord0[0]);
                assert(self.nexts@[ordn[n - 1] as int] == None::<usize>);
            }
            assert(self.wf());
            assert(self@ =~= old(self)@.reverse());
        }
    }

    /// The arena index of the node at position `k`, if there is one: an
    /// opaque handle that the traversal helpers below hand along.
    pub closed spec fn node_at(&self, k: int) -> Option<usize> {
        if 0 <= k && k < self.order@.len() {
            Some(self.order@[k])
        } else {
            None
        }
    }

    /// The handle of the head node.
    pub(crate) fn head_index(&self) -> (h: Option<usize>)
        requires
            self.wf(),
        ensures
            h == self.node_at(0),
            (h is Some) <==> self@.len() > 0,
    {
        self.head
    }

    /// The handle of the node after the one at position `k`.
    pub(crate) fn next_of(&self, i: usize, Ghost(k): Ghost<int>) -> (r: Option<usize>)
        requires
            self.wf(),
            self.node_at(k) == Some(i),
        ensures
            r == self.node_at(k + 1),
            (r is Some) <==> k + 1 < self@.len(),
    {
        self.nexts[i]
    }

    /// The value at position `k`, read through its node's handle.
    pub(crate) fn value_at(&self, i: usize, Ghost(k): Ghost<int>) -> (v: &T)
        requires
            self.wf(),
            self.node_at(k) == Some(i),
        ensures
            *v == self@[k],
    {
        &self.vals[i]
    }

    /// The number of elements in the list.
    pub fn length(&self) -> (n: u32)
        requires
            self.wf(),
        ensures
            n as nat == self@.len(),
    {
        self.length
    }
}

impl<T: TotalOrder + Copy> LinkedList<T> {
    /// Merges two lists, consuming both: a stable two-pointer walk over
    /// the chains, each step appending the smaller head (the first
    /// list's on a tie) to a fresh list; when one input runs out, the
    /// rest of the other follows in order. The result is pinned to
    /// `merge_seqs` of the two input sequences, so it is sorted exactly
    /// when the inputs were.
    #[verifier::rlimit(100)]
    pub fn merge(list_a: LinkedList<T>, list_b: LinkedList<T>) -> (r: LinkedList<T>)
        requires
            list_a.wf(),
            list_b.wf(),
            list_a@.len() + list_b@.len() < u32::MAX as nat,
        ensures
            r.wf(),
            r@ == merge_seqs(list_a@, list_b@),
            r@.len() == list_a@.len() + list_b@.len(),
            r@.to_multiset() == list_a@.to_multiset().add(list_b@.to_multiset()),
            sorted(list_a@) && sorted(list_b@) ==> sorted(r@),
    {
        proof {
            crate::laws::lemma_merge_length(list_a@, list_b@);
            crate::laws::lemma_merge_multiset(list_a@, list_b@);
            if sorted(list_a@) && sorted(list_b@) {
                crate::laws::lemma_merge_sorted(list_a@, list_b@);
            }
        }
        let mut merged = LinkedList::new();
        let mut cur_a: Option<usize> = list_a.head;
        let mut cur_b: Option<usize> = list_b.head;
        let ghost mut ai: int = 0;
        let ghost mut bi: int = 0;
        proof {
            assert(list_a@.skip(0) =~= list_a@);
            assert(list_b@.skip(0) =~= list_b@);
            assert(merged@ + merge_seqs(list_a@, list_b@) =~= merge_seqs(list_a@, list_b@));
        }
        loop
            invariant
                list_a.wf(),
                list_b.wf(),
                merged.wf(),
                list_a@.len() + list_b@.len() < u32::MAX as nat,
                0 <= ai <= list_a@.len(),
                0 <= bi <= list_b@.len(),
                cur_a == (if ai < list_a@.len() {
                    Some(list_a.order@[ai])
                } else {
                    None::<usize>
                }),
                cur_b == (if bi < list_b@.len() {
                    Some(list_b.order@[bi])
                } else {
                    None::<usize>
                }),
                merged@.len() == ai + bi,
                merged@ + merge_seqs(list_a@.skip(ai), list_b@.skip(bi)) == merge_seqs(
                    list_a@,
                    list_b@,
                ),
            ensures
                merged.wf(),
                merged@ == merge_seqs(list_a@, list_b@),
            decreases (list_a@.len() - ai) + (list_b@.len() - bi),
        {
            let ghost sa = list_a@.skip(ai);
            let ghost sb = list_b@.skip(bi);
            match (cur_a, cur_b) {
                (None, None) => {
                    proof {
                        assert(sa =~= Seq::<T>::empty());
                        assert(sb =~= Seq::<T>::empty());
                        assert(merged@ + merge_seqs(sa, sb) =~= merged@);
                    }
                    break ;
                },
                (Some(i), None) => {
                    proof {
                        assert(i == list_a.order@[ai]);
                        assert(sb =~= Seq::<T>::empty());
                        assert(sa.first() == list_a@[ai]);
                    }
                    let v = list_a.vals[i];
                    let ghost m0 = merged@;
                    merged.add(v);
                    cur_a = list_a.nexts[i];
                    proof {
                        ai = ai + 1;
                        assert(sa.drop_first() =~= list_a@.skip(ai));
                        assert(merge_seqs(sa, sb) == sa);
                        assert(m0.push(sa.first()) + sa.drop_first() =~= m0 + sa);
                    }
                },
                (None, Some(jx)) => {
                    proof {
                        assert(jx == list_b.order@[bi]);
                        assert(sa =~= Seq::<T>::empty());
                        assert(sb.first() == list_b@[bi]);
                    }
                    let v = list_b.vals[jx];
                    let ghost m0 = merged@;
                    merged.add(v);
                    cur_b = list_b.nexts[jx];
                    proof {
                        bi = bi + 1;
                        assert(sb.drop_first() =~= list_b@.skip(bi));
                        assert(merge_seqs(sa, sb) == sb);
                        assert(m0.push(sb.first()) + sb.drop_first() =~= m0 + sb);
                    }
                },
                (Some(i), Some(jx)) => {
                    proof {
                        assert(i == list_a.order@[ai]);
                        assert(jx == list_b.order@[bi]);
                        assert(sa.first() == list_a@[ai]);
                        assert(sb.first() == list_b@[bi]);
                    }
                    let av = list_a.vals[i];
                    let bv = list_b.vals[jx];
                    match av.compare(&bv) {
                        Cmp::Gt => {
                            proof {
                                if av.le(bv) {
                                    TotalOrder::lemma_antisymmetric(av, bv);
                                }
                                assert(!sa.first().le(sb.first()));
                            }
                            let ghost m0 = merged@;
                            merged.add(bv);
                            cur_b = list_b.nexts[jx];
                            proof {
                                bi = bi + 1;
                                assert(sb.drop_first() =~= list_b@.skip(bi));
                                assert(merge_seqs(sa, sb) == seq![sb.first()] + merge_seqs(
                                    sa,
                                    sb.drop_first(),
                                ));
                                assert(m0.push(sb.first()) + merge_seqs(sa, sb.drop_first()) =~= m0
                                    + merge_seqs(sa, sb));
                            }
                        },
                        _ => {
                            proof {
                                if av == bv {
                                    TotalOrder::lemma_reflexive(av);
                                }
                                assert(sa.first().le(sb.first()));
                            }
                            let ghost m0 = merged@;
                            merged.add(av);
                            cur_a = list_a.nexts[i];
                            proof {
                                ai = ai + 1;
                                assert(sa.drop_first() =~= list_a@.skip(ai));
                                assert(merge_seqs(sa, sb) == seq![sa.first()] + merge_seqs(
                                    sa.drop_first(),
                                    sb,
                                ));
                                assert(m0.push(sa.first()) + merge_seqs(sa.drop_first(), sb) =~= m0
                                    + merge_seqs(sa, sb));
                            }
                        },
                    }
                },
            }
        }
        merged
    }
}

} // verus!
