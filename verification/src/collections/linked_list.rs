use vstd::prelude::*;

verus! {

use vstd::std_specs::cmp::PartialEqSpec;

/// One cell of the list's node arena: the stored element together with the
/// arena positions of its two neighbours. The forward direction is the one
/// the list is threaded by; the backward position is a lookup-only shortcut
/// that owns nothing, so no ownership cycle can arise.
#[derive(Clone, Copy)]
pub struct Node<T: Copy + PartialEq> {
    pub value: T,
    pub next: Option<usize>,
    pub prev: Option<usize>,
}

impl<T: Copy + PartialEq> Node<T> {
    /// Makes an isolated node holding `value`, with both neighbour links
    /// empty.
    pub fn new(value: T) -> (r: Node<T>)
        ensures
            r.value == value,
            r.next is None,
            r.prev is None,
    {
        Node { value, next: None, prev: None }
    }
}

// Two nodes are equal exactly when their stored values are equal; the
// neighbour links take no part in the comparison, so an isolated probe node
// compares equal to a linked node with the same value.
impl<T: Copy + PartialEq> PartialEq for Node<T> {
    fn eq(&self, other: &Node<T>) -> (r: bool) {
        self.value == other.value
    }

    fn ne(&self, other: &Node<T>) -> (r: bool) {
        self.value != other.value
    }
}

impl<T: Copy + PartialEq> vstd::std_specs::cmp::PartialEqSpecImpl for Node<T> {
    open spec fn obeys_eq_spec() -> bool {
        T::obeys_eq_spec()
    }

    open spec fn eq_spec(&self, other: &Node<T>) -> bool {
        self.value.eq_spec(&other.value)
    }
}

/// A doubly-linked list of values, backed by a node arena.
///
/// `head` and `last` hold the arena positions of the two ends; the nodes in
/// between are threaded through their `next` and `prev` positions, so both
/// ends are reachable in constant time. `chain` is the ghost record of the
/// arena positions in list order, front to back; every link invariant is
/// stated against it.
pub struct LinkedList<T: Copy + PartialEq> {
    pub length: usize,
    nodes: Vec<Node<T>>,
    head: Option<usize>,
    last: Option<usize>,
    chain: Ghost<Seq<int>>,
}

impl<T: Copy + PartialEq> View for LinkedList<T> {
    type V = Seq<T>;

    closed spec fn view(&self) -> Seq<T> {
        self.chain@.map(|_k: int, p: int| self.nodes@[p].value)
    }
}

impl<T: Copy + PartialEq> LinkedList<T> {
    /// Well-formed: the count matches the chain, every chain entry is a
    /// distinct arena position, the forward and backward links of each
    /// chained node point at its neighbours, and the two roots point at the
    /// ends.
    pub closed spec fn wf(&self) -> bool {
        let c = self.chain@;
        let ns = self.nodes@;
        &&& self.length == c.len()
        &&& c.len() <= ns.len()
        &&& (forall|k: int| 0 <= k < c.len() ==> 0 <= #[trigger] c[k] < ns.len())
        &&& (forall|k1: int, k2: int|
            #![trigger c[k1], c[k2]]
            0 <= k1 < k2 < c.len() ==> c[k1] != c[k2])
        &&& (forall|k: int|
            0 <= k < c.len() ==> (#[trigger] ns[c[k]].next) == (if k == c.len() - 1 {
                None::<usize>
            } else {
                Some(c[k + 1] as usize)
            }))
        &&& (forall|k: int|
            0 <= k < c.len() ==> (#[trigger] ns[c[k]].prev) == (if k == 0 {
                None::<usize>
            } else {
                Some(c[k - 1] as usize)
            }))
        &&& self.head == (if c.len() == 0 {
            None::<usize>
        } else {
            Some(c[0] as usize)
        })
        &&& self.last == (if c.len() == 0 {
            None::<usize>
        } else {
            Some(c[c.len() - 1] as usize)
        })
    }

    /// Makes an empty list: no nodes, both roots empty.
    pub fn new() -> (r: Self)
        ensures
            r.wf(),
            r@ == Seq::<T>::empty(),
    {
        let r = LinkedList {
            length: 0,
            nodes: Vec::new(),
            head: None,
            last: None,
            chain: Ghost(Seq::empty()),
        };
        proof {
            assert(r@ =~= Seq::<T>::empty());
        }
        r
    }

    fn push_back_node(&mut self, value: T)
        requires
            old(self).wf(),
        ensures
            final(self).wf(),
            final(self)@ == old(self)@.push(value),
    {
        let idx: usize = self.nodes.len();
        let mut new_node = Node::new(value);
        new_node.prev = self.last;
        self.nodes.push(new_node);
        match self.last {
            Some(old_last) => {
                proof {
                    let c0 = old(self).chain@;
                    assert(old_last == c0[c0.len() - 1]);
                    assert(0 <= c0[c0.len() - 1] < old(self).nodes@.len());
                }
                self.nodes[old_last].next = Some(idx);
            },
            None => {
                self.head = Some(idx);
            },
        }
        self.last = Some(idx);
        proof {
            vstd::std_specs::vec::axiom_spec_len(&self.nodes);
        }
        self.length = self.length + 1;
        self.chain = Ghost(self.chain@.push(idx as int));
        proof {
            let c0 = old(self).chain@;
            let c1 = self.chain@;
            let ns0 = old(self).nodes@;
            let ns1 = self.nodes@;
            assert(ns1.len() == ns0.len() + 1);
            assert forall|k: int| 0 <= k < c1.len() implies 0 <= #[trigger] c1[k] < ns1.len() by {
                if k < c0.len() {
                    assert(0 <= c0[k] < ns0.len());
                }
            }
            assert forall|k1: int, k2: int|
                #![trigger c1[k1], c1[k2]]
                0 <= k1 < k2 < c1.len() implies c1[k1] != c1[k2] by {
                assert(0 <= c0[k1] < ns0.len());
                if k2 < c0.len() {
                    assert(c0[k1] != c0[k2]);
                }
            }
            assert forall|k: int|
                0 <= k < c1.len() implies (#[trigger] ns1[c1[k]].next) == (if k == c1.len() - 1 {
                None::<usize>
            } else {
                Some(c1[k + 1] as usize)
            }) by {
                if k < c0.len() - 1 {
                    assert(c0[k] != c0[c0.len() - 1]);
                    assert(ns1[c0[k]].next == ns0[c0[k]].next);
                }
            }
            assert forall|k: int|
                0 <= k < c1.len() implies (#[trigger] ns1[c1[k]].prev) == (if k == 0 {
                None::<usize>
            } else {
                Some(c1[k - 1] as usize)
            }) by {
                if k < c0.len() {
                    if c0.len() > 0 && k < c0.len() - 1 {
                        assert(c0[k] != c0[c0.len() - 1]);
                        assert(ns1[c0[k]].prev == ns0[c0[k]].prev);
                    }
                }
            }
            assert(self.wf());
            assert forall|k: int| 0 <= k < c1.len() implies self@[k] == old(self)@.push(value)[k] by {
                if k < c0.len() {
                    if c0.len() > 0 && k < c0.len() - 1 {
                        assert(c0[k] != c0[c0.len() - 1]);
                    }
                    assert(ns1[c0[k]].value == ns0[c0[k]].value);
                }
            }
            assert(self@ =~= old(self)@.push(value));
        }
    }

    fn push_front_node(&mut self, value: T)
        requires
            old(self).wf(),
        ensures
            final(self).wf(),
            final(self)@ == seq![value] + old(self)@,
    {
        let idx: usize = self.nodes.len();
        let mut new_node = Node::new(value);
        new_node.next = self.head;
        self.nodes.push(new_node);
        match self.head {
            Some(old_head) => {
                proof {
                    let c0 = old(self).chain@;
                    assert(old_head == c0[0]);
                    assert(0 <= c0[0] < old(self).nodes@.len());
                }
                self.nodes[old_head].prev = Some(idx);
            },
            None => {
                self.last = Some(idx);
            },
        }
        self.head = Some(idx);
        proof {
            vstd::std_specs::vec::axiom_spec_len(&self.nodes);
        }
        self.length = self.length + 1;
        self.chain = Ghost(seq![idx as int] + self.chain@);
        proof {
            let c0 = old(self).chain@;
            let c1 = self.chain@;
            let ns0 = old(self).nodes@;
            let ns1 = self.nodes@;
            assert(ns1.len() == ns0.len() + 1);
            assert(c1.len() == c0.len() + 1);
            assert(c1[0] == idx as int);
            assert forall|k: int| 1 <= k < c1.len() implies #[trigger] c1[k] == c0[k - 1] by {}
            assert forall|k: int| 0 <= k < c1.len() implies 0 <= #[trigger] c1[k] < ns1.len() by {
                if k >= 1 {
                    assert(0 <= c0[k - 1] < ns0.len());
                }
            }
            assert forall|k1: int, k2: int|
                #![trigger c1[k1], c1[k2]]
                0 <= k1 < k2 < c1.len() implies c1[k1] != c1[k2] by {
                assert(0 <= c0[k2 - 1] < ns0.len());
                if k1 >= 1 {
                    assert(c0[k1 - 1] != c0[k2 - 1]);
                }
            }
            assert forall|k: int|
                0 <= k < c1.len() implies (#[trigger] ns1[c1[k]].next) == (if k == c1.len() - 1 {
                None::<usize>
            } else {
                Some(c1[k + 1] as usize)
            }) by {
                if k >= 1 && k - 1 > 0 {
                    assert(c0[k - 1] != c0[0]);
                    assert(ns1[c0[k - 1]].next == ns0[c0[k - 1]].next);
                }
            }
            assert forall|k: int|
                0 <= k < c1.len() implies (#[trigger] ns1[c1[k]].prev) == (if k == 0 {
                None::<usize>
            } else {
                Some(c1[k - 1] as usize)
            }) by {
                if k - 1 > 0 {
                    assert(c0[k - 1] != c0[0]);
                    assert(ns1[c0[k - 1]].prev == ns0[c0[k - 1]].prev);
                }
            }
            assert(self.wf());
            assert forall|k: int| 0 <= k < c1.len() implies self@[k] == (seq![value] + old(
                self,
            )@)[k] by {
                if k >= 1 {
                    if k - 1 > 0 {
                        assert(c0[k - 1] != c0[0]);
                    }
                    assert(ns1[c0[k - 1]].value == ns0[c0[k - 1]].value);
                }
            }
            assert(self@ =~= seq![value] + old(self)@);
        }
    }

    fn pop_back_node(&mut self) -> (r: Option<T>)
        requires
            old(self).wf(),
        ensures
            final(self).wf(),
            old(self)@.len() == 0 ==> r is None && final(self)@ == old(self)@,
            old(self)@.len() > 0 ==> r == Some(old(self)@.last()) && final(self)@ == old(
                self,
            )@.drop_last(),
    {
        match self.last {
            Some(last_idx) => {
                proof {
                    vstd::std_specs::vec::axiom_spec_len(&self.nodes);
                    let c0 = old(self).chain@;
                    assert(last_idx == c0[c0.len() - 1]);
                    assert(0 <= c0[c0.len() - 1] < old(self).nodes@.len());
                }
                let last_value: T = self.nodes[last_idx].value;
                let previous: Option<usize> = self.nodes[last_idx].prev;
                match previous {
                    Some(prev_idx) => {
                        proof {
                            let c0 = old(self).chain@;
                            assert(c0.len() >= 2);
                            assert(prev_idx == c0[c0.len() - 2]);
                            assert(0 <= c0[c0.len() - 2] < old(self).nodes@.len());
                        }
                        // the predecessor becomes the new tail
                        self.nodes[prev_idx].next = None;
                        self.last = Some(prev_idx);
                    },
                    None => {
                        // the tail was the only node: the list becomes empty
                        self.head = None;
                        self.last = None;
                    },
                }
                self.length = self.length - 1;
                self.chain = Ghost(self.chain@.drop_last());
                proof {
                    let c0 = old(self).chain@;
                    let c1 = self.chain@;
                    let ns0 = old(self).nodes@;
                    let ns1 = self.nodes@;
                    assert(c1.len() == c0.len() - 1);
                    assert forall|k: int| 0 <= k < c1.len() implies #[trigger] c1[k] == c0[k] by {}
                    assert forall|k: int|
                        0 <= k < c1.len() implies (#[trigger] ns1[c1[k]].next) == (if k == c1.len()
                        - 1 {
                        None::<usize>
                    } else {
                        Some(c1[k + 1] as usize)
                    }) by {
                        if k < c0.len() - 2 {
                            assert(c0[k] != c0[c0.len() - 2]);
                            assert(ns1[c0[k]].next == ns0[c0[k]].next);
                        }
                    }
                    assert forall|k: int|
                        0 <= k < c1.len() implies (#[trigger] ns1[c1[k]].prev) == (if k == 0 {
                        None::<usize>
                    } else {
                        Some(c1[k - 1] as usize)
                    }) by {
                        if c0.len() >= 2 && k != c0.len() - 2 {
                            assert(c0[k] != c0[c0.len() - 2]);
                            assert(ns1[c0[k]].prev == ns0[c0[k]].prev);
                        }
                    }
                    assert(self.wf());
                    assert forall|k: int| 0 <= k < c1.len() implies self@[k] == old(
                        self,
                    )@.drop_last()[k] by {
                        if c0.len() >= 2 && k != c0.len() - 2 {
                            assert(c0[k] != c0[c0.len() - 2]);
                        }
                        assert(ns1[c0[k]].value == ns0[c0[k]].value);
                    }
                    assert(self@ =~= old(self)@.drop_last());
                    assert(last_value == old(self)@.last());
                }
                Some(last_value)
            },
            None => None,
        }
    }

    fn pop_front_node(&mut self) -> (r: Option<T>)
        requires
            old(self).wf(),
        ensures
            final(self).wf(),
            old(self)@.len() == 0 ==> r is None && final(self)@ == old(self)@,
            old(self)@.len() > 0 ==> r == Some(old(self)@[0]) && final(self)@ == old(
                self,
            )@.drop_first(),
    {
        match self.head {
            Some(head_idx) => {
                proof {
                    vstd::std_specs::vec::axiom_spec_len(&self.nodes);
                    let c0 = old(self).chain@;
                    assert(head_idx == c0[0]);
                    assert(0 <= c0[0] < old(self).nodes@.len());
                }
                let head_value: T = self.nodes[head_idx].value;
                let next: Option<usize> = self.nodes[head_idx].next;
                match next {
                    Some(next_idx) => {
                        proof {
                            let c0 = old(self).chain@;
                            assert(c0.len() >= 2);
                            assert(next_idx == c0[1]);
                            assert(0 <= c0[1] < old(self).nodes@.len());
                        }
                        // the successor becomes the new head
                        self.nodes[next_idx].prev = None;
                        self.head = Some(next_idx);
                    },
                    None => {
                        // the head was the only node: the list becomes empty
                        self.head = None;
                        self.last = None;
                    },
                }
                self.length = self.length - 1;
                self.chain = Ghost(self.chain@.drop_first());
                proof {
                    let c0 = old(self).chain@;
                    let c1 = self.chain@;
                    let ns0 = old(self).nodes@;
                    let ns1 = self.nodes@;
                    assert(c1.len() == c0.len() - 1);
                    assert forall|k: int| 0 <= k < c1.len() implies #[trigger] c1[k] == c0[k
                        + 1] by {}
                    assert forall|k: int|
                        0 <= k < c1.len() implies (#[trigger] ns1[c1[k]].next) == (if k == c1.len()
                        - 1 {
                        None::<usize>
                    } else {
                        Some(c1[k + 1] as usize)
                    }) by {
                        if c0.len() >= 2 && k + 1 != 1 {
                            assert(c0[k + 1] != c0[1]);
                            assert(ns1[c0[k + 1]].next == ns0[c0[k + 1]].next);
                        }
                    }
                    assert forall|k: int|
                        0 <= k < c1.len() implies (#[trigger] ns1[c1[k]].prev) == (if k == 0 {
                        None::<usize>
                    } else {
                        Some(c1[k - 1] as usize)
                    }) by {
                        if k >= 1 {
                            assert(c0[k + 1] != c0[1]);
                            assert(ns1[c0[k + 1]].prev == ns0[c0[k + 1]].prev);
                        }
                    }
                    assert(self.wf());
                    assert forall|k: int| 0 <= k < c1.len() implies self@[k] == old(
                        self,
                    )@.drop_first()[k] by {
                        if c0.len() >= 2 && k + 1 != 1 {
                            assert(c0[k + 1] != c0[1]);
                        }
                        assert(ns1[c0[k + 1]].value == ns0[c0[k + 1]].value);
                    }
                    assert(self@ =~= old(self)@.drop_first());
                    assert(head_value == old(self)@[0]);
                }
                Some(head_value)
            },
            None => None,
        }
    }

    /// Appends `value` at the back of the list.
    pub fn push_back(&mut self, value: T)
        requires
            old(self).wf(),
        ensures
            final(self).wf(),
            final(self)@ == old(self)@.push(value),
    {
        self.push_back_node(value)
    }

    /// Appends `value` at the back of the list, under the name collection
    /// types commonly use.
    pub fn add(&mut self, value: T)
        requires
            old(self).wf(),
        ensures
            final(self).wf(),
            final(self)@ == old(self)@.push(value),
    {
        self.push_back_node(value)
    }

    /// Detaches the tail and returns its value, or nothing when the list is
    /// empty.
    pub fn pop_back(&mut self) -> (r: Option<T>)
        requires
            old(self).wf(),
        ensures
            final(self).wf(),
            old(self)@.len() == 0 ==> r is None && final(self)@ == old(self)@,
            old(self)@.len() > 0 ==> r == Some(old(self)@.last()) && final(self)@ == old(
                self,
            )@.drop_last(),
    {
        self.pop_back_node()
    }

    /// Prepends `value` at the front of the list.
    pub fn push_front(&mut self, value: T)
        requires
            old(self).wf(),
        ensures
            final(self).wf(),
            final(self)@ == seq![value] + old(self)@,
    {
        self.push_front_node(value)
    }

    /// Detaches the head and returns its value, or nothing when the list is
    /// empty.
    pub fn pop_front(&mut self) -> (r: Option<T>)
        requires
            old(self).wf(),
        ensures
            final(self).wf(),
            old(self)@.len() == 0 ==> r is None && final(self)@ == old(self)@,
            old(self)@.len() > 0 ==> r == Some(old(self)@[0]) && final(self)@ == old(
                self,
            )@.drop_first(),
    {
        self.pop_front_node()
    }

    /// Releases every node and resets the list to the empty state, whatever
    /// state it was in before.
    pub fn clear(&mut self)
        ensures
            final(self).wf(),
            final(self)@ == Self::spec_clear(old(self)@),
    {
        *self = Self::new();
    }

    /// True exactly when the list holds no value.
    pub fn is_empty(&self) -> (r: bool)
        requires
            self.wf(),
        ensures
            r <==> self@.len() == 0,
    {
        self.length == 0
    }

    /// The number of values the list holds.
    pub fn len(&self) -> (r: usize)
        requires
            self.wf(),
        ensures
            r == self@.len(),
    {
        self.length
    }

    /// The number of values the list holds, under its other name.
    pub fn size(&self) -> (r: usize)
        requires
            self.wf(),
        ensures
            r == self@.len(),
    {
        self.length
    }

    /// The 0-based position of the first (leftmost) value of `s` equal to
    /// `value`, or -1 when no value of `s` is equal to it.
    pub open spec fn spec_index_of(s: Seq<T>, value: T) -> int
        decreases s.len(),
    {
        if s.len() == 0 {
            -1
        } else if s[0] == value {
            0
        } else {
            let rest: int = Self::spec_index_of(s.drop_first(), value);
            if rest < 0 {
                -1
            } else {
                rest + 1
            }
        }
    }

    proof fn lemma_spec_index_of_found(s: Seq<T>, value: T, k: int)
        requires
            0 <= k < s.len(),
            s[k] == value,
            forall|j: int| 0 <= j < k ==> s[j] != value,
        ensures
            Self::spec_index_of(s, value) == k,
        decreases k,
    {
        if s[0] == value {
            assert(k == 0);
        } else {
            assert(s.drop_first()[k - 1] == s[k]);
            assert forall|j: int| 0 <= j < k - 1 implies s.drop_first()[j] != value by {
                assert(s.drop_first()[j] == s[j + 1]);
            }
            Self::lemma_spec_index_of_found(s.drop_first(), value, k - 1);
        }
    }

    proof fn lemma_spec_index_of_not_found(s: Seq<T>, value: T)
        requires
            forall|j: int| 0 <= j < s.len() ==> s[j] != value,
        ensures
            Self::spec_index_of(s, value) == -1,
        decreases s.len(),
    {
        if s.len() > 0 {
            assert forall|j: int| 0 <= j < s.drop_first().len() implies s.drop_first()[j]
                != value by {
                assert(s.drop_first()[j] == s[j + 1]);
            }
            Self::lemma_spec_index_of_not_found(s.drop_first(), value);
        }
    }

    /// `spec_index_of` names the leftmost match: a nonnegative result is a
    /// position of `s` holding `value` with no earlier position holding it,
    /// and -1 means no position of `s` holds it.
    pub proof fn lemma_index_of_leftmost(s: Seq<T>, value: T)
        ensures
            Self::spec_index_of(s, value) == -1 ==> (forall|k: int|
                0 <= k < s.len() ==> s[k] != value),
            Self::spec_index_of(s, value) != -1 ==> {
                let r: int = Self::spec_index_of(s, value);
                &&& 0 <= r < s.len()
                &&& s[r] == value
                &&& (forall|k: int| 0 <= k < r ==> s[k] != value)
            },
        decreases s.len(),
    {
        if s.len() > 0 && !(s[0] == value) {
            Self::lemma_index_of_leftmost(s.drop_first(), value);
            let rest: int = Self::spec_index_of(s.drop_first(), value);
            if rest == -1 {
                assert forall|k: int| 0 <= k < s.len() implies s[k] != value by {
                    if k > 0 {
                        assert(s.drop_first()[k - 1] == s[k]);
                    }
                }
            } else {
                assert(s[rest + 1] == s.drop_first()[rest]);
                assert forall|k: int| 0 <= k < rest + 1 implies s[k] != value by {
                    if k > 0 {
                        assert(s.drop_first()[k - 1] == s[k]);
                    }
                }
            }
        }
    }

    /// Searching an empty list finds nothing: the sentinel comes back for
    /// every probe value.
    pub proof fn lemma_index_of_empty(value: T)
        ensures
            Self::spec_index_of(Seq::<T>::empty(), value) == -1,
    {
    }

    /// Linear scan from the head for the first value equal to `value`,
    /// probing with a throwaway unlinked node as the comparison key.
    ///
    /// Returns the 0-based position of the first match, or the sentinel -1
    /// when the list is empty or no value matches. The exact result is
    /// stated for value types whose equality test agrees with equality of
    /// values, which holds of the primitive types.
    pub fn index_of(&self, value: T) -> (r: isize)
        requires
            self.wf(),
            self@.len() <= isize::MAX,
        ensures
            self@.len() == 0 ==> r == -1,
            r == -1 || 0 <= r < self@.len(),
            vstd::laws_eq::obeys_concrete_eq::<T>() ==> r == Self::spec_index_of(self@, value),
    {
        let probe = Node::new(value);
        let mut current: Option<usize> = self.head;
        let mut index: isize = 0;
        let mut find: bool = false;
        while current.is_some() && !find
            invariant
                self.wf(),
                self@.len() <= isize::MAX,
                0 <= index <= self@.len(),
                probe.value == value,
                !find && index < self@.len() ==> current == Some(
                    self.chain@[index as int] as usize,
                ),
                !find && index == self@.len() ==> current is None,
                !find ==> (vstd::laws_eq::obeys_concrete_eq::<T>() ==> (forall|k: int|
                    0 <= k < index ==> self@[k] != value)),
                find ==> 0 <= index < self@.len(),
                find ==> (vstd::laws_eq::obeys_concrete_eq::<T>() ==> self@[index as int] == value
                    && (forall|k: int| 0 <= k < index ==> self@[k] != value)),
            decreases 2 * (self@.len() - index) + (if find {
                0int
            } else {
                1int
            }),
        {
            if let Some(cur_idx) = current {
                proof {
                    vstd::std_specs::vec::axiom_spec_len(&self.nodes);
                    assert(cur_idx == self.chain@[index as int]);
                    assert(0 <= self.chain@[index as int] < self.nodes@.len());
                }
                let found_here: bool = probe.eq(&self.nodes[cur_idx]);
                proof {
                    reveal(vstd::laws_eq::obeys_concrete_eq);
                    if vstd::laws_eq::obeys_concrete_eq::<T>() {
                        assert(found_here == (value == self.nodes@[cur_idx as int].value));
                        assert(self.nodes@[cur_idx as int].value == self@[index as int]);
                    }
                }
                if found_here {
                    find = true;
                } else {
                    index = index + 1;
                    current = self.nodes[cur_idx].next;
                }
            }
        }

        proof {
            if vstd::laws_eq::obeys_concrete_eq::<T>() {
                if find {
                    Self::lemma_spec_index_of_found(self@, value, index as int);
                } else {
                    assert(index == self@.len());
                    Self::lemma_spec_index_of_not_found(self@, value);
                }
            }
        }
        if self.is_empty() || !find {
            return -1;
        }
        index
    }

    /// The state `clear` leaves behind: empty, whatever was there before.
    pub open spec fn spec_clear(s: Seq<T>) -> Seq<T> {
        Seq::empty()
    }

    /// Tearing down is idempotent: clearing a list that was just cleared
    /// changes nothing, so two clears in a row equal one.
    pub proof fn lemma_clear_idempotent(s: Seq<T>)
        ensures
            Self::spec_clear(Self::spec_clear(s)) == Self::spec_clear(s),
    {
    }

    /// After a clear, every probe value yields the not-found sentinel,
    /// whatever the list held before.
    pub proof fn lemma_clear_not_found(s: Seq<T>, value: T)
        ensures
            Self::spec_index_of(Self::spec_clear(s), value) == -1,
    {
    }

    /// One push at either end of the list, applied to its sequence of
    /// values: `true` pushes at the front, `false` at the back.
    pub open spec fn apply_pushes(s: Seq<T>, ops: Seq<(bool, T)>) -> Seq<T>
        decreases ops.len(),
    {
        if ops.len() == 0 {
            s
        } else {
            let rest: Seq<T> = Self::apply_pushes(s, ops.drop_last());
            let op: (bool, T) = ops.last();
            if op.0 {
                seq![op.1] + rest
            } else {
                rest.push(op.1)
            }
        }
    }

    /// Any mix of front and back pushes grows the list by exactly one value
    /// per push: after `n` pushes on an empty list the length is `n`.
    pub proof fn lemma_pushes_length(s: Seq<T>, ops: Seq<(bool, T)>)
        ensures
            Self::apply_pushes(s, ops).len() == s.len() + ops.len(),
        decreases ops.len(),
    {
        if ops.len() > 0 {
            Self::lemma_pushes_length(s, ops.drop_last());
        }
    }

    /// The sequence of pushes that appends each value of `vs` at the back,
    /// in order.
    pub open spec fn back_ops(vs: Seq<T>) -> Seq<(bool, T)> {
        vs.map(|_k: int, v: T| (false, v))
    }

    /// Pushing values at the back, in order, appends them in order.
    pub proof fn lemma_push_backs(s: Seq<T>, vs: Seq<T>)
        ensures
            Self::apply_pushes(s, Self::back_ops(vs)) == s + vs,
        decreases vs.len(),
    {
        if vs.len() == 0 {
            assert(s + vs =~= s);
        } else {
            assert(Self::back_ops(vs).drop_last() =~= Self::back_ops(vs.drop_last()));
            Self::lemma_push_backs(s, vs.drop_last());
            assert(Self::back_ops(vs).last() == (false, vs.last()));
            assert((s + vs.drop_last()).push(vs.last()) =~= s + vs);
        }
    }

    /// The values yielded by popping from the back until the list is empty,
    /// in the order they come out.
    pub open spec fn drain_back(s: Seq<T>) -> Seq<T>
        decreases s.len(),
    {
        if s.len() == 0 {
            Seq::empty()
        } else {
            seq![s.last()] + Self::drain_back(s.drop_last())
        }
    }

    /// The values yielded by popping from the front until the list is
    /// empty, in the order they come out.
    pub open spec fn drain_front(s: Seq<T>) -> Seq<T>
        decreases s.len(),
    {
        if s.len() == 0 {
            Seq::empty()
        } else {
            seq![s[0]] + Self::drain_front(s.drop_first())
        }
    }

    /// Draining from the back reverses the list's order.
    pub proof fn lemma_drain_back_reverse(s: Seq<T>)
        ensures
            Self::drain_back(s) == s.reverse(),
        decreases s.len(),
    {
        if s.len() > 0 {
            Self::lemma_drain_back_reverse(s.drop_last());
            assert forall|k: int| 0 <= k < s.len() implies Self::drain_back(s)[k]
                == s.reverse()[k] by {
                if k > 0 {
                    assert(Self::drain_back(s)[k] == s.drop_last().reverse()[k - 1]);
                }
            }
            assert(Self::drain_back(s) =~= s.reverse());
        } else {
            assert(Self::drain_back(s) =~= s.reverse());
        }
    }

    /// Draining from the front keeps the list's order.
    pub proof fn lemma_drain_front_keeps_order(s: Seq<T>)
        ensures
            Self::drain_front(s) == s,
        decreases s.len(),
    {
        if s.len() > 0 {
            Self::lemma_drain_front_keeps_order(s.drop_first());
        }
        assert(Self::drain_front(s) =~= s);
    }

    /// Pushing `n` values at the back of an empty list and then popping `n`
    /// times from the back yields the values in exact reverse order of
    /// insertion; popping from the front instead yields them in insertion
    /// order.
    pub proof fn lemma_push_pop_round_trip(vs: Seq<T>)
        ensures
            Self::drain_back(Self::apply_pushes(Seq::<T>::empty(), Self::back_ops(vs)))
                == vs.reverse(),
            Self::drain_front(Self::apply_pushes(Seq::<T>::empty(), Self::back_ops(vs))) == vs,
    {
        Self::lemma_push_backs(Seq::empty(), vs);
        assert(Seq::<T>::empty() + vs =~= vs);
        Self::lemma_drain_back_reverse(vs);
        Self::lemma_drain_front_keeps_order(vs);
    }

    /// Pushing one value at the back of an empty list and popping from the
    /// back yields that value and leaves the list empty again.
    pub proof fn lemma_push_back_pop_back_empty(s: Seq<T>, value: T)
        requires
            s.len() == 0,
        ensures
            s.push(value).last() == value,
            s.push(value).drop_last() == s,
    {
        assert(s.push(value).drop_last() =~= s);
    }
}

} // verus!
