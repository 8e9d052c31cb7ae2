//! A singly linked list with front insertion and removal, a borrowed
//! iterator, and structure-preserving clone.

use vstd::prelude::*;

verus! {

/// One cell of the list.
pub struct Node<T> {
    value: T,
    next: Option<Box<Node<T>>>,
}

impl<T> Node<T> {
    /// The values of the chain starting here, front first.
    pub closed spec fn seq_view(self) -> Seq<T>
        decreases self,
    {
        match self.next {
            None => seq![self.value],
            Some(n) => seq![self.value] + n.seq_view(),
        }
    }

    /// Builds a cell in front of `next`.
    pub fn new(value: T, next: Option<Box<Node<T>>>) -> (r: Node<T>)
        ensures
            r.seq_view() == match next {
                None => seq![value],
                Some(n) => seq![value] + n.seq_view(),
            },
    {
        Node { value, next }
    }
}

/// A singly linked list; its view is the sequence of values, front first.
pub struct LinkedList<T> {
    head: Option<Box<Node<T>>>,
    size: usize,
}

impl<T> View for LinkedList<T> {
    type V = Seq<T>;

    closed spec fn view(&self) -> Seq<T> {
        match self.head {
            None => Seq::empty(),
            Some(n) => n.seq_view(),
        }
    }
}

/// A borrowed cursor over a list; its view is what remains to be yielded.
pub struct LinkedListIter<'a, T> {
    current: &'a Option<Box<Node<T>>>,
}

impl<'a, T> View for LinkedListIter<'a, T> {
    type V = Seq<T>;

    closed spec fn view(&self) -> Seq<T> {
        match self.current {
            None => Seq::empty(),
            Some(n) => n.seq_view(),
        }
    }
}

impl<T> LinkedList<T> {
    /// Internal invariant: the stored size is the number of values.
    pub closed spec fn wf(&self) -> bool {
        self.size == self@.len()
    }

    /// An empty list.
    pub fn new() -> (r: LinkedList<T>)
        ensures
            r.wf(),
            r@ == Seq::<T>::empty(),
    {
        LinkedList { head: None, size: 0 }
    }

    /// Number of values in the list.
    pub fn get_size(&self) -> (n: usize)
        requires
            self.wf(),
        ensures
            n == self@.len(),
    {
        self.size
    }

    /// Whether the list holds no values.
    pub fn empty(&self) -> (r: bool)
        requires
            self.wf(),
        ensures
            r == (self@.len() == 0),
    {
        self.get_size() == 0
    }

    /// Puts `value` at the front.
    pub fn push(&mut self, value: T)
        requires
            old(self).wf(),
            old(self)@.len() < usize::MAX,
        ensures
            final(self).wf(),
            final(self)@ == seq![value] + old(self)@,
    {
        let mut head: Option<Box<Node<T>>> = None;
        core::mem::swap(&mut head, &mut self.head);
        let ghost prev = self@;
        let new_node: Box<Node<T>> = Box::new(Node { value, next: head });
        self.head = Some(new_node);
        self.size = self.size + 1;
        proof {
            assert(self@ =~= seq![value] + old(self)@);
        }
    }

    /// Takes the front value, when there is one.
    pub fn pop(&mut self) -> (r: Option<T>)
        requires
            old(self).wf(),
        ensures
            final(self).wf(),
            old(self)@.len() > 0 ==> r == Some(old(self)@[0]) && final(self)@ == old(
                self,
            )@.drop_first(),
            old(self)@.len() == 0 ==> r is None && final(self)@ == old(self)@,
    {
        let mut head: Option<Box<Node<T>>> = None;
        core::mem::swap(&mut head, &mut self.head);
        match head {
            None => None,
            Some(node) => {
                let node = *node;
                self.head = node.next;
                self.size = self.size - 1;
                proof {
                    assert(old(self)@ == node.seq_view());
                    assert(final(self)@ =~= old(self)@.drop_first());
                }
                Some(node.value)
            },
        }
    }

    /// A cursor over the values, front first.
    pub fn iter(&self) -> (r: LinkedListIter<'_, T>)
        ensures
            r@ == self@,
    {
        LinkedListIter { current: &self.head }
    }
}

impl<'a, T: Copy> LinkedListIter<'a, T> {
    /// Yields the next value, advancing the cursor.
    pub fn next(&mut self) -> (r: Option<T>)
        ensures
            old(self)@.len() > 0 ==> r == Some(old(self)@[0]) && final(self)@ == old(
                self,
            )@.drop_first(),
            old(self)@.len() == 0 ==> r is None && final(self)@ == old(self)@,
    {
        match self.current {
            Some(node) => {
                let v = node.value;
                self.current = &node.next;
                proof {
                    assert(final(self)@ =~= old(self)@.drop_first());
                }
                Some(v)
            },
            None => None,
        }
    }
}

/// The values of an optional chain, front first.
pub closed spec fn chain_view<T>(o: Option<Box<Node<T>>>) -> Seq<T> {
    match o {
        None => Seq::empty(),
        Some(n) => n.seq_view(),
    }
}

/// Element-wise equality of two value sequences, as each element's own
/// equality defines it.
pub open spec fn elements_eq<T: vstd::std_specs::cmp::PartialEqSpec>(x: Seq<T>, y: Seq<T>) -> bool {
    x.len() == y.len() && (forall|i: int| 0 <= i < x.len() ==> x[i].eq_spec(&y[i]))
}

fn chains_eq<T: vstd::std_specs::cmp::PartialEqSpec>(
    a: &Option<Box<Node<T>>>,
    b: &Option<Box<Node<T>>>,
) -> (r: bool)
    ensures
        T::obeys_eq_spec() ==> r == elements_eq(chain_view(*a), chain_view(*b)),
    decreases *a,
{
    match (a, b) {
        (None, None) => true,
        (Some(na), Some(nb)) => {
            let values_match = na.value == nb.value;
            if !values_match {
                proof {
                    if T::obeys_eq_spec() {
                        assert(chain_view(*a)[0] == na.value);
                        assert(chain_view(*b)[0] == nb.value);
                    }
                }
                false
            } else {
                let rest = chains_eq(&na.next, &nb.next);
                proof {
                    if T::obeys_eq_spec() {
                        let va = chain_view(*a);
                        let vb = chain_view(*b);
                        assert(va =~= seq![na.value] + chain_view(na.next));
                        assert(vb =~= seq![nb.value] + chain_view(nb.next));
                        if rest {
                            assert forall|i: int| 0 <= i < va.len() implies va[i].eq_spec(
                                &vb[i],
                            ) by {
                                if i > 0 {
                                    assert(va[i] == chain_view(na.next)[i - 1]);
                                    assert(vb[i] == chain_view(nb.next)[i - 1]);
                                }
                            }
                        } else {
                            if elements_eq(va, vb) {
                                assert forall|i: int|
                                    0 <= i < chain_view(na.next).len() implies chain_view(
                                    na.next,
                                )[i].eq_spec(&chain_view(nb.next)[i]) by {
                                    assert(chain_view(na.next)[i] == va[i + 1]);
                                    assert(chain_view(nb.next)[i] == vb[i + 1]);
                                }
                            }
                        }
                    }
                }
                rest
            }
        },
        _ => false,
    }
}

impl<T: vstd::std_specs::cmp::PartialEqSpec> PartialEq for LinkedList<T> {
    /// Structural equality: the same values in the same order.
    fn eq(&self, other: &Self) -> (r: bool) {
        proof {
            if T::obeys_eq_spec() {
                assert(chain_view(self.head) == self@);
                assert(chain_view(other.head) == other@);
            }
        }
        chains_eq(&self.head, &other.head)
    }
}

impl<T: vstd::std_specs::cmp::PartialEqSpec> vstd::std_specs::cmp::PartialEqSpecImpl for LinkedList<T> {
    open spec fn obeys_eq_spec() -> bool {
        T::obeys_eq_spec()
    }

    open spec fn eq_spec(&self, other: &Self) -> bool {
        elements_eq(self@, other@)
    }
}

fn clone_chain<T: Copy>(node: &Node<T>) -> (r: Node<T>)
    ensures
        r.seq_view() == node.seq_view(),
    decreases *node,
{
    match &node.next {
        None => Node { value: node.value, next: None },
        Some(n) => Node { value: node.value, next: Some(Box::new(clone_chain(n))) },
    }
}

impl<T: Copy> Clone for LinkedList<T> {
    /// A structural copy: the clone holds the same values in the same
    /// order.
    fn clone(&self) -> (r: Self)
        ensures
            r@ == self@,
            self.wf() ==> r.wf(),
    {
        match &self.head {
            None => LinkedList { head: None, size: self.size },
            Some(n) => LinkedList { head: Some(Box::new(clone_chain(n))), size: self.size },
        }
    }
}

impl<T> Drop for LinkedList<T> {
    /// Frees the cells iteratively, so a very long list cannot overflow
    /// the stack through nested drops.
    fn drop(&mut self)
        opens_invariants none
        no_unwind
    {
        let mut current: Option<Box<Node<T>>> = None;
        core::mem::swap(&mut current, &mut self.head);
        loop
            ensures
                true,
            decreases chain_view(current).len(),
        {
            match current {
                Some(node) => {
                    let inner = *node;
                    proof {
                        assert(inner.seq_view().len() == 1 + chain_view(inner.next).len());
                    }
                    current = inner.next;
                },
                None => {
                    break ;
                },
            }
        }
    }
}

} // verus!
