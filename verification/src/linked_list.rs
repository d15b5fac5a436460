//! A singly linked list.

use vstd::prelude::*;
use vstd::std_specs::cmp::{PartialEqSpec, PartialEqSpecImpl};

verus! {

/// A singly linked list that knows its length. Its view is the sequence of
/// its elements, first element first.
#[derive(Debug)]
pub struct LinkedList<T> {
    /// The first node and the number of nodes. They are kept together so
    /// that both can be taken out of the list at once.
    parts: (Option<Box<Node<T>>>, usize),
}

#[derive(Debug)]
struct Node<T> {
    value: T,
    next: Option<Box<Node<T>>>,
}

impl<T> Node<T> {
    /// The elements from this node on.
    pub closed spec fn elements(self) -> Seq<T>
        decreases self,
    {
        seq![self.value] + Node::elements_from(self.next)
    }

    /// The elements from `link` on.
    pub closed spec fn elements_from(link: Option<Box<Node<T>>>) -> Seq<T>
        decreases link,
    {
        match link {
            None => Seq::empty(),
            Some(node) => node.elements(),
        }
    }
}

impl<T: Clone + PartialEq> Node<T> {
    /// A node that holds `value` in front of the nodes from `next` on.
    pub fn new(value: T, next: Option<Box<Node<T>>>) -> (node: Node<T>)
        ensures
            node.elements() == seq![value] + Node::elements_from(next),
    {
        Node { value: value, next: next }
    }
}

impl<T> View for LinkedList<T> {
    type V = Seq<T>;

    closed spec fn view(&self) -> Seq<T> {
        Node::elements_from(self.parts.0)
    }
}

impl<T> LinkedList<T> {
    #[verifier::type_invariant]
    spec fn well_formed(self) -> bool {
        self.parts.1 == self@.len()
    }

    /// Takes the nodes out of the list, which is empty after that, and
    /// hands them over with their number.
    fn take_parts(&mut self) -> (parts: (Option<Box<Node<T>>>, usize))
        ensures
            Node::elements_from(parts.0) == old(self)@,
            parts.1 == old(self)@.len(),
            final(self)@ == Seq::<T>::empty(),
        opens_invariants none
        no_unwind
    {
        proof {
            use_type_invariant(&*self);
        }
        let mut parts: (Option<Box<Node<T>>>, usize) = (None, 0);
        std::mem::swap(&mut self.parts, &mut parts);
        parts
    }
}

impl<T: Clone + PartialEq> LinkedList<T> {
    /// The empty list.
    pub fn new() -> (list: LinkedList<T>)
        ensures
            list@ == Seq::<T>::empty(),
    {
        LinkedList { parts: (None, 0) }
    }

    /// The number of elements.
    pub fn get_size(&self) -> (size: usize)
        ensures
            size == self@.len(),
    {
        proof {
            use_type_invariant(self);
        }
        self.parts.1
    }

    /// Tells whether the list has no element.
    pub fn is_empty(&self) -> (empty: bool)
        ensures
            empty == (self@.len() == 0),
    {
        self.get_size() == 0
    }

    /// Puts `value` in front of the list.
    pub fn push_front(&mut self, value: T)
        requires
            old(self)@.len() < usize::MAX,
        ensures
            final(self)@ == seq![value] + old(self)@,
    {
        let (head, size) = self.take_parts();
        let new_node: Box<Node<T>> = Box::new(Node::new(value, head));
        *self = LinkedList { parts: (Some(new_node), size + 1) };
    }

    /// Takes the first element off the list, if it has one.
    pub fn pop_front(&mut self) -> (popped: Option<T>)
        ensures
            match popped {
                Some(value) => old(self)@.len() > 0 && value == old(self)@[0] && final(self)@
                    == old(self)@.skip(1),
                None => old(self)@.len() == 0 && final(self)@ == old(self)@,
            },
    {
        let (head, size) = self.take_parts();
        match head {
            None => None,
            Some(node) => {
                let Node { value, next } = *node;
                assert(Node::elements_from(head).skip(1) == Node::elements_from(next));
                *self = LinkedList { parts: (next, size - 1) };
                Some(value)
            },
        }
    }

    /// The first element, if there is one.
    pub fn peek(&self) -> (first: Option<&T>)
        ensures
            match first {
                Some(value) => self@.len() > 0 && *value == self@[0],
                None => self@.len() == 0,
            },
    {
        match &self.parts.0 {
            None => None,
            Some(node) => Some(&node.value),
        }
    }

    /// The first element, to be changed in place, if there is one.
    pub fn peek_mut(&mut self) -> (first: Option<&mut T>)
        ensures
            match first {
                Some(value) => old(self)@.len() > 0 && *value == old(self)@[0] && final(self)@
                    == old(self)@.update(0, *final(value)),
                None => old(self)@.len() == 0 && final(self)@ == old(self)@,
            },
    {
        proof {
            use_type_invariant(&*self);
        }
        first_value_mut(&mut self.parts.0)
    }

    /// The elements as a vector, first element first. Each is a clone of
    /// the one in the list.
    pub fn to_vec(&self) -> (vec: Vec<T>)
        ensures
            vec@.len() == self@.len(),
            forall|i: int| 0 <= i < self@.len() ==> cloned(self@[i], #[trigger] vec@[i]),
    {
        let mut vec: Vec<T> = Vec::new();
        let mut current = &self.parts.0;
        assert(self@.skip(0) == self@);
        loop
            invariant
                vec@.len() <= self@.len(),
                Node::elements_from(*current) == self@.skip(vec@.len() as int),
                forall|i: int| 0 <= i < vec@.len() ==> cloned(self@[i], #[trigger] vec@[i]),
            decreases self@.len() - vec@.len(),
        {
            match current {
                None => {
                    return vec;
                },
                Some(node) => {
                    let ghost at = vec@.len() as int;
                    assert(self@.skip(at)[0] == node.value);
                    assert(Node::elements_from(node.next) == self@.skip(at + 1)) by {
                        assert(self@.skip(at).skip(1) == self@.skip(at + 1));
                    }
                    vec.push(node.value.clone());
                    current = &node.next;
                },
            }
        }
    }

    /// The list of the elements of `vec`, first element first.
    pub fn from_vec(vec: Vec<T>) -> (list: LinkedList<T>)
        ensures
            list@ == vec@,
    {
        let ghost all = vec@;
        let mut rest = vec;
        let total: usize = rest.len();
        let mut list: LinkedList<T> = LinkedList::new();
        assert(all.skip(all.len() as int) == Seq::<T>::empty());
        loop
            invariant
                all == vec@,
                all.len() == total,
                rest@.len() <= all.len(),
                rest@ == all.take(rest@.len() as int),
                list@ == all.skip(rest@.len() as int),
            decreases rest@.len(),
        {
            let ghost left = rest@.len() as int;
            match rest.pop() {
                None => {
                    assert(all.skip(0) == all);
                    return list;
                },
                Some(item) => {
                    assert(item == all[left - 1]);
                    assert(seq![item] + all.skip(left) == all.skip(left - 1));
                    assert(rest@ == all.take(left - 1));
                    list.push_front(item);
                },
            }
        }
    }

    /// Removes every element.
    pub fn clear(&mut self)
        ensures
            final(self)@ == Seq::<T>::empty(),
    {
        *self = LinkedList { parts: (None, 0) };
    }
}

/// The value of the first node from `link` on, to be changed in place.
fn first_value_mut<T>(link: &mut Option<Box<Node<T>>>) -> (first: Option<&mut T>)
    ensures
        match first {
            Some(value) => {
                &&& Node::elements_from(*old(link)).len() > 0
                &&& *value == Node::elements_from(*old(link))[0]
                &&& Node::elements_from(*final(link)) == Node::elements_from(*old(link)).update(
                    0,
                    *final(value),
                )
            },
            None => Node::elements_from(*old(link)).len() == 0 && *final(link) == *old(link),
        },
    no_unwind
{
    match link {
        None => None,
        Some(node) => Some(&mut node.value),
    }
}

impl<T: Clone + PartialEq> Clone for Node<T> {
    /// A chain of nodes as long as this one, each value a clone of the
    /// value at its place.
    fn clone(&self) -> (copy: Node<T>)
        ensures
            copy.elements().len() == self.elements().len(),
            forall|i: int|
                0 <= i < self.elements().len() ==> cloned(
                    self.elements()[i],
                    #[trigger] copy.elements()[i],
                ),
        decreases self,
    {
        let copy = Node {
            value: self.value.clone(),
            next: match &self.next {
                Some(node) => Some(Box::new((&**node).clone())),
                None => None,
            },
        };
        assert forall|i: int| 0 <= i < self.elements().len() implies cloned(
            self.elements()[i],
            #[trigger] copy.elements()[i],
        ) by {
            if i > 0 {
                assert(self.elements()[i] == Node::elements_from(self.next)[i - 1]);
                assert(copy.elements()[i] == Node::elements_from(copy.next)[i - 1]);
            }
        }
        copy
    }
}

impl<T: Clone + PartialEq> Clone for LinkedList<T> {
    /// A list of the same length, each element a clone of the element at
    /// its place.
    fn clone(&self) -> (copy: LinkedList<T>)
        ensures
            copy@.len() == self@.len(),
            forall|i: int| 0 <= i < self@.len() ==> cloned(self@[i], #[trigger] copy@[i]),
    {
        proof {
            use_type_invariant(self);
        }
        let head = match &self.parts.0 {
            Some(node) => Some(Box::new((&**node).clone())),
            None => None,
        };
        LinkedList { parts: (head, self.parts.1) }
    }
}

impl<T: Clone + PartialEq> PartialEq for LinkedList<T> {
    /// Two lists are equal when they are equally long and hold equal
    /// elements at each place.
    fn eq(&self, other: &Self) -> (equal: bool) {
        proof {
            use_type_invariant(self);
            use_type_invariant(other);
        }
        if self.parts.1 != other.parts.1 {
            return false;
        }
        let mut current_self = &self.parts.0;
        let mut current_other = &other.parts.0;
        let ghost mut at: int = 0;
        assert(self@.skip(0) == self@);
        assert(other@.skip(0) == other@);
        loop
            invariant
                self@.len() == other@.len(),
                0 <= at <= self@.len(),
                Node::elements_from(*current_self) == self@.skip(at),
                Node::elements_from(*current_other) == other@.skip(at),
                T::obeys_eq_spec() ==> forall|i: int|
                    0 <= i < at ==> (#[trigger] self@[i]).eq_spec(&other@[i]),
            decreases self@.len() - at,
        {
            match (current_self, current_other) {
                (Some(node_self), Some(node_other)) => {
                    assert(self@.skip(at)[0] == node_self.value);
                    assert(other@.skip(at)[0] == node_other.value);
                    if node_self.value != node_other.value {
                        assert(self@.skip(at).len() > 0);
                        assert(other@.skip(at).len() > 0);
                        assert(self@.skip(at)[0] == self@[at]);
                        assert(other@.skip(at)[0] == other@[at]);
                        return false;
                    }
                    assert(Node::elements_from(node_self.next) == self@.skip(at + 1)) by {
                        assert(self@.skip(at).skip(1) == self@.skip(at + 1));
                    }
                    assert(Node::elements_from(node_other.next) == other@.skip(at + 1)) by {
                        assert(other@.skip(at).skip(1) == other@.skip(at + 1));
                    }
                    current_self = &node_self.next;
                    current_other = &node_other.next;
                    proof {
                        at = at + 1;
                    }
                },
                _ => {
                    assert(self@.skip(at).len() == 0 || other@.skip(at).len() == 0);
                    return true;
                },
            }
        }
    }
}

impl<T: Clone + PartialEq> PartialEqSpecImpl for LinkedList<T> {
    open spec fn obeys_eq_spec() -> bool {
        T::obeys_eq_spec()
    }

    open spec fn eq_spec(&self, other: &LinkedList<T>) -> bool {
        self@.len() == other@.len() && forall|i: int|
            0 <= i < self@.len() ==> (#[trigger] self@[i]).eq_spec(&other@[i])
    }
}

impl<T> Drop for LinkedList<T> {
    /// Lets the nodes go one after the other, so that a long list needs no
    /// deep stack to go away.
    fn drop(&mut self)
        opens_invariants none
        no_unwind
    {
        let (head, _) = self.take_parts();
        let mut current = head;
        loop
            decreases Node::elements_from(current).len(),
        {
            match current {
                None => {
                    return ;
                },
                Some(node) => {
                    let Node { value, next } = *node;
                    current = next;
                },
            }
        }
    }
}

} // verus!
