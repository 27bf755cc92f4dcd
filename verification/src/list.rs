//! A singly linked list with push and pop at the head.
//!
//! The view of a list is the sequence of its values from head to tail, so
//! `push` prepends and `pop` removes the most recently pushed value.

use vstd::prelude::*;

verus! {

struct Node<T> {
    val: T,
    next: Option<Box<Node<T>>>,
}

/// The values of the chain starting at `node`, head first.
spec fn node_seq<T>(node: Node<T>) -> Seq<T>
    decreases node,
{
    match node.next {
        Some(boxed) => seq![node.val] + node_seq(*boxed),
        None => seq![node.val],
    }
}

/// A stack-shaped list: values enter and leave at the head.
pub struct LinkedList<T> {
    head: Option<Node<T>>,
}

impl<T> View for LinkedList<T> {
    type V = Seq<T>;

    closed spec fn view(&self) -> Seq<T> {
        match self.head {
            Some(node) => node_seq(node),
            None => Seq::empty(),
        }
    }
}

impl<T> LinkedList<T> {
    /// The empty list.
    pub fn new() -> (r: Self)
        ensures
            r@ == Seq::<T>::empty(),
    {
        LinkedList { head: None }
    }

    /// Prepend a value: it becomes the head of the list.
    pub fn push(&mut self, value: T)
        ensures
            final(self)@ == seq![value] + old(self)@,
    {
        let old_head = self.head.take();

        let new_head = match old_head {
            None => Node { val: value, next: None },
            Some(old_head) => Node { val: value, next: Some(Box::new(old_head)) },
        };

        self.head = Some(new_head);
        proof {
            assert(seq![value] + Seq::<T>::empty() =~= seq![value]);
        }
    }

    /// Remove and return the head value; `None` exactly when the list is
    /// empty.
    pub fn pop(&mut self) -> (r: Option<T>)
        ensures
            old(self)@.len() == 0 ==> r is None && final(self)@ == old(self)@,
            old(self)@.len() > 0 ==> r == Some(old(self)@[0]) && final(self)@ == old(
                self,
            )@.drop_first(),
    {
        let old_head = match self.head.take() {
            None => {
                return None;
            },
            Some(h) => h,
        };

        let ghost rest = match &old_head.next {
            Some(boxed) => node_seq(**boxed),
            None => Seq::<T>::empty(),
        };
        proof {
            assert((seq![old_head.val] + rest).drop_first() =~= rest);
            assert(seq![old_head.val] + Seq::<T>::empty() =~= seq![old_head.val]);
        }

        let new_head = match old_head.next {
            None => None,
            Some(node) => Some(*node),
        };
        self.head = new_head;
        Some(old_head.val)
    }
}

} // verus!
